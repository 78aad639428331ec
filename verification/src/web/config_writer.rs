//! The health of the configuration file writer. A rollback that fails
//! leaves the file in an unknown state: the writer is then poisoned and
//! refuses every read and write until a rollback succeeds.

use vstd::prelude::*;
use crate::text::owned;
use crate::utils::{error_text, OpcGwError};
use crate::web::api::{refused, STATUS_SERVICE_UNAVAILABLE};
use crate::web::crud::{has_piece, io_refusal};

verus! {

/// Text of the refusal of a poisoned writer.
pub open spec fn poisoned_text() -> Seq<char> {
    "config writer poisoned: a prior rollback IO failed; gateway is in an inconsistent state. Restart required."@
}

/// The error every operation of a poisoned writer returns.
pub fn poisoned_err() -> (r: OpcGwError)
    ensures
        r matches OpcGwError::Web(m) && m@ == poisoned_text(),
{
    OpcGwError::Web(
        owned(
            "config writer poisoned: a prior rollback IO failed; gateway is in an inconsistent state. Restart required.",
        ),
    )
}

/// Whether the writer is poisoned.
#[derive(Clone, Copy, Debug)]
pub struct WriterHealth {
    poisoned: bool,
}

impl View for WriterHealth {
    type V = bool;

    closed spec fn view(&self) -> bool {
        self.poisoned
    }
}

impl WriterHealth {
    /// A healthy writer.
    pub fn new() -> (r: Self)
        ensures
            !r@,
    {
        WriterHealth { poisoned: false }
    }

    /// Whether the writer is poisoned.
    pub fn is_poisoned(&self) -> (r: bool)
        ensures
            r == self@,
    {
        self.poisoned
    }

    /// Allows a read or write: refused with [`poisoned_err`] exactly when
    /// the writer is poisoned.
    pub fn check_usable(&self) -> (r: Result<(), OpcGwError>)
        ensures
            r is Err <==> self@,
            r matches Err(e) ==> e matches OpcGwError::Web(m) && m@ == poisoned_text(),
    {
        if self.poisoned {
            Err(poisoned_err())
        } else {
            Ok(())
        }
    }

    /// Records the outcome of a rollback: a failed one poisons the writer,
    /// a successful one heals it.
    pub fn record_rollback(&mut self, succeeded: bool)
        ensures
            final(self)@ == !succeeded,
    {
        self.poisoned = !succeeded;
    }
}

/// A poisoned writer's refusal, reported through the configuration IO
/// error path, is the 503 "inconsistent state" answer.
pub proof fn lemma_poisoned_refusal_is_unavailable(e: OpcGwError)
    requires
        e matches OpcGwError::Web(m) && m@ == poisoned_text(),
    ensures
        io_refusal(error_text(e)) == refused(
            STATUS_SERVICE_UNAVAILABLE,
            "gateway in inconsistent state: prior rollback failed"@,
            Some("restart the gateway; on-disk config may need manual review"@),
        ),
{
    reveal_strlit("Web server error: ");
    reveal_strlit(
        "config writer poisoned: a prior rollback IO failed; gateway is in an inconsistent state. Restart required.",
    );
    reveal_strlit("config writer poisoned");
    let t = error_text(e);
    let n = "config writer poisoned"@;
    assert(t.subrange(18, 18 + n.len() as int) =~= n);
    assert(has_piece(t, n));
}

} // verus!
