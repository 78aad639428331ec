//! Applying staged configuration changes: the decision taken on
//! `POST /api/config/apply` and the flag recording that the latest apply
//! failed.

use vstd::prelude::*;

verus! {

/// Whether the most recent apply failed, as `GET /api/status` reports it.
#[derive(Clone, Copy, Debug)]
pub struct ApplyFailedFlag {
    failed: bool,
}

impl View for ApplyFailedFlag {
    type V = bool;

    closed spec fn view(&self) -> bool {
        self.failed
    }
}

impl ApplyFailedFlag {
    /// A cleared flag.
    pub fn new() -> (r: Self)
        ensures
            !r@,
    {
        ApplyFailedFlag { failed: false }
    }
}

/// Records that the most recent apply failed.
pub fn mark_apply_failed(flag: &mut ApplyFailedFlag)
    ensures
        final(flag)@,
{
    flag.failed = true;
}

/// Clears the record of a failed apply.
pub fn clear_apply_failed(flag: &mut ApplyFailedFlag)
    ensures
        !final(flag)@,
{
    flag.failed = false;
}

/// Whether the most recent apply failed.
pub fn apply_failed_flag(flag: &ApplyFailedFlag) -> (r: bool)
    ensures
        r == flag@,
{
    flag.failed
}

/// The answer to `POST /api/config/apply`, and whether the restart
/// supervisor is to be woken.
#[derive(Clone, Copy, Debug, PartialEq, Eq)]
pub struct ApplyReply {
    pub status: u16,
    pub status_text: &'static str,
    pub had_pending_changes: bool,
    pub wake_supervisor: bool,
}

/// Decides an apply request. Without staged changes nothing restarts and
/// the answer is 200 `no_pending_changes`; with some, a fresh attempt
/// clears the failure flag, wakes the supervisor and answers 202
/// `apply_requested`.
pub fn config_apply_decision(has_pending_changes: bool, flag: &mut ApplyFailedFlag) -> (r: ApplyReply)
    ensures
        r.had_pending_changes == has_pending_changes,
        r.wake_supervisor == has_pending_changes,
        has_pending_changes ==> r.status == 202 && r.status_text@ == "apply_requested"@ && !final(flag)@,
        !has_pending_changes ==> r.status == 200 && r.status_text@ == "no_pending_changes"@ && final(flag)@
            == old(flag)@,
{
    if !has_pending_changes {
        return ApplyReply {
            status: 200,
            status_text: "no_pending_changes",
            had_pending_changes: false,
            wake_supervisor: false,
        };
    }
    clear_apply_failed(flag);
    ApplyReply { status: 202, status_text: "apply_requested", had_pending_changes: true, wake_supervisor: true }
}

} // verus!
