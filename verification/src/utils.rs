//! The gateway's error type and the storage-latency budgets: their
//! defaults, the parsing of an override and its application.

use vstd::prelude::*;
use crate::text::{cat, chars_of, decimal, digit_char};
use crate::web::auth::{trim_chars, trim_end_ws, trim_start_ws, trim_ws};
use crate::web::api::unicode_ws;

verus! {

// ---------------------------------------------------------------------
// Errors
// ---------------------------------------------------------------------

/// Errors raised across the gateway.
#[derive(Clone, Debug, PartialEq, Eq)]
pub enum OpcGwError {
    Configuration(String),
    ChirpStack(String),
    OpcUa(String),
    Storage(String),
    Database(String),
    CommandValidation { device_id: String, command_name: String, reason: String },
    Web(String),
}

/// The display text of an error.
pub open spec fn error_text(e: OpcGwError) -> Seq<char> {
    match e {
        OpcGwError::Configuration(m) => "Configuration error: "@ + m@,
        OpcGwError::ChirpStack(m) => "ChirpStack poller error: "@ + m@,
        OpcGwError::OpcUa(m) => "OPC UA error: "@ + m@,
        OpcGwError::Storage(m) => "Storage error: "@ + m@,
        OpcGwError::Database(m) => "Database error: "@ + m@,
        OpcGwError::CommandValidation { device_id, command_name, reason } => "Command validation error for device '"@
            + device_id@ + "', command '"@ + command_name@ + "': "@ + reason@,
        OpcGwError::Web(m) => "Web server error: "@ + m@,
    }
}

impl OpcGwError {
    /// The display text of the error.
    pub fn to_string(&self) -> (r: String)
        ensures
            r@ == error_text(*self),
    {
        match self {
            OpcGwError::Configuration(m) => cat("Configuration error: ", m.as_str()),
            OpcGwError::ChirpStack(m) => cat("ChirpStack poller error: ", m.as_str()),
            OpcGwError::OpcUa(m) => cat("OPC UA error: ", m.as_str()),
            OpcGwError::Storage(m) => cat("Storage error: ", m.as_str()),
            OpcGwError::Database(m) => cat("Database error: ", m.as_str()),
            OpcGwError::CommandValidation { device_id, command_name, reason } => {
                let a = cat("Command validation error for device '", device_id.as_str());
                let b = cat(a.as_str(), "', command '");
                let c = cat(b.as_str(), command_name.as_str());
                let d = cat(c.as_str(), "': ");
                cat(d.as_str(), reason.as_str())
            },
            OpcGwError::Web(m) => cat("Web server error: ", m.as_str()),
        }
    }
}

// ---------------------------------------------------------------------
// Storage-latency budgets
// ---------------------------------------------------------------------

/// Default storage-query budget in ms, sized for NAS-class single-row writes.
pub const DEFAULT_STORAGE_QUERY_BUDGET_MS: u64 = 250;

/// Default batch-write budget in ms, sized for an end-of-cycle batch on NAS storage.
pub const DEFAULT_BATCH_WRITE_BUDGET_MS: u64 = 2000;

/// Name of the variable overriding the storage-query budget.
pub const STORAGE_QUERY_BUDGET_ENV: &'static str = "OPCGW_STORAGE_QUERY_BUDGET_MS";

/// Name of the variable overriding the batch-write budget.
pub const BATCH_WRITE_BUDGET_ENV: &'static str = "OPCGW_BATCH_WRITE_BUDGET_MS";

/// Whether `c` is an ASCII decimal digit.
pub open spec fn is_digit(c: char) -> bool {
    '0' <= c && c <= '9'
}

/// Whether every character of `s` is a decimal digit.
pub open spec fn all_digits(s: Seq<char>) -> bool {
    forall|i: int| 0 <= i < s.len() ==> is_digit(#[trigger] s[i])
}

/// The number written by the decimal digits `s` (most significant first).
pub open spec fn digits_value(s: Seq<char>) -> nat
    decreases s.len(),
{
    if s.len() == 0 {
        0
    } else {
        digits_value(s.drop_last()) * 10 + ((s.last() as u32) - ('0' as u32)) as nat
    }
}

/// `s` without one leading `+`.
pub open spec fn unsigned_digits(s: Seq<char>) -> Seq<char> {
    if s.len() > 0 && s[0] == '+' {
        s.drop_first()
    } else {
        s
    }
}

/// What `str::parse::<u64>` gives for `s`: an optional `+` followed by
/// at least one decimal digit, whose value fits in 64 bits.
pub open spec fn parsed_u64(s: Seq<char>) -> Option<nat> {
    let d = unsigned_digits(s);
    if d.len() > 0 && all_digits(d) && digits_value(d) <= u64::MAX {
        Some(digits_value(d))
    } else {
        None
    }
}

/// A budget override: `Ok(ms)` for a positive integer of milliseconds
/// (white space around it ignored), else why it is refused.
pub open spec fn budget_override(raw: Seq<char>) -> Result<nat, Seq<char>> {
    match parsed_u64(trim_ws(raw)) {
        Some(n) => if n == 0 {
            Err("must be greater than zero"@)
        } else {
            Ok(n)
        },
        None => Err("not a positive integer"@),
    }
}

/// A longer string of digits is worth at least as much as its prefix.
proof fn lemma_digits_value_prefix(s: Seq<char>, k: int)
    requires
        0 <= k <= s.len(),
        all_digits(s),
    ensures
        digits_value(s.take(k)) <= digits_value(s),
    decreases s.len() - k,
{
    if k < s.len() {
        assert(s.drop_last().take(k) =~= s.take(k));
        assert forall|i: int| 0 <= i < s.drop_last().len() implies is_digit(#[trigger] s.drop_last()[i]) by {
            assert(is_digit(s[i]));
        }
        lemma_digits_value_prefix(s.drop_last(), k);
    } else {
        assert(s.take(k) =~= s);
    }
}

/// The value of the decimal digits `v`, or `None` when they are not all
/// digits, are empty or exceed 64 bits.
fn digits_u64(v: &Vec<char>, start: usize) -> (r: Option<u64>)
    requires
        start <= v.len(),
    ensures
        r == (if v@.skip(start as int).len() > 0 && all_digits(v@.skip(start as int)) && digits_value(
            v@.skip(start as int),
        ) <= u64::MAX {
            Some(digits_value(v@.skip(start as int)) as u64)
        } else {
            None::<u64>
        }),
{
    let ghost d = v@.skip(start as int);
    if start == v.len() {
        return None;
    }
    let mut value: u64 = 0;
    let mut i: usize = start;
    while i < v.len()
        invariant
            start <= i <= v.len(),
            d == v@.skip(start as int),
            all_digits(d.take(i - start)),
            value == digits_value(d.take(i - start)),
        decreases v.len() - i,
    {
        let c = v[i];
        proof {
            assert(d[i - start] == c);
            assert(d.take(i - start + 1).drop_last() =~= d.take(i - start));
        }
        if !('0' <= c && c <= '9') {
            proof {
                assert(!is_digit(d[i - start]));
            }
            return None;
        }
        let digit: u64 = ((c as u32) - ('0' as u32)) as u64;
        let grown = match value.checked_mul(10) {
            Some(t) => t.checked_add(digit),
            None => None,
        };
        match grown {
            Some(n) => {
                value = n;
            },
            None => {
                proof {
                    if all_digits(d) {
                        lemma_digits_value_prefix(d, i - start + 1);
                    }
                }
                return None;
            },
        }
        i = i + 1;
    }
    proof {
        assert(d.take(i - start) =~= d);
    }
    Some(value)
}

/// Parses a budget override: `Ok(ms)` for a positive integer (white
/// space around it ignored), `Err(reason)` for anything else; zero is
/// refused because it would warn on every query.
pub fn parse_budget_value(raw: &str) -> (r: Result<u64, &'static str>)
    ensures
        match budget_override(raw@) {
            Ok(n) => r matches Ok(v) && v == n,
            Err(reason) => r matches Err(e) && e@ == reason,
        },
{
    let v = trim_chars(&chars_of(raw));
    let start: usize = if v.len() > 0 && v[0] == '+' {
        1
    } else {
        0
    };
    proof {
        if start == 1 {
            assert(v@.skip(1) =~= v@.drop_first());
        } else {
            assert(v@.skip(0) =~= v@);
        }
    }
    match digits_u64(&v, start) {
        Some(0) => {
            proof {
                reveal_strlit("must be greater than zero");
            }
            Err("must be greater than zero")
        },
        Some(ms) => Ok(ms),
        None => {
            proof {
                reveal_strlit("not a positive integer");
            }
            Err("not a positive integer")
        },
    }
}

/// The two storage-latency budgets in force: the thresholds above which
/// a storage-query or batch-write timing is reported as over budget.
/// Both are always at least 1 ms.
#[derive(Clone, Copy, Debug, PartialEq, Eq)]
pub struct StorageBudgets {
    storage_query_ms: u64,
    batch_write_ms: u64,
}

impl StorageBudgets {
    /// The storage-query budget held.
    pub closed spec fn query_ms(self) -> u64 {
        self.storage_query_ms
    }

    /// The batch-write budget held.
    pub closed spec fn batch_ms(self) -> u64 {
        self.batch_write_ms
    }

    #[verifier::type_invariant]
    spec fn positive(self) -> bool {
        self.storage_query_ms >= 1 && self.batch_write_ms >= 1
    }

    /// The built-in defaults.
    pub fn new() -> (r: Self)
        ensures
            r.query_ms() == DEFAULT_STORAGE_QUERY_BUDGET_MS,
            r.batch_ms() == DEFAULT_BATCH_WRITE_BUDGET_MS,
    {
        StorageBudgets {
            storage_query_ms: DEFAULT_STORAGE_QUERY_BUDGET_MS,
            batch_write_ms: DEFAULT_BATCH_WRITE_BUDGET_MS,
        }
    }
}

impl Default for StorageBudgets {
    fn default() -> (r: Self)
        ensures
            r.query_ms() == DEFAULT_STORAGE_QUERY_BUDGET_MS,
            r.batch_ms() == DEFAULT_BATCH_WRITE_BUDGET_MS,
    {
        StorageBudgets::new()
    }
}

/// The storage-query budget in ms; at least 1.
pub fn storage_query_budget_ms(budgets: &StorageBudgets) -> (r: u64)
    ensures
        r == budgets.query_ms(),
        r >= 1,
{
    proof {
        use_type_invariant(budgets);
    }
    budgets.storage_query_ms
}

/// The batch-write budget in ms; at least 1.
pub fn batch_write_budget_ms(budgets: &StorageBudgets) -> (r: u64)
    ensures
        r == budgets.batch_ms(),
        r >= 1,
{
    proof {
        use_type_invariant(budgets);
    }
    budgets.batch_write_ms
}

/// The budget that a slot holding `current` holds after the override
/// `raw` (`None` when the variable is unset): a valid override replaces
/// it, anything else leaves it.
pub open spec fn resolved_budget(current: u64, raw: Option<Seq<char>>) -> u64 {
    match raw {
        Some(text) => match budget_override(text) {
            Ok(n) => n as u64,
            Err(_) => current,
        },
        None => current,
    }
}

/// `Some(s@)` for `Some(s)`.
pub open spec fn opt_text(o: Option<&str>) -> Option<Seq<char>> {
    match o {
        Some(s) => Some(s@),
        None => None,
    }
}

fn resolve_budget(current: u64, raw: Option<&str>) -> (r: u64)
    requires
        current >= 1,
    ensures
        r == resolved_budget(current, opt_text(raw)),
        r >= 1,
{
    if let Some(text) = raw {
        if let Ok(ms) = parse_budget_value(text) {
            return ms;
        }
    }
    current
}

/// Applies the overrides read from the environment, once at startup:
/// `query_raw` and `batch_raw` are the values of the two variables
/// (`None` when unset). Each valid override replaces its budget; an
/// invalid or zero one leaves it.
pub fn init_storage_budgets_from_env(budgets: &mut StorageBudgets, query_raw: Option<&str>, batch_raw: Option<&str>)
    ensures
        final(budgets).query_ms() == resolved_budget(old(budgets).query_ms(), opt_text(query_raw)),
        final(budgets).batch_ms() == resolved_budget(old(budgets).batch_ms(), opt_text(batch_raw)),
{
    proof {
        use_type_invariant(&*budgets);
    }
    let q = resolve_budget(budgets.storage_query_ms, query_raw);
    let b = resolve_budget(budgets.batch_write_ms, batch_raw);
    *budgets = StorageBudgets { storage_query_ms: q, batch_write_ms: b };
}

proof fn lemma_decimal_digits(n: nat)
    ensures
        decimal(n).len() > 0,
        all_digits(decimal(n)),
        digits_value(decimal(n)) == n,
    decreases n,
{
    if n >= 10 {
        lemma_decimal_digits(n / 10);
        let s = decimal(n / 10);
        let d = (n % 10) as nat;
        assert(decimal(n) == s.push(digit_char(d)));
        assert(s.push(digit_char(d)).drop_last() =~= s);
        assert(((digit_char(d) as u32) - ('0' as u32)) as nat == d);
        assert(digits_value(decimal(n)) == digits_value(s) * 10 + d);
        assert((n / 10) * 10 + n % 10 == n) by (nonlinear_arith);
        assert forall|i: int| 0 <= i < decimal(n).len() implies is_digit(#[trigger] decimal(n)[i]) by {
            if i < s.len() {
                assert(decimal(n)[i] == s[i]);
            }
        }
    } else {
        assert(((digit_char(n) as u32) - ('0' as u32)) as nat == n);
        assert(decimal(n).drop_last() =~= Seq::<char>::empty());
        assert(digits_value(decimal(n)) == digits_value(Seq::<char>::empty()) * 10 + n);
    }
}

/// A budget override is accepted only as a positive number of
/// milliseconds that fits in 64 bits, and every such number written in
/// decimal is accepted as itself.
pub proof fn law_budget_override(raw: Seq<char>, n: nat)
    ensures
        budget_override(raw) matches Ok(v) ==> 1 <= v <= u64::MAX,
        1 <= n <= u64::MAX ==> budget_override(decimal(n)) == Ok::<nat, Seq<char>>(n),
{
    if 1 <= n <= u64::MAX {
        lemma_decimal_digits(n);
        let s = decimal(n);
        assert(!unicode_ws(s[0]));
        assert(is_digit(s[s.len() - 1]));
        assert(trim_start_ws(s) == s);
        assert(trim_end_ws(s) == s);
        assert(s[0] != '+');
        assert(unsigned_digits(s) == s);
    }
}

} // verus!
