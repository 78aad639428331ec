//! The `/api/inventory/*` read endpoints: query-parameter checks,
//! DevEUI normalisation, the ordering of listed items, the response
//! envelopes, and the classification of a ChirpStack failure.

use vstd::prelude::*;
use crate::chirpstack_inventory::{InventoryApplication, InventoryDevice};
use crate::text::{chars_lt, chars_of, seq_lt, str_eq, string_of};
use crate::text::{lemma_seq_lt_asymmetric, lemma_seq_lt_irreflexive, lemma_seq_lt_total, lemma_seq_lt_transitive};
use crate::utils::{error_text, OpcGwError};
use crate::web::crud::{contains_str, has_piece};
use crate::web::csrf::{ascii_lower, lower_ascii, lower_chars};

verus! {

// ---------------------------------------------------------------------
// Query parameters
// ---------------------------------------------------------------------

/// Whether a `?refresh=` value asks for a cache bypass: only `true` and
/// `1` do; anything else counts as not set.
pub open spec fn refresh_requested(refresh: Option<String>) -> bool {
    match refresh {
        Some(s) => s@ == "true"@ || s@ == "1"@,
        None => false,
    }
}

fn wants_refresh(refresh: &Option<String>) -> (r: bool)
    ensures
        r == refresh_requested(*refresh),
{
    match refresh {
        Some(s) => str_eq(s.as_str(), "true") || str_eq(s.as_str(), "1"),
        None => false,
    }
}

/// Query of `GET /api/inventory/applications`.
#[derive(Clone, Debug)]
pub struct ApplicationsQuery {
    pub refresh: Option<String>,
}

impl ApplicationsQuery {
    /// Whether the cache is to be bypassed.
    pub fn force_refresh(&self) -> (r: bool)
        ensures
            r == refresh_requested(self.refresh),
    {
        wants_refresh(&self.refresh)
    }
}

impl Default for ApplicationsQuery {
    fn default() -> (r: Self)
        ensures
            r.refresh is None,
    {
        ApplicationsQuery { refresh: None }
    }
}

/// Query of `GET /api/inventory/devices`.
#[derive(Clone, Debug)]
pub struct DevicesQuery {
    pub application_id: Option<String>,
    pub refresh: Option<String>,
}

impl DevicesQuery {
    /// Whether the cache is to be bypassed.
    pub fn force_refresh(&self) -> (r: bool)
        ensures
            r == refresh_requested(self.refresh),
    {
        wants_refresh(&self.refresh)
    }

    /// The application whose devices are listed; a missing or empty
    /// `application_id` is refused.
    pub fn application_id_param(&self) -> (r: Result<String, InventoryQueryError>)
        ensures
            match self.application_id {
                Some(s) if s@.len() > 0 => r matches Ok(a) && a@ == s@,
                _ => r == Err::<String, InventoryQueryError>(
                    InventoryQueryError::MissingQueryParam(QueryParam::ApplicationId),
                ),
            },
    {
        match &self.application_id {
            Some(s) if chars_of(s.as_str()).len() > 0 => Ok(s.clone()),
            _ => Err(InventoryQueryError::MissingQueryParam(QueryParam::ApplicationId)),
        }
    }
}

impl Default for DevicesQuery {
    fn default() -> (r: Self)
        ensures
            r.application_id is None,
            r.refresh is None,
    {
        DevicesQuery { application_id: None, refresh: None }
    }
}

/// Query of `GET /api/inventory/uplinks`.
#[derive(Clone, Debug)]
pub struct UplinksQuery {
    pub dev_eui: Option<String>,
    pub limit: Option<u32>,
}

impl Default for UplinksQuery {
    fn default() -> (r: Self)
        ensures
            r.dev_eui is None,
            r.limit is None,
    {
        UplinksQuery { dev_eui: None, limit: None }
    }
}

/// Query of `GET /api/inventory/measurements`.
#[derive(Clone, Debug)]
pub struct MeasurementsQuery {
    pub dev_eui: Option<String>,
    pub refresh: Option<String>,
}

impl MeasurementsQuery {
    /// Whether the cache is to be bypassed.
    pub fn force_refresh(&self) -> (r: bool)
        ensures
            r == refresh_requested(self.refresh),
    {
        wants_refresh(&self.refresh)
    }

    /// The normalised DevEUI whose profile measurements are listed.
    pub fn dev_eui_param(&self) -> (r: Result<String, InventoryQueryError>)
        ensures
            match dev_eui_check(self.dev_eui) {
                Ok(d) => r matches Ok(s) && s@ == d,
                Err(e) => r == Err::<String, InventoryQueryError>(e),
            },
    {
        checked_dev_eui(&self.dev_eui)
    }
}

impl Default for MeasurementsQuery {
    fn default() -> (r: Self)
        ensures
            r.dev_eui is None,
            r.refresh is None,
    {
        MeasurementsQuery { dev_eui: None, refresh: None }
    }
}

/// Largest `?limit` accepted by the uplinks endpoint.
pub const UPLINKS_LIMIT_CAP: u32 = 50;

/// `?limit` of the uplinks endpoint when none is given.
pub const UPLINKS_LIMIT_DEFAULT: u32 = 10;

/// Hint sent with a DevEUI that does not normalise.
pub const DEV_EUI_HINT: &'static str = "DevEUI must be 16 hex characters (colons / dashes accepted as separators)";

/// A required query parameter.
#[derive(Clone, Copy, Debug, PartialEq, Eq, Structural)]
pub enum QueryParam {
    ApplicationId,
    DevEui,
}

impl QueryParam {
    /// The parameter's name in the query string.
    pub fn as_str(self) -> (r: &'static str)
        ensures
            r@ == (match self {
                QueryParam::ApplicationId => "application_id"@,
                QueryParam::DevEui => "dev_eui"@,
            }),
    {
        match self {
            QueryParam::ApplicationId => "application_id",
            QueryParam::DevEui => "dev_eui",
        }
    }
}

/// Why an inventory query is refused with 400.
#[derive(Clone, Copy, Debug, PartialEq, Eq, Structural)]
pub enum InventoryQueryError {
    /// A required parameter is missing or empty.
    MissingQueryParam(QueryParam),
    /// The DevEUI does not reduce to 16 hex digits.
    InvalidDevEui,
    /// `?limit` is above the cap.
    LimitOutOfRange { cap: u32, received: u32 },
}

// ---------------------------------------------------------------------
// DevEUI
// ---------------------------------------------------------------------

/// Separators accepted inside a DevEUI.
pub open spec fn is_eui_separator(c: char) -> bool {
    c == ':' || c == '-' || c == ' '
}

/// `s` without its separators, in order.
pub open spec fn strip_separators(s: Seq<char>) -> Seq<char>
    decreases s.len(),
{
    if s.len() == 0 {
        s
    } else if is_eui_separator(s.last()) {
        strip_separators(s.drop_last())
    } else {
        strip_separators(s.drop_last()).push(s.last())
    }
}

/// An ASCII hexadecimal digit.
pub open spec fn is_hex_digit(c: char) -> bool {
    ('0' <= c && c <= '9') || ('a' <= c && c <= 'f') || ('A' <= c && c <= 'F')
}

/// The lowercase 16-digit form of a DevEUI written with or without
/// separators, or `None` when what remains is not 16 hex digits.
/// (Sixteen hex digits are sixteen bytes, so a count of characters and
/// one of bytes agree here.)
pub open spec fn normal_dev_eui(s: Seq<char>) -> Option<Seq<char>> {
    let t = strip_separators(s);
    if t.len() == 16 && forall|i: int| 0 <= i < 16 ==> is_hex_digit(#[trigger] t[i]) {
        Some(lower_ascii(t))
    } else {
        None
    }
}

proof fn lemma_strip_without_separators(s: Seq<char>)
    requires
        forall|i: int| 0 <= i < s.len() ==> !is_eui_separator(#[trigger] s[i]),
    ensures
        strip_separators(s) == s,
    decreases s.len(),
{
    if s.len() > 0 {
        assert(!is_eui_separator(s[s.len() - 1]));
        lemma_strip_without_separators(s.drop_last());
        assert(s.drop_last().push(s.last()) =~= s);
    }
}

/// Normalising a normalised DevEUI gives it back unchanged.
pub proof fn lemma_normal_dev_eui_idempotent(s: Seq<char>)
    requires
        normal_dev_eui(s) is Some,
    ensures
        normal_dev_eui(normal_dev_eui(s)->0) == normal_dev_eui(s),
{
    let t = strip_separators(s);
    let u = lower_ascii(t);
    assert(normal_dev_eui(s) == Some(u));
    assert forall|i: int| 0 <= i < u.len() implies ('0' <= #[trigger] u[i] && u[i] <= '9') || ('a' <= u[i] && u[i]
        <= 'f') by {
        assert(is_hex_digit(t[i]));
    }
    lemma_strip_without_separators(u);
    assert(lower_ascii(u) =~= u);
}

/// A DevEUI is accepted only as 16 hex digits once separators are
/// dropped, and comes out as 16 lowercase hex digits; 16 hex digits
/// written without separators are accepted, each digit kept and each
/// upper-case letter lowered.
pub proof fn law_dev_eui(s: Seq<char>)
    ensures
        normal_dev_eui(s) matches Some(t) ==> t.len() == 16 && forall|i: int|
            0 <= i < 16 ==> ('0' <= #[trigger] t[i] && t[i] <= '9') || ('a' <= t[i] && t[i] <= 'f'),
        s.len() == 16 && (forall|i: int|
            0 <= i < 16 ==> ('0' <= #[trigger] s[i] && s[i] <= '9') || ('a' <= s[i] && s[i] <= 'f') || ('A' <= s[i]
                && s[i] <= 'F')) ==> (normal_dev_eui(s) matches Some(t) && forall|i: int|
            0 <= i < 16 ==> (#[trigger] t[i] == s[i] && !('A' <= s[i] && s[i] <= 'F')) || ('A' <= s[i] && s[i]
                <= 'F' && t[i] as u32 == s[i] as u32 + 32)),
{
    if let Some(t) = normal_dev_eui(s) {
        let u = strip_separators(s);
        assert forall|i: int| 0 <= i < 16 implies ('0' <= #[trigger] t[i] && t[i] <= '9') || ('a' <= t[i] && t[i]
            <= 'f') by {
            assert(is_hex_digit(u[i]));
        }
    }
    if s.len() == 16 && (forall|i: int|
        0 <= i < 16 ==> ('0' <= #[trigger] s[i] && s[i] <= '9') || ('a' <= s[i] && s[i] <= 'f') || ('A' <= s[i]
            && s[i] <= 'F')) {
        assert forall|i: int| 0 <= i < s.len() implies !is_eui_separator(#[trigger] s[i]) by {}
        lemma_strip_without_separators(s);
        assert forall|i: int| 0 <= i < 16 implies is_hex_digit(#[trigger] s[i]) by {}
        let t = normal_dev_eui(s)->0;
        assert forall|i: int| 0 <= i < 16 implies (#[trigger] t[i] == s[i] && !('A' <= s[i] && s[i] <= 'F')) || (
        'A' <= s[i] && s[i] <= 'F' && t[i] as u32 == s[i] as u32 + 32) by {
            assert(t[i] == ascii_lower(s[i]));
        }
    }
}

/// Normalises a DevEUI to lowercase 16-hex-digit form; colons, dashes
/// and spaces are dropped first.
pub fn normalise_dev_eui(input: &str) -> (r: Option<String>)
    ensures
        match normal_dev_eui(input@) {
            Some(t) => r matches Some(s) && s@ == t,
            None => r is None,
        },
{
    let v = chars_of(input);
    let mut stripped: Vec<char> = Vec::new();
    let mut i: usize = 0;
    while i < v.len()
        invariant
            i <= v.len(),
            v@ == input@,
            stripped@ == strip_separators(v@.take(i as int)),
        decreases v.len() - i,
    {
        let c = v[i];
        proof {
            assert(v@.take(i + 1).drop_last() =~= v@.take(i as int));
        }
        if !(c == ':' || c == '-' || c == ' ') {
            stripped.push(c);
        }
        i = i + 1;
    }
    proof {
        assert(v@.take(v.len() as int) =~= v@);
    }
    if stripped.len() != 16 {
        return None;
    }
    let mut j: usize = 0;
    while j < 16
        invariant
            j <= 16,
            stripped.len() == 16,
            stripped@ == strip_separators(input@),
            forall|k: int| 0 <= k < j ==> is_hex_digit(#[trigger] stripped@[k]),
        decreases 16 - j,
    {
        let c = stripped[j];
        if !(('0' <= c && c <= '9') || ('a' <= c && c <= 'f') || ('A' <= c && c <= 'F')) {
            proof {
                assert(!is_hex_digit(stripped@[j as int]));
            }
            return None;
        }
        j = j + 1;
    }
    Some(string_of(&lower_chars(&stripped)))
}

/// The outcome of a required DevEUI parameter: missing or empty, not a
/// DevEUI, or its normal form.
pub open spec fn dev_eui_check(dev_eui: Option<String>) -> Result<Seq<char>, InventoryQueryError> {
    match dev_eui {
        Some(s) if s@.len() > 0 => match normal_dev_eui(s@) {
            Some(t) => Ok(t),
            None => Err(InventoryQueryError::InvalidDevEui),
        },
        _ => Err(InventoryQueryError::MissingQueryParam(QueryParam::DevEui)),
    }
}

fn checked_dev_eui(dev_eui: &Option<String>) -> (r: Result<String, InventoryQueryError>)
    ensures
        match dev_eui_check(*dev_eui) {
            Ok(d) => r matches Ok(s) && s@ == d,
            Err(e) => r == Err::<String, InventoryQueryError>(e),
        },
{
    match dev_eui {
        Some(s) if chars_of(s.as_str()).len() > 0 => match normalise_dev_eui(s.as_str()) {
            Some(t) => Ok(t),
            None => Err(InventoryQueryError::InvalidDevEui),
        },
        _ => Err(InventoryQueryError::MissingQueryParam(QueryParam::DevEui)),
    }
}

impl UplinksQuery {
    /// The normalised DevEUI and the number of uplinks to read: the DevEUI
    /// is required, the limit defaults to [`UPLINKS_LIMIT_DEFAULT`] and may
    /// not exceed [`UPLINKS_LIMIT_CAP`].
    pub fn params(&self) -> (r: Result<(String, u32), InventoryQueryError>)
        ensures
            match dev_eui_check(self.dev_eui) {
                Err(e) => r == Err::<(String, u32), InventoryQueryError>(e),
                Ok(d) => {
                    let limit = match self.limit {
                        Some(l) => l,
                        None => UPLINKS_LIMIT_DEFAULT,
                    };
                    if limit > UPLINKS_LIMIT_CAP {
                        r == Err::<(String, u32), InventoryQueryError>(
                            InventoryQueryError::LimitOutOfRange { cap: UPLINKS_LIMIT_CAP, received: limit },
                        )
                    } else {
                        r matches Ok((s, l)) && s@ == d && l == limit
                    }
                },
            },
    {
        let dev_eui = match checked_dev_eui(&self.dev_eui) {
            Ok(d) => d,
            Err(e) => return Err(e),
        };
        let limit = match self.limit {
            Some(l) => l,
            None => UPLINKS_LIMIT_DEFAULT,
        };
        if limit > UPLINKS_LIMIT_CAP {
            return Err(InventoryQueryError::LimitOutOfRange { cap: UPLINKS_LIMIT_CAP, received: limit });
        }
        Ok((dev_eui, limit))
    }
}

// ---------------------------------------------------------------------
// Failure classification
// ---------------------------------------------------------------------

/// The stable reason reported for a failed ChirpStack call, decided on
/// the lowercased text of the error. The cancellations raised locally
/// during shutdown win over every other match; a bare "cancelled" (as a
/// server-side cancel reads) does not count. ASCII case folding decides
/// here as full Unicode lowercasing would: every pattern is ASCII, and
/// the only non-ASCII characters that lowercase to ASCII letters turn
/// into `k` (in none of the patterns) or into `i` followed by a
/// combining mark (which no pattern has after an `i`).
pub open spec fn failure_reason(e: OpcGwError) -> Seq<char> {
    match e {
        OpcGwError::ChirpStack(_) => {
            let s = lower_ascii(error_text(e));
            if has_piece(s, "cancelled during shutdown"@) || has_piece(s, "cancelled mid-pagination during shutdown"@) {
                "shutdown_cancellation"@
            } else if has_piece(s, "auth"@) || has_piece(s, "permission"@) || has_piece(s, "unauthenticated"@) {
                "chirpstack_auth_failed"@
            } else if has_piece(s, "connect"@) || has_piece(s, "transport"@) || has_piece(s, "unreachable"@) {
                "chirpstack_unreachable"@
            } else {
                "chirpstack_grpc_error"@
            }
        },
        _ => "chirpstack_grpc_error"@,
    }
}

/// Classifies a ChirpStack failure into the `reason` of the audit event
/// and of the 502 body.
pub fn chirpstack_failure_reason(err: &OpcGwError) -> (r: &'static str)
    ensures
        r@ == failure_reason(*err),
{
    proof {
        reveal_strlit("shutdown_cancellation");
        reveal_strlit("chirpstack_auth_failed");
        reveal_strlit("chirpstack_unreachable");
        reveal_strlit("chirpstack_grpc_error");
    }
    match err {
        OpcGwError::ChirpStack(_) => {
            let text = err.to_string();
            let lowered = string_of(&lower_chars(&chars_of(text.as_str())));
            let s = lowered.as_str();
            if contains_str(s, "cancelled during shutdown") || contains_str(s, "cancelled mid-pagination during shutdown") {
                "shutdown_cancellation"
            } else if contains_str(s, "auth") || contains_str(s, "permission") || contains_str(s, "unauthenticated") {
                "chirpstack_auth_failed"
            } else if contains_str(s, "connect") || contains_str(s, "transport") || contains_str(s, "unreachable") {
                "chirpstack_unreachable"
            } else {
                "chirpstack_grpc_error"
            }
        },
        _ => "chirpstack_grpc_error",
    }
}


// ---------------------------------------------------------------------
// Ordering of listed items
// ---------------------------------------------------------------------

/// What `str::to_lowercase` gives for `s` (full Unicode lowercasing).
pub uninterp spec fn unicode_lowercase(s: Seq<char>) -> Seq<char>;

/// `str::to_lowercase`.
#[verifier::external_body]
fn to_lowercase(s: &str) -> (r: String)
    ensures
        r@ == unicode_lowercase(s@),
{
    s.to_lowercase()
}

/// An item listed by name.
pub trait Named {
    spec fn name_view(&self) -> Seq<char>;

    fn name(&self) -> (r: &String)
        ensures
            r@ == self.name_view();
}

impl Named for InventoryApplication {
    open spec fn name_view(&self) -> Seq<char> {
        self.name@
    }

    fn name(&self) -> (r: &String) {
        &self.name
    }
}

impl Named for InventoryDevice {
    open spec fn name_view(&self) -> Seq<char> {
        self.name@
    }

    fn name(&self) -> (r: &String) {
        &self.name
    }
}

/// The key items are listed by: the lowercased name.
pub open spec fn name_key<T: Named>(x: T) -> Seq<char> {
    unicode_lowercase(x.name_view())
}

/// The items of `s` whose key is `k`, in order.
pub open spec fn with_key<T: Named>(s: Seq<T>, k: Seq<char>) -> Seq<T>
    decreases s.len(),
{
    if s.len() == 0 {
        s
    } else if name_key(s.last()) == k {
        with_key(s.drop_last(), k).push(s.last())
    } else {
        with_key(s.drop_last(), k)
    }
}

/// `s` is in ascending order of key.
pub open spec fn sorted_by_name_key<T: Named>(s: Seq<T>) -> bool {
    forall|i: int, j: int| 0 <= i < j < s.len() ==> !seq_lt(#[trigger] name_key(s[j]), #[trigger] name_key(s[i]))
}

proof fn lemma_with_key_append<T: Named>(a: Seq<T>, b: Seq<T>, k: Seq<char>)
    ensures
        with_key(a + b, k) == with_key(a, k) + with_key(b, k),
    decreases b.len(),
{
    if b.len() == 0 {
        assert(a + b =~= a);
        assert(with_key(b, k) =~= Seq::<T>::empty());
        assert(with_key(a, k) + with_key(b, k) =~= with_key(a, k));
    } else {
        lemma_with_key_append(a, b.drop_last(), k);
        assert((a + b).drop_last() =~= a + b.drop_last());
        assert((a + b).last() == b.last());
        if name_key(b.last()) == k {
            assert(with_key(a, k) + with_key(b, k) =~= (with_key(a, k) + with_key(b.drop_last(), k)).push(b.last()));
        }
    }
}

proof fn lemma_with_key_single<T: Named>(x: T, k: Seq<char>)
    ensures
        with_key(seq![x], k) == (if name_key(x) == k { seq![x] } else { Seq::<T>::empty() }),
{
    assert(seq![x].drop_last() =~= Seq::<T>::empty());
    assert(seq![x].last() == x);
    assert(with_key(Seq::<T>::empty(), k) =~= Seq::<T>::empty());
    assert(Seq::<T>::empty().push(x) =~= seq![x]);
}

proof fn lemma_no_key_below<T: Named>(s: Seq<T>, p: int, k: Seq<char>)
    requires
        0 <= p <= s.len(),
        forall|i: int| 0 <= i < p ==> seq_lt(#[trigger] name_key(s[i]), k),
    ensures
        with_key(s.take(p), k) == Seq::<T>::empty(),
    decreases p,
{
    if p > 0 {
        assert(s.take(p).drop_last() =~= s.take(p - 1));
        assert(seq_lt(name_key(s[p - 1]), k));
        lemma_seq_lt_irreflexive(k);
        lemma_no_key_below(s, p - 1, k);
    } else {
        assert(s.take(0) =~= Seq::<T>::empty());
    }
}

/// Sorts items by lowercased name, keeping the order of items whose keys
/// are equal (a stable sort).
pub fn sort_by_lowercase_name<T: Named>(items: Vec<T>) -> (r: Vec<T>)
    ensures
        r@.len() == items@.len(),
        sorted_by_name_key(r@),
        forall|k: Seq<char>| #[trigger] with_key(r@, k) == with_key(items@, k),
{
    let ghost orig = items@;
    let mut rest = items;
    let mut out: Vec<T> = Vec::new();
    let mut keys: Vec<Vec<char>> = Vec::new();
    while rest.len() > 0
        invariant
            rest@ == orig.take(rest@.len() as int),
            rest@.len() <= orig.len(),
            out@.len() + rest@.len() == orig.len(),
            keys@.len() == out@.len(),
            forall|i: int| 0 <= i < keys@.len() ==> #[trigger] keys@[i]@ == name_key(out@[i]),
            sorted_by_name_key(out@),
            forall|k: Seq<char>| #[trigger] with_key(out@, k) == with_key(orig.skip(rest@.len() as int), k),
        decreases rest@.len(),
    {
        let ghost before = out@;
        let ghost n = rest@.len() as int;
        let x = rest.pop().unwrap();
        let kx = chars_of(to_lowercase(x.name().as_str()).as_str());
        let mut p: usize = 0;
        while p < keys.len() && chars_lt(&keys[p], &kx)
            invariant
                p <= keys.len(),
                keys@.len() == out@.len(),
                forall|i: int| 0 <= i < p ==> seq_lt(#[trigger] keys@[i]@, kx@),
            decreases keys.len() - p,
        {
            p = p + 1;
        }
        proof {
            assert(orig.take(n) =~= orig.take(n - 1).push(x));
            assert(rest@ =~= orig.take(n - 1));
            assert(orig.skip(n - 1) =~= seq![x] + orig.skip(n));
        }
        let ghost keys_before = keys@;
        proof {
            assert(kx@ == name_key(x));
            assert forall|i: int| 0 <= i < p implies seq_lt(#[trigger] name_key(before[i]), kx@) by {
                assert(keys_before[i]@ == name_key(before[i]));
            }
            if p < keys_before.len() {
                assert(!seq_lt(keys_before[p as int]@, kx@));
                assert(keys_before[p as int]@ == name_key(before[p as int]));
            }
        }
        out.insert(p, x);
        keys.insert(p, kx);
        proof {
            let after = out@;
            let pi = p as int;
            assert(after =~= before.take(pi) + seq![x] + before.skip(pi));
            assert(before =~= before.take(pi) + before.skip(pi));
            assert forall|i: int| 0 <= i < keys@.len() implies #[trigger] keys@[i]@ == name_key(out@[i]) by {
                if i < pi {
                    assert(keys@[i] == keys_before[i]);
                    assert(after[i] == before[i]);
                } else if i > pi {
                    assert(keys@[i] == keys_before[i - 1]);
                    assert(after[i] == before[i - 1]);
                }
            }
            assert forall|i: int, j: int| 0 <= i < j < after.len() implies !seq_lt(
                #[trigger] name_key(after[j]),
                #[trigger] name_key(after[i]),
            ) by {
                if j < pi {
                    assert(after[i] == before[i] && after[j] == before[j]);
                } else if j == pi {
                    assert(after[i] == before[i]);
                    assert(seq_lt(name_key(before[i]), kx@));
                    lemma_seq_lt_asymmetric(name_key(before[i]), kx@);
                } else if i == pi {
                    assert(after[j] == before[j - 1]);
                    let kp = name_key(before[pi]);
                    let kj = name_key(before[j - 1]);
                    assert(!seq_lt(kp, kx@));
                    if j - 1 > pi {
                        assert(!seq_lt(kj, kp));
                        lemma_seq_lt_total(kp, kx@);
                        lemma_seq_lt_total(kj, kp);
                        if seq_lt(kj, kx@) {
                            if kj != kp {
                                lemma_seq_lt_transitive(kp, kj, kx@);
                            }
                        }
                    }
                } else if i < pi {
                    assert(after[i] == before[i] && after[j] == before[j - 1]);
                } else {
                    assert(after[i] == before[i - 1] && after[j] == before[j - 1]);
                }
            }
            assert forall|k: Seq<char>| #[trigger] with_key(out@, k) == with_key(orig.skip(rest@.len() as int), k) by {
                lemma_with_key_append(before.take(pi) + seq![x], before.skip(pi), k);
                lemma_with_key_append(before.take(pi), seq![x], k);
                lemma_with_key_append(before.take(pi), before.skip(pi), k);
                lemma_with_key_single(x, k);
                lemma_with_key_append(seq![x], orig.skip(n), k);
                assert(with_key(orig.skip(n), k) == with_key(before, k));
                if name_key(x) == k {
                    lemma_no_key_below(before, pi, k);
                }
            }
        }
    }
    proof {
        assert(orig.skip(0) =~= orig);
    }
    out
}

// ---------------------------------------------------------------------
// Response envelopes
// ---------------------------------------------------------------------

/// Envelope of the applications listing.
#[derive(Clone, Debug)]
pub struct InventoryApplicationsResponse {
    pub items: Vec<InventoryApplication>,
    pub count: usize,
    pub cache_status: &'static str,
    pub fetched_at: String,
}

impl InventoryApplicationsResponse {
    /// The envelope of `items`; `count` is their number.
    pub fn new(items: Vec<InventoryApplication>, cache_status: &'static str, fetched_at: String) -> (r: Self)
        ensures
            r.items@ == items@,
            r.count == items@.len(),
            r.cache_status == cache_status,
            r.fetched_at == fetched_at,
    {
        let count = items.len();
        InventoryApplicationsResponse { items, count, cache_status, fetched_at }
    }
}

/// Envelope of the devices listing of one application.
#[derive(Clone, Debug)]
pub struct InventoryDevicesResponse {
    pub items: Vec<InventoryDevice>,
    pub count: usize,
    pub cache_status: &'static str,
    pub fetched_at: String,
    pub application_id: String,
}

impl InventoryDevicesResponse {
    /// The envelope of `items`; `count` is their number.
    pub fn new(
        items: Vec<InventoryDevice>,
        cache_status: &'static str,
        fetched_at: String,
        application_id: String,
    ) -> (r: Self)
        ensures
            r.items@ == items@,
            r.count == items@.len(),
            r.cache_status == cache_status,
            r.fetched_at == fetched_at,
            r.application_id == application_id,
    {
        let count = items.len();
        InventoryDevicesResponse { items, count, cache_status, fetched_at, application_id }
    }
}

/// Envelope of the measurements declared by a device's profile; `M` is
/// the record of one measurement.
#[derive(Clone, Debug)]
pub struct InventoryMeasurementsResponse<M> {
    pub items: Vec<M>,
    pub count: usize,
    pub cache_status: &'static str,
    pub fetched_at: String,
    pub dev_eui: String,
    pub device_profile_id: String,
}

impl<M> InventoryMeasurementsResponse<M> {
    /// The envelope of `items`; `count` is their number.
    pub fn new(
        items: Vec<M>,
        cache_status: &'static str,
        fetched_at: String,
        dev_eui: String,
        device_profile_id: String,
    ) -> (r: Self)
        ensures
            r.items@ == items@,
            r.count == items@.len(),
            r.cache_status == cache_status,
            r.fetched_at == fetched_at,
            r.dev_eui == dev_eui,
            r.device_profile_id == device_profile_id,
    {
        let count = items.len();
        InventoryMeasurementsResponse { items, count, cache_status, fetched_at, dev_eui, device_profile_id }
    }
}

} // verus!
