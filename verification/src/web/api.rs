//! JSON API of the web surface: response and request bodies, the
//! field validators, and the decisions of the application / device
//! CRUD endpoints.

use vstd::prelude::*;
use vstd::utf8::encode_utf8;
use crate::config::OpcMetricTypeConfig;
use crate::text::{cat, chars_of, decimal, decimal_string, owned, str_eq};
use crate::keyed::{find_first_index, first_with_key, Keyed};
use crate::web::drift::opc_type_str;
use crate::web::{ApplicationSummary, DashboardConfigSnapshot, DeviceSummary, MetricSpec};
use crate::config::{AppConfig, ChirpStackApplications, ChirpstackDevice, ReadMetric};

verus! {

/// Default "Good → Uncertain" staleness boundary in seconds.
pub const DEFAULT_STALE_THRESHOLD_SECS: u64 = 120;

/// Hard "Uncertain → Bad" cutoff in seconds.
pub const BAD_THRESHOLD_SECS: u64 = 86_400;

/// Longest accepted id / name, in UTF-8 bytes.
pub const APP_FIELD_MAX_LEN: usize = 256;

/// Longest accepted `metric_unit`, in UTF-8 bytes.
pub const METRIC_UNIT_MAX_LEN: usize = 64;

/// HTTP status codes the API answers with.
pub const STATUS_BAD_REQUEST: u16 = 400;
pub const STATUS_NOT_FOUND: u16 = 404;
pub const STATUS_CONFLICT: u16 = 409;
pub const STATUS_UNPROCESSABLE_ENTITY: u16 = 422;
pub const STATUS_INTERNAL_SERVER_ERROR: u16 = 500;
pub const STATUS_SERVICE_UNAVAILABLE: u16 = 503;

/// Error body: a fixed message and an optional operator hint.
#[derive(Debug, PartialEq, Eq, Default)]
pub struct ErrorResponse {
    pub error: String,
    pub hint: Option<String>,
}

/// `Some(s@)` for `Some(s)`.
pub open spec fn opt_chars(o: Option<String>) -> Option<Seq<char>> {
    match o {
        Some(s) => Some(s@),
        None => None,
    }
}

impl ErrorResponse {
    /// The generic 500 body.
    pub fn internal_server_error() -> (r: Self)
        ensures
            r.error@ == "internal server error"@,
            r.hint is None,
    {
        ErrorResponse { error: owned("internal server error"), hint: None }
    }

    /// A body with both message and hint.
    pub fn with_hint(error: String, hint: String) -> (r: Self)
        ensures
            r.error@ == error@,
            opt_chars(r.hint) == Some(hint@),
    {
        ErrorResponse { error, hint: Some(hint) }
    }

    /// A body with a message and no hint.
    pub fn from_error(error: String) -> (r: Self)
        ensures
            r.error@ == error@,
            r.hint is None,
    {
        ErrorResponse { error, hint: None }
    }
}

/// A refused request: HTTP status and error body.
#[derive(Debug, PartialEq, Eq)]
pub struct Rejection {
    pub status: u16,
    pub body: ErrorResponse,
}

/// Abstract value of a [`Rejection`].
pub struct RejectionModel {
    pub status: u16,
    pub error: Seq<char>,
    pub hint: Option<Seq<char>>,
}

impl View for Rejection {
    type V = RejectionModel;

    open spec fn view(&self) -> RejectionModel {
        RejectionModel { status: self.status, error: self.body.error@, hint: opt_chars(self.body.hint) }
    }
}

/// The refusal of `r`, if it is one.
pub open spec fn refusal<T>(r: Result<T, Rejection>) -> Option<RejectionModel> {
    match r {
        Ok(_) => None,
        Err(e) => Some(e@),
    }
}

/// The refusal with `status`, message `error` and hint `hint`.
pub open spec fn refused(status: u16, error: Seq<char>, hint: Option<Seq<char>>) -> RejectionModel {
    RejectionModel { status, error, hint }
}

fn reject(status: u16, error: String, hint: Option<String>) -> (r: Rejection)
    ensures
        r@ == refused(status, error@, opt_chars(hint)),
{
    Rejection { status, body: ErrorResponse { error, hint } }
}

/// The generic 500 refusal.
pub open spec fn internal_refusal() -> RejectionModel {
    refused(STATUS_INTERNAL_SERVER_ERROR, "internal server error"@, None)
}

fn internal_error() -> (r: Rejection)
    ensures
        r@ == internal_refusal(),
{
    Rejection { status: STATUS_INTERNAL_SERVER_ERROR, body: ErrorResponse::internal_server_error() }
}

// ---------------------------------------------------------------------
// Character classes
// ---------------------------------------------------------------------

/// ASCII letter or digit.
pub open spec fn ascii_alnum(c: char) -> bool {
    ('0' <= c && c <= '9') || ('a' <= c && c <= 'z') || ('A' <= c && c <= 'Z')
}

/// Characters allowed in ids: ASCII alphanumerics, `-`, `_`, `.`.
pub open spec fn app_id_char(c: char) -> bool {
    ascii_alnum(c) || c == '-' || c == '_' || c == '.'
}

/// Characters allowed in display names: those of ids, space and parentheses.
pub open spec fn app_name_char(c: char) -> bool {
    app_id_char(c) || c == ' ' || c == '(' || c == ')'
}

/// Unicode `White_Space` (what `str::trim` removes).
pub open spec fn unicode_ws(c: char) -> bool {
    ('\u{9}' <= c && c <= '\u{d}') || c == ' ' || c == '\u{85}' || c == '\u{a0}' || c == '\u{1680}'
        || ('\u{2000}' <= c && c <= '\u{200a}') || c == '\u{2028}' || c == '\u{2029}' || c
        == '\u{202f}' || c == '\u{205f}' || c == '\u{3000}'
}

/// Every character is white space (so `trim()` leaves nothing).
pub open spec fn all_ws(s: Seq<char>) -> bool {
    forall|i: int| 0 <= i < s.len() ==> unicode_ws(#[trigger] s[i])
}

/// The class test of names (`names`) or of ids.
pub open spec fn allowed_char(c: char, names: bool) -> bool {
    if names {
        app_name_char(c)
    } else {
        app_id_char(c)
    }
}

/// The first character of `s` outside the class, if any.
pub open spec fn first_outside(s: Seq<char>, names: bool) -> Option<char>
    decreases s.len(),
{
    if s.len() == 0 {
        None
    } else if !allowed_char(s[0], names) {
        Some(s[0])
    } else {
        first_outside(s.drop_first(), names)
    }
}

/// Length in UTF-8 bytes.
pub open spec fn utf8_len(s: Seq<char>) -> nat {
    encode_utf8(s).len()
}

/// Length of `s` in UTF-8 bytes.
pub fn byte_len(s: &str) -> (r: usize)
    ensures
        r == utf8_len(s@),
{
    s.as_bytes().len()
}

/// Whether `c` is an id character.
pub fn is_valid_app_id_char(c: char) -> (r: bool)
    ensures
        r == app_id_char(c),
{
    ('0' <= c && c <= '9') || ('a' <= c && c <= 'z') || ('A' <= c && c <= 'Z') || c == '-' || c == '_'
        || c == '.'
}

/// Whether `c` is a display-name character.
pub fn is_valid_app_name_char(c: char) -> (r: bool)
    ensures
        r == app_name_char(c),
{
    is_valid_app_id_char(c) || c == ' ' || c == '(' || c == ')'
}

fn is_white_space(c: char) -> (r: bool)
    ensures
        r == unicode_ws(c),
{
    ('\u{9}' <= c && c <= '\u{d}') || c == ' ' || c == '\u{85}' || c == '\u{a0}' || c == '\u{1680}'
        || ('\u{2000}' <= c && c <= '\u{200a}') || c == '\u{2028}' || c == '\u{2029}' || c
        == '\u{202f}' || c == '\u{205f}' || c == '\u{3000}'
}

/// Whether `s.trim()` is empty.
pub fn blank(s: &str) -> (r: bool)
    ensures
        r == all_ws(s@),
{
    let v = chars_of(s);
    let mut i: usize = 0;
    while i < v.len()
        invariant
            i <= v.len(),
            v@ == s@,
            forall|j: int| 0 <= j < i ==> unicode_ws(#[trigger] v@[j]),
        decreases v.len() - i,
    {
        if !is_white_space(v[i]) {
            return false;
        }
        i = i + 1;
    }
    true
}

proof fn lemma_first_outside_skip(s: Seq<char>, i: int, names: bool)
    requires
        0 <= i <= s.len(),
        forall|j: int| 0 <= j < i ==> allowed_char(#[trigger] s[j], names),
    ensures
        first_outside(s, names) == first_outside(s.skip(i), names),
    decreases i,
{
    if i > 0 {
        lemma_first_outside_skip(s.drop_first(), i - 1, names);
        assert(s.drop_first().skip(i - 1) =~= s.skip(i));
    } else {
        assert(s.skip(0) =~= s);
    }
}

/// The first character of `s` outside the id class (or the name
/// class, when `names`).
pub fn find_disallowed(s: &str, names: bool) -> (r: Option<char>)
    ensures
        r == first_outside(s@, names),
{
    let v = chars_of(s);
    let mut i: usize = 0;
    while i < v.len()
        invariant
            i <= v.len(),
            v@ == s@,
            forall|j: int| 0 <= j < i ==> allowed_char(#[trigger] v@[j], names),
        decreases v.len() - i,
    {
        let c = v[i];
        let ok = if names {
            is_valid_app_name_char(c)
        } else {
            is_valid_app_id_char(c)
        };
        if !ok {
            proof {
                lemma_first_outside_skip(v@, i as int, names);
            }
            return Some(c);
        }
        i = i + 1;
    }
    proof {
        lemma_first_outside_skip(v@, i as int, names);
    }
    None
}

/// What `{:?}` writes for a character: quoted, with escapes.
pub uninterp spec fn char_debug(c: char) -> Seq<char>;

/// `format!("{:?}", c)`.
#[verifier::external_body]
fn debug_char(c: char) -> (r: String)
    ensures
        r@ == char_debug(c),
{
    format!("{:?}", c)
}


// ---------------------------------------------------------------------
// Field validation
// ---------------------------------------------------------------------

/// Hint for id-shaped fields.
pub const HINT_ID_CHARS: &'static str = "use ASCII alphanumerics, '-', '_', '.'";
/// Hint for display names.
pub const HINT_NAME_CHARS: &'static str = "use ASCII alphanumerics, '-', '_', '.', spaces, or parentheses";
/// Hint for empty fields.
pub const HINT_NON_EMPTY: &'static str = "provide a non-empty value with at least one non-whitespace character";

/// Refusal of a path-supplied id (`label` names it), if it is refused:
/// empty or longer than 256 bytes, or holding a character outside the
/// id class.
pub open spec fn path_id_refusal(label: Seq<char>, id: Seq<char>) -> Option<RejectionModel> {
    if id.len() == 0 || utf8_len(id) > APP_FIELD_MAX_LEN {
        Some(
            refused(
                STATUS_BAD_REQUEST,
                label + " in URL path must be 1..=256 characters"@,
                Some(HINT_ID_CHARS@),
            ),
        )
    } else if first_outside(id, false) is Some {
        Some(
            refused(
                STATUS_BAD_REQUEST,
                label + " in URL path contains invalid character"@,
                Some(HINT_ID_CHARS@),
            ),
        )
    } else {
        None
    }
}

fn validate_path_id(label: &str, id: &str) -> (r: Result<(), Rejection>)
    ensures
        refusal(r) == path_id_refusal(label@, id@),
{
    if id.is_empty() || byte_len(id) > APP_FIELD_MAX_LEN {
        return Err(
            reject(
                STATUS_BAD_REQUEST,
                cat(label, " in URL path must be 1..=256 characters"),
                Some(owned(HINT_ID_CHARS)),
            ),
        );
    }
    if find_disallowed(id, false).is_some() {
        return Err(
            reject(
                STATUS_BAD_REQUEST,
                cat(label, " in URL path contains invalid character"),
                Some(owned(HINT_ID_CHARS)),
            ),
        );
    }
    Ok(())
}

/// Checks a path-supplied application id.
pub fn validate_path_application_id(application_id: &str) -> (r: Result<(), Rejection>)
    ensures
        refusal(r) == path_id_refusal("application_id"@, application_id@),
{
    validate_path_id("application_id", application_id)
}

/// Checks a path-supplied device id.
pub fn validate_path_device_id(device_id: &str) -> (r: Result<(), Rejection>)
    ensures
        refusal(r) == path_id_refusal("device_id"@, device_id@),
{
    validate_path_id("device_id", device_id)
}

/// The refusal of an empty or blank `field`.
pub open spec fn blank_refusal(field: Seq<char>) -> RejectionModel {
    refused(STATUS_BAD_REQUEST, field + " must not be empty or whitespace-only"@, Some(HINT_NON_EMPTY@))
}

/// The refusal of `field` holding `len` bytes, over `max`.
pub open spec fn too_long_refusal(field: Seq<char>, len: nat, max: nat) -> RejectionModel {
    refused(
        STATUS_BAD_REQUEST,
        field + " length "@ + decimal(len) + " exceeds maximum of "@ + decimal(max),
        Some("shorten "@ + field + " to <= "@ + decimal(max) + " characters"@),
    )
}

/// The refusal of `field` holding character `bad`.
pub open spec fn bad_char_refusal(field: Seq<char>, bad: char, hint: Seq<char>) -> RejectionModel {
    refused(STATUS_BAD_REQUEST, field + " contains invalid character "@ + char_debug(bad), Some(hint))
}

/// Refusal of an application body field, if refused. `application_name`
/// takes the name class; every other field the id class.
pub open spec fn app_field_refusal(field: Seq<char>, value: Seq<char>) -> Option<RejectionModel> {
    if all_ws(value) {
        Some(blank_refusal(field))
    } else if utf8_len(value) > APP_FIELD_MAX_LEN {
        Some(too_long_refusal(field, utf8_len(value), APP_FIELD_MAX_LEN as nat))
    } else {
        match first_outside(value, field == "application_name"@) {
            Some(bad) => Some(
                bad_char_refusal(
                    field,
                    bad,
                    if field == "application_id"@ {
                        HINT_ID_CHARS@
                    } else {
                        HINT_NAME_CHARS@
                    },
                ),
            ),
            None => None,
        }
    }
}

fn blank_error(field: &str) -> (r: Rejection)
    ensures
        r@ == blank_refusal(field@),
{
    reject(
        STATUS_BAD_REQUEST,
        cat(field, " must not be empty or whitespace-only"),
        Some(owned(HINT_NON_EMPTY)),
    )
}

fn too_long_error(field: &str, len: usize, max: usize) -> (r: Rejection)
    ensures
        r@ == too_long_refusal(field@, len as nat, max as nat),
{
    let a = cat(field, " length ");
    let b = cat(a.as_str(), decimal_string(len).as_str());
    let c = cat(b.as_str(), " exceeds maximum of ");
    let msg = cat(c.as_str(), decimal_string(max).as_str());
    let h1 = cat("shorten ", field);
    let h2 = cat(h1.as_str(), " to <= ");
    let h3 = cat(h2.as_str(), decimal_string(max).as_str());
    let hint = cat(h3.as_str(), " characters");
    reject(STATUS_BAD_REQUEST, msg, Some(hint))
}

fn bad_char_error(field: &str, bad: char, hint: &str) -> (r: Rejection)
    ensures
        r@ == bad_char_refusal(field@, bad, hint@),
{
    let a = cat(field, " contains invalid character ");
    let msg = cat(a.as_str(), debug_char(bad).as_str());
    reject(STATUS_BAD_REQUEST, msg, Some(owned(hint)))
}

/// Checks an application body field (`application_id`,
/// `application_name`): not blank, at most 256 bytes, only allowed
/// characters.
pub fn validate_application_field(field: &str, value: &str) -> (r: Result<(), Rejection>)
    ensures
        refusal(r) == app_field_refusal(field@, value@),
{
    if blank(value) {
        return Err(blank_error(field));
    }
    let len = byte_len(value);
    if len > APP_FIELD_MAX_LEN {
        return Err(too_long_error(field, len, APP_FIELD_MAX_LEN));
    }
    match find_disallowed(value, str_eq(field, "application_name")) {
        Some(bad) => {
            let hint = if str_eq(field, "application_id") {
                HINT_ID_CHARS
            } else {
                HINT_NAME_CHARS
            };
            Err(bad_char_error(field, bad, hint))
        },
        None => Ok(()),
    }
}

/// The metric types a mapping may name.
pub open spec fn known_metric_type(v: Seq<char>) -> bool {
    v == "Float"@ || v == "Int"@ || v == "Bool"@ || v == "String"@
}

/// Refusal of a device or metric body field, if refused:
/// `metric_type` must name a known type; `metric_unit` may be empty, is
/// at most 64 bytes and any characters; every other field is not
/// blank, at most 256 bytes, and in the name class (`device_name`) or
/// the id class.
pub open spec fn device_field_refusal(field: Seq<char>, value: Seq<char>) -> Option<RejectionModel> {
    let max: nat = if field == "metric_unit"@ {
        METRIC_UNIT_MAX_LEN as nat
    } else {
        APP_FIELD_MAX_LEN as nat
    };
    if field == "metric_type"@ {
        if known_metric_type(value) {
            None
        } else {
            Some(
                refused(
                    STATUS_BAD_REQUEST,
                    "metric_type must be one of: Float, Int, Bool, String"@,
                    Some("case-sensitive; matches OpcMetricTypeConfig enum"@),
                ),
            )
        }
    } else if field != "metric_unit"@ && all_ws(value) {
        Some(blank_refusal(field))
    } else if utf8_len(value) > max {
        Some(too_long_refusal(field, utf8_len(value), max))
    } else if field == "metric_unit"@ {
        None
    } else {
        match first_outside(value, field == "device_name"@) {
            Some(bad) => Some(
                bad_char_refusal(
                    field,
                    bad,
                    if field == "device_name"@ {
                        HINT_NAME_CHARS@
                    } else {
                        HINT_ID_CHARS@
                    },
                ),
            ),
            None => None,
        }
    }
}

/// Checks a device or metric body field.
pub fn validate_device_field(field: &str, value: &str) -> (r: Result<(), Rejection>)
    ensures
        refusal(r) == device_field_refusal(field@, value@),
{
    if str_eq(field, "metric_type") {
        if str_eq(value, "Float") || str_eq(value, "Int") || str_eq(value, "Bool") || str_eq(
            value,
            "String",
        ) {
            return Ok(());
        }
        return Err(
            reject(
                STATUS_BAD_REQUEST,
                owned("metric_type must be one of: Float, Int, Bool, String"),
                Some(owned("case-sensitive; matches OpcMetricTypeConfig enum")),
            ),
        );
    }
    let is_unit = str_eq(field, "metric_unit");
    let max_len = if is_unit {
        METRIC_UNIT_MAX_LEN
    } else {
        APP_FIELD_MAX_LEN
    };
    if !is_unit && blank(value) {
        return Err(blank_error(field));
    }
    let len = byte_len(value);
    if len > max_len {
        return Err(too_long_error(field, len, max_len));
    }
    if is_unit {
        return Ok(());
    }
    let names = str_eq(field, "device_name");
    match find_disallowed(value, names) {
        Some(bad) => {
            let hint = if names {
                HINT_NAME_CHARS
            } else {
                HINT_ID_CHARS
            };
            Err(bad_char_error(field, bad, hint))
        },
        None => Ok(()),
    }
}


// ---------------------------------------------------------------------
// Request bodies
// ---------------------------------------------------------------------

/// `POST /api/applications` body.
#[derive(Debug, Clone)]
pub struct CreateApplicationRequest {
    pub application_id: String,
    pub application_name: String,
}

/// `PUT /api/applications/:application_id` body (v1 contract).
#[derive(Debug, Clone)]
pub struct UpdateApplicationRequest {
    pub application_name: String,
    pub application_id: Option<String>,
}

/// One metric mapping inside a device body.
#[derive(Debug, Clone)]
pub struct MetricMappingRequest {
    pub metric_name: String,
    pub chirpstack_metric_name: String,
    pub metric_type: String,
    pub metric_unit: Option<String>,
}

/// `POST /api/applications/:application_id/devices` body.
#[derive(Debug, Clone)]
pub struct CreateDeviceRequest {
    pub device_id: String,
    pub device_name: String,
    pub read_metric_list: Vec<MetricMappingRequest>,
}

/// `PUT /api/applications/:application_id/devices/:device_id` body (v1 contract).
#[derive(Debug, Clone)]
pub struct UpdateDeviceRequest {
    pub device_name: String,
    pub read_metric_list: Vec<MetricMappingRequest>,
    pub device_id: Option<String>,
}

/// Unicode control characters (general category `Cc`).
pub open spec fn control_char(c: char) -> bool {
    c <= '\u{1f}' || ('\u{7f}' <= c && c <= '\u{9f}')
}

/// Whether some character of `s` is a control character.
pub open spec fn has_control(s: Seq<char>) -> bool {
    exists|i: int| 0 <= i < s.len() && control_char(#[trigger] s[i])
}

fn contains_control(s: &str) -> (r: bool)
    ensures
        r == has_control(s@),
{
    let v = chars_of(s);
    let mut i: usize = 0;
    while i < v.len()
        invariant
            i <= v.len(),
            v@ == s@,
            forall|j: int| 0 <= j < i ==> !control_char(#[trigger] v@[j]),
        decreases v.len() - i,
    {
        let c = v[i];
        if c <= '\u{1f}' || ('\u{7f}' <= c && c <= '\u{9f}') {
            proof {
                assert(control_char(v@[i as int]));
            }
            return true;
        }
        i = i + 1;
    }
    false
}

#[verifier::opaque]
/// Refusal of the metric mapping at position `idx`, if refused: its
/// three required fields in order, then its unit (no control character,
/// then the unit rules).
pub open spec fn mapping_refusal(idx: nat, m: MetricMappingRequest) -> Option<RejectionModel> {
    if device_field_refusal("metric_name"@, m.metric_name@) is Some {
        device_field_refusal("metric_name"@, m.metric_name@)
    } else if device_field_refusal("chirpstack_metric_name"@, m.chirpstack_metric_name@) is Some {
        device_field_refusal("chirpstack_metric_name"@, m.chirpstack_metric_name@)
    } else if device_field_refusal("metric_type"@, m.metric_type@) is Some {
        device_field_refusal("metric_type"@, m.metric_type@)
    } else {
        match m.metric_unit {
            None => None,
            Some(u) => if has_control(u@) {
                Some(
                    refused(
                        STATUS_BAD_REQUEST,
                        "metric_list["@ + decimal(idx) + "].metric_unit contains a control character"@,
                        Some("use printable characters only (e.g. \"°C\", \"%\", \"m³\")"@),
                    ),
                )
            } else {
                device_field_refusal("metric_unit"@, u@)
            },
        }
    }
}

/// Checks one metric mapping of a device body.
pub fn validate_metric_mapping_fields(idx: usize, m: &MetricMappingRequest) -> (r: Result<(), Rejection>)
    ensures
        refusal(r) == mapping_refusal(idx as nat, *m),
{
    reveal(mapping_refusal);
    validate_device_field("metric_name", m.metric_name.as_str())?;
    validate_device_field("chirpstack_metric_name", m.chirpstack_metric_name.as_str())?;
    validate_device_field("metric_type", m.metric_type.as_str())?;
    match &m.metric_unit {
        None => Ok(()),
        Some(unit) => {
            if contains_control(unit.as_str()) {
                let a = cat("metric_list[", decimal_string(idx).as_str());
                let msg = cat(a.as_str(), "].metric_unit contains a control character");
                return Err(
                    reject(
                        STATUS_BAD_REQUEST,
                        msg,
                        Some(owned("use printable characters only (e.g. \"°C\", \"%\", \"m³\")")),
                    ),
                );
            }
            validate_device_field("metric_unit", unit.as_str())
        },
    }
}

/// Refusal of the first refused mapping among the first `n`, if any.
pub open spec fn mappings_refusal(list: Seq<MetricMappingRequest>, n: int) -> Option<RejectionModel>
    decreases n,
{
    if n <= 0 {
        None
    } else if mappings_refusal(list, n - 1) is Some {
        mappings_refusal(list, n - 1)
    } else {
        mapping_refusal((n - 1) as nat, list[n - 1])
    }
}

proof fn lemma_mappings_stop(list: Seq<MetricMappingRequest>, k: int, n: int)
    requires
        0 <= k <= n,
        mappings_refusal(list, k) is Some,
    ensures
        mappings_refusal(list, n) == mappings_refusal(list, k),
    decreases n - k,
{
    if k < n {
        lemma_mappings_stop(list, k, n - 1);
    }
}

/// Checks every metric mapping in order; the first refusal wins.
pub fn validate_metric_list(list: &Vec<MetricMappingRequest>) -> (r: Result<(), Rejection>)
    ensures
        refusal(r) == mappings_refusal(list@, list@.len() as int),
{
    let mut i: usize = 0;
    while i < list.len()
        invariant
            i <= list.len(),
            mappings_refusal(list@, i as int) is None,
        decreases list.len() - i,
    {
        let checked = validate_metric_mapping_fields(i, &list[i]);
        if checked.is_err() {
            proof {
                lemma_mappings_stop(list@, i + 1, list@.len() as int);
            }
            return checked;
        }
        i = i + 1;
    }
    Ok(())
}

/// Checks a create-application body: id, then name.
pub fn validate_create_application(req: &CreateApplicationRequest) -> (r: Result<(), Rejection>)
    ensures
        refusal(r) == if app_field_refusal("application_id"@, req.application_id@) is Some {
            app_field_refusal("application_id"@, req.application_id@)
        } else {
            app_field_refusal("application_name"@, req.application_name@)
        },
{
    validate_application_field("application_id", req.application_id.as_str())?;
    validate_application_field("application_name", req.application_name.as_str())
}

/// Checks a create-device body: id, name, then each mapping.
pub fn validate_create_device(req: &CreateDeviceRequest) -> (r: Result<(), Rejection>)
    ensures
        refusal(r) == if device_field_refusal("device_id"@, req.device_id@) is Some {
            device_field_refusal("device_id"@, req.device_id@)
        } else if device_field_refusal("device_name"@, req.device_name@) is Some {
            device_field_refusal("device_name"@, req.device_name@)
        } else {
            mappings_refusal(req.read_metric_list@, req.read_metric_list@.len() as int)
        },
{
    validate_device_field("device_id", req.device_id.as_str())?;
    validate_device_field("device_name", req.device_name.as_str())?;
    validate_metric_list(&req.read_metric_list)
}

// ---------------------------------------------------------------------
// PUT bodies, walked field by field
// ---------------------------------------------------------------------

/// One member of a JSON object body: its key, its value when that is a
/// string, and its value read as a metric-mapping list when it is one.
#[derive(Debug, Clone)]
pub struct BodyField {
    pub key: String,
    pub text: Option<String>,
    pub metric_list: Option<Vec<MetricMappingRequest>>,
}

/// The refusal of a body member `key` that the endpoint does not accept.
pub open spec fn unknown_field_refusal(key: Seq<char>, accepted: Seq<char>) -> RejectionModel {
    refused(
        STATUS_BAD_REQUEST,
        "PUT body contains unknown field '"@ + key + "'"@,
        Some(accepted),
    )
}

/// The rename PUT body walked member by member: the last name seen, or
/// the refusal of the first member refused.
pub open spec fn app_body_walk(fields: Seq<BodyField>) -> Result<Option<Seq<char>>, RejectionModel>
    decreases fields.len(),
{
    if fields.len() == 0 {
        Ok(None)
    } else {
        match app_body_walk(fields.drop_last()) {
            Err(e) => Err(e),
            Ok(name) => {
                let f = fields.last();
                if f.key@ == "application_name"@ {
                    match f.text {
                        Some(t) => Ok(Some(t@)),
                        None => Err(
                            refused(STATUS_BAD_REQUEST, "application_name must be a string"@, None),
                        ),
                    }
                } else if f.key@ == "application_id"@ {
                    Err(
                        refused(
                            STATUS_BAD_REQUEST,
                            "application_id is immutable; delete and recreate to change"@,
                            Some(
                                "remove the application_id field from the PUT body — the URL path is authoritative"@,
                            ),
                        ),
                    )
                } else {
                    Err(unknown_field_refusal(f.key@, "PUT accepts only `application_name`"@))
                }
            },
        }
    }
}

/// What the rename PUT body yields: the new name, or a refusal. `None`
/// stands for a body that is not a JSON object.
pub open spec fn app_body_result(body: Option<Seq<BodyField>>) -> Result<Seq<char>, RejectionModel> {
    match body {
        None => Err(
            refused(
                STATUS_BAD_REQUEST,
                "PUT body must be a JSON object"@,
                Some("send `{\"application_name\": \"...\"}`"@),
            ),
        ),
        Some(fields) => match app_body_walk(fields) {
            Err(e) => Err(e),
            Ok(None) => Err(
                refused(
                    STATUS_BAD_REQUEST,
                    "PUT body missing required field 'application_name'"@,
                    Some("send `{\"application_name\": \"new name\"}`"@),
                ),
            ),
            Ok(Some(name)) => Ok(name),
        },
    }
}

/// `Some(fs@)` for `Some(fs)`.
pub open spec fn opt_fields(body: Option<Vec<BodyField>>) -> Option<Seq<BodyField>> {
    match body {
        Some(fs) => Some(fs@),
        None => None,
    }
}

proof fn lemma_app_walk_stops(fields: Seq<BodyField>, k: int)
    requires
        0 <= k <= fields.len(),
        app_body_walk(fields.take(k)) is Err,
    ensures
        app_body_walk(fields) == app_body_walk(fields.take(k)),
    decreases fields.len() - k,
{
    if k < fields.len() {
        assert(fields.take(k + 1).drop_last() =~= fields.take(k));
        lemma_app_walk_stops(fields, k + 1);
    } else {
        assert(fields.take(k) =~= fields);
    }
}

/// Reads the rename PUT body. `None` is a body that is not a JSON object.
pub fn parse_update_application_body(body: &Option<Vec<BodyField>>) -> (r: Result<String, Rejection>)
    ensures
        match app_body_result(opt_fields(*body)) {
            Ok(name) => r matches Ok(n) && n@ == name,
            Err(e) => refusal(r) == Some(e),
        },
{
    let fields = match body {
        None => {
            return Err(
                reject(
                    STATUS_BAD_REQUEST,
                    owned("PUT body must be a JSON object"),
                    Some(owned("send `{\"application_name\": \"...\"}`")),
                ),
            );
        },
        Some(fs) => fs,
    };
    let mut name: Option<String> = None;
    let mut i: usize = 0;
    proof {
        assert(fields@.take(0) =~= Seq::<BodyField>::empty());
    }
    while i < fields.len()
        invariant
            i <= fields.len(),
            *body == Some(*fields),
            app_body_walk(fields@.take(i as int)) == Ok::<Option<Seq<char>>, RejectionModel>(
                opt_chars(name),
            ),
        decreases fields.len() - i,
    {
        let f = &fields[i];
        proof {
            assert(fields@.take(i + 1).drop_last() =~= fields@.take(i as int));
            assert(fields@.take(i + 1).last() == *f);
        }
        if str_eq(f.key.as_str(), "application_name") {
            match &f.text {
                Some(t) => {
                    name = Some(t.clone());
                },
                None => {
                    proof {
                        lemma_app_walk_stops(fields@, i + 1);
                    }
                    return Err(
                        reject(STATUS_BAD_REQUEST, owned("application_name must be a string"), None),
                    );
                },
            }
        } else if str_eq(f.key.as_str(), "application_id") {
            proof {
                lemma_app_walk_stops(fields@, i + 1);
            }
            return Err(
                reject(
                    STATUS_BAD_REQUEST,
                    owned("application_id is immutable; delete and recreate to change"),
                    Some(
                        owned(
                            "remove the application_id field from the PUT body — the URL path is authoritative",
                        ),
                    ),
                ),
            );
        } else {
            proof {
                lemma_app_walk_stops(fields@, i + 1);
            }
            let a = cat("PUT body contains unknown field '", f.key.as_str());
            return Err(
                reject(
                    STATUS_BAD_REQUEST,
                    cat(a.as_str(), "'"),
                    Some(owned("PUT accepts only `application_name`")),
                ),
            );
        }
        i = i + 1;
    }
    proof {
        assert(fields@.take(fields@.len() as int) =~= fields@);
    }
    match name {
        Some(n) => Ok(n),
        None => Err(
            reject(
                STATUS_BAD_REQUEST,
                owned("PUT body missing required field 'application_name'"),
                Some(owned("send `{\"application_name\": \"new name\"}`")),
            ),
        ),
    }
}


/// The device PUT body walked member by member: the last name and the
/// last metric list seen, or the refusal of the first member refused.
pub open spec fn device_body_walk(fields: Seq<BodyField>) -> Result<
    (Option<Seq<char>>, Option<Seq<MetricMappingRequest>>),
    RejectionModel,
>
    decreases fields.len(),
{
    if fields.len() == 0 {
        Ok((None, None))
    } else {
        match device_body_walk(fields.drop_last()) {
            Err(e) => Err(e),
            Ok((name, list)) => {
                let f = fields.last();
                if f.key@ == "device_name"@ {
                    match f.text {
                        Some(t) => Ok((Some(t@), list)),
                        None => Err(refused(STATUS_BAD_REQUEST, "device_name must be a string"@, None)),
                    }
                } else if f.key@ == "read_metric_list"@ {
                    match f.metric_list {
                        Some(l) => Ok((name, Some(l@))),
                        None => Err(
                            refused(
                                STATUS_BAD_REQUEST,
                                "read_metric_list must be an array of {metric_name, chirpstack_metric_name, metric_type, metric_unit} objects"@,
                                Some("metric_type must be one of: Float, Int, Bool, String"@),
                            ),
                        ),
                    }
                } else if f.key@ == "device_id"@ {
                    Err(
                        refused(
                            STATUS_BAD_REQUEST,
                            "device_id is immutable; delete and recreate to change"@,
                            Some(
                                "remove the device_id field from the PUT body — the URL path is authoritative"@,
                            ),
                        ),
                    )
                } else {
                    Err(
                        unknown_field_refusal(
                            f.key@,
                            "PUT accepts only `device_name` and `read_metric_list`"@,
                        ),
                    )
                }
            },
        }
    }
}

/// What the device PUT body yields: the new name and metric list, or a
/// refusal. `None` stands for a body that is not a JSON object.
pub open spec fn device_body_result(body: Option<Seq<BodyField>>) -> Result<
    (Seq<char>, Seq<MetricMappingRequest>),
    RejectionModel,
> {
    match body {
        None => Err(
            refused(
                STATUS_BAD_REQUEST,
                "PUT body must be a JSON object"@,
                Some("send `{\"device_name\": \"...\", \"read_metric_list\": [...]}`"@),
            ),
        ),
        Some(fields) => match device_body_walk(fields) {
            Err(e) => Err(e),
            Ok((None, _)) => Err(
                refused(
                    STATUS_BAD_REQUEST,
                    "PUT body missing required field 'device_name'"@,
                    Some("send `{\"device_name\": \"...\", \"read_metric_list\": [...]}`"@),
                ),
            ),
            Ok((Some(_), None)) => Err(
                refused(
                    STATUS_BAD_REQUEST,
                    "PUT body missing required field 'read_metric_list'"@,
                    Some("send an array (possibly empty) of metric-mapping objects"@),
                ),
            ),
            Ok((Some(name), Some(list))) => Ok((name, list)),
        },
    }
}

proof fn lemma_device_walk_stops(fields: Seq<BodyField>, k: int)
    requires
        0 <= k <= fields.len(),
        device_body_walk(fields.take(k)) is Err,
    ensures
        device_body_walk(fields) == device_body_walk(fields.take(k)),
    decreases fields.len() - k,
{
    if k < fields.len() {
        assert(fields.take(k + 1).drop_last() =~= fields.take(k));
        lemma_device_walk_stops(fields, k + 1);
    } else {
        assert(fields.take(k) =~= fields);
    }
}

/// `Some(l@)` for `Some(l)`.
pub open spec fn opt_list(o: Option<Vec<MetricMappingRequest>>) -> Option<Seq<MetricMappingRequest>> {
    match o {
        Some(l) => Some(l@),
        None => None,
    }
}

/// Reads the device PUT body. `None` is a body that is not a JSON object.
pub fn parse_update_device_body(body: Option<Vec<BodyField>>) -> (r: Result<
    (String, Vec<MetricMappingRequest>),
    Rejection,
>)
    ensures
        match device_body_result(opt_fields(body)) {
            Ok((name, list)) => r matches Ok((n, l)) && n@ == name && l@ == list,
            Err(e) => refusal(r) == Some(e),
        },
{
    let mut fields = match body {
        None => {
            return Err(
                reject(
                    STATUS_BAD_REQUEST,
                    owned("PUT body must be a JSON object"),
                    Some(owned("send `{\"device_name\": \"...\", \"read_metric_list\": [...]}`")),
                ),
            );
        },
        Some(fs) => fs,
    };
    let ghost all = fields@;
    let mut name: Option<String> = None;
    let mut list_at: Option<usize> = None;
    let mut i: usize = 0;
    proof {
        assert(fields@.take(0) =~= Seq::<BodyField>::empty());
    }
    while i < fields.len()
        invariant
            i <= fields.len(),
            fields@ == all,
            opt_fields(body) == Some(all),
            device_body_walk(all.take(i as int)) matches Ok((n, l)) && n == opt_chars(name) && match list_at {
                Some(j) => j < i && l == opt_list(all[j as int].metric_list) && l is Some,
                None => l is None,
            },
        decreases fields.len() - i,
    {
        let f = &fields[i];
        proof {
            assert(all.take(i + 1).drop_last() =~= all.take(i as int));
            assert(all.take(i + 1).last() == *f);
        }
        if str_eq(f.key.as_str(), "device_name") {
            match &f.text {
                Some(t) => {
                    name = Some(t.clone());
                },
                None => {
                    proof {
                        lemma_device_walk_stops(all, i + 1);
                    }
                    return Err(reject(STATUS_BAD_REQUEST, owned("device_name must be a string"), None));
                },
            }
        } else if str_eq(f.key.as_str(), "read_metric_list") {
            if f.metric_list.is_some() {
                list_at = Some(i);
            } else {
                proof {
                    lemma_device_walk_stops(all, i + 1);
                }
                return Err(
                    reject(
                        STATUS_BAD_REQUEST,
                        owned(
                            "read_metric_list must be an array of {metric_name, chirpstack_metric_name, metric_type, metric_unit} objects",
                        ),
                        Some(owned("metric_type must be one of: Float, Int, Bool, String")),
                    ),
                );
            }
        } else if str_eq(f.key.as_str(), "device_id") {
            proof {
                lemma_device_walk_stops(all, i + 1);
            }
            return Err(
                reject(
                    STATUS_BAD_REQUEST,
                    owned("device_id is immutable; delete and recreate to change"),
                    Some(
                        owned(
                            "remove the device_id field from the PUT body — the URL path is authoritative",
                        ),
                    ),
                ),
            );
        } else {
            proof {
                lemma_device_walk_stops(all, i + 1);
            }
            let a = cat("PUT body contains unknown field '", f.key.as_str());
            return Err(
                reject(
                    STATUS_BAD_REQUEST,
                    cat(a.as_str(), "'"),
                    Some(owned("PUT accepts only `device_name` and `read_metric_list`")),
                ),
            );
        }
        i = i + 1;
    }
    proof {
        assert(all.take(all.len() as int) =~= all);
    }
    let n = match name {
        Some(n) => n,
        None => {
            return Err(
                reject(
                    STATUS_BAD_REQUEST,
                    owned("PUT body missing required field 'device_name'"),
                    Some(owned("send `{\"device_name\": \"...\", \"read_metric_list\": [...]}`")),
                ),
            );
        },
    };
    match list_at {
        Some(j) => {
            let f = fields.remove(j);
            match f.metric_list {
                Some(l) => Ok((n, l)),
                None => Err(internal_error()),
            }
        },
        None => Err(
            reject(
                STATUS_BAD_REQUEST,
                owned("PUT body missing required field 'read_metric_list'"),
                Some(owned("send an array (possibly empty) of metric-mapping objects")),
            ),
        ),
    }
}


/// Reads and checks the rename PUT body: the new name, validated.
pub fn update_application_request(body: &Option<Vec<BodyField>>) -> (r: Result<String, Rejection>)
    ensures
        match app_body_result(opt_fields(*body)) {
            Err(e) => refusal(r) == Some(e),
            Ok(name) => match app_field_refusal("application_name"@, name) {
                Some(e) => refusal(r) == Some(e),
                None => r matches Ok(n) && n@ == name,
            },
        },
{
    let name = parse_update_application_body(body)?;
    validate_application_field("application_name", name.as_str())?;
    Ok(name)
}

/// Reads and checks the device PUT body: the new name and metric list,
/// validated.
pub fn update_device_request(body: Option<Vec<BodyField>>) -> (r: Result<
    (String, Vec<MetricMappingRequest>),
    Rejection,
>)
    ensures
        match device_body_result(opt_fields(body)) {
            Err(e) => refusal(r) == Some(e),
            Ok((name, list)) => if device_field_refusal("device_name"@, name) is Some {
                refusal(r) == device_field_refusal("device_name"@, name)
            } else if mappings_refusal(list, list.len() as int) is Some {
                refusal(r) == mappings_refusal(list, list.len() as int)
            } else {
                r matches Ok((n, l)) && n@ == name && l@ == list
            },
        },
{
    let (name, list) = parse_update_device_body(body)?;
    validate_device_field("device_name", name.as_str())?;
    validate_metric_list(&list)?;
    Ok((name, list))
}


// ---------------------------------------------------------------------
// Response bodies
// ---------------------------------------------------------------------

/// `GET /api/status` body.
#[derive(Debug, PartialEq, Eq)]
pub struct StatusResponse {
    pub chirpstack_available: bool,
    pub last_poll_time: Option<String>,
    pub error_count: i32,
    pub application_count: usize,
    pub device_count: usize,
    pub uptime_secs: u64,
}

/// One metric of the live grid: its value and timestamp are absent when
/// the metric was never reported.
#[derive(Debug, PartialEq, Eq)]
pub struct MetricView {
    pub metric_name: String,
    pub data_type: String,
    pub value: Option<String>,
    pub timestamp: Option<String>,
}

/// One device of the live grid.
#[derive(Debug, PartialEq, Eq)]
pub struct DeviceView {
    pub device_id: String,
    pub device_name: String,
    pub metrics: Vec<MetricView>,
}

/// One application of the live grid.
#[derive(Debug, PartialEq, Eq)]
pub struct ApplicationView {
    pub application_id: String,
    pub application_name: String,
    pub devices: Vec<DeviceView>,
}

/// `GET /api/devices` body.
#[derive(Debug, PartialEq, Eq)]
pub struct DevicesResponse {
    pub as_of: String,
    pub stale_threshold_secs: u64,
    pub bad_threshold_secs: u64,
    pub applications: Vec<ApplicationView>,
}

/// One entry of `GET /api/applications`.
#[derive(Debug, PartialEq, Eq)]
pub struct ApplicationListEntry {
    pub application_id: String,
    pub application_name: String,
    pub device_count: usize,
}

/// `GET /api/applications` body.
#[derive(Debug, PartialEq, Eq)]
pub struct ApplicationListResponse {
    pub applications: Vec<ApplicationListEntry>,
}

/// Body of one application.
#[derive(Debug, PartialEq, Eq)]
pub struct ApplicationResponse {
    pub application_id: String,
    pub application_name: String,
    pub device_count: usize,
}

/// One entry of a device list.
#[derive(Debug, PartialEq, Eq)]
pub struct DeviceListEntry {
    pub device_id: String,
    pub device_name: String,
    pub metric_count: usize,
}

/// `GET /api/applications/:application_id/devices` body.
#[derive(Debug, PartialEq, Eq)]
pub struct DeviceListResponse {
    pub application_id: String,
    pub devices: Vec<DeviceListEntry>,
}

/// One metric mapping of a device body.
#[derive(Debug, PartialEq, Eq)]
pub struct MetricMappingResponse {
    pub metric_name: String,
    pub chirpstack_metric_name: String,
    pub metric_type: String,
    pub metric_unit: Option<String>,
}

/// Body of one device with its full metric mapping list.
#[derive(Debug, PartialEq, Eq)]
pub struct DeviceResponse {
    pub device_id: String,
    pub device_name: String,
    pub read_metric_list: Vec<MetricMappingResponse>,
}

/// Display name of a configured metric type.
pub fn config_type_to_display(t: &OpcMetricTypeConfig) -> (r: &'static str)
    ensures
        r@ == opc_type_str(*t),
{
    match t {
        OpcMetricTypeConfig::Bool => "Bool",
        OpcMetricTypeConfig::Int => "Int",
        OpcMetricTypeConfig::Float => "Float",
        OpcMetricTypeConfig::String => "String",
    }
}

/// The status body: the gateway-health values read from storage, the
/// configured counts of `snapshot`, and the uptime.
pub fn status_response(
    last_poll_time: Option<String>,
    error_count: i32,
    chirpstack_available: bool,
    snapshot: &DashboardConfigSnapshot,
    uptime_secs: u64,
) -> (r: StatusResponse)
    ensures
        r.chirpstack_available == chirpstack_available,
        opt_chars(r.last_poll_time) == opt_chars(last_poll_time),
        r.error_count == error_count,
        r.application_count == snapshot.application_count,
        r.device_count == snapshot.device_count,
        r.uptime_secs == uptime_secs,
{
    StatusResponse {
        chirpstack_available,
        last_poll_time,
        error_count,
        application_count: snapshot.application_count,
        device_count: snapshot.device_count,
        uptime_secs,
    }
}

// ---------------------------------------------------------------------
// Live metric grid
// ---------------------------------------------------------------------

/// A stored metric value, as the grid shows it: the type's display name,
/// the value text and the timestamp in RFC 3339.
#[derive(Debug, Clone)]
pub struct LiveMetric {
    pub device_id: String,
    pub metric_name: String,
    pub data_type: String,
    pub value: String,
    pub timestamp: String,
}

/// The last stored value for `(dev, metric)`, if any (a map filled from
/// the rows in order keeps the last).
pub open spec fn last_live(rows: Seq<LiveMetric>, dev: Seq<char>, metric: Seq<char>) -> Option<LiveMetric>
    decreases rows.len(),
{
    if rows.len() == 0 {
        None
    } else if rows.last().device_id@ == dev && rows.last().metric_name@ == metric {
        Some(rows.last())
    } else {
        last_live(rows.drop_last(), dev, metric)
    }
}

/// `v` shows configured metric `m` of device `dev` given the stored rows.
pub open spec fn metric_view_shows(v: MetricView, dev: Seq<char>, m: MetricSpec, rows: Seq<LiveMetric>) -> bool {
    &&& v.metric_name@ == m.metric_name@
    &&& match last_live(rows, dev, m.metric_name@) {
        Some(row) => v.data_type@ == row.data_type@ && opt_chars(v.value) == Some(row.value@)
            && opt_chars(v.timestamp) == Some(row.timestamp@),
        None => v.data_type@ == opc_type_str(m.metric_type) && v.value is None && v.timestamp is None,
    }
}

/// `v` shows device `d` given the stored rows, metric by metric.
pub open spec fn device_view_shows(v: DeviceView, d: DeviceSummary, rows: Seq<LiveMetric>) -> bool {
    &&& v.device_id@ == d.device_id@
    &&& v.device_name@ == d.device_name@
    &&& v.metrics@.len() == d.metrics@.len()
    &&& forall|k: int|
        0 <= k < v.metrics@.len() ==> metric_view_shows(
            #[trigger] v.metrics@[k],
            d.device_id@,
            d.metrics@[k],
            rows,
        )
}

/// `v` shows application `a` given the stored rows, device by device.
pub open spec fn app_view_shows(v: ApplicationView, a: ApplicationSummary, rows: Seq<LiveMetric>) -> bool {
    &&& v.application_id@ == a.application_id@
    &&& v.application_name@ == a.application_name@
    &&& v.devices@.len() == a.devices@.len()
    &&& forall|j: int|
        0 <= j < v.devices@.len() ==> device_view_shows(#[trigger] v.devices@[j], a.devices@[j], rows)
}

fn find_live(rows: &Vec<LiveMetric>, dev: &String, metric: &String) -> (r: Option<usize>)
    ensures
        r is None ==> last_live(rows@, dev@, metric@) is None,
        r matches Some(i) ==> i < rows@.len() && last_live(rows@, dev@, metric@) == Some(rows@[i as int]),
{
    let mut i = rows.len();
    proof {
        assert(rows@.take(rows@.len() as int) =~= rows@);
    }
    while i > 0
        invariant
            i <= rows@.len(),
            last_live(rows@, dev@, metric@) == last_live(rows@.take(i as int), dev@, metric@),
        decreases i,
    {
        proof {
            assert(rows@.take(i as int).drop_last() =~= rows@.take(i - 1));
            assert(rows@.take(i as int).last() == rows@[i - 1]);
        }
        if rows[i - 1].device_id == *dev && rows[i - 1].metric_name == *metric {
            return Some(i - 1);
        }
        i = i - 1;
    }
    None
}

fn metric_view(dev: &String, m: &MetricSpec, rows: &Vec<LiveMetric>) -> (v: MetricView)
    ensures
        metric_view_shows(v, dev@, *m, rows@),
{
    match find_live(rows, dev, &m.metric_name) {
        Some(i) => MetricView {
            metric_name: m.metric_name.clone(),
            data_type: rows[i].data_type.clone(),
            value: Some(rows[i].value.clone()),
            timestamp: Some(rows[i].timestamp.clone()),
        },
        None => MetricView {
            metric_name: m.metric_name.clone(),
            data_type: owned(config_type_to_display(&m.metric_type)),
            value: None,
            timestamp: None,
        },
    }
}

fn device_view(d: &DeviceSummary, rows: &Vec<LiveMetric>) -> (v: DeviceView)
    ensures
        device_view_shows(v, *d, rows@),
{
    let mut metrics: Vec<MetricView> = Vec::new();
    let mut k: usize = 0;
    while k < d.metrics.len()
        invariant
            k <= d.metrics.len(),
            metrics@.len() == k,
            forall|t: int|
                0 <= t < k ==> metric_view_shows(#[trigger] metrics@[t], d.device_id@, d.metrics@[t], rows@),
        decreases d.metrics.len() - k,
    {
        metrics.push(metric_view(&d.device_id, &d.metrics[k], rows));
        k = k + 1;
    }
    DeviceView { device_id: d.device_id.clone(), device_name: d.device_name.clone(), metrics }
}

fn application_view(a: &ApplicationSummary, rows: &Vec<LiveMetric>) -> (v: ApplicationView)
    ensures
        app_view_shows(v, *a, rows@),
{
    let mut devices: Vec<DeviceView> = Vec::new();
    let mut j: usize = 0;
    while j < a.devices.len()
        invariant
            j <= a.devices.len(),
            devices@.len() == j,
            forall|t: int| 0 <= t < j ==> device_view_shows(#[trigger] devices@[t], a.devices@[t], rows@),
        decreases a.devices.len() - j,
    {
        devices.push(device_view(&a.devices[j], rows));
        j = j + 1;
    }
    ApplicationView {
        application_id: a.application_id.clone(),
        application_name: a.application_name.clone(),
        devices,
    }
}

/// The live grid: every configured application, device and metric of
/// `snapshot` in order, each metric with its last stored value when
/// there is one and its configured type otherwise.
pub fn devices_response(
    as_of: String,
    stale_threshold_secs: u64,
    snapshot: &DashboardConfigSnapshot,
    rows: &Vec<LiveMetric>,
) -> (r: DevicesResponse)
    ensures
        r.as_of@ == as_of@,
        r.stale_threshold_secs == stale_threshold_secs,
        r.bad_threshold_secs == BAD_THRESHOLD_SECS,
        r.applications@.len() == snapshot.applications@.len(),
        forall|i: int|
            0 <= i < r.applications@.len() ==> app_view_shows(
                #[trigger] r.applications@[i],
                snapshot.applications@[i],
                rows@,
            ),
{
    let mut applications: Vec<ApplicationView> = Vec::new();
    let mut i: usize = 0;
    while i < snapshot.applications.len()
        invariant
            i <= snapshot.applications.len(),
            applications@.len() == i,
            forall|t: int|
                0 <= t < i ==> app_view_shows(#[trigger] applications@[t], snapshot.applications@[t], rows@),
        decreases snapshot.applications.len() - i,
    {
        applications.push(application_view(&snapshot.applications[i], rows));
        i = i + 1;
    }
    DevicesResponse { as_of, stale_threshold_secs, bad_threshold_secs: BAD_THRESHOLD_SECS, applications }
}


// ---------------------------------------------------------------------
// Read endpoints and success bodies
// ---------------------------------------------------------------------

/// A copy of an optional string.
pub fn copy_opt(o: &Option<String>) -> (r: Option<String>)
    ensures
        opt_chars(r) == opt_chars(*o),
{
    match o {
        Some(s) => Some(s.clone()),
        None => None,
    }
}

/// `GET /api/applications`: every application of the snapshot, in order,
/// with its device count.
pub fn list_applications_response(snapshot: &DashboardConfigSnapshot) -> (r: ApplicationListResponse)
    ensures
        r.applications@.len() == snapshot.applications@.len(),
        forall|i: int|
            0 <= i < r.applications@.len() ==> {
                let e = #[trigger] r.applications@[i];
                let a = snapshot.applications@[i];
                e.application_id@ == a.application_id@ && e.application_name@ == a.application_name@
                    && e.device_count == a.device_count
            },
{
    let mut applications: Vec<ApplicationListEntry> = Vec::new();
    let mut i: usize = 0;
    while i < snapshot.applications.len()
        invariant
            i <= snapshot.applications.len(),
            applications@.len() == i,
            forall|t: int|
                0 <= t < i ==> {
                    let e = #[trigger] applications@[t];
                    let a = snapshot.applications@[t];
                    e.application_id@ == a.application_id@ && e.application_name@ == a.application_name@
                        && e.device_count == a.device_count
                },
        decreases snapshot.applications.len() - i,
    {
        let a = &snapshot.applications[i];
        applications.push(
            ApplicationListEntry {
                application_id: a.application_id.clone(),
                application_name: a.application_name.clone(),
                device_count: a.device_count,
            },
        );
        i = i + 1;
    }
    ApplicationListResponse { applications }
}

/// `GET /api/applications/:application_id`: the first application of the
/// snapshot with the id, after the path check; 404 when there is none.
pub fn get_application_response(snapshot: &DashboardConfigSnapshot, application_id: &str) -> (r: Result<
    ApplicationResponse,
    Rejection,
>)
    ensures
        path_id_refusal("application_id"@, application_id@) is Some ==> refusal(r) == path_id_refusal(
            "application_id"@,
            application_id@,
        ),
        path_id_refusal("application_id"@, application_id@) is None ==> match first_with_key(
            snapshot.applications@,
            application_id@,
        ) {
            None => refusal(r) == Some(refused(STATUS_NOT_FOUND, "application not found"@, None)),
            Some(a) => r matches Ok(b) && b.application_id@ == a.application_id@ && b.application_name@
                == a.application_name@ && b.device_count == a.device_count,
        },
{
    validate_path_application_id(application_id)?;
    match find_first_index(snapshot.applications.as_slice(), application_id) {
        Some(i) => {
            let a = &snapshot.applications[i];
            Ok(
                ApplicationResponse {
                    application_id: a.application_id.clone(),
                    application_name: a.application_name.clone(),
                    device_count: a.device_count,
                },
            )
        },
        None => Err(reject(STATUS_NOT_FOUND, owned("application not found"), None)),
    }
}

/// `GET /api/applications/:application_id/devices`: the devices of the
/// first application of the snapshot with the id, in order, with their
/// metric counts; 404 when there is none.
pub fn list_devices_response(snapshot: &DashboardConfigSnapshot, application_id: &str) -> (r: Result<
    DeviceListResponse,
    Rejection,
>)
    ensures
        path_id_refusal("application_id"@, application_id@) is Some ==> refusal(r) == path_id_refusal(
            "application_id"@,
            application_id@,
        ),
        path_id_refusal("application_id"@, application_id@) is None ==> match first_with_key(
            snapshot.applications@,
            application_id@,
        ) {
            None => refusal(r) == Some(refused(STATUS_NOT_FOUND, "application not found"@, None)),
            Some(a) => r matches Ok(b) && b.application_id@ == application_id@ && b.devices@.len()
                == a.devices@.len() && forall|j: int|
                0 <= j < b.devices@.len() ==> {
                    let e = #[trigger] b.devices@[j];
                    let d = a.devices@[j];
                    e.device_id@ == d.device_id@ && e.device_name@ == d.device_name@ && e.metric_count
                        == d.metrics@.len()
                },
        },
{
    validate_path_application_id(application_id)?;
    let i = match find_first_index(snapshot.applications.as_slice(), application_id) {
        Some(i) => i,
        None => {
            return Err(reject(STATUS_NOT_FOUND, owned("application not found"), None));
        },
    };
    let a = &snapshot.applications[i];
    let mut devices: Vec<DeviceListEntry> = Vec::new();
    let mut j: usize = 0;
    while j < a.devices.len()
        invariant
            j <= a.devices.len(),
            devices@.len() == j,
            forall|t: int|
                0 <= t < j ==> {
                    let e = #[trigger] devices@[t];
                    let d = a.devices@[t];
                    e.device_id@ == d.device_id@ && e.device_name@ == d.device_name@ && e.metric_count
                        == d.metrics@.len()
                },
        decreases a.devices.len() - j,
    {
        let d = &a.devices[j];
        devices.push(
            DeviceListEntry {
                device_id: d.device_id.clone(),
                device_name: d.device_name.clone(),
                metric_count: d.metrics.len(),
            },
        );
        j = j + 1;
    }
    Ok(DeviceListResponse { application_id: owned(application_id), devices })
}

/// `r` shows configured metric `m` in a device body.
pub open spec fn mapping_shows(r: MetricMappingResponse, m: ReadMetric) -> bool {
    &&& r.metric_name@ == m.metric_name@
    &&& r.chirpstack_metric_name@ == m.chirpstack_metric_name@
    &&& r.metric_type@ == opc_type_str(m.metric_type)
    &&& opt_chars(r.metric_unit) == opt_chars(m.metric_unit)
}

/// `GET /api/applications/:application_id/devices/:device_id`: the first
/// device with the id under the first application with the id, read
/// from the live configuration, with its full metric list; 404 when
/// either is missing.
pub fn get_device_response(cfg: &AppConfig, application_id: &str, device_id: &str) -> (r: Result<
    DeviceResponse,
    Rejection,
>)
    ensures
        path_id_refusal("application_id"@, application_id@) is Some ==> refusal(r) == path_id_refusal(
            "application_id"@,
            application_id@,
        ),
        path_id_refusal("application_id"@, application_id@) is None && path_id_refusal(
            "device_id"@,
            device_id@,
        ) is Some ==> refusal(r) == path_id_refusal("device_id"@, device_id@),
        path_id_refusal("application_id"@, application_id@) is None && path_id_refusal(
            "device_id"@,
            device_id@,
        ) is None ==> match first_with_key(cfg.application_list@, application_id@) {
            None => refusal(r) == Some(refused(STATUS_NOT_FOUND, "application not found"@, None)),
            Some(a) => match first_with_key(a.device_list@, device_id@) {
                None => refusal(r) == Some(refused(STATUS_NOT_FOUND, "device not found"@, None)),
                Some(d) => r matches Ok(b) && b.device_id@ == d.device_id@ && b.device_name@
                    == d.device_name@ && b.read_metric_list@.len() == d.read_metric_list@.len()
                    && forall|k: int|
                    0 <= k < b.read_metric_list@.len() ==> mapping_shows(
                        #[trigger] b.read_metric_list@[k],
                        d.read_metric_list@[k],
                    ),
            },
        },
{
    validate_path_application_id(application_id)?;
    validate_path_device_id(device_id)?;
    let i = match find_first_index(cfg.application_list.as_slice(), application_id) {
        Some(i) => i,
        None => {
            return Err(reject(STATUS_NOT_FOUND, owned("application not found"), None));
        },
    };
    let a = &cfg.application_list[i];
    let j = match find_first_index(a.device_list.as_slice(), device_id) {
        Some(j) => j,
        None => {
            return Err(reject(STATUS_NOT_FOUND, owned("device not found"), None));
        },
    };
    let d = &a.device_list[j];
    let mut list: Vec<MetricMappingResponse> = Vec::new();
    let mut k: usize = 0;
    while k < d.read_metric_list.len()
        invariant
            k <= d.read_metric_list.len(),
            list@.len() == k,
            forall|t: int| 0 <= t < k ==> mapping_shows(#[trigger] list@[t], d.read_metric_list@[t]),
        decreases d.read_metric_list.len() - k,
    {
        let m = &d.read_metric_list[k];
        list.push(
            MetricMappingResponse {
                metric_name: m.metric_name.clone(),
                chirpstack_metric_name: m.chirpstack_metric_name.clone(),
                metric_type: owned(config_type_to_display(&m.metric_type)),
                metric_unit: copy_opt(&m.metric_unit),
            },
        );
        k = k + 1;
    }
    Ok(
        DeviceResponse {
            device_id: d.device_id.clone(),
            device_name: d.device_name.clone(),
            read_metric_list: list,
        },
    )
}

/// `location` of a created application.
pub open spec fn application_location(id: Seq<char>) -> Seq<char> {
    "/api/applications/"@ + id
}

/// `Location` and body of a created application (no devices yet).
pub fn created_application_response(req: &CreateApplicationRequest) -> (r: (String, ApplicationResponse))
    ensures
        r.0@ == application_location(req.application_id@),
        r.1.application_id@ == req.application_id@,
        r.1.application_name@ == req.application_name@,
        r.1.device_count == 0,
{
    (
        cat("/api/applications/", req.application_id.as_str()),
        ApplicationResponse {
            application_id: req.application_id.clone(),
            application_name: req.application_name.clone(),
            device_count: 0,
        },
    )
}

/// `r` echoes mapping `m` of a request.
pub open spec fn mapping_echoes(r: MetricMappingResponse, m: MetricMappingRequest) -> bool {
    &&& r.metric_name@ == m.metric_name@
    &&& r.chirpstack_metric_name@ == m.chirpstack_metric_name@
    &&& r.metric_type@ == m.metric_type@
    &&& opt_chars(r.metric_unit) == opt_chars(m.metric_unit)
}

/// The body of a created or replaced device: the request's fields, its
/// mappings echoed in order.
pub fn device_response(device_id: &str, device_name: &str, list: &Vec<MetricMappingRequest>) -> (r: DeviceResponse)
    ensures
        r.device_id@ == device_id@,
        r.device_name@ == device_name@,
        r.read_metric_list@.len() == list@.len(),
        forall|k: int| 0 <= k < list@.len() ==> mapping_echoes(#[trigger] r.read_metric_list@[k], list@[k]),
{
    let mut out: Vec<MetricMappingResponse> = Vec::new();
    let mut k: usize = 0;
    while k < list.len()
        invariant
            k <= list.len(),
            out@.len() == k,
            forall|t: int| 0 <= t < k ==> mapping_echoes(#[trigger] out@[t], list@[t]),
        decreases list.len() - k,
    {
        let m = &list[k];
        out.push(
            MetricMappingResponse {
                metric_name: m.metric_name.clone(),
                chirpstack_metric_name: m.chirpstack_metric_name.clone(),
                metric_type: m.metric_type.clone(),
                metric_unit: copy_opt(&m.metric_unit),
            },
        );
        k = k + 1;
    }
    DeviceResponse { device_id: owned(device_id), device_name: owned(device_name), read_metric_list: out }
}

/// `location` of a created device.
pub open spec fn device_location(app: Seq<char>, dev: Seq<char>) -> Seq<char> {
    "/api/applications/"@ + app + "/devices/"@ + dev
}

/// `Location` of device `dev` of application `app`.
pub fn created_device_location(app: &str, dev: &str) -> (r: String)
    ensures
        r@ == device_location(app@, dev@),
{
    let a = cat("/api/applications/", app);
    let b = cat(a.as_str(), "/devices/");
    cat(b.as_str(), dev)
}

// ---------------------------------------------------------------------
// Laws
// ---------------------------------------------------------------------

proof fn lemma_first_outside_none(s: Seq<char>, names: bool)
    ensures
        first_outside(s, names) is None <==> forall|i: int| 0 <= i < s.len() ==> allowed_char(#[trigger] s[i], names),
        first_outside(s, names) matches Some(c) ==> (exists|i: int|
            0 <= i < s.len() && s[i] == c && !allowed_char(c, names) && forall|j: int|
                0 <= j < i ==> allowed_char(#[trigger] s[j], names)),
    decreases s.len(),
{
    if s.len() > 0 {
        lemma_first_outside_none(s.drop_first(), names);
        let t = s.drop_first();
        if allowed_char(s[0], names) {
            assert forall|i: int| 0 <= i < s.len() && (forall|j: int| 0 <= j < t.len() ==> allowed_char(#[trigger] t[j], names))
                implies allowed_char(#[trigger] s[i], names) by {
                if i > 0 {
                    assert(s[i] == t[i - 1]);
                }
            }
            if (forall|i: int| 0 <= i < s.len() ==> allowed_char(#[trigger] s[i], names)) {
                assert forall|j: int| 0 <= j < t.len() implies allowed_char(#[trigger] t[j], names) by {
                    assert(t[j] == s[j + 1]);
                }
            }
            if first_outside(s, names) is Some {
                let c = first_outside(s, names)->0;
                let i = choose|i: int|
                    0 <= i < t.len() && t[i] == c && !allowed_char(c, names) && forall|j: int|
                        0 <= j < i ==> allowed_char(#[trigger] t[j], names);
                assert(s[i + 1] == c);
                assert forall|j: int| 0 <= j < i + 1 implies allowed_char(#[trigger] s[j], names) by {
                    if j > 0 {
                        assert(s[j] == t[j - 1]);
                    }
                }
            }
        } else {
            assert(!allowed_char(s[0], names));
        }
    }
}

/// Ids are made of ASCII letters and digits, `-`, `_` and `.`: a path id
/// of 1 to 256 bytes is accepted exactly when every character is one of
/// those, and an `application_id` body field (not blank, at most 256
/// bytes) likewise; a refused field names the first other character.
pub proof fn law_id_characters(label: Seq<char>, id: Seq<char>)
    requires
        id.len() > 0,
        utf8_len(id) <= APP_FIELD_MAX_LEN,
        !all_ws(id),
    ensures
        path_id_refusal(label, id) is None <==> forall|i: int|
            0 <= i < id.len() ==> (('0' <= #[trigger] id[i] && id[i] <= '9') || ('a' <= id[i] && id[i] <= 'z') || (
            'A' <= id[i] && id[i] <= 'Z') || id[i] == '-' || id[i] == '_' || id[i] == '.'),
        app_field_refusal("application_id"@, id) is None <==> forall|i: int|
            0 <= i < id.len() ==> (('0' <= #[trigger] id[i] && id[i] <= '9') || ('a' <= id[i] && id[i] <= 'z') || (
            'A' <= id[i] && id[i] <= 'Z') || id[i] == '-' || id[i] == '_' || id[i] == '.'),
{
    reveal_strlit("application_id");
    reveal_strlit("application_name");
    assert("application_id"@.len() != "application_name"@.len());
    lemma_first_outside_none(id, false);
}

/// Display names are made of the id characters, space and parentheses:
/// an `application_name` (not blank, at most 256 bytes) is accepted
/// exactly when every character is one of those.
pub proof fn law_name_characters(name: Seq<char>)
    requires
        utf8_len(name) <= APP_FIELD_MAX_LEN,
        !all_ws(name),
    ensures
        app_field_refusal("application_name"@, name) is None <==> forall|i: int|
            0 <= i < name.len() ==> (('0' <= #[trigger] name[i] && name[i] <= '9') || ('a' <= name[i] && name[i]
            <= 'z') || ('A' <= name[i] && name[i] <= 'Z') || name[i] == '-' || name[i] == '_' || name[i] == '.'
            || name[i] == ' ' || name[i] == '(' || name[i] == ')'),
{
    lemma_first_outside_none(name, true);
}

/// The value the grid shows for `(dev, metric)` comes from a stored row
/// of that very device and metric, and from the last such row; with no
/// such row there is none.
pub proof fn law_live_value_source(rows: Seq<LiveMetric>, dev: Seq<char>, metric: Seq<char>)
    ensures
        match last_live(rows, dev, metric) {
            Some(r) => r.device_id@ == dev && r.metric_name@ == metric && exists|i: int|
                0 <= i < rows.len() && rows[i] == r && forall|j: int|
                    i < j < rows.len() ==> !((#[trigger] rows[j]).device_id@ == dev && rows[j].metric_name@ == metric),
            None => forall|i: int|
                0 <= i < rows.len() ==> !((#[trigger] rows[i]).device_id@ == dev && rows[i].metric_name@ == metric),
        },
    decreases rows.len(),
{
    if rows.len() > 0 {
        let init = rows.drop_last();
        law_live_value_source(init, dev, metric);
        let l = rows.last();
        if l.device_id@ == dev && l.metric_name@ == metric {
            assert(rows[rows.len() - 1] == l);
        } else {
            match last_live(init, dev, metric) {
                Some(r) => {
                    let i = choose|i: int|
                        0 <= i < init.len() && init[i] == r && forall|j: int|
                            i < j < init.len() ==> !((#[trigger] init[j]).device_id@ == dev && init[j].metric_name@
                                == metric);
                    assert(rows[i] == r);
                    assert forall|j: int| i < j < rows.len() implies !((#[trigger] rows[j]).device_id@ == dev
                        && rows[j].metric_name@ == metric) by {
                        if j < rows.len() - 1 {
                            assert(rows[j] == init[j]);
                        }
                    }
                },
                None => {
                    assert forall|i: int| 0 <= i < rows.len() implies !((#[trigger] rows[i]).device_id@ == dev
                        && rows[i].metric_name@ == metric) by {
                        if i < rows.len() - 1 {
                            assert(rows[i] == init[i]);
                        }
                    }
                },
            }
        }
    }
}

/// Every refusal of a path id or of a body field is a 400 Bad Request.
pub proof fn law_validation_is_bad_request(label: Seq<char>, field: Seq<char>, value: Seq<char>)
    ensures
        path_id_refusal(label, value) matches Some(r) ==> r.status == 400,
        app_field_refusal(field, value) matches Some(r) ==> r.status == 400,
        device_field_refusal(field, value) matches Some(r) ==> r.status == 400,
{
}

/// Device ids take the id characters and device names the name
/// characters: a `device_id` (not blank, at most 256 bytes) is accepted
/// exactly when every character is an ASCII letter or digit, `-`, `_`
/// or `.`; a `device_name` when each is one of those, a space or a
/// parenthesis.
pub proof fn law_device_field_characters(value: Seq<char>)
    requires
        utf8_len(value) <= APP_FIELD_MAX_LEN,
        !all_ws(value),
    ensures
        device_field_refusal("device_id"@, value) is None <==> forall|i: int|
            0 <= i < value.len() ==> (('0' <= #[trigger] value[i] && value[i] <= '9') || ('a' <= value[i]
            && value[i] <= 'z') || ('A' <= value[i] && value[i] <= 'Z') || value[i] == '-' || value[i] == '_'
            || value[i] == '.'),
        device_field_refusal("device_name"@, value) is None <==> forall|i: int|
            0 <= i < value.len() ==> (('0' <= #[trigger] value[i] && value[i] <= '9') || ('a' <= value[i]
            && value[i] <= 'z') || ('A' <= value[i] && value[i] <= 'Z') || value[i] == '-' || value[i] == '_'
            || value[i] == '.' || value[i] == ' ' || value[i] == '(' || value[i] == ')'),
{
    reveal_strlit("device_id");
    reveal_strlit("device_name");
    reveal_strlit("metric_type");
    reveal_strlit("metric_unit");
    assert("device_id"@.len() != "device_name"@.len());
    assert("device_id"@.len() != "metric_type"@.len());
    assert("device_id"@.len() != "metric_unit"@.len());
    assert("device_name"@[0] != "metric_type"@[0]);
    assert("device_name"@[0] != "metric_unit"@[0]);
    lemma_first_outside_none(value, false);
    lemma_first_outside_none(value, true);
}

/// A metric of the live grid shows the configured metric's name; with a
/// stored row for that device and metric, that row's type, value and
/// timestamp; without one, the configured type and no value or
/// timestamp.
pub proof fn law_live_metric_view(v: MetricView, dev: Seq<char>, m: MetricSpec, rows: Seq<LiveMetric>)
    requires
        metric_view_shows(v, dev, m, rows),
    ensures
        v.metric_name@ == m.metric_name@,
        (exists|i: int|
            0 <= i < rows.len() && (#[trigger] rows[i]).device_id@ == dev && rows[i].metric_name@ == m.metric_name@)
            ==> (exists|i: int|
            0 <= i < rows.len() && (#[trigger] rows[i]).device_id@ == dev && rows[i].metric_name@ == m.metric_name@
                && v.data_type@ == rows[i].data_type@ && opt_chars(v.value) == Some(rows[i].value@) && opt_chars(
                v.timestamp,
            ) == Some(rows[i].timestamp@)),
        (forall|i: int|
            0 <= i < rows.len() ==> !((#[trigger] rows[i]).device_id@ == dev && rows[i].metric_name@
                == m.metric_name@)) ==> v.data_type@ == opc_type_str(m.metric_type) && v.value is None
            && v.timestamp is None,
{
    law_live_value_source(rows, dev, m.metric_name@);
    if let Some(r) = last_live(rows, dev, m.metric_name@) {
        let i = choose|i: int|
            0 <= i < rows.len() && rows[i] == r && forall|j: int|
                i < j < rows.len() ==> !((#[trigger] rows[j]).device_id@ == dev && rows[j].metric_name@
                    == m.metric_name@);
        assert(rows[i].device_id@ == dev && rows[i].metric_name@ == m.metric_name@);
    }
}

/// A device body shows, and a created device's body echoes, each metric
/// mapping field for field: name, ChirpStack key, type and unit.
pub proof fn law_mappings(r: MetricMappingResponse, m: ReadMetric, q: MetricMappingRequest)
    ensures
        mapping_shows(r, m) ==> r.metric_name@ == m.metric_name@ && r.chirpstack_metric_name@
            == m.chirpstack_metric_name@ && r.metric_type@ == opc_type_str(m.metric_type) && opt_chars(r.metric_unit)
            == opt_chars(m.metric_unit),
        mapping_echoes(r, q) ==> r.metric_name@ == q.metric_name@ && r.chirpstack_metric_name@
            == q.chirpstack_metric_name@ && r.metric_type@ == q.metric_type@ && opt_chars(r.metric_unit)
            == opt_chars(q.metric_unit),
{
}

/// The live grid shows each configured application and device with its
/// own id and name, and each metric of a device from the stored rows of
/// that device (by its id).
pub proof fn law_live_grid(v: ApplicationView, a: ApplicationSummary, rows: Seq<LiveMetric>, j: int, k: int)
    requires
        app_view_shows(v, a, rows),
        0 <= j < a.devices@.len(),
    ensures
        v.application_id@ == a.application_id@,
        v.application_name@ == a.application_name@,
        v.devices@[j].device_id@ == a.devices@[j].device_id@,
        v.devices@[j].device_name@ == a.devices@[j].device_name@,
        v.devices@[j].metrics@.len() == a.devices@[j].metrics@.len(),
        0 <= k < a.devices@[j].metrics@.len() ==> metric_view_shows(
            v.devices@[j].metrics@[k],
            a.devices@[j].device_id@,
            a.devices@[j].metrics@[k],
            rows,
        ),
{
    assert(device_view_shows(v.devices@[j], a.devices@[j], rows));
}

} // verus!
