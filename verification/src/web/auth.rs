//! HTTP Basic authentication of the web surface: reading the
//! `Authorization` header, HMAC-SHA-256 digests of credentials under a
//! per-process key, the accept / refuse decision, and the username
//! sanitising used in the audit event.

use vstd::prelude::*;
use vstd::utf8::{decode_utf8, encode_utf8, valid_utf8};
use base64::Engine;
use sha2::Digest;
use crate::config::AppConfig;
use crate::text::{cat, chars_of, escape_all, escape_char, lemma_escape_all_printable, owned, printable_ascii, push_escaped, string_of};
use crate::web::api::unicode_ws;

verus! {

/// Why a request was refused; recorded in the audit event only (the
/// response is the same for every reason).
#[derive(Debug, Clone, Copy, PartialEq, Eq, Structural)]
pub enum AuthFailureReason {
    /// No `Authorization` header (or no credentials configured).
    Missing,
    /// The header is not `Basic <blob>`.
    MalformedScheme,
    /// The blob is not base64 of UTF-8 text.
    MalformedBase64,
    /// The decoded text has no `:`.
    MissingColon,
    /// The user does not match.
    UserMismatch,
    /// The user matches, the password does not.
    PasswordMismatch,
}

/// The audit name of each reason.
pub open spec fn reason_str(r: AuthFailureReason) -> Seq<char> {
    match r {
        AuthFailureReason::Missing => "missing"@,
        AuthFailureReason::MalformedScheme => "malformed_scheme"@,
        AuthFailureReason::MalformedBase64 => "malformed_base64"@,
        AuthFailureReason::MissingColon => "missing_colon"@,
        AuthFailureReason::UserMismatch => "user_mismatch"@,
        AuthFailureReason::PasswordMismatch => "password_mismatch"@,
    }
}

impl AuthFailureReason {
    /// Stable audit name of the reason.
    pub fn as_str(self) -> (r: &'static str)
        ensures
            r@ == reason_str(self),
    {
        match self {
            AuthFailureReason::Missing => "missing",
            AuthFailureReason::MalformedScheme => "malformed_scheme",
            AuthFailureReason::MalformedBase64 => "malformed_base64",
            AuthFailureReason::MissingColon => "missing_colon",
            AuthFailureReason::UserMismatch => "user_mismatch",
            AuthFailureReason::PasswordMismatch => "password_mismatch",
        }
    }
}

// ---------------------------------------------------------------------
// HMAC-SHA-256
// ---------------------------------------------------------------------

/// The SHA-256 digest of `data`.
pub uninterp spec fn sha256_of(data: Seq<u8>) -> Seq<u8>;

/// `sha2::Sha256::digest`.
#[verifier::external_body]
pub(crate) fn sha256(data: &[u8]) -> (r: [u8; 32])
    ensures
        r@ == sha256_of(data@),
{
    sha2::Sha256::digest(data).into()
}

/// A key of at most one SHA-256 block, zero-padded to 64 bytes and
/// XOR-ed with `pad`.
pub open spec fn padded_key(key: Seq<u8>, pad: u8) -> Seq<u8> {
    Seq::new(64, |i: int| if i < key.len() { key[i] ^ pad } else { pad })
}

/// HMAC-SHA-256 of `msg` under `key` (RFC 2104; `key` at most 64 bytes).
pub open spec fn hmac_sha256_spec(key: Seq<u8>, msg: Seq<u8>) -> Seq<u8> {
    sha256_of(padded_key(key, 0x5cu8) + sha256_of(padded_key(key, 0x36u8) + msg))
}

fn pad_key(key: &[u8; 32], pad: u8) -> (r: Vec<u8>)
    ensures
        r@ == padded_key(key@, pad),
{
    let mut out: Vec<u8> = Vec::new();
    let mut i: usize = 0;
    while i < 64
        invariant
            i <= 64,
            out@.len() == i,
            forall|j: int| 0 <= j < i ==> out@[j] == padded_key(key@, pad)[j],
        decreases 64 - i,
    {
        if i < 32 {
            out.push(key[i] ^ pad);
        } else {
            out.push(pad);
        }
        i = i + 1;
    }
    proof {
        assert(out@ =~= padded_key(key@, pad));
    }
    out
}

fn push_all(out: &mut Vec<u8>, data: &[u8])
    ensures
        final(out)@ == old(out)@ + data@,
{
    let ghost start = out@;
    let mut i: usize = 0;
    while i < data.len()
        invariant
            i <= data@.len(),
            out@ == start + data@.take(i as int),
        decreases data@.len() - i,
    {
        out.push(data[i]);
        proof {
            assert(data@.take(i + 1) =~= data@.take(i as int).push(data@[i as int]));
        }
        i = i + 1;
    }
    proof {
        assert(data@.take(data@.len() as int) =~= data@);
    }
}

/// HMAC-SHA-256 of `msg` under the 32-byte `key`.
pub fn hmac_sha256(key: &[u8; 32], msg: &[u8]) -> (r: [u8; 32])
    ensures
        r@ == hmac_sha256_spec(key@, msg@),
{
    let mut inner = pad_key(key, 0x36u8);
    push_all(&mut inner, msg);
    let inner_digest = sha256(inner.as_slice());
    let mut outer = pad_key(key, 0x5cu8);
    push_all(&mut outer, &inner_digest);
    sha256(outer.as_slice())
}

/// `constant_time_eq::constant_time_eq` on two digests: whether they are
/// equal.
#[verifier::external_body]
fn digests_equal(a: &[u8; 32], b: &[u8; 32]) -> (r: bool)
    ensures
        r == (a@ == b@),
{
    constant_time_eq::constant_time_eq(a, b)
}

/// 32 bytes from the operating system's generator (`getrandom`), or
/// `None` when it fails. Nothing is stated of the bytes.
#[verifier::external_body]
fn random_key() -> Option<[u8; 32]> {
    let mut key = [0u8; 32];
    getrandom::getrandom(&mut key).ok()?;
    Some(key)
}

// ---------------------------------------------------------------------
// Auth state
// ---------------------------------------------------------------------

/// Digests of the configured credentials under a per-process key, the
/// realm, and whether both credentials were non-empty.
pub struct WebAuthState {
    user_digest: [u8; 32],
    pass_digest: [u8; 32],
    hmac_key: [u8; 32],
    realm: String,
    is_configured: bool,
}

impl WebAuthState {
    /// The HMAC key.
    pub closed spec fn key(&self) -> Seq<u8> {
        self.hmac_key@
    }

    /// Digest of the configured user.
    pub closed spec fn user_digest(&self) -> Seq<u8> {
        self.user_digest@
    }

    /// Digest of the configured password.
    pub closed spec fn pass_digest(&self) -> Seq<u8> {
        self.pass_digest@
    }

    /// Whether both configured credentials were non-empty.
    pub closed spec fn configured(&self) -> bool {
        self.is_configured
    }

    /// The realm.
    pub closed spec fn realm_view(&self) -> Seq<char> {
        self.realm@
    }

    /// The state for credentials `user` / `password` under `hmac_key`.
    pub fn from_opcua_auth(hmac_key: &[u8; 32], user: &str, password: &str, realm: String) -> (r: Self)
        ensures
            r.key() == hmac_key@,
            r.user_digest() == hmac_sha256_spec(hmac_key@, encode_utf8(user@)),
            r.pass_digest() == hmac_sha256_spec(hmac_key@, encode_utf8(password@)),
            r.configured() == (user@.len() > 0 && password@.len() > 0),
            r.realm_view() == realm@,
    {
        let user_digest = hmac_sha256(hmac_key, user.as_bytes());
        let pass_digest = hmac_sha256(hmac_key, password.as_bytes());
        let is_configured = !user.is_empty() && !password.is_empty();
        WebAuthState { user_digest, pass_digest, hmac_key: *hmac_key, realm, is_configured }
    }

    /// The state for credentials `user` / `password` under a fresh random
    /// key; `None` when the system generator fails.
    pub fn new_with_fresh_key(user: &str, password: &str, realm: String) -> (r: Option<Self>)
        ensures
            r matches Some(s) ==> s.user_digest() == hmac_sha256_spec(s.key(), encode_utf8(user@))
                && s.pass_digest() == hmac_sha256_spec(s.key(), encode_utf8(password@)) && s.configured()
                == (user@.len() > 0 && password@.len() > 0) && s.realm_view() == realm@,
    {
        let key = random_key()?;
        Some(WebAuthState::from_opcua_auth(&key, user, password, realm))
    }

    /// The state for the OPC UA credentials of `config` under a fresh
    /// random key; `None` when the system generator fails.
    pub fn new(config: &AppConfig, realm: String) -> (r: Option<Self>)
        ensures
            r matches Some(s) ==> s.user_digest() == hmac_sha256_spec(
                s.key(),
                encode_utf8(config.opcua.user_name@),
            ) && s.pass_digest() == hmac_sha256_spec(s.key(), encode_utf8(config.opcua.user_password@))
                && s.configured() == (config.opcua.user_name@.len() > 0
                && config.opcua.user_password@.len() > 0) && s.realm_view() == realm@,
    {
        WebAuthState::new_with_fresh_key(
            config.opcua.user_name.as_str(),
            config.opcua.user_password.as_str(),
            realm,
        )
    }

    /// The realm of the `WWW-Authenticate` header.
    pub fn realm(&self) -> (r: &str)
        ensures
            r@ == self.realm_view(),
    {
        self.realm.as_str()
    }
}


// ---------------------------------------------------------------------
// The Authorization header
// ---------------------------------------------------------------------

/// `a` and `b` are the same letter up to ASCII case, or equal.
pub open spec fn same_ignoring_ascii_case(a: char, b: char) -> bool {
    a == b || ('A' <= a && a <= 'Z' && (b as u32) == (a as u32) + 32) || ('A' <= b && b <= 'Z' && (a as u32)
        == (b as u32) + 32)
}

/// `s` starts with `p` up to ASCII case.
pub open spec fn starts_with_ignoring_case(s: Seq<char>, p: Seq<char>) -> bool {
    s.len() >= p.len() && forall|i: int| 0 <= i < p.len() ==> same_ignoring_ascii_case(#[trigger] s[i], p[i])
}

/// `s` without its leading white space.
pub open spec fn trim_start_ws(s: Seq<char>) -> Seq<char>
    decreases s.len(),
{
    if s.len() > 0 && unicode_ws(s[0]) {
        trim_start_ws(s.drop_first())
    } else {
        s
    }
}

/// `s` without its trailing white space.
pub open spec fn trim_end_ws(s: Seq<char>) -> Seq<char>
    decreases s.len(),
{
    if s.len() > 0 && unicode_ws(s.last()) {
        trim_end_ws(s.drop_last())
    } else {
        s
    }
}

/// `str::trim`.
pub open spec fn trim_ws(s: Seq<char>) -> Seq<char> {
    trim_end_ws(trim_start_ws(s))
}

/// Position of the first `:` of `s`.
pub open spec fn colon_at(s: Seq<char>) -> Option<nat>
    decreases s.len(),
{
    if s.len() == 0 {
        None
    } else if s[0] == ':' {
        Some(0)
    } else {
        match colon_at(s.drop_first()) {
            Some(k) => Some(k + 1),
            None => None,
        }
    }
}

/// What the standard base64 engine decodes from `input`, if it decodes.
pub uninterp spec fn base64_standard(input: Seq<u8>) -> Option<Seq<u8>>;

/// `Some(v@)` for `Some(v)`.
pub open spec fn opt_bytes(o: Option<Vec<u8>>) -> Option<Seq<u8>> {
    match o {
        Some(v) => Some(v@),
        None => None,
    }
}

/// `base64::engine::general_purpose::STANDARD.decode`.
#[verifier::external_body]
fn base64_decode(input: &[u8]) -> (r: Option<Vec<u8>>)
    ensures
        opt_bytes(r) == base64_standard(input@),
{
    base64::engine::general_purpose::STANDARD.decode(input).ok()
}

/// `String::from_utf8`: the text when `bytes` are UTF-8.
#[verifier::external_body]
fn utf8_text(bytes: Vec<u8>) -> (r: Option<String>)
    ensures
        r is Some == valid_utf8(bytes@),
        r matches Some(s) ==> s@ == decode_utf8(bytes@),
{
    String::from_utf8(bytes).ok()
}

/// The credentials in the text of an `Authorization` header (`None`
/// when the header is not text), or why there are none and what the
/// would-be user was. The scheme `Basic ` is matched up to ASCII case;
/// the blob is trimmed, base64-decoded, read as UTF-8 and split at its
/// first `:`.
pub open spec fn decode_basic(raw: Option<Seq<char>>) -> Result<(Seq<char>, Seq<char>), (AuthFailureReason, Seq<char>)> {
    match raw {
        None => Err((AuthFailureReason::MalformedScheme, Seq::empty())),
        Some(raw) => if !starts_with_ignoring_case(raw, "Basic "@) {
            Err((AuthFailureReason::MalformedScheme, Seq::empty()))
        } else {
            match base64_standard(encode_utf8(trim_ws(raw.skip(6)))) {
                None => Err((AuthFailureReason::MalformedBase64, Seq::empty())),
                Some(bytes) => if !valid_utf8(bytes) {
                    Err((AuthFailureReason::MalformedBase64, Seq::empty()))
                } else {
                    let text = decode_utf8(bytes);
                    match colon_at(text) {
                        Some(i) => Ok((text.take(i as int), text.skip(i as int + 1))),
                        None => Err((AuthFailureReason::MissingColon, text)),
                    }
                },
            }
        },
    }
}

fn same_letter(a: char, b: char) -> (r: bool)
    ensures
        r == same_ignoring_ascii_case(a, b),
{
    a == b || ('A' <= a && a <= 'Z' && (b as u32) == (a as u32) + 32) || ('A' <= b && b <= 'Z' && (a as u32)
        == (b as u32) + 32)
}

proof fn lemma_trim_start(s: Seq<char>, i: int)
    requires
        0 <= i <= s.len(),
        forall|j: int| 0 <= j < i ==> unicode_ws(#[trigger] s[j]),
    ensures
        trim_start_ws(s) == trim_start_ws(s.skip(i)),
    decreases i,
{
    if i > 0 {
        lemma_trim_start(s.drop_first(), i - 1);
        assert(s.drop_first().skip(i - 1) =~= s.skip(i));
    } else {
        assert(s.skip(0) =~= s);
    }
}

proof fn lemma_trim_end(s: Seq<char>, n: int)
    requires
        0 <= n <= s.len(),
        forall|j: int| n <= j < s.len() ==> unicode_ws(#[trigger] s[j]),
    ensures
        trim_end_ws(s) == trim_end_ws(s.take(n)),
    decreases s.len() - n,
{
    if n < s.len() {
        assert(s.drop_last().take(n) =~= s.take(n));
        lemma_trim_end(s.drop_last(), n);
    } else {
        assert(s.take(n) =~= s);
    }
}

/// `str::trim` on characters.
pub fn trim_chars(v: &Vec<char>) -> (r: Vec<char>)
    ensures
        r@ == trim_ws(v@),
{
    let mut a: usize = 0;
    while a < v.len() && is_ws(v[a])
        invariant
            a <= v.len(),
            forall|j: int| 0 <= j < a ==> unicode_ws(#[trigger] v@[j]),
        decreases v.len() - a,
    {
        a = a + 1;
    }
    proof {
        lemma_trim_start(v@, a as int);
    }
    let ghost rest = v@.skip(a as int);
    let mut b: usize = v.len();
    while b > a && is_ws(v[b - 1])
        invariant
            a <= b <= v.len(),
            rest == v@.skip(a as int),
            forall|j: int| b <= j < v.len() ==> unicode_ws(#[trigger] v@[j]),
        decreases b,
    {
        b = b - 1;
    }
    proof {
        assert forall|j: int| (b - a) <= j < rest.len() implies unicode_ws(#[trigger] rest[j]) by {
            assert(rest[j] == v@[j + a]);
        }
        lemma_trim_end(rest, (b - a) as int);
        if a < v.len() {
            assert(!unicode_ws(rest[0]));
        }
    }
    let mut out: Vec<char> = Vec::new();
    let mut i: usize = a;
    while i < b
        invariant
            a <= i <= b <= v.len(),
            out@ == v@.subrange(a as int, i as int),
        decreases b - i,
    {
        out.push(v[i]);
        proof {
            assert(v@.subrange(a as int, i + 1) =~= v@.subrange(a as int, i as int).push(v@[i as int]));
        }
        i = i + 1;
    }
    proof {
        assert(rest.take((b - a) as int) =~= v@.subrange(a as int, b as int));
        if a == v.len() {
            assert(rest =~= Seq::<char>::empty());
        } else if (b - a) < rest.len() {
        }
        assert(trim_start_ws(v@) == rest);
        if b > a {
            assert(!unicode_ws(rest.take((b - a) as int).last()));
        }
    }
    out
}

fn is_ws(c: char) -> (r: bool)
    ensures
        r == unicode_ws(c),
{
    ('\u{9}' <= c && c <= '\u{d}') || c == ' ' || c == '\u{85}' || c == '\u{a0}' || c == '\u{1680}'
        || ('\u{2000}' <= c && c <= '\u{200a}') || c == '\u{2028}' || c == '\u{2029}' || c
        == '\u{202f}' || c == '\u{205f}' || c == '\u{3000}'
}


proof fn lemma_colon_skip(s: Seq<char>, i: int)
    requires
        0 <= i <= s.len(),
        forall|j: int| 0 <= j < i ==> #[trigger] s[j] != ':',
    ensures
        colon_at(s) == match colon_at(s.skip(i)) {
            Some(k) => Some((k + i) as nat),
            None => None,
        },
    decreases i,
{
    if i > 0 {
        lemma_colon_skip(s.drop_first(), i - 1);
        assert(s.drop_first().skip(i - 1) =~= s.skip(i));
    } else {
        assert(s.skip(0) =~= s);
    }
}

fn copy_range(v: &Vec<char>, lo: usize, hi: usize) -> (r: String)
    requires
        lo <= hi <= v.len(),
    ensures
        r@ == v@.subrange(lo as int, hi as int),
{
    let mut out: Vec<char> = Vec::new();
    let mut i = lo;
    while i < hi
        invariant
            lo <= i <= hi <= v.len(),
            out@ == v@.subrange(lo as int, i as int),
        decreases hi - i,
    {
        out.push(v[i]);
        proof {
            assert(v@.subrange(lo as int, i + 1) =~= v@.subrange(lo as int, i as int).push(v@[i as int]));
        }
        i = i + 1;
    }
    string_of(&out)
}

/// Reads the credentials of an `Authorization` header given as text
/// (`None` when the header value is not text).
pub fn decode_basic_auth_header(raw: Option<&str>) -> (r: Result<(String, String), (AuthFailureReason, String)>)
    ensures
        match decode_basic(
            match raw {
                Some(s) => Some(s@),
                None => None,
            },
        ) {
            Ok((u, p)) => r matches Ok((ru, rp)) && ru@ == u && rp@ == p,
            Err((reason, w)) => r matches Err((rr, rw)) && rr == reason && rw@ == w,
        },
{
    let text_in = match raw {
        None => {
            return Err((AuthFailureReason::MalformedScheme, String::new()));
        },
        Some(s) => s,
    };
    let v = chars_of(text_in);
    let scheme = chars_of("Basic ");
    proof {
        reveal_strlit("Basic ");
        assert(scheme@.len() == 6);
    }
    if v.len() < 6 {
        return Err((AuthFailureReason::MalformedScheme, String::new()));
    }
    let mut k: usize = 0;
    while k < 6
        invariant
            k <= 6,
            v.len() >= 6,
            scheme@ == "Basic "@,
            scheme@.len() == 6,
            v@ == text_in@,
            raw == Some(text_in),
            forall|j: int| 0 <= j < k ==> same_ignoring_ascii_case(#[trigger] v@[j], scheme@[j]),
        decreases 6 - k,
    {
        if !same_letter(v[k], scheme[k]) {
            proof {
                assert(!same_ignoring_ascii_case(text_in@[k as int], "Basic "@[k as int]));
                assert(!starts_with_ignoring_case(text_in@, "Basic "@));
            }
            return Err((AuthFailureReason::MalformedScheme, String::new()));
        }
        k = k + 1;
    }
    let mut blob: Vec<char> = Vec::new();
    let mut i: usize = 6;
    while i < v.len()
        invariant
            6 <= i <= v.len(),
            blob@ == v@.subrange(6, i as int),
        decreases v.len() - i,
    {
        blob.push(v[i]);
        proof {
            assert(v@.subrange(6, i + 1) =~= v@.subrange(6, i as int).push(v@[i as int]));
        }
        i = i + 1;
    }
    proof {
        assert(v@.subrange(6, v.len() as int) =~= text_in@.skip(6));
        assert(starts_with_ignoring_case(text_in@, "Basic "@));
    }
    let trimmed = string_of(&trim_chars(&blob));
    let decoded = match base64_decode(trimmed.as_str().as_bytes()) {
        None => {
            return Err((AuthFailureReason::MalformedBase64, String::new()));
        },
        Some(d) => d,
    };
    let text = match utf8_text(decoded) {
        None => {
            return Err((AuthFailureReason::MalformedBase64, String::new()));
        },
        Some(t) => t,
    };
    let tv = chars_of(text.as_str());
    let mut c: usize = 0;
    while c < tv.len() && tv[c] != ':'
        invariant
            c <= tv.len(),
            forall|j: int| 0 <= j < c ==> #[trigger] tv@[j] != ':',
        decreases tv.len() - c,
    {
        c = c + 1;
    }
    proof {
        lemma_colon_skip(tv@, c as int);
    }
    if c == tv.len() {
        proof {
            assert(tv@.skip(c as int) =~= Seq::<char>::empty());
        }
        return Err((AuthFailureReason::MissingColon, text));
    }
    proof {
        assert(tv@.skip(c as int)[0] == ':');
        assert(tv@.take(c as int) =~= tv@.subrange(0, c as int));
        assert(tv@.skip(c + 1) =~= tv@.subrange(c + 1, tv.len() as int));
    }
    Ok((copy_range(&tv, 0, c), copy_range(&tv, c + 1, tv.len())))
}

/// The decision on a request carrying the `Authorization` header text
/// `header` (outer `None`: no header; inner `None`: not text): accept,
/// or the reason of the refusal and the would-be user. Nothing is
/// accepted when no credentials are configured; otherwise the
/// submitted user and password are accepted exactly when their digests
/// equal the configured ones.
pub open spec fn auth_decision(
    s: WebAuthState,
    header: Option<Option<Seq<char>>>,
) -> Result<(), (AuthFailureReason, Seq<char>)> {
    if !s.configured() {
        Err((AuthFailureReason::Missing, Seq::empty()))
    } else {
        match header {
            None => Err((AuthFailureReason::Missing, Seq::empty())),
            Some(h) => match decode_basic(h) {
                Err(e) => Err(e),
                Ok((u, p)) => {
                    let user_match = hmac_sha256_spec(s.key(), encode_utf8(u)) == s.user_digest();
                    let pass_match = hmac_sha256_spec(s.key(), encode_utf8(p)) == s.pass_digest();
                    if user_match && pass_match {
                        Ok(())
                    } else if !user_match {
                        Err((AuthFailureReason::UserMismatch, u))
                    } else {
                        Err((AuthFailureReason::PasswordMismatch, u))
                    }
                },
            },
        }
    }
}

/// `Some(Some(s@))` / `Some(None)` / `None` for the header.
pub open spec fn header_view(header: Option<Option<&str>>) -> Option<Option<Seq<char>>> {
    match header {
        None => None,
        Some(None) => Some(None),
        Some(Some(s)) => Some(Some(s@)),
    }
}

impl WebAuthState {
    /// Decides a request carrying `header` (outer `None`: no
    /// `Authorization` header; inner `None`: a value that is not text).
    /// Both digests are computed and compared before either result is
    /// looked at.
    pub fn authenticate(&self, header: Option<Option<&str>>) -> (r: Result<(), (AuthFailureReason, String)>)
        ensures
            match auth_decision(*self, header_view(header)) {
                Ok(()) => r is Ok,
                Err((reason, u)) => r matches Err((rr, ru)) && rr == reason && ru@ == u,
            },
    {
        if !self.is_configured {
            return Err((AuthFailureReason::Missing, String::new()));
        }
        let h = match header {
            None => {
                return Err((AuthFailureReason::Missing, String::new()));
            },
            Some(h) => h,
        };
        let (user, pass) = decode_basic_auth_header(h)?;
        let user_digest = hmac_sha256(&self.hmac_key, user.as_str().as_bytes());
        let pass_digest = hmac_sha256(&self.hmac_key, pass.as_str().as_bytes());
        let user_match = digests_equal(&user_digest, &self.user_digest);
        let pass_match = digests_equal(&pass_digest, &self.pass_digest);
        if user_match && pass_match {
            return Ok(());
        }
        if !user_match {
            Err((AuthFailureReason::UserMismatch, user))
        } else {
            Err((AuthFailureReason::PasswordMismatch, user))
        }
    }
}

/// A request carrying exactly the configured credentials is accepted
/// when both are non-empty: the digests of what it carries are the
/// configured digests.
pub proof fn lemma_configured_credentials_accepted(
    key: Seq<u8>,
    user: Seq<char>,
    password: Seq<char>,
    s: WebAuthState,
)
    requires
        s.key() == key,
        s.user_digest() == hmac_sha256_spec(key, encode_utf8(user)),
        s.pass_digest() == hmac_sha256_spec(key, encode_utf8(password)),
        s.configured(),
    ensures
        forall|h: Seq<char>|
            decode_basic(Some(h)) == Ok::<(Seq<char>, Seq<char>), (AuthFailureReason, Seq<char>)>(
                (user, password),
            ) ==> #[trigger] auth_decision(s, Some(Some(h))) is Ok,
{
}

/// The first 64 characters of `raw`, each escaped with
/// `escape_default`.
pub open spec fn sanitised(raw: Seq<char>) -> Seq<char> {
    escape_all(if raw.len() <= 64 {
        raw
    } else {
        raw.take(64)
    })
}

/// A sanitised username is printable ASCII: it holds no newline or other
/// control character, so it cannot forge a log line.
pub proof fn lemma_sanitised_is_printable(raw: Seq<char>)
    ensures
        printable_ascii(sanitised(raw)),
{
    lemma_escape_all_printable(if raw.len() <= 64 {
        raw
    } else {
        raw.take(64)
    });
}

/// Sanitises an unauthenticated username for the audit log: at most 64
/// characters, control and non-ASCII characters escaped.
pub fn sanitise_user(raw: &str) -> (r: String)
    ensures
        r@ == sanitised(raw@),
{
    let v = chars_of(raw);
    let n = if v.len() <= 64 {
        v.len()
    } else {
        64
    };
    let mut out: Vec<char> = Vec::new();
    let mut i: usize = 0;
    while i < n
        invariant
            i <= n <= v.len(),
            v@ == raw@,
            n == if v.len() <= 64 { v.len() } else { 64 },
            out@ == escape_all(v@.take(i as int)),
        decreases n - i,
    {
        let ghost before = out@;
        push_escaped(v[i], &mut out);
        proof {
            assert(v@.take(i + 1).drop_last() =~= v@.take(i as int));
            assert(v@.take(i + 1).last() == v@[i as int]);
        }
        i = i + 1;
    }
    proof {
        if v.len() <= 64 {
            assert(v@.take(n as int) =~= v@);
        }
    }
    string_of(&out)
}

/// The `WWW-Authenticate` value of the refusal.
pub fn www_authenticate(realm: &str) -> (r: String)
    ensures
        r@ == "Basic realm=\""@ + realm@ + "\""@,
{
    let a = cat("Basic realm=\"", realm);
    cat(a.as_str(), "\"")
}

proof fn lemma_colon_at(t: Seq<char>)
    ensures
        colon_at(t) matches Some(i) ==> i < t.len() && t[i as int] == ':' && forall|j: int|
            0 <= j < i ==> #[trigger] t[j] != ':',
        colon_at(t) is None ==> forall|j: int| 0 <= j < t.len() ==> #[trigger] t[j] != ':',
    decreases t.len(),
{
    if t.len() > 0 {
        lemma_colon_at(t.drop_first());
        assert forall|j: int| 1 <= j < t.len() implies t.drop_first()[j - 1] == t[j] by {}
    }
}

/// Decoded credentials are the decoded header text split at its first
/// colon: the user holds no `:`, and user, `:` and password together are
/// the whole text, which the header's base64 blob decodes to.
pub proof fn law_basic_credentials(raw: Seq<char>)
    ensures
        decode_basic(Some(raw)) matches Ok((u, p)) ==> starts_with_ignoring_case(raw, "Basic "@) && (
        base64_standard(encode_utf8(trim_ws(raw.skip(6)))) matches Some(bytes) && valid_utf8(bytes) && decode_utf8(
            bytes,
        ) == u + seq![':'] + p && forall|j: int| 0 <= j < u.len() ==> #[trigger] u[j] != ':'),
{
    if let Some(bytes) = base64_standard(encode_utf8(trim_ws(raw.skip(6)))) {
        let text = decode_utf8(bytes);
        lemma_colon_at(text);
        if let Some(i) = colon_at(text) {
            assert(text =~= text.take(i as int) + seq![':'] + text.skip(i as int + 1));
        }
    }
}

/// With credentials configured, a request whose header decodes to
/// `(u, p)` is accepted exactly when both digests match; a wrong user is
/// refused as such, a right user with a wrong password as a password
/// mismatch, both naming the submitted user. Without configured
/// credentials nothing is accepted.
pub proof fn law_auth_outcome(s: WebAuthState, h: Option<Seq<char>>, u: Seq<char>, p: Seq<char>)
    ensures
        !s.configured() ==> auth_decision(s, Some(h)) is Err && auth_decision(s, None) is Err,
        s.configured() ==> auth_decision(s, None) == Err::<(), (AuthFailureReason, Seq<char>)>(
            (AuthFailureReason::Missing, Seq::empty()),
        ),
        s.configured() && decode_basic(h) == Ok::<(Seq<char>, Seq<char>), (AuthFailureReason, Seq<char>)>((u, p))
            ==> {
            let user_ok = hmac_sha256_spec(s.key(), encode_utf8(u)) == s.user_digest();
            let pass_ok = hmac_sha256_spec(s.key(), encode_utf8(p)) == s.pass_digest();
            &&& (auth_decision(s, Some(h)) is Ok <==> user_ok && pass_ok)
            &&& (!user_ok ==> auth_decision(s, Some(h)) == Err::<(), (AuthFailureReason, Seq<char>)>(
                (AuthFailureReason::UserMismatch, u),
            ))
            &&& (user_ok && !pass_ok ==> auth_decision(s, Some(h)) == Err::<(), (AuthFailureReason, Seq<char>)>(
                (AuthFailureReason::PasswordMismatch, u),
            ))
        },
        s.configured() && decode_basic(h) is Err ==> auth_decision(s, Some(h)) == match decode_basic(h) {
            Err(e) => Err::<(), (AuthFailureReason, Seq<char>)>(e),
            Ok(_) => Ok(()),
        },
{
}

} // verus!
