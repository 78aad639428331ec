//! CSRF defence of state-changing requests: the `Origin` header must
//! name an allowed origin and the body must be JSON. Origins are
//! compared after normalising scheme, host, trailing slashes and
//! default ports.

use vstd::prelude::*;
use std::sync::Arc;
use crate::text::{cat, chars_of, owned, str_eq, string_of};
use crate::web::api::{refusal, refused, ErrorResponse, Rejection, RejectionModel};
use crate::web::auth::{trim_chars, trim_ws};

verus! {

/// ASCII lowercase of one character.
pub open spec fn ascii_lower(c: char) -> char {
    if 'A' <= c && c <= 'Z' {
        (((c as u32) + 32) as u8) as char
    } else {
        c
    }
}

/// ASCII lowercase of a string (`to_ascii_lowercase`).
pub open spec fn lower_ascii(s: Seq<char>) -> Seq<char> {
    s.map_values(|c: char| ascii_lower(c))
}

fn lower_char(c: char) -> (r: char)
    ensures
        r == ascii_lower(c),
{
    if 'A' <= c && c <= 'Z' {
        let b: u32 = (c as u32) + 32;
        (b as u8) as char
    } else {
        c
    }
}

/// `to_ascii_lowercase` on characters.
pub fn lower_chars(v: &Vec<char>) -> (r: Vec<char>)
    ensures
        r@ == lower_ascii(v@),
{
    let mut out: Vec<char> = Vec::new();
    let mut i: usize = 0;
    while i < v.len()
        invariant
            i <= v.len(),
            out@ == lower_ascii(v@.take(i as int)),
        decreases v.len() - i,
    {
        out.push(lower_char(v[i]));
        proof {
            assert(lower_ascii(v@.take(i + 1)) =~= lower_ascii(v@.take(i as int)).push(ascii_lower(v@[i as int])));
        }
        i = i + 1;
    }
    proof {
        assert(v@.take(v.len() as int) =~= v@);
    }
    out
}


/// `s` without its trailing `/` characters (`trim_end_matches('/')`).
pub open spec fn trim_end_slashes(s: Seq<char>) -> Seq<char>
    decreases s.len(),
{
    if s.len() > 0 && s.last() == '/' {
        trim_end_slashes(s.drop_last())
    } else {
        s
    }
}

/// Position of the first occurrence of `p` in `s` (`str::find`).
pub open spec fn find_piece(s: Seq<char>, p: Seq<char>) -> Option<nat>
    decreases s.len(),
{
    if s.len() < p.len() {
        None
    } else if s.take(p.len() as int) == p {
        Some(0)
    } else if s.len() == 0 {
        None
    } else {
        match find_piece(s.drop_first(), p) {
            Some(k) => Some(k + 1),
            None => None,
        }
    }
}

/// Length of `s` up to its first `/`, `?` or `#`.
pub open spec fn authority_len(s: Seq<char>) -> nat
    decreases s.len(),
{
    if s.len() == 0 || s[0] == '/' || s[0] == '?' || s[0] == '#' {
        0
    } else {
        1 + authority_len(s.drop_first())
    }
}

/// `h` without the default port of `scheme` (`:80` for `http`, `:443`
/// for `https`).
pub open spec fn drop_default_port(scheme: Seq<char>, h: Seq<char>) -> Seq<char> {
    if scheme == "http"@ && h.len() >= 3 && h.skip(h.len() - 3) == ":80"@ {
        h.take(h.len() - 3)
    } else if scheme == "https"@ && h.len() >= 4 && h.skip(h.len() - 4) == ":443"@ {
        h.take(h.len() - 4)
    } else {
        h
    }
}

/// The normal form of an origin: trimmed, trailing slashes dropped,
/// scheme and host lowercased, anything after the host dropped, the
/// scheme's default port dropped. Text without `://` is only trimmed
/// and lowercased.
pub open spec fn normal_origin(raw: Seq<char>) -> Seq<char> {
    let t = trim_end_slashes(trim_ws(raw));
    match find_piece(t, "://"@) {
        Some(i) => {
            let scheme = lower_ascii(t.take(i as int));
            let after = t.skip(i as int + 3);
            let host = lower_ascii(after.take(authority_len(after) as int));
            scheme + "://"@ + drop_default_port(scheme, host)
        },
        None => lower_ascii(t),
    }
}

proof fn lemma_trim_slashes(s: Seq<char>, n: int)
    requires
        0 <= n <= s.len(),
        forall|j: int| n <= j < s.len() ==> #[trigger] s[j] == '/',
    ensures
        trim_end_slashes(s) == trim_end_slashes(s.take(n)),
    decreases s.len() - n,
{
    if n < s.len() {
        assert(s.drop_last().take(n) =~= s.take(n));
        lemma_trim_slashes(s.drop_last(), n);
    } else {
        assert(s.take(n) =~= s);
    }
}

fn take_chars(v: &Vec<char>, n: usize) -> (r: Vec<char>)
    requires
        n <= v.len(),
    ensures
        r@ == v@.take(n as int),
{
    let mut out: Vec<char> = Vec::new();
    let mut i: usize = 0;
    while i < n
        invariant
            i <= n <= v.len(),
            out@ == v@.take(i as int),
        decreases n - i,
    {
        out.push(v[i]);
        proof {
            assert(v@.take(i + 1) =~= v@.take(i as int).push(v@[i as int]));
        }
        i = i + 1;
    }
    out
}

fn skip_chars(v: &Vec<char>, n: usize) -> (r: Vec<char>)
    requires
        n <= v.len(),
    ensures
        r@ == v@.skip(n as int),
{
    let mut out: Vec<char> = Vec::new();
    let mut i: usize = n;
    while i < v.len()
        invariant
            n <= i <= v.len(),
            out@ == v@.subrange(n as int, i as int),
        decreases v.len() - i,
    {
        out.push(v[i]);
        proof {
            assert(v@.subrange(n as int, i + 1) =~= v@.subrange(n as int, i as int).push(v@[i as int]));
        }
        i = i + 1;
    }
    proof {
        assert(v@.subrange(n as int, v.len() as int) =~= v@.skip(n as int));
    }
    out
}

proof fn lemma_find_piece_skip(s: Seq<char>, p: Seq<char>, i: int)
    requires
        0 <= i,
        i + p.len() <= s.len(),
        forall|j: int| 0 <= j < i ==> #[trigger] s.subrange(j, j + p.len()) != p,
    ensures
        find_piece(s, p) == match find_piece(s.skip(i), p) {
            Some(k) => Some((k + i) as nat),
            None => None,
        },
    decreases i,
{
    if i > 0 {
        assert(s.take(p.len() as int) =~= s.subrange(0, p.len() as int));
        assert(s.subrange(0int, 0int + p.len()) != p);
        assert forall|j: int| 0 <= j < i - 1 implies #[trigger] s.drop_first().subrange(j, j + p.len()) != p by {
            assert(s.drop_first().subrange(j, j + p.len()) =~= s.subrange(j + 1, j + 1 + p.len()));
        }
        lemma_find_piece_skip(s.drop_first(), p, i - 1);
        assert(s.drop_first().skip(i - 1) =~= s.skip(i));
    } else {
        assert(s.skip(0) =~= s);
    }
}

proof fn lemma_find_piece_none(s: Seq<char>, p: Seq<char>)
    requires
        forall|j: int| 0 <= j && j + p.len() <= s.len() ==> #[trigger] s.subrange(j, j + p.len()) != p,
    ensures
        find_piece(s, p) is None,
    decreases s.len(),
{
    if s.len() >= p.len() {
        assert(s.take(p.len() as int) =~= s.subrange(0, p.len() as int));
        assert(s.subrange(0int, 0int + p.len()) != p);
        if s.len() > 0 {
            assert forall|j: int| 0 <= j && j + p.len() <= s.drop_first().len() implies #[trigger] s.drop_first().subrange(
                j,
                j + p.len(),
            ) != p by {
                assert(s.drop_first().subrange(j, j + p.len()) =~= s.subrange(j + 1, j + 1 + p.len()));
            }
            lemma_find_piece_none(s.drop_first(), p);
        }
    }
}

fn find_scheme_sep(v: &Vec<char>) -> (r: Option<usize>)
    ensures
        match find_piece(v@, "://"@) {
            Some(k) => r == Some(k as usize) && k + 3 <= v@.len(),
            None => r is None,
        },
{
    proof {
        reveal_strlit("://");
    }
    if v.len() < 3 {
        proof {
            lemma_find_piece_none(v@, "://"@);
        }
        return None;
    }
    let mut i: usize = 0;
    while i <= v.len() - 3
        invariant
            v.len() >= 3,
            i <= v.len() - 2,
            "://"@.len() == 3,
            "://"@ == seq![':', '/', '/'],
            forall|j: int| 0 <= j < i ==> #[trigger] v@.subrange(j, j + 3) != "://"@,
        decreases v.len() - i,
    {
        if v[i] == ':' && v[i + 1] == '/' && v[i + 2] == '/' {
            proof {
                assert(v@.subrange(i as int, i + 3) =~= "://"@);
                lemma_find_piece_skip(v@, "://"@, i as int);
                assert(v@.skip(i as int).take(3) =~= "://"@);
            }
            return Some(i);
        }
        proof {
            assert(v@.subrange(i as int, i + 3)[0] == v@[i as int]);
            assert(v@.subrange(i as int, i + 3)[1] == v@[i + 1]);
            assert(v@.subrange(i as int, i + 3)[2] == v@[i + 2]);
        }
        i = i + 1;
    }
    proof {
        lemma_find_piece_none(v@, "://"@);
    }
    None
}

proof fn lemma_authority_len(s: Seq<char>, i: int)
    requires
        0 <= i <= s.len(),
        forall|j: int| 0 <= j < i ==> #[trigger] s[j] != '/' && s[j] != '?' && s[j] != '#',
        i == s.len() || s[i] == '/' || s[i] == '?' || s[i] == '#',
    ensures
        authority_len(s) == i,
    decreases i,
{
    if i > 0 {
        lemma_authority_len(s.drop_first(), i - 1);
    }
}

fn ends_with(h: &Vec<char>, suffix: &str) -> (r: bool)
    ensures
        r == (h@.len() >= suffix@.len() && h@.skip(h@.len() - suffix@.len()) == suffix@),
{
    let sv = chars_of(suffix);
    if sv.len() > h.len() {
        return false;
    }
    let off = h.len() - sv.len();
    let mut i: usize = 0;
    while i < sv.len()
        invariant
            off + sv.len() == h.len(),
            sv@ == suffix@,
            i <= sv.len(),
            forall|j: int| 0 <= j < i ==> h@[off + j] == sv@[j],
        decreases sv.len() - i,
    {
        if h[off + i] != sv[i] {
            proof {
                assert(h@.skip(off as int)[i as int] != sv@[i as int]);
                assert(h@.skip(off as int) != suffix@);
            }
            return false;
        }
        i = i + 1;
    }
    proof {
        assert(h@.skip(off as int) =~= sv@);
    }
    true
}

/// Normalises an origin for comparison.
pub fn normalise_origin(raw: &str) -> (r: String)
    ensures
        r@ == normal_origin(raw@),
{
    let v = trim_chars(&chars_of(raw));
    let mut n: usize = v.len();
    while n > 0 && v[n - 1] == '/'
        invariant
            n <= v.len(),
            forall|j: int| n <= j < v.len() ==> #[trigger] v@[j] == '/',
        decreases n,
    {
        n = n - 1;
    }
    proof {
        lemma_trim_slashes(v@, n as int);
        if n > 0 {
            assert(v@.take(n as int).last() != '/');
        }
    }
    let t = take_chars(&v, n);
    match find_scheme_sep(&t) {
        Some(i) => {
            let scheme = lower_chars(&take_chars(&t, i));
            let after = skip_chars(&t, i + 3);
            let mut h: usize = 0;
            while h < after.len() && after[h] != '/' && after[h] != '?' && after[h] != '#'
                invariant
                    h <= after.len(),
                    forall|j: int| 0 <= j < h ==> #[trigger] after@[j] != '/' && after@[j] != '?' && after@[j] != '#',
                decreases after.len() - h,
            {
                h = h + 1;
            }
            proof {
                lemma_authority_len(after@, h as int);
            }
            let host = lower_chars(&take_chars(&after, h));
            let scheme_s = string_of(&scheme);
            proof {
                reveal_strlit(":80");
                reveal_strlit(":443");
            }
            let host_final = if str_eq(scheme_s.as_str(), "http") && ends_with(&host, ":80") {
                take_chars(&host, host.len() - 3)
            } else if str_eq(scheme_s.as_str(), "https") && ends_with(&host, ":443") {
                take_chars(&host, host.len() - 4)
            } else {
                host
            };
            proof {
                reveal_strlit(":80");
                reveal_strlit(":443");
            }
            let a = cat(scheme_s.as_str(), "://");
            cat(a.as_str(), string_of(&host_final).as_str())
        },
        None => string_of(&lower_chars(&t)),
    }
}

/// Allowed origins, kept in normal form.
pub struct CsrfState {
    pub allowed_origins: Vec<String>,
}

impl CsrfState {
    /// The state for `allowed_origins`, each normalised, in order.
    pub fn new(allowed_origins: Vec<String>) -> (r: Arc<Self>)
        ensures
            r.allowed_origins@.len() == allowed_origins@.len(),
            forall|i: int|
                0 <= i < allowed_origins@.len() ==> (#[trigger] r.allowed_origins@[i])@ == normal_origin(
                    allowed_origins@[i]@,
                ),
    {
        let mut normalised: Vec<String> = Vec::new();
        let mut i: usize = 0;
        while i < allowed_origins.len()
            invariant
                i <= allowed_origins.len(),
                normalised@.len() == i,
                forall|j: int|
                    0 <= j < i ==> (#[trigger] normalised@[j])@ == normal_origin(allowed_origins@[j]@),
            decreases allowed_origins.len() - i,
        {
            normalised.push(normalise_origin(allowed_origins[i].as_str()));
            i = i + 1;
        }
        Arc::new(CsrfState { allowed_origins: normalised })
    }
}


/// `s` starts with `p`.
pub open spec fn has_prefix(s: Seq<char>, p: Seq<char>) -> bool {
    s.len() >= p.len() && s.take(p.len() as int) == p
}

fn starts_with(v: &Vec<char>, p: &str) -> (r: bool)
    ensures
        r == has_prefix(v@, p@),
{
    let pv = chars_of(p);
    if pv.len() > v.len() {
        return false;
    }
    let mut i: usize = 0;
    while i < pv.len()
        invariant
            pv@ == p@,
            pv.len() <= v.len(),
            i <= pv.len(),
            forall|j: int| 0 <= j < i ==> v@[j] == pv@[j],
        decreases pv.len() - i,
    {
        if v[i] != pv[i] {
            proof {
                assert(v@.take(pv.len() as int)[i as int] != p@[i as int]);
            }
            return false;
        }
        i = i + 1;
    }
    proof {
        assert(v@.take(pv.len() as int) =~= p@);
    }
    true
}

/// Position of the first `c` in `s`.
pub open spec fn index_of(s: Seq<char>, c: char) -> Option<nat>
    decreases s.len(),
{
    if s.len() == 0 {
        None
    } else if s[0] == c {
        Some(0)
    } else {
        match index_of(s.drop_first(), c) {
            Some(k) => Some(k + 1),
            None => None,
        }
    }
}

proof fn lemma_index_of_skip(s: Seq<char>, c: char, i: int)
    requires
        0 <= i <= s.len(),
        forall|j: int| 0 <= j < i ==> #[trigger] s[j] != c,
    ensures
        index_of(s, c) == match index_of(s.skip(i), c) {
            Some(k) => Some((k + i) as nat),
            None => None,
        },
    decreases i,
{
    if i > 0 {
        lemma_index_of_skip(s.drop_first(), c, i - 1);
        assert(s.drop_first().skip(i - 1) =~= s.skip(i));
    } else {
        assert(s.skip(0) =~= s);
    }
}

fn find_char(v: &Vec<char>, c: char) -> (r: Option<usize>)
    ensures
        match index_of(v@, c) {
            Some(k) => r == Some(k as usize) && k < v@.len(),
            None => r is None,
        },
{
    let mut i: usize = 0;
    while i < v.len()
        invariant
            i <= v.len(),
            forall|j: int| 0 <= j < i ==> #[trigger] v@[j] != c,
        decreases v.len() - i,
    {
        if v[i] == c {
            proof {
                lemma_index_of_skip(v@, c, i as int);
            }
            return Some(i);
        }
        i = i + 1;
    }
    proof {
        lemma_index_of_skip(v@, c, i as int);
        assert(v@.skip(i as int) =~= Seq::<char>::empty());
    }
    None
}

/// The resource a mutating path belongs to, naming its audit event:
/// `command`, `device`, `application` or `unknown`.
pub open spec fn path_resource(path: Seq<char>) -> Seq<char> {
    if path == "/api/applications"@ || path == "/api/applications/"@ {
        "application"@
    } else if has_prefix(path, "/api/applications/"@) {
        let after = path.skip("/api/applications/"@.len() as int);
        match index_of(after, '/') {
            None => "application"@,
            Some(k) => {
                let rest = after.skip(k as int + 1);
                if has_prefix(rest, "devices"@) && (rest.len() == 7 || rest[7] == '/') {
                    let ads = if rest.len() == 7 {
                        Seq::<char>::empty()
                    } else {
                        rest.skip(8)
                    };
                    match index_of(ads, '/') {
                        Some(m) => {
                            let rest2 = ads.skip(m as int + 1);
                            if rest2 == "commands"@ || has_prefix(rest2, "commands/"@) {
                                "command"@
                            } else {
                                "device"@
                            }
                        },
                        None => "device"@,
                    }
                } else {
                    "application"@
                }
            },
        }
    } else {
        "unknown"@
    }
}

/// The resource of a mutating path, for its audit event.
pub fn csrf_event_resource_for_path(path: &str) -> (r: &'static str)
    ensures
        r@ == path_resource(path@),
{
    if str_eq(path, "/api/applications") || str_eq(path, "/api/applications/") {
        return "application";
    }
    let v = chars_of(path);
    if !starts_with(&v, "/api/applications/") {
        return "unknown";
    }
    proof {
        reveal_strlit("/api/applications/");
        reveal_strlit("devices");
    }
    let after = skip_chars(&v, 18);
    let k = match find_char(&after, '/') {
        None => {
            return "application";
        },
        Some(k) => k,
    };
    let rest = skip_chars(&after, k + 1);
    if starts_with(&rest, "devices") && (rest.len() == 7 || rest[7] == '/') {
        let ads = if rest.len() == 7 {
            Vec::new()
        } else {
            skip_chars(&rest, 8)
        };
        match find_char(&ads, '/') {
            Some(m) => {
                let rest2 = skip_chars(&ads, m + 1);
                let s2 = string_of(&rest2);
                if str_eq(s2.as_str(), "commands") || starts_with(&rest2, "commands/") {
                    "command"
                } else {
                    "device"
                }
            },
            None => "device",
        }
    } else {
        "application"
    }
}

/// Whether a method is state-changing: anything but `GET`, `HEAD` and
/// `OPTIONS` (exact names).
pub open spec fn state_changing(method: Seq<char>) -> bool {
    !(method == "GET"@ || method == "HEAD"@ || method == "OPTIONS"@)
}

/// Whether a request with `method` goes through the CSRF checks.
pub fn is_state_changing(method: &str) -> (r: bool)
    ensures
        r == state_changing(method@),
{
    !(str_eq(method, "GET") || str_eq(method, "HEAD") || str_eq(method, "OPTIONS"))
}

/// Whether a `Content-Type` value (`None` when absent or not text) is
/// JSON: after trimming and ASCII lowercasing, `application/json`,
/// possibly followed by `;` and parameters.
pub open spec fn json_content_type(value: Option<Seq<char>>) -> bool {
    match value {
        None => false,
        Some(v) => {
            let lower = lower_ascii(trim_ws(v));
            lower == "application/json"@ || has_prefix(lower, "application/json;"@)
        },
    }
}

/// Whether the request body is declared JSON.
pub fn content_type_is_json(value: Option<&str>) -> (r: bool)
    ensures
        r == json_content_type(
            match value {
                Some(s) => Some(s@),
                None => None,
            },
        ),
{
    match value {
        None => false,
        Some(v) => {
            let lower = lower_chars(&trim_chars(&chars_of(v)));
            let ls = string_of(&lower);
            str_eq(ls.as_str(), "application/json") || starts_with(&lower, "application/json;")
        },
    }
}

/// The origin a request claims: its only `Origin` header value (each
/// value `None` when not text), trimmed, not empty and not `null`, in
/// normal form. Several `Origin` headers count as none.
pub open spec fn request_origin(values: Seq<Option<Seq<char>>>) -> Option<Seq<char>> {
    if values.len() != 1 {
        None
    } else {
        match values[0] {
            None => None,
            Some(v) => {
                let t = trim_ws(v);
                if t.len() == 0 || t == "null"@ {
                    None
                } else {
                    Some(normal_origin(t))
                }
            },
        }
    }
}

/// Views of the header values.
pub open spec fn header_values(values: Seq<Option<String>>) -> Seq<Option<Seq<char>>> {
    values.map_values(
        |o: Option<String>|
            match o {
                Some(s) => Some(s@),
                None => None,
            },
    )
}

/// The origin of the request's `Origin` header values.
pub fn extract_origin(values: &Vec<Option<String>>) -> (r: Option<String>)
    ensures
        match request_origin(header_values(values@)) {
            Some(o) => r matches Some(s) && s@ == o,
            None => r is None,
        },
{
    if values.len() != 1 {
        return None;
    }
    let v = match &values[0] {
        None => {
            return None;
        },
        Some(v) => v,
    };
    let t = string_of(&trim_chars(&chars_of(v.as_str())));
    if t.as_str().is_empty() || str_eq(t.as_str(), "null") {
        return None;
    }
    Some(normalise_origin(t.as_str()))
}

/// HTTP 403 and 415.
pub const STATUS_FORBIDDEN: u16 = 403;
pub const STATUS_UNSUPPORTED_MEDIA_TYPE: u16 = 415;

/// The CSRF decision on a request: safe methods pass; others need an
/// allowed origin (403 otherwise), then a JSON body (415 otherwise).
pub open spec fn csrf_refusal(
    allowed: Seq<Seq<char>>,
    method: Seq<char>,
    origins: Seq<Option<Seq<char>>>,
    content_type: Option<Seq<char>>,
) -> Option<RejectionModel> {
    if !state_changing(method) {
        None
    } else if !(match request_origin(origins) {
        Some(o) => allowed.contains(o),
        None => false,
    }) {
        Some(
            refused(
                STATUS_FORBIDDEN,
                "CSRF check failed: Origin header missing, null, or not in allow-list"@,
                Some(
                    "set the Origin header on POST/PUT/DELETE/PATCH and ensure [web].allowed_origins includes the URL the operator's browser is using; Referer is no longer consulted (D2-P)"@,
                ),
            ),
        )
    } else if !json_content_type(content_type) {
        Some(
            refused(
                STATUS_UNSUPPORTED_MEDIA_TYPE,
                "CSRF check failed: Content-Type must be application/json"@,
                Some("set Content-Type: application/json on POST/PUT/DELETE/PATCH bodies"@),
            ),
        )
    } else {
        None
    }
}

fn contains_origin(allowed: &Vec<String>, o: &String) -> (r: bool)
    ensures
        r == allowed@.map_values(|a: String| a@).contains(o@),
{
    let ghost av = allowed@.map_values(|a: String| a@);
    let mut i: usize = 0;
    while i < allowed.len()
        invariant
            i <= allowed.len(),
            av == allowed@.map_values(|a: String| a@),
            forall|j: int| 0 <= j < i ==> av[j] != o@,
        decreases allowed.len() - i,
    {
        if allowed[i] == *o {
            proof {
                assert(av[i as int] == o@);
            }
            return true;
        }
        i = i + 1;
    }
    false
}

impl CsrfState {
    /// Checks a request with `method`, its `Origin` header values and
    /// its `Content-Type` value (`None` when absent or not text).
    pub fn check(&self, method: &str, origins: &Vec<Option<String>>, content_type: Option<&str>) -> (r: Result<
        (),
        Rejection,
    >)
        ensures
            refusal(r) == csrf_refusal(
                self.allowed_origins@.map_values(|a: String| a@),
                method@,
                header_values(origins@),
                match content_type {
                    Some(s) => Some(s@),
                    None => None,
                },
            ),
    {
        if !is_state_changing(method) {
            return Ok(());
        }
        let origin_ok = match extract_origin(origins) {
            None => false,
            Some(o) => contains_origin(&self.allowed_origins, &o),
        };
        if !origin_ok {
            return Err(
                Rejection {
                    status: STATUS_FORBIDDEN,
                    body: ErrorResponse {
                        error: owned("CSRF check failed: Origin header missing, null, or not in allow-list"),
                        hint: Some(
                            owned(
                                "set the Origin header on POST/PUT/DELETE/PATCH and ensure [web].allowed_origins includes the URL the operator's browser is using; Referer is no longer consulted (D2-P)",
                            ),
                        ),
                    },
                },
            );
        }
        if !content_type_is_json(content_type) {
            return Err(
                Rejection {
                    status: STATUS_UNSUPPORTED_MEDIA_TYPE,
                    body: ErrorResponse {
                        error: owned("CSRF check failed: Content-Type must be application/json"),
                        hint: Some(owned("set Content-Type: application/json on POST/PUT/DELETE/PATCH bodies")),
                    },
                },
            );
        }
        Ok(())
    }
}

/// Safe methods (`GET`, `HEAD`, `OPTIONS`) always pass. Any other request
/// passes exactly when it carries one `Origin` header whose trimmed value
/// is not empty or `null` and whose normal form is allowed, and a JSON
/// body; a bad origin is answered 403 and, with a good origin, a
/// non-JSON body 415.
pub proof fn law_csrf_decision(
    allowed: Seq<Seq<char>>,
    method: Seq<char>,
    origins: Seq<Option<Seq<char>>>,
    content_type: Option<Seq<char>>,
)
    ensures
        (method == "GET"@ || method == "HEAD"@ || method == "OPTIONS"@) ==> csrf_refusal(
            allowed,
            method,
            origins,
            content_type,
        ) is None,
        !(method == "GET"@ || method == "HEAD"@ || method == "OPTIONS"@) ==> {
            let good_origin = origins.len() == 1 && (origins[0] matches Some(v) && trim_ws(v).len() > 0 && trim_ws(v)
                != "null"@ && allowed.contains(normal_origin(trim_ws(v))));
            &&& (csrf_refusal(allowed, method, origins, content_type) is None <==> good_origin && json_content_type(
                content_type,
            ))
            &&& (!good_origin ==> (csrf_refusal(allowed, method, origins, content_type) matches Some(r) && r.status
                == STATUS_FORBIDDEN))
            &&& (good_origin && !json_content_type(content_type) ==> (csrf_refusal(
                allowed,
                method,
                origins,
                content_type,
            ) matches Some(r) && r.status == STATUS_UNSUPPORTED_MEDIA_TYPE))
        },
{
}

} // verus!
