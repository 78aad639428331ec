//! Character-sequence helpers shared by the parsers and validators:
//! lexicographic order, sorted key sets, ASCII case folding and the
//! conversions between `&str`, `String` and `Vec<char>`.

use vstd::prelude::*;

verus! {

/// `s.chars().collect()`: the characters of `s`, in order.
#[verifier::external_body]
pub(crate) fn chars_of(s: &str) -> (r: Vec<char>)
    ensures
        r@ == s@,
{
    s.chars().collect()
}

/// `v.iter().collect::<String>()`: the string made of the characters of `v`.
#[verifier::external_body]
pub(crate) fn string_of(v: &Vec<char>) -> (r: String)
    ensures
        r@ == v@,
{
    v.iter().collect()
}

/// A copy of `s` as an owned `String`.
pub(crate) fn owned(s: &str) -> (r: String)
    ensures
        r@ == s@,
{
    s.to_owned()
}

/// Lexicographic order on character sequences by code point; for
/// UTF-8 strings this is the order of `str`'s `Ord`.
pub open spec fn seq_lt(a: Seq<char>, b: Seq<char>) -> bool
    decreases a.len(),
{
    if a.len() == 0 {
        b.len() > 0
    } else if b.len() == 0 {
        false
    } else if a[0] != b[0] {
        (a[0] as u32) < (b[0] as u32)
    } else {
        seq_lt(a.drop_first(), b.drop_first())
    }
}

/// A sequence of keys in strictly ascending order (so without repeats).
pub open spec fn strictly_sorted(s: Seq<Seq<char>>) -> bool {
    forall|i: int, j: int| 0 <= i < j < s.len() ==> seq_lt(#[trigger] s[i], #[trigger] s[j])
}

proof fn lemma_char_u32_injective(a: char, b: char)
    ensures
        (a as u32) == (b as u32) ==> a == b,
{
}

/// `seq_lt` is irreflexive.
pub proof fn lemma_seq_lt_irreflexive(a: Seq<char>)
    ensures
        !seq_lt(a, a),
    decreases a.len(),
{
    if a.len() > 0 {
        lemma_seq_lt_irreflexive(a.drop_first());
    }
}

/// `seq_lt` is transitive.
pub proof fn lemma_seq_lt_transitive(a: Seq<char>, b: Seq<char>, c: Seq<char>)
    requires
        seq_lt(a, b),
        seq_lt(b, c),
    ensures
        seq_lt(a, c),
    decreases a.len(),
{
    if a.len() > 0 && b.len() > 0 && c.len() > 0 {
        if a[0] == b[0] && b[0] == c[0] {
            lemma_seq_lt_transitive(a.drop_first(), b.drop_first(), c.drop_first());
        }
    }
}

/// Any two distinct sequences are ordered one way or the other.
pub proof fn lemma_seq_lt_total(a: Seq<char>, b: Seq<char>)
    ensures
        a == b || seq_lt(a, b) || seq_lt(b, a),
    decreases a.len(),
{
    if a.len() > 0 && b.len() > 0 {
        if a[0] == b[0] {
            lemma_seq_lt_total(a.drop_first(), b.drop_first());
            if a.drop_first() == b.drop_first() {
                assert(a =~= seq![a[0]] + a.drop_first());
                assert(b =~= seq![b[0]] + b.drop_first());
            }
        } else {
            lemma_char_u32_injective(a[0], b[0]);
        }
    } else if a.len() == 0 && b.len() == 0 {
        assert(a =~= b);
    }
}

/// `seq_lt` is asymmetric.
pub proof fn lemma_seq_lt_asymmetric(a: Seq<char>, b: Seq<char>)
    ensures
        !(seq_lt(a, b) && seq_lt(b, a)),
{
    if seq_lt(a, b) && seq_lt(b, a) {
        lemma_seq_lt_transitive(a, b, a);
        lemma_seq_lt_irreflexive(a);
    }
}

/// `seq_lt` only depends on the part after a common prefix.
proof fn lemma_seq_lt_common_prefix(a: Seq<char>, b: Seq<char>, i: int)
    requires
        0 <= i <= a.len(),
        i <= b.len(),
        a.take(i) == b.take(i),
    ensures
        seq_lt(a, b) == seq_lt(a.skip(i), b.skip(i)),
    decreases i,
{
    if i > 0 {
        assert(a[0] == a.take(i)[0]);
        assert(b[0] == b.take(i)[0]);
        assert(a.drop_first().take(i - 1) =~= a.take(i).drop_first());
        assert(b.drop_first().take(i - 1) =~= b.take(i).drop_first());
        lemma_seq_lt_common_prefix(a.drop_first(), b.drop_first(), i - 1);
        assert(a.drop_first().skip(i - 1) =~= a.skip(i));
        assert(b.drop_first().skip(i - 1) =~= b.skip(i));
    } else {
        assert(a.skip(0) =~= a);
        assert(b.skip(0) =~= b);
    }
}

/// Lexicographic comparison of two character vectors.
pub(crate) fn chars_lt(a: &Vec<char>, b: &Vec<char>) -> (r: bool)
    ensures
        r == seq_lt(a@, b@),
{
    let mut i: usize = 0;
    while i < a.len() && i < b.len() && a[i] == b[i]
        invariant
            i <= a.len(),
            i <= b.len(),
            a@.take(i as int) == b@.take(i as int),
        decreases a.len() - i,
    {
        proof {
            assert(a@.take(i + 1) =~= a@.take(i as int).push(a@[i as int]));
            assert(b@.take(i + 1) =~= b@.take(i as int).push(b@[i as int]));
        }
        i = i + 1;
    }
    proof {
        lemma_seq_lt_common_prefix(a@, b@, i as int);
    }
    if i == a.len() {
        i < b.len()
    } else if i == b.len() {
        false
    } else {
        proof {
            assert(a@.skip(i as int)[0] == a@[i as int]);
            assert(b@.skip(i as int)[0] == b@[i as int]);
        }
        (a[i] as u32) < (b[i] as u32)
    }
}

/// Whether the views of two strings are equal.
pub(crate) fn str_eq(a: &str, b: &str) -> (r: bool)
    ensures
        r == (a@ == b@),
{
    let x = owned(a);
    let y = owned(b);
    x == y
}

/// Two strictly sorted sequences with the same elements are equal.
pub proof fn lemma_strictly_sorted_unique(a: Seq<Seq<char>>, b: Seq<Seq<char>>)
    requires
        strictly_sorted(a),
        strictly_sorted(b),
        a.to_set() == b.to_set(),
    ensures
        a == b,
    decreases a.len(),
{
    if a.len() == 0 {
        if b.len() > 0 {
            assert(b.to_set().contains(b[0]));
        }
        assert(a =~= b);
    } else if b.len() == 0 {
        assert(a.to_set().contains(a[0]));
    } else {
        // Both heads are the least element of the common set.
        assert(a.to_set().contains(a[0]));
        assert(b.to_set().contains(b[0]));
        let ia = choose|k: int| 0 <= k < a.len() && a[k] == b[0];
        let ib = choose|k: int| 0 <= k < b.len() && b[k] == a[0];
        if a[0] != b[0] {
            assert(ia > 0);
            assert(ib > 0);
            assert(seq_lt(a[0], a[ia]));
            assert(seq_lt(b[0], b[ib]));
            lemma_seq_lt_asymmetric(a[0], b[0]);
        }
        let a1 = a.drop_first();
        let b1 = b.drop_first();
        assert forall|x: Seq<char>| a1.to_set().contains(x) implies b1.to_set().contains(x) by {
            let k = choose|k: int| 0 <= k < a1.len() && a1[k] == x;
            assert(a[k + 1] == x);
            assert(seq_lt(a[0], x));
            assert(b.to_set().contains(x));
            let m = choose|m: int| 0 <= m < b.len() && b[m] == x;
            if m == 0 {
                lemma_seq_lt_irreflexive(x);
            }
            assert(b1[m - 1] == x);
        }
        assert forall|x: Seq<char>| b1.to_set().contains(x) implies a1.to_set().contains(x) by {
            let k = choose|k: int| 0 <= k < b1.len() && b1[k] == x;
            assert(b[k + 1] == x);
            assert(seq_lt(b[0], x));
            assert(a.to_set().contains(x));
            let m = choose|m: int| 0 <= m < a.len() && a[m] == x;
            if m == 0 {
                lemma_seq_lt_irreflexive(x);
            }
            assert(a1[m - 1] == x);
        }
        assert(a1.to_set() =~= b1.to_set());
        lemma_strictly_sorted_unique(a1, b1);
        assert(a =~= seq![a[0]] + a1);
        assert(b =~= seq![b[0]] + b1);
    }
}

/// The distinct keys of `keys`, in strictly ascending order.
pub open spec fn sorted_distinct(keys: Seq<Seq<char>>) -> Seq<Seq<char>> {
    choose|r: Seq<Seq<char>>| strictly_sorted(r) && r.to_set() == keys.to_set()
}

/// The views of a sequence of strings.
pub open spec fn views(s: Seq<String>) -> Seq<Seq<char>> {
    s.map_values(|x: String| x@)
}

/// Sorts and deduplicates `keys` (the key set of a `BTreeSet<&str>`).
pub(crate) fn sorted_distinct_keys(keys: &Vec<String>) -> (r: Vec<String>)
    ensures
        views(r@) == sorted_distinct(views(keys@)),
        strictly_sorted(views(r@)),
        views(r@).to_set() == views(keys@).to_set(),
{
    let mut out: Vec<String> = Vec::new();
    let mut n: usize = 0;
    while n < keys.len()
        invariant
            n <= keys.len(),
            strictly_sorted(views(out@)),
            views(out@).to_set() == views(keys@.take(n as int)).to_set(),
        decreases keys.len() - n,
    {
        let k = &keys[n];
        let kc = chars_of(k.as_str());
        // First position whose key is not below `k`.
        let mut j: usize = 0;
        while j < out.len() && chars_lt(&chars_of(out[j].as_str()), &kc)
            invariant
                j <= out.len(),
                kc@ == k@,
                forall|t: int| 0 <= t < j ==> seq_lt(#[trigger] views(out@)[t], k@),
            decreases out.len() - j,
        {
            j = j + 1;
        }
        let present = j < out.len() && out[j] == *k;
        proof {
            assert(keys@.take(n + 1) =~= keys@.take(n as int).push(*k));
            assert(views(keys@.take(n + 1)) =~= views(keys@.take(n as int)).push(k@));
        }
        if !present {
            let ghost old_out = views(out@);
            out.insert(j, k.clone());
            proof {
                assert(views(out@) =~= old_out.take(j as int).push(k@) + old_out.skip(j as int));
                if j < old_out.len() {
                    lemma_seq_lt_total(old_out[j as int], k@);
                    lemma_seq_lt_asymmetric(old_out[j as int], k@);
                }
                if j < old_out.len() {
                    assert(seq_lt(k@, old_out[j as int]));
                }
                assert forall|a: int, b: int| 0 <= a < b < views(out@).len() implies
                    seq_lt(#[trigger] views(out@)[a], #[trigger] views(out@)[b]) by {
                    if b > j {
                        assert(views(out@)[b] == old_out[b - 1]);
                        if b - 1 > j {
                            assert(seq_lt(old_out[j as int], old_out[b - 1]));
                            lemma_seq_lt_transitive(k@, old_out[j as int], old_out[b - 1]);
                        }
                        assert(seq_lt(k@, views(out@)[b]));
                        if a < j {
                            assert(views(out@)[a] == old_out[a]);
                            lemma_seq_lt_transitive(views(out@)[a], k@, views(out@)[b]);
                        } else if a > j {
                            assert(views(out@)[a] == old_out[a - 1]);
                        }
                    } else if b == j {
                        assert(views(out@)[a] == old_out[a]);
                    } else {
                        assert(views(out@)[a] == old_out[a]);
                        assert(views(out@)[b] == old_out[b]);
                    }
                }
                assert(views(out@).to_set() =~= old_out.to_set().insert(k@)) by {
                    assert forall|x: Seq<char>| views(out@).to_set().contains(x) implies
                        old_out.to_set().insert(k@).contains(x) by {
                        let p = choose|p: int| 0 <= p < views(out@).len() && views(out@)[p] == x;
                        if p < j {
                            assert(old_out[p] == x);
                        } else if p > j {
                            assert(old_out[p - 1] == x);
                        }
                    }
                    assert forall|x: Seq<char>| old_out.to_set().insert(k@).contains(x) implies
                        views(out@).to_set().contains(x) by {
                        if x == k@ {
                            assert(views(out@)[j as int] == x);
                        } else {
                            let p = choose|p: int| 0 <= p < old_out.len() && old_out[p] == x;
                            if p < j {
                                assert(views(out@)[p] == x);
                            } else {
                                assert(views(out@)[p + 1] == x);
                            }
                        }
                    }
                }
                Seq::<Seq<char>>::lemma_to_set_insert_commutes(views(keys@.take(n as int)), k@);
                assert(views(keys@.take(n + 1)) =~= views(keys@.take(n as int)) + seq![k@]);
            }
        } else {
            proof {
                assert(views(out@)[j as int] == k@);
                assert(views(out@).to_set() =~= views(out@).to_set().insert(k@));
                Seq::<Seq<char>>::lemma_to_set_insert_commutes(views(keys@.take(n as int)), k@);
                assert(views(keys@.take(n + 1)) =~= views(keys@.take(n as int)) + seq![k@]);
            }
        }
        n = n + 1;
    }
    proof {
        assert(keys@.take(keys.len() as int) =~= keys@);
        let w = views(out@);
        assert(strictly_sorted(w) && w.to_set() == views(keys@).to_set());
        lemma_strictly_sorted_unique(w, sorted_distinct(views(keys@)));
    }
    out
}


/// `a` followed by `b`.
pub fn cat(a: &str, b: &str) -> (r: String)
    ensures
        r@ == a@ + b@,
{
    let mut v = chars_of(a);
    let mut w = chars_of(b);
    v.append(&mut w);
    string_of(&v)
}

/// The decimal digit for `d < 10`.
pub open spec fn digit_char(d: nat) -> char {
    if d == 0 { '0' }
    else if d == 1 { '1' }
    else if d == 2 { '2' }
    else if d == 3 { '3' }
    else if d == 4 { '4' }
    else if d == 5 { '5' }
    else if d == 6 { '6' }
    else if d == 7 { '7' }
    else if d == 8 { '8' }
    else { '9' }
}

/// Decimal notation of `n`, as `usize`'s `Display` writes it.
pub open spec fn decimal(n: nat) -> Seq<char>
    decreases n,
{
    if n < 10 {
        seq![digit_char(n)]
    } else {
        decimal(n / 10).push(digit_char(n % 10))
    }
}

fn digit(d: usize) -> (c: char)
    requires
        d < 10,
    ensures
        c == digit_char(d as nat),
{
    if d == 0 { '0' }
    else if d == 1 { '1' }
    else if d == 2 { '2' }
    else if d == 3 { '3' }
    else if d == 4 { '4' }
    else if d == 5 { '5' }
    else if d == 6 { '6' }
    else if d == 7 { '7' }
    else if d == 8 { '8' }
    else { '9' }
}

fn push_decimal(n: usize, out: &mut Vec<char>)
    ensures
        final(out)@ == old(out)@ + decimal(n as nat),
    decreases n,
{
    if n < 10 {
        out.push(digit(n));
        proof {
            assert(decimal(n as nat) =~= seq![digit_char(n as nat)]);
        }
    } else {
        push_decimal(n / 10, out);
        out.push(digit(n % 10));
        proof {
            assert(decimal(n as nat) == decimal((n / 10) as nat).push(digit_char((n % 10) as nat)));
        }
    }
}

/// `n.to_string()`.
pub fn decimal_string(n: usize) -> (r: String)
    ensures
        r@ == decimal(n as nat),
{
    let mut v: Vec<char> = Vec::new();
    push_decimal(n, &mut v);
    proof {
        assert(v@ =~= decimal(n as nat));
    }
    string_of(&v)
}


/// The lowercase hexadecimal digit for `d < 16`.
pub open spec fn hex_digit_char(d: nat) -> char {
    if d < 10 {
        digit_char(d)
    } else if d == 10 {
        'a'
    } else if d == 11 {
        'b'
    } else if d == 12 {
        'c'
    } else if d == 13 {
        'd'
    } else if d == 14 {
        'e'
    } else {
        'f'
    }
}

/// Lowercase hexadecimal notation of `n`, no leading zeros.
pub open spec fn hex_lower(n: nat) -> Seq<char>
    decreases n,
{
    if n < 16 {
        seq![hex_digit_char(n)]
    } else {
        hex_lower(n / 16).push(hex_digit_char(n % 16))
    }
}

fn hex_digit(d: u32) -> (c: char)
    requires
        d < 16,
    ensures
        c == hex_digit_char(d as nat),
{
    if d < 10 {
        digit(d as usize)
    } else if d == 10 {
        'a'
    } else if d == 11 {
        'b'
    } else if d == 12 {
        'c'
    } else if d == 13 {
        'd'
    } else if d == 14 {
        'e'
    } else {
        'f'
    }
}

/// Appends the lowercase hexadecimal notation of `n`.
pub fn push_hex(n: u32, out: &mut Vec<char>)
    ensures
        final(out)@ == old(out)@ + hex_lower(n as nat),
    decreases n,
{
    if n < 16 {
        out.push(hex_digit(n));
        proof {
            assert(hex_lower(n as nat) =~= seq![hex_digit_char(n as nat)]);
        }
    } else {
        push_hex(n / 16, out);
        out.push(hex_digit(n % 16));
        proof {
            assert(hex_lower(n as nat) == hex_lower((n / 16) as nat).push(hex_digit_char((n % 16) as nat)));
        }
    }
}

/// `c.escape_default()`: `\t`, `\r`, `\n`, `\'`, `\"` and `\\` for those
/// characters, printable ASCII as itself, anything else as `\u{…}` in
/// lowercase hexadecimal.
pub open spec fn escape_char(c: char) -> Seq<char> {
    if c == '\t' {
        seq!['\\', 't']
    } else if c == '\r' {
        seq!['\\', 'r']
    } else if c == '\n' {
        seq!['\\', 'n']
    } else if c == '\'' || c == '"' || c == '\\' {
        seq!['\\', c]
    } else if ' ' <= c && c <= '~' {
        seq![c]
    } else {
        seq!['\\', 'u', '{'] + hex_lower(c as nat) + seq!['}']
    }
}

/// `s.escape_default()`: each character escaped, in order.
pub open spec fn escape_all(s: Seq<char>) -> Seq<char>
    decreases s.len(),
{
    if s.len() == 0 {
        Seq::empty()
    } else {
        escape_all(s.drop_last()) + escape_char(s.last())
    }
}

/// Every character of `s` is printable ASCII (space to `~`).
pub open spec fn printable_ascii(s: Seq<char>) -> bool {
    forall|i: int| 0 <= i < s.len() ==> ' ' <= #[trigger] s[i] && s[i] <= '~'
}

proof fn lemma_hex_lower_printable(n: nat)
    ensures
        printable_ascii(hex_lower(n)),
    decreases n,
{
    if n >= 16 {
        lemma_hex_lower_printable(n / 16);
    }
}

proof fn lemma_escape_char_printable(c: char)
    ensures
        printable_ascii(escape_char(c)),
{
    if !(c == '\t' || c == '\r' || c == '\n' || c == '\'' || c == '"' || c == '\\' || (' ' <= c && c <= '~')) {
        lemma_hex_lower_printable(c as nat);
        let h = hex_lower(c as nat);
        let e = seq!['\\', 'u', '{'] + h + seq!['}'];
        assert forall|i: int| 0 <= i < e.len() implies ' ' <= #[trigger] e[i] && e[i] <= '~' by {
            if 3 <= i < 3 + h.len() {
                assert(e[i] == h[i - 3]);
            }
        }
    }
}

/// An escaped text is printable ASCII: escaping leaves no control
/// character (newlines included) and nothing outside ASCII.
pub proof fn lemma_escape_all_printable(s: Seq<char>)
    ensures
        printable_ascii(escape_all(s)),
    decreases s.len(),
{
    if s.len() > 0 {
        lemma_escape_all_printable(s.drop_last());
        lemma_escape_char_printable(s.last());
        let a = escape_all(s.drop_last());
        let b = escape_char(s.last());
        assert forall|i: int| 0 <= i < (a + b).len() implies ' ' <= #[trigger] (a + b)[i] && (a + b)[i] <= '~' by {
            if i >= a.len() {
                assert((a + b)[i] == b[i - a.len()]);
            }
        }
    }
}

/// Appends `c.escape_default()`.
pub fn push_escaped(c: char, out: &mut Vec<char>)
    ensures
        final(out)@ == old(out)@ + escape_char(c),
{
    let ghost start = out@;
    if c == '\t' {
        out.push('\\');
        out.push('t');
    } else if c == '\r' {
        out.push('\\');
        out.push('r');
    } else if c == '\n' {
        out.push('\\');
        out.push('n');
    } else if c == '\'' || c == '"' || c == '\\' {
        out.push('\\');
        out.push(c);
    } else if ' ' <= c && c <= '~' {
        out.push(c);
    } else {
        out.push('\\');
        out.push('u');
        out.push('{');
        push_hex(c as u32, out);
        out.push('}');
    }
    proof {
        assert(out@ =~= start + escape_char(c));
    }
}

} // verus!
