//! Lookup by string key with "the last entry wins" semantics — the
//! behaviour of a `BTreeMap` / `HashMap` filled from a list in order.

use vstd::prelude::*;
use crate::text::views;

verus! {

/// A record identified by one of its string fields.
pub trait Keyed {
    spec fn key_view(&self) -> Seq<char>;

    fn key(&self) -> (r: &String)
        ensures
            r@ == self.key_view();
}

/// The last element of `s` whose key is `k`, if any.
pub open spec fn last_with_key<T: Keyed>(s: Seq<T>, k: Seq<char>) -> Option<T>
    decreases s.len(),
{
    if s.len() == 0 {
        None
    } else if s.last().key_view() == k {
        Some(s.last())
    } else {
        last_with_key(s.drop_last(), k)
    }
}

/// The keys of `s`, in order.
pub open spec fn keys_of<T: Keyed>(s: Seq<T>) -> Seq<Seq<char>> {
    s.map_values(|x: T| x.key_view())
}

/// Index of the last element of `s` whose key is `k`.
pub fn find_last_index<T: Keyed>(s: &[T], k: &String) -> (r: Option<usize>)
    ensures
        r is None ==> last_with_key(s@, k@) is None,
        r matches Some(i) ==> i < s@.len() && last_with_key(s@, k@) == Some(s@[i as int]),
{
    let mut i = s.len();
    proof {
        assert(s@.take(s@.len() as int) =~= s@);
    }
    while i > 0
        invariant
            i <= s@.len(),
            last_with_key(s@, k@) == last_with_key(s@.take(i as int), k@),
        decreases i,
    {
        let cur = s[i - 1].key();
        proof {
            assert(s@.take(i as int).drop_last() =~= s@.take(i - 1));
            assert(s@.take(i as int).last() == s@[i - 1]);
        }
        if *cur == *k {
            return Some(i - 1);
        }
        i = i - 1;
    }
    None
}

/// Appends the keys of `s` to `out`.
pub fn collect_keys<T: Keyed>(s: &[T], out: &mut Vec<String>)
    ensures
        views(final(out)@) == views(old(out)@) + keys_of(s@),
{
    let ghost start = views(out@);
    let mut i: usize = 0;
    while i < s.len()
        invariant
            i <= s@.len(),
            views(out@) == start + keys_of(s@.take(i as int)),
        decreases s@.len() - i,
    {
        let k = s[i].key().clone();
        let ghost before = out@;
        out.push(k);
        proof {
            assert(s@.take(i + 1) =~= s@.take(i as int).push(s@[i as int]));
            assert(keys_of(s@.take(i + 1)) =~= keys_of(s@.take(i as int)).push(s@[i as int].key_view()));
            assert(views(out@) =~= views(before).push(k@));
            assert(views(out@) =~= start + keys_of(s@.take(i + 1)));
        }
        i = i + 1;
    }
    proof {
        assert(s@.take(s@.len() as int) =~= s@);
    }
}


/// `last_with_key` finds an element exactly when the key occurs, and
/// the element it finds carries that key.
pub proof fn lemma_last_with_key<T: Keyed>(s: Seq<T>, k: Seq<char>)
    ensures
        last_with_key(s, k) is Some <==> keys_of(s).contains(k),
        last_with_key(s, k) matches Some(x) ==> x.key_view() == k,
    decreases s.len(),
{
    if s.len() > 0 {
        lemma_last_with_key(s.drop_last(), k);
        assert(keys_of(s) =~= keys_of(s.drop_last()).push(s.last().key_view()));
        assert(keys_of(s)[s.len() - 1] == s.last().key_view());
        if keys_of(s.drop_last()).contains(k) {
            let i = choose|i: int| 0 <= i < keys_of(s.drop_last()).len() && keys_of(s.drop_last())[i] == k;
            assert(keys_of(s)[i] == k);
        }
        if keys_of(s).contains(k) && s.last().key_view() != k {
            let i = choose|i: int| 0 <= i < keys_of(s).len() && keys_of(s)[i] == k;
            assert(i < s.len() - 1);
            assert(keys_of(s.drop_last())[i] == k);
        }
    } else {
        assert(!keys_of(s).contains(k));
    }
}


/// An entry of a key set drawn from two lists is found in one of them,
/// and what is found carries that key.
pub proof fn lemma_key_source<A: Keyed, B: Keyed>(a: Seq<A>, b: Seq<B>, ks: Seq<Seq<char>>, i: int)
    requires
        ks.to_set() == (keys_of(a) + keys_of(b)).to_set(),
        0 <= i < ks.len(),
    ensures
        last_with_key(a, ks[i]) is Some || last_with_key(b, ks[i]) is Some,
        last_with_key(a, ks[i]) matches Some(x) ==> x.key_view() == ks[i],
        last_with_key(b, ks[i]) matches Some(x) ==> x.key_view() == ks[i],
{
    let k = ks[i];
    assert(ks.to_set().contains(k));
    let both = keys_of(a) + keys_of(b);
    assert(both.to_set().contains(k));
    let j = choose|j: int| 0 <= j < both.len() && both[j] == k;
    if j < keys_of(a).len() {
        assert(keys_of(a)[j] == k);
    } else {
        assert(keys_of(b)[j - keys_of(a).len()] == k);
    }
    lemma_last_with_key(a, k);
    lemma_last_with_key(b, k);
}


/// The first element of `s` whose key is `k`, if any.
pub open spec fn first_with_key<T: Keyed>(s: Seq<T>, k: Seq<char>) -> Option<T>
    decreases s.len(),
{
    if s.len() == 0 {
        None
    } else if s[0].key_view() == k {
        Some(s[0])
    } else {
        first_with_key(s.drop_first(), k)
    }
}

proof fn lemma_first_with_key_skip<T: Keyed>(s: Seq<T>, k: Seq<char>, i: int)
    requires
        0 <= i <= s.len(),
        forall|j: int| 0 <= j < i ==> (#[trigger] s[j]).key_view() != k,
    ensures
        first_with_key(s, k) == first_with_key(s.skip(i), k),
    decreases i,
{
    if i > 0 {
        lemma_first_with_key_skip(s.drop_first(), k, i - 1);
        assert(s.drop_first().skip(i - 1) =~= s.skip(i));
    } else {
        assert(s.skip(0) =~= s);
    }
}

/// Index of the first element of `s` whose key is `k`.
pub fn find_first_index<T: Keyed>(s: &[T], k: &str) -> (r: Option<usize>)
    ensures
        r is None ==> first_with_key(s@, k@) is None,
        r matches Some(i) ==> i < s@.len() && first_with_key(s@, k@) == Some(s@[i as int]),
{
    let mut i: usize = 0;
    while i < s.len()
        invariant
            i <= s@.len(),
            forall|j: int| 0 <= j < i ==> (#[trigger] s@[j]).key_view() != k@,
        decreases s@.len() - i,
    {
        if crate::text::str_eq(s[i].key().as_str(), k) {
            proof {
                lemma_first_with_key_skip(s@, k@, i as int);
            }
            return Some(i);
        }
        i = i + 1;
    }
    proof {
        lemma_first_with_key_skip(s@, k@, i as int);
    }
    None
}

/// A lookup by key finds an element carrying that key, the first one in
/// the list; it finds none only when no element carries it.
pub proof fn law_first_with_key<T: Keyed>(s: Seq<T>, k: Seq<char>)
    ensures
        match first_with_key(s, k) {
            Some(x) => x.key_view() == k && exists|i: int|
                0 <= i < s.len() && s[i] == x && forall|j: int| 0 <= j < i ==> (#[trigger] s[j]).key_view() != k,
            None => forall|j: int| 0 <= j < s.len() ==> (#[trigger] s[j]).key_view() != k,
        },
    decreases s.len(),
{
    if s.len() > 0 {
        let t = s.drop_first();
        law_first_with_key(t, k);
        if s[0].key_view() != k {
            match first_with_key(t, k) {
                Some(x) => {
                    let i = choose|i: int|
                        0 <= i < t.len() && t[i] == x && forall|j: int| 0 <= j < i ==> (#[trigger] t[j]).key_view() != k;
                    assert(s[i + 1] == x);
                    assert forall|j: int| 0 <= j < i + 1 implies (#[trigger] s[j]).key_view() != k by {
                        if j > 0 {
                            assert(s[j] == t[j - 1]);
                        }
                    }
                },
                None => {
                    assert forall|j: int| 0 <= j < s.len() implies (#[trigger] s[j]).key_view() != k by {
                        if j > 0 {
                            assert(s[j] == t[j - 1]);
                        }
                    }
                },
            }
        }
    }
}

/// A "last entry wins" lookup finds an element carrying the key and no
/// later element carries it; it finds none only when no element does.
pub proof fn law_last_with_key<T: Keyed>(s: Seq<T>, k: Seq<char>)
    ensures
        match last_with_key(s, k) {
            Some(x) => x.key_view() == k && exists|i: int|
                0 <= i < s.len() && s[i] == x && forall|j: int|
                    i < j < s.len() ==> (#[trigger] s[j]).key_view() != k,
            None => forall|j: int| 0 <= j < s.len() ==> (#[trigger] s[j]).key_view() != k,
        },
    decreases s.len(),
{
    if s.len() > 0 {
        let t = s.drop_last();
        law_last_with_key(t, k);
        if s.last().key_view() == k {
            assert(s[s.len() - 1] == s.last());
        } else {
            match last_with_key(t, k) {
                Some(x) => {
                    let i = choose|i: int|
                        0 <= i < t.len() && t[i] == x && forall|j: int|
                            i < j < t.len() ==> (#[trigger] t[j]).key_view() != k;
                    assert(s[i] == x);
                    assert forall|j: int| i < j < s.len() implies (#[trigger] s[j]).key_view() != k by {
                        if j < s.len() - 1 {
                            assert(s[j] == t[j]);
                        }
                    }
                },
                None => {
                    assert forall|j: int| 0 <= j < s.len() implies (#[trigger] s[j]).key_view() != k by {
                        if j < s.len() - 1 {
                            assert(s[j] == t[j]);
                        }
                    }
                },
            }
        }
    }
}

} // verus!
