//! Small maps keyed by text, held as lists of pairs.

use vstd::prelude::*;
use vstd::string::*;
use crate::token::str_eq;

verus! {

/// No key occurs twice.
pub open spec fn unique_keys<V>(s: Seq<(String, V)>) -> bool {
    forall|i: int, j: int|
        0 <= i < s.len() && 0 <= j < s.len() && i != j ==> #[trigger] s[i].0@ != #[trigger] s[j].0@
}

/// The map that a list of pairs stands for, a later pair replacing an earlier
/// one with the same key.
pub open spec fn assoc_map<V>(s: Seq<(String, V)>) -> Map<Seq<char>, V>
    decreases s.len(),
{
    if s.len() == 0 {
        Map::empty()
    } else {
        assoc_map(s.drop_last()).insert(s.last().0@, s.last().1)
    }
}

/// The keys of the map are those of the list.
pub proof fn lemma_assoc_dom<V>(s: Seq<(String, V)>)
    ensures
        forall|k: Seq<char>| #[trigger]
            assoc_map(s).dom().contains(k) ==> exists|i: int|
                0 <= i < s.len() && #[trigger] s[i].0@ == k,
        forall|i: int| 0 <= i < s.len() ==> assoc_map(s).dom().contains(#[trigger] s[i].0@),
    decreases s.len(),
{
    if s.len() > 0 {
        let t = s.drop_last();
        lemma_assoc_dom(t);
        assert forall|k: Seq<char>| #[trigger] assoc_map(s).dom().contains(k) implies exists|i: int|
            0 <= i < s.len() && #[trigger] s[i].0@ == k by {
            if k == s.last().0@ {
                assert(s[s.len() - 1].0@ == k);
            } else {
                assert(assoc_map(t).dom().contains(k));
                let i = choose|i: int| 0 <= i < t.len() && #[trigger] t[i].0@ == k;
                assert(s[i].0@ == k);
            }
        }
        assert forall|i: int| 0 <= i < s.len() implies assoc_map(s).dom().contains(
            #[trigger] s[i].0@,
        ) by {
            if i < t.len() {
                assert(t[i] == s[i]);
            }
        }
    }
}

/// Where no key occurs twice, each pair's value is the one its key maps to.
pub proof fn lemma_assoc_value<V>(s: Seq<(String, V)>)
    requires
        unique_keys(s),
    ensures
        forall|i: int| 0 <= i < s.len() ==> assoc_map(s)[#[trigger] s[i].0@] == s[i].1,
    decreases s.len(),
{
    if s.len() > 0 {
        let t = s.drop_last();
        assert(unique_keys(t)) by {
            assert forall|i: int, j: int|
                0 <= i < t.len() && 0 <= j < t.len() && i != j implies #[trigger] t[i].0@
                != #[trigger] t[j].0@ by {
                assert(s[i].0@ != s[j].0@);
            }
        }
        lemma_assoc_value(t);
        assert forall|i: int| 0 <= i < s.len() implies assoc_map(s)[#[trigger] s[i].0@]
            == s[i].1 by {
            if i < t.len() {
                assert(t[i] == s[i]);
                assert(s[i].0@ != s[s.len() - 1].0@);
            }
        }
    }
}

/// A list without repeated keys stands for `m` where its pairs are those of `m`.
proof fn lemma_assoc_is<V>(s: Seq<(String, V)>, m: Map<Seq<char>, V>)
    requires
        unique_keys(s),
        forall|i: int|
            0 <= i < s.len() ==> m.dom().contains(#[trigger] s[i].0@) && m[s[i].0@] == s[i].1,
        forall|k: Seq<char>| #[trigger]
            m.dom().contains(k) ==> exists|i: int| 0 <= i < s.len() && #[trigger] s[i].0@ == k,
    ensures
        assoc_map(s) == m,
{
    lemma_assoc_dom(s);
    lemma_assoc_value(s);
    assert forall|k: Seq<char>| assoc_map(s).dom().contains(k) <==> #[trigger] m.dom().contains(
        k,
    ) by {}
    assert forall|k: Seq<char>| #[trigger] m.dom().contains(k) implies assoc_map(s)[k] == m[k] by {
        let i = choose|i: int| 0 <= i < s.len() && #[trigger] s[i].0@ == k;
        assert(s[i].0@ == k);
    }
    assert(assoc_map(s) =~= m);
}

/// Where a key stands.
pub fn assoc_find<V>(v: &Vec<(String, V)>, key: &str) -> (r: Option<usize>)
    requires
        unique_keys(v@),
    ensures
        match r {
            Some(i) => {
                &&& i < v@.len()
                &&& v@[i as int].0@ == key@
                &&& assoc_map(v@).dom().contains(key@)
                &&& assoc_map(v@)[key@] == v@[i as int].1
            },
            None => !assoc_map(v@).dom().contains(key@),
        },
{
    proof {
        lemma_assoc_dom(v@);
        lemma_assoc_value(v@);
    }
    let mut i: usize = 0;
    while i < v.len()
        invariant
            0 <= i <= v@.len(),
            forall|j: int| 0 <= j < i ==> #[trigger] v@[j].0@ != key@,
            forall|k: Seq<char>| #[trigger]
                assoc_map(v@).dom().contains(k) ==> exists|i: int|
                    0 <= i < v@.len() && #[trigger] v@[i].0@ == k,
            forall|i: int| 0 <= i < v@.len() ==> assoc_map(v@).dom().contains(#[trigger] v@[i].0@),
            forall|i: int| 0 <= i < v@.len() ==> assoc_map(v@)[#[trigger] v@[i].0@] == v@[i].1,
        decreases v@.len() - i,
    {
        if str_eq(v[i].0.as_str(), key) {
            return Some(i);
        }
        i = i + 1;
    }
    None
}

/// Takes a key and its value out.
pub fn assoc_take<V>(v: &mut Vec<(String, V)>, key: &str) -> (r: Option<V>)
    requires
        unique_keys(old(v)@),
    ensures
        unique_keys(final(v)@),
        assoc_map(final(v)@) == assoc_map(old(v)@).remove(key@),
        forall|i: int|
            0 <= i < final(v)@.len() ==> exists|j: int|
                0 <= j < old(v)@.len() && #[trigger] final(v)@[i] == old(v)@[j],
        match r {
            Some(x) => {
                &&& assoc_map(old(v)@).dom().contains(key@)
                &&& assoc_map(old(v)@)[key@] == x
                &&& exists|j: int| 0 <= j < old(v)@.len() && #[trigger] old(v)@[j].1 == x
            },
            None => !assoc_map(old(v)@).dom().contains(key@) && final(v)@ == old(v)@,
        },
{
    match assoc_find(v, key) {
        None => {
            proof {
                assert(assoc_map(v@).remove(key@) =~= assoc_map(v@));
                assert forall|i: int| 0 <= i < v@.len() implies exists|j: int|
                    0 <= j < old(v)@.len() && #[trigger] v@[i] == old(v)@[j] by {
                    assert(v@[i] == old(v)@[i]);
                }
            }
            None
        },
        Some(k) => {
            let pair = v.remove(k);
            proof {
                let a = old(v)@;
                let b = v@;
                assert(b =~= a.remove(k as int));
                assert forall|i: int| 0 <= i < b.len() implies exists|j: int|
                    0 <= j < a.len() && #[trigger] b[i] == a[j] by {
                    if i < k {
                        assert(b[i] == a[i]);
                    } else {
                        assert(b[i] == a[i + 1]);
                    }
                }
                assert forall|i: int, j: int|
                    0 <= i < b.len() && 0 <= j < b.len() && i != j implies #[trigger] b[i].0@
                    != #[trigger] b[j].0@ by {
                    let x = if i < k { i } else { i + 1 };
                    let y = if j < k { j } else { j + 1 };
                    assert(b[i] == a[x] && b[j] == a[y]);
                }
                lemma_assoc_dom(a);
                lemma_assoc_value(a);
                let m = assoc_map(a).remove(key@);
                assert forall|i: int| 0 <= i < b.len() implies m.dom().contains(
                    #[trigger] b[i].0@,
                ) && m[b[i].0@] == b[i].1 by {
                    let x = if i < k { i } else { i + 1 };
                    assert(b[i] == a[x]);
                    assert(a[x].0@ != a[k as int].0@);
                }
                assert forall|q: Seq<char>| #[trigger] m.dom().contains(q) implies exists|i: int|
                    0 <= i < b.len() && #[trigger] b[i].0@ == q by {
                    assert(assoc_map(a).dom().contains(q));
                    let x = choose|x: int| 0 <= x < a.len() && #[trigger] a[x].0@ == q;
                    assert(x != k);
                    let i = if x < k { x } else { x - 1 };
                    assert(b[i] == a[x]);
                }
                lemma_assoc_is(b, m);
                assert(a[k as int].1 == pair.1);
            }
            Some(pair.1)
        },
    }
}

/// Adds a key that is not there yet.
pub fn assoc_add<V>(v: &mut Vec<(String, V)>, key: &str, value: V)
    requires
        unique_keys(old(v)@),
        !assoc_map(old(v)@).dom().contains(key@),
    ensures
        unique_keys(final(v)@),
        assoc_map(final(v)@) == assoc_map(old(v)@).insert(key@, value),
        final(v)@.len() == old(v)@.len() + 1,
        final(v)@.drop_last() == old(v)@,
        final(v)@.last().1 == value,
{
    let k = key.to_owned();
    proof {
        lemma_assoc_dom(v@);
    }
    v.push((k, value));
    proof {
        let a = old(v)@;
        let b = v@;
        assert(b.drop_last() =~= a);
        assert forall|i: int, j: int|
            0 <= i < b.len() && 0 <= j < b.len() && i != j implies #[trigger] b[i].0@
            != #[trigger] b[j].0@ by {
            if i < a.len() {
                assert(b[i] == a[i]);
            }
            if j < a.len() {
                assert(b[j] == a[j]);
            }
        }
    }
}

/// Gives a key a value, whatever it had.
pub fn assoc_put<V>(v: &mut Vec<(String, V)>, key: &str, value: V)
    requires
        unique_keys(old(v)@),
    ensures
        unique_keys(final(v)@),
        assoc_map(final(v)@) == assoc_map(old(v)@).insert(key@, value),
        forall|i: int|
            0 <= i < final(v)@.len() ==> (#[trigger] final(v)@[i]).1 == value || exists|j: int|
                0 <= j < old(v)@.len() && final(v)@[i] == #[trigger] old(v)@[j],
{
    assoc_take(v, key);
    let ghost mid = v@;
    assoc_add(v, key, value);
    proof {
        assert(assoc_map(v@) =~= assoc_map(old(v)@).insert(key@, value));
        assert forall|i: int| 0 <= i < v@.len() implies (#[trigger] v@[i]).1 == value || exists|
            j: int,
        |
            0 <= j < old(v)@.len() && v@[i] == #[trigger] old(v)@[j] by {
            if i < mid.len() {
                assert(v@[i] == v@.drop_last()[i]);
                assert(v@[i] == mid[i]);
            }
        }
    }
}

} // verus!
