//! Sets of texts kept in ascending order without repeats, in the order of
//! `str` (the order of a `BTreeMap<String, _>` or of a sorted, deduplicated
//! `Vec<String>`).
use vstd::prelude::*;
use crate::text::{compare_text, lemma_text_lt_order, text_equals, text_lt, LexOrder};

verus! {

/// The texts of a sequence of strings.
pub open spec fn texts(v: Seq<String>) -> Seq<Seq<char>> {
    v.map_values(|s: String| s@)
}

/// Every text comes strictly before the ones after it.
pub open spec fn strictly_ascending(s: Seq<Seq<char>>) -> bool {
    forall|i: int, j: int| 0 <= i < j < s.len() ==> text_lt(#[trigger] s[i], #[trigger] s[j])
}

/// Whether some string of `v` has the text of `x`.
pub fn contains_text_of(v: &Vec<String>, x: &String) -> (res: bool)
    ensures
        res == texts(v@).contains(x@),
{
    let mut i: usize = 0;
    while i < v.len()
        invariant
            i <= v.len(),
            forall|k: int| 0 <= k < i ==> v@[k]@ != x@,
        decreases v.len() - i,
    {
        if text_equals(v[i].as_str(), x.as_str()) {
            assert(texts(v@)[i as int] == x@);
            return true;
        }
        i = i + 1;
    }
    assert forall|k: int| 0 <= k < texts(v@).len() implies texts(v@)[k] != x@ by {
        assert(texts(v@)[k] == v@[k]@);
    }
    false
}

/// Adds `x` to an ascending set of texts: nothing changes if its text is
/// already there, otherwise it is inserted where the order puts it.
pub fn insert_ascending(v: &mut Vec<String>, x: String)
    requires
        strictly_ascending(texts(old(v)@)),
    ensures
        strictly_ascending(texts(final(v)@)),
        forall|t: Seq<char>|
            texts(final(v)@).contains(t) <==> (texts(old(v)@).contains(t) || t == x@),
{
    let ghost old_texts = texts(v@);
    let mut i: usize = 0;
    while i < v.len()
        invariant
            i <= v.len(),
            texts(v@) == old_texts,
            strictly_ascending(old_texts),
            forall|k: int| 0 <= k < i ==> text_lt(#[trigger] old_texts[k], x@),
        ensures
            i <= v.len(),
            texts(v@) == old_texts,
            forall|k: int| 0 <= k < i ==> text_lt(#[trigger] old_texts[k], x@),
            i < v.len() ==> text_lt(x@, old_texts[i as int]),
        decreases v.len() - i,
    {
        match compare_text(v[i].as_str(), x.as_str()) {
            LexOrder::Less => {
                assert(old_texts[i as int] == v@[i as int]@);
                i = i + 1;
            },
            LexOrder::Equal => {
                assert(old_texts[i as int] == v@[i as int]@);
                assert(old_texts.contains(x@));
                return ;
            },
            LexOrder::Greater => {
                assert(old_texts[i as int] == v@[i as int]@);
                break ;
            },
        }
    }
    let ghost xv = x@;
    v.insert(i, x);
    proof {
        let nt = texts(v@);
        assert(nt =~= old_texts.insert(i as int, xv));
        assert forall|a: int, b: int| 0 <= a < b < nt.len() implies text_lt(
            #[trigger] nt[a],
            #[trigger] nt[b],
        ) by {
            if b < i {
            } else if a < i && b == i {
            } else if a < i && b > i {
                lemma_text_lt_order(old_texts[a], xv, old_texts[b - 1]);
                if i < old_texts.len() {
                    lemma_text_lt_order(xv, old_texts[i as int], old_texts[b - 1]);
                    if b - 1 > i {
                        assert(text_lt(old_texts[i as int], old_texts[b - 1]));
                    }
                }
            } else if a == i {
                assert(i < old_texts.len());
                if b - 1 > i {
                    assert(text_lt(old_texts[i as int], old_texts[b - 1]));
                    lemma_text_lt_order(xv, old_texts[i as int], old_texts[b - 1]);
                }
            } else {
                assert(text_lt(old_texts[a - 1], old_texts[b - 1]));
            }
        }
        assert forall|t: Seq<char>| nt.contains(t) <==> (old_texts.contains(t) || t == xv) by {
            if nt.contains(t) {
                let k = choose|k: int| 0 <= k < nt.len() && nt[k] == t;
                if k < i {
                    assert(old_texts[k] == t);
                } else if k > i {
                    assert(old_texts[k - 1] == t);
                }
            }
            if old_texts.contains(t) {
                let k = choose|k: int| 0 <= k < old_texts.len() && old_texts[k] == t;
                if k < i {
                    assert(nt[k] == t);
                } else {
                    assert(nt[k + 1] == t);
                }
            }
            if t == xv {
                assert(nt[i as int] == t);
            }
        }
    }
}

/// Two strictly ascending sequences with the same members are the same
/// sequence.
pub proof fn lemma_ascending_determined_by_members(s1: Seq<Seq<char>>, s2: Seq<Seq<char>>)
    requires
        strictly_ascending(s1),
        strictly_ascending(s2),
        forall|t: Seq<char>| s1.contains(t) <==> s2.contains(t),
    ensures
        s1 == s2,
    decreases s1.len(),
{
    if s1.len() == 0 {
        if s2.len() > 0 {
            assert(s2.contains(s2[0]));
        }
        assert(s1 =~= s2);
    } else {
        assert(s1.contains(s1[0]));
        let j = choose|j: int| 0 <= j < s2.len() && s2[j] == s1[0];
        assert(s2.contains(s2[0]));
        let k = choose|k: int| 0 <= k < s1.len() && s1[k] == s2[0];
        if j > 0 {
            assert(text_lt(s2[0], s2[j]));
            if k > 0 {
                assert(text_lt(s1[0], s1[k]));
                lemma_text_lt_order(s1[0], s2[0], s1[0]);
            } else {
                lemma_text_lt_order(s1[0], s1[0], s1[0]);
            }
        }
        assert(s2[0] == s1[0]);
        let r1 = s1.drop_first();
        let r2 = s2.drop_first();
        assert forall|a: int, b: int| 0 <= a < b < r1.len() implies text_lt(
            #[trigger] r1[a],
            #[trigger] r1[b],
        ) by {
            assert(text_lt(s1[a + 1], s1[b + 1]));
        }
        assert forall|a: int, b: int| 0 <= a < b < r2.len() implies text_lt(
            #[trigger] r2[a],
            #[trigger] r2[b],
        ) by {
            assert(text_lt(s2[a + 1], s2[b + 1]));
        }
        assert forall|t: Seq<char>| r1.contains(t) <==> r2.contains(t) by {
            if r1.contains(t) {
                let a = choose|a: int| 0 <= a < r1.len() && r1[a] == t;
                assert(s1[a + 1] == t);
                assert(text_lt(s1[0], s1[a + 1]));
                lemma_text_lt_order(t, t, t);
                assert(s2.contains(t));
                let b = choose|b: int| 0 <= b < s2.len() && s2[b] == t;
                assert(b != 0);
                assert(r2[b - 1] == t);
            }
            if r2.contains(t) {
                let a = choose|a: int| 0 <= a < r2.len() && r2[a] == t;
                assert(s2[a + 1] == t);
                assert(text_lt(s2[0], s2[a + 1]));
                lemma_text_lt_order(t, t, t);
                assert(s1.contains(t));
                let b = choose|b: int| 0 <= b < s1.len() && s1[b] == t;
                assert(b != 0);
                assert(r1[b - 1] == t);
            }
        }
        lemma_ascending_determined_by_members(r1, r2);
        assert(s1 =~= seq![s1[0]] + r1);
        assert(s2 =~= seq![s2[0]] + r2);
    }
}

} // verus!
