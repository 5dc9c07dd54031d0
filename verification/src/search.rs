//! Finding a string among strings.

use vstd::prelude::*;
use crate::rows::strings;
use crate::text::str_eq;

verus! {

/// The first index at which `x` occurs in `s`, if any.
pub open spec fn position_of<A>(s: Seq<A>, x: A) -> Option<int>
    decreases s.len(),
{
    if s.len() == 0 {
        None
    } else {
        match position_of(s.drop_last(), x) {
            Some(i) => Some(i),
            None => if s.last() == x {
                Some(s.len() - 1)
            } else {
                None
            },
        }
    }
}

/// `position_of` finds the first occurrence, and finds one exactly when
/// there is one.
pub proof fn lemma_position_of<A>(s: Seq<A>, x: A)
    ensures
        match position_of(s, x) {
            Some(i) => 0 <= i < s.len() && s[i] == x && forall|j: int| 0 <= j < i ==> s[j] != x,
            None => !s.contains(x),
        },
    decreases s.len(),
{
    if s.len() > 0 {
        let p = s.drop_last();
        lemma_position_of(p, x);
        match position_of(p, x) {
            Some(i) => {
                assert(s[i] == p[i]);
                assert forall|j: int| 0 <= j < i implies s[j] != x by {
                    assert(s[j] == p[j]);
                }
            },
            None => {
                assert forall|j: int| 0 <= j < s.len() - 1 implies s[j] != x by {
                    assert(s[j] == p[j]);
                    if p[j] == x {
                        assert(p.contains(x));
                    }
                }
                if s.last() != x {
                    assert forall|j: int| 0 <= j < s.len() implies s[j] != x by {}
                }
            },
        }
    }
}

/// A first occurrence in a prefix is the first occurrence in the whole.
pub proof fn lemma_position_of_prefix<A>(s: Seq<A>, i: int, x: A)
    requires
        0 <= i <= s.len(),
        position_of(s.take(i), x) is Some,
    ensures
        position_of(s, x) == position_of(s.take(i), x),
    decreases s.len() - i,
{
    if i < s.len() {
        assert(s.take(i + 1).drop_last() == s.take(i));
        lemma_position_of_prefix(s, i + 1, x);
    } else {
        assert(s.take(i) == s);
    }
}

/// An optional index, as an integer.
pub open spec fn opt_index(o: Option<usize>) -> Option<int> {
    match o {
        Some(i) => Some(i as int),
        None => None,
    }
}

/// The first index at which `x` occurs in `v`, if any.
pub fn position_in(v: &Vec<String>, x: &str) -> (r: Option<usize>)
    ensures
        opt_index(r) == position_of(strings(v@), x@),
{
    let ghost s = strings(v@);
    let mut i: usize = 0;
    assert(s.take(0) =~= Seq::<Seq<char>>::empty());
    while i < v.len()
        invariant
            s == strings(v@),
            i <= v@.len(),
            position_of(s.take(i as int), x@) is None,
        decreases v@.len() - i,
    {
        assert(s.take(i + 1).drop_last() == s.take(i as int));
        assert(s.take(i + 1).last() == v@[i as int]@);
        if str_eq(v[i].as_str(), x) {
            proof {
                lemma_position_of_prefix(s, i + 1, x@);
            }
            return Some(i);
        }
        i = i + 1;
    }
    assert(s.take(v@.len() as int) == s);
    None
}

} // verus!
