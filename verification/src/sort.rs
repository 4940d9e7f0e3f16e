//! Sorting by a strict order, proved to give a sorted permutation.
use vstd::prelude::*;
use vstd::multiset::Multiset;

verus! {

broadcast use vstd::seq_lib::group_to_multiset_ensures;

/// A strict order on values, with the facts that sorting needs.
pub trait Ordered: Sized {
    /// `a` comes strictly before `b`.
    spec fn before(a: Self, b: Self) -> bool;

    /// Nothing comes before itself.
    proof fn lemma_before_irreflexive(a: Self)
        ensures
            !Self::before(a, a),
    ;

    /// "Before" is transitive.
    proof fn lemma_before_transitive(a: Self, b: Self, c: Self)
        requires
            Self::before(a, b),
            Self::before(b, c),
        ensures
            Self::before(a, c),
    ;

    /// Whether `self` comes before `other`.
    fn is_before(&self, other: &Self) -> (r: bool)
        ensures
            r == Self::before(*self, *other),
    ;
}

/// No element comes after a later one.
pub open spec fn is_sorted<T: Ordered>(s: Seq<T>) -> bool {
    forall|i: int, j: int| 0 <= i < j < s.len() ==> !T::before(#[trigger] s[j], #[trigger] s[i])
}

/// The elements of `v`, sorted (an insertion sort).
pub fn sort_by_order<T: Ordered>(v: Vec<T>) -> (r: Vec<T>)
    ensures
        is_sorted(r@),
        r@.to_multiset() == v@.to_multiset(),
{
    let mut input = v;
    let ghost orig = input@;
    let mut out: Vec<T> = Vec::new();
    assert(orig.skip(0) =~= orig);
    assert(orig.take(0).to_multiset() =~= Multiset::<T>::empty());
    assert(out@.to_multiset() =~= Multiset::<T>::empty());
    while input.len() > 0
        invariant
            is_sorted(out@),
            input@ == orig.skip(orig.len() - input@.len()),
            out@.to_multiset() == orig.take(orig.len() - input@.len()).to_multiset(),
            input@.len() <= orig.len(),
        decreases input@.len(),
    {
        let ghost k = orig.len() - input@.len();
        let x = input.remove(0);
        assert(input@ =~= orig.skip(k + 1));
        assert(orig.take(k + 1) =~= orig.take(k).push(x));
        let mut p: usize = 0;
        while p < out.len() && !x.is_before(&out[p])
            invariant
                p <= out@.len(),
                forall|i: int| 0 <= i < p ==> !T::before(x, #[trigger] out@[i]),
            decreases out@.len() - p,
        {
            p += 1;
        }
        let ghost before_insert = out@;
        out.insert(p, x);
        proof {
            assert(out@.remove(p as int) =~= before_insert);
            assert(out@[p as int] == x);
            assert(out@.to_multiset().remove(x) == before_insert.to_multiset());
            assert(out@.to_multiset().count(x) > 0) by {
                assert(out@.contains(x));
            }
            assert(out@.to_multiset() =~= before_insert.to_multiset().insert(x));
            assert forall|i: int, j: int|
                0 <= i < j < out@.len() implies !T::before(
                #[trigger] out@[j],
                #[trigger] out@[i],
            ) by {
                if j < p {
                    assert(out@[i] == before_insert[i] && out@[j] == before_insert[j]);
                } else if j == p {
                    assert(out@[i] == before_insert[i]);
                } else if i == p {
                    assert(out@[j] == before_insert[j - 1]);
                    if T::before(out@[j], x) {
                        if p < before_insert.len() {
                            assert(T::before(x, before_insert[p as int]));
                            T::lemma_before_transitive(out@[j], x, before_insert[p as int]);
                            if j - 1 == p {
                                T::lemma_before_irreflexive(before_insert[p as int]);
                            }
                        }
                    }
                } else if i < p {
                    assert(out@[i] == before_insert[i] && out@[j] == before_insert[j - 1]);
                } else {
                    assert(out@[i] == before_insert[i - 1] && out@[j] == before_insert[j - 1]);
                }
            }
        }
    }
    assert(orig.take(orig.len() as int) =~= orig);
    out
}

/// Sequences with the same elements keep the same elements after a map.
pub proof fn lemma_map_same_multiset<A, B>(s1: Seq<A>, s2: Seq<A>, f: spec_fn(A) -> B)
    requires
        s1.to_multiset() == s2.to_multiset(),
    ensures
        s1.map_values(f).to_multiset() == s2.map_values(f).to_multiset(),
    decreases s1.len(),
{
    if s1.len() == 0 {
        assert(s1.to_multiset().len() == 0);
        assert(s2.to_multiset().len() == 0);
        assert(s2.len() == 0);
        assert(s1.map_values(f) =~= s2.map_values(f));
    } else {
        let x = s1.last();
        let a = s1.drop_last();
        assert(s1 =~= a.push(x));
        assert(s1.to_multiset().count(x) > 0) by {
            assert(s1.contains(x));
        }
        assert(s2.contains(x));
        let j = choose|j: int| 0 <= j < s2.len() && s2[j] == x;
        let b = s2.remove(j);
        assert(a.to_multiset() =~= b.to_multiset()) by {
            assert(s2.remove(j).to_multiset() == s2.to_multiset().remove(s2[j]));
            assert(a.push(x).to_multiset() == a.to_multiset().insert(x));
        }
        lemma_map_same_multiset(a, b, f);
        assert(s1.map_values(f) =~= a.map_values(f).push(f(x)));
        assert(s2.map_values(f).remove(j) =~= b.map_values(f));
        assert(s2.map_values(f).to_multiset().remove(f(x)) == b.map_values(f).to_multiset()) by {
            assert(s2.map_values(f)[j] == f(x));
        }
        assert(s2.map_values(f).to_multiset().count(f(x)) > 0) by {
            assert(s2.map_values(f).contains(f(x))) by {
                assert(s2.map_values(f)[j] == f(x));
            }
        }
        assert(s2.map_values(f).to_multiset() =~= b.map_values(f).to_multiset().insert(f(x)));
    }
}

} // verus!
