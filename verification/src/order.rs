//! A verified sort over an arbitrary total preorder.
use vstd::prelude::*;
use vstd::multiset::Multiset;

verus! {

broadcast use vstd::seq_lib::group_to_multiset_ensures;

/// Every earlier element is `leq` every later one.
pub open spec fn sorted_by<T>(s: Seq<T>, leq: spec_fn(T, T) -> bool) -> bool {
    forall|i: int, j: int| 0 <= i < j < s.len() ==> leq(s[i], s[j])
}

/// `leq` is total and transitive.
pub open spec fn total_preorder<T>(leq: spec_fn(T, T) -> bool) -> bool {
    &&& forall|a: T, b: T| #[trigger] leq(a, b) || leq(b, a)
    &&& forall|a: T, b: T, c: T| #[trigger] leq(a, b) && #[trigger] leq(b, c) ==> leq(a, c)
}

/// Returns the elements of `v` ordered by `leq` (selection of the first
/// minimum, so equal elements keep their relative order).
pub fn sort_by<T, F: Fn(&T, &T) -> bool>(v: Vec<T>, le: &F, Ghost(leq): Ghost<spec_fn(T, T) -> bool>) -> (r: Vec<T>)
    requires
        total_preorder(leq),
        forall|a: &T, b: &T| #[trigger] le.requires((a, b)),
        forall|a: &T, b: &T, x: bool| le.ensures((a, b), x) ==> x == leq(*a, *b),
    ensures
        r@.to_multiset() == v@.to_multiset(),
        r@.len() == v@.len(),
        sorted_by(r@, leq),
{
    let mut rest = v;
    let mut out: Vec<T> = Vec::new();
    let ghost orig = rest@;
    while rest.len() > 0
        invariant
            total_preorder(leq),
            forall|a: &T, b: &T| #[trigger] le.requires((a, b)),
            forall|a: &T, b: &T, x: bool| le.ensures((a, b), x) ==> x == leq(*a, *b),
            out@.to_multiset().add(rest@.to_multiset()) == orig.to_multiset(),
            out@.len() + rest@.len() == orig.len(),
            sorted_by(out@, leq),
            forall|i: int, j: int| 0 <= i < out@.len() && 0 <= j < rest@.len() ==> leq(out@[i], rest@[j]),
        decreases rest@.len(),
    {
        let mut m: usize = 0;
        let mut k: usize = 1;
        while k < rest.len()
            invariant
                total_preorder(leq),
                forall|a: &T, b: &T| #[trigger] le.requires((a, b)),
                forall|a: &T, b: &T, x: bool| le.ensures((a, b), x) ==> x == leq(*a, *b),
                0 <= m < k <= rest@.len(),
                forall|j: int| 0 <= j < k ==> leq(rest@[m as int], rest@[j]),
            decreases rest@.len() - k,
        {
            let smaller = le(&rest[k], &rest[m]);
            if smaller && !le(&rest[m], &rest[k]) {
                proof {
                    assert forall|j: int| 0 <= j < k + 1 implies leq(rest@[k as int], rest@[j]) by {
                        if j < k {
                            assert(leq(rest@[m as int], rest@[j]));
                        }
                        assert(leq(rest@[k as int], rest@[k as int]) || leq(rest@[k as int], rest@[k as int]));
                    }
                }
                m = k;
            } else {
                proof {
                    if !smaller {
                        assert(leq(rest@[k as int], rest@[m as int]) || leq(rest@[m as int], rest@[k as int]));
                    }
                }
            }
            k += 1;
        }
        let ghost before_rest = rest@;
        let ghost before_out = out@;
        let x = rest.remove(m);
        proof {
            assert(rest@ =~= before_rest.remove(m as int));
            assert(leq(before_rest[m as int], before_rest[m as int]) || leq(before_rest[m as int], before_rest[m as int]));
        }
        out.push(x);
        proof {
            assert(out@ =~= before_out.push(x));
            assert(out@.to_multiset() =~= before_out.to_multiset().insert(x));
            assert(rest@.to_multiset() =~= before_rest.to_multiset().remove(before_rest[m as int]));
            assert(before_rest.to_multiset().count(x) > 0) by {
                assert(before_rest.contains(x));
            }
            assert(out@.to_multiset().add(rest@.to_multiset()) =~= orig.to_multiset());
            assert forall|i: int, j: int| 0 <= i < j < out@.len() implies leq(out@[i], out@[j]) by {
                if j == out@.len() - 1 {
                    assert(leq(before_out[i], before_rest[m as int]));
                }
            }
            assert forall|i: int, j: int| 0 <= i < out@.len() && 0 <= j < rest@.len() implies leq(out@[i], rest@[j]) by {
                let jj = if j < m { j } else { j + 1 };
                assert(rest@[j] == before_rest[jj]);
                if i < before_out.len() {
                    assert(leq(before_out[i], before_rest[jj]));
                } else {
                    assert(leq(before_rest[m as int], before_rest[jj]));
                }
            }
        }
    }
    proof {
        assert(rest@.to_multiset() =~= Multiset::empty());
        assert(out@.to_multiset().add(Multiset::empty()) =~= out@.to_multiset());
    }
    out
}

} // verus!
