//! In-place filtering of a vector by a caller-supplied predicate.

use vstd::prelude::*;

verus! {

/// The subsequence of `s` selected by the decision sequence `keep`: element
/// `i` of `s` survives exactly when `keep[i]` is true, and the survivors
/// appear in their original order.
pub open spec fn keep_filter<T>(s: Seq<T>, keep: Seq<bool>) -> Seq<T>
    decreases s.len(),
{
    if s.len() == 0 {
        Seq::empty()
    } else {
        let rest = keep_filter(s.drop_last(), keep.drop_last());
        if keep.last() {
            rest.push(s.last())
        } else {
            rest
        }
    }
}

/// Keeps exactly the elements of `v` on which `f` returns true, in their
/// original order, dropping the rest.
///
/// The postcondition exhibits the sequence of decisions that `f` made: each
/// decision is a possible result of `f` on the corresponding original
/// element, and the final vector is the subsequence those decisions select.
pub fn retain_mut<T, F: Fn(&T) -> bool>(v: &mut Vec<T>, f: F)
    requires
        forall|i: int| 0 <= i < old(v)@.len() ==> call_requires(f, (&old(v)@[i],)),
    ensures
        exists|keep: Seq<bool>|
            {
                &&& keep.len() == old(v)@.len()
                &&& final(v)@ == #[trigger] keep_filter(old(v)@, keep)
                &&& forall|i: int|
                    0 <= i < keep.len() ==> call_ensures(f, (&old(v)@[i],), #[trigger] keep[i])
            },
{
    let ghost orig = v@;
    let ghost mut keep: Seq<bool> = Seq::empty();
    let mut i: usize = 0;
    while i < v.len()
        invariant
            i <= v@.len(),
            keep.len() <= orig.len(),
            keep.len() == i + orig.len() - v@.len(),
            v@.subrange(0, i as int) == keep_filter(orig.take(keep.len() as int), keep),
            v@.skip(i as int) == orig.skip(keep.len() as int),
            forall|m: int| 0 <= m < orig.len() ==> call_requires(f, (&orig[m],)),
            forall|m: int| 0 <= m < keep.len() ==> call_ensures(f, (&orig[m],), #[trigger] keep[m]),
        decreases v@.len() - i,
    {
        let ghost c = keep.len() as int;
        let ghost vpre = v@;
        proof {
            assert(vpre[i as int] == orig[c]) by {
                assert(vpre.skip(i as int)[0] == orig.skip(c)[0]);
            }
        }
        if f(&v[i]) {
            proof {
                let keep0 = keep;
                keep = keep.push(true);
                assert(orig.take(c + 1).drop_last() =~= orig.take(c));
                assert(keep.drop_last() =~= keep0);
                assert(vpre.subrange(0, i as int + 1) =~= vpre.subrange(0, i as int).push(
                    vpre[i as int],
                ));
                assert forall|k: int| 0 <= k < vpre.skip(i as int + 1).len() implies #[trigger] vpre.skip(
                    i as int + 1,
                )[k] == orig.skip(c + 1)[k] by {
                    assert(vpre.skip(i as int)[k + 1] == orig.skip(c)[k + 1]);
                }
                assert(vpre.skip(i as int + 1) =~= orig.skip(c + 1));
            }
            i += 1;
        } else {
            let _ = v.remove(i);
            proof {
                let keep0 = keep;
                keep = keep.push(false);
                assert(orig.take(c + 1).drop_last() =~= orig.take(c));
                assert(keep.drop_last() =~= keep0);
                assert(v@.subrange(0, i as int) =~= vpre.subrange(0, i as int));
                assert forall|k: int| 0 <= k < v@.skip(i as int).len() implies #[trigger] v@.skip(
                    i as int,
                )[k] == orig.skip(c + 1)[k] by {
                    assert(v@[i + k] == vpre[i + 1 + k]);
                    assert(vpre.skip(i as int)[k + 1] == orig.skip(c)[k + 1]);
                }
                assert(v@.skip(i as int) =~= orig.skip(c + 1));
            }
        }
    }
    proof {
        assert(keep.len() == orig.len());
        assert(orig.take(orig.len() as int) =~= orig);
        assert(v@ =~= v@.subrange(0, v@.len() as int));
        assert(v@ == keep_filter(orig, keep));
    }
}

} // verus!
