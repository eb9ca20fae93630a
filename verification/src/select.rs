//! Selecting the items of a sequence.

use vstd::prelude::*;

verus! {

/// The items of `s` that `keep` holds of, in their order.
pub open spec fn kept<A>(s: Seq<A>, keep: spec_fn(A) -> bool) -> Seq<A>
    decreases s.len(),
{
    if s.len() == 0 {
        Seq::empty()
    } else if keep(s.last()) {
        kept(s.drop_last(), keep).push(s.last())
    } else {
        kept(s.drop_last(), keep)
    }
}

/// Taking one more item of `s` into account extends the selection by that
/// item, or not at all.
pub proof fn lemma_kept_step<A>(s: Seq<A>, keep: spec_fn(A) -> bool, i: int)
    requires
        0 <= i < s.len(),
    ensures
        kept(s.subrange(0, i + 1), keep) == if keep(s[i]) {
            kept(s.subrange(0, i), keep).push(s[i])
        } else {
            kept(s.subrange(0, i), keep)
        },
{
    assert(s.subrange(0, i + 1).drop_last() == s.subrange(0, i));
}

} // verus!
