//! Taking an element out of a sequence by putting the last one in its place.

use vstd::prelude::*;

verus! {

/// The sequence without the element at `i`, whose place the last one takes.
pub open spec fn swap_removed<T>(s: Seq<T>, i: int) -> Seq<T> {
    s.update(i, s.last()).drop_last()
}

/// The last element stands at `i`, unless it is the one that was taken out; all others stand where
/// they stood.
pub proof fn law_swap_removed_puts_the_last_in_place<T>(s: Seq<T>, i: int)
    requires
        0 <= i < s.len(),
    ensures
        swap_removed(s, i).len() == s.len() - 1,
        i < s.len() - 1 ==> swap_removed(s, i)[i] == s[s.len() - 1],
        forall|j: int|
            0 <= j < s.len() - 1 && j != i ==> #[trigger] swap_removed(s, i)[j] == s[j],
{
}

/// Just the element at `i` is lost.
pub proof fn law_swap_removed_loses_one<T>(s: Seq<T>, i: int)
    requires
        0 <= i < s.len(),
    ensures
        swap_removed(s, i).to_multiset() == s.to_multiset().remove(s[i]),
{
    broadcast use vstd::multiset::group_multiset_axioms;

    let last = s.len() - 1;
    let updated = s.update(i, s.last());
    vstd::seq_lib::to_multiset_update(s, i, s.last());
    vstd::seq_lib::to_multiset_remove(updated, last);
}

} // verus!
