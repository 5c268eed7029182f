//! Counters that wrap around at the width of a machine word.

use vstd::arithmetic::div_mod;
use vstd::prelude::*;

verus! {

/// The number of counts in one whole turn of a counter.
pub open spec fn turn() -> int {
    usize::MAX + 1
}

/// The count after `n`: counting starts again from zero after the largest word.
pub open spec fn successor(n: usize) -> usize {
    if n == usize::MAX {
        0
    } else {
        (n + 1) as usize
    }
}

/// How often a counter moved on its way from `before` to `now`, short of a whole turn.
pub open spec fn difference(now: usize, before: usize) -> usize {
    ((now - before) % turn()) as usize
}

/// The count after `n` is one more, and zero after the largest word.
pub proof fn law_successor_is_one_more(n: usize)
    ensures
        successor(n) == (n + 1) % (usize::MAX + 1),
        n < usize::MAX ==> successor(n) == n + 1,
        n == usize::MAX ==> successor(n) == 0,
{
    lemma_successor(n as int, n);
}

/// The difference is what is to be added to the earlier count to get to the later one, by way of
/// zero if the later one is smaller.
pub proof fn law_difference_is_what_was_added(now: usize, before: usize)
    ensures
        now >= before ==> difference(now, before) == now - before,
        now < before ==> difference(now, before) == now - before + usize::MAX + 1,
{
    lemma_difference(now, before);
}

/// Moving a counter on by the difference leads from the earlier count to the later one.
pub proof fn law_difference_restores(now: usize, before: usize)
    ensures
        (before + difference(now, before)) % turn() == now,
{
    lemma_difference(now, before);
    div_mod::lemma_small_mod(now as nat, turn() as nat);
    if now < before {
        lemma_turns(before + difference(now, before), now as int, 1);
    }
}

/// The differences over two successive spans add up to the difference over both.
pub proof fn law_differences_chain(now: usize, between: usize, before: usize)
    ensures
        difference(now, before) == (difference(now, between) + difference(between, before))
            % turn(),
{
    lemma_difference(now, before);
    lemma_difference(now, between);
    lemma_difference(between, before);
    let sum = difference(now, between) + difference(between, before);
    div_mod::lemma_small_mod(difference(now, before) as nat, turn() as nat);
    if sum != difference(now, before) {
        lemma_turns(sum, difference(now, before) as int, 1);
    }
}

/// The difference without the remainder: it is the plain one, or one turn more.
pub(crate) proof fn lemma_difference(now: usize, before: usize)
    ensures
        difference(now, before) == (if now >= before {
            now - before
        } else {
            now - before + turn()
        }),
{
    if now >= before {
        div_mod::lemma_small_mod((now - before) as nat, turn() as nat);
    } else {
        lemma_turns(now - before + turn(), now - before, 1);
        div_mod::lemma_small_mod((now - before + turn()) as nat, turn() as nat);
    }
}

/// A counter that was moved on `moves` times differs by that, short of whole turns.
pub(crate) proof fn lemma_difference_of_moves(now: usize, before: usize, moves: nat)
    requires
        now == (before + moves) % turn(),
    ensures
        difference(now, before) == moves as int % turn(),
{
    div_mod::lemma_sub_mod_noop(before + moves, before as int, turn());
    div_mod::lemma_small_mod(now as nat, turn() as nat);
    div_mod::lemma_sub_mod_noop(now as int, before as int, turn());
}

/// A counter stands where its moves lead, short of whole turns, also after one more move.
pub(crate) proof fn lemma_successor(moves: int, at: usize)
    ensures
        at as int % turn() == at,
        at == moves % turn() ==> successor(at) == (moves + 1) % turn(),
{
    div_mod::lemma_small_mod(at as nat, turn() as nat);
    div_mod::lemma_small_mod(1, turn() as nat);
    div_mod::lemma_add_mod_noop(moves, 1, turn());
    if at == usize::MAX {
        div_mod::lemma_mod_self_0(turn());
    } else {
        div_mod::lemma_small_mod((at + 1) as nat, turn() as nat);
    }
}

/// Whole turns do not change where a counter stands.
pub(crate) proof fn lemma_turns(x: int, y: int, turns: int)
    requires
        x == y + turns * turn(),
    ensures
        x % turn() == y % turn(),
{
    div_mod::lemma_mod_multiples_vanish(turns, y, turn());
    assert(turns * turn() == turn() * turns) by (nonlinear_arith);
}

} // verus!
