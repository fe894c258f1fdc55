//! The selection cursor: an index into the store's current length, moved
//! with wraparound and re-clamped after a deletion.

use vstd::prelude::*;

verus! {

/// One step down (forward) over a store of length `n`, wrapping at the end.
pub open spec fn spec_down(i: int, n: int) -> int {
    if i + 1 >= n {
        0
    } else {
        i + 1
    }
}

/// One step up (backward) over a store of length `n`, wrapping at the start.
pub open spec fn spec_up(i: int, n: int) -> int {
    if i == 0 {
        n - 1
    } else {
        i - 1
    }
}

/// The cursor after `k` steps down.
pub open spec fn down_iter(i: int, n: int, k: nat) -> int
    decreases k,
{
    if k == 0 {
        i
    } else {
        spec_down(down_iter(i, n, (k - 1) as nat), n)
    }
}

pub fn next_index(i: usize, n: usize) -> (r: usize)
    requires
        0 < n,
        i < n,
    ensures
        r == spec_down(i as int, n as int),
        r < n,
{
    if i + 1 >= n {
        0
    } else {
        i + 1
    }
}

pub fn prev_index(i: usize, n: usize) -> (r: usize)
    requires
        0 < n,
        i < n,
    ensures
        r == spec_up(i as int, n as int),
        r < n,
{
    if i == 0 {
        n - 1
    } else {
        i - 1
    }
}

/// Re-clamps the cursor once the store has shrunk to `new_len` records:
/// a cursor past the new end moves to the last valid index, and an empty
/// store has no cursor at all.
pub fn clamp_after_remove(cursor: usize, new_len: usize) -> (r: Option<usize>)
    ensures
        new_len == 0 ==> r is None,
        new_len > 0 && cursor < new_len ==> r == Some(cursor),
        new_len > 0 && cursor >= new_len ==> r == Some((new_len - 1) as usize),
{
    if new_len == 0 {
        None
    } else if cursor < new_len {
        Some(cursor)
    } else {
        Some(new_len - 1)
    }
}

proof fn lemma_down_iter_linear(i: int, n: int, k: nat)
    requires
        0 <= i < n,
        k <= n,
    ensures
        down_iter(i, n, k) == if i + k < n {
            i + k
        } else {
            i + k - n
        },
    decreases k,
{
    if k == 0 {
    } else {
        lemma_down_iter_linear(i, n, (k - 1) as nat);
    }
}

/// Stepping down once per record of a non-empty store walks the whole cycle
/// and returns the cursor to where it started.
pub proof fn lemma_down_cycle(i: int, n: int)
    requires
        0 <= i < n,
    ensures
        down_iter(i, n, n as nat) == i,
{
    lemma_down_iter_linear(i, n, n as nat);
}

/// From any valid index, one step up undoes one step down and the other way
/// round.
pub proof fn lemma_up_down_inverse(i: int, n: int)
    requires
        0 <= i < n,
    ensures
        spec_down(spec_up(i, n), n) == i,
        spec_up(spec_down(i, n), n) == i,
{
}

} // verus!
