//! Source ids from a counter.
//!
//! A source id only has to differ from the other ids in use. Counting up from
//! zero gives that for as long as the counter has not gone round, which at
//! one id per nanosecond takes some five hundred years.

use vstd::prelude::*;

verus! {

/// The counter after `counter` has handed out an id.
pub open spec fn bump(counter: u64) -> u64 {
    if counter < u64::MAX {
        (counter + 1) as u64
    } else {
        0
    }
}

/// The counter after it has handed out `n` ids.
pub open spec fn bumped(counter: u64, n: nat) -> u64
    decreases n,
{
    if n == 0 {
        counter
    } else {
        bump(bumped(counter, (n - 1) as nat))
    }
}

/// Hands out the counter's value as the next id and moves the counter on by
/// one. After `u64::MAX` the counter starts again at zero.
pub fn next(counter: &mut u64) -> (id: u64)
    ensures
        id == *old(counter),
        *final(counter) == bump(*old(counter)),
{
    let id = *counter;
    if id < u64::MAX {
        *counter = id + 1;
    } else {
        *counter = 0;
    }
    id
}

/// While the counter does not go round, `n` steps move it on by `n`.
pub proof fn lemma_bumped(counter: u64, n: nat)
    requires
        counter + n <= u64::MAX,
    ensures
        bumped(counter, n) == counter + n,
    decreases n,
{
    if n > 0 {
        lemma_bumped(counter, (n - 1) as nat);
    }
}

/// Ids are unique: the id handed out after `m` others and the one handed out
/// after `n` others differ when `m` and `n` do, as long as the counter does
/// not go round in between.
pub proof fn lemma_ids_differ(counter: u64, m: nat, n: nat)
    requires
        m < n,
        counter + n <= u64::MAX,
    ensures
        bumped(counter, m) < bumped(counter, n),
{
    lemma_bumped(counter, m);
    lemma_bumped(counter, n);
}

} // verus!
