//! Which worker serves a call: the rule that turns the pool's shared cursor
//! into a worker index, and what that rule guarantees over a run of calls.

use vstd::arithmetic::div_mod::lemma_fundamental_div_mod_converse;
use vstd::prelude::*;

verus! {

/// The worker that serves the call which drew `cursor` from a pool of `size` workers.
pub open spec fn slot(cursor: nat, size: nat) -> nat
    recommends
        size > 0,
{
    cursor % size
}

/// The workers selected by `n` calls that draw the cursors `start`, `start + 1`, ... in turn.
pub open spec fn schedule(start: nat, n: nat, size: nat) -> Seq<nat> {
    Seq::new(n, |i: int| slot(start + i as nat, size))
}

/// The run `lo, lo + 1, ..., lo + n - 1`.
pub open spec fn ascending(lo: nat, n: nat) -> Seq<nat> {
    Seq::new(n, |i: int| (lo + i) as nat)
}

/// The indices `0, 1, ..., size - 1`, repeated `k` times.
pub open spec fn rounds(k: nat, size: nat) -> Seq<nat>
    decreases k,
{
    if k == 0 {
        Seq::empty()
    } else {
        rounds((k - 1) as nat, size) + ascending(0, size)
    }
}

/// How often `index` occurs in `s`.
pub open spec fn times_selected(s: Seq<nat>, index: nat) -> nat {
    s.to_multiset().count(index)
}

/// Index of the worker that serves the call which drew `cursor`.
pub fn worker_index(cursor: usize, size: usize) -> (r: usize)
    requires
        size > 0,
    ensures
        r == slot(cursor as nat, size as nat),
        r < size,
{
    cursor % size
}

proof fn lemma_times_in_ascending(lo: nat, n: nat, index: nat)
    ensures
        times_selected(ascending(lo, n), index) == if lo <= index < lo + n { 1nat } else { 0nat },
    decreases n,
{
    broadcast use vstd::seq_lib::group_to_multiset_ensures;
    broadcast use vstd::multiset::group_multiset_axioms;

    if n > 0 {
        let m = (n - 1) as nat;
        lemma_times_in_ascending(lo, m, index);
        assert(ascending(lo, n) =~= ascending(lo, m).push(lo + m));
    }
}

proof fn lemma_times_in_concat(a: Seq<nat>, b: Seq<nat>, index: nat)
    ensures
        times_selected(a + b, index) == times_selected(a, index) + times_selected(b, index),
{
    vstd::seq_lib::lemma_multiset_commutative(a, b);
    broadcast use vstd::multiset::group_multiset_axioms;

}

proof fn lemma_schedule_split(start: nat, n: nat, m: nat, size: nat)
    ensures
        schedule(start, n + m, size) =~= schedule(start, n, size) + schedule(start + n, m, size),
{
}

/// One round of `size` calls from any cursor visits the workers from
/// `start % size` up to the last one, then from the first one on.
proof fn lemma_one_round(start: nat, size: nat)
    requires
        size > 0,
    ensures
        schedule(start, size, size) =~= ascending(start % size, (size - start % size) as nat)
            + ascending(0, start % size),
{
    let r = start % size;
    let q: int = (start / size) as int;
    vstd::arithmetic::div_mod::lemma_fundamental_div_mod(start as int, size as int);
    let lhs = schedule(start, size, size);
    let rhs = ascending(r, (size - r) as nat) + ascending(0, r);
    assert forall|i: int| 0 <= i < size implies lhs[i] == rhs[i] by {
        if i < size - r {
            lemma_fundamental_div_mod_converse(start + i, size as int, q, r + i);
        } else {
            assert((q + 1) * size == q * size + size) by (nonlinear_arith);
            lemma_fundamental_div_mod_converse(start + i, size as int, q + 1, r + i - size);
        }
    }
}

proof fn lemma_times_in_round(start: nat, size: nat, index: nat)
    requires
        size > 0,
        index < size,
    ensures
        times_selected(schedule(start, size, size), index) == 1,
{
    let r = start % size;
    lemma_one_round(start, size);
    lemma_times_in_concat(ascending(r, (size - r) as nat), ascending(0, r), index);
    lemma_times_in_ascending(r, (size - r) as nat, index);
    lemma_times_in_ascending(0, r, index);
}

/// Round-robin fairness: of `k * size` calls in a row, made by one caller or
/// by several whose draws of the cursor follow one another, each worker
/// serves exactly `k`, whatever the cursor stood at before; and when it stood
/// at a multiple of `size` (a fresh pool stands at 0), the workers are
/// selected as `0, 1, ..., size - 1`, repeated `k` times.
pub proof fn lemma_round_robin_fair(start: nat, k: nat, size: nat)
    requires
        size > 0,
    ensures
        forall|index: nat|
            index < size ==> #[trigger] times_selected(schedule(start, k * size, size), index) == k,
        start % size == 0 ==> schedule(start, k * size, size) == rounds(k, size),
    decreases k,
{
    broadcast use vstd::seq_lib::group_to_multiset_ensures;

    if k == 0 {
        assert(schedule(start, k * size, size) =~= Seq::<nat>::empty());
        assert forall|index: nat| index < size implies #[trigger] times_selected(
            schedule(start, k * size, size),
            index,
        ) == k by {
            assert(!schedule(start, k * size, size).contains(index));
        }
    } else {
        let j = (k - 1) as nat;
        lemma_round_robin_fair(start, j, size);
        assert(k * size == j * size + size) by (nonlinear_arith)
            requires
                j == k - 1,
        ;
        lemma_schedule_split(start, j * size, size, size);
        let before = schedule(start, j * size, size);
        let last = schedule(start + j * size, size, size);
        assert forall|index: nat| index < size implies #[trigger] times_selected(
            schedule(start, k * size, size),
            index,
        ) == k by {
            lemma_times_in_concat(before, last, index);
            lemma_times_in_round(start + j * size, size, index);
        }
        if start % size == 0 {
            lemma_one_round(start + j * size, size);
            assert((start + j * size) % size == 0) by {
                let q: int = (start / size) as int;
                vstd::arithmetic::div_mod::lemma_fundamental_div_mod(start as int, size as int);
                assert(start + j * size == (q + j) * size) by (nonlinear_arith)
                    requires
                        start == size * q,
                ;
                lemma_fundamental_div_mod_converse(
                    (start + j * size) as int,
                    size as int,
                    q + j,
                    0,
                );
            }
            assert(ascending(0, 0) =~= Seq::<nat>::empty());
            assert(last =~= ascending(0, size));
        }
    }
}

} // verus!
