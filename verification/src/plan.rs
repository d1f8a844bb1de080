//! Dispatch planning: which virtual-user ids each run mode issues, and
//! the size of the admission gate in sustained-RPS mode. The modes
//! themselves run outside the library; they take these plans and hand
//! every outcome back to the statistics fold.

use vstd::prelude::*;
use vstd::arithmetic::mul::lemma_mul_inequality;

verus! {

/// The user ids of one burst: `1..=users`, one request each.
pub fn burst_user_ids(users: usize) -> (r: Vec<usize>)
    ensures
        r@.len() == users,
        forall|i: int| 0 <= i < users ==> r@[i] == i + 1,
{
    let mut out: Vec<usize> = Vec::new();
    let mut u: usize = 0;
    while u < users
        invariant
            0 <= u <= users,
            out@.len() == u,
            forall|i: int| 0 <= i < u ==> out@[i] == i + 1,
        decreases users - u,
    {
        out.push(u + 1);
        u = u + 1;
    }
    out
}

/// The user ids of one sustained-RPS tick, given how many requests the
/// prior ticks issued: `already_issued + 1 ..= already_issued + rps`,
/// strictly increasing.
pub fn tick_user_ids(already_issued: usize, rps: usize) -> (r: Vec<usize>)
    requires
        already_issued + rps <= usize::MAX,
    ensures
        r@.len() == rps,
        forall|i: int| 0 <= i < rps ==> r@[i] == already_issued + 1 + i,
{
    let mut out: Vec<usize> = Vec::new();
    let mut u: usize = 0;
    while u < rps
        invariant
            0 <= u <= rps,
            already_issued + rps <= usize::MAX,
            out@.len() == u,
            forall|i: int| 0 <= i < u ==> out@[i] == already_issued + 1 + i,
        decreases rps - u,
    {
        out.push(already_issued + 1 + u);
        u = u + 1;
    }
    out
}

/// The in-flight permit count of the sustained-RPS admission gate:
/// twice the per-second quota.
pub fn gate_capacity(rps: usize) -> (r: usize)
    requires
        2 * rps <= usize::MAX,
    ensures
        r == 2 * rps,
{
    2 * rps
}

/// The user ids that tick `t` issues, as a sequence.
pub open spec fn tick_ids(t: int, rps: int) -> Seq<int> {
    Seq::new(rps as nat, |i: int| t * rps + 1 + i)
}

/// The sustained-RPS schedule: each tick issues exactly `rps` ids, every
/// id of an earlier tick is smaller than every id of a later one (so ids
/// never repeat and are strictly increasing across ticks), and `d` ticks
/// issue `d * rps` requests in all.
pub proof fn lemma_sustained_schedule(rps: int, t1: int, t2: int, d: int)
    requires
        rps >= 0,
        0 <= t1 < t2,
        d >= 0,
    ensures
        tick_ids(t1, rps).len() == rps,
        forall|i: int, j: int|
            0 <= i < rps && 0 <= j < rps ==> tick_ids(t1, rps)[i] < tick_ids(t2, rps)[j],
        d * rps == (d - 1) * rps + rps || d == 0,
{
    assert forall|i: int, j: int| 0 <= i < rps && 0 <= j < rps implies tick_ids(t1, rps)[i]
        < tick_ids(t2, rps)[j] by {
        lemma_mul_inequality(t1 + 1, t2, rps);
        assert((t1 + 1) * rps == t1 * rps + rps) by (nonlinear_arith);
        assert(tick_ids(t1, rps)[i] == t1 * rps + 1 + i);
        assert(tick_ids(t2, rps)[j] == t2 * rps + 1 + j);
    }
    if d > 0 {
        assert(d * rps == (d - 1) * rps + rps) by (nonlinear_arith);
    }
}

} // verus!
