//! The minimum active stake: the smallest non-zero weight among the first voters
//! of a weight-ordered voter list that an election would take.

use vstd::prelude::*;

verus! {

/// How many entries the scan may look at, per voter it is allowed to take.
pub const NPOS_MAX_ITERATIONS_COEFFICIENT: usize = 2;

/// Number of non-zero weights.
pub open spec fn nonzero_count(ws: Seq<u64>) -> nat
    decreases ws.len(),
{
    if ws.len() == 0 {
        0
    } else {
        nonzero_count(ws.drop_last()) + if ws.last() != 0 {
            1nat
        } else {
            0nat
        }
    }
}

/// Smallest non-zero weight, if any.
pub open spec fn min_nonzero(ws: Seq<u64>) -> Option<u64>
    decreases ws.len(),
{
    if ws.len() == 0 {
        None
    } else {
        let m = min_nonzero(ws.drop_last());
        let w = ws.last();
        if w == 0 {
            m
        } else {
            match m {
                None => Some(w),
                Some(v) => Some(
                    if w < v {
                        w
                    } else {
                        v
                    },
                ),
            }
        }
    }
}

/// How many voters an election takes: `max_len` when given, at most all of them.
pub open spec fn allowed_len(total: int, max_len: Option<usize>) -> int {
    match max_len {
        Some(m) => if m < total {
            m as int
        } else {
            total
        },
        None => total,
    }
}

/// How many entries the scan may look at, at most.
pub open spec fn scan_bound(total: int, allowed: int) -> int {
    if allowed * NPOS_MAX_ITERATIONS_COEFFICIENT < total {
        allowed * NPOS_MAX_ITERATIONS_COEFFICIENT
    } else {
        total
    }
}

/// Length of the scanned prefix, from position `k` on: the scan stops once it
/// has found `allowed` non-zero weights, or at its bound.
pub open spec fn scan_end(ws: Seq<u64>, allowed: int, k: int) -> int
    decreases scan_bound(ws.len() as int, allowed) - k,
{
    if k >= scan_bound(ws.len() as int, allowed) || nonzero_count(ws.take(k)) >= allowed {
        k
    } else {
        scan_end(ws, allowed, k + 1)
    }
}

/// The entries that the scan looks at.
pub open spec fn scanned(ws: Seq<u64>, max_len: Option<usize>) -> Seq<u64> {
    ws.take(scan_end(ws, allowed_len(ws.len() as int, max_len), 0))
}

proof fn lemma_min_nonzero(ws: Seq<u64>)
    ensures
        min_nonzero(ws) matches Some(v) ==> v > 0,
        min_nonzero(ws) is None <==> forall|i: int| 0 <= i < ws.len() ==> ws[i] == 0,
    decreases ws.len(),
{
    if ws.len() > 0 {
        lemma_min_nonzero(ws.drop_last());
        if min_nonzero(ws.drop_last()) is Some {
            let i = choose|i: int| 0 <= i < ws.drop_last().len() && ws.drop_last()[i] != 0;
            assert(ws[i] != 0);
        }
        assert forall|i: int| 0 <= i < ws.drop_last().len() implies ws.drop_last()[i] == ws[i] by {}
    }
}

/// Smallest non-zero weight among the voters an election would take from the
/// weight-ordered list `weights`, of which it takes `max_len` (all when `None`).
///
/// The scan skips zero weights, and gives up after looking at
/// `NPOS_MAX_ITERATIONS_COEFFICIENT` times as many entries as it may take.
/// `None` when the scanned entries hold no non-zero weight: no stake is active.
pub fn min_active_stake(weights: &Vec<u64>, max_len: Option<usize>) -> (r: Option<u64>)
    ensures
        r == min_nonzero(scanned(weights@, max_len)),
        r matches Some(v) ==> v > 0,
        r is None <==> forall|i: int|
            0 <= i < scanned(weights@, max_len).len() ==> scanned(weights@, max_len)[i] == 0,
{
    let ghost ws = weights@;
    let total = weights.len();
    let allowed: usize = match max_len {
        Some(m) => if m < total {
            m
        } else {
            total
        },
        None => total,
    };
    let bound: usize = if allowed < total / NPOS_MAX_ITERATIONS_COEFFICIENT + 1
        && allowed * NPOS_MAX_ITERATIONS_COEFFICIENT < total {
        allowed * NPOS_MAX_ITERATIONS_COEFFICIENT
    } else {
        total
    };
    assert(bound == scan_bound(total as int, allowed as int));
    let mut accepted: usize = 0;
    let mut seen: usize = 0;
    let mut min: Option<u64> = None;
    assert(ws.take(0) =~= Seq::<u64>::empty());
    while seen < bound && accepted < allowed
        invariant
            ws == weights@,
            total == ws.len(),
            allowed == allowed_len(total as int, max_len),
            bound == scan_bound(total as int, allowed as int),
            bound <= total,
            0 <= seen <= bound,
            accepted == nonzero_count(ws.take(seen as int)),
            accepted <= seen,
            min == min_nonzero(ws.take(seen as int)),
            scan_end(ws, allowed as int, 0) == scan_end(ws, allowed as int, seen as int),
        decreases bound - seen,
    {
        let w = weights[seen];
        assert(ws.take(seen as int + 1).drop_last() =~= ws.take(seen as int));
        assert(scan_end(ws, allowed as int, seen as int) == scan_end(
            ws,
            allowed as int,
            seen as int + 1,
        ));
        if w != 0 {
            min = match min {
                None => Some(w),
                Some(v) => Some(
                    if w < v {
                        w
                    } else {
                        v
                    },
                ),
            };
            accepted = accepted + 1;
        }
        seen = seen + 1;
    }
    assert(scan_end(ws, allowed as int, seen as int) == seen);
    proof {
        lemma_min_nonzero(ws.take(seen as int));
    }
    min
}

} // verus!
