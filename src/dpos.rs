//! The delegated-stake heuristic: every voter spreads its stake over the ranked
//! targets, and the targets with the largest backing win.

use vstd::prelude::*;
use crate::score::{are_supports_of, evaluate, score_of, to_supports};
use crate::types::{
    assignments_view, supports_view, total_edges, AccountId, ElectionScore, Snapshot,
    StakedAssignment, Support, Voter,
};
use crate::utils::{is_ranking, share_at, share_distribution, ShareDistribution, SortedTargets};

verus! {

/// What a voter of stake `weight` gives to each target of `ranking`.
pub open spec fn shares_of(ranking: Seq<AccountId>, weight: u64, distribution: ShareDistribution) -> Seq<
    (AccountId, u128),
> {
    Seq::new(
        ranking.len(),
        |i: int|
            (ranking[i], share_at(ranking.len() as int, i, weight as int, distribution) as u128),
    )
}

/// One assignment per voter with stake and targets, in voter order; the others
/// are left out.
pub open spec fn dpos_assignments_of(
    voters: Seq<Voter>,
    ranking: Seq<AccountId>,
    distribution: ShareDistribution,
) -> Seq<(AccountId, Seq<(AccountId, u128)>)>
    decreases voters.len(),
{
    if voters.len() == 0 {
        Seq::empty()
    } else {
        let rest = dpos_assignments_of(voters.drop_last(), ranking, distribution);
        let v = voters.last();
        if v.1 == 0 || v.2@.len() == 0 {
            rest
        } else {
            rest.push((v.0, shares_of(ranking, v.1, distribution)))
        }
    }
}

/// `a` is backed more than `b`: by total, then by identifier.
pub open spec fn backed_above(a: Support, b: Support) -> bool {
    a.total > b.total || (a.total == b.total && a.target > b.target)
}

pub open spec fn distinct_targets(s: Seq<Support>) -> bool {
    forall|i: int, j: int| 0 <= i < j < s.len() ==> s[i].target != s[j].target
}

/// `winners` are the `k` best-backed supports of `supports` (all of them when
/// there are fewer), best first.
pub open spec fn are_winners(winners: Seq<Support>, supports: Seq<Support>, k: int) -> bool {
    &&& winners.len() <= k
    &&& winners.len() < k ==> forall|x: Support| supports.contains(x) ==> winners.contains(x)
    &&& forall|x: Support| winners.contains(x) ==> supports.contains(x)
    &&& forall|i: int, j: int| 0 <= i < j < winners.len() ==> backed_above(winners[i], winners[j])
    &&& forall|x: Support, j: int|
        supports.contains(x) && !winners.contains(x) && 0 <= j < winners.len() ==> backed_above(
            winners[j],
            x,
        )
}

/// Keeps the `desired_targets` supports with the largest totals, largest first;
/// among equal totals the larger target identifier comes first.
pub fn select_winners(supports: Vec<Support>, desired_targets: u32) -> (r: Vec<Support>)
    requires
        distinct_targets(supports@),
    ensures
        are_winners(r@, supports@, desired_targets as int),
{
    let ghost orig = supports@;
    let k = desired_targets as usize;
    let mut rest = supports;
    let mut out: Vec<Support> = Vec::new();
    while out.len() < k && rest.len() > 0
        invariant
            k == desired_targets,
            out@.len() <= k,
            distinct_targets(rest@),
            forall|y: Support| orig.contains(y) <==> (out@.contains(y) || rest@.contains(y)),
            forall|y: Support| out@.contains(y) ==> orig.contains(y),
            forall|i: int, j: int| 0 <= i < j < out@.len() ==> backed_above(out@[i], out@[j]),
            forall|a: int, j: int|
                0 <= a < rest@.len() && 0 <= j < out@.len() ==> backed_above(out@[j], rest@[a]),
        decreases rest@.len(),
    {
        let mut best: usize = 0;
        let mut q: usize = 1;
        while q < rest.len()
            invariant
                0 <= best < q <= rest@.len(),
                forall|a: int| 0 <= a < q && a != best ==> backed_above(rest@[best as int], rest@[a]),
                distinct_targets(rest@),
            decreases rest@.len() - q,
        {
            if rest[q].total > rest[best].total || (rest[q].total == rest[best].total
                && rest[q].target > rest[best].target) {
                best = q;
            } else {
                assert(rest@[q as int].target != rest@[best as int].target);
            }
            q = q + 1;
        }
        let ghost old_rest = rest@;
        let ghost old_out = out@;
        let x = rest.remove(best);
        out.push(x);
        proof {
            assert forall|a: int| 0 <= a < rest@.len() implies rest@[a] == if a < best {
                old_rest[a]
            } else {
                old_rest[a + 1]
            } by {}
            assert forall|y: Support| old_rest.contains(y) <==> (rest@.contains(y) || y == x) by {
                if old_rest.contains(y) {
                    let a = choose|a: int| 0 <= a < old_rest.len() && old_rest[a] == y;
                    if a < best {
                        assert(rest@[a] == y);
                    } else if a > best {
                        assert(rest@[a - 1] == y);
                    }
                }
                if rest@.contains(y) {
                    let a = choose|a: int| 0 <= a < rest@.len() && rest@[a] == y;
                }
            }
            assert forall|y: Support| out@.contains(y) <==> (old_out.contains(y) || y == x) by {
                if out@.contains(y) {
                    let a = choose|a: int| 0 <= a < out@.len() && out@[a] == y;
                    if a < old_out.len() {
                        assert(old_out[a] == y);
                    }
                }
                if old_out.contains(y) {
                    let a = choose|a: int| 0 <= a < old_out.len() && old_out[a] == y;
                    assert(out@[a] == y);
                }
                if y == x {
                    assert(out@[old_out.len() as int] == y);
                }
            }
            assert forall|a: int, j: int|
                0 <= a < rest@.len() && 0 <= j < out@.len() implies backed_above(
                out@[j],
                rest@[a],
            ) by {
                if j < old_out.len() {
                    assert(out@[j] == old_out[j]);
                }
            }
            assert forall|i: int, j: int| 0 <= i < j < out@.len() implies backed_above(
                out@[i],
                out@[j],
            ) by {
                assert(out@[i] == old_out[i]);
            }
        }
    }
    proof {
        assert forall|x: Support| orig.contains(x) && !out@.contains(x) implies forall|j: int|
            0 <= j < out@.len() ==> backed_above(out@[j], x) by {
            let a = choose|a: int| 0 <= a < rest@.len() && rest@[a] == x;
        }
    }
    out
}

/// Builds the delegated-stake assignment of every voter with stake and targets.
pub fn dpos_assignments(
    voters: &Vec<Voter>,
    ranking: &SortedTargets,
    distribution: ShareDistribution,
) -> (r: Vec<StakedAssignment>)
    ensures
        assignments_view(r@) == dpos_assignments_of(voters@, ranking.0@, distribution),
{
    let mut r: Vec<StakedAssignment> = Vec::new();
    let mut i: usize = 0;
    while i < voters.len()
        invariant
            0 <= i <= voters@.len(),
            assignments_view(r@) == dpos_assignments_of(voters@.take(i as int), ranking.0@, distribution),
        decreases voters@.len() - i,
    {
        let ghost prev = r@;
        assert(voters@.take(i as int + 1).drop_last() =~= voters@.take(i as int));
        if voters[i].1 != 0 && voters[i].2.len() != 0 {
            let shares = share_distribution(ranking, voters[i].1, distribution);
            let mut dist: Vec<(AccountId, u128)> = Vec::new();
            let mut j: usize = 0;
            while j < shares.len()
                invariant
                    0 <= j <= shares@.len(),
                    dist@.len() == j,
                    forall|q: int|
                        0 <= q < j ==> #[trigger] dist@[q] == (shares@[q].0, shares@[q].1 as u128),
                decreases shares@.len() - j,
            {
                dist.push((shares[j].0, shares[j].1 as u128));
                j = j + 1;
            }
            assert(dist@ =~= shares_of(ranking.0@, voters@[i as int].1, distribution));
            r.push(StakedAssignment { who: voters[i].0, distribution: dist });
            assert(assignments_view(r@) =~= assignments_view(prev).push(
                (voters@[i as int].0, dist@),
            ));
        }
        i = i + 1;
    }
    assert(voters@.take(voters@.len() as int) =~= voters@);
    r
}

/// `r` scores the `desired_targets` best-backed targets once every voter has
/// spread its stake over the targets ranked by approval stake.
pub open spec fn is_dpos_score(
    voters: Seq<Voter>,
    desired_targets: u32,
    distribution: ShareDistribution,
    r: ElectionScore,
) -> bool {
    exists|ranking: Seq<AccountId>, supports: Seq<Support>, winners: Seq<Support>|
        {
            &&& is_ranking(voters, ranking)
            &&& are_supports_of(
                supports_view(supports),
                dpos_assignments_of(voters, ranking, distribution),
            )
            &&& are_winners(winners, supports, desired_targets as int)
            &&& r == score_of(supports_view(winners))
        }
}

/// Score of the delegated-stake heuristic on `snapshot`: stakes are spread
/// over the targets ranked by approval stake, the backings are summed per
/// target, and the `desired_targets` best-backed targets are scored.
pub fn mine_dpos(snapshot: &Snapshot, desired_targets: u32, distribution: ShareDistribution) -> (r:
    ElectionScore)
    requires
        total_edges(snapshot.voters@) <= u64::MAX,
    ensures
        is_dpos_score(snapshot.voters@, desired_targets, distribution, r),
{
    let ranking = SortedTargets::rank(&snapshot.voters);
    let assignments = dpos_assignments(&snapshot.voters, &ranking, distribution);
    let supports = to_supports(&assignments);
    let ghost all = supports@;
    proof {
        assert forall|i: int, j: int| 0 <= i < j < all.len() implies all[i].target
            != all[j].target by {
            assert(supports_view(all)[i].0 < supports_view(all)[j].0);
        }
    }
    let winners = select_winners(supports, desired_targets);
    let r = evaluate(&winners);
    assert(is_ranking(snapshot.voters@, ranking.0@));
    r
}

/// The winners kept by the delegated-stake heuristic are never more than the
/// desired number of winners.
pub proof fn lemma_winners_within_desired(winners: Seq<Support>, supports: Seq<Support>, k: int)
    requires
        are_winners(winners, supports, k),
    ensures
        winners.len() <= k,
{
}

} // verus!
