//! Stake aggregation per target and the policies that spread a voter's stake over
//! the ranked targets.

use vstd::prelude::*;
use crate::types::{
    lemma_take_contains, approval_stake, lemma_approval_bound, lemma_occurrences_bound, lemma_total_edges_prefix,
    nominated, occurrences, total_edges, AccountId, Voter,
};

verus! {

/// How a voter's stake is spread over the ranked targets.
#[derive(Copy, Clone, Debug, PartialEq, Eq, Structural)]
pub enum ShareDistribution {
    /// Every target receives the same share.
    ProRata,
    /// The lower 80% of the ranking share 20% of the stake, the upper 20% share 80%.
    Pareto,
}

/// Targets ranked by approval stake, ascending, ties broken by identifier.
#[derive(Clone, Debug)]
pub struct SortedTargets(pub Vec<AccountId>);

/// Ranking of targets: by approval stake, then by identifier.
pub open spec fn ranks_below(voters: Seq<Voter>, a: AccountId, b: AccountId) -> bool {
    ||| approval_stake(voters, a) < approval_stake(voters, b)
    ||| approval_stake(voters, a) == approval_stake(voters, b) && a < b
}

/// `ranking` holds every nominated target once, ranked by `ranks_below`.
pub open spec fn is_ranking(voters: Seq<Voter>, ranking: Seq<AccountId>) -> bool {
    &&& forall|t: AccountId| ranking.contains(t) <==> nominated(voters, t)
    &&& forall|a: int, b: int| 0 <= a < b < ranking.len() ==> ranks_below(voters, ranking[a], ranking[b])
}

/// Order of `(target, approval stake)` entries: by stake, then by identifier.
pub open spec fn entry_below(a: (AccountId, u128), b: (AccountId, u128)) -> bool {
    a.1 < b.1 || (a.1 == b.1 && a.0 < b.0)
}

pub open spec fn distinct_ids(s: Seq<(AccountId, u128)>) -> bool {
    forall|a: int, b: int| 0 <= a < b < s.len() ==> s[a].0 != s[b].0
}

pub open spec fn has_id(s: Seq<(AccountId, u128)>, t: AccountId) -> bool {
    exists|k: int| 0 <= k < s.len() && s[k].0 == t
}

/// Position of the entry of `t`, if any.
fn find_entry(r: &Vec<(AccountId, u128)>, t: AccountId) -> (pos: Option<usize>)
    ensures
        pos matches Some(k) ==> k < r@.len() && r@[k as int].0 == t,
        pos is None ==> !has_id(r@, t),
{
    let mut k: usize = 0;
    while k < r.len()
        invariant
            0 <= k <= r@.len(),
            forall|x: int| 0 <= x < k ==> r@[x].0 != t,
        decreases r@.len() - k,
    {
        if r[k].0 == t {
            return Some(k);
        }
        k = k + 1;
    }
    None
}

/// Approval stake of each target that some voter nominates, one entry per target.
fn approval_stakes(voters: &Vec<Voter>) -> (r: Vec<(AccountId, u128)>)
    requires
        total_edges(voters@) <= u64::MAX,
    ensures
        distinct_ids(r@),
        forall|k: int| 0 <= k < r@.len() ==> r@[k].1 == approval_stake(voters@, #[trigger] r@[k].0),
        forall|t: AccountId| has_id(r@, t) <==> nominated(voters@, t),
{
    let mut r: Vec<(AccountId, u128)> = Vec::new();
    let mut i: usize = 0;
    while i < voters.len()
        invariant
            0 <= i <= voters@.len(),
            total_edges(voters@) <= u64::MAX,
            distinct_ids(r@),
            forall|k: int|
                0 <= k < r@.len() ==> r@[k].1 == approval_stake(voters@.take(i as int), #[trigger] r@[k].0),
            forall|t: AccountId| has_id(r@, t) <==> nominated(voters@.take(i as int), t),
        decreases voters@.len() - i,
    {
        let stake = voters[i].1;
        let targets = &voters[i].2;
        proof {
            lemma_total_edges_prefix(voters@, i as int);
            lemma_total_edges_prefix(voters@, i as int + 1);
        }
        let ghost prefix = voters@.take(i as int);
        let ghost before = total_edges(prefix);
        let mut j: usize = 0;
        assert(targets@.take(0) =~= Seq::<AccountId>::empty());
        assert forall|k: int| 0 <= k < r@.len() implies r@[k].1 == approval_stake(
            prefix,
            #[trigger] r@[k].0,
        ) + (stake as nat) * occurrences(targets@.take(0), r@[k].0) by {
            assert(occurrences(targets@.take(0), r@[k].0) == 0);
        }
        while j < targets.len()
            invariant
                0 <= i < voters@.len(),
                0 <= j <= targets@.len(),
                targets == &voters@[i as int].2,
                stake == voters@[i as int].1,
                prefix == voters@.take(i as int),
                before == total_edges(prefix),
                before + targets@.len() <= u64::MAX,
                distinct_ids(r@),
                forall|k: int|
                    0 <= k < r@.len() ==> r@[k].1 == approval_stake(prefix, #[trigger] r@[k].0) + (
                    stake as nat) * occurrences(targets@.take(j as int), r@[k].0),
                forall|t: AccountId|
                    has_id(r@, t) <==> (nominated(prefix, t) || targets@.take(j as int).contains(t)),
            decreases targets@.len() - j,
        {
            let t = targets[j];
            let ghost old_r = r@;
            assert(forall|t3: AccountId|
                #[trigger] has_id(old_r, t3) <==> (nominated(prefix, t3) || targets@.take(
                    j as int,
                ).contains(t3)));
            assert(forall|x: int|
                0 <= x < old_r.len() ==> #[trigger] old_r[x].1 == approval_stake(prefix, old_r[x].0)
                    + (stake as nat) * occurrences(targets@.take(j as int), old_r[x].0));
            assert(targets@.take(j as int + 1).drop_last() =~= targets@.take(j as int));
            let pos = find_entry(&r, t);
            proof {
                lemma_approval_bound(prefix, t);
                lemma_occurrences_bound(targets@.take(j as int), t);
                let s = stake as nat;
                let o = occurrences(targets@.take(j as int), t);
                assert(s * o <= (u64::MAX as nat) * (j as nat)) by (nonlinear_arith)
                    requires
                        s <= u64::MAX,
                        o <= j,
                ;
                assert((before + j + 1) * (u64::MAX as nat) <= (u64::MAX as nat) * (
                u64::MAX as nat)) by (nonlinear_arith)
                    requires
                        before + j + 1 <= u64::MAX,
                ;
                assert(before * (u64::MAX as nat) + (u64::MAX as nat) * (j as nat) + (
                u64::MAX as nat) == (before + j + 1) * (u64::MAX as nat)) by (nonlinear_arith);
            }
            if let Some(k) = pos {
                let cur = r[k].1;
                r.set(k, (t, cur + stake as u128));
                assert forall|x: int| 0 <= x < r@.len() implies r@[x].1 == approval_stake(
                    prefix,
                    #[trigger] r@[x].0,
                ) + (stake as nat) * occurrences(targets@.take(j as int + 1), r@[x].0) by {
                    assert(r@[x].0 == old_r[x].0);
                    if x == k {
                        assert((stake as nat) * (occurrences(targets@.take(j as int), t) + 1) == (
                        stake as nat) * occurrences(targets@.take(j as int), t) + stake)
                            by (nonlinear_arith);
                    }
                }
                assert forall|t2: AccountId|
                    has_id(r@, t2) <==> (nominated(prefix, t2) || targets@.take(
                        j as int + 1,
                    ).contains(t2)) by {
                    if has_id(r@, t2) {
                        let x = choose|x: int| 0 <= x < r@.len() && r@[x].0 == t2;
                        assert(old_r[x].0 == t2);
                    }
                    if has_id(old_r, t2) {
                        let x = choose|x: int| 0 <= x < old_r.len() && old_r[x].0 == t2;
                        assert(r@[x].0 == t2);
                    }
                    lemma_take_contains(targets@, j as int, t2);
                    assert(has_id(old_r, t2) <==> (nominated(prefix, t2) || targets@.take(
                        j as int,
                    ).contains(t2)));
                    if t2 == t {
                        assert(r@[k as int].0 == t2);
                    }
                }
            } else {
                proof {
                    assert(!has_id(r@, t));
                    assert(!targets@.take(j as int).contains(t));
                    assert(approval_stake(prefix, t) == 0) by {
                        lemma_approval_zero(prefix, t);
                    }
                }
                r.push((t, stake as u128));
                assert forall|x: int| 0 <= x < r@.len() implies r@[x].1 == approval_stake(
                    prefix,
                    #[trigger] r@[x].0,
                ) + (stake as nat) * occurrences(targets@.take(j as int + 1), r@[x].0) by {
                    let tk = targets@.take(j as int + 1);
                    assert(tk.drop_last() =~= targets@.take(j as int));
                    assert(tk.last() == t);
                    if x < old_r.len() {
                        assert(r@[x] == old_r[x]);
                        assert(old_r[x].0 != t);
                        assert(old_r[x].1 == approval_stake(prefix, old_r[x].0) + (stake as nat)
                            * occurrences(targets@.take(j as int), old_r[x].0));
                        assert(occurrences(tk, old_r[x].0) == occurrences(
                            targets@.take(j as int),
                            old_r[x].0,
                        ));
                        assert(r@[x].1 == approval_stake(prefix, r@[x].0) + (stake as nat)
                            * occurrences(tk, r@[x].0));
                    } else {
                        assert(occurrences(tk, t) == 1);
                        assert(r@[x] == (t, stake as u128));
                        assert(approval_stake(prefix, t) == 0);
                        assert((stake as nat) * 1 == stake);
                        assert(r@[x].1 == approval_stake(prefix, r@[x].0) + (stake as nat)
                            * occurrences(tk, r@[x].0));
                    }
                }
                assert forall|t2: AccountId|
                    has_id(r@, t2) <==> (nominated(prefix, t2) || targets@.take(
                        j as int + 1,
                    ).contains(t2)) by {
                    if has_id(r@, t2) {
                        let x = choose|x: int| 0 <= x < r@.len() && r@[x].0 == t2;
                        if x < old_r.len() {
                            assert(old_r[x].0 == t2);
                        }
                    }
                    if has_id(old_r, t2) {
                        let x = choose|x: int| 0 <= x < old_r.len() && old_r[x].0 == t2;
                        assert(r@[x].0 == t2);
                    }
                    lemma_take_contains(targets@, j as int, t2);
                    assert(has_id(old_r, t2) <==> (nominated(prefix, t2) || targets@.take(
                        j as int,
                    ).contains(t2)));
                    if t2 == t {
                        assert(r@[old_r.len() as int].0 == t2);
                    }
                }
            }
            assert(forall|t2: AccountId|
                #[trigger] has_id(r@, t2) <==> (nominated(prefix, t2) || targets@.take(
                    j as int + 1,
                ).contains(t2)));
            j = j + 1;
        }
        proof {
            let next = voters@.take(i as int + 1);
            assert(next.drop_last() =~= prefix);
            assert(targets@.take(targets@.len() as int) =~= targets@);
            assert forall|t2: AccountId|
                nominated(next, t2) <==> (nominated(prefix, t2) || targets@.contains(t2)) by {
                if nominated(next, t2) {
                    let x = choose|x: int| 0 <= x < next.len() && next[x].2@.contains(t2);
                    if x < i {
                        assert(prefix[x] == next[x]);
                    }
                }
                if nominated(prefix, t2) {
                    let x = choose|x: int| 0 <= x < prefix.len() && prefix[x].2@.contains(t2);
                    assert(next[x] == prefix[x]);
                }
                if targets@.contains(t2) {
                    assert(next[i as int] == voters@[i as int]);
                }
            }
            assert forall|t2: AccountId| has_id(r@, t2) <==> nominated(next, t2) by {
                assert(has_id(r@, t2) <==> (nominated(prefix, t2) || targets@.take(
                    j as int,
                ).contains(t2)));
            }
            assert forall|k: int| 0 <= k < r@.len() implies r@[k].1 == approval_stake(
                next,
                #[trigger] r@[k].0,
            ) by {
                assert(next.last() == voters@[i as int]);
            }
        }
        i = i + 1;
    }
    assert(voters@.take(voters@.len() as int) =~= voters@);
    r
}

proof fn lemma_approval_zero(voters: Seq<Voter>, t: AccountId)
    requires
        !nominated(voters, t),
    ensures
        approval_stake(voters, t) == 0,
    decreases voters.len(),
{
    if voters.len() > 0 {
        let last = voters.len() - 1;
        assert(!voters[last].2@.contains(t));
        lemma_occurrences_bound(voters.last().2@, t);
        assert forall|x: int| 0 <= x < voters.drop_last().len() implies !(
        #[trigger] voters.drop_last()[x]).2@.contains(t) by {
            assert(voters.drop_last()[x] == voters[x]);
        }
        lemma_approval_zero(voters.drop_last(), t);
    }
}

/// Sorts `(target, stake)` entries with distinct targets by stake, then target.
fn sort_entries(entries: &Vec<(AccountId, u128)>) -> (r: Vec<(AccountId, u128)>)
    requires
        distinct_ids(entries@),
    ensures
        forall|x: (AccountId, u128)| r@.contains(x) <==> entries@.contains(x),
        forall|a: int, b: int| 0 <= a < b < r@.len() ==> entry_below(r@[a], r@[b]),
{
    let mut out: Vec<(AccountId, u128)> = Vec::new();
    let mut i: usize = 0;
    while i < entries.len()
        invariant
            0 <= i <= entries@.len(),
            distinct_ids(entries@),
            forall|x: (AccountId, u128)| out@.contains(x) <==> entries@.take(i as int).contains(x),
            forall|a: int, b: int| 0 <= a < b < out@.len() ==> entry_below(out@[a], out@[b]),
        decreases entries@.len() - i,
    {
        let e = entries[i];
        let mut p: usize = 0;
        while p < out.len() && (out[p].1 < e.1 || (out[p].1 == e.1 && out[p].0 < e.0))
            invariant
                0 <= p <= out@.len(),
                forall|a: int| 0 <= a < p ==> entry_below(out@[a], e),
            decreases out@.len() - p,
        {
            p = p + 1;
        }
        let ghost old_out = out@;
        proof {
            if p < old_out.len() {
                assert(old_out.contains(old_out[p as int]));
                let y = choose|y: int|
                    0 <= y < entries@.take(i as int).len() && entries@.take(i as int)[y]
                        == old_out[p as int];
                assert(entries@[y] == old_out[p as int]);
                assert(old_out[p as int].0 != e.0);
                assert(entry_below(e, old_out[p as int]));
            }
        }
        out.insert(p, e);
        assert forall|a: int, b: int| 0 <= a < b < out@.len() implies entry_below(
            out@[a],
            out@[b],
        ) by {
            if b < p {
                assert(out@[a] == old_out[a] && out@[b] == old_out[b]);
            } else if b == p {
                assert(out@[a] == old_out[a]);
            } else if a == p {
                assert(out@[b] == old_out[b - 1]);
                if b - 1 > p {
                    assert(entry_below(old_out[p as int], old_out[b - 1]));
                }
            } else if a < p {
                assert(out@[a] == old_out[a] && out@[b] == old_out[b - 1]);
            } else {
                assert(out@[a] == old_out[a - 1] && out@[b] == old_out[b - 1]);
            }
        }
        assert forall|x: (AccountId, u128)| out@.contains(x) <==> entries@.take(
            i as int + 1,
        ).contains(x) by {
            if out@.contains(x) {
                let y = choose|y: int| 0 <= y < out@.len() && out@[y] == x;
                if y < p {
                    assert(old_out[y] == x);
                } else if y > p {
                    assert(old_out[y - 1] == x);
                }
                if x != e {
                    assert(old_out.contains(x));
                }
            }
            lemma_take_contains(entries@, i as int, x);
            if entries@.take(i as int + 1).contains(x) {
                if x != e {
                    assert(old_out.contains(x));
                    let y = choose|y: int| 0 <= y < old_out.len() && old_out[y] == x;
                    if y < p {
                        assert(out@[y] == x);
                    } else {
                        assert(out@[y + 1] == x);
                    }
                } else {
                    assert(out@[p as int] == x);
                }
            }
        }
        i = i + 1;
    }
    assert(entries@.take(entries@.len() as int) =~= entries@);
    out
}

impl SortedTargets {
    /// Ranks every nominated target by the stake of the voters that nominate it,
    /// ascending, ties broken by the smaller identifier first.
    pub fn from_voters(voters: Vec<Voter>) -> (r: Self)
        requires
            total_edges(voters@) <= u64::MAX,
        ensures
            is_ranking(voters@, r.0@),
    {
        Self::rank(&voters)
    }

    /// As `from_voters`, on borrowed voters.
    pub fn rank(voters: &Vec<Voter>) -> (r: Self)
        requires
            total_edges(voters@) <= u64::MAX,
        ensures
            is_ranking(voters@, r.0@),
    {
        let entries = approval_stakes(voters);
        let sorted = sort_entries(&entries);
        let mut ids: Vec<AccountId> = Vec::new();
        let mut i: usize = 0;
        while i < sorted.len()
            invariant
                0 <= i <= sorted@.len(),
                ids@.len() == i,
                forall|k: int| 0 <= k < i ==> ids@[k] == sorted@[k].0,
            decreases sorted@.len() - i,
        {
            ids.push(sorted[i].0);
            i = i + 1;
        }
        proof {
            assert forall|k: int| 0 <= k < sorted@.len() implies sorted@[k].1 == approval_stake(
                voters@,
                #[trigger] sorted@[k].0,
            ) by {
                assert(sorted@.contains(sorted@[k]));
                let y = choose|y: int| 0 <= y < entries@.len() && entries@[y] == sorted@[k];
                assert(entries@[y].1 == approval_stake(voters@, entries@[y].0));
            }
            assert forall|t: AccountId| ids@.contains(t) <==> nominated(voters@, t) by {
                if ids@.contains(t) {
                    let k = choose|k: int| 0 <= k < ids@.len() && ids@[k] == t;
                    assert(sorted@.contains(sorted@[k]));
                    let y = choose|y: int| 0 <= y < entries@.len() && entries@[y] == sorted@[k];
                    assert(has_id(entries@, t));
                }
                if nominated(voters@, t) {
                    assert(has_id(entries@, t));
                    let y = choose|y: int| 0 <= y < entries@.len() && entries@[y].0 == t;
                    assert(entries@.contains(entries@[y]));
                    let k = choose|k: int| 0 <= k < sorted@.len() && sorted@[k] == entries@[y];
                    assert(ids@[k] == t);
                }
            }
            assert forall|a: int, b: int| 0 <= a < b < ids@.len() implies ranks_below(
                voters@,
                ids@[a],
                ids@[b],
            ) by {
                assert(entry_below(sorted@[a], sorted@[b]));
                assert(sorted@[a].1 == approval_stake(voters@, sorted@[a].0));
                assert(sorted@[b].1 == approval_stake(voters@, sorted@[b].0));
            }
        }
        SortedTargets(ids)
    }
}

/// Number of targets in the lower part of a Pareto split of `n` ranked targets:
/// the floor of 80% of `n`.
pub open spec fn pareto_split(n: int) -> int {
    n * 4 / 5
}

/// What the target at position `index` of a ranking of `n` targets receives of a
/// voter's `weight`.
pub open spec fn share_at(n: int, index: int, weight: int, distribution: ShareDistribution) -> int {
    match distribution {
        ShareDistribution::ProRata => weight / n,
        ShareDistribution::Pareto => if index < pareto_split(n) {
            (weight / 5) / pareto_split(n)
        } else {
            (weight * 4 / 5) / (n - pareto_split(n))
        },
    }
}

/// Spreads `weight` over every target of the ranking, in ranking order.
///
/// Pro-rata gives each of the `n` targets `weight / n`. Pareto splits the
/// ranking after its lower 80%: those targets share a fifth of `weight` evenly,
/// the others share four fifths evenly. A part without targets receives nothing.
pub fn share_distribution(
    sorted_targets: &SortedTargets,
    weight: u64,
    distribution: ShareDistribution,
) -> (r: Vec<(AccountId, u64)>)
    ensures
        r@.len() == sorted_targets.0@.len(),
        forall|i: int|
            0 <= i < r@.len() ==> (#[trigger] r@[i]).0 == sorted_targets.0@[i] && r@[i].1
                == share_at(sorted_targets.0@.len() as int, i, weight as int, distribution),
{
    let targets = &sorted_targets.0;
    let n = targets.len();
    let mut out: Vec<(AccountId, u64)> = Vec::new();
    if n == 0 {
        return out;
    }
    let split: usize = ((n as u128) * 4 / 5) as usize;
    assert((n as int) * 4 / 5 <= n) by (nonlinear_arith)
        requires
            n >= 1,
    ;
    let (low, high) = match distribution {
        ShareDistribution::ProRata => {
            let share = weight / (n as u64);
            (share, share)
        },
        ShareDistribution::Pareto => {
            let twenty_total: u64 = weight / 5;
            let eighty_total: u64 = ((weight as u128) * 4 / 5) as u64;
            let low = if split > 0 {
                twenty_total / (split as u64)
            } else {
                0
            };
            let high = if n > split {
                eighty_total / ((n - split) as u64)
            } else {
                0
            };
            (low, high)
        },
    };
    let mut i: usize = 0;
    while i < n
        invariant
            n == targets@.len(),
            n >= 1,
            split == pareto_split(n as int),
            split <= n,
            0 <= i <= n,
            out@.len() == i,
            distribution is ProRata ==> low == share_at(n as int, 0, weight as int, distribution)
                && high == low,
            distribution is Pareto ==> (split > 0 ==> low == share_at(
                n as int,
                0,
                weight as int,
                distribution,
            )) && (n > split ==> high == share_at(
                n as int,
                split as int,
                weight as int,
                distribution,
            )),
            forall|k: int|
                0 <= k < i ==> (#[trigger] out@[k]).0 == targets@[k] && out@[k].1 == share_at(
                    n as int,
                    k,
                    weight as int,
                    distribution,
                ),
        decreases n - i,
    {
        let share = if i < split {
            low
        } else {
            high
        };
        out.push((targets[i], share));
        i = i + 1;
    }
    out
}

} // verus!
