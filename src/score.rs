//! Aggregation of staked assignments into supports, and the score of a set of
//! winners.

use vstd::prelude::*;
use sp_npos_elections::EvaluateSupport;
use crate::types::{
    assignments_view, supports_view, AccountId, ElectionScore, StakedAssignment, Support,
};

verus! {

/// `a + b`, saturating at `u128::MAX`.
pub open spec fn saturating_add(a: int, b: int) -> int {
    if a + b > u128::MAX {
        u128::MAX as int
    } else {
        a + b
    }
}

/// `a * a`, saturating at `u128::MAX`.
pub open spec fn saturating_square(a: int) -> int {
    if a * a > u128::MAX {
        u128::MAX as int
    } else {
        a * a
    }
}

/// Saturating sum of the amounts, taken from first to last.
pub open spec fn saturating_total(edges: Seq<(AccountId, u128)>) -> int
    decreases edges.len(),
{
    if edges.len() == 0 {
        0
    } else {
        saturating_add(saturating_total(edges.drop_last()), edges.last().1 as int)
    }
}

/// Saturating sum of the totals.
pub open spec fn sum_of_totals(s: Seq<(AccountId, u128, Seq<(AccountId, u128)>)>) -> int
    decreases s.len(),
{
    if s.len() == 0 {
        0
    } else {
        saturating_add(sum_of_totals(s.drop_last()), s.last().1 as int)
    }
}

/// Saturating sum of the squared totals.
pub open spec fn sum_of_squares(s: Seq<(AccountId, u128, Seq<(AccountId, u128)>)>) -> int
    decreases s.len(),
{
    if s.len() == 0 {
        0
    } else {
        saturating_add(sum_of_squares(s.drop_last()), saturating_square(s.last().1 as int))
    }
}

/// Smallest total; `u128::MAX` when there is none.
pub open spec fn min_total(s: Seq<(AccountId, u128, Seq<(AccountId, u128)>)>) -> int
    decreases s.len(),
{
    if s.len() == 0 {
        u128::MAX as int
    } else if (s.last().1 as int) < min_total(s.drop_last()) {
        s.last().1 as int
    } else {
        min_total(s.drop_last())
    }
}

/// The score of a set of winners: the smallest total (zero when there is no
/// winner), the saturating sum of totals and of their squares.
pub open spec fn score_of(s: Seq<(AccountId, u128, Seq<(AccountId, u128)>)>) -> ElectionScore {
    ElectionScore {
        minimal_stake: if s.len() == 0 {
            0
        } else {
            min_total(s) as u128
        },
        sum_stake: sum_of_totals(s) as u128,
        sum_stake_squared: sum_of_squares(s) as u128,
    }
}

/// The edges that `who` gives to `t`, in order, as `(who, amount)`.
pub open spec fn edges_towards(who: AccountId, dist: Seq<(AccountId, u128)>, t: AccountId) -> Seq<
    (AccountId, u128),
>
    decreases dist.len(),
{
    if dist.len() == 0 {
        Seq::empty()
    } else {
        edges_towards(who, dist.drop_last(), t) + if dist.last().0 == t {
            seq![(who, dist.last().1)]
        } else {
            Seq::empty()
        }
    }
}

/// Every edge towards `t` over all assignments, in order, as `(voter, amount)`.
pub open spec fn backing_of(assignments: Seq<(AccountId, Seq<(AccountId, u128)>)>, t: AccountId) -> Seq<
    (AccountId, u128),
>
    decreases assignments.len(),
{
    if assignments.len() == 0 {
        Seq::empty()
    } else {
        backing_of(assignments.drop_last(), t) + edges_towards(
            assignments.last().0,
            assignments.last().1,
            t,
        )
    }
}

/// Some assignment has an edge towards `t`.
pub open spec fn is_backed(assignments: Seq<(AccountId, Seq<(AccountId, u128)>)>, t: AccountId) -> bool {
    exists|i: int, j: int|
        0 <= i < assignments.len() && 0 <= j < assignments[i].1.len() && #[trigger] assignments[i].1[j].0
            == t
}

/// Supports of `assignments`: one per target that receives an edge, by
/// increasing target, each with the edges towards it and their saturating total.
pub open spec fn are_supports_of(
    s: Seq<(AccountId, u128, Seq<(AccountId, u128)>)>,
    assignments: Seq<(AccountId, Seq<(AccountId, u128)>)>,
) -> bool {
    &&& forall|i: int, j: int| 0 <= i < j < s.len() ==> s[i].0 < s[j].0
    &&& forall|t: AccountId|
        is_backed(assignments, t) <==> exists|i: int| 0 <= i < s.len() && #[trigger] s[i].0 == t
    &&& forall|i: int|
        0 <= i < s.len() ==> #[trigger] s[i].2 == backing_of(assignments, s[i].0) && s[i].1
            == saturating_total(s[i].2)
}

/// Relies on sp_npos_elections::to_supports: it collects, target by target in
/// increasing order, every edge of the assignments towards that target with the
/// saturating sum of their amounts.
#[verifier::external_body]
pub(crate) fn to_supports(assignments: &Vec<StakedAssignment>) -> (r: Vec<Support>)
    ensures
        are_supports_of(supports_view(r@), assignments_view(assignments@)),
{
    let staked: Vec<sp_npos_elections::StakedAssignment<AccountId>> = assignments
        .iter()
        .map(|a| sp_npos_elections::StakedAssignment { who: a.who, distribution: a.distribution.clone() })
        .collect();
    sp_npos_elections::to_supports(&staked)
        .into_iter()
        .map(|(target, s)| Support { target, total: s.total, voters: s.voters })
        .collect()
}

/// Relies on sp_npos_elections::EvaluateSupport::evaluate: the smallest total
/// (`u128::MAX` for no support), the saturating sum of the totals and the
/// saturating sum of their saturating squares.
#[verifier::external_body]
fn evaluate_nonempty(supports: &Vec<Support>) -> (r: ElectionScore)
    ensures
        r.minimal_stake == min_total(supports_view(supports@)),
        r.sum_stake == sum_of_totals(supports_view(supports@)),
        r.sum_stake_squared == sum_of_squares(supports_view(supports@)),
{
    let s: sp_npos_elections::Supports<AccountId> = supports
        .iter()
        .map(|x| (x.target, sp_npos_elections::Support { total: x.total, voters: x.voters.clone() }))
        .collect();
    let e = s.evaluate();
    ElectionScore { minimal_stake: e.minimal_stake, sum_stake: e.sum_stake, sum_stake_squared: e.sum_stake_squared }
}

pub proof fn lemma_score_bounds(s: Seq<(AccountId, u128, Seq<(AccountId, u128)>)>)
    ensures
        0 <= min_total(s) <= u128::MAX,
        0 <= sum_of_totals(s) <= u128::MAX,
        0 <= sum_of_squares(s) <= u128::MAX,
    decreases s.len(),
{
    if s.len() > 0 {
        lemma_score_bounds(s.drop_last());
        let x = s.last().1 as int;
        assert(x * x >= 0) by (nonlinear_arith);
    }
}

/// Score of the given winners; an empty set of winners scores zero on every field.
pub fn evaluate(supports: &Vec<Support>) -> (r: ElectionScore)
    ensures
        r == score_of(supports_view(supports@)),
{
    proof {
        lemma_score_bounds(supports_view(supports@));
    }
    if supports.len() == 0 {
        ElectionScore { minimal_stake: 0, sum_stake: 0, sum_stake_squared: 0 }
    } else {
        evaluate_nonempty(supports)
    }
}

proof fn lemma_increasing_unique(x: Seq<AccountId>, y: Seq<AccountId>)
    requires
        forall|i: int, j: int| 0 <= i < j < x.len() ==> x[i] < x[j],
        forall|i: int, j: int| 0 <= i < j < y.len() ==> y[i] < y[j],
        forall|t: AccountId| x.contains(t) <==> y.contains(t),
    ensures
        x == y,
    decreases x.len() + y.len(),
{
    if x.len() == 0 {
        if y.len() > 0 {
            assert(y.contains(y[0]));
        }
        assert(x =~= y);
    } else if y.len() == 0 {
        assert(x.contains(x[0]));
    } else {
        let lx = x.last();
        let ly = y.last();
        assert(x.contains(lx));
        assert(y.contains(ly));
        let j = choose|j: int| 0 <= j < y.len() && y[j] == lx;
        let k = choose|k: int| 0 <= k < x.len() && x[k] == ly;
        assert(lx <= ly) by {
            if j < y.len() - 1 {
                assert(y[j] < y[y.len() - 1]);
            }
        }
        assert(ly <= lx) by {
            if k < x.len() - 1 {
                assert(x[k] < x[x.len() - 1]);
            }
        }
        let dx = x.drop_last();
        let dy = y.drop_last();
        assert forall|t: AccountId| dx.contains(t) <==> dy.contains(t) by {
            if dx.contains(t) {
                let a = choose|a: int| 0 <= a < dx.len() && dx[a] == t;
                assert(x[a] == t && x[a] < lx);
                assert(x.contains(t));
                let b = choose|b: int| 0 <= b < y.len() && y[b] == t;
                assert(b != y.len() - 1);
                assert(dy[b] == t);
            }
            if dy.contains(t) {
                let a = choose|a: int| 0 <= a < dy.len() && dy[a] == t;
                assert(y[a] == t && y[a] < ly);
                assert(y.contains(t));
                let b = choose|b: int| 0 <= b < x.len() && x[b] == t;
                assert(b != x.len() - 1);
                assert(dx[b] == t);
            }
        }
        lemma_increasing_unique(dx, dy);
        assert(x =~= dx.push(lx));
        assert(y =~= dy.push(ly));
    }
}

/// The supports of a set of assignments are unique.
pub proof fn lemma_supports_unique(
    a: Seq<(AccountId, u128, Seq<(AccountId, u128)>)>,
    b: Seq<(AccountId, u128, Seq<(AccountId, u128)>)>,
    assignments: Seq<(AccountId, Seq<(AccountId, u128)>)>,
)
    requires
        are_supports_of(a, assignments),
        are_supports_of(b, assignments),
    ensures
        a == b,
{
    let ka = a.map_values(|x: (AccountId, u128, Seq<(AccountId, u128)>)| x.0);
    let kb = b.map_values(|x: (AccountId, u128, Seq<(AccountId, u128)>)| x.0);
    assert forall|t: AccountId| ka.contains(t) <==> kb.contains(t) by {
        if ka.contains(t) {
            let i = choose|i: int| 0 <= i < ka.len() && ka[i] == t;
            assert(a[i].0 == t);
            assert(is_backed(assignments, t));
            let j = choose|j: int| 0 <= j < b.len() && #[trigger] b[j].0 == t;
            assert(kb[j] == t);
        }
        if kb.contains(t) {
            let i = choose|i: int| 0 <= i < kb.len() && kb[i] == t;
            assert(b[i].0 == t);
            assert(is_backed(assignments, t));
            let j = choose|j: int| 0 <= j < a.len() && #[trigger] a[j].0 == t;
            assert(ka[j] == t);
        }
    }
    lemma_increasing_unique(ka, kb);
    assert(a.len() == ka.len() && b.len() == kb.len());
    assert forall|i: int| 0 <= i < a.len() implies a[i] == b[i] by {
        assert(ka[i] == kb[i]);
        assert(a[i].0 == b[i].0);
        assert(a[i].2 == backing_of(assignments, a[i].0));
        assert(b[i].2 == backing_of(assignments, b[i].0));
        assert(a[i].1 == b[i].1);
    }
    assert(a =~= b);
}

} // verus!
