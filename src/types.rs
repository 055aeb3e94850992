use vstd::prelude::*;

verus! {

/// Identifier of an account: a voter, a target, a stash or a controller.
pub type AccountId = u32;

/// A voter of the snapshot: its identifier, its stake and the targets it nominates.
pub type Voter = (AccountId, u64, Vec<AccountId>);

/// Number of nominations of `t` in `ts`.
pub open spec fn occurrences(ts: Seq<AccountId>, t: AccountId) -> nat
    decreases ts.len(),
{
    if ts.len() == 0 {
        0
    } else {
        occurrences(ts.drop_last(), t) + if ts.last() == t {
            1nat
        } else {
            0nat
        }
    }
}

/// Number of nominations over all voters.
pub open spec fn total_edges(voters: Seq<Voter>) -> nat
    decreases voters.len(),
{
    if voters.len() == 0 {
        0
    } else {
        total_edges(voters.drop_last()) + voters.last().2@.len()
    }
}

/// Sum, over every nomination of `t`, of the stake of the nominating voter.
pub open spec fn approval_stake(voters: Seq<Voter>, t: AccountId) -> nat
    decreases voters.len(),
{
    if voters.len() == 0 {
        0
    } else {
        approval_stake(voters.drop_last(), t) + (voters.last().1 as nat) * occurrences(
            voters.last().2@,
            t,
        )
    }
}

/// Some voter nominates `t`.
pub open spec fn nominated(voters: Seq<Voter>, t: AccountId) -> bool {
    exists|i: int| 0 <= i < voters.len() && voters[i].2@.contains(t)
}

/// Membership in a prefix one longer than another.
pub proof fn lemma_take_contains<A>(s: Seq<A>, j: int, x: A)
    requires
        0 <= j < s.len(),
    ensures
        s.take(j + 1).contains(x) <==> (s.take(j).contains(x) || s[j] == x),
{
    let a = s.take(j);
    let b = s.take(j + 1);
    if a.contains(x) {
        let k = choose|k: int| 0 <= k < a.len() && a[k] == x;
        assert(b[k] == x);
    }
    if b.contains(x) {
        let k = choose|k: int| 0 <= k < b.len() && b[k] == x;
        if k < j {
            assert(a[k] == x);
        }
    }
    if s[j] == x {
        assert(b[j] == x);
    }
}

pub proof fn lemma_occurrences_bound(ts: Seq<AccountId>, t: AccountId)
    ensures
        occurrences(ts, t) <= ts.len(),
        occurrences(ts, t) > 0 <==> ts.contains(t),
    decreases ts.len(),
{
    if ts.len() > 0 {
        lemma_occurrences_bound(ts.drop_last(), t);
        if ts.contains(t) && ts.last() != t {
            let k = choose|k: int| 0 <= k < ts.len() && ts[k] == t;
            assert(ts.drop_last()[k] == t);
        }
        if ts.drop_last().contains(t) {
            let k = choose|k: int| 0 <= k < ts.drop_last().len() && ts.drop_last()[k] == t;
            assert(ts[k] == t);
        }
        assert(ts[ts.len() - 1] == ts.last());
    }
}

pub proof fn lemma_approval_bound(voters: Seq<Voter>, t: AccountId)
    ensures
        approval_stake(voters, t) <= total_edges(voters) * (u64::MAX as nat),
    decreases voters.len(),
{
    if voters.len() > 0 {
        lemma_approval_bound(voters.drop_last(), t);
        lemma_occurrences_bound(voters.last().2@, t);
        let s = voters.last().1 as nat;
        let o = occurrences(voters.last().2@, t);
        let l = voters.last().2@.len();
        assert(s * o <= (u64::MAX as nat) * l) by (nonlinear_arith)
            requires
                s <= u64::MAX,
                o <= l,
        ;
        assert(total_edges(voters) * (u64::MAX as nat) == total_edges(voters.drop_last()) * (
        u64::MAX as nat) + l * (u64::MAX as nat)) by (nonlinear_arith)
            requires
                total_edges(voters) == total_edges(voters.drop_last()) + l,
        ;
    }
}

pub proof fn lemma_total_edges_prefix(voters: Seq<Voter>, i: int)
    requires
        0 <= i <= voters.len(),
    ensures
        total_edges(voters.take(i)) <= total_edges(voters),
        i < voters.len() ==> total_edges(voters.take(i)) + voters[i].2@.len() == total_edges(
            voters.take(i + 1),
        ),
    decreases voters.len(),
{
    if i < voters.len() {
        assert(voters.take(i + 1).drop_last() =~= voters.take(i));
        lemma_total_edges_prefix(voters.drop_last(), i);
        assert(voters.drop_last().take(i) =~= voters.take(i));
        if i + 1 < voters.len() {
            lemma_total_edges_prefix(voters.drop_last(), i + 1);
            assert(voters.drop_last().take(i + 1) =~= voters.take(i + 1));
        } else {
            assert(voters.take(i + 1) =~= voters);
        }
    } else {
        assert(voters.take(i) =~= voters);
    }
}

/// Quality of an election outcome, compared field by field: the smallest
/// backing, the sum of backings and the sum of their squares.
#[derive(Clone, Copy, Debug, PartialEq, Eq, Structural)]
pub struct ElectionScore {
    /// The smallest total backing among the winners.
    pub minimal_stake: u128,
    /// The sum of the winners' total backings.
    pub sum_stake: u128,
    /// The sum of the squares of the winners' total backings.
    pub sum_stake_squared: u128,
}

/// A voter's stake spread over targets in absolute amounts.
#[derive(Clone, Debug)]
pub struct StakedAssignment {
    pub who: AccountId,
    pub distribution: Vec<(AccountId, u128)>,
}

impl View for StakedAssignment {
    type V = (AccountId, Seq<(AccountId, u128)>);

    open spec fn view(&self) -> Self::V {
        (self.who, self.distribution@)
    }
}

/// The backing of one target: its total and the amount each voter gives it.
#[derive(Clone, Debug)]
pub struct Support {
    pub target: AccountId,
    pub total: u128,
    pub voters: Vec<(AccountId, u128)>,
}

impl View for Support {
    type V = (AccountId, u128, Seq<(AccountId, u128)>);

    open spec fn view(&self) -> Self::V {
        (self.target, self.total, self.voters@)
    }
}

pub open spec fn assignments_view(s: Seq<StakedAssignment>) -> Seq<
    (AccountId, Seq<(AccountId, u128)>),
> {
    s.map_values(|a: StakedAssignment| a@)
}

pub open spec fn supports_view(s: Seq<Support>) -> Seq<(AccountId, u128, Seq<(AccountId, u128)>)> {
    s.map_values(|x: Support| x@)
}

/// The voters and targets of one election.
#[derive(Clone, Debug)]
pub struct Snapshot {
    pub voters: Vec<Voter>,
    pub targets: Vec<AccountId>,
}

/// Sizes of a snapshot.
#[derive(Clone, Copy, Debug, PartialEq, Eq, Structural)]
pub struct SnapshotMetadata {
    pub voters: u32,
    pub targets: u32,
}

/// A voter as plain values.
pub open spec fn voter_view(v: Voter) -> (AccountId, u64, Seq<AccountId>) {
    (v.0, v.1, v.2@)
}

pub open spec fn voters_view(s: Seq<Voter>) -> Seq<(AccountId, u64, Seq<AccountId>)> {
    s.map_values(|v: Voter| voter_view(v))
}

} // verus!
