//! Building the election snapshot from the data the staking system provides,
//! bounded as the election provider bounds it, or with every listed voter.

use vstd::prelude::*;
use parity_scale_codec::Encode;
use crate::types::{voter_view, voters_view, AccountId, Snapshot, SnapshotMetadata, Voter};

verus! {

/// The election data that the staking system provides.
#[derive(Clone, Debug)]
pub struct ElectionData {
    /// Every voter of the voter list, in list order.
    pub voters: Vec<Voter>,
    /// Every electable target.
    pub targets: Vec<AccountId>,
    /// How many winners the election wants.
    pub desired_targets: u32,
    /// How many voters an election may take, when bounded.
    pub max_electing_voters: Option<u32>,
    /// How many targets an election may take.
    pub max_electable_targets: u32,
}

/// The stored snapshot of an election provider, if any.
#[derive(Clone, Debug)]
pub struct ElectionState {
    pub snapshot: Option<Snapshot>,
    pub metadata: Option<SnapshotMetadata>,
    pub desired_targets: Option<u32>,
}

/// Why no snapshot could be built.
#[derive(Clone, Copy, Debug, PartialEq, Eq, Structural)]
pub enum SnapshotError {
    /// The data provider could not enumerate the voters or targets within bounds.
    ElectionDataUnavailable,
}

/// How many voters the snapshot takes.
pub open spec fn voter_limit(data: ElectionData, unbounded: bool) -> int {
    if unbounded {
        data.voters@.len() as int
    } else {
        match data.max_electing_voters {
            Some(m) => m as int,
            None => data.voters@.len() as int,
        }
    }
}

pub open spec fn min(a: int, b: int) -> int {
    if a < b {
        a
    } else {
        b
    }
}

/// The snapshot built from `data`: the first voters of the list up to the voter
/// limit, every target, and the desired number of winners capped at the number
/// of targets; no snapshot when there are more targets than the target bound.
pub open spec fn snapshot_of(data: ElectionData, unbounded: bool) -> Result<
    (Seq<(AccountId, u64, Seq<AccountId>)>, Seq<AccountId>, u32),
    SnapshotError,
> {
    if data.targets@.len() > data.max_electable_targets {
        Err(SnapshotError::ElectionDataUnavailable)
    } else {
        Ok(
            (
                voters_view(data.voters@).take(min(voter_limit(data, unbounded), data.voters@.len() as int)),
                data.targets@,
                min(data.desired_targets as int, data.targets@.len() as int) as u32,
            ),
        )
    }
}

pub open spec fn snapshot_view(s: Snapshot) -> (Seq<(AccountId, u64, Seq<AccountId>)>, Seq<AccountId>) {
    (voters_view(s.voters@), s.targets@)
}

fn copy_ids(s: &Vec<AccountId>) -> (r: Vec<AccountId>)
    ensures
        r@ == s@,
{
    let mut r: Vec<AccountId> = Vec::new();
    let mut i: usize = 0;
    while i < s.len()
        invariant
            0 <= i <= s@.len(),
            r@ == s@.take(i as int),
        decreases s@.len() - i,
    {
        r.push(s[i]);
        i = i + 1;
        assert(r@ =~= s@.take(i as int));
    }
    assert(s@.take(s@.len() as int) =~= s@);
    r
}

/// Builds a snapshot from `data`: bounded by the electing-voter bound, or, when
/// `unbounded`, with every voter of the list.
pub fn build_snapshot(data: &ElectionData, unbounded: bool) -> (r: Result<
    (Snapshot, u32),
    SnapshotError,
>)
    ensures
        match snapshot_of(*data, unbounded) {
            Ok((voters, targets, desired)) => r matches Ok((s, d)) && snapshot_view(s) == (
                voters,
                targets,
            ) && d == desired,
            Err(e) => r == Err::<(Snapshot, u32), SnapshotError>(e),
        },
{
    if data.targets.len() > data.max_electable_targets as usize {
        return Err(SnapshotError::ElectionDataUnavailable);
    }
    let total = data.voters.len();
    let limit: usize = if unbounded {
        total
    } else {
        match data.max_electing_voters {
            Some(m) => if (m as usize) < total {
                m as usize
            } else {
                total
            },
            None => total,
        }
    };
    let mut voters: Vec<Voter> = Vec::new();
    let mut i: usize = 0;
    while i < limit
        invariant
            0 <= i <= limit <= data.voters@.len(),
            voters_view(voters@) == voters_view(data.voters@).take(i as int),
        decreases limit - i,
    {
        let v = &data.voters[i];
        let ghost prev = voters@;
        let item = (v.0, v.1, copy_ids(&v.2));
        voters.push(item);
        proof {
            let all = voters_view(data.voters@);
            assert(voters_view(voters@) =~= voters_view(prev).push(voter_view(item)));
            assert(voter_view(item) == all[i as int]);
            assert(all.take(i as int + 1) =~= all.take(i as int).push(all[i as int]));
        }
        i = i + 1;
    }
    let targets = copy_ids(&data.targets);
    let desired = if (data.desired_targets as usize) < targets.len() {
        data.desired_targets
    } else {
        targets.len() as u32
    };
    Ok((Snapshot { voters, targets }, desired))
}

/// The snapshot and its metadata are stored, and agree.
pub open spec fn stored(state: ElectionState) -> bool {
    &&& state.snapshot matches Some(s)
    &&& state.metadata matches Some(m)
    &&& m.voters == s.voters@.len()
    &&& m.targets == s.targets@.len()
}

/// Every length that the encoding writes fits in a `u32`.
pub open spec fn encodable(voters: Seq<(AccountId, u64, Seq<AccountId>)>, targets: Seq<AccountId>) -> bool {
    &&& voters.len() <= u32::MAX
    &&& targets.len() <= u32::MAX
    &&& forall|i: int| 0 <= i < voters.len() ==> (#[trigger] voters[i]).2.len() <= u32::MAX
}

/// Length of the SCALE encoding of a snapshot's voters and targets.
pub uninterp spec fn encoded_len_of(
    voters: Seq<(AccountId, u64, Seq<AccountId>)>,
    targets: Seq<AccountId>,
) -> usize;

/// Relies on parity_scale_codec's `Encode::encoded_size` of the pair of the
/// voters and the targets, the layout of a stored snapshot: the length depends
/// on the values alone. It panics on a sequence longer than `u32::MAX`.
#[verifier::external_body]
fn encoded_size(snapshot: &Snapshot) -> (r: usize)
    requires
        encodable(voters_view(snapshot.voters@), snapshot.targets@),
    ensures
        r == encoded_len_of(voters_view(snapshot.voters@), snapshot.targets@),
{
    (&snapshot.voters, &snapshot.targets).encoded_size()
}

/// Whether every length of the data's encoding fits in a `u32`.
pub fn data_is_encodable(data: &ElectionData) -> (r: bool)
    ensures
        r == encodable(voters_view(data.voters@), data.targets@),
{
    if data.voters.len() > u32::MAX as usize || data.targets.len() > u32::MAX as usize {
        return false;
    }
    let ghost vv = voters_view(data.voters@);
    let mut i: usize = 0;
    while i < data.voters.len()
        invariant
            0 <= i <= data.voters@.len(),
            vv == voters_view(data.voters@),
            forall|k: int| 0 <= k < i ==> (#[trigger] vv[k]).2.len() <= u32::MAX,
        decreases data.voters@.len() - i,
    {
        if data.voters[i].2.len() > u32::MAX as usize {
            assert(vv[i as int].2.len() > u32::MAX);
            return false;
        }
        i = i + 1;
    }
    true
}

/// The metadata that counts a snapshot.
pub open spec fn counts_of(s: Snapshot) -> SnapshotMetadata {
    SnapshotMetadata { voters: s.voters@.len() as u32, targets: s.targets@.len() as u32 }
}

/// The metadata returned for a stored snapshot `s`: the stored metadata, or
/// the counts of `s` when none is stored.
pub open spec fn reused_metadata(state: ElectionState, s: Snapshot) -> SnapshotMetadata {
    match state.metadata {
        Some(m) => m,
        None => counts_of(s),
    }
}

/// Returns the metadata and encoded size of the stored snapshot, which is
/// reused as it is (metadata that disagree with it are returned as stored; when
/// no metadata is stored, the snapshot's counts are stored and returned). When
/// no snapshot is stored, first builds a bounded snapshot from `data` and
/// stores it with its metadata and desired number of winners.
pub fn snapshot_data_or_force(state: &mut ElectionState, data: &ElectionData) -> (r: Result<
    (SnapshotMetadata, usize),
    SnapshotError,
>)
    requires
        encodable(voters_view(data.voters@), data.targets@),
        old(state).snapshot matches Some(s) ==> encodable(voters_view(s.voters@), s.targets@),
    ensures
        old(state).snapshot matches Some(s) ==> {
            &&& final(state).snapshot == old(state).snapshot
            &&& final(state).desired_targets == old(state).desired_targets
            &&& final(state).metadata == Some(reused_metadata(*old(state), s))
            &&& r == Ok::<(SnapshotMetadata, usize), SnapshotError>(
                (reused_metadata(*old(state), s), encoded_len_of(voters_view(s.voters@), s.targets@)),
            )
        },
        old(state).snapshot is None ==> match snapshot_of(*data, false) {
            Ok((voters, targets, desired)) => {
                &&& final(state).snapshot matches Some(s) && snapshot_view(s) == (voters, targets)
                    && r == Ok::<(SnapshotMetadata, usize), SnapshotError>(
                    (counts_of(s), encoded_len_of(voters, targets)),
                )
                &&& stored(*final(state))
                &&& final(state).desired_targets == Some(desired)
                &&& final(state).metadata == Some(r->Ok_0.0)
            },
            Err(e) => *final(state) == *old(state) && r == Err::<(SnapshotMetadata, usize), SnapshotError>(
                e,
            ),
        },
{
    let stored_snapshot = match &state.snapshot {
        Some(s) => Some(encoded_size(s)),
        None => None,
    };
    match stored_snapshot {
        Some(size) => {
            let metadata = match state.metadata {
                Some(m) => m,
                None => {
                    let s = state.snapshot.as_ref().unwrap();
                    SnapshotMetadata { voters: s.voters.len() as u32, targets: s.targets.len() as u32 }
                },
            };
            proof {
                let s = old(state).snapshot->Some_0;
                assert(voters_view(s.voters@).len() == s.voters@.len());
            }
            state.metadata = Some(metadata);
            Ok((metadata, size))
        },
        None => store_snapshot(state, data, false),
    }
}

/// Builds a snapshot from `data` with every voter of the list, and stores it in
/// place of any stored one, with its metadata and the desired number of winners
/// capped at the number of targets. On failure no snapshot and no metadata stay
/// stored, and the desired number of winners is left as it was.
pub fn compute_and_store_unbounded_snapshot(state: &mut ElectionState, data: &ElectionData) -> (r:
    Result<(SnapshotMetadata, usize), SnapshotError>)
    requires
        encodable(voters_view(data.voters@), data.targets@),
    ensures
        match snapshot_of(*data, true) {
            Ok((voters, targets, desired)) => {
                &&& final(state).snapshot matches Some(s) && snapshot_view(s) == (voters, targets)
                    && r == Ok::<(SnapshotMetadata, usize), SnapshotError>(
                    (counts_of(s), encoded_len_of(voters, targets)),
                )
                &&& stored(*final(state))
                &&& final(state).desired_targets == Some(desired)
                &&& final(state).metadata == Some(r->Ok_0.0)
            },
            Err(e) => {
                &&& final(state).snapshot is None
                &&& final(state).metadata is None
                &&& final(state).desired_targets == old(state).desired_targets
                &&& r == Err::<(SnapshotMetadata, usize), SnapshotError>(e)
            },
        },
{
    state.snapshot = None;
    state.metadata = None;
    store_snapshot(state, data, true)
}

fn store_snapshot(state: &mut ElectionState, data: &ElectionData, unbounded: bool) -> (r: Result<
    (SnapshotMetadata, usize),
    SnapshotError,
>)
    requires
        encodable(voters_view(data.voters@), data.targets@),
    ensures
        match snapshot_of(*data, unbounded) {
            Ok((voters, targets, desired)) => {
                &&& final(state).snapshot matches Some(s) && snapshot_view(s) == (voters, targets)
                    && r == Ok::<(SnapshotMetadata, usize), SnapshotError>(
                    (counts_of(s), encoded_len_of(voters, targets)),
                )
                &&& stored(*final(state))
                &&& final(state).desired_targets == Some(desired)
                &&& final(state).metadata == Some(r->Ok_0.0)
            },
            Err(e) => *final(state) == *old(state) && r == Err::<(SnapshotMetadata, usize), SnapshotError>(
                e,
            ),
        },
{
    match build_snapshot(data, unbounded) {
        Ok((snapshot, desired)) => {
            assert(voters_view(snapshot.voters@).len() == snapshot.voters@.len());
            let size = encoded_size(&snapshot);
            let metadata = SnapshotMetadata {
                voters: snapshot.voters.len() as u32,
                targets: snapshot.targets.len() as u32,
            };
            state.snapshot = Some(snapshot);
            state.metadata = Some(metadata);
            state.desired_targets = Some(desired);
            Ok((metadata, size))
        },
        Err(e) => Err(e),
    }
}

/// The unbounded snapshot of some data holds at least as many voters as the
/// bounded one, and the same targets.
pub proof fn lemma_unbounded_holds_more_voters(data: ElectionData)
    ensures
        snapshot_of(data, true) is Ok <==> snapshot_of(data, false) is Ok,
        snapshot_of(data, true) matches Ok((uv, ut, ud)) ==> snapshot_of(data, false) matches Ok(
            (bv, bt, bd),
        ) && uv.len() >= bv.len() && ut == bt && ud == bd,
{
}

} // verus!
