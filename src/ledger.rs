//! Consistency checks of the staking ledger over two snapshots taken at a parent
//! and a child block, and a simulated migration that turns the stashes whose
//! bond leads to no ledger into self-bonded stashes.

use vstd::prelude::*;
use std::collections::BTreeMap;
use crate::types::AccountId;

verus! {

/// The bonding state of the staking system at one block.
#[derive(Clone, Debug)]
pub struct StakingLedgers {
    pub block_number: u32,
    /// `(stash, controller)`: the controller each stash is bonded to.
    pub bonded: Vec<(AccountId, AccountId)>,
    /// `(controller, stash)`: the ledger held under each controller, by the
    /// stash that it records.
    pub ledgers: Vec<(AccountId, AccountId)>,
    /// The stashes that have a payee record.
    pub payees: Vec<AccountId>,
}

/// Sizes of the three relations of a block.
#[derive(Clone, Copy, Debug, PartialEq, Eq, Structural)]
pub struct LedgerCounts {
    pub ledgers: usize,
    pub bonded: usize,
    pub payees: usize,
}

/// Classification of every bonded pair of a block.
#[derive(Clone, Debug)]
pub struct BondedReport {
    /// `(stash, controller)` pairs whose controller holds no ledger.
    pub no_ledger: Vec<(AccountId, AccountId)>,
    /// `(stash, recorded stash)` pairs whose controller holds the ledger of
    /// another stash.
    pub inconsistent: Vec<(AccountId, AccountId)>,
    /// Stashes whose controller holds their own ledger.
    pub ok: Vec<AccountId>,
}

/// The scratch state after the simulated migration.
#[derive(Clone, Debug)]
pub struct Migration {
    /// stash to controller.
    pub bonded: BTreeMap<AccountId, AccountId>,
    /// controller to recorded stash.
    pub ledgers: BTreeMap<AccountId, AccountId>,
}

/// Everything the checker finds over a parent and a child block.
#[derive(Clone, Debug)]
pub struct LedgerReport {
    pub parent_block: u32,
    pub child_block: u32,
    pub child_counts: LedgerCounts,
    /// Stashes of child ledgers whose stash is not bonded to the ledger's controller.
    pub child_bad_stashes: Vec<AccountId>,
    pub child_bonded: BondedReport,
    pub parent_counts: LedgerCounts,
    pub parent_bad_stashes: Vec<AccountId>,
    /// The parent block after every child stash without a ledger was made self-bonded.
    pub migration: Migration,
    pub migrated_counts: LedgerCounts,
}

/// Why the checker cannot complete.
#[derive(Clone, Copy, Debug, PartialEq, Eq, Structural)]
pub enum LedgerCheckError {
    /// The checker needs exactly two snapshots; it was given this many.
    SnapshotCount(usize),
    /// The migration found no ledger under this controller in the parent block.
    MissingLedger { stash: AccountId, controller: AccountId },
}

/// The map that a list of pairs stands for; a later pair wins over an earlier one.
pub open spec fn as_map(s: Seq<(AccountId, AccountId)>) -> Map<AccountId, AccountId>
    decreases s.len(),
{
    if s.len() == 0 {
        Map::empty()
    } else {
        as_map(s.drop_last()).insert(s.last().0, s.last().1)
    }
}

/// `m` maps `k` to `v`.
pub open spec fn maps(m: Map<AccountId, AccountId>, k: AccountId, v: AccountId) -> bool {
    m.contains_key(k) && m[k] == v
}

/// Stashes of the ledgers `(controller, stash)` whose stash is not bonded to
/// that controller, in ledger order.
pub open spec fn bad_stashes_of(ledgers: Seq<(AccountId, AccountId)>, bonded: Map<AccountId, AccountId>) -> Seq<
    AccountId,
>
    decreases ledgers.len(),
{
    if ledgers.len() == 0 {
        Seq::empty()
    } else {
        let rest = bad_stashes_of(ledgers.drop_last(), bonded);
        let (controller, stash) = ledgers.last();
        if maps(bonded, stash, controller) {
            rest
        } else {
            rest.push(stash)
        }
    }
}

/// Bonded pairs whose controller holds no ledger, in bonded order.
pub open spec fn no_ledger_of(bonded: Seq<(AccountId, AccountId)>, ledgers: Map<AccountId, AccountId>) -> Seq<
    (AccountId, AccountId),
>
    decreases bonded.len(),
{
    if bonded.len() == 0 {
        Seq::empty()
    } else {
        let rest = no_ledger_of(bonded.drop_last(), ledgers);
        if ledgers.contains_key(bonded.last().1) {
            rest
        } else {
            rest.push(bonded.last())
        }
    }
}

/// `(stash, recorded stash)` for the bonded pairs whose controller holds the
/// ledger of another stash, in bonded order.
pub open spec fn inconsistent_of(
    bonded: Seq<(AccountId, AccountId)>,
    ledgers: Map<AccountId, AccountId>,
) -> Seq<(AccountId, AccountId)>
    decreases bonded.len(),
{
    if bonded.len() == 0 {
        Seq::empty()
    } else {
        let rest = inconsistent_of(bonded.drop_last(), ledgers);
        let (stash, controller) = bonded.last();
        if ledgers.contains_key(controller) && ledgers[controller] != stash {
            rest.push((stash, ledgers[controller]))
        } else {
            rest
        }
    }
}

/// Stashes whose controller holds their own ledger, in bonded order.
pub open spec fn ok_of(bonded: Seq<(AccountId, AccountId)>, ledgers: Map<AccountId, AccountId>) -> Seq<
    AccountId,
>
    decreases bonded.len(),
{
    if bonded.len() == 0 {
        Seq::empty()
    } else {
        let rest = ok_of(bonded.drop_last(), ledgers);
        let (stash, controller) = bonded.last();
        if maps(ledgers, controller, stash) {
            rest.push(stash)
        } else {
            rest
        }
    }
}

/// The bonded and ledger maps after making each stash of `batch` self-bonded and
/// moving its ledger from the controller to the stash; `None` when a controller
/// of the batch holds no ledger at that point.
pub open spec fn migrated(
    bonded: Map<AccountId, AccountId>,
    ledgers: Map<AccountId, AccountId>,
    batch: Seq<(AccountId, AccountId)>,
) -> Option<(Map<AccountId, AccountId>, Map<AccountId, AccountId>)>
    decreases batch.len(),
{
    if batch.len() == 0 {
        Some((bonded, ledgers))
    } else {
        match migrated(bonded, ledgers, batch.drop_last()) {
            None => None,
            Some((b, l)) => {
                let (stash, controller) = batch.last();
                if l.contains_key(controller) {
                    Some((b.insert(stash, stash), l.remove(controller).insert(stash, l[controller])))
                } else {
                    None
                }
            },
        }
    }
}

/// The first pair of `batch` whose controller holds no ledger during the migration.
pub open spec fn first_missing(
    bonded: Map<AccountId, AccountId>,
    ledgers: Map<AccountId, AccountId>,
    batch: Seq<(AccountId, AccountId)>,
) -> (AccountId, AccountId)
    decreases batch.len(),
{
    if batch.len() == 0 {
        (0, 0)
    } else if migrated(bonded, ledgers, batch.drop_last()) is None {
        first_missing(bonded, ledgers, batch.drop_last())
    } else {
        batch.last()
    }
}

pub open spec fn counts_of(s: StakingLedgers) -> LedgerCounts {
    LedgerCounts {
        ledgers: s.ledgers@.len() as usize,
        bonded: s.bonded@.len() as usize,
        payees: s.payees@.len() as usize,
    }
}

impl LedgerCounts {
    /// The three relations have the same size.
    pub fn in_sync(&self) -> (r: bool)
        ensures
            r == (self.ledgers == self.bonded && self.ledgers == self.payees),
    {
        self.ledgers == self.bonded && self.ledgers == self.payees
    }
}

/// The map of a list of pairs.
fn to_map(s: &Vec<(AccountId, AccountId)>) -> (m: BTreeMap<AccountId, AccountId>)
    ensures
        m@ == as_map(s@),
{
    let mut m: BTreeMap<AccountId, AccountId> = BTreeMap::new();
    let mut i: usize = 0;
    while i < s.len()
        invariant
            0 <= i <= s@.len(),
            m@ == as_map(s@.take(i as int)),
        decreases s@.len() - i,
    {
        assert(s@.take(i as int + 1).drop_last() =~= s@.take(i as int));
        m.insert(s[i].0, s[i].1);
        i = i + 1;
    }
    assert(s@.take(s@.len() as int) =~= s@);
    m
}

/// Sizes of the ledger, bonded and payee relations of `state`.
pub fn ledger_counts(state: &StakingLedgers) -> (r: LedgerCounts)
    ensures
        r == counts_of(*state),
{
    LedgerCounts { ledgers: state.ledgers.len(), bonded: state.bonded.len(), payees: state.payees.len() }
}

/// The stash of every ledger whose stash is not bonded to the ledger's
/// controller, in ledger order.
pub fn ledger_checks(state: &StakingLedgers) -> (r: Vec<AccountId>)
    ensures
        r@ == bad_stashes_of(state.ledgers@, as_map(state.bonded@)),
{
    let bonded = to_map(&state.bonded);
    let ledgers = &state.ledgers;
    let mut r: Vec<AccountId> = Vec::new();
    let mut i: usize = 0;
    while i < ledgers.len()
        invariant
            0 <= i <= ledgers@.len(),
            bonded@ == as_map(state.bonded@),
            ledgers == &state.ledgers,
            r@ == bad_stashes_of(ledgers@.take(i as int), bonded@),
        decreases ledgers@.len() - i,
    {
        assert(ledgers@.take(i as int + 1).drop_last() =~= ledgers@.take(i as int));
        let (controller, stash) = ledgers[i];
        let matches = match bonded.get(&stash) {
            Some(c) => *c == controller,
            None => false,
        };
        if !matches {
            r.push(stash);
        }
        i = i + 1;
    }
    assert(ledgers@.take(ledgers@.len() as int) =~= ledgers@);
    r
}

/// Classifies every bonded pair of `state`: its controller holds no ledger,
/// the ledger of another stash, or the stash's own ledger.
pub fn bonded_checks(state: &StakingLedgers) -> (r: BondedReport)
    ensures
        r.no_ledger@ == no_ledger_of(state.bonded@, as_map(state.ledgers@)),
        r.inconsistent@ == inconsistent_of(state.bonded@, as_map(state.ledgers@)),
        r.ok@ == ok_of(state.bonded@, as_map(state.ledgers@)),
{
    let ledgers = to_map(&state.ledgers);
    let bonded = &state.bonded;
    let mut no_ledger: Vec<(AccountId, AccountId)> = Vec::new();
    let mut inconsistent: Vec<(AccountId, AccountId)> = Vec::new();
    let mut ok: Vec<AccountId> = Vec::new();
    let mut i: usize = 0;
    while i < bonded.len()
        invariant
            0 <= i <= bonded@.len(),
            ledgers@ == as_map(state.ledgers@),
            bonded == &state.bonded,
            no_ledger@ == no_ledger_of(bonded@.take(i as int), ledgers@),
            inconsistent@ == inconsistent_of(bonded@.take(i as int), ledgers@),
            ok@ == ok_of(bonded@.take(i as int), ledgers@),
        decreases bonded@.len() - i,
    {
        assert(bonded@.take(i as int + 1).drop_last() =~= bonded@.take(i as int));
        let (stash, controller) = bonded[i];
        match ledgers.get(&controller) {
            None => {
                no_ledger.push((stash, controller));
            },
            Some(recorded) => {
                if *recorded != stash {
                    inconsistent.push((stash, *recorded));
                } else {
                    ok.push(stash);
                }
            },
        }
        i = i + 1;
    }
    assert(bonded@.take(bonded@.len() as int) =~= bonded@);
    BondedReport { no_ledger, inconsistent, ok }
}

/// Simulates, on a scratch copy of `state`, the migration of every
/// `(stash, controller)` of `batch`: the stash becomes bonded to itself and the
/// ledger moves from the controller to the stash. `state` is left as it is.
pub fn deprecate_controller_simulation(
    state: &StakingLedgers,
    batch: &Vec<(AccountId, AccountId)>,
) -> (r: Result<Migration, LedgerCheckError>)
    ensures
        migrated(as_map(state.bonded@), as_map(state.ledgers@), batch@) matches Some((b, l)) ==> r
            matches Ok(m) && m.bonded@ == b && m.ledgers@ == l,
        migrated(as_map(state.bonded@), as_map(state.ledgers@), batch@) is None ==> r == Err::<
            Migration,
            LedgerCheckError,
        >(
            LedgerCheckError::MissingLedger {
                stash: first_missing(as_map(state.bonded@), as_map(state.ledgers@), batch@).0,
                controller: first_missing(as_map(state.bonded@), as_map(state.ledgers@), batch@).1,
            },
        ),
{
    let ghost b0 = as_map(state.bonded@);
    let ghost l0 = as_map(state.ledgers@);
    let mut bonded = to_map(&state.bonded);
    let mut ledgers = to_map(&state.ledgers);
    let mut i: usize = 0;
    while i < batch.len()
        invariant
            0 <= i <= batch@.len(),
            b0 == as_map(state.bonded@),
            l0 == as_map(state.ledgers@),
            migrated(b0, l0, batch@.take(i as int)) == Some((bonded@, ledgers@)),
        decreases batch@.len() - i,
    {
        let ghost prefix = batch@.take(i as int + 1);
        assert(prefix.drop_last() =~= batch@.take(i as int));
        let (stash, controller) = batch[i];
        let ghost before = ledgers@;
        assert(prefix.last() == (stash, controller));
        match ledgers.remove(&controller) {
            None => {
                proof {
                    assert(!before.contains_key(controller));
                    assert(migrated(b0, l0, prefix) is None);
                    lemma_migration_stops(b0, l0, batch@, i as int + 1);
                }
                return Err(LedgerCheckError::MissingLedger { stash, controller });
            },
            Some(recorded) => {
                bonded.insert(stash, stash);
                ledgers.insert(stash, recorded);
            },
        }
        i = i + 1;
    }
    assert(batch@.take(batch@.len() as int) =~= batch@);
    Ok(Migration { bonded, ledgers })
}

/// Once the migration of a prefix of the batch fails, that of the whole batch
/// fails at the same pair.
proof fn lemma_migration_stops(
    b: Map<AccountId, AccountId>,
    l: Map<AccountId, AccountId>,
    batch: Seq<(AccountId, AccountId)>,
    k: int,
)
    requires
        0 < k <= batch.len(),
        migrated(b, l, batch.take(k)) is None,
        migrated(b, l, batch.take(k - 1)) is Some,
    ensures
        migrated(b, l, batch) is None,
        first_missing(b, l, batch) == batch[k - 1],
    decreases batch.len(),
{
    if k == batch.len() {
        assert(batch.take(k) =~= batch);
        assert(batch.take(k).drop_last() =~= batch.take(k - 1));
    } else {
        assert(batch.drop_last().take(k) =~= batch.take(k));
        assert(batch.drop_last().take(k - 1) =~= batch.take(k - 1));
        lemma_migration_stops(b, l, batch.drop_last(), k);
    }
}

/// Position of the parent among two snapshots: the one with the smaller block
/// number; the second one when both have the same.
pub open spec fn parent_index(s: Seq<StakingLedgers>) -> int {
    if s[1].block_number > s[0].block_number {
        0
    } else {
        1
    }
}

/// What the checker reports on a `parent` and a `child` block, given the
/// outcome `(b, l)` of the migration of the child's stashes without ledger.
pub open spec fn is_report_of(
    r: LedgerReport,
    parent: StakingLedgers,
    child: StakingLedgers,
    b: Map<AccountId, AccountId>,
    l: Map<AccountId, AccountId>,
) -> bool {
    &&& r.parent_block == parent.block_number
    &&& r.child_block == child.block_number
    &&& r.child_counts == counts_of(child)
    &&& r.child_bad_stashes@ == bad_stashes_of(child.ledgers@, as_map(child.bonded@))
    &&& r.child_bonded.no_ledger@ == no_ledger_of(child.bonded@, as_map(child.ledgers@))
    &&& r.child_bonded.inconsistent@ == inconsistent_of(child.bonded@, as_map(child.ledgers@))
    &&& r.child_bonded.ok@ == ok_of(child.bonded@, as_map(child.ledgers@))
    &&& r.parent_counts == counts_of(parent)
    &&& r.parent_bad_stashes@ == bad_stashes_of(parent.ledgers@, as_map(parent.bonded@))
    &&& r.migration.bonded@ == b
    &&& r.migration.ledgers@ == l
    &&& r.migrated_counts == (LedgerCounts {
        ledgers: l.len() as usize,
        bonded: b.len() as usize,
        payees: parent.payees@.len() as usize,
    })
}

/// Checks the staking ledger over two snapshots.
///
/// The snapshot with the smaller block number is the parent, the other the
/// child. The child's ledgers and bonded pairs are checked, the parent's ledgers
/// are checked, and every child stash whose controller holds no ledger is
/// migrated on a scratch copy of the parent. Inconsistencies are reported, not
/// raised; the checker fails only without exactly two snapshots, or when the
/// parent holds no ledger for a controller to migrate.
pub fn staking_ledger_checks(snapshots: Vec<StakingLedgers>) -> (r: Result<
    LedgerReport,
    LedgerCheckError,
>)
    ensures
        snapshots@.len() != 2 ==> r == Err::<LedgerReport, LedgerCheckError>(
            LedgerCheckError::SnapshotCount(snapshots@.len() as usize),
        ),
        snapshots@.len() == 2 ==> {
            let parent = snapshots@[parent_index(snapshots@)];
            let child = snapshots@[1 - parent_index(snapshots@)];
            let batch = no_ledger_of(child.bonded@, as_map(child.ledgers@));
            let pb = as_map(parent.bonded@);
            let pl = as_map(parent.ledgers@);
            match migrated(pb, pl, batch) {
                Some((b, l)) => r matches Ok(rep) && is_report_of(rep, parent, child, b, l),
                None => r == Err::<LedgerReport, LedgerCheckError>(
                    LedgerCheckError::MissingLedger {
                        stash: first_missing(pb, pl, batch).0,
                        controller: first_missing(pb, pl, batch).1,
                    },
                ),
            }
        },
{
    if snapshots.len() != 2 {
        return Err(LedgerCheckError::SnapshotCount(snapshots.len()));
    }
    let (parent, child) = if snapshots[1].block_number > snapshots[0].block_number {
        (&snapshots[0], &snapshots[1])
    } else {
        (&snapshots[1], &snapshots[0])
    };
    let child_counts = ledger_counts(child);
    let child_bad_stashes = ledger_checks(child);
    let child_bonded = bonded_checks(child);
    let parent_counts = ledger_counts(parent);
    let parent_bad_stashes = ledger_checks(parent);
    let migration = match deprecate_controller_simulation(parent, &child_bonded.no_ledger) {
        Ok(m) => m,
        Err(e) => {
            return Err(e);
        },
    };
    let migrated_counts = LedgerCounts {
        ledgers: migration.ledgers.len(),
        bonded: migration.bonded.len(),
        payees: parent.payees.len(),
    };
    Ok(LedgerReport {
        parent_block: parent.block_number,
        child_block: child.block_number,
        child_counts,
        child_bad_stashes,
        child_bonded,
        parent_counts,
        parent_bad_stashes,
        migration,
        migrated_counts,
    })
}

/// Every ledger `(controller, stash)` has its stash bonded to its controller,
/// and every bonded `(stash, controller)` has its controller hold the stash's ledger.
pub open spec fn consistent(bonded: Seq<(AccountId, AccountId)>, ledgers: Seq<(AccountId, AccountId)>) -> bool {
    &&& forall|j: int| 0 <= j < ledgers.len() ==> maps(as_map(bonded), #[trigger] ledgers[j].1, ledgers[j].0)
    &&& forall|j: int| 0 <= j < bonded.len() ==> maps(as_map(ledgers), #[trigger] bonded[j].1, bonded[j].0)
}

proof fn lemma_no_bad_stash(ledgers: Seq<(AccountId, AccountId)>, bonded: Map<AccountId, AccountId>)
    requires
        forall|j: int| 0 <= j < ledgers.len() ==> maps(bonded, #[trigger] ledgers[j].1, ledgers[j].0),
    ensures
        bad_stashes_of(ledgers, bonded) == Seq::<AccountId>::empty(),
    decreases ledgers.len(),
{
    if ledgers.len() > 0 {
        assert forall|j: int| 0 <= j < ledgers.drop_last().len() implies maps(
            bonded,
            #[trigger] ledgers.drop_last()[j].1,
            ledgers.drop_last()[j].0,
        ) by {
            assert(ledgers.drop_last()[j] == ledgers[j]);
        }
        lemma_no_bad_stash(ledgers.drop_last(), bonded);
        assert(maps(bonded, ledgers[ledgers.len() - 1].1, ledgers[ledgers.len() - 1].0));
    }
}

proof fn lemma_all_bonded_ok(bonded: Seq<(AccountId, AccountId)>, ledgers: Map<AccountId, AccountId>)
    requires
        forall|j: int| 0 <= j < bonded.len() ==> maps(ledgers, #[trigger] bonded[j].1, bonded[j].0),
    ensures
        no_ledger_of(bonded, ledgers) == Seq::<(AccountId, AccountId)>::empty(),
        inconsistent_of(bonded, ledgers) == Seq::<(AccountId, AccountId)>::empty(),
        ok_of(bonded, ledgers) == bonded.map_values(|p: (AccountId, AccountId)| p.0),
    decreases bonded.len(),
{
    if bonded.len() > 0 {
        let d = bonded.drop_last();
        assert forall|j: int| 0 <= j < d.len() implies maps(ledgers, #[trigger] d[j].1, d[j].0) by {
            assert(d[j] == bonded[j]);
        }
        lemma_all_bonded_ok(d, ledgers);
        assert(maps(ledgers, bonded[bonded.len() - 1].1, bonded[bonded.len() - 1].0));
        assert(bonded.map_values(|p: (AccountId, AccountId)| p.0) =~= d.map_values(
            |p: (AccountId, AccountId)| p.0,
        ).push(bonded.last().0));
    }
}

proof fn lemma_one_dangling(bonded: Seq<(AccountId, AccountId)>, ledgers: Map<AccountId, AccountId>, i: int)
    requires
        0 <= i < bonded.len(),
        !ledgers.contains_key(bonded[i].1),
        forall|j: int|
            0 <= j < bonded.len() && j != i ==> maps(ledgers, #[trigger] bonded[j].1, bonded[j].0),
    ensures
        no_ledger_of(bonded, ledgers) == seq![bonded[i]],
        inconsistent_of(bonded, ledgers) == Seq::<(AccountId, AccountId)>::empty(),
    decreases bonded.len(),
{
    let d = bonded.drop_last();
    if i == bonded.len() - 1 {
        assert forall|j: int| 0 <= j < d.len() implies maps(ledgers, #[trigger] d[j].1, d[j].0) by {
            assert(d[j] == bonded[j]);
        }
        lemma_all_bonded_ok(d, ledgers);
        assert(Seq::<(AccountId, AccountId)>::empty().push(bonded[i]) =~= seq![bonded[i]]);
    } else {
        assert forall|j: int| 0 <= j < d.len() && j != i implies maps(
            ledgers,
            #[trigger] d[j].1,
            d[j].0,
        ) by {
            assert(d[j] == bonded[j]);
        }
        assert(d[i] == bonded[i]);
        lemma_one_dangling(d, ledgers, i);
        assert(maps(ledgers, bonded[bonded.len() - 1].1, bonded[bonded.len() - 1].0));
    }
}

/// When every ledger and every bond agree with each other, the checks find no
/// bad stash, no bond without ledger and no inconsistent ledger: every bonded
/// stash is reported ok.
pub proof fn lemma_consistent_ledgers_are_clean(
    bonded: Seq<(AccountId, AccountId)>,
    ledgers: Seq<(AccountId, AccountId)>,
)
    requires
        consistent(bonded, ledgers),
    ensures
        bad_stashes_of(ledgers, as_map(bonded)) == Seq::<AccountId>::empty(),
        no_ledger_of(bonded, as_map(ledgers)) == Seq::<(AccountId, AccountId)>::empty(),
        inconsistent_of(bonded, as_map(ledgers)) == Seq::<(AccountId, AccountId)>::empty(),
        ok_of(bonded, as_map(ledgers)) == bonded.map_values(|p: (AccountId, AccountId)| p.0),
{
    lemma_no_bad_stash(ledgers, as_map(bonded));
    lemma_all_bonded_ok(bonded, as_map(ledgers));
}

/// In a consistent state, re-pointing one bond at a controller that holds no
/// ledger makes that bond, and only it, a bond without ledger; no ledger is
/// reported inconsistent.
pub proof fn lemma_dangling_bond_is_reported(
    bonded: Seq<(AccountId, AccountId)>,
    ledgers: Seq<(AccountId, AccountId)>,
    i: int,
    controller: AccountId,
)
    requires
        consistent(bonded, ledgers),
        0 <= i < bonded.len(),
        !as_map(ledgers).contains_key(controller),
    ensures
        no_ledger_of(bonded.update(i, (bonded[i].0, controller)), as_map(ledgers)) == seq![
            (bonded[i].0, controller),
        ],
        inconsistent_of(bonded.update(i, (bonded[i].0, controller)), as_map(ledgers))
            == Seq::<(AccountId, AccountId)>::empty(),
{
    let c = bonded.update(i, (bonded[i].0, controller));
    assert forall|j: int| 0 <= j < c.len() && j != i implies maps(
        as_map(ledgers),
        #[trigger] c[j].1,
        c[j].0,
    ) by {
        assert(c[j] == bonded[j]);
    }
    lemma_one_dangling(c, as_map(ledgers), i);
}

/// Migrating a bond `(stash, controller)` whose controller holds the stash's
/// ledger leaves the stash bonded to itself and holding its own ledger, which
/// the bonded check then reports ok.
pub proof fn lemma_migration_repairs(
    bonded: Map<AccountId, AccountId>,
    ledgers: Map<AccountId, AccountId>,
    stash: AccountId,
    controller: AccountId,
)
    requires
        maps(ledgers, controller, stash),
    ensures
        migrated(bonded, ledgers, seq![(stash, controller)]) matches Some((b, l)) && maps(
            b,
            stash,
            stash,
        ) && maps(l, stash, stash) && ok_of(seq![(stash, stash)], l) == seq![stash]
            && no_ledger_of(seq![(stash, stash)], l) == Seq::<(AccountId, AccountId)>::empty(),
{
    let empty = Seq::<(AccountId, AccountId)>::empty();
    let batch = seq![(stash, controller)];
    assert(batch.drop_last() =~= empty);
    assert(migrated(bonded, ledgers, empty) == Some((bonded, ledgers)));
    let b = bonded.insert(stash, stash);
    let l = ledgers.remove(controller).insert(stash, ledgers[controller]);
    assert(migrated(bonded, ledgers, batch) == Some((b, l)));
    let one = seq![(stash, stash)];
    assert(one.drop_last() =~= empty);
    assert(ok_of(empty, l) == Seq::<AccountId>::empty());
    assert(no_ledger_of(empty, l) == empty);
    assert(Seq::<AccountId>::empty().push(stash) =~= seq![stash]);
    assert(ok_of(one, l) == seq![stash]);
}

} // verus!
