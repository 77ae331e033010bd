//! Restoring the account state to the last committed block.
//!
//! Storage and the Merkle tree engine are outside this library. The restore is
//! therefore a protocol: the library names the next operation to perform on
//! them ([`RestoreAction`]), the caller performs it and hands back what it
//! gave ([`RestoreEvent`]). By default the state is loaded at the block of the
//! last tree cache and advanced by the state difference; without a cache it is
//! loaded at the last committed block. If the root hash then differs from the
//! stored one, the blocks after the last verified state are replayed one by
//! one until the block at which the hashes diverge is found.

use vstd::prelude::*;
use crate::tree::{
    model_apply, model_empty, model_insert_all, state_map, updated_ids, AccountState, TreeModel,
};
use crate::types::{Account, AccountId, AccountUpdates, BlockNumber, RootHash};

verus! {

/// Why a restore ended without a restored tree.
#[derive(Clone, Copy, Debug, PartialEq, Eq)]
pub enum RestoreError {
    /// The root hash of the cached tree is not the one stored for its block.
    CacheRootMismatch { block: BlockNumber, tree: RootHash, db: RootHash },
    /// Replaying block by block, the root hash first differed at `block`.
    BisectionDiverged { block: BlockNumber, tree: RootHash, db: RootHash },
    /// Replaying block by block found no difference, although the root hash
    /// of the restored tree differed from the stored one.
    BisectionExhausted,
    /// The caller handed back something other than what was asked for.
    UnexpectedEvent,
}

/// What the caller is to do next.
#[derive(Clone, Copy, Debug, PartialEq, Eq)]
pub enum RestoreAction {
    /// Load the number of the last committed block.
    LoadLastCommittedBlock,
    /// Load the number of the newest block that has a tree cache.
    LoadLastCachedBlock,
    /// Load the account set committed at the block, and insert it into the tree.
    LoadCommittedState(BlockNumber),
    /// Load the tree cache taken at the block and install it as the tree's internals.
    InstallTreeCache(BlockNumber),
    /// Compute the tree's root hash and load the root hash stored for the block.
    CompareRoots(BlockNumber),
    /// Load the account updates of the blocks after the first, up to the second.
    LoadStateDiff(BlockNumber, BlockNumber),
    /// Empty the tree, then load the last verified state and insert it.
    LoadVerifiedState,
    /// Store the tree's internals as the cache of the block: the tree is restored to it.
    StoreTreeCache(BlockNumber),
    /// Stop: the state cannot be restored.
    Abort(RestoreError),
}

/// What the last action gave.
#[derive(Debug)]
pub enum RestoreEvent {
    LastCommittedBlock(BlockNumber),
    LastCachedBlock(Option<BlockNumber>),
    CommittedState(Vec<(AccountId, Account)>),
    TreeCacheInstalled,
    Roots { tree: RootHash, db: RootHash },
    StateDiff(Option<AccountUpdates>),
    VerifiedState { block: BlockNumber, state: Vec<(AccountId, Account)> },
}

/// Where the restore stands: what it waits for, or how it ended.
#[derive(Debug)]
pub enum RestorePhase {
    LastCommittedBlock,
    LastCachedBlock { last: BlockNumber },
    CachedState { last: BlockNumber, cached: BlockNumber },
    TreeCache { last: BlockNumber, cached: BlockNumber },
    CachedRoots { last: BlockNumber, cached: BlockNumber },
    Diff { last: BlockNumber },
    DiffState { last: BlockNumber, diff: AccountUpdates },
    FreshState { last: BlockNumber },
    FinalRoots { last: BlockNumber },
    VerifiedState { last: BlockNumber },
    ScanDiff { last: BlockNumber, next: BlockNumber },
    ScanState { last: BlockNumber, next: BlockNumber, diff: AccountUpdates },
    ScanRoots { last: BlockNumber, next: BlockNumber },
    /// The tree is restored to this block.
    Done(BlockNumber),
    Failed(RestoreError),
}

/// The restore ends with `error`.
pub open spec fn fail(m: TreeModel, error: RestoreError) -> (RestorePhase, TreeModel, RestoreAction) {
    (RestorePhase::Failed(error), m, RestoreAction::Abort(error))
}

/// The replay stands at `block`: either the next block is replayed, or none is left.
pub open spec fn scan_from(m: TreeModel, last: BlockNumber, block: BlockNumber) -> (
    RestorePhase,
    TreeModel,
    RestoreAction,
) {
    if block.0 < last.0 {
        let next = BlockNumber((block.0 + 1) as u32);
        (RestorePhase::ScanDiff { last, next }, m, RestoreAction::LoadStateDiff(block, next))
    } else {
        fail(m, RestoreError::BisectionExhausted)
    }
}

/// One step of the replay that looks for the block at which the root hashes diverge.
pub open spec fn scan_step(phase: RestorePhase, m: TreeModel, event: RestoreEvent) -> (
    RestorePhase,
    TreeModel,
    RestoreAction,
) {
    match (phase, event) {
        (RestorePhase::VerifiedState { last }, RestoreEvent::VerifiedState { block, state }) => {
            scan_from(model_insert_all(model_empty(), state@), last, block)
        },
        (RestorePhase::ScanDiff { last, next }, RestoreEvent::StateDiff(Some(diff))) => (
            RestorePhase::ScanState { last, next, diff },
            m,
            RestoreAction::LoadCommittedState(next),
        ),
        (RestorePhase::ScanDiff { last, next }, RestoreEvent::StateDiff(None)) => (
            RestorePhase::ScanRoots { last, next },
            m,
            RestoreAction::CompareRoots(next),
        ),
        (RestorePhase::ScanState { last, next, diff }, RestoreEvent::CommittedState(state)) => (
            RestorePhase::ScanRoots { last, next },
            model_apply(m, updated_ids(diff@), state_map(state@)),
            RestoreAction::CompareRoots(next),
        ),
        (RestorePhase::ScanRoots { last, next }, RestoreEvent::Roots { tree, db }) => {
            if tree == db {
                scan_from(m, last, next)
            } else {
                fail(m, RestoreError::BisectionDiverged { block: next, tree, db })
            }
        },
        _ => fail(m, RestoreError::UnexpectedEvent),
    }
}

/// One step of the restore: the phase, the account state and the action that
/// follow from a phase, an account state and what the last action gave.
pub open spec fn restore_step(phase: RestorePhase, m: TreeModel, event: RestoreEvent) -> (
    RestorePhase,
    TreeModel,
    RestoreAction,
) {
    match (phase, event) {
        (RestorePhase::LastCommittedBlock, RestoreEvent::LastCommittedBlock(last)) => (
            RestorePhase::LastCachedBlock { last },
            m,
            RestoreAction::LoadLastCachedBlock,
        ),
        (RestorePhase::LastCachedBlock { last }, RestoreEvent::LastCachedBlock(Some(cached))) => (
            RestorePhase::CachedState { last, cached },
            m,
            RestoreAction::LoadCommittedState(cached),
        ),
        (RestorePhase::LastCachedBlock { last }, RestoreEvent::LastCachedBlock(None)) => (
            RestorePhase::FreshState { last },
            m,
            RestoreAction::LoadCommittedState(last),
        ),
        (RestorePhase::CachedState { last, cached }, RestoreEvent::CommittedState(state)) => (
            RestorePhase::TreeCache { last, cached },
            model_insert_all(m, state@),
            RestoreAction::InstallTreeCache(cached),
        ),
        (RestorePhase::TreeCache { last, cached }, RestoreEvent::TreeCacheInstalled) => (
            RestorePhase::CachedRoots { last, cached },
            m,
            RestoreAction::CompareRoots(cached),
        ),
        (RestorePhase::CachedRoots { last, cached }, RestoreEvent::Roots { tree, db }) => {
            if tree != db {
                fail(m, RestoreError::CacheRootMismatch { block: cached, tree, db })
            } else if last.0 > cached.0 {
                (RestorePhase::Diff { last }, m, RestoreAction::LoadStateDiff(cached, last))
            } else {
                (RestorePhase::FinalRoots { last }, m, RestoreAction::CompareRoots(last))
            }
        },
        (RestorePhase::Diff { last }, RestoreEvent::StateDiff(Some(diff))) => (
            RestorePhase::DiffState { last, diff },
            m,
            RestoreAction::LoadCommittedState(last),
        ),
        (RestorePhase::Diff { last }, RestoreEvent::StateDiff(None)) => (
            RestorePhase::FinalRoots { last },
            m,
            RestoreAction::CompareRoots(last),
        ),
        (RestorePhase::DiffState { last, diff }, RestoreEvent::CommittedState(state)) => (
            RestorePhase::FinalRoots { last },
            model_apply(m, updated_ids(diff@), state_map(state@)),
            RestoreAction::CompareRoots(last),
        ),
        (RestorePhase::FreshState { last }, RestoreEvent::CommittedState(state)) => (
            RestorePhase::FinalRoots { last },
            model_insert_all(m, state@),
            RestoreAction::CompareRoots(last),
        ),
        (RestorePhase::FinalRoots { last }, RestoreEvent::Roots { tree, db }) => {
            if tree == db {
                (RestorePhase::Done(last), m, RestoreAction::StoreTreeCache(last))
            } else {
                (RestorePhase::VerifiedState { last }, m, RestoreAction::LoadVerifiedState)
            }
        },
        (phase, event) => scan_step(phase, m, event),
    }
}

/// The account state under restore together with the phase of the restore.
#[derive(Debug)]
pub struct RestoredTree {
    state: AccountState,
    phase: RestorePhase,
}

impl RestoredTree {
    /// The account state is well formed.
    pub closed spec fn wf(&self) -> bool {
        self.state.wf()
    }

    /// The accounts and the address index.
    pub closed spec fn model(&self) -> TreeModel {
        self.state@
    }

    /// Where the restore stands.
    pub closed spec fn spec_phase(&self) -> RestorePhase {
        self.phase
    }

    /// An empty state, and the first action of its restore.
    pub fn new() -> (start: (Self, RestoreAction))
        ensures
            start.0.wf(),
            start.0.model() == model_empty(),
            start.0.spec_phase() == RestorePhase::LastCommittedBlock,
            start.1 == RestoreAction::LoadLastCommittedBlock,
    {
        (
            RestoredTree { state: AccountState::new(), phase: RestorePhase::LastCommittedBlock },
            RestoreAction::LoadLastCommittedBlock,
        )
    }

    /// Where the restore stands.
    pub fn phase(&self) -> (phase: &RestorePhase)
        ensures
            *phase == self.spec_phase(),
    {
        &self.phase
    }

    /// The block to which the tree is restored, once it is.
    pub fn restored_block(&self) -> (block: Option<BlockNumber>)
        ensures
            block == (match self.spec_phase() {
                RestorePhase::Done(last) => Some(last),
                _ => None,
            }),
    {
        match &self.phase {
            RestorePhase::Done(last) => Some(*last),
            _ => None,
        }
    }

    /// The accounts and the address index.
    pub fn state(&self) -> (state: &AccountState)
        ensures
            state@ == self.model(),
            state.wf() == self.wf(),
    {
        &self.state
    }

    /// Gives up the accounts and the address index.
    pub fn into_state(self) -> (state: AccountState)
        ensures
            state@ == self.model(),
            state.wf() == self.wf(),
    {
        self.state
    }

    fn abort(state: AccountState, error: RestoreError) -> (next: (Self, RestoreAction))
        requires
            state.wf(),
        ensures
            next.0.wf(),
            (next.0.spec_phase(), next.0.model(), next.1) == fail(state@, error),
    {
        (RestoredTree { state, phase: RestorePhase::Failed(error) }, RestoreAction::Abort(error))
    }

    fn scan_on(state: AccountState, last: BlockNumber, block: BlockNumber) -> (next: (
        Self,
        RestoreAction,
    ))
        requires
            state.wf(),
        ensures
            next.0.wf(),
            (next.0.spec_phase(), next.0.model(), next.1) == scan_from(state@, last, block),
    {
        if block.0 < last.0 {
            let next = BlockNumber(block.0 + 1);
            (
                RestoredTree { state, phase: RestorePhase::ScanDiff { last, next } },
                RestoreAction::LoadStateDiff(block, next),
            )
        } else {
            Self::abort(state, RestoreError::BisectionExhausted)
        }
    }

    /// Checks the tree's root hash against the one stored for `block`. Where
    /// they differ, the error names the block and both hashes: a cache
    /// mismatch if the tree came from the cache, a divergence otherwise.
    pub fn check_calculated_root(
        cache_check: bool,
        block: BlockNumber,
        tree: RootHash,
        db: RootHash,
    ) -> (checked: Result<(), RestoreError>)
        ensures
            checked == (if tree == db {
                Ok::<(), RestoreError>(())
            } else if cache_check {
                Err::<(), RestoreError>(RestoreError::CacheRootMismatch { block, tree, db })
            } else {
                Err::<(), RestoreError>(RestoreError::BisectionDiverged { block, tree, db })
            }),
    {
        if tree.same(&db) {
            Ok(())
        } else if cache_check {
            Err(RestoreError::CacheRootMismatch { block, tree, db })
        } else {
            Err(RestoreError::BisectionDiverged { block, tree, db })
        }
    }

    /// One step of the replay that follows a root hash mismatch at the last
    /// committed block: starting from the last verified state, each block's
    /// updates are applied and the root hash is checked, until the block at
    /// which the hashes diverge is found. The replay never ends in a restored
    /// tree.
    pub fn find_hash_mismatch_point(self, event: RestoreEvent) -> (next: (Self, RestoreAction))
        requires
            self.wf(),
        ensures
            next.0.wf(),
            (next.0.spec_phase(), next.0.model(), next.1) == scan_step(
                self.spec_phase(),
                self.model(),
                event,
            ),
    {
        let RestoredTree { state, phase } = self;
        let mut state = state;
        match (phase, event) {
            (RestorePhase::VerifiedState { last }, RestoreEvent::VerifiedState { block, state: verified }) => {
                let mut fresh = AccountState::new();
                fresh.insert_all(verified);
                Self::scan_on(fresh, last, block)
            },
            (RestorePhase::ScanDiff { last, next }, RestoreEvent::StateDiff(Some(diff))) => (
                RestoredTree { state, phase: RestorePhase::ScanState { last, next, diff } },
                RestoreAction::LoadCommittedState(next),
            ),
            (RestorePhase::ScanDiff { last, next }, RestoreEvent::StateDiff(None)) => (
                RestoredTree { state, phase: RestorePhase::ScanRoots { last, next } },
                RestoreAction::CompareRoots(next),
            ),
            (RestorePhase::ScanState { last, next, diff }, RestoreEvent::CommittedState(committed)) => {
                state.apply_state_diff(committed, &diff);
                (
                    RestoredTree { state, phase: RestorePhase::ScanRoots { last, next } },
                    RestoreAction::CompareRoots(next),
                )
            },
            (RestorePhase::ScanRoots { last, next }, RestoreEvent::Roots { tree, db }) => {
                match Self::check_calculated_root(false, next, tree, db) {
                    Ok(()) => Self::scan_on(state, last, next),
                    Err(error) => Self::abort(state, error),
                }
            },
            _ => Self::abort(state, RestoreError::UnexpectedEvent),
        }
    }

    /// One step of the restore. Handed what the last action gave, it changes
    /// the account state as that calls for and names the next action. The
    /// restore ends with `StoreTreeCache`, after which `restored_block` gives
    /// the last committed block, or with `Abort`.
    pub fn restore(self, event: RestoreEvent) -> (next: (Self, RestoreAction))
        requires
            self.wf(),
        ensures
            next.0.wf(),
            (next.0.spec_phase(), next.0.model(), next.1) == restore_step(
                self.spec_phase(),
                self.model(),
                event,
            ),
    {
        let RestoredTree { state, phase } = self;
        let mut state = state;
        match (phase, event) {
            (RestorePhase::LastCommittedBlock, RestoreEvent::LastCommittedBlock(last)) => (
                RestoredTree { state, phase: RestorePhase::LastCachedBlock { last } },
                RestoreAction::LoadLastCachedBlock,
            ),
            (RestorePhase::LastCachedBlock { last }, RestoreEvent::LastCachedBlock(Some(cached))) => (
                RestoredTree { state, phase: RestorePhase::CachedState { last, cached } },
                RestoreAction::LoadCommittedState(cached),
            ),
            (RestorePhase::LastCachedBlock { last }, RestoreEvent::LastCachedBlock(None)) => (
                RestoredTree { state, phase: RestorePhase::FreshState { last } },
                RestoreAction::LoadCommittedState(last),
            ),
            (RestorePhase::CachedState { last, cached }, RestoreEvent::CommittedState(committed)) => {
                state.insert_all(committed);
                (
                    RestoredTree { state, phase: RestorePhase::TreeCache { last, cached } },
                    RestoreAction::InstallTreeCache(cached),
                )
            },
            (RestorePhase::TreeCache { last, cached }, RestoreEvent::TreeCacheInstalled) => (
                RestoredTree { state, phase: RestorePhase::CachedRoots { last, cached } },
                RestoreAction::CompareRoots(cached),
            ),
            (RestorePhase::CachedRoots { last, cached }, RestoreEvent::Roots { tree, db }) => {
                match Self::check_calculated_root(true, cached, tree, db) {
                    Err(error) => Self::abort(state, error),
                    Ok(()) => {
                        if last.0 > cached.0 {
                            (
                                RestoredTree { state, phase: RestorePhase::Diff { last } },
                                RestoreAction::LoadStateDiff(cached, last),
                            )
                        } else {
                            (
                                RestoredTree { state, phase: RestorePhase::FinalRoots { last } },
                                RestoreAction::CompareRoots(last),
                            )
                        }
                    },
                }
            },
            (RestorePhase::Diff { last }, RestoreEvent::StateDiff(Some(diff))) => (
                RestoredTree { state, phase: RestorePhase::DiffState { last, diff } },
                RestoreAction::LoadCommittedState(last),
            ),
            (RestorePhase::Diff { last }, RestoreEvent::StateDiff(None)) => (
                RestoredTree { state, phase: RestorePhase::FinalRoots { last } },
                RestoreAction::CompareRoots(last),
            ),
            (RestorePhase::DiffState { last, diff }, RestoreEvent::CommittedState(committed)) => {
                state.apply_state_diff(committed, &diff);
                (
                    RestoredTree { state, phase: RestorePhase::FinalRoots { last } },
                    RestoreAction::CompareRoots(last),
                )
            },
            (RestorePhase::FreshState { last }, RestoreEvent::CommittedState(committed)) => {
                state.insert_all(committed);
                (
                    RestoredTree { state, phase: RestorePhase::FinalRoots { last } },
                    RestoreAction::CompareRoots(last),
                )
            },
            (RestorePhase::FinalRoots { last }, RestoreEvent::Roots { tree, db }) => {
                if tree.same(&db) {
                    (
                        RestoredTree { state, phase: RestorePhase::Done(last) },
                        RestoreAction::StoreTreeCache(last),
                    )
                } else {
                    (
                        RestoredTree { state, phase: RestorePhase::VerifiedState { last } },
                        RestoreAction::LoadVerifiedState,
                    )
                }
            },
            (phase, event) => (RestoredTree { state, phase }).find_hash_mismatch_point(event),
        }
    }
}

/// A restore ends in a restored tree only where the root hash of the tree
/// equals the root hash stored for the last committed block: the step that
/// asks to store the tree cache of a block is the one that was handed equal
/// root hashes for that block, which is the last committed block that the
/// restore was told at its start.
pub proof fn lemma_restored_tree_has_stored_root(
    phase: RestorePhase,
    m: TreeModel,
    event: RestoreEvent,
    block: BlockNumber,
)
    requires
        restore_step(phase, m, event).2 == RestoreAction::StoreTreeCache(block)
            || restore_step(phase, m, event).0 == RestorePhase::Done(block),
    ensures
        phase == (RestorePhase::FinalRoots { last: block }),
        event matches RestoreEvent::Roots { tree, db } && tree == db,
        restore_step(phase, m, event) == (
            RestorePhase::Done(block),
            m,
            RestoreAction::StoreTreeCache(block),
        ),
{
}

/// The replay never ends in a restored tree: none of its steps asks to store
/// the tree cache.
pub proof fn lemma_replay_never_restores(phase: RestorePhase, m: TreeModel, event: RestoreEvent)
    ensures
        !(scan_step(phase, m, event).2 is StoreTreeCache),
        !(scan_step(phase, m, event).0 is Done),
{
}

/// The replay advances: a step that asks for the updates of a block asks for
/// those of exactly one block, and that block is not after the last committed one.
pub proof fn lemma_replay_advances_by_one(m: TreeModel, last: BlockNumber, block: BlockNumber)
    ensures
        block.0 < last.0 ==> scan_from(m, last, block).2 == RestoreAction::LoadStateDiff(
            block,
            BlockNumber((block.0 + 1) as u32),
        ) && block.0 + 1 <= last.0,
        block.0 >= last.0 ==> scan_from(m, last, block).2 == RestoreAction::Abort(
            RestoreError::BisectionExhausted,
        ),
{
}

/// The last committed block that a phase carries, if it carries one.
pub open spec fn last_of(phase: RestorePhase) -> Option<BlockNumber> {
    match phase {
        RestorePhase::LastCommittedBlock => None,
        RestorePhase::LastCachedBlock { last } => Some(last),
        RestorePhase::CachedState { last, .. } => Some(last),
        RestorePhase::TreeCache { last, .. } => Some(last),
        RestorePhase::CachedRoots { last, .. } => Some(last),
        RestorePhase::Diff { last } => Some(last),
        RestorePhase::DiffState { last, .. } => Some(last),
        RestorePhase::FreshState { last } => Some(last),
        RestorePhase::FinalRoots { last } => Some(last),
        RestorePhase::VerifiedState { last } => Some(last),
        RestorePhase::ScanDiff { last, .. } => Some(last),
        RestorePhase::ScanState { last, .. } => Some(last),
        RestorePhase::ScanRoots { last, .. } => Some(last),
        RestorePhase::Done(last) => Some(last),
        RestorePhase::Failed(_) => None,
    }
}

/// The phase and the account state after a restore was started and handed
/// `events`, one after the other.
pub open spec fn restore_run(events: Seq<RestoreEvent>) -> (RestorePhase, TreeModel)
    decreases events.len(),
{
    if events.len() == 0 {
        (RestorePhase::LastCommittedBlock, model_empty())
    } else {
        let before = restore_run(events.drop_last());
        let next = restore_step(before.0, before.1, events.last());
        (next.0, next.1)
    }
}

/// Throughout a restore the phase carries the last committed block that the
/// first event told, unless the restore has failed.
pub proof fn lemma_restore_keeps_last_block(events: Seq<RestoreEvent>)
    ensures
        events.len() == 0 ==> restore_run(events).0 == RestorePhase::LastCommittedBlock,
        events.len() > 0 ==> restore_run(events).0 is Failed || (events[0] matches RestoreEvent::LastCommittedBlock(
            last,
        ) && last_of(restore_run(events).0) == Some(last)),
    decreases events.len(),
{
    if events.len() > 0 {
        lemma_restore_keeps_last_block(events.drop_last());
        if events.len() > 1 {
            assert(events.drop_last()[0] == events[0]);
        } else {
            assert(events.last() == events[0]);
        }
    }
}

/// A restore that ends in a restored tree ends at the last committed block
/// that its first event told, and its last event brought a root hash of the
/// tree equal to the root hash stored for that block.
pub proof fn lemma_restore_ends_at_last_committed_block(
    events: Seq<RestoreEvent>,
    block: BlockNumber,
)
    requires
        restore_run(events).0 == RestorePhase::Done(block),
    ensures
        events.len() > 0,
        events[0] == RestoreEvent::LastCommittedBlock(block),
        events.last() matches RestoreEvent::Roots { tree, db } && tree == db,
{
    lemma_restore_keeps_last_block(events);
    let before = restore_run(events.drop_last());
    lemma_restored_tree_has_stored_root(before.0, before.1, events.last(), block);
}

/// Repeating a restore: once the tree cache of the last committed block is
/// stored, a restore over unchanged storage loads no state difference and ends
/// at the same block, with the account set committed at that block as its state.
pub proof fn lemma_repeated_restore_ends_at_same_block(
    last: BlockNumber,
    committed: Vec<(AccountId, Account)>,
    root: RootHash,
)
    ensures
        restore_run(
            seq![
                RestoreEvent::LastCommittedBlock(last),
                RestoreEvent::LastCachedBlock(Some(last)),
                RestoreEvent::CommittedState(committed),
                RestoreEvent::TreeCacheInstalled,
                RestoreEvent::Roots { tree: root, db: root },
                RestoreEvent::Roots { tree: root, db: root },
            ],
        ) == (RestorePhase::Done(last), model_insert_all(model_empty(), committed@)),
{
    let e0 = Seq::<RestoreEvent>::empty();
    let e1 = e0.push(RestoreEvent::LastCommittedBlock(last));
    let e2 = e1.push(RestoreEvent::LastCachedBlock(Some(last)));
    let e3 = e2.push(RestoreEvent::CommittedState(committed));
    let e4 = e3.push(RestoreEvent::TreeCacheInstalled);
    let e5 = e4.push(RestoreEvent::Roots { tree: root, db: root });
    let e6 = e5.push(RestoreEvent::Roots { tree: root, db: root });
    assert(e1.drop_last() =~= e0);
    assert(e2.drop_last() =~= e1);
    assert(e3.drop_last() =~= e2);
    assert(e4.drop_last() =~= e3);
    assert(e5.drop_last() =~= e4);
    assert(e6.drop_last() =~= e5);
    assert(restore_run(e0).0 == RestorePhase::LastCommittedBlock);
    assert(restore_run(e1).0 == RestorePhase::LastCachedBlock { last });
    assert(restore_run(e2).0 == RestorePhase::CachedState { last, cached: last });
    assert(restore_run(e3).0 == RestorePhase::TreeCache { last, cached: last });
    assert(restore_run(e4).0 == RestorePhase::CachedRoots { last, cached: last });
    assert(restore_run(e5).0 == RestorePhase::FinalRoots { last });
    assert(restore_run(e6).0 == RestorePhase::Done(last));
    assert(e6 =~= seq![
        RestoreEvent::LastCommittedBlock(last),
        RestoreEvent::LastCachedBlock(Some(last)),
        RestoreEvent::CommittedState(committed),
        RestoreEvent::TreeCacheInstalled,
        RestoreEvent::Roots { tree: root, db: root },
        RestoreEvent::Roots { tree: root, db: root },
    ]);
}

/// The block whose root hashes a phase waits for, if it waits for root hashes.
pub open spec fn compared_block(phase: RestorePhase) -> Option<BlockNumber> {
    match phase {
        RestorePhase::CachedRoots { cached, .. } => Some(cached),
        RestorePhase::FinalRoots { last } => Some(last),
        RestorePhase::ScanRoots { next, .. } => Some(next),
        _ => None,
    }
}

/// Whether every pair of root hashes among `events` is what was asked for:
/// the root hash that the tree engine `root_of` gives for the account state
/// at that point, and the root hash that storage holds (`stored`) for the
/// block that was to be compared.
pub open spec fn roots_are_true(
    events: Seq<RestoreEvent>,
    root_of: spec_fn(TreeModel) -> RootHash,
    stored: spec_fn(BlockNumber) -> RootHash,
) -> bool {
    forall|i: int|
        0 <= i < events.len() ==> match #[trigger] events[i] {
            RestoreEvent::Roots { tree, db } => {
                let before = restore_run(events.take(i));
                &&& tree == root_of(before.1)
                &&& compared_block(before.0) matches Some(block) ==> db == stored(block)
            },
            _ => true,
        }
}

/// Restore round trip: where the caller hands in true root hashes, a restore
/// that ends in a restored tree ends at the last committed block, and the
/// root hash of the restored account state is the root hash stored for that
/// block.
pub proof fn lemma_restored_state_has_stored_root(
    events: Seq<RestoreEvent>,
    block: BlockNumber,
    root_of: spec_fn(TreeModel) -> RootHash,
    stored: spec_fn(BlockNumber) -> RootHash,
)
    requires
        restore_run(events).0 == RestorePhase::Done(block),
        roots_are_true(events, root_of, stored),
    ensures
        events.len() > 0,
        events[0] == RestoreEvent::LastCommittedBlock(block),
        root_of(restore_run(events).1) == stored(block),
{
    lemma_restore_ends_at_last_committed_block(events, block);
    let before = restore_run(events.drop_last());
    lemma_restored_tree_has_stored_root(before.0, before.1, events.last(), block);
    let i = events.len() - 1;
    assert(events.take(i) =~= events.drop_last());
    assert(events[i] == events.last());
}

/// A mismatch is reported for the block that was compared, with the two root
/// hashes that differed: a cache mismatch only for the cached block, a
/// divergence only for the block that the replay had just applied.
pub proof fn lemma_mismatch_names_compared_block(
    phase: RestorePhase,
    m: TreeModel,
    event: RestoreEvent,
    block: BlockNumber,
    tree: RootHash,
    db: RootHash,
)
    ensures
        restore_step(phase, m, event).2 == RestoreAction::Abort(
            RestoreError::CacheRootMismatch { block, tree, db },
        ) ==> phase is CachedRoots && compared_block(phase) == Some(block) && event == (
        RestoreEvent::Roots { tree, db }) && tree != db,
        restore_step(phase, m, event).2 == RestoreAction::Abort(
            RestoreError::BisectionDiverged { block, tree, db },
        ) ==> phase is ScanRoots && compared_block(phase) == Some(block) && event == (
        RestoreEvent::Roots { tree, db }) && tree != db,
{
}

} // verus!
