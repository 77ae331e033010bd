use state_keeper::tree_restore::{
    RestoreAction, RestoreError, RestoreEvent, RestorePhase, RestoredTree,
};
use state_keeper::types::{
    Account, AccountId, AccountUpdate, Address, BlockNumber, PubKeyHash, RootHash, TokenId,
};

fn addr(b: u8) -> Address {
    Address([b; 20])
}

fn account(b: u8, nonce: u32) -> Account {
    Account { address: addr(b), nonce, pub_key_hash: PubKeyHash([0u8; 20]), balances: Vec::new() }
}

fn hash(b: u8) -> RootHash {
    RootHash([b; 32])
}

fn touch(id: u32) -> (AccountId, AccountUpdate) {
    (
        AccountId(id),
        AccountUpdate::UpdateBalance {
            token: TokenId(0),
            old_amount: 0,
            new_amount: 1,
            new_nonce: 1,
        },
    )
}

fn state_at_10() -> Vec<(AccountId, Account)> {
    vec![
        (AccountId(1), account(1, 0)),
        (AccountId(7), account(7, 0)),
        (AccountId(42), account(42, 0)),
    ]
}

/// Runs a restore up to the comparison of roots at the cached block 10.
fn restore_to_cached_roots(last: u32) -> RestoredTree {
    let (tree, action) = RestoredTree::new();
    assert_eq!(action, RestoreAction::LoadLastCommittedBlock);
    let (tree, action) = tree.restore(RestoreEvent::LastCommittedBlock(BlockNumber(last)));
    assert_eq!(action, RestoreAction::LoadLastCachedBlock);
    let (tree, action) = tree.restore(RestoreEvent::LastCachedBlock(Some(BlockNumber(10))));
    assert_eq!(action, RestoreAction::LoadCommittedState(BlockNumber(10)));
    let (tree, action) = tree.restore(RestoreEvent::CommittedState(state_at_10()));
    assert_eq!(action, RestoreAction::InstallTreeCache(BlockNumber(10)));
    let (tree, action) = tree.restore(RestoreEvent::TreeCacheInstalled);
    assert_eq!(action, RestoreAction::CompareRoots(BlockNumber(10)));
    tree
}

#[test]
fn restore_from_cache_without_diff() {
    let tree = restore_to_cached_roots(10);
    let (tree, action) = tree.restore(RestoreEvent::Roots { tree: hash(10), db: hash(10) });
    assert_eq!(action, RestoreAction::CompareRoots(BlockNumber(10)));
    assert_eq!(tree.restored_block(), None);
    let (tree, action) = tree.restore(RestoreEvent::Roots { tree: hash(10), db: hash(10) });
    assert_eq!(action, RestoreAction::StoreTreeCache(BlockNumber(10)));
    assert_eq!(tree.restored_block(), Some(BlockNumber(10)));
    assert!(matches!(tree.phase(), RestorePhase::Done(BlockNumber(10))));
    assert_eq!(tree.state().len(), 3);
}

#[test]
fn restore_from_cache_with_empty_diff_answer() {
    let tree = restore_to_cached_roots(12);
    let (tree, action) = tree.restore(RestoreEvent::Roots { tree: hash(10), db: hash(10) });
    assert_eq!(action, RestoreAction::LoadStateDiff(BlockNumber(10), BlockNumber(12)));
    let (tree, action) = tree.restore(RestoreEvent::StateDiff(None));
    assert_eq!(action, RestoreAction::CompareRoots(BlockNumber(12)));
    let (tree, action) = tree.restore(RestoreEvent::Roots { tree: hash(12), db: hash(12) });
    assert_eq!(action, RestoreAction::StoreTreeCache(BlockNumber(12)));
    assert_eq!(tree.restored_block(), Some(BlockNumber(12)));
}

#[test]
fn restore_from_cache_with_diff() {
    let tree = restore_to_cached_roots(12);
    let (tree, action) = tree.restore(RestoreEvent::Roots { tree: hash(10), db: hash(10) });
    assert_eq!(action, RestoreAction::LoadStateDiff(BlockNumber(10), BlockNumber(12)));
    let diff = vec![
        touch(42),
        touch(7),
        (
            AccountId(42),
            AccountUpdate::Delete {
                address: addr(42),
                nonce: 1,
                pub_key_hash: PubKeyHash([0u8; 20]),
            },
        ),
    ];
    let (tree, action) = tree.restore(RestoreEvent::StateDiff(Some(diff)));
    assert_eq!(action, RestoreAction::LoadCommittedState(BlockNumber(12)));
    let committed = vec![(AccountId(1), account(1, 0)), (AccountId(7), account(7, 1))];
    let (tree, action) = tree.restore(RestoreEvent::CommittedState(committed));
    assert_eq!(action, RestoreAction::CompareRoots(BlockNumber(12)));
    let (tree, action) = tree.restore(RestoreEvent::Roots { tree: hash(12), db: hash(12) });
    assert_eq!(action, RestoreAction::StoreTreeCache(BlockNumber(12)));
    assert_eq!(tree.restored_block(), Some(BlockNumber(12)));
    let state = tree.into_state();
    assert_eq!(state.account(AccountId(7)), Some(&account(7, 1)));
    assert_eq!(state.account(AccountId(1)), Some(&account(1, 0)));
    assert_eq!(state.account(AccountId(42)), None);
    assert_eq!(state.id_by_address(&addr(42)), None);
    assert_eq!(state.id_by_address(&addr(7)), Some(AccountId(7)));
    assert_eq!(state.len(), 2);
}

#[test]
fn restore_from_scratch() {
    let (tree, _) = RestoredTree::new();
    let (tree, _) = tree.restore(RestoreEvent::LastCommittedBlock(BlockNumber(5)));
    let (tree, action) = tree.restore(RestoreEvent::LastCachedBlock(None));
    assert_eq!(action, RestoreAction::LoadCommittedState(BlockNumber(5)));
    let (tree, action) = tree.restore(RestoreEvent::CommittedState(vec![
        (AccountId(0), account(9, 0)),
        (AccountId(3), account(3, 2)),
    ]));
    assert_eq!(action, RestoreAction::CompareRoots(BlockNumber(5)));
    let (tree, action) = tree.restore(RestoreEvent::Roots { tree: hash(5), db: hash(5) });
    assert_eq!(action, RestoreAction::StoreTreeCache(BlockNumber(5)));
    assert_eq!(tree.restored_block(), Some(BlockNumber(5)));
    assert_eq!(tree.state().account(AccountId(3)), Some(&account(3, 2)));
    assert_eq!(tree.state().id_by_address(&addr(9)), Some(AccountId(0)));
}

#[test]
fn cached_tree_mismatch_aborts() {
    let tree = restore_to_cached_roots(12);
    let (tree, action) = tree.restore(RestoreEvent::Roots { tree: hash(1), db: hash(10) });
    let error =
        RestoreError::CacheRootMismatch { block: BlockNumber(10), tree: hash(1), db: hash(10) };
    assert_eq!(action, RestoreAction::Abort(error));
    assert!(matches!(tree.phase(), RestorePhase::Failed(e) if *e == error));
    assert_eq!(tree.restored_block(), None);
}

/// Brings a restore to the replay that starts at the verified block 8, with 12 the last block.
fn replay_from_8() -> RestoredTree {
    let tree = restore_to_cached_roots(12);
    let (tree, _) = tree.restore(RestoreEvent::Roots { tree: hash(10), db: hash(10) });
    let (tree, _) = tree.restore(RestoreEvent::StateDiff(Some(vec![touch(7)])));
    let (tree, action) =
        tree.restore(RestoreEvent::CommittedState(vec![(AccountId(7), account(7, 1))]));
    assert_eq!(action, RestoreAction::CompareRoots(BlockNumber(12)));
    let (tree, action) = tree.restore(RestoreEvent::Roots { tree: hash(99), db: hash(12) });
    assert_eq!(action, RestoreAction::LoadVerifiedState);
    let (tree, action) = tree.restore(RestoreEvent::VerifiedState {
        block: BlockNumber(8),
        state: vec![(AccountId(1), account(1, 0))],
    });
    assert_eq!(action, RestoreAction::LoadStateDiff(BlockNumber(8), BlockNumber(9)));
    // The replay starts from the verified state alone.
    assert_eq!(tree.state().len(), 1);
    assert_eq!(tree.state().account(AccountId(7)), None);
    assert_eq!(tree.state().id_by_address(&addr(7)), None);
    tree
}

#[test]
fn divergence_is_found_block_by_block() {
    let tree = replay_from_8();
    // Block 9: no updates.
    let (tree, action) = tree.restore(RestoreEvent::StateDiff(None));
    assert_eq!(action, RestoreAction::CompareRoots(BlockNumber(9)));
    let (tree, action) = tree.restore(RestoreEvent::Roots { tree: hash(9), db: hash(9) });
    assert_eq!(action, RestoreAction::LoadStateDiff(BlockNumber(9), BlockNumber(10)));
    // Block 10: account 7 appears.
    let (tree, action) = tree.restore(RestoreEvent::StateDiff(Some(vec![touch(7)])));
    assert_eq!(action, RestoreAction::LoadCommittedState(BlockNumber(10)));
    let (tree, action) = tree.restore(RestoreEvent::CommittedState(vec![
        (AccountId(1), account(1, 0)),
        (AccountId(7), account(7, 0)),
    ]));
    assert_eq!(action, RestoreAction::CompareRoots(BlockNumber(10)));
    assert_eq!(tree.state().account(AccountId(7)), Some(&account(7, 0)));
    let (tree, action) = tree.restore(RestoreEvent::Roots { tree: hash(10), db: hash(10) });
    assert_eq!(action, RestoreAction::LoadStateDiff(BlockNumber(10), BlockNumber(11)));
    // Block 11: the hashes differ.
    let (tree, action) = tree.restore(RestoreEvent::StateDiff(None));
    assert_eq!(action, RestoreAction::CompareRoots(BlockNumber(11)));
    let (tree, action) = tree.restore(RestoreEvent::Roots { tree: hash(77), db: hash(11) });
    let error =
        RestoreError::BisectionDiverged { block: BlockNumber(11), tree: hash(77), db: hash(11) };
    assert_eq!(action, RestoreAction::Abort(error));
    assert!(matches!(tree.phase(), RestorePhase::Failed(e) if *e == error));
}

#[test]
fn replay_without_divergence_is_an_error() {
    let mut tree = replay_from_8();
    for block in 9u32..=12 {
        let (next, action) = tree.restore(RestoreEvent::StateDiff(None));
        assert_eq!(action, RestoreAction::CompareRoots(BlockNumber(block)));
        let h = hash(block as u8);
        let (next, action) = next.restore(RestoreEvent::Roots { tree: h, db: h });
        if block < 12 {
            assert_eq!(
                action,
                RestoreAction::LoadStateDiff(BlockNumber(block), BlockNumber(block + 1))
            );
        } else {
            assert_eq!(action, RestoreAction::Abort(RestoreError::BisectionExhausted));
        }
        tree = next;
    }
    assert_eq!(tree.restored_block(), None);
}

#[test]
fn replay_from_last_block_has_nothing_to_scan() {
    let (tree, _) = RestoredTree::new();
    let (tree, _) = tree.restore(RestoreEvent::LastCommittedBlock(BlockNumber(5)));
    let (tree, _) = tree.restore(RestoreEvent::LastCachedBlock(None));
    let (tree, _) = tree.restore(RestoreEvent::CommittedState(Vec::new()));
    let (tree, action) = tree.restore(RestoreEvent::Roots { tree: hash(1), db: hash(2) });
    assert_eq!(action, RestoreAction::LoadVerifiedState);
    let (_, action) =
        tree.restore(RestoreEvent::VerifiedState { block: BlockNumber(5), state: Vec::new() });
    assert_eq!(action, RestoreAction::Abort(RestoreError::BisectionExhausted));
}

#[test]
fn replay_step_can_be_called_directly() {
    let tree = replay_from_8();
    let (tree, action) = tree.find_hash_mismatch_point(RestoreEvent::StateDiff(None));
    assert_eq!(action, RestoreAction::CompareRoots(BlockNumber(9)));
    let (_, action) =
        tree.find_hash_mismatch_point(RestoreEvent::Roots { tree: hash(3), db: hash(9) });
    assert_eq!(
        action,
        RestoreAction::Abort(RestoreError::BisectionDiverged {
            block: BlockNumber(9),
            tree: hash(3),
            db: hash(9)
        })
    );
}

#[test]
fn unexpected_event_aborts() {
    let (tree, _) = RestoredTree::new();
    let (tree, action) = tree.restore(RestoreEvent::TreeCacheInstalled);
    assert_eq!(action, RestoreAction::Abort(RestoreError::UnexpectedEvent));
    let (_, action) = tree.restore(RestoreEvent::LastCommittedBlock(BlockNumber(1)));
    assert_eq!(action, RestoreAction::Abort(RestoreError::UnexpectedEvent));
}

#[test]
fn restore_twice_gives_the_same_result() {
    let committed = || vec![(AccountId(1), account(1, 0)), (AccountId(7), account(7, 3))];
    // First restore: no cache yet, the state is loaded at the last block.
    let (tree, _) = RestoredTree::new();
    let (tree, _) = tree.restore(RestoreEvent::LastCommittedBlock(BlockNumber(5)));
    let (tree, _) = tree.restore(RestoreEvent::LastCachedBlock(None));
    let (tree, _) = tree.restore(RestoreEvent::CommittedState(committed()));
    let (first, action) = tree.restore(RestoreEvent::Roots { tree: hash(5), db: hash(5) });
    assert_eq!(action, RestoreAction::StoreTreeCache(BlockNumber(5)));
    // Second restore: the cache of the last block is there.
    let (tree, _) = RestoredTree::new();
    let (tree, _) = tree.restore(RestoreEvent::LastCommittedBlock(BlockNumber(5)));
    let (tree, action) = tree.restore(RestoreEvent::LastCachedBlock(Some(BlockNumber(5))));
    assert_eq!(action, RestoreAction::LoadCommittedState(BlockNumber(5)));
    let (tree, _) = tree.restore(RestoreEvent::CommittedState(committed()));
    let (tree, _) = tree.restore(RestoreEvent::TreeCacheInstalled);
    let (tree, action) = tree.restore(RestoreEvent::Roots { tree: hash(5), db: hash(5) });
    assert_eq!(action, RestoreAction::CompareRoots(BlockNumber(5)));
    let (second, action) = tree.restore(RestoreEvent::Roots { tree: hash(5), db: hash(5) });
    assert_eq!(action, RestoreAction::StoreTreeCache(BlockNumber(5)));

    assert_eq!(first.restored_block(), Some(BlockNumber(5)));
    assert_eq!(second.restored_block(), first.restored_block());
    assert_eq!(second.state().len(), first.state().len());
    for id in [1u32, 7] {
        assert_eq!(second.state().account(AccountId(id)), first.state().account(AccountId(id)));
    }
    assert_eq!(second.state().id_by_address(&addr(7)), first.state().id_by_address(&addr(7)));
}

#[test]
fn calculated_root_is_checked() {
    assert_eq!(
        RestoredTree::check_calculated_root(true, BlockNumber(3), hash(1), hash(1)),
        Ok(())
    );
    assert_eq!(
        RestoredTree::check_calculated_root(true, BlockNumber(3), hash(1), hash(2)),
        Err(RestoreError::CacheRootMismatch { block: BlockNumber(3), tree: hash(1), db: hash(2) })
    );
    assert_eq!(
        RestoredTree::check_calculated_root(false, BlockNumber(3), hash(1), hash(2)),
        Err(RestoreError::BisectionDiverged { block: BlockNumber(3), tree: hash(1), db: hash(2) })
    );
}
