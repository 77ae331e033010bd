use state_keeper::queue::{
    BlockRootHashJob, BlockRootHashJobQueue, THROTTLE_ITERATION_INTERVAL_MS, THROTTLE_THRESHOLD,
};
use state_keeper::types::{AccountId, AccountUpdate, Address, BlockNumber, PubKeyHash};

fn job(block: u32) -> BlockRootHashJob {
    BlockRootHashJob { block: BlockNumber(block), updates: Vec::new() }
}

/// Checks basic block jobs queue functionality.
#[test]
fn queue_functionality() {
    let mut queue = BlockRootHashJobQueue::new(Vec::new());
    assert_eq!(queue.size(), 0);
    assert!(!queue.should_throttle());

    queue.push(BlockRootHashJob { block: BlockNumber(1), updates: Vec::new() });
    assert_eq!(queue.size(), 1);
    assert!(!queue.should_throttle());

    queue.push(BlockRootHashJob { block: BlockNumber(2), updates: Vec::new() });
    assert_eq!(queue.size(), 2);
    assert!(queue.should_throttle());

    let first_job = queue.pop().expect("Should pop element");
    assert_eq!(first_job.block, BlockNumber(1));
    assert_eq!(queue.size(), 1);
    assert!(!queue.should_throttle());

    let second_job = queue.pop().expect("Should pop element");
    assert_eq!(second_job.block, BlockNumber(2));
    assert_eq!(queue.size(), 0);
    assert!(!queue.should_throttle());

    assert!(queue.pop().is_none(), "No elements left");
    assert_eq!(queue.size(), 0, "Size should not change after popping from empty");
}

#[test]
fn default_queue_is_empty() {
    let mut queue = BlockRootHashJobQueue::default();
    assert_eq!(queue.size(), 0);
    assert!(!queue.should_throttle());
    assert!(queue.pop().is_none());
}

#[test]
fn seeded_queue_keeps_order_and_size() {
    let mut queue = BlockRootHashJobQueue::new(vec![job(4), job(5), job(6)]);
    assert_eq!(queue.size(), 3);
    assert!(queue.should_throttle());
    assert_eq!(queue.pop().unwrap().block, BlockNumber(4));
    queue.push(job(7));
    assert_eq!(queue.size(), 3);
    assert_eq!(queue.pop().unwrap().block, BlockNumber(5));
    assert_eq!(queue.pop().unwrap().block, BlockNumber(6));
    assert_eq!(queue.pop().unwrap().block, BlockNumber(7));
    assert_eq!(queue.size(), 0);
    assert!(queue.pop().is_none());
}

#[test]
fn threshold_is_two() {
    assert_eq!(THROTTLE_THRESHOLD, 2);
    assert_eq!(THROTTLE_ITERATION_INTERVAL_MS, 25);
    let mut queue = BlockRootHashJobQueue::new(vec![job(1)]);
    assert!(!queue.should_throttle());
    queue.push(job(2));
    assert!(queue.should_throttle());
    queue.push(job(3));
    assert!(queue.should_throttle());
}

#[test]
fn size_is_pushes_minus_returned_pops() {
    let mut queue = BlockRootHashJobQueue::new(Vec::new());
    let mut pushes: usize = 0;
    let mut pops: usize = 0;
    let mut popped: Vec<u32> = Vec::new();
    let mut pushed: Vec<u32> = Vec::new();
    // push, push, pop, pop, pop (empty), push, pop, push, push, pop
    let script = [true, true, false, false, false, true, false, true, true, false];
    let mut next: u32 = 10;
    for is_push in script {
        if is_push {
            queue.push(job(next));
            pushed.push(next);
            next += 1;
            pushes += 1;
        } else if let Some(j) = queue.pop() {
            popped.push(j.block.0);
            pops += 1;
        }
        assert_eq!(queue.size(), pushes - pops);
    }
    assert_eq!(popped, vec![10, 11, 12, 13]);
    assert_eq!(&pushed[..popped.len()], &popped[..]);
    assert_eq!(queue.size(), 1);
}

#[test]
fn popped_job_carries_its_updates() {
    let update = AccountUpdate::Create {
        address: Address([3u8; 20]),
        nonce: 0,
        pub_key_hash: PubKeyHash([0u8; 20]),
    };
    let mut queue = BlockRootHashJobQueue::new(Vec::new());
    queue.push(BlockRootHashJob { block: BlockNumber(9), updates: vec![(AccountId(1), update)] });
    let popped = queue.pop().unwrap();
    assert_eq!(popped.block, BlockNumber(9));
    assert_eq!(popped.updates, vec![(AccountId(1), update)]);
}
