//! State-keeper core of a layer-2 rollup node.
//!
//! - [`queue`]: the queue of block root hash jobs and its throttle rule;
//! - [`index`], [`tree`]: the account state that mirrors the sparse account
//!   tree, with the index from address to account id;
//! - [`tree_restore`]: the protocol that restores this state from storage
//!   and finds the block at which root hashes diverge;
//! - [`calculator`]: the consumer that applies sealed blocks in strict order;
//! - [`paginate`], [`prover_setup`], [`rejected_tx_cleaner`], [`tx_error`]:
//!   the rules of the node's thin adapters.
//!
//! Storage, the Merkle tree engine, timers and metrics are the caller's: the
//! library decides, the caller performs.

pub mod types;
pub mod queue;
pub mod index;
pub mod tree;
pub mod tree_restore;
pub mod calculator;
pub mod tx_error;
pub mod rejected_tx_cleaner;
pub mod prover_setup;
pub mod paginate;
