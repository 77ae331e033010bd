//! Plain data shared by the queue, the restore protocol and the calculator.

use vstd::prelude::*;

verus! {

/// Number of a block. Blocks are numbered densely from zero.
#[derive(Clone, Copy, Debug, PartialEq, Eq, Structural)]
pub struct BlockNumber(pub u32);

/// Position of an account in the account tree.
#[derive(Clone, Copy, Debug, PartialEq, Eq, Structural)]
pub struct AccountId(pub u32);

/// Identifier of a token.
#[derive(Clone, Copy, Debug, PartialEq, Eq, Structural)]
pub struct TokenId(pub u32);

/// Address of an account: twenty opaque bytes.
#[derive(Clone, Copy, Debug, PartialEq, Eq)]
pub struct Address(pub [u8; 20]);

/// Hash of the public key that may sign for an account: twenty opaque bytes.
#[derive(Clone, Copy, Debug, PartialEq, Eq)]
pub struct PubKeyHash(pub [u8; 20]);

/// Root hash of the account tree: thirty-two opaque bytes.
#[derive(Clone, Copy, Debug, PartialEq, Eq)]
pub struct RootHash(pub [u8; 32]);

/// Balance of one token on an account.
#[derive(Clone, Copy, Debug, PartialEq, Eq)]
pub struct Balance {
    pub token: TokenId,
    pub amount: u128,
}

/// An account as the state keeper sees it.
#[derive(Clone, Debug, PartialEq, Eq)]
pub struct Account {
    pub address: Address,
    pub nonce: u32,
    pub pub_key_hash: PubKeyHash,
    /// At most one entry per token; a token without an entry has balance zero.
    pub balances: Vec<Balance>,
}

/// One change of one account.
#[derive(Clone, Copy, Debug, PartialEq, Eq)]
pub enum AccountUpdate {
    Create { address: Address, nonce: u32, pub_key_hash: PubKeyHash },
    Delete { address: Address, nonce: u32, pub_key_hash: PubKeyHash },
    UpdateBalance { token: TokenId, old_amount: u128, new_amount: u128, new_nonce: u32 },
    ChangePubKeyHash { old_pub_key_hash: PubKeyHash, new_pub_key_hash: PubKeyHash, new_nonce: u32 },
}

/// Ordered log of account changes.
pub type AccountUpdates = Vec<(AccountId, AccountUpdate)>;

/// Whether two byte arrays hold the same bytes.
pub fn same_bytes<const N: usize>(a: &[u8; N], b: &[u8; N]) -> (r: bool)
    ensures
        r == (*a == *b),
{
    let mut i: usize = 0;
    while i < N
        invariant
            i <= N,
            forall|k: int| 0 <= k < i ==> a@[k] == b@[k],
        decreases N - i,
    {
        if a[i] != b[i] {
            return false;
        }
        i = i + 1;
    }
    assert(a@ =~= b@);
    assert(*a =~= *b);
    true
}

impl Address {
    /// Whether both addresses hold the same bytes.
    pub fn same(&self, other: &Address) -> (r: bool)
        ensures
            r == (*self == *other),
    {
        same_bytes(&self.0, &other.0)
    }
}

impl RootHash {
    /// Whether both hashes hold the same bytes.
    pub fn same(&self, other: &RootHash) -> (r: bool)
        ensures
            r == (*self == *other),
    {
        same_bytes(&self.0, &other.0)
    }
}

} // verus!
