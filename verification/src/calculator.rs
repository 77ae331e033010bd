//! The consumer of root hash jobs: applies the updates of each sealed block to
//! the live account state, in strict block order.

use vstd::prelude::*;
use crate::queue::BlockRootHashJob;
use crate::tree::{model_insert, model_remove, AccountState, TreeModel};
use crate::types::{Account, AccountId, AccountUpdate, Balance, BlockNumber, TokenId};

verus! {

/// The balances after the balance of `token` was set to `amount`: the first
/// entry of the token is replaced, or an entry is added at the end.
pub open spec fn with_balance(balances: Seq<Balance>, token: TokenId, amount: u128) -> Seq<Balance>
    decreases balances.len(),
{
    if balances.len() == 0 {
        seq![Balance { token, amount }]
    } else if balances[0].token == token {
        seq![Balance { token, amount }] + balances.drop_first()
    } else {
        seq![balances[0]] + with_balance(balances.drop_first(), token, amount)
    }
}

/// Whether `after` is what `update` makes of `before`. An update that does not
/// fit (a creation over a live account, any other update without one) leaves
/// things as they are.
pub open spec fn account_after(
    before: Option<Account>,
    update: AccountUpdate,
    after: Option<Account>,
) -> bool {
    match (before, update) {
        (Some(a), AccountUpdate::Delete { .. }) => after.is_none(),
        (Some(a), AccountUpdate::UpdateBalance { token, new_amount, new_nonce, .. }) => {
            &&& after matches Some(b)
            &&& b.address == a.address
            &&& b.pub_key_hash == a.pub_key_hash
            &&& b.nonce == new_nonce
            &&& b.balances@ == with_balance(a.balances@, token, new_amount)
        },
        (Some(a), AccountUpdate::ChangePubKeyHash { new_pub_key_hash, new_nonce, .. }) => {
            &&& after matches Some(b)
            &&& b.address == a.address
            &&& b.pub_key_hash == new_pub_key_hash
            &&& b.nonce == new_nonce
            &&& b.balances == a.balances
        },
        (Some(a), AccountUpdate::Create { .. }) => after == Some(a),
        (None, AccountUpdate::Create { address, nonce, pub_key_hash }) => {
            &&& after matches Some(b)
            &&& b.address == address
            &&& b.pub_key_hash == pub_key_hash
            &&& b.nonce == nonce
            &&& b.balances@ == Seq::<Balance>::empty()
        },
        (None, _) => after.is_none(),
    }
}

/// The account at `id`, if there is one.
pub open spec fn account_at(m: TreeModel, id: AccountId) -> Option<Account> {
    if m.accounts.contains_key(id.0) {
        Some(m.accounts[id.0])
    } else {
        None
    }
}

/// Whether `after` is `before` with `update` applied to the account at `id`:
/// the updated account is inserted, a deleted one is removed together with
/// the index entry of its address.
pub open spec fn state_after(
    before: TreeModel,
    id: AccountId,
    update: AccountUpdate,
    after: TreeModel,
) -> bool {
    exists|updated: Option<Account>|
        {
            &&& account_after(account_at(before, id), update, updated)
            &&& after == (match updated {
                Some(account) => model_insert(before, id, account),
                None => model_remove(before, id),
            })
        }
}

/// Whether `trace` lists the states that applying `updates` one by one leads through.
pub open spec fn is_trace(trace: Seq<TreeModel>, updates: Seq<(AccountId, AccountUpdate)>) -> bool {
    &&& trace.len() == updates.len() + 1
    &&& forall|k: int|
        0 <= k < updates.len() ==> state_after(
            #[trigger] trace[k],
            updates[k].0,
            updates[k].1,
            trace[k + 1],
        )
}

/// Whether `after` is `before` with all of `updates` applied in order.
pub open spec fn state_after_all(
    before: TreeModel,
    updates: Seq<(AccountId, AccountUpdate)>,
    after: TreeModel,
) -> bool {
    exists|trace: Seq<TreeModel>|
        #[trigger] is_trace(trace, updates) && trace[0] == before && trace[updates.len() as int]
            == after
}

proof fn lemma_with_balance_at(s: Seq<Balance>, token: TokenId, amount: u128, j: int)
    requires
        0 <= j <= s.len(),
        forall|k: int| 0 <= k < j ==> (#[trigger] s[k]).token != token,
        j < s.len() ==> s[j].token == token,
    ensures
        with_balance(s, token, amount) == (if j < s.len() {
            s.update(j, Balance { token, amount })
        } else {
            s.push(Balance { token, amount })
        }),
    decreases s.len(),
{
    let b = Balance { token, amount };
    if s.len() == 0 {
        assert(seq![b] =~= s.push(b));
    } else if j == 0 {
        assert(seq![b] + s.drop_first() =~= s.update(0, b));
    } else {
        let t = s.drop_first();
        assert(s[0].token != token);
        assert(forall|k: int| 0 <= k < t.len() ==> (#[trigger] t[k]) == s[k + 1]);
        lemma_with_balance_at(t, token, amount, j - 1);
        if j < s.len() {
            assert(seq![s[0]] + t.update(j - 1, b) =~= s.update(j, b));
        } else {
            assert(seq![s[0]] + t.push(b) =~= s.push(b));
        }
    }
}

/// Sets the balance of `token` to `amount`.
pub fn set_balance(balances: &mut Vec<Balance>, token: TokenId, amount: u128)
    ensures
        final(balances)@ == with_balance(old(balances)@, token, amount),
{
    let mut j: usize = 0;
    while j < balances.len() && balances[j].token.0 != token.0
        invariant
            balances@ == old(balances)@,
            j <= balances@.len(),
            forall|k: int| 0 <= k < j ==> (#[trigger] balances@[k]).token != token,
        decreases balances@.len() - j,
    {
        j = j + 1;
    }
    proof {
        lemma_with_balance_at(balances@, token, amount, j as int);
    }
    if j < balances.len() {
        balances.set(j, Balance { token, amount });
    } else {
        balances.push(Balance { token, amount });
    }
}

/// What `update` makes of the account `before`.
pub fn apply_update(before: Option<Account>, update: AccountUpdate) -> (after: Option<Account>)
    ensures
        account_after(before, update, after),
{
    match before {
        Some(account) => match update {
            AccountUpdate::Delete { .. } => None,
            AccountUpdate::UpdateBalance { token, new_amount, new_nonce, .. } => {
                let Account { address, nonce: _, pub_key_hash, balances } = account;
                let mut balances = balances;
                set_balance(&mut balances, token, new_amount);
                Some(Account { address, nonce: new_nonce, pub_key_hash, balances })
            },
            AccountUpdate::ChangePubKeyHash { new_pub_key_hash, new_nonce, .. } => {
                let Account { address, nonce: _, pub_key_hash: _, balances } = account;
                Some(Account { address, nonce: new_nonce, pub_key_hash: new_pub_key_hash, balances })
            },
            AccountUpdate::Create { .. } => Some(account),
        },
        None => match update {
            AccountUpdate::Create { address, nonce, pub_key_hash } => Some(
                Account { address, nonce, pub_key_hash, balances: Vec::new() },
            ),
            _ => None,
        },
    }
}

/// The block expected after a job for `block` was handed to a calculator that
/// expects `expected`: the next one if the job is the expected one, none if
/// the job is refused.
pub open spec fn next_expected(expected: int, block: BlockNumber) -> Option<int> {
    if block.0 == expected {
        Some(expected + 1)
    } else {
        None
    }
}

/// A job that is not the one for the next block.
#[derive(Clone, Copy, Debug, PartialEq, Eq, Structural)]
pub struct OutOfOrderJob {
    /// The block processed last.
    pub last_processed: BlockNumber,
    /// The block of the job that was handed in.
    pub got: BlockNumber,
}

/// The live account state and the number of the block processed last.
#[derive(Debug)]
pub struct RootHashCalculator {
    state: AccountState,
    last_processed: BlockNumber,
}

impl RootHashCalculator {
    /// The account state is well formed.
    pub closed spec fn wf(&self) -> bool {
        self.state.wf()
    }

    /// The accounts and the address index.
    pub closed spec fn model(&self) -> TreeModel {
        self.state@
    }

    /// The block processed last.
    pub closed spec fn last_processed(&self) -> BlockNumber {
        self.last_processed
    }

    /// The number that the next job must carry.
    pub open spec fn expected_next(&self) -> int {
        self.last_processed().0 + 1
    }

    /// A calculator that continues after block `restored`, on the state restored to it.
    pub fn new(state: AccountState, restored: BlockNumber) -> (calculator: Self)
        requires
            state.wf(),
        ensures
            calculator.wf(),
            calculator.model() == state@,
            calculator.last_processed() == restored,
    {
        RootHashCalculator { state, last_processed: restored }
    }

    /// The accounts and the address index.
    pub fn state(&self) -> (state: &AccountState)
        ensures
            state@ == self.model(),
            state.wf() == self.wf(),
    {
        &self.state
    }

    /// The block processed last.
    pub fn last_processed_block(&self) -> (block: BlockNumber)
        ensures
            block == self.last_processed(),
    {
        self.last_processed
    }

    /// Processes the job of the next block: applies its updates, in order, to
    /// the account state, whose root hash is then that of the block. A job
    /// for any other block is refused and changes nothing.
    pub fn process(&mut self, job: BlockRootHashJob) -> (done: Result<(), OutOfOrderJob>)
        requires
            old(self).wf(),
        ensures
            final(self).wf(),
            done.is_ok() == next_expected(old(self).expected_next(), job.block).is_some(),
            job.block.0 == old(self).expected_next() ==> {
                &&& done.is_ok()
                &&& final(self).last_processed() == job.block
                &&& Some(final(self).expected_next()) == next_expected(
                    old(self).expected_next(),
                    job.block,
                )
                &&& state_after_all(old(self).model(), job.updates@, final(self).model())
            },
            job.block.0 != old(self).expected_next() ==> {
                &&& done == Err::<(), OutOfOrderJob>(
                    OutOfOrderJob { last_processed: old(self).last_processed(), got: job.block },
                )
                &&& final(self).model() == old(self).model()
                &&& final(self).last_processed() == old(self).last_processed()
            },
    {
        let last = self.last_processed;
        if last.0 == u32::MAX || job.block.0 != last.0 + 1 {
            return Err(OutOfOrderJob { last_processed: last, got: job.block });
        }
        let BlockRootHashJob { block, updates } = job;
        let ghost mut trace: Seq<TreeModel> = seq![self.state@];
        let mut i: usize = 0;
        while i < updates.len()
            invariant
                self.wf(),
                i <= updates@.len(),
                self.last_processed == old(self).last_processed,
                trace.len() == i + 1,
                trace[0] == old(self).model(),
                trace[i as int] == self.model(),
                forall|k: int|
                    0 <= k < i ==> state_after(
                        #[trigger] trace[k],
                        updates@[k].0,
                        updates@[k].1,
                        trace[k + 1],
                    ),
            decreases updates@.len() - i,
        {
            let (id, update) = updates[i];
            let ghost middle = self.state@;
            let before = self.state.remove_account(id);
            let after = apply_update(before, update);
            match after {
                Some(account) => {
                    self.state.insert_account(id, account);
                    assert(self.state@ =~= model_insert(middle, id, account)) by {
                        assert(self.state@.accounts =~= middle.accounts.insert(id.0, account));
                        if before.is_some() {
                            assert(account.address == before.unwrap().address);
                            assert(self.state@.index =~= middle.index.insert(account.address, id));
                        }
                    }
                },
                None => {},
            }
            proof {
                assert(state_after(middle, id, update, self.state@));
                let longer = trace.push(self.state@);
                assert(forall|k: int| 0 <= k <= i ==> longer[k] == trace[k]);
                assert forall|k: int| 0 <= k < i + 1 implies state_after(
                    #[trigger] longer[k],
                    updates@[k].0,
                    updates@[k].1,
                    longer[k + 1],
                ) by {
                    if k < i {
                        assert(state_after(trace[k], updates@[k].0, updates@[k].1, trace[k + 1]));
                    }
                }
                trace = longer;
            }
            i = i + 1;
        }
        assert(is_trace(trace, updates@));
        self.last_processed = block;
        Ok(())
    }
}

/// The block that is expected after jobs for `blocks` were handed in, in
/// order, to a calculator that expects `expected`; none if one of the jobs
/// was refused.
pub open spec fn expected_after(expected: int, blocks: Seq<BlockNumber>) -> Option<int>
    decreases blocks.len(),
{
    if blocks.len() == 0 {
        Some(expected)
    } else {
        match expected_after(expected, blocks.drop_last()) {
            Some(e) => next_expected(e, blocks.last()),
            None => None,
        }
    }
}

/// Jobs for consecutive blocks, the first of them the expected one, are all
/// accepted in that order, and each moves the expectation on by one.
pub proof fn lemma_consecutive_blocks_are_processed_in_order(
    expected: int,
    blocks: Seq<BlockNumber>,
)
    requires
        forall|i: int| 0 <= i < blocks.len() ==> (#[trigger] blocks[i]).0 == expected + i,
    ensures
        expected_after(expected, blocks) == Some(expected + blocks.len()),
    decreases blocks.len(),
{
    if blocks.len() > 0 {
        let p = blocks.drop_last();
        assert(forall|i: int| 0 <= i < p.len() ==> (#[trigger] p[i]) == blocks[i]);
        lemma_consecutive_blocks_are_processed_in_order(expected, p);
        assert(blocks.last() == blocks[blocks.len() - 1]);
    }
}

/// Only jobs for consecutive blocks are all accepted: each block is then
/// processed exactly once, in increasing order.
pub proof fn lemma_accepted_blocks_are_consecutive(expected: int, blocks: Seq<BlockNumber>)
    requires
        expected_after(expected, blocks).is_some(),
    ensures
        expected_after(expected, blocks) == Some(expected + blocks.len()),
        forall|i: int| 0 <= i < blocks.len() ==> (#[trigger] blocks[i]).0 == expected + i,
    decreases blocks.len(),
{
    if blocks.len() > 0 {
        let p = blocks.drop_last();
        lemma_accepted_blocks_are_consecutive(expected, p);
        assert forall|i: int| 0 <= i < blocks.len() implies (#[trigger] blocks[i]).0 == expected
            + i by {
            if i < p.len() {
                assert(p[i] == blocks[i]);
            } else {
                assert(blocks.last() == blocks[i]);
            }
        }
    }
}

/// A job that skips a block is refused, whatever was accepted before it.
pub proof fn lemma_gap_is_refused(expected: int, blocks: Seq<BlockNumber>, i: int)
    requires
        0 <= i < blocks.len(),
        expected_after(expected, blocks.take(i)) matches Some(e) && blocks[i].0 != e,
    ensures
        expected_after(expected, blocks).is_none(),
    decreases blocks.len() - i,
{
    if i == blocks.len() - 1 {
        assert(blocks.drop_last() =~= blocks.take(i));
    } else {
        let p = blocks.drop_last();
        assert(p.take(i) =~= blocks.take(i));
        lemma_gap_is_refused(expected, p, i);
    }
}

} // verus!
