//! The account state that mirrors the sparse account tree: the accounts by id
//! and the index from address to id, with the operations that restoring and
//! block processing perform on both.

use std::collections::HashMap;
use vstd::prelude::*;
use crate::index::AddressIndex;
use crate::types::{Account, AccountId, AccountUpdate, AccountUpdates, Address};

verus! {

broadcast use vstd::std_specs::hash::group_hash_axioms;

/// Mathematical content of the account state.
pub struct TreeModel {
    /// The live accounts by id.
    pub accounts: Map<u32, Account>,
    /// The id that each indexed address maps to.
    pub index: Map<Address, AccountId>,
}

/// The state without accounts.
pub open spec fn model_empty() -> TreeModel {
    TreeModel { accounts: Map::empty(), index: Map::empty() }
}

/// Puts `account` at `id` and maps its address to `id`.
pub open spec fn model_insert(m: TreeModel, id: AccountId, account: Account) -> TreeModel {
    TreeModel {
        accounts: m.accounts.insert(id.0, account),
        index: m.index.insert(account.address, id),
    }
}

/// Removes the account at `id`, and the index entry of its address, if there is one.
pub open spec fn model_remove(m: TreeModel, id: AccountId) -> TreeModel {
    if m.accounts.contains_key(id.0) {
        TreeModel {
            accounts: m.accounts.remove(id.0),
            index: m.index.remove(m.accounts[id.0].address),
        }
    } else {
        m
    }
}

/// Inserts every entry, from the last to the first.
pub open spec fn model_insert_all(m: TreeModel, entries: Seq<(AccountId, Account)>) -> TreeModel
    decreases entries.len(),
{
    if entries.len() == 0 {
        m
    } else {
        model_insert_all(
            model_insert(m, entries.last().0, entries.last().1),
            entries.drop_last(),
        )
    }
}

/// Adds the entries to `m`, from the last to the first.
pub open spec fn collect_into(m: Map<u32, Account>, entries: Seq<(AccountId, Account)>) -> Map<
    u32,
    Account,
>
    decreases entries.len(),
{
    if entries.len() == 0 {
        m
    } else {
        collect_into(m.insert(entries.last().0.0, entries.last().1), entries.drop_last())
    }
}

/// A listed account set as a map by id. Where an id is listed more than once,
/// its first entry counts.
pub open spec fn state_map(entries: Seq<(AccountId, Account)>) -> Map<u32, Account> {
    collect_into(Map::empty(), entries)
}

/// Each id is smaller than the next.
pub open spec fn strictly_increasing(ids: Seq<AccountId>) -> bool {
    forall|i: int, j: int| 0 <= i < j < ids.len() ==> (#[trigger] ids[i]).0 < (#[trigger] ids[j]).0
}

/// Puts `id` into a strictly increasing list, unless it is there.
pub open spec fn insert_sorted(ids: Seq<AccountId>, id: AccountId) -> Seq<AccountId>
    decreases ids.len(),
{
    if ids.len() == 0 {
        seq![id]
    } else if ids.last().0 < id.0 {
        ids.push(id)
    } else if ids.last().0 == id.0 {
        ids
    } else {
        insert_sorted(ids.drop_last(), id).push(ids.last())
    }
}

/// The ids that `diff` touches, each once, in increasing order.
pub open spec fn updated_ids(diff: Seq<(AccountId, AccountUpdate)>) -> Seq<AccountId>
    decreases diff.len(),
{
    if diff.len() == 0 {
        Seq::empty()
    } else {
        insert_sorted(updated_ids(diff.drop_last()), diff.last().0)
    }
}

/// Whether `diff` touches `id`.
pub open spec fn touches(diff: Seq<(AccountId, AccountUpdate)>, id: AccountId) -> bool {
    exists|k: int| 0 <= k < diff.len() && (#[trigger] diff[k]).0 == id
}

/// Brings the account at `id` to what `committed` holds for it: the account
/// listed there, or none.
pub open spec fn model_sync(m: TreeModel, id: AccountId, committed: Map<u32, Account>) -> TreeModel {
    if committed.contains_key(id.0) {
        model_insert(m, id, committed[id.0])
    } else {
        model_remove(m, id)
    }
}

/// Brings the accounts at `ids`, from the first to the last, to what `committed` holds.
pub open spec fn model_apply(m: TreeModel, ids: Seq<AccountId>, committed: Map<u32, Account>) -> TreeModel
    decreases ids.len(),
{
    if ids.len() == 0 {
        m
    } else {
        model_sync(model_apply(m, ids.drop_last(), committed), ids.last(), committed)
    }
}

proof fn lemma_insert_sorted_at(s: Seq<AccountId>, x: AccountId, j: int)
    requires
        0 <= j <= s.len(),
        forall|k: int| j <= k < s.len() ==> (#[trigger] s[k]).0 > x.0,
        j > 0 ==> s[j - 1].0 <= x.0,
    ensures
        insert_sorted(s, x) == (if j > 0 && s[j - 1].0 == x.0 {
            s
        } else {
            s.insert(j, x)
        }),
    decreases s.len(),
{
    if s.len() == 0 {
        assert(seq![x] =~= s.insert(0, x));
    } else if j == s.len() {
        if s.last().0 < x.0 {
            assert(s.push(x) =~= s.insert(j, x));
        }
    } else {
        assert(s.last() == s[s.len() - 1]);
        let p = s.drop_last();
        assert(forall|k: int| j <= k < p.len() ==> (#[trigger] p[k]) == s[k]);
        if j > 0 {
            assert(p[j - 1] == s[j - 1]);
        }
        lemma_insert_sorted_at(p, x, j);
        if j > 0 && s[j - 1].0 == x.0 {
            assert(p.push(s.last()) =~= s);
        } else {
            assert(p.insert(j, x).push(s.last()) =~= s.insert(j, x));
        }
    }
}

/// Puts `id` into the strictly increasing list `ids`, unless it is there.
fn insert_id(ids: &mut Vec<AccountId>, id: AccountId)
    requires
        strictly_increasing(old(ids)@),
    ensures
        final(ids)@ == insert_sorted(old(ids)@, id),
        strictly_increasing(final(ids)@),
        forall|y: AccountId| final(ids)@.contains(y) <==> (old(ids)@.contains(y) || y == id),
{
    let ghost s = ids@;
    let mut j: usize = ids.len();
    while j > 0 && ids[j - 1].0 > id.0
        invariant
            ids@ == s,
            j <= s.len(),
            forall|k: int| j <= k < s.len() ==> (#[trigger] s[k]).0 > id.0,
        decreases j,
    {
        j = j - 1;
    }
    proof {
        lemma_insert_sorted_at(s, id, j as int);
    }
    if j > 0 && ids[j - 1].0 == id.0 {
        assert(s[j - 1] == id);
        assert forall|y: AccountId| s.contains(y) <==> (s.contains(y) || y == id) by {}
    } else {
        ids.insert(j, id);
        proof {
            let t = ids@;
            assert(forall|k: int| 0 <= k < j ==> (#[trigger] t[k]) == s[k]);
            assert(t[j as int] == id);
            assert(forall|k: int| j < k < t.len() ==> (#[trigger] t[k]) == s[k - 1]);
            assert forall|a: int, b: int| 0 <= a < b < t.len() implies (#[trigger] t[a]).0 < (
            #[trigger] t[b]).0 by {
                if j > 0 {
                    assert(s[j - 1].0 < id.0);
                }
                if a < j && b < j {
                    assert(s[a].0 < s[b].0);
                } else if a < j && b == j {
                    if a < j - 1 {
                        assert(s[a].0 < s[j - 1].0);
                    }
                } else if a < j && b > j {
                    assert(s[a].0 < s[b - 1].0);
                } else if a == j {
                    assert(s[b - 1].0 > id.0);
                } else {
                    assert(s[a - 1].0 < s[b - 1].0);
                }
            }
            assert forall|y: AccountId| t.contains(y) <==> (s.contains(y) || y == id) by {
                if t.contains(y) {
                    let k = choose|k: int| 0 <= k < t.len() && t[k] == y;
                    if k < j {
                        assert(s[k] == y);
                    } else if k > j {
                        assert(s[k - 1] == y);
                    }
                }
                if s.contains(y) {
                    let k = choose|k: int| 0 <= k < s.len() && s[k] == y;
                    if k < j {
                        assert(t[k] == y);
                    } else {
                        assert(t[k + 1] == y);
                    }
                }
                if y == id {
                    assert(t[j as int] == y);
                }
            }
        }
    }
}

/// Lists the ids that `diff` touches, each once, in increasing order.
pub fn updated_accounts(diff: &AccountUpdates) -> (ids: Vec<AccountId>)
    ensures
        ids@ == updated_ids(diff@),
        strictly_increasing(ids@),
        forall|y: AccountId| ids@.contains(y) <==> touches(diff@, y),
{
    let mut ids: Vec<AccountId> = Vec::new();
    let mut i: usize = 0;
    assert(diff@.take(0) =~= Seq::empty());
    while i < diff.len()
        invariant
            i <= diff@.len(),
            ids@ == updated_ids(diff@.take(i as int)),
            strictly_increasing(ids@),
            forall|y: AccountId| ids@.contains(y) <==> touches(diff@.take(i as int), y),
        decreases diff@.len() - i,
    {
        let ghost before = ids@;
        let ghost p = diff@.take(i as int);
        let ghost q = diff@.take(i + 1);
        let id = diff[i].0;
        insert_id(&mut ids, id);
        proof {
            assert(q.drop_last() =~= p);
            assert(q.last() == diff@[i as int]);
            assert forall|y: AccountId| ids@.contains(y) <==> touches(q, y) by {
                if touches(q, y) {
                    let k = choose|k: int| 0 <= k < q.len() && (#[trigger] q[k]).0 == y;
                    if k < i {
                        assert(p[k].0 == y);
                    }
                }
                if touches(p, y) {
                    let k = choose|k: int| 0 <= k < p.len() && (#[trigger] p[k]).0 == y;
                    assert(q[k].0 == y);
                }
                if y == id {
                    assert(q[i as int].0 == y);
                }
            }
        }
        i = i + 1;
    }
    assert(diff@.take(diff@.len() as int) =~= diff@);
    ids
}

/// Turns a listed account set into a map by id.
pub fn collect_state(entries: Vec<(AccountId, Account)>) -> (state: HashMap<u32, Account>)
    ensures
        state@ == state_map(entries@),
{
    let ghost all = entries@;
    let mut entries = entries;
    let mut state: HashMap<u32, Account> = HashMap::new();
    while entries.len() > 0
        invariant
            collect_into(state@, entries@) == state_map(all),
        decreases entries@.len(),
    {
        let ghost before = entries@;
        let (id, account) = entries.pop().unwrap();
        assert(entries@ =~= before.drop_last());
        state.insert(id.0, account);
    }
    state
}

/// The accounts by id and the index from address to id.
#[derive(Debug)]
pub struct AccountState {
    tree: HashMap<u32, Account>,
    acc_id_by_addr: AddressIndex,
}

impl View for AccountState {
    type V = TreeModel;

    closed spec fn view(&self) -> TreeModel {
        TreeModel { accounts: self.tree@, index: self.acc_id_by_addr@ }
    }
}

impl AccountState {
    /// The index holds no address twice.
    pub closed spec fn wf(&self) -> bool {
        self.acc_id_by_addr.wf()
    }

    /// The state without accounts.
    pub fn new() -> (state: Self)
        ensures
            state.wf(),
            state@ == model_empty(),
    {
        AccountState { tree: HashMap::new(), acc_id_by_addr: AddressIndex::new() }
    }

    /// The account at `id`, if there is one.
    pub fn account(&self, id: AccountId) -> (account: Option<&Account>)
        ensures
            match account {
                Some(a) => self@.accounts.contains_key(id.0) && *a == self@.accounts[id.0],
                None => !self@.accounts.contains_key(id.0),
            },
    {
        self.tree.get(&id.0)
    }

    /// The id that the index holds for `address`, if any.
    pub fn id_by_address(&self, address: &Address) -> (id: Option<AccountId>)
        requires
            self.wf(),
        ensures
            id == (if self@.index.contains_key(*address) {
                Some(self@.index[*address])
            } else {
                None
            }),
    {
        self.acc_id_by_addr.get(address)
    }

    /// Number of live accounts.
    pub fn len(&self) -> (n: usize)
        ensures
            n == self@.accounts.len(),
    {
        self.tree.len()
    }

    /// Puts `account` at `id`, in place of what was there, and maps its address to `id`.
    pub fn insert_account(&mut self, id: AccountId, account: Account)
        requires
            old(self).wf(),
        ensures
            final(self).wf(),
            final(self)@ == model_insert(old(self)@, id, account),
    {
        self.acc_id_by_addr.insert(account.address, id);
        self.tree.insert(id.0, account);
    }

    /// Removes the account at `id` and the index entry of its address, and
    /// hands the account out. Without an account at `id` nothing changes.
    pub fn remove_account(&mut self, id: AccountId) -> (removed: Option<Account>)
        requires
            old(self).wf(),
        ensures
            final(self).wf(),
            final(self)@ == model_remove(old(self)@, id),
            removed == (if old(self)@.accounts.contains_key(id.0) {
                Some(old(self)@.accounts[id.0])
            } else {
                None
            }),
    {
        match self.tree.remove(&id.0) {
            Some(account) => {
                self.acc_id_by_addr.remove(&account.address);
                Some(account)
            },
            None => {
                assert(self.tree@ =~= old(self).tree@);
                None
            },
        }
    }

    /// Inserts every listed account, from the last entry to the first.
    pub fn insert_all(&mut self, entries: Vec<(AccountId, Account)>)
        requires
            old(self).wf(),
        ensures
            final(self).wf(),
            final(self)@ == model_insert_all(old(self)@, entries@),
    {
        let ghost all = entries@;
        let ghost start = self@;
        let mut entries = entries;
        while entries.len() > 0
            invariant
                self.wf(),
                model_insert_all(self@, entries@) == model_insert_all(start, all),
            decreases entries@.len(),
        {
            let ghost before = entries@;
            let (id, account) = entries.pop().unwrap();
            assert(entries@ =~= before.drop_last());
            self.insert_account(id, account);
        }
    }

    /// Brings the state to the committed state `committed`, given the complete
    /// log `diff` of the updates that lead there: each account that the log
    /// touches is replaced by the committed one, or removed where the
    /// committed state holds none. Accounts that the log does not touch stay.
    pub fn apply_state_diff(&mut self, committed: Vec<(AccountId, Account)>, diff: &AccountUpdates)
        requires
            old(self).wf(),
        ensures
            final(self).wf(),
            final(self)@ == model_apply(
                old(self)@,
                updated_ids(diff@),
                state_map(committed@),
            ),
    {
        let mut state = collect_state(committed);
        let ids = updated_accounts(diff);
        let ghost target = state@;
        let ghost start = self@;
        let mut i: usize = 0;
        assert(ids@.take(0) =~= Seq::empty());
        while i < ids.len()
            invariant
                self.wf(),
                i <= ids@.len(),
                strictly_increasing(ids@),
                self@ == model_apply(start, ids@.take(i as int), target),
                forall|k: u32| #[trigger]
                    state@.contains_key(k) ==> target.contains_key(k) && state@[k] == target[k],
                forall|j: int|
                    i <= j < ids@.len() && target.contains_key((#[trigger] ids@[j]).0)
                        ==> state@.contains_key(ids@[j].0),
            decreases ids@.len() - i,
        {
            let id = ids[i];
            let ghost q = ids@.take(i + 1);
            proof {
                assert(q.drop_last() =~= ids@.take(i as int));
                assert(q.last() == ids@[i as int]);
                assert(forall|j: int| i < j < ids@.len() ==> ids@[i as int].0 < (#[trigger] ids@[j]).0);
            }
            match state.remove(&id.0) {
                Some(account) => {
                    self.insert_account(id, account);
                },
                None => {
                    self.remove_account(id);
                },
            }
            i = i + 1;
        }
        assert(ids@.take(ids@.len() as int) =~= ids@);
    }
}

/// Deletion: an account that the log touches and that the committed state no
/// longer holds is gone after the log was applied, and so is the index entry
/// of its address, provided that none of the touched accounts which the
/// committed state does hold carries that address.
pub proof fn lemma_deleted_account_leaves_index(
    m: TreeModel,
    ids: Seq<AccountId>,
    committed: Map<u32, Account>,
    id: AccountId,
)
    requires
        m.accounts.contains_key(id.0),
        !committed.contains_key(id.0),
        forall|k: int|
            0 <= k < ids.len() && committed.contains_key((#[trigger] ids[k]).0)
                ==> committed[ids[k].0].address != m.accounts[id.0].address,
    ensures
        ids.contains(id) ==> !model_apply(m, ids, committed).accounts.contains_key(id.0)
            && !model_apply(m, ids, committed).index.contains_key(m.accounts[id.0].address),
        !ids.contains(id) ==> model_apply(m, ids, committed).accounts.contains_key(id.0)
            && model_apply(m, ids, committed).accounts[id.0] == m.accounts[id.0],
    decreases ids.len(),
{
    if ids.len() > 0 {
        let p = ids.drop_last();
        let last = ids.last();
        assert(forall|k: int| 0 <= k < p.len() ==> (#[trigger] p[k]) == ids[k]);
        lemma_deleted_account_leaves_index(m, p, committed, id);
        assert(ids.contains(id) <==> (p.contains(id) || last == id)) by {
            if ids.contains(id) {
                let k = choose|k: int| 0 <= k < ids.len() && ids[k] == id;
                if k < p.len() {
                    assert(p[k] == id);
                }
            }
            if p.contains(id) {
                let k = choose|k: int| 0 <= k < p.len() && p[k] == id;
                assert(ids[k] == id);
            }
            if last == id {
                assert(ids[ids.len() - 1] == id);
            }
        }
        assert(ids[ids.len() - 1] == last);
    }
}

} // verus!
