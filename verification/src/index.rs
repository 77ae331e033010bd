//! Secondary index from the address of a live account to its id.

use vstd::prelude::*;
use crate::types::{AccountId, Address};

verus! {

spec fn keys_distinct(s: Seq<(Address, AccountId)>) -> bool {
    forall|i: int, j: int| 0 <= i < j < s.len() ==> (#[trigger] s[i]).0 != (#[trigger] s[j]).0
}

spec fn holds(s: Seq<(Address, AccountId)>, a: Address) -> bool {
    exists|i: int| 0 <= i < s.len() && (#[trigger] s[i]).0 == a
}

spec fn slot(s: Seq<(Address, AccountId)>, a: Address) -> int {
    choose|i: int| 0 <= i < s.len() && (#[trigger] s[i]).0 == a
}

spec fn as_map(s: Seq<(Address, AccountId)>) -> Map<Address, AccountId> {
    Map::new(|a: Address| holds(s, a), |a: Address| s[slot(s, a)].1)
}

proof fn lemma_slot(s: Seq<(Address, AccountId)>, i: int)
    requires
        keys_distinct(s),
        0 <= i < s.len(),
    ensures
        holds(s, s[i].0),
        slot(s, s[i].0) == i,
        as_map(s).contains_key(s[i].0),
        as_map(s)[s[i].0] == s[i].1,
{
    let a = s[i].0;
    assert(holds(s, a));
    let k = slot(s, a);
    assert(0 <= k < s.len() && s[k].0 == a);
    if k < i {
        assert(s[k].0 != s[i].0);
    } else if i < k {
        assert(s[i].0 != s[k].0);
    }
}

/// Map from address to account id, held as a list without repeated addresses.
#[derive(Debug)]
pub struct AddressIndex {
    entries: Vec<(Address, AccountId)>,
}

impl View for AddressIndex {
    type V = Map<Address, AccountId>;

    closed spec fn view(&self) -> Map<Address, AccountId> {
        as_map(self.entries@)
    }
}

impl AddressIndex {
    /// No address occurs twice.
    pub closed spec fn wf(&self) -> bool {
        keys_distinct(self.entries@)
    }

    /// An index without entries.
    pub fn new() -> (index: Self)
        ensures
            index.wf(),
            index@ == Map::<Address, AccountId>::empty(),
    {
        let index = AddressIndex { entries: Vec::new() };
        assert(index@ =~= Map::<Address, AccountId>::empty());
        index
    }

    fn position(&self, address: &Address) -> (at: Option<usize>)
        requires
            self.wf(),
        ensures
            match at {
                Some(i) => i < self.entries@.len() && self.entries@[i as int].0 == *address,
                None => !holds(self.entries@, *address),
            },
    {
        let mut i: usize = 0;
        while i < self.entries.len()
            invariant
                i <= self.entries@.len(),
                forall|k: int| 0 <= k < i ==> (#[trigger] self.entries@[k]).0 != *address,
            decreases self.entries@.len() - i,
        {
            if self.entries[i].0.same(address) {
                return Some(i);
            }
            i = i + 1;
        }
        None
    }

    /// The id that `address` maps to, if any.
    pub fn get(&self, address: &Address) -> (id: Option<AccountId>)
        requires
            self.wf(),
        ensures
            id == (if self@.contains_key(*address) {
                Some(self@[*address])
            } else {
                None
            }),
    {
        match self.position(address) {
            Some(i) => {
                proof {
                    lemma_slot(self.entries@, i as int);
                }
                Some(self.entries[i].1)
            },
            None => None,
        }
    }

    /// Maps `address` to `id`, whatever it mapped to before.
    pub fn insert(&mut self, address: Address, id: AccountId)
        requires
            old(self).wf(),
        ensures
            final(self).wf(),
            final(self)@ == old(self)@.insert(address, id),
    {
        let ghost s = self.entries@;
        match self.position(&address) {
            Some(i) => {
                self.entries.set(i, (address, id));
                proof {
                    let t = self.entries@;
                    assert(forall|k: int| 0 <= k < s.len() ==> (#[trigger] t[k]).0 == s[k].0);
                    assert(keys_distinct(t)) by {
                        assert forall|a: int, b: int| 0 <= a < b < t.len() implies (#[trigger] t[a]).0
                            != (#[trigger] t[b]).0 by {
                            assert(s[a].0 != s[b].0);
                        }
                    }
                    assert forall|a: Address| #[trigger] holds(t, a) == (holds(s, a) || a == address) by {
                        if holds(s, a) {
                            let k = slot(s, a);
                            assert(t[k].0 == a);
                        }
                        if holds(t, a) {
                            let k = slot(t, a);
                            assert(s[k].0 == a);
                        }
                        if a == address {
                            assert(t[i as int].0 == a);
                        }
                    }
                    assert forall|a: Address| holds(t, a) implies #[trigger] as_map(t)[a] == as_map(
                        s,
                    ).insert(address, id)[a] by {
                        let k = slot(t, a);
                        lemma_slot(t, k);
                        assert(s[k].0 == a);
                        lemma_slot(s, k);
                    }
                    assert(as_map(t) =~= as_map(s).insert(address, id));
                }
            },
            None => {
                self.entries.push((address, id));
                proof {
                    let t = self.entries@;
                    assert(forall|k: int| 0 <= k < s.len() ==> (#[trigger] t[k]) == s[k]);
                    assert(keys_distinct(t)) by {
                        assert forall|a: int, b: int| 0 <= a < b < t.len() implies (#[trigger] t[a]).0
                            != (#[trigger] t[b]).0 by {
                            if b < s.len() {
                                assert(s[a].0 != s[b].0);
                            } else {
                                assert(s[a].0 != address);
                            }
                        }
                    }
                    assert forall|a: Address| #[trigger] holds(t, a) == (holds(s, a) || a == address) by {
                        if holds(s, a) {
                            let k = slot(s, a);
                            assert(t[k].0 == a);
                        }
                        if holds(t, a) {
                            let k = slot(t, a);
                            if k < s.len() {
                                assert(s[k].0 == a);
                            }
                        }
                        if a == address {
                            assert(t[s.len() as int].0 == a);
                        }
                    }
                    assert forall|a: Address| holds(t, a) implies #[trigger] as_map(t)[a] == as_map(
                        s,
                    ).insert(address, id)[a] by {
                        let k = slot(t, a);
                        lemma_slot(t, k);
                        if k < s.len() {
                            assert(s[k].0 == a);
                            lemma_slot(s, k);
                        }
                    }
                    assert(as_map(t) =~= as_map(s).insert(address, id));
                }
            },
        }
    }

    /// Removes the entry of `address`, if there is one.
    pub fn remove(&mut self, address: &Address)
        requires
            old(self).wf(),
        ensures
            final(self).wf(),
            final(self)@ == old(self)@.remove(*address),
    {
        let ghost s = self.entries@;
        match self.position(address) {
            Some(i) => {
                self.entries.remove(i);
                proof {
                    let t = self.entries@;
                    assert(forall|k: int| 0 <= k < i ==> (#[trigger] t[k]) == s[k]);
                    assert(forall|k: int| i <= k < t.len() ==> (#[trigger] t[k]) == s[k + 1]);
                    assert(keys_distinct(t)) by {
                        assert forall|a: int, b: int| 0 <= a < b < t.len() implies (#[trigger] t[a]).0
                            != (#[trigger] t[b]).0 by {
                            let a2 = if a < i { a } else { a + 1 };
                            let b2 = if b < i { b } else { b + 1 };
                            assert(s[a2].0 != s[b2].0);
                        }
                    }
                    assert forall|a: Address| #[trigger] holds(t, a) == (holds(s, a) && a != *address) by {
                        if holds(s, a) && a != *address {
                            let k = slot(s, a);
                            let k2 = if k < i { k } else { k - 1 };
                            assert(t[k2].0 == a);
                        }
                        if holds(t, a) {
                            let k = slot(t, a);
                            let k2 = if k < i { k } else { k + 1 };
                            assert(s[k2].0 == a);
                            if k2 < i {
                                assert(s[k2].0 != s[i as int].0);
                            } else {
                                assert(s[i as int].0 != s[k2].0);
                            }
                        }
                    }
                    assert forall|a: Address| holds(t, a) implies #[trigger] as_map(t)[a] == as_map(
                        s,
                    )[a] by {
                        let k = slot(t, a);
                        lemma_slot(t, k);
                        let k2 = if k < i { k } else { k + 1 };
                        assert(s[k2].0 == a);
                        lemma_slot(s, k2);
                    }
                    assert(as_map(t) =~= as_map(s).remove(*address));
                }
            },
            None => {
                assert(as_map(s) =~= as_map(s).remove(*address));
            },
        }
    }
}

} // verus!
