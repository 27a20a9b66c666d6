//! The index structures kept beside a registry's record log.
//!
//! Both registries keep, besides the primary id-to-record map, an owner
//! index, an id-to-owner table and a hash index. All three are append-only:
//! a successful admission appends one entry to each and nothing ever removes
//! one. They are kept here as plain logs of pairs, whose abstract value is
//! the sequence of pairs in append order; the derived per-key views are
//! spec functions over that sequence.

use vstd::prelude::*;

use crate::bytes::bytes_eq;
use crate::ledger::AccountId;

verus! {

/// The ids appended under `key`, in append order.
pub open spec fn ids_with_key(log: Seq<(u64, Seq<u8>)>, key: u64) -> Seq<Seq<u8>>
    decreases log.len(),
{
    if log.len() == 0 {
        Seq::empty()
    } else {
        let rest = ids_with_key(log.drop_last(), key);
        if log.last().0 == key {
            rest.push(log.last().1)
        } else {
            rest
        }
    }
}

/// The account most recently appended under `id`, if any.
pub open spec fn account_with_id(log: Seq<(Seq<u8>, AccountId)>, id: Seq<u8>) -> Option<AccountId>
    decreases log.len(),
{
    if log.len() == 0 {
        None
    } else if log.last().0 == id {
        Some(log.last().1)
    } else {
        account_with_id(log.drop_last(), id)
    }
}

struct KeyedEntry {
    key: u64,
    id: Vec<u8>,
}

/// An append-only multimap from a key to the ids appended under it.
pub struct KeyedIdLog {
    entries: Vec<KeyedEntry>,
}

impl KeyedIdLog {
    /// The log as a sequence of (key, id) pairs in append order.
    pub closed spec fn log(self) -> Seq<(u64, Seq<u8>)> {
        self.entries@.map_values(|e: KeyedEntry| (e.key, e.id@))
    }

    /// The ids appended under `key`, in append order.
    pub open spec fn ids_for(self, key: u64) -> Seq<Seq<u8>> {
        ids_with_key(self.log(), key)
    }

    /// An empty index.
    pub fn new() -> (index: Self)
        ensures
            index.log() == Seq::<(u64, Seq<u8>)>::empty(),
    {
        let index = KeyedIdLog { entries: Vec::new() };
        proof {
            assert(index.log() =~= Seq::<(u64, Seq<u8>)>::empty());
        }
        index
    }

    /// Appends `id` under `key`.
    pub fn append(&mut self, key: u64, id: Vec<u8>)
        ensures
            final(self).log() == old(self).log().push((key, id@)),
    {
        let ghost prior = self.log();
        let ghost id_view = id@;
        self.entries.push(KeyedEntry { key, id });
        proof {
            assert(self.log() =~= prior.push((key, id_view)));
        }
    }

    /// The ids appended under `key`, as owned byte strings in append order.
    pub fn ids_for_key(&self, key: u64) -> (ids: Vec<Vec<u8>>)
        ensures
            ids.deep_view() == self.ids_for(key),
    {
        let mut ids: Vec<Vec<u8>> = Vec::new();
        let n = self.entries.len();
        let mut i: usize = 0;
        while i < n
            invariant
                i <= n,
                n == self.entries.len(),
                ids.deep_view() == ids_with_key(self.log().take(i as int), key),
            decreases n - i,
        {
            let ghost prefix = ids.deep_view();
            if self.entries[i].key == key {
                let entry_id = self.entries[i].id.clone();
                proof {
                    assert(entry_id@ =~= self.entries@[i as int].id@);
                }
                ids.push(entry_id);
                proof {
                    assert(ids.deep_view() =~~= prefix.push(self.entries@[i as int].id@));
                }
            }
            proof {
                assert(self.log().take(i as int + 1).drop_last() =~= self.log().take(i as int));
                assert(self.log().take(i as int + 1).last() == self.log()[i as int]);
            }
            i += 1;
        }
        proof {
            assert(self.log().take(n as int) =~= self.log());
        }
        ids
    }
}

struct AccountEntry {
    id: Vec<u8>,
    account: AccountId,
}

/// An append-only table from a record id to its owning account; the latest
/// entry for an id wins.
pub struct AccountLog {
    entries: Vec<AccountEntry>,
}

impl AccountLog {
    /// The table as a sequence of (id, account) pairs in append order.
    pub closed spec fn log(self) -> Seq<(Seq<u8>, AccountId)> {
        self.entries@.map_values(|e: AccountEntry| (e.id@, e.account))
    }

    /// The account recorded for `id`, if any.
    pub open spec fn account_for(self, id: Seq<u8>) -> Option<AccountId> {
        account_with_id(self.log(), id)
    }

    /// An empty table.
    pub fn new() -> (table: Self)
        ensures
            table.log() == Seq::<(Seq<u8>, AccountId)>::empty(),
    {
        let table = AccountLog { entries: Vec::new() };
        proof {
            assert(table.log() =~= Seq::<(Seq<u8>, AccountId)>::empty());
        }
        table
    }

    /// Records `account` for `id`.
    pub fn insert(&mut self, id: Vec<u8>, account: AccountId)
        ensures
            final(self).log() == old(self).log().push((id@, account)),
    {
        let ghost prior = self.log();
        let ghost id_view = id@;
        self.entries.push(AccountEntry { id, account });
        proof {
            assert(self.log() =~= prior.push((id_view, account)));
        }
    }

    /// The account recorded for `id`, if any.
    pub fn lookup(&self, id: &[u8]) -> (r: Option<AccountId>)
        ensures
            r == self.account_for(id@),
    {
        let mut i: usize = self.entries.len();
        proof {
            assert(self.log().take(i as int) =~= self.log());
        }
        while i > 0
            invariant
                i <= self.entries.len(),
                self.account_for(id@) == account_with_id(self.log().take(i as int), id@),
            decreases i,
        {
            i -= 1;
            proof {
                assert(self.log().take(i as int + 1).drop_last() =~= self.log().take(i as int));
                assert(self.log().take(i as int + 1).last() == self.log()[i as int]);
            }
            if bytes_eq(self.entries[i].id.as_slice(), id) {
                return Some(self.entries[i].account);
            }
        }
        proof {
            assert(self.log().take(0) =~= Seq::<(Seq<u8>, AccountId)>::empty());
        }
        None
    }
}

} // verus!
