//! Thin persistence-facing wrappers: the character-scoped asset store
//! with its change clock, the local cache of fetched dynamics, and the
//! registry of authenticated characters. Time is a caller-supplied
//! nanosecond count; file writes live in the embedding program.

use vstd::prelude::*;

use crate::store::CharacterAssets;
use crate::table::Table;
use crate::types::{CharacterId, DynamicItem, ItemId, TypeId};

verus! {

/// The binding of a `(type, item)` pair in the cache list.
pub open spec fn dyn_get(s: Seq<((TypeId, ItemId), DynamicItem)>, t: TypeId, i: ItemId) -> Option<
    DynamicItem,
>
    decreases s.len(),
{
    if s.len() == 0 {
        None
    } else if s.last().0.0 == t && s.last().0.1 == i {
        Some(s.last().1)
    } else {
        dyn_get(s.drop_last(), t, i)
    }
}

/// Local cache of dynamic items fetched earlier, keyed by
/// `(type, item)`, with a change clock for best-effort persistence.
pub struct DynamicsDb {
    pub entries: Vec<((TypeId, ItemId), DynamicItem)>,
    pub last_stored_at: u64,
    pub last_updated_at: u64,
}

impl DynamicsDb {
    pub closed spec fn entries_seq(&self) -> Seq<((TypeId, ItemId), DynamicItem)> {
        self.entries@
    }

    pub open spec fn spec_get(&self, t: TypeId, i: ItemId) -> Option<DynamicItem> {
        dyn_get(self.entries_seq(), t, i)
    }

    pub fn new(now: u64) -> (r: DynamicsDb)
        ensures
            r.entries_seq().len() == 0,
            r.last_stored_at == now,
            r.last_updated_at == now,
    {
        DynamicsDb { entries: Vec::new(), last_stored_at: now, last_updated_at: now }
    }

    /// Cache one fetched dynamic; a re-fetch overwrites.
    pub fn add(&mut self, id: (TypeId, ItemId), item: DynamicItem, now: u64)
        ensures
            final(self).spec_get(id.0, id.1) matches Some(d) && d@ == item@,
            forall|t: TypeId, i: ItemId|
                !(t == id.0 && i == id.1) ==> final(self).spec_get(t, i) == old(self).spec_get(
                    t,
                    i,
                ),
            final(self).last_updated_at == now,
            final(self).last_stored_at == old(self).last_stored_at,
    {
        let ghost s0 = self.entries@;
        self.entries.push((id, item));
        self.last_updated_at = now;
        proof {
            assert(self.entries@.last() == (id, item));
            assert(self.entries@.drop_last() =~= s0);
        }
    }

    pub fn get(&self, id: (TypeId, ItemId)) -> (r: Option<&DynamicItem>)
        ensures
            match r {
                Some(d) => self.spec_get(id.0, id.1) == Some(*d),
                None => self.spec_get(id.0, id.1) is None,
            },
    {
        let ghost s = self.entries@;
        let n = self.entries.len();
        let mut i: usize = n;
        proof {
            assert(s.subrange(0, n as int) =~= s);
        }
        while i > 0
            invariant
                s == self.entries@,
                n == s.len(),
                i <= n,
                dyn_get(s, id.0, id.1) == dyn_get(s.subrange(0, i as int), id.0, id.1),
            decreases i,
        {
            let e = &self.entries[i - 1];
            proof {
                assert(s.subrange(0, i as int).last() == s[i - 1]);
                assert(s.subrange(0, i as int).drop_last() =~= s.subrange(0, i - 1));
            }
            if e.0.0 == id.0 && e.0.1 == id.1 {
                return Some(&e.1);
            }
            i = i - 1;
        }
        proof {
            assert(s.subrange(0, 0) =~= Seq::<((TypeId, ItemId), DynamicItem)>::empty());
        }
        None
    }

    pub fn contain(&self, id: (TypeId, ItemId)) -> (r: bool)
        ensures
            r == (self.spec_get(id.0, id.1) is Some),
    {
        self.get(id).is_some()
    }

    pub fn len(&self) -> (r: usize)
        ensures
            r == self.entries_seq().len(),
    {
        self.entries.len()
    }

    /// The store decision: write only when something changed since the
    /// last write; on a write the clock advances to `now`.
    pub fn note_stored(&mut self, now: u64) -> (wrote: bool)
        ensures
            wrote == (old(self).last_stored_at < old(self).last_updated_at),
            wrote ==> final(self).last_stored_at == now,
            !wrote ==> final(self).last_stored_at == old(self).last_stored_at,
            final(self).last_updated_at == old(self).last_updated_at,
            final(self).entries_seq() == old(self).entries_seq(),
    {
        if self.last_stored_at < self.last_updated_at {
            self.last_stored_at = now;
            true
        } else {
            false
        }
    }
}

/// The character-scoped asset store with its change clock.
pub struct CharacterAssetsDb {
    pub db: CharacterAssets,
    pub last_stored_at: u64,
    pub last_updated_at: u64,
}

impl CharacterAssetsDb {
    pub fn new(abyssal_items: Vec<TypeId>, now: u64) -> (r: CharacterAssetsDb)
        ensures
            r.db.wf(),
            r.db.abyssal_items@ == abyssal_items@,
            r.db.assets.entries_seq().len() == 0,
            r.db.dynamics.entries_seq().len() == 0,
            r.db.types.entries_seq().len() == 0,
            r.last_stored_at == now,
            r.last_updated_at == now,
    {
        CharacterAssetsDb {
            db: CharacterAssets::new(abyssal_items),
            last_stored_at: now,
            last_updated_at: now,
        }
    }

    /// Note a mutation of the store at time `now`.
    pub fn mark_updated(&mut self, now: u64)
        ensures
            final(self).db == old(self).db,
            final(self).last_stored_at == old(self).last_stored_at,
            final(self).last_updated_at == now,
    {
        self.last_updated_at = now;
    }

    /// The store decision, as for the dynamics cache.
    pub fn note_stored(&mut self, now: u64) -> (wrote: bool)
        ensures
            wrote == (old(self).last_stored_at < old(self).last_updated_at),
            wrote ==> final(self).last_stored_at == now,
            !wrote ==> final(self).last_stored_at == old(self).last_stored_at,
            final(self).last_updated_at == old(self).last_updated_at,
            final(self).db == old(self).db,
    {
        if self.last_stored_at < self.last_updated_at {
            self.last_stored_at = now;
            true
        } else {
            false
        }
    }
}

/// One authenticated character; the token is held as its opaque bytes.
pub struct CharacterClient {
    pub character_id: CharacterId,
    pub character_name: Vec<u8>,
    pub access_token: Vec<u8>,
}

impl CharacterClient {
    pub fn new(character_id: CharacterId, character_name: Vec<u8>, access_token: Vec<u8>) -> (r:
        CharacterClient)
        ensures
            r.character_id == character_id,
            r.character_name@ == character_name@,
            r.access_token@ == access_token@,
    {
        CharacterClient { character_id, character_name, access_token }
    }
}

/// Registry of authenticated characters, for point lookups.
pub struct CharacterManager {
    pub characters: Table<CharacterClient>,
}

impl CharacterManager {
    pub closed spec fn spec_get(&self, character_id: CharacterId) -> Option<CharacterClient> {
        self.characters.spec_get(character_id as i64)
    }

    pub closed spec fn wf(&self) -> bool {
        self.characters.wf()
    }

    pub fn new() -> (r: CharacterManager)
        ensures
            r.wf(),
            forall|c: CharacterId| r.spec_get(c) is None,
    {
        let r = CharacterManager { characters: Table::new() };
        proof {
            assert(forall|c: CharacterId| r.spec_get(c) is None);
        }
        r
    }

    pub fn add(&mut self, character: CharacterClient)
        requires
            old(self).wf(),
        ensures
            final(self).wf(),
            final(self).spec_get(character.character_id) == Some(character),
            forall|c: CharacterId|
                c != character.character_id ==> final(self).spec_get(c) == old(self).spec_get(c),
    {
        let id = character.character_id;
        self.characters.insert(id as i64, character);
        proof {
            assert forall|c: CharacterId|
                c != id implies final(self).spec_get(c) == old(self).spec_get(c) by {
                assert((c as i64) != (id as i64)) by (bit_vector)
                    requires
                        c != id,
                ;
            }
        }
    }

    pub fn get(&self, character_id: CharacterId) -> (r: Option<&CharacterClient>)
        ensures
            match r {
                Some(c) => self.spec_get(character_id) == Some(*c),
                None => self.spec_get(character_id) is None,
            },
    {
        self.characters.get(character_id as i64)
    }
}

} // verus!
