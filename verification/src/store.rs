//! The canonical asset store: typed tables, admission functions that
//! return the *newly implied* keys (the dependency surface the saga uses
//! to discover work), the mutator attribute algebra, and the closure
//! predicate `all_items_resolved`.

use vstd::prelude::*;

use crate::bytes::{attribute_prefix_vec, bytes_eq, prefixed_i64, station_label};
use crate::table::{lemma_entry_get, lemma_get_some_index, spec_get_in, Table};
use crate::types::{
    AssetItem, AttributeRange, DogmaAttribute, DogmaAttributeConcise, DogmaAttributeId,
    DynamicItem, ItemId, ItemType, MarketGroup, MarketGroupId, Station, StationId, TypeId,
};

verus! {

/// A reference that an admission has surfaced and that is not yet
/// present in the store: the saga's unit of new work.
#[derive(Clone, Copy, PartialEq, Eq, Structural, Debug)]
pub enum GetData {
    Dynamic(TypeId, ItemId),
    MarketGroup(MarketGroupId),
    Station(StationId),
    Type(TypeId),
    DogmaAttribute(DogmaAttributeId),
}

/// Errors of the store's query functions.
#[derive(Clone, Copy, PartialEq, Eq, Structural, Debug)]
pub enum StoreError {
    SourceTypeNotFound(TypeId),
    MutatorTypeNotFound(TypeId),
    ResultingTypeNotFound(TypeId),
    AttributeNameNotFound,
}

/// Reverse index from a dogma attribute's name to its id.
pub struct NameIndex {
    entries: Vec<(Vec<u8>, DogmaAttributeId)>,
}

/// The binding of `name` in the index, newest binding first.
pub open spec fn name_get(s: Seq<(Seq<u8>, DogmaAttributeId)>, name: Seq<u8>) -> Option<
    DogmaAttributeId,
>
    decreases s.len(),
{
    if s.len() == 0 {
        None
    } else if s.last().0 == name {
        Some(s.last().1)
    } else {
        name_get(s.drop_last(), name)
    }
}

impl NameIndex {
    pub closed spec fn view_seq(&self) -> Seq<(Seq<u8>, DogmaAttributeId)> {
        self.entries@.map_values(|p: (Vec<u8>, DogmaAttributeId)| (p.0@, p.1))
    }

    pub open spec fn spec_get(&self, name: Seq<u8>) -> Option<DogmaAttributeId> {
        name_get(self.view_seq(), name)
    }

    pub fn new() -> (r: NameIndex)
        ensures
            r.view_seq() == Seq::<(Seq<u8>, DogmaAttributeId)>::empty(),
            forall|n: Seq<u8>| r.spec_get(n) is None,
    {
        let r = NameIndex { entries: Vec::new() };
        proof {
            assert(r.view_seq() =~= Seq::<(Seq<u8>, DogmaAttributeId)>::empty());
            assert(forall|n: Seq<u8>| r.spec_get(n) is None);
        }
        r
    }

    pub fn get(&self, name: &Vec<u8>) -> (r: Option<DogmaAttributeId>)
        ensures
            r == self.spec_get(name@),
    {
        let ghost s = self.view_seq();
        let n = self.entries.len();
        let mut i: usize = n;
        proof {
            assert(s.subrange(0, n as int) =~= s);
        }
        while i > 0
            invariant
                s == self.view_seq(),
                n == s.len(),
                n == self.entries@.len(),
                i <= n,
                name_get(s, name@) == name_get(s.subrange(0, i as int), name@),
            decreases i,
        {
            let e = &self.entries[i - 1];
            proof {
                assert(s[i - 1] == (self.entries@[i - 1].0@, self.entries@[i - 1].1));
                assert(s.subrange(0, i as int).last() == s[i - 1]);
                assert(s.subrange(0, i as int).drop_last() =~= s.subrange(0, i - 1));
            }
            if bytes_eq(&e.0, name) {
                return Some(e.1);
            }
            i = i - 1;
        }
        proof {
            assert(s.subrange(0, 0) =~= Seq::<(Seq<u8>, DogmaAttributeId)>::empty());
        }
        None
    }

    /// Rebuild an index from exported entries.
    pub fn from_entries(entries: Vec<(Vec<u8>, DogmaAttributeId)>) -> (r: NameIndex)
        ensures
            r.view_seq() == entries@.map_values(|p: (Vec<u8>, DogmaAttributeId)| (p.0@, p.1)),
    {
        NameIndex { entries }
    }

    /// Export the entries, views preserved.
    pub fn export(&self) -> (r: Vec<(Vec<u8>, DogmaAttributeId)>)
        ensures
            r@.map_values(|p: (Vec<u8>, DogmaAttributeId)| (p.0@, p.1)) == self.view_seq(),
    {
        let mut out: Vec<(Vec<u8>, DogmaAttributeId)> = Vec::new();
        let n = self.entries.len();
        let mut i: usize = 0;
        while i < n
            invariant
                n == self.entries@.len(),
                i <= n,
                out@.len() == i,
                forall|j: int|
                    0 <= j < i ==> (#[trigger] out@[j]).0@ == self.entries@[j].0@ && out@[j].1
                        == self.entries@[j].1,
            decreases n - i,
        {
            let e = &self.entries[i];
            out.push((crate::types::clone_bytes(&e.0), e.1));
            i = i + 1;
        }
        proof {
            assert(out@.map_values(|p: (Vec<u8>, DogmaAttributeId)| (p.0@, p.1))
                =~= self.view_seq());
        }
        out
    }

    /// Bind `name` to `id`, overwriting an earlier binding of the name.
    pub fn insert(&mut self, name: Vec<u8>, id: DogmaAttributeId)
        ensures
            final(self).spec_get(name@) == Some(id),
            forall|n2: Seq<u8>| n2 != name@ ==> final(self).spec_get(n2) == old(self).spec_get(n2),
    {
        let ghost s = self.view_seq();
        self.entries.push((name, id));
        proof {
            let t = self.view_seq();
            assert(t =~= s.push((self.entries@.last().0@, id)));
            assert(t.last().0 == self.entries@.last().0@);
            assert(t.drop_last() =~= s);
        }
    }
}

/// True when `t` occurs in `v`.
pub fn contains_type_id(v: &Vec<TypeId>, t: TypeId) -> (r: bool)
    ensures
        r == v@.contains(t),
{
    let n = v.len();
    let mut i: usize = 0;
    while i < n
        invariant
            n == v@.len(),
            i <= n,
            forall|j: int| 0 <= j < i ==> v@[j] != t,
        decreases n - i,
    {
        if v[i] == t {
            return true;
        }
        i = i + 1;
    }
    proof {
        assert(!v@.contains(t));
    }
    false
}

/// The concurrent, typed, in-memory store. Locking is the embedding
/// program's business; the verified store is a value with exclusive
/// mutation through `&mut`.
pub struct CharacterAssets {
    pub assets: Table<AssetItem>,
    pub assets_names: Table<Vec<u8>>,
    pub stations: Table<Station>,
    pub dynamics: Table<DynamicItem>,
    pub dogma_attributes: Table<DogmaAttribute>,
    pub dogma_attributes_name_to_id: NameIndex,
    pub types: Table<ItemType>,
    pub market_groups: Table<MarketGroup>,
    pub abyssal_items: Vec<TypeId>,
    pub mutaplasmid_effects: MutaplasmidEffects,
}

/// The mutator relation: the source-of-truth triple set
/// `(source, mutator, resulting)`, unique per `(source, mutator)` (the
/// first writer wins), and the per-mutator attribute ranges.
pub struct MutaplasmidEffects {
    pub relations: Vec<(TypeId, TypeId, TypeId)>,
    pub attributes: Table<Vec<(DogmaAttributeId, AttributeRange)>>,
}

/// The resulting type of `(source, mutator)` in a triple sequence.
pub open spec fn rel_get(s: Seq<(TypeId, TypeId, TypeId)>, src: TypeId, mutator: TypeId) -> Option<
    TypeId,
>
    decreases s.len(),
{
    if s.len() == 0 {
        None
    } else if s.last().0 == src && s.last().1 == mutator {
        Some(s.last().2)
    } else {
        rel_get(s.drop_last(), src, mutator)
    }
}

/// The binding of an attribute id in a per-mutator range list.
pub open spec fn range_get(s: Seq<(DogmaAttributeId, AttributeRange)>, a: DogmaAttributeId) -> Option<
    AttributeRange,
>
    decreases s.len(),
{
    if s.len() == 0 {
        None
    } else if s.last().0 == a {
        Some(s.last().1)
    } else {
        range_get(s.drop_last(), a)
    }
}

impl MutaplasmidEffects {
    pub open spec fn wf(&self) -> bool {
        &&& self.attributes.wf()
        &&& forall|i: int, j: int|
            0 <= i < j < self.relations@.len() ==> !((#[trigger] self.relations@[i]).0 == (
            #[trigger] self.relations@[j]).0 && self.relations@[i].1 == self.relations@[j].1)
    }

    pub fn new() -> (r: MutaplasmidEffects)
        ensures
            r.wf(),
            r.relations@ == Seq::<(TypeId, TypeId, TypeId)>::empty(),
            r.attributes.entries_seq() == Seq::<(i64, Vec<(DogmaAttributeId, AttributeRange)>)>::empty(),
    {
        MutaplasmidEffects { relations: Vec::new(), attributes: Table::new() }
    }
}

impl CharacterAssets {
    pub open spec fn wf(&self) -> bool {
        &&& self.assets.wf()
        &&& self.assets_names.wf()
        &&& self.stations.wf()
        &&& self.dynamics.wf()
        &&& self.dogma_attributes.wf()
        &&& self.types.wf()
        &&& self.market_groups.wf()
        &&& self.mutaplasmid_effects.wf()
    }

    pub open spec fn spec_is_abyssal(&self, t: TypeId) -> bool {
        self.abyssal_items@.contains(t)
    }

    pub open spec fn has_station(&self, s: StationId) -> bool {
        self.stations.contains_key(s as i64)
    }

    pub open spec fn has_type(&self, t: TypeId) -> bool {
        self.types.contains_key(t as i64)
    }

    pub open spec fn has_group(&self, g: MarketGroupId) -> bool {
        self.market_groups.contains_key(g as i64)
    }

    pub open spec fn has_dynamic(&self, i: ItemId) -> bool {
        self.dynamics.contains_key(i)
    }

    pub open spec fn has_dogma(&self, a: DogmaAttributeId) -> bool {
        self.dogma_attributes.contains_key(a as i64)
    }

    pub fn new(abyssal_items: Vec<TypeId>) -> (r: CharacterAssets)
        ensures
            r.wf(),
            r.abyssal_items@ == abyssal_items@,
            r.assets.entries_seq().len() == 0,
            r.assets_names.entries_seq().len() == 0,
            r.stations.entries_seq().len() == 0,
            r.dynamics.entries_seq().len() == 0,
            r.dogma_attributes.entries_seq().len() == 0,
            r.types.entries_seq().len() == 0,
            r.market_groups.entries_seq().len() == 0,
            r.mutaplasmid_effects.relations@.len() == 0,
            r.mutaplasmid_effects.attributes.entries_seq().len() == 0,
            forall|n: Seq<u8>| r.dogma_attributes_name_to_id.spec_get(n) is None,
    {
        CharacterAssets {
            assets: Table::new(),
            assets_names: Table::new(),
            stations: Table::new(),
            dynamics: Table::new(),
            dogma_attributes: Table::new(),
            dogma_attributes_name_to_id: NameIndex::new(),
            types: Table::new(),
            market_groups: Table::new(),
            abyssal_items,
            mutaplasmid_effects: MutaplasmidEffects::new(),
        }
    }

    pub fn is_abyssal(&self, asset: &AssetItem) -> (r: bool)
        ensures
            r == self.spec_is_abyssal(asset.type_id),
    {
        contains_type_id(&self.abyssal_items, asset.type_id)
    }
}

/// The keys a newly admitted asset implies: its station when it sits on
/// one, its own dynamic record when its type is abyssal, and its type —
/// each only when not yet present.
pub open spec fn asset_implied_keys(st: CharacterAssets, a: AssetItem) -> Seq<GetData> {
    (if a.location_type@ == station_label() && !st.has_station(a.location_id as StationId) {
        seq![GetData::Station(a.location_id as StationId)]
    } else {
        Seq::<GetData>::empty()
    }) + (if st.spec_is_abyssal(a.type_id) && !st.has_dynamic(a.item_id) {
        seq![GetData::Dynamic(a.type_id, a.item_id)]
    } else {
        Seq::<GetData>::empty()
    }) + (if !st.has_type(a.type_id) {
        seq![GetData::Type(a.type_id)]
    } else {
        Seq::<GetData>::empty()
    })
}

/// The keys a newly admitted type implies: its market group if set and
/// missing.
pub open spec fn type_implied_keys(st: CharacterAssets, t: ItemType) -> Seq<GetData> {
    match t.market_group_id {
        Some(g) => if !st.has_group(g) {
            seq![GetData::MarketGroup(g)]
        } else {
            Seq::<GetData>::empty()
        },
        None => Seq::<GetData>::empty(),
    }
}

/// Type keys for the member types of a market group that are missing.
pub open spec fn group_member_keys(st: CharacterAssets, members: Seq<TypeId>) -> Seq<GetData>
    decreases members.len(),
{
    if members.len() == 0 {
        Seq::<GetData>::empty()
    } else {
        group_member_keys(st, members.drop_last()) + (if !st.has_type(members.last()) {
            seq![GetData::Type(members.last())]
        } else {
            Seq::<GetData>::empty()
        })
    }
}

/// Dogma-attribute keys a dynamic item references that are missing.
pub open spec fn missing_attr_keys(st: CharacterAssets, attrs: Seq<DogmaAttributeConcise>) -> Seq<
    GetData,
>
    decreases attrs.len(),
{
    if attrs.len() == 0 {
        Seq::<GetData>::empty()
    } else {
        missing_attr_keys(st, attrs.drop_last()) + (if !st.has_dogma(attrs.last().attribute_id) {
            seq![GetData::DogmaAttribute(attrs.last().attribute_id)]
        } else {
            Seq::<GetData>::empty()
        })
    }
}

/// The keys a newly admitted dynamic implies: its missing attributes,
/// then its source and mutator types when missing.
pub open spec fn dynamic_implied_keys(st: CharacterAssets, d: DynamicItem) -> Seq<GetData> {
    missing_attr_keys(st, d.dogma_attributes@) + (if !st.has_type(d.source_type_id) {
        seq![GetData::Type(d.source_type_id)]
    } else {
        Seq::<GetData>::empty()
    }) + (if !st.has_type(d.mutator_type_id) && d.mutator_type_id != d.source_type_id {
        seq![GetData::Type(d.mutator_type_id)]
    } else {
        Seq::<GetData>::empty()
    })
}

impl CharacterAssets {
    /// Admit an asset; returns the dependency surface it opens.
    pub fn add_asset(&mut self, asset: AssetItem) -> (r: Vec<GetData>)
        requires
            old(self).wf(),
        ensures
            final(self).wf(),
            final(self).assets.spec_get(asset.item_id) matches Some(a2) && a2@ == asset@,
            forall|k: i64|
                k != asset.item_id ==> final(self).assets.spec_get(k) == old(self).assets.spec_get(
                    k,
                ),
            final(self).assets_names == old(self).assets_names,
            final(self).stations == old(self).stations,
            final(self).dynamics == old(self).dynamics,
            final(self).dogma_attributes == old(self).dogma_attributes,
            final(self).dogma_attributes_name_to_id == old(self).dogma_attributes_name_to_id,
            final(self).types == old(self).types,
            final(self).market_groups == old(self).market_groups,
            final(self).abyssal_items == old(self).abyssal_items,
            final(self).mutaplasmid_effects == old(self).mutaplasmid_effects,
            r@ == asset_implied_keys(*old(self), asset),
            !old(self).assets.contains_key(asset.item_id) ==> final(self).assets.entries_seq()
                == old(self).assets.entries_seq().push((asset.item_id, asset)),
            old(self).assets.contains_key(asset.item_id) ==> exists|i: int|
                0 <= i < old(self).assets.entries_seq().len() && (#[trigger] old(self).assets.entries_seq()[i]).0 == asset.item_id && final(self).assets.entries_seq()
                    == old(self).assets.entries_seq().update(i, (asset.item_id, asset)),
    {
        let mut new_items: Vec<GetData> = Vec::new();
        let station_tag = crate::bytes::station_label_vec();
        let on_station = bytes_eq(&asset.location_type, &station_tag);
        if on_station {
            let station_id = asset.location_id as StationId;
            if !self.stations.contains(station_id as i64) {
                new_items.push(GetData::Station(station_id));
            }
        }
        if self.is_abyssal(&asset) {
            if !self.dynamics.contains(asset.item_id) {
                new_items.push(GetData::Dynamic(asset.type_id, asset.item_id));
            }
        }
        if !self.types.contains(asset.type_id as i64) {
            new_items.push(GetData::Type(asset.type_id));
        }
        let ghost pre = *self;
        let item_id = asset.item_id;
        self.assets.insert(item_id, asset);
        proof {
            assert(new_items@ =~= asset_implied_keys(pre, asset));
        }
        new_items
    }

    /// Admit (or overwrite) an asset's friendly name.
    pub fn add_asset_name(&mut self, asset_id: ItemId, name: Vec<u8>) -> (r: Vec<GetData>)
        requires
            old(self).wf(),
        ensures
            final(self).wf(),
            final(self).assets_names.spec_get(asset_id) matches Some(n2) && n2@ == name@,
            forall|k: i64|
                k != asset_id ==> final(self).assets_names.spec_get(k) == old(self).assets_names.spec_get(k),
            final(self).assets == old(self).assets,
            final(self).stations == old(self).stations,
            final(self).dynamics == old(self).dynamics,
            final(self).dogma_attributes == old(self).dogma_attributes,
            final(self).dogma_attributes_name_to_id == old(self).dogma_attributes_name_to_id,
            final(self).types == old(self).types,
            final(self).market_groups == old(self).market_groups,
            final(self).abyssal_items == old(self).abyssal_items,
            final(self).mutaplasmid_effects == old(self).mutaplasmid_effects,
            r@ == Seq::<GetData>::empty(),
    {
        self.assets_names.insert(asset_id, name);
        let r: Vec<GetData> = Vec::new();
        proof {
            assert(r@ =~= Seq::<GetData>::empty());
        }
        r
    }

    /// Admit a station. Stations are terminal: they imply nothing.
    pub fn add_station(&mut self, station_id: StationId, station: Station) -> (r: Vec<GetData>)
        requires
            old(self).wf(),
        ensures
            final(self).wf(),
            final(self).stations.spec_get(station_id as i64) matches Some(s2) && s2@ == station@,
            forall|k: i64|
                k != station_id as i64 ==> final(self).stations.spec_get(k) == old(self).stations.spec_get(k),
            final(self).assets == old(self).assets,
            final(self).assets_names == old(self).assets_names,
            final(self).dynamics == old(self).dynamics,
            final(self).dogma_attributes == old(self).dogma_attributes,
            final(self).dogma_attributes_name_to_id == old(self).dogma_attributes_name_to_id,
            final(self).types == old(self).types,
            final(self).market_groups == old(self).market_groups,
            final(self).abyssal_items == old(self).abyssal_items,
            final(self).mutaplasmid_effects == old(self).mutaplasmid_effects,
            r@ == Seq::<GetData>::empty(),
    {
        self.stations.insert(station_id as i64, station);
        let r: Vec<GetData> = Vec::new();
        proof {
            assert(r@ =~= Seq::<GetData>::empty());
        }
        r
    }

    /// Admit a dogma attribute and maintain the reverse name index; the
    /// index key falls back to `attribute_<id>` for a nameless attribute.
    pub fn add_dogma_attribute(&mut self, dogma_attribute: DogmaAttribute) -> (r: Vec<GetData>)
        requires
            old(self).wf(),
        ensures
            final(self).wf(),
            final(self).dogma_attributes.spec_get(dogma_attribute.attribute_id as i64) matches Some(
                d2,
            ) && d2@ == dogma_attribute@,
            forall|k: i64|
                k != dogma_attribute.attribute_id as i64 ==> final(self).dogma_attributes.spec_get(k) == old(self).dogma_attributes.spec_get(k),
            final(self).dogma_attributes_name_to_id.spec_get(
                match dogma_attribute.name {
                    Some(n) => n@,
                    None => crate::bytes::prefixed_decimal(
                        crate::bytes::attribute_prefix(),
                        dogma_attribute.attribute_id as int,
                    ),
                },
            ) == Some(dogma_attribute.attribute_id),
            final(self).assets == old(self).assets,
            final(self).assets_names == old(self).assets_names,
            final(self).stations == old(self).stations,
            final(self).dynamics == old(self).dynamics,
            final(self).types == old(self).types,
            final(self).market_groups == old(self).market_groups,
            final(self).abyssal_items == old(self).abyssal_items,
            final(self).mutaplasmid_effects == old(self).mutaplasmid_effects,
            r@ == Seq::<GetData>::empty(),
    {
        let attribute_id = dogma_attribute.attribute_id;
        let index_name: Vec<u8> = match &dogma_attribute.name {
            Some(n) => crate::types::clone_bytes(n),
            None => prefixed_i64(attribute_prefix_vec(), attribute_id as i64),
        };
        self.dogma_attributes.insert(attribute_id as i64, dogma_attribute);
        self.dogma_attributes_name_to_id.insert(index_name, attribute_id);
        let r: Vec<GetData> = Vec::new();
        proof {
            assert(r@ =~= Seq::<GetData>::empty());
        }
        r
    }

    /// Resolve an attribute name through the reverse index.
    pub fn get_attribute_id_by_name(&self, name: &Vec<u8>) -> (r: Result<
        DogmaAttributeId,
        StoreError,
    >)
        ensures
            match r {
                Ok(id) => self.dogma_attributes_name_to_id.spec_get(name@) == Some(id),
                Err(e) => e == StoreError::AttributeNameNotFound
                    && self.dogma_attributes_name_to_id.spec_get(name@) is None,
            },
    {
        match self.dogma_attributes_name_to_id.get(name) {
            Some(id) => Ok(id),
            None => Err(StoreError::AttributeNameNotFound),
        }
    }

    /// Admit an item type; implies its market group when missing.
    pub fn add_type(&mut self, item_type: ItemType) -> (r: Vec<GetData>)
        requires
            old(self).wf(),
        ensures
            final(self).wf(),
            final(self).types.spec_get(item_type.type_id as i64) matches Some(t2) && t2@
                == item_type@,
            forall|k: i64|
                k != item_type.type_id as i64 ==> final(self).types.spec_get(k) == old(self).types.spec_get(k),
            final(self).assets == old(self).assets,
            final(self).assets_names == old(self).assets_names,
            final(self).stations == old(self).stations,
            final(self).dynamics == old(self).dynamics,
            final(self).dogma_attributes == old(self).dogma_attributes,
            final(self).dogma_attributes_name_to_id == old(self).dogma_attributes_name_to_id,
            final(self).market_groups == old(self).market_groups,
            final(self).abyssal_items == old(self).abyssal_items,
            final(self).mutaplasmid_effects == old(self).mutaplasmid_effects,
            r@ == type_implied_keys(*old(self), item_type),
            !old(self).types.contains_key(item_type.type_id as i64) ==> final(self).types.entries_seq() == old(self).types.entries_seq().push(
                (item_type.type_id as i64, item_type),
            ),
            old(self).types.contains_key(item_type.type_id as i64) ==> exists|i: int|
                0 <= i < old(self).types.entries_seq().len() && (#[trigger] old(self).types.entries_seq()[i]).0 == item_type.type_id as i64 && final(self).types.entries_seq() == old(self).types.entries_seq().update(
                    i,
                    (item_type.type_id as i64, item_type),
                ),
    {
        let mut new_items: Vec<GetData> = Vec::new();
        match item_type.market_group_id {
            Some(g) => {
                if !self.market_groups.contains(g as i64) {
                    new_items.push(GetData::MarketGroup(g));
                }
            }
            None => {}
        }
        let ghost pre = *self;
        let type_id = item_type.type_id;
        self.types.insert(type_id as i64, item_type);
        proof {
            assert(new_items@ =~= type_implied_keys(pre, final(self).types.spec_get(
                type_id as i64,
            ).unwrap()));
            assert(new_items@ =~= type_implied_keys(pre, *&final(self).types.spec_get(
                type_id as i64,
            ).unwrap()));
        }
        new_items
    }

    /// Admit a market group; implies each member type that is missing.
    pub fn add_market_group(&mut self, market_group: MarketGroup) -> (r: Vec<GetData>)
        requires
            old(self).wf(),
        ensures
            final(self).wf(),
            final(self).market_groups.spec_get(market_group.market_group_id as i64) matches Some(
                g2,
            ) && g2@ == market_group@,
            forall|k: i64|
                k != market_group.market_group_id as i64 ==> final(self).market_groups.spec_get(k) == old(self).market_groups.spec_get(k),
            final(self).assets == old(self).assets,
            final(self).assets_names == old(self).assets_names,
            final(self).stations == old(self).stations,
            final(self).dynamics == old(self).dynamics,
            final(self).dogma_attributes == old(self).dogma_attributes,
            final(self).dogma_attributes_name_to_id == old(self).dogma_attributes_name_to_id,
            final(self).types == old(self).types,
            final(self).abyssal_items == old(self).abyssal_items,
            final(self).mutaplasmid_effects == old(self).mutaplasmid_effects,
            r@ == group_member_keys(*old(self), market_group.types@),
    {
        let ghost pre = *self;
        let mut new_items: Vec<GetData> = Vec::new();
        let n = market_group.types.len();
        let mut i: usize = 0;
        proof {
            assert(market_group.types@.subrange(0, 0) =~= Seq::<TypeId>::empty());
        }
        while i < n
            invariant
                *self == pre,
                pre.wf(),
                n == market_group.types@.len(),
                i <= n,
                new_items@ == group_member_keys(pre, market_group.types@.subrange(0, i as int)),
            decreases n - i,
        {
            let t = market_group.types[i];
            proof {
                assert(market_group.types@.subrange(0, i + 1).last() == t);
                assert(market_group.types@.subrange(0, i + 1).drop_last()
                    =~= market_group.types@.subrange(0, i as int));
            }
            if !self.types.contains(t as i64) {
                new_items.push(GetData::Type(t));
            }
            i = i + 1;
        }
        proof {
            assert(market_group.types@.subrange(0, n as int) =~= market_group.types@);
        }
        let id = market_group.market_group_id;
        self.market_groups.insert(id as i64, market_group);
        new_items
    }

    /// Admit a dynamic item; implies its missing attributes and its
    /// source and mutator types when missing.
    pub fn add_dynamic(&mut self, type_id: TypeId, item_id: ItemId, dynamic: DynamicItem) -> (r:
        Vec<GetData>)
        requires
            old(self).wf(),
        ensures
            final(self).wf(),
            final(self).dynamics.spec_get(item_id) matches Some(d2) && d2@ == dynamic@,
            forall|k: i64|
                k != item_id ==> final(self).dynamics.spec_get(k) == old(self).dynamics.spec_get(k),
            final(self).assets == old(self).assets,
            final(self).assets_names == old(self).assets_names,
            final(self).stations == old(self).stations,
            final(self).dogma_attributes == old(self).dogma_attributes,
            final(self).dogma_attributes_name_to_id == old(self).dogma_attributes_name_to_id,
            final(self).types == old(self).types,
            final(self).market_groups == old(self).market_groups,
            final(self).abyssal_items == old(self).abyssal_items,
            final(self).mutaplasmid_effects == old(self).mutaplasmid_effects,
            r@ == dynamic_implied_keys(*old(self), dynamic),
            !old(self).dynamics.contains_key(item_id) ==> final(self).dynamics.entries_seq()
                == old(self).dynamics.entries_seq().push((item_id, dynamic)),
            old(self).dynamics.contains_key(item_id) ==> exists|i: int|
                0 <= i < old(self).dynamics.entries_seq().len() && (#[trigger] old(self).dynamics.entries_seq()[i]).0 == item_id && final(self).dynamics.entries_seq()
                    == old(self).dynamics.entries_seq().update(i, (item_id, dynamic)),
    {
        let ghost pre = *self;
        let mut new_items: Vec<GetData> = Vec::new();
        let n = dynamic.dogma_attributes.len();
        let mut i: usize = 0;
        proof {
            assert(dynamic.dogma_attributes@.subrange(0, 0) =~= Seq::<DogmaAttributeConcise>::empty());
        }
        while i < n
            invariant
                *self == pre,
                pre.wf(),
                n == dynamic.dogma_attributes@.len(),
                i <= n,
                new_items@ == missing_attr_keys(pre, dynamic.dogma_attributes@.subrange(0, i as int)),
            decreases n - i,
        {
            let a = dynamic.dogma_attributes[i];
            proof {
                assert(dynamic.dogma_attributes@.subrange(0, i + 1).last() == a);
                assert(dynamic.dogma_attributes@.subrange(0, i + 1).drop_last()
                    =~= dynamic.dogma_attributes@.subrange(0, i as int));
            }
            if !self.dogma_attributes.contains(a.attribute_id as i64) {
                new_items.push(GetData::DogmaAttribute(a.attribute_id));
            }
            i = i + 1;
        }
        proof {
            assert(dynamic.dogma_attributes@.subrange(0, n as int) =~= dynamic.dogma_attributes@);
        }
        let source_type_id = dynamic.source_type_id;
        let mutator_type_id = dynamic.mutator_type_id;
        if !self.types.contains(source_type_id as i64) {
            new_items.push(GetData::Type(source_type_id));
        }
        if !self.types.contains(mutator_type_id as i64) && mutator_type_id != source_type_id {
            new_items.push(GetData::Type(mutator_type_id));
        }
        let _ = type_id;
        self.dynamics.insert(item_id, dynamic);
        proof {
            assert(new_items@ =~= dynamic_implied_keys(pre, final(self).dynamics.spec_get(
                item_id,
            ).unwrap()));
        }
        new_items
    }
}

/// The effective type of an asset (the dynamic's source for an abyssal
/// asset) exists, and so does its market group when it names one.
pub open spec fn type_group_resolved(st: CharacterAssets, t: TypeId) -> bool {
    match st.types.spec_get(t as i64) {
        Some(it) => match it.market_group_id {
            Some(g) => st.has_group(g),
            None => true,
        },
        None => false,
    }
}

/// One asset's references are all present.
pub open spec fn asset_resolved(st: CharacterAssets, a: AssetItem) -> bool {
    &&& (a.location_type@ == station_label() ==> st.has_station(a.location_id as StationId))
    &&& if st.spec_is_abyssal(a.type_id) {
        match st.dynamics.spec_get(a.item_id) {
            Some(d) => type_group_resolved(st, d.source_type_id),
            None => false,
        }
    } else {
        type_group_resolved(st, a.type_id)
    }
}

/// One dynamic's referenced dogma attributes are all present.
pub open spec fn dynamic_resolved(st: CharacterAssets, d: DynamicItem) -> bool {
    forall|j: int|
        0 <= j < d.dogma_attributes@.len() ==> st.has_dogma(
            (#[trigger] d.dogma_attributes@[j]).attribute_id,
        )
}

/// The dependency graph is closed: every asset's station, dynamic,
/// effective type and market group exist, and every dynamic's attributes
/// exist.
pub open spec fn spec_all_resolved(st: CharacterAssets) -> bool {
    &&& forall|i: int|
        0 <= i < st.assets.entries_seq().len() ==> asset_resolved(
            st,
            (#[trigger] st.assets.entries_seq()[i]).1,
        )
    &&& forall|i: int|
        0 <= i < st.dynamics.entries_seq().len() ==> dynamic_resolved(
            st,
            (#[trigger] st.dynamics.entries_seq()[i]).1,
        )
}

impl CharacterAssets {
    /// Decide closure of the dependency graph.
    pub fn all_items_resolved(&self) -> (r: bool)
        requires
            self.wf(),
        ensures
            r == spec_all_resolved(*self),
    {
        let station_tag = crate::bytes::station_label_vec();
        let na = self.assets.len();
        let mut i: usize = 0;
        while i < na
            invariant
                self.wf(),
                station_tag@ == station_label(),
                na == self.assets.entries_seq().len(),
                i <= na,
                forall|j: int|
                    0 <= j < i ==> asset_resolved(*self, (#[trigger] self.assets.entries_seq()[j]).1),
            decreases na - i,
        {
            let asset = &self.assets.at(i).1;
            if bytes_eq(&asset.location_type, &station_tag) {
                let sid = asset.location_id as StationId;
                if !self.stations.contains(sid as i64) {
                    return false;
                }
            }
            let mut effective_type: TypeId = asset.type_id;
            if self.is_abyssal(asset) {
                match self.dynamics.get(asset.item_id) {
                    Some(d) => {
                        effective_type = d.source_type_id;
                    }
                    None => {
                        return false;
                    }
                }
            }
            match self.types.get(effective_type as i64) {
                Some(it) => {
                    match it.market_group_id {
                        Some(g) => {
                            if !self.market_groups.contains(g as i64) {
                                return false;
                            }
                        }
                        None => {}
                    }
                }
                None => {
                    return false;
                }
            }
            i = i + 1;
        }
        let nd = self.dynamics.len();
        let mut k: usize = 0;
        while k < nd
            invariant
                self.wf(),
                nd == self.dynamics.entries_seq().len(),
                k <= nd,
                forall|j: int|
                    0 <= j < k ==> dynamic_resolved(
                        *self,
                        (#[trigger] self.dynamics.entries_seq()[j]).1,
                    ),
                forall|j: int|
                    0 <= j < self.assets.entries_seq().len() ==> asset_resolved(
                        *self,
                        (#[trigger] self.assets.entries_seq()[j]).1,
                    ),
            decreases nd - k,
        {
            let d = &self.dynamics.at(k).1;
            let m = d.dogma_attributes.len();
            let mut a: usize = 0;
            while a < m
                invariant
                    self.wf(),
                    k < self.dynamics.entries_seq().len(),
                    *d == self.dynamics.entries_seq()[k as int].1,
                    m == d.dogma_attributes@.len(),
                    a <= m,
                    forall|j: int|
                        0 <= j < a ==> self.has_dogma(
                            (#[trigger] d.dogma_attributes@[j]).attribute_id,
                        ),
                decreases m - a,
            {
                if !self.dogma_attributes.contains(d.dogma_attributes[a].attribute_id as i64) {
                    return false;
                }
                a = a + 1;
            }
            k = k + 1;
        }
        true
    }
}

/// `(src, mutator)` has no binding exactly when no triple carries it.
pub proof fn lemma_rel_none_iff(s: Seq<(TypeId, TypeId, TypeId)>, src: TypeId, mutator: TypeId)
    ensures
        rel_get(s, src, mutator) is None <==> forall|i: int|
            0 <= i < s.len() ==> !((#[trigger] s[i]).0 == src && s[i].1 == mutator),
    decreases s.len(),
{
    if s.len() > 0 {
        lemma_rel_none_iff(s.drop_last(), src, mutator);
        assert forall|i: int| 0 <= i < s.len() - 1 implies s.drop_last()[i] == s[i] by {}
    }
}

/// Fold of one `(resulting, sources)` row into the triple set: each
/// source gains `(source, mutator, resulting)` unless the pair is bound.
pub open spec fn apply_sources(
    rels: Seq<(TypeId, TypeId, TypeId)>,
    mutator: TypeId,
    res: TypeId,
    sources: Seq<TypeId>,
) -> Seq<(TypeId, TypeId, TypeId)>
    decreases sources.len(),
{
    if sources.len() == 0 {
        rels
    } else {
        let r1 = apply_sources(rels, mutator, res, sources.drop_last());
        if rel_get(r1, sources.last(), mutator) is Some {
            r1
        } else {
            r1.push((sources.last(), mutator, res))
        }
    }
}

/// Fold of a whole input/output mapping into the triple set.
pub open spec fn apply_io(
    rels: Seq<(TypeId, TypeId, TypeId)>,
    mutator: TypeId,
    io: Seq<(TypeId, Seq<TypeId>)>,
) -> Seq<(TypeId, TypeId, TypeId)>
    decreases io.len(),
{
    if io.len() == 0 {
        rels
    } else {
        let r1 = apply_io(rels, mutator, io.drop_last());
        apply_sources(r1, mutator, io.last().0, io.last().1)
    }
}

/// Fold of new attribute ranges into a mutator's range list: the first
/// writer wins per attribute id.
pub open spec fn apply_ranges(
    rs: Seq<(DogmaAttributeId, AttributeRange)>,
    attrs: Seq<(DogmaAttributeId, i64, i64)>,
) -> Seq<(DogmaAttributeId, AttributeRange)>
    decreases attrs.len(),
{
    if attrs.len() == 0 {
        rs
    } else {
        let r1 = apply_ranges(rs, attrs.drop_last());
        let a = attrs.last();
        if range_get(r1, a.0) is Some {
            r1
        } else {
            r1.push((a.0, AttributeRange { max: a.2, min: a.1 }))
        }
    }
}

/// View of an input/output mapping argument.
pub open spec fn io_view(v: Seq<(TypeId, Vec<TypeId>)>) -> Seq<(TypeId, Seq<TypeId>)> {
    v.map_values(|p: (TypeId, Vec<TypeId>)| (p.0, p.1@))
}

/// The type ids an input/output mapping mentions (results and sources).
pub open spec fn io_mentions(io: Seq<(TypeId, Seq<TypeId>)>, t: TypeId) -> bool {
    exists|i: int|
        0 <= i < io.len() && ((#[trigger] io[i]).0 == t || io[i].1.contains(t))
}

pub fn contains_getdata(v: &Vec<GetData>, g: GetData) -> (r: bool)
    ensures
        r == v@.contains(g),
{
    let n = v.len();
    let mut i: usize = 0;
    while i < n
        invariant
            n == v@.len(),
            i <= n,
            forall|j: int| 0 <= j < i ==> v@[j] != g,
        decreases n - i,
    {
        if v[i] == g {
            return true;
        }
        i = i + 1;
    }
    proof {
        assert(!v@.contains(g));
    }
    false
}

/// The range bound to `a`, by scanning.
pub fn find_range(v: &Vec<(DogmaAttributeId, AttributeRange)>, a: DogmaAttributeId) -> (r: Option<
    AttributeRange,
>)
    ensures
        r == range_get(v@, a),
{
    let ghost s = v@;
    let n = v.len();
    let mut i: usize = n;
    proof {
        assert(s.subrange(0, n as int) =~= s);
    }
    while i > 0
        invariant
            s == v@,
            n == s.len(),
            i <= n,
            range_get(s, a) == range_get(s.subrange(0, i as int), a),
        decreases i,
    {
        let e = v[i - 1];
        proof {
            assert(s.subrange(0, i as int).last() == s[i - 1]);
            assert(s.subrange(0, i as int).drop_last() =~= s.subrange(0, i - 1));
        }
        if e.0 == a {
            return Some(e.1);
        }
        i = i - 1;
    }
    proof {
        assert(s.subrange(0, 0) =~= Seq::<(DogmaAttributeId, AttributeRange)>::empty());
    }
    None
}

pub fn clone_ranges(v: &Vec<(DogmaAttributeId, AttributeRange)>) -> (r: Vec<(
    DogmaAttributeId,
    AttributeRange,
)>)
    ensures
        r@ == v@,
{
    let mut r: Vec<(DogmaAttributeId, AttributeRange)> = Vec::new();
    let n = v.len();
    let mut i: usize = 0;
    while i < n
        invariant
            n == v@.len(),
            i <= n,
            r@ == v@.subrange(0, i as int),
        decreases n - i,
    {
        r.push(v[i]);
        proof {
            assert(v@.subrange(0, i + 1) =~= v@.subrange(0, i as int).push(v@[i as int]));
        }
        i = i + 1;
    }
    proof {
        assert(v@.subrange(0, n as int) =~= v@);
    }
    r
}

/// Append `g` unless it is already present; the order of what was there
/// is kept and no duplicate is introduced.
pub fn push_unique(items: &mut Vec<GetData>, g: GetData)
    ensures
        final(items)@ == if old(items)@.contains(g) {
            old(items)@
        } else {
            old(items)@.push(g)
        },
        final(items)@.contains(g),
        forall|x: GetData| old(items)@.contains(x) ==> final(items)@.contains(x),
        forall|x: GetData| final(items)@.contains(x) ==> old(items)@.contains(x) || x == g,
        (forall|p: int, q: int|
            0 <= p < q < old(items)@.len() ==> old(items)@[p] != old(items)@[q]) ==> (forall|
            p: int,
            q: int,
        |
            0 <= p < q < final(items)@.len() ==> final(items)@[p] != final(items)@[q]),
{
    let ghost s0 = items@;
    if !contains_getdata(items, g) {
        items.push(g);
        proof {
            let s1 = items@;
            assert(s1 == s0.push(g));
            assert(s1[s1.len() - 1] == g);
            assert(s1.contains(g));
            assert forall|x: GetData| s0.contains(x) implies s1.contains(x) by {
                let k = choose|k: int| 0 <= k < s0.len() && s0[k] == x;
                assert(s1[k] == x);
            }
            assert forall|x: GetData| s1.contains(x) implies s0.contains(x) || x == g by {
                let k = choose|k: int| 0 <= k < s1.len() && s1[k] == x;
                if k < s0.len() {
                    assert(s0[k] == x);
                }
            }
            if forall|p: int, q: int| 0 <= p < q < s0.len() ==> s0[p] != s0[q] {
                assert forall|p: int, q: int| 0 <= p < q < s1.len() implies s1[p] != s1[q] by {
                    if q == s1.len() - 1 {
                        assert(s1[p] == s0[p]);
                        assert(!s0.contains(g));
                        assert(s0.contains(s0[p])) by {
                            assert(s0[p] == s0[p]);
                        }
                    } else {
                        assert(s1[p] == s0[p] && s1[q] == s0[q]);
                    }
                }
            }
        }
    }
}

/// Append `t` unless present (type-id variant).
pub fn push_unique_type(items: &mut Vec<TypeId>, t: TypeId)
    ensures
        final(items)@ == if old(items)@.contains(t) {
            old(items)@
        } else {
            old(items)@.push(t)
        },
        final(items)@.contains(t),
        forall|x: TypeId| old(items)@.contains(x) ==> final(items)@.contains(x),
        forall|x: TypeId| final(items)@.contains(x) ==> old(items)@.contains(x) || x == t,
        (forall|p: int, q: int|
            0 <= p < q < old(items)@.len() ==> old(items)@[p] != old(items)@[q]) ==> (forall|
            p: int,
            q: int,
        |
            0 <= p < q < final(items)@.len() ==> final(items)@[p] != final(items)@[q]),
{
    let ghost s0 = items@;
    if !contains_type_id(items, t) {
        items.push(t);
        proof {
            let s1 = items@;
            assert(s1 == s0.push(t));
            assert(s1[s1.len() - 1] == t);
            assert(s1.contains(t));
            assert forall|x: TypeId| s0.contains(x) implies s1.contains(x) by {
                let k = choose|k: int| 0 <= k < s0.len() && s0[k] == x;
                assert(s1[k] == x);
            }
            assert forall|x: TypeId| s1.contains(x) implies s0.contains(x) || x == t by {
                let k = choose|k: int| 0 <= k < s1.len() && s1[k] == x;
                if k < s0.len() {
                    assert(s0[k] == x);
                }
            }
            if forall|p: int, q: int| 0 <= p < q < s0.len() ==> s0[p] != s0[q] {
                assert forall|p: int, q: int| 0 <= p < q < s1.len() implies s1[p] != s1[q] by {
                    if q == s1.len() - 1 {
                        assert(s1[p] == s0[p]);
                        assert(!s0.contains(t));
                        assert(s0.contains(s0[p])) by {
                            assert(s0[p] == s0[p]);
                        }
                    } else {
                        assert(s1[p] == s0[p] && s1[q] == s0[q]);
                    }
                }
            }
        }
    }
}

impl CharacterAssets {
    /// Admit one mutator catalogue entry: bind each `(source, mutator)`
    /// pair to its resulting type (first writer wins), merge the
    /// mutator's attribute ranges, and return `Type` keys for every type
    /// the entry mentions that is not yet in the store.
    pub fn add_mutaplasmid_effects(
        &mut self,
        mutator_type_id: TypeId,
        attributes: Vec<(DogmaAttributeId, i64, i64)>,
        input_output: Vec<(TypeId, Vec<TypeId>)>,
    ) -> (r: Vec<GetData>)
        requires
            old(self).wf(),
        ensures
            final(self).wf(),
            final(self).mutaplasmid_effects.relations@ == apply_io(
                old(self).mutaplasmid_effects.relations@,
                mutator_type_id,
                io_view(input_output@),
            ),
            final(self).mutaplasmid_effects.attributes.spec_get(mutator_type_id as i64)
                matches Some(v2) && v2@ == apply_ranges(
                match old(self).mutaplasmid_effects.attributes.spec_get(mutator_type_id as i64) {
                    Some(v0) => v0@,
                    None => Seq::<(DogmaAttributeId, AttributeRange)>::empty(),
                },
                attributes@,
            ),
            forall|k: i64|
                k != mutator_type_id as i64 ==> final(self).mutaplasmid_effects.attributes.spec_get(k) == old(self).mutaplasmid_effects.attributes.spec_get(k),
            final(self).assets == old(self).assets,
            final(self).assets_names == old(self).assets_names,
            final(self).stations == old(self).stations,
            final(self).dynamics == old(self).dynamics,
            final(self).dogma_attributes == old(self).dogma_attributes,
            final(self).dogma_attributes_name_to_id == old(self).dogma_attributes_name_to_id,
            final(self).types == old(self).types,
            final(self).market_groups == old(self).market_groups,
            final(self).abyssal_items == old(self).abyssal_items,
            forall|x: GetData|
                r@.contains(x) ==> exists|t: TypeId|
                    x == GetData::Type(t) && io_mentions(io_view(input_output@), t) && !old(self).has_type(t),
            forall|t: TypeId|
                io_mentions(io_view(input_output@), t) && !old(self).has_type(t) ==> r@.contains(
                    GetData::Type(t),
                ),
            forall|p: int, q: int| 0 <= p < q < r@.len() ==> r@[p] != r@[q],
    {
        let ghost pre = *self;
        let ghost io = io_view(input_output@);
        let mut new_items: Vec<GetData> = Vec::new();
        let np = input_output.len();
        let mut i: usize = 0;
        proof {
            assert(io.subrange(0, 0) =~= Seq::<(TypeId, Seq<TypeId>)>::empty());
        }
        while i < np
            invariant
                self.wf(),
                pre.wf(),
                io == io_view(input_output@),
                np == input_output@.len(),
                np == io.len(),
                i <= np,
                self.mutaplasmid_effects.relations@ == apply_io(
                    pre.mutaplasmid_effects.relations@,
                    mutator_type_id,
                    io.subrange(0, i as int),
                ),
                self.mutaplasmid_effects.attributes == pre.mutaplasmid_effects.attributes,
                self.assets == pre.assets,
                self.assets_names == pre.assets_names,
                self.stations == pre.stations,
                self.dynamics == pre.dynamics,
                self.dogma_attributes == pre.dogma_attributes,
                self.dogma_attributes_name_to_id == pre.dogma_attributes_name_to_id,
                self.types == pre.types,
                self.market_groups == pre.market_groups,
                self.abyssal_items == pre.abyssal_items,
                forall|x: GetData|
                    new_items@.contains(x) ==> exists|t: TypeId|
                        x == GetData::Type(t) && io_mentions(io, t) && !pre.has_type(t),
                forall|t: TypeId|
                    io_mentions(io.subrange(0, i as int), t) && !pre.has_type(t)
                        ==> new_items@.contains(GetData::Type(t)),
                forall|p: int, q: int| 0 <= p < q < new_items@.len() ==> new_items@[p] != new_items@[q],
            decreases np - i,
        {
            let ghost io_pre = io.subrange(0, i as int);
            let pair = &input_output[i];
            let resulting_type_id = pair.0;
            proof {
                assert(io[i as int] == (pair.0, pair.1@));
                assert(io.subrange(0, i + 1).last() == io[i as int]);
                assert(io.subrange(0, i + 1).drop_last() =~= io_pre);
            }
            proof {
                assert(io_mentions(io, resulting_type_id)) by {
                    assert(io[i as int].0 == resulting_type_id);
                }
            }
            let ghost items_r0 = new_items@;
            if !self.types.contains(resulting_type_id as i64) {
                push_unique(&mut new_items, GetData::Type(resulting_type_id));
            }
            proof {
                assert forall|x: GetData|
                    new_items@.contains(x) implies exists|t: TypeId|
                    x == GetData::Type(t) && io_mentions(io, t) && !pre.has_type(t) by {
                    if items_r0.contains(x) {
                    } else {
                        assert(x == GetData::Type(resulting_type_id));
                        assert(!pre.has_type(resulting_type_id));
                    }
                }
                assert forall|t: TypeId|
                    io_mentions(io_pre, t) && !pre.has_type(t) implies new_items@.contains(
                    GetData::Type(t),
                ) by {
                    assert(items_r0.contains(GetData::Type(t)));
                }
            }
            let ns = pair.1.len();
            let mut j: usize = 0;
            proof {
                assert(pair.1@.subrange(0, 0) =~= Seq::<TypeId>::empty());
            }
            while j < ns
                invariant
                    self.wf(),
                    pre.wf(),
                    io == io_view(input_output@),
                    np == input_output@.len(),
                    np == io.len(),
                    i < np,
                    io_pre == io.subrange(0, i as int),
                    *pair == input_output@[i as int],
                    io[i as int] == (pair.0, pair.1@),
                    resulting_type_id == pair.0,
                    ns == pair.1@.len(),
                    j <= ns,
                    self.mutaplasmid_effects.relations@ == apply_sources(
                        apply_io(pre.mutaplasmid_effects.relations@, mutator_type_id, io_pre),
                        mutator_type_id,
                        resulting_type_id,
                        pair.1@.subrange(0, j as int),
                    ),
                    self.mutaplasmid_effects.attributes == pre.mutaplasmid_effects.attributes,
                    self.assets == pre.assets,
                    self.assets_names == pre.assets_names,
                    self.stations == pre.stations,
                    self.dynamics == pre.dynamics,
                    self.dogma_attributes == pre.dogma_attributes,
                    self.dogma_attributes_name_to_id == pre.dogma_attributes_name_to_id,
                    self.types == pre.types,
                    self.market_groups == pre.market_groups,
                    self.abyssal_items == pre.abyssal_items,
                    forall|x: GetData|
                        new_items@.contains(x) ==> exists|t: TypeId|
                            x == GetData::Type(t) && io_mentions(io, t) && !pre.has_type(t),
                    forall|t: TypeId|
                        io_mentions(io_pre, t) && !pre.has_type(t) ==> new_items@.contains(
                            GetData::Type(t),
                        ),
                    forall|t: TypeId|
                        (t == resulting_type_id || pair.1@.subrange(0, j as int).contains(t))
                            && !pre.has_type(t) ==> new_items@.contains(GetData::Type(t)),
                    forall|p: int, q: int|
                        0 <= p < q < new_items@.len() ==> new_items@[p] != new_items@[q],
                decreases ns - j,
            {
                let source_type_id = pair.1[j];
                proof {
                    assert(pair.1@.subrange(0, j + 1).last() == source_type_id);
                    assert(pair.1@.subrange(0, j + 1).drop_last() =~= pair.1@.subrange(0, j as int));
                }
                let bound = self.rel_lookup(source_type_id, mutator_type_id);
                if bound.is_none() {
                    let ghost rels0 = self.mutaplasmid_effects.relations@;
                    self.mutaplasmid_effects.relations.push(
                        (source_type_id, mutator_type_id, resulting_type_id),
                    );
                    proof {
                        lemma_rel_none_iff(rels0, source_type_id, mutator_type_id);
                        let rels1 = self.mutaplasmid_effects.relations@;
                        assert(rels1 == rels0.push(
                            (source_type_id, mutator_type_id, resulting_type_id),
                        ));
                        assert forall|p: int, q: int|
                            0 <= p < q < rels1.len() implies !((#[trigger] rels1[p]).0 == (
                        #[trigger] rels1[q]).0 && rels1[p].1 == rels1[q].1) by {
                            if q < rels1.len() - 1 {
                                assert(rels1[p] == rels0[p] && rels1[q] == rels0[q]);
                            } else {
                                assert(rels1[p] == rels0[p]);
                            }
                        }
                    }
                }
                proof {
                    assert(io_mentions(io, source_type_id)) by {
                        assert(pair.1@[j as int] == source_type_id);
                        assert(io[i as int].1.contains(source_type_id));
                    }
                    assert(io_mentions(io, resulting_type_id)) by {
                        assert(io[i as int].0 == resulting_type_id);
                    }
                }
                let ghost items0 = new_items@;
                if !self.types.contains(source_type_id as i64) {
                    push_unique(&mut new_items, GetData::Type(source_type_id));
                }
                proof {
                    assert forall|x: GetData|
                        new_items@.contains(x) implies exists|t: TypeId|
                        x == GetData::Type(t) && io_mentions(io, t) && !pre.has_type(t) by {
                        if items0.contains(x) {
                        } else {
                            assert(x == GetData::Type(source_type_id));
                            assert(!pre.has_type(source_type_id));
                        }
                    }
                    assert forall|t: TypeId|
                        (t == resulting_type_id || pair.1@.subrange(0, j + 1).contains(t))
                            && !pre.has_type(t) implies new_items@.contains(GetData::Type(t)) by {
                        if t == resulting_type_id {
                            assert(items0.contains(GetData::Type(t)));
                        } else {
                            let k = choose|k: int|
                                0 <= k < pair.1@.subrange(0, j + 1).len() && (#[trigger] pair.1@.subrange(
                                    0,
                                    j + 1,
                                )[k]) == t;
                            if k < j {
                                assert(pair.1@.subrange(0, j as int)[k] == t);
                                assert(pair.1@.subrange(0, j as int).contains(t));
                                assert(items0.contains(GetData::Type(t)));
                            } else {
                                assert(t == source_type_id);
                            }
                        }
                    }
                    assert forall|t: TypeId|
                        io_mentions(io_pre, t) && !pre.has_type(t) implies new_items@.contains(
                        GetData::Type(t),
                    ) by {
                        assert(items0.contains(GetData::Type(t)));
                    }
                }
                j = j + 1;
            }
            proof {
                assert(pair.1@.subrange(0, ns as int) =~= pair.1@);
                assert forall|t: TypeId|
                    io_mentions(io.subrange(0, i + 1), t) && !pre.has_type(t)
                        implies new_items@.contains(GetData::Type(t)) by {
                    let w = choose|w: int|
                        0 <= w < io.subrange(0, i + 1).len() && ((#[trigger] io.subrange(0, i + 1)[w]).0
                            == t || io.subrange(0, i + 1)[w].1.contains(t));
                    if w < i {
                        assert(io_pre[w] == io.subrange(0, i + 1)[w]);
                        assert(io_mentions(io_pre, t));
                    } else {
                        assert(io.subrange(0, i + 1)[w] == io[i as int]);
                    }
                }
            }
            i = i + 1;
        }
        proof {
            assert(io.subrange(0, np as int) =~= io);
        }
        // Merge the attribute ranges, first writer wins per attribute.
        let base: Vec<(DogmaAttributeId, AttributeRange)> = match self.mutaplasmid_effects.attributes.get(
            mutator_type_id as i64,
        ) {
            Some(v) => clone_ranges(v),
            None => Vec::new(),
        };
        let ghost base0 = base@;
        proof {
            if pre.mutaplasmid_effects.attributes.spec_get(mutator_type_id as i64) is None {
                assert(base0 =~= Seq::<(DogmaAttributeId, AttributeRange)>::empty());
            }
        }
        let mut merged = base;
        let nat_ = attributes.len();
        let mut a: usize = 0;
        proof {
            assert(attributes@.subrange(0, 0) =~= Seq::<(DogmaAttributeId, i64, i64)>::empty());
        }
        while a < nat_
            invariant
                nat_ == attributes@.len(),
                a <= nat_,
                merged@ == apply_ranges(base0, attributes@.subrange(0, a as int)),
            decreases nat_ - a,
        {
            let e = attributes[a];
            proof {
                assert(attributes@.subrange(0, a + 1).last() == e);
                assert(attributes@.subrange(0, a + 1).drop_last() =~= attributes@.subrange(
                    0,
                    a as int,
                ));
            }
            if find_range(&merged, e.0).is_none() {
                merged.push((e.0, AttributeRange { max: e.2, min: e.1 }));
            }
            a = a + 1;
        }
        proof {
            assert(attributes@.subrange(0, nat_ as int) =~= attributes@);
        }
        self.mutaplasmid_effects.attributes.insert(mutator_type_id as i64, merged);
        new_items
    }

    /// The binding of `(source, mutator)` in the triple set, by scanning.
    fn rel_lookup(&self, src: TypeId, mutator: TypeId) -> (r: Option<TypeId>)
        ensures
            r == rel_get(self.mutaplasmid_effects.relations@, src, mutator),
    {
        let ghost s = self.mutaplasmid_effects.relations@;
        let n = self.mutaplasmid_effects.relations.len();
        let mut i: usize = n;
        proof {
            assert(s.subrange(0, n as int) =~= s);
        }
        while i > 0
            invariant
                s == self.mutaplasmid_effects.relations@,
                n == s.len(),
                i <= n,
                rel_get(s, src, mutator) == rel_get(s.subrange(0, i as int), src, mutator),
            decreases i,
        {
            let e = self.mutaplasmid_effects.relations[i - 1];
            proof {
                assert(s.subrange(0, i as int).last() == s[i - 1]);
                assert(s.subrange(0, i as int).drop_last() =~= s.subrange(0, i - 1));
            }
            if e.0 == src && e.1 == mutator {
                return Some(e.2);
            }
            i = i - 1;
        }
        proof {
            assert(s.subrange(0, 0) =~= Seq::<(TypeId, TypeId, TypeId)>::empty());
        }
        None
    }

    /// The resulting type an applied mutator yields on a source type.
    pub fn get_resulting_type_by_source_mutator(
        &self,
        source_type_id: TypeId,
        mutator_type_id: TypeId,
    ) -> (r: Result<TypeId, StoreError>)
        ensures
            match r {
                Ok(t) => rel_get(
                    self.mutaplasmid_effects.relations@,
                    source_type_id,
                    mutator_type_id,
                ) == Some(t),
                Err(e) => {
                    &&& rel_get(
                        self.mutaplasmid_effects.relations@,
                        source_type_id,
                        mutator_type_id,
                    ) is None
                    &&& (e == StoreError::SourceTypeNotFound(source_type_id) <==> forall|i: int|
                        0 <= i < self.mutaplasmid_effects.relations@.len() ==> (
                        #[trigger] self.mutaplasmid_effects.relations@[i]).0 != source_type_id)
                    &&& (e == StoreError::SourceTypeNotFound(source_type_id) || e
                        == StoreError::MutatorTypeNotFound(mutator_type_id))
                },
            },
    {
        match self.rel_lookup(source_type_id, mutator_type_id) {
            Some(t) => Ok(t),
            None => {
                let ghost s = self.mutaplasmid_effects.relations@;
                let n = self.mutaplasmid_effects.relations.len();
                let mut i: usize = 0;
                while i < n
                    invariant
                        s == self.mutaplasmid_effects.relations@,
                        rel_get(s, source_type_id, mutator_type_id) is None,
                        n == s.len(),
                        i <= n,
                        forall|j: int| 0 <= j < i ==> (#[trigger] s[j]).0 != source_type_id,
                    decreases n - i,
                {
                    if self.mutaplasmid_effects.relations[i].0 == source_type_id {
                        return Err(StoreError::MutatorTypeNotFound(mutator_type_id));
                    }
                    i = i + 1;
                }
                Err(StoreError::SourceTypeNotFound(source_type_id))
            }
        }
    }

    /// A mutator's attribute ranges.
    pub fn get_attributes_by_mutator_type_id(&self, mutator_type_id: TypeId) -> (r: Result<
        Vec<(DogmaAttributeId, AttributeRange)>,
        StoreError,
    >)
        ensures
            match r {
                Ok(v) => self.mutaplasmid_effects.attributes.spec_get(mutator_type_id as i64)
                    matches Some(x) && v@ == x@,
                Err(e) => e == StoreError::MutatorTypeNotFound(mutator_type_id)
                    && self.mutaplasmid_effects.attributes.spec_get(mutator_type_id as i64) is None,
            },
    {
        match self.mutaplasmid_effects.attributes.get(mutator_type_id as i64) {
            Some(v) => Ok(clone_ranges(v)),
            None => Err(StoreError::MutatorTypeNotFound(mutator_type_id)),
        }
    }

    /// The attribute ids a mutator ranges over.
    pub fn get_attribute_ids_by_mutator(&self, mutator_type_id: TypeId) -> (r: Result<
        Vec<DogmaAttributeId>,
        StoreError,
    >)
        ensures
            match r {
                Ok(v) => self.mutaplasmid_effects.attributes.spec_get(mutator_type_id as i64)
                    matches Some(x) && v@ == x@.map_values(
                    |p: (DogmaAttributeId, AttributeRange)| p.0,
                ),
                Err(e) => e == StoreError::MutatorTypeNotFound(mutator_type_id)
                    && self.mutaplasmid_effects.attributes.spec_get(mutator_type_id as i64) is None,
            },
    {
        match self.mutaplasmid_effects.attributes.get(mutator_type_id as i64) {
            Some(v) => {
                let ghost x = v@;
                let mut ids: Vec<DogmaAttributeId> = Vec::new();
                let n = v.len();
                let mut i: usize = 0;
                while i < n
                    invariant
                        x == v@,
                        n == x.len(),
                        i <= n,
                        ids@ == x.subrange(0, i as int).map_values(
                            |p: (DogmaAttributeId, AttributeRange)| p.0,
                        ),
                    decreases n - i,
                {
                    ids.push(v[i].0);
                    proof {
                        assert(x.subrange(0, i + 1).map_values(
                            |p: (DogmaAttributeId, AttributeRange)| p.0,
                        ) =~= x.subrange(0, i as int).map_values(
                            |p: (DogmaAttributeId, AttributeRange)| p.0,
                        ).push(x[i as int].0));
                    }
                    i = i + 1;
                }
                proof {
                    assert(x.subrange(0, n as int) =~= x);
                }
                Ok(ids)
            }
            None => Err(StoreError::MutatorTypeNotFound(mutator_type_id)),
        }
    }

    /// Source types to which some mutator applies to yield `resulting`.
    pub fn get_applicable_types_by_resulting_type(&self, resulting_type_id: TypeId) -> (r: Result<
        Vec<TypeId>,
        StoreError,
    >)
        ensures
            match r {
                Ok(v) => {
                    &&& forall|t: TypeId|
                        v@.contains(t) <==> exists|i: int|
                            0 <= i < self.mutaplasmid_effects.relations@.len() && (
                            #[trigger] self.mutaplasmid_effects.relations@[i]).0 == t
                                && self.mutaplasmid_effects.relations@[i].2 == resulting_type_id
                    &&& forall|p: int, q: int| 0 <= p < q < v@.len() ==> v@[p] != v@[q]
                    &&& v@.len() > 0
                },
                Err(e) => e == StoreError::ResultingTypeNotFound(resulting_type_id) && forall|
                    i: int,
                |
                    0 <= i < self.mutaplasmid_effects.relations@.len() ==> (
                    #[trigger] self.mutaplasmid_effects.relations@[i]).2 != resulting_type_id,
            },
    {
        let ghost s = self.mutaplasmid_effects.relations@;
        let mut out: Vec<TypeId> = Vec::new();
        let n = self.mutaplasmid_effects.relations.len();
        let mut i: usize = 0;
        while i < n
            invariant
                s == self.mutaplasmid_effects.relations@,
                n == s.len(),
                i <= n,
                forall|t: TypeId|
                    out@.contains(t) ==> exists|k: int|
                        0 <= k < s.len() && (#[trigger] s[k]).0 == t && s[k].2 == resulting_type_id,
                forall|k: int|
                    0 <= k < i && (#[trigger] s[k]).2 == resulting_type_id ==> out@.contains(s[k].0),
                forall|p: int, q: int| 0 <= p < q < out@.len() ==> out@[p] != out@[q],
                out@.len() > 0 ==> exists|k: int|
                    0 <= k < s.len() && (#[trigger] s[k]).2 == resulting_type_id,
            decreases n - i,
        {
            let e = self.mutaplasmid_effects.relations[i];
            let ghost out0 = out@;
            if e.2 == resulting_type_id {
                push_unique_type(&mut out, e.0);
            }
            proof {
                assert forall|t: TypeId|
                    out@.contains(t) implies exists|k: int|
                    0 <= k < s.len() && (#[trigger] s[k]).0 == t && s[k].2
                        == resulting_type_id by {
                    if out0.contains(t) {
                    } else {
                        assert(t == e.0);
                        assert(s[i as int].0 == t && s[i as int].2 == resulting_type_id);
                    }
                }
                assert forall|k: int|
                    0 <= k < i + 1 && (#[trigger] s[k]).2 == resulting_type_id
                        implies out@.contains(s[k].0) by {
                    if k < i {
                        assert(out0.contains(s[k].0));
                    }
                }
            }
            i = i + 1;
        }
        if out.len() == 0 {
            proof {
                assert forall|k: int|
                    0 <= k < s.len() implies (#[trigger] s[k]).2 != resulting_type_id by {
                    if s[k].2 == resulting_type_id {
                        assert(out@.contains(s[k].0));
                    }
                }
            }
            Err(StoreError::ResultingTypeNotFound(resulting_type_id))
        } else {
            Ok(out)
        }
    }
}

/// True when `t` occurs in `v` (plain scan).
pub fn contains_type_id_vec(v: &Vec<TypeId>, t: TypeId) -> (r: bool)
    ensures
        r == v@.contains(t),
{
    contains_type_id(v, t)
}

/// Product of two attribute-sized values, exact in `i128`.
pub open spec fn mul64(a: i64, b: i64) -> i128 {
    (a * b) as i128
}

pub open spec fn min128(a: i128, b: i128) -> i128 {
    if a < b {
        a
    } else {
        b
    }
}

pub open spec fn max128(a: i128, b: i128) -> i128 {
    if a < b {
        b
    } else {
        a
    }
}

pub proof fn lemma_i64_mul_fits(a: i64, b: i64)
    ensures
        -0x40000000000000000000000000000000 <= a * b <= 0x40000000000000000000000000000000,
        mul64(a, b) == a * b,
{
    assert(-0x40000000000000000000000000000000 <= a * b
        <= 0x40000000000000000000000000000000) by (nonlinear_arith)
        requires
            -0x8000000000000000 <= a <= 0x7fffffffffffffff,
            -0x8000000000000000 <= b <= 0x7fffffffffffffff,
    ;
}

/// A mutator's attribute-range list, empty when none is recorded.
pub open spec fn mutator_ranges(st: CharacterAssets, m: TypeId) -> Seq<(
    DogmaAttributeId,
    AttributeRange,
)> {
    match st.mutaplasmid_effects.attributes.spec_get(m as i64) {
        Some(v) => v@,
        None => Seq::<(DogmaAttributeId, AttributeRange)>::empty(),
    }
}

/// The contribution of the `j`-th attribute entry of source `src` under
/// mutator `mutator`: the attribute id and the per-pair range
/// `[min(lo*v, hi*v), max(lo*v, hi*v)]`, when the source type is loaded
/// and the mutator ranges over that attribute.
pub open spec fn entry_contrib(st: CharacterAssets, src: TypeId, mutator: TypeId, j: int) -> Option<
    (DogmaAttributeId, i128, i128),
> {
    match st.types.spec_get(src as i64) {
        Some(it) => {
            if 0 <= j < it.dogma_attributes@.len() {
                let a = it.dogma_attributes@[j];
                match range_get(mutator_ranges(st, mutator), a.attribute_id) {
                    Some(rg) => Some(
                        (
                            a.attribute_id,
                            min128(mul64(rg.min, a.value), mul64(rg.max, a.value)),
                            max128(mul64(rg.min, a.value), mul64(rg.max, a.value)),
                        ),
                    ),
                    None => None,
                }
            } else {
                None
            }
        },
        None => None,
    }
}

/// Mutator algebra, per pair: a contribution for attribute `a` is
/// exactly the normalized product interval of the source's base value
/// with the mutator's multiplicative range,
/// `[min(lo*v, hi*v), max(lo*v, hi*v)]`.
pub proof fn lemma_pair_range_formula(
    st: CharacterAssets,
    src: TypeId,
    mutator: TypeId,
    j: int,
    a: DogmaAttributeId,
    p: i128,
    q: i128,
)
    requires
        entry_contrib(st, src, mutator, j) == Some((a, p, q)),
    ensures
        st.types.spec_get(src as i64) is Some,
        0 <= j < st.types.spec_get(src as i64).unwrap().dogma_attributes@.len(),
        st.types.spec_get(src as i64).unwrap().dogma_attributes@[j].attribute_id == a,
        range_get(mutator_ranges(st, mutator), a) is Some,
        ({
            let v = st.types.spec_get(src as i64).unwrap().dogma_attributes@[j].value;
            let rg = range_get(mutator_ranges(st, mutator), a).unwrap();
            p == min128(mul64(rg.min, v), mul64(rg.max, v)) && q == max128(
                mul64(rg.min, v),
                mul64(rg.max, v),
            )
        }),
{
}

/// Some `(source, mutator)` pair yielding `res` contributes the range
/// `[p, q]` for attribute `a`.
pub open spec fn contributes(
    st: CharacterAssets,
    res: TypeId,
    a: DogmaAttributeId,
    p: i128,
    q: i128,
) -> bool {
    exists|i: int, j: int|
        0 <= i < st.mutaplasmid_effects.relations@.len() && st.mutaplasmid_effects.relations@[i].2
            == res && #[trigger] entry_contrib(
            st,
            st.mutaplasmid_effects.relations@[i].0,
            st.mutaplasmid_effects.relations@[i].1,
            j,
        ) == Some((a, p, q))
}

/// `contributes`, restricted to relation rows before `hi`, plus row
/// `hi`'s attribute entries before `jhi`.
pub open spec fn contributes_upto(
    st: CharacterAssets,
    res: TypeId,
    hi: int,
    jhi: int,
    a: DogmaAttributeId,
    p: i128,
    q: i128,
) -> bool {
    exists|i: int, j: int|
        0 <= i < st.mutaplasmid_effects.relations@.len() && (i < hi || (i == hi && j < jhi))
            && st.mutaplasmid_effects.relations@[i].2 == res && #[trigger] entry_contrib(
            st,
            st.mutaplasmid_effects.relations@[i].0,
            st.mutaplasmid_effects.relations@[i].1,
            j,
        ) == Some((a, p, q))
}

/// Some pair yielding `res` (within the bound) attains `mn` as its
/// per-pair minimum for attribute `a`.
pub open spec fn upto_min_attained(
    st: CharacterAssets,
    res: TypeId,
    hi: int,
    jhi: int,
    a: DogmaAttributeId,
    mn: i128,
) -> bool {
    exists|q: i128| #[trigger] contributes_upto(st, res, hi, jhi, a, mn, q)
}

pub open spec fn upto_max_attained(
    st: CharacterAssets,
    res: TypeId,
    hi: int,
    jhi: int,
    a: DogmaAttributeId,
    mx: i128,
) -> bool {
    exists|p: i128| #[trigger] contributes_upto(st, res, hi, jhi, a, p, mx)
}

/// Some pair yielding `res` attains `mn` as its per-pair minimum for `a`.
pub open spec fn min_attained(st: CharacterAssets, res: TypeId, a: DogmaAttributeId, mn: i128) -> bool {
    exists|q: i128| #[trigger] contributes(st, res, a, mn, q)
}

pub open spec fn max_attained(st: CharacterAssets, res: TypeId, a: DogmaAttributeId, mx: i128) -> bool {
    exists|p: i128| #[trigger] contributes(st, res, a, p, mx)
}

/// The accumulator holds, per attribute seen in contributions up to
/// `(hi, jhi)`, exactly the coordinate-wise union interval: unique ids,
/// bounds on every contribution, and both bounds attained.
pub open spec fn minmax_inv(
    st: CharacterAssets,
    res: TypeId,
    hi: int,
    jhi: int,
    acc: Seq<(DogmaAttributeId, i128, i128)>,
) -> bool {
    &&& forall|p: int, q: int|
        0 <= p < q < acc.len() ==> (#[trigger] acc[p]).0 != (#[trigger] acc[q]).0
    &&& forall|k: int|
        0 <= k < acc.len() ==> upto_min_attained(st, res, hi, jhi, (#[trigger] acc[k]).0, acc[k].1)
    &&& forall|k: int|
        0 <= k < acc.len() ==> upto_max_attained(st, res, hi, jhi, (#[trigger] acc[k]).0, acc[k].2)
    &&& forall|a: DogmaAttributeId, p: i128, q: i128|
        #[trigger] contributes_upto(st, res, hi, jhi, a, p, q) ==> exists|k: int|
            0 <= k < acc.len() && (#[trigger] acc[k]).0 == a
    &&& forall|a: DogmaAttributeId, p: i128, q: i128, k: int|
        #[trigger] contributes_upto(st, res, hi, jhi, a, p, q) && 0 <= k < acc.len() && (
        #[trigger] acc[k]).0 == a ==> acc[k].1 <= p && q <= acc[k].2
}

/// Seeing one more contribution extends the contribution set by exactly
/// that triple.
proof fn lemma_upto_step_some(
    st: CharacterAssets,
    res: TypeId,
    i: int,
    j: int,
    a: DogmaAttributeId,
    p: i128,
    q: i128,
)
    requires
        0 <= i < st.mutaplasmid_effects.relations@.len(),
        st.mutaplasmid_effects.relations@[i].2 == res,
        entry_contrib(
            st,
            st.mutaplasmid_effects.relations@[i].0,
            st.mutaplasmid_effects.relations@[i].1,
            j,
        ) == Some((a, p, q)),
    ensures
        contributes_upto(st, res, i, j + 1, a, p, q),
        forall|a2: DogmaAttributeId, p2: i128, q2: i128|
            #[trigger] contributes_upto(st, res, i, j + 1, a2, p2, q2) ==> (contributes_upto(
                st,
                res,
                i,
                j,
                a2,
                p2,
                q2,
            ) || (a2 == a && p2 == p && q2 == q)),
        forall|a2: DogmaAttributeId, p2: i128, q2: i128|
            #[trigger] contributes_upto(st, res, i, j, a2, p2, q2) ==> contributes_upto(
                st,
                res,
                i,
                j + 1,
                a2,
                p2,
                q2,
            ),
{
    let rels = st.mutaplasmid_effects.relations@;
    assert(entry_contrib(st, rels[i].0, rels[i].1, j) == Some((a, p, q)));
    assert(contributes_upto(st, res, i, j + 1, a, p, q));
    assert forall|a2: DogmaAttributeId, p2: i128, q2: i128|
        #[trigger] contributes_upto(st, res, i, j + 1, a2, p2, q2) implies (contributes_upto(
        st,
        res,
        i,
        j,
        a2,
        p2,
        q2,
    ) || (a2 == a && p2 == p && q2 == q)) by {
        let (i2, j2): (int, int) = choose|i2: int, j2: int|
            0 <= i2 < rels.len() && (i2 < i || (i2 == i && j2 < j + 1)) && rels[i2].2 == res
                && #[trigger] entry_contrib(st, rels[i2].0, rels[i2].1, j2) == Some((a2, p2, q2));
        if i2 < i || (i2 == i && j2 < j) {
            assert(contributes_upto(st, res, i, j, a2, p2, q2));
        } else {
            assert(entry_contrib(st, rels[i].0, rels[i].1, j) == Some((a2, p2, q2)));
        }
    }
    assert forall|a2: DogmaAttributeId, p2: i128, q2: i128|
        #[trigger] contributes_upto(st, res, i, j, a2, p2, q2) implies contributes_upto(
        st,
        res,
        i,
        j + 1,
        a2,
        p2,
        q2,
    ) by {
        let (i2, j2): (int, int) = choose|i2: int, j2: int|
            0 <= i2 < rels.len() && (i2 < i || (i2 == i && j2 < j)) && rels[i2].2 == res
                && #[trigger] entry_contrib(st, rels[i2].0, rels[i2].1, j2) == Some((a2, p2, q2));
        assert(i2 < i || (i2 == i && j2 < j + 1));
    }
}

/// Moving the bound past entries that contribute nothing changes no
/// contribution.
proof fn lemma_upto_same(st: CharacterAssets, res: TypeId, hi1: int, jhi1: int, hi2: int, jhi2: int)
    requires
        forall|i: int, j: int|
            0 <= i < st.mutaplasmid_effects.relations@.len()
                && st.mutaplasmid_effects.relations@[i].2 == res && ((hi1 < i || (hi1 == i && jhi1
                <= j)) && (i < hi2 || (i == hi2 && j < jhi2))) ==> #[trigger] entry_contrib(
                st,
                st.mutaplasmid_effects.relations@[i].0,
                st.mutaplasmid_effects.relations@[i].1,
                j,
            ) is None,
        forall|i: int, j: int|
            0 <= i < st.mutaplasmid_effects.relations@.len()
                && st.mutaplasmid_effects.relations@[i].2 == res && ((hi2 < i || (hi2 == i && jhi2
                <= j)) && (i < hi1 || (i == hi1 && j < jhi1))) ==> #[trigger] entry_contrib(
                st,
                st.mutaplasmid_effects.relations@[i].0,
                st.mutaplasmid_effects.relations@[i].1,
                j,
            ) is None,
    ensures
        forall|a: DogmaAttributeId, p: i128, q: i128|
            #[trigger] contributes_upto(st, res, hi1, jhi1, a, p, q) ==> contributes_upto(
                st,
                res,
                hi2,
                jhi2,
                a,
                p,
                q,
            ),
        forall|a: DogmaAttributeId, p: i128, q: i128|
            #[trigger] contributes_upto(st, res, hi2, jhi2, a, p, q) ==> contributes_upto(
                st,
                res,
                hi1,
                jhi1,
                a,
                p,
                q,
            ),
{
    let rels = st.mutaplasmid_effects.relations@;
    assert forall|a: DogmaAttributeId, p: i128, q: i128|
        #[trigger] contributes_upto(st, res, hi1, jhi1, a, p, q) implies contributes_upto(
        st,
        res,
        hi2,
        jhi2,
        a,
        p,
        q,
    ) by {
        let (i2, j2): (int, int) = choose|i2: int, j2: int|
            0 <= i2 < rels.len() && (i2 < hi1 || (i2 == hi1 && j2 < jhi1)) && rels[i2].2 == res
                && #[trigger] entry_contrib(st, rels[i2].0, rels[i2].1, j2) == Some((a, p, q));
        if !(i2 < hi2 || (i2 == hi2 && j2 < jhi2)) {
            assert(entry_contrib(st, rels[i2].0, rels[i2].1, j2) is None);
        }
    }
    assert forall|a: DogmaAttributeId, p: i128, q: i128|
        #[trigger] contributes_upto(st, res, hi2, jhi2, a, p, q) implies contributes_upto(
        st,
        res,
        hi1,
        jhi1,
        a,
        p,
        q,
    ) by {
        let (i2, j2): (int, int) = choose|i2: int, j2: int|
            0 <= i2 < rels.len() && (i2 < hi2 || (i2 == hi2 && j2 < jhi2)) && rels[i2].2 == res
                && #[trigger] entry_contrib(st, rels[i2].0, rels[i2].1, j2) == Some((a, p, q));
        if !(i2 < hi1 || (i2 == hi1 && j2 < jhi1)) {
            assert(entry_contrib(st, rels[i2].0, rels[i2].1, j2) is None);
        }
    }
}

/// The whole contribution set is what the bound `(len, 0)` admits.
proof fn lemma_upto_full(st: CharacterAssets, res: TypeId)
    ensures
        forall|a: DogmaAttributeId, p: i128, q: i128|
            #[trigger] contributes(st, res, a, p, q) ==> contributes_upto(
                st,
                res,
                st.mutaplasmid_effects.relations@.len() as int,
                0,
                a,
                p,
                q,
            ),
        forall|a: DogmaAttributeId, p: i128, q: i128|
            #[trigger] contributes_upto(
                st,
                res,
                st.mutaplasmid_effects.relations@.len() as int,
                0,
                a,
                p,
                q,
            ) ==> contributes(st, res, a, p, q),
{
    let rels = st.mutaplasmid_effects.relations@;
    let n = rels.len() as int;
    assert forall|a: DogmaAttributeId, p: i128, q: i128|
        #[trigger] contributes(st, res, a, p, q) implies contributes_upto(
        st,
        res,
        n,
        0,
        a,
        p,
        q,
    ) by {
        let (i2, j2): (int, int) = choose|i2: int, j2: int|
            0 <= i2 < rels.len() && rels[i2].2 == res && #[trigger] entry_contrib(
                st,
                rels[i2].0,
                rels[i2].1,
                j2,
            ) == Some((a, p, q));
        assert(i2 < n);
    }
    assert forall|a: DogmaAttributeId, p: i128, q: i128|
        #[trigger] contributes_upto(st, res, n, 0, a, p, q) implies contributes(
        st,
        res,
        a,
        p,
        q,
    ) by {
        let (i2, j2): (int, int) = choose|i2: int, j2: int|
            0 <= i2 < rels.len() && (i2 < n || (i2 == n && j2 < 0)) && rels[i2].2 == res
                && #[trigger] entry_contrib(st, rels[i2].0, rels[i2].1, j2) == Some((a, p, q));
        assert(entry_contrib(st, rels[i2].0, rels[i2].1, j2) == Some((a, p, q)));
    }
}

/// One observed contribution folds into the accumulator: a new id is
/// appended, a known id's interval widens by coordinate-wise min/max.
proof fn lemma_minmax_step(
    st: CharacterAssets,
    res: TypeId,
    i: int,
    j: int,
    a: DogmaAttributeId,
    p: i128,
    q: i128,
    acc0: Seq<(DogmaAttributeId, i128, i128)>,
    acc1: Seq<(DogmaAttributeId, i128, i128)>,
    hit: Option<int>,
)
    requires
        0 <= i < st.mutaplasmid_effects.relations@.len(),
        st.mutaplasmid_effects.relations@[i].2 == res,
        entry_contrib(
            st,
            st.mutaplasmid_effects.relations@[i].0,
            st.mutaplasmid_effects.relations@[i].1,
            j,
        ) == Some((a, p, q)),
        minmax_inv(st, res, i, j, acc0),
        match hit {
            Some(k) => 0 <= k < acc0.len() && acc0[k].0 == a && acc1 == acc0.update(
                k,
                (a, min128(p, acc0[k].1), max128(q, acc0[k].2)),
            ),
            None => (forall|k: int| 0 <= k < acc0.len() ==> (#[trigger] acc0[k]).0 != a) && acc1
                == acc0.push((a, p, q)),
        },
    ensures
        minmax_inv(st, res, i, j + 1, acc1),
{
    lemma_upto_step_some(st, res, i, j, a, p, q);
    assert(contributes_upto(st, res, i, j + 1, a, p, q));
    assert forall|x: int, y: int|
        0 <= x < y < acc1.len() implies (#[trigger] acc1[x]).0 != (#[trigger] acc1[y]).0 by {
        match hit {
            Some(k) => {
                assert(acc1[x].0 == acc0[x].0 && acc1[y].0 == acc0[y].0);
            }
            None => {
                if y < acc0.len() {
                    assert(acc1[x] == acc0[x] && acc1[y] == acc0[y]);
                } else {
                    assert(acc1[x] == acc0[x]);
                    assert(acc0[x].0 != a);
                }
            }
        }
    }
    assert forall|k2: int|
        0 <= k2 < acc1.len() implies upto_min_attained(
        st,
        res,
        i,
        j + 1,
        (#[trigger] acc1[k2]).0,
        acc1[k2].1,
    ) by {
        match hit {
            Some(k) => {
                if k2 == k && p < acc0[k].1 {
                    assert(acc1[k2].0 == a && acc1[k2].1 == p);
                    assert(contributes_upto(st, res, i, j + 1, a, p, q));
                } else {
                    assert(acc1[k2].0 == acc0[k2].0 && acc1[k2].1 == acc0[k2].1);
                    assert(upto_min_attained(st, res, i, j, acc0[k2].0, acc0[k2].1));
                    let q2 = choose|q2: i128|
                        #[trigger] contributes_upto(st, res, i, j, acc0[k2].0, acc0[k2].1, q2);
                    assert(contributes_upto(st, res, i, j + 1, acc1[k2].0, acc1[k2].1, q2));
                }
            }
            None => {
                if k2 == acc1.len() - 1 {
                    assert(acc1[k2] == (a, p, q));
                    assert(contributes_upto(st, res, i, j + 1, a, p, q));
                } else {
                    assert(acc1[k2] == acc0[k2]);
                    assert(upto_min_attained(st, res, i, j, acc0[k2].0, acc0[k2].1));
                    let q2 = choose|q2: i128|
                        #[trigger] contributes_upto(st, res, i, j, acc0[k2].0, acc0[k2].1, q2);
                    assert(contributes_upto(st, res, i, j + 1, acc1[k2].0, acc1[k2].1, q2));
                }
            }
        }
    }
    assert forall|k2: int|
        0 <= k2 < acc1.len() implies upto_max_attained(
        st,
        res,
        i,
        j + 1,
        (#[trigger] acc1[k2]).0,
        acc1[k2].2,
    ) by {
        match hit {
            Some(k) => {
                if k2 == k && q > acc0[k].2 {
                    assert(acc1[k2].0 == a && acc1[k2].2 == q);
                    assert(contributes_upto(st, res, i, j + 1, a, p, q));
                } else {
                    assert(acc1[k2].0 == acc0[k2].0 && acc1[k2].2 == acc0[k2].2);
                    assert(upto_max_attained(st, res, i, j, acc0[k2].0, acc0[k2].2));
                    let p2 = choose|p2: i128|
                        #[trigger] contributes_upto(st, res, i, j, acc0[k2].0, p2, acc0[k2].2);
                    assert(contributes_upto(st, res, i, j + 1, acc1[k2].0, p2, acc1[k2].2));
                }
            }
            None => {
                if k2 == acc1.len() - 1 {
                    assert(acc1[k2] == (a, p, q));
                    assert(contributes_upto(st, res, i, j + 1, a, p, q));
                } else {
                    assert(acc1[k2] == acc0[k2]);
                    assert(upto_max_attained(st, res, i, j, acc0[k2].0, acc0[k2].2));
                    let p2 = choose|p2: i128|
                        #[trigger] contributes_upto(st, res, i, j, acc0[k2].0, p2, acc0[k2].2);
                    assert(contributes_upto(st, res, i, j + 1, acc1[k2].0, p2, acc1[k2].2));
                }
            }
        }
    }
    assert forall|a2: DogmaAttributeId, p2: i128, q2: i128|
        #[trigger] contributes_upto(st, res, i, j + 1, a2, p2, q2) implies exists|k2: int|
        0 <= k2 < acc1.len() && (#[trigger] acc1[k2]).0 == a2 by {
        if contributes_upto(st, res, i, j, a2, p2, q2) {
            let k2 = choose|k2: int| 0 <= k2 < acc0.len() && (#[trigger] acc0[k2]).0 == a2;
            assert(acc1[k2].0 == a2);
        } else {
            match hit {
                Some(k) => {
                    assert(acc1[k].0 == a);
                }
                None => {
                    assert(acc1[acc1.len() - 1].0 == a);
                }
            }
        }
    }
    assert forall|a2: DogmaAttributeId, p2: i128, q2: i128, k2: int|
        #[trigger] contributes_upto(st, res, i, j + 1, a2, p2, q2) && 0 <= k2 < acc1.len() && (
    #[trigger] acc1[k2]).0 == a2 implies acc1[k2].1 <= p2 && q2 <= acc1[k2].2 by {
        if contributes_upto(st, res, i, j, a2, p2, q2) {
            match hit {
                Some(k) => {
                    if k2 == k {
                        assert(acc0[k2].0 == a2);
                        assert(acc0[k2].1 <= p2 && q2 <= acc0[k2].2);
                        assert(acc1[k2].1 <= acc0[k2].1 && acc0[k2].2 <= acc1[k2].2);
                    } else {
                        assert(acc1[k2] == acc0[k2]);
                    }
                }
                None => {
                    if k2 < acc0.len() {
                        assert(acc1[k2] == acc0[k2]);
                    } else {
                        assert(acc1[k2] == (a, p, q));
                        let kw = choose|kw: int|
                            0 <= kw < acc0.len() && (#[trigger] acc0[kw]).0 == a2;
                        assert(acc0[kw].0 != a);
                        assert(false);
                    }
                }
            }
        } else {
            assert(a2 == a && p2 == p && q2 == q);
            match hit {
                Some(k) => {
                    if k2 == k {
                        assert(acc1[k2].1 <= p && q <= acc1[k2].2);
                    } else {
                        assert(acc1[k2] == acc0[k2]);
                        assert(acc0[k2].0 == a && acc0[k].0 == a);
                        assert(false);
                    }
                }
                None => {
                    if k2 < acc0.len() {
                        assert(acc1[k2] == acc0[k2]);
                        assert(acc0[k2].0 != a);
                        assert(false);
                    } else {
                        assert(acc1[k2] == (a, p, q));
                    }
                }
            }
        }
    }
}

/// Index of `a` in an accumulator of union ranges.
fn find_acc(v: &Vec<(DogmaAttributeId, i128, i128)>, a: DogmaAttributeId) -> (r: Option<usize>)
    ensures
        match r {
            Some(k) => k < v@.len() && v@[k as int].0 == a,
            None => forall|k: int| 0 <= k < v@.len() ==> (#[trigger] v@[k]).0 != a,
        },
{
    let n = v.len();
    let mut i: usize = 0;
    while i < n
        invariant
            n == v@.len(),
            i <= n,
            forall|k: int| 0 <= k < i ==> (#[trigger] v@[k]).0 != a,
        decreases n - i,
    {
        if v[i].0 == a {
            return Some(i);
        }
        i = i + 1;
    }
    None
}

impl CharacterAssets {
    /// The union interval per attribute over every `(source, mutator)`
    /// pair that yields `resulting_type_id`: coordinate-wise minimum and
    /// maximum of the per-pair ranges, each bound attained by some pair.
    pub fn get_min_max_attributes_by_resulting_type_id(&self, resulting_type_id: TypeId) -> (r: Vec<
        (DogmaAttributeId, i128, i128),
    >)
        requires
            self.wf(),
        ensures
            forall|p: int, q: int|
                0 <= p < q < r@.len() ==> (#[trigger] r@[p]).0 != (#[trigger] r@[q]).0,
            forall|k: int|
                0 <= k < r@.len() ==> min_attained(
                    *self,
                    resulting_type_id,
                    (#[trigger] r@[k]).0,
                    r@[k].1,
                ),
            forall|k: int|
                0 <= k < r@.len() ==> max_attained(
                    *self,
                    resulting_type_id,
                    (#[trigger] r@[k]).0,
                    r@[k].2,
                ),
            forall|a: DogmaAttributeId, p: i128, q: i128|
                #[trigger] contributes(*self, resulting_type_id, a, p, q) ==> exists|k: int|
                    0 <= k < r@.len() && (#[trigger] r@[k]).0 == a,
            forall|a: DogmaAttributeId, p: i128, q: i128, k: int|
                #[trigger] contributes(*self, resulting_type_id, a, p, q) && 0 <= k < r@.len() && (
                #[trigger] r@[k]).0 == a ==> r@[k].1 <= p && q <= r@[k].2,
    {
        let ghost st = *self;
        let ghost rels = self.mutaplasmid_effects.relations@;
        let res = resulting_type_id;
        let mut acc: Vec<(DogmaAttributeId, i128, i128)> = Vec::new();
        let nr = self.mutaplasmid_effects.relations.len();
        let mut i: usize = 0;
        proof {
            assert(minmax_inv(st, res, 0, 0, acc@));
        }
        while i < nr
            invariant
                st == *self,
                self.wf(),
                rels == self.mutaplasmid_effects.relations@,
                res == resulting_type_id,
                nr == rels.len(),
                i <= nr,
                minmax_inv(st, res, i as int, 0, acc@),
            decreases nr - i,
        {
            let rel = self.mutaplasmid_effects.relations[i];
            if rel.2 == res {
                match self.types.get(rel.0 as i64) {
                    Some(it) => {
                        let na = it.dogma_attributes.len();
                        let mut j: usize = 0;
                        while j < na
                            invariant
                                st == *self,
                                self.wf(),
                                rels == self.mutaplasmid_effects.relations@,
                                res == resulting_type_id,
                                nr == rels.len(),
                                i < nr,
                                rel == rels[i as int],
                                rel.2 == res,
                                st.types.spec_get(rel.0 as i64) == Some(*it),
                                na == it.dogma_attributes@.len(),
                                j <= na,
                                minmax_inv(st, res, i as int, j as int, acc@),
                            decreases na - j,
                        {
                            let a = it.dogma_attributes[j];
                            let rg_opt = match self.mutaplasmid_effects.attributes.get(
                                rel.1 as i64,
                            ) {
                                Some(rv) => find_range(rv, a.attribute_id),
                                None => None,
                            };
                            proof {
                                if self.mutaplasmid_effects.attributes.spec_get(rel.1 as i64) is None {
                                    assert(mutator_ranges(st, rel.1) =~= Seq::<(
                                        DogmaAttributeId,
                                        AttributeRange,
                                    )>::empty());
                                }
                                assert(rg_opt == range_get(
                                    mutator_ranges(st, rel.1),
                                    a.attribute_id,
                                ));
                            }
                            match rg_opt {
                                Some(rg) => {
                                    proof {
                                        lemma_i64_mul_fits(rg.min, a.value);
                                        lemma_i64_mul_fits(rg.max, a.value);
                                    }
                                    let v1: i128 = (rg.min as i128) * (a.value as i128);
                                    let v2: i128 = (rg.max as i128) * (a.value as i128);
                                    let p: i128 = if v1 < v2 {
                                        v1
                                    } else {
                                        v2
                                    };
                                    let q: i128 = if v1 < v2 {
                                        v2
                                    } else {
                                        v1
                                    };
                                    proof {
                                        assert(entry_contrib(st, rel.0, rel.1, j as int) == Some(
                                            (a.attribute_id, p, q),
                                        ));
                                    }
                                    let ghost acc0 = acc@;
                                    let hit = find_acc(&acc, a.attribute_id);
                                    match hit {
                                        Some(k) => {
                                            let cur = acc[k];
                                            let nmin: i128 = if p < cur.1 {
                                                p
                                            } else {
                                                cur.1
                                            };
                                            let nmax: i128 = if q > cur.2 {
                                                q
                                            } else {
                                                cur.2
                                            };
                                            acc.set(k, (a.attribute_id, nmin, nmax));
                                        }
                                        None => {
                                            acc.push((a.attribute_id, p, q));
                                        }
                                    }
                                    proof {
                                        lemma_minmax_step(
                                            st,
                                            res,
                                            i as int,
                                            j as int,
                                            a.attribute_id,
                                            p,
                                            q,
                                            acc0,
                                            acc@,
                                            match hit {
                                                Some(k) => Some(k as int),
                                                None => None,
                                            },
                                        );
                                    }
                                }
                                None => {
                                    proof {
                                        assert(entry_contrib(st, rel.0, rel.1, j as int) is None);
                                        lemma_upto_same(st, res, i as int, j as int, i as int, j + 1);
                                        lemma_inv_carries(st, res, i as int, j as int, i as int, j + 1, acc@);
                                    }
                                }
                            }
                            j = j + 1;
                        }
                        proof {
                            lemma_upto_same(st, res, i as int, na as int, i + 1, 0);
                            lemma_inv_carries(st, res, i as int, na as int, i + 1, 0, acc@);
                        }
                    }
                    None => {
                        proof {
                            lemma_upto_same(st, res, i as int, 0, i + 1, 0);
                            lemma_inv_carries(st, res, i as int, 0, i + 1, 0, acc@);
                        }
                    }
                }
            } else {
                proof {
                    lemma_upto_same(st, res, i as int, 0, i + 1, 0);
                    lemma_inv_carries(st, res, i as int, 0, i + 1, 0, acc@);
                }
            }
            i = i + 1;
        }
        proof {
            lemma_upto_full(st, res);
            lemma_inv_final(st, res, acc@);
        }
        acc
    }
}

/// If the contribution sets at two bounds coincide, the invariant
/// carries from one bound to the other.
proof fn lemma_inv_carries(
    st: CharacterAssets,
    res: TypeId,
    hi1: int,
    jhi1: int,
    hi2: int,
    jhi2: int,
    acc: Seq<(DogmaAttributeId, i128, i128)>,
)
    requires
        minmax_inv(st, res, hi1, jhi1, acc),
        forall|a: DogmaAttributeId, p: i128, q: i128|
            #[trigger] contributes_upto(st, res, hi1, jhi1, a, p, q) ==> contributes_upto(
                st,
                res,
                hi2,
                jhi2,
                a,
                p,
                q,
            ),
        forall|a: DogmaAttributeId, p: i128, q: i128|
            #[trigger] contributes_upto(st, res, hi2, jhi2, a, p, q) ==> contributes_upto(
                st,
                res,
                hi1,
                jhi1,
                a,
                p,
                q,
            ),
    ensures
        minmax_inv(st, res, hi2, jhi2, acc),
{
    assert forall|k: int|
        0 <= k < acc.len() implies upto_min_attained(
        st,
        res,
        hi2,
        jhi2,
        (#[trigger] acc[k]).0,
        acc[k].1,
    ) by {
        assert(upto_min_attained(st, res, hi1, jhi1, acc[k].0, acc[k].1));
        let q = choose|q: i128|
            #[trigger] contributes_upto(st, res, hi1, jhi1, (acc[k]).0, acc[k].1, q);
        assert(contributes_upto(st, res, hi2, jhi2, acc[k].0, acc[k].1, q));
    }
    assert forall|k: int|
        0 <= k < acc.len() implies upto_max_attained(
        st,
        res,
        hi2,
        jhi2,
        (#[trigger] acc[k]).0,
        acc[k].2,
    ) by {
        assert(upto_max_attained(st, res, hi1, jhi1, acc[k].0, acc[k].2));
        let p = choose|p: i128|
            #[trigger] contributes_upto(st, res, hi1, jhi1, (acc[k]).0, p, acc[k].2);
        assert(contributes_upto(st, res, hi2, jhi2, acc[k].0, p, acc[k].2));
    }
    assert forall|a: DogmaAttributeId, p: i128, q: i128|
        #[trigger] contributes_upto(st, res, hi2, jhi2, a, p, q) implies exists|k: int|
        0 <= k < acc.len() && (#[trigger] acc[k]).0 == a by {
        assert(contributes_upto(st, res, hi1, jhi1, a, p, q));
    }
    assert forall|a: DogmaAttributeId, p: i128, q: i128, k: int|
        #[trigger] contributes_upto(st, res, hi2, jhi2, a, p, q) && 0 <= k < acc.len() && (
    #[trigger] acc[k]).0 == a implies acc[k].1 <= p && q <= acc[k].2 by {
        assert(contributes_upto(st, res, hi1, jhi1, a, p, q));
    }
}

/// At the end of the scan the invariant speaks of all contributions.
proof fn lemma_inv_final(st: CharacterAssets, res: TypeId, acc: Seq<(DogmaAttributeId, i128, i128)>)
    requires
        minmax_inv(st, res, st.mutaplasmid_effects.relations@.len() as int, 0, acc),
    ensures
        forall|k: int|
            0 <= k < acc.len() ==> min_attained(st, res, (#[trigger] acc[k]).0, acc[k].1),
        forall|k: int|
            0 <= k < acc.len() ==> max_attained(st, res, (#[trigger] acc[k]).0, acc[k].2),
        forall|a: DogmaAttributeId, p: i128, q: i128|
            #[trigger] contributes(st, res, a, p, q) ==> exists|k: int|
                0 <= k < acc.len() && (#[trigger] acc[k]).0 == a,
        forall|a: DogmaAttributeId, p: i128, q: i128, k: int|
            #[trigger] contributes(st, res, a, p, q) && 0 <= k < acc.len() && (#[trigger] acc[k]).0
                == a ==> acc[k].1 <= p && q <= acc[k].2,
{
    lemma_upto_full(st, res);
    let n = st.mutaplasmid_effects.relations@.len() as int;
    assert forall|k: int|
        0 <= k < acc.len() implies min_attained(st, res, (#[trigger] acc[k]).0, acc[k].1) by {
        assert(upto_min_attained(st, res, n, 0, acc[k].0, acc[k].1));
        let q = choose|q: i128| #[trigger] contributes_upto(st, res, n, 0, (acc[k]).0, acc[k].1, q);
        assert(contributes(st, res, acc[k].0, acc[k].1, q));
    }
    assert forall|k: int|
        0 <= k < acc.len() implies max_attained(st, res, (#[trigger] acc[k]).0, acc[k].2) by {
        assert(upto_max_attained(st, res, n, 0, acc[k].0, acc[k].2));
        let p = choose|p: i128| #[trigger] contributes_upto(st, res, n, 0, (acc[k]).0, p, acc[k].2);
        assert(contributes(st, res, acc[k].0, p, acc[k].2));
    }
    assert forall|a: DogmaAttributeId, p: i128, q: i128|
        #[trigger] contributes(st, res, a, p, q) implies exists|k: int|
        0 <= k < acc.len() && (#[trigger] acc[k]).0 == a by {
        assert(contributes_upto(st, res, n, 0, a, p, q));
    }
    assert forall|a: DogmaAttributeId, p: i128, q: i128, k: int|
        #[trigger] contributes(st, res, a, p, q) && 0 <= k < acc.len() && (#[trigger] acc[k]).0
            == a implies acc[k].1 <= p && q <= acc[k].2 by {
        assert(contributes_upto(st, res, n, 0, a, p, q));
    }
}

/// Some source maps through mutator `m` to `res`.
pub open spec fn mutator_of(st: CharacterAssets, res: TypeId, m: TypeId) -> bool {
    exists|i: int|
        0 <= i < st.mutaplasmid_effects.relations@.len() && (
        #[trigger] st.mutaplasmid_effects.relations@[i]).1 == m
            && st.mutaplasmid_effects.relations@[i].2 == res
}

/// A mutator's display name: its type's name, or `type_<id>` while the
/// type is not loaded.
pub open spec fn mutator_name_spec(st: CharacterAssets, m: TypeId) -> Seq<u8> {
    match st.types.spec_get(m as i64) {
        Some(t) => t.name@,
        None => crate::bytes::prefixed_decimal(crate::bytes::type_prefix(), m as int),
    }
}

fn mutators_contains(
    v: &Vec<(TypeId, Vec<u8>, Vec<(DogmaAttributeId, AttributeRange)>)>,
    m: TypeId,
) -> (r: bool)
    ensures
        r == exists|k: int| 0 <= k < v@.len() && (#[trigger] v@[k]).0 == m,
{
    let n = v.len();
    let mut i: usize = 0;
    while i < n
        invariant
            n == v@.len(),
            i <= n,
            forall|k: int| 0 <= k < i ==> (#[trigger] v@[k]).0 != m,
        decreases n - i,
    {
        if v[i].0 == m {
            return true;
        }
        i = i + 1;
    }
    false
}

impl CharacterAssets {
    /// The mutators that can yield `resulting_type_id`, each with its
    /// display name and its attribute ranges.
    pub fn get_mutators_by_resulting_type_id(&self, resulting_type_id: TypeId) -> (r: Vec<(
        TypeId,
        Vec<u8>,
        Vec<(DogmaAttributeId, AttributeRange)>,
    )>)
        requires
            self.wf(),
        ensures
            forall|k: int|
                0 <= k < r@.len() ==> {
                    &&& mutator_of(*self, resulting_type_id, (#[trigger] r@[k]).0)
                    &&& r@[k].1@ == mutator_name_spec(*self, r@[k].0)
                    &&& r@[k].2@ == mutator_ranges(*self, r@[k].0)
                },
            forall|m: TypeId|
                mutator_of(*self, resulting_type_id, m) ==> exists|k: int|
                    0 <= k < r@.len() && (#[trigger] r@[k]).0 == m,
            forall|p: int, q: int|
                0 <= p < q < r@.len() ==> (#[trigger] r@[p]).0 != (#[trigger] r@[q]).0,
    {
        let ghost st = *self;
        let ghost rels = self.mutaplasmid_effects.relations@;
        let res = resulting_type_id;
        let mut out: Vec<(TypeId, Vec<u8>, Vec<(DogmaAttributeId, AttributeRange)>)> = Vec::new();
        let n = self.mutaplasmid_effects.relations.len();
        let mut i: usize = 0;
        while i < n
            invariant
                st == *self,
                self.wf(),
                rels == self.mutaplasmid_effects.relations@,
                res == resulting_type_id,
                n == rels.len(),
                i <= n,
                forall|k: int|
                    0 <= k < out@.len() ==> {
                        &&& mutator_of(st, res, (#[trigger] out@[k]).0)
                        &&& out@[k].1@ == mutator_name_spec(st, out@[k].0)
                        &&& out@[k].2@ == mutator_ranges(st, out@[k].0)
                    },
                forall|j: int|
                    0 <= j < i && (#[trigger] rels[j]).2 == res ==> exists|k: int|
                        0 <= k < out@.len() && (#[trigger] out@[k]).0 == rels[j].1,
                forall|p: int, q: int|
                    0 <= p < q < out@.len() ==> (#[trigger] out@[p]).0 != (#[trigger] out@[q]).0,
            decreases n - i,
        {
            let rel = self.mutaplasmid_effects.relations[i];
            let ghost out0 = out@;
            if rel.2 == res {
                if !mutators_contains(&out, rel.1) {
                    let name: Vec<u8> = match self.types.get(rel.1 as i64) {
                        Some(t) => crate::types::clone_bytes(&t.name),
                        None => prefixed_i64(crate::bytes::type_prefix_vec(), rel.1 as i64),
                    };
                    let ranges: Vec<(DogmaAttributeId, AttributeRange)> = match self
                        .mutaplasmid_effects
                        .attributes
                        .get(rel.1 as i64) {
                        Some(v) => clone_ranges(v),
                        None => Vec::new(),
                    };
                    proof {
                        if st.mutaplasmid_effects.attributes.spec_get(rel.1 as i64) is None {
                            assert(mutator_ranges(st, rel.1) =~= Seq::<(
                                DogmaAttributeId,
                                AttributeRange,
                            )>::empty());
                        }
                        assert(mutator_of(st, res, rel.1)) by {
                            assert(rels[i as int].1 == rel.1 && rels[i as int].2 == res);
                        }
                    }
                    out.push((rel.1, name, ranges));
                    proof {
                        assert(out@.drop_last() =~= out0);
                        assert(out@[out@.len() - 1].0 == rel.1);
                        assert forall|k: int|
                            0 <= k < out@.len() implies {
                            &&& mutator_of(st, res, (#[trigger] out@[k]).0)
                            &&& out@[k].1@ == mutator_name_spec(st, out@[k].0)
                            &&& out@[k].2@ == mutator_ranges(st, out@[k].0)
                        } by {
                            if k < out0.len() {
                                assert(out@[k] == out0[k]);
                            }
                        }
                    }
                }
            }
            proof {
                assert forall|j: int|
                    0 <= j < i + 1 && (#[trigger] rels[j]).2 == res implies exists|k: int|
                    0 <= k < out@.len() && (#[trigger] out@[k]).0 == rels[j].1 by {
                    if j < i {
                        let k = choose|k: int| 0 <= k < out0.len() && (#[trigger] out0[k]).0 == rels[j].1;
                        assert(out@[k].0 == rels[j].1);
                    } else {
                        let k = choose|k: int| 0 <= k < out@.len() && (#[trigger] out@[k]).0 == rel.1;
                        assert(out@[k].0 == rels[j].1);
                    }
                }
            }
            i = i + 1;
        }
        proof {
            assert forall|m: TypeId|
                mutator_of(st, res, m) implies exists|k: int|
                0 <= k < out@.len() && (#[trigger] out@[k]).0 == m by {
                let j = choose|j: int|
                    0 <= j < rels.len() && (#[trigger] rels[j]).1 == m && rels[j].2 == res;
                assert(rels[j].2 == res);
            }
        }
        out
    }
}

} // verus!
