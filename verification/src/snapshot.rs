//! Best-effort snapshot of the store as plain data, and the load that
//! reconstructs a store from it. Loading what was snapshotted provably
//! yields an equivalent store, so persistence round trips are loss-free
//! up to the byte encoding the embedding program chooses.

use vstd::prelude::*;

use crate::store::{CharacterAssets, MutaplasmidEffects, NameIndex};
use crate::table::Table;
use crate::types::{
    AssetItem, AttributeRange, DogmaAttribute, DogmaAttributeId, DynamicItem, ItemType,
    MarketGroup, Station, TypeId,
};

verus! {

/// The wire model of the store: every table as an entry list.
pub struct Snapshot {
    pub assets: Vec<(i64, AssetItem)>,
    pub assets_names: Vec<(i64, Vec<u8>)>,
    pub stations: Vec<(i64, Station)>,
    pub dynamics: Vec<(i64, DynamicItem)>,
    pub dogma_attributes: Vec<(i64, DogmaAttribute)>,
    pub name_index: Vec<(Vec<u8>, DogmaAttributeId)>,
    pub types: Vec<(i64, ItemType)>,
    pub market_groups: Vec<(i64, MarketGroup)>,
    pub abyssal_items: Vec<TypeId>,
    pub relations: Vec<(TypeId, TypeId, TypeId)>,
    pub attributes: Vec<(i64, Vec<(DogmaAttributeId, AttributeRange)>)>,
}

/// Pointwise sameness of two entry lists: equal keys, view-equal values.
pub open spec fn entries_equiv<V: View>(a: Seq<(i64, V)>, b: Seq<(i64, V)>) -> bool {
    &&& a.len() == b.len()
    &&& forall|i: int| 0 <= i < a.len() ==> (#[trigger] a[i]).0 == b[i].0 && a[i].1@ == b[i].1@
}

/// Keys stay unique across an equivalence.
proof fn lemma_equiv_unique<V: View>(a: Seq<(i64, V)>, b: Seq<(i64, V)>)
    requires
        entries_equiv(a, b),
        forall|i: int, j: int| 0 <= i < j < a.len() ==> (#[trigger] a[i]).0 != (#[trigger] a[j]).0,
    ensures
        forall|i: int, j: int| 0 <= i < j < b.len() ==> (#[trigger] b[i]).0 != (#[trigger] b[j]).0,
{
    assert forall|i: int, j: int|
        0 <= i < j < b.len() implies (#[trigger] b[i]).0 != (#[trigger] b[j]).0 by {
        assert(a[i].0 == b[i].0 && a[j].0 == b[j].0);
    }
}

/// Equivalence is transitive through a common snapshot.
proof fn lemma_equiv_trans<V: View>(a: Seq<(i64, V)>, b: Seq<(i64, V)>, c: Seq<(i64, V)>)
    requires
        entries_equiv(a, c),
        entries_equiv(b, c),
    ensures
        entries_equiv_sym(a, b),
{
    assert forall|i: int|
        0 <= i < a.len() implies (#[trigger] a[i]).0 == b[i].0 && a[i].1@ == b[i].1@ by {
        assert(a[i].0 == c[i].0 && a[i].1@ == c[i].1@);
        assert(b[i].0 == c[i].0 && b[i].1@ == c[i].1@);
    }
}

/// Same as `entries_equiv` (between two stores' tables).
pub open spec fn entries_equiv_sym<V: View>(a: Seq<(i64, V)>, b: Seq<(i64, V)>) -> bool {
    entries_equiv(a, b)
}

/// The snapshot mirrors the store table for table, views preserved.
pub open spec fn snap_matches(st: CharacterAssets, s: Snapshot) -> bool {
    &&& entries_equiv(st.assets.entries_seq(), s.assets@)
    &&& entries_equiv(st.assets_names.entries_seq(), s.assets_names@)
    &&& entries_equiv(st.stations.entries_seq(), s.stations@)
    &&& entries_equiv(st.dynamics.entries_seq(), s.dynamics@)
    &&& entries_equiv(st.dogma_attributes.entries_seq(), s.dogma_attributes@)
    &&& st.dogma_attributes_name_to_id.view_seq() == s.name_index@.map_values(
        |p: (Vec<u8>, DogmaAttributeId)| (p.0@, p.1),
    )
    &&& entries_equiv(st.types.entries_seq(), s.types@)
    &&& entries_equiv(st.market_groups.entries_seq(), s.market_groups@)
    &&& st.abyssal_items@ == s.abyssal_items@
    &&& st.mutaplasmid_effects.relations@ == s.relations@
    &&& entries_equiv(st.mutaplasmid_effects.attributes.entries_seq(), s.attributes@)
}

/// The snapshot's own well-formedness: unique keys per table, unique
/// pairs among the relation triples.
pub open spec fn snapshot_wf(s: Snapshot) -> bool {
    &&& unique_keys(s.assets@)
    &&& unique_keys(s.assets_names@)
    &&& unique_keys(s.stations@)
    &&& unique_keys(s.dynamics@)
    &&& unique_keys(s.dogma_attributes@)
    &&& unique_keys(s.types@)
    &&& unique_keys(s.market_groups@)
    &&& unique_keys(s.attributes@)
    &&& forall|i: int, j: int|
        0 <= i < j < s.relations@.len() ==> !((#[trigger] s.relations@[i]).0 == (
        #[trigger] s.relations@[j]).0 && s.relations@[i].1 == s.relations@[j].1)
}

pub open spec fn unique_keys<V>(a: Seq<(i64, V)>) -> bool {
    forall|i: int, j: int| 0 <= i < j < a.len() ==> (#[trigger] a[i]).0 != (#[trigger] a[j]).0
}

fn snap_assets(t: &Table<AssetItem>) -> (r: Vec<(i64, AssetItem)>)
    ensures
        entries_equiv(t.entries_seq(), r@),
{
    let mut out: Vec<(i64, AssetItem)> = Vec::new();
    let n = t.len();
    let mut i: usize = 0;
    while i < n
        invariant
            n == t.entries_seq().len(),
            i <= n,
            out@.len() == i,
            forall|j: int|
                0 <= j < i ==> (#[trigger] out@[j]).0 == t.entries_seq()[j].0 && out@[j].1@
                    == t.entries_seq()[j].1@,
        decreases n - i,
    {
        let e = t.at(i);
        out.push((e.0, e.1.clone()));
        i = i + 1;
    }
    out
}

fn snap_names(t: &Table<Vec<u8>>) -> (r: Vec<(i64, Vec<u8>)>)
    ensures
        entries_equiv(t.entries_seq(), r@),
{
    let mut out: Vec<(i64, Vec<u8>)> = Vec::new();
    let n = t.len();
    let mut i: usize = 0;
    while i < n
        invariant
            n == t.entries_seq().len(),
            i <= n,
            out@.len() == i,
            forall|j: int|
                0 <= j < i ==> (#[trigger] out@[j]).0 == t.entries_seq()[j].0 && out@[j].1@
                    == t.entries_seq()[j].1@,
        decreases n - i,
    {
        let e = t.at(i);
        out.push((e.0, crate::types::clone_bytes(&e.1)));
        i = i + 1;
    }
    out
}

fn snap_stations(t: &Table<Station>) -> (r: Vec<(i64, Station)>)
    ensures
        entries_equiv(t.entries_seq(), r@),
{
    let mut out: Vec<(i64, Station)> = Vec::new();
    let n = t.len();
    let mut i: usize = 0;
    while i < n
        invariant
            n == t.entries_seq().len(),
            i <= n,
            out@.len() == i,
            forall|j: int|
                0 <= j < i ==> (#[trigger] out@[j]).0 == t.entries_seq()[j].0 && out@[j].1@
                    == t.entries_seq()[j].1@,
        decreases n - i,
    {
        let e = t.at(i);
        out.push((e.0, e.1.clone()));
        i = i + 1;
    }
    out
}

fn snap_dynamics(t: &Table<DynamicItem>) -> (r: Vec<(i64, DynamicItem)>)
    ensures
        entries_equiv(t.entries_seq(), r@),
{
    let mut out: Vec<(i64, DynamicItem)> = Vec::new();
    let n = t.len();
    let mut i: usize = 0;
    while i < n
        invariant
            n == t.entries_seq().len(),
            i <= n,
            out@.len() == i,
            forall|j: int|
                0 <= j < i ==> (#[trigger] out@[j]).0 == t.entries_seq()[j].0 && out@[j].1@
                    == t.entries_seq()[j].1@,
        decreases n - i,
    {
        let e = t.at(i);
        out.push((e.0, e.1.clone()));
        i = i + 1;
    }
    out
}

fn snap_dogma(t: &Table<DogmaAttribute>) -> (r: Vec<(i64, DogmaAttribute)>)
    ensures
        entries_equiv(t.entries_seq(), r@),
{
    let mut out: Vec<(i64, DogmaAttribute)> = Vec::new();
    let n = t.len();
    let mut i: usize = 0;
    while i < n
        invariant
            n == t.entries_seq().len(),
            i <= n,
            out@.len() == i,
            forall|j: int|
                0 <= j < i ==> (#[trigger] out@[j]).0 == t.entries_seq()[j].0 && out@[j].1@
                    == t.entries_seq()[j].1@,
        decreases n - i,
    {
        let e = t.at(i);
        out.push((e.0, e.1.clone()));
        i = i + 1;
    }
    out
}

fn snap_types(t: &Table<ItemType>) -> (r: Vec<(i64, ItemType)>)
    ensures
        entries_equiv(t.entries_seq(), r@),
{
    let mut out: Vec<(i64, ItemType)> = Vec::new();
    let n = t.len();
    let mut i: usize = 0;
    while i < n
        invariant
            n == t.entries_seq().len(),
            i <= n,
            out@.len() == i,
            forall|j: int|
                0 <= j < i ==> (#[trigger] out@[j]).0 == t.entries_seq()[j].0 && out@[j].1@
                    == t.entries_seq()[j].1@,
        decreases n - i,
    {
        let e = t.at(i);
        out.push((e.0, e.1.clone()));
        i = i + 1;
    }
    out
}

fn snap_groups(t: &Table<MarketGroup>) -> (r: Vec<(i64, MarketGroup)>)
    ensures
        entries_equiv(t.entries_seq(), r@),
{
    let mut out: Vec<(i64, MarketGroup)> = Vec::new();
    let n = t.len();
    let mut i: usize = 0;
    while i < n
        invariant
            n == t.entries_seq().len(),
            i <= n,
            out@.len() == i,
            forall|j: int|
                0 <= j < i ==> (#[trigger] out@[j]).0 == t.entries_seq()[j].0 && out@[j].1@
                    == t.entries_seq()[j].1@,
        decreases n - i,
    {
        let e = t.at(i);
        out.push((e.0, e.1.clone()));
        i = i + 1;
    }
    out
}

fn snap_ranges(t: &Table<Vec<(DogmaAttributeId, AttributeRange)>>) -> (r: Vec<(i64, Vec<(DogmaAttributeId, AttributeRange)>)>)
    ensures
        entries_equiv(t.entries_seq(), r@),
{
    let mut out: Vec<(i64, Vec<(DogmaAttributeId, AttributeRange)>)> = Vec::new();
    let n = t.len();
    let mut i: usize = 0;
    while i < n
        invariant
            n == t.entries_seq().len(),
            i <= n,
            out@.len() == i,
            forall|j: int|
                0 <= j < i ==> (#[trigger] out@[j]).0 == t.entries_seq()[j].0 && out@[j].1@
                    == t.entries_seq()[j].1@,
        decreases n - i,
    {
        let e = t.at(i);
        out.push((e.0, crate::store::clone_ranges(&e.1)));
        i = i + 1;
    }
    out
}

fn copy_relations(v: &Vec<(TypeId, TypeId, TypeId)>) -> (r: Vec<(TypeId, TypeId, TypeId)>)
    ensures
        r@ == v@,
{
    let mut out: Vec<(TypeId, TypeId, TypeId)> = Vec::new();
    let n = v.len();
    let mut i: usize = 0;
    while i < n
        invariant
            n == v@.len(),
            i <= n,
            out@ == v@.subrange(0, i as int),
        decreases n - i,
    {
        out.push(v[i]);
        proof {
            assert(v@.subrange(0, i + 1) =~= v@.subrange(0, i as int).push(v@[i as int]));
        }
        i = i + 1;
    }
    proof {
        assert(v@.subrange(0, n as int) =~= v@);
    }
    out
}

/// Take the wire-model snapshot of a store.
pub fn snapshot(st: &CharacterAssets) -> (s: Snapshot)
    requires
        st.wf(),
    ensures
        snap_matches(*st, s),
        snapshot_wf(s),
{
    let s = Snapshot {
        assets: snap_assets(&st.assets),
        assets_names: snap_names(&st.assets_names),
        stations: snap_stations(&st.stations),
        dynamics: snap_dynamics(&st.dynamics),
        dogma_attributes: snap_dogma(&st.dogma_attributes),
        name_index: st.dogma_attributes_name_to_id.export(),
        types: snap_types(&st.types),
        market_groups: snap_groups(&st.market_groups),
        abyssal_items: crate::types::clone_type_ids(&st.abyssal_items),
        relations: copy_relations(&st.mutaplasmid_effects.relations),
        attributes: snap_ranges(&st.mutaplasmid_effects.attributes),
    };
    proof {
        lemma_equiv_unique(st.assets.entries_seq(), s.assets@);
        lemma_equiv_unique(st.assets_names.entries_seq(), s.assets_names@);
        lemma_equiv_unique(st.stations.entries_seq(), s.stations@);
        lemma_equiv_unique(st.dynamics.entries_seq(), s.dynamics@);
        lemma_equiv_unique(st.dogma_attributes.entries_seq(), s.dogma_attributes@);
        lemma_equiv_unique(st.types.entries_seq(), s.types@);
        lemma_equiv_unique(st.market_groups.entries_seq(), s.market_groups@);
        lemma_equiv_unique(st.mutaplasmid_effects.attributes.entries_seq(), s.attributes@);
    }
    s
}

/// Rebuild a store from a snapshot.
pub fn load_snapshot(s: Snapshot) -> (st: CharacterAssets)
    requires
        snapshot_wf(s),
    ensures
        st.wf(),
        snap_matches(st, s),
{
    let Snapshot {
        assets,
        assets_names,
        stations,
        dynamics,
        dogma_attributes,
        name_index,
        types,
        market_groups,
        abyssal_items,
        relations,
        attributes,
    } = s;
    let st = CharacterAssets {
        assets: Table::from_entries(assets),
        assets_names: Table::from_entries(assets_names),
        stations: Table::from_entries(stations),
        dynamics: Table::from_entries(dynamics),
        dogma_attributes: Table::from_entries(dogma_attributes),
        dogma_attributes_name_to_id: NameIndex::from_entries(name_index),
        types: Table::from_entries(types),
        market_groups: Table::from_entries(market_groups),
        abyssal_items,
        mutaplasmid_effects: MutaplasmidEffects {
            relations,
            attributes: Table::from_entries(attributes),
        },
    };
    st
}

/// Snapshot idempotence: a store, its snapshot, and the store loaded
/// back from that snapshot agree table for table — persistence through
/// the wire model is loss-free.
pub proof fn lemma_snapshot_round_trip(a: CharacterAssets, s: Snapshot, b: CharacterAssets)
    requires
        snap_matches(a, s),
        snap_matches(b, s),
    ensures
        entries_equiv_sym(a.assets.entries_seq(), b.assets.entries_seq()),
        entries_equiv_sym(a.assets_names.entries_seq(), b.assets_names.entries_seq()),
        entries_equiv_sym(a.stations.entries_seq(), b.stations.entries_seq()),
        entries_equiv_sym(a.dynamics.entries_seq(), b.dynamics.entries_seq()),
        entries_equiv_sym(a.dogma_attributes.entries_seq(), b.dogma_attributes.entries_seq()),
        a.dogma_attributes_name_to_id.view_seq() == b.dogma_attributes_name_to_id.view_seq(),
        entries_equiv_sym(a.types.entries_seq(), b.types.entries_seq()),
        entries_equiv_sym(a.market_groups.entries_seq(), b.market_groups.entries_seq()),
        a.abyssal_items@ == b.abyssal_items@,
        a.mutaplasmid_effects.relations@ == b.mutaplasmid_effects.relations@,
        entries_equiv_sym(
            a.mutaplasmid_effects.attributes.entries_seq(),
            b.mutaplasmid_effects.attributes.entries_seq(),
        ),
{
    lemma_equiv_trans(a.assets.entries_seq(), b.assets.entries_seq(), s.assets@);
    lemma_equiv_trans(a.assets_names.entries_seq(), b.assets_names.entries_seq(), s.assets_names@);
    lemma_equiv_trans(a.stations.entries_seq(), b.stations.entries_seq(), s.stations@);
    lemma_equiv_trans(a.dynamics.entries_seq(), b.dynamics.entries_seq(), s.dynamics@);
    lemma_equiv_trans(
        a.dogma_attributes.entries_seq(),
        b.dogma_attributes.entries_seq(),
        s.dogma_attributes@,
    );
    lemma_equiv_trans(a.types.entries_seq(), b.types.entries_seq(), s.types@);
    lemma_equiv_trans(a.market_groups.entries_seq(), b.market_groups.entries_seq(), s.market_groups@);
    lemma_equiv_trans(
        a.mutaplasmid_effects.attributes.entries_seq(),
        b.mutaplasmid_effects.attributes.entries_seq(),
        s.attributes@,
    );
}

} // verus!
