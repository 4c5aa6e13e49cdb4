//! The assets saga processor: how fetched results are applied to the
//! store, which new work each admission surfaces, and the closure
//! invariant tying the saga's work sets to the store's unresolved
//! references. When the work graph drains, the store is closed.

use vstd::prelude::*;

use crate::assets_work::{
    get_data_to_work_type, spec_key_of, spec_key_of_getdata, AssetsWorkKey, AssetsWorkType,
};
use crate::engine::{Saga, WorkItem};
use crate::store::{spec_all_resolved, CharacterAssets, GetData};
use crate::table::lemma_get_some_index;
use crate::types::{
    AssetItem, AssetName, CharacterId, DogmaAttributeId, DynamicItem, DogmaAttribute, ItemId,
    ItemType, MarketGroup, MarketGroupId, MutaplasmidsEffects, Station, StationId, TypeId,
};

verus! {

/// Where a work item's data is looked for first.
#[derive(Clone, Copy, PartialEq, Eq, Structural, Debug)]
pub enum DataSource {
    /// Fetch over the network only.
    Remote,
    /// Consult the local dynamics cache first; fetch on a miss.
    DynamicsCache,
    /// Consult the static-data store first; fetch on a miss.
    StaticData,
}

/// Errors of the assets saga.
#[derive(Clone, Copy, PartialEq, Eq, Structural, Debug)]
pub enum AssetsError {
    EsiError,
    SdeError,
    DatabaseError,
    ConsistencyError,
}

/// The event that starts an assets saga.
pub struct AssetsInitialEvent {
    pub character_id: CharacterId,
}

/// One fetched result, per remote resource class.
pub enum AssetsWorkResult {
    HoboleaksMutators { data: Vec<(TypeId, MutaplasmidsEffects)> },
    AssetsPage {
        character_id: CharacterId,
        page: usize,
        total_pages: usize,
        assets: Vec<AssetItem>,
    },
    AssetsNames { character_id: CharacterId, page: usize, assets_names: Vec<AssetName> },
    Dynamic { type_id: TypeId, item_id: ItemId, dynamic: DynamicItem },
    Type { type_id: TypeId, item_type: ItemType },
    MarketGroup { market_group_id: MarketGroupId, market_group: MarketGroup },
    Station { station_id: StationId, station: Station },
    DogmaAttribute { dogma_attribute_id: DogmaAttributeId, dogma_attribute: DogmaAttribute },
}

/// The work key a result resolves.
pub open spec fn spec_result_key(r: &AssetsWorkResult) -> AssetsWorkKey {
    match r {
        AssetsWorkResult::HoboleaksMutators { .. } => AssetsWorkKey::HoboleaksMutators,
        AssetsWorkResult::AssetsPage { character_id, page, .. } => AssetsWorkKey::AssetsPage {
            character_id: *character_id,
            page: *page,
        },
        AssetsWorkResult::AssetsNames { character_id, page, .. } => AssetsWorkKey::AssetsNames {
            character_id: *character_id,
            page: *page,
        },
        AssetsWorkResult::Dynamic { item_id, .. } => AssetsWorkKey::Dynamic { item_id: *item_id },
        AssetsWorkResult::Type { type_id, .. } => AssetsWorkKey::Type { type_id: *type_id },
        AssetsWorkResult::MarketGroup { market_group_id, .. } => AssetsWorkKey::MarketGroup {
            market_group_id: *market_group_id,
        },
        AssetsWorkResult::Station { station_id, .. } => AssetsWorkKey::Station {
            station_id: *station_id,
        },
        AssetsWorkResult::DogmaAttribute { dogma_attribute_id, .. } => AssetsWorkKey::DogmaAttribute {
            dogma_attribute_id: *dogma_attribute_id,
        },
    }
}

/// Machine bound: a page result's total page count leaves room for the
/// page counter.
pub open spec fn result_bounded(r: &AssetsWorkResult) -> bool {
    match r {
        AssetsWorkResult::AssetsPage { total_pages, .. } => *total_pages < usize::MAX,
        _ => true,
    }
}

/// The envelope of a result names the same entity as its payload.
pub open spec fn result_coherent(r: &AssetsWorkResult) -> bool {
    match r {
        AssetsWorkResult::Type { type_id, item_type } => item_type.type_id == *type_id,
        AssetsWorkResult::MarketGroup { market_group_id, market_group } => {
            market_group.market_group_id == *market_group_id
        },
        AssetsWorkResult::DogmaAttribute { dogma_attribute_id, dogma_attribute } => {
            dogma_attribute.attribute_id == *dogma_attribute_id
        },
        AssetsWorkResult::Station { station_id, station } => station.station_id == *station_id,
        _ => true,
    }
}

pub fn result_key(r: &AssetsWorkResult) -> (k: AssetsWorkKey)
    ensures
        k == spec_result_key(r),
{
    match r {
        AssetsWorkResult::HoboleaksMutators { .. } => AssetsWorkKey::HoboleaksMutators,
        AssetsWorkResult::AssetsPage { character_id, page, .. } => AssetsWorkKey::AssetsPage {
            character_id: *character_id,
            page: *page,
        },
        AssetsWorkResult::AssetsNames { character_id, page, .. } => AssetsWorkKey::AssetsNames {
            character_id: *character_id,
            page: *page,
        },
        AssetsWorkResult::Dynamic { item_id, .. } => AssetsWorkKey::Dynamic { item_id: *item_id },
        AssetsWorkResult::Type { type_id, .. } => AssetsWorkKey::Type { type_id: *type_id },
        AssetsWorkResult::MarketGroup { market_group_id, .. } => AssetsWorkKey::MarketGroup {
            market_group_id: *market_group_id,
        },
        AssetsWorkResult::Station { station_id, .. } => AssetsWorkKey::Station {
            station_id: *station_id,
        },
        AssetsWorkResult::DogmaAttribute { dogma_attribute_id, .. } => AssetsWorkKey::DogmaAttribute {
            dogma_attribute_id: *dogma_attribute_id,
        },
    }
}

/// The assets a page result carries.
pub open spec fn result_assets(r: &AssetsWorkResult) -> Seq<AssetItem> {
    match r {
        AssetsWorkResult::AssetsPage { assets, .. } => assets@,
        _ => Seq::<AssetItem>::empty(),
    }
}

/// The names a name-list result carries.
pub open spec fn result_names(r: &AssetsWorkResult) -> Seq<AssetName> {
    match r {
        AssetsWorkResult::AssetsNames { assets_names, .. } => assets_names@,
        _ => Seq::<AssetName>::empty(),
    }
}

/// Whether a name list mentions an item.
pub open spec fn names_contain(names: Seq<AssetName>, id: ItemId) -> bool {
    exists|j: int| 0 <= j < names.len() && (#[trigger] names[j]).item_id == id
}

/// The name the last mention of an item in a name list carries.
pub open spec fn last_name_of(names: Seq<AssetName>, id: ItemId) -> Seq<u8>
    decreases names.len(),
{
    if names.len() == 0 {
        Seq::<u8>::empty()
    } else if names.last().item_id == id {
        names.last().name@
    } else {
        last_name_of(names.drop_last(), id)
    }
}

/// The store holds, for this item, the value the list's last mention gave.
pub open spec fn name_stored(st: CharacterAssets, names: Seq<AssetName>, id: ItemId) -> bool {
    st.assets_names.spec_get(id) matches Some(nm) && nm@ == last_name_of(names, id)
}

/// Views of a produced work list.
pub open spec fn wt_views(s: Seq<AssetsWorkType>) -> Seq<crate::assets_work::AssetsWorkTypeV> {
    s.map_values(|w: AssetsWorkType| w@)
}

/// Views of surfaced references turned into work.
pub open spec fn refs_views(s: Seq<GetData>) -> Seq<crate::assets_work::AssetsWorkTypeV> {
    s.map_values(|g: GetData| crate::assets_work::spec_work_of_getdata(g))
}

/// The references a page of assets surfaces against `st`. Admitting an
/// asset only writes the asset table, so the reference checks of every
/// asset on the page read the same station, dynamic and type tables.
pub open spec fn page_refs(st: CharacterAssets, assets: Seq<AssetItem>) -> Seq<GetData>
    decreases assets.len(),
{
    if assets.len() == 0 {
        Seq::<GetData>::empty()
    } else {
        page_refs(st, assets.drop_last()) + crate::store::asset_implied_keys(st, assets.last())
    }
}

/// The page-fetch work for pages `2..=total` of one character.
pub open spec fn page_fanout(c: CharacterId, total: int) -> Seq<
    crate::assets_work::AssetsWorkTypeV,
>
    decreases total,
{
    if total < 2 {
        Seq::<crate::assets_work::AssetsWorkTypeV>::empty()
    } else {
        page_fanout(c, total - 1).push(
            crate::assets_work::AssetsWorkTypeV::GetAssetsPage { character_id: c, page: total as usize },
        )
    }
}

/// The work a page result produces: the surfaced references, then (from
/// the first page) the remaining pages, then this page's name lookup.
pub open spec fn page_produced(
    st: CharacterAssets,
    c: CharacterId,
    p: usize,
    total: usize,
    assets: Seq<AssetItem>,
) -> Seq<crate::assets_work::AssetsWorkTypeV> {
    refs_views(page_refs(st, assets)) + (if p == 1 {
        page_fanout(c, total as int)
    } else {
        Seq::<crate::assets_work::AssetsWorkTypeV>::empty()
    }) + seq![
        crate::assets_work::AssetsWorkTypeV::GetAssetsNames {
            item_ids: assets.map_values(|a: AssetItem| a.item_id),
            page: p,
            character_id: c,
        },
    ]
}

/// The fan-out holds one page fetch per remaining page.
pub proof fn lemma_page_fanout_len(c: CharacterId, total: int)
    ensures
        page_fanout(c, total).len() == if total < 2 {
            0int
        } else {
            total - 1
        },
    decreases total,
{
    if total >= 2 {
        lemma_page_fanout_len(c, total - 1);
    }
}

/// The fan-out's entry for page `q` is the fetch of page `q`.
pub proof fn lemma_page_fanout_index(c: CharacterId, total: int, q: int)
    requires
        2 <= q <= total,
    ensures
        0 <= q - 2 < page_fanout(c, total).len(),
        page_fanout(c, total)[q - 2] == (crate::assets_work::AssetsWorkTypeV::GetAssetsPage {
            character_id: c,
            page: q as usize,
        }),
    decreases total,
{
    lemma_page_fanout_len(c, total);
    if q == total {
        lemma_page_fanout_len(c, total - 1);
    } else {
        lemma_page_fanout_index(c, total - 1, q);
    }
}

/// The key is queued in the saga or already resolved.
pub open spec fn covered_key(saga: Saga, k: AssetsWorkKey) -> bool {
    saga.key_queued(k) || saga.is_resolved_spec(k)
}

/// After a page result is applied: from the first page, every remaining
/// page's fetch is covered, and so is this page's name lookup.
pub open spec fn pages_covered(saga: Saga, r: &AssetsWorkResult) -> bool {
    match r {
        AssetsWorkResult::AssetsPage { character_id, page, total_pages, .. } => {
            &&& (*page == 1 ==> forall|q: int|
                2 <= q <= *total_pages ==> #[trigger] covered_key(
                    saga,
                    (AssetsWorkKey::AssetsPage { character_id: *character_id, page: q as usize }),
                ))
            &&& covered_key(
                saga,
                (AssetsWorkKey::AssetsNames { character_id: *character_id, page: *page }),
            )
        },
        _ => true,
    }
}

/// The work fetches a type the store lacks.
pub open spec fn is_missing_type_work(
    st: CharacterAssets,
    v: crate::assets_work::AssetsWorkTypeV,
) -> bool {
    exists|t: TypeId|
        v == (crate::assets_work::AssetsWorkTypeV::GetType { type_id: t }) && !st.has_type(t)
}

/// What `handle` produces, per result class: the exact mapped reference
/// list for the single-entity classes, the page fan-out plus names work
/// for a page, nothing for a name list or a station or an attribute.
pub open spec fn produced_pinned(
    st: CharacterAssets,
    r: &AssetsWorkResult,
    out: Seq<AssetsWorkType>,
) -> bool {
    match r {
        AssetsWorkResult::AssetsPage { character_id, page, total_pages, assets } => wt_views(out)
            == page_produced(st, *character_id, *page, *total_pages, assets@),
        AssetsWorkResult::Type { item_type, .. } => wt_views(out) == refs_views(
            crate::store::type_implied_keys(st, *item_type),
        ),
        AssetsWorkResult::Dynamic { dynamic, .. } => wt_views(out) == refs_views(
            crate::store::dynamic_implied_keys(st, *dynamic),
        ),
        AssetsWorkResult::MarketGroup { market_group, .. } => wt_views(out) == refs_views(
            crate::store::group_member_keys(st, market_group.types@),
        ),
        AssetsWorkResult::Station { .. } => out.len() == 0,
        AssetsWorkResult::DogmaAttribute { .. } => out.len() == 0,
        AssetsWorkResult::AssetsNames { .. } => out.len() == 0,
        AssetsWorkResult::HoboleaksMutators { .. } => forall|j: int|
            0 <= j < out.len() ==> is_missing_type_work(st, (#[trigger] out[j])@),
    }
}

/// The references an asset surfaces depend only on the station, dynamic,
/// type and abyssal tables, which admissions of assets never touch.
proof fn lemma_implied_same(st1: CharacterAssets, st2: CharacterAssets, a: AssetItem)
    requires
        st1.stations == st2.stations,
        st1.dynamics == st2.dynamics,
        st1.types == st2.types,
        st1.abyssal_items == st2.abyssal_items,
    ensures
        crate::store::asset_implied_keys(st1, a) == crate::store::asset_implied_keys(st2, a),
{
}

/// The result's payload entity is held in the store, value for value.
pub open spec fn result_stored(st: CharacterAssets, r: &AssetsWorkResult) -> bool {
    match r {
        AssetsWorkResult::Station { station_id, station } => st.stations.spec_get(
            *station_id as i64,
        ) matches Some(s) && s@ == station@,
        AssetsWorkResult::Type { item_type, .. } => st.types.spec_get(item_type.type_id as i64)
            matches Some(t) && t@ == item_type@,
        AssetsWorkResult::MarketGroup { market_group, .. } => st.market_groups.spec_get(
            market_group.market_group_id as i64,
        ) matches Some(g) && g@ == market_group@,
        AssetsWorkResult::DogmaAttribute { dogma_attribute, .. } => st.dogma_attributes.spec_get(
            dogma_attribute.attribute_id as i64,
        ) matches Some(d) && d@ == dogma_attribute@,
        AssetsWorkResult::Dynamic { item_id, dynamic, .. } => st.dynamics.spec_get(*item_id)
            matches Some(d) && d@ == dynamic@,
        _ => true,
    }
}

/// The entity a key names is in the store; keys that name no entity
/// (pages, name lists, the catalogue) carry nothing to hold.
pub open spec fn key_present(st: CharacterAssets, k: AssetsWorkKey) -> bool {
    match k {
        AssetsWorkKey::Dynamic { item_id } => st.has_dynamic(item_id),
        AssetsWorkKey::MarketGroup { market_group_id } => st.has_group(market_group_id),
        AssetsWorkKey::Station { station_id } => st.has_station(station_id),
        AssetsWorkKey::Type { type_id } => st.has_type(type_id),
        AssetsWorkKey::DogmaAttribute { dogma_attribute_id } => st.has_dogma(dogma_attribute_id),
        _ => true,
    }
}

/// A reference is covered: its entity is present, or work for it is in
/// the covering key set.
pub open spec fn covered(st: CharacterAssets, ks: Set<AssetsWorkKey>, k: AssetsWorkKey) -> bool {
    key_present(st, k) || ks.contains(k)
}

/// What one held asset still needs.
pub open spec fn asset_ob(st: CharacterAssets, ks: Set<AssetsWorkKey>, a: AssetItem) -> bool {
    &&& (a.location_type@ == crate::bytes::station_label() ==> covered(
        st,
        ks,
        AssetsWorkKey::Station { station_id: a.location_id as StationId },
    ))
    &&& (st.spec_is_abyssal(a.type_id) ==> covered(
        st,
        ks,
        AssetsWorkKey::Dynamic { item_id: a.item_id },
    ))
    &&& (!st.spec_is_abyssal(a.type_id) ==> covered(
        st,
        ks,
        AssetsWorkKey::Type { type_id: a.type_id },
    ))
}

/// What one held dynamic still needs.
pub open spec fn dynamic_ob(st: CharacterAssets, ks: Set<AssetsWorkKey>, d: DynamicItem) -> bool {
    &&& covered(st, ks, AssetsWorkKey::Type { type_id: d.source_type_id })
    &&& forall|j: int|
        0 <= j < d.dogma_attributes@.len() ==> covered(
            st,
            ks,
            AssetsWorkKey::DogmaAttribute {
                dogma_attribute_id: (#[trigger] d.dogma_attributes@[j]).attribute_id,
            },
        )
}

/// What one held type still needs.
pub open spec fn type_ob(st: CharacterAssets, ks: Set<AssetsWorkKey>, t: ItemType) -> bool {
    match t.market_group_id {
        Some(g) => covered(st, ks, AssetsWorkKey::MarketGroup { market_group_id: g }),
        None => true,
    }
}

/// Every unresolved reference in the store is covered by `ks`.
pub open spec fn obligations_ok(st: CharacterAssets, ks: Set<AssetsWorkKey>) -> bool {
    &&& forall|i: int|
        0 <= i < st.assets.entries_seq().len() ==> asset_ob(
            st,
            ks,
            (#[trigger] st.assets.entries_seq()[i]).1,
        )
    &&& forall|i: int|
        0 <= i < st.dynamics.entries_seq().len() ==> dynamic_ob(
            st,
            ks,
            (#[trigger] st.dynamics.entries_seq()[i]).1,
        )
    &&& forall|i: int|
        0 <= i < st.types.entries_seq().len() ==> type_ob(
            st,
            ks,
            (#[trigger] st.types.entries_seq()[i]).1,
        )
}

/// The keys the saga still has queued.
pub open spec fn queued_set(saga: Saga) -> Set<AssetsWorkKey> {
    Set::new(|k: AssetsWorkKey| saga.key_queued(k))
}

/// The saga invariant: every unresolved reference has its work queued,
/// and everything resolved has been admitted to the store.
pub open spec fn closure_inv(st: CharacterAssets, saga: Saga) -> bool {
    &&& obligations_ok(st, queued_set(saga))
    &&& forall|i: int|
        0 <= i < saga.resolved_seq().len() ==> key_present(st, #[trigger] saga.resolved_seq()[i])
}

/// Presence never shrinks between two stores.
pub open spec fn presence_mono(st1: CharacterAssets, st2: CharacterAssets) -> bool {
    forall|k: AssetsWorkKey| #[trigger] key_present(st1, k) ==> key_present(st2, k)
}

/// Weaken the covering key set: anything covered by `k1` is present or
/// covered by `k2`.
pub proof fn lemma_obligations_weaken(
    st: CharacterAssets,
    k1: Set<AssetsWorkKey>,
    k2: Set<AssetsWorkKey>,
)
    requires
        obligations_ok(st, k1),
        forall|k: AssetsWorkKey|
            k1.contains(k) ==> key_present(st, k) || #[trigger] k2.contains(k),
    ensures
        obligations_ok(st, k2),
{
    assert forall|i: int|
        0 <= i < st.assets.entries_seq().len() implies asset_ob(
        st,
        k2,
        (#[trigger] st.assets.entries_seq()[i]).1,
    ) by {
        assert(asset_ob(st, k1, st.assets.entries_seq()[i].1));
    }
    assert forall|i: int|
        0 <= i < st.dynamics.entries_seq().len() implies dynamic_ob(
        st,
        k2,
        (#[trigger] st.dynamics.entries_seq()[i]).1,
    ) by {
        let d = st.dynamics.entries_seq()[i].1;
        assert(dynamic_ob(st, k1, d));
        assert forall|j: int|
            0 <= j < d.dogma_attributes@.len() implies covered(
            st,
            k2,
            AssetsWorkKey::DogmaAttribute {
                dogma_attribute_id: (#[trigger] d.dogma_attributes@[j]).attribute_id,
            },
        ) by {
            assert(covered(
                st,
                k1,
                AssetsWorkKey::DogmaAttribute {
                    dogma_attribute_id: d.dogma_attributes@[j].attribute_id,
                },
            ));
        }
    }
    assert forall|i: int|
        0 <= i < st.types.entries_seq().len() implies type_ob(
        st,
        k2,
        (#[trigger] st.types.entries_seq()[i]).1,
    ) by {
        assert(type_ob(st, k1, st.types.entries_seq()[i].1));
    }
}

/// Saga closure: once the pending and in-flight sets are both empty,
/// every reference the store's entities make is present — the
/// dependency graph is closed.
pub proof fn lemma_saga_closure(st: CharacterAssets, saga: Saga)
    requires
        closure_inv(st, saga),
        saga.pending_seq().len() == 0,
        saga.in_flight_seq().len() == 0,
    ensures
        spec_all_resolved(st),
{
    assert forall|k: AssetsWorkKey| !saga.key_queued(k) by {
        if saga.in_pending(k) {
            let i = choose|i: int|
                0 <= i < saga.pending_seq().len() && (
                #[trigger] saga.pending_seq()[i]).work_resolution_key == k;
            assert(false);
        }
        if saga.in_flight(k) {
            let i = choose|i: int|
                0 <= i < saga.in_flight_seq().len() && (
                #[trigger] saga.in_flight_seq()[i]).work_resolution_key == k;
            assert(false);
        }
    }
    let ks = queued_set(saga);
    assert forall|k: AssetsWorkKey| covered(st, ks, k) implies key_present(st, k) by {
        assert(!ks.contains(k));
    }
    assert forall|i: int|
        0 <= i < st.assets.entries_seq().len() implies crate::store::asset_resolved(
        st,
        (#[trigger] st.assets.entries_seq()[i]).1,
    ) by {
        let a = st.assets.entries_seq()[i].1;
        assert(asset_ob(st, ks, a));
        if st.spec_is_abyssal(a.type_id) {
            assert(covered(st, ks, AssetsWorkKey::Dynamic { item_id: a.item_id }));
            assert(st.has_dynamic(a.item_id));
            let d = st.dynamics.spec_get(a.item_id).unwrap();
            lemma_get_some_index(st.dynamics.entries_seq(), a.item_id);
            let di = choose|di: int|
                0 <= di < st.dynamics.entries_seq().len() && (
                #[trigger] st.dynamics.entries_seq()[di]).0 == a.item_id
                    && st.dynamics.entries_seq()[di].1 == d;
            assert(dynamic_ob(st, ks, d));
            assert(covered(st, ks, AssetsWorkKey::Type { type_id: d.source_type_id }));
            assert(st.has_type(d.source_type_id));
            let t = st.types.spec_get(d.source_type_id as i64).unwrap();
            lemma_get_some_index(st.types.entries_seq(), d.source_type_id as i64);
            let ti = choose|ti: int|
                0 <= ti < st.types.entries_seq().len() && (
                #[trigger] st.types.entries_seq()[ti]).0 == d.source_type_id as i64
                    && st.types.entries_seq()[ti].1 == t;
            assert(type_ob(st, ks, t));
        } else {
            assert(covered(st, ks, AssetsWorkKey::Type { type_id: a.type_id }));
            assert(st.has_type(a.type_id));
            let t = st.types.spec_get(a.type_id as i64).unwrap();
            lemma_get_some_index(st.types.entries_seq(), a.type_id as i64);
            let ti = choose|ti: int|
                0 <= ti < st.types.entries_seq().len() && (
                #[trigger] st.types.entries_seq()[ti]).0 == a.type_id as i64
                    && st.types.entries_seq()[ti].1 == t;
            assert(type_ob(st, ks, t));
        }
    }
    assert forall|i: int|
        0 <= i < st.dynamics.entries_seq().len() implies crate::store::dynamic_resolved(
        st,
        (#[trigger] st.dynamics.entries_seq()[i]).1,
    ) by {
        let d = st.dynamics.entries_seq()[i].1;
        assert(dynamic_ob(st, ks, d));
        assert forall|j: int|
            0 <= j < d.dogma_attributes@.len() implies st.has_dogma(
            (#[trigger] d.dogma_attributes@[j]).attribute_id,
        ) by {
            assert(covered(
                st,
                ks,
                AssetsWorkKey::DogmaAttribute {
                    dogma_attribute_id: d.dogma_attributes@[j].attribute_id,
                },
            ));
        }
    }
}

/// On a store without assets, dynamics or types there is nothing to
/// cover: the invariant holds for any saga whose resolved keys are all
/// present (in particular a fresh saga).
pub proof fn lemma_closure_inv_initial(st: CharacterAssets, saga: Saga)
    requires
        st.assets.entries_seq().len() == 0,
        st.dynamics.entries_seq().len() == 0,
        st.types.entries_seq().len() == 0,
        saga.resolved_seq().len() == 0,
    ensures
        closure_inv(st, saga),
{
}

/// The dedup keys of a produced work list.
pub open spec fn produced_keys(ws: Seq<AssetsWorkType>) -> Set<AssetsWorkKey> {
    Set::new(
        |k: AssetsWorkKey|
            exists|j: int| 0 <= j < ws.len() && spec_key_of((#[trigger] ws[j])@) == k,
    )
}

/// Turn surfaced references into work, keeping the order.
pub fn map_get_data(r: &Vec<GetData>) -> (out: Vec<AssetsWorkType>)
    ensures
        out@.len() == r@.len(),
        forall|j: int|
            0 <= j < r@.len() ==> (#[trigger] out@[j])@ == crate::assets_work::spec_work_of_getdata(
                r@[j],
            ),
{
    let mut out: Vec<AssetsWorkType> = Vec::new();
    let n = r.len();
    let mut i: usize = 0;
    while i < n
        invariant
            n == r@.len(),
            i <= n,
            out@.len() == i,
            forall|j: int|
                0 <= j < i ==> (#[trigger] out@[j])@ == crate::assets_work::spec_work_of_getdata(
                    r@[j],
                ),
        decreases n - i,
    {
        let w = get_data_to_work_type(&r[i]);
        out.push(w);
        i = i + 1;
    }
    out
}

/// The produced keys of mapped references cover every reference.
pub proof fn lemma_mapped_keys(r: Seq<GetData>, out: Seq<AssetsWorkType>, g: GetData)
    requires
        out.len() == r.len(),
        forall|j: int|
            0 <= j < r.len() ==> (#[trigger] out[j])@ == crate::assets_work::spec_work_of_getdata(
                r[j],
            ),
        r.contains(g),
    ensures
        produced_keys(out).contains(spec_key_of_getdata(g)),
{
    let j = choose|j: int| 0 <= j < r.len() && r[j] == g;
    assert(spec_key_of((out[j])@) == spec_key_of_getdata(g));
}

/// Transfer the obligations between stores whose asset, dynamic and type
/// tables and abyssal set agree, when presence only grew.
pub proof fn lemma_obligations_transfer(
    st1: CharacterAssets,
    st2: CharacterAssets,
    k1: Set<AssetsWorkKey>,
    k2: Set<AssetsWorkKey>,
)
    requires
        obligations_ok(st1, k1),
        presence_mono(st1, st2),
        forall|k: AssetsWorkKey| k1.contains(k) ==> #[trigger] k2.contains(k),
        st2.assets.entries_seq() == st1.assets.entries_seq(),
        st2.dynamics.entries_seq() == st1.dynamics.entries_seq(),
        st2.types.entries_seq() == st1.types.entries_seq(),
        st2.abyssal_items == st1.abyssal_items,
    ensures
        obligations_ok(st2, k2),
{
    assert forall|i: int|
        0 <= i < st2.assets.entries_seq().len() implies asset_ob(
        st2,
        k2,
        (#[trigger] st2.assets.entries_seq()[i]).1,
    ) by {
        let a = st2.assets.entries_seq()[i].1;
        assert(st1.assets.entries_seq()[i].1 == a);
        assert(asset_ob(st1, k1, a));
        assert(st2.spec_is_abyssal(a.type_id) == st1.spec_is_abyssal(a.type_id));
    }
    assert forall|i: int|
        0 <= i < st2.dynamics.entries_seq().len() implies dynamic_ob(
        st2,
        k2,
        (#[trigger] st2.dynamics.entries_seq()[i]).1,
    ) by {
        let d = st2.dynamics.entries_seq()[i].1;
        assert(st1.dynamics.entries_seq()[i].1 == d);
        assert(dynamic_ob(st1, k1, d));
        assert forall|j: int|
            0 <= j < d.dogma_attributes@.len() implies covered(
            st2,
            k2,
            AssetsWorkKey::DogmaAttribute {
                dogma_attribute_id: (#[trigger] d.dogma_attributes@[j]).attribute_id,
            },
        ) by {
            assert(covered(
                st1,
                k1,
                AssetsWorkKey::DogmaAttribute {
                    dogma_attribute_id: d.dogma_attributes@[j].attribute_id,
                },
            ));
        }
    }
    assert forall|i: int|
        0 <= i < st2.types.entries_seq().len() implies type_ob(
        st2,
        k2,
        (#[trigger] st2.types.entries_seq()[i]).1,
    ) by {
        let t = st2.types.entries_seq()[i].1;
        assert(st1.types.entries_seq()[i].1 == t);
        assert(type_ob(st1, k1, t));
    }
}

/// Every dogma attribute a dynamic references and the store lacks is in
/// the surfaced key list.
pub proof fn lemma_missing_attr_complete(
    st: CharacterAssets,
    attrs: Seq<crate::types::DogmaAttributeConcise>,
    j: int,
)
    requires
        0 <= j < attrs.len(),
        !st.has_dogma(attrs[j].attribute_id),
    ensures
        crate::store::missing_attr_keys(st, attrs).contains(
            GetData::DogmaAttribute(attrs[j].attribute_id),
        ),
    decreases attrs.len(),
{
    let full = crate::store::missing_attr_keys(st, attrs);
    if j == attrs.len() - 1 {
        assert(attrs.last() == attrs[j]);
        assert(full.last() == GetData::DogmaAttribute(attrs[j].attribute_id));
        assert(full[full.len() - 1] == GetData::DogmaAttribute(attrs[j].attribute_id));
    } else {
        assert(attrs.drop_last()[j] == attrs[j]);
        lemma_missing_attr_complete(st, attrs.drop_last(), j);
        let pre = crate::store::missing_attr_keys(st, attrs.drop_last());
        let i = choose|i: int|
            0 <= i < pre.len() && pre[i] == GetData::DogmaAttribute(attrs[j].attribute_id);
        assert(full[i] == pre[i]);
    }
}

/// The strategy of the assets saga: key derivation, the initial work of
/// an event, where each work class looks for its data, and how results
/// are applied.
pub struct AssetsSagaProcessor;

impl AssetsSagaProcessor {
    /// Collapse a payload to its dedup key.
    pub fn to_resolution_key(work_type: &AssetsWorkType) -> (r: AssetsWorkKey)
        ensures
            r == spec_key_of(work_type@),
    {
        crate::assets_work::to_resolution_key(work_type)
    }

    /// A new character seeds the mutator catalogue and the first asset
    /// page.
    pub fn handle_initial_event(event: AssetsInitialEvent) -> (r: Vec<AssetsWorkType>)
        ensures
            r@.len() == 2,
            r@[0]@ == crate::assets_work::AssetsWorkTypeV::GetHoboleaksMutators,
            r@[1]@ == (crate::assets_work::AssetsWorkTypeV::GetAssetsPage {
                character_id: event.character_id,
                page: 1,
            }),
    {
        let mut r: Vec<AssetsWorkType> = Vec::new();
        r.push(AssetsWorkType::GetHoboleaksMutators);
        r.push(AssetsWorkType::GetAssetsPage { character_id: event.character_id, page: 1 });
        r
    }

    /// Where a work class is looked up before the network: dynamics have
    /// a local cache; types, market groups and dogma attributes sit in
    /// the static data; the rest is remote only.
    pub fn data_source(work: &AssetsWorkType) -> (r: DataSource)
        ensures
            r == (match work@ {
                crate::assets_work::AssetsWorkTypeV::GetDynamic { .. } => DataSource::DynamicsCache,
                crate::assets_work::AssetsWorkTypeV::GetType { .. } => DataSource::StaticData,
                crate::assets_work::AssetsWorkTypeV::GetMarketGroup { .. } => DataSource::StaticData,
                crate::assets_work::AssetsWorkTypeV::GetDogmaAttribute { .. } => DataSource::StaticData,
                _ => DataSource::Remote,
            }),
    {
        match work {
            AssetsWorkType::GetDynamic { .. } => DataSource::DynamicsCache,
            AssetsWorkType::GetType { .. } => DataSource::StaticData,
            AssetsWorkType::GetMarketGroup { .. } => DataSource::StaticData,
            AssetsWorkType::GetDogmaAttribute { .. } => DataSource::StaticData,
            _ => DataSource::Remote,
        }
    }

    /// Apply one result to the store and return the newly needed work:
    /// the references the admissions surfaced, plus, for the first asset
    /// page, the remaining pages and this page's name lookup.
    pub fn handle(
        store: &mut CharacterAssets,
        work_result: AssetsWorkResult,
        Ghost(base): Ghost<Set<AssetsWorkKey>>,
    ) -> (r: Vec<AssetsWorkType>)
        requires
            old(store).wf(),
            obligations_ok(*old(store), base),
            result_bounded(&work_result),
            result_coherent(&work_result),
        ensures
            final(store).wf(),
            presence_mono(*old(store), *final(store)),
            final(store).abyssal_items == old(store).abyssal_items,
            obligations_ok(*final(store), base.union(produced_keys(r@))),
            key_present(*final(store), spec_result_key(&work_result)),
            result_stored(*final(store), &work_result),
            produced_pinned(*old(store), &work_result, r@),
            forall|j: int|
                0 <= j < result_assets(&work_result).len() ==> final(store).assets.contains_key(
                    (#[trigger] result_assets(&work_result)[j]).item_id,
                ),
            forall|j: int|
                0 <= j < result_names(&work_result).len() ==> final(store).assets_names.contains_key((#[trigger] result_names(&work_result)[j]).item_id),
            forall|id: ItemId|
                names_contain(result_names(&work_result), id) ==> #[trigger] name_stored(
                    *final(store),
                    result_names(&work_result),
                    id,
                ),
            forall|id: ItemId|
                !names_contain(result_names(&work_result), id)
                    ==> #[trigger] final(store).assets_names.spec_get(id) == old(
                    store,
                ).assets_names.spec_get(id),
    {
        let ghost st0 = *store;
        match work_result {
            AssetsWorkResult::Station { station_id, station } => {
                let keys = store.add_station(station_id, station);
                let out = map_get_data(&keys);
                proof {
                    assert(out@.len() == 0);
                    assert(spec_result_key(&work_result) == (AssetsWorkKey::Station {
                        station_id,
                    }));
                    assert(store.has_station(station_id));
                    assert(presence_mono(st0, *store)) by {
                        assert forall|k: AssetsWorkKey| #[trigger] key_present(st0, k)
                            implies key_present(*store, k) by {}
                    }
                    lemma_obligations_transfer(st0, *store, base, base.union(produced_keys(out@)));
                }
                out
            }
            AssetsWorkResult::DogmaAttribute { dogma_attribute_id, dogma_attribute } => {
                let ghost da = dogma_attribute.attribute_id;
                let keys = store.add_dogma_attribute(dogma_attribute);
                let out = map_get_data(&keys);
                proof {
                    assert(out@.len() == 0);
                    assert(store.has_dogma(da));
                    assert(spec_result_key(&work_result) == (AssetsWorkKey::DogmaAttribute {
                        dogma_attribute_id,
                    }));
                    assert(presence_mono(st0, *store)) by {
                        assert forall|k: AssetsWorkKey| #[trigger] key_present(st0, k)
                            implies key_present(*store, k) by {}
                    }
                    lemma_obligations_transfer(st0, *store, base, base.union(produced_keys(out@)));
                }
                out
            }
            AssetsWorkResult::AssetsNames { character_id: _, page: _, assets_names } => {
                let mut names = assets_names;
                let ghost names0 = names@;
                let n = names.len();
                let mut i: usize = 0;
                while i < n
                    invariant
                        store.wf(),
                        st0.wf(),
                        n == names0.len(),
                        n == names@.len() + i,
                        forall|j: int| 0 <= j < names@.len() ==> #[trigger] names@[j] == names0[j + i],
                        forall|j: int|
                            0 <= j < i ==> store.assets_names.contains_key(
                                (#[trigger] names0[j]).item_id,
                            ),
                        forall|id: ItemId|
                            names_contain(names0.subrange(0, i as int), id)
                                ==> #[trigger] name_stored(
                                *store,
                                names0.subrange(0, i as int),
                                id,
                            ),
                        forall|id: ItemId|
                            !names_contain(names0.subrange(0, i as int), id)
                                ==> #[trigger] store.assets_names.spec_get(id)
                                == st0.assets_names.spec_get(id),
                        i <= n,
                        store.assets == st0.assets,
                        store.dynamics == st0.dynamics,
                        store.types == st0.types,
                        store.stations == st0.stations,
                        store.market_groups == st0.market_groups,
                        store.dogma_attributes == st0.dogma_attributes,
                        store.abyssal_items == st0.abyssal_items,
                        store.mutaplasmid_effects == st0.mutaplasmid_effects,
                    decreases n - i,
                {
                    proof {
                        assert(names@[0] == names0[i as int]);
                    }
                    let an = names.remove(0);
                    let ghost stp = *store;
                    let ghost anv = an;
                    let _ = store.add_asset_name(an.item_id, an.name);
                    proof {
                        let subi = names0.subrange(0, i as int);
                        let sub1 = names0.subrange(0, i + 1);
                        assert(sub1.drop_last() =~= subi);
                        assert(sub1.last() == anv);
                        assert forall|id: ItemId|
                            names_contain(sub1, id) implies #[trigger] name_stored(
                            *store,
                            sub1,
                            id,
                        ) by {
                            if id == anv.item_id {
                                assert(last_name_of(sub1, id) == anv.name@);
                            } else {
                                let j = choose|j: int|
                                    0 <= j < sub1.len() && (#[trigger] sub1[j]).item_id == id;
                                assert(subi[j] == sub1[j]);
                                assert(names_contain(subi, id));
                                assert(name_stored(stp, subi, id));
                                assert(last_name_of(sub1, id) == last_name_of(subi, id));
                                assert(store.assets_names.spec_get(id)
                                    == stp.assets_names.spec_get(id));
                            }
                        }
                        assert forall|id: ItemId|
                            !names_contain(sub1, id) implies #[trigger] store.assets_names.spec_get(
                            id,
                        ) == st0.assets_names.spec_get(id) by {
                            assert forall|j: int| 0 <= j < subi.len() implies (
                            #[trigger] subi[j]).item_id != id by {
                                assert(sub1[j] == subi[j]);
                            }
                            assert(!names_contain(subi, id));
                            assert(stp.assets_names.spec_get(id) == st0.assets_names.spec_get(id));
                            assert(id != anv.item_id) by {
                                if id == anv.item_id {
                                    assert(sub1[i as int].item_id == id);
                                }
                            }
                        }
                    }
                    i = i + 1;
                }
                let out: Vec<AssetsWorkType> = Vec::new();
                proof {
                    assert(out@.len() == 0);
                    assert(names0.subrange(0, n as int) =~= names0);
                    assert(names0 == result_names(&work_result));
                    assert(presence_mono(st0, *store)) by {
                        assert forall|k: AssetsWorkKey| #[trigger] key_present(st0, k)
                            implies key_present(*store, k) by {}
                    }
                    lemma_obligations_transfer(st0, *store, base, base.union(produced_keys(out@)));
                }
                out
            }
            AssetsWorkResult::Type { type_id, item_type } => {
                let ghost t = item_type;
                let keys = store.add_type(item_type);
                let out = map_get_data(&keys);
                proof {
                    let st2 = *store;
                    let k2 = base.union(produced_keys(out@));
                    assert(wt_views(out@) =~= refs_views(keys@));
                    assert(spec_result_key(&work_result) == (AssetsWorkKey::Type { type_id }));
                    assert(st2.has_type(t.type_id));
                    assert(presence_mono(st0, st2)) by {
                        assert forall|k: AssetsWorkKey| #[trigger] key_present(st0, k)
                            implies key_present(st2, k) by {}
                    }
                    // the admitted type's own obligation
                    assert(type_ob(st2, k2, t)) by {
                        match t.market_group_id {
                            Some(g) => {
                                if !st0.has_group(g) {
                                    assert(keys@ == crate::store::type_implied_keys(st0, t));
                                    assert(keys@[0] == GetData::MarketGroup(g));
                                    lemma_mapped_keys(keys@, out@, GetData::MarketGroup(g));
                                }
                            }
                            None => {}
                        }
                    }
                    assert(obligations_ok(st2, k2)) by {
                        assert forall|i: int|
                            0 <= i < st2.assets.entries_seq().len() implies asset_ob(
                            st2,
                            k2,
                            (#[trigger] st2.assets.entries_seq()[i]).1,
                        ) by {
                            let a = st2.assets.entries_seq()[i].1;
                            assert(asset_ob(st0, base, a));
                        }
                        assert forall|i: int|
                            0 <= i < st2.dynamics.entries_seq().len() implies dynamic_ob(
                            st2,
                            k2,
                            (#[trigger] st2.dynamics.entries_seq()[i]).1,
                        ) by {
                            let d = st2.dynamics.entries_seq()[i].1;
                            assert(dynamic_ob(st0, base, d));
                            assert forall|j: int|
                                0 <= j < d.dogma_attributes@.len() implies covered(
                                st2,
                                k2,
                                AssetsWorkKey::DogmaAttribute {
                                    dogma_attribute_id: (
                                    #[trigger] d.dogma_attributes@[j]).attribute_id,
                                },
                            ) by {
                                assert(covered(
                                    st0,
                                    base,
                                    AssetsWorkKey::DogmaAttribute {
                                        dogma_attribute_id: d.dogma_attributes@[j].attribute_id,
                                    },
                                ));
                            }
                        }
                        assert forall|i: int|
                            0 <= i < st2.types.entries_seq().len() implies type_ob(
                            st2,
                            k2,
                            (#[trigger] st2.types.entries_seq()[i]).1,
                        ) by {
                            let e = st2.types.entries_seq()[i];
                            if !st0.types.contains_key(t.type_id as i64) {
                                assert(st2.types.entries_seq() == st0.types.entries_seq().push(
                                    (t.type_id as i64, t),
                                ));
                                if i < st0.types.entries_seq().len() {
                                    assert(e == st0.types.entries_seq()[i]);
                                    assert(type_ob(st0, base, e.1));
                                } else {
                                    assert(e.1 == t);
                                }
                            } else {
                                let iu = choose|iu: int|
                                    0 <= iu < st0.types.entries_seq().len() && (
                                    #[trigger] st0.types.entries_seq()[iu]).0 == t.type_id as i64
                                        && st2.types.entries_seq()
                                        == st0.types.entries_seq().update(iu, (t.type_id as i64, t));
                                if i == iu {
                                    assert(e.1 == t);
                                } else {
                                    assert(e == st0.types.entries_seq()[i]);
                                    assert(type_ob(st0, base, e.1));
                                }
                            }
                        }
                    }
                }
                out
            }
            AssetsWorkResult::Dynamic { type_id, item_id, dynamic } => {
                let ghost d = dynamic;
                let keys = store.add_dynamic(type_id, item_id, dynamic);
                let out = map_get_data(&keys);
                proof {
                    let st2 = *store;
                    let k2 = base.union(produced_keys(out@));
                    assert(wt_views(out@) =~= refs_views(keys@));
                    assert(spec_result_key(&work_result) == (AssetsWorkKey::Dynamic { item_id }));
                    assert(st2.has_dynamic(item_id));
                    assert(presence_mono(st0, st2)) by {
                        assert forall|k: AssetsWorkKey| #[trigger] key_present(st0, k)
                            implies key_present(st2, k) by {}
                    }
                    assert(keys@ == crate::store::dynamic_implied_keys(st0, d));
                    let ma = crate::store::missing_attr_keys(st0, d.dogma_attributes@);
                    // the admitted dynamic's own obligations
                    assert(dynamic_ob(st2, k2, d)) by {
                        if !st0.has_type(d.source_type_id) {
                            assert(keys@[ma.len() as int] == GetData::Type(d.source_type_id));
                            lemma_mapped_keys(keys@, out@, GetData::Type(d.source_type_id));
                        }
                        assert forall|j: int|
                            0 <= j < d.dogma_attributes@.len() implies covered(
                            st2,
                            k2,
                            AssetsWorkKey::DogmaAttribute {
                                dogma_attribute_id: (
                                #[trigger] d.dogma_attributes@[j]).attribute_id,
                            },
                        ) by {
                            if !st0.has_dogma(d.dogma_attributes@[j].attribute_id) {
                                lemma_missing_attr_complete(st0, d.dogma_attributes@, j);
                                let gi = choose|gi: int|
                                    0 <= gi < ma.len() && ma[gi] == GetData::DogmaAttribute(
                                        d.dogma_attributes@[j].attribute_id,
                                    );
                                assert(keys@[gi] == ma[gi]);
                                lemma_mapped_keys(
                                    keys@,
                                    out@,
                                    GetData::DogmaAttribute(d.dogma_attributes@[j].attribute_id),
                                );
                            }
                        }
                    }
                    assert(obligations_ok(st2, k2)) by {
                        assert forall|i: int|
                            0 <= i < st2.assets.entries_seq().len() implies asset_ob(
                            st2,
                            k2,
                            (#[trigger] st2.assets.entries_seq()[i]).1,
                        ) by {
                            let a = st2.assets.entries_seq()[i].1;
                            assert(asset_ob(st0, base, a));
                        }
                        assert forall|i: int|
                            0 <= i < st2.types.entries_seq().len() implies type_ob(
                            st2,
                            k2,
                            (#[trigger] st2.types.entries_seq()[i]).1,
                        ) by {
                            let t = st2.types.entries_seq()[i].1;
                            assert(type_ob(st0, base, t));
                        }
                        assert forall|i: int|
                            0 <= i < st2.dynamics.entries_seq().len() implies dynamic_ob(
                            st2,
                            k2,
                            (#[trigger] st2.dynamics.entries_seq()[i]).1,
                        ) by {
                            let e = st2.dynamics.entries_seq()[i];
                            if !st0.dynamics.contains_key(item_id) {
                                assert(st2.dynamics.entries_seq()
                                    == st0.dynamics.entries_seq().push((item_id, d)));
                                if i < st0.dynamics.entries_seq().len() {
                                    assert(e == st0.dynamics.entries_seq()[i]);
                                    lemma_dynamic_ob_transfer(st0, st2, base, k2, e.1);
                                } else {
                                    assert(e.1 == d);
                                }
                            } else {
                                let iu = choose|iu: int|
                                    0 <= iu < st0.dynamics.entries_seq().len() && (
                                    #[trigger] st0.dynamics.entries_seq()[iu]).0 == item_id
                                        && st2.dynamics.entries_seq()
                                        == st0.dynamics.entries_seq().update(iu, (item_id, d));
                                if i == iu {
                                    assert(e.1 == d);
                                } else {
                                    assert(e == st0.dynamics.entries_seq()[i]);
                                    lemma_dynamic_ob_transfer(st0, st2, base, k2, e.1);
                                }
                            }
                        }
                    }
                }
                out
            }
            AssetsWorkResult::MarketGroup { market_group_id, market_group } => {
                let ghost gid = market_group.market_group_id;
                let keys = store.add_market_group(market_group);
                let out = map_get_data(&keys);
                proof {
                    assert(wt_views(out@) =~= refs_views(keys@));
                    assert(spec_result_key(&work_result) == (AssetsWorkKey::MarketGroup {
                        market_group_id,
                    }));
                    assert(store.has_group(gid));
                    assert(presence_mono(st0, *store)) by {
                        assert forall|k: AssetsWorkKey| #[trigger] key_present(st0, k)
                            implies key_present(*store, k) by {}
                    }
                    lemma_obligations_transfer(st0, *store, base, base.union(produced_keys(out@)));
                }
                out
            }
            AssetsWorkResult::HoboleaksMutators { data } => {
                let mut entries = data;
                let mut out: Vec<AssetsWorkType> = Vec::new();
                let n = entries.len();
                let mut i: usize = 0;
                while i < n
                    invariant
                        store.wf(),
                        st0.wf(),
                        n == entries@.len() + i,
                        i <= n,
                        store.assets == st0.assets,
                        store.assets_names == st0.assets_names,
                        store.dynamics == st0.dynamics,
                        store.types == st0.types,
                        store.stations == st0.stations,
                        store.market_groups == st0.market_groups,
                        store.dogma_attributes == st0.dogma_attributes,
                        store.dogma_attributes_name_to_id == st0.dogma_attributes_name_to_id,
                        store.abyssal_items == st0.abyssal_items,
                        store.assets_names == st0.assets_names,
                        forall|j: int|
                            0 <= j < out@.len() ==> is_missing_type_work(
                                st0,
                                (#[trigger] out@[j])@,
                            ),
                    decreases n - i,
                {
                    let entry = entries.remove(0);
                    let mutator_type_id = entry.0;
                    let effects = entry.1;
                    let mut attributes: Vec<(DogmaAttributeId, i64, i64)> = Vec::new();
                    let mut io: Vec<(TypeId, Vec<TypeId>)> = Vec::new();
                    let mut rs = effects.attribute_ranges;
                    let na = rs.len();
                    let mut a: usize = 0;
                    while a < na
                        invariant
                            na == rs@.len() + a,
                            a <= na,
                        decreases na - a,
                    {
                        let e = rs.remove(0);
                        attributes.push((e.0, e.1.min, e.1.max));
                        a = a + 1;
                    }
                    let mut ms = effects.input_output_mapping;
                    let nm = ms.len();
                    let mut m: usize = 0;
                    while m < nm
                        invariant
                            nm == ms@.len() + m,
                            m <= nm,
                        decreases nm - m,
                    {
                        let row = ms.remove(0);
                        io.push((row.resulting_type, row.applicable_types));
                        m = m + 1;
                    }
                    let ghost stp = *store;
                    let keys = store.add_mutaplasmid_effects(mutator_type_id, attributes, io);
                    let more = map_get_data(&keys);
                    proof {
                        assert forall|j: int|
                            0 <= j < more@.len() implies is_missing_type_work(
                            st0,
                            (#[trigger] more@[j])@,
                        ) by {
                            assert(keys@.contains(keys@[j]));
                            let t = choose|t: TypeId|
                                keys@[j] == GetData::Type(t) && crate::store::io_mentions(
                                    crate::store::io_view(io@),
                                    t,
                                ) && !stp.has_type(t);
                            assert(more@[j]@ == (crate::assets_work::AssetsWorkTypeV::GetType {
                                type_id: t,
                            }));
                            assert(!st0.has_type(t));
                        }
                    }
                    let mut mm = more;
                    let ghost morev = mm@;
                    let nk = mm.len();
                    let mut k: usize = 0;
                    while k < nk
                        invariant
                            nk == mm@.len() + k,
                            nk == morev.len(),
                            k <= nk,
                            forall|jj: int|
                                0 <= jj < mm@.len() ==> #[trigger] mm@[jj] == morev[jj + k],
                            forall|j: int|
                                0 <= j < morev.len() ==> is_missing_type_work(
                                    st0,
                                    (#[trigger] morev[j])@,
                                ),
                            forall|j: int|
                                0 <= j < out@.len() ==> is_missing_type_work(
                                    st0,
                                    (#[trigger] out@[j])@,
                                ),
                        decreases nk - k,
                    {
                        proof {
                            assert(mm@[0] == morev[k as int]);
                        }
                        let ghost out0 = out@;
                        out.push(mm.remove(0));
                        proof {
                            assert forall|j: int|
                                0 <= j < out@.len() implies is_missing_type_work(
                                st0,
                                (#[trigger] out@[j])@,
                            ) by {
                                if j < out0.len() {
                                    assert(out@[j] == out0[j]);
                                } else {
                                    assert(out@[j] == morev[k as int]);
                                }
                            }
                        }
                        k = k + 1;
                    }
                    i = i + 1;
                }
                proof {
                    assert(presence_mono(st0, *store)) by {
                        assert forall|k: AssetsWorkKey| #[trigger] key_present(st0, k)
                            implies key_present(*store, k) by {}
                    }
                    lemma_obligations_transfer(st0, *store, base, base.union(produced_keys(out@)));
                }
                out
            }
            AssetsWorkResult::AssetsPage { character_id, page, total_pages, assets } => {
                let mut out: Vec<AssetsWorkType> = Vec::new();
                let mut item_ids: Vec<ItemId> = Vec::new();
                let mut rest = assets;
                let ghost assets0 = rest@;
                proof {
                    assert(assets0.subrange(0, 0) =~= Seq::<AssetItem>::empty());
                    assert(wt_views(out@) =~= refs_views(page_refs(st0, assets0.subrange(0, 0))));
                    assert(item_ids@ =~= assets0.subrange(0, 0).map_values(
                        (|a: AssetItem| a.item_id),
                    ));
                }
                let n = rest.len();
                let mut i: usize = 0;
                while i < n
                    invariant
                        store.wf(),
                        st0.wf(),
                        obligations_ok(st0, base),
                        n == assets0.len(),
                        n == rest@.len() + i,
                        forall|j: int| 0 <= j < rest@.len() ==> #[trigger] rest@[j] == assets0[j + i],
                        forall|j: int|
                            0 <= j < i ==> store.assets.contains_key(
                                (#[trigger] assets0[j]).item_id,
                            ),
                        i <= n,
                        presence_mono(st0, *store),
                        store.stations == st0.stations,
                        store.dynamics == st0.dynamics,
                        store.types == st0.types,
                        store.abyssal_items == st0.abyssal_items,
                        store.assets_names == st0.assets_names,
                        obligations_ok(*store, base.union(produced_keys(out@))),
                        wt_views(out@) == refs_views(
                            page_refs(st0, assets0.subrange(0, i as int)),
                        ),
                        item_ids@ == assets0.subrange(0, i as int).map_values(
                            (|a: AssetItem| a.item_id),
                        ),
                    decreases n - i,
                {
                    proof {
                        assert(rest@[0] == assets0[i as int]);
                    }
                    let asset = rest.remove(0);
                    let ghost av = asset;
                    let ghost stp = *store;
                    let ghost outp = out@;
                    item_ids.push(asset.item_id);
                    let keys = store.add_asset(asset);
                    let more = map_get_data(&keys);
                    let mut mm = more;
                    let ghost morev = mm@;
                    let nk = mm.len();
                    let mut k: usize = 0;
                    while k < nk
                        invariant
                            nk == mm@.len() + k,
                            nk == morev.len(),
                            k <= nk,
                            out@ == outp + morev.subrange(0, k as int),
                            forall|j: int| 0 <= j < mm@.len() ==> #[trigger] mm@[j] == morev[j + k],
                        decreases nk - k,
                    {
                        proof {
                            assert(mm@[0] == morev[k as int]);
                        }
                        let w = mm.remove(0);
                        out.push(w);
                        proof {
                            assert(w == morev[k as int]);
                            assert(outp + morev.subrange(0, k + 1) =~= (outp + morev.subrange(
                                0,
                                k as int,
                            )).push(morev[k as int]));
                        }
                        k = k + 1;
                    }
                    proof {
                        assert(morev.subrange(0, nk as int) =~= morev);
                        assert(out@ == outp + morev);
                        let st2 = *store;
                        let k2 = base.union(produced_keys(out@));
                        assert(presence_mono(stp, st2)) by {
                            assert forall|kk: AssetsWorkKey| #[trigger] key_present(stp, kk)
                                implies key_present(st2, kk) by {}
                        }
                        // keys produced for this asset are in the final out
                        assert forall|g: GetData| keys@.contains(g) implies k2.contains(
                            spec_key_of_getdata(g),
                        ) by {
                            let gi = choose|gi: int| 0 <= gi < keys@.len() && keys@[gi] == g;
                            assert(morev[gi]@ == crate::assets_work::spec_work_of_getdata(g));
                            assert(out@[outp.len() + gi] == morev[gi]);
                            assert(spec_key_of(out@[outp.len() + gi]@) == spec_key_of_getdata(g));
                        }
                        assert(keys@ == crate::store::asset_implied_keys(stp, av));
                        let kp = base.union(produced_keys(outp));
                        assert forall|kk: AssetsWorkKey| kp.contains(kk) implies #[trigger] k2.contains(
                            kk,
                        ) by {
                            if produced_keys(outp).contains(kk) {
                                let j = choose|j: int|
                                    0 <= j < outp.len() && spec_key_of((#[trigger] outp[j])@) == kk;
                                assert(out@[j] == outp[j]);
                                assert(spec_key_of(out@[j]@) == kk);
                            }
                        }
                        // the admitted asset's own obligations
                        assert(asset_ob(st2, k2, av)) by {
                            if av.location_type@ == crate::bytes::station_label() && !stp.has_station(
                                av.location_id as StationId,
                            ) {
                                assert(keys@[0] == GetData::Station(av.location_id as StationId));
                                assert(keys@.contains(keys@[0]));
                            }
                            if st2.spec_is_abyssal(av.type_id) && !stp.has_dynamic(av.item_id) {
                                let sp = if av.location_type@ == crate::bytes::station_label()
                                    && !stp.has_station(av.location_id as StationId) {
                                    1int
                                } else {
                                    0int
                                };
                                assert(keys@[sp] == GetData::Dynamic(av.type_id, av.item_id));
                                assert(keys@.contains(keys@[sp]));
                            }
                            if !st2.spec_is_abyssal(av.type_id) && !stp.has_type(av.type_id) {
                                assert(keys@[keys@.len() - 1] == GetData::Type(av.type_id));
                                assert(keys@.contains(keys@[keys@.len() - 1]));
                            }
                        }
                        // everything already held stays covered
                        assert(obligations_ok(st2, k2)) by {
                            assert forall|ii: int|
                                0 <= ii < st2.assets.entries_seq().len() implies asset_ob(
                                st2,
                                k2,
                                (#[trigger] st2.assets.entries_seq()[ii]).1,
                            ) by {
                                if !stp.assets.contains_key(av.item_id) {
                                    assert(st2.assets.entries_seq()
                                        == stp.assets.entries_seq().push((av.item_id, av)));
                                    if ii < stp.assets.entries_seq().len() {
                                        assert(st2.assets.entries_seq()[ii]
                                            == stp.assets.entries_seq()[ii]);
                                        lemma_asset_ob_transfer(
                                            stp,
                                            st2,
                                            kp,
                                            k2,
                                            st2.assets.entries_seq()[ii].1,
                                        );
                                    } else {
                                        assert(st2.assets.entries_seq()[ii].1 == av);
                                    }
                                } else {
                                    let iu = choose|iu: int|
                                        0 <= iu < stp.assets.entries_seq().len() && (
                                        #[trigger] stp.assets.entries_seq()[iu]).0 == av.item_id
                                            && st2.assets.entries_seq()
                                            == stp.assets.entries_seq().update(
                                            iu,
                                            (av.item_id, av),
                                        );
                                    if ii == iu {
                                        assert(st2.assets.entries_seq()[ii].1 == av);
                                    } else {
                                        assert(st2.assets.entries_seq()[ii]
                                            == stp.assets.entries_seq()[ii]);
                                        lemma_asset_ob_transfer(
                                            stp,
                                            st2,
                                            kp,
                                            k2,
                                            st2.assets.entries_seq()[ii].1,
                                        );
                                    }
                                }
                            }
                            assert forall|ii: int|
                                0 <= ii < st2.dynamics.entries_seq().len() implies dynamic_ob(
                                st2,
                                k2,
                                (#[trigger] st2.dynamics.entries_seq()[ii]).1,
                            ) by {
                                assert(st2.dynamics.entries_seq() == stp.dynamics.entries_seq());
                                lemma_dynamic_ob_transfer(
                                    stp,
                                    st2,
                                    kp,
                                    k2,
                                    st2.dynamics.entries_seq()[ii].1,
                                );
                            }
                            assert forall|ii: int|
                                0 <= ii < st2.types.entries_seq().len() implies type_ob(
                                st2,
                                k2,
                                (#[trigger] st2.types.entries_seq()[ii]).1,
                            ) by {
                                assert(st2.types.entries_seq() == stp.types.entries_seq());
                                assert(type_ob(stp, kp, st2.types.entries_seq()[ii].1));
                            }
                        }
                        // view bookkeeping: this asset's surfaced references
                        assert(av == assets0[i as int]);
                        lemma_implied_same(st0, stp, av);
                        let subi = assets0.subrange(0, i as int);
                        let sub1 = assets0.subrange(0, i + 1);
                        assert(sub1.drop_last() =~= subi);
                        assert(sub1.last() == av);
                        assert(page_refs(st0, sub1) == page_refs(st0, subi) + keys@);
                        assert forall|x: int|
                            0 <= x < out@.len() implies #[trigger] wt_views(out@)[x] == (wt_views(
                            outp,
                        ) + refs_views(keys@))[x] by {
                            if x >= outp.len() {
                                assert(out@[x] == morev[x - outp.len()]);
                                assert(morev[x - outp.len()]@
                                    == crate::assets_work::spec_work_of_getdata(
                                    keys@[x - outp.len()],
                                ));
                            } else {
                                assert(out@[x] == outp[x]);
                            }
                        }
                        assert(wt_views(out@) =~= wt_views(outp) + refs_views(keys@));
                        assert(refs_views(page_refs(st0, subi) + keys@) =~= refs_views(
                            page_refs(st0, subi),
                        ) + refs_views(keys@));
                        assert(wt_views(out@) =~= refs_views(page_refs(st0, sub1)));
                        assert(item_ids@ =~= sub1.map_values((|a: AssetItem| a.item_id)));
                    }
                    i = i + 1;
                }
                // fan out the remaining pages from the first page
                let ghost out_assets = out@;
                proof {
                    assert(total_pages < usize::MAX);
                    assert(assets0.subrange(0, n as int) =~= assets0);
                    assert(wt_views(out_assets) == refs_views(page_refs(st0, assets0)));
                    assert(item_ids@ == assets0.map_values((|a: AssetItem| a.item_id)));
                }
                if page == 1 {
                    let mut p: usize = 2;
                    proof {
                        assert(wt_views(out@) =~= wt_views(out_assets) + page_fanout(
                            character_id,
                            1int,
                        ));
                    }
                    while p <= total_pages
                        invariant
                            store.wf(),
                            total_pages < usize::MAX,
                            2 <= p,
                            total_pages < 2 ==> p == 2,
                            total_pages >= 2 ==> p <= total_pages + 1,
                            forall|j: int|
                                0 <= j < assets0.len() ==> store.assets.contains_key(
                                    (#[trigger] assets0[j]).item_id,
                                ),
                            obligations_ok(*store, base.union(produced_keys(out_assets))),
                            forall|j: int|
                                0 <= j < out_assets.len() ==> #[trigger] out@[j] == out_assets[j],
                            out@.len() >= out_assets.len(),
                            item_ids@ == assets0.map_values((|a: AssetItem| a.item_id)),
                            wt_views(out@) == wt_views(out_assets) + page_fanout(
                                character_id,
                                (p - 1) as int,
                            ),
                        decreases total_pages + 1 - p,
                    {
                        let ghost outp2 = out@;
                        out.push(AssetsWorkType::GetAssetsPage { character_id, page: p });
                        proof {
                            assert(wt_views(out@) =~= wt_views(outp2).push(
                                crate::assets_work::AssetsWorkTypeV::GetAssetsPage {
                                    character_id,
                                    page: p,
                                },
                            ));
                            assert(page_fanout(character_id, p as int) == page_fanout(
                                character_id,
                                (p - 1) as int,
                            ).push(
                                crate::assets_work::AssetsWorkTypeV::GetAssetsPage {
                                    character_id,
                                    page: p,
                                },
                            ));
                            assert(wt_views(out@) =~= wt_views(out_assets) + page_fanout(
                                character_id,
                                p as int,
                            ));
                        }
                        p = p + 1;
                    }
                    proof {
                        if total_pages >= 2 {
                            assert(p == total_pages + 1);
                        }
                        assert(wt_views(out@) =~= wt_views(out_assets) + page_fanout(
                            character_id,
                            total_pages as int,
                        ));
                    }
                }
                let ghost out_fan = out@;
                out.push(
                    AssetsWorkType::GetAssetsNames { item_ids, page, character_id },
                );
                proof {
                    assert(forall|j: int|
                        0 <= j < out_assets.len() ==> #[trigger] out@[j] == out_assets[j]);
                    assert(wt_views(out@) =~= wt_views(out_fan).push(
                        crate::assets_work::AssetsWorkTypeV::GetAssetsNames {
                            item_ids: assets0.map_values((|a: AssetItem| a.item_id)),
                            page,
                            character_id,
                        },
                    ));
                    if page == 1 {
                        assert(wt_views(out@) =~= page_produced(
                            st0,
                            character_id,
                            page,
                            total_pages,
                            assets0,
                        ));
                    } else {
                        assert(wt_views(out_fan) == wt_views(out_assets));
                        assert(wt_views(out@) =~= page_produced(
                            st0,
                            character_id,
                            page,
                            total_pages,
                            assets0,
                        ));
                    }
                }
                proof {
                    assert forall|k: AssetsWorkKey|
                        base.union(produced_keys(out_assets)).contains(k)
                            implies key_present(*store, k) || #[trigger] base.union(
                        produced_keys(out@),
                    ).contains(k) by {
                        if produced_keys(out_assets).contains(k) {
                            let j = choose|j: int|
                                0 <= j < out_assets.len() && spec_key_of(
                                    (#[trigger] out_assets[j])@,
                                ) == k;
                            assert(out@[j] == out_assets[j]);
                            assert(spec_key_of(out@[j]@) == k);
                        }
                    }
                    lemma_obligations_weaken(
                        *store,
                        base.union(produced_keys(out_assets)),
                        base.union(produced_keys(out@)),
                    );
                }
                out
            }
        }
    }
}

/// Dynamic obligations transfer pointwise between stores whose presence
/// only grew.
proof fn lemma_dynamic_ob_transfer(
    st1: CharacterAssets,
    st2: CharacterAssets,
    k1: Set<AssetsWorkKey>,
    k2: Set<AssetsWorkKey>,
    d: DynamicItem,
)
    requires
        dynamic_ob(st1, k1, d),
        presence_mono(st1, st2),
        forall|k: AssetsWorkKey| k1.contains(k) ==> #[trigger] k2.contains(k),
    ensures
        dynamic_ob(st2, k2, d),
{
    assert forall|j: int|
        0 <= j < d.dogma_attributes@.len() implies covered(
        st2,
        k2,
        AssetsWorkKey::DogmaAttribute {
            dogma_attribute_id: (#[trigger] d.dogma_attributes@[j]).attribute_id,
        },
    ) by {
        assert(covered(
            st1,
            k1,
            AssetsWorkKey::DogmaAttribute {
                dogma_attribute_id: d.dogma_attributes@[j].attribute_id,
            },
        ));
    }
}

/// Asset obligations transfer pointwise when the abyssal set agrees and
/// presence only grew.
proof fn lemma_asset_ob_transfer(
    st1: CharacterAssets,
    st2: CharacterAssets,
    k1: Set<AssetsWorkKey>,
    k2: Set<AssetsWorkKey>,
    a: AssetItem,
)
    requires
        asset_ob(st1, k1, a),
        presence_mono(st1, st2),
        st2.abyssal_items == st1.abyssal_items,
        forall|k: AssetsWorkKey| k1.contains(k) ==> #[trigger] k2.contains(k),
    ensures
        asset_ob(st2, k2, a),
{
    assert(st2.spec_is_abyssal(a.type_id) == st1.spec_is_abyssal(a.type_id));
}

/// Seed the saga for a new character: the mutator catalogue and the
/// first asset page. The closure invariant is preserved, since the
/// queued key set only grows.
pub fn seed_saga(store: &CharacterAssets, saga: &mut Saga, event: AssetsInitialEvent)
    requires
        old(saga).wf(),
        old(saga).dedup_inv(),
        closure_inv(*store, *old(saga)),
    ensures
        final(saga).wf(),
        final(saga).dedup_inv(),
        closure_inv(*store, *final(saga)),
        final(saga).resolved_seq() == old(saga).resolved_seq(),
        final(saga).has_failed() == old(saga).has_failed(),
        final(saga).max_retries_spec() == old(saga).max_retries_spec(),
        final(saga).key_queued(AssetsWorkKey::HoboleaksMutators) || final(saga).is_resolved_spec(
            AssetsWorkKey::HoboleaksMutators,
        ),
        final(saga).key_queued(
            AssetsWorkKey::AssetsPage { character_id: event.character_id, page: 1 },
        ) || final(saga).is_resolved_spec(
            AssetsWorkKey::AssetsPage { character_id: event.character_id, page: 1 },
        ),
{
    let ghost s0 = *saga;
    let character_id = event.character_id;
    let mut works = AssetsSagaProcessor::handle_initial_event(event);
    let w1 = works.remove(0);
    let w0 = works.remove(0);
    saga.enqueue(WorkItem::new(w1));
    let ghost s1 = *saga;
    saga.enqueue(WorkItem::new(w0));
    proof {
        assert forall|k: AssetsWorkKey|
            queued_set(s0).contains(k) implies key_present(*store, k) || #[trigger] queued_set(
            *saga,
        ).contains(k) by {
            assert(s1.key_queued(k));
        }
        lemma_obligations_weaken(*store, queued_set(s0), queued_set(*saga));
        assert(spec_key_of(w1@) == AssetsWorkKey::HoboleaksMutators);
        assert(spec_key_of(w0@) == (AssetsWorkKey::AssetsPage { character_id, page: 1 }));
        if s1.key_queued(AssetsWorkKey::HoboleaksMutators) {
        }
    }
}

/// Take the next work item to dispatch, if any. The covering key set is
/// unchanged (the key moves from pending to in flight), so the closure
/// invariant carries over.
pub fn next_work(store: &CharacterAssets, saga: &mut Saga) -> (r: Option<WorkItem>)
    requires
        old(saga).wf(),
        old(saga).dedup_inv(),
        closure_inv(*store, *old(saga)),
    ensures
        final(saga).wf(),
        final(saga).dedup_inv(),
        closure_inv(*store, *final(saga)),
        final(saga).resolved_seq() == old(saga).resolved_seq(),
        final(saga).has_failed() == old(saga).has_failed(),
        final(saga).max_retries_spec() == old(saga).max_retries_spec(),
        match r {
            None => old(saga).pending_seq().len() == 0 && final(saga).in_flight_seq() == old(
                saga,
            ).in_flight_seq(),
            Some(item) => {
                &&& item.consistent()
                &&& !old(saga).is_resolved_spec(item.work_resolution_key)
                &&& !old(saga).in_flight(item.work_resolution_key)
                &&& final(saga).in_flight(item.work_resolution_key)
                &&& final(saga).dispatches(item.work_resolution_key) == old(saga).dispatches(
                    item.work_resolution_key,
                ) + 1
            },
        },
{
    let ghost s0 = *saga;
    let r = saga.get_work();
    proof {
        assert forall|k: AssetsWorkKey|
            queued_set(s0).contains(k) implies key_present(*store, k) || #[trigger] queued_set(
            *saga,
        ).contains(k) by {}
        lemma_obligations_weaken(*store, queued_set(s0), queued_set(*saga));
    }
    r
}

/// Report a failed fetch. On a retry the item returns to pending and
/// the invariant carries over; once the retries are exhausted the saga
/// is failed and the run is abandoned.
pub fn fail_work(
    store: &CharacterAssets,
    saga: &mut Saga,
    work_resolution_key: AssetsWorkKey,
) -> (retried: bool)
    requires
        old(saga).wf(),
        old(saga).dedup_inv(),
        closure_inv(*store, *old(saga)),
    ensures
        final(saga).wf(),
        final(saga).dedup_inv(),
        final(saga).resolved_seq() == old(saga).resolved_seq(),
        final(saga).max_retries_spec() == old(saga).max_retries_spec(),
        retried ==> closure_inv(*store, *final(saga)) && final(saga).has_failed() == old(
            saga,
        ).has_failed(),
        !retried ==> final(saga).has_failed(),
        old(saga).in_flight(work_resolution_key) ==> final(saga).failures(work_resolution_key)
            == old(saga).failures(work_resolution_key) + 1,
        old(saga).in_flight(work_resolution_key) ==> {
            &&& (retried <==> old(saga).in_flight_item(work_resolution_key).retry_count + 1 < old(
                saga,
            ).max_retries_spec())
            &&& (retried ==> {
                let it = old(saga).in_flight_item(work_resolution_key);
                &&& final(saga).pending_seq().len() == old(saga).pending_seq().len() + 1
                &&& (forall|j: int|
                    0 <= j < old(saga).pending_seq().len() ==> final(saga).pending_seq()[j] == old(
                        saga,
                    ).pending_seq()[j])
                &&& final(saga).pending_seq().last().work_type@ == it.work_type@
                &&& final(saga).pending_seq().last().work_resolution_key == work_resolution_key
                &&& final(saga).pending_seq().last().retry_count == it.retry_count + 1
            })
        },
        !old(saga).in_flight(work_resolution_key) ==> retried && final(saga).pending_seq() == old(
            saga,
        ).pending_seq() && final(saga).in_flight_seq() == old(saga).in_flight_seq(),
{
    let ghost s0 = *saga;
    let retried = saga.handle_work_failed(work_resolution_key);
    proof {
        if retried {
            assert forall|k: AssetsWorkKey|
                queued_set(s0).contains(k) implies key_present(*store, k) || #[trigger] queued_set(
                *saga,
            ).contains(k) by {}
            lemma_obligations_weaken(*store, queued_set(s0), queued_set(*saga));
        }
    }
    retried
}

/// Apply one fetched result and record its completion: the store gains
/// the entity, the produced work is queued, and the key is resolved.
pub fn complete_work(store: &mut CharacterAssets, saga: &mut Saga, work_result: AssetsWorkResult)
    requires
        old(store).wf(),
        old(saga).wf(),
        old(saga).dedup_inv(),
        closure_inv(*old(store), *old(saga)),
        old(saga).in_flight(spec_result_key(&work_result)),
        result_bounded(&work_result),
        result_coherent(&work_result),
    ensures
        final(store).wf(),
        final(saga).wf(),
        final(saga).dedup_inv(),
        closure_inv(*final(store), *final(saga)),
        final(saga).has_failed() == old(saga).has_failed(),
        final(saga).max_retries_spec() == old(saga).max_retries_spec(),
        presence_mono(*old(store), *final(store)),
        forall|k: AssetsWorkKey|
            final(saga).is_resolved_spec(k) <==> (old(saga).is_resolved_spec(k) || k
                == spec_result_key(&work_result)),
        forall|k: AssetsWorkKey| final(saga).dispatches(k) == old(saga).dispatches(k),
        forall|k: AssetsWorkKey| final(saga).failures(k) == old(saga).failures(k),
        key_present(*final(store), spec_result_key(&work_result)),
        result_stored(*final(store), &work_result),
        forall|j: int|
            0 <= j < result_assets(&work_result).len() ==> final(store).assets.contains_key(
                (#[trigger] result_assets(&work_result)[j]).item_id,
            ),
        forall|j: int|
            0 <= j < result_names(&work_result).len() ==> final(store).assets_names.contains_key(
                (#[trigger] result_names(&work_result)[j]).item_id,
            ),
        forall|id: ItemId|
            names_contain(result_names(&work_result), id) ==> #[trigger] name_stored(
                *final(store),
                result_names(&work_result),
                id,
            ),
        forall|id: ItemId|
            !names_contain(result_names(&work_result), id)
                ==> #[trigger] final(store).assets_names.spec_get(id) == old(
                store,
            ).assets_names.spec_get(id),
        pages_covered(*final(saga), &work_result),
{
    let ghost st0 = *store;
    let ghost s0 = *saga;
    let ghost wr = work_result;
    let key = result_key(&work_result);
    let produced = AssetsSagaProcessor::handle(store, work_result, Ghost(queued_set(s0)));
    let ghost st2 = *store;
    saga.handle_work_completed(key, produced);
    proof {
        let s2 = *saga;
        // the first page's fan-out and the name lookup are covered
        match wr {
            AssetsWorkResult::AssetsPage { character_id, page, total_pages, assets } => {
                let c = character_id;
                let refs = refs_views(page_refs(st0, assets@));
                let fan = if page == 1 {
                    page_fanout(c, total_pages as int)
                } else {
                    Seq::<crate::assets_work::AssetsWorkTypeV>::empty()
                };
                assert(wt_views(produced@) == refs + fan + seq![
                    crate::assets_work::AssetsWorkTypeV::GetAssetsNames {
                        item_ids: assets@.map_values(|a: AssetItem| a.item_id),
                        page,
                        character_id: c,
                    },
                ]);
                assert(produced@.len() == wt_views(produced@).len());
                if page == 1 {
                    assert forall|q: int|
                        2 <= q <= total_pages implies #[trigger] covered_key(
                        s2,
                        (AssetsWorkKey::AssetsPage { character_id: c, page: q as usize }),
                    ) by {
                        lemma_page_fanout_index(c, total_pages as int, q);
                        let j = refs.len() + (q - 2);
                        assert(wt_views(produced@)[j] == fan[q - 2]);
                        assert(produced@[j]@
                            == (crate::assets_work::AssetsWorkTypeV::GetAssetsPage {
                            character_id: c,
                            page: q as usize,
                        }));
                        assert(s2.key_queued(spec_key_of(produced@[j]@)) || s2.is_resolved_spec(
                            spec_key_of(produced@[j]@),
                        ));
                    }
                }
                let jn = wt_views(produced@).len() - 1;
                assert(wt_views(produced@)[jn]
                    == (crate::assets_work::AssetsWorkTypeV::GetAssetsNames {
                    item_ids: assets@.map_values(|a: AssetItem| a.item_id),
                    page,
                    character_id: c,
                }));
                assert(produced@[jn]@ == wt_views(produced@)[jn]);
                assert(s2.key_queued(spec_key_of(produced@[jn]@)) || s2.is_resolved_spec(
                    spec_key_of(produced@[jn]@),
                ));
                assert(covered_key(
                    s2,
                    (AssetsWorkKey::AssetsNames { character_id: c, page }),
                ));
            },
            _ => {},
        }
        assert(pages_covered(s2, &work_result));
        // everything resolved is present in the new store
        assert forall|i: int|
            0 <= i < s2.resolved_seq().len() implies key_present(
            st2,
            #[trigger] s2.resolved_seq()[i],
        ) by {
            let k = s2.resolved_seq()[i];
            assert(s2.is_resolved_spec(k)) by {
                assert(s2.resolved_seq().contains(k));
            }
            if s0.is_resolved_spec(k) {
                let j = choose|j: int|
                    0 <= j < s0.resolved_seq().len() && s0.resolved_seq()[j] == k;
                assert(key_present(st0, k));
            } else {
                assert(k == key);
            }
        }
        // every covering key is still queued, or resolved and present
        assert forall|k: AssetsWorkKey|
            queued_set(s0).union(produced_keys(produced@)).contains(k) implies key_present(st2, k)
            || #[trigger] queued_set(s2).contains(k) by {
            if queued_set(s0).contains(k) {
                assert(s0.key_queued(k));
                if !s2.key_queued(k) {
                    assert(k == key);
                }
            } else {
                let j = choose|j: int|
                    0 <= j < produced@.len() && spec_key_of((#[trigger] produced@[j])@) == k;
                assert(s2.key_queued(k) || s2.is_resolved_spec(k));
                if s2.is_resolved_spec(k) && !s2.key_queued(k) {
                    if s0.is_resolved_spec(k) {
                        let jj = choose|jj: int|
                            0 <= jj < s0.resolved_seq().len() && s0.resolved_seq()[jj] == k;
                        assert(key_present(st0, k));
                    } else {
                        assert(k == key);
                    }
                }
            }
        }
        lemma_obligations_weaken(
            st2,
            queued_set(s0).union(produced_keys(produced@)),
            queued_set(s2),
        );
    }
}

} // verus!
