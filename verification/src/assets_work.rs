//! Work types of the assets saga: one per remote resource class, with a
//! derived resolution key that collapses payload fields irrelevant to
//! deduplication.

use vstd::prelude::*;

use crate::store::GetData;
use crate::types::{
    CharacterId, DogmaAttributeId, ItemId, MarketGroupId, StationId, TypeId,
};

verus! {

/// Work to be performed, with its full payload.
pub enum AssetsWorkType {
    GetHoboleaksMutators,
    GetAssetsPage { character_id: CharacterId, page: usize },
    GetAssetsNames { item_ids: Vec<ItemId>, page: usize, character_id: CharacterId },
    GetDynamic { type_id: TypeId, item_id: ItemId },
    GetType { type_id: TypeId },
    GetMarketGroup { market_group_id: MarketGroupId },
    GetStation { station_id: StationId },
    GetDogmaAttribute { dogma_attribute_id: DogmaAttributeId },
}

/// Spec view of a work item's payload.
pub enum AssetsWorkTypeV {
    GetHoboleaksMutators,
    GetAssetsPage { character_id: CharacterId, page: usize },
    GetAssetsNames { item_ids: Seq<ItemId>, page: usize, character_id: CharacterId },
    GetDynamic { type_id: TypeId, item_id: ItemId },
    GetType { type_id: TypeId },
    GetMarketGroup { market_group_id: MarketGroupId },
    GetStation { station_id: StationId },
    GetDogmaAttribute { dogma_attribute_id: DogmaAttributeId },
}

impl View for AssetsWorkType {
    type V = AssetsWorkTypeV;

    open spec fn view(&self) -> AssetsWorkTypeV {
        match self {
            AssetsWorkType::GetHoboleaksMutators => AssetsWorkTypeV::GetHoboleaksMutators,
            AssetsWorkType::GetAssetsPage { character_id, page } => AssetsWorkTypeV::GetAssetsPage {
                character_id: *character_id,
                page: *page,
            },
            AssetsWorkType::GetAssetsNames { item_ids, page, character_id } => AssetsWorkTypeV::GetAssetsNames {
                item_ids: item_ids@,
                page: *page,
                character_id: *character_id,
            },
            AssetsWorkType::GetDynamic { type_id, item_id } => AssetsWorkTypeV::GetDynamic {
                type_id: *type_id,
                item_id: *item_id,
            },
            AssetsWorkType::GetType { type_id } => AssetsWorkTypeV::GetType { type_id: *type_id },
            AssetsWorkType::GetMarketGroup { market_group_id } => AssetsWorkTypeV::GetMarketGroup {
                market_group_id: *market_group_id,
            },
            AssetsWorkType::GetStation { station_id } => AssetsWorkTypeV::GetStation {
                station_id: *station_id,
            },
            AssetsWorkType::GetDogmaAttribute { dogma_attribute_id } => AssetsWorkTypeV::GetDogmaAttribute {
                dogma_attribute_id: *dogma_attribute_id,
            },
        }
    }
}

impl Clone for AssetsWorkType {
    fn clone(&self) -> (r: Self)
        ensures
            r@ == self@,
    {
        match self {
            AssetsWorkType::GetHoboleaksMutators => AssetsWorkType::GetHoboleaksMutators,
            AssetsWorkType::GetAssetsPage { character_id, page } => AssetsWorkType::GetAssetsPage {
                character_id: *character_id,
                page: *page,
            },
            AssetsWorkType::GetAssetsNames { item_ids, page, character_id } => {
                let mut ids: Vec<ItemId> = Vec::new();
                let n = item_ids.len();
                let mut i: usize = 0;
                while i < n
                    invariant
                        n == item_ids@.len(),
                        i <= n,
                        ids@ == item_ids@.subrange(0, i as int),
                    decreases n - i,
                {
                    ids.push(item_ids[i]);
                    proof {
                        assert(item_ids@.subrange(0, i + 1) =~= item_ids@.subrange(
                            0,
                            i as int,
                        ).push(item_ids@[i as int]));
                    }
                    i = i + 1;
                }
                proof {
                    assert(item_ids@.subrange(0, n as int) =~= item_ids@);
                }
                AssetsWorkType::GetAssetsNames {
                    item_ids: ids,
                    page: *page,
                    character_id: *character_id,
                }
            }
            AssetsWorkType::GetDynamic { type_id, item_id } => AssetsWorkType::GetDynamic {
                type_id: *type_id,
                item_id: *item_id,
            },
            AssetsWorkType::GetType { type_id } => AssetsWorkType::GetType { type_id: *type_id },
            AssetsWorkType::GetMarketGroup { market_group_id } => AssetsWorkType::GetMarketGroup {
                market_group_id: *market_group_id,
            },
            AssetsWorkType::GetStation { station_id } => AssetsWorkType::GetStation {
                station_id: *station_id,
            },
            AssetsWorkType::GetDogmaAttribute { dogma_attribute_id } => AssetsWorkType::GetDogmaAttribute {
                dogma_attribute_id: *dogma_attribute_id,
            },
        }
    }
}

/// The dedup identity of a work item.
#[derive(Clone, Copy, PartialEq, Eq, Structural, Debug)]
pub enum AssetsWorkKey {
    HoboleaksMutators,
    AssetsPage { character_id: CharacterId, page: usize },
    AssetsNames { character_id: CharacterId, page: usize },
    Dynamic { item_id: ItemId },
    Type { type_id: TypeId },
    MarketGroup { market_group_id: MarketGroupId },
    Station { station_id: StationId },
    DogmaAttribute { dogma_attribute_id: DogmaAttributeId },
}

/// The key a payload collapses to: `AssetsNames` keys by character and
/// page only, `Dynamic` by the item alone.
pub open spec fn spec_key_of(w: AssetsWorkTypeV) -> AssetsWorkKey {
    match w {
        AssetsWorkTypeV::GetHoboleaksMutators => AssetsWorkKey::HoboleaksMutators,
        AssetsWorkTypeV::GetAssetsPage { character_id, page } => AssetsWorkKey::AssetsPage {
            character_id,
            page,
        },
        AssetsWorkTypeV::GetAssetsNames { item_ids, page, character_id } => AssetsWorkKey::AssetsNames {
            character_id,
            page,
        },
        AssetsWorkTypeV::GetDynamic { type_id, item_id } => AssetsWorkKey::Dynamic { item_id },
        AssetsWorkTypeV::GetType { type_id } => AssetsWorkKey::Type { type_id },
        AssetsWorkTypeV::GetMarketGroup { market_group_id } => AssetsWorkKey::MarketGroup {
            market_group_id,
        },
        AssetsWorkTypeV::GetStation { station_id } => AssetsWorkKey::Station { station_id },
        AssetsWorkTypeV::GetDogmaAttribute { dogma_attribute_id } => AssetsWorkKey::DogmaAttribute {
            dogma_attribute_id,
        },
    }
}

/// The work type that fetches the entity a surfaced reference names.
pub open spec fn spec_work_of_getdata(g: GetData) -> AssetsWorkTypeV {
    match g {
        GetData::Dynamic(type_id, item_id) => AssetsWorkTypeV::GetDynamic { type_id, item_id },
        GetData::MarketGroup(market_group_id) => AssetsWorkTypeV::GetMarketGroup {
            market_group_id,
        },
        GetData::Station(station_id) => AssetsWorkTypeV::GetStation { station_id },
        GetData::Type(type_id) => AssetsWorkTypeV::GetType { type_id },
        GetData::DogmaAttribute(dogma_attribute_id) => AssetsWorkTypeV::GetDogmaAttribute {
            dogma_attribute_id,
        },
    }
}

/// The dedup key of a surfaced reference.
pub open spec fn spec_key_of_getdata(g: GetData) -> AssetsWorkKey {
    spec_key_of(spec_work_of_getdata(g))
}

/// Convert a surfaced reference into the work that resolves it.
pub fn get_data_to_work_type(get_data: &GetData) -> (r: AssetsWorkType)
    ensures
        r@ == spec_work_of_getdata(*get_data),
{
    match get_data {
        GetData::Dynamic(type_id, item_id) => AssetsWorkType::GetDynamic {
            type_id: *type_id,
            item_id: *item_id,
        },
        GetData::MarketGroup(market_group_id) => AssetsWorkType::GetMarketGroup {
            market_group_id: *market_group_id,
        },
        GetData::Station(station_id) => AssetsWorkType::GetStation { station_id: *station_id },
        GetData::Type(type_id) => AssetsWorkType::GetType { type_id: *type_id },
        GetData::DogmaAttribute(dogma_attribute_id) => AssetsWorkType::GetDogmaAttribute {
            dogma_attribute_id: *dogma_attribute_id,
        },
    }
}

/// Derive the dedup key of a work payload.
pub fn to_resolution_key(work_type: &AssetsWorkType) -> (r: AssetsWorkKey)
    ensures
        r == spec_key_of(work_type@),
{
    match work_type {
        AssetsWorkType::GetHoboleaksMutators => AssetsWorkKey::HoboleaksMutators,
        AssetsWorkType::GetAssetsPage { character_id, page } => AssetsWorkKey::AssetsPage {
            character_id: *character_id,
            page: *page,
        },
        AssetsWorkType::GetAssetsNames { character_id, page, .. } => AssetsWorkKey::AssetsNames {
            character_id: *character_id,
            page: *page,
        },
        AssetsWorkType::GetDynamic { item_id, .. } => AssetsWorkKey::Dynamic { item_id: *item_id },
        AssetsWorkType::GetType { type_id } => AssetsWorkKey::Type { type_id: *type_id },
        AssetsWorkType::GetMarketGroup { market_group_id } => AssetsWorkKey::MarketGroup {
            market_group_id: *market_group_id,
        },
        AssetsWorkType::GetStation { station_id } => AssetsWorkKey::Station {
            station_id: *station_id,
        },
        AssetsWorkType::GetDogmaAttribute { dogma_attribute_id } => AssetsWorkKey::DogmaAttribute {
            dogma_attribute_id: *dogma_attribute_id,
        },
    }
}

} // verus!
