//! Entity types of the asset store. Textual fields are held as UTF-8 byte
//! strings and attribute values as fixed-point integers (the caller picks
//! the scale when converting from the wire encoding), so that every rule
//! over them can be stated and proved exactly.

use vstd::prelude::*;

verus! {

pub type CharacterId = u64;

pub type ItemId = i64;

pub type TypeId = i32;

pub type RegionId = i64;

pub type StationId = i32;

pub type DogmaAttributeId = i32;

pub type MarketGroupId = i32;

/// A dynamic item is identified by its type and its item instance.
pub type DynamicId = (TypeId, ItemId);

/// One attribute value on a type or a dynamic item.
#[derive(Clone, Copy, PartialEq, Eq, Structural, Debug)]
pub struct DogmaAttributeConcise {
    pub attribute_id: DogmaAttributeId,
    pub value: i64,
}

#[derive(Clone, Copy, PartialEq, Eq, Structural, Debug)]
pub struct DogmaEffect {
    pub effect_id: i32,
    pub is_default: bool,
}

/// A mutator's multiplicative range for one attribute.
#[derive(Clone, Copy, PartialEq, Eq, Structural, Debug)]
pub struct AttributeRange {
    pub max: i64,
    pub min: i64,
}

/// One `resulting type <- applicable source types` row of a mutator's
/// input/output mapping.
pub struct InputOutputMapping {
    pub resulting_type: TypeId,
    pub applicable_types: Vec<TypeId>,
}

/// One catalogue entry for a mutator type.
pub struct MutaplasmidsEffects {
    pub input_output_mapping: Vec<InputOutputMapping>,
    pub attribute_ranges: Vec<(DogmaAttributeId, AttributeRange)>,
}

pub struct AssetItem {
    pub item_id: i64,
    pub type_id: i32,
    pub location_id: i64,
    pub location_type: Vec<u8>,
    pub quantity: i32,
    pub location_flag: Vec<u8>,
    pub is_singleton: bool,
    pub is_blueprint_copy: Option<bool>,
}

pub struct AssetItemV {
    pub item_id: i64,
    pub type_id: i32,
    pub location_id: i64,
    pub location_type: Seq<u8>,
    pub quantity: i32,
    pub location_flag: Seq<u8>,
    pub is_singleton: bool,
    pub is_blueprint_copy: Option<bool>,
}

impl View for AssetItem {
    type V = AssetItemV;

    open spec fn view(&self) -> AssetItemV {
        AssetItemV {
            item_id: self.item_id,
            type_id: self.type_id,
            location_id: self.location_id,
            location_type: self.location_type@,
            quantity: self.quantity,
            location_flag: self.location_flag@,
            is_singleton: self.is_singleton,
            is_blueprint_copy: self.is_blueprint_copy,
        }
    }
}

pub struct AssetName {
    pub item_id: i64,
    pub name: Vec<u8>,
}

pub struct AssetNameV {
    pub item_id: i64,
    pub name: Seq<u8>,
}

impl View for AssetName {
    type V = AssetNameV;

    open spec fn view(&self) -> AssetNameV {
        AssetNameV { item_id: self.item_id, name: self.name@ }
    }
}

pub struct Station {
    pub station_id: i32,
    pub name: Vec<u8>,
    pub system_id: i32,
    pub type_id: i32,
}

pub struct StationV {
    pub station_id: i32,
    pub name: Seq<u8>,
    pub system_id: i32,
    pub type_id: i32,
}

impl View for Station {
    type V = StationV;

    open spec fn view(&self) -> StationV {
        StationV {
            station_id: self.station_id,
            name: self.name@,
            system_id: self.system_id,
            type_id: self.type_id,
        }
    }
}

pub struct ItemType {
    pub type_id: TypeId,
    pub name: Vec<u8>,
    pub description: Vec<u8>,
    pub group_id: i32,
    pub market_group_id: Option<MarketGroupId>,
    pub published: bool,
    pub dogma_attributes: Vec<DogmaAttributeConcise>,
    pub dogma_effects: Vec<DogmaEffect>,
}

pub struct ItemTypeV {
    pub type_id: TypeId,
    pub name: Seq<u8>,
    pub description: Seq<u8>,
    pub group_id: i32,
    pub market_group_id: Option<MarketGroupId>,
    pub published: bool,
    pub dogma_attributes: Seq<DogmaAttributeConcise>,
    pub dogma_effects: Seq<DogmaEffect>,
}

impl View for ItemType {
    type V = ItemTypeV;

    open spec fn view(&self) -> ItemTypeV {
        ItemTypeV {
            type_id: self.type_id,
            name: self.name@,
            description: self.description@,
            group_id: self.group_id,
            market_group_id: self.market_group_id,
            published: self.published,
            dogma_attributes: self.dogma_attributes@,
            dogma_effects: self.dogma_effects@,
        }
    }
}

pub struct DynamicItem {
    pub created_by: i64,
    pub dogma_attributes: Vec<DogmaAttributeConcise>,
    pub dogma_effects: Vec<DogmaEffect>,
    pub mutator_type_id: i32,
    pub source_type_id: i32,
}

pub struct DynamicItemV {
    pub created_by: i64,
    pub dogma_attributes: Seq<DogmaAttributeConcise>,
    pub dogma_effects: Seq<DogmaEffect>,
    pub mutator_type_id: i32,
    pub source_type_id: i32,
}

impl View for DynamicItem {
    type V = DynamicItemV;

    open spec fn view(&self) -> DynamicItemV {
        DynamicItemV {
            created_by: self.created_by,
            dogma_attributes: self.dogma_attributes@,
            dogma_effects: self.dogma_effects@,
            mutator_type_id: self.mutator_type_id,
            source_type_id: self.source_type_id,
        }
    }
}

pub struct DogmaAttribute {
    pub attribute_id: DogmaAttributeId,
    pub name: Option<Vec<u8>>,
    pub display_name: Option<Vec<u8>>,
    pub high_is_good: Option<bool>,
    pub published: Option<bool>,
    pub stackable: Option<bool>,
    pub unit_id: Option<i32>,
    pub icon_id: Option<i32>,
}

pub struct DogmaAttributeV {
    pub attribute_id: DogmaAttributeId,
    pub name: Option<Seq<u8>>,
    pub display_name: Option<Seq<u8>>,
    pub high_is_good: Option<bool>,
    pub published: Option<bool>,
    pub stackable: Option<bool>,
    pub unit_id: Option<i32>,
    pub icon_id: Option<i32>,
}

/// View of an optional byte string.
pub open spec fn opt_bytes_view(o: Option<Vec<u8>>) -> Option<Seq<u8>> {
    match o {
        Some(v) => Some(v@),
        None => None,
    }
}

impl View for DogmaAttribute {
    type V = DogmaAttributeV;

    open spec fn view(&self) -> DogmaAttributeV {
        DogmaAttributeV {
            attribute_id: self.attribute_id,
            name: opt_bytes_view(self.name),
            display_name: opt_bytes_view(self.display_name),
            high_is_good: self.high_is_good,
            published: self.published,
            stackable: self.stackable,
            unit_id: self.unit_id,
            icon_id: self.icon_id,
        }
    }
}

pub struct MarketGroup {
    pub description: Vec<u8>,
    pub market_group_id: MarketGroupId,
    pub name: Vec<u8>,
    pub parent_group_id: Option<MarketGroupId>,
    pub types: Vec<TypeId>,
}

pub struct MarketGroupV {
    pub description: Seq<u8>,
    pub market_group_id: MarketGroupId,
    pub name: Seq<u8>,
    pub parent_group_id: Option<MarketGroupId>,
    pub types: Seq<TypeId>,
}

impl View for MarketGroup {
    type V = MarketGroupV;

    open spec fn view(&self) -> MarketGroupV {
        MarketGroupV {
            description: self.description@,
            market_group_id: self.market_group_id,
            name: self.name@,
            parent_group_id: self.parent_group_id,
            types: self.types@,
        }
    }
}

/// Prices are fixed-point integers, like attribute values.
pub struct MarketOrder {
    pub duration: i64,
    pub is_buy_order: bool,
    pub issued: Vec<u8>,
    pub location_id: i64,
    pub min_volume: i64,
    pub order_id: i64,
    pub price: i64,
    pub range: Vec<u8>,
    pub system_id: i64,
    pub type_id: i64,
    pub volume_remain: i64,
    pub volume_total: i64,
}

pub struct CharacterResponse {
    pub character_id: u64,
    pub character_name: Vec<u8>,
}

/// Clone of a byte string, with the view carried over.
pub fn clone_bytes(v: &Vec<u8>) -> (r: Vec<u8>)
    ensures
        r@ == v@,
{
    let r = v.clone();
    proof {
        assert(r@ =~= v@);
    }
    r
}

pub fn clone_opt_bytes(v: &Option<Vec<u8>>) -> (r: Option<Vec<u8>>)
    ensures
        opt_bytes_view(r) == opt_bytes_view(*v),
{
    match v {
        Some(b) => Some(clone_bytes(b)),
        None => None,
    }
}

impl Clone for AssetItem {
    fn clone(&self) -> (r: Self)
        ensures
            r@ == self@,
    {
        AssetItem {
            item_id: self.item_id,
            type_id: self.type_id,
            location_id: self.location_id,
            location_type: clone_bytes(&self.location_type),
            quantity: self.quantity,
            location_flag: clone_bytes(&self.location_flag),
            is_singleton: self.is_singleton,
            is_blueprint_copy: self.is_blueprint_copy,
        }
    }
}

impl Clone for AssetName {
    fn clone(&self) -> (r: Self)
        ensures
            r@ == self@,
    {
        AssetName { item_id: self.item_id, name: clone_bytes(&self.name) }
    }
}

impl Clone for Station {
    fn clone(&self) -> (r: Self)
        ensures
            r@ == self@,
    {
        Station {
            station_id: self.station_id,
            name: clone_bytes(&self.name),
            system_id: self.system_id,
            type_id: self.type_id,
        }
    }
}

/// Clone of a vector of plain `Copy` attribute records.
pub fn clone_attrs(v: &Vec<DogmaAttributeConcise>) -> (r: Vec<DogmaAttributeConcise>)
    ensures
        r@ == v@,
{
    let r = v.clone();
    proof {
        assert(r@ =~= v@);
    }
    r
}

pub fn clone_effects(v: &Vec<DogmaEffect>) -> (r: Vec<DogmaEffect>)
    ensures
        r@ == v@,
{
    let r = v.clone();
    proof {
        assert(r@ =~= v@);
    }
    r
}

pub fn clone_type_ids(v: &Vec<TypeId>) -> (r: Vec<TypeId>)
    ensures
        r@ == v@,
{
    let r = v.clone();
    proof {
        assert(r@ =~= v@);
    }
    r
}

impl Clone for ItemType {
    fn clone(&self) -> (r: Self)
        ensures
            r@ == self@,
    {
        ItemType {
            type_id: self.type_id,
            name: clone_bytes(&self.name),
            description: clone_bytes(&self.description),
            group_id: self.group_id,
            market_group_id: self.market_group_id,
            published: self.published,
            dogma_attributes: clone_attrs(&self.dogma_attributes),
            dogma_effects: clone_effects(&self.dogma_effects),
        }
    }
}

impl Clone for DynamicItem {
    fn clone(&self) -> (r: Self)
        ensures
            r@ == self@,
    {
        DynamicItem {
            created_by: self.created_by,
            dogma_attributes: clone_attrs(&self.dogma_attributes),
            dogma_effects: clone_effects(&self.dogma_effects),
            mutator_type_id: self.mutator_type_id,
            source_type_id: self.source_type_id,
        }
    }
}

impl Clone for DogmaAttribute {
    fn clone(&self) -> (r: Self)
        ensures
            r@ == self@,
    {
        DogmaAttribute {
            attribute_id: self.attribute_id,
            name: clone_opt_bytes(&self.name),
            display_name: clone_opt_bytes(&self.display_name),
            high_is_good: self.high_is_good,
            published: self.published,
            stackable: self.stackable,
            unit_id: self.unit_id,
            icon_id: self.icon_id,
        }
    }
}

impl Clone for MarketGroup {
    fn clone(&self) -> (r: Self)
        ensures
            r@ == self@,
    {
        MarketGroup {
            description: clone_bytes(&self.description),
            market_group_id: self.market_group_id,
            name: clone_bytes(&self.name),
            parent_group_id: self.parent_group_id,
            types: clone_type_ids(&self.types),
        }
    }
}

} // verus!
