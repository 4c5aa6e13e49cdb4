use eve_assets::hierarchy::resolve_market_group_hierarchy;
use eve_assets::store::{CharacterAssets, GetData, StoreError};
use eve_assets::types::{
    AssetItem, DogmaAttribute, DogmaAttributeConcise, DynamicItem, ItemType, MarketGroup, Station,
};

fn plain_asset(item_id: i64, type_id: i32, location_id: i64, location_type: &str) -> AssetItem {
    AssetItem {
        item_id,
        type_id,
        location_id,
        location_type: location_type.as_bytes().to_vec(),
        quantity: 1,
        location_flag: b"Hangar".to_vec(),
        is_singleton: true,
        is_blueprint_copy: None,
    }
}

fn plain_type(type_id: i32, market_group_id: Option<i32>, attrs: Vec<(i32, i64)>) -> ItemType {
    ItemType {
        type_id,
        name: format!("type{}", type_id).into_bytes(),
        description: Vec::new(),
        group_id: 0,
        market_group_id,
        published: true,
        dogma_attributes: attrs
            .into_iter()
            .map(|(attribute_id, value)| DogmaAttributeConcise { attribute_id, value })
            .collect(),
        dogma_effects: Vec::new(),
    }
}

#[test]
fn add_asset_emits_station_dynamic_and_type() {
    let mut st = CharacterAssets::new(vec![777]);
    let keys = st.add_asset(plain_asset(1, 777, 60000004, "station"));
    assert_eq!(
        keys,
        vec![
            GetData::Station(60000004),
            GetData::Dynamic(777, 1),
            GetData::Type(777),
        ]
    );
    // a second admission of the same asset re-emits only what is missing
    let station = Station {
        station_id: 60000004,
        name: b"Hub".to_vec(),
        system_id: 9,
        type_id: 5,
    };
    st.add_station(60000004, station);
    let keys2 = st.add_asset(plain_asset(1, 777, 60000004, "station"));
    assert_eq!(keys2, vec![GetData::Dynamic(777, 1), GetData::Type(777)]);
}

#[test]
fn add_type_emits_missing_market_group() {
    let mut st = CharacterAssets::new(Vec::new());
    let keys = st.add_type(plain_type(10, Some(42), Vec::new()));
    assert_eq!(keys, vec![GetData::MarketGroup(42)]);
    let group = MarketGroup {
        description: Vec::new(),
        market_group_id: 42,
        name: b"Modules".to_vec(),
        parent_group_id: None,
        types: vec![10, 11],
    };
    // the group emits refs for members that are not yet present
    let keys2 = st.add_market_group(group);
    assert_eq!(keys2, vec![GetData::Type(11)]);
}

#[test]
fn add_dynamic_emits_attributes_and_types() {
    let mut st = CharacterAssets::new(Vec::new());
    let dynamic = DynamicItem {
        created_by: 5,
        dogma_attributes: vec![DogmaAttributeConcise { attribute_id: 30, value: 100 }],
        dogma_effects: Vec::new(),
        mutator_type_id: 200,
        source_type_id: 100,
    };
    let keys = st.add_dynamic(300, 1, dynamic);
    assert_eq!(
        keys,
        vec![
            GetData::DogmaAttribute(30),
            GetData::Type(100),
            GetData::Type(200),
        ]
    );
}

#[test]
fn attribute_name_index_with_fallback() {
    let mut st = CharacterAssets::new(Vec::new());
    let named = DogmaAttribute {
        attribute_id: 30,
        name: Some(b"Shield Bonus".to_vec()),
        display_name: None,
        high_is_good: Some(true),
        published: Some(true),
        stackable: None,
        unit_id: None,
        icon_id: None,
    };
    st.add_dogma_attribute(named);
    assert_eq!(st.get_attribute_id_by_name(&b"Shield Bonus".to_vec()), Ok(30));
    let nameless = DogmaAttribute {
        attribute_id: 31,
        name: None,
        display_name: None,
        high_is_good: None,
        published: None,
        stackable: None,
        unit_id: None,
        icon_id: None,
    };
    st.add_dogma_attribute(nameless);
    assert_eq!(st.get_attribute_id_by_name(&b"attribute_31".to_vec()), Ok(31));
    assert_eq!(
        st.get_attribute_id_by_name(&b"absent".to_vec()),
        Err(StoreError::AttributeNameNotFound)
    );
}

#[test]
fn mutator_relation_first_writer_wins() {
    let mut st = CharacterAssets::new(Vec::new());
    st.add_mutaplasmid_effects(200, vec![(30, 8, 12)], vec![(300, vec![100])]);
    // a later conflicting mapping for the same pair does not overwrite
    st.add_mutaplasmid_effects(200, Vec::new(), vec![(999, vec![100])]);
    assert_eq!(st.get_resulting_type_by_source_mutator(100, 200), Ok(300));
    assert_eq!(
        st.get_resulting_type_by_source_mutator(101, 200),
        Err(StoreError::SourceTypeNotFound(101))
    );
    assert_eq!(
        st.get_resulting_type_by_source_mutator(100, 201),
        Err(StoreError::MutatorTypeNotFound(201))
    );
    let ids = st.get_attribute_ids_by_mutator(200).unwrap();
    assert_eq!(ids, vec![30]);
    assert_eq!(
        st.get_attribute_ids_by_mutator(201),
        Err(StoreError::MutatorTypeNotFound(201))
    );
    let applicable = st.get_applicable_types_by_resulting_type(300).unwrap();
    assert_eq!(applicable, vec![100]);
    assert_eq!(
        st.get_applicable_types_by_resulting_type(301),
        Err(StoreError::ResultingTypeNotFound(301))
    );
}

#[test]
fn mutator_range_per_pair_and_union() {
    // source S has attribute A = 100; mutator M ranges A over [0.8, 1.2]
    // held as tenths: [8, 12]; the per-pair interval is [800, 1200],
    // meaning [80.0, 120.0]
    let mut st = CharacterAssets::new(Vec::new());
    st.add_mutaplasmid_effects(200, vec![(30, 8, 12)], vec![(300, vec![100])]);
    st.add_type(plain_type(100, None, vec![(30, 100)]));
    let mm = st.get_min_max_attributes_by_resulting_type_id(300);
    assert_eq!(mm, vec![(30, 800, 1200)]);
}

#[test]
fn mutator_union_is_coordinatewise() {
    // two sources with different base values; the union interval is the
    // coordinate-wise min/max of the per-pair intervals
    let mut st = CharacterAssets::new(Vec::new());
    st.add_mutaplasmid_effects(200, vec![(30, 8, 12)], vec![(300, vec![100, 101])]);
    st.add_type(plain_type(100, None, vec![(30, 100)]));
    st.add_type(plain_type(101, None, vec![(30, 50)]));
    let mm = st.get_min_max_attributes_by_resulting_type_id(300);
    // pair ranges: [800, 1200] and [400, 600]; union [400, 1200]
    assert_eq!(mm, vec![(30, 400, 1200)]);
}

#[test]
fn mutator_range_negative_value_normalized() {
    // a negative base value flips the interval ends; the store
    // normalizes so that min <= max
    let mut st = CharacterAssets::new(Vec::new());
    st.add_mutaplasmid_effects(200, vec![(30, 8, 12)], vec![(300, vec![100])]);
    st.add_type(plain_type(100, None, vec![(30, -100)]));
    let mm = st.get_min_max_attributes_by_resulting_type_id(300);
    assert_eq!(mm, vec![(30, -1200, -800)]);
}

#[test]
fn all_items_resolved_follows_presence() {
    let mut st = CharacterAssets::new(Vec::new());
    st.add_asset(plain_asset(1, 10, 60000004, "station"));
    assert!(!st.all_items_resolved());
    st.add_station(
        60000004,
        Station { station_id: 60000004, name: b"Hub".to_vec(), system_id: 9, type_id: 5 },
    );
    assert!(!st.all_items_resolved());
    st.add_type(plain_type(10, None, Vec::new()));
    assert!(st.all_items_resolved());
}

#[test]
fn mutators_by_resulting_type_reports_names_and_ranges() {
    let mut st = CharacterAssets::new(Vec::new());
    st.add_mutaplasmid_effects(200, vec![(30, 8, 12)], vec![(300, vec![100])]);
    let before = st.get_mutators_by_resulting_type_id(300);
    assert_eq!(before.len(), 1);
    assert_eq!(before[0].0, 200);
    // the mutator's type is not loaded yet: the name falls back
    assert_eq!(before[0].1, b"type_200".to_vec());
    st.add_type(plain_type(200, None, Vec::new()));
    let after = st.get_mutators_by_resulting_type_id(300);
    assert_eq!(after[0].1, b"type200".to_vec());
    assert_eq!(after[0].2.len(), 1);
    assert_eq!(after[0].2[0].0, 30);
    assert_eq!(after[0].2[0].1.min, 8);
    assert_eq!(after[0].2[0].1.max, 12);
}

#[test]
fn market_group_hierarchy_names() {
    let mut st = CharacterAssets::new(Vec::new());
    let root = MarketGroup {
        description: Vec::new(),
        market_group_id: 1,
        name: b"Ship Equipment".to_vec(),
        parent_group_id: None,
        types: Vec::new(),
    };
    let child = MarketGroup {
        description: Vec::new(),
        market_group_id: 2,
        name: b"Repairers".to_vec(),
        parent_group_id: Some(1),
        types: Vec::new(),
    };
    st.add_market_group(root);
    st.add_market_group(child);
    let names = resolve_market_group_hierarchy(&st, &vec![2, 1, 9]);
    assert_eq!(names.len(), 3);
    assert_eq!(names[0], (2, b"Ship Equipment / Repairers".to_vec()));
    assert_eq!(names[1], (1, b"Ship Equipment".to_vec()));
    // an unknown group resolves to the empty name
    assert_eq!(names[2], (9, Vec::new()));
}

#[test]
fn market_group_hierarchy_cycle_cut() {
    let mut st = CharacterAssets::new(Vec::new());
    // two groups that are each other's parent: the walk stops at the
    // revisit instead of diverging
    st.add_market_group(MarketGroup {
        description: Vec::new(),
        market_group_id: 1,
        name: b"A".to_vec(),
        parent_group_id: Some(2),
        types: Vec::new(),
    });
    st.add_market_group(MarketGroup {
        description: Vec::new(),
        market_group_id: 2,
        name: b"B".to_vec(),
        parent_group_id: Some(1),
        types: Vec::new(),
    });
    let names = resolve_market_group_hierarchy(&st, &vec![1]);
    assert_eq!(names[0], (1, b"B / A".to_vec()));
}
