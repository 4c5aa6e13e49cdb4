use eve_assets::chain::{ChainCache, ChainStats};
use eve_assets::report::{
    append_attribute_values, append_min_max_attribute_values, build_report, AttributeRange,
    AttributeValue, BaseItemType, DynamicsError, DynamicsReport, MutatorConcise, ResultingGroup,
    SourceMutatorGroup, VaryingAttribute,
};
use eve_assets::store::CharacterAssets;
use eve_assets::types::{
    AssetItem, DogmaAttribute, DogmaAttributeConcise, DynamicItem, ItemType, Station,
};
use eve_assets::virtualattr::{
    initialize_virtual_attributes, VIRTUAL_SHIELD_REPAIR_EFFICIENCY_ID,
};

fn named_attr(attribute_id: i32, name: &str) -> DogmaAttribute {
    DogmaAttribute {
        attribute_id,
        name: Some(name.as_bytes().to_vec()),
        display_name: None,
        high_is_good: Some(true),
        published: Some(true),
        stackable: None,
        unit_id: None,
        icon_id: None,
    }
}

fn store_with_formula_names() -> CharacterAssets {
    let mut st = CharacterAssets::new(vec![777]);
    st.add_dogma_attribute(named_attr(30, "Shield Bonus"));
    st.add_dogma_attribute(named_attr(31, "Activation Cost"));
    st.add_dogma_attribute(named_attr(32, "Activation time / duration"));
    st.add_dogma_attribute(named_attr(33, "Armor Hitpoints Repaired"));
    st.add_dogma_attribute(named_attr(34, "Damage Modifier"));
    st.add_dogma_attribute(named_attr(35, "rate of fire bonus"));
    st.add_dogma_attribute(named_attr(36, "Missile Damage Bonus"));
    st.add_dogma_attribute(named_attr(37, "Neutralization Amount"));
    st
}

#[test]
fn virtual_formulas_resolve_and_compute() {
    let st = store_with_formula_names();
    let formulas = initialize_virtual_attributes(&st).expect("all names indexed");
    assert_eq!(formulas.len(), 7);
    // shield repair efficiency = Shield Bonus / Activation Cost
    let mut values = vec![
        AttributeValue { id: 30, value: 500 },
        AttributeValue { id: 31, value: 10 },
    ];
    append_attribute_values(&formulas, &mut values);
    assert!(values
        .iter()
        .any(|v| v.id == VIRTUAL_SHIELD_REPAIR_EFFICIENCY_ID && v.value == 50));
    // a zero denominator yields no virtual value
    let mut zero_den = vec![
        AttributeValue { id: 30, value: 500 },
        AttributeValue { id: 31, value: 0 },
    ];
    append_attribute_values(&formulas, &mut zero_den);
    assert!(!zero_den.iter().any(|v| v.id == VIRTUAL_SHIELD_REPAIR_EFFICIENCY_ID));
}

#[test]
fn virtual_ranges_normalized() {
    let st = store_with_formula_names();
    let formulas = initialize_virtual_attributes(&st).unwrap();
    // [num_min/den_max, num_max/den_min] normalized
    let mut ranges = vec![
        AttributeRange { id: 30, min: 100, max: 400 },
        AttributeRange { id: 31, min: 2, max: 10 },
    ];
    append_min_max_attribute_values(&formulas, &mut ranges);
    let v = ranges
        .iter()
        .find(|r| r.id == VIRTUAL_SHIELD_REPAIR_EFFICIENCY_ID)
        .expect("virtual range appended");
    assert_eq!((v.min, v.max), (10, 200));
}

#[test]
fn report_groups_held_dynamics_and_passes_integrity() {
    let mut st = store_with_formula_names();
    st.add_mutaplasmid_effects(200, vec![(30, 8, 12)], vec![(300, vec![100])]);
    st.add_type(ItemType {
        type_id: 100,
        name: b"Base Module".to_vec(),
        description: Vec::new(),
        group_id: 0,
        market_group_id: None,
        published: true,
        dogma_attributes: vec![DogmaAttributeConcise { attribute_id: 30, value: 100 }],
        dogma_effects: Vec::new(),
    });
    st.add_type(ItemType {
        type_id: 300,
        name: b"Mutated Module".to_vec(),
        description: Vec::new(),
        group_id: 0,
        market_group_id: None,
        published: true,
        dogma_attributes: Vec::new(),
        dogma_effects: Vec::new(),
    });
    st.add_station(
        60000007,
        Station { station_id: 60000007, name: b"Jita".to_vec(), system_id: 9, type_id: 5 },
    );
    st.add_asset(AssetItem {
        item_id: 1,
        type_id: 777,
        location_id: 60000007,
        location_type: b"station".to_vec(),
        quantity: 1,
        location_flag: b"Hangar".to_vec(),
        is_singleton: true,
        is_blueprint_copy: None,
    });
    st.add_dynamic(
        777,
        1,
        DynamicItem {
            created_by: 4,
            dogma_attributes: vec![DogmaAttributeConcise { attribute_id: 30, value: 110 }],
            dogma_effects: Vec::new(),
            mutator_type_id: 200,
            source_type_id: 100,
        },
    );
    let formulas = initialize_virtual_attributes(&st).unwrap();
    let mut stats = ChainStats::new();
    let mut cache = ChainCache::new();
    let report = build_report(&st, &formulas, &mut stats, &mut cache).expect("report builds");
    assert_eq!(report.data.len(), 1);
    let (name, group) = &report.data[0];
    assert_eq!(name, &b"Mutated Module".to_vec());
    assert_eq!(group.resulting_type_id, 300);
    assert_eq!(group.varying_attributes.len(), 1);
    assert_eq!(group.varying_attributes[0].id, 30);
    assert_eq!(group.varying_attributes[0].name, b"Shield Bonus".to_vec());
    assert_eq!(group.base_types.len(), 1);
    assert_eq!(group.base_types[0].id, 100);
    assert_eq!(group.base_types[0].attributes, vec![AttributeValue { id: 30, value: 100 }]);
    assert_eq!(group.mutators.len(), 1);
    assert_eq!(group.mutators[0].id, 200);
    assert_eq!(
        group.min_max_attributes,
        vec![AttributeRange { id: 30, min: 800, max: 1200 }]
    );
    assert_eq!(group.source_mutator_groups.len(), 1);
    let smg = &group.source_mutator_groups[0];
    assert_eq!((smg.source_type_id, smg.mutator_type_id), (100, 200));
    assert_eq!(smg.attributes, vec![AttributeRange { id: 30, min: 800, max: 1200 }]);
    assert_eq!(smg.dynamics.len(), 1);
    assert_eq!(smg.dynamics[0].item_id, 1);
    assert_eq!(smg.dynamics[0].station_name, b"Jita".to_vec());
    assert_eq!(smg.dynamics[0].location_name, b"Direct".to_vec());
    assert_eq!(
        smg.dynamics[0].attributes,
        vec![AttributeValue { id: 30, value: 110 }]
    );
    // report integrity: every list carries exactly the schema's ids
    assert!(report.check_integrity().is_ok());
}

fn tiny_group(varying: Vec<VaryingAttribute>) -> ResultingGroup {
    ResultingGroup {
        resulting_type_id: 300,
        source_mutator_groups: Vec::new(),
        base_types: Vec::new(),
        mutators: Vec::new(),
        varying_attributes: varying,
        min_max_attributes: Vec::new(),
    }
}

#[test]
fn integrity_rejects_duplicate_schema_ids() {
    let dup = vec![
        VaryingAttribute { id: 30, name: b"a".to_vec(), high_is_good: None },
        VaryingAttribute { id: 30, name: b"b".to_vec(), high_is_good: None },
    ];
    let report = DynamicsReport { data: vec![(b"g".to_vec(), tiny_group(dup))] };
    assert_eq!(
        report.check_integrity(),
        Err(DynamicsError::DuplicateAttributes { group: 0 })
    );
}

#[test]
fn integrity_rejects_mismatched_lists() {
    let mut group = tiny_group(vec![VaryingAttribute {
        id: 30,
        name: b"a".to_vec(),
        high_is_good: None,
    }]);
    group.min_max_attributes = Vec::new();
    // the union list is empty while the schema has one column
    let report = DynamicsReport { data: vec![(b"g".to_vec(), group)] };
    assert_eq!(
        report.check_integrity(),
        Err(DynamicsError::MismatchedAttributes { group: 0 })
    );
}

#[test]
fn integrity_rejects_unknown_pair_source() {
    let mut group = tiny_group(Vec::new());
    group.source_mutator_groups = vec![SourceMutatorGroup {
        source_type_id: 100,
        mutator_type_id: 200,
        attributes: Vec::new(),
        dynamics: Vec::new(),
    }];
    group.mutators = vec![MutatorConcise { id: 200, name: Vec::new(), attributes: Vec::new() }];
    let report = DynamicsReport { data: vec![(b"g".to_vec(), group)] };
    assert_eq!(
        report.check_integrity(),
        Err(DynamicsError::NotFoundSourceType { group: 0, type_id: 100 })
    );
}

#[test]
fn integrity_accepts_matching_lists() {
    let mut group = tiny_group(vec![VaryingAttribute {
        id: 30,
        name: b"a".to_vec(),
        high_is_good: None,
    }]);
    group.min_max_attributes = vec![AttributeRange { id: 30, min: 1, max: 2 }];
    group.base_types = vec![BaseItemType {
        id: 100,
        name: b"b".to_vec(),
        attributes: vec![AttributeValue { id: 30, value: 5 }],
    }];
    let report = DynamicsReport { data: vec![(b"g".to_vec(), group)] };
    assert!(report.check_integrity().is_ok());
}

#[test]
fn report_fails_when_a_dynamic_misses_its_asset() {
    let mut st = CharacterAssets::new(Vec::new());
    st.add_mutaplasmid_effects(200, vec![(30, 8, 12)], vec![(300, vec![100])]);
    // a held dynamic whose asset was never admitted
    st.add_dynamic(
        777,
        1,
        DynamicItem {
            created_by: 4,
            dogma_attributes: Vec::new(),
            dogma_effects: Vec::new(),
            mutator_type_id: 200,
            source_type_id: 100,
        },
    );
    let formulas: Vec<eve_assets::virtualattr::VirtualAttributeFormula> = Vec::new();
    let mut stats = ChainStats::new();
    let mut cache = ChainCache::new();
    let r = build_report(&st, &formulas, &mut stats, &mut cache);
    assert_eq!(r.err(), Some(DynamicsError::DatabaseError));
}

#[test]
fn report_fails_when_a_pair_has_no_relation() {
    let mut st = CharacterAssets::new(Vec::new());
    st.add_asset(AssetItem {
        item_id: 1,
        type_id: 777,
        location_id: 999,
        location_type: b"other".to_vec(),
        quantity: 1,
        location_flag: b"Hangar".to_vec(),
        is_singleton: true,
        is_blueprint_copy: None,
    });
    // the pair (100, 200) was never catalogued
    st.add_dynamic(
        777,
        1,
        DynamicItem {
            created_by: 4,
            dogma_attributes: Vec::new(),
            dogma_effects: Vec::new(),
            mutator_type_id: 200,
            source_type_id: 100,
        },
    );
    let formulas: Vec<eve_assets::virtualattr::VirtualAttributeFormula> = Vec::new();
    let mut stats = ChainStats::new();
    let mut cache = ChainCache::new();
    let r = build_report(&st, &formulas, &mut stats, &mut cache);
    assert_eq!(r.err(), Some(DynamicsError::DatabaseError));
}
