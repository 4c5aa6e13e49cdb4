use eve_assets::assets_saga::{
    complete_work, fail_work, next_work, seed_saga, AssetsInitialEvent, AssetsSagaProcessor,
    AssetsWorkResult, DataSource,
};
use eve_assets::assets_work::{AssetsWorkKey, AssetsWorkType};
use eve_assets::engine::Saga;
use eve_assets::store::CharacterAssets;
use eve_assets::types::{
    AssetItem, AttributeRange, DogmaAttributeConcise, DynamicItem, InputOutputMapping, ItemType,
    MutaplasmidsEffects,
};

fn page_asset(item_id: i64, type_id: i32) -> AssetItem {
    AssetItem {
        item_id,
        type_id,
        location_id: 999,
        location_type: b"other".to_vec(),
        quantity: 1,
        location_flag: b"Hangar".to_vec(),
        is_singleton: false,
        is_blueprint_copy: None,
    }
}

fn plain_type(type_id: i32) -> ItemType {
    ItemType {
        type_id,
        name: b"t".to_vec(),
        description: Vec::new(),
        group_id: 0,
        market_group_id: None,
        published: true,
        dogma_attributes: Vec::new(),
        dogma_effects: Vec::new(),
    }
}

fn mock_result(work: &AssetsWorkType) -> AssetsWorkResult {
    match work {
        AssetsWorkType::GetHoboleaksMutators => {
            AssetsWorkResult::HoboleaksMutators { data: Vec::new() }
        }
        AssetsWorkType::GetAssetsPage { character_id, page } => AssetsWorkResult::AssetsPage {
            character_id: *character_id,
            page: *page,
            total_pages: 2,
            assets: if *page == 1 {
                vec![page_asset(1, 501), page_asset(2, 502)]
            } else {
                Vec::new()
            },
        },
        AssetsWorkType::GetAssetsNames { character_id, page, .. } => {
            AssetsWorkResult::AssetsNames {
                character_id: *character_id,
                page: *page,
                assets_names: Vec::new(),
            }
        }
        AssetsWorkType::GetType { type_id } => AssetsWorkResult::Type {
            type_id: *type_id,
            item_type: plain_type(*type_id),
        },
        other => panic!("unexpected work in this scenario: {:?}", key_of(other)),
    }
}

fn key_of(work: &AssetsWorkType) -> AssetsWorkKey {
    AssetsSagaProcessor::to_resolution_key(work)
}

#[test]
fn saga_closure_dispatches_each_key_once_and_closes_the_graph() {
    let mut st = CharacterAssets::new(Vec::new());
    let mut saga = Saga::new();
    seed_saga(&st, &mut saga, AssetsInitialEvent { character_id: 7 });
    let mut dispatched: Vec<AssetsWorkKey> = Vec::new();
    while let Some(item) = next_work(&st, &mut saga) {
        dispatched.push(item.work_resolution_key);
        let result = mock_result(&item.work_type);
        complete_work(&mut st, &mut saga, result);
    }
    assert!(saga.is_complete());
    assert!(!saga.failed());
    // dedup: no key was dispatched twice
    for i in 0..dispatched.len() {
        for j in 0..i {
            assert_ne!(dispatched[i], dispatched[j]);
        }
    }
    let expected = vec![
        AssetsWorkKey::HoboleaksMutators,
        AssetsWorkKey::AssetsPage { character_id: 7, page: 1 },
        AssetsWorkKey::AssetsPage { character_id: 7, page: 2 },
        AssetsWorkKey::AssetsNames { character_id: 7, page: 1 },
        AssetsWorkKey::AssetsNames { character_id: 7, page: 2 },
        AssetsWorkKey::Type { type_id: 501 },
        AssetsWorkKey::Type { type_id: 502 },
    ];
    assert_eq!(dispatched.len(), expected.len());
    for k in &expected {
        assert!(dispatched.contains(k), "missing dispatch: {:?}", k);
        assert!(saga.key_resolved(*k));
    }
    // saga closure: the dependency graph is closed
    assert!(st.all_items_resolved());
}

#[test]
fn saga_retry_then_succeed() {
    let mut st = CharacterAssets::new(Vec::new());
    let mut saga = Saga::new();
    seed_saga(&st, &mut saga, AssetsInitialEvent { character_id: 7 });
    let mut failures_left = 2u32;
    let mut type_dispatches = 0u32;
    while let Some(item) = next_work(&st, &mut saga) {
        let key = item.work_resolution_key;
        if key == (AssetsWorkKey::Type { type_id: 501 }) {
            type_dispatches += 1;
            if failures_left > 0 {
                // the fetch came back with a temporary failure
                failures_left -= 1;
                let retried = fail_work(&st, &mut saga, key);
                assert!(retried);
                continue;
            }
        }
        let result = mock_result(&item.work_type);
        complete_work(&mut st, &mut saga, result);
    }
    assert!(saga.is_complete());
    assert!(!saga.failed());
    // dispatched once, plus one redispatch per retried failure
    assert_eq!(type_dispatches, 3);
    assert!(saga.key_resolved(AssetsWorkKey::Type { type_id: 501 }));
    assert!(st.all_items_resolved());
}

#[test]
fn saga_fails_hard_when_retries_run_out() {
    let st = CharacterAssets::new(Vec::new());
    let mut saga = Saga::new();
    seed_saga(&st, &mut saga, AssetsInitialEvent { character_id: 7 });
    let mut retried = true;
    // every fetch fails; each of the two seeds gets three dispatches at
    // most, and the saga fails hard when the first budget runs out
    let mut attempts = 0;
    let mut per_key: Vec<(eve_assets::assets_work::AssetsWorkKey, u32)> = Vec::new();
    while retried {
        let item = next_work(&st, &mut saga).expect("work should be pending");
        attempts += 1;
        match per_key.iter_mut().find(|e| e.0 == item.work_resolution_key) {
            Some(e) => e.1 += 1,
            None => per_key.push((item.work_resolution_key, 1)),
        }
        retried = fail_work(&st, &mut saga, item.work_resolution_key);
    }
    assert_eq!(attempts, 5);
    assert!(per_key.iter().any(|e| e.1 == 3));
    assert!(per_key.iter().all(|e| e.1 <= 3));
    assert!(saga.failed());
}

#[test]
fn data_source_policy() {
    assert_eq!(
        AssetsSagaProcessor::data_source(&AssetsWorkType::GetDynamic { type_id: 1, item_id: 2 }),
        DataSource::DynamicsCache
    );
    assert_eq!(
        AssetsSagaProcessor::data_source(&AssetsWorkType::GetType { type_id: 1 }),
        DataSource::StaticData
    );
    assert_eq!(
        AssetsSagaProcessor::data_source(&AssetsWorkType::GetMarketGroup { market_group_id: 1 }),
        DataSource::StaticData
    );
    assert_eq!(
        AssetsSagaProcessor::data_source(&AssetsWorkType::GetDogmaAttribute {
            dogma_attribute_id: 1
        }),
        DataSource::StaticData
    );
    assert_eq!(
        AssetsSagaProcessor::data_source(&AssetsWorkType::GetStation { station_id: 1 }),
        DataSource::Remote
    );
    assert_eq!(
        AssetsSagaProcessor::data_source(&AssetsWorkType::GetHoboleaksMutators),
        DataSource::Remote
    );
}

#[test]
fn work_keys_collapse_payload() {
    // names work keys by character and page only
    let w1 = AssetsWorkType::GetAssetsNames { item_ids: vec![1, 2], page: 3, character_id: 7 };
    let w2 = AssetsWorkType::GetAssetsNames { item_ids: vec![9], page: 3, character_id: 7 };
    assert_eq!(key_of(&w1), key_of(&w2));
    // dynamics key by the item alone
    let d1 = AssetsWorkType::GetDynamic { type_id: 1, item_id: 5 };
    let d2 = AssetsWorkType::GetDynamic { type_id: 2, item_id: 5 };
    assert_eq!(key_of(&d1), key_of(&d2));
}

#[test]
fn hobo_catalogue_produces_missing_types() {
    let mut st = CharacterAssets::new(Vec::new());
    let mut saga = Saga::new();
    seed_saga(&st, &mut saga, AssetsInitialEvent { character_id: 7 });
    // dispatch the catalogue first
    let first = next_work(&st, &mut saga).unwrap();
    assert_eq!(first.work_resolution_key, AssetsWorkKey::HoboleaksMutators);
    let effects = MutaplasmidsEffects {
        input_output_mapping: vec![InputOutputMapping {
            resulting_type: 300,
            applicable_types: vec![100],
        }],
        attribute_ranges: vec![(30, AttributeRange { max: 12, min: 8 })],
    };
    complete_work(
        &mut st,
        &mut saga,
        AssetsWorkResult::HoboleaksMutators { data: vec![(200, effects)] },
    );
    assert_eq!(st.get_resulting_type_by_source_mutator(100, 200), Ok(300));
    // the catalogue surfaced the source and resulting types as new work
    let mut dynamic_keys = Vec::new();
    while let Some(item) = next_work(&st, &mut saga) {
        dynamic_keys.push(item.work_resolution_key);
        let result = mock_result(&item.work_type);
        complete_work(&mut st, &mut saga, result);
    }
    assert!(dynamic_keys.contains(&AssetsWorkKey::Type { type_id: 100 }));
    assert!(dynamic_keys.contains(&AssetsWorkKey::Type { type_id: 300 }));
}

#[test]
fn dynamic_result_is_admitted_with_its_references() {
    let mut st = CharacterAssets::new(vec![777]);
    let mut saga = Saga::new();
    seed_saga(&st, &mut saga, AssetsInitialEvent { character_id: 7 });
    // drain the seeds with an abyssal asset on the first page
    while let Some(item) = next_work(&st, &mut saga) {
        let result = match &item.work_type {
            AssetsWorkType::GetAssetsPage { character_id, page } => AssetsWorkResult::AssetsPage {
                character_id: *character_id,
                page: *page,
                total_pages: 1,
                assets: if *page == 1 { vec![page_asset(1, 777)] } else { Vec::new() },
            },
            AssetsWorkType::GetDynamic { type_id, item_id } => AssetsWorkResult::Dynamic {
                type_id: *type_id,
                item_id: *item_id,
                dynamic: DynamicItem {
                    created_by: 4,
                    dogma_attributes: vec![DogmaAttributeConcise { attribute_id: 30, value: 7 }],
                    dogma_effects: Vec::new(),
                    mutator_type_id: 200,
                    source_type_id: 100,
                },
            },
            AssetsWorkType::GetDogmaAttribute { dogma_attribute_id } => {
                AssetsWorkResult::DogmaAttribute {
                    dogma_attribute_id: *dogma_attribute_id,
                    dogma_attribute: eve_assets::types::DogmaAttribute {
                        attribute_id: *dogma_attribute_id,
                        name: None,
                        display_name: None,
                        high_is_good: None,
                        published: None,
                        stackable: None,
                        unit_id: None,
                        icon_id: None,
                    },
                }
            }
            other => mock_result(other),
        };
        complete_work(&mut st, &mut saga, result);
    }
    assert!(saga.is_complete());
    assert!(st.all_items_resolved());
}

#[test]
fn names_last_mention_wins() {
    let mut st = CharacterAssets::new(Vec::new());
    let mut saga = Saga::new();
    seed_saga(&st, &mut saga, AssetsInitialEvent { character_id: 7 });
    while let Some(item) = next_work(&st, &mut saga) {
        let result = match &item.work_type {
            AssetsWorkType::GetAssetsNames { character_id, page, .. } if *page == 1 => {
                AssetsWorkResult::AssetsNames {
                    character_id: *character_id,
                    page: *page,
                    assets_names: vec![
                        eve_assets::types::AssetName { item_id: 1, name: b"First".to_vec() },
                        eve_assets::types::AssetName { item_id: 2, name: b"Only".to_vec() },
                        eve_assets::types::AssetName { item_id: 1, name: b"Last".to_vec() },
                    ],
                }
            }
            other => mock_result(other),
        };
        complete_work(&mut st, &mut saga, result);
    }
    assert!(saga.is_complete());
    // the later mention of item 1 overwrote the earlier one
    assert_eq!(st.assets_names.get(1), Some(&b"Last".to_vec()));
    assert_eq!(st.assets_names.get(2), Some(&b"Only".to_vec()));
    assert_eq!(st.assets_names.get(3), None);
}
