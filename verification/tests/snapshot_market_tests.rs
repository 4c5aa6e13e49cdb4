use eve_assets::market::{
    MarketResolutionSaga, SagaEvent, WorkResult, WorkType, WorkerType,
};
use eve_assets::snapshot::{load_snapshot, snapshot};
use eve_assets::store::CharacterAssets;
use eve_assets::types::{AssetItem, DogmaAttributeConcise, ItemType, Station};

fn populated_store() -> CharacterAssets {
    let mut st = CharacterAssets::new(vec![777]);
    st.add_asset(AssetItem {
        item_id: 1,
        type_id: 10,
        location_id: 60000007,
        location_type: b"station".to_vec(),
        quantity: 3,
        location_flag: b"Hangar".to_vec(),
        is_singleton: false,
        is_blueprint_copy: Some(false),
    });
    st.add_asset_name(1, b"My Crate".to_vec());
    st.add_station(
        60000007,
        Station { station_id: 60000007, name: b"Jita".to_vec(), system_id: 9, type_id: 5 },
    );
    st.add_type(ItemType {
        type_id: 10,
        name: b"Module".to_vec(),
        description: b"desc".to_vec(),
        group_id: 4,
        market_group_id: None,
        published: true,
        dogma_attributes: vec![DogmaAttributeConcise { attribute_id: 30, value: 100 }],
        dogma_effects: Vec::new(),
    });
    st.add_mutaplasmid_effects(200, vec![(30, 8, 12)], vec![(300, vec![10])]);
    st
}

#[test]
fn snapshot_load_round_trip_preserves_the_store() {
    let st = populated_store();
    let snap = snapshot(&st);
    let st2 = load_snapshot(snap);
    // the reloaded store answers every query the original does
    assert_eq!(st2.assets.len(), st.assets.len());
    let a1 = st.assets.get(1).unwrap();
    let a2 = st2.assets.get(1).unwrap();
    assert_eq!(a1.type_id, a2.type_id);
    assert_eq!(a1.location_type, a2.location_type);
    assert_eq!(st2.assets_names.get(1).unwrap(), &b"My Crate".to_vec());
    assert_eq!(st2.stations.get(60000007).unwrap().name, b"Jita".to_vec());
    assert_eq!(st2.types.get(10).unwrap().name, b"Module".to_vec());
    assert_eq!(
        st2.get_resulting_type_by_source_mutator(10, 200),
        st.get_resulting_type_by_source_mutator(10, 200)
    );
    assert_eq!(
        st2.get_min_max_attributes_by_resulting_type_id(300),
        st.get_min_max_attributes_by_resulting_type_id(300)
    );
    assert_eq!(st2.all_items_resolved(), st.all_items_resolved());
    // a second snapshot carries the same data
    let snap_a = snapshot(&st2);
    let snap_b = snapshot(&load_snapshot(snap_a));
    assert_eq!(snap_b.assets.len(), 1);
    assert_eq!(snap_b.relations, vec![(10, 200, 300)]);
}

#[test]
fn market_saga_seeds_and_completes() {
    let mut saga = MarketResolutionSaga::new();
    saga.handle_event(SagaEvent::SagaStarted).unwrap();
    let mut completed = 0;
    while let Some(item) = saga.get_work(WorkerType::MarketOrders) {
        let result = match item.work_type {
            WorkType::MarketOrderSell { region_id, type_id, page } => {
                WorkResult::MarketOrdersSell {
                    region_id,
                    type_id,
                    orders: Vec::new(),
                    page,
                    total_pages: 1,
                }
            }
            WorkType::MarketOrderBuy { region_id, type_id, page } => {
                WorkResult::MarketOrdersBuy {
                    region_id,
                    type_id,
                    orders: Vec::new(),
                    page,
                    total_pages: 1,
                }
            }
        };
        saga.handle_event(SagaEvent::WorkCompleted { work_type: item.work_type, result })
            .unwrap();
        completed += 1;
    }
    assert!(saga.is_complete());
    assert_eq!(completed, 6);
    assert_eq!(saga.sell_resolved_count(), 3);
    assert_eq!(saga.buy_resolved_count(), 3);
}

#[test]
fn market_saga_paginates_from_first_page() {
    let mut saga = MarketResolutionSaga::new();
    saga.handle_event(SagaEvent::SagaStarted).unwrap();
    let mut seen_pages = Vec::new();
    while let Some(item) = saga.get_work(WorkerType::MarketOrders) {
        let result = match item.work_type {
            WorkType::MarketOrderSell { region_id, type_id, page } => {
                seen_pages.push((region_id, type_id, page, true));
                WorkResult::MarketOrdersSell {
                    region_id,
                    type_id,
                    orders: Vec::new(),
                    page,
                    total_pages: if page == 1 && type_id == 44992 { 3 } else { 1 },
                }
            }
            WorkType::MarketOrderBuy { region_id, type_id, page } => {
                seen_pages.push((region_id, type_id, page, false));
                WorkResult::MarketOrdersBuy {
                    region_id,
                    type_id,
                    orders: Vec::new(),
                    page,
                    total_pages: 1,
                }
            }
        };
        saga.handle_event(SagaEvent::WorkCompleted { work_type: item.work_type, result })
            .unwrap();
    }
    assert!(saga.is_complete());
    // the first sell book had three pages: two more were fetched
    assert!(seen_pages.contains(&(10000002, 44992, 2, true)));
    assert!(seen_pages.contains(&(10000002, 44992, 3, true)));
    assert_eq!(saga.sell_resolved_count(), 5);
}

#[test]
fn market_saga_retries_then_drops() {
    let mut saga = MarketResolutionSaga::new();
    saga.handle_event(SagaEvent::SagaStarted).unwrap();
    // fail one work type repeatedly: two retries, then it is dropped
    let victim = WorkType::MarketOrderSell { region_id: 10000002, type_id: 44992, page: 1 };
    let mut dispatches = 0;
    while let Some(item) = saga.get_work(WorkerType::MarketOrders) {
        if item.work_type == victim {
            dispatches += 1;
            saga.handle_event(SagaEvent::WorkFailed { work_type: item.work_type }).unwrap();
            continue;
        }
        let result = match item.work_type {
            WorkType::MarketOrderSell { region_id, type_id, page } => {
                WorkResult::MarketOrdersSell {
                    region_id,
                    type_id,
                    orders: Vec::new(),
                    page,
                    total_pages: 1,
                }
            }
            WorkType::MarketOrderBuy { region_id, type_id, page } => {
                WorkResult::MarketOrdersBuy {
                    region_id,
                    type_id,
                    orders: Vec::new(),
                    page,
                    total_pages: 1,
                }
            }
        };
        saga.handle_event(SagaEvent::WorkCompleted { work_type: item.work_type, result })
            .unwrap();
    }
    assert!(saga.is_complete());
    assert_eq!(dispatches, 3);
    assert_eq!(saga.sell_resolved_count(), 2);
}
