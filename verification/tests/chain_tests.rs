use eve_assets::chain::{build_location_chain, ChainCache, ChainStats};
use eve_assets::store::CharacterAssets;
use eve_assets::types::{AssetItem, Station};

fn asset_at(item_id: i64, location_id: i64, location_type: &str) -> AssetItem {
    AssetItem {
        item_id,
        type_id: 10,
        location_id,
        location_type: location_type.as_bytes().to_vec(),
        quantity: 1,
        location_flag: b"Hangar".to_vec(),
        is_singleton: true,
        is_blueprint_copy: None,
    }
}

#[test]
fn location_chain_through_container_to_station() {
    // X sits inside container Y, which sits on station Z named Jita;
    // Y's friendly name is Can
    let mut st = CharacterAssets::new(Vec::new());
    st.add_asset(asset_at(2, 60000007, "station")); // Y on the station
    st.add_asset(asset_at(1, 2, "item")); // X inside Y
    st.add_asset_name(2, b"Can".to_vec());
    st.add_station(
        60000007,
        Station { station_id: 60000007, name: b"Jita".to_vec(), system_id: 9, type_id: 5 },
    );
    let x = asset_at(1, 2, "item");
    let mut stats = ChainStats::new();
    let mut cache = ChainCache::new();
    let r = build_location_chain(&st, &x, &mut stats, &mut cache);
    assert_eq!(r.0, b"Jita".to_vec());
    assert_eq!(r.1, b"station".to_vec());
    assert_eq!(r.2, b"Can".to_vec());
}

#[test]
fn location_chain_direct_station() {
    let mut st = CharacterAssets::new(Vec::new());
    st.add_station(
        60000007,
        Station { station_id: 60000007, name: b"Jita".to_vec(), system_id: 9, type_id: 5 },
    );
    let a = asset_at(1, 60000007, "station");
    let mut stats = ChainStats::new();
    let mut cache = ChainCache::new();
    let r = build_location_chain(&st, &a, &mut stats, &mut cache);
    assert_eq!(r.0, b"Jita".to_vec());
    assert_eq!(r.1, b"station".to_vec());
    assert_eq!(r.2, b"Direct".to_vec());
    assert_eq!(stats.direct_station, 1);
}

#[test]
fn location_chain_cycle_cut_at_ten() {
    // A sits in B and B sits in A: no station terminal; the resolver
    // stops after ten hops and returns a bounded chain
    let mut st = CharacterAssets::new(Vec::new());
    st.add_asset(asset_at(1, 2, "item"));
    st.add_asset(asset_at(2, 1, "item"));
    let a = asset_at(1, 2, "item");
    let mut stats = ChainStats::new();
    let mut cache = ChainCache::new();
    let r = build_location_chain(&st, &a, &mut stats, &mut cache);
    assert_eq!(r.0, b"Unknown".to_vec());
    assert_eq!(r.1, b"item".to_vec());
    // ten collected names joined by nine separators
    let label = String::from_utf8(r.2.clone()).unwrap();
    assert_eq!(label.matches(" -> ").count(), 9);
    assert!(label.split(" -> ").count() == 10);
}

#[test]
fn location_chain_idempotent_and_memo_safe() {
    let mut st = CharacterAssets::new(Vec::new());
    st.add_asset(asset_at(2, 60000007, "station"));
    st.add_asset(asset_at(1, 2, "item"));
    st.add_station(
        60000007,
        Station { station_id: 60000007, name: b"Jita".to_vec(), system_id: 9, type_id: 5 },
    );
    let x = asset_at(1, 2, "item");
    let mut stats = ChainStats::new();
    let mut cache = ChainCache::new();
    let first = build_location_chain(&st, &x, &mut stats, &mut cache);
    // the second call is served from the memo and is bitwise equal
    let second = build_location_chain(&st, &x, &mut stats, &mut cache);
    assert_eq!(first, second);
    // a fresh cache recomputes the same answer
    let mut cache2 = ChainCache::new();
    let third = build_location_chain(&st, &x, &mut stats, &mut cache2);
    assert_eq!(first, third);
    assert_eq!(stats.total_calls, 3);
}

#[test]
fn location_chain_unnamed_container_fallback() {
    let mut st = CharacterAssets::new(Vec::new());
    st.add_asset(asset_at(2, 60000007, "station"));
    st.add_asset(asset_at(1, 2, "item"));
    st.add_station(
        60000007,
        Station { station_id: 60000007, name: b"Jita".to_vec(), system_id: 9, type_id: 5 },
    );
    let x = asset_at(1, 2, "item");
    let mut stats = ChainStats::new();
    let mut cache = ChainCache::new();
    let r = build_location_chain(&st, &x, &mut stats, &mut cache);
    assert_eq!(r.2, b"Container_2".to_vec());
}
