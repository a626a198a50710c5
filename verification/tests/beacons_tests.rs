use bubble_bridge::beacons::{get_beacon_items, BeaconSource};

fn strs(v: &[&str]) -> Vec<String> {
    v.iter().map(|s| s.to_string()).collect()
}

#[test]
fn owned_then_shared_with_records() {
    let circles = strs(&["b1", "b2", "b3"]);
    let records = strs(&["b3", "b1"]);
    let clients = strs(&["b1"]);
    let items = get_beacon_items(2, &circles, &records, &clients);
    assert_eq!(items.len(), 4);
    assert!(items[0] == BeaconSource::Owned(0));
    assert!(items[1] == BeaconSource::Owned(1));
    assert!(items[2] == BeaconSource::Shared { circle: 0, beacon: 1, client: Some(0) });
    assert!(items[3] == BeaconSource::Shared { circle: 2, beacon: 0, client: None });
}

#[test]
fn no_items() {
    assert!(get_beacon_items(0, &vec![], &vec![], &vec![]).is_empty());
}
