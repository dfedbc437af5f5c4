use siar::routes::DeviceRoutes;

fn device(seed: u8) -> [u8; 32] {
    let mut id = [seed; 32];
    id[0] = 0xD0;
    id
}

fn test_endpoint_id(seed: u8) -> [u8; 32] {
    [seed; 32]
}

#[test]
fn record_then_get_round_trips() {
    let mut routes = DeviceRoutes::new();
    let device = device(1);
    let endpoint = test_endpoint_id(1);
    routes.record(device, endpoint, 100);
    assert_eq!(routes.get(device), Some(endpoint));
}

#[test]
fn get_on_unknown_device_is_none() {
    let routes = DeviceRoutes::new();
    assert_eq!(routes.get(device(2)), None);
}

#[test]
fn a_second_record_overwrites_rather_than_accumulating() {
    let mut routes = DeviceRoutes::new();
    let device = device(3);
    routes.record(device, test_endpoint_id(1), 100);
    routes.record(device, test_endpoint_id(2), 200);
    assert_eq!(routes.get(device), Some(test_endpoint_id(2)));
}

#[test]
fn remove_stale_drops_old_hints_and_keeps_recent_ones() {
    let mut routes = DeviceRoutes::new();
    let old_device = device(4);
    let recent_device = device(5);
    routes.record(old_device, test_endpoint_id(1), 0);
    routes.record(recent_device, test_endpoint_id(2), 90);

    routes.remove_stale(100, 50);
    assert_eq!(routes.get(old_device), None);
    assert_eq!(routes.get(recent_device), Some(test_endpoint_id(2)));
}

#[test]
fn device_for_is_the_reverse_of_record() {
    let mut routes = DeviceRoutes::new();
    let device = device(6);
    let endpoint = test_endpoint_id(3);
    routes.record(device, endpoint, 0);
    assert_eq!(routes.device_for(endpoint), Some(device));
}

#[test]
fn device_for_is_none_for_an_undisclosed_endpoint() {
    let routes = DeviceRoutes::new();
    assert_eq!(routes.device_for(test_endpoint_id(4)), None);
}

#[test]
fn re_recording_a_device_at_a_new_endpoint_clears_the_old_reverse_entry() {
    let mut routes = DeviceRoutes::new();
    let device = device(7);
    let first_endpoint = test_endpoint_id(5);
    let second_endpoint = test_endpoint_id(6);
    routes.record(device, first_endpoint, 0);
    routes.record(device, second_endpoint, 10);
    assert_eq!(routes.device_for(first_endpoint), None);
    assert_eq!(routes.device_for(second_endpoint), Some(device));
}

#[test]
fn remove_stale_also_clears_the_reverse_index() {
    let mut routes = DeviceRoutes::new();
    let device = device(8);
    let endpoint = test_endpoint_id(7);
    routes.record(device, endpoint, 0);
    routes.remove_stale(100, 50);
    assert_eq!(routes.device_for(endpoint), None);
}

#[test]
fn a_hint_exactly_max_age_old_is_kept_and_a_future_one_counts_as_fresh() {
    let mut routes = DeviceRoutes::default();
    routes.record(device(9), test_endpoint_id(9), 50);
    routes.record(device(10), test_endpoint_id(10), 500);
    routes.remove_stale(100, 50);
    assert_eq!(routes.get(device(9)), Some(test_endpoint_id(9)));
    assert_eq!(routes.get(device(10)), Some(test_endpoint_id(10)));
    routes.remove_stale(101, 50);
    assert_eq!(routes.get(device(9)), None);
    assert_eq!(routes.device_for(test_endpoint_id(9)), None);
}

#[test]
fn two_devices_sharing_an_endpoint_leave_the_reverse_entry_with_the_latest() {
    let mut routes = DeviceRoutes::new();
    routes.record(device(11), test_endpoint_id(11), 0);
    routes.record(device(12), test_endpoint_id(11), 90);
    assert_eq!(routes.device_for(test_endpoint_id(11)), Some(device(12)));
    routes.remove_stale(100, 50);
    assert_eq!(routes.get(device(12)), Some(test_endpoint_id(11)));
    assert_eq!(routes.device_for(test_endpoint_id(11)), None);
}
