use siar::paths::{capabilities_for, classify_endpoint_addr, IpValue, MeteredState, RoamingState, TransportAddrValue, TransportKind};

fn v4(a: u8, b: u8, c: u8, d: u8, port: u16) -> TransportAddrValue {
    TransportAddrValue::Ip { ip: IpValue::V4(a, b, c, d), port }
}

#[test]
fn classify_endpoint_addr_with_a_private_ipv4_is_local_lan() {
    let addr = [v4(192, 168, 1, 5, 4433)];
    assert_eq!(classify_endpoint_addr(&addr), TransportKind::LocalLan);
}

#[test]
fn classify_endpoint_addr_with_a_public_ipv4_is_iroh_direct() {
    let addr = [v4(8, 8, 8, 8, 4433)];
    assert_eq!(classify_endpoint_addr(&addr), TransportKind::IrohDirect);
}

#[test]
fn classify_endpoint_addr_with_only_a_relay_url_is_iroh_relay() {
    let addr = [TransportAddrValue::Relay];
    assert_eq!(classify_endpoint_addr(&addr), TransportKind::IrohRelay);
}

#[test]
fn classify_endpoint_addr_prefers_local_lan_when_both_kinds_of_ip_are_present() {
    let addr = [v4(192, 168, 1, 5, 4433), v4(8, 8, 8, 8, 4433)];
    assert_eq!(classify_endpoint_addr(&addr), TransportKind::LocalLan);
}

#[test]
fn classify_endpoint_addr_link_local_ipv4_is_local_lan() {
    let addr = [v4(169, 254, 1, 1, 4433)];
    assert_eq!(classify_endpoint_addr(&addr), TransportKind::LocalLan);
}

#[test]
fn bluetooth_le_supports_neither_large_files_nor_realtime_media() {
    let caps = capabilities_for(TransportKind::BluetoothLe);
    assert!(!caps.large_files);
    assert!(!caps.realtime_media);
}

#[test]
fn dtn_is_the_only_kind_marked_store_and_forward() {
    for kind in [
        TransportKind::IrohDirect,
        TransportKind::IrohRelay,
        TransportKind::LocalLan,
        TransportKind::WifiDirect,
        TransportKind::WifiAware,
        TransportKind::BluetoothClassic,
        TransportKind::BluetoothLe,
        TransportKind::MeshRelay,
    ] {
        assert!(!capabilities_for(kind).store_and_forward);
    }
    assert!(capabilities_for(TransportKind::Dtn).store_and_forward);
}

#[test]
fn metered_and_roaming_are_always_unknown_from_this_static_baseline() {
    let caps = capabilities_for(TransportKind::LocalLan);
    assert_eq!(caps.metered, MeteredState::Unknown);
    assert_eq!(caps.roaming, RoamingState::Unknown);
}

#[test]
fn private_loopback_and_unique_local_addresses_are_local_and_others_are_not() {
    assert_eq!(classify_endpoint_addr(&[v4(10, 0, 0, 1, 1)]), TransportKind::LocalLan);
    assert_eq!(classify_endpoint_addr(&[v4(172, 16, 0, 1, 1)]), TransportKind::LocalLan);
    assert_eq!(classify_endpoint_addr(&[v4(172, 31, 255, 1, 1)]), TransportKind::LocalLan);
    assert_eq!(classify_endpoint_addr(&[v4(172, 32, 0, 1, 1)]), TransportKind::IrohDirect);
    assert_eq!(classify_endpoint_addr(&[v4(127, 0, 0, 1, 1)]), TransportKind::LocalLan);
    let v6 = |s0: u16, s7: u16| TransportAddrValue::Ip { ip: IpValue::V6(s0, 0, 0, 0, 0, 0, 0, s7), port: 1 };
    assert_eq!(classify_endpoint_addr(&[v6(0, 1)]), TransportKind::LocalLan);
    assert_eq!(classify_endpoint_addr(&[v6(0xfd12, 5)]), TransportKind::LocalLan);
    assert_eq!(classify_endpoint_addr(&[v6(0xfe80, 5)]), TransportKind::IrohDirect);
    assert_eq!(classify_endpoint_addr(&[v6(0x2001, 5)]), TransportKind::IrohDirect);
    assert_eq!(classify_endpoint_addr(&[]), TransportKind::IrohRelay);
}
