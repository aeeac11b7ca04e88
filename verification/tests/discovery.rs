use orb::discover::{
    beacon_message, beacon_state_text, beacon_target, compute_broadcast, host_name_or_default,
    ipv4_text, select_ipv4_interfaces, InterfaceAddr, DISCOVERY_PORT,
};

#[test]
fn broadcast_of_class_c() {
    assert_eq!(compute_broadcast([192, 168, 1, 10], [255, 255, 255, 0]), [192, 168, 1, 255]);
}

#[test]
fn broadcast_of_odd_mask() {
    assert_eq!(compute_broadcast([10, 1, 2, 3], [255, 240, 0, 0]), [10, 15, 255, 255]);
    assert_eq!(compute_broadcast([10, 1, 2, 3], [255, 255, 255, 255]), [10, 1, 2, 3]);
    assert_eq!(compute_broadcast([10, 1, 2, 3], [0, 0, 0, 0]), [255, 255, 255, 255]);
}

#[test]
fn broadcast_keeps_network_and_sets_host_bits() {
    let ip = [172, 16, 5, 77];
    let mask = [255, 255, 252, 0];
    let b = compute_broadcast(ip, mask);
    for i in 0..4 {
        assert_eq!(b[i] & mask[i], ip[i] & mask[i]);
        assert_eq!(b[i] | mask[i], 0xff);
    }
}

#[test]
fn interfaces_skip_loopback_and_v6() {
    let ifaces = vec![
        InterfaceAddr::V4 { ip: [127, 0, 0, 1], netmask: [255, 0, 0, 0] },
        InterfaceAddr::V6,
        InterfaceAddr::V4 { ip: [192, 168, 0, 2], netmask: [255, 255, 255, 0] },
        InterfaceAddr::V4 { ip: [127, 5, 5, 5], netmask: [255, 0, 0, 0] },
        InterfaceAddr::V4 { ip: [10, 0, 0, 9], netmask: [255, 0, 0, 0] },
    ];
    assert_eq!(
        select_ipv4_interfaces(&ifaces),
        vec![([192, 168, 0, 2], [255, 255, 255, 0]), ([10, 0, 0, 9], [255, 0, 0, 0])]
    );
    assert_eq!(select_ipv4_interfaces(&vec![]), vec![]);
}

#[test]
fn texts_of_addresses() {
    assert_eq!(ipv4_text([0, 10, 100, 255]), "0.10.100.255");
    assert_eq!(beacon_target([192, 168, 1, 10], [255, 255, 255, 0]), "192.168.1.255:34254");
    assert_eq!(DISCOVERY_PORT, 34254);
}

#[test]
fn beacon_text() {
    assert_eq!(beacon_message("abc", "host", beacon_state_text()), "abc|host|IDLE");
    assert_eq!(beacon_message("", "", ""), "||");
}

#[test]
fn host_name_fallback() {
    assert_eq!(host_name_or_default(Some("box".to_string())), "box");
    assert_eq!(host_name_or_default(None), "System Name not found");
}
