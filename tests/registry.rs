use netregistry::{
    group_sizes, IfRow, InterfaceGuid, IpAddress, IpNetwork, MacAddr, NetworksInner,
    MEDIA_CONNECT_STATE_DISCONNECTED,
};

fn alias(name: &str) -> Vec<u16> {
    let mut a: Vec<u16> = name.encode_utf16().collect();
    a.resize(257, 0);
    a
}

fn guid(tag: u8) -> InterfaceGuid {
    InterfaceGuid { data1: 7, data2: 1, data3: 2, data4: [tag, 0, 0, 0, 0, 0, 0, 9] }
}

fn row(name: &str, tag: u8, bytes_in: u64) -> IfRow {
    IfRow {
        transmit_link_speed: 1_000_000_000,
        receive_link_speed: 1_000_000_000,
        media_connect_state: 1,
        physical_address_length: 6,
        interface_guid: guid(tag),
        alias: alias(name),
        mtu: 1500,
        in_octets: bytes_in,
        out_octets: 0,
        in_ucast_pkts: 0,
        in_nucast_pkts: 0,
        out_ucast_pkts: 0,
        out_nucast_pkts: 0,
        in_errors: 0,
        out_errors: 0,
    }
}

fn key(s: &str) -> String {
    s.to_string()
}

#[test]
fn first_then_second_observation() {
    let mut reg = NetworksInner::new();
    reg.refresh(Some(&vec![row("eth0", 1, 1000)]), true);
    let d = reg.get(&key("eth0")).unwrap();
    assert_eq!(d.total_received(), 1000);
    assert_eq!(d.received(), 0);
    reg.refresh(Some(&vec![row("eth0", 1, 1500)]), true);
    let d = reg.get(&key("eth0")).unwrap();
    assert_eq!(d.total_received(), 1500);
    assert_eq!(d.received(), 500);
}

#[test]
fn vanished_interface_is_removed() {
    let mut reg = NetworksInner::new();
    reg.refresh(Some(&vec![row("eth0", 1, 10)]), true);
    assert_eq!(reg.list().len(), 1);
    reg.refresh(Some(&vec![]), true);
    assert!(reg.list().is_empty());
}

#[test]
fn vanished_interface_kept_without_removal() {
    let mut reg = NetworksInner::new();
    reg.refresh(Some(&vec![row("eth0", 1, 10)]), false);
    reg.refresh(Some(&vec![row("eth0", 1, 25)]), false);
    reg.refresh(Some(&vec![]), false);
    let d = reg.get(&key("eth0")).unwrap();
    assert_eq!(d.total_received(), 25);
    assert_eq!(d.received(), 15);
}

#[test]
fn failed_acquisition_changes_nothing() {
    let mut reg = NetworksInner::new();
    reg.refresh(Some(&vec![row("eth0", 1, 10)]), true);
    reg.refresh(Some(&vec![row("eth0", 1, 40)]), true);
    reg.refresh(None, true);
    assert_eq!(reg.list().len(), 1);
    let d = reg.get(&key("eth0")).unwrap();
    assert_eq!(d.total_received(), 40);
    assert_eq!(d.received(), 30);
}

#[test]
fn first_observation_has_zero_deltas() {
    let mut r = row("eth0", 1, 100);
    r.out_octets = 200;
    r.in_ucast_pkts = 3;
    r.in_nucast_pkts = 4;
    r.out_ucast_pkts = 5;
    r.out_nucast_pkts = 6;
    r.in_errors = 7;
    r.out_errors = 8;
    let mut reg = NetworksInner::new();
    reg.refresh(Some(&vec![r]), false);
    let d = reg.get(&key("eth0")).unwrap();
    assert_eq!(d.received(), 0);
    assert_eq!(d.transmitted(), 0);
    assert_eq!(d.packets_received(), 0);
    assert_eq!(d.packets_transmitted(), 0);
    assert_eq!(d.errors_on_received(), 0);
    assert_eq!(d.errors_on_transmitted(), 0);
    assert_eq!(d.total_received(), 100);
    assert_eq!(d.total_transmitted(), 200);
    assert_eq!(d.total_packets_received(), 7);
    assert_eq!(d.total_packets_transmitted(), 11);
    assert_eq!(d.total_errors_on_received(), 7);
    assert_eq!(d.total_errors_on_transmitted(), 8);
    assert_eq!(d.mtu(), 1500);
    assert_eq!(d.mac_address(), MacAddr([0; 6]));
    assert!(d.ip_networks().is_empty());
}

#[test]
fn unchanged_counters_give_zero_deltas() {
    let mut reg = NetworksInner::new();
    reg.refresh(Some(&vec![row("eth0", 1, 100)]), true);
    reg.refresh(Some(&vec![row("eth0", 1, 300)]), true);
    assert_eq!(reg.get(&key("eth0")).unwrap().received(), 200);
    reg.refresh(Some(&vec![row("eth0", 1, 300)]), true);
    assert_eq!(reg.get(&key("eth0")).unwrap().received(), 0);
}

#[test]
fn counter_reset_reports_zero() {
    let mut reg = NetworksInner::new();
    reg.refresh(Some(&vec![row("eth0", 1, 5000)]), true);
    reg.refresh(Some(&vec![row("eth0", 1, 10)]), true);
    let d = reg.get(&key("eth0")).unwrap();
    assert_eq!(d.total_received(), 10);
    assert_eq!(d.received(), 0);
}

#[test]
fn packet_sum_saturates() {
    let mut r = row("eth0", 1, 0);
    r.in_ucast_pkts = u64::MAX;
    r.in_nucast_pkts = 5;
    r.out_ucast_pkts = u64::MAX - 1;
    r.out_nucast_pkts = 1;
    let mut reg = NetworksInner::new();
    reg.refresh(Some(&vec![r]), true);
    let d = reg.get(&key("eth0")).unwrap();
    assert_eq!(d.total_packets_received(), u64::MAX);
    assert_eq!(d.total_packets_transmitted(), u64::MAX);
}

#[test]
fn shared_group_is_excluded() {
    let rows = vec![row("eth0", 1, 10), row("vEthernet", 1, 10), row("wlan0", 2, 10)];
    let mut reg = NetworksInner::new();
    reg.refresh(Some(&rows), true);
    assert!(reg.get(&key("eth0")).is_none());
    assert!(reg.get(&key("vEthernet")).is_none());
    assert!(reg.get(&key("wlan0")).is_some());
    assert_eq!(reg.list().len(), 1);
}

#[test]
fn group_ignores_first_component() {
    let mut a = row("eth0", 1, 10);
    let b = row("eth1", 1, 10);
    a.interface_guid.data1 = 99;
    let mut reg = NetworksInner::new();
    reg.refresh(Some(&vec![a, b]), true);
    assert!(reg.list().is_empty());
}

#[test]
fn group_counts_only_rows_that_pass() {
    let mut hidden = row("vEthernet", 1, 10);
    hidden.physical_address_length = 0;
    let rows = vec![row("eth0", 1, 10), hidden];
    assert_eq!(group_sizes(&rows), vec![1, 0]);
    let mut reg = NetworksInner::new();
    reg.refresh(Some(&rows), true);
    assert!(reg.get(&key("eth0")).is_some());
    assert_eq!(reg.list().len(), 1);
}

#[test]
fn no_hardware_address_is_never_recorded() {
    let mut r = row("tap0", 1, 10);
    r.physical_address_length = 0;
    let mut reg = NetworksInner::new();
    reg.refresh(Some(&vec![r]), false);
    assert!(reg.get(&key("tap0")).is_none());
}

#[test]
fn no_link_speed_is_skipped() {
    let mut r = row("lo", 1, 10);
    r.transmit_link_speed = 0;
    r.receive_link_speed = 0;
    let mut half = row("eth1", 2, 10);
    half.transmit_link_speed = 0;
    let mut reg = NetworksInner::new();
    reg.refresh(Some(&vec![r, half]), false);
    assert!(reg.get(&key("lo")).is_none());
    assert!(reg.get(&key("eth1")).is_some());
}

#[test]
fn disconnected_is_skipped() {
    let mut r = row("eth0", 1, 10);
    r.media_connect_state = MEDIA_CONNECT_STATE_DISCONNECTED;
    let mut reg = NetworksInner::new();
    reg.refresh(Some(&vec![r]), false);
    assert!(reg.list().is_empty());
}

#[test]
fn invalid_alias_skips_only_that_row() {
    let mut bad = row("x", 1, 10);
    bad.alias[0] = 0xD800;
    bad.alias[1] = 0x0041;
    let rows = vec![bad, row("eth0", 2, 10)];
    let mut reg = NetworksInner::new();
    reg.refresh(Some(&rows), true);
    assert_eq!(reg.list().len(), 1);
    assert!(reg.get(&key("eth0")).is_some());
}

#[test]
fn alias_is_cut_at_first_zero() {
    let mut r = row("eth0", 1, 10);
    r.alias[5] = 0x41;
    assert_eq!(r.alias_units(), vec![0x65, 0x74, 0x68, 0x30]);
    assert_eq!(r.name(), Some(key("eth0")));
    let full = IfRow { alias: vec![0x61, 0x62], ..row("", 1, 0) };
    assert_eq!(full.name(), Some(key("ab")));
}

#[test]
fn non_ascii_alias_decodes() {
    let r = row("Ethernet é 🦀", 1, 10);
    assert_eq!(r.name(), Some(key("Ethernet é 🦀")));
}

#[test]
fn mtu_is_updated() {
    let mut reg = NetworksInner::new();
    reg.refresh(Some(&vec![row("eth0", 1, 10)]), true);
    let mut r = row("eth0", 1, 10);
    r.mtu = 9000;
    reg.refresh(Some(&vec![r]), true);
    assert_eq!(reg.get(&key("eth0")).unwrap().mtu(), 9000);
}

#[test]
fn repeated_name_in_one_table_shifts_twice() {
    let rows = vec![row("eth0", 1, 10), row("eth0", 2, 30)];
    let mut reg = NetworksInner::new();
    reg.refresh(Some(&rows), true);
    let d = reg.get(&key("eth0")).unwrap();
    assert_eq!(d.total_received(), 30);
    assert_eq!(d.received(), 20);
    assert_eq!(reg.list().len(), 1);
}

#[test]
fn addresses_survive_refresh() {
    let mut reg = NetworksInner::new();
    reg.refresh(Some(&vec![row("eth0", 1, 10)]), true);
    let net = IpNetwork { addr: IpAddress::V4([192, 168, 1, 2]), prefix: 24 };
    let mac = MacAddr([1, 2, 3, 4, 5, 6]);
    assert!(reg.set_addresses(&key("eth0"), mac, vec![net]));
    assert!(!reg.set_addresses(&key("eth9"), mac, vec![]));
    reg.refresh(Some(&vec![row("eth0", 1, 20)]), true);
    let d = reg.get(&key("eth0")).unwrap();
    assert_eq!(d.mac_address(), mac);
    assert_eq!(d.ip_networks(), &[net][..]);
    assert_eq!(d.received(), 10);
}

#[test]
fn list_holds_names() {
    let mut reg = NetworksInner::new();
    reg.refresh(Some(&vec![row("eth0", 1, 10), row("wlan0", 2, 10)]), true);
    let mut names: Vec<String> = reg.list().iter().map(|(n, _)| n.clone()).collect();
    names.sort();
    assert_eq!(names, vec![key("eth0"), key("wlan0")]);
}
