use sysmon::sampler::RateTable;
use sysmon::stats::{
    address_for, available_memory, collect_network, needs_wifi_ssid, AddressEntry,
    InterfaceCounters,
};

fn counters(name: &str, rx: u64, tx: u64) -> InterfaceCounters {
    InterfaceCounters { name: name.to_string(), total_received: rx, total_transmitted: tx }
}

fn addr(name: &str, address: &str, is_ipv4: bool, is_loopback: bool) -> AddressEntry {
    AddressEntry { name: name.to_string(), address: address.to_string(), is_ipv4, is_loopback }
}

#[test]
fn memory_available() {
    assert_eq!(available_memory(1000, 1000), 0);
    assert_eq!(available_memory(1000, 400), 600);
    assert_eq!(available_memory(0, 0), 0);
    assert_eq!(available_memory(100, 300), 0);
}

#[test]
fn address_selection() {
    let a = vec![
        addr("lo", "127.0.0.1", true, true),
        addr("en0", "169.254.3.4", true, false),
        addr("en0", "fe80::1", false, false),
        addr("en0", "192.168.1.5", true, false),
        addr("eth0", "10.0.0.2", true, false),
        addr("eth0", "10.0.0.3", true, false),
    ];
    assert_eq!(address_for(&a, &"en0".to_string()), Some("192.168.1.5".to_string()));
    assert_eq!(address_for(&a, &"eth0".to_string()), Some("10.0.0.3".to_string()));
    assert_eq!(address_for(&a, &"lo".to_string()), None);
    assert_eq!(address_for(&a, &"wlan0".to_string()), None);
    let b = vec![addr("en1", "169.254.9.9", true, false)];
    assert_eq!(address_for(&b, &"en1".to_string()), None);
}

#[test]
fn network_totals_are_sums_of_shown_rates() {
    let mut table = RateTable::from_counters(&vec![
        counters("eth0", 1000, 100),
        counters("wlan0", 50, 5),
        counters("docker0", 10, 10),
    ]);
    let now = vec![
        counters("eth0", 1500, 300),
        counters("docker0", 999_999, 999_999),
        counters("wlan0", 80, 6),
        counters("lo", 123, 456),
    ];
    let info = collect_network(&now, &vec![], &None, &mut table);
    assert_eq!(info.interfaces.len(), 2);
    let down: u64 = info.interfaces.iter().map(|i| i.download_speed).sum();
    let up: u64 = info.interfaces.iter().map(|i| i.upload_speed).sum();
    assert_eq!(info.total_download, down);
    assert_eq!(info.total_upload, up);
    assert_eq!(info.total_download, 530);
    assert_eq!(info.total_upload, 201);
    assert_eq!(info.download_speed, 530);
    assert_eq!(info.upload_speed, 201);
    assert_eq!(info.interfaces[0].name, "eth0");
    assert_eq!(info.interfaces[0].display_name, "以太网");
    assert_eq!(info.interfaces[1].name, "wlan0");
    assert_eq!(info.interfaces[1].display_name, "Wi-Fi");
    assert_eq!(table.get(&"docker0".to_string()), Some((10, 10)));
    assert_eq!(table.get(&"lo".to_string()), None);
}

#[test]
fn two_polls_of_one_interface() {
    let mut table = RateTable::from_counters(&vec![counters("en0", 4096, 1024)]);
    let addrs = vec![addr("en0", "192.168.0.7", true, false)];
    let ssid = Some("Cafe".to_string());
    let first = collect_network(&vec![counters("en0", 8192, 2048)], &addrs, &ssid, &mut table);
    assert_eq!(first.interfaces[0].download_speed, 4096);
    let second = collect_network(&vec![counters("en0", 10240, 2048)], &addrs, &ssid, &mut table);
    let x = &second.interfaces[0];
    assert_eq!(x.download_speed, 2048);
    assert_eq!(x.upload_speed, 0);
    assert_eq!(x.total_downloaded, 10240);
    assert_eq!(x.total_uploaded, 2048);
    assert_eq!(x.display_name, "Cafe");
    assert_eq!(x.ip_address, Some("192.168.0.7".to_string()));
    assert!(x.is_up);
    assert_eq!(second.total_download, 2048);
}

#[test]
fn idle_interface_is_down() {
    let mut table = RateTable::new();
    let info = collect_network(&vec![counters("eth0", 0, 0)], &vec![], &None, &mut table);
    assert!(!info.interfaces[0].is_up);
    assert_eq!(info.interfaces[0].ip_address, None);
    let info = collect_network(&vec![counters("eth0", 0, 1)], &vec![], &None, &mut table);
    assert!(info.interfaces[0].is_up);
}

#[test]
fn totals_capped_at_largest() {
    let mut table = RateTable::new();
    let now = vec![counters("eth0", u64::MAX, 1), counters("eth1", 5, 1)];
    let info = collect_network(&now, &vec![], &None, &mut table);
    assert_eq!(info.total_download, u64::MAX);
    assert_eq!(info.total_upload, 2);
}

#[test]
fn empty_poll() {
    let mut table = RateTable::new();
    let info = collect_network(&vec![], &vec![], &None, &mut table);
    assert!(info.interfaces.is_empty());
    assert_eq!(info.total_download, 0);
}

#[test]
fn ssid_needed_only_for_shown_en0() {
    assert!(needs_wifi_ssid(&vec![counters("lo0", 0, 0), counters("EN0", 1, 1)]));
    assert!(!needs_wifi_ssid(&vec![counters("en1", 0, 0), counters("utun0", 1, 1)]));
    assert!(!needs_wifi_ssid(&vec![]));
}

#[test]
fn seeding_keeps_later_duplicate() {
    let table = RateTable::from_counters(&vec![counters("eth0", 1, 2), counters("eth0", 3, 4)]);
    assert_eq!(table.get(&"eth0".to_string()), Some((3, 4)));
    assert_eq!(table.get(&"eth1".to_string()), None);
}

#[test]
fn two_polls_with_hidden_interfaces_beside() {
    let mut table = RateTable::new();
    let first = vec![counters("lo0", 50, 50), counters("eth0", 1000, 700), counters("utun2", 9, 9)];
    collect_network(&first, &vec![], &None, &mut table);
    let second = vec![counters("utun2", 90_000, 90_000), counters("eth0", 3048, 700), counters("lo0", 80, 80)];
    let info = collect_network(&second, &vec![], &None, &mut table);
    assert_eq!(info.interfaces.len(), 1);
    assert_eq!(info.interfaces[0].name, "eth0");
    assert_eq!(info.interfaces[0].download_speed, 2048);
    assert_eq!(info.interfaces[0].upload_speed, 0);
    assert_eq!(info.total_download, 2048);
    assert_eq!(info.total_upload, 0);
}
