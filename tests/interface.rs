use sysmon::interface::{get_display_name, is_physical_interface, wants_wifi_ssid};

#[test]
fn physical_mac_names() {
    assert!(is_physical_interface("en0"));
    assert!(is_physical_interface("en1"));
    assert!(is_physical_interface("EN0"));
    assert!(!is_physical_interface("en0-bridge"));
    assert!(!is_physical_interface("en1virtual"));
    assert!(!is_physical_interface("en2utun"));
    assert!(!is_physical_interface("utun0"));
    assert!(!is_physical_interface("en"));
    assert!(!is_physical_interface("enX"));
}

#[test]
fn physical_linux_names() {
    assert!(is_physical_interface("eth0"));
    assert!(is_physical_interface("ETH1"));
    assert!(!is_physical_interface("eth"));
    assert!(!is_physical_interface("ethx"));
    assert!(is_physical_interface("wlan0"));
    assert!(!is_physical_interface("wlan"));
    assert!(is_physical_interface("enp3s0"));
    assert!(is_physical_interface("ens33"));
    assert!(is_physical_interface("eno1"));
    assert!(is_physical_interface("enx0011"));
    assert!(!is_physical_interface("enp"));
    assert!(is_physical_interface("wlp2s0"));
    assert!(!is_physical_interface("wlpx"));
}

#[test]
fn physical_plain_names_and_default_deny() {
    assert!(is_physical_interface("Wi-Fi"));
    assert!(is_physical_interface("wifi"));
    assert!(is_physical_interface("Ethernet"));
    assert!(!is_physical_interface("ethernet 2"));
    assert!(!is_physical_interface("lo"));
    assert!(!is_physical_interface("lo0"));
    assert!(!is_physical_interface("bridge0"));
    assert!(!is_physical_interface("docker0"));
    assert!(!is_physical_interface("awdl0"));
    assert!(!is_physical_interface(""));
}

#[test]
fn physical_ignores_case() {
    let names = ["en0", "EN0", "Eth0", "WLAN1", "EnP3S0", "Wi-Fi", "WIFI", "ETHERNET", "Lo", "UTUN3", "En0-Bridge", "Bridge0"];
    for n in names.iter() {
        let lower = n.to_lowercase();
        assert_eq!(is_physical_interface(n), is_physical_interface(&lower), "{}", n);
        let upper = n.to_ascii_uppercase();
        assert_eq!(is_physical_interface(n), is_physical_interface(&upper), "{}", n);
    }
}

#[test]
fn display_name_ethernet_and_unknown() {
    assert_eq!(get_display_name("eth2", None), "以太网");
    assert_eq!(get_display_name("en3", None), "以太网");
    assert_eq!(get_display_name("EN5", None), "以太网");
    assert_eq!(get_display_name("anything-unrecognized", None), "anything-unrecognized");
    assert_eq!(get_display_name("Bridge0", Some("Home".to_string())), "Bridge0");
}

#[test]
fn display_name_wifi() {
    assert_eq!(get_display_name("en0", Some("HomeNet".to_string())), "HomeNet");
    assert_eq!(get_display_name("EN0", Some("HomeNet".to_string())), "HomeNet");
    assert_eq!(get_display_name("en0", None), "Wi-Fi");
    assert_eq!(get_display_name("en0", Some(String::new())), "Wi-Fi");
    assert_eq!(get_display_name("wlan0", Some("HomeNet".to_string())), "Wi-Fi");
    assert_eq!(get_display_name("Wi-Fi", None), "Wi-Fi");
    assert_eq!(get_display_name("wifi0", None), "Wi-Fi");
}

#[test]
fn display_name_thunderbolt() {
    assert_eq!(get_display_name("Thunderbolt Bridge", None), "Thunderbolt");
    assert_eq!(get_display_name("thunderbolt1", None), "Thunderbolt");
}

#[test]
fn ssid_wanted_only_for_en0() {
    assert!(wants_wifi_ssid("en0"));
    assert!(wants_wifi_ssid("En0"));
    assert!(!wants_wifi_ssid("en1"));
    assert!(!wants_wifi_ssid("en0-bridge"));
    assert!(!wants_wifi_ssid("wlan0"));
}
