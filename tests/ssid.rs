use sysmon::ssid::{airport_ssid, iwgetid_ssid, netsh_ssid, nmcli_ssid};

#[test]
fn airport_output() {
    assert_eq!(airport_ssid("Current Wi-Fi Network: HomeNet\n"), Some("HomeNet".to_string()));
    assert_eq!(airport_ssid("Current Wi-Fi Network:  Cafe 5G  \r\nmore\n"), Some("Cafe 5G".to_string()));
    assert_eq!(airport_ssid("You are not associated with an AirPort network.\n"), None);
    assert_eq!(airport_ssid(""), None);
    assert_eq!(airport_ssid("first line\nCurrent Wi-Fi Network: Late\n"), None);
    assert_eq!(airport_ssid("Current Wi-Fi Network: \n"), None);
    assert_eq!(airport_ssid("Current Wi-Fi Network:    \r\n"), None);
}

#[test]
fn netsh_output() {
    let out = "\nThere is 1 interface on the system:\n\n    Name                   : Wi-Fi\n    State                  : connected\n    SSID                   : Office\n    BSSID                  : aa:bb:cc:dd:ee:ff\n";
    assert_eq!(netsh_ssid(out), Some("Office".to_string()));
    assert_eq!(netsh_ssid("    SSID   :   \r\n    SSID : Second\r\n"), Some("Second".to_string()));
    assert_eq!(netsh_ssid("    State : disconnected\n"), None);
    assert_eq!(netsh_ssid(""), None);
    assert_eq!(netsh_ssid("SSID no colon\n"), None);
}

#[test]
fn nmcli_output() {
    assert_eq!(nmcli_ssid("  HomeNet \n"), Some("HomeNet".to_string()));
    assert_eq!(nmcli_ssid(" \n\t"), None);
    assert_eq!(nmcli_ssid(""), None);
}

#[test]
fn iwgetid_output() {
    assert_eq!(iwgetid_ssid("HomeNet\n"), Some("HomeNet".to_string()));
    assert_eq!(iwgetid_ssid("any\n"), None);
    assert_eq!(iwgetid_ssid("anyway\n"), Some("anyway".to_string()));
    assert_eq!(iwgetid_ssid("\n"), None);
}
