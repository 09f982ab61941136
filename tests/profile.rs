use aurora_backend::profile::profile_matches;
use aurora_backend::controller::collect_networks;
use aurora_backend::network::ScanResult;
use aurora_backend::profile::{
    forget_target, profile_ssid, saved_ssids, Setting, SettingValue, SettingsGroup,
};

fn group(name: &str, settings: Vec<Setting>) -> SettingsGroup {
    SettingsGroup { name: name.to_string(), settings }
}

fn bytes(key: &str, b: &[u8]) -> Setting {
    Setting { key: key.to_string(), value: SettingValue::Bytes(b.to_vec()) }
}

fn text(key: &str, t: &str) -> Setting {
    Setting { key: key.to_string(), value: SettingValue::Text(t.to_string()) }
}

fn wifi_profile(ssid: &str) -> Vec<SettingsGroup> {
    vec![
        group("connection", vec![text("id", ssid), text("type", "802-11-wireless")]),
        group("802-11-wireless", vec![text("mode", "infrastructure"), bytes("ssid", ssid.as_bytes())]),
    ]
}

fn wired_profile() -> Vec<SettingsGroup> {
    vec![group("connection", vec![text("id", "Wired"), text("type", "802-3-ethernet")])]
}

#[test]
fn profile_ssid_reads_wireless_bytes() {
    assert_eq!(profile_ssid(&wifi_profile("Home")), Some("Home".to_string()));
    assert_eq!(profile_ssid(&wifi_profile("Café")), Some("Café".to_string()));
}

#[test]
fn profile_without_wireless_group_has_no_ssid() {
    assert_eq!(profile_ssid(&wired_profile()), None);
    assert_eq!(profile_ssid(&vec![]), None);
}

#[test]
fn invalid_utf8_ssid_is_skipped() {
    let p = vec![group("802-11-wireless", vec![bytes("ssid", &[0xff, 0xfe, 0x41])])];
    assert_eq!(profile_ssid(&p), None);
}

#[test]
fn ssid_stored_as_text_is_not_read() {
    let p = vec![group("802-11-wireless", vec![text("ssid", "Home")])];
    assert_eq!(profile_ssid(&p), None);
}

#[test]
fn saved_ssids_collects_readable_identifiers() {
    let profiles = vec![wifi_profile("Home"), wired_profile(), wifi_profile("Office")];
    let saved = saved_ssids(&profiles);
    assert_eq!(saved, vec!["Home".to_string(), "Office".to_string()]);
}

#[test]
fn forget_nonexistent_finds_nothing_to_delete() {
    let profiles = vec![wifi_profile("Home"), wifi_profile("Office")];
    assert_eq!(forget_target(&"Nonexistent".to_string(), &profiles), None);
}

#[test]
fn forget_picks_first_matching_profile() {
    let profiles = vec![wired_profile(), wifi_profile("Office"), wifi_profile("Home"), wifi_profile("Office")];
    assert_eq!(forget_target(&"Office".to_string(), &profiles), Some(1));
    assert_eq!(forget_target(&"Home".to_string(), &profiles), Some(2));
    assert_eq!(forget_target(&"home".to_string(), &profiles), None);
}

#[test]
fn forget_with_no_profiles_finds_nothing() {
    assert_eq!(forget_target(&"Home".to_string(), &vec![]), None);
}

#[test]
fn listed_networks_use_saved_profiles() {
    let scan = vec![ScanResult { ssid: "CafeWifi".to_string(), bssid: None, strength: Some(80) }];
    let out = collect_networks(Some(scan), None, Some(vec![wifi_profile("CafeWifi")]));
    assert_eq!(out.len(), 1);
    assert!(out[0].is_known);
    assert!(!out[0].is_active);
}

#[test]
fn profile_matches_exact_identifier() {
    assert!(profile_matches(&"Home".to_string(), &wifi_profile("Home")));
    assert!(!profile_matches(&"Home".to_string(), &wifi_profile("Home2")));
    assert!(!profile_matches(&"Wired".to_string(), &wired_profile()));
}
