use aurora_backend::controller::{collect_networks, RsContext};
use aurora_backend::network::{contains_ssid, merge_networks, NetworkEntry, ScanResult};

fn scan(ssid: &str, bssid: Option<&str>, strength: Option<u8>) -> ScanResult {
    ScanResult {
        ssid: ssid.to_string(),
        bssid: bssid.map(|b| b.to_string()),
        strength,
    }
}

fn names(v: &[NetworkEntry]) -> Vec<String> {
    v.iter().map(|e| e.ssid.clone()).collect()
}

#[test]
fn single_known_network_not_active() {
    let out = merge_networks(
        &vec![scan("CafeWifi", None, Some(80))],
        &None,
        &vec!["CafeWifi".to_string()],
    );
    assert_eq!(out.len(), 1);
    assert!(!out[0].is_active);
    assert!(out[0].is_known);
    assert!(out[0].is_secure);
    assert_eq!(out[0].strength, 80);
    assert_eq!(out[0].connectivity_state, 0);
    assert_eq!(out[0].object_path, "");
}

#[test]
fn known_network_ahead_of_weaker_unknown() {
    let out = merge_networks(
        &vec![scan("Other", None, Some(40)), scan("CafeWifi", None, Some(80))],
        &None,
        &vec!["CafeWifi".to_string()],
    );
    assert_eq!(names(&out), vec!["CafeWifi", "Other"]);
}

#[test]
fn known_flag_is_exact_membership() {
    let out = merge_networks(
        &vec![scan("Home", None, Some(10)), scan("home", None, Some(10)), scan("Home ", None, Some(10))],
        &None,
        &vec!["Home".to_string()],
    );
    assert_eq!(names(&out), vec!["Home", "home", "Home "]);
    assert!(out[0].is_known);
    assert!(!out[1].is_known);
    assert!(!out[2].is_known);
}

#[test]
fn active_entry_first_and_activated() {
    let out = merge_networks(
        &vec![
            scan("A", Some("aa:aa"), Some(90)),
            scan("B", Some("bb:bb"), Some(20)),
            scan("C", None, None),
        ],
        &Some("B".to_string()),
        &vec!["A".to_string()],
    );
    assert_eq!(names(&out), vec!["B", "A", "C"]);
    assert!(out[0].is_active);
    assert_eq!(out[0].connectivity_state, 4);
    assert_eq!(out[0].object_path, "bb:bb");
    assert_eq!(out.iter().filter(|e| e.is_active).count(), 1);
    assert_eq!(out[2].strength, 0);
}

#[test]
fn no_active_identifier_means_none_active() {
    let out = merge_networks(
        &vec![scan("A", None, Some(1)), scan("B", None, Some(2))],
        &None,
        &vec![],
    );
    assert!(out.iter().all(|e| !e.is_active));
    assert!(out.iter().all(|e| e.connectivity_state == 0));
}

#[test]
fn ties_keep_scan_order() {
    let out = merge_networks(
        &vec![
            scan("X", Some("1"), Some(50)),
            scan("Y", Some("2"), Some(70)),
            scan("Z", Some("3"), Some(50)),
            scan("W", Some("4"), Some(50)),
        ],
        &None,
        &vec![],
    );
    assert_eq!(names(&out), vec!["Y", "X", "Z", "W"]);
}

#[test]
fn order_is_active_then_known_then_strength() {
    let out = merge_networks(
        &vec![
            scan("weak-known", None, Some(10)),
            scan("strong-unknown", None, Some(99)),
            scan("active", None, Some(5)),
            scan("strong-known", None, Some(60)),
        ],
        &Some("active".to_string()),
        &vec!["weak-known".to_string(), "strong-known".to_string()],
    );
    assert_eq!(names(&out), vec!["active", "strong-known", "weak-known", "strong-unknown"]);
}

#[test]
fn empty_scan_gives_empty_list() {
    let out = merge_networks(&vec![], &Some("A".to_string()), &vec!["A".to_string()]);
    assert!(out.is_empty());
}

#[test]
fn unreachable_service_lists_nothing() {
    let out = collect_networks(None, None, None);
    assert!(out.is_empty());
}

#[test]
fn failed_profile_listing_marks_nothing_known() {
    let out = collect_networks(Some(vec![scan("Home", None, Some(30))]), None, None);
    assert_eq!(out.len(), 1);
    assert!(!out[0].is_known);
}

#[test]
fn contains_ssid_matches_exactly() {
    let saved = vec!["Home".to_string(), "Office".to_string()];
    assert!(contains_ssid(&saved, &"Office".to_string()));
    assert!(!contains_ssid(&saved, &"office".to_string()));
    assert!(!contains_ssid(&vec![], &"Home".to_string()));
}

#[test]
fn context_can_be_created() {
    let _ctx = RsContext::new();
}

#[test]
fn every_access_point_of_the_active_network_is_active() {
    let out = merge_networks(
        &vec![scan("Home", Some("1"), Some(30)), scan("Home", Some("2"), Some(60)), scan("Cafe", None, Some(90))],
        &Some("Home".to_string()),
        &vec![],
    );
    assert_eq!(names(&out), vec!["Home", "Home", "Cafe"]);
    assert_eq!(out[0].object_path, "2");
    assert!(out[0].is_active && out[1].is_active && !out[2].is_active);
}
