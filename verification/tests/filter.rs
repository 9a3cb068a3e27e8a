//! Tests for the signature matcher and its rule integration.

use airhound::defaults::{self, default_rule_db, default_signature_db};
use airhound::filter::{
    filter_ble, filter_ble_with_rules, filter_wifi, filter_wifi_with_rules, format_mac,
    BleScanInput, FilterConfig, WiFiScanInput,
};

fn default_config() -> FilterConfig {
    FilterConfig::new()
}

fn wifi_input(mac: [u8; 6], ssid: &str, rssi: i8) -> WiFiScanInput {
    WiFiScanInput {
        mac,
        ssid: ssid.as_bytes().to_vec(),
        rssi,
    }
}

fn ble_input(
    mac: [u8; 6],
    name: &str,
    rssi: i8,
    service_uuids_16: &[u16],
    manufacturer_id: u16,
    raw_ad: &[u8],
) -> BleScanInput {
    BleScanInput {
        mac,
        name: name.as_bytes().to_vec(),
        rssi,
        service_uuids_16: service_uuids_16.to_vec(),
        manufacturer_id,
        raw_ad: raw_ad.to_vec(),
    }
}

fn detail_text(detail: &[u8]) -> String {
    String::from_utf8(detail.to_vec()).unwrap()
}

// ── Wi-Fi filter ────────────────────────────────────────────────────

#[test]
fn wifi_known_flock_safety_mac_matches() {
    let config = default_config();
    let db = default_signature_db();
    let input = wifi_input([0xB4, 0x1E, 0x52, 0x01, 0x02, 0x03], "SomeNetwork", -50);
    let result = filter_wifi(&input, &config, &db);
    assert!(result.matched);
    assert!(result.matches.iter().any(|m| m.filter_type == "mac_oui"));
}

#[test]
fn wifi_silicon_labs_mac_matches() {
    let config = default_config();
    let db = default_signature_db();
    let input = wifi_input([0x58, 0x8E, 0x81, 0xAA, 0xBB, 0xCC], "", -60);
    let result = filter_wifi(&input, &config, &db);
    assert!(result.matched);
    assert_eq!(result.matches[0].filter_type, "mac_oui");
    assert!(detail_text(&result.matches[0].detail).contains("Silicon Labs"));
}

#[test]
fn wifi_ssid_pattern_flock_matches() {
    let config = default_config();
    let db = default_signature_db();
    let input = wifi_input([0x00, 0x00, 0x00, 0x00, 0x00, 0x00], "Flock-A1B2C3", -40);
    let result = filter_wifi(&input, &config, &db);
    assert!(result.matched);
    assert!(result
        .matches
        .iter()
        .any(|m| m.filter_type == "ssid_pattern"));
}

#[test]
fn wifi_ssid_pattern_penguin_matches() {
    let config = default_config();
    let db = default_signature_db();
    let input = wifi_input(
        [0x00, 0x00, 0x00, 0x00, 0x00, 0x00],
        "Penguin-1234567890",
        -40,
    );
    let result = filter_wifi(&input, &config, &db);
    assert!(result.matched);
    assert!(result
        .matches
        .iter()
        .any(|m| m.filter_type == "ssid_pattern"));
}

#[test]
fn wifi_ssid_pattern_flock_wrong_suffix_no_pattern_match() {
    let config = default_config();
    let db = default_signature_db();
    // Too short a suffix: the pattern must not fire, the keyword still does.
    let input = wifi_input([0x00, 0x00, 0x00, 0x00, 0x00, 0x00], "Flock-A1B", -40);
    let result = filter_wifi(&input, &config, &db);
    assert!(!result
        .matches
        .iter()
        .any(|m| m.filter_type == "ssid_pattern"));
    assert!(result.matched);
}

#[test]
fn wifi_ssid_exact_fs_ext_battery_matches() {
    let config = default_config();
    let db = default_signature_db();
    let input = wifi_input([0x00, 0x00, 0x00, 0x00, 0x00, 0x00], "FS Ext Battery", -40);
    let result = filter_wifi(&input, &config, &db);
    assert!(result.matched);
    assert!(result.matches.iter().any(|m| m.filter_type == "ssid_exact"));
}

#[test]
fn wifi_ssid_keyword_case_insensitive() {
    let config = default_config();
    let db = default_signature_db();
    let input = wifi_input([0x00, 0x00, 0x00, 0x00, 0x00, 0x00], "MyFLOCKNetwork", -40);
    let result = filter_wifi(&input, &config, &db);
    assert!(result.matched);
    assert!(result
        .matches
        .iter()
        .any(|m| m.filter_type == "ssid_keyword"));
}

#[test]
fn wifi_no_match_for_innocent_network() {
    let config = default_config();
    let db = default_signature_db();
    let input = wifi_input([0xAA, 0xBB, 0xCC, 0x01, 0x02, 0x03], "Linksys-Home", -50);
    let result = filter_wifi(&input, &config, &db);
    assert!(!result.matched);
    assert!(result.matches.is_empty());
}

#[test]
fn wifi_rssi_below_threshold_no_match() {
    let config = FilterConfig {
        min_rssi: -70,
        ..default_config()
    };
    let db = default_signature_db();
    let input = wifi_input([0xB4, 0x1E, 0x52, 0x01, 0x02, 0x03], "Flock-A1B2C3", -80);
    let result = filter_wifi(&input, &config, &db);
    assert!(!result.matched);
}

#[test]
fn wifi_disabled_no_match() {
    let config = FilterConfig {
        wifi_enabled: false,
        ..default_config()
    };
    let db = default_signature_db();
    let input = wifi_input([0xB4, 0x1E, 0x52, 0x01, 0x02, 0x03], "Flock-A1B2C3", -40);
    let result = filter_wifi(&input, &config, &db);
    assert!(!result.matched);
}

#[test]
fn wifi_multiple_match_reasons() {
    let config = default_config();
    let db = default_signature_db();
    let input = wifi_input([0xB4, 0x1E, 0x52, 0x01, 0x02, 0x03], "Flock-A1B2C3", -40);
    let result = filter_wifi(&input, &config, &db);
    assert!(result.matched);
    assert!(result.matches.len() >= 2);
}

#[test]
fn wifi_matches_capped_at_four() {
    let config = default_config();
    let db = default_signature_db();
    // OUI + pattern + keyword + name keyword would be five reasons.
    let input = wifi_input([0xB4, 0x1E, 0x52, 0x01, 0x02, 0x03], "Flock-A1B2C3", -40);
    let result = filter_wifi(&input, &config, &db);
    assert!(result.matches.len() <= 4);
    assert!(result.rule_names.len() <= 4);
}

// ── BLE filter ──────────────────────────────────────────────────────

#[test]
fn ble_name_flock_matches() {
    let config = default_config();
    let db = default_signature_db();
    let input = ble_input([0; 6], "Flock Camera", -50, &[], 0, &[]);
    let result = filter_ble(&input, &config, &db);
    assert!(result.matched);
    assert!(result.matches.iter().any(|m| m.filter_type == "ble_name"));
}

#[test]
fn ble_name_fs_ext_battery_matches() {
    let config = default_config();
    let db = default_signature_db();
    let input = ble_input([0; 6], "FS Ext Battery", -50, &[], 0, &[]);
    let result = filter_ble(&input, &config, &db);
    assert!(result.matched);
}

#[test]
fn ble_name_pigvision_case_insensitive() {
    let config = default_config();
    let db = default_signature_db();
    let input = ble_input([0; 6], "PIGVISION-device", -50, &[], 0, &[]);
    let result = filter_ble(&input, &config, &db);
    assert!(result.matched);
}

#[test]
fn ble_manufacturer_id_xuntong_matches() {
    let config = default_config();
    let db = default_signature_db();
    let input = ble_input([0; 6], "", -50, &[], 0x09C8, &[]);
    let result = filter_ble(&input, &config, &db);
    assert!(result.matched);
    assert!(result.matches.iter().any(|m| m.filter_type == "ble_mfr"));
}

#[test]
fn ble_raven_service_uuid_matches() {
    let config = default_config();
    let db = default_signature_db();
    let input = ble_input([0; 6], "", -50, &[0x3100], 0, &[]);
    let result = filter_ble(&input, &config, &db);
    assert!(result.matched);
    assert!(result.matches.iter().any(|m| m.filter_type == "ble_uuid"));
}

#[test]
fn ble_standard_uuid_matches() {
    let config = default_config();
    let db = default_signature_db();
    let input = ble_input([0; 6], "", -50, &[0x1819], 0, &[]);
    let result = filter_ble(&input, &config, &db);
    assert!(result.matched);
    assert!(result
        .matches
        .iter()
        .any(|m| m.filter_type == "ble_uuid_std"));
}

#[test]
fn ble_no_match_for_unknown_device() {
    let config = default_config();
    let db = default_signature_db();
    let input = ble_input(
        [0xAA, 0xBB, 0xCC, 0x01, 0x02, 0x03],
        "My Headphones",
        -50,
        &[0x180F],
        0x004C,
        &[],
    );
    let result = filter_ble(&input, &config, &db);
    assert!(!result.matched);
}

#[test]
fn ble_disabled_no_match() {
    let config = FilterConfig {
        ble_enabled: false,
        ..default_config()
    };
    let db = default_signature_db();
    let input = ble_input([0xB4, 0x1E, 0x52, 0x01, 0x02, 0x03], "Flock", -50, &[], 0x09C8, &[]);
    let result = filter_ble(&input, &config, &db);
    assert!(!result.matched);
}

#[test]
fn ble_rssi_below_threshold_no_match() {
    let config = FilterConfig {
        min_rssi: -60,
        ..default_config()
    };
    let db = default_signature_db();
    let input = ble_input([0xB4, 0x1E, 0x52, 0x01, 0x02, 0x03], "Flock", -70, &[], 0, &[]);
    let result = filter_ble(&input, &config, &db);
    assert!(!result.matched);
}

// ── BLE advertisement byte patterns ─────────────────────────────────

#[test]
fn ble_ad_bytes_airtag_findmy_matches() {
    let config = default_config();
    let db = default_signature_db();
    let raw_ad = [
        0x1B, 0xFF, 0x4C, 0x00, 0x12, 0x19, 0x00, 0x00, 0x00, 0x00, 0x00, 0x00, 0x00, 0x00, 0x00,
        0x00, 0x00, 0x00, 0x00, 0x00, 0x00, 0x00, 0x00, 0x00, 0x00, 0x00, 0x00, 0x00,
    ];
    let input = ble_input([0; 6], "", -50, &[], 0x004C, &raw_ad);
    let result = filter_ble(&input, &config, &db);
    assert!(result.matched);
    assert!(result
        .matches
        .iter()
        .any(|m| m.filter_type == "ble_ad_bytes" && m.detail.as_slice() == b"Apple AirTag"));
}

#[test]
fn ble_ad_bytes_flipper_zero_white_matches() {
    let config = default_config();
    let db = default_signature_db();
    let raw_ad = [
        0x02, 0x01, 0x06, // Flags
        0x05, 0xFF, 0x80, 0x30, 0x01, 0x02, // Manufacturer data with 0x80,0x30
    ];
    let input = ble_input([0; 6], "", -50, &[], 0, &raw_ad);
    let result = filter_ble(&input, &config, &db);
    assert!(result.matched);
    assert!(result
        .matches
        .iter()
        .any(|m| m.filter_type == "ble_ad_bytes" && m.detail.as_slice() == b"Flipper Zero"));
}

#[test]
fn ble_ad_bytes_flipper_zero_black_matches() {
    let config = default_config();
    let db = default_signature_db();
    let raw_ad = [0x04, 0xFF, 0x81, 0x30, 0x01];
    let input = ble_input([0; 6], "", -50, &[], 0, &raw_ad);
    let result = filter_ble(&input, &config, &db);
    assert!(result.matched);
    assert!(result
        .matches
        .iter()
        .any(|m| m.filter_type == "ble_ad_bytes"));
}

#[test]
fn ble_ad_bytes_airtag_wrong_offset_no_match() {
    let config = default_config();
    let db = default_signature_db();
    // FindMy bytes shifted by one inside the manufacturer data.
    let raw_ad = [0x06, 0xFF, 0x00, 0x4C, 0x00, 0x12, 0x19];
    let input = ble_input([0; 6], "", -50, &[], 0, &raw_ad);
    let result = filter_ble(&input, &config, &db);
    assert!(!result
        .matches
        .iter()
        .any(|m| m.detail.as_slice() == b"Apple AirTag"));
}

#[test]
fn ble_ad_bytes_no_match_for_random_data() {
    let config = default_config();
    let db = default_signature_db();
    let raw_ad = [0x02, 0x01, 0x06, 0x03, 0xFF, 0xAA, 0xBB];
    let input = ble_input([0; 6], "", -50, &[], 0, &raw_ad);
    let result = filter_ble(&input, &config, &db);
    assert!(!result
        .matches
        .iter()
        .any(|m| m.filter_type == "ble_ad_bytes"));
}

#[test]
fn ble_ad_bytes_empty_raw_ad_no_match() {
    let config = default_config();
    let db = default_signature_db();
    let input = ble_input([0; 6], "", -50, &[], 0, &[]);
    let result = filter_ble(&input, &config, &db);
    assert!(!result
        .matches
        .iter()
        .any(|m| m.filter_type == "ble_ad_bytes"));
}

// ── Bitset population ───────────────────────────────────────────────

#[test]
fn sig_matches_populated_for_wifi_mac_oui() {
    let config = default_config();
    let db = default_signature_db();
    let input = wifi_input([0xB4, 0x1E, 0x52, 0x01, 0x02, 0x03], "", -50);
    let result = filter_wifi(&input, &config, &db);
    assert!(result.sig_matches.get(defaults::SIG_IDX_MAC_OUI_START + 0));
}

#[test]
fn sig_matches_populated_for_wifi_ssid_pattern() {
    let config = default_config();
    let db = default_signature_db();
    let input = wifi_input([0; 6], "Flock-A1B2C3", -50);
    let result = filter_wifi(&input, &config, &db);
    assert!(result
        .sig_matches
        .get(defaults::SIG_IDX_SSID_PATTERN_START + 0));
    assert!(result
        .sig_matches
        .get(defaults::SIG_IDX_SSID_KEYWORD_START + 0));
}

#[test]
fn sig_matches_populated_for_wifi_ssid_exact() {
    let config = default_config();
    let db = default_signature_db();
    let input = wifi_input([0; 6], "FS Ext Battery", -50);
    let result = filter_wifi(&input, &config, &db);
    assert!(result
        .sig_matches
        .get(defaults::SIG_IDX_SSID_EXACT_START + 0));
}

#[test]
fn sig_matches_populated_for_ble_name() {
    let config = default_config();
    let db = default_signature_db();
    let input = ble_input([0; 6], "Flock Camera", -50, &[], 0, &[]);
    let result = filter_ble(&input, &config, &db);
    assert!(result.sig_matches.get(defaults::SIG_IDX_BLE_NAME_START + 0));
}

#[test]
fn sig_matches_populated_for_ble_uuid() {
    let config = default_config();
    let db = default_signature_db();
    let input = ble_input([0; 6], "", -50, &[0x3100], 0, &[]);
    let result = filter_ble(&input, &config, &db);
    assert!(result.sig_matches.get(defaults::SIG_IDX_BLE_UUID_START + 0));
}

#[test]
fn sig_matches_populated_for_ble_mfr() {
    let config = default_config();
    let db = default_signature_db();
    let input = ble_input([0; 6], "", -50, &[], 0x09C8, &[]);
    let result = filter_ble(&input, &config, &db);
    assert!(result.sig_matches.get(defaults::SIG_IDX_BLE_MFR_START + 0));
}

#[test]
fn sig_matches_populated_for_ble_ad_bytes() {
    let config = default_config();
    let db = default_signature_db();
    let raw_ad = [
        0x1B, 0xFF, 0x4C, 0x00, 0x12, 0x19, 0x00, 0x00, 0x00, 0x00, 0x00, 0x00, 0x00, 0x00, 0x00,
        0x00, 0x00, 0x00, 0x00, 0x00, 0x00, 0x00, 0x00, 0x00, 0x00, 0x00, 0x00, 0x00,
    ];
    let input = ble_input([0; 6], "", -50, &[], 0x004C, &raw_ad);
    let result = filter_ble(&input, &config, &db);
    assert!(result
        .sig_matches
        .get(defaults::SIG_IDX_BLE_AD_BYTES_START + 0));
}

// ── Rule integration ────────────────────────────────────────────────

#[test]
fn rule_flock_safety_camera_via_oui() {
    let config = default_config();
    let db = default_signature_db();
    let rdb = default_rule_db();
    let input = wifi_input([0xB4, 0x1E, 0x52, 0x01, 0x02, 0x03], "SomeNetwork", -50);
    let result = filter_wifi_with_rules(&input, &config, &db, &rdb);
    assert!(result.matched);
    assert!(result.rule_names.contains(&"Flock Safety Camera"));
}

#[test]
fn rule_flock_safety_camera_via_silicon_labs_oui() {
    let config = default_config();
    let db = default_signature_db();
    let rdb = default_rule_db();
    let input = wifi_input([0x58, 0x8E, 0x81, 0xAA, 0xBB, 0xCC], "", -50);
    let result = filter_wifi_with_rules(&input, &config, &db, &rdb);
    assert!(result.matched);
    assert!(result.rule_names.contains(&"Flock Safety Camera"));
}

#[test]
fn rule_flock_safety_camera_via_ssid_pattern() {
    let config = default_config();
    let db = default_signature_db();
    let rdb = default_rule_db();
    let input = wifi_input([0; 6], "Flock-A1B2C3", -50);
    let result = filter_wifi_with_rules(&input, &config, &db, &rdb);
    assert!(result.matched);
    assert!(result.rule_names.contains(&"Flock Safety Camera"));
}

#[test]
fn rule_flock_safety_camera_via_ssid_exact() {
    let config = default_config();
    let db = default_signature_db();
    let rdb = default_rule_db();
    let input = wifi_input([0; 6], "FS Ext Battery", -50);
    let result = filter_wifi_with_rules(&input, &config, &db, &rdb);
    assert!(result.matched);
    assert!(result.rule_names.contains(&"Flock Safety Camera"));
}

#[test]
fn rule_flock_safety_camera_via_ssid_keyword() {
    let config = default_config();
    let db = default_signature_db();
    let rdb = default_rule_db();
    let input = wifi_input([0; 6], "MyFlockThing", -50);
    let result = filter_wifi_with_rules(&input, &config, &db, &rdb);
    assert!(result.matched);
    assert!(result.rule_names.contains(&"Flock Safety Camera"));
}

#[test]
fn rule_flock_safety_camera_via_ble_name() {
    let config = default_config();
    let db = default_signature_db();
    let rdb = default_rule_db();
    let input = ble_input([0; 6], "Flock Camera", -50, &[], 0, &[]);
    let result = filter_ble_with_rules(&input, &config, &db, &rdb);
    assert!(result.matched);
    assert!(result.rule_names.contains(&"Flock Safety Camera"));
}

#[test]
fn rule_flock_safety_camera_via_allof_mfr_and_name() {
    let config = default_config();
    let db = default_signature_db();
    let rdb = default_rule_db();
    let input = ble_input([0; 6], "Flock Device", -50, &[], 0x09C8, &[]);
    let result = filter_ble_with_rules(&input, &config, &db, &rdb);
    assert!(result.matched);
    assert!(result.rule_names.contains(&"Flock Safety Camera"));
}

#[test]
fn rule_flock_safety_no_match_mfr_only() {
    let config = default_config();
    let db = default_signature_db();
    let rdb = default_rule_db();
    let input = ble_input([0; 6], "Random Device", -50, &[], 0x09C8, &[]);
    let result = filter_ble_with_rules(&input, &config, &db, &rdb);
    assert!(result.matched);
    assert!(!result.rule_names.contains(&"Flock Safety Camera"));
}

#[test]
fn rule_raven_acoustic_sensor_via_gps_uuid() {
    let config = default_config();
    let db = default_signature_db();
    let rdb = default_rule_db();
    let input = ble_input([0; 6], "", -50, &[0x3100], 0, &[]);
    let result = filter_ble_with_rules(&input, &config, &db, &rdb);
    assert!(result.matched);
    assert!(result.rule_names.contains(&"Raven Acoustic Sensor"));
}

#[test]
fn rule_raven_acoustic_sensor_via_error_uuid() {
    let config = default_config();
    let db = default_signature_db();
    let rdb = default_rule_db();
    let input = ble_input([0; 6], "", -50, &[0x3500], 0, &[]);
    let result = filter_ble_with_rules(&input, &config, &db, &rdb);
    assert!(result.matched);
    assert!(result.rule_names.contains(&"Raven Acoustic Sensor"));
}

#[test]
fn rule_raven_no_match_wrong_uuid() {
    let config = default_config();
    let db = default_signature_db();
    let rdb = default_rule_db();
    let input = ble_input([0; 6], "", -50, &[0x180A], 0, &[]);
    let result = filter_ble_with_rules(&input, &config, &db, &rdb);
    assert!(result.matched);
    assert!(!result.rule_names.contains(&"Raven Acoustic Sensor"));
}

#[test]
fn rule_apple_airtag_matches() {
    let config = default_config();
    let db = default_signature_db();
    let rdb = default_rule_db();
    let raw_ad = [
        0x1B, 0xFF, 0x4C, 0x00, 0x12, 0x19, 0x00, 0x00, 0x00, 0x00, 0x00, 0x00, 0x00, 0x00, 0x00,
        0x00, 0x00, 0x00, 0x00, 0x00, 0x00, 0x00, 0x00, 0x00, 0x00, 0x00, 0x00, 0x00,
    ];
    let input = ble_input([0; 6], "", -50, &[], 0x004C, &raw_ad);
    let result = filter_ble_with_rules(&input, &config, &db, &rdb);
    assert!(result.matched);
    assert!(result.rule_names.contains(&"Apple AirTag"));
}

#[test]
fn rule_apple_airtag_no_match_wrong_bytes() {
    let config = default_config();
    let db = default_signature_db();
    let rdb = default_rule_db();
    let raw_ad = [0x05, 0xFF, 0x4C, 0x00, 0x01, 0x02];
    let input = ble_input([0; 6], "", -50, &[], 0x004C, &raw_ad);
    let result = filter_ble_with_rules(&input, &config, &db, &rdb);
    assert!(!result.rule_names.contains(&"Apple AirTag"));
}

#[test]
fn rule_flipper_zero_white_matches() {
    let config = default_config();
    let db = default_signature_db();
    let rdb = default_rule_db();
    let raw_ad = [0x02, 0x01, 0x06, 0x05, 0xFF, 0x80, 0x30, 0x01, 0x02];
    let input = ble_input([0; 6], "", -50, &[], 0, &raw_ad);
    let result = filter_ble_with_rules(&input, &config, &db, &rdb);
    assert!(result.matched);
    assert!(result.rule_names.contains(&"Flipper Zero"));
}

#[test]
fn rule_flipper_zero_black_matches() {
    let config = default_config();
    let db = default_signature_db();
    let rdb = default_rule_db();
    let raw_ad = [0x04, 0xFF, 0x81, 0x30, 0x01];
    let input = ble_input([0; 6], "", -50, &[], 0, &raw_ad);
    let result = filter_ble_with_rules(&input, &config, &db, &rdb);
    assert!(result.matched);
    assert!(result.rule_names.contains(&"Flipper Zero"));
}

#[test]
fn rule_flipper_zero_no_match_wrong_bytes() {
    let config = default_config();
    let db = default_signature_db();
    let rdb = default_rule_db();
    let raw_ad = [0x04, 0xFF, 0x82, 0x30, 0x01];
    let input = ble_input([0; 6], "", -50, &[], 0, &raw_ad);
    let result = filter_ble_with_rules(&input, &config, &db, &rdb);
    assert!(!result.rule_names.contains(&"Flipper Zero"));
}

#[test]
fn rule_no_rules_for_innocent_device() {
    let config = default_config();
    let db = default_signature_db();
    let rdb = default_rule_db();
    let input = ble_input(
        [0xAA, 0xBB, 0xCC, 0x01, 0x02, 0x03],
        "My Headphones",
        -50,
        &[0x180F],
        0,
        &[],
    );
    let result = filter_ble_with_rules(&input, &config, &db, &rdb);
    assert!(!result.matched);
    assert!(result.rule_names.is_empty());
}

#[test]
fn rule_no_rules_for_wifi_innocent() {
    let config = default_config();
    let db = default_signature_db();
    let rdb = default_rule_db();
    let input = wifi_input([0xAA, 0xBB, 0xCC, 0x01, 0x02, 0x03], "Linksys-Home", -50);
    let result = filter_wifi_with_rules(&input, &config, &db, &rdb);
    assert!(!result.matched);
    assert!(result.rule_names.is_empty());
}

#[test]
fn rule_multiple_rules_can_match_same_event() {
    let config = default_config();
    let db = default_signature_db();
    let rdb = default_rule_db();
    let input = ble_input([0; 6], "Flock Device", -50, &[0x3100], 0, &[]);
    let result = filter_ble_with_rules(&input, &config, &db, &rdb);
    assert!(result.matched);
    assert!(result.rule_names.contains(&"Flock Safety Camera"));
    assert!(result.rule_names.contains(&"Raven Acoustic Sensor"));
    assert_eq!(result.rule_names.len(), 2);
}

#[test]
fn rule_disabled_scan_no_rules() {
    let config = FilterConfig {
        wifi_enabled: false,
        ..default_config()
    };
    let db = default_signature_db();
    let rdb = default_rule_db();
    let input = wifi_input([0xB4, 0x1E, 0x52, 0x01, 0x02, 0x03], "Flock-A1B2C3", -50);
    let result = filter_wifi_with_rules(&input, &config, &db, &rdb);
    assert!(!result.matched);
    assert!(result.rule_names.is_empty());
}

#[test]
fn rule_rssi_below_threshold_no_rules() {
    let config = FilterConfig {
        min_rssi: -40,
        ..default_config()
    };
    let db = default_signature_db();
    let rdb = default_rule_db();
    let input = wifi_input([0xB4, 0x1E, 0x52, 0x01, 0x02, 0x03], "Flock-A1B2C3", -50);
    let result = filter_wifi_with_rules(&input, &config, &db, &rdb);
    assert!(!result.matched);
    assert!(result.rule_names.is_empty());
}

#[test]
fn rule_fires_for_suffix_miss_via_keyword() {
    let config = default_config();
    let db = default_signature_db();
    let rdb = default_rule_db();
    // The suffix is too short for the structured pattern, but the
    // keyword branch still carries the rule.
    let input = wifi_input([0; 6], "Flock-A1B", -40);
    let result = filter_wifi_with_rules(&input, &config, &db, &rdb);
    assert!(!result
        .matches
        .iter()
        .any(|m| m.filter_type == "ssid_pattern"));
    assert!(result.rule_names.contains(&"Flock Safety Camera"));
}

#[test]
fn oui_reason_appears_at_most_once() {
    let config = default_config();
    let db = default_signature_db();
    // A MAC that matches a vendor, together with further checks firing.
    let input = wifi_input([0xB4, 0x1E, 0x52, 0x01, 0x02, 0x03], "Flock-A1B2C3", -40);
    let result = filter_wifi(&input, &config, &db);
    let oui_count = result
        .matches
        .iter()
        .filter(|m| m.filter_type == "mac_oui")
        .count();
    assert_eq!(oui_count, 1);
}

// ── Signature index consistency ─────────────────────────────────────

#[test]
fn sig_index_ranges_are_contiguous() {
    let db = default_signature_db();
    assert_eq!(defaults::SIG_IDX_MAC_OUI_START, 0);
    assert_eq!(
        defaults::SIG_IDX_SSID_PATTERN_START,
        defaults::SIG_IDX_MAC_OUI_START + db.mac_prefixes.len() as u16
    );
    assert_eq!(
        defaults::SIG_IDX_SSID_EXACT_START,
        defaults::SIG_IDX_SSID_PATTERN_START + db.ssid_patterns.len() as u16
    );
    assert_eq!(
        defaults::SIG_IDX_SSID_KEYWORD_START,
        defaults::SIG_IDX_SSID_EXACT_START + db.ssid_exact.len() as u16
    );
    assert_eq!(
        defaults::SIG_IDX_WIFI_NAME_START,
        defaults::SIG_IDX_SSID_KEYWORD_START + db.ssid_keywords.len() as u16
    );
    assert_eq!(
        defaults::SIG_IDX_BLE_NAME_START,
        defaults::SIG_IDX_WIFI_NAME_START + db.wifi_name_keywords.len() as u16
    );
    assert_eq!(
        defaults::SIG_IDX_BLE_UUID_START,
        defaults::SIG_IDX_BLE_NAME_START + db.ble_name_patterns.len() as u16
    );
    assert_eq!(
        defaults::SIG_IDX_BLE_STD_UUID_START,
        defaults::SIG_IDX_BLE_UUID_START + db.ble_service_uuids_16.len() as u16
    );
    assert_eq!(
        defaults::SIG_IDX_BLE_MFR_START,
        defaults::SIG_IDX_BLE_STD_UUID_START + db.ble_standard_uuids_16.len() as u16
    );
    assert_eq!(
        defaults::SIG_IDX_BLE_AD_BYTES_START,
        defaults::SIG_IDX_BLE_MFR_START + db.ble_manufacturer_ids.len() as u16
    );
}

#[test]
fn sig_count_fits_in_bitset() {
    let db = default_signature_db();
    let total = defaults::SIG_IDX_BLE_AD_BYTES_START as usize + db.ble_ad_bytes_patterns.len();
    assert_eq!(total, defaults::SIG_COUNT);
    assert!(
        defaults::SIG_COUNT <= airhound::rules::MAX_SIGNATURES,
        "SIG_COUNT {} exceeds MAX_SIGNATURES {}",
        defaults::SIG_COUNT,
        airhound::rules::MAX_SIGNATURES
    );
}

#[test]
fn default_rule_db_is_valid() {
    let db = default_rule_db();
    for rule in &db.rules {
        let end = rule.expr_start as usize + rule.expr_len as usize;
        assert!(
            end <= db.nodes.len(),
            "Rule '{}' references nodes [{}, {}) but pool has {} nodes",
            rule.name,
            rule.expr_start,
            end,
            db.nodes.len()
        );
    }
}

// ── format_mac ──────────────────────────────────────────────────────

#[test]
fn format_mac_correct_output() {
    let mac = [0xB4, 0x1E, 0x52, 0xAB, 0xCD, 0xEF];
    let mut buf = airhound::protocol::MacString::new();
    format_mac(&mac, &mut buf);
    assert_eq!(buf.as_slice(), b"B4:1E:52:AB:CD:EF");
}

#[test]
fn format_mac_zero_padded() {
    let mac = [0x00, 0x0A, 0x0B, 0x00, 0x00, 0x01];
    let mut buf = airhound::protocol::MacString::new();
    format_mac(&mac, &mut buf);
    assert_eq!(buf.as_slice(), b"00:0A:0B:00:00:01");
}
