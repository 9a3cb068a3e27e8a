//! Tests for the message and command types and their wire form.

use airhound::comm::serialize_message;
use airhound::protocol::{DeviceMessage, HostCommand, MatchReason, VERSION};

fn json_of(msg: &DeviceMessage) -> String {
    let buf = serialize_message(msg).unwrap();
    String::from_utf8(buf[..buf.len() - 1].to_vec()).unwrap()
}

// ── HostCommand ─────────────────────────────────────────────────────

#[test]
fn host_command_equality() {
    assert_eq!(HostCommand::Start, HostCommand::Start);
    assert_eq!(
        HostCommand::SetRssi { min_rssi: -75 },
        HostCommand::SetRssi { min_rssi: -75 }
    );
    assert_ne!(HostCommand::Start, HostCommand::Stop);
}

// ── DeviceMessage serialization ─────────────────────────────────────

#[test]
fn serialize_status_message() {
    let msg = DeviceMessage::Status {
        scanning: true,
        uptime: 120,
        heap_free: 48000,
        ble_clients: 1,
        board: "test_board",
        version: "0.1.0",
    };
    let json = json_of(&msg);
    assert!(json.contains(r#""type":"status""#));
    assert!(json.contains(r#""scanning":true"#));
    assert!(json.contains(r#""uptime":120"#));
    assert!(json.contains(r#""board":"test_board""#));
}

#[test]
fn serialize_wifi_scan_message() {
    let mut matches = Vec::new();
    matches.push(MatchReason {
        filter_type: "mac_oui",
        detail: b"Flock Safety".to_vec(),
    });

    let msg = DeviceMessage::WiFiScan {
        mac: b"B4:1E:52:AB:CD:EF".to_vec(),
        ssid: b"Flock-A1B2C3".to_vec(),
        rssi: -45,
        ch: 6,
        frame: "beacon",
        matches,
        rule: None,
        ts: 1000,
    };

    let json = json_of(&msg);
    assert!(json.contains(r#""type":"wifi""#));
    assert!(json.contains(r#""mac":"B4:1E:52:AB:CD:EF""#));
    assert!(json.contains(r#""ssid":"Flock-A1B2C3""#));
    assert!(json.contains(r#""rssi":-45"#));
    assert!(json.contains(r#""ch":6"#));
    assert!(json.contains(r#""frame":"beacon""#));
    assert!(json.contains(r#""match":[{"type":"mac_oui","detail":"Flock Safety"}]"#));
    assert!(json.contains(r#""ts":1000"#));
}

#[test]
fn serialize_ble_scan_message() {
    let msg = DeviceMessage::BleScan {
        mac: b"58:8E:81:AA:BB:CC".to_vec(),
        name: b"FS Ext Battery".to_vec(),
        rssi: -60,
        uuid: None,
        mfr: 0x09C8,
        matches: Vec::new(),
        rule: None,
        ts: 2000,
    };

    let json = json_of(&msg);
    assert!(json.contains(r#""type":"ble""#));
    assert!(json.contains(r#""name":"FS Ext Battery""#));
    assert!(json.contains(r#""mfr":2504"#)); // 0x09C8 = 2504
    assert!(!json.contains("uuid"));
}

#[test]
fn serialize_ble_scan_with_uuid() {
    let msg = DeviceMessage::BleScan {
        mac: b"00:11:22:33:44:55".to_vec(),
        name: b"Device".to_vec(),
        rssi: -70,
        uuid: Some(b"00003100-0000-1000-8000-00805f9b34fb".to_vec()),
        mfr: 0,
        matches: Vec::new(),
        rule: None,
        ts: 3000,
    };

    let json = json_of(&msg);
    assert!(json.contains(r#""uuid":"00003100-0000-1000-8000-00805f9b34fb""#));
}

// ── The optional rule field ─────────────────────────────────────────

#[test]
fn serialize_wifi_scan_with_rule() {
    let msg = DeviceMessage::WiFiScan {
        mac: b"B4:1E:52:AB:CD:EF".to_vec(),
        ssid: b"Flock-A1B2C3".to_vec(),
        rssi: -45,
        ch: 6,
        frame: "beacon",
        matches: Vec::new(),
        rule: Some("Flock Safety Camera"),
        ts: 1000,
    };

    let json = json_of(&msg);
    assert!(json.contains(r#""rule":"Flock Safety Camera""#));
}

#[test]
fn serialize_wifi_scan_without_rule_omits_field() {
    let msg = DeviceMessage::WiFiScan {
        mac: b"B4:1E:52:AB:CD:EF".to_vec(),
        ssid: b"Flock-A1B2C3".to_vec(),
        rssi: -45,
        ch: 6,
        frame: "beacon",
        matches: Vec::new(),
        rule: None,
        ts: 1000,
    };

    let json = json_of(&msg);
    assert!(!json.contains("rule"));
}

#[test]
fn serialize_ble_scan_with_rule() {
    let msg = DeviceMessage::BleScan {
        mac: b"00:00:00:00:00:00".to_vec(),
        name: b"".to_vec(),
        rssi: -50,
        uuid: None,
        mfr: 0,
        matches: Vec::new(),
        rule: Some("Apple AirTag"),
        ts: 5000,
    };

    let json = json_of(&msg);
    assert!(json.contains(r#""rule":"Apple AirTag""#));
}

#[test]
fn serialize_status_exact_line() {
    let msg = DeviceMessage::Status {
        scanning: false,
        uptime: 0,
        heap_free: 7,
        ble_clients: 2,
        board: "b",
        version: "0.1.0",
    };
    let buf = serialize_message(&msg).unwrap();
    assert_eq!(
        buf.as_slice(),
        br#"{"type":"status","scanning":false,"uptime":0,"heap_free":7,"ble_clients":2,"board":"b","version":"0.1.0"}
"#
    );
}

#[test]
fn serialize_wifi_exact_line() {
    let mut matches = Vec::new();
    matches.push(MatchReason {
        filter_type: "mac_oui",
        detail: b"Flock Safety".to_vec(),
    });
    let msg = DeviceMessage::WiFiScan {
        mac: b"B4:1E:52:01:02:03".to_vec(),
        ssid: b"Flock-A1B2C3".to_vec(),
        rssi: -50,
        ch: 6,
        frame: "beacon",
        matches,
        rule: Some("Flock Safety Camera"),
        ts: 42,
    };
    let buf = serialize_message(&msg).unwrap();
    assert_eq!(
        std::str::from_utf8(&buf).unwrap(),
        "{\"type\":\"wifi\",\"mac\":\"B4:1E:52:01:02:03\",\"ssid\":\"Flock-A1B2C3\",\"rssi\":-50,\"ch\":6,\"frame\":\"beacon\",\"match\":[{\"type\":\"mac_oui\",\"detail\":\"Flock Safety\"}],\"rule\":\"Flock Safety Camera\",\"ts\":42}\n"
    );
}

// ── Version constant ────────────────────────────────────────────────

#[test]
fn version_is_semver() {
    let parts: Vec<&str> = VERSION.split('.').collect();
    assert_eq!(parts.len(), 3, "VERSION should be semver (major.minor.patch)");
    for part in &parts {
        assert!(part.parse::<u32>().is_ok(), "'{part}' is not a number");
    }
}
