//! Tests for the protocol plumbing: serialization, command parsing,
//! command handling and the line reader.

use airhound::comm::{
    handle_command, parse_command, serialize_message, trim_trailing_whitespace, LineReader,
};
use airhound::filter::FilterConfig;
use airhound::pipeline::chunk_for_notify;
use airhound::protocol::{DeviceMessage, HostCommand, MatchReason, VERSION};

// ── serialize_message ───────────────────────────────────────────────

#[test]
fn serialize_produces_ndjson() {
    let msg = DeviceMessage::Status {
        scanning: true,
        uptime: 60,
        heap_free: 32000,
        ble_clients: 0,
        board: "test",
        version: VERSION,
    };
    let buf = serialize_message(&msg).unwrap();
    let len = buf.len();
    assert!(len > 0);
    assert_eq!(buf[len - 1], b'\n');
    let json = std::str::from_utf8(&buf[..len - 1]).unwrap();
    assert!(json.starts_with('{'));
    assert!(json.ends_with('}'));
}

#[test]
fn serialize_wifi_scan_is_valid_json() {
    let msg = DeviceMessage::WiFiScan {
        mac: b"AA:BB:CC:DD:EE:FF".to_vec(),
        ssid: b"TestSSID".to_vec(),
        rssi: -50,
        ch: 1,
        frame: "beacon",
        matches: Vec::new(),
        rule: None,
        ts: 100,
    };
    let buf = serialize_message(&msg).unwrap();
    let json = std::str::from_utf8(&buf[..buf.len() - 1]).unwrap();
    assert!(json.contains("\"type\":\"wifi\""));
}

#[test]
fn serialize_has_no_embedded_newline() {
    let mut matches = Vec::new();
    matches.push(MatchReason {
        filter_type: "mac_oui",
        detail: b"Flock Safety".to_vec(),
    });
    let msg = DeviceMessage::BleScan {
        mac: b"58:8E:81:AA:BB:CC".to_vec(),
        name: b"Flock".to_vec(),
        rssi: -60,
        uuid: None,
        mfr: 0x09C8,
        matches,
        rule: Some("Flock Safety Camera"),
        ts: 12345,
    };
    let buf = serialize_message(&msg).unwrap();
    let newlines = buf.iter().filter(|&&b| b == b'\n').count();
    assert_eq!(newlines, 1);
    assert_eq!(*buf.last().unwrap(), b'\n');
}

#[test]
fn serialize_escapes_quotes_in_name() {
    let msg = DeviceMessage::BleScan {
        mac: b"00:00:00:00:00:00".to_vec(),
        name: b"a\"b".to_vec(),
        rssi: -50,
        uuid: None,
        mfr: 0,
        matches: Vec::new(),
        rule: None,
        ts: 0,
    };
    let buf = serialize_message(&msg).unwrap();
    let json = std::str::from_utf8(&buf[..buf.len() - 1]).unwrap();
    assert!(json.contains(r#""name":"a\"b""#));
}

#[test]
fn serialize_overlong_message_dropped() {
    // An SSID far past the 512-byte message budget cannot be framed.
    let msg = DeviceMessage::WiFiScan {
        mac: b"00:00:00:00:00:00".to_vec(),
        ssid: vec![b'A'; 600],
        rssi: -50,
        ch: 1,
        frame: "beacon",
        matches: Vec::new(),
        rule: None,
        ts: 0,
    };
    assert!(serialize_message(&msg).is_none());
}

// ── parse_command ───────────────────────────────────────────────────

#[test]
fn parse_start_command() {
    let cmd = parse_command(br#"{"cmd":"start"}"#).unwrap();
    assert!(matches!(cmd, HostCommand::Start));
}

#[test]
fn parse_stop_command() {
    let cmd = parse_command(br#"{"cmd":"stop"}"#).unwrap();
    assert!(matches!(cmd, HostCommand::Stop));
}

#[test]
fn parse_status_command() {
    let cmd = parse_command(br#"{"cmd":"status"}"#).unwrap();
    assert!(matches!(cmd, HostCommand::GetStatus));
}

#[test]
fn parse_set_rssi_command() {
    let cmd = parse_command(br#"{"cmd":"set_rssi","min_rssi":-80}"#).unwrap();
    match cmd {
        HostCommand::SetRssi { min_rssi } => assert_eq!(min_rssi, -80),
        _ => panic!("Expected SetRssi"),
    }
}

#[test]
fn parse_set_buzzer_command() {
    let cmd = parse_command(br#"{"cmd":"set_buzzer","enabled":true}"#).unwrap();
    match cmd {
        HostCommand::SetBuzzer { enabled } => assert!(enabled),
        _ => panic!("Expected SetBuzzer"),
    }
}

#[test]
fn parse_command_strips_trailing_whitespace() {
    let cmd = parse_command(b"{\"cmd\":\"start\"}\n  \r\n").unwrap();
    assert!(matches!(cmd, HostCommand::Start));
}

#[test]
fn parse_command_rejects_malformed_json() {
    assert!(parse_command(b"not json at all").is_none());
}

#[test]
fn parse_command_rejects_empty_input() {
    assert!(parse_command(b"").is_none());
    assert!(parse_command(b"   \n").is_none());
}

#[test]
fn parse_command_accepts_inner_whitespace() {
    let cmd = parse_command(b"{ \"cmd\" : \"set_rssi\" , \"min_rssi\" : -75 }").unwrap();
    assert_eq!(cmd, HostCommand::SetRssi { min_rssi: -75 });
}

#[test]
fn parse_command_fields_in_any_order() {
    let cmd = parse_command(br#"{"min_rssi":-70,"cmd":"set_rssi"}"#).unwrap();
    assert_eq!(cmd, HostCommand::SetRssi { min_rssi: -70 });
}

#[test]
fn parse_command_unknown_cmd_dropped() {
    assert!(parse_command(br#"{"cmd":"reboot"}"#).is_none());
}

#[test]
fn parse_command_missing_required_field_dropped() {
    assert!(parse_command(br#"{"cmd":"set_rssi"}"#).is_none());
    assert!(parse_command(br#"{"cmd":"set_buzzer"}"#).is_none());
}

#[test]
fn parse_command_rssi_out_of_range_dropped() {
    assert!(parse_command(br#"{"cmd":"set_rssi","min_rssi":-129}"#).is_none());
    assert!(parse_command(br#"{"cmd":"set_rssi","min_rssi":128}"#).is_none());
    let cmd = parse_command(br#"{"cmd":"set_rssi","min_rssi":-128}"#).unwrap();
    assert_eq!(cmd, HostCommand::SetRssi { min_rssi: -128 });
}

#[test]
fn parse_command_unknown_fields_skipped() {
    let cmd = parse_command(br#"{"cmd":"start","extra":"x","n":5,"b":false,"z":null}"#).unwrap();
    assert!(matches!(cmd, HostCommand::Start));
}

#[test]
fn parse_command_wrong_type_dropped() {
    assert!(parse_command(br#"{"cmd":5}"#).is_none());
    assert!(parse_command(br#"{"cmd":"set_buzzer","enabled":"yes"}"#).is_none());
}

// ── handle_command ──────────────────────────────────────────────────

#[test]
fn handle_start_sets_scanning_true() {
    let cmd = HostCommand::Start;
    let mut config = FilterConfig::new();
    let mut scanning = false;
    let result = handle_command(&cmd, &mut config, &mut scanning);
    assert!(scanning);
    assert!(result.is_none());
}

#[test]
fn handle_stop_sets_scanning_false() {
    let cmd = HostCommand::Stop;
    let mut config = FilterConfig::new();
    let mut scanning = true;
    let result = handle_command(&cmd, &mut config, &mut scanning);
    assert!(!scanning);
    assert!(result.is_none());
}

#[test]
fn handle_set_rssi_updates_config() {
    let cmd = HostCommand::SetRssi { min_rssi: -75 };
    let mut config = FilterConfig::new();
    let mut scanning = true;
    handle_command(&cmd, &mut config, &mut scanning);
    assert_eq!(config.min_rssi, -75);
}

#[test]
fn handle_set_buzzer_returns_state() {
    let cmd = HostCommand::SetBuzzer { enabled: false };
    let mut config = FilterConfig::new();
    let mut scanning = true;
    let result = handle_command(&cmd, &mut config, &mut scanning);
    assert_eq!(result, Some(false));

    let cmd = HostCommand::SetBuzzer { enabled: true };
    let result = handle_command(&cmd, &mut config, &mut scanning);
    assert_eq!(result, Some(true));
}

#[test]
fn handle_get_status_returns_none() {
    let cmd = HostCommand::GetStatus;
    let mut config = FilterConfig::new();
    let mut scanning = true;
    let result = handle_command(&cmd, &mut config, &mut scanning);
    assert!(result.is_none());
    assert!(scanning);
}

// ── LineReader ──────────────────────────────────────────────────────

#[test]
fn line_reader_yields_on_newline() {
    let mut reader = LineReader::new();
    assert!(reader.feed(b'h').is_none());
    assert!(reader.feed(b'i').is_none());
    let line = reader.feed(b'\n').unwrap();
    assert_eq!(line.as_slice(), b"hi");
}

#[test]
fn line_reader_yields_on_carriage_return() {
    let mut reader = LineReader::new();
    reader.feed(b'o');
    reader.feed(b'k');
    let line = reader.feed(b'\r').unwrap();
    assert_eq!(line.as_slice(), b"ok");
}

#[test]
fn line_reader_skips_empty_lines() {
    let mut reader = LineReader::new();
    assert!(reader.feed(b'\n').is_none());
    assert!(reader.feed(b'\r').is_none());
    assert!(reader.feed(b'\n').is_none());
}

#[test]
fn line_reader_accumulates_json() {
    let mut reader = LineReader::new();
    let json = br#"{"cmd":"start"}"#;
    for &byte in &json[..json.len() - 1] {
        assert!(reader.feed(byte).is_none());
    }
    assert!(reader.feed(json[json.len() - 1]).is_none());
    let line = reader.feed(b'\n').unwrap();
    assert_eq!(line.as_slice(), &json[..]);
}

#[test]
fn line_reader_handles_overflow() {
    let mut reader = LineReader::new();
    // Fill the 512-byte buffer completely.
    for i in 0..512 {
        reader.feed(b'A' + (i % 26) as u8);
    }
    // The next byte overflows and discards the line.
    assert!(reader.feed(b'X').is_none());
    assert!(reader.feed(b'\n').is_none());
    // New data works again.
    reader.feed(b'o');
    reader.feed(b'k');
    let line = reader.feed(b'\n').unwrap();
    assert_eq!(line.as_slice(), b"ok");
}

#[test]
fn line_reader_multiple_lines() {
    let mut reader = LineReader::new();
    for &b in b"line1\nline2\n" {
        if let Some(line) = reader.feed(b) {
            let s = std::str::from_utf8(&line).unwrap().to_string();
            assert!(s == "line1" || s == "line2");
        }
    }
}

#[test]
fn line_reader_round_trip_byte_by_byte() {
    // One line of fewer than 512 bytes comes back exactly once.
    let mut reader = LineReader::new();
    let line: Vec<u8> = (0..200).map(|i| b'a' + (i % 26) as u8).collect();
    let mut yielded = Vec::new();
    for &b in &line {
        assert!(reader.feed(b).is_none());
    }
    if let Some(out) = reader.feed(b'\n') {
        yielded.push(out);
    }
    assert_eq!(yielded.len(), 1);
    assert_eq!(yielded[0], line);
}

// ── trim_trailing_whitespace ────────────────────────────────────────

#[test]
fn trim_removes_trailing_whitespace_only() {
    assert_eq!(trim_trailing_whitespace(b"abc \r\n\t "), b"abc");
    assert_eq!(trim_trailing_whitespace(b"  abc"), b"  abc");
    assert_eq!(trim_trailing_whitespace(b" \n\t"), b"");
    assert_eq!(trim_trailing_whitespace(b""), b"");
}

// ── Notification chunking ───────────────────────────────────────────

#[test]
fn chunking_pads_with_newlines() {
    let msg = b"0123456789012345678901234";  // 25 bytes
    let chunks = chunk_for_notify(msg);
    assert_eq!(chunks.len(), 2);
    assert_eq!(&chunks[0][..], &msg[..20]);
    assert_eq!(&chunks[1][..5], &msg[20..]);
    assert!(chunks[1][5..].iter().all(|&b| b == b'\n'));
}

#[test]
fn chunking_exact_window_has_no_padding() {
    let msg = [7u8; 40];
    let chunks = chunk_for_notify(&msg);
    assert_eq!(chunks.len(), 2);
    assert!(chunks.iter().all(|c| c.iter().all(|&b| b == 7)));
}

#[test]
fn chunking_empty_message_yields_nothing() {
    let chunks = chunk_for_notify(&[]);
    assert!(chunks.is_empty());
}

// ── Command round trip through the RX path ──────────────────────────

#[test]
fn command_round_trip_updates_config() {
    let mut reader = LineReader::new();
    let mut config = FilterConfig::new();
    let mut scanning = true;
    let mut emitted: Vec<Vec<u8>> = Vec::new();

    for &b in br#"{"cmd":"set_rssi","min_rssi":-75}"#.iter().chain(b"\n".iter()) {
        if let Some(line) = reader.feed(b) {
            if let Some(cmd) = parse_command(&line) {
                let is_status = matches!(cmd, HostCommand::GetStatus);
                handle_command(&cmd, &mut config, &mut scanning);
                if is_status {
                    let msg = DeviceMessage::Status {
                        scanning,
                        uptime: 0,
                        heap_free: 0,
                        ble_clients: 0,
                        board: "host",
                        version: VERSION,
                    };
                    emitted.push(serialize_message(&msg).unwrap());
                }
            }
        }
    }
    assert_eq!(config.min_rssi, -75);
    assert!(emitted.is_empty());

    for &b in br#"{"cmd":"status"}"#.iter().chain(b"\n".iter()) {
        if let Some(line) = reader.feed(b) {
            if let Some(cmd) = parse_command(&line) {
                let is_status = matches!(cmd, HostCommand::GetStatus);
                handle_command(&cmd, &mut config, &mut scanning);
                if is_status {
                    let msg = DeviceMessage::Status {
                        scanning,
                        uptime: 5,
                        heap_free: 1024,
                        ble_clients: 0,
                        board: "host",
                        version: VERSION,
                    };
                    emitted.push(serialize_message(&msg).unwrap());
                }
            }
        }
    }
    assert_eq!(emitted.len(), 1);
    let json = std::str::from_utf8(&emitted[0]).unwrap();
    assert!(json.contains(r#""scanning":true"#));
    assert!(json.contains(r#""uptime":5"#));
}
