//! Message and command types of the NDJSON protocol.
//!
//! Uplink messages (`DeviceMessage`) are serialized to one JSON object
//! per line; downlink commands (`HostCommand`) are parsed from one JSON
//! object per line. The codec itself lives in `comm`.

use vstd::prelude::*;

verus! {

/// Bytes of a formatted MAC address, `AA:BB:CC:DD:EE:FF`.
pub type MacString = Vec<u8>;

/// Bytes of an SSID or BLE local name.
pub type NameString = Vec<u8>;

/// Bytes of a full 128-bit UUID in text form.
pub type UuidString = Vec<u8>;

/// Bytes of a filter match detail, at most 32 of them.
pub type MatchDetail = Vec<u8>;

/// Firmware version string.
pub const VERSION: &'static str = "0.1.0";

/// Maximum size of a serialized JSON message, newline included.
pub const MAX_MSG_LEN: usize = 512;

/// Buffer for one serialized JSON message.
pub type MsgBuffer = Vec<u8>;

/// A single filter match reason.
#[derive(Debug, Clone)]
pub struct MatchReason {
    /// Which filter kind matched: `mac_oui`, `ssid_pattern`, `ssid_exact`,
    /// `ssid_keyword`, `wifi_name`, `ble_name`, `ble_uuid`, `ble_uuid_std`,
    /// `ble_mfr` or `ble_ad_bytes`.
    pub filter_type: &'static str,
    /// Human-readable detail, truncated to 32 bytes.
    pub detail: MatchDetail,
}

/// A message from the device to the companion application.
#[derive(Debug)]
pub enum DeviceMessage {
    /// A Wi-Fi scan result that passed the filter.
    WiFiScan {
        mac: MacString,
        ssid: NameString,
        rssi: i8,
        ch: u8,
        /// Frame kind: `beacon`, `probe_req`, `probe_resp`, `data` or `other`.
        frame: &'static str,
        /// Why this result matched.
        matches: Vec<MatchReason>,
        /// First matched rule name, if any.
        rule: Option<&'static str>,
        /// Uptime in milliseconds when captured.
        ts: u32,
    },
    /// A BLE scan result that passed the filter.
    BleScan {
        mac: MacString,
        name: NameString,
        rssi: i8,
        /// Primary service UUID in text form, when detected.
        uuid: Option<UuidString>,
        /// Manufacturer company ID.
        mfr: u16,
        /// Why this result matched.
        matches: Vec<MatchReason>,
        /// First matched rule name, if any.
        rule: Option<&'static str>,
        /// Uptime in milliseconds when captured.
        ts: u32,
    },
    /// A periodic device status report.
    Status {
        scanning: bool,
        /// Uptime in seconds.
        uptime: u32,
        /// Free heap in bytes.
        heap_free: u32,
        /// Number of connected BLE clients.
        ble_clients: u8,
        /// Board identifier.
        board: &'static str,
        /// Firmware version.
        version: &'static str,
    },
}

/// A command from the companion application to the device.
#[derive(Debug, PartialEq, Eq, Structural)]
pub enum HostCommand {
    /// Start scanning.
    Start,
    /// Stop scanning.
    Stop,
    /// Request a fresh status message.
    GetStatus,
    /// Update the minimum RSSI threshold.
    SetRssi { min_rssi: i8 },
    /// Enable or disable the buzzer.
    SetBuzzer { enabled: bool },
}

/// The view of a reason list: each entry's kind and detail bytes.
pub open spec fn reason_views(ms: Seq<MatchReason>) -> Seq<(Seq<char>, Seq<u8>)> {
    ms.map_values(|r: MatchReason| (r.filter_type@, r.detail@))
}

} // verus!
