//! The per-event steps between the matcher and the transports: turning
//! a matched observation into its uplink message, and chunking messages
//! for the notification window.
//!
//! The surrounding loop — receiving events, counting matches, pushing
//! buffers into channels — is transport glue and lives outside the
//! library; it composes these steps with the matcher and the codec.

use vstd::prelude::*;

use crate::filter::{spec_mac_string, format_mac, FilterResult};
use crate::protocol::{DeviceMessage, MacString};
use crate::scanner::{BleEvent, FrameType, WiFiEvent};

verus! {

/// Build the uplink message of one matched Wi-Fi observation: the
/// formatted transmitter address, the observation fields, the match
/// reasons, and the first fired rule name if any rule fired.
pub fn build_wifi_message(event: &WiFiEvent, result: FilterResult, ts: u32) -> (m: DeviceMessage)
    ensures
        match m {
            DeviceMessage::WiFiScan { mac, ssid, rssi, ch, frame, matches, rule, ts: mts } => {
                &&& mac@ == spec_mac_string(event.mac@)
                &&& ssid@ == event.ssid@
                &&& rssi == event.rssi
                &&& ch == event.channel
                &&& match event.frame_type {
                    FrameType::Beacon => frame@ == "beacon"@,
                    FrameType::ProbeRequest => frame@ == "probe_req"@,
                    FrameType::ProbeResponse => frame@ == "probe_resp"@,
                    FrameType::Data => frame@ == "data"@,
                    FrameType::Other => frame@ == "other"@,
                }
                &&& matches == result.matches
                &&& rule == (if result.rule_names@.len() > 0 {
                    Some(result.rule_names@[0])
                } else {
                    None::<&'static str>
                })
                &&& mts == ts
            },
            _ => false,
        },
{
    let mut mac_str: MacString = Vec::new();
    format_mac(&event.mac, &mut mac_str);
    proof {
        assert(Seq::<u8>::empty() + spec_mac_string(event.mac@) =~= spec_mac_string(event.mac@));
    }
    let rule: Option<&'static str> = if result.rule_names.len() > 0 {
        Some(*vstd::slice::slice_index_get(result.rule_names.as_slice(), 0))
    } else {
        None
    };
    let mut ssid: Vec<u8> = Vec::new();
    ssid.extend_from_slice(event.ssid.as_slice());
    proof {
        assert(ssid@ =~= event.ssid@);
    }
    DeviceMessage::WiFiScan {
        mac: mac_str,
        ssid,
        rssi: event.rssi,
        ch: event.channel,
        frame: event.frame_type.as_str(),
        matches: result.matches,
        rule,
        ts,
    }
}

/// Build the uplink message of one matched BLE observation.
pub fn build_ble_message(event: &BleEvent, result: FilterResult, ts: u32) -> (m: DeviceMessage)
    ensures
        match m {
            DeviceMessage::BleScan { mac, name, rssi, uuid, mfr, matches, rule, ts: mts } => {
                &&& mac@ == spec_mac_string(event.mac@)
                &&& name@ == event.name@
                &&& rssi == event.rssi
                &&& uuid is None
                &&& mfr == event.manufacturer_id
                &&& matches == result.matches
                &&& rule == (if result.rule_names@.len() > 0 {
                    Some(result.rule_names@[0])
                } else {
                    None::<&'static str>
                })
                &&& mts == ts
            },
            _ => false,
        },
{
    let mut mac_str: MacString = Vec::new();
    format_mac(&event.mac, &mut mac_str);
    proof {
        assert(Seq::<u8>::empty() + spec_mac_string(event.mac@) =~= spec_mac_string(event.mac@));
    }
    let rule: Option<&'static str> = if result.rule_names.len() > 0 {
        Some(*vstd::slice::slice_index_get(result.rule_names.as_slice(), 0))
    } else {
        None
    };
    let mut name: Vec<u8> = Vec::new();
    name.extend_from_slice(event.name.as_slice());
    proof {
        assert(name@ =~= event.name@);
    }
    DeviceMessage::BleScan {
        mac: mac_str,
        name,
        rssi: event.rssi,
        uuid: None,
        mfr: event.manufacturer_id,
        matches: result.matches,
        rule,
        ts,
    }
}

/// Cut one message into notification-sized chunks, each padded to
/// exactly 20 bytes with newlines, so a companion's NDJSON reader sees
/// blank lines rather than stray bytes. An empty message yields no
/// chunks.
pub fn chunk_for_notify(msg: &[u8]) -> (r: Vec<[u8; 20]>)
    ensures
        r@.len() == (msg@.len() + 19) / 20,
        forall|k: int, j: int|
            0 <= k < r@.len() && 0 <= j < 20 ==> (#[trigger] r@[k]@[j]) == (if 20 * k + j
                < msg@.len() {
                msg@[20 * k + j]
            } else {
                10u8
            }),
{
    let n = msg.len();
    let mut r: Vec<[u8; 20]> = Vec::new();
    let mut off: usize = 0;
    while off < n
        invariant
            n == msg@.len(),
            off <= n,
            off <= 20 * r@.len() && 20 * r@.len() < off + 20,
            off < n ==> off == 20 * r@.len(),
            forall|k: int, j: int|
                0 <= k < r@.len() && 0 <= j < 20 ==> (#[trigger] r@[k]@[j]) == (if 20 * k + j
                    < msg@.len() {
                    msg@[20 * k + j]
                } else {
                    10u8
                }),
        decreases n - off,
    {
        let mut chunk: [u8; 20] = [10u8; 20];
        let take = if n - off < 20 {
            n - off
        } else {
            20
        };
        let mut j: usize = 0;
        while j < take
            invariant
                n == msg@.len(),
                off + take <= n,
                take <= 20,
                j <= take,
                forall|x: int| 0 <= x < j ==> chunk@[x] == msg@[off + x],
                forall|x: int| j <= x < 20 ==> chunk@[x] == 10u8,
            decreases take - j,
        {
            chunk[j] = *vstd::slice::slice_index_get(msg, off + j);
            j += 1;
        }
        r.push(chunk);
        off += take;
        proof {
            if take < 20 {
                assert(off == n);
            }
        }
    }
    proof {
        assert(r@.len() == (msg@.len() + 19) / 20) by (nonlinear_arith)
            requires
                msg@.len() == off,
                off <= 20 * r@.len(),
                20 * r@.len() < off + 20,
        ;
    }
    r
}

} // verus!
