//! Wire parsers: raw 802.11 frames and BLE advertisement structures
//! into structured scan events.
//!
//! Both parsers are total over arbitrary bytes: anything malformed is
//! cut short cleanly, and names are truncated rather than rejected.

use vstd::prelude::*;

use crate::filter::spec_trunc32;

verus! {

/// Default dwell time per Wi-Fi channel, in milliseconds.
pub const DEFAULT_DWELL_MS: u64 = 120;

/// The 2.4 GHz Wi-Fi channels the sniffer cycles through.
pub fn wifi_channels() -> (r: Vec<u8>)
    ensures
        r@ == seq![1u8, 2, 3, 4, 5, 6, 7, 8, 9, 10, 11, 12, 13],
{
    let r: Vec<u8> = vec![1, 2, 3, 4, 5, 6, 7, 8, 9, 10, 11, 12, 13];
    proof {
        assert(r@ =~= seq![1u8, 2, 3, 4, 5, 6, 7, 8, 9, 10, 11, 12, 13]);
    }
    r
}

/// The classification of a parsed Wi-Fi frame.
#[derive(Debug, Clone, Copy, PartialEq, Eq, Structural)]
pub enum FrameType {
    Beacon,
    ProbeRequest,
    ProbeResponse,
    Data,
    Other,
}

impl FrameType {
    /// The wire name of the frame kind.
    pub fn as_str(&self) -> (r: &'static str)
        ensures
            match self {
                FrameType::Beacon => r@ == "beacon"@,
                FrameType::ProbeRequest => r@ == "probe_req"@,
                FrameType::ProbeResponse => r@ == "probe_resp"@,
                FrameType::Data => r@ == "data"@,
                FrameType::Other => r@ == "other"@,
            },
    {
        match self {
            FrameType::Beacon => "beacon",
            FrameType::ProbeRequest => "probe_req",
            FrameType::ProbeResponse => "probe_resp",
            FrameType::Data => "data",
            FrameType::Other => "other",
        }
    }
}

/// A parsed Wi-Fi frame observation.
#[derive(Debug)]
pub struct WiFiEvent {
    pub mac: [u8; 6],
    pub ssid: Vec<u8>,
    pub rssi: i8,
    pub channel: u8,
    pub frame_type: FrameType,
}

/// A parsed BLE advertisement observation.
#[derive(Debug)]
pub struct BleEvent {
    pub mac: [u8; 6],
    pub name: Vec<u8>,
    pub rssi: i8,
    /// 16-bit service UUIDs from the advertisement, at most eight.
    pub service_uuids_16: Vec<u16>,
    /// Manufacturer company ID, zero when absent.
    pub manufacturer_id: u16,
    /// The raw advertisement bytes, kept for byte-pattern matching.
    pub raw_ad: Vec<u8>,
}

/// One scan event for the filter stage.
#[derive(Debug)]
pub enum ScanEvent {
    WiFi(WiFiEvent),
    Ble(BleEvent),
}

// ── 802.11 management frames ────────────────────────────────────────

/// The management subtype a frame-control byte announces, when it is
/// one the parser decodes in full.
pub open spec fn spec_mgmt_kind(frame: Seq<u8>) -> Option<FrameType> {
    if frame.len() >= 1 {
        if frame[0] == 0x80 {
            Some(FrameType::Beacon)
        } else if frame[0] == 0x40 {
            Some(FrameType::ProbeRequest)
        } else if frame[0] == 0x50 {
            Some(FrameType::ProbeResponse)
        } else {
            None
        }
    } else {
        None
    }
}

/// Where the information elements of a management frame begin: after
/// the 24-byte header, and after the 12 fixed bytes of a beacon or
/// probe response body.
pub open spec fn spec_body_offset(k: FrameType) -> int {
    match k {
        FrameType::ProbeRequest => 24,
        _ => 36,
    }
}

/// The structured decode succeeds when the frame announces a known
/// management subtype and is long enough to hold its fixed part.
pub open spec fn spec_structured(frame: Seq<u8>) -> Option<(FrameType, int)> {
    match spec_mgmt_kind(frame) {
        Some(k) => if frame.len() >= spec_body_offset(k) {
            Some((k, spec_body_offset(k)))
        } else {
            None
        },
        None => None,
    }
}

/// The SSID bytes in an information-element list: the data of the
/// first element with ID zero. A truncated element, or no SSID at all,
/// yields the empty name.
pub open spec fn spec_find_ssid(e: Seq<u8>) -> Seq<u8>
    decreases e.len(),
{
    if e.len() < 2 {
        Seq::empty()
    } else {
        let l = e[1] as int;
        if 2 + l > e.len() {
            Seq::empty()
        } else if e[0] == 0 {
            e.subrange(2, 2 + l)
        } else {
            spec_find_ssid(e.skip(2 + l))
        }
    }
}

/// Find the SSID element's data in the information elements starting
/// at `from`.
fn find_ssid(frame: &[u8], from: usize) -> (r: Vec<u8>)
    requires
        from <= frame@.len(),
    ensures
        r@ == spec_find_ssid(frame@.skip(from as int)),
{
    let n = frame.len();
    let mut pos = from;
    loop
        invariant_except_break
            n == frame@.len(),
            from <= pos <= n,
            spec_find_ssid(frame@.skip(from as int)) == spec_find_ssid(frame@.skip(pos as int)),
        ensures
            pos <= n,
            if pos + 2 <= n && pos + 2 + frame@[pos + 1] as int <= n && frame@[pos as int]
                == 0 {
                spec_find_ssid(frame@.skip(from as int)) == frame@.subrange(
                    pos + 2,
                    pos + 2 + frame@[pos + 1] as int,
                )
            } else {
                spec_find_ssid(frame@.skip(from as int)) == Seq::<u8>::empty()
            },
        decreases n - pos,
    {
        let ghost rest = frame@.skip(pos as int);
        if n - pos < 2 {
            proof {
                assert(rest.len() < 2);
            }
            break ;
        }
        proof {
            assert(rest[0] == frame@[pos as int]);
            assert(rest[1] == frame@[pos + 1]);
        }
        let id = *vstd::slice::slice_index_get(frame, pos);
        let l = *vstd::slice::slice_index_get(frame, pos + 1) as usize;
        if l > n - pos - 2 {
            proof {
                assert(2 + (rest[1] as int) > rest.len());
            }
            break ;
        }
        if id == 0 {
            proof {
                assert(rest.subrange(2, 2 + rest[1] as int) =~= frame@.subrange(
                    pos + 2,
                    pos + 2 + frame@[pos + 1] as int,
                ));
            }
            break ;
        }
        proof {
            assert(rest.skip(2 + rest[1] as int) =~= frame@.skip(pos + 2 + frame@[pos + 1] as int));
        }
        pos = pos + 2 + l;
    }
    if n - pos >= 2 {
        let id = *vstd::slice::slice_index_get(frame, pos);
        let l = *vstd::slice::slice_index_get(frame, pos + 1) as usize;
        if l <= n - pos - 2 && id == 0 {
            let data = vstd::slice::slice_subrange(frame, pos + 2, pos + 2 + l);
            return vstd::slice::slice_to_vec(data);
        }
    }
    Vec::new()
}

/// Parse a raw 802.11 frame.
///
/// Beacons and probes are decoded in full: the transmitter address and
/// the SSID element, truncated to 32 bytes. Any other frame of at
/// least 16 bytes yields a degenerate event carrying only the
/// transmitter address; shorter frames yield nothing.
pub fn parse_wifi_frame(frame: &[u8], rssi: i8, channel: u8) -> (r: Option<WiFiEvent>)
    ensures
        match r {
            Some(e) => {
                &&& e.rssi == rssi
                &&& e.channel == channel
                &&& e.mac@ == frame@.subrange(10, 16)
                &&& match spec_structured(frame@) {
                    Some(ko) => {
                        &&& e.frame_type == ko.0
                        &&& e.ssid@ == spec_trunc32(spec_find_ssid(frame@.skip(ko.1)))
                    },
                    None => {
                        &&& frame@.len() >= 16
                        &&& e.ssid@.len() == 0
                        &&& e.frame_type == (if (frame@[0] >> 2) & 3 == 2 {
                            FrameType::Data
                        } else {
                            FrameType::Other
                        })
                    },
                }
            },
            None => spec_structured(frame@) is None && frame@.len() < 16,
        },
{
    let n = frame.len();
    if n >= 1 {
        let b0 = *vstd::slice::slice_index_get(frame, 0);
        let kind = if b0 == 0x80 {
            Some(FrameType::Beacon)
        } else if b0 == 0x40 {
            Some(FrameType::ProbeRequest)
        } else if b0 == 0x50 {
            Some(FrameType::ProbeResponse)
        } else {
            None
        };
        match kind {
            Some(k) => {
                let offset: usize = match k {
                    FrameType::ProbeRequest => 24,
                    _ => 36,
                };
                if n >= offset {
                    let mac_slice = vstd::slice::slice_subrange(frame, 10, 16);
                    let mac: [u8; 6] = [
                        *vstd::slice::slice_index_get(mac_slice, 0),
                        *vstd::slice::slice_index_get(mac_slice, 1),
                        *vstd::slice::slice_index_get(mac_slice, 2),
                        *vstd::slice::slice_index_get(mac_slice, 3),
                        *vstd::slice::slice_index_get(mac_slice, 4),
                        *vstd::slice::slice_index_get(mac_slice, 5),
                    ];
                    proof {
                        assert(mac@ =~= frame@.subrange(10, 16));
                    }
                    let ssid_full = find_ssid(frame, offset);
                    let take = if ssid_full.len() <= 32 {
                        ssid_full.len()
                    } else {
                        32
                    };
                    let ssid_trunc = vstd::slice::slice_subrange(
                        ssid_full.as_slice(),
                        0,
                        take,
                    );
                    let ssid = vstd::slice::slice_to_vec(ssid_trunc);
                    proof {
                        if ssid_full@.len() <= 32 {
                            assert(ssid@ =~= spec_trunc32(ssid_full@));
                        } else {
                            assert(ssid@ =~= spec_trunc32(ssid_full@));
                        }
                    }
                    return Some(
                        WiFiEvent { mac, ssid, rssi, channel, frame_type: k },
                    );
                }
            },
            None => {},
        }
    }
    // Fallback: pull the transmitter address out of any frame long
    // enough to hold one.
    if n < 16 {
        return None;
    }
    let b0 = *vstd::slice::slice_index_get(frame, 0);
    let frame_type = if (b0 >> 2) & 3 == 2 {
        FrameType::Data
    } else {
        FrameType::Other
    };
    let mac_slice = vstd::slice::slice_subrange(frame, 10, 16);
    let mac: [u8; 6] = [
        *vstd::slice::slice_index_get(mac_slice, 0),
        *vstd::slice::slice_index_get(mac_slice, 1),
        *vstd::slice::slice_index_get(mac_slice, 2),
        *vstd::slice::slice_index_get(mac_slice, 3),
        *vstd::slice::slice_index_get(mac_slice, 4),
        *vstd::slice::slice_index_get(mac_slice, 5),
    ];
    proof {
        assert(mac@ =~= frame@.subrange(10, 16));
    }
    Some(WiFiEvent { mac, ssid: Vec::new(), rssi, channel, frame_type })
}

// ── BLE advertisement structures ────────────────────────────────────

/// The 16-bit UUIDs of one list element, little-endian pairs, appended
/// while the list has room for them; a trailing odd byte is ignored.
pub open spec fn spec_collect_uuids(data: Seq<u8>, acc: Seq<u16>) -> Seq<u16>
    decreases data.len(),
{
    if data.len() >= 2 {
        let v = (data[0] + 256 * data[1]) as u16;
        spec_collect_uuids(
            data.skip(2),
            if acc.len() < 8 {
                acc.push(v)
            } else {
                acc
            },
        )
    } else {
        acc
    }
}

/// A name fragment appended to the name, truncated so the name never
/// grows past 32 bytes.
pub open spec fn spec_append_name(name: Seq<u8>, data: Seq<u8>) -> Seq<u8> {
    if name.len() >= 32 {
        name
    } else if data.len() <= 32 - name.len() {
        name + data
    } else {
        name + data.take(32 - name.len())
    }
}

/// The walk over the advertisement structures `[len][type][data..]`:
/// what the UUID list, the name and the manufacturer ID hold after
/// consuming the bytes. A zero length or a truncated structure stops
/// the walk.
pub open spec fn spec_ble_walk(ad: Seq<u8>, uuids: Seq<u16>, name: Seq<u8>, mfr: u16) -> (
    Seq<u16>,
    Seq<u8>,
    u16,
)
    decreases ad.len(),
{
    if ad.len() == 0 {
        (uuids, name, mfr)
    } else {
        let l = ad[0] as int;
        if l == 0 || 1 + l > ad.len() {
            (uuids, name, mfr)
        } else {
            let t = ad[1];
            let data = ad.subrange(2, 1 + l);
            let rest = ad.skip(1 + l);
            if t == 2 || t == 3 {
                spec_ble_walk(rest, spec_collect_uuids(data, uuids), name, mfr)
            } else if t == 8 || t == 9 {
                spec_ble_walk(rest, uuids, spec_append_name(name, data), mfr)
            } else if t == 255 && data.len() >= 2 {
                spec_ble_walk(rest, uuids, name, (data[0] + 256 * data[1]) as u16)
            } else {
                spec_ble_walk(rest, uuids, name, mfr)
            }
        }
    }
}

/// Parser for BLE advertisement data.
pub struct BleAdvParser;

impl BleAdvParser {
    /// Parse raw advertisement bytes into a scan event: 16-bit service
    /// UUIDs (at most eight), the local name (at most 32 bytes), the
    /// manufacturer company ID, and the raw bytes themselves.
    pub fn parse(addr: &[u8; 6], rssi: i8, ad_data: &[u8]) -> (e: BleEvent)
        ensures
            e.mac@ == addr@,
            e.rssi == rssi,
            e.raw_ad@ == ad_data@,
            (e.service_uuids_16@, e.name@, e.manufacturer_id) == spec_ble_walk(
                ad_data@,
                Seq::empty(),
                Seq::empty(),
                0,
            ),
            e.service_uuids_16@.len() <= 8,
            e.name@.len() <= 32,
    {
        let mut uuids: Vec<u16> = Vec::new();
        let mut name: Vec<u8> = Vec::new();
        let mut mfr: u16 = 0;
        let n = ad_data.len();
        let mut pos: usize = 0;
        proof {
            assert(ad_data@.skip(0) =~= ad_data@);
        }
        loop
            invariant
                n == ad_data@.len(),
                pos <= n,
                uuids@.len() <= 8,
                name@.len() <= 32,
                spec_ble_walk(ad_data@, Seq::empty(), Seq::empty(), 0) == spec_ble_walk(
                    ad_data@.skip(pos as int),
                    uuids@,
                    name@,
                    mfr,
                ),
            ensures
                spec_ble_walk(ad_data@, Seq::empty(), Seq::empty(), 0) == (
                    uuids@,
                    name@,
                    mfr,
                ),
                uuids@.len() <= 8,
                name@.len() <= 32,
            decreases n - pos,
        {
            let ghost rest = ad_data@.skip(pos as int);
            if pos >= n {
                proof {
                    assert(rest =~= Seq::<u8>::empty());
                }
                break ;
            }
            proof {
                assert(rest[0] == ad_data@[pos as int]);
            }
            let l = *vstd::slice::slice_index_get(ad_data, pos) as usize;
            if l == 0 || l > n - pos - 1 {
                proof {
                    assert(spec_ble_walk(rest, uuids@, name@, mfr) == (uuids@, name@, mfr));
                }
                break ;
            }
            proof {
                assert(rest[1] == ad_data@[pos + 1]);
            }
            let t = *vstd::slice::slice_index_get(ad_data, pos + 1);
            let data = vstd::slice::slice_subrange(ad_data, pos + 2, pos + 1 + l);
            proof {
                assert(data@ =~= rest.subrange(2, 1 + rest[0] as int));
                assert(rest.skip(1 + rest[0] as int) =~= ad_data@.skip(pos + 1 + l));
            }
            if t == 2 || t == 3 {
                let dn = data.len();
                let mut i: usize = 0;
                let ghost u0 = uuids@;
                proof {
                    assert(data@.skip(0) =~= data@);
                }
                while dn - i >= 2
                    invariant
                        dn == data@.len(),
                        i <= dn,
                        uuids@.len() <= 8,
                        spec_collect_uuids(data@, u0) == spec_collect_uuids(
                            data@.skip(i as int),
                            uuids@,
                        ),
                    decreases dn - i,
                {
                    proof {
                        assert(data@.skip(i as int)[0] == data@[i as int]);
                        assert(data@.skip(i as int)[1] == data@[i + 1]);
                        assert(data@.skip(i as int).skip(2) =~= data@.skip(i + 2));
                    }
                    let lo = *vstd::slice::slice_index_get(data, i) as u16;
                    let hi = *vstd::slice::slice_index_get(data, i + 1) as u16;
                    if uuids.len() < 8 {
                        uuids.push(lo + 256 * hi);
                    }
                    i += 2;
                }
                proof {
                    assert(data@.skip(i as int).len() < 2);
                    assert(uuids@ == spec_collect_uuids(data@, u0));
                }
            } else if t == 8 || t == 9 {
                let ghost name0 = name@;
                let room = 32 - name.len();
                let take = if data.len() <= room {
                    data.len()
                } else {
                    room
                };
                let fragment = vstd::slice::slice_subrange(data, 0, take);
                name.extend_from_slice(fragment);
                proof {
                    assert(fragment@ =~= data@.take(take as int));
                    assert(name@ =~= spec_append_name(name0, data@));
                }
            } else if t == 255 {
                if data.len() >= 2 {
                    let lo = *vstd::slice::slice_index_get(data, 0) as u16;
                    let hi = *vstd::slice::slice_index_get(data, 1) as u16;
                    mfr = lo + 256 * hi;
                }
            }
            pos = pos + 1 + l;
        }
        BleEvent {
            mac: *addr,
            name,
            rssi,
            service_uuids_16: uuids,
            manufacturer_id: mfr,
            raw_ad: vstd::slice::slice_to_vec(ad_data),
        }
    }
}

} // verus!
