//! Protocol plumbing: NDJSON serialization, command parsing, command
//! handling, and the byte-at-a-time line reader.
//!
//! Everything here is pure logic over bytes; the transports that carry
//! the bytes live outside the library.

use vstd::prelude::*;

use vstd::string::StringSliceAdditionalSpecFns;

use crate::filter::FilterConfig;
use crate::protocol::{DeviceMessage, HostCommand, MatchReason, MsgBuffer};

verus! {

/// AirHound primary GATT service UUID.
pub const BLE_SERVICE_UUID: &'static str = "4a690001-1c4a-4e3c-b5d8-f47b2e1c0a9d";

/// TX characteristic UUID: scan results, notify-only.
pub const BLE_TX_CHAR_UUID: &'static str = "4a690002-1c4a-4e3c-b5d8-f47b2e1c0a9d";

/// RX characteristic UUID: commands, write-only.
pub const BLE_RX_CHAR_UUID: &'static str = "4a690003-1c4a-4e3c-b5d8-f47b2e1c0a9d";

/// BLE advertising name.
pub const BLE_ADV_NAME: &'static str = "AirHound";

/// Maximum BLE notification payload.
pub const BLE_MAX_NOTIFY: usize = 20;

// ── Command handling ────────────────────────────────────────────────

/// Apply a host command to the live configuration and the scanning
/// flag. `SetBuzzer` returns the requested state so the caller can
/// apply the hardware side effect; every other command returns nothing.
pub fn handle_command(cmd: &HostCommand, config: &mut FilterConfig, scanning: &mut bool) -> (r:
    Option<bool>)
    ensures
        match cmd {
            HostCommand::Start => {
                &&& *final(scanning)
                &&& *final(config) == *old(config)
                &&& r is None
            },
            HostCommand::Stop => {
                &&& !*final(scanning)
                &&& *final(config) == *old(config)
                &&& r is None
            },
            HostCommand::GetStatus => {
                &&& *final(config) == *old(config)
                &&& *final(scanning) == *old(scanning)
                &&& r is None
            },
            HostCommand::SetRssi { min_rssi } => {
                &&& final(config).min_rssi == min_rssi
                &&& final(config).wifi_enabled == old(config).wifi_enabled
                &&& final(config).ble_enabled == old(config).ble_enabled
                &&& *final(scanning) == *old(scanning)
                &&& r is None
            },
            HostCommand::SetBuzzer { enabled } => {
                &&& *final(config) == *old(config)
                &&& *final(scanning) == *old(scanning)
                &&& r == Some(*enabled)
            },
        },
{
    match cmd {
        HostCommand::Start => {
            *scanning = true;
            None
        },
        HostCommand::Stop => {
            *scanning = false;
            None
        },
        HostCommand::GetStatus => None,
        HostCommand::SetRssi { min_rssi } => {
            config.min_rssi = *min_rssi;
            None
        },
        HostCommand::SetBuzzer { enabled } => Some(*enabled),
    }
}

// ── Line reader ─────────────────────────────────────────────────────

/// How one byte transforms the reader: a terminator yields the buffered
/// line (none when empty) and resets; an ordinary byte accumulates
/// while the buffer has room, and discards the whole line otherwise.
pub open spec fn spec_feed(s: Seq<u8>, byte: u8) -> (Seq<u8>, Option<Seq<u8>>) {
    if byte == 10 || byte == 13 {
        if s.len() > 0 {
            (Seq::empty(), Some(s))
        } else {
            (s, None)
        }
    } else if s.len() < 512 {
        (s.push(byte), None)
    } else {
        (Seq::empty(), None)
    }
}

/// The reader state and the lines yielded after feeding a whole byte
/// string.
pub open spec fn spec_feed_all(s: Seq<u8>, input: Seq<u8>) -> (Seq<u8>, Seq<Seq<u8>>)
    decreases input.len(),
{
    if input.len() == 0 {
        (s, Seq::empty())
    } else {
        let step = spec_feed(s, input[0]);
        let rest = spec_feed_all(step.0, input.drop_first());
        (
            rest.0,
            match step.1 {
                Some(line) => seq![line] + rest.1,
                None => rest.1,
            },
        )
    }
}

/// A byte-at-a-time NDJSON line reassembler with a 512-byte buffer.
#[derive(Debug)]
pub struct LineReader {
    buf: Vec<u8>,
}

impl LineReader {
    /// The bytes buffered so far.
    pub closed spec fn buffered(self) -> Seq<u8> {
        self.buf@
    }

    /// The buffer never grows past its 512-byte capacity.
    pub open spec fn wf(self) -> bool {
        self.buffered().len() <= 512
    }

    /// A fresh reader with an empty buffer.
    pub fn new() -> (r: Self)
        ensures
            r.wf(),
            r.buffered() == Seq::<u8>::empty(),
    {
        Self { buf: Vec::new() }
    }

    /// Feed one byte. Returns the complete line, terminator excluded,
    /// when the byte ends a non-empty line.
    pub fn feed(&mut self, byte: u8) -> (r: Option<Vec<u8>>)
        requires
            old(self).wf(),
        ensures
            final(self).wf(),
            final(self).buffered() == spec_feed(old(self).buffered(), byte).0,
            (match r {
                Some(line) => Some(line@),
                None => None::<Seq<u8>>,
            }) == spec_feed(old(self).buffered(), byte).1,
    {
        if byte == 10 || byte == 13 {
            if self.buf.len() > 0 {
                let mut line: Vec<u8> = Vec::new();
                core::mem::swap(&mut line, &mut self.buf);
                Some(line)
            } else {
                None
            }
        } else if self.buf.len() < 512 {
            self.buf.push(byte);
            None
        } else {
            self.buf.clear();
            None
        }
    }
}

/// Feeding a line without terminators accumulates it, byte by byte,
/// while the buffer has room.
proof fn lemma_feed_all_accumulates(s: Seq<u8>, input: Seq<u8>)
    requires
        s.len() + input.len() <= 512,
        forall|i: int| 0 <= i < input.len() ==> input[i] != 10 && #[trigger] input[i] != 13,
    ensures
        spec_feed_all(s, input) == (s + input, Seq::<Seq<u8>>::empty()),
    decreases input.len(),
{
    if input.len() == 0 {
        assert(s + input =~= s);
    } else {
        assert(input[0] != 10 && input[0] != 13);
        lemma_feed_all_accumulates(s.push(input[0]), input.drop_first());
        assert(s.push(input[0]) + input.drop_first() =~= s + input);
    }
}

/// Feeding a line of fewer than 512 bytes, none of them a terminator,
/// followed by one newline, into a fresh reader yields exactly that
/// line once and leaves the reader empty.
pub proof fn lemma_line_reader_round_trip(line: Seq<u8>)
    requires
        1 <= line.len() < 512,
        forall|i: int| 0 <= i < line.len() ==> line[i] != 10 && #[trigger] line[i] != 13,
    ensures
        spec_feed_all(Seq::empty(), line.push(10)) == (
            Seq::<u8>::empty(),
            seq![line],
        ),
{
    lemma_feed_all_accumulates(Seq::empty(), line);
    lemma_feed_all_split(Seq::empty(), line, seq![10u8]);
    assert(line.push(10) =~= line + seq![10u8]);
    assert(Seq::<u8>::empty() + line =~= line);
    let after = spec_feed_all(line, seq![10u8]);
    assert(seq![10u8][0] == 10u8);
    assert(spec_feed(line, 10u8) == (Seq::<u8>::empty(), Some(line)));
    assert(seq![10u8].drop_first() =~= Seq::<u8>::empty());
    assert(spec_feed_all(Seq::<u8>::empty(), Seq::<u8>::empty()) == (
        Seq::<u8>::empty(),
        Seq::<Seq<u8>>::empty(),
    ));
    assert(after.0 == Seq::<u8>::empty());
    assert(after.1 =~= seq![line]);
    assert(Seq::<Seq<u8>>::empty() + after.1 =~= seq![line]);
}

/// Feeding a concatenation is feeding the first part, then the second.
proof fn lemma_feed_all_split(s: Seq<u8>, a: Seq<u8>, b: Seq<u8>)
    ensures
        spec_feed_all(s, a + b) == (
            spec_feed_all(spec_feed_all(s, a).0, b).0,
            spec_feed_all(s, a).1 + spec_feed_all(spec_feed_all(s, a).0, b).1,
        ),
    decreases a.len(),
{
    if a.len() == 0 {
        assert(a + b =~= b);
        assert(spec_feed_all(s, a).1 + spec_feed_all(s, b).1 =~= spec_feed_all(s, b).1);
    } else {
        assert((a + b)[0] == a[0]);
        assert((a + b).drop_first() =~= a.drop_first() + b);
        let step = spec_feed(s, a[0]);
        lemma_feed_all_split(step.0, a.drop_first(), b);
        match step.1 {
            Some(line) => {
                assert(seq![line] + (spec_feed_all(step.0, a.drop_first()).1 + spec_feed_all(
                    spec_feed_all(step.0, a.drop_first()).0,
                    b,
                ).1) =~= (seq![line] + spec_feed_all(step.0, a.drop_first()).1)
                    + spec_feed_all(spec_feed_all(step.0, a.drop_first()).0, b).1);
            },
            None => {},
        }
    }
}

// ── Trailing whitespace ─────────────────────────────────────────────

/// Whether a byte counts as trailing whitespace: space, newline,
/// carriage return or tab.
pub open spec fn spec_is_ws(b: u8) -> bool {
    b == 32 || b == 10 || b == 13 || b == 9
}

/// A byte string with its trailing whitespace removed.
pub open spec fn spec_trim_trailing(s: Seq<u8>) -> Seq<u8>
    decreases s.len(),
{
    if s.len() > 0 && spec_is_ws(s.last()) {
        spec_trim_trailing(s.drop_last())
    } else {
        s
    }
}

/// Strip trailing whitespace from a byte string.
pub fn trim_trailing_whitespace(data: &[u8]) -> (r: &[u8])
    ensures
        r@ == spec_trim_trailing(data@),
{
    let mut end = data.len();
    proof {
        assert(data@.take(end as int) =~= data@);
    }
    loop
        invariant
            end <= data@.len(),
            spec_trim_trailing(data@) == spec_trim_trailing(data@.take(end as int)),
        ensures
            end <= data@.len(),
            spec_trim_trailing(data@) == spec_trim_trailing(data@.take(end as int)),
            end == 0 || !spec_is_ws(data@[end - 1]),
        decreases end,
    {
        if end == 0 {
            break ;
        }
        let b = *vstd::slice::slice_index_get(data, end - 1);
        if !(b == 32 || b == 10 || b == 13 || b == 9) {
            break ;
        }
        proof {
            assert(data@.take(end as int).last() == data@[end - 1]);
            assert(data@.take(end as int).drop_last() =~= data@.take(end - 1));
        }
        end -= 1;
    }
    proof {
        if end > 0 {
            assert(data@.take(end as int).last() == data@[end - 1]);
        }
        assert(spec_trim_trailing(data@.take(end as int)) == data@.take(end as int));
    }
    vstd::slice::slice_subrange(data, 0, end)
}


// ── NDJSON serialization ────────────────────────────────────────────
//
// The uplink grammar is fixed here byte for byte: each structural
// chunk of the JSON output is a named byte sequence, and the dynamic
// fields are escaped strings and decimal numbers between them.

/// The bytes of `{"type":"wifi","mac":"`.
pub open spec fn spec_lit_w_head() -> Seq<u8> {
    seq![123, 34, 116, 121, 112, 101, 34, 58, 34, 119, 105, 102, 105, 34, 44, 34, 109, 97, 99, 34, 58, 34u8]
}

/// Append the bytes of `{"type":"wifi","mac":"`.
fn push_lit_w_head(out: &mut Vec<u8>)
    ensures
        final(out)@ == old(out)@ + spec_lit_w_head(),
{
    out.push(123);
    out.push(34);
    out.push(116);
    out.push(121);
    out.push(112);
    out.push(101);
    out.push(34);
    out.push(58);
    out.push(34);
    out.push(119);
    out.push(105);
    out.push(102);
    out.push(105);
    out.push(34);
    out.push(44);
    out.push(34);
    out.push(109);
    out.push(97);
    out.push(99);
    out.push(34);
    out.push(58);
    out.push(34);
    proof {
        assert(out@ =~= old(out)@ + spec_lit_w_head());
    }
}

/// The bytes of `{"type":"ble","mac":"`.
pub open spec fn spec_lit_b_head() -> Seq<u8> {
    seq![123, 34, 116, 121, 112, 101, 34, 58, 34, 98, 108, 101, 34, 44, 34, 109, 97, 99, 34, 58, 34u8]
}

/// Append the bytes of `{"type":"ble","mac":"`.
fn push_lit_b_head(out: &mut Vec<u8>)
    ensures
        final(out)@ == old(out)@ + spec_lit_b_head(),
{
    out.push(123);
    out.push(34);
    out.push(116);
    out.push(121);
    out.push(112);
    out.push(101);
    out.push(34);
    out.push(58);
    out.push(34);
    out.push(98);
    out.push(108);
    out.push(101);
    out.push(34);
    out.push(44);
    out.push(34);
    out.push(109);
    out.push(97);
    out.push(99);
    out.push(34);
    out.push(58);
    out.push(34);
    proof {
        assert(out@ =~= old(out)@ + spec_lit_b_head());
    }
}

/// The bytes of `{"type":"status","scanning":`.
pub open spec fn spec_lit_s_head() -> Seq<u8> {
    seq![123, 34, 116, 121, 112, 101, 34, 58, 34, 115, 116, 97, 116, 117, 115, 34, 44, 34, 115, 99, 97, 110, 110, 105, 110, 103, 34, 58u8]
}

/// Append the bytes of `{"type":"status","scanning":`.
fn push_lit_s_head(out: &mut Vec<u8>)
    ensures
        final(out)@ == old(out)@ + spec_lit_s_head(),
{
    out.push(123);
    out.push(34);
    out.push(116);
    out.push(121);
    out.push(112);
    out.push(101);
    out.push(34);
    out.push(58);
    out.push(34);
    out.push(115);
    out.push(116);
    out.push(97);
    out.push(116);
    out.push(117);
    out.push(115);
    out.push(34);
    out.push(44);
    out.push(34);
    out.push(115);
    out.push(99);
    out.push(97);
    out.push(110);
    out.push(110);
    out.push(105);
    out.push(110);
    out.push(103);
    out.push(34);
    out.push(58);
    proof {
        assert(out@ =~= old(out)@ + spec_lit_s_head());
    }
}

/// The bytes of `","ssid":"`.
pub open spec fn spec_lit_f_ssid() -> Seq<u8> {
    seq![34, 44, 34, 115, 115, 105, 100, 34, 58, 34u8]
}

/// Append the bytes of `","ssid":"`.
fn push_lit_f_ssid(out: &mut Vec<u8>)
    ensures
        final(out)@ == old(out)@ + spec_lit_f_ssid(),
{
    out.push(34);
    out.push(44);
    out.push(34);
    out.push(115);
    out.push(115);
    out.push(105);
    out.push(100);
    out.push(34);
    out.push(58);
    out.push(34);
    proof {
        assert(out@ =~= old(out)@ + spec_lit_f_ssid());
    }
}

/// The bytes of `","name":"`.
pub open spec fn spec_lit_f_name() -> Seq<u8> {
    seq![34, 44, 34, 110, 97, 109, 101, 34, 58, 34u8]
}

/// Append the bytes of `","name":"`.
fn push_lit_f_name(out: &mut Vec<u8>)
    ensures
        final(out)@ == old(out)@ + spec_lit_f_name(),
{
    out.push(34);
    out.push(44);
    out.push(34);
    out.push(110);
    out.push(97);
    out.push(109);
    out.push(101);
    out.push(34);
    out.push(58);
    out.push(34);
    proof {
        assert(out@ =~= old(out)@ + spec_lit_f_name());
    }
}

/// The bytes of `","rssi":`.
pub open spec fn spec_lit_f_rssi() -> Seq<u8> {
    seq![34, 44, 34, 114, 115, 115, 105, 34, 58u8]
}

/// Append the bytes of `","rssi":`.
fn push_lit_f_rssi(out: &mut Vec<u8>)
    ensures
        final(out)@ == old(out)@ + spec_lit_f_rssi(),
{
    out.push(34);
    out.push(44);
    out.push(34);
    out.push(114);
    out.push(115);
    out.push(115);
    out.push(105);
    out.push(34);
    out.push(58);
    proof {
        assert(out@ =~= old(out)@ + spec_lit_f_rssi());
    }
}

/// The bytes of `,"ch":`.
pub open spec fn spec_lit_f_ch() -> Seq<u8> {
    seq![44, 34, 99, 104, 34, 58u8]
}

/// Append the bytes of `,"ch":`.
fn push_lit_f_ch(out: &mut Vec<u8>)
    ensures
        final(out)@ == old(out)@ + spec_lit_f_ch(),
{
    out.push(44);
    out.push(34);
    out.push(99);
    out.push(104);
    out.push(34);
    out.push(58);
    proof {
        assert(out@ =~= old(out)@ + spec_lit_f_ch());
    }
}

/// The bytes of `,"frame":"`.
pub open spec fn spec_lit_f_frame() -> Seq<u8> {
    seq![44, 34, 102, 114, 97, 109, 101, 34, 58, 34u8]
}

/// Append the bytes of `,"frame":"`.
fn push_lit_f_frame(out: &mut Vec<u8>)
    ensures
        final(out)@ == old(out)@ + spec_lit_f_frame(),
{
    out.push(44);
    out.push(34);
    out.push(102);
    out.push(114);
    out.push(97);
    out.push(109);
    out.push(101);
    out.push(34);
    out.push(58);
    out.push(34);
    proof {
        assert(out@ =~= old(out)@ + spec_lit_f_frame());
    }
}

/// The bytes of `","match":[`.
pub open spec fn spec_lit_f_match_q() -> Seq<u8> {
    seq![34, 44, 34, 109, 97, 116, 99, 104, 34, 58, 91u8]
}

/// Append the bytes of `","match":[`.
fn push_lit_f_match_q(out: &mut Vec<u8>)
    ensures
        final(out)@ == old(out)@ + spec_lit_f_match_q(),
{
    out.push(34);
    out.push(44);
    out.push(34);
    out.push(109);
    out.push(97);
    out.push(116);
    out.push(99);
    out.push(104);
    out.push(34);
    out.push(58);
    out.push(91);
    proof {
        assert(out@ =~= old(out)@ + spec_lit_f_match_q());
    }
}

/// The bytes of `,"match":[`.
pub open spec fn spec_lit_f_match() -> Seq<u8> {
    seq![44, 34, 109, 97, 116, 99, 104, 34, 58, 91u8]
}

/// Append the bytes of `,"match":[`.
fn push_lit_f_match(out: &mut Vec<u8>)
    ensures
        final(out)@ == old(out)@ + spec_lit_f_match(),
{
    out.push(44);
    out.push(34);
    out.push(109);
    out.push(97);
    out.push(116);
    out.push(99);
    out.push(104);
    out.push(34);
    out.push(58);
    out.push(91);
    proof {
        assert(out@ =~= old(out)@ + spec_lit_f_match());
    }
}

/// The bytes of `,"uuid":"`.
pub open spec fn spec_lit_f_uuid() -> Seq<u8> {
    seq![44, 34, 117, 117, 105, 100, 34, 58, 34u8]
}

/// Append the bytes of `,"uuid":"`.
fn push_lit_f_uuid(out: &mut Vec<u8>)
    ensures
        final(out)@ == old(out)@ + spec_lit_f_uuid(),
{
    out.push(44);
    out.push(34);
    out.push(117);
    out.push(117);
    out.push(105);
    out.push(100);
    out.push(34);
    out.push(58);
    out.push(34);
    proof {
        assert(out@ =~= old(out)@ + spec_lit_f_uuid());
    }
}

/// The bytes of `,"mfr":`.
pub open spec fn spec_lit_f_mfr() -> Seq<u8> {
    seq![44, 34, 109, 102, 114, 34, 58u8]
}

/// Append the bytes of `,"mfr":`.
fn push_lit_f_mfr(out: &mut Vec<u8>)
    ensures
        final(out)@ == old(out)@ + spec_lit_f_mfr(),
{
    out.push(44);
    out.push(34);
    out.push(109);
    out.push(102);
    out.push(114);
    out.push(34);
    out.push(58);
    proof {
        assert(out@ =~= old(out)@ + spec_lit_f_mfr());
    }
}

/// The bytes of `,"rule":"`.
pub open spec fn spec_lit_f_rule() -> Seq<u8> {
    seq![44, 34, 114, 117, 108, 101, 34, 58, 34u8]
}

/// Append the bytes of `,"rule":"`.
fn push_lit_f_rule(out: &mut Vec<u8>)
    ensures
        final(out)@ == old(out)@ + spec_lit_f_rule(),
{
    out.push(44);
    out.push(34);
    out.push(114);
    out.push(117);
    out.push(108);
    out.push(101);
    out.push(34);
    out.push(58);
    out.push(34);
    proof {
        assert(out@ =~= old(out)@ + spec_lit_f_rule());
    }
}

/// The bytes of `,"ts":`.
pub open spec fn spec_lit_f_ts() -> Seq<u8> {
    seq![44, 34, 116, 115, 34, 58u8]
}

/// Append the bytes of `,"ts":`.
fn push_lit_f_ts(out: &mut Vec<u8>)
    ensures
        final(out)@ == old(out)@ + spec_lit_f_ts(),
{
    out.push(44);
    out.push(34);
    out.push(116);
    out.push(115);
    out.push(34);
    out.push(58);
    proof {
        assert(out@ =~= old(out)@ + spec_lit_f_ts());
    }
}

/// The bytes of `,"uptime":`.
pub open spec fn spec_lit_s_uptime() -> Seq<u8> {
    seq![44, 34, 117, 112, 116, 105, 109, 101, 34, 58u8]
}

/// Append the bytes of `,"uptime":`.
fn push_lit_s_uptime(out: &mut Vec<u8>)
    ensures
        final(out)@ == old(out)@ + spec_lit_s_uptime(),
{
    out.push(44);
    out.push(34);
    out.push(117);
    out.push(112);
    out.push(116);
    out.push(105);
    out.push(109);
    out.push(101);
    out.push(34);
    out.push(58);
    proof {
        assert(out@ =~= old(out)@ + spec_lit_s_uptime());
    }
}

/// The bytes of `,"heap_free":`.
pub open spec fn spec_lit_s_heap() -> Seq<u8> {
    seq![44, 34, 104, 101, 97, 112, 95, 102, 114, 101, 101, 34, 58u8]
}

/// Append the bytes of `,"heap_free":`.
fn push_lit_s_heap(out: &mut Vec<u8>)
    ensures
        final(out)@ == old(out)@ + spec_lit_s_heap(),
{
    out.push(44);
    out.push(34);
    out.push(104);
    out.push(101);
    out.push(97);
    out.push(112);
    out.push(95);
    out.push(102);
    out.push(114);
    out.push(101);
    out.push(101);
    out.push(34);
    out.push(58);
    proof {
        assert(out@ =~= old(out)@ + spec_lit_s_heap());
    }
}

/// The bytes of `,"ble_clients":`.
pub open spec fn spec_lit_s_clients() -> Seq<u8> {
    seq![44, 34, 98, 108, 101, 95, 99, 108, 105, 101, 110, 116, 115, 34, 58u8]
}

/// Append the bytes of `,"ble_clients":`.
fn push_lit_s_clients(out: &mut Vec<u8>)
    ensures
        final(out)@ == old(out)@ + spec_lit_s_clients(),
{
    out.push(44);
    out.push(34);
    out.push(98);
    out.push(108);
    out.push(101);
    out.push(95);
    out.push(99);
    out.push(108);
    out.push(105);
    out.push(101);
    out.push(110);
    out.push(116);
    out.push(115);
    out.push(34);
    out.push(58);
    proof {
        assert(out@ =~= old(out)@ + spec_lit_s_clients());
    }
}

/// The bytes of `,"board":"`.
pub open spec fn spec_lit_s_board() -> Seq<u8> {
    seq![44, 34, 98, 111, 97, 114, 100, 34, 58, 34u8]
}

/// Append the bytes of `,"board":"`.
fn push_lit_s_board(out: &mut Vec<u8>)
    ensures
        final(out)@ == old(out)@ + spec_lit_s_board(),
{
    out.push(44);
    out.push(34);
    out.push(98);
    out.push(111);
    out.push(97);
    out.push(114);
    out.push(100);
    out.push(34);
    out.push(58);
    out.push(34);
    proof {
        assert(out@ =~= old(out)@ + spec_lit_s_board());
    }
}

/// The bytes of `","version":"`.
pub open spec fn spec_lit_s_version() -> Seq<u8> {
    seq![34, 44, 34, 118, 101, 114, 115, 105, 111, 110, 34, 58, 34u8]
}

/// Append the bytes of `","version":"`.
fn push_lit_s_version(out: &mut Vec<u8>)
    ensures
        final(out)@ == old(out)@ + spec_lit_s_version(),
{
    out.push(34);
    out.push(44);
    out.push(34);
    out.push(118);
    out.push(101);
    out.push(114);
    out.push(115);
    out.push(105);
    out.push(111);
    out.push(110);
    out.push(34);
    out.push(58);
    out.push(34);
    proof {
        assert(out@ =~= old(out)@ + spec_lit_s_version());
    }
}

/// The bytes of `{"type":"`.
pub open spec fn spec_lit_m_head() -> Seq<u8> {
    seq![123, 34, 116, 121, 112, 101, 34, 58, 34u8]
}

/// Append the bytes of `{"type":"`.
fn push_lit_m_head(out: &mut Vec<u8>)
    ensures
        final(out)@ == old(out)@ + spec_lit_m_head(),
{
    out.push(123);
    out.push(34);
    out.push(116);
    out.push(121);
    out.push(112);
    out.push(101);
    out.push(34);
    out.push(58);
    out.push(34);
    proof {
        assert(out@ =~= old(out)@ + spec_lit_m_head());
    }
}

/// The bytes of `","detail":"`.
pub open spec fn spec_lit_m_detail() -> Seq<u8> {
    seq![34, 44, 34, 100, 101, 116, 97, 105, 108, 34, 58, 34u8]
}

/// Append the bytes of `","detail":"`.
fn push_lit_m_detail(out: &mut Vec<u8>)
    ensures
        final(out)@ == old(out)@ + spec_lit_m_detail(),
{
    out.push(34);
    out.push(44);
    out.push(34);
    out.push(100);
    out.push(101);
    out.push(116);
    out.push(97);
    out.push(105);
    out.push(108);
    out.push(34);
    out.push(58);
    out.push(34);
    proof {
        assert(out@ =~= old(out)@ + spec_lit_m_detail());
    }
}

/// The bytes of `"}`.
pub open spec fn spec_lit_m_end() -> Seq<u8> {
    seq![34, 125u8]
}

/// Append the bytes of `"}`.
fn push_lit_m_end(out: &mut Vec<u8>)
    ensures
        final(out)@ == old(out)@ + spec_lit_m_end(),
{
    out.push(34);
    out.push(125);
    proof {
        assert(out@ =~= old(out)@ + spec_lit_m_end());
    }
}

/// The bytes of `"`.
pub open spec fn spec_lit_quote() -> Seq<u8> {
    seq![34u8]
}

/// Append the bytes of `"`.
fn push_lit_quote(out: &mut Vec<u8>)
    ensures
        final(out)@ == old(out)@ + spec_lit_quote(),
{
    out.push(34);
    proof {
        assert(out@ =~= old(out)@ + spec_lit_quote());
    }
}

/// The bytes of `,`.
pub open spec fn spec_lit_comma() -> Seq<u8> {
    seq![44u8]
}

/// Append the bytes of `,`.
fn push_lit_comma(out: &mut Vec<u8>)
    ensures
        final(out)@ == old(out)@ + spec_lit_comma(),
{
    out.push(44);
    proof {
        assert(out@ =~= old(out)@ + spec_lit_comma());
    }
}

/// The bytes of `]`.
pub open spec fn spec_lit_close_bracket() -> Seq<u8> {
    seq![93u8]
}

/// Append the bytes of `]`.
fn push_lit_close_bracket(out: &mut Vec<u8>)
    ensures
        final(out)@ == old(out)@ + spec_lit_close_bracket(),
{
    out.push(93);
    proof {
        assert(out@ =~= old(out)@ + spec_lit_close_bracket());
    }
}

/// The bytes of `}`.
pub open spec fn spec_lit_close_brace() -> Seq<u8> {
    seq![125u8]
}

/// Append the bytes of `}`.
fn push_lit_close_brace(out: &mut Vec<u8>)
    ensures
        final(out)@ == old(out)@ + spec_lit_close_brace(),
{
    out.push(125);
    proof {
        assert(out@ =~= old(out)@ + spec_lit_close_brace());
    }
}

/// The bytes of `true`.
pub open spec fn spec_lit_true_() -> Seq<u8> {
    seq![116, 114, 117, 101u8]
}

/// Append the bytes of `true`.
fn push_lit_true_(out: &mut Vec<u8>)
    ensures
        final(out)@ == old(out)@ + spec_lit_true_(),
{
    out.push(116);
    out.push(114);
    out.push(117);
    out.push(101);
    proof {
        assert(out@ =~= old(out)@ + spec_lit_true_());
    }
}

/// The bytes of `false`.
pub open spec fn spec_lit_false_() -> Seq<u8> {
    seq![102, 97, 108, 115, 101u8]
}

/// Append the bytes of `false`.
fn push_lit_false_(out: &mut Vec<u8>)
    ensures
        final(out)@ == old(out)@ + spec_lit_false_(),
{
    out.push(102);
    out.push(97);
    out.push(108);
    out.push(115);
    out.push(101);
    proof {
        assert(out@ =~= old(out)@ + spec_lit_false_());
    }
}

/// The ASCII code of a nibble as a lowercase hexadecimal digit.
pub open spec fn spec_hex_lower(n: u8) -> u8 {
    if n < 10 {
        (48 + n) as u8
    } else {
        (87 + n) as u8
    }
}

/// How one byte appears inside a JSON string: quote, backslash and the
/// named control characters get two-character escapes, other control
/// bytes a `\u00XX` escape, and everything else passes through.
pub open spec fn spec_escaped_byte(b: u8) -> Seq<u8> {
    if b == 34 {
        seq![92u8, 34]
    } else if b == 92 {
        seq![92u8, 92]
    } else if b == 8 {
        seq![92u8, 98]
    } else if b == 12 {
        seq![92u8, 102]
    } else if b == 10 {
        seq![92u8, 110]
    } else if b == 13 {
        seq![92u8, 114]
    } else if b == 9 {
        seq![92u8, 116]
    } else if b < 32 {
        seq![92u8, 117, 48, 48, spec_hex_lower(b / 16), spec_hex_lower(b % 16)]
    } else {
        seq![b]
    }
}

/// A byte string as it appears inside a JSON string.
pub open spec fn spec_escape(s: Seq<u8>) -> Seq<u8>
    decreases s.len(),
{
    if s.len() == 0 {
        Seq::empty()
    } else {
        spec_escaped_byte(s[0]) + spec_escape(s.drop_first())
    }
}

/// Escaping distributes over concatenation.
proof fn lemma_escape_concat(a: Seq<u8>, b: Seq<u8>)
    ensures
        spec_escape(a + b) == spec_escape(a) + spec_escape(b),
    decreases a.len(),
{
    if a.len() == 0 {
        assert(a + b =~= b);
        assert(spec_escape(a) + spec_escape(b) =~= spec_escape(b));
    } else {
        assert((a + b)[0] == a[0]);
        assert((a + b).drop_first() =~= a.drop_first() + b);
        lemma_escape_concat(a.drop_first(), b);
        assert(spec_escaped_byte(a[0]) + (spec_escape(a.drop_first()) + spec_escape(b)) =~= (
        spec_escaped_byte(a[0]) + spec_escape(a.drop_first())) + spec_escape(b));
    }
}

/// The decimal digits of a positive number; zero gives no digits.
pub open spec fn spec_dec(v: int) -> Seq<u8>
    decreases v,
{
    if v <= 0 {
        Seq::empty()
    } else {
        spec_dec(v / 10) + seq![(48 + v % 10) as u8]
    }
}

/// A non-negative number in decimal.
pub open spec fn spec_json_u32(v: int) -> Seq<u8> {
    if v == 0 {
        seq![48u8]
    } else {
        spec_dec(v)
    }
}

/// A signed number in decimal.
pub open spec fn spec_json_i8(v: int) -> Seq<u8> {
    if v < 0 {
        seq![45u8] + spec_json_u32(-v)
    } else {
        spec_json_u32(v)
    }
}

/// Append the decimal digits of a positive number.
fn push_dec(out: &mut Vec<u8>, v: u32)
    ensures
        final(out)@ == old(out)@ + spec_dec(v as int),
    decreases v,
{
    if v == 0 {
        proof {
            assert(out@ =~= old(out)@ + spec_dec(0));
        }
        return ;
    }
    push_dec(out, v / 10);
    out.push(48 + (v % 10) as u8);
    proof {
        assert(out@ =~= old(out)@ + spec_dec(v as int));
    }
}

/// Append a non-negative number in decimal.
fn push_json_u32(out: &mut Vec<u8>, v: u32)
    ensures
        final(out)@ == old(out)@ + spec_json_u32(v as int),
{
    if v == 0 {
        out.push(48);
        proof {
            assert(out@ =~= old(out)@ + spec_json_u32(0));
        }
    } else {
        push_dec(out, v);
    }
}

/// Append a signed number in decimal.
fn push_json_i8(out: &mut Vec<u8>, v: i8)
    ensures
        final(out)@ == old(out)@ + spec_json_i8(v as int),
{
    if v < 0 {
        out.push(45);
        let m: u32 = (-(v as i32)) as u32;
        push_json_u32(out, m);
        proof {
            assert(out@ =~= old(out)@ + spec_json_i8(v as int));
        }
    } else {
        push_json_u32(out, v as u32);
    }
}

/// Append a byte string in its escaped form.
fn push_escaped(out: &mut Vec<u8>, s: &[u8])
    ensures
        final(out)@ == old(out)@ + spec_escape(s@),
{
    let n = s.len();
    let mut i: usize = 0;
    proof {
        assert(s@.take(0) =~= Seq::<u8>::empty());
        assert(out@ =~= out@ + spec_escape(s@.take(0)));
    }
    while i < n
        invariant
            n == s@.len(),
            i <= n,
            out@ == old(out)@ + spec_escape(s@.take(i as int)),
        decreases n - i,
    {
        proof {
            assert(s@.take(i + 1) =~= s@.take(i as int) + seq![s@[i as int]]);
            lemma_escape_concat(s@.take(i as int), seq![s@[i as int]]);
            assert(seq![s@[i as int]][0] == s@[i as int]);
            assert(seq![s@[i as int]].drop_first() =~= Seq::<u8>::empty());
            assert(spec_escape(Seq::<u8>::empty()) =~= Seq::<u8>::empty());
            assert(spec_escape(seq![s@[i as int]]) =~= spec_escaped_byte(s@[i as int]));
        }
        let ghost pre = out@;
        let b = *vstd::slice::slice_index_get(s, i);
        if b == 34 {
            out.push(92);
            out.push(34);
        } else if b == 92 {
            out.push(92);
            out.push(92);
        } else if b == 8 {
            out.push(92);
            out.push(98);
        } else if b == 12 {
            out.push(92);
            out.push(102);
        } else if b == 10 {
            out.push(92);
            out.push(110);
        } else if b == 13 {
            out.push(92);
            out.push(114);
        } else if b == 9 {
            out.push(92);
            out.push(116);
        } else if b < 32 {
            out.push(92);
            out.push(117);
            out.push(48);
            out.push(48);
            out.push(if b / 16 < 10 {
                48 + b / 16
            } else {
                87 + b / 16
            });
            out.push(if b % 16 < 10 {
                48 + b % 16
            } else {
                87 + b % 16
            });
        } else {
            out.push(b);
        }
        proof {
            assert(out@ =~= pre + spec_escaped_byte(s@[i as int]));
            assert(out@ =~= old(out)@ + spec_escape(s@.take(i + 1)));
        }
        i += 1;
    }
    proof {
        assert(s@.take(n as int) =~= s@);
    }
}

/// One match reason as a JSON object.
pub open spec fn spec_match_json(r: MatchReason) -> Seq<u8> {
    spec_lit_m_head() + spec_escape(r.filter_type.spec_bytes()) + spec_lit_m_detail()
        + spec_escape(r.detail@) + spec_lit_m_end()
}

/// A reason list as a JSON array body, comma separated.
pub open spec fn spec_matches_json(ms: Seq<MatchReason>) -> Seq<u8>
    decreases ms.len(),
{
    if ms.len() == 0 {
        Seq::empty()
    } else if ms.len() == 1 {
        spec_match_json(ms[0])
    } else {
        spec_matches_json(ms.drop_last()) + spec_lit_comma() + spec_match_json(ms.last())
    }
}

/// The optional rule field, emitted only when a rule fired.
pub open spec fn spec_rule_json(rule: Option<&'static str>) -> Seq<u8> {
    match rule {
        Some(name) => spec_lit_f_rule() + spec_escape(name.spec_bytes()) + spec_lit_quote(),
        None => Seq::empty(),
    }
}

/// The optional uuid field of a BLE message.
pub open spec fn spec_uuid_json(uuid: Option<Vec<u8>>) -> Seq<u8> {
    match uuid {
        Some(u) => spec_lit_f_uuid() + spec_escape(u@) + spec_lit_quote(),
        None => Seq::empty(),
    }
}

/// A boolean literal.
pub open spec fn spec_bool_json(b: bool) -> Seq<u8> {
    if b {
        spec_lit_true_()
    } else {
        spec_lit_false_()
    }
}

/// The single-line JSON text of a message, newline not included.
pub open spec fn spec_message_json(msg: DeviceMessage) -> Seq<u8> {
    match msg {
        DeviceMessage::WiFiScan { mac, ssid, rssi, ch, frame, matches, rule, ts } => {
            spec_lit_w_head() + spec_escape(mac@) + spec_lit_f_ssid() + spec_escape(ssid@)
                + spec_lit_f_rssi() + spec_json_i8(rssi as int) + spec_lit_f_ch() + spec_json_u32(
                ch as int,
            ) + spec_lit_f_frame() + spec_escape(frame.spec_bytes()) + spec_lit_f_match_q()
                + spec_matches_json(matches@) + spec_lit_close_bracket() + spec_rule_json(rule)
                + spec_lit_f_ts() + spec_json_u32(ts as int) + spec_lit_close_brace()
        },
        DeviceMessage::BleScan { mac, name, rssi, uuid, mfr, matches, rule, ts } => {
            spec_lit_b_head() + spec_escape(mac@) + spec_lit_f_name() + spec_escape(name@)
                + spec_lit_f_rssi() + spec_json_i8(rssi as int) + spec_uuid_json(uuid)
                + spec_lit_f_mfr() + spec_json_u32(mfr as int) + spec_lit_f_match()
                + spec_matches_json(matches@) + spec_lit_close_bracket() + spec_rule_json(rule)
                + spec_lit_f_ts() + spec_json_u32(ts as int) + spec_lit_close_brace()
        },
        DeviceMessage::Status { scanning, uptime, heap_free, ble_clients, board, version } => {
            spec_lit_s_head() + spec_bool_json(scanning) + spec_lit_s_uptime() + spec_json_u32(
                uptime as int,
            ) + spec_lit_s_heap() + spec_json_u32(heap_free as int) + spec_lit_s_clients()
                + spec_json_u32(ble_clients as int) + spec_lit_s_board() + spec_escape(
                board.spec_bytes(),
            ) + spec_lit_s_version() + spec_escape(version.spec_bytes()) + spec_lit_m_end()
        },
    }
}

/// Append a reason list as a JSON array body.
fn push_matches(out: &mut Vec<u8>, ms: &Vec<MatchReason>)
    ensures
        final(out)@ == old(out)@ + spec_matches_json(ms@),
{
    let n = ms.len();
    let mut i: usize = 0;
    proof {
        assert(ms@.take(0) =~= Seq::<MatchReason>::empty());
        assert(out@ =~= out@ + spec_matches_json(ms@.take(0)));
    }
    while i < n
        invariant
            n == ms@.len(),
            i <= n,
            out@ == old(out)@ + spec_matches_json(ms@.take(i as int)),
        decreases n - i,
    {
        let ghost pre = out@;
        if i > 0 {
            push_lit_comma(out);
        }
        let r = vstd::slice::slice_index_get(ms.as_slice(), i);
        push_lit_m_head(out);
        push_escaped(out, r.filter_type.as_bytes());
        push_lit_m_detail(out);
        push_escaped(out, r.detail.as_slice());
        push_lit_m_end(out);
        proof {
            assert(ms@.take(i + 1).drop_last() =~= ms@.take(i as int));
            assert(ms@.take(i + 1).last() == ms@[i as int]);
            if i == 0 {
                assert(out@ =~= pre + spec_match_json(ms@[0]));
                assert(out@ =~= old(out)@ + spec_matches_json(ms@.take(1)));
            } else {
                assert(out@ =~= old(out)@ + spec_matches_json(ms@.take(i + 1)));
            }
        }
        i += 1;
    }
    proof {
        assert(ms@.take(n as int) =~= ms@);
    }
}

/// Serialize a message to its single JSON line.
///
/// The newline is appended whenever it fits inside the 512-byte
/// message budget; a line of exactly 512 bytes is returned without it,
/// and a longer line is not returned at all.
#[verifier::rlimit(100)]
pub fn serialize_message(msg: &DeviceMessage) -> (r: Option<MsgBuffer>)
    ensures
        match r {
            Some(b) => (spec_message_json(*msg).len() < 512 && b@ == spec_message_json(*msg)
                + seq![10u8]) || (spec_message_json(*msg).len() == 512 && b@ == spec_message_json(
                *msg,
            )),
            None => spec_message_json(*msg).len() > 512,
        },
{
    let mut out: Vec<u8> = Vec::new();
    match msg {
        DeviceMessage::WiFiScan { mac, ssid, rssi, ch, frame, matches, rule, ts } => {
            push_lit_w_head(&mut out);
            push_escaped(&mut out, mac.as_slice());
            push_lit_f_ssid(&mut out);
            push_escaped(&mut out, ssid.as_slice());
            push_lit_f_rssi(&mut out);
            push_json_i8(&mut out, *rssi);
            push_lit_f_ch(&mut out);
            push_json_u32(&mut out, *ch as u32);
            push_lit_f_frame(&mut out);
            push_escaped(&mut out, frame.as_bytes());
            push_lit_f_match_q(&mut out);
            push_matches(&mut out, matches);
            push_lit_close_bracket(&mut out);
            match rule {
                Some(name) => {
                    push_lit_f_rule(&mut out);
                    push_escaped(&mut out, name.as_bytes());
                    push_lit_quote(&mut out);
                },
                None => {},
            }
            push_lit_f_ts(&mut out);
            push_json_u32(&mut out, *ts);
            push_lit_close_brace(&mut out);
            proof {
                assert(out@ =~= spec_message_json(*msg));
            }
        },
        DeviceMessage::BleScan { mac, name, rssi, uuid, mfr, matches, rule, ts } => {
            push_lit_b_head(&mut out);
            push_escaped(&mut out, mac.as_slice());
            push_lit_f_name(&mut out);
            push_escaped(&mut out, name.as_slice());
            push_lit_f_rssi(&mut out);
            push_json_i8(&mut out, *rssi);
            match uuid {
                Some(u) => {
                    push_lit_f_uuid(&mut out);
                    push_escaped(&mut out, u.as_slice());
                    push_lit_quote(&mut out);
                },
                None => {},
            }
            push_lit_f_mfr(&mut out);
            push_json_u32(&mut out, *mfr as u32);
            push_lit_f_match(&mut out);
            push_matches(&mut out, matches);
            push_lit_close_bracket(&mut out);
            match rule {
                Some(name) => {
                    push_lit_f_rule(&mut out);
                    push_escaped(&mut out, name.as_bytes());
                    push_lit_quote(&mut out);
                },
                None => {},
            }
            push_lit_f_ts(&mut out);
            push_json_u32(&mut out, *ts);
            push_lit_close_brace(&mut out);
            proof {
                assert(out@ =~= spec_message_json(*msg));
            }
        },
        DeviceMessage::Status { scanning, uptime, heap_free, ble_clients, board, version } => {
            push_lit_s_head(&mut out);
            if *scanning {
                push_lit_true_(&mut out);
            } else {
                push_lit_false_(&mut out);
            }
            push_lit_s_uptime(&mut out);
            push_json_u32(&mut out, *uptime);
            push_lit_s_heap(&mut out);
            push_json_u32(&mut out, *heap_free);
            push_lit_s_clients(&mut out);
            push_json_u32(&mut out, *ble_clients as u32);
            push_lit_s_board(&mut out);
            push_escaped(&mut out, board.as_bytes());
            push_lit_s_version(&mut out);
            push_escaped(&mut out, version.as_bytes());
            push_lit_m_end(&mut out);
            proof {
                assert(out@ =~= spec_message_json(*msg));
            }
        },
    }
    if out.len() > 512 {
        None
    } else if out.len() == 512 {
        Some(out)
    } else {
        out.push(10);
        Some(out)
    }
}


// ── Framing of the uplink stream ────────────────────────────────────

/// Whether a byte string is free of raw newline bytes.
pub open spec fn spec_no_newline(s: Seq<u8>) -> bool {
    forall|i: int| 0 <= i < s.len() ==> #[trigger] s[i] != 10
}

/// Newline-freedom is closed under concatenation.
proof fn lemma_nn_concat(a: Seq<u8>, b: Seq<u8>)
    requires
        spec_no_newline(a),
        spec_no_newline(b),
    ensures
        spec_no_newline(a + b),
{
    assert forall|i: int| 0 <= i < (a + b).len() implies #[trigger] (a + b)[i] != 10 by {
        if i < a.len() {
            assert((a + b)[i] == a[i]);
        } else {
            assert((a + b)[i] == b[i - a.len()]);
        }
    }
}

/// Escaping one byte never produces a raw newline.
proof fn lemma_escaped_byte_nn(b: u8)
    ensures
        spec_no_newline(spec_escaped_byte(b)),
{
}

/// An escaped string never holds a raw newline.
proof fn lemma_escape_nn(s: Seq<u8>)
    ensures
        spec_no_newline(spec_escape(s)),
    decreases s.len(),
{
    if s.len() == 0 {
    } else {
        lemma_escaped_byte_nn(s[0]);
        lemma_escape_nn(s.drop_first());
        lemma_nn_concat(spec_escaped_byte(s[0]), spec_escape(s.drop_first()));
    }
}

/// Decimal digits never include a newline.
proof fn lemma_dec_nn(v: int)
    ensures
        spec_no_newline(spec_dec(v)),
    decreases v,
{
    if v > 0 {
        lemma_dec_nn(v / 10);
        lemma_nn_concat(spec_dec(v / 10), seq![(48 + v % 10) as u8]);
    }
}

/// A serialized number never includes a newline.
proof fn lemma_json_u32_nn(v: int)
    ensures
        spec_no_newline(spec_json_u32(v)),
{
    lemma_dec_nn(v);
}

/// A serialized signed number never includes a newline.
proof fn lemma_json_i8_nn(v: int)
    ensures
        spec_no_newline(spec_json_i8(v)),
{
    lemma_json_u32_nn(v);
    lemma_json_u32_nn(-v);
    if v < 0 {
        lemma_nn_concat(seq![45u8], spec_json_u32(-v));
    }
}

/// A serialized match reason never includes a newline.
proof fn lemma_match_json_nn(r: MatchReason)
    ensures
        spec_no_newline(spec_match_json(r)),
{
    lemma_escape_nn(r.filter_type.spec_bytes());
    lemma_escape_nn(r.detail@);
    let s1 = spec_lit_m_head();
    let s2 = s1 + spec_escape(r.filter_type.spec_bytes());
    lemma_nn_concat(s1, spec_escape(r.filter_type.spec_bytes()));
    let s3 = s2 + spec_lit_m_detail();
    lemma_nn_concat(s2, spec_lit_m_detail());
    let s4 = s3 + spec_escape(r.detail@);
    lemma_nn_concat(s3, spec_escape(r.detail@));
    lemma_nn_concat(s4, spec_lit_m_end());
}

/// A serialized reason list never includes a newline.
proof fn lemma_matches_json_nn(ms: Seq<MatchReason>)
    ensures
        spec_no_newline(spec_matches_json(ms)),
    decreases ms.len(),
{
    if ms.len() == 1 {
        lemma_match_json_nn(ms[0]);
    } else if ms.len() > 1 {
        lemma_matches_json_nn(ms.drop_last());
        lemma_match_json_nn(ms.last());
        lemma_nn_concat(spec_matches_json(ms.drop_last()), spec_lit_comma());
        lemma_nn_concat(
            spec_matches_json(ms.drop_last()) + spec_lit_comma(),
            spec_match_json(ms.last()),
        );
    }
}

/// The optional rule field never includes a newline.
proof fn lemma_rule_json_nn(rule: Option<&'static str>)
    ensures
        spec_no_newline(spec_rule_json(rule)),
{
    match rule {
        Some(name) => {
            lemma_escape_nn(name.spec_bytes());
            lemma_nn_concat(spec_lit_f_rule(), spec_escape(name.spec_bytes()));
            lemma_nn_concat(
                spec_lit_f_rule() + spec_escape(name.spec_bytes()),
                spec_lit_quote(),
            );
        },
        None => {},
    }
}

/// The optional uuid field never includes a newline.
proof fn lemma_uuid_json_nn(uuid: Option<Vec<u8>>)
    ensures
        spec_no_newline(spec_uuid_json(uuid)),
{
    match uuid {
        Some(u) => {
            lemma_escape_nn(u@);
            lemma_nn_concat(spec_lit_f_uuid(), spec_escape(u@));
            lemma_nn_concat(spec_lit_f_uuid() + spec_escape(u@), spec_lit_quote());
        },
        None => {},
    }
}

/// Framing of the uplink stream: the JSON text of a message is one
/// line. It holds no newline byte, opens with its variant's
/// discriminator, and closes with `}`; the codec appends the single
/// terminating newline after it.
#[verifier::rlimit(100)]
pub proof fn lemma_ndjson_framing(msg: DeviceMessage)
    ensures
        spec_message_json(msg).len() > 0,
        spec_message_json(msg).last() == 125,
        spec_no_newline(spec_message_json(msg)),
        msg is WiFiScan ==> spec_message_json(msg).take(spec_lit_w_head().len() as int)
            == spec_lit_w_head(),
        msg is BleScan ==> spec_message_json(msg).take(spec_lit_b_head().len() as int)
            == spec_lit_b_head(),
        msg is Status ==> spec_message_json(msg).take(spec_lit_s_head().len() as int)
            == spec_lit_s_head(),
{
    match msg {
        DeviceMessage::WiFiScan { mac, ssid, rssi, ch, frame, matches, rule, ts } => {
            lemma_escape_nn(mac@);
            lemma_escape_nn(ssid@);
            lemma_escape_nn(frame.spec_bytes());
            lemma_json_i8_nn(rssi as int);
            lemma_json_u32_nn(ch as int);
            lemma_json_u32_nn(ts as int);
            lemma_matches_json_nn(matches@);
            lemma_rule_json_nn(rule);
            let s1 = spec_lit_w_head();
            let s2 = s1 + spec_escape(mac@);
            lemma_nn_concat(s1, spec_escape(mac@));
            let s3 = s2 + spec_lit_f_ssid();
            lemma_nn_concat(s2, spec_lit_f_ssid());
            let s4 = s3 + spec_escape(ssid@);
            lemma_nn_concat(s3, spec_escape(ssid@));
            let s5 = s4 + spec_lit_f_rssi();
            lemma_nn_concat(s4, spec_lit_f_rssi());
            let s6 = s5 + spec_json_i8(rssi as int);
            lemma_nn_concat(s5, spec_json_i8(rssi as int));
            let s7 = s6 + spec_lit_f_ch();
            lemma_nn_concat(s6, spec_lit_f_ch());
            let s8 = s7 + spec_json_u32(ch as int);
            lemma_nn_concat(s7, spec_json_u32(ch as int));
            let s9 = s8 + spec_lit_f_frame();
            lemma_nn_concat(s8, spec_lit_f_frame());
            let s10 = s9 + spec_escape(frame.spec_bytes());
            lemma_nn_concat(s9, spec_escape(frame.spec_bytes()));
            let s11 = s10 + spec_lit_f_match_q();
            lemma_nn_concat(s10, spec_lit_f_match_q());
            let s12 = s11 + spec_matches_json(matches@);
            lemma_nn_concat(s11, spec_matches_json(matches@));
            let s13 = s12 + spec_lit_close_bracket();
            lemma_nn_concat(s12, spec_lit_close_bracket());
            let s14 = s13 + spec_rule_json(rule);
            lemma_nn_concat(s13, spec_rule_json(rule));
            let s15 = s14 + spec_lit_f_ts();
            lemma_nn_concat(s14, spec_lit_f_ts());
            let s16 = s15 + spec_json_u32(ts as int);
            lemma_nn_concat(s15, spec_json_u32(ts as int));
            let s17 = s16 + spec_lit_close_brace();
            lemma_nn_concat(s16, spec_lit_close_brace());
            assert(spec_message_json(msg) == s17);
            assert(s17.last() == 125);
            assert(s17.take(s1.len() as int) =~= s1);
        },
        DeviceMessage::BleScan { mac, name, rssi, uuid, mfr, matches, rule, ts } => {
            lemma_escape_nn(mac@);
            lemma_escape_nn(name@);
            lemma_json_i8_nn(rssi as int);
            lemma_uuid_json_nn(uuid);
            lemma_json_u32_nn(mfr as int);
            lemma_json_u32_nn(ts as int);
            lemma_matches_json_nn(matches@);
            lemma_rule_json_nn(rule);
            let s1 = spec_lit_b_head();
            let s2 = s1 + spec_escape(mac@);
            lemma_nn_concat(s1, spec_escape(mac@));
            let s3 = s2 + spec_lit_f_name();
            lemma_nn_concat(s2, spec_lit_f_name());
            let s4 = s3 + spec_escape(name@);
            lemma_nn_concat(s3, spec_escape(name@));
            let s5 = s4 + spec_lit_f_rssi();
            lemma_nn_concat(s4, spec_lit_f_rssi());
            let s6 = s5 + spec_json_i8(rssi as int);
            lemma_nn_concat(s5, spec_json_i8(rssi as int));
            let s7 = s6 + spec_uuid_json(uuid);
            lemma_nn_concat(s6, spec_uuid_json(uuid));
            let s8 = s7 + spec_lit_f_mfr();
            lemma_nn_concat(s7, spec_lit_f_mfr());
            let s9 = s8 + spec_json_u32(mfr as int);
            lemma_nn_concat(s8, spec_json_u32(mfr as int));
            let s10 = s9 + spec_lit_f_match();
            lemma_nn_concat(s9, spec_lit_f_match());
            let s11 = s10 + spec_matches_json(matches@);
            lemma_nn_concat(s10, spec_matches_json(matches@));
            let s12 = s11 + spec_lit_close_bracket();
            lemma_nn_concat(s11, spec_lit_close_bracket());
            let s13 = s12 + spec_rule_json(rule);
            lemma_nn_concat(s12, spec_rule_json(rule));
            let s14 = s13 + spec_lit_f_ts();
            lemma_nn_concat(s13, spec_lit_f_ts());
            let s15 = s14 + spec_json_u32(ts as int);
            lemma_nn_concat(s14, spec_json_u32(ts as int));
            let s16 = s15 + spec_lit_close_brace();
            lemma_nn_concat(s15, spec_lit_close_brace());
            assert(spec_message_json(msg) == s16);
            assert(s16.last() == 125);
            assert(s16.take(s1.len() as int) =~= s1);
        },
        DeviceMessage::Status { scanning, uptime, heap_free, ble_clients, board, version } => {
            lemma_json_u32_nn(uptime as int);
            lemma_json_u32_nn(heap_free as int);
            lemma_json_u32_nn(ble_clients as int);
            lemma_escape_nn(board.spec_bytes());
            lemma_escape_nn(version.spec_bytes());
            let s1 = spec_lit_s_head();
            let s2 = s1 + spec_bool_json(scanning);
            lemma_nn_concat(s1, spec_bool_json(scanning));
            let s3 = s2 + spec_lit_s_uptime();
            lemma_nn_concat(s2, spec_lit_s_uptime());
            let s4 = s3 + spec_json_u32(uptime as int);
            lemma_nn_concat(s3, spec_json_u32(uptime as int));
            let s5 = s4 + spec_lit_s_heap();
            lemma_nn_concat(s4, spec_lit_s_heap());
            let s6 = s5 + spec_json_u32(heap_free as int);
            lemma_nn_concat(s5, spec_json_u32(heap_free as int));
            let s7 = s6 + spec_lit_s_clients();
            lemma_nn_concat(s6, spec_lit_s_clients());
            let s8 = s7 + spec_json_u32(ble_clients as int);
            lemma_nn_concat(s7, spec_json_u32(ble_clients as int));
            let s9 = s8 + spec_lit_s_board();
            lemma_nn_concat(s8, spec_lit_s_board());
            let s10 = s9 + spec_escape(board.spec_bytes());
            lemma_nn_concat(s9, spec_escape(board.spec_bytes()));
            let s11 = s10 + spec_lit_s_version();
            lemma_nn_concat(s10, spec_lit_s_version());
            let s12 = s11 + spec_escape(version.spec_bytes());
            lemma_nn_concat(s11, spec_escape(version.spec_bytes()));
            let s13 = s12 + spec_lit_m_end();
            lemma_nn_concat(s12, spec_lit_m_end());
            assert(spec_message_json(msg) == s13);
            assert(s13.last() == 125);
            assert(s13.take(s1.len() as int) =~= s1);
        },
    }
}


// ── Command parsing ─────────────────────────────────────────────────
//
// The downlink grammar, fixed here: one flat JSON object with a string
// field `cmd` and optional fields `min_rssi` (an integer that must fit
// an i8) and `enabled` (a boolean). String values carry no escapes,
// numbers are plain integers, unknown fields with simple values are
// skipped, a repeated known field is malformed, and anything malformed
// yields no command.

/// A simple JSON value, as the command grammar knows them.
pub enum JsonValue {
    Str(Seq<u8>),
    Int(int),
    Bool(bool),
    Null,
}

/// Whether a byte is JSON inter-token whitespace.
pub open spec fn spec_is_json_ws(b: u8) -> bool {
    b == 32 || b == 9 || b == 10 || b == 13
}

/// A byte string with its leading JSON whitespace removed.
pub open spec fn spec_skip_ws(s: Seq<u8>) -> Seq<u8>
    decreases s.len(),
{
    if s.len() > 0 && spec_is_json_ws(s[0]) {
        spec_skip_ws(s.drop_first())
    } else {
        s
    }
}

/// The body of a JSON string after its opening quote: the content up
/// to the closing quote and the rest of the input. Escapes are not
/// part of the grammar; a backslash makes the string malformed.
pub open spec fn spec_qbody(s: Seq<u8>) -> Option<(Seq<u8>, Seq<u8>)>
    decreases s.len(),
{
    if s.len() == 0 {
        None
    } else if s[0] == 34 {
        Some((Seq::empty(), s.drop_first()))
    } else if s[0] == 92 {
        None
    } else {
        match spec_qbody(s.drop_first()) {
            Some((c, rest)) => Some((seq![s[0]] + c, rest)),
            None => None,
        }
    }
}

/// A quoted JSON string at the head of the input.
pub open spec fn spec_parse_qstring(s: Seq<u8>) -> Option<(Seq<u8>, Seq<u8>)> {
    if s.len() > 0 && s[0] == 34 {
        spec_qbody(s.drop_first())
    } else {
        None
    }
}

/// The digits at the head of the input, folded onto an accumulator,
/// and the rest of the input.
pub open spec fn spec_digits(s: Seq<u8>, acc: int) -> (int, Seq<u8>)
    decreases s.len(),
{
    if s.len() > 0 && 48 <= s[0] <= 57 {
        spec_digits(s.drop_first(), acc * 10 + (s[0] - 48))
    } else {
        (acc, s)
    }
}

/// An optionally signed integer at the head of the input.
pub open spec fn spec_parse_number(s: Seq<u8>) -> Option<(int, Seq<u8>)> {
    if s.len() > 0 && s[0] == 45 {
        if s.len() > 1 && 48 <= s[1] <= 57 {
            let d = spec_digits(s.drop_first(), 0);
            Some((-d.0, d.1))
        } else {
            None
        }
    } else if s.len() > 0 && 48 <= s[0] <= 57 {
        let d = spec_digits(s, 0);
        Some((d.0, d.1))
    } else {
        None
    }
}

/// The bytes of the key `cmd`.
pub open spec fn spec_key_cmd() -> Seq<u8> {
    seq![99u8, 109, 100]
}

/// The bytes of the key `min_rssi`.
pub open spec fn spec_key_min_rssi() -> Seq<u8> {
    seq![109u8, 105, 110, 95, 114, 115, 115, 105]
}

/// The bytes of the key `enabled`.
pub open spec fn spec_key_enabled() -> Seq<u8> {
    seq![101u8, 110, 97, 98, 108, 101, 100]
}

/// The bytes of the word `true`.
pub open spec fn spec_word_true() -> Seq<u8> {
    seq![116u8, 114, 117, 101]
}

/// The bytes of the word `false`.
pub open spec fn spec_word_false() -> Seq<u8> {
    seq![102u8, 97, 108, 115, 101]
}

/// The bytes of the word `null`.
pub open spec fn spec_word_null() -> Seq<u8> {
    seq![110u8, 117, 108, 108]
}

/// A simple JSON value at the head of the input: a string, an integer,
/// a boolean or null.
pub open spec fn spec_parse_value(s: Seq<u8>) -> Option<(JsonValue, Seq<u8>)> {
    if s.len() > 0 && s[0] == 34 {
        match spec_parse_qstring(s) {
            Some((c, rest)) => Some((JsonValue::Str(c), rest)),
            None => None,
        }
    } else if s.len() > 0 && (s[0] == 45 || 48 <= s[0] <= 57) {
        match spec_parse_number(s) {
            Some((v, rest)) => Some((JsonValue::Int(v), rest)),
            None => None,
        }
    } else if s.len() >= 4 && s.take(4) == spec_word_true() {
        Some((JsonValue::Bool(true), s.skip(4)))
    } else if s.len() >= 5 && s.take(5) == spec_word_false() {
        Some((JsonValue::Bool(false), s.skip(5)))
    } else if s.len() >= 4 && s.take(4) == spec_word_null() {
        Some((JsonValue::Null, s.skip(4)))
    } else {
        None
    }
}

/// The three typed fields a command object can carry.
pub struct CommandFields {
    pub cmd: Option<Seq<u8>>,
    pub min_rssi: Option<int>,
    pub enabled: Option<bool>,
}

/// Fold one key/value pair into the fields. A known key must carry its
/// declared type, within range, and must not repeat; an unknown key is
/// skipped whatever its value.
pub open spec fn spec_update_fields(st: CommandFields, key: Seq<u8>, value: JsonValue) -> Option<
    CommandFields,
> {
    if key == spec_key_cmd() {
        match value {
            JsonValue::Str(c) => if st.cmd is None {
                Some(CommandFields { cmd: Some(c), min_rssi: st.min_rssi, enabled: st.enabled })
            } else {
                None
            },
            _ => None,
        }
    } else if key == spec_key_min_rssi() {
        match value {
            JsonValue::Int(v) => if st.min_rssi is None && -128 <= v <= 127 {
                Some(CommandFields { cmd: st.cmd, min_rssi: Some(v), enabled: st.enabled })
            } else {
                None
            },
            _ => None,
        }
    } else if key == spec_key_enabled() {
        match value {
            JsonValue::Bool(b) => if st.enabled is None {
                Some(CommandFields { cmd: st.cmd, min_rssi: st.min_rssi, enabled: Some(b) })
            } else {
                None
            },
            _ => None,
        }
    } else {
        Some(st)
    }
}

/// The members of an object, starting at the first key, folded onto
/// the fields; ends at the closing brace.
pub open spec fn spec_parse_pairs(s: Seq<u8>, st: CommandFields) -> Option<CommandFields>
    decreases s.len(),
{
    let t = spec_skip_ws(s);
    match spec_parse_qstring(t) {
        None => None,
        Some((key, rest1)) => {
            let t2 = spec_skip_ws(rest1);
            if t2.len() > 0 && t2[0] == 58 {
                let t3 = spec_skip_ws(t2.drop_first());
                match spec_parse_value(t3) {
                    None => None,
                    Some((value, rest2)) => match spec_update_fields(st, key, value) {
                        None => None,
                        Some(st2) => {
                            let t4 = spec_skip_ws(rest2);
                            if t4.len() > 0 && t4[0] == 125 {
                                Some(st2)
                            } else if t4.len() > 0 && t4[0] == 44 {
                                let nxt = t4.drop_first();
                                if nxt.len() < s.len() {
                                    spec_parse_pairs(nxt, st2)
                                } else {
                                    None
                                }
                            } else {
                                None
                            }
                        },
                    },
                }
            } else {
                None
            }
        },
    }
}

/// A flat command object at the head of the input; bytes after the
/// closing brace are ignored.
pub open spec fn spec_parse_object(s: Seq<u8>) -> Option<CommandFields> {
    let t = spec_skip_ws(s);
    if t.len() > 0 && t[0] == 123 {
        let t2 = spec_skip_ws(t.drop_first());
        if t2.len() > 0 && t2[0] == 125 {
            Some(CommandFields { cmd: None, min_rssi: None, enabled: None })
        } else {
            spec_parse_pairs(t2, CommandFields { cmd: None, min_rssi: None, enabled: None })
        }
    } else {
        None
    }
}

/// The command a line of bytes carries, if any: trailing whitespace is
/// stripped, the empty line carries nothing, and the object's `cmd`
/// field picks the command, with `min_rssi` required by `set_rssi` and
/// `enabled` required by `set_buzzer`. Unknown commands and missing
/// required fields yield nothing.
pub open spec fn spec_parse_command(data: Seq<u8>) -> Option<HostCommand> {
    let t = spec_trim_trailing(data);
    if t.len() == 0 {
        None
    } else {
        match spec_parse_object(t) {
            None => None,
            Some(st) => match st.cmd {
                None => None,
                Some(c) => if c == "start".spec_bytes() {
                    Some(HostCommand::Start)
                } else if c == "stop".spec_bytes() {
                    Some(HostCommand::Stop)
                } else if c == "status".spec_bytes() {
                    Some(HostCommand::GetStatus)
                } else if c == "set_rssi".spec_bytes() {
                    match st.min_rssi {
                        Some(v) => Some(HostCommand::SetRssi { min_rssi: v as i8 }),
                        None => None,
                    }
                } else if c == "set_buzzer".spec_bytes() {
                    match st.enabled {
                        Some(b) => Some(HostCommand::SetBuzzer { enabled: b }),
                        None => None,
                    }
                } else {
                    None
                },
            },
        }
    }
}

/// The ghost image of the exec `min_rssi` field.
pub open spec fn to_int_opt(v: Option<i8>) -> Option<int> {
    match v {
        Some(x) => Some(x as int),
        None => None,
    }
}

/// The ghost image of the exec `cmd` field.
pub open spec fn to_seq_opt(v: Option<Vec<u8>>) -> Option<Seq<u8>> {
    match v {
        Some(x) => Some(x@),
        None => None,
    }
}

/// Advance past JSON whitespace.
fn skip_ws_at(s: &[u8], pos: usize) -> (r: usize)
    requires
        pos <= s@.len(),
    ensures
        pos <= r <= s@.len(),
        s@.skip(r as int) == spec_skip_ws(s@.skip(pos as int)),
        r < s@.len() ==> !spec_is_json_ws(s@[r as int]),
{
    let n = s.len();
    let mut r = pos;
    loop
        invariant
            n == s@.len(),
            pos <= r <= n,
            spec_skip_ws(s@.skip(pos as int)) == spec_skip_ws(s@.skip(r as int)),
        ensures
            pos <= r <= n,
            spec_skip_ws(s@.skip(pos as int)) == s@.skip(r as int),
            r < n ==> !spec_is_json_ws(s@[r as int]),
        decreases n - r,
    {
        if r >= n {
            proof {
                assert(s@.skip(r as int) =~= Seq::<u8>::empty());
            }
            break ;
        }
        let b = *vstd::slice::slice_index_get(s, r);
        proof {
            assert(s@.skip(r as int)[0] == s@[r as int]);
        }
        if !(b == 32 || b == 9 || b == 10 || b == 13) {
            break ;
        }
        proof {
            assert(s@.skip(r as int).drop_first() =~= s@.skip(r + 1));
        }
        r += 1;
    }
    r
}

/// The closing quote of a string body with no quote or backslash
/// before it determines the body's content and rest.
proof fn lemma_qbody_closed(s: Seq<u8>, j: int)
    requires
        0 <= j < s.len(),
        s[j] == 34,
        forall|k: int| 0 <= k < j ==> s[k] != 34 && #[trigger] s[k] != 92,
    ensures
        spec_qbody(s) == Some((s.take(j), s.skip(j + 1))),
    decreases j,
{
    if j == 0 {
        assert(s.take(0) =~= Seq::<u8>::empty());
    } else {
        lemma_qbody_closed(s.drop_first(), j - 1);
        assert(s.drop_first().take(j - 1) =~= s.take(j).drop_first());
        assert(s.drop_first().skip(j) =~= s.skip(j + 1));
        assert(seq![s[0]] + s.take(j).drop_first() =~= s.take(j));
    }
}

/// A string body cut off by the input's end, or by a backslash before
/// any closing quote, is malformed.
proof fn lemma_qbody_open(s: Seq<u8>, j: int)
    requires
        0 <= j <= s.len(),
        forall|k: int| 0 <= k < j ==> s[k] != 34 && #[trigger] s[k] != 92,
        j == s.len() || s[j] == 92,
    ensures
        spec_qbody(s) is None,
    decreases j,
{
    if j > 0 {
        lemma_qbody_open(s.drop_first(), j - 1);
    }
}

/// Parse a quoted string starting at `pos`: the content bounds and the
/// position after the closing quote.
fn parse_qstring_at(s: &[u8], pos: usize) -> (r: Option<(usize, usize)>)
    requires
        pos <= s@.len(),
    ensures
        match r {
            Some(se) => {
                &&& pos < se.0 <= se.1 <= s@.len()
                &&& se.1 > se.0
                &&& spec_parse_qstring(s@.skip(pos as int)) == Some(
                    (s@.subrange(se.0 as int, se.1 - 1), s@.skip(se.1 as int)),
                )
            },
            None => spec_parse_qstring(s@.skip(pos as int)) is None,
        },
{
    let n = s.len();
    if pos >= n {
        proof {
            assert(s@.skip(pos as int) =~= Seq::<u8>::empty());
        }
        return None;
    }
    proof {
        assert(s@.skip(pos as int)[0] == s@[pos as int]);
    }
    if *vstd::slice::slice_index_get(s, pos) != 34 {
        return None;
    }
    proof {
        assert(s@.skip(pos as int).drop_first() =~= s@.skip(pos + 1));
    }
    let ghost body = s@.skip(pos + 1);
    let start = pos + 1;
    let mut j = start;
    loop
        invariant
            n == s@.len(),
            start == pos + 1,
            start <= j <= n,
            body == s@.skip(start as int),
            forall|k: int| 0 <= k < j - start ==> body[k] != 34 && #[trigger] body[k] != 92,
        ensures
            start <= j <= n,
            j < n ==> (s@[j as int] == 34 || s@[j as int] == 92),
            forall|k: int| 0 <= k < j - start ==> body[k] != 34 && #[trigger] body[k] != 92,
        decreases n - j,
    {
        if j >= n {
            break ;
        }
        let b = *vstd::slice::slice_index_get(s, j);
        if b == 34 || b == 92 {
            break ;
        }
        proof {
            assert(body[j - start] == s@[j as int]);
        }
        j += 1;
    }
    if j < n {
        let b = *vstd::slice::slice_index_get(s, j);
        proof {
            assert(body[j - start] == s@[j as int]);
        }
        if b == 34 {
            proof {
                lemma_qbody_closed(body, j - start);
                assert(body.take(j - start) =~= s@.subrange(start as int, j as int));
                assert(body.skip(j - start + 1) =~= s@.skip(j + 1));
            }
            return Some((start, j + 1));
        }
        proof {
            lemma_qbody_open(body, j - start);
        }
        return None;
    }
    proof {
        lemma_qbody_open(body, j - start);
    }
    None
}

/// Parse an optionally signed integer starting at `pos`: its sign, its
/// magnitude saturated at 1000, and the position after it.
fn parse_number_at(s: &[u8], pos: usize) -> (r: Option<(bool, u32, usize)>)
    requires
        pos <= s@.len(),
    ensures
        match r {
            Some(nsp) => {
                &&& pos < nsp.2 <= s@.len()
                &&& match spec_parse_number(s@.skip(pos as int)) {
                    Some(vr) => {
                        &&& vr.1 == s@.skip(nsp.2 as int)
                        &&& nsp.0 ==> vr.0 <= 0
                        &&& !nsp.0 ==> vr.0 >= 0
                        &&& (if vr.0 < 0 {
                            nsp.1 == (if -vr.0 > 1000 {
                                1000int
                            } else {
                                -vr.0
                            })
                        } else {
                            nsp.1 == (if vr.0 > 1000 {
                                1000int
                            } else {
                                vr.0
                            })
                        })
                    },
                    None => false,
                }
            },
            None => spec_parse_number(s@.skip(pos as int)) is None,
        },
{
    let n = s.len();
    if pos >= n {
        proof {
            assert(s@.skip(pos as int) =~= Seq::<u8>::empty());
        }
        return None;
    }
    let ghost whole = s@.skip(pos as int);
    proof {
        assert(whole[0] == s@[pos as int]);
    }
    let first = *vstd::slice::slice_index_get(s, pos);
    let neg = first == 45;
    if !neg && !(first >= 48 && first <= 57) {
        return None;
    }
    let dstart = if neg {
        pos + 1
    } else {
        pos
    };
    if dstart >= n {
        return None;
    }
    let d0 = *vstd::slice::slice_index_get(s, dstart);
    proof {
        if neg {
            assert(whole[1] == s@[pos + 1]);
        }
    }
    if !(d0 >= 48 && d0 <= 57) {
        return None;
    }
    proof {
        if neg {
            assert(whole.drop_first() =~= s@.skip(dstart as int));
        }
    }
    let ghost dsuffix = s@.skip(dstart as int);
    let mut j = dstart;
    let mut sat: u32 = 0;
    let ghost mut m: int = 0;
    proof {
        assert(spec_digits(dsuffix, 0) == spec_digits(s@.skip(j as int), m));
    }
    loop
        invariant
            n == s@.len(),
            dstart < n,
            48 <= s@[dstart as int] <= 57,
            dstart <= j <= n,
            dsuffix == s@.skip(dstart as int),
            m >= 0,
            sat == (if m > 1000 {
                1000int
            } else {
                m
            }),
            spec_digits(dsuffix, 0) == spec_digits(s@.skip(j as int), m),
        ensures
            dstart <= j <= n,
            j > dstart,
            m >= 0,
            sat == (if m > 1000 {
                1000int
            } else {
                m
            }),
            spec_digits(dsuffix, 0) == (m, s@.skip(j as int)),
        decreases n - j,
    {
        if j >= n {
            proof {
                assert(s@.skip(j as int) =~= Seq::<u8>::empty());
            }
            break ;
        }
        let b = *vstd::slice::slice_index_get(s, j);
        proof {
            assert(s@.skip(j as int)[0] == s@[j as int]);
        }
        if !(b >= 48 && b <= 57) {
            break ;
        }
        proof {
            assert(s@.skip(j as int).drop_first() =~= s@.skip(j + 1));
            m = m * 10 + (s@[j as int] - 48);
        }
        sat = sat * 10 + (b - 48) as u32;
        if sat > 1000 {
            sat = 1000;
        }
        j += 1;
    }
    Some((neg, sat, j))
}

/// Whether the bytes at `pos` start with the given fixed word.
fn word_at(s: &[u8], pos: usize, word: &[u8]) -> (r: bool)
    requires
        pos <= s@.len(),
    ensures
        r == (s@.skip(pos as int).len() >= word@.len() && s@.skip(pos as int).take(
            word@.len() as int,
        ) == word@),
{
    if s.len() - pos < word.len() {
        return false;
    }
    let window = vstd::slice::slice_subrange(s, pos, pos + word.len());
    let r = crate::ascii::bytes_eq(window, word);
    proof {
        assert(s@.skip(pos as int).take(word@.len() as int) =~= s@.subrange(
            pos as int,
            pos + word@.len(),
        ));
    }
    r
}

/// A four-byte word, built for a comparison.
fn word4(a: u8, b: u8, c: u8, d: u8) -> (r: Vec<u8>)
    ensures
        r@ == seq![a, b, c, d],
{
    let mut v: Vec<u8> = Vec::new();
    v.push(a);
    v.push(b);
    v.push(c);
    v.push(d);
    proof {
        assert(v@ =~= seq![a, b, c, d]);
    }
    v
}

/// A five-byte word, built for a comparison.
fn word5(a: u8, b: u8, c: u8, d: u8, e: u8) -> (r: Vec<u8>)
    ensures
        r@ == seq![a, b, c, d, e],
{
    let mut v: Vec<u8> = Vec::new();
    v.push(a);
    v.push(b);
    v.push(c);
    v.push(d);
    v.push(e);
    proof {
        assert(v@ =~= seq![a, b, c, d, e]);
    }
    v
}

/// Parse the members of the command object, starting at the first key,
/// into the three typed fields.
#[verifier::rlimit(100)]
fn parse_pairs_at(s: &[u8], start_pos: usize) -> (r: Option<
    (Option<Vec<u8>>, Option<i8>, Option<bool>),
>)
    requires
        start_pos <= s@.len(),
    ensures
        ({
            let st0 = CommandFields { cmd: None, min_rssi: None, enabled: None };
            match r {
                Some(f) => spec_parse_pairs(s@.skip(start_pos as int), st0) == Some(
                    CommandFields {
                        cmd: to_seq_opt(f.0),
                        min_rssi: to_int_opt(f.1),
                        enabled: f.2,
                    },
                ),
                None => spec_parse_pairs(s@.skip(start_pos as int), st0) is None,
            }
        }),
{
    let n = s.len();
    let mut pos = start_pos;
    let mut cmd: Option<Vec<u8>> = None;
    let mut min_rssi: Option<i8> = None;
    let mut enabled: Option<bool> = None;
    let ghost st0 = CommandFields { cmd: None, min_rssi: None, enabled: None };
    let ghost target = spec_parse_pairs(s@.skip(start_pos as int), st0);
    loop
        invariant
            n == s@.len(),
            pos <= n,
            st0 == (CommandFields {
                cmd: None::<Seq<u8>>,
                min_rssi: None::<int>,
                enabled: None::<bool>,
            }),
            target == spec_parse_pairs(s@.skip(start_pos as int), st0),
            target == spec_parse_pairs(
                s@.skip(pos as int),
                CommandFields {
                    cmd: to_seq_opt(cmd),
                    min_rssi: to_int_opt(min_rssi),
                    enabled: enabled,
                },
            ),
        decreases n - pos,
    {
        let ghost st = CommandFields {
            cmd: to_seq_opt(cmd),
            min_rssi: to_int_opt(min_rssi),
            enabled: enabled,
        };
        let ghost suffix = s@.skip(pos as int);
        let tpos = skip_ws_at(s, pos);
        let key_parsed = parse_qstring_at(s, tpos);
        let kk = match key_parsed {
            Some(kk) => kk,
            None => {
                proof {
                    assert(spec_parse_qstring(spec_skip_ws(s@.skip(pos as int))) is None);
                    assert(spec_parse_pairs(s@.skip(pos as int), st) is None);
                }
                return None;
            },
        };
        let kstart = kk.0;
        let kend1 = kk.1;
        let ghost key = s@.subrange(kstart as int, kend1 - 1);
        let key_slice = vstd::slice::slice_subrange(s, kstart, kend1 - 1);
        let t2 = skip_ws_at(s, kend1);
        proof {
            if t2 < s@.len() {
                assert(s@.skip(t2 as int)[0] == s@[t2 as int]);
            } else {
                assert(s@.skip(t2 as int) =~= Seq::<u8>::empty());
            }
        }
        if t2 >= n || *vstd::slice::slice_index_get(s, t2) != 58 {
            return None;
        }
        proof {
            assert(s@.skip(t2 as int).drop_first() =~= s@.skip(t2 + 1));
        }
        let t3 = skip_ws_at(s, t2 + 1);
        let ghost vsuffix = s@.skip(t3 as int);
        proof {
            if t3 < s@.len() {
                assert(vsuffix[0] == s@[t3 as int]);
            } else {
                assert(vsuffix =~= Seq::<u8>::empty());
            }
        }
        let cmd_word: Vec<u8> = vec![99, 109, 100];
        let rssi_word: Vec<u8> = vec![109, 105, 110, 95, 114, 115, 115, 105];
        let enabled_word: Vec<u8> = vec![101, 110, 97, 98, 108, 101, 100];
        let is_cmd = crate::ascii::bytes_eq(key_slice, cmd_word.as_slice());
        let is_rssi = crate::ascii::bytes_eq(key_slice, rssi_word.as_slice());
        let is_enabled = crate::ascii::bytes_eq(key_slice, enabled_word.as_slice());
        let mut vpos: usize = t3;
        let ghost mut value: JsonValue = JsonValue::Null;
        let head_is_quote = t3 < n && *vstd::slice::slice_index_get(s, t3) == 34;
        let head_is_numeric = !head_is_quote && t3 < n && {
            let b = *vstd::slice::slice_index_get(s, t3);
            b == 45 || (b >= 48 && b <= 57)
        };
        if head_is_quote {
            let q = parse_qstring_at(s, t3);
            match q {
                Some(cc) => {
                    vpos = cc.1;
                    proof {
                        value = JsonValue::Str(s@.subrange(cc.0 as int, cc.1 - 1));
                        assert(spec_parse_value(vsuffix) == Some(
                            (value, s@.skip(vpos as int)),
                        ));
                    }
                    if is_cmd {
                        if cmd.is_some() {
                            proof {
                                assert(spec_update_fields(st, key, value) is None);
                            }
                            return None;
                        }
                        let content = vstd::slice::slice_subrange(s, cc.0, cc.1 - 1);
                        cmd = Some(vstd::slice::slice_to_vec(content));
                    } else if is_rssi || is_enabled {
                        proof {
                            assert(spec_update_fields(st, key, value) is None);
                        }
                        return None;
                    }
                },
                None => {
                    proof {
                        assert(spec_parse_value(vsuffix) is None);
                    }
                    return None;
                },
            }
        } else if head_is_numeric {
            let num = parse_number_at(s, t3);
            match num {
                Some(nsp) => {
                    let neg = nsp.0;
                    let sat = nsp.1;
                    vpos = nsp.2;
                    let ghost v = spec_parse_number(vsuffix).unwrap().0;
                    proof {
                        value = JsonValue::Int(v);
                        assert(spec_parse_value(vsuffix) == Some(
                            (value, s@.skip(vpos as int)),
                        ));
                    }
                    if is_rssi {
                        if min_rssi.is_some() {
                            proof {
                                assert(spec_update_fields(st, key, value) is None);
                            }
                            return None;
                        }
                        if neg {
                            if sat > 128 {
                                proof {
                                    assert(v < -128);
                                    assert(spec_update_fields(st, key, value) is None);
                                }
                                return None;
                            }
                            min_rssi = Some((-(sat as i32)) as i8);
                            proof {
                                assert(min_rssi == Some(v as i8));
                            }
                        } else {
                            if sat > 127 {
                                proof {
                                    assert(v > 127);
                                    assert(spec_update_fields(st, key, value) is None);
                                }
                                return None;
                            }
                            min_rssi = Some(sat as i8);
                            proof {
                                assert(min_rssi == Some(v as i8));
                            }
                        }
                    } else if is_cmd || is_enabled {
                        proof {
                            assert(spec_update_fields(st, key, value) is None);
                        }
                        return None;
                    }
                },
                None => {
                    proof {
                        assert(spec_parse_value(vsuffix) is None);
                    }
                    return None;
                },
            }
        } else if word_at(s, t3, word4(116, 114, 117, 101).as_slice()) {
            proof {
                assert(s@.skip(t3 as int).len() == s@.len() - t3);
            }
            vpos = t3 + 4;
            proof {
                value = JsonValue::Bool(true);
                assert(vsuffix.skip(4) =~= s@.skip(vpos as int));
                assert(spec_parse_value(vsuffix) == Some((value, s@.skip(vpos as int))));
            }
            if is_enabled {
                if enabled.is_some() {
                    proof {
                        assert(spec_update_fields(st, key, value) is None);
                    }
                    return None;
                }
                enabled = Some(true);
            } else if is_cmd || is_rssi {
                proof {
                    assert(spec_update_fields(st, key, value) is None);
                }
                return None;
            }
        } else if word_at(s, t3, word5(102, 97, 108, 115, 101).as_slice()) {
            proof {
                assert(s@.skip(t3 as int).len() == s@.len() - t3);
            }
            vpos = t3 + 5;
            proof {
                value = JsonValue::Bool(false);
                assert(vsuffix.skip(5) =~= s@.skip(vpos as int));
                assert(spec_parse_value(vsuffix) == Some((value, s@.skip(vpos as int))));
            }
            if is_enabled {
                if enabled.is_some() {
                    proof {
                        assert(spec_update_fields(st, key, value) is None);
                    }
                    return None;
                }
                enabled = Some(false);
            } else if is_cmd || is_rssi {
                proof {
                    assert(spec_update_fields(st, key, value) is None);
                }
                return None;
            }
        } else if word_at(s, t3, word4(110, 117, 108, 108).as_slice()) {
            proof {
                assert(s@.skip(t3 as int).len() == s@.len() - t3);
            }
            vpos = t3 + 4;
            proof {
                value = JsonValue::Null;
                assert(vsuffix.skip(4) =~= s@.skip(vpos as int));
                assert(spec_parse_value(vsuffix) == Some((value, s@.skip(vpos as int))));
            }
            if is_cmd || is_rssi || is_enabled {
                proof {
                    assert(spec_update_fields(st, key, value) is None);
                }
                return None;
            }
        } else {
            proof {
                assert(spec_parse_value(vsuffix) is None);
            }
            return None;
        }
        let ghost st2 = CommandFields {
            cmd: to_seq_opt(cmd),
            min_rssi: to_int_opt(min_rssi),
            enabled: enabled,
        };
        proof {
            if is_cmd {
                assert(key == spec_key_cmd());
                assert(value is Str);
                assert(st.cmd is None);
                assert(spec_update_fields(st, key, value) == Some(st2));
            } else if is_rssi {
                assert(key == spec_key_min_rssi());
                assert(spec_update_fields(st, key, value) == Some(st2));
            } else if is_enabled {
                assert(key == spec_key_enabled());
                assert(spec_update_fields(st, key, value) == Some(st2));
            } else {
                assert(st2 == st);
                assert(spec_update_fields(st, key, value) == Some(st2));
            }
        }
        let t4 = skip_ws_at(s, vpos);
        proof {
            if t4 < s@.len() {
                assert(s@.skip(t4 as int)[0] == s@[t4 as int]);
            } else {
                assert(s@.skip(t4 as int) =~= Seq::<u8>::empty());
            }
        }
        if t4 < n && *vstd::slice::slice_index_get(s, t4) == 125 {
            proof {
                assert(spec_parse_pairs(suffix, st) == Some(st2));
            }
            return Some((cmd, min_rssi, enabled));
        }
        if t4 < n && *vstd::slice::slice_index_get(s, t4) == 44 {
            proof {
                assert(s@.skip(t4 as int).drop_first() =~= s@.skip(t4 + 1));
            }
            if t4 + 1 > pos {
                proof {
                    assert(spec_parse_pairs(suffix, st) == spec_parse_pairs(
                        s@.skip(t4 + 1),
                        st2,
                    ));
                }
                pos = t4 + 1;
            } else {
                proof {
                    assert(spec_parse_pairs(suffix, st) is None);
                }
                return None;
            }
        } else {
            proof {
                assert(spec_parse_pairs(suffix, st) is None);
            }
            return None;
        }
    }
}

/// Parse a host command from one line of bytes.
///
/// Trailing whitespace is tolerated; empty, malformed and unknown
/// lines yield no command, exactly as `spec_parse_command` lays out.
pub fn parse_command(data: &[u8]) -> (r: Option<HostCommand>)
    ensures
        r == spec_parse_command(data@),
{
    let trimmed = trim_trailing_whitespace(data);
    if trimmed.len() == 0 {
        return None;
    }
    let s = trimmed;
    proof {
        assert(s@.skip(0) =~= s@);
    }
    let p0 = skip_ws_at(s, 0);
    proof {
        if p0 < s@.len() {
            assert(s@.skip(p0 as int)[0] == s@[p0 as int]);
        } else {
            assert(s@.skip(p0 as int) =~= Seq::<u8>::empty());
        }
    }
    if p0 >= s.len() || *vstd::slice::slice_index_get(s, p0) != 123 {
        return None;
    }
    proof {
        assert(s@.skip(p0 as int).drop_first() =~= s@.skip(p0 + 1));
    }
    let p1 = skip_ws_at(s, p0 + 1);
    proof {
        if p1 < s@.len() {
            assert(s@.skip(p1 as int)[0] == s@[p1 as int]);
        } else {
            assert(s@.skip(p1 as int) =~= Seq::<u8>::empty());
        }
    }
    let fields: Option<(Option<Vec<u8>>, Option<i8>, Option<bool>)> = if p1 < s.len()
        && *vstd::slice::slice_index_get(s, p1) == 125 {
        Some((None, None, None))
    } else {
        parse_pairs_at(s, p1)
    };
    match fields {
        None => None,
        Some(f) => {
            let cmd = f.0;
            let min_rssi = f.1;
            let enabled = f.2;
            match cmd {
                None => None,
                Some(c) => {
                    if crate::ascii::bytes_eq(c.as_slice(), "start".as_bytes()) {
                        Some(HostCommand::Start)
                    } else if crate::ascii::bytes_eq(c.as_slice(), "stop".as_bytes()) {
                        Some(HostCommand::Stop)
                    } else if crate::ascii::bytes_eq(c.as_slice(), "status".as_bytes()) {
                        Some(HostCommand::GetStatus)
                    } else if crate::ascii::bytes_eq(c.as_slice(), "set_rssi".as_bytes()) {
                        match min_rssi {
                            Some(v) => Some(HostCommand::SetRssi { min_rssi: v }),
                            None => None,
                        }
                    } else if crate::ascii::bytes_eq(c.as_slice(), "set_buzzer".as_bytes()) {
                        match enabled {
                            Some(b) => Some(HostCommand::SetBuzzer { enabled: b }),
                            None => None,
                        }
                    } else {
                        None
                    }
                },
            }
        },
    }
}

} // verus!
