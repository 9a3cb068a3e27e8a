//! The signature matcher: evaluates one scan observation against the
//! signature database under the live configuration.
//!
//! Each check that fires sets the signature's global bit in the match
//! set; the first four checks that fire also leave a human-readable
//! reason. The bitset is exhaustive, the reason list best-effort.

use vstd::prelude::*;
use vstd::string::StringSliceAdditionalSpecFns;

use crate::ascii::{contains_sub, lower_prefix, spec_contains_sub, spec_lower};
use crate::defaults::{spec_ssid_pattern_matches, SignatureDb};
use crate::protocol::{reason_views, MacString, MatchReason};
use crate::rules::{evaluate_rules, spec_fired_indices, RuleDb, SigMatchSet};

verus! {

/// Runtime filter configuration, adjustable by the companion app.
#[derive(Debug, Clone, Copy)]
pub struct FilterConfig {
    /// Minimum RSSI threshold in dBm; weaker signals are ignored.
    pub min_rssi: i8,
    /// Whether Wi-Fi events are evaluated at all.
    pub wifi_enabled: bool,
    /// Whether BLE events are evaluated at all.
    pub ble_enabled: bool,
}

impl FilterConfig {
    /// The boot-time configuration.
    pub fn new() -> (c: Self)
        ensures
            c.min_rssi == -90,
            c.wifi_enabled,
            c.ble_enabled,
    {
        Self { min_rssi: -90, wifi_enabled: true, ble_enabled: true }
    }
}

impl Default for FilterConfig {
    fn default() -> (c: Self)
        ensures
            c.min_rssi == -90,
            c.wifi_enabled,
            c.ble_enabled,
    {
        Self::new()
    }
}

/// One Wi-Fi observation, as the wire parser hands it over.
#[derive(Debug)]
pub struct WiFiScanInput {
    pub mac: [u8; 6],
    pub ssid: Vec<u8>,
    pub rssi: i8,
}

/// One BLE observation, as the advertisement parser hands it over.
#[derive(Debug)]
pub struct BleScanInput {
    pub mac: [u8; 6],
    pub name: Vec<u8>,
    pub rssi: i8,
    /// 16-bit service UUIDs found in the advertisement.
    pub service_uuids_16: Vec<u16>,
    /// Manufacturer company ID, zero when absent.
    pub manufacturer_id: u16,
    /// Raw advertisement bytes, kept for byte-pattern matching.
    pub raw_ad: Vec<u8>,
}

/// The result of evaluating one scan event against the filters.
#[derive(Debug)]
pub struct FilterResult {
    /// Whether any filter matched.
    pub matched: bool,
    /// Up to four match reasons, in check order.
    pub matches: Vec<MatchReason>,
    /// The exhaustive set of matched signature indices.
    pub sig_matches: SigMatchSet,
    /// Names of matched rules, filled by the `_with_rules` entry points.
    pub rule_names: Vec<&'static str>,
}

/// A reason as the contracts speak of it: kind text and detail bytes.
pub type ReasonView = (Seq<char>, Seq<u8>);

/// Detail text is stored truncated to 32 bytes.
pub open spec fn spec_trunc32(s: Seq<u8>) -> Seq<u8> {
    if s.len() <= 32 {
        s
    } else {
        s.take(32)
    }
}

/// The first 33 bytes of a name, ASCII-lowercased: the window inside
/// which case-insensitive keyword checks look.
pub open spec fn spec_lower33(s: Seq<u8>) -> Seq<u8> {
    spec_lower(
        if s.len() <= 33 {
            s
        } else {
            s.take(33)
        },
    )
}

/// Appending a reason keeps only the first four.
pub open spec fn spec_add_reason(rs: Seq<ReasonView>, r: ReasonView) -> Seq<ReasonView> {
    if rs.len() < 4 {
        rs.push(r)
    } else {
        rs
    }
}

/// The first four entries of a reason list.
pub open spec fn first4(s: Seq<ReasonView>) -> Seq<ReasonView> {
    if s.len() <= 4 {
        s
    } else {
        s.take(4)
    }
}

/// Keeping the first four commutes with appending.
proof fn lemma_first4_push(s: Seq<ReasonView>, r: ReasonView)
    ensures
        first4(s.push(r)) == spec_add_reason(first4(s), r),
{
    if s.len() >= 4 {
        assert(s.push(r).take(4) =~= s.take(4));
    }
}

impl FilterResult {
    /// An empty result: nothing matched, nothing recorded.
    fn new() -> (r: Self)
        ensures
            !r.matched,
            r.matches@.len() == 0,
            r.sig_matches.spec_is_empty(),
            r.rule_names@.len() == 0,
    {
        Self {
            matched: false,
            matches: Vec::new(),
            sig_matches: SigMatchSet::new(),
            rule_names: Vec::new(),
        }
    }

    /// Record one match: always marks the result as matched, and appends
    /// the reason with its detail truncated to 32 bytes while there is
    /// room for it.
    fn add_match(&mut self, filter_type: &'static str, detail: &str)
        ensures
            final(self).sig_matches == old(self).sig_matches,
            final(self).rule_names == old(self).rule_names,
            final(self).matched,
            reason_views(final(self).matches@) == spec_add_reason(
                reason_views(old(self).matches@),
                (filter_type@, spec_trunc32(detail.spec_bytes())),
            ),
    {
        let ghost pre = self.matches@;
        if self.matches.len() < 4 {
            let bytes = detail.as_bytes();
            let take = if bytes.len() <= 32 {
                bytes.len()
            } else {
                32
            };
            let mut d: Vec<u8> = Vec::new();
            let mut i: usize = 0;
            while i < take
                invariant
                    take <= bytes@.len(),
                    i <= take,
                    d@ == bytes@.take(i as int),
                decreases take - i,
            {
                d.push(*vstd::slice::slice_index_get(bytes, i));
                proof {
                    assert(d@ =~= bytes@.take(i + 1));
                }
                i += 1;
            }
            proof {
                if bytes@.len() <= 32 {
                    assert(d@ =~= bytes@);
                }
                assert(d@ == spec_trunc32(detail.spec_bytes()));
            }
            self.matches.push(MatchReason { filter_type, detail: d });
            proof {
                assert(reason_views(self.matches@) =~= reason_views(pre).push(
                    (filter_type@, spec_trunc32(detail.spec_bytes())),
                ));
            }
        }
        self.matched = true;
    }
}

// ── What each check means, per table ────────────────────────────────

/// Whether OUI entry `i` matches the MAC's first three bytes.
pub open spec fn spec_oui_match(db: SignatureDb, mac: Seq<u8>, i: int) -> bool {
    mac.take(3) == db.mac_prefixes@[i].0@
}

/// Whether OUI entry `i` is the first entry matching the MAC: the
/// matcher records one vendor per MAC, the earliest in the table.
pub open spec fn spec_oui_first(db: SignatureDb, mac: Seq<u8>, i: int) -> bool {
    &&& 0 <= i < db.mac_prefixes@.len()
    &&& spec_oui_match(db, mac, i)
    &&& forall|j: int| 0 <= j < i ==> !spec_oui_match(db, mac, j)
}

/// Whether SSID-keyword entry `i` occurs in the lowercased SSID window.
pub open spec fn spec_ssid_keyword_hit(db: SignatureDb, ssid: Seq<u8>, i: int) -> bool {
    spec_contains_sub(spec_lower33(ssid), db.ssid_keywords@[i].spec_bytes())
}

/// Whether name-keyword entry `i` occurs in the lowercased SSID window.
pub open spec fn spec_wifi_name_hit(db: SignatureDb, ssid: Seq<u8>, i: int) -> bool {
    spec_contains_sub(spec_lower33(ssid), db.wifi_name_keywords@[i].spec_bytes())
}

/// Whether a keyword occurs in the SSID-keyword table, byte for byte.
pub open spec fn spec_in_ssid_keywords(db: SignatureDb, kw: Seq<u8>) -> bool {
    exists|j: int|
        0 <= j < db.ssid_keywords@.len() && (#[trigger] db.ssid_keywords@[j]).spec_bytes() == kw
}

/// Which global signature bits a Wi-Fi observation sets.
pub open spec fn spec_wifi_sig(db: SignatureDb, mac: Seq<u8>, ssid: Seq<u8>, g: int) -> bool {
    ||| spec_oui_first(db, mac, g)
    ||| (db.ssid_pattern_start() <= g < db.ssid_exact_start() && spec_ssid_pattern_matches(
        db.ssid_patterns@[g - db.ssid_pattern_start()],
        ssid,
    ))
    ||| (db.ssid_exact_start() <= g < db.ssid_keyword_start() && ssid == db.ssid_exact@[g
        - db.ssid_exact_start()].spec_bytes())
    ||| (db.ssid_keyword_start() <= g < db.wifi_name_start() && spec_ssid_keyword_hit(
        db,
        ssid,
        g - db.ssid_keyword_start(),
    ))
    ||| (db.wifi_name_start() <= g < db.ble_name_start() && spec_wifi_name_hit(
        db,
        ssid,
        g - db.wifi_name_start(),
    ))
}

// ── The reasons a Wi-Fi observation leaves, in check order ──────────

/// Reasons of the OUI scan over the first `n` entries: one reason for
/// the earliest matching entry, none after it.
pub open spec fn spec_oui_reasons_upto(db: SignatureDb, mac: Seq<u8>, n: int) -> Seq<ReasonView>
    decreases n,
{
    if n <= 0 {
        Seq::empty()
    } else {
        let p = spec_oui_reasons_upto(db, mac, n - 1);
        if p.len() == 0 && spec_oui_match(db, mac, n - 1) {
            seq![("mac_oui"@, spec_trunc32(db.mac_prefixes@[n - 1].1.spec_bytes()))]
        } else {
            p
        }
    }
}

/// The reason the OUI scan leaves, if any.
pub open spec fn spec_oui_reasons(db: SignatureDb, mac: Seq<u8>) -> Seq<ReasonView> {
    spec_oui_reasons_upto(db, mac, db.mac_prefixes@.len() as int)
}

/// Reasons of the SSID-pattern scan over the first `n` entries.
pub open spec fn spec_pattern_reasons_upto(db: SignatureDb, ssid: Seq<u8>, n: int) -> Seq<
    ReasonView,
>
    decreases n,
{
    if n <= 0 {
        Seq::empty()
    } else {
        spec_pattern_reasons_upto(db, ssid, n - 1) + if spec_ssid_pattern_matches(
            db.ssid_patterns@[n - 1],
            ssid,
        ) {
            seq![("ssid_pattern"@, spec_trunc32(db.ssid_patterns@[n - 1].description.spec_bytes()))]
        } else {
            Seq::empty()
        }
    }
}

/// Reasons of the exact-SSID scan over the first `n` entries.
pub open spec fn spec_exact_reasons_upto(db: SignatureDb, ssid: Seq<u8>, n: int) -> Seq<ReasonView>
    decreases n,
{
    if n <= 0 {
        Seq::empty()
    } else {
        spec_exact_reasons_upto(db, ssid, n - 1) + if ssid == db.ssid_exact@[n - 1].spec_bytes() {
            seq![("ssid_exact"@, spec_trunc32(db.ssid_exact@[n - 1].spec_bytes()))]
        } else {
            Seq::empty()
        }
    }
}

/// Reasons of the SSID-keyword scan over the first `n` entries.
pub open spec fn spec_keyword_reasons_upto(db: SignatureDb, ssid: Seq<u8>, n: int) -> Seq<
    ReasonView,
>
    decreases n,
{
    if n <= 0 {
        Seq::empty()
    } else {
        spec_keyword_reasons_upto(db, ssid, n - 1) + if spec_ssid_keyword_hit(db, ssid, n - 1) {
            seq![("ssid_keyword"@, spec_trunc32(db.ssid_keywords@[n - 1].spec_bytes()))]
        } else {
            Seq::empty()
        }
    }
}

/// Reasons of the name-keyword scan over the first `n` entries; a
/// keyword already present in the SSID-keyword table leaves no second
/// reason.
pub open spec fn spec_wifi_name_reasons_upto(db: SignatureDb, ssid: Seq<u8>, n: int) -> Seq<
    ReasonView,
>
    decreases n,
{
    if n <= 0 {
        Seq::empty()
    } else {
        spec_wifi_name_reasons_upto(db, ssid, n - 1) + if spec_wifi_name_hit(db, ssid, n - 1)
            && !spec_in_ssid_keywords(db, db.wifi_name_keywords@[n - 1].spec_bytes()) {
            seq![("wifi_name"@, spec_trunc32(db.wifi_name_keywords@[n - 1].spec_bytes()))]
        } else {
            Seq::empty()
        }
    }
}

/// Every reason a Wi-Fi observation leaves, in check order.
pub open spec fn spec_wifi_reasons(db: SignatureDb, mac: Seq<u8>, ssid: Seq<u8>) -> Seq<
    ReasonView,
> {
    spec_oui_reasons(db, mac) + spec_pattern_reasons_upto(db, ssid, db.ssid_patterns@.len() as int)
        + spec_exact_reasons_upto(db, ssid, db.ssid_exact@.len() as int)
        + spec_keyword_reasons_upto(db, ssid, db.ssid_keywords@.len() as int)
        + spec_wifi_name_reasons_upto(db, ssid, db.wifi_name_keywords@.len() as int)
}

/// The OUI scan leaves at most one reason.
proof fn lemma_oui_reasons_short(db: SignatureDb, mac: Seq<u8>, n: int)
    ensures
        spec_oui_reasons_upto(db, mac, n).len() <= 1,
    decreases n,
{
    if n > 0 {
        lemma_oui_reasons_short(db, mac, n - 1);
    }
}

/// Once the OUI scan has found its entry, later entries change nothing.
proof fn lemma_oui_reasons_frozen(db: SignatureDb, mac: Seq<u8>, k: int, n: int)
    requires
        0 <= k <= n,
        spec_oui_reasons_upto(db, mac, k).len() > 0,
    ensures
        spec_oui_reasons_upto(db, mac, n) == spec_oui_reasons_upto(db, mac, k),
    decreases n - k,
{
    if n > k {
        lemma_oui_reasons_frozen(db, mac, k, n - 1);
    }
}

/// Check the MAC against the OUI table: the first matching entry sets
/// its bit and leaves the vendor as the reason; later entries are not
/// examined.
fn check_mac_oui(db: &SignatureDb, mac: &[u8; 6], result: &mut FilterResult)
    requires
        db.wf(),
        old(result).sig_matches.spec_is_empty(),
        old(result).matches@.len() == 0,
        !old(result).matched,
        old(result).rule_names@.len() == 0,
    ensures
        forall|g: int| final(result).sig_matches.spec_get(g) == spec_oui_first(*db, mac@, g),
        reason_views(final(result).matches@) == spec_oui_reasons(*db, mac@),
        final(result).matched == (spec_oui_reasons(*db, mac@).len() > 0),
        final(result).rule_names@.len() == 0,
{
    let n = db.mac_prefixes.len();
    let mut i: usize = 0;
    while i < n
        invariant
            db.wf(),
            n == db.mac_prefixes@.len(),
            i <= n,
            result.sig_matches.spec_is_empty(),
            result.matches@.len() == 0,
            !result.matched,
            result.rule_names@.len() == 0,
            forall|j: int| 0 <= j < i ==> !spec_oui_match(*db, mac@, j),
            spec_oui_reasons_upto(*db, mac@, i as int) == Seq::<ReasonView>::empty(),
        decreases n - i,
    {
        let entry = *vstd::slice::slice_index_get(db.mac_prefixes.as_slice(), i);
        if mac[0] == entry.0[0] && mac[1] == entry.0[1] && mac[2] == entry.0[2] {
            proof {
                assert(mac@.take(3) =~= entry.0@);
            }
            result.sig_matches.set(i as u16);
            result.add_match("mac_oui", entry.1);
            proof {
                assert(spec_oui_reasons_upto(*db, mac@, i + 1) == seq![
                    ("mac_oui"@, spec_trunc32(db.mac_prefixes@[i as int].1.spec_bytes())),
                ]);
                lemma_oui_reasons_frozen(*db, mac@, i + 1, n as int);
                assert(reason_views(result.matches@) =~= spec_oui_reasons(*db, mac@));
                assert forall|g: int|
                    result.sig_matches.spec_get(g) == spec_oui_first(*db, mac@, g) by {
                    if g == i as int {
                        assert(spec_oui_first(*db, mac@, g));
                    } else if 0 <= g < db.mac_prefixes@.len() && spec_oui_first(*db, mac@, g) {
                        if g < i as int {
                            assert(!spec_oui_match(*db, mac@, g));
                        } else {
                            assert(spec_oui_match(*db, mac@, i as int));
                        }
                    }
                }
            }
            return ;
        }
        proof {
            assert(mac@.take(3) != entry.0@) by {
                if mac@.take(3) == entry.0@ {
                    assert(mac@.take(3)[0] == entry.0@[0]);
                    assert(mac@.take(3)[1] == entry.0@[1]);
                    assert(mac@.take(3)[2] == entry.0@[2]);
                }
            }
        }
        i += 1;
    }
}

/// Evaluate a Wi-Fi observation against every Wi-Fi table.
///
/// With Wi-Fi disabled, or the signal below the threshold, nothing is
/// evaluated and the result is empty. Otherwise the match set holds
/// exactly the Wi-Fi signature bits the observation earns, and the
/// reason list the first four reasons in check order.
pub fn filter_wifi(input: &WiFiScanInput, config: &FilterConfig, db: &SignatureDb) -> (result:
    FilterResult)
    requires
        db.wf(),
    ensures
        result.matches@.len() <= 4,
        result.rule_names@.len() == 0,
        !(config.wifi_enabled && input.rssi >= config.min_rssi) ==> !result.matched
            && result.matches@.len() == 0 && result.sig_matches.spec_is_empty(),
        config.wifi_enabled && input.rssi >= config.min_rssi ==> {
            &&& forall|g: int|
                result.sig_matches.spec_get(g) == spec_wifi_sig(*db, input.mac@, input.ssid@, g)
            &&& reason_views(result.matches@) == first4(
                spec_wifi_reasons(*db, input.mac@, input.ssid@),
            )
            &&& result.matched == (spec_wifi_reasons(*db, input.mac@, input.ssid@).len() > 0)
        },
{
    let mut result = FilterResult::new();

    if !config.wifi_enabled {
        return result;
    }
    if input.rssi < config.min_rssi {
        return result;
    }

    let ghost mac = input.mac@;
    let ghost ssid = input.ssid@;

    check_mac_oui(db, &input.mac, &mut result);
    let ghost mut reasons: Seq<ReasonView> = spec_oui_reasons(*db, mac);
    proof {
        lemma_oui_reasons_short(*db, mac, db.mac_prefixes@.len() as int);
        assert(first4(reasons) == reasons);
    }

    // SSID structured patterns.
    let pattern_start: u16 = db.mac_prefixes.len() as u16;
    let np = db.ssid_patterns.len();
    let mut i: usize = 0;
    while i < np
        invariant
            db.wf(),
            np == db.ssid_patterns@.len(),
            pattern_start as int == db.ssid_pattern_start(),
            i <= np,
            mac == input.mac@,
            ssid == input.ssid@,
            forall|g: int|
                result.sig_matches.spec_get(g) == (spec_oui_first(*db, mac, g) || (
                db.ssid_pattern_start() <= g < db.ssid_pattern_start() + i
                    && spec_ssid_pattern_matches(
                    db.ssid_patterns@[g - db.ssid_pattern_start()],
                    ssid,
                ))),
            reasons == spec_oui_reasons(*db, mac) + spec_pattern_reasons_upto(*db, ssid, i as int),
            reason_views(result.matches@) == first4(reasons),
            result.matched == (reasons.len() > 0),
            result.rule_names@.len() == 0,
        decreases np - i,
    {
        let p = vstd::slice::slice_index_get(db.ssid_patterns.as_slice(), i);
        if p.matches(input.ssid.as_slice()) {
            result.sig_matches.set(pattern_start + i as u16);
            result.add_match("ssid_pattern", p.description);
            proof {
                lemma_first4_push(
                    reasons,
                    ("ssid_pattern"@, spec_trunc32(p.description.spec_bytes())),
                );
                reasons = reasons.push(
                    ("ssid_pattern"@, spec_trunc32(p.description.spec_bytes())),
                );
            }
        }
        i += 1;
        proof {
            assert(reasons =~= spec_oui_reasons(*db, mac) + spec_pattern_reasons_upto(
                *db,
                ssid,
                i as int,
            ));
        }
    }

    // Exact SSID names.
    let exact_start: u16 = pattern_start + db.ssid_patterns.len() as u16;
    let ne = db.ssid_exact.len();
    let mut i: usize = 0;
    while i < ne
        invariant
            db.wf(),
            ne == db.ssid_exact@.len(),
            exact_start as int == db.ssid_exact_start(),
            i <= ne,
            mac == input.mac@,
            ssid == input.ssid@,
            forall|g: int|
                result.sig_matches.spec_get(g) == (spec_oui_first(*db, mac, g) || (
                db.ssid_pattern_start() <= g < db.ssid_exact_start() && spec_ssid_pattern_matches(
                    db.ssid_patterns@[g - db.ssid_pattern_start()],
                    ssid,
                )) || (db.ssid_exact_start() <= g < db.ssid_exact_start() + i && ssid
                    == db.ssid_exact@[g - db.ssid_exact_start()].spec_bytes())),
            reasons == spec_oui_reasons(*db, mac) + spec_pattern_reasons_upto(
                *db,
                ssid,
                db.ssid_patterns@.len() as int,
            ) + spec_exact_reasons_upto(*db, ssid, i as int),
            reason_views(result.matches@) == first4(reasons),
            result.matched == (reasons.len() > 0),
            result.rule_names@.len() == 0,
        decreases ne - i,
    {
        let exact = *vstd::slice::slice_index_get(db.ssid_exact.as_slice(), i);
        if crate::ascii::bytes_eq(input.ssid.as_slice(), exact.as_bytes()) {
            result.sig_matches.set(exact_start + i as u16);
            result.add_match("ssid_exact", exact);
            proof {
                lemma_first4_push(reasons, ("ssid_exact"@, spec_trunc32(exact.spec_bytes())));
                reasons = reasons.push(("ssid_exact"@, spec_trunc32(exact.spec_bytes())));
            }
        }
        i += 1;
        proof {
            assert(reasons =~= spec_oui_reasons(*db, mac) + spec_pattern_reasons_upto(
                *db,
                ssid,
                db.ssid_patterns@.len() as int,
            ) + spec_exact_reasons_upto(*db, ssid, i as int));
        }
    }

    // Case-insensitive keyword checks over the lowercased window.
    let lowered = lower_prefix(input.ssid.as_slice(), 33);
    proof {
        assert(lowered@ == spec_lower33(ssid));
    }

    let keyword_start: u16 = exact_start + db.ssid_exact.len() as u16;
    let nk = db.ssid_keywords.len();
    let mut i: usize = 0;
    while i < nk
        invariant
            db.wf(),
            nk == db.ssid_keywords@.len(),
            keyword_start as int == db.ssid_keyword_start(),
            i <= nk,
            mac == input.mac@,
            ssid == input.ssid@,
            lowered@ == spec_lower33(ssid),
            forall|g: int|
                result.sig_matches.spec_get(g) == (spec_oui_first(*db, mac, g) || (
                db.ssid_pattern_start() <= g < db.ssid_exact_start() && spec_ssid_pattern_matches(
                    db.ssid_patterns@[g - db.ssid_pattern_start()],
                    ssid,
                )) || (db.ssid_exact_start() <= g < db.ssid_keyword_start() && ssid
                    == db.ssid_exact@[g - db.ssid_exact_start()].spec_bytes()) || (
                db.ssid_keyword_start() <= g < db.ssid_keyword_start() + i && spec_ssid_keyword_hit(
                    *db,
                    ssid,
                    g - db.ssid_keyword_start(),
                ))),
            reasons == spec_oui_reasons(*db, mac) + spec_pattern_reasons_upto(
                *db,
                ssid,
                db.ssid_patterns@.len() as int,
            ) + spec_exact_reasons_upto(*db, ssid, db.ssid_exact@.len() as int)
                + spec_keyword_reasons_upto(*db, ssid, i as int),
            reason_views(result.matches@) == first4(reasons),
            result.matched == (reasons.len() > 0),
            result.rule_names@.len() == 0,
        decreases nk - i,
    {
        let kw = *vstd::slice::slice_index_get(db.ssid_keywords.as_slice(), i);
        if contains_sub(lowered.as_slice(), kw.as_bytes()) {
            result.sig_matches.set(keyword_start + i as u16);
            result.add_match("ssid_keyword", kw);
            proof {
                lemma_first4_push(reasons, ("ssid_keyword"@, spec_trunc32(kw.spec_bytes())));
                reasons = reasons.push(("ssid_keyword"@, spec_trunc32(kw.spec_bytes())));
            }
        }
        i += 1;
        proof {
            assert(reasons =~= spec_oui_reasons(*db, mac) + spec_pattern_reasons_upto(
                *db,
                ssid,
                db.ssid_patterns@.len() as int,
            ) + spec_exact_reasons_upto(*db, ssid, db.ssid_exact@.len() as int)
                + spec_keyword_reasons_upto(*db, ssid, i as int));
        }
    }

    // Name keywords: same window, recorded only when the keyword is not
    // already in the SSID-keyword table.
    let wifi_name_start: u16 = keyword_start + db.ssid_keywords.len() as u16;
    let nw = db.wifi_name_keywords.len();
    let mut i: usize = 0;
    while i < nw
        invariant
            db.wf(),
            nw == db.wifi_name_keywords@.len(),
            wifi_name_start as int == db.wifi_name_start(),
            i <= nw,
            mac == input.mac@,
            ssid == input.ssid@,
            lowered@ == spec_lower33(ssid),
            forall|g: int|
                result.sig_matches.spec_get(g) == (spec_oui_first(*db, mac, g) || (
                db.ssid_pattern_start() <= g < db.ssid_exact_start() && spec_ssid_pattern_matches(
                    db.ssid_patterns@[g - db.ssid_pattern_start()],
                    ssid,
                )) || (db.ssid_exact_start() <= g < db.ssid_keyword_start() && ssid
                    == db.ssid_exact@[g - db.ssid_exact_start()].spec_bytes()) || (
                db.ssid_keyword_start() <= g < db.wifi_name_start() && spec_ssid_keyword_hit(
                    *db,
                    ssid,
                    g - db.ssid_keyword_start(),
                )) || (db.wifi_name_start() <= g < db.wifi_name_start() + i && spec_wifi_name_hit(
                    *db,
                    ssid,
                    g - db.wifi_name_start(),
                ))),
            reasons == spec_oui_reasons(*db, mac) + spec_pattern_reasons_upto(
                *db,
                ssid,
                db.ssid_patterns@.len() as int,
            ) + spec_exact_reasons_upto(*db, ssid, db.ssid_exact@.len() as int)
                + spec_keyword_reasons_upto(*db, ssid, db.ssid_keywords@.len() as int)
                + spec_wifi_name_reasons_upto(*db, ssid, i as int),
            reason_views(result.matches@) == first4(reasons),
            result.matched == (reasons.len() > 0),
            result.rule_names@.len() == 0,
        decreases nw - i,
    {
        let kw = *vstd::slice::slice_index_get(db.wifi_name_keywords.as_slice(), i);
        if contains_sub(lowered.as_slice(), kw.as_bytes()) {
            result.sig_matches.set(wifi_name_start + i as u16);
            if !str_in_table(db.ssid_keywords.as_slice(), kw) {
                result.add_match("wifi_name", kw);
                proof {
                    lemma_first4_push(reasons, ("wifi_name"@, spec_trunc32(kw.spec_bytes())));
                    reasons = reasons.push(("wifi_name"@, spec_trunc32(kw.spec_bytes())));
                }
            }
        }
        i += 1;
        proof {
            assert(reasons =~= spec_oui_reasons(*db, mac) + spec_pattern_reasons_upto(
                *db,
                ssid,
                db.ssid_patterns@.len() as int,
            ) + spec_exact_reasons_upto(*db, ssid, db.ssid_exact@.len() as int)
                + spec_keyword_reasons_upto(*db, ssid, db.ssid_keywords@.len() as int)
                + spec_wifi_name_reasons_upto(*db, ssid, i as int));
        }
    }

    result
}

// ── BLE checks ──────────────────────────────────────────────────────

/// Whether BLE-name entry `i` occurs, case-insensitively, in the name.
/// An empty name matches nothing.
pub open spec fn spec_ble_name_hit(db: SignatureDb, name: Seq<u8>, i: int) -> bool {
    &&& name.len() > 0
    &&& spec_contains_sub(spec_lower33(name), spec_lower33(db.ble_name_patterns@[i].spec_bytes()))
}

/// Whether vendor-UUID entry `i` occurs among the advertised UUIDs.
pub open spec fn spec_ble_uuid_hit(db: SignatureDb, uuids: Seq<u16>, i: int) -> bool {
    exists|k: int| 0 <= k < uuids.len() && uuids[k] == db.ble_service_uuids_16@[i]
}

/// Whether standard-UUID entry `i` occurs among the advertised UUIDs.
pub open spec fn spec_ble_std_uuid_hit(db: SignatureDb, uuids: Seq<u16>, i: int) -> bool {
    exists|k: int| 0 <= k < uuids.len() && uuids[k] == db.ble_standard_uuids_16@[i]
}

/// Whether manufacturer-ID entry `i` equals the advertised company ID;
/// a zero company ID counts as absent.
pub open spec fn spec_ble_mfr_hit(db: SignatureDb, mfr: u16, i: int) -> bool {
    mfr != 0 && mfr == db.ble_manufacturer_ids@[i]
}

/// The manufacturer-specific data inside a raw advertisement: the data
/// portion, company ID included, of the first structure of type 0xFF.
/// The walk stops cleanly at a zero length or a truncated structure.
pub open spec fn spec_find_mfr_data(ad: Seq<u8>) -> Option<Seq<u8>>
    decreases ad.len(),
{
    if ad.len() == 0 {
        None
    } else {
        let l = ad[0] as int;
        if l == 0 || 1 + l > ad.len() {
            None
        } else if ad[1] == 0xFF {
            Some(ad.subrange(2, 1 + l))
        } else {
            spec_find_mfr_data(ad.skip(1 + l))
        }
    }
}

/// Whether byte-pattern entry `i` matches the raw advertisement: at the
/// declared offset of the manufacturer-specific data, or anywhere in
/// the raw bytes when no offset is declared. Empty raw bytes match
/// nothing.
pub open spec fn spec_ad_pattern_hit(db: SignatureDb, raw_ad: Seq<u8>, i: int) -> bool {
    &&& raw_ad.len() > 0
    &&& {
        let p = db.ble_ad_bytes_patterns@[i];
        match p.offset {
            Some(off) => match spec_find_mfr_data(raw_ad) {
                Some(d) => off + p.bytes@.len() <= d.len() && d.subrange(
                    off as int,
                    off + p.bytes@.len(),
                ) == p.bytes@,
                None => false,
            },
            None => spec_contains_sub(raw_ad, p.bytes@),
        }
    }
}

/// Which global signature bits a BLE observation sets.
pub open spec fn spec_ble_sig(
    db: SignatureDb,
    mac: Seq<u8>,
    name: Seq<u8>,
    uuids: Seq<u16>,
    mfr: u16,
    raw_ad: Seq<u8>,
    g: int,
) -> bool {
    ||| spec_oui_first(db, mac, g)
    ||| (db.ble_name_start() <= g < db.ble_uuid_start() && spec_ble_name_hit(
        db,
        name,
        g - db.ble_name_start(),
    ))
    ||| (db.ble_uuid_start() <= g < db.ble_std_uuid_start() && spec_ble_uuid_hit(
        db,
        uuids,
        g - db.ble_uuid_start(),
    ))
    ||| (db.ble_std_uuid_start() <= g < db.ble_mfr_start() && spec_ble_std_uuid_hit(
        db,
        uuids,
        g - db.ble_std_uuid_start(),
    ))
    ||| (db.ble_mfr_start() <= g < db.ble_ad_bytes_start() && spec_ble_mfr_hit(
        db,
        mfr,
        g - db.ble_mfr_start(),
    ))
    ||| (db.ble_ad_bytes_start() <= g < db.sig_count() && spec_ad_pattern_hit(
        db,
        raw_ad,
        g - db.ble_ad_bytes_start(),
    ))
}

// ── The reasons a BLE observation leaves, in check order ────────────

/// Reasons of the BLE-name scan over the first `n` entries.
pub open spec fn spec_ble_name_reasons_upto(db: SignatureDb, name: Seq<u8>, n: int) -> Seq<
    ReasonView,
>
    decreases n,
{
    if n <= 0 {
        Seq::empty()
    } else {
        spec_ble_name_reasons_upto(db, name, n - 1) + if spec_ble_name_hit(db, name, n - 1) {
            seq![("ble_name"@, spec_trunc32(db.ble_name_patterns@[n - 1].spec_bytes()))]
        } else {
            Seq::empty()
        }
    }
}

/// Reasons one advertised UUID leaves against the vendor-UUID table.
pub open spec fn spec_uuid_service_reasons_upto(db: SignatureDb, u: u16, n: int) -> Seq<ReasonView>
    decreases n,
{
    if n <= 0 {
        Seq::empty()
    } else {
        spec_uuid_service_reasons_upto(db, u, n - 1) + if u == db.ble_service_uuids_16@[n - 1] {
            seq![("ble_uuid"@, spec_trunc32("Raven service UUID".spec_bytes()))]
        } else {
            Seq::empty()
        }
    }
}

/// Reasons one advertised UUID leaves against the standard-UUID table.
pub open spec fn spec_uuid_std_reasons_upto(db: SignatureDb, u: u16, n: int) -> Seq<ReasonView>
    decreases n,
{
    if n <= 0 {
        Seq::empty()
    } else {
        spec_uuid_std_reasons_upto(db, u, n - 1) + if u == db.ble_standard_uuids_16@[n - 1] {
            seq![("ble_uuid_std"@, spec_trunc32("Raven standard UUID".spec_bytes()))]
        } else {
            Seq::empty()
        }
    }
}

/// Reasons one advertised UUID leaves: vendor table first, then the
/// standard table.
pub open spec fn spec_uuid_one_reasons(db: SignatureDb, u: u16) -> Seq<ReasonView> {
    spec_uuid_service_reasons_upto(db, u, db.ble_service_uuids_16@.len() as int)
        + spec_uuid_std_reasons_upto(db, u, db.ble_standard_uuids_16@.len() as int)
}

/// Reasons of the UUID stage over the first `k` advertised UUIDs.
pub open spec fn spec_uuid_reasons_upto(db: SignatureDb, uuids: Seq<u16>, k: int) -> Seq<
    ReasonView,
>
    decreases k,
{
    if k <= 0 {
        Seq::empty()
    } else {
        spec_uuid_reasons_upto(db, uuids, k - 1) + spec_uuid_one_reasons(db, uuids[k - 1])
    }
}

/// Reasons of the manufacturer-ID scan over the first `n` entries.
pub open spec fn spec_mfr_reasons_upto(db: SignatureDb, mfr: u16, n: int) -> Seq<ReasonView>
    decreases n,
{
    if n <= 0 {
        Seq::empty()
    } else {
        spec_mfr_reasons_upto(db, mfr, n - 1) + if spec_ble_mfr_hit(db, mfr, n - 1) {
            seq![("ble_mfr"@, spec_trunc32("Known manufacturer ID".spec_bytes()))]
        } else {
            Seq::empty()
        }
    }
}

/// Reasons of the byte-pattern scan over the first `n` entries.
pub open spec fn spec_ad_reasons_upto(db: SignatureDb, raw_ad: Seq<u8>, n: int) -> Seq<ReasonView>
    decreases n,
{
    if n <= 0 {
        Seq::empty()
    } else {
        spec_ad_reasons_upto(db, raw_ad, n - 1) + if spec_ad_pattern_hit(db, raw_ad, n - 1) {
            seq![
                (
                    "ble_ad_bytes"@,
                    spec_trunc32(db.ble_ad_bytes_patterns@[n - 1].description.spec_bytes()),
                ),
            ]
        } else {
            Seq::empty()
        }
    }
}

/// Every reason a BLE observation leaves, in check order.
pub open spec fn spec_ble_reasons(
    db: SignatureDb,
    mac: Seq<u8>,
    name: Seq<u8>,
    uuids: Seq<u16>,
    mfr: u16,
    raw_ad: Seq<u8>,
) -> Seq<ReasonView> {
    spec_oui_reasons(db, mac) + spec_ble_name_reasons_upto(
        db,
        name,
        db.ble_name_patterns@.len() as int,
    ) + spec_uuid_reasons_upto(db, uuids, uuids.len() as int) + spec_mfr_reasons_upto(
        db,
        mfr,
        db.ble_manufacturer_ids@.len() as int,
    ) + spec_ad_reasons_upto(db, raw_ad, db.ble_ad_bytes_patterns@.len() as int)
}

/// Extract the manufacturer-specific data from raw advertisement bytes:
/// the data portion, company ID included, of the first structure of
/// type 0xFF.
fn find_manufacturer_data(raw_ad: &[u8]) -> (r: Option<&[u8]>)
    ensures
        match r {
            Some(d) => spec_find_mfr_data(raw_ad@) == Some(d@),
            None => spec_find_mfr_data(raw_ad@) is None,
        },
{
    let n = raw_ad.len();
    let mut pos: usize = 0;
    let mut found = false;
    proof {
        assert(raw_ad@.skip(0) =~= raw_ad@);
    }
    loop
        invariant_except_break
            n == raw_ad@.len(),
            pos <= n,
            !found,
            spec_find_mfr_data(raw_ad@) == spec_find_mfr_data(raw_ad@.skip(pos as int)),
        ensures
            n == raw_ad@.len(),
            pos <= n,
            found ==> {
                let l = raw_ad@[pos as int] as int;
                &&& pos < n
                &&& l >= 1
                &&& pos + 1 + l <= n
                &&& spec_find_mfr_data(raw_ad@) == Some(
                    raw_ad@.subrange(pos as int + 2, pos as int + 1 + l),
                )
            },
            !found ==> spec_find_mfr_data(raw_ad@) is None,
        decreases n - pos,
    {
        if pos >= n {
            proof {
                assert(raw_ad@.skip(pos as int) =~= Seq::<u8>::empty());
            }
            break ;
        }
        let ghost rest = raw_ad@.skip(pos as int);
        proof {
            assert(rest[0] == raw_ad@[pos as int]);
        }
        let len = *vstd::slice::slice_index_get(raw_ad, pos) as usize;
        if len == 0 || len > n - pos - 1 {
            proof {
                assert(spec_find_mfr_data(rest) is None);
            }
            break ;
        }
        proof {
            assert(rest[1] == raw_ad@[pos as int + 1]);
        }
        let ad_type = *vstd::slice::slice_index_get(raw_ad, pos + 1);
        if ad_type == 0xFF {
            found = true;
            proof {
                assert(rest.subrange(2, 1 + len as int) =~= raw_ad@.subrange(
                    pos as int + 2,
                    pos as int + 1 + len as int,
                ));
            }
            break ;
        }
        proof {
            assert(rest.skip(1 + len as int) =~= raw_ad@.skip(pos as int + 1 + len as int));
        }
        pos = pos + 1 + len;
    }
    if found {
        let len = *vstd::slice::slice_index_get(raw_ad, pos) as usize;
        Some(vstd::slice::slice_subrange(raw_ad, pos + 2, pos + 1 + len))
    } else {
        None
    }
}

/// Whether one byte pattern matches: at its declared offset of the
/// manufacturer-specific data, or anywhere in the raw bytes.
fn ad_pattern_matches(
    bytes: &Vec<u8>,
    offset: &Option<usize>,
    raw_ad: &[u8],
    mfr_data: &Option<&[u8]>,
) -> (r: bool)
    requires
        raw_ad@.len() > 0,
        match mfr_data {
            Some(d) => spec_find_mfr_data(raw_ad@) == Some(d@),
            None => spec_find_mfr_data(raw_ad@) is None,
        },
    ensures
        r == match offset {
            Some(off) => match spec_find_mfr_data(raw_ad@) {
                Some(d) => off + bytes@.len() <= d.len() && d.subrange(
                    *off as int,
                    *off + bytes@.len(),
                ) == bytes@,
                None => false,
            },
            None => spec_contains_sub(raw_ad@, bytes@),
        },
{
    match offset {
        Some(off) => {
            match mfr_data {
                Some(data) => {
                    let off = *off;
                    if off > data.len() || data.len() - off < bytes.len() {
                        return false;
                    }
                    let window = vstd::slice::slice_subrange(data, off, off + bytes.len());
                    crate::ascii::bytes_eq(window, bytes.as_slice())
                },
                None => false,
            }
        },
        None => contains_sub(raw_ad, bytes.as_slice()),
    }
}

/// Evaluate a BLE observation against every BLE table.
///
/// With BLE disabled, or the signal below the threshold, nothing is
/// evaluated and the result is empty. Otherwise the match set holds
/// exactly the BLE signature bits the observation earns, and the
/// reason list the first four reasons in check order.
pub fn filter_ble(input: &BleScanInput, config: &FilterConfig, db: &SignatureDb) -> (result:
    FilterResult)
    requires
        db.wf(),
    ensures
        result.matches@.len() <= 4,
        result.rule_names@.len() == 0,
        !(config.ble_enabled && input.rssi >= config.min_rssi) ==> !result.matched
            && result.matches@.len() == 0 && result.sig_matches.spec_is_empty(),
        config.ble_enabled && input.rssi >= config.min_rssi ==> {
            &&& forall|g: int|
                result.sig_matches.spec_get(g) == spec_ble_sig(
                    *db,
                    input.mac@,
                    input.name@,
                    input.service_uuids_16@,
                    input.manufacturer_id,
                    input.raw_ad@,
                    g,
                )
            &&& reason_views(result.matches@) == first4(
                spec_ble_reasons(
                    *db,
                    input.mac@,
                    input.name@,
                    input.service_uuids_16@,
                    input.manufacturer_id,
                    input.raw_ad@,
                ),
            )
            &&& result.matched == (spec_ble_reasons(
                *db,
                input.mac@,
                input.name@,
                input.service_uuids_16@,
                input.manufacturer_id,
                input.raw_ad@,
            ).len() > 0)
        },
{
    let mut result = FilterResult::new();

    if !config.ble_enabled {
        return result;
    }
    if input.rssi < config.min_rssi {
        return result;
    }

    let ghost mac = input.mac@;
    let ghost name = input.name@;
    let ghost uuids = input.service_uuids_16@;
    let ghost mfr = input.manufacturer_id;
    let ghost raw = input.raw_ad@;

    check_mac_oui(db, &input.mac, &mut result);
    let ghost mut reasons: Seq<ReasonView> = spec_oui_reasons(*db, mac);
    proof {
        lemma_oui_reasons_short(*db, mac, db.mac_prefixes@.len() as int);
        assert(first4(reasons) == reasons);
    }

    // BLE name patterns, case-insensitive; an empty name matches nothing.
    let name_start: u16 = (db.mac_prefixes.len() + db.ssid_patterns.len() + db.ssid_exact.len()
        + db.ssid_keywords.len() + db.wifi_name_keywords.len()) as u16;
    let nn = db.ble_name_patterns.len();
    if !input.name.is_empty() {
        let lowered_name = lower_prefix(input.name.as_slice(), 33);
        let mut i: usize = 0;
        while i < nn
            invariant
                db.wf(),
                nn == db.ble_name_patterns@.len(),
                name_start as int == db.ble_name_start(),
                i <= nn,
                mac == input.mac@,
                name == input.name@,
                name.len() > 0,
                lowered_name@ == spec_lower33(name),
                forall|g: int|
                    result.sig_matches.spec_get(g) == (spec_oui_first(*db, mac, g) || (
                    db.ble_name_start() <= g < db.ble_name_start() + i && spec_ble_name_hit(
                        *db,
                        name,
                        g - db.ble_name_start(),
                    ))),
                reasons == spec_oui_reasons(*db, mac) + spec_ble_name_reasons_upto(
                    *db,
                    name,
                    i as int,
                ),
                reason_views(result.matches@) == first4(reasons),
                result.matched == (reasons.len() > 0),
                result.rule_names@.len() == 0,
            decreases nn - i,
        {
            let pattern = *vstd::slice::slice_index_get(db.ble_name_patterns.as_slice(), i);
            let pattern_lower = lower_prefix(pattern.as_bytes(), 33);
            if contains_sub(lowered_name.as_slice(), pattern_lower.as_slice()) {
                result.sig_matches.set(name_start + i as u16);
                result.add_match("ble_name", pattern);
                proof {
                    lemma_first4_push(reasons, ("ble_name"@, spec_trunc32(pattern.spec_bytes())));
                    reasons = reasons.push(("ble_name"@, spec_trunc32(pattern.spec_bytes())));
                }
            }
            i += 1;
            proof {
                assert(reasons =~= spec_oui_reasons(*db, mac) + spec_ble_name_reasons_upto(
                    *db,
                    name,
                    i as int,
                ));
            }
        }
    }
    proof {
        if name.len() == 0 {
            lemma_ble_name_reasons_empty_name(*db, name, nn as int);
        }
        assert(reasons =~= spec_oui_reasons(*db, mac) + spec_ble_name_reasons_upto(
            *db,
            name,
            nn as int,
        ));
    }

    // Advertised 16-bit service UUIDs, against both UUID tables.
    let uuid_start: u16 = name_start + db.ble_name_patterns.len() as u16;
    let std_start: u16 = uuid_start + db.ble_service_uuids_16.len() as u16;
    let nu = input.service_uuids_16.len();
    let mut k: usize = 0;
    while k < nu
        invariant
            db.wf(),
            nu == uuids.len(),
            name_start as int == db.ble_name_start(),
            uuid_start as int == db.ble_uuid_start(),
            std_start as int == db.ble_std_uuid_start(),
            k <= nu,
            mac == input.mac@,
            name == input.name@,
            uuids == input.service_uuids_16@,
            forall|g: int|
                result.sig_matches.spec_get(g) == (spec_oui_first(*db, mac, g) || (
                db.ble_name_start() <= g < db.ble_uuid_start() && spec_ble_name_hit(
                    *db,
                    name,
                    g - db.ble_name_start(),
                )) || (db.ble_uuid_start() <= g < db.ble_std_uuid_start() && spec_uuid_hit_upto(
                    *db,
                    uuids,
                    k as int,
                    g - db.ble_uuid_start(),
                )) || (db.ble_std_uuid_start() <= g < db.ble_mfr_start()
                    && spec_std_uuid_hit_upto(*db, uuids, k as int, g - db.ble_std_uuid_start()))),
            reasons == spec_oui_reasons(*db, mac) + spec_ble_name_reasons_upto(
                *db,
                name,
                db.ble_name_patterns@.len() as int,
            ) + spec_uuid_reasons_upto(*db, uuids, k as int),
            reason_views(result.matches@) == first4(reasons),
            result.matched == (reasons.len() > 0),
            result.rule_names@.len() == 0,
        decreases nu - k,
    {
        let u = *vstd::slice::slice_index_get(input.service_uuids_16.as_slice(), k);
        let ns = db.ble_service_uuids_16.len();
        let mut i: usize = 0;
        while i < ns
            invariant
                db.wf(),
                nu == uuids.len(),
                ns == db.ble_service_uuids_16@.len(),
                uuid_start as int == db.ble_uuid_start(),
                std_start as int == db.ble_std_uuid_start(),
                k < nu,
                u == uuids[k as int],
                i <= ns,
                mac == input.mac@,
                name == input.name@,
                uuids == input.service_uuids_16@,
                forall|g: int|
                    result.sig_matches.spec_get(g) == (spec_oui_first(*db, mac, g) || (
                    db.ble_name_start() <= g < db.ble_uuid_start() && spec_ble_name_hit(
                        *db,
                        name,
                        g - db.ble_name_start(),
                    )) || (db.ble_uuid_start() <= g < db.ble_std_uuid_start()
                        && (spec_uuid_hit_upto(*db, uuids, k as int, g - db.ble_uuid_start()) || (g
                        - db.ble_uuid_start() < i && uuids[k as int] == db.ble_service_uuids_16@[g
                        - db.ble_uuid_start()]))) || (db.ble_std_uuid_start() <= g
                        < db.ble_mfr_start() && spec_std_uuid_hit_upto(
                        *db,
                        uuids,
                        k as int,
                        g - db.ble_std_uuid_start(),
                    ))),
                reasons == spec_oui_reasons(*db, mac) + spec_ble_name_reasons_upto(
                    *db,
                    name,
                    db.ble_name_patterns@.len() as int,
                ) + spec_uuid_reasons_upto(*db, uuids, k as int)
                    + spec_uuid_service_reasons_upto(*db, u, i as int),
                reason_views(result.matches@) == first4(reasons),
                result.matched == (reasons.len() > 0),
                result.rule_names@.len() == 0,
            decreases ns - i,
        {
            let known = *vstd::slice::slice_index_get(db.ble_service_uuids_16.as_slice(), i);
            if u == known {
                result.sig_matches.set(uuid_start + i as u16);
                result.add_match("ble_uuid", "Raven service UUID");
                proof {
                    let rv = ("ble_uuid"@, spec_trunc32("Raven service UUID".spec_bytes()));
                    lemma_first4_push(reasons, rv);
                    reasons = reasons.push(rv);
                }
            }
            i += 1;
            proof {
                assert(reasons =~= spec_oui_reasons(*db, mac) + spec_ble_name_reasons_upto(
                    *db,
                    name,
                    db.ble_name_patterns@.len() as int,
                ) + spec_uuid_reasons_upto(*db, uuids, k as int)
                    + spec_uuid_service_reasons_upto(*db, u, i as int));
            }
        }
        let nstd = db.ble_standard_uuids_16.len();
        let mut i: usize = 0;
        while i < nstd
            invariant
                db.wf(),
                nu == uuids.len(),
                nstd == db.ble_standard_uuids_16@.len(),
                uuid_start as int == db.ble_uuid_start(),
                std_start as int == db.ble_std_uuid_start(),
                k < nu,
                u == uuids[k as int],
                i <= nstd,
                mac == input.mac@,
                name == input.name@,
                uuids == input.service_uuids_16@,
                forall|g: int|
                    result.sig_matches.spec_get(g) == (spec_oui_first(*db, mac, g) || (
                    db.ble_name_start() <= g < db.ble_uuid_start() && spec_ble_name_hit(
                        *db,
                        name,
                        g - db.ble_name_start(),
                    )) || (db.ble_uuid_start() <= g < db.ble_std_uuid_start()
                        && spec_uuid_hit_upto(*db, uuids, k as int + 1, g - db.ble_uuid_start()))
                        || (db.ble_std_uuid_start() <= g < db.ble_mfr_start() && (
                    spec_std_uuid_hit_upto(*db, uuids, k as int, g - db.ble_std_uuid_start()) || (g
                        - db.ble_std_uuid_start() < i && uuids[k as int]
                        == db.ble_standard_uuids_16@[g - db.ble_std_uuid_start()])))),
                reasons == spec_oui_reasons(*db, mac) + spec_ble_name_reasons_upto(
                    *db,
                    name,
                    db.ble_name_patterns@.len() as int,
                ) + spec_uuid_reasons_upto(*db, uuids, k as int) + spec_uuid_service_reasons_upto(
                    *db,
                    u,
                    db.ble_service_uuids_16@.len() as int,
                ) + spec_uuid_std_reasons_upto(*db, u, i as int),
                reason_views(result.matches@) == first4(reasons),
                result.matched == (reasons.len() > 0),
                result.rule_names@.len() == 0,
            decreases nstd - i,
        {
            let known = *vstd::slice::slice_index_get(db.ble_standard_uuids_16.as_slice(), i);
            if u == known {
                result.sig_matches.set(std_start + i as u16);
                result.add_match("ble_uuid_std", "Raven standard UUID");
                proof {
                    let rv = ("ble_uuid_std"@, spec_trunc32("Raven standard UUID".spec_bytes()));
                    lemma_first4_push(reasons, rv);
                    reasons = reasons.push(rv);
                }
            }
            i += 1;
            proof {
                assert(reasons =~= spec_oui_reasons(*db, mac) + spec_ble_name_reasons_upto(
                    *db,
                    name,
                    db.ble_name_patterns@.len() as int,
                ) + spec_uuid_reasons_upto(*db, uuids, k as int) + spec_uuid_service_reasons_upto(
                    *db,
                    u,
                    db.ble_service_uuids_16@.len() as int,
                ) + spec_uuid_std_reasons_upto(*db, u, i as int));
            }
        }
        k += 1;
        proof {
            assert(reasons =~= spec_oui_reasons(*db, mac) + spec_ble_name_reasons_upto(
                *db,
                name,
                db.ble_name_patterns@.len() as int,
            ) + spec_uuid_reasons_upto(*db, uuids, k as int));
        }
    }
    proof {
        assert forall|i: int| #[trigger]
            spec_uuid_hit_upto(*db, uuids, nu as int, i) == spec_ble_uuid_hit(*db, uuids, i) by {
            lemma_uuid_hit_full(*db, uuids, i);
        }
        assert forall|i: int| #[trigger]
            spec_std_uuid_hit_upto(*db, uuids, nu as int, i) == spec_ble_std_uuid_hit(
                *db,
                uuids,
                i,
            ) by {
            lemma_std_uuid_hit_full(*db, uuids, i);
        }
    }

    // Manufacturer company ID.
    let mfr_start: u16 = std_start + db.ble_standard_uuids_16.len() as u16;
    let nm = db.ble_manufacturer_ids.len();
    if input.manufacturer_id != 0 {
        let mut i: usize = 0;
        while i < nm
            invariant
                db.wf(),
                nm == db.ble_manufacturer_ids@.len(),
                mfr_start as int == db.ble_mfr_start(),
                i <= nm,
                mac == input.mac@,
                name == input.name@,
                uuids == input.service_uuids_16@,
                mfr == input.manufacturer_id,
                mfr != 0,
                forall|g: int|
                    result.sig_matches.spec_get(g) == (spec_oui_first(*db, mac, g) || (
                    db.ble_name_start() <= g < db.ble_uuid_start() && spec_ble_name_hit(
                        *db,
                        name,
                        g - db.ble_name_start(),
                    )) || (db.ble_uuid_start() <= g < db.ble_std_uuid_start() && spec_ble_uuid_hit(
                        *db,
                        uuids,
                        g - db.ble_uuid_start(),
                    )) || (db.ble_std_uuid_start() <= g < db.ble_mfr_start()
                        && spec_ble_std_uuid_hit(*db, uuids, g - db.ble_std_uuid_start())) || (
                    db.ble_mfr_start() <= g < db.ble_mfr_start() + i && spec_ble_mfr_hit(
                        *db,
                        mfr,
                        g - db.ble_mfr_start(),
                    ))),
                reasons == spec_oui_reasons(*db, mac) + spec_ble_name_reasons_upto(
                    *db,
                    name,
                    db.ble_name_patterns@.len() as int,
                ) + spec_uuid_reasons_upto(*db, uuids, uuids.len() as int) + spec_mfr_reasons_upto(
                    *db,
                    mfr,
                    i as int,
                ),
                reason_views(result.matches@) == first4(reasons),
                result.matched == (reasons.len() > 0),
                result.rule_names@.len() == 0,
            decreases nm - i,
        {
            let known = *vstd::slice::slice_index_get(db.ble_manufacturer_ids.as_slice(), i);
            if input.manufacturer_id == known {
                result.sig_matches.set(mfr_start + i as u16);
                result.add_match("ble_mfr", "Known manufacturer ID");
                proof {
                    let rv = ("ble_mfr"@, spec_trunc32("Known manufacturer ID".spec_bytes()));
                    lemma_first4_push(reasons, rv);
                    reasons = reasons.push(rv);
                }
            }
            i += 1;
            proof {
                assert(reasons =~= spec_oui_reasons(*db, mac) + spec_ble_name_reasons_upto(
                    *db,
                    name,
                    db.ble_name_patterns@.len() as int,
                ) + spec_uuid_reasons_upto(*db, uuids, uuids.len() as int) + spec_mfr_reasons_upto(
                    *db,
                    mfr,
                    i as int,
                ));
            }
        }
    }
    proof {
        if mfr == 0 {
            lemma_mfr_reasons_zero(*db, mfr, nm as int);
        }
        assert(reasons =~= spec_oui_reasons(*db, mac) + spec_ble_name_reasons_upto(
            *db,
            name,
            db.ble_name_patterns@.len() as int,
        ) + spec_uuid_reasons_upto(*db, uuids, uuids.len() as int) + spec_mfr_reasons_upto(
            *db,
            mfr,
            nm as int,
        ));
    }

    // Advertisement byte patterns.
    let ad_start: u16 = mfr_start + db.ble_manufacturer_ids.len() as u16;
    let na = db.ble_ad_bytes_patterns.len();
    if !input.raw_ad.is_empty() {
        let mfr_data = find_manufacturer_data(input.raw_ad.as_slice());
        let mut i: usize = 0;
        while i < na
            invariant
                db.wf(),
                na == db.ble_ad_bytes_patterns@.len(),
                ad_start as int == db.ble_ad_bytes_start(),
                i <= na,
                mac == input.mac@,
                name == input.name@,
                uuids == input.service_uuids_16@,
                mfr == input.manufacturer_id,
                raw == input.raw_ad@,
                raw.len() > 0,
                match mfr_data {
                    Some(d) => spec_find_mfr_data(raw) == Some(d@),
                    None => spec_find_mfr_data(raw) is None,
                },
                forall|g: int|
                    result.sig_matches.spec_get(g) == (spec_oui_first(*db, mac, g) || (
                    db.ble_name_start() <= g < db.ble_uuid_start() && spec_ble_name_hit(
                        *db,
                        name,
                        g - db.ble_name_start(),
                    )) || (db.ble_uuid_start() <= g < db.ble_std_uuid_start() && spec_ble_uuid_hit(
                        *db,
                        uuids,
                        g - db.ble_uuid_start(),
                    )) || (db.ble_std_uuid_start() <= g < db.ble_mfr_start()
                        && spec_ble_std_uuid_hit(*db, uuids, g - db.ble_std_uuid_start())) || (
                    db.ble_mfr_start() <= g < db.ble_ad_bytes_start() && spec_ble_mfr_hit(
                        *db,
                        mfr,
                        g - db.ble_mfr_start(),
                    )) || (db.ble_ad_bytes_start() <= g < db.ble_ad_bytes_start() + i
                        && spec_ad_pattern_hit(*db, raw, g - db.ble_ad_bytes_start()))),
                reasons == spec_oui_reasons(*db, mac) + spec_ble_name_reasons_upto(
                    *db,
                    name,
                    db.ble_name_patterns@.len() as int,
                ) + spec_uuid_reasons_upto(*db, uuids, uuids.len() as int) + spec_mfr_reasons_upto(
                    *db,
                    mfr,
                    db.ble_manufacturer_ids@.len() as int,
                ) + spec_ad_reasons_upto(*db, raw, i as int),
                reason_views(result.matches@) == first4(reasons),
                result.matched == (reasons.len() > 0),
                result.rule_names@.len() == 0,
            decreases na - i,
        {
            let p = vstd::slice::slice_index_get(db.ble_ad_bytes_patterns.as_slice(), i);
            if ad_pattern_matches(&p.bytes, &p.offset, input.raw_ad.as_slice(), &mfr_data) {
                result.sig_matches.set(ad_start + i as u16);
                result.add_match("ble_ad_bytes", p.description);
                proof {
                    let rv = ("ble_ad_bytes"@, spec_trunc32(p.description.spec_bytes()));
                    lemma_first4_push(reasons, rv);
                    reasons = reasons.push(rv);
                }
            }
            i += 1;
            proof {
                assert(reasons =~= spec_oui_reasons(*db, mac) + spec_ble_name_reasons_upto(
                    *db,
                    name,
                    db.ble_name_patterns@.len() as int,
                ) + spec_uuid_reasons_upto(*db, uuids, uuids.len() as int) + spec_mfr_reasons_upto(
                    *db,
                    mfr,
                    db.ble_manufacturer_ids@.len() as int,
                ) + spec_ad_reasons_upto(*db, raw, i as int));
            }
        }
    }
    proof {
        if raw.len() == 0 {
            lemma_ad_reasons_empty_raw(*db, raw, na as int);
        }
        assert(reasons =~= spec_ble_reasons(*db, mac, name, uuids, mfr, raw));
    }

    result
}

/// Which vendor-UUID bits the first `k` advertised UUIDs set.
pub open spec fn spec_uuid_hit_upto(db: SignatureDb, uuids: Seq<u16>, k: int, i: int) -> bool {
    exists|k2: int| 0 <= k2 < k && k2 < uuids.len() && uuids[k2] == db.ble_service_uuids_16@[i]
}

/// Which standard-UUID bits the first `k` advertised UUIDs set.
pub open spec fn spec_std_uuid_hit_upto(db: SignatureDb, uuids: Seq<u16>, k: int, i: int) -> bool {
    exists|k2: int| 0 <= k2 < k && k2 < uuids.len() && uuids[k2] == db.ble_standard_uuids_16@[i]
}

/// Considering every advertised UUID is the full vendor-UUID check.
proof fn lemma_uuid_hit_full(db: SignatureDb, uuids: Seq<u16>, i: int)
    ensures
        spec_uuid_hit_upto(db, uuids, uuids.len() as int, i) == spec_ble_uuid_hit(db, uuids, i),
{
    if spec_uuid_hit_upto(db, uuids, uuids.len() as int, i) {
        let k = choose|k2: int|
            0 <= k2 < uuids.len() && k2 < uuids.len() && uuids[k2] == db.ble_service_uuids_16@[i];
        assert(0 <= k < uuids.len() && uuids[k] == db.ble_service_uuids_16@[i]);
    }
    if spec_ble_uuid_hit(db, uuids, i) {
        let k = choose|k2: int|
            0 <= k2 < uuids.len() && uuids[k2] == db.ble_service_uuids_16@[i];
        assert(0 <= k < uuids.len() as int && k < uuids.len() && uuids[k]
            == db.ble_service_uuids_16@[i]);
    }
}

/// Considering every advertised UUID is the full standard-UUID check.
proof fn lemma_std_uuid_hit_full(db: SignatureDb, uuids: Seq<u16>, i: int)
    ensures
        spec_std_uuid_hit_upto(db, uuids, uuids.len() as int, i) == spec_ble_std_uuid_hit(
            db,
            uuids,
            i,
        ),
{
    if spec_std_uuid_hit_upto(db, uuids, uuids.len() as int, i) {
        let k = choose|k2: int|
            0 <= k2 < uuids.len() && k2 < uuids.len() && uuids[k2]
                == db.ble_standard_uuids_16@[i];
        assert(0 <= k < uuids.len() && uuids[k] == db.ble_standard_uuids_16@[i]);
    }
    if spec_ble_std_uuid_hit(db, uuids, i) {
        let k = choose|k2: int|
            0 <= k2 < uuids.len() && uuids[k2] == db.ble_standard_uuids_16@[i];
        assert(0 <= k < uuids.len() as int && k < uuids.len() && uuids[k]
            == db.ble_standard_uuids_16@[i]);
    }
}

/// An empty name leaves no BLE-name reasons.
proof fn lemma_ble_name_reasons_empty_name(db: SignatureDb, name: Seq<u8>, n: int)
    requires
        name.len() == 0,
    ensures
        spec_ble_name_reasons_upto(db, name, n) == Seq::<ReasonView>::empty(),
    decreases n,
{
    if n > 0 {
        lemma_ble_name_reasons_empty_name(db, name, n - 1);
        assert(spec_ble_name_reasons_upto(db, name, n) =~= Seq::<ReasonView>::empty());
    }
}

/// An absent company ID leaves no manufacturer reasons.
proof fn lemma_mfr_reasons_zero(db: SignatureDb, mfr: u16, n: int)
    requires
        mfr == 0,
    ensures
        spec_mfr_reasons_upto(db, mfr, n) == Seq::<ReasonView>::empty(),
    decreases n,
{
    if n > 0 {
        lemma_mfr_reasons_zero(db, mfr, n - 1);
        assert(spec_mfr_reasons_upto(db, mfr, n) =~= Seq::<ReasonView>::empty());
    }
}

/// Empty raw bytes leave no byte-pattern reasons.
proof fn lemma_ad_reasons_empty_raw(db: SignatureDb, raw_ad: Seq<u8>, n: int)
    requires
        raw_ad.len() == 0,
    ensures
        spec_ad_reasons_upto(db, raw_ad, n) == Seq::<ReasonView>::empty(),
    decreases n,
{
    if n > 0 {
        lemma_ad_reasons_empty_raw(db, raw_ad, n - 1);
        assert(spec_ad_reasons_upto(db, raw_ad, n) =~= Seq::<ReasonView>::empty());
    }
}

// ── Rule evaluation on top of the matcher ───────────────────────────

/// The rule names the engine reports for a match set: the names of the
/// first four rules that fire, in rule order.
pub open spec fn spec_rule_names(db: RuleDb, m: SigMatchSet) -> Seq<&'static str> {
    spec_fired_indices(db, m, db.rules@.len() as int).map_values(
        |i: u16| db.rules@[i as int].name,
    )
}

/// Every fired index points into the rule table.
proof fn lemma_fired_indices_range(db: RuleDb, m: SigMatchSet, n: int)
    requires
        n <= 65535,
    ensures
        forall|k: int|
            0 <= k < spec_fired_indices(db, m, n).len() ==> 0 <= (#[trigger] spec_fired_indices(
                db,
                m,
                n,
            )[k]) < n,
    decreases n,
{
    if n > 0 {
        lemma_fired_indices_range(db, m, n - 1);
        let p = spec_fired_indices(db, m, n - 1);
        let c = spec_fired_indices(db, m, n);
        assert forall|k: int| 0 <= k < c.len() implies 0 <= #[trigger] c[k] < n by {
            if db.spec_rule_fires(n - 1, m) && p.len() < 4 {
                if k < p.len() {
                    assert(c[k] == p[k]);
                } else {
                    assert(c[k] == (n - 1) as u16);
                }
            } else {
                assert(c[k] == p[k]);
            }
        }
    }
}

/// Run the rule engine over a matched result and record the names of
/// the rules that fired; an unmatched result is left untouched.
fn apply_rules(result: &mut FilterResult, db: &RuleDb)
    requires
        db.rules@.len() <= 65535,
    ensures
        final(result).matched == old(result).matched,
        final(result).matches == old(result).matches,
        final(result).sig_matches == old(result).sig_matches,
        final(result).rule_names@ == if old(result).matched {
            old(result).rule_names@ + spec_rule_names(*db, old(result).sig_matches)
        } else {
            old(result).rule_names@
        },
{
    if !result.matched {
        return ;
    }
    let ghost m = result.sig_matches;
    let ghost pre = result.rule_names@;
    let fired = evaluate_rules(db, &result.sig_matches);
    let ghost full = spec_rule_names(*db, m);
    proof {
        lemma_fired_indices_range(*db, m, db.rules@.len() as int);
        assert(pre + full.take(0) =~= pre);
    }
    let nf = fired.len();
    let mut j: usize = 0;
    while j < nf
        invariant
            nf == fired@.len(),
            j <= nf,
            fired@ == spec_fired_indices(*db, m, db.rules@.len() as int),
            full == spec_rule_names(*db, m),
            forall|k: int| 0 <= k < fired@.len() ==> 0 <= (#[trigger] fired@[k]) < db.rules@.len(),
            result.matched == old(result).matched,
            result.matches == old(result).matches,
            result.sig_matches == old(result).sig_matches,
            result.rule_names@ == pre + full.take(j as int),
        decreases nf - j,
    {
        let idx = *vstd::slice::slice_index_get(fired.as_slice(), j) as usize;
        if idx < db.rules.len() {
            let name = db.rules[idx].name;
            result.rule_names.push(name);
            proof {
                assert(full[j as int] == name);
                assert(pre + full.take(j + 1) =~= (pre + full.take(j as int)).push(name));
            }
        }
        j += 1;
    }
    proof {
        assert(full.take(nf as int) =~= full);
    }
}

/// What `filter_wifi` promises of a result when evaluation ran: the
/// match set holds exactly the Wi-Fi signature bits of the observation,
/// the reason list the first four reasons in check order, and the
/// matched flag says whether any reason arose.
pub open spec fn spec_wifi_filter_post(
    db: SignatureDb,
    input: WiFiScanInput,
    result: FilterResult,
) -> bool {
    &&& forall|g: int|
        result.sig_matches.spec_get(g) == spec_wifi_sig(db, input.mac@, input.ssid@, g)
    &&& reason_views(result.matches@) == first4(spec_wifi_reasons(db, input.mac@, input.ssid@))
    &&& result.matched == (spec_wifi_reasons(db, input.mac@, input.ssid@).len() > 0)
}

/// What `filter_ble` promises of a result when evaluation ran.
pub open spec fn spec_ble_filter_post(
    db: SignatureDb,
    input: BleScanInput,
    result: FilterResult,
) -> bool {
    &&& forall|g: int|
        result.sig_matches.spec_get(g) == spec_ble_sig(
            db,
            input.mac@,
            input.name@,
            input.service_uuids_16@,
            input.manufacturer_id,
            input.raw_ad@,
            g,
        )
    &&& reason_views(result.matches@) == first4(
        spec_ble_reasons(
            db,
            input.mac@,
            input.name@,
            input.service_uuids_16@,
            input.manufacturer_id,
            input.raw_ad@,
        ),
    )
    &&& result.matched == (spec_ble_reasons(
        db,
        input.mac@,
        input.name@,
        input.service_uuids_16@,
        input.manufacturer_id,
        input.raw_ad@,
    ).len() > 0)
}

/// Evaluate a Wi-Fi observation against the signatures, then run the
/// rule engine over the matched bits and record up to four rule names.
pub fn filter_wifi_with_rules(
    input: &WiFiScanInput,
    config: &FilterConfig,
    db: &SignatureDb,
    rule_db: &RuleDb,
) -> (result: FilterResult)
    requires
        db.wf(),
        rule_db.rules@.len() <= 65535,
    ensures
        result.matches@.len() <= 4,
        result.rule_names@.len() <= 4,
        !(config.wifi_enabled && input.rssi >= config.min_rssi) ==> !result.matched
            && result.matches@.len() == 0 && result.sig_matches.spec_is_empty()
            && result.rule_names@.len() == 0,
        config.wifi_enabled && input.rssi >= config.min_rssi ==> spec_wifi_filter_post(
            *db,
            *input,
            result,
        ),
        result.rule_names@ == if result.matched {
            spec_rule_names(*rule_db, result.sig_matches)
        } else {
            Seq::<&'static str>::empty()
        },
{
    let mut result = filter_wifi(input, config, db);
    apply_rules(&mut result, rule_db);
    proof {
        crate::rules::lemma_fired_indices_len(*rule_db, result.sig_matches, rule_db.rules@.len() as int);
        if result.matched {
            assert(result.rule_names@ =~= spec_rule_names(*rule_db, result.sig_matches));
        } else {
            assert(result.rule_names@ =~= Seq::<&'static str>::empty());
        }
    }
    result
}

/// Evaluate a BLE observation against the signatures, then run the
/// rule engine over the matched bits and record up to four rule names.
pub fn filter_ble_with_rules(
    input: &BleScanInput,
    config: &FilterConfig,
    db: &SignatureDb,
    rule_db: &RuleDb,
) -> (result: FilterResult)
    requires
        db.wf(),
        rule_db.rules@.len() <= 65535,
    ensures
        result.matches@.len() <= 4,
        result.rule_names@.len() <= 4,
        !(config.ble_enabled && input.rssi >= config.min_rssi) ==> !result.matched
            && result.matches@.len() == 0 && result.sig_matches.spec_is_empty()
            && result.rule_names@.len() == 0,
        config.ble_enabled && input.rssi >= config.min_rssi ==> spec_ble_filter_post(
            *db,
            *input,
            result,
        ),
        result.rule_names@ == if result.matched {
            spec_rule_names(*rule_db, result.sig_matches)
        } else {
            Seq::<&'static str>::empty()
        },
{
    let mut result = filter_ble(input, config, db);
    apply_rules(&mut result, rule_db);
    proof {
        crate::rules::lemma_fired_indices_len(*rule_db, result.sig_matches, rule_db.rules@.len() as int);
        if result.matched {
            assert(result.rule_names@ =~= spec_rule_names(*rule_db, result.sig_matches));
        } else {
            assert(result.rule_names@ =~= Seq::<&'static str>::empty());
        }
    }
    result
}

// ── MAC formatting ──────────────────────────────────────────────────

/// The ASCII code of a nibble as an uppercase hexadecimal digit.
pub open spec fn spec_hex_upper(n: u8) -> u8 {
    if n < 10 {
        (48 + n) as u8
    } else {
        (55 + n) as u8
    }
}

/// The two uppercase hexadecimal digits of one byte.
pub open spec fn spec_byte_hex(b: u8) -> Seq<u8> {
    seq![spec_hex_upper(b / 16), spec_hex_upper(b % 16)]
}

/// The canonical text of a MAC address: six uppercase hexadecimal byte
/// pairs joined by colons.
pub open spec fn spec_mac_string(mac: Seq<u8>) -> Seq<u8> {
    spec_byte_hex(mac[0]) + seq![58u8] + spec_byte_hex(mac[1]) + seq![58u8] + spec_byte_hex(
        mac[2],
    ) + seq![58u8] + spec_byte_hex(mac[3]) + seq![58u8] + spec_byte_hex(mac[4]) + seq![58u8]
        + spec_byte_hex(mac[5])
}

/// The ASCII code of a nibble as an uppercase hexadecimal digit.
fn hex_upper(n: u8) -> (r: u8)
    requires
        n < 16,
    ensures
        r == spec_hex_upper(n),
{
    if n < 10 {
        48 + n
    } else {
        55 + n
    }
}

/// Append the two uppercase hexadecimal digits of one byte.
fn push_byte_hex(buf: &mut Vec<u8>, b: u8)
    ensures
        final(buf)@ == old(buf)@ + spec_byte_hex(b),
{
    buf.push(hex_upper(b / 16));
    buf.push(hex_upper(b % 16));
    proof {
        assert(buf@ =~= old(buf)@ + spec_byte_hex(b));
    }
}

/// Append a six-byte MAC address as `AA:BB:CC:DD:EE:FF`.
pub fn format_mac(mac: &[u8; 6], buf: &mut MacString)
    ensures
        final(buf)@ == old(buf)@ + spec_mac_string(mac@),
{
    push_byte_hex(buf, mac[0]);
    buf.push(58);
    push_byte_hex(buf, mac[1]);
    buf.push(58);
    push_byte_hex(buf, mac[2]);
    buf.push(58);
    push_byte_hex(buf, mac[3]);
    buf.push(58);
    push_byte_hex(buf, mac[4]);
    buf.push(58);
    push_byte_hex(buf, mac[5]);
    proof {
        assert(buf@ =~= old(buf)@ + spec_mac_string(mac@));
    }
}

/// Whether a keyword occurs in a table of strings, byte for byte.
fn str_in_table(table: &[&'static str], kw: &str) -> (r: bool)
    ensures
        r == exists|j: int|
            0 <= j < table@.len() && (#[trigger] table@[j]).spec_bytes() == kw.spec_bytes(),
{
    let n = table.len();
    let mut i: usize = 0;
    while i < n
        invariant
            n == table@.len(),
            i <= n,
            forall|j: int| 0 <= j < i ==> (#[trigger] table@[j]).spec_bytes() != kw.spec_bytes(),
        decreases n - i,
    {
        let entry = *vstd::slice::slice_index_get(table, i);
        if crate::ascii::bytes_eq(entry.as_bytes(), kw.as_bytes()) {
            return true;
        }
        i += 1;
    }
    false
}


// ── Uniqueness of the vendor reason ─────────────────────────────────

/// Every SSID-pattern reason is of kind `ssid_pattern`.
proof fn lemma_pattern_reasons_kind(db: SignatureDb, ssid: Seq<u8>, n: int)
    ensures
        forall|k: int|
            0 <= k < spec_pattern_reasons_upto(db, ssid, n).len() ==> (
            #[trigger] spec_pattern_reasons_upto(db, ssid, n)[k]).0 == "ssid_pattern"@,
    decreases n,
{
    if n > 0 {
        lemma_pattern_reasons_kind(db, ssid, n - 1);
        let prev = spec_pattern_reasons_upto(db, ssid, n - 1);
        let cur = spec_pattern_reasons_upto(db, ssid, n);
        assert forall|k2: int| 0 <= k2 < cur.len() implies (#[trigger] cur[k2]).0 == "ssid_pattern"@ by {
            if k2 < prev.len() {
                assert(cur[k2] == prev[k2]);
            }
        }
    }
}

/// Every exact-SSID reason is of kind `ssid_exact`.
proof fn lemma_exact_reasons_kind(db: SignatureDb, ssid: Seq<u8>, n: int)
    ensures
        forall|k: int|
            0 <= k < spec_exact_reasons_upto(db, ssid, n).len() ==> (
            #[trigger] spec_exact_reasons_upto(db, ssid, n)[k]).0 == "ssid_exact"@,
    decreases n,
{
    if n > 0 {
        lemma_exact_reasons_kind(db, ssid, n - 1);
        let prev = spec_exact_reasons_upto(db, ssid, n - 1);
        let cur = spec_exact_reasons_upto(db, ssid, n);
        assert forall|k2: int| 0 <= k2 < cur.len() implies (#[trigger] cur[k2]).0 == "ssid_exact"@ by {
            if k2 < prev.len() {
                assert(cur[k2] == prev[k2]);
            }
        }
    }
}

/// Every SSID-keyword reason is of kind `ssid_keyword`.
proof fn lemma_keyword_reasons_kind(db: SignatureDb, ssid: Seq<u8>, n: int)
    ensures
        forall|k: int|
            0 <= k < spec_keyword_reasons_upto(db, ssid, n).len() ==> (
            #[trigger] spec_keyword_reasons_upto(db, ssid, n)[k]).0 == "ssid_keyword"@,
    decreases n,
{
    if n > 0 {
        lemma_keyword_reasons_kind(db, ssid, n - 1);
        let prev = spec_keyword_reasons_upto(db, ssid, n - 1);
        let cur = spec_keyword_reasons_upto(db, ssid, n);
        assert forall|k2: int| 0 <= k2 < cur.len() implies (#[trigger] cur[k2]).0 == "ssid_keyword"@ by {
            if k2 < prev.len() {
                assert(cur[k2] == prev[k2]);
            }
        }
    }
}

/// Every name-keyword reason is of kind `wifi_name`.
proof fn lemma_wifi_name_reasons_kind(db: SignatureDb, ssid: Seq<u8>, n: int)
    ensures
        forall|k: int|
            0 <= k < spec_wifi_name_reasons_upto(db, ssid, n).len() ==> (
            #[trigger] spec_wifi_name_reasons_upto(db, ssid, n)[k]).0 == "wifi_name"@,
    decreases n,
{
    if n > 0 {
        lemma_wifi_name_reasons_kind(db, ssid, n - 1);
        let prev = spec_wifi_name_reasons_upto(db, ssid, n - 1);
        let cur = spec_wifi_name_reasons_upto(db, ssid, n);
        assert forall|k2: int| 0 <= k2 < cur.len() implies (#[trigger] cur[k2]).0 == "wifi_name"@ by {
            if k2 < prev.len() {
                assert(cur[k2] == prev[k2]);
            }
        }
    }
}

/// Every BLE-name reason is of kind `ble_name`.
proof fn lemma_ble_name_reasons_kind(db: SignatureDb, name: Seq<u8>, n: int)
    ensures
        forall|k: int|
            0 <= k < spec_ble_name_reasons_upto(db, name, n).len() ==> (
            #[trigger] spec_ble_name_reasons_upto(db, name, n)[k]).0 == "ble_name"@,
    decreases n,
{
    if n > 0 {
        lemma_ble_name_reasons_kind(db, name, n - 1);
        let prev = spec_ble_name_reasons_upto(db, name, n - 1);
        let cur = spec_ble_name_reasons_upto(db, name, n);
        assert forall|k2: int| 0 <= k2 < cur.len() implies (#[trigger] cur[k2]).0 == "ble_name"@ by {
            if k2 < prev.len() {
                assert(cur[k2] == prev[k2]);
            }
        }
    }
}

/// Every UUID reason is of kind `ble_uuid` or `ble_uuid_std`.
proof fn lemma_uuid_service_reasons_kind(db: SignatureDb, u: u16, n: int)
    ensures
        forall|k: int|
            0 <= k < spec_uuid_service_reasons_upto(db, u, n).len() ==> (
            #[trigger] spec_uuid_service_reasons_upto(db, u, n)[k]).0 == "ble_uuid"@,
    decreases n,
{
    if n > 0 {
        lemma_uuid_service_reasons_kind(db, u, n - 1);
        let prev = spec_uuid_service_reasons_upto(db, u, n - 1);
        let cur = spec_uuid_service_reasons_upto(db, u, n);
        assert forall|k2: int| 0 <= k2 < cur.len() implies (#[trigger] cur[k2]).0 == "ble_uuid"@ by {
            if k2 < prev.len() {
                assert(cur[k2] == prev[k2]);
            }
        }
    }
}

/// Every standard-UUID reason is of kind `ble_uuid_std`.
proof fn lemma_uuid_std_reasons_kind(db: SignatureDb, u: u16, n: int)
    ensures
        forall|k: int|
            0 <= k < spec_uuid_std_reasons_upto(db, u, n).len() ==> (
            #[trigger] spec_uuid_std_reasons_upto(db, u, n)[k]).0 == "ble_uuid_std"@,
    decreases n,
{
    if n > 0 {
        lemma_uuid_std_reasons_kind(db, u, n - 1);
        let prev = spec_uuid_std_reasons_upto(db, u, n - 1);
        let cur = spec_uuid_std_reasons_upto(db, u, n);
        assert forall|k2: int| 0 <= k2 < cur.len() implies (#[trigger] cur[k2]).0 == "ble_uuid_std"@ by {
            if k2 < prev.len() {
                assert(cur[k2] == prev[k2]);
            }
        }
    }
}

/// Every reason of the UUID stage is of kind `ble_uuid` or `ble_uuid_std`.
proof fn lemma_uuid_reasons_kind(db: SignatureDb, uuids: Seq<u16>, k: int)
    ensures
        forall|x: int|
            0 <= x < spec_uuid_reasons_upto(db, uuids, k).len() ==> ((
            #[trigger] spec_uuid_reasons_upto(db, uuids, k)[x]).0 == "ble_uuid"@
                || spec_uuid_reasons_upto(db, uuids, k)[x].0 == "ble_uuid_std"@),
    decreases k,
{
    if k > 0 {
        lemma_uuid_reasons_kind(db, uuids, k - 1);
        lemma_uuid_service_reasons_kind(
            db,
            uuids[k - 1],
            db.ble_service_uuids_16@.len() as int,
        );
        lemma_uuid_std_reasons_kind(db, uuids[k - 1], db.ble_standard_uuids_16@.len() as int);
        let prev = spec_uuid_reasons_upto(db, uuids, k - 1);
        let one = spec_uuid_one_reasons(db, uuids[k - 1]);
        let svc = spec_uuid_service_reasons_upto(
            db,
            uuids[k - 1],
            db.ble_service_uuids_16@.len() as int,
        );
        let std_part = spec_uuid_std_reasons_upto(
            db,
            uuids[k - 1],
            db.ble_standard_uuids_16@.len() as int,
        );
        let cur = spec_uuid_reasons_upto(db, uuids, k);
        assert forall|x: int|
            0 <= x < cur.len() implies ((#[trigger] cur[x]).0 == "ble_uuid"@ || cur[x].0
            == "ble_uuid_std"@) by {
            if x < prev.len() {
                assert(cur[x] == prev[x]);
            } else if x < prev.len() + svc.len() {
                assert(cur[x] == svc[x - prev.len()]);
            } else {
                assert(cur[x] == std_part[x - prev.len() - svc.len()]);
            }
        }
    }
}

/// Every manufacturer reason is of kind `ble_mfr`.
proof fn lemma_mfr_reasons_kind(db: SignatureDb, mfr: u16, n: int)
    ensures
        forall|k: int|
            0 <= k < spec_mfr_reasons_upto(db, mfr, n).len() ==> (
            #[trigger] spec_mfr_reasons_upto(db, mfr, n)[k]).0 == "ble_mfr"@,
    decreases n,
{
    if n > 0 {
        lemma_mfr_reasons_kind(db, mfr, n - 1);
        let prev = spec_mfr_reasons_upto(db, mfr, n - 1);
        let cur = spec_mfr_reasons_upto(db, mfr, n);
        assert forall|k2: int| 0 <= k2 < cur.len() implies (#[trigger] cur[k2]).0 == "ble_mfr"@ by {
            if k2 < prev.len() {
                assert(cur[k2] == prev[k2]);
            }
        }
    }
}

/// Every byte-pattern reason is of kind `ble_ad_bytes`.
proof fn lemma_ad_reasons_kind(db: SignatureDb, raw_ad: Seq<u8>, n: int)
    ensures
        forall|k: int|
            0 <= k < spec_ad_reasons_upto(db, raw_ad, n).len() ==> (
            #[trigger] spec_ad_reasons_upto(db, raw_ad, n)[k]).0 == "ble_ad_bytes"@,
    decreases n,
{
    if n > 0 {
        lemma_ad_reasons_kind(db, raw_ad, n - 1);
        let prev = spec_ad_reasons_upto(db, raw_ad, n - 1);
        let cur = spec_ad_reasons_upto(db, raw_ad, n);
        assert forall|k2: int| 0 <= k2 < cur.len() implies (#[trigger] cur[k2]).0 == "ble_ad_bytes"@ by {
            if k2 < prev.len() {
                assert(cur[k2] == prev[k2]);
            }
        }
    }
}

/// The kind texts that follow the OUI scan all differ from `mac_oui`.
proof fn lemma_kind_texts_distinct()
    ensures
        "ssid_pattern"@ != "mac_oui"@,
        "ssid_exact"@ != "mac_oui"@,
        "ssid_keyword"@ != "mac_oui"@,
        "wifi_name"@ != "mac_oui"@,
        "ble_name"@ != "mac_oui"@,
        "ble_uuid"@ != "mac_oui"@,
        "ble_uuid_std"@ != "mac_oui"@,
        "ble_mfr"@ != "mac_oui"@,
        "ble_ad_bytes"@ != "mac_oui"@,
{
    reveal_strlit("mac_oui");
    reveal_strlit("ssid_pattern");
    reveal_strlit("ssid_exact");
    reveal_strlit("ssid_keyword");
    reveal_strlit("wifi_name");
    reveal_strlit("ble_name");
    reveal_strlit("ble_uuid");
    reveal_strlit("ble_uuid_std");
    reveal_strlit("ble_mfr");
    reveal_strlit("ble_ad_bytes");
    assert("mac_oui"@.len() == 7);
    assert("ssid_pattern"@.len() == 12);
    assert("ssid_exact"@.len() == 10);
    assert("ssid_keyword"@.len() == 12);
    assert("wifi_name"@.len() == 9);
    assert("ble_name"@.len() == 8);
    assert("ble_uuid"@.len() == 8);
    assert("ble_uuid_std"@.len() == 12);
    assert("ble_ad_bytes"@.len() == 12);
    assert("ble_mfr"@[0] == 'b' && "mac_oui"@[0] == 'm');
}

/// A MAC earns one vendor: at most one reason of kind `mac_oui` ever
/// appears among the reasons of a Wi-Fi observation.
pub proof fn lemma_oui_reason_unique_wifi(db: SignatureDb, mac: Seq<u8>, ssid: Seq<u8>)
    ensures
        forall|i: int, j: int|
            0 <= i < j < spec_wifi_reasons(db, mac, ssid).len() ==> !((
            #[trigger] spec_wifi_reasons(db, mac, ssid)[i]).0 == "mac_oui"@ && (
            #[trigger] spec_wifi_reasons(db, mac, ssid)[j]).0 == "mac_oui"@),
{
    let rs = spec_wifi_reasons(db, mac, ssid);
    let a = spec_oui_reasons(db, mac);
    lemma_oui_reasons_short(db, mac, db.mac_prefixes@.len() as int);
    lemma_pattern_reasons_kind(db, ssid, db.ssid_patterns@.len() as int);
    lemma_exact_reasons_kind(db, ssid, db.ssid_exact@.len() as int);
    lemma_keyword_reasons_kind(db, ssid, db.ssid_keywords@.len() as int);
    lemma_wifi_name_reasons_kind(db, ssid, db.wifi_name_keywords@.len() as int);
    lemma_kind_texts_distinct();
    let b = spec_pattern_reasons_upto(db, ssid, db.ssid_patterns@.len() as int);
    let c = spec_exact_reasons_upto(db, ssid, db.ssid_exact@.len() as int);
    let d = spec_keyword_reasons_upto(db, ssid, db.ssid_keywords@.len() as int);
    let e = spec_wifi_name_reasons_upto(db, ssid, db.wifi_name_keywords@.len() as int);
    assert forall|k: int| a.len() <= k < rs.len() implies (#[trigger] rs[k]).0 != "mac_oui"@ by {
        if k < a.len() + b.len() {
            assert(rs[k] == b[k - a.len()]);
        } else if k < a.len() + b.len() + c.len() {
            assert(rs[k] == c[k - a.len() - b.len()]);
        } else if k < a.len() + b.len() + c.len() + d.len() {
            assert(rs[k] == d[k - a.len() - b.len() - c.len()]);
        } else {
            assert(rs[k] == e[k - a.len() - b.len() - c.len() - d.len()]);
        }
    }
    assert forall|i: int, j: int|
        0 <= i < j < rs.len() implies !((#[trigger] rs[i]).0 == "mac_oui"@ && (
    #[trigger] rs[j]).0 == "mac_oui"@) by {
        if rs[i].0 == "mac_oui"@ && rs[j].0 == "mac_oui"@ {
            assert(i < a.len() && j < a.len());
            assert(a.len() <= 1);
        }
    }
}

/// A MAC earns one vendor: at most one reason of kind `mac_oui` ever
/// appears among the reasons of a BLE observation.
pub proof fn lemma_oui_reason_unique_ble(
    db: SignatureDb,
    mac: Seq<u8>,
    name: Seq<u8>,
    uuids: Seq<u16>,
    mfr: u16,
    raw_ad: Seq<u8>,
)
    ensures
        forall|i: int, j: int|
            0 <= i < j < spec_ble_reasons(db, mac, name, uuids, mfr, raw_ad).len() ==> !((
            #[trigger] spec_ble_reasons(db, mac, name, uuids, mfr, raw_ad)[i]).0 == "mac_oui"@
                && (#[trigger] spec_ble_reasons(db, mac, name, uuids, mfr, raw_ad)[j]).0
                == "mac_oui"@),
{
    let rs = spec_ble_reasons(db, mac, name, uuids, mfr, raw_ad);
    let a = spec_oui_reasons(db, mac);
    lemma_oui_reasons_short(db, mac, db.mac_prefixes@.len() as int);
    lemma_ble_name_reasons_kind(db, name, db.ble_name_patterns@.len() as int);
    lemma_uuid_reasons_kind(db, uuids, uuids.len() as int);
    lemma_mfr_reasons_kind(db, mfr, db.ble_manufacturer_ids@.len() as int);
    lemma_ad_reasons_kind(db, raw_ad, db.ble_ad_bytes_patterns@.len() as int);
    lemma_kind_texts_distinct();
    let b = spec_ble_name_reasons_upto(db, name, db.ble_name_patterns@.len() as int);
    let c = spec_uuid_reasons_upto(db, uuids, uuids.len() as int);
    let d = spec_mfr_reasons_upto(db, mfr, db.ble_manufacturer_ids@.len() as int);
    let e = spec_ad_reasons_upto(db, raw_ad, db.ble_ad_bytes_patterns@.len() as int);
    assert forall|k: int| a.len() <= k < rs.len() implies (#[trigger] rs[k]).0 != "mac_oui"@ by {
        if k < a.len() + b.len() {
            assert(rs[k] == b[k - a.len()]);
        } else if k < a.len() + b.len() + c.len() {
            assert(rs[k] == c[k - a.len() - b.len()]);
        } else if k < a.len() + b.len() + c.len() + d.len() {
            assert(rs[k] == d[k - a.len() - b.len() - c.len()]);
        } else {
            assert(rs[k] == e[k - a.len() - b.len() - c.len() - d.len()]);
        }
    }
    assert forall|i: int, j: int|
        0 <= i < j < rs.len() implies !((#[trigger] rs[i]).0 == "mac_oui"@ && (
    #[trigger] rs[j]).0 == "mac_oui"@) by {
        if rs[i].0 == "mac_oui"@ && rs[j].0 == "mac_oui"@ {
            assert(i < a.len() && j < a.len());
            assert(a.len() <= 1);
        }
    }
}

} // verus!
