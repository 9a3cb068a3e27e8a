//! The compiled-in signature tables and rule database.
//!
//! Every signature lives in one of ten tables; the global index of entry
//! `i` of a table is that table's start offset plus `i`, and the tables
//! are numbered back to back, so all indices fit the 256-bit match set.

use vstd::prelude::*;

use vstd::string::StringSliceAdditionalSpecFns;

use crate::ascii::{is_dec_digit, is_hex_digit, spec_is_dec_digit, spec_is_hex_digit};
use crate::rules::{ExprNode, Rule, RuleDb, SigIdx};

verus! {

// Global index at which each table of the default database starts.
pub const SIG_IDX_MAC_OUI_START: SigIdx = 0;

pub const SIG_IDX_SSID_PATTERN_START: SigIdx = 115;

pub const SIG_IDX_SSID_EXACT_START: SigIdx = 117;

pub const SIG_IDX_SSID_KEYWORD_START: SigIdx = 118;

pub const SIG_IDX_WIFI_NAME_START: SigIdx = 121;

pub const SIG_IDX_BLE_NAME_START: SigIdx = 122;

pub const SIG_IDX_BLE_UUID_START: SigIdx = 126;

pub const SIG_IDX_BLE_STD_UUID_START: SigIdx = 131;

pub const SIG_IDX_BLE_MFR_START: SigIdx = 134;

pub const SIG_IDX_BLE_AD_BYTES_START: SigIdx = 135;

/// Total number of compiled-in signatures.
pub const SIG_COUNT: usize = 138;

/// The format an SSID pattern requires of its suffix.
#[derive(Debug, Clone, Copy)]
pub enum SuffixKind {
    /// Only hexadecimal characters.
    HexChars,
    /// Only decimal digits.
    DecimalDigits,
}

/// Whether one suffix byte satisfies a suffix kind.
pub open spec fn spec_suffix_ok(kind: SuffixKind, b: u8) -> bool {
    match kind {
        SuffixKind::HexChars => spec_is_hex_digit(b),
        SuffixKind::DecimalDigits => spec_is_dec_digit(b),
    }
}

/// A structured SSID pattern: a fixed prefix followed by a suffix of a
/// fixed length whose bytes all satisfy the declared kind.
#[derive(Debug, Clone)]
pub struct SsidPattern {
    pub prefix: &'static str,
    pub suffix_len: usize,
    pub suffix_kind: SuffixKind,
    pub description: &'static str,
}

/// Whether an SSID matches a structured pattern.
pub open spec fn spec_ssid_pattern_matches(p: SsidPattern, ssid: Seq<u8>) -> bool {
    let pre = p.prefix.spec_bytes();
    &&& ssid.len() == pre.len() + p.suffix_len
    &&& ssid.take(pre.len() as int) == pre
    &&& forall|i: int|
        pre.len() <= i < ssid.len() ==> spec_suffix_ok(p.suffix_kind, #[trigger] ssid[i])
}

impl SsidPattern {
    /// Check an SSID against this pattern.
    pub fn matches(&self, ssid: &[u8]) -> (r: bool)
        ensures
            r == spec_ssid_pattern_matches(*self, ssid@),
    {
        let pre = self.prefix.as_bytes();
        if ssid.len() < pre.len() {
            return false;
        }
        if ssid.len() - pre.len() != self.suffix_len {
            return false;
        }
        let head = vstd::slice::slice_subrange(ssid, 0, pre.len());
        if !crate::ascii::bytes_eq(head, pre) {
            proof {
                assert(ssid@.take(pre@.len() as int) =~= head@);
            }
            return false;
        }
        proof {
            assert(ssid@.take(pre@.len() as int) =~= head@);
        }
        let n = ssid.len();
        let mut i: usize = pre.len();
        while i < n
            invariant
                n == ssid@.len(),
                pre@ == self.prefix.spec_bytes(),
                n == pre@.len() + self.suffix_len,
                pre@.len() <= i <= n,
                forall|j: int|
                    pre@.len() <= j < i ==> spec_suffix_ok(self.suffix_kind, #[trigger] ssid@[j]),
            decreases n - i,
        {
            let b = *vstd::slice::slice_index_get(ssid, i);
            let ok = match self.suffix_kind {
                SuffixKind::HexChars => is_hex_digit(b),
                SuffixKind::DecimalDigits => is_dec_digit(b),
            };
            if !ok {
                return false;
            }
            i += 1;
        }
        true
    }
}

/// A BLE advertisement byte-pattern signature. With `offset` present the
/// bytes must stand at exactly that offset of the manufacturer-specific
/// data; without it they are searched for anywhere in the raw bytes.
#[derive(Debug)]
pub struct BleAdBytesPattern {
    pub bytes: Vec<u8>,
    pub offset: Option<usize>,
    pub description: &'static str,
}

/// The signature database: every table the matcher consults, in the
/// order that fixes the global signature numbering.
#[derive(Debug)]
pub struct SignatureDb {
    /// Known MAC OUI prefixes with their vendor names.
    pub mac_prefixes: Vec<([u8; 3], &'static str)>,
    /// Structured SSID patterns.
    pub ssid_patterns: Vec<SsidPattern>,
    /// SSIDs matched by exact equality.
    pub ssid_exact: Vec<&'static str>,
    /// SSID substring keywords, stored lowercase.
    pub ssid_keywords: Vec<&'static str>,
    /// Further name keywords, stored lowercase.
    pub wifi_name_keywords: Vec<&'static str>,
    /// BLE device name patterns, matched case-insensitively.
    pub ble_name_patterns: Vec<&'static str>,
    /// Vendor-specific 16-bit BLE service UUIDs.
    pub ble_service_uuids_16: Vec<u16>,
    /// Standard 16-bit BLE service UUIDs of interest.
    pub ble_standard_uuids_16: Vec<u16>,
    /// BLE manufacturer company IDs.
    pub ble_manufacturer_ids: Vec<u16>,
    /// BLE advertisement byte patterns.
    pub ble_ad_bytes_patterns: Vec<BleAdBytesPattern>,
}

impl SignatureDb {
    /// Start of the SSID-pattern table in the global numbering.
    pub open spec fn ssid_pattern_start(self) -> int {
        self.mac_prefixes@.len() as int
    }

    /// Start of the exact-SSID table.
    pub open spec fn ssid_exact_start(self) -> int {
        self.ssid_pattern_start() + self.ssid_patterns@.len()
    }

    /// Start of the SSID-keyword table.
    pub open spec fn ssid_keyword_start(self) -> int {
        self.ssid_exact_start() + self.ssid_exact@.len()
    }

    /// Start of the name-keyword table.
    pub open spec fn wifi_name_start(self) -> int {
        self.ssid_keyword_start() + self.ssid_keywords@.len()
    }

    /// Start of the BLE-name table.
    pub open spec fn ble_name_start(self) -> int {
        self.wifi_name_start() + self.wifi_name_keywords@.len()
    }

    /// Start of the vendor UUID table.
    pub open spec fn ble_uuid_start(self) -> int {
        self.ble_name_start() + self.ble_name_patterns@.len()
    }

    /// Start of the standard UUID table.
    pub open spec fn ble_std_uuid_start(self) -> int {
        self.ble_uuid_start() + self.ble_service_uuids_16@.len()
    }

    /// Start of the manufacturer-ID table.
    pub open spec fn ble_mfr_start(self) -> int {
        self.ble_std_uuid_start() + self.ble_standard_uuids_16@.len()
    }

    /// Start of the byte-pattern table.
    pub open spec fn ble_ad_bytes_start(self) -> int {
        self.ble_mfr_start() + self.ble_manufacturer_ids@.len()
    }

    /// Total number of signatures in the database.
    pub open spec fn sig_count(self) -> int {
        self.ble_ad_bytes_start() + self.ble_ad_bytes_patterns@.len()
    }

    /// The tables pack into the 256-bit match set without gaps: since
    /// every start offset is the running sum of the table lengths before
    /// it, this bound makes every global index land on a distinct bit.
    pub open spec fn wf(self) -> bool {
        self.sig_count() <= 256
    }
}

/// Every signature index of a well-formed database lands on a distinct
/// bit of the 256-bit match set: each table starts where the one before
/// it ends, and the last one still ends within bounds, so entry `i` of
/// any table has its global index `start + i` below 256.
pub proof fn lemma_sig_indices_in_range(db: SignatureDb)
    requires
        db.wf(),
    ensures
        db.mac_prefixes@.len() <= 256,
        db.ssid_pattern_start() + db.ssid_patterns@.len() <= 256,
        db.ssid_exact_start() + db.ssid_exact@.len() <= 256,
        db.ssid_keyword_start() + db.ssid_keywords@.len() <= 256,
        db.wifi_name_start() + db.wifi_name_keywords@.len() <= 256,
        db.ble_name_start() + db.ble_name_patterns@.len() <= 256,
        db.ble_uuid_start() + db.ble_service_uuids_16@.len() <= 256,
        db.ble_std_uuid_start() + db.ble_standard_uuids_16@.len() <= 256,
        db.ble_mfr_start() + db.ble_manufacturer_ids@.len() <= 256,
        db.ble_ad_bytes_start() + db.ble_ad_bytes_patterns@.len() <= 256,
{
}

/// Entry `i` of the compiled-in OUI table: its three prefix bytes and
/// its vendor text.
pub open spec fn spec_oui_entry(i: int) -> ([u8; 3], Seq<char>) {
    if i == 0 {
        ([0xB4u8, 0x1E, 0x52], "Flock Safety"@)
    } else
    if i == 1 {
        ([0x58u8, 0x8E, 0x81], "Silicon Labs"@)
    } else
    if i == 2 {
        ([0xCCu8, 0xCC, 0xCC], "Silicon Labs"@)
    } else
    if i == 3 {
        ([0xECu8, 0x1B, 0xBD], "Silicon Labs"@)
    } else
    if i == 4 {
        ([0x90u8, 0x35, 0xEA], "Silicon Labs"@)
    } else
    if i == 5 {
        ([0x04u8, 0x0D, 0x84], "Silicon Labs"@)
    } else
    if i == 6 {
        ([0xF0u8, 0x82, 0xC0], "Silicon Labs"@)
    } else
    if i == 7 {
        ([0x1Cu8, 0x34, 0xF1], "Silicon Labs"@)
    } else
    if i == 8 {
        ([0x38u8, 0x5B, 0x44], "Silicon Labs"@)
    } else
    if i == 9 {
        ([0x94u8, 0x34, 0x69], "Silicon Labs"@)
    } else
    if i == 10 {
        ([0xB4u8, 0xE3, 0xF9], "Silicon Labs"@)
    } else
    if i == 11 {
        ([0x70u8, 0xC9, 0x4E], "Silicon Labs"@)
    } else
    if i == 12 {
        ([0x3Cu8, 0x91, 0x80], "Silicon Labs"@)
    } else
    if i == 13 {
        ([0xD8u8, 0xF3, 0xBC], "Silicon Labs"@)
    } else
    if i == 14 {
        ([0x80u8, 0x30, 0x49], "Silicon Labs"@)
    } else
    if i == 15 {
        ([0x14u8, 0x5A, 0xFC], "Silicon Labs"@)
    } else
    if i == 16 {
        ([0x74u8, 0x4C, 0xA1], "Silicon Labs"@)
    } else
    if i == 17 {
        ([0x08u8, 0x3A, 0x88], "Silicon Labs"@)
    } else
    if i == 18 {
        ([0x9Cu8, 0x2F, 0x9D], "Silicon Labs"@)
    } else
    if i == 19 {
        ([0x94u8, 0x08, 0x53], "Silicon Labs"@)
    } else
    if i == 20 {
        ([0xE4u8, 0xAA, 0xEA], "Silicon Labs"@)
    } else
    if i == 21 {
        ([0x70u8, 0x1A, 0xD5], "Avigilon Alta"@)
    } else
    if i == 22 {
        ([0x00u8, 0x40, 0x8C], "Axis Communications"@)
    } else
    if i == 23 {
        ([0xACu8, 0xCC, 0x8E], "Axis Communications"@)
    } else
    if i == 24 {
        ([0xB8u8, 0xA4, 0x4F], "Axis Communications"@)
    } else
    if i == 25 {
        ([0xE8u8, 0x27, 0x25], "Axis Communications"@)
    } else
    if i == 26 {
        ([0x1Cu8, 0x79, 0x2D], "China Dragon Technology"@)
    } else
    if i == 27 {
        ([0x3Cu8, 0x3B, 0xAD], "China Dragon Technology"@)
    } else
    if i == 28 {
        ([0x40u8, 0x9C, 0xA7], "China Dragon Technology"@)
    } else
    if i == 29 {
        ([0x54u8, 0xAE, 0xBC], "China Dragon Technology"@)
    } else
    if i == 30 {
        ([0x5Cu8, 0x8A, 0xAE], "China Dragon Technology"@)
    } else
    if i == 31 {
        ([0x6Cu8, 0x05, 0xD3], "China Dragon Technology"@)
    } else
    if i == 32 {
        ([0xA4u8, 0x6B, 0x40], "China Dragon Technology"@)
    } else
    if i == 33 {
        ([0xA8u8, 0x4F, 0xA4], "China Dragon Technology"@)
    } else
    if i == 34 {
        ([0xA8u8, 0xA0, 0x92], "China Dragon Technology"@)
    } else
    if i == 35 {
        ([0xB0u8, 0xAC, 0x82], "China Dragon Technology"@)
    } else
    if i == 36 {
        ([0xBCu8, 0x2B, 0x02], "China Dragon Technology"@)
    } else
    if i == 37 {
        ([0xC0u8, 0xE3, 0x50], "China Dragon Technology"@)
    } else
    if i == 38 {
        ([0xC8u8, 0x26, 0xE2], "China Dragon Technology"@)
    } else
    if i == 39 {
        ([0xC8u8, 0x8A, 0xD8], "China Dragon Technology"@)
    } else
    if i == 40 {
        ([0x00u8, 0x7E, 0x56], "China Dragon Technology"@)
    } else
    if i == 41 {
        ([0x04u8, 0x39, 0x26], "China Dragon Technology"@)
    } else
    if i == 42 {
        ([0x24u8, 0xB7, 0x2A], "China Dragon Technology"@)
    } else
    if i == 43 {
        ([0x3Cu8, 0x7A, 0xAA], "China Dragon Technology"@)
    } else
    if i == 44 {
        ([0x40u8, 0xAA, 0x56], "China Dragon Technology"@)
    } else
    if i == 45 {
        ([0x44u8, 0xEF, 0xBF], "China Dragon Technology"@)
    } else
    if i == 46 {
        ([0x78u8, 0x8A, 0x86], "China Dragon Technology"@)
    } else
    if i == 47 {
        ([0x94u8, 0xE0, 0xD6], "China Dragon Technology"@)
    } else
    if i == 48 {
        ([0xA0u8, 0x67, 0x20], "China Dragon Technology"@)
    } else
    if i == 49 {
        ([0xA0u8, 0x9D, 0xC1], "China Dragon Technology"@)
    } else
    if i == 50 {
        ([0xA8u8, 0x43, 0xA4], "China Dragon Technology"@)
    } else
    if i == 51 {
        ([0xD0u8, 0xA4, 0x6F], "China Dragon Technology"@)
    } else
    if i == 52 {
        ([0xE0u8, 0x51, 0xD8], "China Dragon Technology"@)
    } else
    if i == 53 {
        ([0xE0u8, 0x75, 0x26], "China Dragon Technology"@)
    } else
    if i == 54 {
        ([0x00u8, 0x13, 0x56], "FLIR Radiation"@)
    } else
    if i == 55 {
        ([0x00u8, 0x40, 0x7F], "FLIR Systems"@)
    } else
    if i == 56 {
        ([0x00u8, 0x1B, 0xD8], "FLIR Systems"@)
    } else
    if i == 57 {
        ([0x00u8, 0x13, 0xE2], "GeoVision"@)
    } else
    if i == 58 {
        ([0x44u8, 0xB4, 0x23], "Hanwha Vision"@)
    } else
    if i == 59 {
        ([0x8Cu8, 0x1D, 0x55], "Hanwha Vision"@)
    } else
    if i == 60 {
        ([0xE4u8, 0x30, 0x22], "Hanwha Vision"@)
    } else
    if i == 61 {
        ([0x00u8, 0x10, 0xBE], "March Networks"@)
    } else
    if i == 62 {
        ([0x00u8, 0x12, 0x81], "March Networks"@)
    } else
    if i == 63 {
        ([0x48u8, 0x05, 0x60], "Meta Platforms"@)
    } else
    if i == 64 {
        ([0x50u8, 0x99, 0x03], "Meta Platforms"@)
    } else
    if i == 65 {
        ([0x78u8, 0xC4, 0xFA], "Meta Platforms"@)
    } else
    if i == 66 {
        ([0x80u8, 0xF3, 0xEF], "Meta Platforms"@)
    } else
    if i == 67 {
        ([0x84u8, 0x57, 0xF7], "Meta Platforms"@)
    } else
    if i == 68 {
        ([0x88u8, 0x25, 0x08], "Meta Platforms"@)
    } else
    if i == 69 {
        ([0x94u8, 0xF9, 0x29], "Meta Platforms"@)
    } else
    if i == 70 {
        ([0xB4u8, 0x17, 0xA8], "Meta Platforms"@)
    } else
    if i == 71 {
        ([0xC0u8, 0xDD, 0x8A], "Meta Platforms"@)
    } else
    if i == 72 {
        ([0xCCu8, 0xA1, 0x74], "Meta Platforms"@)
    } else
    if i == 73 {
        ([0xD0u8, 0xB3, 0xC2], "Meta Platforms"@)
    } else
    if i == 74 {
        ([0xD4u8, 0xD6, 0x59], "Meta Platforms"@)
    } else
    if i == 75 {
        ([0x00u8, 0x03, 0xC5], "Mobotix"@)
    } else
    if i == 76 {
        ([0x08u8, 0xEA, 0x40], "Shenzhen Bilian"@)
    } else
    if i == 77 {
        ([0x0Cu8, 0x8C, 0x24], "Shenzhen Bilian"@)
    } else
    if i == 78 {
        ([0x0Cu8, 0xCF, 0x89], "Shenzhen Bilian"@)
    } else
    if i == 79 {
        ([0x10u8, 0xA4, 0xBE], "Shenzhen Bilian"@)
    } else
    if i == 80 {
        ([0x14u8, 0x5D, 0x34], "Shenzhen Bilian"@)
    } else
    if i == 81 {
        ([0x14u8, 0x6B, 0x9C], "Shenzhen Bilian"@)
    } else
    if i == 82 {
        ([0x20u8, 0x32, 0x33], "Shenzhen Bilian"@)
    } else
    if i == 83 {
        ([0x2Cu8, 0xC3, 0xE6], "Shenzhen Bilian"@)
    } else
    if i == 84 {
        ([0x30u8, 0x7B, 0xC9], "Shenzhen Bilian"@)
    } else
    if i == 85 {
        ([0x34u8, 0x7D, 0xE4], "Shenzhen Bilian"@)
    } else
    if i == 86 {
        ([0x38u8, 0x01, 0x46], "Shenzhen Bilian"@)
    } else
    if i == 87 {
        ([0x38u8, 0x7A, 0xCC], "Shenzhen Bilian"@)
    } else
    if i == 88 {
        ([0x44u8, 0x01, 0xBB], "Shenzhen Bilian"@)
    } else
    if i == 89 {
        ([0x54u8, 0xEF, 0x33], "Shenzhen Bilian"@)
    } else
    if i == 90 {
        ([0x60u8, 0xFB, 0x00], "Shenzhen Bilian"@)
    } else
    if i == 91 {
        ([0x6Cu8, 0xD5, 0x52], "Shenzhen Bilian"@)
    } else
    if i == 92 {
        ([0x74u8, 0xEE, 0x2A], "Shenzhen Bilian"@)
    } else
    if i == 93 {
        ([0x78u8, 0x22, 0x88], "Shenzhen Bilian"@)
    } else
    if i == 94 {
        ([0x7Cu8, 0xA7, 0xB0], "Shenzhen Bilian"@)
    } else
    if i == 95 {
        ([0x84u8, 0xFC, 0x14], "Shenzhen Bilian"@)
    } else
    if i == 96 {
        ([0x88u8, 0x49, 0x2D], "Shenzhen Bilian"@)
    } else
    if i == 97 {
        ([0x94u8, 0xBA, 0x06], "Shenzhen Bilian"@)
    } else
    if i == 98 {
        ([0x98u8, 0x03, 0xCF], "Shenzhen Bilian"@)
    } else
    if i == 99 {
        ([0xA0u8, 0x9F, 0x10], "Shenzhen Bilian"@)
    } else
    if i == 100 {
        ([0xA8u8, 0xB5, 0x8E], "Shenzhen Bilian"@)
    } else
    if i == 101 {
        ([0xB4u8, 0x6D, 0xC2], "Shenzhen Bilian"@)
    } else
    if i == 102 {
        ([0xC4u8, 0x3C, 0xB0], "Shenzhen Bilian"@)
    } else
    if i == 103 {
        ([0xC8u8, 0xFE, 0x0F], "Shenzhen Bilian"@)
    } else
    if i == 104 {
        ([0xCCu8, 0x64, 0x1A], "Shenzhen Bilian"@)
    } else
    if i == 105 {
        ([0xE0u8, 0xB9, 0x4D], "Shenzhen Bilian"@)
    } else
    if i == 106 {
        ([0xECu8, 0x3D, 0xFD], "Shenzhen Bilian"@)
    } else
    if i == 107 {
        ([0xF0u8, 0xC8, 0x14], "Shenzhen Bilian"@)
    } else
    if i == 108 {
        ([0xFCu8, 0x23, 0xCD], "Shenzhen Bilian"@)
    } else
    if i == 109 {
        ([0x20u8, 0xF4, 0x1B], "Shenzhen Bilian"@)
    } else
    if i == 110 {
        ([0x28u8, 0xF3, 0x66], "Shenzhen Bilian"@)
    } else
    if i == 111 {
        ([0x3Cu8, 0x33, 0x00], "Shenzhen Bilian"@)
    } else
    if i == 112 {
        ([0x44u8, 0x33, 0x4C], "Shenzhen Bilian"@)
    } else
    if i == 113 {
        ([0xACu8, 0xA2, 0x13], "Shenzhen Bilian"@)
    } else
    if i == 114 {
        ([0x00u8, 0x1C, 0x27], "Sunell Electronics"@)
    } else {
        ([0u8, 0, 0], ""@)
    }
}

/// Build the compiled-in signature database.
#[verifier::rlimit(100)]
pub fn default_signature_db() -> (db: SignatureDb)
    ensures
        db.wf(),
        db.mac_prefixes@.len() == 115,
        forall|i: int|
            0 <= i < db.mac_prefixes@.len() ==> (#[trigger] db.mac_prefixes@[i]).0
                == spec_oui_entry(i).0 && db.mac_prefixes@[i].1@ == spec_oui_entry(i).1,
        db.ssid_patterns@.len() == 2,
        db.ssid_patterns@[0].prefix@ == "Flock-"@,
        db.ssid_patterns@[0].suffix_len == 6,
        db.ssid_patterns@[0].suffix_kind is HexChars,
        db.ssid_patterns@[0].description@ == "Flock Safety camera WiFi"@,
        db.ssid_patterns@[1].prefix@ == "Penguin-"@,
        db.ssid_patterns@[1].suffix_len == 10,
        db.ssid_patterns@[1].suffix_kind is DecimalDigits,
        db.ssid_exact@.len() == 1,
        db.ssid_exact@[0]@ == "FS Ext Battery"@,
        db.ssid_keywords@.len() == 3,
        db.ssid_keywords@[0]@ == "flock"@,
        db.ssid_keywords@[1]@ == "penguin"@,
        db.ssid_keywords@[2]@ == "pigvision"@,
        db.wifi_name_keywords@.len() == 1,
        db.wifi_name_keywords@[0]@ == "flock"@,
        db.ble_name_patterns@.len() == 4,
        db.ble_name_patterns@[0]@ == "Flock"@,
        db.ble_name_patterns@[1]@ == "Penguin"@,
        db.ble_name_patterns@[2]@ == "FS Ext Battery"@,
        db.ble_name_patterns@[3]@ == "Pigvision"@,
        db.ble_service_uuids_16@ == seq![0x3100u16, 0x3200, 0x3300, 0x3400, 0x3500],
        db.ble_standard_uuids_16@ == seq![0x180Au16, 0x1809, 0x1819],
        db.ble_manufacturer_ids@ == seq![0x09C8u16],
        db.ble_ad_bytes_patterns@.len() == 3,
        db.ble_ad_bytes_patterns@[0].bytes@ == seq![0x4Cu8, 0x00, 0x12, 0x19],
        db.ble_ad_bytes_patterns@[0].offset == Some(0usize),
        db.ble_ad_bytes_patterns@[0].description@ == "Apple AirTag"@,
        db.ble_ad_bytes_patterns@[1].bytes@ == seq![0x80u8, 0x30],
        db.ble_ad_bytes_patterns@[1].offset is None,
        db.ble_ad_bytes_patterns@[1].description@ == "Flipper Zero"@,
        db.ble_ad_bytes_patterns@[2].bytes@ == seq![0x81u8, 0x30],
        db.ble_ad_bytes_patterns@[2].offset is None,
        db.ble_ad_bytes_patterns@[2].description@ == "Flipper Zero"@,
{
    let mac_prefixes: Vec<([u8; 3], &'static str)> = vec![
        ([0xB4, 0x1E, 0x52], "Flock Safety"),
        ([0x58, 0x8E, 0x81], "Silicon Labs"),
        ([0xCC, 0xCC, 0xCC], "Silicon Labs"),
        ([0xEC, 0x1B, 0xBD], "Silicon Labs"),
        ([0x90, 0x35, 0xEA], "Silicon Labs"),
        ([0x04, 0x0D, 0x84], "Silicon Labs"),
        ([0xF0, 0x82, 0xC0], "Silicon Labs"),
        ([0x1C, 0x34, 0xF1], "Silicon Labs"),
        ([0x38, 0x5B, 0x44], "Silicon Labs"),
        ([0x94, 0x34, 0x69], "Silicon Labs"),
        ([0xB4, 0xE3, 0xF9], "Silicon Labs"),
        ([0x70, 0xC9, 0x4E], "Silicon Labs"),
        ([0x3C, 0x91, 0x80], "Silicon Labs"),
        ([0xD8, 0xF3, 0xBC], "Silicon Labs"),
        ([0x80, 0x30, 0x49], "Silicon Labs"),
        ([0x14, 0x5A, 0xFC], "Silicon Labs"),
        ([0x74, 0x4C, 0xA1], "Silicon Labs"),
        ([0x08, 0x3A, 0x88], "Silicon Labs"),
        ([0x9C, 0x2F, 0x9D], "Silicon Labs"),
        ([0x94, 0x08, 0x53], "Silicon Labs"),
        ([0xE4, 0xAA, 0xEA], "Silicon Labs"),
        ([0x70, 0x1A, 0xD5], "Avigilon Alta"),
        ([0x00, 0x40, 0x8C], "Axis Communications"),
        ([0xAC, 0xCC, 0x8E], "Axis Communications"),
        ([0xB8, 0xA4, 0x4F], "Axis Communications"),
        ([0xE8, 0x27, 0x25], "Axis Communications"),
        ([0x1C, 0x79, 0x2D], "China Dragon Technology"),
        ([0x3C, 0x3B, 0xAD], "China Dragon Technology"),
        ([0x40, 0x9C, 0xA7], "China Dragon Technology"),
        ([0x54, 0xAE, 0xBC], "China Dragon Technology"),
        ([0x5C, 0x8A, 0xAE], "China Dragon Technology"),
        ([0x6C, 0x05, 0xD3], "China Dragon Technology"),
        ([0xA4, 0x6B, 0x40], "China Dragon Technology"),
        ([0xA8, 0x4F, 0xA4], "China Dragon Technology"),
        ([0xA8, 0xA0, 0x92], "China Dragon Technology"),
        ([0xB0, 0xAC, 0x82], "China Dragon Technology"),
        ([0xBC, 0x2B, 0x02], "China Dragon Technology"),
        ([0xC0, 0xE3, 0x50], "China Dragon Technology"),
        ([0xC8, 0x26, 0xE2], "China Dragon Technology"),
        ([0xC8, 0x8A, 0xD8], "China Dragon Technology"),
        ([0x00, 0x7E, 0x56], "China Dragon Technology"),
        ([0x04, 0x39, 0x26], "China Dragon Technology"),
        ([0x24, 0xB7, 0x2A], "China Dragon Technology"),
        ([0x3C, 0x7A, 0xAA], "China Dragon Technology"),
        ([0x40, 0xAA, 0x56], "China Dragon Technology"),
        ([0x44, 0xEF, 0xBF], "China Dragon Technology"),
        ([0x78, 0x8A, 0x86], "China Dragon Technology"),
        ([0x94, 0xE0, 0xD6], "China Dragon Technology"),
        ([0xA0, 0x67, 0x20], "China Dragon Technology"),
        ([0xA0, 0x9D, 0xC1], "China Dragon Technology"),
        ([0xA8, 0x43, 0xA4], "China Dragon Technology"),
        ([0xD0, 0xA4, 0x6F], "China Dragon Technology"),
        ([0xE0, 0x51, 0xD8], "China Dragon Technology"),
        ([0xE0, 0x75, 0x26], "China Dragon Technology"),
        ([0x00, 0x13, 0x56], "FLIR Radiation"),
        ([0x00, 0x40, 0x7F], "FLIR Systems"),
        ([0x00, 0x1B, 0xD8], "FLIR Systems"),
        ([0x00, 0x13, 0xE2], "GeoVision"),
        ([0x44, 0xB4, 0x23], "Hanwha Vision"),
        ([0x8C, 0x1D, 0x55], "Hanwha Vision"),
        ([0xE4, 0x30, 0x22], "Hanwha Vision"),
        ([0x00, 0x10, 0xBE], "March Networks"),
        ([0x00, 0x12, 0x81], "March Networks"),
        ([0x48, 0x05, 0x60], "Meta Platforms"),
        ([0x50, 0x99, 0x03], "Meta Platforms"),
        ([0x78, 0xC4, 0xFA], "Meta Platforms"),
        ([0x80, 0xF3, 0xEF], "Meta Platforms"),
        ([0x84, 0x57, 0xF7], "Meta Platforms"),
        ([0x88, 0x25, 0x08], "Meta Platforms"),
        ([0x94, 0xF9, 0x29], "Meta Platforms"),
        ([0xB4, 0x17, 0xA8], "Meta Platforms"),
        ([0xC0, 0xDD, 0x8A], "Meta Platforms"),
        ([0xCC, 0xA1, 0x74], "Meta Platforms"),
        ([0xD0, 0xB3, 0xC2], "Meta Platforms"),
        ([0xD4, 0xD6, 0x59], "Meta Platforms"),
        ([0x00, 0x03, 0xC5], "Mobotix"),
        ([0x08, 0xEA, 0x40], "Shenzhen Bilian"),
        ([0x0C, 0x8C, 0x24], "Shenzhen Bilian"),
        ([0x0C, 0xCF, 0x89], "Shenzhen Bilian"),
        ([0x10, 0xA4, 0xBE], "Shenzhen Bilian"),
        ([0x14, 0x5D, 0x34], "Shenzhen Bilian"),
        ([0x14, 0x6B, 0x9C], "Shenzhen Bilian"),
        ([0x20, 0x32, 0x33], "Shenzhen Bilian"),
        ([0x2C, 0xC3, 0xE6], "Shenzhen Bilian"),
        ([0x30, 0x7B, 0xC9], "Shenzhen Bilian"),
        ([0x34, 0x7D, 0xE4], "Shenzhen Bilian"),
        ([0x38, 0x01, 0x46], "Shenzhen Bilian"),
        ([0x38, 0x7A, 0xCC], "Shenzhen Bilian"),
        ([0x44, 0x01, 0xBB], "Shenzhen Bilian"),
        ([0x54, 0xEF, 0x33], "Shenzhen Bilian"),
        ([0x60, 0xFB, 0x00], "Shenzhen Bilian"),
        ([0x6C, 0xD5, 0x52], "Shenzhen Bilian"),
        ([0x74, 0xEE, 0x2A], "Shenzhen Bilian"),
        ([0x78, 0x22, 0x88], "Shenzhen Bilian"),
        ([0x7C, 0xA7, 0xB0], "Shenzhen Bilian"),
        ([0x84, 0xFC, 0x14], "Shenzhen Bilian"),
        ([0x88, 0x49, 0x2D], "Shenzhen Bilian"),
        ([0x94, 0xBA, 0x06], "Shenzhen Bilian"),
        ([0x98, 0x03, 0xCF], "Shenzhen Bilian"),
        ([0xA0, 0x9F, 0x10], "Shenzhen Bilian"),
        ([0xA8, 0xB5, 0x8E], "Shenzhen Bilian"),
        ([0xB4, 0x6D, 0xC2], "Shenzhen Bilian"),
        ([0xC4, 0x3C, 0xB0], "Shenzhen Bilian"),
        ([0xC8, 0xFE, 0x0F], "Shenzhen Bilian"),
        ([0xCC, 0x64, 0x1A], "Shenzhen Bilian"),
        ([0xE0, 0xB9, 0x4D], "Shenzhen Bilian"),
        ([0xEC, 0x3D, 0xFD], "Shenzhen Bilian"),
        ([0xF0, 0xC8, 0x14], "Shenzhen Bilian"),
        ([0xFC, 0x23, 0xCD], "Shenzhen Bilian"),
        ([0x20, 0xF4, 0x1B], "Shenzhen Bilian"),
        ([0x28, 0xF3, 0x66], "Shenzhen Bilian"),
        ([0x3C, 0x33, 0x00], "Shenzhen Bilian"),
        ([0x44, 0x33, 0x4C], "Shenzhen Bilian"),
        ([0xAC, 0xA2, 0x13], "Shenzhen Bilian"),
        ([0x00, 0x1C, 0x27], "Sunell Electronics"),
    ];
    let ssid_patterns: Vec<SsidPattern> = vec![
        SsidPattern {
            prefix: "Flock-",
            suffix_len: 6,
            suffix_kind: SuffixKind::HexChars,
            description: "Flock Safety camera WiFi",
        },
        SsidPattern {
            prefix: "Penguin-",
            suffix_len: 10,
            suffix_kind: SuffixKind::DecimalDigits,
            description: "Penguin device WiFi",
        },
    ];
    let ssid_exact: Vec<&'static str> = vec!["FS Ext Battery"];
    let ssid_keywords: Vec<&'static str> = vec!["flock", "penguin", "pigvision"];
    let wifi_name_keywords: Vec<&'static str> = vec!["flock"];
    let ble_name_patterns: Vec<&'static str> = vec![
        "Flock",
        "Penguin",
        "FS Ext Battery",
        "Pigvision",
    ];
    let ble_service_uuids_16: Vec<u16> = vec![0x3100, 0x3200, 0x3300, 0x3400, 0x3500];
    let ble_standard_uuids_16: Vec<u16> = vec![0x180A, 0x1809, 0x1819];
    let ble_manufacturer_ids: Vec<u16> = vec![0x09C8];
    let ble_ad_bytes_patterns: Vec<BleAdBytesPattern> = vec![
        BleAdBytesPattern {
            bytes: vec![0x4C, 0x00, 0x12, 0x19],
            offset: Some(0),
            description: "Apple AirTag",
        },
        BleAdBytesPattern { bytes: vec![0x80, 0x30], offset: None, description: "Flipper Zero" },
        BleAdBytesPattern { bytes: vec![0x81, 0x30], offset: None, description: "Flipper Zero" },
    ];
    SignatureDb {
        mac_prefixes,
        ssid_patterns,
        ssid_exact,
        ssid_keywords,
        wifi_name_keywords,
        ble_name_patterns,
        ble_service_uuids_16,
        ble_standard_uuids_16,
        ble_manufacturer_ids,
        ble_ad_bytes_patterns,
    }
}

// Global indices of the signatures the compiled-in rules reference.
pub const SIG_FLOCK_SAFETY_OUI: SigIdx = 0;

pub const SIG_SILABS_A: SigIdx = 1;

pub const SIG_SILABS_B: SigIdx = 2;

pub const SIG_FLOCK_SSID_PREFIX: SigIdx = 115;

pub const SIG_FS_EXT_BATTERY_SSID: SigIdx = 117;

pub const SIG_FLOCK_SSID_KEYWORD: SigIdx = 118;

pub const SIG_FLOCK_BLE_NAME: SigIdx = 122;

pub const SIG_FS_EXT_BATTERY_BLE: SigIdx = 124;

pub const SIG_RAVEN_GPS_UUID: SigIdx = 126;

pub const SIG_RAVEN_POWER_UUID: SigIdx = 127;

pub const SIG_RAVEN_NETWORK_UUID: SigIdx = 128;

pub const SIG_RAVEN_UPLOAD_UUID: SigIdx = 129;

pub const SIG_RAVEN_ERROR_UUID: SigIdx = 130;

pub const SIG_XUNTONG_MFR: SigIdx = 134;

pub const SIG_AIRTAG_FINDMY_AD: SigIdx = 135;

pub const SIG_FLIPPER_ZERO_WHITE: SigIdx = 136;

pub const SIG_FLIPPER_ZERO_BLACK: SigIdx = 137;

/// The node pool of the compiled-in rules, as the contract pins it.
pub open spec fn spec_default_rule_nodes() -> Seq<ExprNode> {
    seq![
        ExprNode::Sig(SIG_FLOCK_SAFETY_OUI),
        ExprNode::Sig(SIG_SILABS_A),
        ExprNode::Sig(SIG_SILABS_B),
        ExprNode::Sig(SIG_FLOCK_SSID_PREFIX),
        ExprNode::Sig(SIG_FS_EXT_BATTERY_SSID),
        ExprNode::Sig(SIG_FLOCK_SSID_KEYWORD),
        ExprNode::Sig(SIG_FLOCK_BLE_NAME),
        ExprNode::Sig(SIG_FS_EXT_BATTERY_BLE),
        ExprNode::Sig(SIG_XUNTONG_MFR),
        ExprNode::Sig(SIG_FLOCK_BLE_NAME),
        ExprNode::AllOf { count: 2 },
        ExprNode::AnyOf { count: 9 },
        ExprNode::Sig(SIG_RAVEN_GPS_UUID),
        ExprNode::Sig(SIG_RAVEN_POWER_UUID),
        ExprNode::Sig(SIG_RAVEN_NETWORK_UUID),
        ExprNode::Sig(SIG_RAVEN_UPLOAD_UUID),
        ExprNode::Sig(SIG_RAVEN_ERROR_UUID),
        ExprNode::AnyOf { count: 5 },
        ExprNode::Sig(SIG_AIRTAG_FINDMY_AD),
        ExprNode::Sig(SIG_FLIPPER_ZERO_WHITE),
        ExprNode::Sig(SIG_FLIPPER_ZERO_BLACK),
        ExprNode::AnyOf { count: 2 },
    ]
}

/// Build the compiled-in rule database.
///
/// The detection rules, over the node pool above:
/// - "Flock Safety Camera": any of eight direct signatures, or the
///   XUNTONG manufacturer ID together with a Flock BLE name.
/// - "Raven Acoustic Sensor": any of the five Raven service UUIDs.
/// - "Apple AirTag": the FindMy advertisement header.
/// - "Flipper Zero": either of its two advertisement byte patterns.
pub fn default_rule_db() -> (db: RuleDb)
    ensures
        db.wf(),
        db.nodes@ == spec_default_rule_nodes(),
        db.rules@.len() == 4,
        db.rules@[0].name@ == "Flock Safety Camera"@,
        db.rules@[0].expr_start == 0 && db.rules@[0].expr_len == 12,
        db.rules@[1].name@ == "Raven Acoustic Sensor"@,
        db.rules@[1].expr_start == 12 && db.rules@[1].expr_len == 6,
        db.rules@[2].name@ == "Apple AirTag"@,
        db.rules@[2].expr_start == 18 && db.rules@[2].expr_len == 1,
        db.rules@[3].name@ == "Flipper Zero"@,
        db.rules@[3].expr_start == 19 && db.rules@[3].expr_len == 3,
{
    let nodes: Vec<ExprNode> = vec![
        ExprNode::Sig(SIG_FLOCK_SAFETY_OUI),
        ExprNode::Sig(SIG_SILABS_A),
        ExprNode::Sig(SIG_SILABS_B),
        ExprNode::Sig(SIG_FLOCK_SSID_PREFIX),
        ExprNode::Sig(SIG_FS_EXT_BATTERY_SSID),
        ExprNode::Sig(SIG_FLOCK_SSID_KEYWORD),
        ExprNode::Sig(SIG_FLOCK_BLE_NAME),
        ExprNode::Sig(SIG_FS_EXT_BATTERY_BLE),
        ExprNode::Sig(SIG_XUNTONG_MFR),
        ExprNode::Sig(SIG_FLOCK_BLE_NAME),
        ExprNode::AllOf { count: 2 },
        ExprNode::AnyOf { count: 9 },
        ExprNode::Sig(SIG_RAVEN_GPS_UUID),
        ExprNode::Sig(SIG_RAVEN_POWER_UUID),
        ExprNode::Sig(SIG_RAVEN_NETWORK_UUID),
        ExprNode::Sig(SIG_RAVEN_UPLOAD_UUID),
        ExprNode::Sig(SIG_RAVEN_ERROR_UUID),
        ExprNode::AnyOf { count: 5 },
        ExprNode::Sig(SIG_AIRTAG_FINDMY_AD),
        ExprNode::Sig(SIG_FLIPPER_ZERO_WHITE),
        ExprNode::Sig(SIG_FLIPPER_ZERO_BLACK),
        ExprNode::AnyOf { count: 2 },
    ];
    let rules: Vec<Rule> = vec![
        Rule { name: "Flock Safety Camera", expr_start: 0, expr_len: 12 },
        Rule { name: "Raven Acoustic Sensor", expr_start: 12, expr_len: 6 },
        Rule { name: "Apple AirTag", expr_start: 18, expr_len: 1 },
        Rule { name: "Flipper Zero", expr_start: 19, expr_len: 3 },
    ];
    let db = RuleDb { nodes, rules };
    proof {
        assert(db.nodes@ =~= spec_default_rule_nodes());
    }
    db
}

} // verus!
