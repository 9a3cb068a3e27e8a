//! Byte-string helpers for the matcher and the protocol codec.
//!
//! SSIDs, BLE names and keyword tables are compared as raw bytes: case
//! folding and digit classes are ASCII-only, and anything outside ASCII
//! passes through matching unchanged.

use vstd::prelude::*;

verus! {

/// ASCII lowercase of one byte; bytes outside `A..=Z` are unchanged.
pub open spec fn spec_lower_byte(b: u8) -> u8 {
    if 65 <= b <= 90 {
        (b + 32) as u8
    } else {
        b
    }
}

/// ASCII lowercase of a whole byte string.
pub open spec fn spec_lower(s: Seq<u8>) -> Seq<u8> {
    s.map_values(|b: u8| spec_lower_byte(b))
}

/// Whether a byte is an ASCII hexadecimal digit.
pub open spec fn spec_is_hex_digit(b: u8) -> bool {
    (48 <= b <= 57) || (65 <= b <= 70) || (97 <= b <= 102)
}

/// Whether a byte is an ASCII decimal digit.
pub open spec fn spec_is_dec_digit(b: u8) -> bool {
    48 <= b <= 57
}

/// Whether `needle` occurs as a contiguous run inside `haystack`.
/// The empty needle occurs in every haystack.
pub open spec fn spec_contains_sub(haystack: Seq<u8>, needle: Seq<u8>) -> bool {
    exists|i: int|
        0 <= i && i + needle.len() <= haystack.len() && #[trigger] haystack.subrange(
            i,
            i + needle.len(),
        ) == needle
}

/// ASCII lowercase of one byte.
pub fn lower_byte(b: u8) -> (r: u8)
    ensures
        r == spec_lower_byte(b),
{
    if b >= 65 && b <= 90 {
        b + 32
    } else {
        b
    }
}

/// Whether a byte is an ASCII hexadecimal digit.
pub fn is_hex_digit(b: u8) -> (r: bool)
    ensures
        r == spec_is_hex_digit(b),
{
    (b >= 48 && b <= 57) || (b >= 65 && b <= 70) || (b >= 97 && b <= 102)
}

/// Whether a byte is an ASCII decimal digit.
pub fn is_dec_digit(b: u8) -> (r: bool)
    ensures
        r == spec_is_dec_digit(b),
{
    b >= 48 && b <= 57
}

/// Byte-for-byte equality of two byte strings.
pub fn bytes_eq(a: &[u8], b: &[u8]) -> (r: bool)
    ensures
        r == (a@ == b@),
{
    if a.len() != b.len() {
        proof {
            assert(a@.len() != b@.len());
        }
        return false;
    }
    let n = a.len();
    let mut i: usize = 0;
    while i < n
        invariant
            n == a@.len() == b@.len(),
            i <= n,
            forall|j: int| 0 <= j < i ==> a@[j] == b@[j],
        decreases n - i,
    {
        if *vstd::slice::slice_index_get(a, i) != *vstd::slice::slice_index_get(b, i) {
            return false;
        }
        i += 1;
    }
    proof {
        assert(a@ =~= b@);
    }
    true
}

/// Byte-for-byte equality of a byte string against a prefix-sized window
/// of another, starting at `at`.
fn window_eq(haystack: &[u8], at: usize, needle: &[u8]) -> (r: bool)
    requires
        at + needle@.len() <= haystack@.len(),
    ensures
        r == (haystack@.subrange(at as int, at + needle@.len()) == needle@),
{
    let n = needle.len();
    let hlen = haystack.len();
    let mut i: usize = 0;
    while i < n
        invariant
            n == needle@.len(),
            hlen == haystack@.len(),
            at + n <= hlen,
            i <= n,
            forall|j: int| 0 <= j < i ==> haystack@[at + j] == needle@[j],
        decreases n - i,
    {
        if *vstd::slice::slice_index_get(haystack, at + i) != *vstd::slice::slice_index_get(
            needle,
            i,
        ) {
            proof {
                assert(haystack@.subrange(at as int, at + needle@.len())[i as int] != needle@[i as int]);
            }
            return false;
        }
        i += 1;
    }
    proof {
        assert(haystack@.subrange(at as int, at + needle@.len()) =~= needle@);
    }
    true
}

/// Whether `needle` occurs as a contiguous run inside `haystack`.
pub fn contains_sub(haystack: &[u8], needle: &[u8]) -> (r: bool)
    ensures
        r == spec_contains_sub(haystack@, needle@),
{
    if needle.len() > haystack.len() {
        return false;
    }
    if needle.len() == 0 {
        proof {
            assert(haystack@.subrange(0, 0 + needle@.len() as int) =~= needle@);
        }
        return true;
    }
    let last = haystack.len() - needle.len();
    let mut i: usize = 0;
    loop
        invariant
            1 <= needle@.len() <= haystack@.len(),
            last == haystack@.len() - needle@.len(),
            last < usize::MAX,
            i <= last + 1,
            forall|j: int|
                0 <= j < i ==> #[trigger] haystack@.subrange(j, j + needle@.len()) != needle@,
        ensures
            i > last ==> !spec_contains_sub(haystack@, needle@),
            i <= last ==> haystack@.subrange(i as int, i + needle@.len()) == needle@,
        decreases last + 1 - i,
    {
        if i > last {
            break ;
        }
        if window_eq(haystack, i, needle) {
            break ;
        }
        i += 1;
    }
    if i <= last {
        proof {
            assert(spec_contains_sub(haystack@, needle@));
        }
        true
    } else {
        false
    }
}

/// The first `n` bytes of a byte string, ASCII-lowercased; the whole
/// string when it is shorter than `n`.
pub fn lower_prefix(s: &[u8], n: usize) -> (r: Vec<u8>)
    ensures
        r@ == spec_lower(if s@.len() <= n {
            s@
        } else {
            s@.take(n as int)
        }),
{
    let take = if s.len() <= n {
        s.len()
    } else {
        n
    };
    let mut out: Vec<u8> = Vec::new();
    let mut i: usize = 0;
    while i < take
        invariant
            take <= s@.len(),
            i <= take,
            out@.len() == i,
            forall|j: int| 0 <= j < i ==> out@[j] == spec_lower_byte(s@[j]),
        decreases take - i,
    {
        out.push(lower_byte(*vstd::slice::slice_index_get(s, i)));
        i += 1;
    }
    proof {
        if s@.len() <= n {
            assert(out@ =~= spec_lower(s@));
        } else {
            assert(out@ =~= spec_lower(s@.take(n as int)));
        }
    }
    out
}

} // verus!
