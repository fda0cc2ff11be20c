use vstd::prelude::*;
use vstd::slice::slice_subrange;
use vstd::string::StringSliceAdditionalSpecFns;
use crate::hash::{keccak256, keccak256_of};
use crate::types::{Address, IssueError, Signature};

verus! {

pub open spec fn is_hex_digit(c: u8) -> bool {
    (48 <= c <= 57) || (97 <= c <= 102) || (65 <= c <= 70)
}

/// A letter among the hex digits, in upper case.
pub open spec fn is_upper_hex_letter(c: u8) -> bool {
    65 <= c <= 70
}

/// A letter among the hex digits, in lower case.
pub open spec fn is_lower_hex_letter(c: u8) -> bool {
    97 <= c <= 102
}

/// The value of a hex digit.
pub open spec fn hex_value(c: u8) -> u8 {
    if 48 <= c <= 57 {
        (c - 48) as u8
    } else if 97 <= c <= 102 {
        (c - 87) as u8
    } else {
        (c - 55) as u8
    }
}

/// The lower-case hex digit of a value below 16.
pub open spec fn hex_digit(v: u8) -> u8 {
    if v < 10 {
        (v + 48) as u8
    } else {
        (v + 87) as u8
    }
}

pub open spec fn all_hex(s: Seq<u8>) -> bool {
    forall|i: int| 0 <= i < s.len() ==> is_hex_digit(#[trigger] s[i])
}

/// The bytes that a string of hex digit pairs spells.
pub open spec fn hex_decode(s: Seq<u8>) -> Seq<u8> {
    Seq::new(s.len() / 2, |i: int| (hex_value(s[2 * i]) * 16 + hex_value(s[2 * i + 1])) as u8)
}

/// Half-byte `i` of `d`, high half first.
pub open spec fn nibble(d: Seq<u8>, i: int) -> u8 {
    if i % 2 == 0 {
        d[i / 2] / 16
    } else {
        d[i / 2] % 16
    }
}

/// Lower-case hex of `b`, two digits per byte, high half first.
pub open spec fn hex_lower(b: Seq<u8>) -> Seq<u8> {
    Seq::new(2 * b.len(), |i: int| hex_digit(nibble(b, i)))
}

/// A hex digit with its letter, if any, in lower case.
pub open spec fn to_lower_hex(c: u8) -> u8 {
    if is_upper_hex_letter(c) {
        (c + 32) as u8
    } else {
        c
    }
}

pub open spec fn lower_all(s: Seq<u8>) -> Seq<u8> {
    Seq::new(s.len(), |i: int| to_lower_hex(s[i]))
}

/// Every letter is in lower case, or every letter is in upper case.
pub open spec fn single_case(s: Seq<u8>) -> bool {
    (forall|i: int| 0 <= i < s.len() ==> !is_upper_hex_letter(#[trigger] s[i])) || (forall|i: int|
        0 <= i < s.len() ==> !is_lower_hex_letter(#[trigger] s[i]))
}

/// The mixed-case checksum: a letter is upper case exactly where the
/// matching half-byte of the digest is 8 or more.
pub open spec fn checksum_matches(s: Seq<u8>, digest: Seq<u8>) -> bool {
    forall|i: int|
        0 <= i < s.len() && (is_upper_hex_letter(#[trigger] s[i]) || is_lower_hex_letter(s[i]))
            ==> (is_upper_hex_letter(s[i]) <==> nibble(digest, i) >= 8)
}

/// Whether `t` is the text of an address: `0x`, then 40 hex digits, in one
/// case or with a correct checksum.
pub open spec fn address_text_valid(t: Seq<u8>) -> bool {
    let h = t.subrange(2, t.len() as int);
    &&& t.len() == 42
    &&& t[0] == 48 && t[1] == 120
    &&& all_hex(h)
    &&& (single_case(h) || checksum_matches(h, keccak256_of(lower_all(h))))
}

/// The recovery byte `v` of a signature: 0 or 1, or 27 or 28.
pub open spec fn valid_recovery_byte(v: u8) -> bool {
    v == 0 || v == 1 || v == 27 || v == 28
}

/// Whether `t` is the text of a signature: `0x`, then 130 hex digits whose
/// last byte is a valid recovery byte.
pub open spec fn signature_text_valid(t: Seq<u8>) -> bool {
    let h = t.subrange(2, t.len() as int);
    &&& t.len() == 132
    &&& t[0] == 48 && t[1] == 120
    &&& all_hex(h)
    &&& valid_recovery_byte(hex_decode(h)[64])
}

fn hex_value_exec(c: u8) -> (r: u8)
    requires
        is_hex_digit(c),
    ensures
        r == hex_value(c),
        r < 16,
{
    if 48 <= c && c <= 57 {
        c - 48
    } else if 97 <= c && c <= 102 {
        c - 87
    } else {
        c - 55
    }
}

fn hex_digit_exec(v: u8) -> (r: u8)
    requires
        v < 16,
    ensures
        r == hex_digit(v),
{
    if v < 10 {
        v + 48
    } else {
        v + 87
    }
}

/// Lower-case hex of `b`, two digits per byte.
pub fn encode_hex_lower(b: &[u8]) -> (r: Vec<u8>)
    requires
        b@.len() <= usize::MAX / 2,
    ensures
        r@ == hex_lower(b@),
{
    let mut r: Vec<u8> = Vec::new();
    let mut i: usize = 0;
    while i < b.len()
        invariant
            0 <= i <= b@.len(),
            b@.len() <= usize::MAX / 2,
            r@.len() == 2 * i,
            forall|k: int| 0 <= k < 2 * i ==> r@[k] == hex_digit(#[trigger] nibble(b@, k)),
        decreases b@.len() - i,
    {
        r.push(hex_digit_exec(b[i] / 16));
        r.push(hex_digit_exec(b[i] % 16));
        assert(nibble(b@, 2 * i as int) == b@[i as int] / 16);
        assert(nibble(b@, 2 * i + 1) == b@[i as int] % 16);
        i = i + 1;
    }
    assert(r@ =~= hex_lower(b@));
    r
}

fn check_hex(t: &[u8], start: usize) -> (r: bool)
    requires
        start <= t@.len(),
    ensures
        r == all_hex(t@.subrange(start as int, t@.len() as int)),
{
    let mut i: usize = start;
    while i < t.len()
        invariant
            start <= i <= t@.len(),
            forall|k: int| start <= k < i ==> is_hex_digit(#[trigger] t@[k]),
        decreases t@.len() - i,
    {
        if !(48 <= t[i] && t[i] <= 57 || 97 <= t[i] && t[i] <= 102 || 65 <= t[i] && t[i] <= 70) {
            assert(t@.subrange(start as int, t@.len() as int)[i - start] == t@[i as int]);
            return false;
        }
        i = i + 1;
    }
    true
}

/// Decodes `count` bytes from the hex digits of `t` that follow `start`.
fn decode_hex(t: &[u8], start: usize, count: usize) -> (r: Vec<u8>)
    requires
        start + 2 * count == t@.len(),
        all_hex(t@.subrange(start as int, t@.len() as int)),
    ensures
        r@ == hex_decode(t@.subrange(start as int, t@.len() as int)),
        r@.len() == count,
{
    let ghost h = t@.subrange(start as int, t@.len() as int);
    let n = t.len();
    let mut r: Vec<u8> = Vec::new();
    let mut i: usize = 0;
    while i < count
        invariant
            start + 2 * count == t@.len(),
            n == t@.len(),
            h == t@.subrange(start as int, t@.len() as int),
            all_hex(h),
            0 <= i <= count,
            r@.len() == i,
            forall|k: int| 0 <= k < i ==> #[trigger] r@[k] == hex_decode(h)[k],
        decreases count - i,
    {
        assert(h[2 * i as int] == t@[start + 2 * i]);
        assert(h[2 * i + 1] == t@[start + 2 * i + 1]);
        assert(is_hex_digit(h[2 * i as int]) && is_hex_digit(h[2 * i + 1]));
        let hi = hex_value_exec(t[start + 2 * i]);
        let lo = hex_value_exec(t[start + 2 * i + 1]);
        r.push(hi * 16 + lo);
        i = i + 1;
    }
    assert(r@ =~= hex_decode(h));
    r
}

fn is_single_case(h: &[u8]) -> (r: bool)
    ensures
        r == single_case(h@),
{
    let mut upper = false;
    let mut lower = false;
    let mut i: usize = 0;
    while i < h.len()
        invariant
            0 <= i <= h@.len(),
            upper == exists|k: int| 0 <= k < i && is_upper_hex_letter(#[trigger] h@[k]),
            lower == exists|k: int| 0 <= k < i && is_lower_hex_letter(#[trigger] h@[k]),
        decreases h@.len() - i,
    {
        if 65 <= h[i] && h[i] <= 70 {
            upper = true;
        }
        if 97 <= h[i] && h[i] <= 102 {
            lower = true;
        }
        i = i + 1;
    }
    !(upper && lower)
}

fn lower_all_exec(h: &[u8]) -> (r: Vec<u8>)
    ensures
        r@ == lower_all(h@),
{
    let mut r: Vec<u8> = Vec::new();
    let mut i: usize = 0;
    while i < h.len()
        invariant
            0 <= i <= h@.len(),
            r@.len() == i,
            forall|k: int| 0 <= k < i ==> #[trigger] r@[k] == to_lower_hex(h@[k]),
        decreases h@.len() - i,
    {
        if 65 <= h[i] && h[i] <= 70 {
            r.push(h[i] + 32);
        } else {
            r.push(h[i]);
        }
        i = i + 1;
    }
    assert(r@ =~= lower_all(h@));
    r
}

fn checks_out(h: &[u8], digest: &[u8]) -> (r: bool)
    requires
        2 * digest@.len() >= h@.len(),
    ensures
        r == checksum_matches(h@, digest@),
{
    let mut i: usize = 0;
    while i < h.len()
        invariant
            0 <= i <= h@.len(),
            2 * digest@.len() >= h@.len(),
            forall|k: int|
                0 <= k < i && (is_upper_hex_letter(#[trigger] h@[k]) || is_lower_hex_letter(
                    h@[k],
                )) ==> (is_upper_hex_letter(h@[k]) <==> nibble(digest@, k) >= 8),
        decreases h@.len() - i,
    {
        let c = h[i];
        let n = if i % 2 == 0 {
            digest[i / 2] / 16
        } else {
            digest[i / 2] % 16
        };
        assert(n == nibble(digest@, i as int));
        let letter = (65 <= c && c <= 70) || (97 <= c && c <= 102);
        if letter && ((65 <= c && c <= 70) != (n >= 8)) {
            return false;
        }
        i = i + 1;
    }
    true
}

/// Parses the text of an address: `0x` and 40 hex digits. Text in one case
/// is taken as it is; mixed case must carry a correct checksum.
pub fn parse_address(text: &str) -> (r: Result<Address, IssueError>)
    ensures
        match r {
            Ok(a) => address_text_valid(text.spec_bytes()) && a@ == hex_decode(
                text.spec_bytes().subrange(2, 42),
            ),
            Err(e) => !address_text_valid(text.spec_bytes()) && e
                == IssueError::InvalidAddressFormat,
        },
{
    let t = text.as_bytes();
    if t.len() != 42 || t[0] != 48 || t[1] != 120 || !check_hex(t, 2) {
        return Err(IssueError::InvalidAddressFormat);
    }
    let h = slice_subrange(t, 2, 42);
    assert(h@ == t@.subrange(2, t@.len() as int));
    if !is_single_case(h) {
        let lowered = lower_all_exec(h);
        let digest = keccak256(lowered.as_slice());
        if !checks_out(h, digest.as_slice()) {
            return Err(IssueError::InvalidAddressFormat);
        }
    }
    let v = decode_hex(t, 2, 20);
    let mut bytes = [0u8; 20];
    let mut i: usize = 0;
    while i < 20
        invariant
            0 <= i <= 20,
            v@.len() == 20,
            forall|k: int| 0 <= k < i ==> #[trigger] bytes@[k] == v@[k],
        decreases 20 - i,
    {
        bytes[i] = v[i];
        i = i + 1;
    }
    assert(bytes@ =~= v@);
    Ok(Address { bytes })
}

/// Parses the text of a signature: `0x` and 130 hex digits, the last byte
/// being a valid recovery byte.
pub fn parse_signature(text: &str) -> (r: Result<Signature, IssueError>)
    ensures
        match r {
            Ok(s) => signature_text_valid(text.spec_bytes()) && s@ == hex_decode(
                text.spec_bytes().subrange(2, 132),
            ),
            Err(e) => !signature_text_valid(text.spec_bytes()) && e
                == IssueError::InvalidSignatureFormat,
        },
{
    let t = text.as_bytes();
    if t.len() != 132 || t[0] != 48 || t[1] != 120 || !check_hex(t, 2) {
        return Err(IssueError::InvalidSignatureFormat);
    }
    let v = decode_hex(t, 2, 65);
    let last = v[64];
    if !(last == 0 || last == 1 || last == 27 || last == 28) {
        return Err(IssueError::InvalidSignatureFormat);
    }
    let mut bytes = [0u8; 65];
    let mut i: usize = 0;
    while i < 65
        invariant
            0 <= i <= 65,
            v@.len() == 65,
            forall|k: int| 0 <= k < i ==> #[trigger] bytes@[k] == v@[k],
        decreases 65 - i,
    {
        bytes[i] = v[i];
        i = i + 1;
    }
    assert(bytes@ =~= v@);
    Ok(Signature { bytes })
}

} // verus!
