use vstd::prelude::*;
use crate::hash::{keccak256, keccak256_of};
use crate::types::{Address, IssueError, Signature};

verus! {

/// The uncompressed SEC1 encoding of the public key that ECDSA over secp256k1
/// recovers from a 32-byte prehash, the 64 bytes `r || s` and a recovery id,
/// when recovery succeeds.
pub uninterp spec fn recovered_key_of(prehash: Seq<u8>, rs: Seq<u8>, recid: u8) -> Option<Seq<u8>>;

/// Relies on k256's `VerifyingKey::recover_from_prehash` (with the
/// conversions `Signature::from_slice`, `RecoveryId::from_byte` and
/// `to_encoded_point(false)` around it): the recovered key, or none where the
/// signature or the id is out of range or no key verifies it.
#[verifier::external_body]
fn recover_key(prehash: &[u8], rs: &[u8], recid: u8) -> (r: Option<Vec<u8>>)
    ensures
        match r {
            Some(k) => recovered_key_of(prehash@, rs@, recid) == Some(k@),
            None => recovered_key_of(prehash@, rs@, recid) is None,
        },
{
    let sig = k256::ecdsa::Signature::from_slice(rs).ok()?;
    let id = k256::ecdsa::RecoveryId::from_byte(recid)?;
    let key = k256::ecdsa::VerifyingKey::recover_from_prehash(prehash, &sig, id).ok()?;
    Some(key.to_encoded_point(false).as_bytes().to_vec())
}

/// The decimal digits of `n`, most significant first.
pub open spec fn decimal(n: nat) -> Seq<u8>
    decreases n,
{
    if n < 10 {
        seq![(48 + n) as u8]
    } else {
        decimal(n / 10).push((48 + n % 10) as u8)
    }
}

/// The text that a wallet hashes when it signs `m` as a personal message:
/// `\x19Ethereum Signed Message:\n`, the length of `m` in decimal, then `m`.
pub open spec fn personal_message(m: Seq<u8>) -> Seq<u8> {
    seq![25u8, 69, 116, 104, 101, 114, 101, 117, 109, 32, 83, 105, 103, 110, 101, 100, 32, 77,
        101, 115, 115, 97, 103, 101, 58, 10] + decimal(m.len()) + m
}

/// The recovery id that the byte `v` of a signature stands for.
pub open spec fn recovery_id(v: u8) -> u8 {
    if v >= 27 {
        (v - 27) as u8
    } else {
        v
    }
}

/// The address of an uncompressed SEC1 public key: the last 20 bytes of the
/// digest of its 64 coordinate bytes.
pub open spec fn key_address(k: Seq<u8>) -> Option<Seq<u8>> {
    if k.len() == 65 && k[0] == 4 {
        Some(keccak256_of(k.subrange(1, 65)).subrange(12, 32))
    } else {
        None
    }
}

/// The address that signed `m` with signature `sig`, if one can be recovered.
pub open spec fn recovered_address(m: Seq<u8>, sig: Seq<u8>) -> Option<Seq<u8>> {
    match recovered_key_of(
        keccak256_of(personal_message(m)),
        sig.subrange(0, 64),
        recovery_id(sig[64]),
    ) {
        Some(k) => key_address(k),
        None => None,
    }
}

fn decimal_exec(n: usize) -> (r: Vec<u8>)
    ensures
        r@ == decimal(n as nat),
    decreases n,
{
    if n < 10 {
        vec![48 + n as u8]
    } else {
        let mut r = decimal_exec(n / 10);
        r.push(48 + (n % 10) as u8);
        r
    }
}

fn personal_message_exec(m: &[u8]) -> (r: Vec<u8>)
    ensures
        r@ == personal_message(m@),
{
    let mut r: Vec<u8> = vec![25u8, 69, 116, 104, 101, 114, 101, 117, 109, 32, 83, 105, 103, 110,
        101, 100, 32, 77, 101, 115, 115, 97, 103, 101, 58, 10];
    let mut digits = decimal_exec(m.len());
    r.append(&mut digits);
    let mut i: usize = 0;
    let ghost head = r@;
    while i < m.len()
        invariant
            0 <= i <= m@.len(),
            r@ == head + m@.subrange(0, i as int),
        decreases m@.len() - i,
    {
        r.push(m[i]);
        assert(m@.subrange(0, i + 1) == m@.subrange(0, i as int).push(m@[i as int]));
        i = i + 1;
    }
    assert(m@.subrange(0, m@.len() as int) == m@);
    r
}

/// Recovers the address whose key produced `sig` over the personal message `m`.
pub fn recover_address(m: &[u8], sig: &Signature) -> (r: Result<Address, IssueError>)
    ensures
        match r {
            Ok(a) => recovered_address(m@, sig@) == Some(a@),
            Err(e) => recovered_address(m@, sig@) is None && e == IssueError::RecoveryFailed,
        },
{
    let text = personal_message_exec(m);
    let prehash = keccak256(text.as_slice());
    let v = sig.bytes[64];
    let recid = if v >= 27 {
        v - 27
    } else {
        v
    };
    let rs = vstd::slice::slice_subrange(sig.bytes.as_slice(), 0, 64);
    let key = match recover_key(prehash.as_slice(), rs, recid) {
        Some(k) => k,
        None => return Err(IssueError::RecoveryFailed),
    };
    if key.len() != 65 || key[0] != 4 {
        return Err(IssueError::RecoveryFailed);
    }
    let coords = vstd::slice::slice_subrange(key.as_slice(), 1, 65);
    let digest = keccak256(coords);
    let mut bytes = [0u8; 20];
    let mut i: usize = 0;
    while i < 20
        invariant
            0 <= i <= 20,
            digest@.len() == 32,
            forall|k: int| 0 <= k < i ==> #[trigger] bytes@[k] == digest@[k + 12],
        decreases 20 - i,
    {
        bytes[i] = digest[i + 12];
        i = i + 1;
    }
    assert(bytes@ =~= digest@.subrange(12, 32));
    Ok(Address { bytes })
}

} // verus!
