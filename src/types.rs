use vstd::prelude::*;

verus! {

/// Number of bytes of a principal identifier.
pub const PRINCIPAL_LEN: usize = 29;

/// Number of bytes of an Ethereum address.
pub const ADDRESS_LEN: usize = 20;

/// Number of bytes of a recoverable signature: `r`, `s` and the recovery byte `v`.
pub const SIGNATURE_LEN: usize = 65;

/// An authenticated caller identity.
#[derive(Clone, Copy, Debug)]
pub struct Principal {
    pub bytes: [u8; 29],
}

impl View for Principal {
    type V = Seq<u8>;

    open spec fn view(&self) -> Seq<u8> {
        self.bytes@
    }
}

/// The canonical binary form of an externally-owned account.
#[derive(Clone, Copy, Debug)]
pub struct Address {
    pub bytes: [u8; 20],
}

impl View for Address {
    type V = Seq<u8>;

    open spec fn view(&self) -> Seq<u8> {
        self.bytes@
    }
}

/// A recoverable ECDSA signature: 32 bytes `r`, 32 bytes `s`, one byte `v`.
#[derive(Clone, Copy, Debug)]
pub struct Signature {
    pub bytes: [u8; 65],
}

impl View for Signature {
    type V = Seq<u8>;

    open spec fn view(&self) -> Seq<u8> {
        self.bytes@
    }
}

/// Which existing entry made a registration impossible.
#[derive(Clone, Copy, Debug, PartialEq, Eq, Structural)]
pub enum RegisteredBy {
    Principal,
    Address,
}

/// Every way an issuance call can fail. None leaves any state behind.
#[derive(Clone, Copy, Debug, PartialEq, Eq, Structural)]
pub enum IssueError {
    NotAuthenticated,
    AlreadyRegistered(RegisteredBy),
    InvalidAddressFormat,
    InvalidSignatureFormat,
    RecoveryFailed,
    SignatureMismatch,
    OracleUnavailable,
}

/// Compares two byte slices.
pub fn bytes_equal(a: &[u8], b: &[u8]) -> (r: bool)
    ensures
        r == (a@ == b@),
{
    if a.len() != b.len() {
        return false;
    }
    let mut i: usize = 0;
    while i < a.len()
        invariant
            a@.len() == b@.len(),
            0 <= i <= a@.len(),
            a@.subrange(0, i as int) == b@.subrange(0, i as int),
        decreases a@.len() - i,
    {
        if a[i] != b[i] {
            assert(a@[i as int] != b@[i as int]);
            return false;
        }
        assert(a@.subrange(0, i + 1) == a@.subrange(0, i as int).push(a@[i as int]));
        assert(b@.subrange(0, i + 1) == b@.subrange(0, i as int).push(b@[i as int]));
        i = i + 1;
    }
    assert(a@ == a@.subrange(0, a@.len() as int));
    assert(b@ == b@.subrange(0, b@.len() as int));
    true
}

} // verus!
