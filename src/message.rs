use vstd::prelude::*;
use crate::codec::{encode_hex_lower, hex_digit, hex_lower, nibble};
use crate::types::{Address, Principal};

verus! {

/// `Link 0x`
pub open spec fn link_prefix() -> Seq<u8> {
    seq![76u8, 105, 110, 107, 32, 48, 120]
}

/// ` to principal 0x`
pub open spec fn link_middle() -> Seq<u8> {
    seq![32u8, 116, 111, 32, 112, 114, 105, 110, 99, 105, 112, 97, 108, 32, 48, 120]
}

/// The message that the owner of address `a` signs to bind it to principal
/// `p`: `Link 0x<address hex> to principal 0x<principal hex>`.
pub open spec fn bind_message_spec(a: Seq<u8>, p: Seq<u8>) -> Seq<u8> {
    link_prefix() + hex_lower(a) + link_middle() + hex_lower(p)
}

/// Builds the message that binds address `a` to principal `p`.
pub fn bind_message(a: &Address, p: &Principal) -> (r: Vec<u8>)
    ensures
        r@ == bind_message_spec(a@, p@),
{
    let mut r: Vec<u8> = vec![76u8, 105, 110, 107, 32, 48, 120];
    let mut ah = encode_hex_lower(&a.bytes);
    let mut mid: Vec<u8> = vec![32u8, 116, 111, 32, 112, 114, 105, 110, 99, 105, 112, 97, 108, 32, 48, 120];
    let mut ph = encode_hex_lower(&p.bytes);
    r.append(&mut ah);
    r.append(&mut mid);
    r.append(&mut ph);
    assert(r@ =~= bind_message_spec(a@, p@));
    r
}

proof fn lemma_hex_digit_injective(x: u8, y: u8)
    requires
        x < 16,
        y < 16,
        hex_digit(x) == hex_digit(y),
    ensures
        x == y,
{
}

/// Lower-case hex encoding loses nothing.
pub proof fn lemma_hex_lower_injective(b1: Seq<u8>, b2: Seq<u8>)
    requires
        hex_lower(b1) == hex_lower(b2),
    ensures
        b1 == b2,
{
    assert(hex_lower(b1).len() == 2 * b1.len());
    assert(b1.len() == b2.len());
    assert forall|i: int| 0 <= i < b1.len() implies b1[i] == b2[i] by {
        assert(hex_lower(b1)[2 * i] == hex_lower(b2)[2 * i]);
        assert(hex_lower(b1)[2 * i + 1] == hex_lower(b2)[2 * i + 1]);
        assert(hex_lower(b1)[2 * i] == hex_digit(nibble(b1, 2 * i)));
        assert(hex_lower(b2)[2 * i] == hex_digit(nibble(b2, 2 * i)));
        assert(hex_lower(b1)[2 * i + 1] == hex_digit(nibble(b1, 2 * i + 1)));
        assert(hex_lower(b2)[2 * i + 1] == hex_digit(nibble(b2, 2 * i + 1)));
        assert(nibble(b1, 2 * i) == b1[i] / 16);
        assert(nibble(b2, 2 * i) == b2[i] / 16);
        assert(nibble(b1, 2 * i + 1) == b1[i] % 16);
        assert(nibble(b2, 2 * i + 1) == b2[i] % 16);
        lemma_hex_digit_injective(b1[i] / 16, b2[i] / 16);
        lemma_hex_digit_injective(b1[i] % 16, b2[i] % 16);
    }
    assert(b1 =~= b2);
}

/// Distinct address-principal pairs give distinct messages, so a signature
/// over one pair's message proves nothing about another pair.
pub proof fn lemma_bind_message_injective(a1: Seq<u8>, p1: Seq<u8>, a2: Seq<u8>, p2: Seq<u8>)
    requires
        a1.len() == 20,
        a2.len() == 20,
        p1.len() == 29,
        p2.len() == 29,
        bind_message_spec(a1, p1) == bind_message_spec(a2, p2),
    ensures
        a1 == a2,
        p1 == p2,
{
    let m1 = bind_message_spec(a1, p1);
    let m2 = bind_message_spec(a2, p2);
    assert(hex_lower(a1) =~= m1.subrange(7, 47));
    assert(hex_lower(a2) =~= m2.subrange(7, 47));
    assert(hex_lower(p1) =~= m1.subrange(63, 121));
    assert(hex_lower(p2) =~= m2.subrange(63, 121));
    lemma_hex_lower_injective(a1, a2);
    lemma_hex_lower_injective(p1, p2);
}

} // verus!
