//! SipHash-2-4, the keyed hash behind every message authentication code (MAC)
//! on the wire.
//!
//! A MAC travels as eight bytes, least significant first.

use vstd::prelude::*;
use crate::bytes::{read_u64_le, u64_le_bytes};
use crate::text::push_hex;

verus! {

/// The four lanes of the hash.
pub struct SipState {
    pub v0: u64,
    pub v1: u64,
    pub v2: u64,
    pub v3: u64,
}

/// `x` with its bits moved `b` places up, those that leave the top coming back
/// at the bottom.
pub open spec fn rotl(x: u64, b: u64) -> u64 {
    (x << b) | (x >> ((64 - b) as u64))
}

/// One round.
pub open spec fn sip_round(s: SipState) -> SipState {
    let a0 = s.v0.wrapping_add(s.v1);
    let a1 = rotl(s.v1, 13) ^ a0;
    let b0 = rotl(a0, 32);
    let a2 = s.v2.wrapping_add(s.v3);
    let a3 = rotl(s.v3, 16) ^ a2;
    let c0 = b0.wrapping_add(a3);
    let c3 = rotl(a3, 21) ^ c0;
    let c2 = a2.wrapping_add(a1);
    let c1 = rotl(a1, 17) ^ c2;
    SipState { v0: c0, v1: c1, v2: rotl(c2, 32), v3: c3 }
}

/// The state a key starts from.
pub open spec fn sip_init(key: Seq<u8>) -> SipState {
    let k0 = crate::bytes::le_value(key.subrange(0, 8)) as u64;
    let k1 = crate::bytes::le_value(key.subrange(8, 16)) as u64;
    SipState {
        v0: k0 ^ 0x736f6d6570736575u64,
        v1: k1 ^ 0x646f72616e646f6du64,
        v2: k0 ^ 0x6c7967656e657261u64,
        v3: k1 ^ 0x7465646279746573u64,
    }
}

/// Two rounds that mix in one message word.
pub open spec fn sip_absorb(s: SipState, m: u64) -> SipState {
    let r = sip_round(sip_round(SipState { v0: s.v0, v1: s.v1, v2: s.v2, v3: s.v3 ^ m }));
    SipState { v0: r.v0 ^ m, v1: r.v1, v2: r.v2, v3: r.v3 }
}

/// The message followed by zero bytes up to one byte short of a whole number of
/// words, then the low byte of its length.
pub open spec fn sip_pad(msg: Seq<u8>) -> Seq<u8> {
    msg + Seq::new((7 - msg.len() % 8) as nat, |i: int| 0u8) + seq![(msg.len() % 256) as u8]
}

/// Word `i` of a padded message.
pub open spec fn sip_word(padded: Seq<u8>, i: int) -> u64 {
    crate::bytes::le_value(padded.subrange(8 * i, 8 * i + 8)) as u64
}

/// The state after the first `n` words.
pub open spec fn sip_absorb_words(s: SipState, padded: Seq<u8>, n: nat) -> SipState
    decreases n,
{
    if n == 0 {
        s
    } else {
        sip_absorb(sip_absorb_words(s, padded, (n - 1) as nat), sip_word(padded, n - 1))
    }
}

/// Four closing rounds, and the lanes folded into one word.
pub open spec fn sip_finish(s: SipState) -> u64 {
    let r = sip_round(
        sip_round(
            sip_round(sip_round(SipState { v0: s.v0, v1: s.v1, v2: s.v2 ^ 0xff, v3: s.v3 })),
        ),
    );
    r.v0 ^ r.v1 ^ r.v2 ^ r.v3
}

/// SipHash-2-4 of `msg` under a 16-byte key.
pub open spec fn siphash24_spec(key: Seq<u8>, msg: Seq<u8>) -> u64 {
    let padded = sip_pad(msg);
    sip_finish(sip_absorb_words(sip_init(key), padded, padded.len() / 8))
}

/// `x` rotated left by `b` bits.
fn rotl64(x: u64, b: u64) -> (r: u64)
    requires
        0 < b < 64,
    ensures
        r == rotl(x, b),
{
    (x << b) | (x >> (64 - b))
}

fn sipround(s: SipState) -> (r: SipState)
    ensures
        r == sip_round(s),
{
    let mut v0: u64 = s.v0;
    let mut v1: u64 = s.v1;
    let mut v2: u64 = s.v2;
    let mut v3: u64 = s.v3;
    v0 = v0.wrapping_add(v1);
    v1 = rotl64(v1, 13);
    v1 = v1 ^ v0;
    v0 = rotl64(v0, 32);
    v2 = v2.wrapping_add(v3);
    v3 = rotl64(v3, 16);
    v3 = v3 ^ v2;
    v0 = v0.wrapping_add(v3);
    v3 = rotl64(v3, 21);
    v3 = v3 ^ v0;
    v2 = v2.wrapping_add(v1);
    v1 = rotl64(v1, 17);
    v1 = v1 ^ v2;
    v2 = rotl64(v2, 32);
    SipState { v0, v1, v2, v3 }
}

fn sip_absorb_word(s: SipState, m: u64) -> (r: SipState)
    ensures
        r == sip_absorb(s, m),
{
    let r = sipround(sipround(SipState { v0: s.v0, v1: s.v1, v2: s.v2, v3: s.v3 ^ m }));
    SipState { v0: r.v0 ^ m, v1: r.v1, v2: r.v2, v3: r.v3 }
}

/// SipHash-2-4 of `msg` under `key`.
pub fn siphash24(key: &[u8; 16], msg: &[u8]) -> (mac: u64)
    ensures
        mac == siphash24_spec(key@, msg@),
{
    let ghost padded = sip_pad(msg@);
    let key_bytes: &[u8] = key;
    let k0: u64 = read_u64_le(key_bytes, 0);
    let k1: u64 = read_u64_le(key_bytes, 8);
    let mut s = SipState {
        v0: k0 ^ 0x736f6d6570736575u64,
        v1: k1 ^ 0x646f72616e646f6du64,
        v2: k0 ^ 0x6c7967656e657261u64,
        v3: k1 ^ 0x7465646279746573u64,
    };
    assert(s == sip_init(key@));
    let blocks: usize = msg.len() / 8;
    let mut i: usize = 0;
    while i < blocks
        invariant
            0 <= i <= blocks,
            blocks == msg.len() / 8,
            msg.len() == msg@.len(),
            padded == sip_pad(msg@),
            s == sip_absorb_words(sip_init(key@), padded, i as nat),
        decreases blocks - i,
    {
        let m: u64 = read_u64_le(msg, i * 8);
        assert(msg@.subrange(i * 8, i * 8 + 8) =~= padded.subrange(8 * i, 8 * i + 8));
        s = sip_absorb_word(s, m);
        i = i + 1;
    }
    let mut last: [u8; 8] = [0u8; 8];
    let tail: usize = msg.len() - blocks * 8;
    let mut j: usize = 0;
    while j < tail
        invariant
            0 <= j <= tail < 8,
            blocks == msg.len() / 8,
            msg.len() == msg@.len(),
            tail == msg@.len() - blocks * 8,
            forall|k: int| 0 <= k < j ==> last@[k] == msg@[blocks * 8 + k],
            forall|k: int| j <= k < 8 ==> last@[k] == 0,
        decreases tail - j,
    {
        last[j] = msg[blocks * 8 + j];
        j = j + 1;
    }
    last[7] = (msg.len() % 256) as u8;
    let m: u64 = read_u64_le(&last, 0);
    proof {
        assert(padded.len() == 8 * (blocks + 1));
        assert(last@.subrange(0, 8) =~= padded.subrange(8 * blocks, 8 * blocks + 8));
    }
    s = sip_absorb_word(s, m);
    assert(s == sip_absorb_words(sip_init(key@), padded, (blocks + 1) as nat));
    s = sipround(
        sipround(
            sipround(sipround(SipState { v0: s.v0, v1: s.v1, v2: s.v2 ^ 0xff, v3: s.v3 })),
        ),
    );
    s.v0 ^ s.v1 ^ s.v2 ^ s.v3
}

/// The MAC as it travels: eight bytes, least significant first.
pub fn mac_to_le_bytes(mac: u64) -> (b: [u8; 8])
    ensures
        b@ == crate::bytes::le_bytes(mac as nat, 8),
{
    u64_le_bytes(mac)
}

/// The MAC as it travels, in hexadecimal: sixteen characters.
pub open spec fn mac_text(mac: u64) -> Seq<char> {
    crate::text::hex_text(crate::bytes::le_bytes(mac as nat, 8))
}

/// The MAC as it travels, in lowercase hexadecimal.
pub fn mac_to_hex(mac: u64) -> (s: String)
    ensures
        s@ == mac_text(mac),
{
    let b = mac_to_le_bytes(mac);
    let mut s = String::new();
    push_hex(&mut s, &b);
    assert(s@ =~= mac_text(mac));
    s
}

// ---------- laws ----------

/// What is hashed begins with the whole message, however long it is, ends with
/// the low byte of its length, and has nothing but zeros between them.
pub proof fn lemma_whole_message_is_hashed(key: Seq<u8>, msg: Seq<u8>)
    ensures
        ({
            let p = sip_pad(msg);
            &&& p.len() % 8 == 0
            &&& msg.len() < p.len() <= msg.len() + 8
            &&& p.take(msg.len() as int) == msg
            &&& p.last() == msg.len() % 256
            &&& forall|i: int| msg.len() <= i < p.len() - 1 ==> #[trigger] p[i] == 0
            &&& siphash24_spec(key, msg) == sip_finish(
                sip_absorb_words(sip_init(key), p, msg.len() / 8 + 1),
            )
        }),
{
    let p = sip_pad(msg);
    assert(p.take(msg.len() as int) =~= msg);
    assert(p.len() == msg.len() + (7 - msg.len() % 8) + 1);
    assert(p.len() / 8 == msg.len() / 8 + 1);
}

/// Words are mixed in one after the other, and each of them is: to hash what
/// stands behind whole words is to go on from the state that those have left.
pub proof fn lemma_hashing_goes_on(s: SipState, a: Seq<u8>, b: Seq<u8>, n: nat)
    requires
        a.len() % 8 == 0,
        8 * n <= b.len(),
    ensures
        sip_absorb_words(s, a + b, a.len() / 8 + n) == sip_absorb_words(
            sip_absorb_words(s, a, a.len() / 8),
            b,
            n,
        ),
        n > 0 ==> sip_absorb_words(s, b, n) == sip_absorb(
            sip_absorb_words(s, b, (n - 1) as nat),
            crate::bytes::le_value(b.subrange(8 * n - 8, 8 * n as int)) as u64,
        ),
    decreases n,
{
    let k = a.len() / 8;
    if n == 0 {
        lemma_words_behind_do_not_count(s, a, b, k);
    } else {
        lemma_hashing_goes_on(s, a, b, (n - 1) as nat);
        let i: int = k + n - 1;
        assert((a + b).subrange(8 * i, 8 * i + 8) =~= b.subrange(8 * (n - 1), 8 * (n - 1) + 8));
    }
}

proof fn lemma_words_behind_do_not_count(s: SipState, a: Seq<u8>, b: Seq<u8>, n: nat)
    requires
        8 * n <= a.len(),
    ensures
        sip_absorb_words(s, a + b, n) == sip_absorb_words(s, a, n),
    decreases n,
{
    if n > 0 {
        lemma_words_behind_do_not_count(s, a, b, (n - 1) as nat);
        let i: int = n - 1;
        assert((a + b).subrange(8 * i, 8 * i + 8) =~= a.subrange(8 * i, 8 * i + 8));
    }
}

/// Rotating moves bits and loses none: rotating on by the rest of the word gives
/// the word back.
pub proof fn lemma_rotating_loses_nothing(x: u64)
    ensures
        rotl(rotl(x, 13), 51) == x,
        rotl(rotl(x, 16), 48) == x,
        rotl(rotl(x, 17), 47) == x,
        rotl(rotl(x, 21), 43) == x,
        rotl(rotl(x, 32), 32) == x,
{
    assert(((((x << 13u64) | (x >> 51u64)) << 51u64) | (((x << 13u64) | (x >> 51u64)) >> 13u64))
        == x) by (bit_vector);
    assert(((((x << 16u64) | (x >> 48u64)) << 48u64) | (((x << 16u64) | (x >> 48u64)) >> 16u64))
        == x) by (bit_vector);
    assert(((((x << 17u64) | (x >> 47u64)) << 47u64) | (((x << 17u64) | (x >> 47u64)) >> 17u64))
        == x) by (bit_vector);
    assert(((((x << 21u64) | (x >> 43u64)) << 43u64) | (((x << 21u64) | (x >> 43u64)) >> 21u64))
        == x) by (bit_vector);
    assert(((((x << 32u64) | (x >> 32u64)) << 32u64) | (((x << 32u64) | (x >> 32u64)) >> 32u64))
        == x) by (bit_vector);
}

} // verus!
