//! Little-endian byte strings as numbers.

use vstd::prelude::*;

verus! {

/// The number whose little-endian byte string is `b`.
pub open spec fn le_value(b: Seq<u8>) -> nat
    decreases b.len(),
{
    if b.len() == 0 {
        0
    } else {
        b[0] as nat + 256 * le_value(b.drop_first())
    }
}

/// The `k` low-order bytes of `n`, least significant first.
pub open spec fn le_bytes(n: nat, k: nat) -> Seq<u8>
    decreases k,
{
    if k == 0 {
        Seq::empty()
    } else {
        seq![(n % 256) as u8] + le_bytes(n / 256, (k - 1) as nat)
    }
}

/// Reading back the bytes of a number that fits gives the number.
pub proof fn lemma_le_value_of_le_bytes(n: nat, k: nat)
    requires
        n < pow256(k),
    ensures
        le_bytes(n, k).len() == k,
        le_value(le_bytes(n, k)) == n,
    decreases k,
{
    if k > 0 {
        assert(n / 256 < pow256((k - 1) as nat));
        lemma_le_value_of_le_bytes(n / 256, (k - 1) as nat);
        let b = le_bytes(n, k);
        assert(b.drop_first() =~= le_bytes(n / 256, (k - 1) as nat));
    }
}

/// Writing out the number that a byte string stands for gives the byte string.
pub proof fn lemma_le_bytes_of_le_value(b: Seq<u8>)
    ensures
        le_bytes(le_value(b), b.len()) == b,
        le_value(b) < pow256(b.len()),
    decreases b.len(),
{
    if b.len() > 0 {
        let rest = b.drop_first();
        lemma_le_bytes_of_le_value(rest);
        assert(le_value(b) / 256 == le_value(rest));
        assert(le_value(b) % 256 == b[0] as nat);
        assert(seq![b[0]] + rest =~= b);
    }
}

/// How many numbers `k` bytes can hold.
pub open spec fn pow256(k: nat) -> nat
    decreases k,
{
    if k == 0 {
        1
    } else {
        256 * pow256((k - 1) as nat)
    }
}

/// The number in the first four bytes of `b`.
pub fn read_u32_le(b: &[u8], at: usize) -> (n: u32)
    requires
        at + 4 <= b@.len(),
    ensures
        n as nat == le_value(b@.subrange(at as int, at + 4)),
{
    let n: u32 = b[at] as u32 + (b[at + 1] as u32) * 0x100 + (b[at + 2] as u32) * 0x1_0000 + (b[at
        + 3] as u32) * 0x100_0000;
    proof {
        reveal_with_fuel(le_value, 5);
        let s = b@.subrange(at as int, at + 4);
        assert(s.drop_first()[0] == s[1]);
        assert(s.drop_first().drop_first()[0] == s[2]);
        assert(s.drop_first().drop_first().drop_first()[0] == s[3]);
    }
    n
}

/// The number in eight bytes of `b`, starting at `at`.
pub fn read_u64_le(b: &[u8], at: usize) -> (n: u64)
    requires
        at + 8 <= b@.len(),
    ensures
        n as nat == le_value(b@.subrange(at as int, at + 8)),
{
    assert(at + 8 <= b.len());
    let low: u32 = read_u32_le(b, at);
    let high: u32 = read_u32_le(b, at + 4);
    proof {
        let s = b@.subrange(at as int, at + 8);
        reveal_with_fuel(le_value, 5);
        assert(s.drop_first()[0] == s[1]);
        assert(s.drop_first().drop_first()[0] == s[2]);
        assert(s.drop_first().drop_first().drop_first()[0] == s[3]);
        let l = b@.subrange(at as int, at + 4);
        assert(l.drop_first()[0] == s[1]);
        assert(l.drop_first().drop_first()[0] == s[2]);
        assert(l.drop_first().drop_first().drop_first()[0] == s[3]);
        assert(s.drop_first().drop_first().drop_first().drop_first() =~= b@.subrange(
            at + 4,
            at + 8,
        ));
    }
    low as u64 + (high as u64) * 0x1_0000_0000
}

/// The eight bytes of `n`, least significant first.
pub fn u64_le_bytes(n: u64) -> (b: [u8; 8])
    ensures
        b@ == le_bytes(n as nat, 8),
{
    let b: [u8; 8] = [
        (n % 256) as u8,
        (n / 0x100 % 256) as u8,
        (n / 0x1_0000 % 256) as u8,
        (n / 0x100_0000 % 256) as u8,
        (n / 0x1_0000_0000 % 256) as u8,
        (n / 0x100_0000_0000 % 256) as u8,
        (n / 0x1_0000_0000_0000 % 256) as u8,
        (n / 0x100_0000_0000_0000 % 256) as u8,
    ];
    proof {
        reveal_with_fuel(le_bytes, 9);
        let m = n as nat;
        assert(m / 256 / 256 == m / 0x1_0000);
        assert(m / 0x1_0000 / 256 == m / 0x100_0000);
        assert(m / 0x100_0000 / 256 == m / 0x1_0000_0000);
        assert(m / 0x1_0000_0000 / 256 == m / 0x100_0000_0000);
        assert(m / 0x100_0000_0000 / 256 == m / 0x1_0000_0000_0000);
        assert(m / 0x1_0000_0000_0000 / 256 == m / 0x100_0000_0000_0000);
        assert(b@ =~= le_bytes(m, 8));
    }
    b
}

/// Appends the four low-order bytes of `n`, least significant first.
pub fn push_u32_le(out: &mut Vec<u8>, n: u64)
    ensures
        final(out)@ == old(out)@ + le_bytes(n as nat, 4),
{
    out.push((n % 256) as u8);
    out.push((n / 0x100 % 256) as u8);
    out.push((n / 0x1_0000 % 256) as u8);
    out.push((n / 0x100_0000 % 256) as u8);
    proof {
        reveal_with_fuel(le_bytes, 5);
        let m = n as nat;
        assert(m / 256 / 256 == m / 0x1_0000);
        assert(m / 0x1_0000 / 256 == m / 0x100_0000);
        assert(out@ =~= old(out)@ + le_bytes(m, 4));
    }
}

/// The low byte comes first: it is what is left of the number by 256, and the
/// bytes behind it write how often 256 goes into the number.
pub proof fn lemma_low_byte_first(b: Seq<u8>, n: nat, len: nat)
    ensures
        b.len() > 0 ==> le_value(b) % 256 == b[0] && le_value(b) / 256 == le_value(b.drop_first()),
        le_value(Seq::<u8>::empty()) == 0,
        le_bytes(n, len).len() == len,
        len > 0 ==> le_bytes(n, len)[0] == n % 256,
    decreases len,
{
    if len > 0 {
        lemma_low_byte_first(b, n / 256, (len - 1) as nat);
    }
}

} // verus!
