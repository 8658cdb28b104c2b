//! The 14-bit checksum of a message body.
//!
//! The checksum is the state of a 14-bit shift register with the polynomial
//! `0x6757` after the 77 bits of the body, first bit first, and 18 zero bits
//! have been fed to it.
use super::{MessageBits, MessageBitsWithCRC, BODY_BITS, CRC_BITS};
use crate::bits::{
    bits_value, lemma_bits_of_bits_value, lemma_bits_value_bound, lemma_value_bits_len,
    lemma_value_bits_roundtrip, value_bits, zero_bits,
};
use vstd::arithmetic::power2::lemma2_to64;
use vstd::prelude::*;

verus! {

/// The polynomial of the checksum, with its leading term.
pub const POLY: u16 = 0x6757;

/// The register after one more bit: the bit is added to the lowest place,
/// the register moves up by one place, and the polynomial is added if a
/// term left the register at the top.
pub open spec fn crc_step(state: u32, bit: bool) -> u32 {
    let x = if bit {
        state ^ 1
    } else {
        state
    };
    if x & 0x2000 != 0 {
        ((x << 1) ^ 0x6757) & 0x3fff
    } else {
        (x << 1) & 0x3fff
    }
}

/// The register after a string of bits.
pub open spec fn crc_feed(state: u32, bits: Seq<bool>) -> u32
    decreases bits.len(),
{
    if bits.len() == 0 {
        state
    } else {
        crc_step(crc_feed(state, bits.drop_last()), bits.last())
    }
}

/// The checksum of a message body.
pub open spec fn spec_calc_crc(body: Seq<bool>) -> u32 {
    crc_feed(0, body + zero_bits(18))
}

/// A body followed by its checksum.
pub open spec fn spec_add_crc(body: Seq<bool>) -> Seq<bool> {
    body + value_bits(spec_calc_crc(body) as nat, 14)
}

/// Whether the last 14 of 91 bits are the checksum of the first 77.
pub open spec fn spec_check_crc(bits: Seq<bool>) -> bool {
    spec_calc_crc(bits.subrange(0, 77)) == bits_value(bits.subrange(77, 91))
}

/// Two strings of bits added place by place.
pub open spec fn seq_xor(a: Seq<bool>, b: Seq<bool>) -> Seq<bool> {
    Seq::new(a.len(), |i: int| a[i] != b[i])
}

/// A string of `n` zero bits but for a one at place `i`.
pub open spec fn unit_bits(n: nat, i: int) -> Seq<bool> {
    Seq::new(n, |k: int| k == i)
}

proof fn lemma_step(a: u32, b: u32, x: bool, y: bool)
    by (bit_vector)
    requires
        a < 0x4000,
        b < 0x4000,
    ensures
        crc_step(a, x) < 0x4000,
        crc_step(a ^ b, x != y) == crc_step(a, x) ^ crc_step(b, y),
        a ^ b < 0x4000,
        crc_step(0, false) == 0,
        crc_step(0, true) != 0,
        a != 0 ==> crc_step(a, false) != 0,
        (a ^ b == a) ==> b == 0,
{
}

proof fn lemma_feed_bound(state: u32, bits: Seq<bool>)
    requires
        state < 0x4000,
    ensures
        crc_feed(state, bits) < 0x4000,
    decreases bits.len(),
{
    if bits.len() > 0 {
        lemma_feed_bound(state, bits.drop_last());
        lemma_step(crc_feed(state, bits.drop_last()), 0, bits.last(), false);
    }
}

/// The checksum is below 2^14.
pub proof fn lemma_crc_bound(body: Seq<bool>)
    ensures
        spec_calc_crc(body) < 0x4000,
{
    lemma_feed_bound(0, body + zero_bits(18));
}

/// The register is linear: the register after the sum of two strings is
/// the sum of the registers after each.
proof fn lemma_feed_linear(a: Seq<bool>, b: Seq<bool>)
    requires
        a.len() == b.len(),
    ensures
        crc_feed(0, seq_xor(a, b)) == crc_feed(0, a) ^ crc_feed(0, b),
    decreases a.len(),
{
    if a.len() == 0 {
        assert(0u32 ^ 0u32 == 0u32) by (bit_vector);
    } else {
        let c = seq_xor(a, b);
        lemma_feed_linear(a.drop_last(), b.drop_last());
        assert(c.drop_last() =~= seq_xor(a.drop_last(), b.drop_last()));
        lemma_feed_bound(0, a.drop_last());
        lemma_feed_bound(0, b.drop_last());
        lemma_step(
            crc_feed(0, a.drop_last()),
            crc_feed(0, b.drop_last()),
            a.last(),
            b.last(),
        );
    }
}

/// A string with a single one leaves the register non-zero.
proof fn lemma_feed_unit(n: nat, i: int)
    requires
        0 <= i < n,
    ensures
        crc_feed(0, unit_bits(n, i)) != 0,
        crc_feed(0, unit_bits(n, i)) < 0x4000,
    decreases n,
{
    let u = unit_bits(n, i);
    lemma_feed_bound(0, u);
    if i == n - 1 {
        lemma_feed_zero((n - 1) as nat);
        assert(u.drop_last() =~= zero_bits((n - 1) as nat));
        lemma_step(0, 0, true, false);
    } else {
        lemma_feed_unit((n - 1) as nat, i);
        assert(u.drop_last() =~= unit_bits((n - 1) as nat, i));
        lemma_step(crc_feed(0, u.drop_last()), 0, false, false);
    }
}

proof fn lemma_feed_zero(n: nat)
    ensures
        crc_feed(0, zero_bits(n)) == 0,
    decreases n,
{
    if n > 0 {
        lemma_feed_zero((n - 1) as nat);
        assert(zero_bits(n).drop_last() =~= zero_bits((n - 1) as nat));
        lemma_step(0, 0, false, false);
    }
}

/// A body with its checksum passes the check.
pub proof fn lemma_check_add(body: Seq<bool>)
    requires
        body.len() == 77,
    ensures
        spec_check_crc(spec_add_crc(body)),
{
    let crc = spec_calc_crc(body);
    let bits = spec_add_crc(body);
    lemma_crc_bound(body);
    lemma2_to64();
    lemma_value_bits_len(crc as nat, 14);
    lemma_value_bits_roundtrip(crc as nat, 14);
    assert(bits.subrange(0, 77) =~= body);
    assert(bits.subrange(77, 91) =~= value_bits(crc as nat, 14));
}

/// Changing any single bit of a body with a good checksum makes the check
/// fail.
pub proof fn lemma_flip_detected(bits: Seq<bool>, i: int)
    requires
        bits.len() == 91,
        spec_check_crc(bits),
        0 <= i < 91,
    ensures
        !spec_check_crc(bits.update(i, !bits[i])),
{
    let flipped = bits.update(i, !bits[i]);
    let body = bits.subrange(0, 77);
    let sum = bits.subrange(77, 91);
    if i < 77 {
        let stream = body + zero_bits(18);
        let unit = unit_bits(95, i);
        assert(flipped.subrange(77, 91) =~= sum);
        assert(flipped.subrange(0, 77) + zero_bits(18) =~= seq_xor(stream, unit));
        lemma_feed_linear(stream, unit);
        lemma_feed_unit(95, i);
        lemma_feed_bound(0, stream);
        lemma_step(crc_feed(0, stream), crc_feed(0, unit), false, false);
    } else {
        assert(flipped.subrange(0, 77) =~= body);
        let sum2 = flipped.subrange(77, 91);
        assert(sum2[i - 77] != sum[i - 77]);
        if bits_value(sum2) == bits_value(sum) {
            lemma_bits_of_bits_value(sum);
            lemma_bits_of_bits_value(sum2);
        }
    }
}

/// Computes the checksum of a body; see [`spec_calc_crc`].
pub fn calc_crc(data: &MessageBits) -> (crc: u16)
    ensures
        crc == spec_calc_crc(data@),
        crc < 0x4000,
{
    data.witness();
    let ghost stream = data@ + zero_bits(18);
    let mut crc: u32 = 0;
    let mut i: usize = 0;
    proof {
        assert(stream.subrange(0, 0) =~= Seq::<bool>::empty());
    }
    while i < 95
        invariant
            i <= 95,
            data@.len() == 77,
            stream == data@ + zero_bits(18),
            crc == crc_feed(0, stream.subrange(0, i as int)),
            crc < 0x4000,
        decreases 95 - i,
    {
        let bit = i < BODY_BITS && data.get(i);
        proof {
            let next = stream.subrange(0, i + 1);
            assert(next.drop_last() =~= stream.subrange(0, i as int));
            assert(next.last() == bit);
            lemma_step(crc, 0, bit, false);
        }
        let x = if bit {
            crc ^ 1
        } else {
            crc
        };
        if x & 0x2000 != 0 {
            crc = ((x << 1) ^ POLY as u32) & 0x3fff;
        } else {
            crc = (x << 1) & 0x3fff;
        }
        i += 1;
    }
    proof {
        assert(stream.subrange(0, 95) =~= stream);
    }
    crc as u16
}

/// Appends its checksum to a body.
pub fn add_crc(data: MessageBits) -> (ret: MessageBitsWithCRC)
    ensures
        ret@ == spec_add_crc(data@),
        spec_check_crc(ret@),
{
    data.witness();
    let crc = calc_crc(&data);
    let mut ret = data.with_size::<91, 3>();
    ret.set_slice(BODY_BITS, CRC_BITS, crc as u32);
    proof {
        lemma_value_bits_len(crc as nat, 14);
        assert(ret@ =~= spec_add_crc(data@));
        lemma_check_add(data@);
    }
    ret
}

/// Checks the checksum at the end of a body.
pub fn check_crc(data: &MessageBitsWithCRC) -> (ok: bool)
    ensures
        ok == spec_check_crc(data@),
{
    data.witness();
    let body = data.with_size::<77, 3>();
    proof {
        assert(body@ =~= data@.subrange(0, 77));
        lemma_bits_value_bound(data@.subrange(77, 91));
        lemma2_to64();
    }
    calc_crc(&body) == data.slice(BODY_BITS, CRC_BITS) as u16
}

} // verus!
