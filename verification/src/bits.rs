//! Fixed-capacity packed bit vectors.
//!
//! A [`Bitset`] stores `SIZE` bits most-significant-bit first inside 32-bit
//! words: bit index 0 is bit 31 of word 0. Its mathematical model is a
//! `Seq<bool>` of length `SIZE`; contiguous fields are read and written as
//! unsigned integers in big-endian bit order.
use vstd::arithmetic::power2::{lemma_pow2_pos, lemma_pow2_unfold, pow2};
use vstd::prelude::*;

verus! {

/// The unsigned integer whose binary digits, most significant first, are `s`.
pub open spec fn bits_value(s: Seq<bool>) -> nat
    decreases s.len(),
{
    if s.len() == 0 {
        0
    } else {
        2 * bits_value(s.drop_last()) + (if s.last() {
            1nat
        } else {
            0nat
        })
    }
}

/// The `n` low binary digits of `v`, most significant first.
pub open spec fn value_bits(v: nat, n: nat) -> Seq<bool>
    decreases n,
{
    if n == 0 {
        Seq::empty()
    } else {
        value_bits(v / 2, (n - 1) as nat).push(v % 2 == 1)
    }
}

/// Bit `p` of the word `w`, counting from the most significant bit.
pub open spec fn word_bit(w: u32, p: int) -> bool {
    (w >> ((31 - p) as u32)) & 1 == 1
}

/// The first `n` bits held by the words `w`, in storage order.
pub open spec fn words_bits(w: Seq<u32>, n: nat) -> Seq<bool> {
    Seq::new(n, |i: int| word_bit(w[i / 32], i % 32))
}

/// Number of 32-bit words needed to hold `size` bits.
pub open spec fn spec_num_words(size: int) -> int {
    (size + 31) / 32
}

/// A value has as many digits as were asked for.
pub proof fn lemma_value_bits_len(v: nat, n: nat)
    ensures
        value_bits(v, n).len() == n,
    decreases n,
{
    if n > 0 {
        lemma_value_bits_len(v / 2, (n - 1) as nat);
    }
}

/// Reading back the digits of `v` gives `v` reduced modulo `2^n`.
pub proof fn lemma_bits_value_of_value_bits(v: nat, n: nat)
    ensures
        bits_value(value_bits(v, n)) == v % pow2(n),
    decreases n,
{
    lemma_pow2_pos(n);
    if n == 0 {
        assert(pow2(0) == 1) by {
            vstd::arithmetic::power2::lemma2_to64();
        }
    } else {
        let m = (n - 1) as nat;
        let s = value_bits(v, n);
        lemma_value_bits_len(v / 2, m);
        lemma_bits_value_of_value_bits(v / 2, m);
        assert(s.drop_last() =~= value_bits(v / 2, m));
        assert(s.last() == (v % 2 == 1));
        lemma_pow2_unfold(n);
        lemma_pow2_pos(m);
        let p = pow2(m) as int;
        assert(pow2(n) == 2 * p);
        lemma_mod_double(v as int, p);
    }
}

proof fn lemma_mod_double(v: int, p: int)
    requires
        v >= 0,
        p > 0,
    ensures
        v % (2 * p) == 2 * ((v / 2) % p) + v % 2,
{
    let q = (v / 2) / p;
    let r = (v / 2) % p;
    assert(v / 2 == q * p + r) by {
        vstd::arithmetic::div_mod::lemma_fundamental_div_mod(v / 2, p);
        assert(p * q == q * p) by (nonlinear_arith);
    }
    assert(0 <= r < p) by {
        vstd::arithmetic::div_mod::lemma_mod_bound(v / 2, p);
    }
    let low = 2 * r + v % 2;
    assert(v == q * (2 * p) + low) by (nonlinear_arith)
        requires
            v == 2 * (v / 2) + v % 2,
            v / 2 == q * p + r,
            low == 2 * r + v % 2,
    ;
    assert(0 <= low < 2 * p);
    vstd::arithmetic::div_mod::lemma_fundamental_div_mod_converse(v, 2 * p, q, low);
}

/// A value that fits in `n` bits is recovered exactly from its digits.
pub proof fn lemma_value_bits_roundtrip(v: nat, n: nat)
    requires
        v < pow2(n),
    ensures
        bits_value(value_bits(v, n)) == v,
{
    lemma_bits_value_of_value_bits(v, n);
    vstd::arithmetic::div_mod::lemma_small_mod(v, pow2(n));
}

/// The value of `n` bits is below `2^n`.
pub proof fn lemma_bits_value_bound(s: Seq<bool>)
    ensures
        bits_value(s) < pow2(s.len()),
    decreases s.len(),
{
    if s.len() == 0 {
        assert(pow2(0) == 1) by {
            vstd::arithmetic::power2::lemma2_to64();
        }
    } else {
        lemma_bits_value_bound(s.drop_last());
        lemma_pow2_unfold(s.len());
    }
}

/// Digits are recovered exactly from their value.
pub proof fn lemma_bits_of_bits_value(s: Seq<bool>)
    ensures
        value_bits(bits_value(s), s.len()) == s,
    decreases s.len(),
{
    if s.len() > 0 {
        let t = s.drop_last();
        lemma_bits_of_bits_value(t);
        let v = bits_value(s);
        assert(v / 2 == bits_value(t));
        assert((v % 2 == 1) == s.last());
        assert(value_bits(v, s.len()) =~= s);
    } else {
        assert(value_bits(bits_value(s), 0) =~= s);
    }
}

/// `n` zero bits.
pub open spec fn zero_bits(n: nat) -> Seq<bool> {
    Seq::new(n, |i: int| false)
}

/// The digits of zero are zero bits.
pub proof fn lemma_value_bits_zero(n: nat)
    ensures
        value_bits(0, n) == zero_bits(n),
    decreases n,
{
    if n > 0 {
        lemma_value_bits_zero((n - 1) as nat);
        lemma_value_bits_len(0, (n - 1) as nat);
    }
    assert(value_bits(0, n) =~= zero_bits(n));
}

/// Only zero bits have the value zero.
pub proof fn lemma_bits_value_zero(s: Seq<bool>)
    requires
        bits_value(s) == 0,
    ensures
        s == zero_bits(s.len()),
    decreases s.len(),
{
    if s.len() > 0 {
        let t = s.drop_last();
        lemma_bits_value_zero(t);
        assert forall|i: int| 0 <= i < s.len() implies s[i] == false by {
            if i < t.len() {
                assert(t[i] == s[i]);
                assert(zero_bits(t.len())[i] == false);
            }
        }
    }
    assert(s =~= zero_bits(s.len()));
}

/// The value of two bit strings in a row.
pub proof fn lemma_bits_value_concat(a: Seq<bool>, b: Seq<bool>)
    ensures
        bits_value(a + b) == bits_value(a) * pow2(b.len()) + bits_value(b),
    decreases b.len(),
{
    if b.len() == 0 {
        assert(a + b =~= a);
        assert(pow2(0) == 1) by {
            vstd::arithmetic::power2::lemma2_to64();
        }
    } else {
        let t = b.drop_last();
        lemma_bits_value_concat(a, t);
        assert((a + b).drop_last() =~= a + t);
        assert((a + b).last() == b.last());
        lemma_pow2_unfold(b.len());
        let x = bits_value(a) as int;
        let p = pow2(t.len()) as int;
        assert(2 * (x * p) == x * (2 * p)) by (nonlinear_arith);
    }
}

/// Only the `n` low bits of a value count for its `n` digits.
pub proof fn lemma_value_bits_mod(v: nat, n: nat)
    ensures
        value_bits(v, n) == value_bits(v % pow2(n), n),
    decreases n,
{
    lemma_pow2_pos(n);
    if n > 0 {
        let m = (n - 1) as nat;
        lemma_pow2_unfold(n);
        lemma_pow2_pos(m);
        let p = pow2(m) as int;
        lemma_mod_double(v as int, p);
        let w = v % pow2(n);
        assert(w / 2 == (v / 2) % pow2(m));
        assert(w % 2 == v % 2);
        lemma_value_bits_mod(v / 2, m);
        lemma_value_bits_mod(w / 2, m);
        vstd::arithmetic::div_mod::lemma_mod_twice((v / 2) as int, p);
    }
}

/// The digits of a value are those of its high part followed by those of
/// its low part.
pub proof fn lemma_value_bits_split(v: nat, a: nat, b: nat)
    ensures
        value_bits(v, a + b) == value_bits(v / pow2(b), a) + value_bits(v, b),
    decreases b,
{
    lemma_pow2_pos(b);
    if b == 0 {
        assert(pow2(0) == 1) by {
            vstd::arithmetic::power2::lemma2_to64();
        }
        assert(value_bits(v, a) =~= value_bits(v / 1, a) + value_bits(v, 0));
    } else {
        let m = (b - 1) as nat;
        lemma_value_bits_split(v / 2, a, m);
        lemma_pow2_unfold(b);
        lemma_pow2_pos(m);
        vstd::arithmetic::div_mod::lemma_div_denominator(v as int, 2, pow2(m) as int);
        assert((v / 2) / pow2(m) == v / pow2(b));
        lemma_value_bits_len(v / 2, m);
        assert(value_bits(v, a + b) =~= value_bits(v / pow2(b), a) + value_bits(v, b));
    }
}

/// Digit `k` of `value_bits(v, n)` is bit `n - 1 - k` of `v`.
pub proof fn lemma_value_bits_index(v: u64, n: nat, k: int)
    requires
        0 <= k < n <= 64,
    ensures
        value_bits(v as nat, n).len() == n,
        value_bits(v as nat, n)[k] == ((v >> ((n - 1 - k) as u64)) & 1 == 1),
    decreases n,
{
    lemma_value_bits_len(v as nat, n);
    let m = (n - 1) as nat;
    lemma_value_bits_len((v as nat) / 2, m);
    if k == n - 1 {
        assert((v % 2 == 1) == ((v >> 0u64) & 1 == 1)) by (bit_vector);
    } else {
        let h: u64 = v >> 1;
        let j: u64 = (m - 1 - k) as u64;
        assert(h == v / 2 && (j < 63 ==> ((h >> j) & 1 == 1) == ((v >> ((j + 1) as u64)) & 1 == 1)))
            by (bit_vector)
            requires
                h == v >> 1,
        ;
        lemma_value_bits_index(h, m, k);
    }
}

/// A value whose bits above the low `n` are clear is below `2^n`.
pub proof fn lemma_shr_zero_bound(v: u64, n: nat)
    requires
        n <= 64,
        n < 64 ==> v >> (n as u64) == 0,
    ensures
        v < pow2(n),
    decreases n,
{
    if n == 0 {
        assert(v >> 0u64 == v) by (bit_vector);
        assert(pow2(0) == 1) by {
            vstd::arithmetic::power2::lemma2_to64();
        }
    } else {
        let h: u64 = v >> 1;
        let m = (n - 1) as nat;
        let nn: u64 = n as u64;
        assert(h == v / 2 && (1 <= nn < 64 && v >> nn == 0 ==> h >> ((nn - 1) as u64) == 0) && (nn
            == 64 ==> h >> 63u64 == 0)) by (bit_vector)
            requires
                h == v >> 1,
        ;
        lemma_shr_zero_bound(h, m);
        lemma_pow2_unfold(n);
    }
}


/// Bit `j` of `v`, counting from the least significant bit.
pub open spec fn low_bit(v: u64, j: int) -> bool {
    (v >> (j as u64)) & 1 == 1
}

/// Bit `i` of the words `w`, in storage order.
pub open spec fn bit_at(w: Seq<u32>, i: int) -> bool {
    word_bit(w[i / 32], i % 32)
}

spec fn window(w0: u32, w1: u32, w2: u32) -> u128 {
    ((w0 as u128) << 64) | ((w1 as u128) << 32) | (w2 as u128)
}

spec fn field(v: u128, sb: u32, size: u32) -> u64 {
    ((v >> ((96 - sb - size) as u128)) as u64) & (0xffff_ffff_ffff_ffffu64 >> ((64 - size) as u64))
}

proof fn lemma_field_bit(v: u128, sb: u32, size: u32, k: u32)
    by (bit_vector)
    requires
        sb < 32,
        1 <= size <= 64,
        k < size,
    ensures
        ((field(v, sb, size) >> ((size - 1 - k) as u64)) & 1 == 1) == ((v >> ((95 - sb - k) as u128))
            & 1 == 1),
        size < 64 ==> field(v, sb, size) >> (size as u64) == 0,
{
}

proof fn lemma_window_bit(w0: u32, w1: u32, w2: u32, p: u32)
    by (bit_vector)
    requires
        p < 96,
    ensures
        ((window(w0, w1, w2) >> ((95 - p) as u128)) & 1 == 1) == (if p < 32 {
            (w0 >> ((31 - p) as u32)) & 1 == 1
        } else if p < 64 {
            (w1 >> ((63 - p) as u32)) & 1 == 1
        } else {
            (w2 >> ((95 - p) as u32)) & 1 == 1
        }),
{
}

spec fn put(w: u32, start: u32, size: u32, value: u32) -> u32 {
    let sh = (32 - size - start) as u32;
    let m: u32 = 0xffff_ffffu32 >> ((32 - size) as u32);
    (w & !(m << sh)) | (value << sh)
}

proof fn lemma_put_bit(w: u32, start: u32, size: u32, value: u32, p: u32)
    by (bit_vector)
    requires
        1 <= size <= 32,
        start + size <= 32,
        p < 32,
        size < 32 ==> value >> size == 0,
    ensures
        ((put(w, start, size, value) >> ((31 - p) as u32)) & 1 == 1) == (if start <= p < start
            + size {
            ((value as u64) >> ((start + size - 1 - p) as u64)) & 1 == 1
        } else {
            (w >> ((31 - p) as u32)) & 1 == 1
        }),
{
}

proof fn lemma_split_value(value: u32, size: u32, len2: u32, j: u64)
    by (bit_vector)
    requires
        1 <= size <= 32,
        len2 < size,
        j < 32,
    ensures
        ({
            let m: u32 = value & (0xffff_ffffu32 >> ((32 - size) as u32));
            let hi: u32 = m >> len2;
            let lo: u32 = if len2 == 0 {
                0u32
            } else {
                m & (0xffff_ffffu32 >> ((32 - len2) as u32))
            };
            &&& (size < 32 ==> m >> size == 0)
            &&& ((size - len2) < 32 ==> hi >> ((size - len2) as u32) == 0)
            &&& lo >> len2 == 0
            &&& (j < size ==> (((m as u64) >> j) & 1 == 1) == (((value as u64) >> j) & 1 == 1))
            &&& (j < len2 ==> (((lo as u64) >> j) & 1 == 1) == (((value as u64) >> j) & 1 == 1))
            &&& (j + len2 < size ==> (((hi as u64) >> j) & 1 == 1) == (((value as u64) >> ((j
                + len2) as u64)) & 1 == 1))
        }),
{
}

proof fn lemma_single_bit(w: u32, b: u32, p: u32)
    by (bit_vector)
    requires
        b < 32,
        p < 32,
    ensures
        ((w & (1u32 << b)) != 0) == ((w >> b) & 1 == 1),
        (((w | (1u32 << b)) >> p) & 1 == 1) == (p == b || ((w >> p) & 1 == 1)),
        (((w & !(1u32 << b)) >> p) & 1 == 1) == (p != b && ((w >> p) & 1 == 1)),
        ((0u32 >> p) & 1 == 1) == false,
{
}

proof fn lemma_keep_high(w: u32, n: u32, p: u32)
    by (bit_vector)
    requires
        1 <= n < 32,
        p < 32,
    ensures
        (((w & (!0u32 << ((32 - n) as u32))) >> ((31 - p) as u32)) & 1 == 1) == (p < n && ((w >> ((31
            - p) as u32)) & 1 == 1)),
{
}

proof fn lemma_word_equal(a: u32, b: u32)
    requires
        forall|p: int| 0 <= p < 32 ==> word_bit(a, p) == word_bit(b, p),
    ensures
        a == b,
{
    assert(word_bit(a, 0) == word_bit(b, 0) && word_bit(a, 1) == word_bit(b, 1) && word_bit(a, 2)
        == word_bit(b, 2) && word_bit(a, 3) == word_bit(b, 3));
    assert(word_bit(a, 4) == word_bit(b, 4) && word_bit(a, 5) == word_bit(b, 5) && word_bit(a, 6)
        == word_bit(b, 6) && word_bit(a, 7) == word_bit(b, 7));
    assert(word_bit(a, 8) == word_bit(b, 8) && word_bit(a, 9) == word_bit(b, 9) && word_bit(a, 10)
        == word_bit(b, 10) && word_bit(a, 11) == word_bit(b, 11));
    assert(word_bit(a, 12) == word_bit(b, 12) && word_bit(a, 13) == word_bit(b, 13) && word_bit(
        a,
        14,
    ) == word_bit(b, 14) && word_bit(a, 15) == word_bit(b, 15));
    assert(word_bit(a, 16) == word_bit(b, 16) && word_bit(a, 17) == word_bit(b, 17) && word_bit(
        a,
        18,
    ) == word_bit(b, 18) && word_bit(a, 19) == word_bit(b, 19));
    assert(word_bit(a, 20) == word_bit(b, 20) && word_bit(a, 21) == word_bit(b, 21) && word_bit(
        a,
        22,
    ) == word_bit(b, 22) && word_bit(a, 23) == word_bit(b, 23));
    assert(word_bit(a, 24) == word_bit(b, 24) && word_bit(a, 25) == word_bit(b, 25) && word_bit(
        a,
        26,
    ) == word_bit(b, 26) && word_bit(a, 27) == word_bit(b, 27));
    assert(word_bit(a, 28) == word_bit(b, 28) && word_bit(a, 29) == word_bit(b, 29) && word_bit(
        a,
        30,
    ) == word_bit(b, 30) && word_bit(a, 31) == word_bit(b, 31));
    assert(a == b) by (bit_vector)
        requires
            ((a >> 31u32) & 1 == 1) == ((b >> 31u32) & 1 == 1),
            ((a >> 30u32) & 1 == 1) == ((b >> 30u32) & 1 == 1),
            ((a >> 29u32) & 1 == 1) == ((b >> 29u32) & 1 == 1),
            ((a >> 28u32) & 1 == 1) == ((b >> 28u32) & 1 == 1),
            ((a >> 27u32) & 1 == 1) == ((b >> 27u32) & 1 == 1),
            ((a >> 26u32) & 1 == 1) == ((b >> 26u32) & 1 == 1),
            ((a >> 25u32) & 1 == 1) == ((b >> 25u32) & 1 == 1),
            ((a >> 24u32) & 1 == 1) == ((b >> 24u32) & 1 == 1),
            ((a >> 23u32) & 1 == 1) == ((b >> 23u32) & 1 == 1),
            ((a >> 22u32) & 1 == 1) == ((b >> 22u32) & 1 == 1),
            ((a >> 21u32) & 1 == 1) == ((b >> 21u32) & 1 == 1),
            ((a >> 20u32) & 1 == 1) == ((b >> 20u32) & 1 == 1),
            ((a >> 19u32) & 1 == 1) == ((b >> 19u32) & 1 == 1),
            ((a >> 18u32) & 1 == 1) == ((b >> 18u32) & 1 == 1),
            ((a >> 17u32) & 1 == 1) == ((b >> 17u32) & 1 == 1),
            ((a >> 16u32) & 1 == 1) == ((b >> 16u32) & 1 == 1),
            ((a >> 15u32) & 1 == 1) == ((b >> 15u32) & 1 == 1),
            ((a >> 14u32) & 1 == 1) == ((b >> 14u32) & 1 == 1),
            ((a >> 13u32) & 1 == 1) == ((b >> 13u32) & 1 == 1),
            ((a >> 12u32) & 1 == 1) == ((b >> 12u32) & 1 == 1),
            ((a >> 11u32) & 1 == 1) == ((b >> 11u32) & 1 == 1),
            ((a >> 10u32) & 1 == 1) == ((b >> 10u32) & 1 == 1),
            ((a >> 9u32) & 1 == 1) == ((b >> 9u32) & 1 == 1),
            ((a >> 8u32) & 1 == 1) == ((b >> 8u32) & 1 == 1),
            ((a >> 7u32) & 1 == 1) == ((b >> 7u32) & 1 == 1),
            ((a >> 6u32) & 1 == 1) == ((b >> 6u32) & 1 == 1),
            ((a >> 5u32) & 1 == 1) == ((b >> 5u32) & 1 == 1),
            ((a >> 4u32) & 1 == 1) == ((b >> 4u32) & 1 == 1),
            ((a >> 3u32) & 1 == 1) == ((b >> 3u32) & 1 == 1),
            ((a >> 2u32) & 1 == 1) == ((b >> 2u32) & 1 == 1),
            ((a >> 1u32) & 1 == 1) == ((b >> 1u32) & 1 == 1),
            ((a >> 0u32) & 1 == 1) == ((b >> 0u32) & 1 == 1),
    ;
}

proof fn lemma_widen_bit(w: u32, j: u32)
    by (bit_vector)
    requires
        j < 32,
    ensures
        (((w as u64) >> (j as u64)) & 1 == 1) == ((w >> j) & 1 == 1),
{
}

/// The 32 bits of `s` that word `j` stores, false past the end of `s`.
spec fn chunk(s: Seq<bool>, j: int) -> Seq<bool> {
    Seq::new(
        32,
        |p: int|
            if 32 * j + p < s.len() {
                s[32 * j + p]
            } else {
                false
            },
    )
}

spec fn word_of(s: Seq<bool>, j: int) -> u32 {
    bits_value(chunk(s, j)) as u32
}

spec fn build<const WORDS: usize>(s: Seq<bool>, j: nat) -> [u32; WORDS]
    decreases j,
{
    if j == 0 {
        vstd::array::spec_array_fill_for_copy_type::<u32, WORDS>(0u32)
    } else {
        vstd::array::spec_array_update(build::<WORDS>(s, (j - 1) as nat), j - 1, word_of(s, j - 1))
    }
}

proof fn lemma_build<const WORDS: usize>(s: Seq<bool>, j: nat)
    requires
        j <= WORDS,
    ensures
        forall|k: int| 0 <= k < j ==> (#[trigger] build::<WORDS>(s, j)@[k]) == word_of(s, k),
    decreases j,
{
    if j > 0 {
        lemma_build::<WORDS>(s, (j - 1) as nat);
        let prev = build::<WORDS>(s, (j - 1) as nat);
        let cur = build::<WORDS>(s, j);
        vstd::array::axiom_spec_array_update(prev, j - 1, word_of(s, j - 1));
        assert(cur@ == prev@.update(j - 1, word_of(s, j - 1)));
        assert forall|k: int| 0 <= k < j implies (#[trigger] cur@[k]) == word_of(s, k) by {
            if k < j - 1 {
                assert(prev@[k] == word_of(s, k));
            }
        }
    }
}

proof fn lemma_word_of(s: Seq<bool>, j: int, p: int)
    requires
        0 <= p < 32,
    ensures
        word_bit(word_of(s, j), p) == chunk(s, j)[p],
{
    let c = chunk(s, j);
    lemma_bits_value_bound(c);
    vstd::arithmetic::power2::lemma2_to64();
    let w = word_of(s, j);
    assert(w as nat == bits_value(c));
    lemma_bits_of_bits_value(c);
    lemma_value_bits_index(w as u64, 32, p);
    lemma_widen_bit(w, (31 - p) as u32);
}

/// Number of 32-bit words needed to hold `SIZE` bits.
pub fn num_words<const SIZE: usize>() -> (n: usize)
    ensures
        n == spec_num_words(SIZE as int),
{
    if SIZE % 32 == 0 {
        SIZE / 32
    } else {
        SIZE / 32 + 1
    }
}

/// Overwrites `size` bits of `v`, starting `start` bits below its top bit,
/// with `value`, which must fit in `size` bits.
fn set_range(v: &mut u32, start: usize, size: usize, value: u32)
    requires
        1 <= size <= 32,
        start + size <= 32,
        size < 32 ==> value >> (size as u32) == 0,
    ensures
        forall|p: int|
            0 <= p < 32 ==> #[trigger] word_bit(*final(v), p) == (if start <= p < start + size {
                low_bit(value as u64, start + size - 1 - p)
            } else {
                word_bit(*old(v), p)
            }),
{
    let ghost w = *v;
    let mask: u32 = 0xffff_ffffu32 >> (32 - size);
    let mask: u32 = !(mask << (32 - size - start));
    *v &= mask;
    *v |= value << (32 - size - start);
    proof {
        assert(*v == put(w, start as u32, size as u32, value));
        assert forall|p: int| 0 <= p < 32 implies #[trigger] word_bit(*v, p) == (if start <= p
            < start + size {
            low_bit(value as u64, start + size - 1 - p)
        } else {
            word_bit(w, p)
        }) by {
            lemma_put_bit(w, start as u32, size as u32, value, p as u32);
        }
    }
}

/// A packed vector of `SIZE` bits held in `WORDS` 32-bit words, most
/// significant bit first. Bits of the last word past `SIZE` are always zero.
#[derive(Clone, Copy, Debug)]
pub struct Bitset<const SIZE: usize, const WORDS: usize> {
    words: [u32; WORDS],
}

impl<const SIZE: usize, const WORDS: usize> View for Bitset<SIZE, WORDS> {
    type V = Seq<bool>;

    closed spec fn view(&self) -> Seq<bool> {
        Seq::new(SIZE as nat, |i: int| bit_at(self.words@, i))
    }
}

impl<const SIZE: usize, const WORDS: usize> Bitset<SIZE, WORDS> {
    /// The storage invariant: exactly enough words, and no stray bit past `SIZE`.
    #[verifier::type_invariant]
    pub closed spec fn wf(&self) -> bool {
        &&& WORDS == spec_num_words(SIZE as int)
        &&& forall|i: int| SIZE <= i < 32 * WORDS ==> !#[trigger] bit_at(self.words@, i)
    }

    /// The stored words.
    pub closed spec fn spec_words(&self) -> Seq<u32> {
        self.words@
    }

    /// The bits of a bit vector are the first `SIZE` bits of its words.
    pub proof fn lemma_view(&self)
        ensures
            self@.len() == SIZE,
            self@ == words_bits(self.spec_words(), SIZE as nat),
            self.spec_words().len() == WORDS,
    {
        assert(self@ =~= words_bits(self.spec_words(), SIZE as nat));
    }

    /// Two well-formed bit vectors with the same bits are the same value.
    pub proof fn lemma_view_injective(&self, other: &Self)
        requires
            self.wf(),
            other.wf(),
            self@ == other@,
        ensures
            *self == *other,
    {
        let a = self.words@;
        let b = other.words@;
        assert forall|j: int| 0 <= j < WORDS implies a[j] == b[j] by {
            assert forall|p: int| 0 <= p < 32 implies word_bit(a[j], p) == word_bit(b[j], p) by {
                let i = 32 * j + p;
                assert(i / 32 == j && i % 32 == p);
                if i < SIZE {
                    assert(self@[i] == bit_at(a, i));
                    assert(other@[i] == bit_at(b, i));
                } else {
                    assert(!bit_at(a, i));
                    assert(!bit_at(b, i));
                }
            }
            lemma_word_equal(a[j], b[j]);
        }
        assert(a =~= b);
        assert(self.words =~= other.words);
    }

    /// The well-formed bit vector whose bits are `s`.
    pub closed spec fn spec_from_bits(s: Seq<bool>) -> Self {
        choose|b: Self| b.wf() && b@ == s
    }

    /// A well-formed bit vector is the one that its bits name.
    pub proof fn lemma_from_bits(&self)
        requires
            self.wf(),
        ensures
            Self::spec_from_bits(self@) == *self,
    {
        let c = Self::spec_from_bits(self@);
        assert(c.wf() && c@ == self@);
        c.lemma_view_injective(self);
    }

    /// Every string of `SIZE` bits is the content of a well-formed bit
    /// vector.
    pub proof fn lemma_exists(s: Seq<bool>)
        requires
            s.len() == SIZE,
            WORDS == spec_num_words(SIZE as int),
        ensures
            Self::spec_from_bits(s).wf(),
            Self::spec_from_bits(s)@ == s,
    {
        let words = build::<WORDS>(s, WORDS as nat);
        lemma_build::<WORDS>(s, WORDS as nat);
        let b = Bitset::<SIZE, WORDS> { words };
        assert forall|i: int| 0 <= i < 32 * WORDS implies #[trigger] bit_at(b.words@, i) == (i
            < SIZE && s[i]) by {
            lemma_word_of(s, i / 32, i % 32);
            assert(b.words@[i / 32] == word_of(s, i / 32));
        }
        assert(b@ =~= s);
        assert(b.wf());
    }

    /// Every bit vector at hand is well formed.
    pub fn witness(&self)
        ensures
            self.wf(),
            self@.len() == SIZE,
            Self::spec_from_bits(self@) == *self,
    {
        proof {
            use_type_invariant(self);
            self.lemma_from_bits();
        }
    }

    /// The all-zero bit vector.
    pub fn new() -> (r: Self)
        requires
            WORDS == spec_num_words(SIZE as int),
        ensures
            r@ == Seq::new(SIZE as nat, |i: int| false),
    {
        let w = [0u32; WORDS];
        proof {
            assert forall|i: int| 0 <= i < 32 * WORDS implies !#[trigger] bit_at(w@, i) by {
                lemma_single_bit(0, 0, (31 - i % 32) as u32);
            }
        }
        let r = Self { words: w };
        proof {
            assert(r@ =~= Seq::new(SIZE as nat, |i: int| false));
        }
        r
    }

    /// Builds a bit vector from raw words, clearing any bit past `SIZE`.
    pub fn from_words(words: [u32; WORDS]) -> (r: Self)
        requires
            WORDS == spec_num_words(SIZE as int),
        ensures
            r@ == words_bits(words@, SIZE as nat),
    {
        let mut w = words;
        if SIZE % 32 != 0 {
            let last = WORDS - 1;
            let old_last = w[last];
            w[last] = old_last & (!0u32 << (32 - (SIZE % 32)));
            proof {
                assert forall|p: int| 0 <= p < 32 implies #[trigger] word_bit(w@[last as int], p)
                    == (p < SIZE % 32 && word_bit(old_last, p)) by {
                    lemma_keep_high(old_last, (SIZE % 32) as u32, p as u32);
                }
            }
        }
        proof {
            assert forall|i: int| SIZE <= i < 32 * WORDS implies !#[trigger] bit_at(w@, i) by {
                assert(i / 32 == WORDS - 1);
                assert(SIZE % 32 != 0);
                assert(word_bit(w@[WORDS - 1], i % 32) == false);
            }
            assert forall|i: int| 0 <= i < SIZE implies bit_at(w@, i) == bit_at(words@, i) by {
                if i / 32 == WORDS - 1 && SIZE % 32 != 0 {
                    assert(word_bit(w@[WORDS - 1], i % 32) == word_bit(words@[WORDS - 1], i % 32));
                }
            }
        }
        let r = Self { words: w };
        proof {
            assert(r@ =~= words_bits(words@, SIZE as nat));
        }
        r
    }

    /// The raw words; bits past `SIZE` are zero.
    pub fn words(&self) -> (w: [u32; WORDS])
        ensures
            w@ == self.spec_words(),
            self@ == words_bits(w@, SIZE as nat),
            forall|i: int| SIZE <= i < 32 * WORDS ==> !#[trigger] bit_at(w@, i),
    {
        proof {
            use_type_invariant(self);
            self.lemma_view();
        }
        self.words
    }

    /// Reads bit `i`.
    pub fn get(&self, i: usize) -> (b: bool)
        requires
            i < SIZE,
        ensures
            b == self@[i as int],
    {
        proof {
            use_type_invariant(self);
        }
        let word = i / 32;
        let bit = 31 - (i % 32);
        proof {
            lemma_single_bit(self.words@[word as int], bit as u32, 0);
            assert(self@[i as int] == bit_at(self.words@, i as int));
        }
        self.words[word] & (1u32 << bit) != 0
    }

    /// Writes bit `i`.
    pub fn set(&mut self, i: usize, value: bool)
        requires
            i < SIZE,
        ensures
            final(self)@ == old(self)@.update(i as int, value),
    {
        proof {
            use_type_invariant(&*self);
        }
        let word = i / 32;
        let bit = 31 - (i % 32);
        let ghost before = self.words@;
        let old_word = self.words[word];
        let new_word = if value {
            old_word | (1u32 << bit)
        } else {
            old_word & !(1u32 << bit)
        };
        let mut w = self.words;
        w[word] = new_word;
        proof {
            assert forall|k: int| 0 <= k < 32 * WORDS implies #[trigger] bit_at(w@, k) == (if k
                == i {
                value
            } else {
                bit_at(before, k)
            }) by {
                if k / 32 == word {
                    lemma_single_bit(old_word, bit as u32, (31 - k % 32) as u32);
                    assert(w@[k / 32] == new_word);
                    assert(before[k / 32] == old_word);
                } else {
                    assert(w@[k / 32] == before[k / 32]);
                }
            }
        }
        self.words = w;
        proof {
            assert forall|k: int| 0 <= k < SIZE implies self@[k] == old(self)@.update(
                i as int,
                value,
            )[k] by {
                assert(self@[k] == bit_at(w@, k));
                assert(old(self)@[k] == bit_at(before, k));
            }
            assert(self@ =~= old(self)@.update(i as int, value));
        }
    }

    /// Reads the `size`-bit field starting at bit `start` as an unsigned
    /// integer whose most significant bit is the bit at `start`.
    pub fn slice_u64(&self, start: usize, size: usize) -> (r: u64)
        requires
            1 <= size <= 64,
            start + size <= SIZE,
        ensures
            r == bits_value(self@.subrange(start as int, start + size)),
    {
        proof {
            use_type_invariant(self);
        }
        let start_word = start / 32;
        let start_bit = start % 32;
        let w0 = self.words[start_word];
        let w1 = if start_word + 1 < WORDS {
            self.words[start_word + 1]
        } else {
            0
        };
        let w2 = if start_word + 2 < WORDS {
            self.words[start_word + 2]
        } else {
            0
        };
        let v: u128 = ((w0 as u128) << 64) | ((w1 as u128) << 32) | (w2 as u128);
        let r = #[verifier::truncate]
        ((v >> (96 - start_bit - size)) as u64) & (0xffff_ffff_ffff_ffffu64 >> (64 - size));
        proof {
            let sb = start_bit as u32;
            let sz = size as u32;
            assert(v == window(w0, w1, w2));
            assert(r == field(v, sb, sz));
            let s = self@.subrange(start as int, start + size);
            lemma_field_bit(v, sb, sz, 0);
            lemma_shr_zero_bound(r, size as nat);
            lemma_value_bits_len(r as nat, size as nat);
            assert forall|k: int| 0 <= k < size implies s[k] == value_bits(r as nat, size as nat)[k] by {
                lemma_value_bits_index(r, size as nat, k);
                lemma_field_bit(v, sb, sz, k as u32);
                lemma_window_bit(w0, w1, w2, (sb + k) as u32);
                let i = start + k;
                assert(s[k] == bit_at(self.words@, i));
                assert(i / 32 == start_word + (start_bit + k) / 32);
                assert(i % 32 == (start_bit + k) % 32);
            }
            assert(s =~= value_bits(r as nat, size as nat));
            lemma_value_bits_roundtrip(r as nat, size as nat);
        }
        r
    }

    /// Reads a field of at most 32 bits; see [`Bitset::slice_u64`].
    pub fn slice(&self, start: usize, size: usize) -> (r: u32)
        requires
            1 <= size <= 32,
            start + size <= SIZE,
        ensures
            r == bits_value(self@.subrange(start as int, start + size)),
    {
        let v = self.slice_u64(start, size);
        proof {
            lemma_bits_value_bound(self@.subrange(start as int, start + size));
            if size < 32 {
                vstd::arithmetic::power2::lemma_pow2_strictly_increases(size as nat, 32);
            }
            vstd::arithmetic::power2::lemma2_to64();
        }
        v as u32
    }

    /// Overwrites the `size`-bit field starting at bit `start` with the low
    /// `size` bits of `value`, most significant bit first.
    pub fn set_slice(&mut self, start: usize, size: usize, value: u32)
        requires
            1 <= size <= 32,
            start + size <= SIZE,
        ensures
            final(self)@ == old(self)@.subrange(0, start as int) + value_bits(
                value as nat,
                size as nat,
            ) + old(self)@.subrange(start + size, SIZE as int),
    {
        proof {
            use_type_invariant(&*self);
        }
        let masked: u32 = value & (0xffff_ffffu32 >> (32 - size));
        let start_word = start / 32;
        let start_bit = start % 32;
        let ghost before = self.words@;
        let ghost len2: int = if start_bit + size <= 32 {
            0
        } else {
            start_bit + size - 32
        };
        let mut w = self.words;
        if start_bit + size <= 32 {
            proof {
                lemma_split_value(value, size as u32, 0, 0);
            }
            let mut x = w[start_word];
            set_range(&mut x, start_bit, size, masked);
            w[start_word] = x;
        } else {
            let len1 = 32 - start_bit;
            let len2 = size - len1;
            proof {
                lemma_split_value(value, size as u32, len2 as u32, 0);
            }
            let mut x = w[start_word];
            set_range(&mut x, start_bit, len1, masked >> len2);
            w[start_word] = x;
            let mut y = w[start_word + 1];
            set_range(&mut y, 0, len2, masked & (0xffff_ffffu32 >> (32 - len2)));
            w[start_word + 1] = y;
        }
        proof {
            lemma_value_bits_len(value as nat, size as nat);
            let bits = value_bits(value as nat, size as nat);
            assert forall|i: int| 0 <= i < 32 * WORDS implies #[trigger] bit_at(w@, i) == (if start
                <= i < start + size {
                bits[i - start]
            } else {
                bit_at(before, i)
            }) by {
                let k = i - start;
                let q = i / 32;
                let p = i % 32;
                assert(word_bit(w@[q], p) == bit_at(w@, i));
                if start <= i < start + size {
                    lemma_value_bits_index(value as u64, size as nat, k);
                    let j = size - 1 - k;
                    if j < len2 {
                        lemma_split_value(value, size as u32, len2 as u32, j as u64);
                        assert(q == start_word + 1);
                    } else {
                        lemma_split_value(value, size as u32, len2 as u32, (j - len2) as u64);
                        assert(q == start_word);
                    }
                } else {
                    assert(word_bit(w@[q], p) == word_bit(before[q], p));
                }
            }
        }
        self.words = w;
        proof {
            let target = old(self)@.subrange(0, start as int) + value_bits(
                value as nat,
                size as nat,
            ) + old(self)@.subrange(start + size, SIZE as int);
            assert forall|i: int| 0 <= i < SIZE implies self@[i] == target[i] by {
                assert(self@[i] == bit_at(w@, i));
                assert(old(self)@[i] == bit_at(before, i));
            }
            assert(self@ =~= target);
        }
    }

    /// Copies into a bit vector of another size, dropping bits past the new
    /// size or padding with zero bits.
    pub fn with_size<const NEW_SIZE: usize, const NEW_WORDS: usize>(self) -> (r: Bitset<
        NEW_SIZE,
        NEW_WORDS,
    >)
        requires
            NEW_WORDS == spec_num_words(NEW_SIZE as int),
        ensures
            r@ == Seq::new(
                NEW_SIZE as nat,
                |i: int|
                    if i < SIZE {
                        self@[i]
                    } else {
                        false
                    },
            ),
    {
        proof {
            use_type_invariant(&self);
        }
        let mut w = [0u32; NEW_WORDS];
        let min = if WORDS < NEW_WORDS {
            WORDS
        } else {
            NEW_WORDS
        };
        let mut j: usize = 0;
        while j < min
            invariant
                j <= min,
                min <= WORDS,
                min <= NEW_WORDS,
                forall|k: int| 0 <= k < j ==> w@[k] == self.words@[k],
                forall|k: int| j <= k < NEW_WORDS ==> w@[k] == 0,
            decreases min - j,
        {
            w[j] = self.words[j];
            j += 1;
        }
        let ghost copied = w@;
        if NEW_SIZE < SIZE && NEW_SIZE % 32 != 0 {
            let last = NEW_WORDS - 1;
            let old_last = w[last];
            w[last] = old_last & (!0u32 << (32 - (NEW_SIZE % 32)));
            proof {
                assert forall|p: int| 0 <= p < 32 implies #[trigger] word_bit(w@[last as int], p)
                    == (p < NEW_SIZE % 32 && word_bit(old_last, p)) by {
                    lemma_keep_high(old_last, (NEW_SIZE % 32) as u32, p as u32);
                }
            }
        }
        proof {
            assert forall|i: int| 0 <= i < 32 * NEW_WORDS implies #[trigger] bit_at(w@, i) == (i
                < NEW_SIZE && i < SIZE && bit_at(self.words@, i)) by {
                let q = i / 32;
                let p = i % 32;
                if q < min {
                    assert(copied[q] == self.words@[q]);
                    if i >= SIZE {
                        assert(!bit_at(self.words@, i));
                    }
                    if NEW_SIZE < SIZE && NEW_SIZE % 32 != 0 && q == NEW_WORDS - 1 {
                        assert(word_bit(w@[q], p) == (p < NEW_SIZE % 32 && word_bit(copied[q], p)));
                    } else {
                        assert(w@[q] == copied[q]);
                    }
                } else {
                    assert(w@[q] == 0);
                    lemma_single_bit(0, 0, (31 - p) as u32);
                }
            }
        }
        let r = Bitset::<NEW_SIZE, NEW_WORDS> { words: w };
        proof {
            let target = Seq::new(
                NEW_SIZE as nat,
                |i: int|
                    if i < SIZE {
                        self@[i]
                    } else {
                        false
                    },
            );
            assert forall|i: int| 0 <= i < NEW_SIZE implies r@[i] == target[i] by {
                assert(r@[i] == bit_at(w@, i));
                if i < SIZE {
                    assert(self@[i] == bit_at(self.words@, i));
                }
            }
            assert(r@ =~= target);
        }
        r
    }
}

} // verus!
