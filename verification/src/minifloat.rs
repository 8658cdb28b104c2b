//! One-byte floating-point numbers for spectra and soft bits.
//!
//! A byte holds, from the top, an optional sign bit, the exponent and the
//! mantissa, which takes the bits that the other two leave. An exponent
//! field of zero marks a number without the implied leading one; exponent
//! and mantissa all zero is zero, all one is infinity. Conversion goes by
//! the bit pattern of a 32-bit IEEE number, so that no floating-point
//! arithmetic is involved.
use vstd::prelude::*;

verus! {

/// The number of mantissa bits of the format with a sign bit or not and
/// `exp_size` exponent bits.
pub open spec fn spec_frac_size(signed: bool, exp_size: u32) -> u32 {
    (8 - exp_size - (if signed {
        1u32
    } else {
        0u32
    })) as u32
}

/// The word whose lowest `frac_size` bits are set, for `frac_size` up to 8.
pub open spec fn spec_frac_mask(frac_size: u32) -> u32 {
    0xffu32 >> ((8 - frac_size) as u32)
}

/// The number of zero bits above the highest bit set in a byte; 8 for zero.
pub open spec fn spec_leading_zeros(x: u8) -> u32 {
    if x & 0x80 != 0 {
        0
    } else if x & 0x40 != 0 {
        1
    } else if x & 0x20 != 0 {
        2
    } else if x & 0x10 != 0 {
        3
    } else if x & 0x08 != 0 {
        4
    } else if x & 0x04 != 0 {
        5
    } else if x & 0x02 != 0 {
        6
    } else if x & 0x01 != 0 {
        7
    } else {
        8
    }
}

/// The 32-bit pattern of the value of the byte `b` in the format with a sign
/// bit or not, `exp_size` exponent bits and exponent bias `bias`.
///
/// A mantissa without the implied leading one is shifted up until its
/// highest bit has left the field, and the exponent goes down by as much.
pub open spec fn spec_as_f32_bits(b: u8, signed: bool, exp_size: u32, bias: u32) -> u32 {
    let frac_size = spec_frac_size(signed, exp_size);
    let mask = spec_frac_mask(frac_size);
    let x: u32 = b as u32;
    let body: u32 = if signed {
        x & 0x7f
    } else {
        x
    };
    let ones: u32 = if signed {
        0x7f
    } else {
        0xff
    };
    let sign: u32 = if signed {
        x >> 7
    } else {
        0
    };
    if body == 0 {
        sign << 31
    } else if body == ones {
        (sign << 31) | 0x7f80_0000
    } else {
        let e: u32 = body >> frac_size;
        let frac: u32 = body & mask;
        if e == 0 {
            let s: u32 = (spec_leading_zeros(frac as u8) + frac_size - 7) as u32;
            (sign << 31) | (((127 - bias - (s - 1)) as u32) << 23) | (((frac << s) & mask) << ((23
                - frac_size) as u32))
        } else {
            (sign << 31) | (((e + 127 - bias) as u32) << 23) | (frac << ((23 - frac_size) as u32))
        }
    }
}

/// The byte nearest to zero from the value with the 32-bit pattern `bits`:
/// the mantissa is cut off, and a value too great becomes infinity.
pub open spec fn spec_from_f32_bits(bits: u32, signed: bool, exp_size: u32, bias: u32) -> u8 {
    let frac_size = spec_frac_size(signed, exp_size);
    let mask = spec_frac_mask(frac_size);
    let sign: u32 = if signed {
        bits >> 31
    } else {
        0
    };
    let exp: u32 = (bits >> 23) & 0xff;
    let frac: u32 = (bits >> ((23 - frac_size) as u32)) & mask;
    if exp >= (1u32 << exp_size) + 127 - bias {
        if signed {
            ((sign << 7) | 0x7f) as u8
        } else {
            0xff
        }
    } else if exp <= 127 - bias {
        let shift: u32 = (127 - bias - exp + 1) as u32;
        let f: u32 = if shift <= frac_size {
            (frac | (1u32 << frac_size)) >> shift
        } else {
            0
        };
        ((sign << 7) | f) as u8
    } else {
        ((sign << 7) | (((exp - (127 - bias)) as u32) << frac_size) | frac) as u8
    }
}

/// Whether sign and exponent fit a byte, and the exponent of the smallest
/// number of the format is not below zero: what conversion needs to go
/// through.
pub open spec fn spec_valid_format(signed: bool, exp_size: u32, bias: u32) -> bool {
    &&& exp_size + (if signed {
        1u32
    } else {
        0u32
    }) <= 8
    &&& bias <= 127
    &&& bias + spec_frac_size(signed, exp_size) <= 128
}

/// Whether every number of the format is a number of the 32-bit format
/// with its leading one implied: the exponent field is no wider than 7
/// bits, and the exponent of the smallest number is above zero.
pub open spec fn spec_exact_format(signed: bool, exp_size: u32, bias: u32) -> bool {
    &&& spec_valid_format(signed, exp_size, bias)
    &&& exp_size <= 7
    &&& bias + spec_frac_size(signed, exp_size) <= 127
}

/// Every byte is recovered from its 32-bit pattern.
pub proof fn lemma_roundtrip(b: u8, signed: bool, exp_size: u32, bias: u32)
    by (bit_vector)
    requires
        spec_exact_format(signed, exp_size, bias),
    ensures
        spec_from_f32_bits(spec_as_f32_bits(b, signed, exp_size, bias), signed, exp_size, bias)
            == b,
{
}

/// Conversion rounds toward zero and keeps the sign: the magnitude of the
/// byte's value is no greater than that of the value converted, unless the
/// byte is infinity; and it is infinity only for a magnitude above the
/// greatest finite value of the format.
pub proof fn lemma_rounds_toward_zero(bits: u32, signed: bool, exp_size: u32, bias: u32)
    by (bit_vector)
    requires
        spec_exact_format(signed, exp_size, bias),
        bits & 0x7fff_ffff <= 0x7f80_0000,
    ensures
        ({
            let b = spec_from_f32_bits(bits, signed, exp_size, bias);
            let back = spec_as_f32_bits(b, signed, exp_size, bias);
            let greatest: u8 = if signed {
                0x7e
            } else {
                0xfe
            };
            &&& signed ==> back >> 31 == bits >> 31
            &&& back & 0x7fff_ffff != 0x7f80_0000 ==> back & 0x7fff_ffff <= bits & 0x7fff_ffff
            &&& back & 0x7fff_ffff == 0x7f80_0000 ==> bits & 0x7fff_ffff > spec_as_f32_bits(
                greatest,
                signed,
                exp_size,
                bias,
            )
        }),
{
}

/// Without a sign, a greater byte has a greater 32-bit pattern, and all
/// patterns are those of numbers that are not negative; so bytes are in
/// the order of their values.
pub proof fn lemma_order(a: u8, b: u8, exp_size: u32, bias: u32)
    by (bit_vector)
    requires
        spec_exact_format(false, exp_size, bias),
        a < b,
    ensures
        spec_as_f32_bits(a, false, exp_size, bias) < spec_as_f32_bits(b, false, exp_size, bias),
        spec_as_f32_bits(b, false, exp_size, bias) <= 0x7f80_0000,
{
}

/// A one-byte floating-point number.
#[derive(Copy, Clone, Debug, PartialEq, Eq)]
pub struct _F8<const SIGNED: bool, const EXP_SIZE: usize, const EXP_BIAS: u8>(pub u8);

/// The signed format of soft bits.
pub type F8 = _F8<true, 5, 24>;

/// The unsigned format of spectra.
pub type Fu8 = _F8<false, 6, 24>;

/// A signed value that is kept as the bit pattern of a 32-bit number.
pub trait FloatS: Copy {
    spec fn spec_f32_bits(self) -> u32;

    fn to_f32_bits(self) -> (r: u32)
        ensures
            r == self.spec_f32_bits(),
    ;
}

/// An unsigned value that is kept as the bit pattern of a 32-bit number,
/// with a key by which values are ordered.
pub trait FloatU: Copy {
    spec fn spec_f32_bits(self) -> u32;

    spec fn spec_inner(self) -> u32;

    fn to_f32_bits(self) -> (r: u32)
        ensures
            r == self.spec_f32_bits(),
    ;

    fn to_inner(&self) -> (r: u32)
        ensures
            r == self.spec_inner(),
    ;
}

impl<const SIGNED: bool, const EXP_SIZE: usize, const EXP_BIAS: u8> _F8<SIGNED, EXP_SIZE, EXP_BIAS> {
    /// Whether conversion goes through for the format that the type names.
    pub open spec fn spec_valid() -> bool {
        spec_valid_format(SIGNED, EXP_SIZE as u32, EXP_BIAS as u32)
    }

    /// Zero.
    pub fn zero() -> (r: Self)
        ensures
            r.0 == 0,
    {
        Self(0)
    }

    /// The 32-bit pattern of the value; see [`spec_as_f32_bits`].
    pub fn as_f32_bits(self) -> (r: u32)
        requires
            Self::spec_valid(),
        ensures
            r == spec_as_f32_bits(self.0, SIGNED, EXP_SIZE as u32, EXP_BIAS as u32),
    {
        let bias = EXP_BIAS as u32;
        let frac_size: u32 = 8 - EXP_SIZE as u32 - if SIGNED {
            1
        } else {
            0
        };
        let mask: u32 = 0xffu32 >> (8 - frac_size);
        let x: u32 = self.0 as u32;
        let body: u32 = if SIGNED {
            x & 0x7f
        } else {
            x
        };
        let ones: u32 = if SIGNED {
            0x7f
        } else {
            0xff
        };
        let sign: u32 = if SIGNED {
            x >> 7
        } else {
            0
        };
        if body == 0 {
            return sign << 31;
        }
        if body == ones {
            return (sign << 31) | 0x7f80_0000;
        }
        let e: u32 = body >> frac_size;
        let frac: u32 = body & mask;
        proof {
            lemma_fields(x, body, frac_size);
        }
        if e == 0 {
            let zeros = leading_zeros(frac as u8);
            let s: u32 = zeros + frac_size - 7;
            (sign << 31) | ((127 - bias - (s - 1)) << 23) | (((frac << s) & mask) << (23
                - frac_size))
        } else {
            (sign << 31) | ((e + 127 - bias) << 23) | (frac << (23 - frac_size))
        }
    }

    /// The byte for the value with the 32-bit pattern `bits`; see
    /// [`spec_from_f32_bits`].
    pub fn from_f32_bits(bits: u32) -> (r: Self)
        requires
            Self::spec_valid(),
        ensures
            r.0 == spec_from_f32_bits(bits, SIGNED, EXP_SIZE as u32, EXP_BIAS as u32),
    {
        let bias = EXP_BIAS as u32;
        let exp_size = EXP_SIZE as u32;
        let frac_size: u32 = 8 - exp_size - if SIGNED {
            1
        } else {
            0
        };
        let mask: u32 = 0xffu32 >> (8 - frac_size);
        let sign: u32 = if SIGNED {
            bits >> 31
        } else {
            0
        };
        let exp: u32 = (bits >> 23) & 0xff;
        let frac: u32 = (bits >> (23 - frac_size)) & mask;
        proof {
            lemma_pattern_fields(bits, exp_size);
        }
        if exp >= (1u32 << exp_size) + 127 - bias {
            return if SIGNED {
                Self(#[verifier::truncate] (((sign << 7) | 0x7f) as u8))
            } else {
                Self(0xff)
            };
        }
        if exp <= 127 - bias {
            let shift: u32 = 127 - bias - exp + 1;
            let f: u32 = if shift <= frac_size {
                (frac | (1u32 << frac_size)) >> shift
            } else {
                0
            };
            return Self(#[verifier::truncate] (((sign << 7) | f) as u8));
        }
        let e: u32 = exp - (127 - bias);
        Self(#[verifier::truncate] (((sign << 7) | (e << frac_size) | frac) as u8))
    }

    /// The byte.
    pub fn to_bits(self) -> (b: u8)
        ensures
            b == self.0,
    {
        self.0
    }

    /// The number with the byte `bits`.
    pub fn from_bits(bits: u8) -> (r: Self)
        ensures
            r.0 == bits,
    {
        Self(bits)
    }
}

/// The number of zero bits above the highest bit set in `x`.
fn leading_zeros(x: u8) -> (r: u32)
    ensures
        r == spec_leading_zeros(x),
{
    let r = x.leading_zeros();
    proof {
        vstd::std_specs::bits::axiom_u8_leading_zeros(x);
        let k = r as u8;
        assert(k < 8 ==> (x >> ((7 - k) as u8)) & 1u8 != 0u8);
        assert(x >> ((8 - k) as u8) == 0);
        lemma_leading_zeros(x, k);
    }
    r
}

proof fn lemma_leading_zeros(x: u8, k: u8)
    by (bit_vector)
    requires
        k <= 8,
        k < 8 ==> (x >> ((7 - k) as u8)) & 1u8 != 0u8,
        x >> ((8 - k) as u8) == 0,
    ensures
        spec_leading_zeros(x) == k as u32,
{
}

/// The mantissa of a byte fits a byte, and where the exponent field is zero
/// in a byte that is not, its highest bit set lies within the mantissa.
proof fn lemma_fields(x: u32, body: u32, frac_size: u32)
    by (bit_vector)
    requires
        x <= 255,
        frac_size <= 8,
        body == x || body == x & 0x7f,
    ensures
        body <= 255,
        x >> 7 <= 1,
        body >> frac_size <= 255,
        body & (0xffu32 >> ((8 - frac_size) as u32)) <= 255,
        body != 0 && body >> frac_size == 0 ==> 8 <= spec_leading_zeros(
            (body & (0xffu32 >> ((8 - frac_size) as u32))) as u8,
        ) + frac_size <= 7 + frac_size,
{
}

proof fn lemma_pattern_fields(bits: u32, exp_size: u32)
    by (bit_vector)
    requires
        exp_size <= 8,
    ensures
        (bits >> 23) & 0xff <= 255,
        1u32 << exp_size <= 256,
{
}

impl FloatS for F8 {
    open spec fn spec_f32_bits(self) -> u32 {
        spec_as_f32_bits(self.0, true, 5, 24)
    }

    fn to_f32_bits(self) -> (r: u32) {
        self.as_f32_bits()
    }
}

impl FloatU for Fu8 {
    open spec fn spec_f32_bits(self) -> u32 {
        spec_as_f32_bits(self.0, false, 6, 24)
    }

    open spec fn spec_inner(self) -> u32 {
        self.0 as u32
    }

    fn to_f32_bits(self) -> (r: u32) {
        self.as_f32_bits()
    }

    fn to_inner(&self) -> (r: u32) {
        self.0 as u32
    }
}

} // verus!
