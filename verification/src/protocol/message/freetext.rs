//! The 71-bit free-text field: thirteen characters read in base 42.
use crate::bits::{
    bits_value, lemma_bits_value_concat, lemma_value_bits_len, lemma_value_bits_mod,
    lemma_value_bits_split, value_bits, zero_bits, Bitset,
};
use crate::protocol::message::chars::{to_upper, Chars};
use crate::util::{spec_write, write_slice};
use vstd::arithmetic::power2::{lemma2_to64, lemma2_to64_rest, pow2};
use vstd::prelude::*;

verus! {

/// A free-text field: a 71-bit number at the front of a 77-bit message body.
#[derive(Debug, Clone, Copy)]
pub struct F71(pub Bitset<77, 3>);

pub(crate) open spec fn pow42(e: nat) -> nat
    decreases e,
{
    if e == 0 {
        1
    } else {
        42 * pow42((e - 1) as nat)
    }
}

proof fn lemma_value42_bound(s: Seq<u8>)
    ensures
        Chars::Full.spec_value(s) < pow42(s.len()),
    decreases s.len(),
{
    if s.len() > 0 {
        lemma_value42_bound(s.drop_last());
        Chars::Full.lemma_find(s.last());
    }
}

proof fn lemma_pow42_mono(a: nat, b: nat)
    requires
        a <= b,
    ensures
        pow42(a) <= pow42(b),
    decreases b,
{
    if a < b {
        lemma_pow42_mono(a, (b - 1) as nat);
    }
}

proof fn lemma_pieces(n: u128)
    by (bit_vector)
    requires
        n < 0x80_0000_0000_0000_0000u128,
    ensures
        n >> 39 == (n / 128) / 0x1_0000_0000,
        (n >> 39) < 0x1_0000_0000,
        (n >> 7) & 0xffff_ffff == (n / 128) % 0x1_0000_0000,
        n & 0x7f == n % 128,
{
}

/// The text of at most thirteen characters has a value below 2^71.
pub proof fn lemma_text_value_fits(s: Seq<u8>)
    requires
        s.len() <= 13,
    ensures
        Chars::Full.spec_value(s) < pow2(71),
        Chars::Full.spec_value(s) < 0x80_0000_0000_0000_0000,
{
    lemma_value42_bound(s);
    lemma_pow42_mono(s.len(), 13);
    reveal_with_fuel(pow42, 14);
    lemma2_to64();
    lemma2_to64_rest();
    vstd::arithmetic::power2::lemma_pow2_adds(64, 7);
}

impl F71 {
    /// Whether the six bits behind the number are clear.
    pub open spec fn wf(self) -> bool {
        &&& self.0.wf()
        &&& self.0@.subrange(71, 77) == zero_bits(6)
    }

    /// The 71-bit number.
    pub open spec fn spec_value(self) -> nat {
        bits_value(self.0@.subrange(0, 71))
    }

    /// The text of the field: its thirteen low digits in base 42.
    pub open spec fn spec_text(self) -> Seq<u8> {
        Chars::Full.spec_digits(self.spec_value(), 13)
    }

    /// The field for a text: its base-42 value in the first 71 bits. There
    /// is none for a text with a character outside the alphabet.
    pub open spec fn spec_from_string(s: Seq<u8>) -> Option<F71> {
        if Chars::Full.spec_valid(s) {
            Some(
                F71(
                    Bitset::spec_from_bits(
                        value_bits(Chars::Full.spec_value(s), 71) + zero_bits(6),
                    ),
                ),
            )
        } else {
            None
        }
    }

    /// Encodes a text of at most thirteen characters; see
    /// [`F71::spec_from_string`].
    pub fn from_string(s: &[u8]) -> (r: Option<Self>)
        requires
            s@.len() <= 13,
        ensures
            r == Self::spec_from_string(s@),
            r matches Some(f) ==> f.wf() && f.0@ == value_bits(Chars::Full.spec_value(s@), 71)
                + zero_bits(6) && f.spec_value() == Chars::Full.spec_value(s@),
    {
        let len = s.len();
        let mut n: u128 = 0;
        let mut i: usize = 0;
        proof {
            assert(s@.subrange(0, 0) =~= Seq::<u8>::empty());
        }
        while i < len
            invariant
                i <= len == s@.len() <= 13,
                n == Chars::Full.spec_value(s@.subrange(0, i as int)),
                Chars::Full.spec_valid(s@.subrange(0, i as int)),
            decreases len - i,
        {
            let ghost head = s@.subrange(0, i as int);
            let ghost next = s@.subrange(0, i + 1);
            proof {
                assert(next.drop_last() =~= head);
                assert(next.last() == s@[i as int]);
                lemma_value42_bound(head);
                lemma_pow42_mono(i as nat, 12);
                reveal_with_fuel(pow42, 14);
                Chars::Full.lemma_find(s@[i as int]);
            }
            match Chars::Full.find(s[i]) {
                Some(v) => {
                    n = n * 42 + v as u128;
                    proof {
                        assert forall|j: int| 0 <= j < next.len() implies Chars::Full.spec_find(
                            #[trigger] next[j],
                        ) is Some by {
                            if j < i {
                                assert(next[j] == head[j]);
                            }
                        }
                    }
                },
                None => {
                    proof {
                        assert(!Chars::Full.spec_valid(s@));
                    }
                    return None;
                },
            }
            i += 1;
        }
        proof {
            assert(s@.subrange(0, len as int) =~= s@);
            lemma_text_value_fits(s@);
            lemma_pieces(n);
        }
        let hi = (n >> 39) as u32;
        let mid = ((n >> 7) & 0xffff_ffff) as u32;
        let lo = (n & 0x7f) as u32;
        let mut bs = Bitset::<77, 3>::new();
        bs.set_slice(0, 32, hi);
        bs.set_slice(32, 32, mid);
        bs.set_slice(64, 7, lo);
        proof {
            let v = n as nat;
            lemma2_to64();
            lemma_value_bits_split(v, 64, 7);
            lemma_value_bits_split(v / 128, 32, 32);
            lemma_value_bits_mod(v / 128, 32);
            lemma_value_bits_mod(v, 7);
            lemma_value_bits_len(hi as nat, 32);
            lemma_value_bits_len(mid as nat, 32);
            lemma_value_bits_len(lo as nat, 7);
            lemma_value_bits_len(v, 71);
            assert(bs@ =~= value_bits(v, 71) + zero_bits(6));
            assert(bs@.subrange(0, 71) =~= value_bits(v, 71));
            assert(bs@.subrange(71, 77) =~= zero_bits(6));
            crate::bits::lemma_value_bits_roundtrip(v, 71);
        }
        bs.witness();
        Some(Self(bs))
    }

    /// Renders the field into the front of `out`; see [`F71::spec_text`].
    pub fn write_str(&self, out: &mut [u8]) -> (r: Option<usize>)
        ensures
            spec_write(old(out)@, final(out)@, self.spec_text(), r),
            self.spec_text().len() == 13,
    {
        let hi = self.0.slice_u64(0, 32);
        let lo = self.0.slice_u64(32, 39);
        self.0.witness();
        proof {
            let a = self.0@.subrange(0, 32);
            let b = self.0@.subrange(32, 71);
            assert(self.0@.subrange(0, 71) =~= a + b);
            lemma_bits_value_concat(a, b);
            crate::bits::lemma_bits_value_bound(a);
            crate::bits::lemma_bits_value_bound(b);
            lemma2_to64();
            lemma2_to64_rest();
            assert(pow2(39) == 0x80_0000_0000);
            assert(hi as nat * pow2(39) + lo as nat == self.spec_value());
        }
        let mut v: u128 = (hi as u128) * 0x80_0000_0000 + lo as u128;
        let ghost value = v as nat;
        let mut text = [0u8; 13];
        let mut i: usize = 13;
        proof {
            assert(text@.subrange(13, 13) =~= Seq::<u8>::empty());
            assert(Chars::Full.spec_digits(value, 13) =~= Chars::Full.spec_digits(v as nat, 13)
                + text@.subrange(13, 13));
        }
        while i > 0
            invariant
                i <= 13,
                value == self.spec_value(),
                Chars::Full.spec_digits(value, 13) == Chars::Full.spec_digits(v as nat, i as nat)
                    + text@.subrange(i as int, 13),
            decreases i,
        {
            let rem = (v % 42) as u8;
            let next = v / 42;
            let ghost prev = text@;
            i -= 1;
            text[i] = Chars::Full.get(rem);
            proof {
                Chars::Full.lemma_digits_len(next as nat, i as nat);
                assert(Chars::Full.spec_digits(v as nat, (i + 1) as nat)
                    == Chars::Full.spec_digits(next as nat, i as nat).push(
                    Chars::Full.spec_str()[rem as int],
                ));
                assert(text@.subrange(i as int, 13) =~= seq![Chars::Full.spec_str()[rem as int]]
                    + prev.subrange(i + 1, 13));
                assert(Chars::Full.spec_digits(v as nat, (i + 1) as nat) + prev.subrange(i + 1, 13)
                    =~= Chars::Full.spec_digits(next as nat, i as nat) + text@.subrange(
                    i as int,
                    13,
                ));
            }
            v = next;
        }
        proof {
            assert(Chars::Full.spec_digits(v as nat, 0) =~= Seq::<u8>::empty());
            assert(text@.subrange(0, 13) =~= text@);
            assert(text@ =~= self.spec_text());
        }
        write_slice(out, &text)
    }

    /// A text of thirteen characters of the alphabet is rendered as it was
    /// written.
    pub proof fn lemma_text_roundtrip(t: Seq<u8>)
        requires
            t.len() == 13,
            Chars::Full.spec_contains_all(t),
        ensures
            Self::spec_from_string(t) matches Some(f) && f.spec_text() == t,
    {
        assert forall|i: int| 0 <= i < t.len() implies Chars::Full.spec_find(#[trigger] t[i]) is Some
            && to_upper(t[i]) == t[i] by {
            let c = t[i];
            assert(Chars::Full.spec_str().contains(c));
            let k = choose|k: int| 0 <= k < Chars::Full.spec_str().len() && Chars::Full.spec_str()[k] == c;
            Chars::Full.lemma_get_find(k);
        }
        let v = Chars::Full.spec_value(t);
        let bits = value_bits(v, 71) + zero_bits(6);
        let f = Self::spec_from_string(t)->0;
        lemma_value_bits_len(v, 71);
        Bitset::<77, 3>::lemma_exists(bits);
        assert(f.0@ == bits);
        assert(f.0@.subrange(0, 71) =~= value_bits(v, 71));
        lemma_text_value_fits(t);
        crate::bits::lemma_value_bits_roundtrip(v, 71);
        Chars::Full.lemma_digits_of_value(t);
        assert(t.map_values(|c: u8| to_upper(c)) =~= t);
    }

    /// A field whose number is below 42^13 is recovered from its text.
    pub proof fn lemma_field_roundtrip(f: F71)
        requires
            f.wf(),
            f.spec_value() < 1265437718438866624512,
        ensures
            Self::spec_from_string(f.spec_text()) == Some(f),
    {
        let v = f.spec_value();
        let head = f.0@.subrange(0, 71);
        assert(vstd::arithmetic::power::pow(42, 13) == 1265437718438866624512) by {
            reveal_with_fuel(vstd::arithmetic::power::pow, 14);
        }
        Chars::Full.lemma_value_of_digits(v, 13);
        f.0.lemma_view();
        crate::bits::lemma_bits_of_bits_value(head);
        assert(f.0@ =~= head + f.0@.subrange(71, 77));
        f.0.lemma_from_bits();
    }
}

} // verus!
