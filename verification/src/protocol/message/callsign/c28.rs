//! The 28-bit callsign field.
//!
//! By numeric range a value is one of the words `DE`, `QRZ`, `CQ`; `CQ` with
//! three digits; `CQ` with up to four letters; a reference to a 22-bit hash;
//! or a standard callsign of six characters packed as a mixed-radix number.
use super::hash::CallsignHash;
use super::hashtable::HashTable;
use super::FullCallsign;
use crate::protocol::message::chars::{to_upper, Chars};
use crate::util::{lemma_digit, spec_trim, spec_write, trim_u8str, write_at, write_slice};
use vstd::prelude::*;

verus! {

/// A 28-bit callsign field.
#[derive(Debug, Clone, Copy, PartialEq, Eq, Structural)]
pub struct C28(pub u32);

/// The alphabet of each of the six positions of a standard callsign.
pub open spec fn position_chars(p: int) -> Chars {
    if p == 0 {
        Chars::AlnumSpc
    } else if p == 1 {
        Chars::Alnum
    } else if p == 2 {
        Chars::Numeric
    } else {
        Chars::AlphaSpc
    }
}

/// Whether `call`, placed `ofs` positions from the left, has each of its
/// characters in the alphabet of its position. A call of two characters is
/// never placed at the very left.
pub open spec fn fits_at(call: Seq<u8>, ofs: int) -> bool {
    &&& 0 <= ofs <= 6 - call.len()
    &&& !(call.len() == 2 && ofs == 0)
    &&& forall|i: int|
        0 <= i < call.len() ==> (#[trigger] position_chars(i + ofs)).spec_find(call[i]) is Some
}

/// The first offset at or after `ofs` at which `call` fits.
pub open spec fn first_fit(call: Seq<u8>, ofs: int) -> Option<int>
    decreases 7 - ofs,
{
    if ofs < 0 || ofs > 6 - call.len() {
        None
    } else if fits_at(call, ofs) {
        Some(ofs)
    } else {
        first_fit(call, ofs + 1)
    }
}

/// The six character indices of `call` placed at offset `ofs`; positions
/// that `call` does not cover have index 0.
pub open spec fn indices_at(call: Seq<u8>, ofs: int) -> Seq<u8> {
    Seq::new(
        6,
        |p: int|
            if ofs <= p < ofs + call.len() {
                position_chars(p).spec_index(call[p - ofs]) as u8
            } else {
                0u8
            },
    )
}

/// The normalised form of a callsign of two to six characters: its indices
/// at the first offset at which it fits, if there is one.
pub open spec fn spec_normalize(call: Seq<u8>) -> Option<Seq<u8>> {
    if call.len() < 2 || call.len() > 6 {
        None
    } else {
        match first_fit(call, 0) {
            Some(ofs) => Some(indices_at(call, ofs)),
            None => None,
        }
    }
}

/// Whether six indices lie each within the alphabet of its position.
pub open spec fn valid_indices(idx: Seq<u8>) -> bool {
    &&& idx.len() == 6
    &&& idx[0] < 37
    &&& idx[1] < 36
    &&& idx[2] < 10
    &&& idx[3] < 27
    &&& idx[4] < 27
    &&& idx[5] < 27
}

/// Six indices packed as a mixed-radix number.
pub open spec fn spec_pack(idx: Seq<u8>) -> nat {
    (((((idx[0] as nat * 36 + idx[1] as nat) * 10 + idx[2] as nat) * 27 + idx[3] as nat) * 27
        + idx[4] as nat) * 27 + idx[5] as nat) as nat
}

/// The six indices that a mixed-radix number packs.
pub open spec fn spec_unpack(val: nat) -> Seq<u8> {
    let v1 = val / 27;
    let v2 = v1 / 27;
    let v3 = v2 / 27;
    let v4 = v3 / 10;
    let v5 = v4 / 36;
    seq![
        (v5 % 39) as u8,
        (v4 % 36) as u8,
        (v3 % 10) as u8,
        (v2 % 27) as u8,
        (v1 % 27) as u8,
        (val % 27) as u8,
    ]
}

/// The six characters that stand for six indices.
pub open spec fn indices_text(idx: Seq<u8>) -> Seq<u8> {
    Seq::new(6, |p: int| position_chars(p).spec_str()[idx[p] as int])
}

/// Three decimal digits.
pub open spec fn spec_decimal3(n: nat) -> Seq<u8> {
    seq![(0x30 + n / 100) as u8, (0x30 + (n / 10) % 10) as u8, (0x30 + n % 10) as u8]
}

/// Unpacking undoes packing.
pub proof fn lemma_unpack_pack(idx: Seq<u8>)
    requires
        valid_indices(idx),
    ensures
        spec_pack(idx) < 262177560,
        spec_unpack(spec_pack(idx)) == idx,
{
    let a = idx[0] as int;
    let b = idx[1] as int;
    let c = idx[2] as int;
    let d = idx[3] as int;
    let e = idx[4] as int;
    let f = idx[5] as int;
    let v4 = a * 36 + b;
    let v3 = v4 * 10 + c;
    let v2 = v3 * 27 + d;
    let v1 = v2 * 27 + e;
    let v0 = v1 * 27 + f;
    assert(v0 == spec_pack(idx));
    lemma_digit(v1, f, 27);
    lemma_digit(v2, e, 27);
    lemma_digit(v3, d, 27);
    lemma_digit(v4, c, 10);
    lemma_digit(a, b, 36);
    assert(spec_unpack(v0 as nat) =~= idx);
}

proof fn lemma_first_fit(call: Seq<u8>, k: int)
    requires
        first_fit(call, k) is Some,
    ensures
        fits_at(call, first_fit(call, k)->0),
        k <= first_fit(call, k)->0,
    decreases 7 - k,
{
    if !(k < 0 || k > 6 - call.len()) && !fits_at(call, k) {
        lemma_first_fit(call, k + 1);
    }
}

/// The indices of a normalised callsign lie each within the alphabet of its
/// position.
pub proof fn lemma_normalize_valid(call: Seq<u8>)
    requires
        spec_normalize(call) is Some,
    ensures
        valid_indices(spec_normalize(call)->0),
{
    lemma_first_fit(call, 0);
    let ofs = first_fit(call, 0)->0;
    let idx = indices_at(call, ofs);
    assert forall|p: int| 0 <= p < 6 implies idx[p] < position_chars(p).spec_size() by {
        if ofs <= p < ofs + call.len() {
            position_chars(p).lemma_find(call[p - ofs]);
            assert(position_chars((p - ofs) + ofs).spec_find(call[p - ofs]) is Some);
        }
    }
    assert(idx[0] < position_chars(0).spec_size());
    assert(idx[1] < position_chars(1).spec_size());
    assert(idx[2] < position_chars(2).spec_size());
    assert(idx[3] < position_chars(3).spec_size());
    assert(idx[4] < position_chars(4).spec_size());
    assert(idx[5] < position_chars(5).spec_size());
}

impl C28 {
    /// The value of the word `DE`.
    pub const VALUE_DE: u32 = 0;

    /// The value of the word `QRZ`.
    pub const VALUE_QRZ: u32 = 1;

    /// The value of the word `CQ`.
    pub const VALUE_CQ: u32 = 2;

    /// The first value of `CQ` with three digits.
    pub const VALUE_CQNUM_START: u32 = 3;

    /// The last value of `CQ` with three digits.
    pub const VALUE_CQNUM_END: u32 = 1002;

    /// The first value of `CQ` with letters.
    pub const VALUE_CQZONE_START: u32 = 1003;

    /// The last value of `CQ` with letters.
    pub const VALUE_CQZONE_END: u32 = 532444;

    /// The first value that refers to a hash.
    pub const VALUE_HASH_START: u32 = 2063592;

    /// The last value that refers to a hash.
    pub const VALUE_HASH_END: u32 = 6257895;

    /// The first value of a standard callsign.
    pub const VALUE_CALLSIGN_START: u32 = 6257896;

    /// The last value of a standard callsign.
    pub const VALUE_CALLSIGN_END: u32 = 268435455;

    /// The alphabet of each of the six positions of a standard callsign.
    pub const CHARS: [Chars; 6] = [
        Chars::AlnumSpc,
        Chars::Alnum,
        Chars::Numeric,
        Chars::AlphaSpc,
        Chars::AlphaSpc,
        Chars::AlphaSpc,
    ];

    /// The word `DE`.
    pub fn de() -> (r: Self)
        ensures
            r == C28(0),
    {
        Self(Self::VALUE_DE)
    }

    /// The word `QRZ`.
    pub fn qrz() -> (r: Self)
        ensures
            r == C28(1),
    {
        Self(Self::VALUE_QRZ)
    }

    /// The word `CQ`.
    pub fn cq() -> (r: Self)
        ensures
            r == C28(2),
    {
        Self(Self::VALUE_CQ)
    }

    /// The field for a callsign: its trimmed text, normalised and packed.
    /// There is none for a text that does not normalise.
    pub open spec fn spec_from_call(call: Seq<u8>) -> Option<C28> {
        match spec_normalize(spec_trim(call)) {
            Some(idx) => Some(C28((spec_pack(idx) + 6257896) as u32)),
            None => None,
        }
    }

    /// The text of the field.
    pub open spec fn spec_text<const N: usize, const M: usize>(
        self,
        table: Option<&HashTable<FullCallsign, N, M>>,
    ) -> Seq<u8> {
        let v = self.0;
        if v == 0 {
            seq![0x44u8, 0x45u8]
        } else if v == 1 {
            seq![0x51u8, 0x52u8, 0x5au8]
        } else if v == 2 {
            seq![0x43u8, 0x51u8]
        } else if v <= 1002 {
            seq![0x43u8, 0x51u8, 0x20u8] + spec_decimal3((v - 3) as nat)
        } else if v <= 532444 {
            seq![0x43u8, 0x51u8, 0x20u8] + Chars::AlphaSpc.spec_text((v - 1003) as nat)
        } else if 2063592 <= v <= 6257895 {
            CallsignHash::H22((v - 2063592) as u32).spec_text(table)
        } else if 6257896 <= v <= 268435455 {
            indices_text(spec_unpack((v - 6257896) as nat))
        } else {
            Seq::empty()
        }
    }

    /// The text of the field in exactly seven characters.
    pub open spec fn spec_fixed_text(self) -> Seq<u8> {
        let v = self.0;
        if v == 0 {
            seq![0x44u8, 0x45u8, 0x20u8, 0x20u8, 0x20u8, 0x20u8, 0x20u8]
        } else if v == 1 {
            seq![0x51u8, 0x52u8, 0x5au8, 0x20u8, 0x20u8, 0x20u8, 0x20u8]
        } else if v == 2 {
            seq![0x43u8, 0x51u8, 0x20u8, 0x20u8, 0x20u8, 0x20u8, 0x20u8]
        } else if v <= 1002 {
            seq![0x43u8, 0x51u8, 0x20u8] + spec_decimal3((v - 3) as nat) + seq![0x20u8]
        } else if v <= 532444 {
            seq![0x43u8, 0x51u8, 0x20u8] + Chars::AlphaSpc.spec_digits((v - 1003) as nat, 4)
        } else if 2063592 <= v <= 6257895 {
            seq![0x3cu8, 0x2eu8, 0x2eu8, 0x2eu8, 0x2eu8, 0x2eu8, 0x3eu8]
        } else if 6257896 <= v <= 268435455 {
            indices_text(spec_unpack((v - 6257896) as nat)) + seq![0x20u8]
        } else {
            seq![0x45u8, 0x52u8, 0x52u8, 0x4fu8, 0x52u8, 0x20u8, 0x20u8]
        }
    }

    /// Finds the placement of a callsign among the six positions and stores
    /// the index of each character; see [`spec_normalize`].
    pub fn normalize_callsign(call: &[u8], idx: &mut [u8; 6]) -> (ok: bool)
        ensures
            ok == spec_normalize(call@) is Some,
            ok ==> final(idx)@ == spec_normalize(call@)->0 && valid_indices(final(idx)@),
    {
        let len = call.len();
        if len < 2 || len > 6 {
            return false;
        }
        let mut ofs: usize = 0;
        while ofs <= 6 - len
            invariant
                2 <= len <= 6,
                len == call@.len(),
                ofs <= 7 - len,
                first_fit(call@, 0) == first_fit(call@, ofs as int),
            decreases 7 - len - ofs,
        {
            let mut fit = !(len == 2 && ofs == 0);
            let mut next = [0u8; 6];
            let mut i: usize = 0;
            while i < len && fit
                invariant
                    2 <= len <= 6,
                    len == call@.len(),
                    ofs <= 6 - len,
                    i <= len,
                    fit ==> !(len == 2 && ofs == 0),
                    fit ==> forall|j: int|
                        0 <= j < i ==> (#[trigger] position_chars(j + ofs)).spec_find(call@[j]) is Some,
                    !fit ==> !fits_at(call@, ofs as int),
                    fit ==> forall|p: int|
                        0 <= p < 6 ==> next@[p] == (if ofs <= p < ofs + i {
                            position_chars(p).spec_index(call@[p - ofs]) as u8
                        } else {
                            0u8
                        }),
                decreases len - i + (if fit { 1int } else { 0int }),
            {
                let cs = Self::CHARS[i + ofs];
                assert(cs == position_chars(i + ofs));
                match cs.find(call[i]) {
                    Some(x) => {
                        next[i + ofs] = x;
                        i += 1;
                    },
                    None => {
                        fit = false;
                        proof {
                            assert(position_chars(i + ofs).spec_find(call@[i as int]) is None);
                        }
                    },
                }
            }
            if fit {
                *idx = next;
                proof {
                    assert(fits_at(call@, ofs as int));
                    assert(idx@ =~= indices_at(call@, ofs as int));
                    assert forall|p: int| 0 <= p < 6 implies idx@[p] < position_chars(
                        p,
                    ).spec_size() by {
                        if ofs <= p < ofs + len {
                            position_chars(p).lemma_find(call@[p - ofs]);
                            assert(position_chars((p - ofs) + ofs).spec_find(call@[p - ofs]) is Some);
                        }
                    }
                    assert(idx@[0] < position_chars(0).spec_size());
                    assert(idx@[1] < position_chars(1).spec_size());
                    assert(idx@[2] < position_chars(2).spec_size());
                    assert(idx@[3] < position_chars(3).spec_size());
                    assert(idx@[4] < position_chars(4).spec_size());
                    assert(idx@[5] < position_chars(5).spec_size());
                }
                return true;
            }
            ofs += 1;
        }
        false
    }

    /// Encodes a standard callsign; see [`C28::spec_from_call`].
    pub fn from_call(call: &[u8]) -> (r: Option<Self>)
        ensures
            r == Self::spec_from_call(call@),
    {
        let call = trim_u8str(call);
        let mut idx = [0u8; 6];
        if !Self::normalize_callsign(call, &mut idx) {
            return None;
        }
        let mut val: u32 = idx[0] as u32;
        val = val * 36 + idx[1] as u32;
        val = val * 10 + idx[2] as u32;
        val = val * 27 + idx[3] as u32;
        val = val * 27 + idx[4] as u32;
        val = val * 27 + idx[5] as u32;
        proof {
            lemma_unpack_pack(idx@);
        }
        Some(Self(val + Self::VALUE_CALLSIGN_START))
    }

    /// The field that refers to the 22-bit hash `hash`.
    pub fn from_hash(hash: u32) -> (r: Self)
        requires
            hash < 0x40_0000,
        ensures
            r.0 == hash + 2063592,
            r.spec_is_hash(),
    {
        Self(hash + Self::VALUE_HASH_START)
    }

    /// Whether the field refers to a hash.
    pub open spec fn spec_is_hash(self) -> bool {
        2063592 <= self.0 <= 6257895
    }

    /// Whether the field refers to a hash.
    pub fn is_hash(&self) -> (r: bool)
        ensures
            r == self.spec_is_hash(),
    {
        Self::VALUE_HASH_START <= self.0 && self.0 <= Self::VALUE_HASH_END
    }

    /// Writes the six characters of the standard callsign packed in `val`.
    fn num_to_call(val: u32, out: &mut [u8; 6])
        requires
            val < 262177560,
        ensures
            final(out)@ == indices_text(spec_unpack(val as nat)),
    {
        let mut v = val;
        let mut idx = [0u8; 6];
        idx[5] = (v % 27) as u8;
        v /= 27;
        idx[4] = (v % 27) as u8;
        v /= 27;
        idx[3] = (v % 27) as u8;
        v /= 27;
        idx[2] = (v % 10) as u8;
        v /= 10;
        idx[1] = (v % 36) as u8;
        v /= 36;
        idx[0] = (v % 39) as u8;
        proof {
            assert(idx@ =~= spec_unpack(val as nat));
            assert(idx@[0] < 37);
        }
        let mut i: usize = 0;
        while i < 6
            invariant
                i <= 6,
                idx@ == spec_unpack(val as nat),
                idx@[0] < 37,
                forall|p: int|
                    0 <= p < i ==> out@[p] == position_chars(p).spec_str()[idx@[p] as int],
            decreases 6 - i,
        {
            let cs = Self::CHARS[i];
            assert(cs == position_chars(i as int));
            out[i] = cs.get(idx[i]);
            i += 1;
        }
        proof {
            assert(out@ =~= indices_text(spec_unpack(val as nat)));
        }
    }

    /// A callsign that can be encoded is rendered in its normalised form:
    /// six characters, each that of its index.
    pub proof fn lemma_call_roundtrip<const N: usize, const M: usize>(
        call: Seq<u8>,
        table: Option<&HashTable<FullCallsign, N, M>>,
    )
        requires
            Self::spec_from_call(call) is Some,
        ensures
            Self::spec_from_call(call)->0.spec_text(table) == indices_text(
                spec_normalize(spec_trim(call))->0,
            ),
            Self::spec_from_call(call)->0.spec_callsign() == indices_text(
                spec_normalize(spec_trim(call))->0,
            ),
    {
        let idx = spec_normalize(spec_trim(call))->0;
        lemma_normalize_valid(spec_trim(call));
        lemma_unpack_pack(idx);
    }

    /// The six characters of the standard callsign that the field packs;
    /// nothing for a field of another kind.
    pub open spec fn spec_callsign(self) -> Seq<u8> {
        if 6257896 <= self.0 <= 268435455 {
            indices_text(spec_unpack((self.0 - 6257896) as nat))
        } else {
            Seq::empty()
        }
    }

    /// Writes the standard callsign that the field packs, if it packs one.
    pub fn callsign(&self, out: &mut [u8; 6]) -> (ok: bool)
        ensures
            ok == (6257896 <= self.0 <= 268435455),
            ok ==> final(out)@ == self.spec_callsign(),
            !ok ==> final(out)@ == old(out)@,
    {
        if Self::VALUE_CALLSIGN_START <= self.0 && self.0 <= Self::VALUE_CALLSIGN_END {
            Self::num_to_call(self.0 - Self::VALUE_CALLSIGN_START, out);
            true
        } else {
            false
        }
    }

    /// Renders the field into the front of `out`; see [`C28::spec_text`].
    pub fn write_str<const N: usize, const M: usize>(
        &self,
        out: &mut [u8],
        hashtable: Option<&HashTable<FullCallsign, N, M>>,
    ) -> (r: Option<usize>)
        requires
            hashtable matches Some(t) ==> t.wf(),
        ensures
            spec_write(old(out)@, final(out)@, self.spec_text(hashtable), r),
            self.spec_text(hashtable).len() <= 24,
    {
        let v = self.0;
        if v == Self::VALUE_DE {
            let text: [u8; 2] = [0x44, 0x45];
            write_slice(out, &text)
        } else if v == Self::VALUE_QRZ {
            let text: [u8; 3] = [0x51, 0x52, 0x5a];
            write_slice(out, &text)
        } else if v == Self::VALUE_CQ {
            let text: [u8; 2] = [0x43, 0x51];
            write_slice(out, &text)
        } else if v <= Self::VALUE_CQNUM_END {
            let num = v - Self::VALUE_CQNUM_START;
            let text: [u8; 6] = [
                0x43,
                0x51,
                0x20,
                0x30 + (num / 100) as u8,
                0x30 + ((num / 10) % 10) as u8,
                0x30 + (num % 10) as u8,
            ];
            proof {
                assert(text@ =~= self.spec_text(hashtable));
            }
            write_slice(out, &text)
        } else if v <= Self::VALUE_CQZONE_END {
            let mut digits = [0u8; 20];
            let pos = Chars::AlphaSpc.render((v - Self::VALUE_CQZONE_START) as u64, &mut digits);
            let mut text = [0u8; 24];
            text[0] = 0x43;
            text[1] = 0x51;
            text[2] = 0x20;
            let n = write_at(&mut text, 3, vstd::slice::slice_subrange(digits.as_slice(), pos, 20));
            let n = n.unwrap();
            proof {
                assert(text@.subrange(0, n as int) =~= self.spec_text(hashtable));
            }
            write_slice(out, vstd::slice::slice_subrange(text.as_slice(), 0, n))
        } else if Self::VALUE_HASH_START <= v && v <= Self::VALUE_HASH_END {
            let hash = CallsignHash::H22(v - Self::VALUE_HASH_START);
            hash.write_str(out, hashtable)
        } else if Self::VALUE_CALLSIGN_START <= v && v <= Self::VALUE_CALLSIGN_END {
            let mut text = [0u8; 6];
            Self::num_to_call(v - Self::VALUE_CALLSIGN_START, &mut text);
            write_slice(out, &text)
        } else {
            proof {
                assert(out@ =~= Seq::<u8>::empty() + out@.subrange(0, out@.len() as int));
            }
            Some(0)
        }
    }

    /// Renders the field into exactly seven characters; see
    /// [`C28::spec_fixed_text`].
    pub fn to_string(&self, out: &mut [u8; 7])
        ensures
            final(out)@ == self.spec_fixed_text(),
    {
        let v = self.0;
        if v == Self::VALUE_DE {
            *out = [0x44, 0x45, 0x20, 0x20, 0x20, 0x20, 0x20];
        } else if v == Self::VALUE_QRZ {
            *out = [0x51, 0x52, 0x5a, 0x20, 0x20, 0x20, 0x20];
        } else if v == Self::VALUE_CQ {
            *out = [0x43, 0x51, 0x20, 0x20, 0x20, 0x20, 0x20];
        } else if v <= Self::VALUE_CQNUM_END {
            let num = v - Self::VALUE_CQNUM_START;
            *out = [
                0x43,
                0x51,
                0x20,
                0x30 + (num / 100) as u8,
                0x30 + ((num / 10) % 10) as u8,
                0x30 + (num % 10) as u8,
                0x20,
            ];
            proof {
                assert(out@ =~= self.spec_fixed_text());
            }
        } else if v <= Self::VALUE_CQZONE_END {
            let mut alphas = [0u8; 4];
            num_to_alphas(v - Self::VALUE_CQZONE_START, &mut alphas);
            *out = [0x43, 0x51, 0x20, alphas[0], alphas[1], alphas[2], alphas[3]];
            proof {
                assert(out@ =~= self.spec_fixed_text());
            }
        } else if Self::VALUE_HASH_START <= v && v <= Self::VALUE_HASH_END {
            *out = [0x3c, 0x2e, 0x2e, 0x2e, 0x2e, 0x2e, 0x3e];
        } else if Self::VALUE_CALLSIGN_START <= v && v <= Self::VALUE_CALLSIGN_END {
            let mut text = [0u8; 6];
            Self::num_to_call(v - Self::VALUE_CALLSIGN_START, &mut text);
            *out = [text[0], text[1], text[2], text[3], text[4], text[5], 0x20];
            proof {
                assert(out@ =~= self.spec_fixed_text());
            }
        } else {
            *out = [0x45, 0x52, 0x52, 0x4f, 0x52, 0x20, 0x20];
        }
    }
}

/// The base-26 value of a string of upper-case letters.
pub open spec fn spec_alphas_value(s: Seq<u8>) -> nat
    decreases s.len(),
{
    if s.len() == 0 {
        0
    } else {
        (spec_alphas_value(s.drop_last()) * 26 + (s.last() - 0x41)) as nat
    }
}

spec fn pow26(e: nat) -> nat
    decreases e,
{
    if e == 0 {
        1
    } else {
        26 * pow26((e - 1) as nat)
    }
}

proof fn lemma_alphas_bound(s: Seq<u8>)
    requires
        forall|i: int| 0 <= i < s.len() ==> 0x41 <= #[trigger] s[i] <= 0x5a,
    ensures
        spec_alphas_value(s) < pow26(s.len()),
    decreases s.len(),
{
    if s.len() > 0 {
        let t = s.drop_last();
        assert forall|i: int| 0 <= i < t.len() implies 0x41 <= #[trigger] t[i] <= 0x5a by {
            assert(t[i] == s[i]);
        }
        lemma_alphas_bound(t);
        assert(0x41 <= s[s.len() - 1] <= 0x5a);
    }
}

/// Reads up to six upper-case letters as a number in base 26.
pub fn alphas_to_num(seq: &[u8]) -> (val: u32)
    requires
        seq@.len() <= 6,
        forall|i: int| 0 <= i < seq@.len() ==> 0x41 <= #[trigger] seq@[i] <= 0x5a,
    ensures
        val == spec_alphas_value(seq@),
{
    let mut val: u32 = 0;
    let mut i: usize = 0;
    proof {
        assert(seq@.subrange(0, 0) =~= Seq::<u8>::empty());
    }
    while i < seq.len()
        invariant
            i <= seq@.len() <= 6,
            forall|i: int| 0 <= i < seq@.len() ==> 0x41 <= #[trigger] seq@[i] <= 0x5a,
            val == spec_alphas_value(seq@.subrange(0, i as int)),
        decreases seq@.len() - i,
    {
        proof {
            let head = seq@.subrange(0, i as int);
            let next = seq@.subrange(0, i + 1);
            assert(next.drop_last() =~= head);
            assert(next.last() == seq@[i as int]);
            assert forall|j: int| 0 <= j < head.len() implies 0x41 <= #[trigger] head[j]
                <= 0x5a by {
                assert(head[j] == seq@[j]);
            }
            lemma_alphas_bound(head);
            reveal_with_fuel(pow26, 7);
            assert(pow26(i as nat) <= pow26(5)) by {
                lemma_pow26_mono(i as nat, 5);
            }
        }
        val = val * 26 + (seq[i] - 0x41) as u32;
        i += 1;
    }
    proof {
        assert(seq@.subrange(0, seq@.len() as int) =~= seq@);
    }
    val
}

proof fn lemma_pow26_mono(a: nat, b: nat)
    requires
        a <= b,
    ensures
        pow26(a) <= pow26(b),
    decreases b,
{
    if a < b {
        lemma_pow26_mono(a, (b - 1) as nat);
    }
}

/// Writes the four low base-27 digits of `val` as letters, space for 0.
pub fn num_to_alphas(val: u32, seq: &mut [u8; 4])
    ensures
        final(seq)@ == Chars::AlphaSpc.spec_digits(val as nat, 4),
{
    let d3 = (val % 27) as u8;
    let v1 = val / 27;
    let d2 = (v1 % 27) as u8;
    let v2 = v1 / 27;
    let d1 = (v2 % 27) as u8;
    let v3 = v2 / 27;
    let d0 = (v3 % 27) as u8;
    seq[0] = Chars::AlphaSpc.get(d0);
    seq[1] = Chars::AlphaSpc.get(d1);
    seq[2] = Chars::AlphaSpc.get(d2);
    seq[3] = Chars::AlphaSpc.get(d3);
    proof {
        reveal_with_fuel(Chars::spec_digits, 5);
        assert(seq@ =~= Chars::AlphaSpc.spec_digits(val as nat, 4));
    }
}

} // verus!
