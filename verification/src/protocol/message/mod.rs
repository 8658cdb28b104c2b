//! The message codec: the shapes of a 77-bit message body, their packing
//! into bits and their rendering as text.
//!
//! The last three bits of a body name its type; within type 0 the three bits
//! before them name a subtype.
use crate::bits::{
    bits_value, lemma_bits_value_bound, lemma_bits_value_zero, lemma_value_bits_len,
    lemma_value_bits_mod, lemma_value_bits_roundtrip, lemma_value_bits_split,
    lemma_value_bits_zero, value_bits, zero_bits, Bitset,
};
use crate::protocol::MessageBits;
use crate::util::{append, spec_trim, spec_write, trim_u8str, write_slice};
use vstd::arithmetic::power2::{lemma2_to64, lemma2_to64_rest, pow2};
use vstd::prelude::*;

pub mod callsign;
pub mod chars;
pub mod freetext;
pub mod grid15;
pub mod roger2;

use callsign::c28::C28;
use callsign::c58::C58;
use callsign::hash::{hash_callsign, spec_hash_callsign, CallsignHash};
use callsign::hashtable::{next_gen, HashTable, HashTableEntry};
use callsign::FullCallsign;
use freetext::F71;
use grid15::G15;
use roger2::R2;

verus! {

/// A telemetry field: 71 opaque bits at the front of a message body, kept
/// with the subtype and type behind them as they stand in the body.
#[derive(Debug, Clone, Copy)]
pub struct T71(pub Bitset<77, 3>);

impl T71 {
    /// Whether the six bits behind the field are the subtype and the type of
    /// a telemetry message.
    pub open spec fn wf(self) -> bool {
        &&& self.0.wf()
        &&& self.0@.subrange(71, 74) == value_bits(4, 3)
        &&& self.0@.subrange(74, 77) == zero_bits(3)
    }
}

/// A message.
#[derive(Debug, Clone, Copy)]
#[allow(inconsistent_fields)]
pub enum Message {
    FreeText(F71),
    DXpedition,
    FieldDay0,
    FieldDay1,
    Telemetry(T71),
    StdMsg { call1: C28, call1_r: bool, call2: C28, call2_r: bool, r: bool, grid: G15 },
    EuVhf { call1: C28, call1_p: bool, call2: C28, call2_p: bool, r: bool, grid: G15 },
    RttyRu,
    NonStdCall { hash: CallsignHash, call: C58, hash_is_second: bool, r: R2, cq: bool },
    EuVhfHash,
}

/// The 74 bits of two callsigns, their flags, the acknowledgement flag and
/// a grid.
pub open spec fn std_bits(call1: C28, f1: bool, call2: C28, f2: bool, r: bool, grid: G15) -> Seq<
    bool,
> {
    value_bits(call1.0 as nat, 28) + seq![f1] + value_bits(call2.0 as nat, 28) + seq![f2] + seq![r]
        + value_bits(grid.0 as nat, 15)
}

/// The 74 bits of a hash, a long callsign and their flags.
pub open spec fn nonstd_bits(hash: CallsignHash, call: C58, second: bool, r: R2, cq: bool) -> Seq<
    bool,
> {
    value_bits(((hash.spec_as_u32() / 1024) % 0x1_0000) as nat, 12) + value_bits(call.0 as nat, 58)
        + seq![second] + value_bits(r.spec_to_val() as nat, 2) + seq![cq]
}

/// The text `/R` or `/P` behind a callsign, or nothing.
pub open spec fn suffix_text(on: bool, letter: u8) -> Seq<u8> {
    if on {
        seq![0x2fu8, letter]
    } else {
        Seq::empty()
    }
}

/// The text of two callsigns with their suffixes, the acknowledgement and
/// the grid, each followed by a space but the last.
pub open spec fn std_text<const N: usize, const M: usize>(
    call1: C28,
    f1: bool,
    call2: C28,
    f2: bool,
    r: bool,
    grid: G15,
    letter: u8,
    table: Option<&HashTable<FullCallsign, N, M>>,
) -> Seq<u8> {
    call1.spec_text(table) + suffix_text(f1, letter) + seq![0x20u8] + call2.spec_text(table)
        + suffix_text(f2, letter) + seq![0x20u8] + (if r {
        seq![0x52u8, 0x20u8]
    } else {
        Seq::empty()
    }) + grid.spec_text()
}

/// The word `DXpedition`.
pub open spec fn text_dxpedition() -> Seq<u8> {
    seq![0x44u8, 0x58u8, 0x70u8, 0x65u8, 0x64u8, 0x69u8, 0x74u8, 0x69u8, 0x6fu8, 0x6eu8]
}

/// The word `FieldDay` followed by the digit `n`.
pub open spec fn text_fieldday(n: u8) -> Seq<u8> {
    seq![0x46u8, 0x69u8, 0x65u8, 0x6cu8, 0x64u8, 0x44u8, 0x61u8, 0x79u8, n]
}

/// The word `Telemetry`.
pub open spec fn text_telemetry() -> Seq<u8> {
    seq![0x54u8, 0x65u8, 0x6cu8, 0x65u8, 0x6du8, 0x65u8, 0x74u8, 0x72u8, 0x79u8]
}

/// The word `RttyRu`.
pub open spec fn text_rttyru() -> Seq<u8> {
    seq![0x52u8, 0x74u8, 0x74u8, 0x79u8, 0x52u8, 0x75u8]
}

/// The word `EuVhfHash`.
pub open spec fn text_euvhfhash() -> Seq<u8> {
    seq![0x45u8, 0x75u8, 0x56u8, 0x68u8, 0x66u8, 0x48u8, 0x61u8, 0x73u8, 0x68u8]
}

proof fn lemma_c58_pieces(v: u64)
    by (bit_vector)
    ensures
        (v >> 38) & 0xf_ffff == (v / 0x40_0000_0000) % 0x10_0000,
        (v >> 6) & 0xffff_ffff == (v / 64) % 0x1_0000_0000,
        v & 0x3f == v % 64,
        (v / 64) / 0x1_0000_0000 == v / 0x40_0000_0000,
{
}

/// The 58 digits of a value are its digits in three fields of 20, 32 and 6
/// bits.
proof fn lemma_c58_bits(v: u64)
    ensures
        value_bits(v as nat, 58) == value_bits(((v / 0x40_0000_0000) % 0x10_0000) as nat, 20)
            + value_bits(((v / 64) % 0x1_0000_0000) as nat, 32) + value_bits((v % 64) as nat, 6),
{
    lemma2_to64();
    lemma2_to64_rest();
    lemma_c58_pieces(v);
    let n = v as nat;
    lemma_value_bits_split(n, 52, 6);
    lemma_value_bits_split(n / 64, 20, 32);
    lemma_value_bits_mod(n / 64, 32);
    lemma_value_bits_mod(n, 6);
    lemma_value_bits_mod(n / 0x40_0000_0000, 20);
    assert((n / 64) / pow2(32) == n / 0x40_0000_0000);
}

impl Message {
    /// Whether each field fits the number of bits that the body has for it,
    /// and the hash is of the twelve-bit form that the body holds.
    pub open spec fn wf(self) -> bool {
        match self {
            Message::FreeText(f) => f.wf(),
            Message::Telemetry(t) => t.wf(),
            Message::StdMsg { call1, call2, grid, .. } => call1.0 < 0x1000_0000 && call2.0
                < 0x1000_0000 && grid.0 < 0x8000,
            Message::EuVhf { call1, call2, grid, .. } => call1.0 < 0x1000_0000 && call2.0
                < 0x1000_0000 && grid.0 < 0x8000,
            Message::NonStdCall { hash, call, .. } => hash is H12 && hash.wf() && call.0
                < 0x400_0000_0000_0000,
            _ => true,
        }
    }

    /// The 77 bits of the message.
    pub open spec fn spec_encode(self) -> Seq<bool> {
        match self {
            Message::FreeText(f) => f.0@.subrange(0, 71) + value_bits(0, 3) + value_bits(0, 3),
            Message::DXpedition => zero_bits(71) + value_bits(1, 3) + value_bits(0, 3),
            Message::FieldDay0 => zero_bits(71) + value_bits(2, 3) + value_bits(0, 3),
            Message::FieldDay1 => zero_bits(71) + value_bits(3, 3) + value_bits(0, 3),
            Message::Telemetry(t) => t.0@.subrange(0, 71) + value_bits(4, 3) + value_bits(0, 3),
            Message::StdMsg { call1, call1_r, call2, call2_r, r, grid } => std_bits(
                call1,
                call1_r,
                call2,
                call2_r,
                r,
                grid,
            ) + value_bits(1, 3),
            Message::EuVhf { call1, call1_p, call2, call2_p, r, grid } => std_bits(
                call1,
                call1_p,
                call2,
                call2_p,
                r,
                grid,
            ) + value_bits(2, 3),
            Message::RttyRu => zero_bits(74) + value_bits(3, 3),
            Message::NonStdCall { hash, call, hash_is_second, r, cq } => nonstd_bits(
                hash,
                call,
                hash_is_second,
                r,
                cq,
            ) + value_bits(4, 3),
            Message::EuVhfHash => zero_bits(74) + value_bits(5, 3),
        }
    }

    /// The message that 77 bits hold; none for a type or subtype that is
    /// not in use.
    pub open spec fn spec_decode(bits: Seq<bool>) -> Option<Message> {
        let i3 = bits_value(bits.subrange(74, 77));
        let n3 = bits_value(bits.subrange(71, 74));
        if i3 == 0 {
            if n3 == 0 {
                Some(Message::FreeText(F71(Bitset::spec_from_bits(bits))))
            } else if n3 == 1 {
                Some(Message::DXpedition)
            } else if n3 == 2 {
                Some(Message::FieldDay0)
            } else if n3 == 3 {
                Some(Message::FieldDay1)
            } else if n3 == 4 {
                Some(Message::Telemetry(T71(Bitset::spec_from_bits(bits))))
            } else {
                None
            }
        } else if i3 == 1 {
            Some(
                Message::StdMsg {
                    call1: C28(bits_value(bits.subrange(0, 28)) as u32),
                    call1_r: bits[28],
                    call2: C28(bits_value(bits.subrange(29, 57)) as u32),
                    call2_r: bits[57],
                    r: bits[58],
                    grid: G15(bits_value(bits.subrange(59, 74)) as u16),
                },
            )
        } else if i3 == 2 {
            Some(
                Message::EuVhf {
                    call1: C28(bits_value(bits.subrange(0, 28)) as u32),
                    call1_p: bits[28],
                    call2: C28(bits_value(bits.subrange(29, 57)) as u32),
                    call2_p: bits[57],
                    r: bits[58],
                    grid: G15(bits_value(bits.subrange(59, 74)) as u16),
                },
            )
        } else if i3 == 3 {
            Some(Message::RttyRu)
        } else if i3 == 4 {
            Some(
                Message::NonStdCall {
                    hash: CallsignHash::H12(bits_value(bits.subrange(0, 12)) as u16),
                    call: C58(bits_value(bits.subrange(12, 70)) as u64),
                    hash_is_second: bits[70],
                    r: R2::spec_from_val(bits_value(bits.subrange(71, 73)) as u8),
                    cq: bits[73],
                },
            )
        } else if i3 == 5 {
            Some(Message::EuVhfHash)
        } else {
            None
        }
    }

    /// The text of the message; hashes are resolved against `table`.
    pub open spec fn spec_text<const N: usize, const M: usize>(
        self,
        table: Option<&HashTable<FullCallsign, N, M>>,
    ) -> Seq<u8> {
        match self {
            Message::FreeText(f) => f.spec_text(),
            Message::DXpedition => text_dxpedition(),
            Message::FieldDay0 => text_fieldday(0x30),
            Message::FieldDay1 => text_fieldday(0x31),
            Message::Telemetry(_) => text_telemetry(),
            Message::StdMsg { call1, call1_r, call2, call2_r, r, grid } => std_text(
                call1,
                call1_r,
                call2,
                call2_r,
                r,
                grid,
                0x52,
                table,
            ),
            Message::EuVhf { call1, call1_p, call2, call2_p, r, grid } => std_text(
                call1,
                call1_p,
                call2,
                call2_p,
                r,
                grid,
                0x50,
                table,
            ),
            Message::RttyRu => text_rttyru(),
            Message::NonStdCall { hash, call, hash_is_second, r, cq } => if cq {
                seq![0x43u8, 0x51u8, 0x20u8] + call.spec_text()
            } else if hash_is_second {
                call.spec_text() + seq![0x20u8] + hash.spec_text(table) + seq![0x20u8]
                    + r.spec_text()
            } else {
                hash.spec_text(table) + seq![0x20u8] + call.spec_text() + seq![0x20u8]
                    + r.spec_text()
            },
            Message::EuVhfHash => text_euvhfhash(),
        }
    }

    /// Decoding undoes encoding.
    pub proof fn lemma_decode_encode(self)
        requires
            self.wf(),
        ensures
            Self::spec_decode(self.spec_encode()) == Some(self),
    {
        let bits = self.spec_encode();
        lemma2_to64();
        lemma2_to64_rest();
        lemma_value_bits_len(0, 3);
        lemma_value_bits_len(1, 3);
        lemma_value_bits_len(2, 3);
        lemma_value_bits_len(3, 3);
        lemma_value_bits_len(4, 3);
        lemma_value_bits_len(5, 3);
        lemma_value_bits_roundtrip(0, 3);
        lemma_value_bits_roundtrip(1, 3);
        lemma_value_bits_roundtrip(2, 3);
        lemma_value_bits_roundtrip(3, 3);
        lemma_value_bits_roundtrip(4, 3);
        lemma_value_bits_roundtrip(5, 3);
        lemma_value_bits_zero(3);
        match self {
            Message::FreeText(f) => {
                f.0.lemma_view();
                assert(bits.subrange(74, 77) =~= value_bits(0, 3));
                assert(bits.subrange(71, 74) =~= value_bits(0, 3));
                assert forall|i: int| 71 <= i < 77 implies f.0@[i] == false by {
                    assert(f.0@.subrange(71, 77)[i - 71] == f.0@[i]);
                }
                assert(bits =~= f.0@);
                f.0.lemma_from_bits();
            },
            Message::Telemetry(t) => {
                t.0.lemma_view();
                assert(bits.subrange(74, 77) =~= value_bits(0, 3));
                assert(bits.subrange(71, 74) =~= value_bits(4, 3));
                assert forall|i: int| 71 <= i < 74 implies t.0@[i] == value_bits(4, 3)[i - 71] by {
                    assert(t.0@.subrange(71, 74)[i - 71] == t.0@[i]);
                }
                assert forall|i: int| 74 <= i < 77 implies t.0@[i] == false by {
                    assert(t.0@.subrange(74, 77)[i - 74] == t.0@[i]);
                }
                assert(bits =~= t.0@);
                t.0.lemma_from_bits();
            },
            Message::DXpedition => {
                assert(bits.subrange(74, 77) =~= value_bits(0, 3));
                assert(bits.subrange(71, 74) =~= value_bits(1, 3));
            },
            Message::FieldDay0 => {
                assert(bits.subrange(74, 77) =~= value_bits(0, 3));
                assert(bits.subrange(71, 74) =~= value_bits(2, 3));
            },
            Message::FieldDay1 => {
                assert(bits.subrange(74, 77) =~= value_bits(0, 3));
                assert(bits.subrange(71, 74) =~= value_bits(3, 3));
            },
            Message::RttyRu => {
                assert(bits.subrange(74, 77) =~= value_bits(3, 3));
            },
            Message::EuVhfHash => {
                assert(bits.subrange(74, 77) =~= value_bits(5, 3));
            },
            Message::StdMsg { call1, call1_r, call2, call2_r, r, grid } => {
                Self::lemma_std_fields(call1, call1_r, call2, call2_r, r, grid, 1);
            },
            Message::EuVhf { call1, call1_p, call2, call2_p, r, grid } => {
                Self::lemma_std_fields(call1, call1_p, call2, call2_p, r, grid, 2);
            },
            Message::NonStdCall { hash, call, hash_is_second, r, cq } => {
                let h = ((hash.spec_as_u32() / 1024) % 0x1_0000) as nat;
                lemma_value_bits_len(h, 12);
                lemma_value_bits_len(call.0 as nat, 58);
                lemma_value_bits_len(r.spec_to_val() as nat, 2);
                lemma_value_bits_roundtrip(h, 12);
                lemma_value_bits_roundtrip(call.0 as nat, 58);
                lemma_value_bits_roundtrip(r.spec_to_val() as nat, 2);
                assert(bits.subrange(74, 77) =~= value_bits(4, 3));
                assert(bits.subrange(0, 12) =~= value_bits(h, 12));
                assert(bits.subrange(12, 70) =~= value_bits(call.0 as nat, 58));
                assert(bits.subrange(71, 73) =~= value_bits(r.spec_to_val() as nat, 2));
                assert(bits[70] == hash_is_second);
                assert(bits[73] == cq);
            },
        }
    }

    proof fn lemma_std_fields(
        call1: C28,
        f1: bool,
        call2: C28,
        f2: bool,
        r: bool,
        grid: G15,
        tag: nat,
    )
        requires
            call1.0 < 0x1000_0000,
            call2.0 < 0x1000_0000,
            grid.0 < 0x8000,
            tag < 8,
        ensures
            ({
                let bits = std_bits(call1, f1, call2, f2, r, grid) + value_bits(tag, 3);
                &&& bits.len() == 77
                &&& bits_value(bits.subrange(74, 77)) == tag
                &&& bits_value(bits.subrange(0, 28)) == call1.0
                &&& bits[28] == f1
                &&& bits_value(bits.subrange(29, 57)) == call2.0
                &&& bits[57] == f2
                &&& bits[58] == r
                &&& bits_value(bits.subrange(59, 74)) == grid.0
            }),
    {
        let bits = std_bits(call1, f1, call2, f2, r, grid) + value_bits(tag, 3);
        lemma2_to64();
        lemma_value_bits_len(call1.0 as nat, 28);
        lemma_value_bits_len(call2.0 as nat, 28);
        lemma_value_bits_len(grid.0 as nat, 15);
        lemma_value_bits_len(tag, 3);
        lemma_value_bits_roundtrip(call1.0 as nat, 28);
        lemma_value_bits_roundtrip(call2.0 as nat, 28);
        lemma_value_bits_roundtrip(grid.0 as nat, 15);
        lemma_value_bits_roundtrip(tag, 3);
        assert(bits.subrange(74, 77) =~= value_bits(tag, 3));
        assert(bits.subrange(0, 28) =~= value_bits(call1.0 as nat, 28));
        assert(bits.subrange(29, 57) =~= value_bits(call2.0 as nat, 28));
        assert(bits.subrange(59, 74) =~= value_bits(grid.0 as nat, 15));
    }

    /// Unpacks a message body; see [`Message::spec_decode`].
    pub fn decode(bs: &MessageBits) -> (r: Option<Self>)
        ensures
            r == Self::spec_decode(bs@),
    {
        bs.witness();
        proof {
            lemma2_to64();
            lemma_bits_value_bound(bs@.subrange(74, 77));
            lemma_bits_value_bound(bs@.subrange(71, 74));
            lemma_bits_value_bound(bs@.subrange(71, 73));
            lemma_bits_value_bound(bs@.subrange(0, 28));
            lemma_bits_value_bound(bs@.subrange(29, 57));
            lemma_bits_value_bound(bs@.subrange(59, 74));
            lemma_bits_value_bound(bs@.subrange(0, 12));
        }
        let i3 = bs.slice(74, 3);
        if i3 == 0 {
            let n3 = bs.slice(71, 3);
            if n3 == 0 {
                Some(Message::FreeText(F71(*bs)))
            } else if n3 == 1 {
                Some(Message::DXpedition)
            } else if n3 == 2 {
                Some(Message::FieldDay0)
            } else if n3 == 3 {
                Some(Message::FieldDay1)
            } else if n3 == 4 {
                Some(Message::Telemetry(T71(*bs)))
            } else {
                None
            }
        } else if i3 == 1 {
            Some(
                Message::StdMsg {
                    call1: C28(bs.slice(0, 28)),
                    call1_r: bs.get(28),
                    call2: C28(bs.slice(29, 28)),
                    call2_r: bs.get(57),
                    r: bs.get(58),
                    grid: G15(bs.slice(59, 15) as u16),
                },
            )
        } else if i3 == 2 {
            Some(
                Message::EuVhf {
                    call1: C28(bs.slice(0, 28)),
                    call1_p: bs.get(28),
                    call2: C28(bs.slice(29, 28)),
                    call2_p: bs.get(57),
                    r: bs.get(58),
                    grid: G15(bs.slice(59, 15) as u16),
                },
            )
        } else if i3 == 3 {
            Some(Message::RttyRu)
        } else if i3 == 4 {
            Some(
                Message::NonStdCall {
                    hash: CallsignHash::H12(bs.slice(0, 12) as u16),
                    call: C58(bs.slice_u64(12, 58)),
                    hash_is_second: bs.get(70),
                    r: R2::from_val(bs.slice(71, 2) as u8),
                    cq: bs.get(73),
                },
            )
        } else if i3 == 5 {
            Some(Message::EuVhfHash)
        } else {
            None
        }
    }

    /// Packs the message into a body; see [`Message::spec_encode`].
    pub fn encode(&self) -> (ret: MessageBits)
        ensures
            ret@ == self.spec_encode(),
    {
        proof {
            lemma_value_bits_zero(3);
            lemma_value_bits_len(0, 3);
            lemma_value_bits_len(1, 3);
            lemma_value_bits_len(2, 3);
            lemma_value_bits_len(3, 3);
            lemma_value_bits_len(4, 3);
            lemma_value_bits_len(5, 3);
        }
        match self {
            Message::FreeText(f71) => {
                let mut ret = f71.0;
                f71.0.witness();
                ret.set_slice(71, 3, 0);
                ret.set_slice(74, 3, 0);
                proof {
                    assert(ret@ =~= self.spec_encode());
                }
                ret
            },
            Message::Telemetry(t71) => {
                let mut ret = t71.0;
                t71.0.witness();
                ret.set_slice(71, 3, 4);
                ret.set_slice(74, 3, 0);
                proof {
                    assert(ret@ =~= self.spec_encode());
                }
                ret
            },
            Message::DXpedition => Self::encode_tags(1, 0),
            Message::FieldDay0 => Self::encode_tags(2, 0),
            Message::FieldDay1 => Self::encode_tags(3, 0),
            Message::RttyRu => {
                let ret = Self::encode_tags(0, 3);
                proof {
                    assert(ret@ =~= self.spec_encode());
                }
                ret
            },
            Message::EuVhfHash => {
                let ret = Self::encode_tags(0, 5);
                proof {
                    assert(ret@ =~= self.spec_encode());
                }
                ret
            },
            Message::StdMsg { call1, call1_r, call2, call2_r, r, grid } => Self::encode_std(
                *call1,
                *call1_r,
                *call2,
                *call2_r,
                *r,
                *grid,
                1,
            ),
            Message::EuVhf { call1, call1_p, call2, call2_p, r, grid } => Self::encode_std(
                *call1,
                *call1_p,
                *call2,
                *call2_p,
                *r,
                *grid,
                2,
            ),
            Message::NonStdCall { hash, call, hash_is_second, r, cq } => {
                let mut ret = MessageBits::new();
                let h = hash.as_h12();
                let v = call.0;
                proof {
                    lemma_c58_pieces(v);
                    lemma_c58_bits(v);
                    lemma_value_bits_len(h as nat, 12);
                    lemma_value_bits_len(((v / 0x40_0000_0000) % 0x10_0000) as nat, 20);
                    lemma_value_bits_len(((v / 64) % 0x1_0000_0000) as nat, 32);
                    lemma_value_bits_len((v % 64) as nat, 6);
                    lemma_value_bits_len(v as nat, 58);
                    lemma_value_bits_len(r.spec_to_val() as nat, 2);
                }
                ret.set_slice(0, 12, h as u32);
                ret.set_slice(12, 20, ((v >> 38) & 0xf_ffff) as u32);
                ret.set_slice(32, 32, ((v >> 6) & 0xffff_ffff) as u32);
                ret.set_slice(64, 6, (v & 0x3f) as u32);
                proof {
                    assert(ret@ =~= value_bits(h as nat, 12) + value_bits(v as nat, 58) + zero_bits(
                        7,
                    ));
                }
                ret.set(70, *hash_is_second);
                ret.set_slice(71, 2, r.to_val() as u32);
                ret.set(73, *cq);
                proof {
                    assert(ret@ =~= nonstd_bits(*hash, *call, *hash_is_second, *r, *cq) + zero_bits(
                        3,
                    ));
                }
                ret.set_slice(74, 3, 4);
                proof {
                    assert(ret@ =~= self.spec_encode());
                }
                ret
            },
        }
    }

    /// A body that holds nothing but a subtype and a type.
    fn encode_tags(n3: u32, i3: u32) -> (ret: MessageBits)
        requires
            n3 < 8,
            i3 < 8,
        ensures
            ret@ == zero_bits(71) + value_bits(n3 as nat, 3) + value_bits(i3 as nat, 3),
    {
        let mut ret = MessageBits::new();
        ret.set_slice(71, 3, n3);
        ret.set_slice(74, 3, i3);
        proof {
            lemma_value_bits_len(n3 as nat, 3);
            lemma_value_bits_len(i3 as nat, 3);
            assert(ret@ =~= zero_bits(71) + value_bits(n3 as nat, 3) + value_bits(i3 as nat, 3));
        }
        ret
    }

    /// A body of two callsigns, their flags, the acknowledgement flag, a
    /// grid and the type.
    fn encode_std(call1: C28, f1: bool, call2: C28, f2: bool, r: bool, grid: G15, i3: u32) -> (ret:
        MessageBits)
        requires
            i3 < 8,
        ensures
            ret@ == std_bits(call1, f1, call2, f2, r, grid) + value_bits(i3 as nat, 3),
    {
        let mut ret = MessageBits::new();
        proof {
            lemma_value_bits_len(call1.0 as nat, 28);
            lemma_value_bits_len(call2.0 as nat, 28);
            lemma_value_bits_len(grid.0 as nat, 15);
            lemma_value_bits_len(i3 as nat, 3);
        }
        ret.set_slice(0, 28, call1.0);
        ret.set(28, f1);
        proof {
            assert(ret@ =~= value_bits(call1.0 as nat, 28) + seq![f1] + zero_bits(48));
        }
        ret.set_slice(29, 28, call2.0);
        ret.set(57, f2);
        ret.set(58, r);
        proof {
            assert(ret@ =~= value_bits(call1.0 as nat, 28) + seq![f1] + value_bits(
                call2.0 as nat,
                28,
            ) + seq![f2] + seq![r] + zero_bits(18));
        }
        ret.set_slice(59, 15, grid.0 as u32);
        ret.set_slice(74, 3, i3);
        proof {
            assert(ret@ =~= std_bits(call1, f1, call2, f2, r, grid) + value_bits(i3 as nat, 3));
        }
        ret
    }
}


/// Whether `post` is `pre` after the callsign `text` was stored in it under
/// its 22-bit hash, left-aligned in eleven bytes. A text that is empty once
/// trimmed, or has no hash, leaves the table as it was.
pub open spec fn registered<const N: usize, const M: usize>(
    pre: &HashTable<FullCallsign, N, M>,
    post: &HashTable<FullCallsign, N, M>,
    text: Seq<u8>,
) -> bool {
    match spec_hash_callsign(text) {
        Some(h) => if spec_trim(text).len() > 0 {
            let key = h.spec_as_u32();
            let t = pre.target_slot(key);
            &&& post.wf()
            &&& post.slots().len() == pre.slots().len()
            &&& post.generation() == next_gen(pre.generation())
            &&& forall|d: int| 0 <= d < pre.slots().len() && d != t ==> post.slots()[d] == pre.slots()[d]
            &&& post.slots()[t] matches Some(e)
            &&& e.key == key
            &&& e.gen == pre.generation()
            &&& e.value@ == callsign::hash::pad_right(spec_trim(text), 11)
            &&& post@.contains_key(key)
            &&& post@[key]@ == callsign::hash::pad_right(spec_trim(text), 11)
        } else {
            post == pre
        },
        None => post == pre,
    }
}

/// Stores a callsign in `table` under its hash; see [`registered`].
pub fn register<const N: usize, const M: usize>(table: &mut HashTable<FullCallsign, N, M>, text: &[u8])
    requires
        old(table).wf(),
    ensures
        final(table).wf(),
        registered(old(table), final(table), text@),
{
    let t = trim_u8str(text);
    if t.len() == 0 {
        return ;
    }
    match hash_callsign(text) {
        Some(h) => {
            let key = h.as_u32();
            let mut value = [0x20u8; 11];
            let mut i: usize = 0;
            while i < t.len()
                invariant
                    i <= t@.len() <= 11,
                    forall|j: int| 0 <= j < i ==> value@[j] == t@[j],
                    forall|j: int| i <= j < 11 ==> value@[j] == 0x20u8,
                decreases t@.len() - i,
            {
                value[i] = t[i];
                i += 1;
            }
            proof {
                assert(value@ =~= callsign::hash::pad_right(t@, 11));
                old(table).lemma_wf();
            }
            table.set(key, value);
        },
        None => {},
    }
}

fn put_c28<const N: usize, const M: usize>(
    buf: &mut [u8],
    pos: usize,
    c: &C28,
    table: Option<&HashTable<FullCallsign, N, M>>,
) -> (n: usize)
    requires
        pos + 24 <= old(buf)@.len(),
        table matches Some(t) ==> t.wf(),
    ensures
        n == pos + c.spec_text(table).len(),
        c.spec_text(table).len() <= 24,
        final(buf)@.len() == old(buf)@.len(),
        final(buf)@.subrange(0, n as int) == old(buf)@.subrange(0, pos as int) + c.spec_text(table),
{
    let mut tmp = [0u8; 24];
    let r = c.write_str(&mut tmp, table);
    let len = r.unwrap();
    proof {
        assert(tmp@.subrange(0, len as int) =~= c.spec_text(table));
    }
    append(buf, pos, vstd::slice::slice_subrange(tmp.as_slice(), 0, len))
}

fn put_hash<const N: usize, const M: usize>(
    buf: &mut [u8],
    pos: usize,
    h: &CallsignHash,
    table: Option<&HashTable<FullCallsign, N, M>>,
) -> (n: usize)
    requires
        pos + 24 <= old(buf)@.len(),
        table matches Some(t) ==> t.wf(),
    ensures
        n == pos + h.spec_text(table).len(),
        h.spec_text(table).len() <= 24,
        final(buf)@.len() == old(buf)@.len(),
        final(buf)@.subrange(0, n as int) == old(buf)@.subrange(0, pos as int) + h.spec_text(table),
{
    let mut tmp = [0u8; 24];
    let r = h.write_str(&mut tmp, table);
    let len = r.unwrap();
    proof {
        assert(tmp@.subrange(0, len as int) =~= h.spec_text(table));
    }
    append(buf, pos, vstd::slice::slice_subrange(tmp.as_slice(), 0, len))
}

fn put_c58(buf: &mut [u8], pos: usize, c: &C58) -> (n: usize)
    requires
        pos + 24 <= old(buf)@.len(),
    ensures
        n == pos + c.spec_text().len(),
        c.spec_text().len() <= 24,
        final(buf)@.len() == old(buf)@.len(),
        final(buf)@.subrange(0, n as int) == old(buf)@.subrange(0, pos as int) + c.spec_text(),
{
    let mut tmp = [0u8; 24];
    let r = c.write_str(&mut tmp);
    let len = r.unwrap();
    proof {
        assert(tmp@.subrange(0, len as int) =~= c.spec_text());
    }
    append(buf, pos, vstd::slice::slice_subrange(tmp.as_slice(), 0, len))
}

fn put_g15(buf: &mut [u8], pos: usize, g: &G15) -> (n: usize)
    requires
        pos + 24 <= old(buf)@.len(),
    ensures
        n == pos + g.spec_text().len(),
        g.spec_text().len() <= 24,
        final(buf)@.len() == old(buf)@.len(),
        final(buf)@.subrange(0, n as int) == old(buf)@.subrange(0, pos as int) + g.spec_text(),
{
    let mut tmp = [0u8; 24];
    let r = g.write_str(&mut tmp);
    let len = r.unwrap();
    proof {
        assert(tmp@.subrange(0, len as int) =~= g.spec_text());
    }
    append(buf, pos, vstd::slice::slice_subrange(tmp.as_slice(), 0, len))
}

fn put_r2(buf: &mut [u8], pos: usize, r2: &R2) -> (n: usize)
    requires
        pos + 24 <= old(buf)@.len(),
    ensures
        n == pos + r2.spec_text().len(),
        r2.spec_text().len() <= 24,
        final(buf)@.len() == old(buf)@.len(),
        final(buf)@.subrange(0, n as int) == old(buf)@.subrange(0, pos as int) + r2.spec_text(),
{
    let mut tmp = [0u8; 24];
    let r = r2.write_str(&mut tmp);
    let len = r.unwrap();
    proof {
        assert(tmp@.subrange(0, len as int) =~= r2.spec_text());
    }
    append(buf, pos, vstd::slice::slice_subrange(tmp.as_slice(), 0, len))
}

fn put_suffix(buf: &mut [u8], pos: usize, on: bool, letter: u8) -> (n: usize)
    requires
        pos + 2 <= old(buf)@.len(),
    ensures
        n == pos + suffix_text(on, letter).len(),
        final(buf)@.len() == old(buf)@.len(),
        final(buf)@.subrange(0, n as int) == old(buf)@.subrange(0, pos as int) + suffix_text(
            on,
            letter,
        ),
{
    if on {
        let t: [u8; 2] = [0x2f, letter];
        proof {
            assert(t@ =~= suffix_text(on, letter));
        }
        append(buf, pos, &t)
    } else {
        proof {
            assert(buf@.subrange(0, pos as int) =~= buf@.subrange(0, pos as int) + suffix_text(
                on,
                letter,
            ));
        }
        pos
    }
}

fn put_byte(buf: &mut [u8], pos: usize, c: u8) -> (n: usize)
    requires
        pos + 1 <= old(buf)@.len(),
    ensures
        n == pos + 1,
        final(buf)@.len() == old(buf)@.len(),
        final(buf)@.subrange(0, n as int) == old(buf)@.subrange(0, pos as int) + seq![c],
{
    let t: [u8; 1] = [c];
    proof {
        assert(t@ =~= seq![c]);
    }
    append(buf, pos, &t)
}

fn put_std<const N: usize, const M: usize>(
    buf: &mut [u8],
    call1: &C28,
    f1: bool,
    call2: &C28,
    f2: bool,
    r: bool,
    grid: &G15,
    letter: u8,
    table: Option<&HashTable<FullCallsign, N, M>>,
) -> (n: usize)
    requires
        old(buf)@.len() == 96,
        table matches Some(t) ==> t.wf(),
    ensures
        n <= 96,
        final(buf)@.len() == 96,
        final(buf)@.subrange(0, n as int) == std_text(*call1, f1, *call2, f2, r, *grid, letter, table),
{
    let n = put_c28(buf, 0, call1, table);
    let n = put_suffix(buf, n, f1, letter);
    let n = put_byte(buf, n, 0x20);
    let n = put_c28(buf, n, call2, table);
    let n = put_suffix(buf, n, f2, letter);
    let n = put_byte(buf, n, 0x20);
    let ghost head = buf@.subrange(0, n as int);
    proof {
        assert(head =~= call1.spec_text(table) + suffix_text(f1, letter) + seq![0x20u8]
            + call2.spec_text(table) + suffix_text(f2, letter) + seq![0x20u8]);
    }
    let n = if r {
        let n = put_byte(buf, n, 0x52);
        put_byte(buf, n, 0x20)
    } else {
        n
    };
    proof {
        assert(buf@.subrange(0, n as int) =~= head + (if r {
            seq![0x52u8, 0x20u8]
        } else {
            Seq::empty()
        }));
    }
    let n = put_g15(buf, n, grid);
    proof {
        assert(buf@.subrange(0, n as int) =~= std_text(
            *call1,
            f1,
            *call2,
            f2,
            r,
            *grid,
            letter,
            table,
        ));
    }
    n
}

impl Message {
    /// Renders the message into the front of `out`; see
    /// [`Message::spec_text`].
    pub fn write_str<const N: usize, const M: usize>(
        &self,
        out: &mut [u8],
        hashtable: Option<&HashTable<FullCallsign, N, M>>,
    ) -> (r: Option<usize>)
        requires
            hashtable matches Some(t) ==> t.wf(),
        ensures
            spec_write(old(out)@, final(out)@, self.spec_text(hashtable), r),
    {
        let mut text = [0u8; 96];
        let n: usize;
        match self {
            Message::FreeText(f71) => {
                return f71.write_str(out);
            },
            Message::DXpedition => {
                let t: [u8; 10] = [0x44, 0x58, 0x70, 0x65, 0x64, 0x69, 0x74, 0x69, 0x6f, 0x6e];
                proof {
                    assert(t@ =~= text_dxpedition());
                }
                return write_slice(out, &t);
            },
            Message::FieldDay0 => {
                let t: [u8; 9] = [0x46, 0x69, 0x65, 0x6c, 0x64, 0x44, 0x61, 0x79, 0x30];
                proof {
                    assert(t@ =~= text_fieldday(0x30));
                }
                return write_slice(out, &t);
            },
            Message::FieldDay1 => {
                let t: [u8; 9] = [0x46, 0x69, 0x65, 0x6c, 0x64, 0x44, 0x61, 0x79, 0x31];
                proof {
                    assert(t@ =~= text_fieldday(0x31));
                }
                return write_slice(out, &t);
            },
            Message::Telemetry(_) => {
                let t: [u8; 9] = [0x54, 0x65, 0x6c, 0x65, 0x6d, 0x65, 0x74, 0x72, 0x79];
                proof {
                    assert(t@ =~= text_telemetry());
                }
                return write_slice(out, &t);
            },
            Message::RttyRu => {
                let t: [u8; 6] = [0x52, 0x74, 0x74, 0x79, 0x52, 0x75];
                proof {
                    assert(t@ =~= text_rttyru());
                }
                return write_slice(out, &t);
            },
            Message::EuVhfHash => {
                let t: [u8; 9] = [0x45, 0x75, 0x56, 0x68, 0x66, 0x48, 0x61, 0x73, 0x68];
                proof {
                    assert(t@ =~= text_euvhfhash());
                }
                return write_slice(out, &t);
            },
            Message::StdMsg { call1, call1_r, call2, call2_r, r, grid } => {
                n = put_std(&mut text, call1, *call1_r, call2, *call2_r, *r, grid, 0x52, hashtable);
            },
            Message::EuVhf { call1, call1_p, call2, call2_p, r, grid } => {
                n = put_std(&mut text, call1, *call1_p, call2, *call2_p, *r, grid, 0x50, hashtable);
            },
            Message::NonStdCall { hash, call, hash_is_second, r, cq } => {
                if *cq {
                    let t: [u8; 3] = [0x43, 0x51, 0x20];
                    let m = append(&mut text, 0, &t);
                    n = put_c58(&mut text, m, call);
                    proof {
                        assert(text@.subrange(0, n as int) =~= self.spec_text(hashtable));
                    }
                } else if *hash_is_second {
                    let m = put_c58(&mut text, 0, call);
                    let m = put_byte(&mut text, m, 0x20);
                    let m = put_hash(&mut text, m, hash, hashtable);
                    let m = put_byte(&mut text, m, 0x20);
                    n = put_r2(&mut text, m, r);
                    proof {
                        assert(text@.subrange(0, n as int) =~= self.spec_text(hashtable));
                    }
                } else {
                    let m = put_hash(&mut text, 0, hash, hashtable);
                    let m = put_byte(&mut text, m, 0x20);
                    let m = put_c58(&mut text, m, call);
                    let m = put_byte(&mut text, m, 0x20);
                    n = put_r2(&mut text, m, r);
                    proof {
                        assert(text@.subrange(0, n as int) =~= self.spec_text(hashtable));
                    }
                }
            },
        }
        write_slice(out, vstd::slice::slice_subrange(text.as_slice(), 0, n))
    }

    /// Stores the standard and long callsigns that the message holds in
    /// `table`, each under its hash; see [`registered`].
    pub fn register_callsigns<const N: usize, const M: usize>(
        &self,
        table: &mut HashTable<FullCallsign, N, M>,
    )
        requires
            old(table).wf(),
        ensures
            final(table).wf(),
            match *self {
                Message::StdMsg { call1, call2, .. } => exists|mid: HashTable<FullCallsign, N, M>|
                    #[trigger] registered(old(table), &mid, call1.spec_callsign()) && registered(
                        &mid,
                        final(table),
                        call2.spec_callsign(),
                    ),
                Message::EuVhf { call1, call2, .. } => exists|mid: HashTable<FullCallsign, N, M>|
                    #[trigger] registered(old(table), &mid, call1.spec_callsign()) && registered(
                        &mid,
                        final(table),
                        call2.spec_callsign(),
                    ),
                Message::NonStdCall { call, .. } => registered(
                    old(table),
                    final(table),
                    call.spec_text(),
                ),
                _ => *final(table) == *old(table),
            },
    {
        match self {
            Message::StdMsg { call1, call2, .. } => {
                Self::register_pair(call1, call2, table);
            },
            Message::EuVhf { call1, call2, .. } => {
                Self::register_pair(call1, call2, table);
            },
            Message::NonStdCall { call, .. } => {
                let mut tmp = [0u8; 24];
                let r = call.write_str(&mut tmp);
                let len = r.unwrap();
                proof {
                    assert(tmp@.subrange(0, len as int) =~= call.spec_text());
                }
                register(table, vstd::slice::slice_subrange(tmp.as_slice(), 0, len));
            },
            _ => {},
        }
    }

    fn register_pair<const N: usize, const M: usize>(
        call1: &C28,
        call2: &C28,
        table: &mut HashTable<FullCallsign, N, M>,
    )
        requires
            old(table).wf(),
        ensures
            final(table).wf(),
            exists|mid: HashTable<FullCallsign, N, M>|
                #[trigger] registered(old(table), &mid, call1.spec_callsign()) && registered(
                    &mid,
                    final(table),
                    call2.spec_callsign(),
                ),
    {
        Self::register_c28(call1, table);
        let ghost mid = *table;
        Self::register_c28(call2, table);
        proof {
            assert(registered(old(table), &mid, call1.spec_callsign()) && registered(
                &mid,
                table,
                call2.spec_callsign(),
            ));
        }
    }

    fn register_c28<const N: usize, const M: usize>(
        call: &C28,
        table: &mut HashTable<FullCallsign, N, M>,
    )
        requires
            old(table).wf(),
        ensures
            final(table).wf(),
            registered(old(table), final(table), call.spec_callsign()),
    {
        let mut text = [0u8; 6];
        if call.callsign(&mut text) {
            register(table, &text);
        } else {
            proof {
                assert(spec_trim(Seq::<u8>::empty()) =~= Seq::<u8>::empty());
            }
        }
    }
}

} // verus!
