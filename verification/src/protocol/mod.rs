//! The frame format: constants, the symbol map, the checksum and the
//! error-correcting code.
//!
//! A frame is three synchronisation markers round two halves of a payload;
//! the payload is a message body, its checksum and the parity bits.
use crate::bits::{bits_value, lemma_bits_value_bound, Bitset};
use vstd::prelude::*;

pub mod crc;
pub mod ldpc;
pub mod message;

verus! {

/// Symbols in the payload.
pub const PAYLOAD_LEN: usize = 58;

/// Symbols in half of the payload.
pub const PAYLOAD_HALF_LEN: usize = 29;

/// Bits per symbol.
pub const FSK_DEPTH: usize = 3;

/// Tones.
pub const FSK_ARITY: usize = 8;

/// Symbols in a synchronisation marker.
pub const COSTAS_SIZE: usize = 7;

/// Symbols in a frame.
pub const MESSAGE_LEN: usize = 79;

/// Bits in the payload.
pub const PAYLOAD_BITS: usize = 174;

/// Bits in the message body.
pub const BODY_BITS: usize = 77;

/// Bits in the checksum.
pub const CRC_BITS: usize = 14;

/// The tones of a synchronisation marker.
pub const MARKER_COSTAS: [usize; 7] = [3, 1, 4, 0, 6, 5, 2];

/// The tone that stands for each value of three bits.
pub const GRAY_CODE: [u8; 8] = [0, 1, 3, 2, 5, 6, 4, 7];

/// The value of three bits that each tone stands for.
pub const GRAY_CODE_INV: [u8; 8] = [0, 1, 3, 2, 6, 4, 5, 7];

/// A message body.
pub type MessageBits = Bitset<77, 3>;

/// A message body followed by its checksum.
pub type MessageBitsWithCRC = Bitset<91, 3>;

/// A whole payload.
pub type FullMessageBits = Bitset<174, 6>;


/// The tone of the three payload bits of symbol `m`.
pub open spec fn payload_symbol(data: Seq<bool>, m: int) -> u8 {
    GRAY_CODE[bits_value(data.subrange(3 * m, 3 * m + 3)) as int]
}

/// The position in the frame of payload symbol `m`.
pub open spec fn payload_pos(m: int) -> int {
    if m < 29 {
        m + 7
    } else {
        m + 14
    }
}

/// The tone at position `k` of the frame of a payload: a marker tone in
/// each of the three markers, and elsewhere the tone of three payload bits.
pub open spec fn spec_symbol(data: Seq<bool>, k: int) -> u8 {
    if k < 7 {
        MARKER_COSTAS[k] as u8
    } else if k < 36 {
        GRAY_CODE[bits_value(data.subrange(3 * (k - 7), 3 * (k - 7) + 3)) as int]
    } else if k < 43 {
        MARKER_COSTAS[k - 36] as u8
    } else if k < 72 {
        GRAY_CODE[bits_value(data.subrange(3 * (k - 14), 3 * (k - 14) + 3)) as int]
    } else {
        MARKER_COSTAS[k - 72] as u8
    }
}

/// The 79 tones of the frame of a payload.
pub fn encode_symbols(data: &FullMessageBits) -> (ret: [u8; 79])
    ensures
        ret@ == Seq::new(79, |k: int| spec_symbol(data@, k)),
{
    data.witness();
    let mut ret = [0u8; 79];
    let mut i: usize = 0;
    while i < COSTAS_SIZE
        invariant
            i <= 7,
            forall|k: int|
                0 <= k < i ==> ret@[k] == MARKER_COSTAS[k] as u8 && ret@[k + 36]
                    == MARKER_COSTAS[k] as u8 && ret@[k + 72] == MARKER_COSTAS[k] as u8,
        decreases 7 - i,
    {
        let v = MARKER_COSTAS[i] as u8;
        ret[i] = v;
        ret[i + PAYLOAD_HALF_LEN + 7] = v;
        ret[i + PAYLOAD_LEN + 14] = v;
        i += 1;
    }
    let mut j: usize = 0;
    while j < PAYLOAD_LEN
        invariant
            j <= 58,
            data@.len() == 174,
            forall|k: int|
                0 <= k < 7 ==> ret@[k] == MARKER_COSTAS[k] as u8 && ret@[k + 36]
                    == MARKER_COSTAS[k] as u8 && ret@[k + 72] == MARKER_COSTAS[k] as u8,
            forall|m: int|
                0 <= m < j ==> ret@[payload_pos(m)] == #[trigger] payload_symbol(data@, m),
        decreases 58 - j,
    {
        proof {
            lemma_bits_value_bound(data@.subrange(3 * j, 3 * j + 3));
            vstd::arithmetic::power2::lemma2_to64();
        }
        let v = data.slice(j * FSK_DEPTH, FSK_DEPTH);
        let pos = if j < PAYLOAD_HALF_LEN {
            j + 7
        } else {
            j + 14
        };
        ret[pos] = GRAY_CODE[v as usize];
        j += 1;
    }
    proof {
        assert forall|k: int| 0 <= k < 79 implies ret@[k] == spec_symbol(data@, k) by {
            if k < 7 {
            } else if k < 36 {
                let m = k - 7;
                assert(ret@[payload_pos(m)] == payload_symbol(data@, m));
            } else if k < 43 {
                assert(ret@[(k - 36) + 36] == MARKER_COSTAS[k - 36] as u8);
            } else if k < 72 {
                let m = k - 14;
                assert(ret@[payload_pos(m)] == payload_symbol(data@, m));
            } else {
                assert(ret@[(k - 72) + 72] == MARKER_COSTAS[k - 72] as u8);
            }
        }
        assert(ret@ =~= Seq::new(79, |k: int| spec_symbol(data@, k)));
    }
    ret
}

} // verus!
