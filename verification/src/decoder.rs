//! The timetable of the streaming decoder.
//!
//! Spectra arrive one every quarter of a symbol and are kept in a ring that
//! spans two markers and the half payload between them. Once the ring is
//! full the decoder searches for markers, for half a ring's length; from
//! then on it reads the symbols of the candidates it found as they arrive.
//! These functions decide which rows of the ring and which symbols are read
//! at each step; the arithmetic on the magnitudes is not done here.
use crate::bits::value_bits;
use crate::protocol::{GRAY_CODE, MARKER_COSTAS};
use vstd::prelude::*;

verus! {

/// Bins in a spectrum.
pub const SPECTRUM_SIZE: usize = 1024;

/// Spectra per symbol.
pub const TIME_SCALE: usize = 4;

/// Bins per tone.
pub const FREQ_SCALE: usize = 2;

/// Bins that the eight tones of a symbol span.
pub const FREQ_WIDTH: usize = 15;

/// Symbols that the ring spans.
pub const BUFFER_SYMBOLS: usize = 43;

/// Spectra in the ring.
pub const BUFFER_SIZE: usize = 169;

/// Bins per candidate.
pub const CANDIDATES_BUCKET_SIZE: usize = 8;

/// Candidates.
pub const CANDIDATES_COUNT: usize = 128;

/// What the decoder does with a new spectrum.
#[derive(Debug, Clone, Copy, PartialEq, Eq, Structural)]
pub enum Phase {
    /// The ring is not full yet.
    Filling,
    /// Markers are searched for.
    Searching,
    /// Only the symbols of known candidates are read.
    Tracking,
}

/// The phase at `time_step`: filling until the ring is full, then searching
/// for half a ring's length, then tracking.
pub open spec fn spec_phase(time_step: int) -> Phase {
    if time_step < 168 {
        Phase::Filling
    } else if time_step < 253 {
        Phase::Searching
    } else {
        Phase::Tracking
    }
}

/// The payload symbol that a candidate first seen at `dt` has at
/// `time_step`, if a symbol of it begins there.
pub open spec fn spec_trailing_symbol(time_step: int, dt: int) -> Option<usize> {
    let d = time_step - dt;
    if d % 4 == 0 && 14 <= d / 4 < 72 {
        Some((d / 4 - 14) as usize)
    } else {
        None
    }
}

/// The row of the ring that the spectrum of `time_step` is written to.
pub fn buffer_index(time_step: usize) -> (r: usize)
    ensures
        r == time_step % 169,
{
    time_step % BUFFER_SIZE
}

/// The phase at `time_step`.
pub fn phase(time_step: usize) -> (r: Phase)
    ensures
        r == spec_phase(time_step as int),
{
    if time_step < BUFFER_SIZE - 1 {
        Phase::Filling
    } else if time_step < BUFFER_SIZE * 3 / 2 {
        Phase::Searching
    } else {
        Phase::Tracking
    }
}

/// The row of the ring that holds symbol `k` of the first marker, for
/// `block` 0, or of the second, for `block` 1, of a frame that starts with
/// the oldest spectrum.
pub fn costas_row(time_step: usize, block: usize, k: usize) -> (r: usize)
    requires
        time_step <= usize::MAX - 200,
        block < 2,
        k < 7,
    ensures
        r == (time_step + (if block == 0 {
            1int
        } else {
            145int
        }) + 4 * k) % 169,
        r < 169,
{
    let j = if block == 0 {
        1
    } else {
        BUFFER_SIZE - 24
    };
    (time_step + j + k * TIME_SCALE) % BUFFER_SIZE
}

/// The row of the ring that holds payload symbol `j` of the first half of
/// a frame that starts with the oldest spectrum.
pub fn payload_row(time_step: usize, j: usize) -> (r: usize)
    requires
        time_step <= usize::MAX - 200,
        j < 29,
    ensures
        r == (time_step + 1 + 4 * (7 + j)) % 169,
        r < 169,
{
    (time_step + 1 + (7 + j) * TIME_SCALE) % BUFFER_SIZE
}

/// The step at which a frame began whose markers are found at `time_step`.
pub fn frame_start(time_step: usize) -> (dt: usize)
    requires
        time_step >= 168,
    ensures
        dt == time_step - 168,
{
    time_step - (BUFFER_SIZE - 1)
}

/// The payload symbol to read at `time_step` for a candidate that began at
/// `dt`; see [`spec_trailing_symbol`].
pub fn trailing_symbol(time_step: usize, dt: usize) -> (r: Option<usize>)
    requires
        dt <= time_step,
    ensures
        r == spec_trailing_symbol(time_step as int, dt as int),
        r matches Some(i) ==> i < 58,
{
    let d = time_step - dt;
    if d % TIME_SCALE != 0 {
        return None;
    }
    let s = d / TIME_SCALE;
    if s < 14 || s - 14 >= 58 {
        return None;
    }
    Some(s - 14)
}

/// The candidate that a signal at bin `freq` belongs to.
pub fn bucket(freq: usize) -> (r: usize)
    ensures
        r == freq / 8,
        freq < 1024 ==> r < 128,
{
    freq / CANDIDATES_BUCKET_SIZE
}

/// The bin, counted from the lowest tone, of symbol `k` of a marker.
pub fn marker_bin(k: usize) -> (r: usize)
    requires
        k < 7,
    ensures
        r == MARKER_COSTAS[k as int] * 2,
        r <= 12,
{
    MARKER_COSTAS[k] * FREQ_SCALE
}

proof fn lemma_tone_bit(g: u8, j: u32)
    by (bit_vector)
    requires
        g < 8,
        j < 3,
    ensures
        ((g & (4u8 >> j)) != 0) == (((g as u64) >> ((2 - j) as u64)) & 1 == 1),
{
}

/// Whether bit `j` of the three bits that `tone` stands for is set.
pub fn tone_bit(tone: usize, j: usize) -> (r: bool)
    requires
        tone < 8,
        j < 3,
    ensures
        r == value_bits(GRAY_CODE[tone as int] as nat, 3)[j as int],
{
    let g = GRAY_CODE[tone];
    proof {
        lemma_tone_bit(g, j as u32);
        crate::bits::lemma_value_bits_index(g as u64, 3, j as int);
    }
    g & (4u8 >> j) != 0
}


/// Whether `i` is the place of the strongest tone: the last of the greatest
/// keys at even places.
pub open spec fn spec_strongest(keys: Seq<u32>, i: int) -> bool {
    &&& 0 <= i < keys.len()
    &&& i % 2 == 0
    &&& forall|j: int| 0 <= j < keys.len() && j % 2 == 0 ==> #[trigger] keys[j] <= keys[i]
    &&& forall|j: int| i < j < keys.len() && j % 2 == 0 ==> #[trigger] keys[j] < keys[i]
}

/// Whether `i` is the place of the weakest bin: the first of the least keys.
pub open spec fn spec_weakest(keys: Seq<u32>, i: int) -> bool {
    &&& 0 <= i < keys.len()
    &&& forall|j: int| 0 <= j < keys.len() ==> keys[i] <= #[trigger] keys[j]
    &&& forall|j: int| 0 <= j < i ==> keys[i] < #[trigger] keys[j]
}

/// The place of the strongest tone among the bins of a symbol, which hold
/// a tone at every other place; see [`spec_strongest`].
pub fn strongest_tone(keys: &[u32]) -> (i: usize)
    requires
        keys@.len() >= 1,
    ensures
        spec_strongest(keys@, i as int),
{
    let n = keys.len();
    let mut best: usize = 0;
    let mut j: usize = 0;
    while n - j > 2
        invariant
            j < n,
            j % 2 == 0,
            n == keys@.len(),
            best <= j,
            best % 2 == 0,
            forall|k: int| 0 <= k <= j && k % 2 == 0 ==> #[trigger] keys@[k] <= keys@[best as int],
            forall|k: int| best < k <= j && k % 2 == 0 ==> #[trigger] keys@[k] < keys@[best as int],
        decreases n - j,
    {
        j += 2;
        if keys[j] >= keys[best] {
            best = j;
        }
    }
    best
}

/// The place of the weakest bin; see [`spec_weakest`].
pub fn weakest_bin(keys: &[u32]) -> (i: usize)
    requires
        keys@.len() >= 1,
    ensures
        spec_weakest(keys@, i as int),
{
    let n = keys.len();
    let mut best: usize = 0;
    let mut j: usize = 1;
    while j < n
        invariant
            1 <= j <= n,
            n == keys@.len(),
            best < j,
            forall|k: int| 0 <= k < j ==> keys@[best as int] <= #[trigger] keys@[k],
            forall|k: int| 0 <= k < best ==> keys@[best as int] < #[trigger] keys@[k],
        decreases n - j,
    {
        if keys[j] < keys[best] {
            best = j;
        }
        j += 1;
    }
    best
}

} // verus!
