//! Callsign fields: the 28- and 58-bit encodings, their hashes and the table
//! that resolves hashes.
pub mod c28;
pub mod c58;
pub mod hash;
pub mod hashtable;

use vstd::prelude::*;

verus! {

/// Length of a standard callsign.
pub const CALLSIGN_STDLEN: usize = 6;

/// Greatest length of any callsign.
pub const CALLSIGN_MAXLEN: usize = 11;

/// A callsign left-aligned in eleven bytes and padded with spaces.
pub type FullCallsign = [u8; 11];

} // verus!
