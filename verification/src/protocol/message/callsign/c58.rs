//! The 58-bit callsign field: up to eleven characters read in base 38.
use super::hash::base38_value;
use crate::protocol::message::chars::Chars;
use crate::util::{spec_trim, spec_write, trim_u8str, write_slice};
use vstd::prelude::*;

verus! {

/// A 58-bit callsign field.
#[derive(Debug, Clone, Copy, PartialEq, Eq, Structural)]
pub struct C58(pub u64);

impl C58 {
    /// The field for a callsign: the base-38 value of its trimmed text.
    /// There is none for a text of more than eleven characters or with a
    /// character outside the alphabet.
    pub open spec fn spec_from_call(call: Seq<u8>) -> Option<C58> {
        let t = spec_trim(call);
        if t.len() > 11 || !Chars::AlnumSs.spec_valid(t) {
            None
        } else {
            Some(C58(Chars::AlnumSs.spec_value(t) as u64))
        }
    }

    /// The text of the field: its value in base 38 without leading spaces.
    pub open spec fn spec_text(self) -> Seq<u8> {
        Chars::AlnumSs.spec_text(self.0 as nat)
    }

    /// A callsign that can be encoded is rendered as its trimmed text, in
    /// upper case.
    pub proof fn lemma_call_roundtrip(call: Seq<u8>)
        requires
            Self::spec_from_call(call) is Some,
        ensures
            Self::spec_from_call(call)->0.spec_text() == spec_trim(call).map_values(
                |c: u8| crate::protocol::message::chars::to_upper(c),
            ),
    {
        let t = spec_trim(call);
        crate::util::lemma_trim_props(call);
        super::hash::lemma_value38_fits(t);
        if t.len() > 0 {
            Chars::AlnumSs.lemma_get_find(0);
            Chars::AlnumSs.lemma_find(t[0]);
            assert(Chars::AlnumSs.spec_find(t[0]) is Some);
            if Chars::AlnumSs.spec_index(t[0]) == 0 {
                assert(crate::protocol::message::chars::to_upper(t[0]) == 0x20u8);
            }
        }
        Chars::AlnumSs.lemma_text_of_value(t);
    }

    /// Encodes a callsign; see [`C58::spec_from_call`].
    pub fn from_call(call: &[u8]) -> (r: Option<Self>)
        ensures
            r == Self::spec_from_call(call@),
    {
        let call = trim_u8str(call);
        if call.len() > 11 {
            return None;
        }
        match base38_value(call) {
            Some(val) => Some(Self(val)),
            None => None,
        }
    }

    /// Renders the field into the front of `out`; see [`C58::spec_text`].
    pub fn write_str(&self, out: &mut [u8]) -> (r: Option<usize>)
        ensures
            spec_write(old(out)@, final(out)@, self.spec_text(), r),
            self.spec_text().len() <= 20,
    {
        let mut digits = [0u8; 20];
        let pos = Chars::AlnumSs.render(self.0, &mut digits);
        write_slice(out, vstd::slice::slice_subrange(digits.as_slice(), pos, 20))
    }
}

} // verus!
