//! The 2-bit acknowledgement field.
use crate::util::{spec_write, write_slice};
use vstd::prelude::*;

verus! {

/// A 2-bit acknowledgement: nothing, `RRR`, `RR73` or `73`.
#[derive(Debug, Clone, Copy, PartialEq, Eq, Structural)]
pub enum R2 {
    BLANK,
    RRR,
    RR73,
    V73,
}

impl R2 {
    /// The two bits of the field.
    pub open spec fn spec_to_val(self) -> u8 {
        match self {
            R2::BLANK => 0,
            R2::RRR => 1,
            R2::RR73 => 2,
            R2::V73 => 3,
        }
    }

    /// The field with the two bits `v`.
    pub open spec fn spec_from_val(v: u8) -> R2 {
        if v == 0 {
            R2::BLANK
        } else if v == 1 {
            R2::RRR
        } else if v == 2 {
            R2::RR73
        } else {
            R2::V73
        }
    }

    /// The text of the field; the empty acknowledgement is a single space.
    pub open spec fn spec_text(self) -> Seq<u8> {
        match self {
            R2::BLANK => seq![0x20u8],
            R2::RRR => seq![0x52u8, 0x52u8, 0x52u8],
            R2::RR73 => seq![0x52u8, 0x52u8, 0x37u8, 0x33u8],
            R2::V73 => seq![0x37u8, 0x33u8],
        }
    }

    /// The two bits of the field.
    pub fn to_val(&self) -> (v: u8)
        ensures
            v == self.spec_to_val(),
            v < 4,
            Self::spec_from_val(v) == *self,
    {
        match self {
            R2::BLANK => 0,
            R2::RRR => 1,
            R2::RR73 => 2,
            R2::V73 => 3,
        }
    }

    /// The field with the two bits `v`.
    pub fn from_val(v: u8) -> (r: Self)
        requires
            v < 4,
        ensures
            r == Self::spec_from_val(v),
            r.spec_to_val() == v,
    {
        if v == 0 {
            R2::BLANK
        } else if v == 1 {
            R2::RRR
        } else if v == 2 {
            R2::RR73
        } else {
            R2::V73
        }
    }

    /// Renders the field into the front of `out`; see [`R2::spec_text`].
    pub fn write_str(&self, out: &mut [u8]) -> (r: Option<usize>)
        ensures
            spec_write(old(out)@, final(out)@, self.spec_text(), r),
            self.spec_text().len() <= 24,
    {
        match self {
            R2::BLANK => {
                let text: [u8; 1] = [0x20];
                proof {
                    assert(text@ =~= seq![0x20u8]);
                }
                write_slice(out, &text)
            },
            R2::RRR => {
                let text: [u8; 3] = [0x52, 0x52, 0x52];
                proof {
                    assert(text@ =~= seq![0x52u8, 0x52u8, 0x52u8]);
                }
                write_slice(out, &text)
            },
            R2::RR73 => {
                let text: [u8; 4] = [0x52, 0x52, 0x37, 0x33];
                proof {
                    assert(text@ =~= seq![0x52u8, 0x52u8, 0x37u8, 0x33u8]);
                }
                write_slice(out, &text)
            },
            R2::V73 => {
                let text: [u8; 2] = [0x37, 0x33];
                proof {
                    assert(text@ =~= seq![0x37u8, 0x33u8]);
                }
                write_slice(out, &text)
            },
        }
    }
}

} // verus!
