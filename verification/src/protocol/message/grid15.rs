//! The 15-bit field that holds a four-character grid locator, one of the
//! words `RRR`, `RR73`, `73`, or a signal report.
use crate::protocol::message::chars::Chars;
use crate::util::{lemma_digit, spec_write, write_at, write_slice};
use vstd::prelude::*;

verus! {

/// A 15-bit grid or report field.
#[derive(Debug, Clone, Copy, PartialEq, Eq, Structural)]
pub struct G15(pub u16);

/// Whether `s` is a grid locator: two letters `A` to `R`, then two digits.
pub open spec fn spec_valid_grid(s: Seq<u8>) -> bool {
    &&& s.len() == 4
    &&& 0x41 <= s[0] <= 0x52
    &&& 0x41 <= s[1] <= 0x52
    &&& 0x30 <= s[2] <= 0x39
    &&& 0x30 <= s[3] <= 0x39
}

/// A number in decimal with at least two digits.
pub open spec fn spec_two_digits(n: nat) -> Seq<u8> {
    if n < 10 {
        seq![0x30u8, (0x30 + n) as u8]
    } else {
        Chars::Numeric.spec_text(n)
    }
}

/// A signal report with its sign and at least two digits.
pub open spec fn spec_report_text(report: int) -> Seq<u8> {
    if report < 0 {
        seq![0x2du8] + spec_two_digits((-report) as nat)
    } else {
        seq![0x2bu8] + spec_two_digits(report as nat)
    }
}

/// A number of two digits is written as its tens and its units.
pub proof fn lemma_two_digits(n: nat)
    requires
        n < 100,
    ensures
        spec_two_digits(n) == seq![(0x30 + n / 10) as u8, (0x30 + n % 10) as u8],
{
    if n >= 10 {
        reveal_with_fuel(Chars::spec_text, 3);
        assert(Chars::Numeric.spec_text(n) =~= seq![(0x30 + n / 10) as u8, (0x30 + n % 10) as u8]);
    }
}

impl G15 {
    /// The number of letters, `A` to `R`, that a grid locator draws on.
    pub const ALPHA_CNT: u16 = 18;

    /// The number of grid locators, and the value of the empty field.
    pub const GRID_MAX: u16 = 32400;

    /// The value of the word `RRR`.
    pub const VALUE_RRR: u16 = 32401;

    /// The value of the word `RR73`.
    pub const VALUE_RR73: u16 = 32402;

    /// The value of the word `73`.
    pub const VALUE_V73: u16 = 32403;

    /// The word `RRR`.
    pub fn rrr() -> (r: Self)
        ensures
            r == G15(32401),
    {
        Self(Self::VALUE_RRR)
    }

    /// The word `RR73`.
    pub fn rr73() -> (r: Self)
        ensures
            r == G15(32402),
    {
        Self(Self::VALUE_RR73)
    }

    /// The word `73`.
    pub fn v73() -> (r: Self)
        ensures
            r == G15(32403),
    {
        Self(Self::VALUE_V73)
    }

    /// The field for a grid locator.
    pub open spec fn spec_from_grid(s: Seq<u8>) -> G15 {
        G15(((((s[0] - 0x41) * 18 + (s[1] - 0x41)) * 10 + (s[2] - 0x30)) * 10 + (s[3] - 0x30)) as u16)
    }

    /// The field for a signal report.
    pub open spec fn spec_from_report(report: int) -> G15 {
        G15((32400 + report + 35) as u16)
    }

    /// The text of the field.
    pub open spec fn spec_text(self) -> Seq<u8> {
        let v = self.0 as int;
        if v < 32400 {
            seq![
                (0x41 + ((v / 10) / 10) / 18) as u8,
                (0x41 + ((v / 10) / 10) % 18) as u8,
                (0x30 + (v / 10) % 10) as u8,
                (0x30 + v % 10) as u8,
            ]
        } else if v == 32400 {
            Seq::empty()
        } else if v == 32401 {
            seq![0x52u8, 0x52u8, 0x52u8]
        } else if v == 32402 {
            seq![0x52u8, 0x52u8, 0x37u8, 0x33u8]
        } else if v == 32403 {
            seq![0x37u8, 0x33u8]
        } else {
            spec_report_text(v - 32435)
        }
    }

    /// Renders the field into the front of `out`; see [`G15::spec_text`].
    pub fn write_str(&self, out: &mut [u8]) -> (r: Option<usize>)
        ensures
            spec_write(old(out)@, final(out)@, self.spec_text(), r),
            self.spec_text().len() <= 24,
    {
        let v = self.0;
        if v < Self::GRID_MAX {
            let v1 = v / 10;
            let v2 = v1 / 10;
            let text: [u8; 4] = [
                0x41 + (v2 / Self::ALPHA_CNT) as u8,
                0x41 + (v2 % Self::ALPHA_CNT) as u8,
                0x30 + (v1 % 10) as u8,
                0x30 + (v % 10) as u8,
            ];
            proof {
                assert(text@ =~= self.spec_text());
            }
            write_slice(out, &text)
        } else if v == Self::GRID_MAX {
            proof {
                assert(out@ =~= Seq::<u8>::empty() + out@.subrange(0, out@.len() as int));
            }
            Some(0)
        } else if v == Self::VALUE_RRR {
            let text: [u8; 3] = [0x52, 0x52, 0x52];
            write_slice(out, &text)
        } else if v == Self::VALUE_RR73 {
            let text: [u8; 4] = [0x52, 0x52, 0x37, 0x33];
            write_slice(out, &text)
        } else if v == Self::VALUE_V73 {
            let text: [u8; 2] = [0x37, 0x33];
            write_slice(out, &text)
        } else {
            let report: i32 = v as i32 - Self::GRID_MAX as i32 - 35;
            let sign: u8 = if report < 0 {
                0x2d
            } else {
                0x2b
            };
            let abs: u32 = if report < 0 {
                (-report) as u32
            } else {
                report as u32
            };
            if abs < 10 {
                let text: [u8; 3] = [sign, 0x30, 0x30 + abs as u8];
                proof {
                    assert(text@ =~= self.spec_text());
                }
                write_slice(out, &text)
            } else {
                let mut digits = [0u8; 20];
                let pos = Chars::Numeric.render(abs as u64, &mut digits);
                let mut text = [0u8; 24];
                text[0] = sign;
                let n = write_at(&mut text, 1, vstd::slice::slice_subrange(digits.as_slice(), pos, 20));
                let n = n.unwrap();
                proof {
                    assert(text@.subrange(0, n as int) =~= self.spec_text());
                }
                write_slice(out, vstd::slice::slice_subrange(text.as_slice(), 0, n))
            }
        }
    }

    /// Encodes a grid locator.
    pub fn from_grid_string(s: &[u8]) -> (r: Self)
        requires
            spec_valid_grid(s@),
        ensures
            r == Self::spec_from_grid(s@),
            r.0 < 32400,
    {
        let mut val: u16 = 0;
        val += (s[0] - 0x41) as u16;
        val *= Self::ALPHA_CNT;
        val += (s[1] - 0x41) as u16;
        val *= 10;
        val += (s[2] - 0x30) as u16;
        val *= 10;
        val += (s[3] - 0x30) as u16;
        Self(val)
    }

    /// Encodes a signal report in decibels.
    pub fn from_report(report: i16) -> (r: Self)
        requires
            -30 <= report <= 99,
        ensures
            r == Self::spec_from_report(report as int),
    {
        let val = (report + 35) as u16;
        Self(Self::GRID_MAX + val)
    }

    /// A grid locator is rendered as it was written.
    pub proof fn lemma_grid_roundtrip(s: Seq<u8>)
        requires
            spec_valid_grid(s),
        ensures
            Self::spec_from_grid(s).spec_text() == s,
    {
        let a = s[0] - 0x41;
        let b = s[1] - 0x41;
        let c = s[2] - 0x30;
        let d = s[3] - 0x30;
        let v2 = a * 18 + b;
        let v1 = v2 * 10 + c;
        let v0 = v1 * 10 + d;
        lemma_digit(v1, d, 10);
        lemma_digit(v2, c, 10);
        lemma_digit(a, b, 18);
        assert(Self::spec_from_grid(s).0 == v0);
        assert(Self::spec_from_grid(s).spec_text() =~= s);
    }

    /// A report from -30 to 99 is rendered as its sign and two digits.
    pub proof fn lemma_report_roundtrip(report: int)
        requires
            -30 <= report <= 99,
        ensures
            Self::spec_from_report(report).spec_text() == seq![
                if report < 0 {
                    0x2du8
                } else {
                    0x2bu8
                },
                (0x30 + (if report < 0 {
                    -report
                } else {
                    report
                }) / 10) as u8,
                (0x30 + (if report < 0 {
                    -report
                } else {
                    report
                }) % 10) as u8,
            ],
    {
        let a: nat = if report < 0 {
            (-report) as nat
        } else {
            report as nat
        };
        lemma_two_digits(a);
        assert(Self::spec_from_report(report).spec_text() =~= seq![
            if report < 0 {
                0x2du8
            } else {
                0x2bu8
            },
            (0x30 + a / 10) as u8,
            (0x30 + a % 10) as u8,
        ]);
    }
}

} // verus!
