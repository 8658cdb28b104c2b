//! The six fixed alphabets of the message codecs, with lookup in both
//! directions between a byte and its index.
use vstd::arithmetic::power::pow;
use vstd::prelude::*;

verus! {

/// Space, digits, letters.
pub const CHARS_ALNUM_SPC: [u8; 37] = [
    0x20, 0x30, 0x31, 0x32, 0x33, 0x34, 0x35, 0x36, 0x37, 0x38, 0x39, 0x41, 0x42, 0x43, 0x44, 0x45,
    0x46, 0x47, 0x48, 0x49, 0x4a, 0x4b, 0x4c, 0x4d, 0x4e, 0x4f, 0x50, 0x51, 0x52, 0x53, 0x54, 0x55,
    0x56, 0x57, 0x58, 0x59, 0x5a,
];

/// Digits, letters.
pub const CHARS_ALNUM: [u8; 36] = [
    0x30, 0x31, 0x32, 0x33, 0x34, 0x35, 0x36, 0x37, 0x38, 0x39, 0x41, 0x42, 0x43, 0x44, 0x45, 0x46,
    0x47, 0x48, 0x49, 0x4a, 0x4b, 0x4c, 0x4d, 0x4e, 0x4f, 0x50, 0x51, 0x52, 0x53, 0x54, 0x55, 0x56,
    0x57, 0x58, 0x59, 0x5a,
];

/// Digits.
pub const CHARS_NUMERIC: [u8; 10] = [0x30, 0x31, 0x32, 0x33, 0x34, 0x35, 0x36, 0x37, 0x38, 0x39];

/// Space, letters.
pub const CHARS_ALPHA_SPC: [u8; 27] = [
    0x20, 0x41, 0x42, 0x43, 0x44, 0x45, 0x46, 0x47, 0x48, 0x49, 0x4a, 0x4b, 0x4c, 0x4d, 0x4e, 0x4f,
    0x50, 0x51, 0x52, 0x53, 0x54, 0x55, 0x56, 0x57, 0x58, 0x59, 0x5a,
];

/// Space, digits, letters, slash.
pub const CHARS_ALNUM_SS: [u8; 38] = [
    0x20, 0x30, 0x31, 0x32, 0x33, 0x34, 0x35, 0x36, 0x37, 0x38, 0x39, 0x41, 0x42, 0x43, 0x44, 0x45,
    0x46, 0x47, 0x48, 0x49, 0x4a, 0x4b, 0x4c, 0x4d, 0x4e, 0x4f, 0x50, 0x51, 0x52, 0x53, 0x54, 0x55,
    0x56, 0x57, 0x58, 0x59, 0x5a, 0x2f,
];

/// Space, digits, letters, `+ - . / ?`.
pub const CHARS_FULL: [u8; 42] = [
    0x20, 0x30, 0x31, 0x32, 0x33, 0x34, 0x35, 0x36, 0x37, 0x38, 0x39, 0x41, 0x42, 0x43, 0x44, 0x45,
    0x46, 0x47, 0x48, 0x49, 0x4a, 0x4b, 0x4c, 0x4d, 0x4e, 0x4f, 0x50, 0x51, 0x52, 0x53, 0x54, 0x55,
    0x56, 0x57, 0x58, 0x59, 0x5a, 0x2b, 0x2d, 0x2e, 0x2f, 0x3f,
];

spec fn pow10(e: nat) -> nat
    decreases e,
{
    if e == 0 {
        1
    } else {
        10 * pow10((e - 1) as nat)
    }
}

/// An ASCII letter folded to upper case; any other byte unchanged.
pub open spec fn to_upper(c: u8) -> u8 {
    if 0x61 <= c <= 0x7a {
        (c - 0x20) as u8
    } else {
        c
    }
}

spec fn alnum_index(c: u8) -> Option<u8> {
    if 0x30 <= c <= 0x39 {
        Some((c - 0x30) as u8)
    } else if 0x41 <= c <= 0x5a {
        Some((c - 0x41 + 10) as u8)
    } else if 0x61 <= c <= 0x7a {
        Some((c - 0x61 + 10) as u8)
    } else {
        None
    }
}

spec fn alnum_spc_index(c: u8) -> Option<u8> {
    if c == 0x20 {
        Some(0)
    } else {
        match alnum_index(c) {
            Some(x) => Some((x + 1) as u8),
            None => None,
        }
    }
}

/// One of the fixed alphabets.
#[derive(Clone, Copy, Debug, PartialEq, Eq, Structural)]
pub enum Chars {
    /// Space, digits, letters.
    AlnumSpc,
    /// Digits, letters.
    Alnum,
    /// Digits.
    Numeric,
    /// Space, letters.
    AlphaSpc,
    /// Space, digits, letters, slash.
    AlnumSs,
    /// Space, digits, letters, `+ - . / ?`.
    Full,
}

impl Chars {
    /// The alphabet, in index order.
    pub open spec fn spec_str(self) -> Seq<u8> {
        match self {
            Chars::AlnumSpc => CHARS_ALNUM_SPC@,
            Chars::Alnum => CHARS_ALNUM@,
            Chars::Numeric => CHARS_NUMERIC@,
            Chars::AlphaSpc => CHARS_ALPHA_SPC@,
            Chars::AlnumSs => CHARS_ALNUM_SS@,
            Chars::Full => CHARS_FULL@,
        }
    }

    /// Number of characters in the alphabet.
    pub open spec fn spec_size(self) -> nat {
        match self {
            Chars::AlnumSpc => 37,
            Chars::Alnum => 36,
            Chars::Numeric => 10,
            Chars::AlphaSpc => 27,
            Chars::AlnumSs => 38,
            Chars::Full => 42,
        }
    }

    /// The index of `c` in the alphabet, letters matched without regard to
    /// case; `None` if `c` is not in it.
    pub closed spec fn spec_find(self, c: u8) -> Option<u8> {
        match self {
            Chars::AlnumSpc => alnum_spc_index(c),
            Chars::Alnum => alnum_index(c),
            Chars::Numeric => if 0x30 <= c <= 0x39 {
                Some((c - 0x30) as u8)
            } else {
                None
            },
            Chars::AlphaSpc => if c == 0x20 {
                Some(0)
            } else if 0x41 <= c <= 0x5a {
                Some((c - 0x41 + 1) as u8)
            } else if 0x61 <= c <= 0x7a {
                Some((c - 0x61 + 1) as u8)
            } else {
                None
            },
            Chars::AlnumSs => if c == 0x2f {
                Some(37)
            } else {
                alnum_spc_index(c)
            },
            Chars::Full => if c == 0x2b {
                Some(37)
            } else if c == 0x2d {
                Some(38)
            } else if c == 0x2e {
                Some(39)
            } else if c == 0x2f {
                Some(40)
            } else if c == 0x3f {
                Some(41)
            } else {
                alnum_spc_index(c)
            },
        }
    }

    /// Whether every byte of `s` belongs to the alphabet as written, that is
    /// without case folding.
    pub open spec fn spec_contains_all(self, s: Seq<u8>) -> bool {
        forall|i: int| 0 <= i < s.len() ==> self.spec_str().contains(#[trigger] s[i])
    }

    /// `spec_find` is the inverse of indexing: it finds exactly the index at
    /// which the upper-cased byte stands, and nothing for a foreign byte.
    pub proof fn lemma_find(self, c: u8)
        ensures
            self.spec_str().len() == self.spec_size(),
            match self.spec_find(c) {
                Some(i) => i < self.spec_size() && self.spec_str()[i as int] == to_upper(c),
                None => forall|i: int| 0 <= i < self.spec_size() ==> self.spec_str()[i] != to_upper(c),
            },
    {
    }

    /// Every index is found again from its character.
    pub proof fn lemma_get_find(self, i: int)
        requires
            0 <= i < self.spec_size(),
        ensures
            self.spec_find(self.spec_str()[i]) == Some(i as u8),
            to_upper(self.spec_str()[i]) == self.spec_str()[i],
    {
    }

    /// The index of `c`, or 0 for a byte outside the alphabet.
    pub open spec fn spec_index(self, c: u8) -> nat {
        match self.spec_find(c) {
            Some(i) => i as nat,
            None => 0,
        }
    }

    /// Whether every byte of `s` is found in the alphabet.
    pub open spec fn spec_valid(self, s: Seq<u8>) -> bool {
        forall|i: int| 0 <= i < s.len() ==> self.spec_find(#[trigger] s[i]) is Some
    }

    /// `s` read as a number whose digits are the indices of its bytes, the
    /// first byte most significant, in the base of the alphabet's size.
    pub open spec fn spec_value(self, s: Seq<u8>) -> nat
        decreases s.len(),
    {
        if s.len() == 0 {
            0
        } else {
            self.spec_value(s.drop_last()) * self.spec_size() + self.spec_index(s.last())
        }
    }

    /// The `n` low digits of `v` in the base of the alphabet's size, written
    /// with the alphabet's characters, most significant first.
    pub open spec fn spec_digits(self, v: nat, n: nat) -> Seq<u8>
        decreases n,
    {
        if n == 0 {
            Seq::empty()
        } else {
            self.spec_digits(v / self.spec_size(), (n - 1) as nat).push(
                self.spec_str()[(v % self.spec_size()) as int],
            )
        }
    }

    /// `v` written with as few characters as possible: no leading character
    /// of index 0, and nothing at all for 0.
    pub open spec fn spec_text(self, v: nat) -> Seq<u8>
        decreases v,
        via Self::spec_text_decreases
    {
        if v == 0 {
            Seq::empty()
        } else {
            self.spec_text(v / self.spec_size()).push(
                self.spec_str()[(v % self.spec_size()) as int],
            )
        }
    }

    #[via_fn]
    proof fn spec_text_decreases(self, v: nat) {
        if v != 0 {
            let b = self.spec_size();
            assert(b >= 2);
            assert(v / b < v) by (nonlinear_arith)
                requires
                    v > 0,
                    b >= 2,
            ;
        }
    }

    /// A value is written in as many digits as were asked for.
    pub proof fn lemma_digits_len(self, v: nat, n: nat)
        ensures
            self.spec_digits(v, n).len() == n,
        decreases n,
    {
        if n > 0 {
            self.lemma_digits_len(v / self.spec_size(), (n - 1) as nat);
        }
    }

    /// A string of `n` characters has a value below `size^n`.
    pub proof fn lemma_value_bound(self, s: Seq<u8>)
        ensures
            self.spec_value(s) < pow(self.spec_size() as int, s.len()),
        decreases s.len(),
    {
        let b = self.spec_size() as int;
        if s.len() == 0 {
            vstd::arithmetic::power::lemma_pow0(b);
        } else {
            let t = s.drop_last();
            self.lemma_value_bound(t);
            self.lemma_find(s.last());
            vstd::arithmetic::power::lemma_pow_positive(b, t.len());
            assert(pow(b, s.len()) == b * pow(b, t.len())) by {
                reveal(pow);
            }
            let x = self.spec_value(t) as int;
            let p = pow(b, t.len());
            let d = self.spec_index(s.last()) as int;
            assert(x * b + d < b * p) by (nonlinear_arith)
                requires
                    0 <= x < p,
                    0 <= d < b,
            ;
        }
    }

    /// Splitting off the last digit of a value.
    pub proof fn lemma_value_step(self, s: Seq<u8>)
        requires
            s.len() > 0,
        ensures
            self.spec_value(s) / self.spec_size() == self.spec_value(s.drop_last()),
            self.spec_value(s) % self.spec_size() == self.spec_index(s.last()),
    {
        let b = self.spec_size() as int;
        let x = self.spec_value(s.drop_last()) as int;
        let d = self.spec_index(s.last()) as int;
        self.lemma_find(s.last());
        assert(0 <= d < b);
        vstd::arithmetic::div_mod::lemma_fundamental_div_mod_converse(x * b + d, b, x, d);
    }

    /// Writing the value of a string in as many digits as it has characters
    /// gives the string back, letters in upper case.
    pub proof fn lemma_digits_of_value(self, s: Seq<u8>)
        requires
            self.spec_valid(s),
        ensures
            self.spec_digits(self.spec_value(s), s.len()) == s.map_values(|c: u8| to_upper(c)),
        decreases s.len(),
    {
        let up = s.map_values(|c: u8| to_upper(c));
        if s.len() == 0 {
            assert(self.spec_digits(self.spec_value(s), 0) =~= up);
        } else {
            let t = s.drop_last();
            assert(self.spec_valid(t)) by {
                assert forall|i: int| 0 <= i < t.len() implies self.spec_find(
                    #[trigger] t[i],
                ) is Some by {
                    assert(t[i] == s[i]);
                }
            }
            self.lemma_digits_of_value(t);
            self.lemma_value_step(s);
            self.lemma_find(s.last());
            assert(self.spec_find(s.last()) is Some) by {
                assert(s.last() == s[s.len() - 1]);
            }
            self.lemma_digits_len(self.spec_value(t), t.len());
            assert(self.spec_digits(self.spec_value(s), s.len()) =~= up);
        }
    }

    /// A value below `size^n` written in `n` digits is a string of the
    /// alphabet with that value.
    pub proof fn lemma_value_of_digits(self, v: nat, n: nat)
        requires
            v < pow(self.spec_size() as int, n),
        ensures
            self.spec_valid(self.spec_digits(v, n)),
            self.spec_value(self.spec_digits(v, n)) == v,
        decreases n,
    {
        let b = self.spec_size() as int;
        let d = self.spec_digits(v, n);
        if n == 0 {
            vstd::arithmetic::power::lemma_pow0(b);
        } else {
            let m = (n - 1) as nat;
            let q = v / (b as nat);
            let r = v % (b as nat);
            let p = pow(b, m);
            assert(pow(b, n) == b * p) by {
                reveal(pow);
            }
            vstd::arithmetic::div_mod::lemma_fundamental_div_mod(v as int, b);
            assert(q < p) by (nonlinear_arith)
                requires
                    v == b * q + r,
                    0 <= r,
                    v < b * p,
                    b > 0,
            ;
            self.lemma_value_of_digits(q, m);
            self.lemma_get_find(r as int);
            let t = self.spec_digits(q, m);
            assert(d.drop_last() =~= t);
            assert(d.last() == self.spec_str()[r as int]);
            assert forall|i: int| 0 <= i < d.len() implies self.spec_find(#[trigger] d[i]) is Some by {
                if i < t.len() {
                    assert(d[i] == t[i]);
                }
            }
            assert(q * b + r == v) by (nonlinear_arith)
                requires
                    v == b * q + r,
            ;
        }
    }

    /// The shortest rendering of the value of a string that does not start
    /// with the character of index 0 is the string itself, in upper case.
    pub proof fn lemma_text_of_value(self, s: Seq<u8>)
        requires
            self.spec_valid(s),
            s.len() > 0 ==> self.spec_index(s[0]) != 0,
        ensures
            self.spec_text(self.spec_value(s)) == s.map_values(|c: u8| to_upper(c)),
        decreases s.len(),
    {
        let up = s.map_values(|c: u8| to_upper(c));
        if s.len() == 0 {
            assert(self.spec_text(0) =~= up);
        } else {
            let t = s.drop_last();
            assert(self.spec_valid(t)) by {
                assert forall|i: int| 0 <= i < t.len() implies self.spec_find(
                    #[trigger] t[i],
                ) is Some by {
                    assert(t[i] == s[i]);
                }
            }
            if t.len() > 0 {
                assert(t[0] == s[0]);
            }
            self.lemma_text_of_value(t);
            self.lemma_value_step(s);
            self.lemma_find(s.last());
            assert(self.spec_find(s.last()) is Some) by {
                assert(s.last() == s[s.len() - 1]);
            }
            let v = self.spec_value(s);
            assert(v != 0) by {
                if t.len() == 0 {
                    assert(s.last() == s[0]);
                    assert(self.spec_value(t) == 0);
                } else {
                    self.lemma_value_nonzero(t);
                    let x = self.spec_value(t) as int;
                    let b = self.spec_size() as int;
                    assert(x * b > 0) by (nonlinear_arith)
                        requires
                            x > 0,
                            b > 0,
                    ;
                }
            }
            assert(self.spec_text(v) =~= up);
        }
    }

    /// A string that starts with a character of non-zero index has a non-zero value.
    pub proof fn lemma_value_nonzero(self, s: Seq<u8>)
        requires
            s.len() > 0,
            self.spec_index(s[0]) != 0,
        ensures
            self.spec_value(s) > 0,
        decreases s.len(),
    {
        let t = s.drop_last();
        if t.len() == 0 {
            assert(s.last() == s[0]);
            assert(self.spec_value(t) == 0);
        } else {
            assert(t[0] == s[0]);
            self.lemma_value_nonzero(t);
            let x = self.spec_value(t) as int;
            let b = self.spec_size() as int;
            assert(x * b > 0) by (nonlinear_arith)
                requires
                    x > 0,
                    b > 0,
            ;
        }
    }

    /// Number of characters in the alphabet.
    pub fn size(&self) -> (n: usize)
        ensures
            n == self.spec_size(),
            n == self.spec_str().len(),
    {
        match self {
            Chars::AlnumSpc => 37,
            Chars::Alnum => 36,
            Chars::Numeric => 10,
            Chars::AlphaSpc => 27,
            Chars::AlnumSs => 38,
            Chars::Full => 42,
        }
    }

    /// Looks up the index of `c`.
    pub fn find(&self, c: u8) -> (r: Option<u8>)
        ensures
            r == self.spec_find(c),
    {
        match self {
            Chars::AlnumSpc => idx_alnum_spc(c),
            Chars::Alnum => idx_alnum(c),
            Chars::Numeric => idx_numeric(c),
            Chars::AlphaSpc => idx_alpha_spc(c),
            Chars::AlnumSs => idx_alnum_ss(c),
            Chars::Full => idx_full(c),
        }
    }

    /// The character at index `idx`.
    pub fn get(&self, idx: u8) -> (c: u8)
        requires
            idx < self.spec_size(),
        ensures
            c == self.spec_str()[idx as int],
    {
        match self {
            Chars::AlnumSpc => CHARS_ALNUM_SPC[idx as usize],
            Chars::Alnum => CHARS_ALNUM[idx as usize],
            Chars::Numeric => CHARS_NUMERIC[idx as usize],
            Chars::AlphaSpc => CHARS_ALPHA_SPC[idx as usize],
            Chars::AlnumSs => CHARS_ALNUM_SS[idx as usize],
            Chars::Full => CHARS_FULL[idx as usize],
        }
    }

    /// Writes `v` in its shortest form at the end of `buf` and returns the
    /// position of its first character.
    pub fn render(&self, v: u64, buf: &mut [u8; 20]) -> (pos: usize)
        ensures
            pos <= 20,
            final(buf)@.subrange(pos as int, 20) == self.spec_text(v as nat),
    {
        let base = self.size() as u64;
        let mut t = v;
        let mut pos: usize = 20;
        let ghost mut scale: nat = 1;
        proof {
            reveal_with_fuel(pow10, 21);
            assert(buf@.subrange(20, 20) =~= Seq::<u8>::empty());
        }
        while t > 0
            invariant
                base == self.spec_size(),
                pos <= 20,
                scale == pow10((20 - pos) as nat),
                t * scale <= v,
                self.spec_text(v as nat) == self.spec_text(t as nat) + buf@.subrange(pos as int, 20),
            decreases t,
        {
            proof {
                reveal_with_fuel(pow10, 21);
                if pos == 0 {
                    assert(t * scale >= scale) by (nonlinear_arith)
                        requires
                            t >= 1,
                            scale >= 0,
                    ;
                }
                self.lemma_find(0);
            }
            let digit = (t % base) as u8;
            let next = t / base;
            proof {
                assert(next * 10 <= t) by (nonlinear_arith)
                    requires
                        next == t / base,
                        base >= 10,
                        t >= 0,
                ;
                assert(next * (scale * 10) <= t * scale) by (nonlinear_arith)
                    requires
                        next * 10 <= t,
                        scale >= 0,
                        next >= 0,
                ;
            }
            let ghost prev = buf@;
            pos -= 1;
            buf[pos] = self.get(digit);
            proof {
                scale = scale * 10;
                assert(buf@.subrange(pos as int, 20) =~= seq![self.spec_str()[digit as int]]
                    + prev.subrange(pos + 1, 20));
                assert(self.spec_text(t as nat) == self.spec_text(next as nat).push(
                    self.spec_str()[digit as int],
                ));
                assert(self.spec_text(t as nat) + prev.subrange(pos + 1, 20) =~= self.spec_text(
                    next as nat,
                ) + buf@.subrange(pos as int, 20));
            }
            t = next;
        }
        proof {
            assert(self.spec_text(0) =~= Seq::<u8>::empty());
            assert(self.spec_text(0) + buf@.subrange(pos as int, 20) =~= buf@.subrange(
                pos as int,
                20,
            ));
        }
        pos
    }

    /// The whole alphabet.
    pub fn get_str(&self) -> (s: &'static [u8])
        ensures
            s@ == self.spec_str(),
    {
        match self {
            Chars::AlnumSpc => &CHARS_ALNUM_SPC,
            Chars::Alnum => &CHARS_ALNUM,
            Chars::Numeric => &CHARS_NUMERIC,
            Chars::AlphaSpc => &CHARS_ALPHA_SPC,
            Chars::AlnumSs => &CHARS_ALNUM_SS,
            Chars::Full => &CHARS_FULL,
        }
    }
}

fn idx_alnum(c: u8) -> (r: Option<u8>)
    ensures
        r == alnum_index(c),
{
    if 0x30 <= c && c <= 0x39 {
        Some(c - 0x30)
    } else if 0x41 <= c && c <= 0x5a {
        Some(c - 0x41 + 10)
    } else if 0x61 <= c && c <= 0x7a {
        Some(c - 0x61 + 10)
    } else {
        None
    }
}

fn idx_alnum_spc(c: u8) -> (r: Option<u8>)
    ensures
        r == alnum_spc_index(c),
{
    if c == 0x20 {
        Some(0)
    } else {
        match idx_alnum(c) {
            Some(x) => Some(x + 1),
            None => None,
        }
    }
}

fn idx_numeric(c: u8) -> (r: Option<u8>)
    ensures
        r == Chars::Numeric.spec_find(c),
{
    if 0x30 <= c && c <= 0x39 {
        Some(c - 0x30)
    } else {
        None
    }
}

fn idx_alpha_spc(c: u8) -> (r: Option<u8>)
    ensures
        r == Chars::AlphaSpc.spec_find(c),
{
    if c == 0x20 {
        Some(0)
    } else if 0x41 <= c && c <= 0x5a {
        Some(c - 0x41 + 1)
    } else if 0x61 <= c && c <= 0x7a {
        Some(c - 0x61 + 1)
    } else {
        None
    }
}

fn idx_alnum_ss(c: u8) -> (r: Option<u8>)
    ensures
        r == Chars::AlnumSs.spec_find(c),
{
    if c == 0x2f {
        Some(37)
    } else {
        idx_alnum_spc(c)
    }
}

fn idx_full(c: u8) -> (r: Option<u8>)
    ensures
        r == Chars::Full.spec_find(c),
{
    if c == 0x2b {
        Some(37)
    } else if c == 0x2d {
        Some(38)
    } else if c == 0x2e {
        Some(39)
    } else if c == 0x2f {
        Some(40)
    } else if c == 0x3f {
        Some(41)
    } else {
        idx_alnum_spc(c)
    }
}

} // verus!
