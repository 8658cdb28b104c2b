//! Truncatable hashes of callsigns.
//!
//! The canonical hash has 22 bits; the 12- and 10-bit forms keep its top
//! bits. Short forms are resolved against the full hashes stored in a
//! [`HashTable`].
use super::hashtable::{window_entries, HashTable};
use super::FullCallsign;
use crate::protocol::message::chars::Chars;
use crate::util::{spec_trim, spec_write, trim_u8str, write_at, write_slice};
use vstd::prelude::*;

verus! {

/// The multiplier of the callsign hash.
pub const HASH_MULTIPLIER: u64 = 47055833459;

/// A callsign hash of 22, 12 or 10 bits.
#[derive(Debug, Copy, Clone, PartialEq, Eq, Structural)]
pub enum CallsignHash {
    H22(u32),
    H12(u16),
    H10(u16),
}

/// `t` followed by as many spaces as it takes to make `n` bytes.
pub open spec fn pad_right(t: Seq<u8>, n: nat) -> Seq<u8> {
    t + Seq::new((n - t.len()) as nat, |i: int| 0x20u8)
}

/// The 22-bit hash of a callsign whose eleven characters have the base-38
/// value `n`: bits 42 to 63 of the product with the multiplier, mod 2^64.
pub open spec fn spec_hash22(n: nat) -> u32 {
    (((n * 47055833459) % 0x1_0000_0000_0000_0000) / 0x400_0000_0000) as u32
}

/// The hash of a callsign: that of its trimmed text, padded with spaces to
/// eleven characters and read in base 38. There is none for a text of more
/// than eleven characters or with a character outside the alphabet.
pub open spec fn spec_hash_callsign(s: Seq<u8>) -> Option<CallsignHash> {
    let t = spec_trim(s);
    if t.len() > 11 || !Chars::AlnumSs.spec_valid(t) {
        None
    } else {
        Some(CallsignHash::H22(spec_hash22(Chars::AlnumSs.spec_value(pad_right(t, 11)))))
    }
}

/// A number in decimal, with a single `0` for zero.
pub open spec fn spec_decimal(v: nat) -> Seq<u8> {
    if v == 0 {
        seq![0x30u8]
    } else {
        Chars::Numeric.spec_text(v)
    }
}

/// The value of the first entry whose full hash agrees with `h`.
pub open spec fn first_match<T>(entries: Seq<(u32, T)>, h: CallsignHash) -> Option<T>
    decreases entries.len(),
{
    if entries.len() == 0 {
        None
    } else if CallsignHash::H22(entries[0].0).spec_matches(h) {
        Some(entries[0].1)
    } else {
        first_match(entries.drop_first(), h)
    }
}

proof fn lemma_shifts(x: u16, y: u32)
    by (bit_vector)
    ensures
        (x as u32) << 10 == x * 1024,
        (x as u32) << 12 == x * 4096,
        (((x as u32) << 10) >> 10) == x,
        x < 0x1000 ==> ((x as u32) << 10) < 0x40_0000,
        x < 0x400 ==> ((x as u32) << 12) < 0x40_0000,
        y >> 0 == y,
        y >> 10 == y / 1024,
        y >> 12 == y / 4096,
        y < 0x40_0000 ==> (y >> 10) < 0x1000,
        (y >> 10) & 0xffff == (y / 1024) % 0x1_0000,
{
}

proof fn lemma_hash_shift(p: u64)
    by (bit_vector)
    ensures
        p >> 42 == p / 0x400_0000_0000,
        (p >> 42) < 0x40_0000,
        ((p >> 42) as u32) & 0x3f_ffffu32 == (p >> 42) as u32,
{
}

pub(crate) open spec fn pow38(e: nat) -> nat
    decreases e,
{
    if e == 0 {
        1
    } else {
        38 * pow38((e - 1) as nat)
    }
}

proof fn lemma_value38_bound(s: Seq<u8>)
    ensures
        Chars::AlnumSs.spec_value(s) < pow38(s.len()),
    decreases s.len(),
{
    if s.len() > 0 {
        lemma_value38_bound(s.drop_last());
        Chars::AlnumSs.lemma_find(s.last());
    }
}

/// The base-38 value of at most eleven characters fits in 64 bits.
pub proof fn lemma_value38_fits(s: Seq<u8>)
    requires
        s.len() <= 11,
    ensures
        Chars::AlnumSs.spec_value(s) <= u64::MAX,
{
    lemma_value38_bound(s);
    lemma_pow38_mono(s.len(), 11);
    reveal_with_fuel(pow38, 12);
}

proof fn lemma_pow38_mono(a: nat, b: nat)
    requires
        a <= b,
    ensures
        pow38(a) <= pow38(b),
    decreases b,
{
    if a < b {
        lemma_pow38_mono(a, (b - 1) as nat);
    }
}

impl CallsignHash {
    /// Whether the value fits the number of bits of its form.
    pub open spec fn wf(self) -> bool {
        match self {
            CallsignHash::H22(x) => x < 0x40_0000,
            CallsignHash::H12(x) => x < 0x1000,
            CallsignHash::H10(x) => x < 0x400,
        }
    }

    /// The number of bits of the form.
    pub open spec fn spec_depth(self) -> nat {
        match self {
            CallsignHash::H22(_) => 22,
            CallsignHash::H12(_) => 12,
            CallsignHash::H10(_) => 10,
        }
    }

    /// The hash as a 22-bit value, a short form filled up with zero bits.
    pub open spec fn spec_as_u32(self) -> u32 {
        match self {
            CallsignHash::H22(x) => x,
            CallsignHash::H12(x) => (x * 1024) as u32,
            CallsignHash::H10(x) => (x * 4096) as u32,
        }
    }

    /// The number of low bits of the 22-bit value that two forms do not share.
    pub open spec fn spec_gap(self, other: CallsignHash) -> nat {
        if self.spec_depth() < other.spec_depth() {
            (22 - self.spec_depth()) as nat
        } else {
            (22 - other.spec_depth()) as nat
        }
    }

    /// Two hashes match if they agree on the bits that both forms keep.
    pub open spec fn spec_matches(self, other: CallsignHash) -> bool {
        let g = self.spec_gap(other);
        let unit: int = if g == 0 {
            1
        } else if g == 10 {
            1024
        } else {
            4096
        };
        self.spec_as_u32() / (unit as u32) == other.spec_as_u32() / (unit as u32)
    }

    /// The callsign that the hash stands for, as far as `table` knows it: for
    /// a 22-bit hash the entry stored under it, for a short form the first
    /// entry probed whose full hash matches.
    pub open spec fn spec_lookup<const N: usize, const M: usize>(
        self,
        table: Option<&HashTable<FullCallsign, N, M>>,
    ) -> Option<FullCallsign> {
        match table {
            None => None,
            Some(t) => if self.spec_as_u32() >= 0x40_0000 {
                None
            } else {
                match self {
                    CallsignHash::H22(x) => if t@.contains_key(x) {
                        Some(t@[x])
                    } else {
                        None
                    },
                    _ => first_match(window_entries(t.window(self.spec_as_u32())), self),
                }
            },
        }
    }

    /// The rendering of the hash: the callsign it stands for between angle
    /// brackets, or, where none is known, its 22-bit value in decimal.
    pub open spec fn spec_text<const N: usize, const M: usize>(
        self,
        table: Option<&HashTable<FullCallsign, N, M>>,
    ) -> Seq<u8> {
        match self.spec_lookup(table) {
            Some(call) => seq![0x3cu8] + spec_trim(call@) + seq![0x3eu8],
            None => seq![0x3cu8] + spec_decimal(self.spec_as_u32() as nat) + seq![0x3eu8],
        }
    }

    /// The number of bits of the form.
    pub fn depth(&self) -> (d: usize)
        ensures
            d == self.spec_depth(),
    {
        match self {
            CallsignHash::H22(_) => 22,
            CallsignHash::H12(_) => 12,
            CallsignHash::H10(_) => 10,
        }
    }

    /// The hash as a 22-bit value.
    pub fn as_u32(&self) -> (v: u32)
        ensures
            v == self.spec_as_u32(),
    {
        match self {
            CallsignHash::H22(x) => *x,
            CallsignHash::H12(x) => {
                proof {
                    lemma_shifts(*x, 0);
                }
                (*x as u32) << 10
            },
            CallsignHash::H10(x) => {
                proof {
                    lemma_shifts(*x, 0);
                }
                (*x as u32) << 12
            },
        }
    }

    /// The top twelve bits of the 22-bit value.
    pub fn as_h12(&self) -> (v: u16)
        ensures
            v == (self.spec_as_u32() / 1024) % 0x1_0000,
            self matches CallsignHash::H12(x) ==> v == x,
    {
        let full = self.as_u32();
        proof {
            lemma_shifts(0, full);
            if let CallsignHash::H12(x) = *self {
                lemma_shifts(x, 0);
            }
        }
        ((full >> 10) & 0xffff) as u16
    }

    /// The 22-bit values that the hash may stand for.
    pub fn range(&self) -> (r: core::ops::Range<u32>)
        requires
            self.wf(),
        ensures
            r.start == self.spec_as_u32(),
            r.end == (match self {
                CallsignHash::H22(x) => x + 1,
                CallsignHash::H12(x) => (x + 1) * 1024,
                CallsignHash::H10(x) => (x + 1) * 4096,
            }),
    {
        match self {
            CallsignHash::H22(x) => *x..*x + 1,
            CallsignHash::H12(x) => {
                proof {
                    lemma_shifts(*x, 0);
                    lemma_shifts((*x + 1) as u16, 0);
                }
                (*x as u32) << 10..((*x as u32 + 1) << 10)
            },
            CallsignHash::H10(x) => {
                proof {
                    lemma_shifts(*x, 0);
                    lemma_shifts((*x + 1) as u16, 0);
                }
                (*x as u32) << 12..((*x as u32 + 1) << 12)
            },
        }
    }

    /// Whether two hashes agree on the bits that both forms keep.
    pub fn matches(&self, other: &CallsignHash) -> (r: bool)
        ensures
            r == self.spec_matches(*other),
    {
        let a = self.depth();
        let b = other.depth();
        let d = if a < b {
            a
        } else {
            b
        };
        let x = self.as_u32();
        let y = other.as_u32();
        proof {
            lemma_shifts(0, x);
            lemma_shifts(0, y);
        }
        proof {
            assert(d == 22 - self.spec_gap(*other));
        }
        if d == 22 {
            assert(x / 1u32 == x && y / 1u32 == y);
            x == y
        } else if d == 12 {
            assert(x >> 10 == x / 1024u32);
            assert(y >> 10 == y / 1024u32);
            x >> 10 == y >> 10
        } else {
            assert(x >> 12 == x / 4096u32);
            assert(y >> 12 == y / 4096u32);
            x >> 12 == y >> 12
        }
    }

    /// Looks the hash up in `table`.
    pub fn lookup<const N: usize, const M: usize>(
        &self,
        table: Option<&HashTable<FullCallsign, N, M>>,
    ) -> (r: Option<FullCallsign>)
        requires
            table matches Some(t) ==> t.wf(),
        ensures
            r == self.spec_lookup(table),
    {
        let t = match table {
            Some(t) => t,
            None => {
                return None;
            },
        };
        let key = self.as_u32();
        if key >= 0x40_0000 {
            return None;
        }
        match self {
            CallsignHash::H22(_) => {
                match t.get(key) {
                    Some(call) => Some(*call),
                    None => None,
                }
            },
            _ => {
                let entries = t.get_partial(key);
                let ghost all = window_entries(t.window(key));
                let mut i: usize = 0;
                proof {
                    assert(all.subrange(0, all.len() as int) =~= all);
                }
                while i < entries.len()
                    invariant
                        i <= entries@.len() == all.len(),
                        table == Some(t),
                        key == self.spec_as_u32(),
                        key < 0x40_0000,
                        !(self is H22),
                        all == window_entries(t.window(key)),
                        forall|j: int|
                            0 <= j < entries@.len() ==> entries@[j].0 == all[j].0 && *entries@[j].1
                                == all[j].1,
                        first_match(all, *self) == first_match(all.subrange(i as int, all.len() as int), *self),
                    decreases entries@.len() - i,
                {
                    let ghost rest = all.subrange(i as int, all.len() as int);
                    proof {
                        assert(rest[0] == all[i as int]);
                        assert(rest.drop_first() =~= all.subrange(i + 1, all.len() as int));
                    }
                    let k = entries[i].0;
                    let call = entries[i].1;
                    if CallsignHash::H22(k).matches(self) {
                        proof {
                            assert(k == rest[0].0 && *call == rest[0].1);
                            assert(first_match(rest, *self) == Some(rest[0].1));
                        }
                        return Some(*call);
                    }
                    proof {
                        assert(first_match(rest, *self) == first_match(rest.drop_first(), *self));
                    }
                    i += 1;
                }
                proof {
                    assert(all.subrange(i as int, all.len() as int).len() == 0);
                }
                None
            },
        }
    }

    /// Renders the hash into the front of `out`; see [`CallsignHash::spec_text`].
    pub fn write_str<const N: usize, const M: usize>(
        &self,
        out: &mut [u8],
        table: Option<&HashTable<FullCallsign, N, M>>,
    ) -> (r: Option<usize>)
        requires
            table matches Some(t) ==> t.wf(),
        ensures
            spec_write(old(out)@, final(out)@, self.spec_text(table), r),
            self.spec_text(table).len() <= 22,
    {
        let mut text = [0u8; 22];
        let open: [u8; 1] = [0x3c];
        let close: [u8; 1] = [0x3e];
        let zero: [u8; 1] = [0x30];
        let mut n: usize = 1;
        text[0] = 0x3c;
        match self.lookup(table) {
            Some(call) => {
                let body = trim_u8str(call.as_slice());
                proof {
                    crate::util::lemma_trim_props(call@);
                }
                let m = write_at(&mut text, 1, body);
                n = m.unwrap();
                proof {
                    assert(text@.subrange(0, n as int) =~= seq![0x3cu8] + spec_trim(call@));
                }
            },
            None => {
                let v = self.as_u32();
                if v == 0 {
                    text[1] = 0x30;
                    n = 2;
                    proof {
                        assert(text@.subrange(0, n as int) =~= seq![0x3cu8] + spec_decimal(0));
                    }
                } else {
                    let mut digits = [0u8; 20];
                    let pos = Chars::Numeric.render(v as u64, &mut digits);
                    let ghost d = Chars::Numeric.spec_text(v as nat);
                    assert(d.len() <= 20);
                    let m = write_at(
                        &mut text,
                        1,
                        vstd::slice::slice_subrange(digits.as_slice(), pos, 20),
                    );
                    n = m.unwrap();
                    proof {
                        assert(text@.subrange(0, n as int) =~= seq![0x3cu8] + d);
                    }
                }
            },
        }
        let ghost head = text@.subrange(0, n as int);
        text[n] = 0x3e;
        proof {
            assert(text@.subrange(0, n + 1) =~= head + seq![0x3eu8]);
        }
        write_slice(out, vstd::slice::slice_subrange(text.as_slice(), 0, n + 1))
    }
}

/// Reads up to eleven characters as a number in base 38, or reports that
/// one of them is outside the alphabet.
pub(crate) fn base38_value(t: &[u8]) -> (r: Option<u64>)
    requires
        t@.len() <= 11,
    ensures
        Chars::AlnumSs.spec_valid(t@) ==> r == Some(Chars::AlnumSs.spec_value(t@) as u64),
        !Chars::AlnumSs.spec_valid(t@) ==> r is None,
        Chars::AlnumSs.spec_value(t@) < pow38(t@.len()),
        Chars::AlnumSs.spec_value(t@) <= u64::MAX,
{
    let len = t.len();
    let mut n: u64 = 0;
    let mut i: usize = 0;
    proof {
        reveal_with_fuel(pow38, 12);
        assert(t@.subrange(0, 0) =~= Seq::<u8>::empty());
        lemma_value38_bound(t@);
        lemma_pow38_mono(len as nat, 11);
    }
    while i < len
        invariant
            i <= len == t@.len() <= 11,
            n == Chars::AlnumSs.spec_value(t@.subrange(0, i as int)),
            Chars::AlnumSs.spec_valid(t@.subrange(0, i as int)),
            Chars::AlnumSs.spec_value(t@) < pow38(t@.len()),
            Chars::AlnumSs.spec_value(t@) <= u64::MAX,
        decreases len - i,
    {
        let ghost head = t@.subrange(0, i as int);
        let ghost next = t@.subrange(0, i + 1);
        proof {
            assert(next.drop_last() =~= head);
            assert(next.last() == t@[i as int]);
            lemma_value38_bound(head);
            lemma_pow38_mono(i as nat, 10);
            reveal_with_fuel(pow38, 12);
            Chars::AlnumSs.lemma_find(t@[i as int]);
        }
        match Chars::AlnumSs.find(t[i]) {
            Some(v) => {
                n = n * 38 + v as u64;
                proof {
                    assert forall|j: int| 0 <= j < next.len() implies Chars::AlnumSs.spec_find(
                        #[trigger] next[j],
                    ) is Some by {
                        if j < i {
                            assert(next[j] == head[j]);
                        }
                    }
                }
            },
            None => {
                proof {
                    assert(!Chars::AlnumSs.spec_valid(t@));
                }
                return None;
            },
        }
        i += 1;
    }
    proof {
        assert(t@.subrange(0, len as int) =~= t@);
    }
    Some(n)
}

/// Hashes a callsign; see [`spec_hash_callsign`].
pub fn hash_callsign(s: &[u8]) -> (r: Option<CallsignHash>)
    ensures
        r == spec_hash_callsign(s@),
        r matches Some(h) ==> h is H22 && h.wf(),
{
    let t = trim_u8str(s);
    if t.len() > 11 {
        return None;
    }
    let len = t.len();
    let mut n: u64 = match base38_value(t) {
        Some(n) => n,
        None => {
            return None;
        },
    };
    proof {
        assert(pad_right(t@, len as nat) =~= t@);
    }
    let mut k: usize = len;
    while k < 11
        invariant
            len <= k <= 11,
            len == t@.len(),
            t@ == spec_trim(s@),
            Chars::AlnumSs.spec_valid(t@),
            n == Chars::AlnumSs.spec_value(pad_right(t@, k as nat)),
        decreases 11 - k,
    {
        let ghost cur = pad_right(t@, k as nat);
        let ghost next = pad_right(t@, (k + 1) as nat);
        proof {
            assert(next.drop_last() =~= cur);
            assert(next.last() == 0x20u8);
            lemma_value38_bound(cur);
            Chars::AlnumSs.lemma_get_find(0);
            lemma_pow38_mono(k as nat, 10);
            reveal_with_fuel(pow38, 12);
        }
        n = n * 38;
        k += 1;
    }
    let p = n.wrapping_mul(HASH_MULTIPLIER);
    proof {
        lemma_hash_shift(p);
    }
    Some(CallsignHash::H22(((p >> 42) as u32) & 0x3f_ffff))
}

} // verus!
