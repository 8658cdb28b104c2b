//! Byte-string helpers shared by the message codecs.
use vstd::prelude::*;

verus! {

/// `s` without its leading spaces.
pub open spec fn trim_start(s: Seq<u8>) -> Seq<u8>
    decreases s.len(),
{
    if s.len() > 0 && s[0] == 0x20 {
        trim_start(s.drop_first())
    } else {
        s
    }
}

/// `s` without its trailing spaces.
pub open spec fn trim_end(s: Seq<u8>) -> Seq<u8>
    decreases s.len(),
{
    if s.len() > 0 && s.last() == 0x20 {
        trim_end(s.drop_last())
    } else {
        s
    }
}

/// `s` without leading and trailing spaces.
pub open spec fn spec_trim(s: Seq<u8>) -> Seq<u8> {
    trim_end(trim_start(s))
}

/// The relation between a buffer before and after rendering `text` into its
/// front: the text is written only if it fits, and nothing else changes.
pub open spec fn spec_write(before: Seq<u8>, after: Seq<u8>, text: Seq<u8>, r: Option<usize>) -> bool {
    if text.len() <= before.len() {
        &&& r == Some(text.len() as usize)
        &&& after == text + before.subrange(text.len() as int, before.len() as int)
    } else {
        &&& r is None
        &&& after == before
    }
}

/// Trimming never lengthens, and what is left has no space at either end.
pub proof fn lemma_trim_props(s: Seq<u8>)
    ensures
        spec_trim(s).len() <= s.len(),
        spec_trim(s).len() > 0 ==> spec_trim(s)[0] != 0x20 && spec_trim(s).last() != 0x20,
{
    lemma_trim_start_props(s);
    lemma_trim_end_props(trim_start(s));
}

proof fn lemma_trim_start_props(s: Seq<u8>)
    ensures
        trim_start(s).len() <= s.len(),
        trim_start(s).len() > 0 ==> trim_start(s)[0] != 0x20,
        trim_start(s) == s.subrange(s.len() - trim_start(s).len(), s.len() as int),
    decreases s.len(),
{
    if s.len() > 0 && s[0] == 0x20 {
        let t = s.drop_first();
        lemma_trim_start_props(t);
        assert(t.subrange(t.len() - trim_start(t).len(), t.len() as int) =~= s.subrange(
            s.len() - trim_start(s).len(),
            s.len() as int,
        ));
    } else {
        assert(s =~= s.subrange(0, s.len() as int));
    }
}

proof fn lemma_trim_end_props(s: Seq<u8>)
    ensures
        trim_end(s).len() <= s.len(),
        trim_end(s).len() > 0 ==> trim_end(s).last() != 0x20,
        trim_end(s) == s.subrange(0, trim_end(s).len() as int),
    decreases s.len(),
{
    if s.len() > 0 && s.last() == 0x20 {
        let t = s.drop_last();
        lemma_trim_end_props(t);
        assert(t.subrange(0, trim_end(t).len() as int) =~= s.subrange(0, trim_end(s).len() as int));
    } else {
        assert(s =~= s.subrange(0, s.len() as int));
    }
}

/// Dividing `q * b + r` by `b`, where `r` is a digit in base `b`, gives `q`
/// and leaves `r`.
pub proof fn lemma_digit(q: int, r: int, b: int)
    requires
        0 <= q,
        0 <= r < b,
    ensures
        (q * b + r) / b == q,
        (q * b + r) % b == r,
{
    vstd::arithmetic::div_mod::lemma_fundamental_div_mod_converse(q * b + r, b, q, r);
}

/// Strips leading and trailing spaces.
pub fn trim_u8str(s: &[u8]) -> (r: &[u8])
    ensures
        r@ == spec_trim(s@),
{
    let mut lo: usize = 0;
    let mut hi: usize = s.len();
    proof {
        assert(s@.subrange(0, hi as int) =~= s@);
    }
    while lo < hi && s[lo] == 0x20
        invariant
            lo <= hi == s@.len(),
            trim_start(s@) == trim_start(s@.subrange(lo as int, hi as int)),
        decreases hi - lo,
    {
        proof {
            let t = s@.subrange(lo as int, hi as int);
            assert(t.drop_first() =~= s@.subrange(lo + 1, hi as int));
        }
        lo += 1;
    }
    proof {
        let t = s@.subrange(lo as int, hi as int);
        assert(trim_start(t) == t);
    }
    let ghost mid = s@.subrange(lo as int, hi as int);
    while lo < hi && s[hi - 1] == 0x20
        invariant
            lo <= hi <= s@.len(),
            mid == trim_start(s@),
            trim_end(mid) == trim_end(s@.subrange(lo as int, hi as int)),
        decreases hi - lo,
    {
        proof {
            let t = s@.subrange(lo as int, hi as int);
            assert(t.drop_last() =~= s@.subrange(lo as int, hi - 1));
        }
        hi -= 1;
    }
    proof {
        let t = s@.subrange(lo as int, hi as int);
        assert(trim_end(t) == t);
    }
    vstd::slice::slice_subrange(s, lo, hi)
}

/// Copies `s` into `out` starting at `pos` and returns the position just
/// past it, or leaves `out` alone if `s` does not fit.
pub fn write_at(out: &mut [u8], pos: usize, s: &[u8]) -> (r: Option<usize>)
    requires
        pos <= old(out)@.len(),
    ensures
        final(out)@.len() == old(out)@.len(),
        pos + s@.len() <= old(out)@.len() ==> r == Some((pos + s@.len()) as usize) && final(out)@
            == old(out)@.subrange(0, pos as int) + s@ + old(out)@.subrange(
            pos + s@.len(),
            old(out)@.len() as int,
        ),
        pos + s@.len() > old(out)@.len() ==> r is None && final(out)@ == old(out)@,
{
    let n = s.len();
    let total = out.len();
    if total - pos < n {
        return None;
    }
    let ghost before = out@;
    let mut i: usize = 0;
    while i < n
        invariant
            i <= n == s@.len(),
            pos + n <= total == before.len(),
            out@.len() == before.len(),
            out@ == before.subrange(0, pos as int) + s@.subrange(0, i as int) + before.subrange(
                pos + i,
                before.len() as int,
            ),
        decreases n - i,
    {
        let ghost prev = out@;
        out[pos + i] = s[i];
        proof {
            assert(out@ =~= before.subrange(0, pos as int) + s@.subrange(0, i + 1)
                + before.subrange(pos + i + 1, before.len() as int));
        }
        i += 1;
    }
    proof {
        assert(s@.subrange(0, n as int) =~= s@);
    }
    Some(pos + n)
}

/// Copies `s` into `buf` at `pos`, where it fits, and returns the position
/// just past it.
pub fn append(buf: &mut [u8], pos: usize, s: &[u8]) -> (n: usize)
    requires
        pos + s@.len() <= old(buf)@.len(),
    ensures
        n == pos + s@.len(),
        final(buf)@.len() == old(buf)@.len(),
        final(buf)@.subrange(0, n as int) == old(buf)@.subrange(0, pos as int) + s@,
{
    let ghost before = buf@;
    let total = buf.len();
    let r = write_at(buf, pos, s);
    proof {
        assert(pos + s@.len() <= total);
        assert(buf@.subrange(0, pos + s@.len()) =~= before.subrange(0, pos as int) + s@);
    }
    r.unwrap()
}

/// Copies `s` into the front of `out` and returns its length, or leaves
/// `out` alone and returns `None` if `out` is too short.
pub fn write_slice(out: &mut [u8], s: &[u8]) -> (r: Option<usize>)
    ensures
        spec_write(old(out)@, final(out)@, s@, r),
{
    let ghost before = out@;
    let r = write_at(out, 0, s);
    proof {
        if s@.len() <= before.len() {
            assert(out@ =~= s@ + before.subrange(s@.len() as int, before.len() as int));
        }
    }
    r
}

} // verus!
