//! Byte-level utilities shared by the documentation engine: ASCII literals,
//! whitespace trimming, subrange extraction and prefix tests.

use vstd::prelude::*;

verus! {

use vstd::string::StringSliceAdditionalSpecFns;

/// The byte sequence of an ASCII character sequence, one byte per character.
pub open spec fn ascii_bytes(s: Seq<char>) -> Seq<u8> {
    Seq::new(s.len(), |i: int| s[i] as u8)
}

/// The bytes of an ASCII string slice, as a fresh vector.
pub(crate) fn lit(s: &str) -> (r: Vec<u8>)
    requires
        vstd::string::is_ascii(s),
    ensures
        r@ == ascii_bytes(s@),
{
    proof {
        vstd::string::is_ascii_spec_bytes(s);
        assert(s.spec_bytes() =~= ascii_bytes(s@));
    }
    vstd::slice::slice_to_vec(s.as_bytes())
}

/// Horizontal or vertical whitespace as it may surround a marker line.
pub open spec fn is_blank_byte(b: u8) -> bool {
    b == 32 || b == 9 || b == 13 || b == 10
}

/// First index at or after `i` holding a non-blank byte, or the length.
pub open spec fn first_nonblank(s: Seq<u8>, i: int) -> int
    decreases s.len() - i,
{
    if i < 0 || i >= s.len() {
        s.len() as int
    } else if is_blank_byte(s[i]) {
        first_nonblank(s, i + 1)
    } else {
        i
    }
}

/// Upper bound of the trimmed region ending at `i`: the least cut that drops
/// only blank bytes from the back of `s.take(i)`.
pub open spec fn last_nonblank(s: Seq<u8>, i: int) -> int
    decreases i,
{
    if i <= 0 || i > s.len() {
        0
    } else if is_blank_byte(s[i - 1]) {
        last_nonblank(s, i - 1)
    } else {
        i
    }
}

/// `s` with leading and trailing blank bytes removed.
pub open spec fn trimmed(s: Seq<u8>) -> Seq<u8> {
    let lo = first_nonblank(s, 0);
    let hi = last_nonblank(s, s.len() as int);
    if lo >= hi {
        Seq::empty()
    } else {
        s.subrange(lo, hi)
    }
}

/// Whether `p` is a prefix of `s`.
pub open spec fn starts_with(s: Seq<u8>, p: Seq<u8>) -> bool {
    p.len() <= s.len() && s.subrange(0, p.len() as int) == p
}

/// Copies `v[lo..hi]` into a fresh vector.
pub fn subvec(v: &Vec<u8>, lo: usize, hi: usize) -> (r: Vec<u8>)
    requires
        lo <= hi <= v@.len(),
    ensures
        r@ == v@.subrange(lo as int, hi as int),
{
    let mut r: Vec<u8> = Vec::new();
    let mut i: usize = lo;
    while i < hi
        invariant
            lo <= i <= hi <= v@.len(),
            r@ =~= v@.subrange(lo as int, i as int),
        decreases hi - i,
    {
        r.push(v[i]);
        i += 1;
        proof {
            assert(r@ =~= v@.subrange(lo as int, i as int));
        }
    }
    proof {
        assert(r@ =~= v@.subrange(lo as int, hi as int));
    }
    r
}

/// Byte-for-byte equality of two vectors.
pub fn bytes_eq(a: &Vec<u8>, b: &Vec<u8>) -> (r: bool)
    ensures
        r <==> a@ == b@,
{
    if a.len() != b.len() {
        return false;
    }
    let mut i: usize = 0;
    while i < a.len()
        invariant
            0 <= i <= a@.len(),
            a@.len() == b@.len(),
            forall|j: int| 0 <= j < i ==> a@[j] == b@[j],
        decreases a@.len() - i,
    {
        if a[i] != b[i] {
            return false;
        }
        i += 1;
    }
    proof {
        assert(a@ =~= b@);
    }
    true
}

/// Whether `p` is a prefix of `v`.
pub fn has_prefix(v: &Vec<u8>, p: &Vec<u8>) -> (r: bool)
    ensures
        r == starts_with(v@, p@),
{
    if p.len() > v.len() {
        return false;
    }
    let mut i: usize = 0;
    while i < p.len()
        invariant
            0 <= i <= p@.len() <= v@.len(),
            forall|j: int| 0 <= j < i ==> v@[j] == p@[j],
        decreases p@.len() - i,
    {
        if v[i] != p[i] {
            proof {
                assert(v@.subrange(0, p@.len() as int)[i as int] != p@[i as int]);
            }
            return false;
        }
        i += 1;
    }
    proof {
        assert(v@.subrange(0, p@.len() as int) =~= p@);
    }
    true
}

/// `v` with leading and trailing blank bytes removed.
pub fn trim(v: &Vec<u8>) -> (r: Vec<u8>)
    ensures
        r@ == trimmed(v@),
{
    let mut lo: usize = 0;
    while lo < v.len() && (v[lo] == 32 || v[lo] == 9 || v[lo] == 13 || v[lo] == 10)
        invariant
            0 <= lo <= v@.len(),
            first_nonblank(v@, 0) == first_nonblank(v@, lo as int),
        decreases v@.len() - lo,
    {
        lo += 1;
    }
    proof {
        assert(first_nonblank(v@, 0) == lo as int);
    }
    let mut hi: usize = v.len();
    while hi > 0 && (v[hi - 1] == 32 || v[hi - 1] == 9 || v[hi - 1] == 13 || v[hi - 1] == 10)
        invariant
            0 <= hi <= v@.len(),
            last_nonblank(v@, v@.len() as int) == last_nonblank(v@, hi as int),
        decreases hi,
    {
        hi -= 1;
    }
    proof {
        assert(last_nonblank(v@, v@.len() as int) == hi as int);
    }
    if lo >= hi {
        Vec::new()
    } else {
        subvec(v, lo, hi)
    }
}

} // verus!
