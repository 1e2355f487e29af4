//! The entropy-coded data that follows a start-of-scan segment.
use crate::markers::{is_restart, spec_is_restart, P};
use vstd::prelude::*;

verus! {

/// Whether the byte after a `0xFF` inside entropy-coded data keeps the data
/// going: a stuffed zero or a restart marker.
pub open spec fn continues_scan(b: u8) -> bool {
    b == 0 || spec_is_restart(b)
}

/// The index at which entropy-coded data starting at `i` ends: the first
/// `0xFF` at or after `i` that is followed by a byte that does not continue
/// the scan, or the end of `s`.
pub open spec fn entropy_end(s: Seq<u8>, i: int) -> int
    decreases s.len() - i,
{
    if i < 0 || i + 1 >= s.len() {
        if i < 0 { 0 } else if i >= s.len() { i } else { s.len() as int }
    } else if s[i] == P && !continues_scan(s[i + 1]) {
        i
    } else {
        entropy_end(s, i + 1)
    }
}

/// Whether `raw` is a whole run of entropy-coded data: read back from its
/// own encoding, it ends exactly at its last byte.
pub open spec fn entropy_valid(raw: Seq<u8>) -> bool {
    entropy_end(raw, 0) == raw.len()
}

/// Where entropy-coded data ends depends only on the bytes from its start on.
pub proof fn lemma_entropy_end_shift(a: Seq<u8>, e: Seq<u8>, k: int)
    requires
        0 <= k <= e.len(),
    ensures
        entropy_end(a + e, a.len() + k) == a.len() + entropy_end(e, k),
    decreases e.len() - k,
{
    let s = a + e;
    if k + 1 < e.len() {
        assert(s[a.len() + k] == e[k] && s[a.len() + k + 1] == e[k + 1]);
        lemma_entropy_end_shift(a, e, k + 1);
    }
}

/// Entropy-coded data starting at `i` ends between `i` and the end of `s`.
pub proof fn lemma_entropy_end_bounds(s: Seq<u8>, i: int)
    requires
        0 <= i <= s.len(),
    ensures
        i <= entropy_end(s, i) <= s.len(),
    decreases s.len() - i,
{
    if i + 1 < s.len() {
        lemma_entropy_end_bounds(s, i + 1);
    }
}

/// An opaque run of entropy-coded scan data, kept in its encoded form.
#[derive(Debug, Clone, PartialEq, Eq)]
pub struct Entropy {
    raw: Vec<u8>,
}

impl Entropy {
    /// The encoded bytes of this run.
    pub closed spec fn spec_raw(&self) -> Seq<u8> {
        self.raw@
    }

    /// Construct an `Entropy` from its encoded bytes.
    pub fn new(raw: Vec<u8>) -> (r: Entropy)
        ensures
            r.spec_raw() == raw@,
    {
        Entropy { raw }
    }

    /// Read the entropy-coded data of `input` that starts at `start`. It runs
    /// up to the first marker that is neither a stuffed zero nor a restart
    /// marker, or to the end of `input`. Returns the run and the index at
    /// which it ends.
    pub fn read(input: &[u8], start: usize) -> (r: (Entropy, usize))
        requires
            start <= input@.len(),
        ensures
            r.1 == entropy_end(input@, start as int),
            start <= r.1 <= input@.len(),
            r.0.spec_raw() == input@.subrange(start as int, r.1 as int),
    {
        let mut i: usize = start;
        let n = input.len();
        while n > 0 && i < n - 1 && !(input[i] == P && !(input[i + 1] == 0 || is_restart(
            input[i + 1],
        )))
            invariant
                start <= i <= n,
                n == input@.len(),
                entropy_end(input@, i as int) == entropy_end(input@, start as int),
            decreases n - i,
        {
            i = i + 1;
        }
        if n == 0 || i >= n - 1 {
            i = n;
        }
        let raw = vstd::slice::slice_to_vec(vstd::slice::slice_subrange(input, start, i));
        (Entropy { raw }, i)
    }

    /// The number of bytes that this run takes once encoded.
    pub fn len(&self) -> (r: usize)
        ensures
            r == self.spec_raw().len(),
    {
        self.raw.len()
    }

    /// The encoded bytes of this run.
    pub fn raw(&self) -> (r: &[u8])
        ensures
            r@ == self.spec_raw(),
    {
        self.raw.as_slice()
    }

    /// Append the encoding of this run to `out`.
    pub fn write_to(&self, out: &mut Vec<u8>)
        ensures
            final(out)@ == old(out)@ + self.spec_raw(),
    {
        let mut j: usize = 0;
        while j < self.raw.len()
            invariant
                j <= self.raw@.len(),
                out@ == old(out)@ + self.raw@.subrange(0, j as int),
            decreases self.raw@.len() - j,
        {
            out.push(self.raw[j]);
            j = j + 1;
            proof {
                assert(self.raw@.subrange(0, j as int) == self.raw@.subrange(0, j - 1) + seq![self.raw@[j - 1]]);
            }
        }
        proof {
            assert(self.raw@.subrange(0, j as int) == self.raw@);
        }
    }
}

} // verus!
