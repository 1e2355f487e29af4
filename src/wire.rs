//! Fixed-width integers and byte runs, as both container formats lay them out.
use vstd::prelude::*;

verus! {

/// The two big-endian bytes of `v`.
pub open spec fn be16(v: int) -> Seq<u8> {
    seq![(v / 256) as u8, (v % 256) as u8]
}

/// The big-endian integer held by `s[i]` and `s[i + 1]`.
pub open spec fn be16_at(s: Seq<u8>, i: int) -> int {
    s[i] as int * 256 + s[i + 1] as int
}

/// The four little-endian bytes of `v`.
pub open spec fn le32(v: int) -> Seq<u8> {
    seq![(v % 256) as u8, ((v / 256) % 256) as u8, ((v / 65536) % 256) as u8, (v / 16777216) as u8]
}

/// The little-endian integer held by `s[i]` to `s[i + 3]`.
pub open spec fn le32_at(s: Seq<u8>, i: int) -> int {
    s[i] as int + s[i + 1] as int * 256 + s[i + 2] as int * 65536 + s[i + 3] as int * 16777216
}

pub proof fn lemma_be16_round_trip(v: int)
    requires
        0 <= v <= 0xFFFF,
    ensures
        be16_at(be16(v), 0) == v,
{
    assert(be16(v)[0] as int == v / 256 && be16(v)[1] as int == v % 256) by (nonlinear_arith)
        requires
            0 <= v <= 0xFFFF,
            be16(v)[0] == (v / 256) as u8,
            be16(v)[1] == (v % 256) as u8,
    ;
}

pub proof fn lemma_be16_of_bytes(s: Seq<u8>)
    requires
        s.len() == 2,
    ensures
        be16(be16_at(s, 0)) == s,
{
    let v = be16_at(s, 0);
    assert(v / 256 == s[0] as int && v % 256 == s[1] as int) by (nonlinear_arith)
        requires
            v == s[0] as int * 256 + s[1] as int,
            0 <= s[0] < 256,
            0 <= s[1] < 256,
    ;
    assert(be16(v) =~= s);
}

pub proof fn lemma_le32_round_trip(v: int)
    requires
        0 <= v <= 0xFFFF_FFFF,
    ensures
        le32_at(le32(v), 0) == v,
{
    let b = le32(v);
    assert(b[0] as int == v % 256 && b[1] as int == (v / 256) % 256 && b[2] as int == (v / 65536)
        % 256 && b[3] as int == v / 16777216) by (nonlinear_arith)
        requires
            0 <= v <= 0xFFFF_FFFF,
            b[0] == (v % 256) as u8,
            b[1] == ((v / 256) % 256) as u8,
            b[2] == ((v / 65536) % 256) as u8,
            b[3] == (v / 16777216) as u8,
    ;
    assert(v % 256 + ((v / 256) % 256) * 256 + ((v / 65536) % 256) * 65536 + (v / 16777216)
        * 16777216 == v) by (nonlinear_arith)
        requires
            0 <= v <= 0xFFFF_FFFF,
    ;
}

pub proof fn lemma_le32_of_bytes(s: Seq<u8>)
    requires
        s.len() == 4,
    ensures
        le32(le32_at(s, 0)) == s,
        0 <= le32_at(s, 0) <= 0xFFFF_FFFF,
{
    let v = le32_at(s, 0);
    assert(v % 256 == s[0] as int && (v / 256) % 256 == s[1] as int && (v / 65536) % 256
        == s[2] as int && v / 16777216 == s[3] as int && 0 <= v <= 0xFFFF_FFFF) by (nonlinear_arith)
        requires
            v == s[0] as int + s[1] as int * 256 + s[2] as int * 65536 + s[3] as int * 16777216,
            0 <= s[0] < 256,
            0 <= s[1] < 256,
            0 <= s[2] < 256,
            0 <= s[3] < 256,
    ;
    assert(le32(v) =~= s);
}

/// Read the big-endian integer at `s[i]`, `s[i + 1]`.
pub fn read_be16(s: &[u8], i: usize) -> (r: u16)
    requires
        i + 2 <= s@.len(),
    ensures
        r as int == be16_at(s@, i as int),
{
    (s[i] as u16) * 256 + (s[i + 1] as u16)
}

/// Read the little-endian integer at `s[i]` to `s[i + 3]`.
pub fn read_le32(s: &[u8], i: usize) -> (r: u32)
    requires
        i + 4 <= s@.len(),
    ensures
        r as int == le32_at(s@, i as int),
{
    (s[i] as u32) + (s[i + 1] as u32) * 256 + (s[i + 2] as u32) * 65536 + (s[i + 3] as u32)
        * 16777216
}

/// Append the two big-endian bytes of `v` to `out`.
pub fn push_be16(out: &mut Vec<u8>, v: u16)
    ensures
        final(out)@ == old(out)@ + be16(v as int),
{
    out.push((v / 256) as u8);
    out.push((v % 256) as u8);
    assert(final(out)@ =~= old(out)@ + be16(v as int));
}

/// Append the four little-endian bytes of `v` to `out`.
pub fn push_le32(out: &mut Vec<u8>, v: u32)
    ensures
        final(out)@ == old(out)@ + le32(v as int),
{
    out.push((v % 256) as u8);
    out.push(((v / 256) % 256) as u8);
    out.push(((v / 65536) % 256) as u8);
    out.push((v / 16777216) as u8);
    assert(final(out)@ =~= old(out)@ + le32(v as int));
}

/// Append the bytes of `s` to `out`.
pub fn push_all(out: &mut Vec<u8>, s: &[u8])
    ensures
        final(out)@ == old(out)@ + s@,
{
    let mut j: usize = 0;
    while j < s.len()
        invariant
            j <= s@.len(),
            out@ == old(out)@ + s@.subrange(0, j as int),
        decreases s@.len() - j,
    {
        out.push(s[j]);
        j = j + 1;
        assert(s@.subrange(0, j as int) =~= s@.subrange(0, j - 1) + seq![s@[j - 1]]);
    }
    assert(s@.subrange(0, j as int) =~= s@);
}

/// Whether `s` begins with `prefix`.
pub fn starts_with(s: &[u8], prefix: &[u8]) -> (r: bool)
    ensures
        r == (prefix@.len() <= s@.len() && s@.subrange(0, prefix@.len() as int) == prefix@),
{
    if prefix.len() > s.len() {
        return false;
    }
    let mut j: usize = 0;
    while j < prefix.len()
        invariant
            prefix@.len() <= s@.len(),
            j <= prefix@.len(),
            forall|k: int| 0 <= k < j ==> s@[k] == prefix@[k],
        decreases prefix@.len() - j,
    {
        if s[j] != prefix[j] {
            assert(s@.subrange(0, prefix@.len() as int)[j as int] != prefix@[j as int]);
            return false;
        }
        j = j + 1;
    }
    assert(s@.subrange(0, prefix@.len() as int) =~= prefix@);
    true
}

} // verus!
