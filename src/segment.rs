//! One segment of a JPEG stream: a marker, its contents and, for a start of
//! scan, the entropy-coded data that follows.
use crate::entropy::{entropy_end, entropy_valid, lemma_entropy_end_bounds, lemma_entropy_end_shift, Entropy};
use crate::error::Error;
use crate::markers::{self, has_entropy, has_length, spec_has_entropy, spec_has_length, P};
use crate::wire::{
    be16, be16_at, lemma_be16_of_bytes, lemma_be16_round_trip, push_all, push_be16, read_be16,
    starts_with,
};
use vstd::prelude::*;

verus! {

/// `ICC_PROFILE` followed by a zero byte.
pub open spec fn icc_prefix() -> Seq<u8> {
    seq![0x49u8, 0x43, 0x43, 0x5F, 0x50, 0x52, 0x4F, 0x46, 0x49, 0x4C, 0x45, 0x00]
}

/// `Exif` followed by two zero bytes.
pub open spec fn exif_prefix() -> Seq<u8> {
    seq![0x45u8, 0x78, 0x69, 0x66, 0x00, 0x00]
}

/// The number of bytes of a segment's encoding, entropy-coded data aside.
pub open spec fn segment_len(marker: u8, contents_len: int) -> int {
    (if spec_has_length(marker) { 2int } else { 0int }) + 2 + contents_len
}

/// The encoding of a segment: the framing byte, the marker, the length field
/// where the marker has one (it counts its own two bytes), the contents and
/// the entropy-coded data.
pub open spec fn encode_segment(marker: u8, contents: Seq<u8>, entropy: Option<Seq<u8>>) -> Seq<
    u8,
> {
    seq![P, marker] + (if spec_has_length(marker) {
        be16(contents.len() + 2int)
    } else {
        Seq::empty()
    }) + contents + match entropy {
        Some(e) => e,
        None => Seq::empty(),
    }
}

/// Whether a segment with this marker and these contents fits its length
/// field.
pub open spec fn segment_fits(marker: u8, contents_len: int) -> bool {
    !spec_has_length(marker) || contents_len + 2 <= 0xFFFF
}

/// Whether `read` succeeds on the bytes `s` that follow `marker`.
pub open spec fn read_ok(marker: u8, s: Seq<u8>) -> bool {
    !spec_has_length(marker) || (s.len() >= 2 && be16_at(s, 0) >= 2 && s.len() >= be16_at(s, 0))
}

/// Where the contents end in the bytes `s` that follow `marker`.
pub open spec fn contents_end(marker: u8, s: Seq<u8>) -> int {
    if spec_has_length(marker) {
        be16_at(s, 0)
    } else {
        0
    }
}

/// Where the contents start in the bytes that follow `marker`.
pub open spec fn contents_start(marker: u8) -> int {
    if spec_has_length(marker) {
        2
    } else {
        0
    }
}

/// The signature that opens the contents of an ICC profile segment.
pub fn icc_data_prefix() -> (r: Vec<u8>)
    ensures
        r@ == icc_prefix(),
{
    let r: Vec<u8> = vec![0x49u8, 0x43, 0x43, 0x5F, 0x50, 0x52, 0x4F, 0x46, 0x49, 0x4C, 0x45, 0x00];
    assert(r@ =~= icc_prefix());
    r
}

/// The signature that opens the contents of an EXIF segment.
pub fn exif_data_prefix() -> (r: Vec<u8>)
    ensures
        r@ == exif_prefix(),
{
    let r: Vec<u8> = vec![0x45u8, 0x78, 0x69, 0x66, 0x00, 0x00];
    assert(r@ =~= exif_prefix());
    r
}

/// The representation of a single segment composing a Jpeg image.
#[derive(Clone, PartialEq, Eq)]
pub struct JpegSegment {
    marker: u8,
    contents: Vec<u8>,
    entropy: Option<Entropy>,
}

impl JpegSegment {
    pub closed spec fn spec_marker(&self) -> u8 {
        self.marker
    }

    pub closed spec fn spec_contents(&self) -> Seq<u8> {
        self.contents@
    }

    /// The encoded entropy-coded data, where there is any.
    pub closed spec fn spec_entropy(&self) -> Option<Seq<u8>> {
        match self.entropy {
            Some(e) => Some(e.spec_raw()),
            None => None,
        }
    }

    /// The bytes that `write_to` produces for this segment.
    pub open spec fn spec_encoding(&self) -> Seq<u8> {
        encode_segment(self.spec_marker(), self.spec_contents(), self.spec_entropy())
    }

    /// Construct an empty `JpegSegment`.
    pub fn new(marker: u8) -> (r: JpegSegment)
        ensures
            r.spec_marker() == marker,
            r.spec_contents() == Seq::<u8>::empty(),
            r.spec_entropy() is None,
    {
        JpegSegment { marker, contents: Vec::new(), entropy: None }
    }

    /// Construct a `JpegSegment` with `contents`.
    pub fn new_with_contents(marker: u8, contents: Vec<u8>) -> (r: JpegSegment)
        ensures
            r.spec_marker() == marker,
            r.spec_contents() == contents@,
            r.spec_entropy() is None,
    {
        JpegSegment { marker, contents, entropy: None }
    }

    /// Construct a `JpegSegment` with `contents` and `entropy`.
    pub fn new_with_entropy(marker: u8, contents: Vec<u8>, entropy: Entropy) -> (r: JpegSegment)
        ensures
            r.spec_marker() == marker,
            r.spec_contents() == contents@,
            r.spec_entropy() == Some(entropy.spec_raw()),
    {
        JpegSegment { marker, contents, entropy: Some(entropy) }
    }

    /// Get the second byte of the marker of this `JpegSegment`.
    pub fn marker(&self) -> (r: u8)
        ensures
            r == self.spec_marker(),
    {
        self.marker
    }

    /// Get the content of this `JpegSegment`.
    pub fn contents(&self) -> (r: &[u8])
        ensures
            r@ == self.spec_contents(),
    {
        self.contents.as_slice()
    }

    /// Check if this `JpegSegment` has entropy.
    pub fn has_entropy(&self) -> (r: bool)
        ensures
            r == self.spec_entropy() is Some,
    {
        self.entropy.is_some()
    }
    /// Creates an ICC `JpegSegment`: the ICC signature, the sequence number
    /// `seqno` of this part, the number `num` of parts, then `buf`.
    pub fn new_icc(seqno: u8, num: u8, buf: &[u8]) -> (r: JpegSegment)
        ensures
            r.spec_marker() == markers::APP2,
            r.spec_contents() == icc_prefix() + seq![seqno, num] + buf@,
            r.spec_entropy() is None,
    {
        let mut contents = icc_data_prefix();
        contents.push(seqno);
        contents.push(num);
        push_all(&mut contents, buf);
        assert(contents@ =~= icc_prefix() + seq![seqno, num] + buf@);
        JpegSegment::new_with_contents(markers::APP2, contents)
    }

    /// Creates an EXIF `JpegSegment`: the EXIF signature, then `buf`.
    pub fn new_exif(buf: &[u8]) -> (r: JpegSegment)
        ensures
            r.spec_marker() == markers::APP1,
            r.spec_contents() == exif_prefix() + buf@,
            r.spec_entropy() is None,
    {
        let mut contents = exif_data_prefix();
        push_all(&mut contents, buf);
        JpegSegment::new_with_contents(markers::APP1, contents)
    }

    /// Returns the sequence number, the number of parts and the profile
    /// bytes if this `JpegSegment` is an ICC segment long enough to hold them.
    pub fn icc(&self) -> (r: Option<(u8, u8, &[u8])>)
        ensures
            r is Some <==> (self.spec_marker() == markers::APP2 && self.spec_contents().len() >= 14
                && self.spec_contents().subrange(0, 12) == icc_prefix()),
            r matches Some((seqno, num, data)) ==> seqno == self.spec_contents()[12] && num
                == self.spec_contents()[13] && data@ == self.spec_contents().subrange(
                14,
                self.spec_contents().len() as int,
            ),
    {
        let prefix = icc_data_prefix();
        if self.marker == markers::APP2 && starts_with(self.contents.as_slice(), prefix.as_slice())
            && self.contents.len() >= 14 {
            let seqno = self.contents[12];
            let num = self.contents[13];
            let data = vstd::slice::slice_subrange(self.contents.as_slice(), 14, self.contents.len());
            Some((seqno, num, data))
        } else {
            None
        }
    }

    /// Returns the metadata after the EXIF signature if this `JpegSegment`
    /// is an EXIF segment.
    pub fn exif(&self) -> (r: Option<&[u8]>)
        ensures
            r is Some <==> (self.spec_marker() == markers::APP1 && self.spec_contents().len() >= 6
                && self.spec_contents().subrange(0, 6) == exif_prefix()),
            r matches Some(data) ==> data@ == self.spec_contents().subrange(
                6,
                self.spec_contents().len() as int,
            ),
    {
        let prefix = exif_data_prefix();
        if self.marker == markers::APP1 && starts_with(self.contents.as_slice(), prefix.as_slice()) {
            Some(vstd::slice::slice_subrange(self.contents.as_slice(), 6, self.contents.len()))
        } else {
            None
        }
    }

    /// Get the size of this `JpegSegment` once it is encoded, excluding
    /// the entropy-coded data: the marker (2 bytes), the length field
    /// (2 bytes) if this marker has one, and the contents.
    pub fn len(&self) -> (r: usize)
        requires
            self.spec_contents().len() + 4 <= usize::MAX,
        ensures
            r == segment_len(self.spec_marker(), self.spec_contents().len() as int),
            r == encode_segment(self.spec_marker(), self.spec_contents(), None).len(),
    {
        if has_length(self.marker) {
            2 + 2 + self.contents.len()
        } else {
            2 + self.contents.len()
        }
    }

    /// Get the size of this `JpegSegment` once it is encoded, including the
    /// entropy-coded data.
    pub fn len_with_entropy(&self) -> (r: usize)
        requires
            self.spec_contents().len() + 4 + match self.spec_entropy() {
                Some(e) => e.len(),
                None => 0,
            } <= usize::MAX,
        ensures
            r == self.spec_encoding().len(),
    {
        let n = self.len();
        match &self.entropy {
            Some(e) => n + e.len(),
            None => n,
        }
    }

    /// Append the encoding of this `JpegSegment` to `out`: the framing byte,
    /// the marker, the length field where the marker has one, the contents
    /// and the entropy-coded data. Fails, writing nothing, where the length
    /// does not fit its two-byte field.
    pub fn write_to(&self, out: &mut Vec<u8>) -> (r: Result<(), Error>)
        ensures
            r is Ok <==> segment_fits(self.spec_marker(), self.spec_contents().len() as int),
            r is Ok ==> final(out)@ == old(out)@ + self.spec_encoding(),
            r is Err ==> r == Err::<(), Error>(Error::Overflow) && final(out)@ == old(out)@,
    {
        let with_length = has_length(self.marker);
        if with_length && self.contents.len() > 0xFFFF - 2 {
            return Err(Error::Overflow);
        }
        out.push(P);
        out.push(self.marker);
        if with_length {
            push_be16(out, (self.contents.len() + 2) as u16);
        }
        push_all(out, self.contents.as_slice());
        match &self.entropy {
            Some(e) => e.write_to(out),
            None => {},
        }
        assert(out@ =~= old(out)@ + self.spec_encoding());
        Ok(())
    }

    /// Decode a segment with `marker` from the bytes that follow the marker:
    /// the length field where the marker has one, the contents, and the
    /// entropy-coded data where the marker is followed by some. Returns the
    /// segment and the number of bytes read.
    pub fn read(marker: u8, input: &[u8]) -> (r: Result<(JpegSegment, usize), Error>)
        ensures
            r is Ok <==> read_ok(marker, input@),
            !read_ok(marker, input@) ==> r == if input@.len() >= 2 && be16_at(input@, 0) < 2 {
                Err::<(JpegSegment, usize), Error>(Error::BadSegmentLength)
            } else {
                Err(Error::Truncated)
            },
            r matches Ok((seg, n)) ==> {
                let end = contents_end(marker, input@);
                &&& seg.spec_marker() == marker
                &&& seg.spec_contents() == input@.subrange(contents_start(marker), end)
                &&& spec_has_entropy(marker) ==> n == entropy_end(input@, end)
                    && seg.spec_entropy() == Some(input@.subrange(end, n as int))
                &&& !spec_has_entropy(marker) ==> n == end && seg.spec_entropy() is None
            },
    {
        let mut start: usize = 0;
        let mut end: usize = 0;
        if has_length(marker) {
            if input.len() < 2 {
                return Err(Error::Truncated);
            }
            let size = read_be16(input, 0);
            if size < 2 {
                return Err(Error::BadSegmentLength);
            }
            if input.len() < size as usize {
                return Err(Error::Truncated);
            }
            start = 2;
            end = size as usize;
        }
        let contents = vstd::slice::slice_to_vec(vstd::slice::slice_subrange(input, start, end));
        if !has_entropy(marker) {
            Ok((JpegSegment::new_with_contents(marker, contents), end))
        } else {
            let (entropy, n) = Entropy::read(input, end);
            Ok((JpegSegment::new_with_entropy(marker, contents, entropy), n))
        }
    }
}

/// Reading back the bytes that follow the marker in the encoding of a
/// segment gives that segment again: its contents, and its entropy-coded
/// data where the marker calls for it.
pub proof fn lemma_segment_round_trip(seg: JpegSegment)
    requires
        segment_fits(seg.spec_marker(), seg.spec_contents().len() as int),
        !spec_has_length(seg.spec_marker()) ==> seg.spec_contents().len() == 0,
        seg.spec_entropy() is Some <==> spec_has_entropy(seg.spec_marker()),
        seg.spec_entropy() matches Some(e) ==> entropy_valid(e),
    ensures
        ({
            let m = seg.spec_marker();
            let enc = seg.spec_encoding();
            let rest = enc.subrange(2, enc.len() as int);
            let end = contents_end(m, rest);
            &&& enc[0] == P && enc[1] == m
            &&& read_ok(m, rest)
            &&& rest.subrange(contents_start(m), end) == seg.spec_contents()
            &&& spec_has_entropy(m) ==> entropy_end(rest, end) == rest.len() && seg.spec_entropy()
                == Some(rest.subrange(end, rest.len() as int))
            &&& !spec_has_entropy(m) ==> end == rest.len()
        }),
{
    let m = seg.spec_marker();
    let c = seg.spec_contents();
    let enc = seg.spec_encoding();
    let rest = enc.subrange(2, enc.len() as int);
    let head = if spec_has_length(m) {
        be16(c.len() + 2int)
    } else {
        Seq::empty()
    };
    let tail = match seg.spec_entropy() {
        Some(e) => e,
        None => Seq::empty(),
    };
    assert(rest =~= head + c + tail);
    if spec_has_length(m) {
        lemma_be16_round_trip(c.len() + 2int);
        assert(rest.subrange(0, 2) =~= head);
        assert(be16_at(rest, 0) == be16_at(head, 0));
    }
    let end = contents_end(m, rest);
    assert(end == head.len() + c.len());
    assert(rest.subrange(contents_start(m), end) =~= c);
    assert(rest.subrange(end, rest.len() as int) =~= tail);
    if spec_has_entropy(m) {
        lemma_entropy_end_shift(head + c, tail, 0);
    }
}

/// Encoding a segment that was read from the bytes `s` after its marker
/// gives back the framing byte, the marker and the bytes that were read.
pub proof fn lemma_segment_bytes_round_trip(marker: u8, s: Seq<u8>, seg: JpegSegment, n: int)
    requires
        read_ok(marker, s),
        seg.spec_marker() == marker,
        seg.spec_contents() == s.subrange(contents_start(marker), contents_end(marker, s)),
        spec_has_entropy(marker) ==> n == entropy_end(s, contents_end(marker, s))
            && seg.spec_entropy() == Some(s.subrange(contents_end(marker, s), n)),
        !spec_has_entropy(marker) ==> n == contents_end(marker, s) && seg.spec_entropy() is None,
    ensures
        0 <= n <= s.len(),
        segment_fits(marker, seg.spec_contents().len() as int),
        seg.spec_encoding() == seq![P, marker] + s.subrange(0, n),
{
    let end = contents_end(marker, s);
    if spec_has_length(marker) {
        lemma_be16_of_bytes(s.subrange(0, 2));
        assert(be16_at(s.subrange(0, 2), 0) == be16_at(s, 0));
        assert(s.subrange(0, end) =~= s.subrange(0, 2) + s.subrange(2, end));
    } else {
        assert(s.subrange(0, end) =~= Seq::<u8>::empty());
    }
    if spec_has_entropy(marker) {
        lemma_entropy_end_bounds(s, end);
        assert(s.subrange(0, n) =~= s.subrange(0, end) + s.subrange(end, n));
    }
    assert(seg.spec_encoding() =~= seq![P, marker] + s.subrange(0, n));
}

} // verus!
