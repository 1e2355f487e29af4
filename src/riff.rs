//! RIFF chunks: a four-byte tag, a little-endian length, and either opaque
//! data or a list of nested chunks.
use crate::buffer::{bytes_as_slice, bytes_content, bytes_slice};
use crate::error::Error;
use crate::wire::{lemma_le32_of_bytes, lemma_le32_round_trip, le32, le32_at, push_all, push_le32, read_le32};
use bytes::Bytes;
use vstd::prelude::*;

verus! {

/// Whether `id` is the four bytes `a b c d`.
pub open spec fn tag_is(id: Seq<u8>, a: u8, b: u8, c: u8, d: u8) -> bool {
    id.len() == 4 && id[0] == a && id[1] == b && id[2] == c && id[3] == d
}

/// `RIFF`
pub open spec fn is_riff_tag(id: Seq<u8>) -> bool {
    tag_is(id, 0x52, 0x49, 0x46, 0x46)
}

/// `LIST`
pub open spec fn is_list_tag(id: Seq<u8>) -> bool {
    tag_is(id, 0x4C, 0x49, 0x53, 0x54)
}

/// `seqt`
pub open spec fn is_seqt_tag(id: Seq<u8>) -> bool {
    tag_is(id, 0x73, 0x65, 0x71, 0x74)
}

/// Whether a chunk with this tag holds a list of chunks rather than data.
pub open spec fn spec_has_subchunks(id: Seq<u8>) -> bool {
    is_riff_tag(id) || is_list_tag(id) || is_seqt_tag(id)
}

/// Whether a chunk with this tag starts its list with a four-byte kind.
pub open spec fn spec_has_kind(id: Seq<u8>) -> bool {
    is_riff_tag(id) || is_list_tag(id)
}

/// The pad byte that follows content of odd length.
pub open spec fn pad(n: int) -> Seq<u8> {
    if n % 2 == 1 {
        seq![0u8]
    } else {
        Seq::empty()
    }
}

/// The representation of a RIFF chunk.
#[derive(PartialEq)]
pub struct RiffChunk {
    id: [u8; 4],
    content: RiffContent,
}

/// The contents of a RIFF chunk.
#[derive(PartialEq)]
pub enum RiffContent {
    List { kind: Option<[u8; 4]>, subchunks: Vec<RiffChunk> },
    Data(Bytes),
}

/// The encoded length of the kind of a list: four bytes where there is one.
pub open spec fn kind_len(kind: Option<[u8; 4]>) -> int {
    if kind is Some {
        4
    } else {
        0
    }
}

/// The bytes of the kind of a list, where there is one.
pub open spec fn kind_bytes(kind: Option<[u8; 4]>) -> Seq<u8> {
    match kind {
        Some(k) => k@,
        None => Seq::empty(),
    }
}

impl RiffChunk {
    pub closed spec fn spec_id(&self) -> Seq<u8> {
        self.id@
    }

    pub closed spec fn spec_content(&self) -> RiffContent {
        self.content
    }

    /// The total encoded size of this chunk: tag, length field and content,
    /// rounded up to an even number.
    pub closed spec fn spec_len(&self) -> int
        decreases self,
    {
        8 + self.content.spec_len() + (8 + self.content.spec_len()) % 2
    }

    /// The bytes that `write_to` produces: the tag, the length of the
    /// content (without its pad byte) and the content.
    pub closed spec fn spec_encoding(&self) -> Seq<u8>
        decreases self,
    {
        self.id@ + le32(self.content.spec_len()) + self.content.spec_encoding()
    }

    /// Whether every chunk of this tree holds what its tag calls for: data
    /// or a list, and a kind exactly where the tag has one.
    pub closed spec fn wf(&self) -> bool
        decreases self,
    {
        match self.content {
            RiffContent::List { kind, subchunks } => {
                &&& spec_has_subchunks(self.id@)
                &&& (kind is Some <==> spec_has_kind(self.id@))
                &&& list_wf(subchunks@)
            },
            RiffContent::Data(_) => !spec_has_subchunks(self.id@),
        }
    }
}

/// The summed encoded sizes of `s`.
pub closed spec fn list_len(s: Seq<RiffChunk>) -> int
    decreases s,
{
    if s.len() == 0 {
        0
    } else {
        list_len(s.subrange(0, s.len() - 1)) + s[s.len() - 1].spec_len()
    }
}

/// The concatenated encodings of `s`.
pub closed spec fn list_encoding(s: Seq<RiffChunk>) -> Seq<u8>
    decreases s,
{
    if s.len() == 0 {
        Seq::empty()
    } else {
        list_encoding(s.subrange(0, s.len() - 1)) + s[s.len() - 1].spec_encoding()
    }
}

/// Whether every chunk of `s` is well formed.
pub closed spec fn list_wf(s: Seq<RiffChunk>) -> bool
    decreases s,
{
    if s.len() == 0 {
        true
    } else {
        list_wf(s.subrange(0, s.len() - 1)) && s[s.len() - 1].wf()
    }
}

impl RiffContent {
    /// The value of the length field of a chunk with this content: the
    /// encoded size without the pad byte.
    pub open spec fn spec_len(&self) -> int
        decreases self,
    {
        match self {
            RiffContent::List { kind, subchunks } => kind_len(*kind) + list_len(subchunks@),
            RiffContent::Data(d) => bytes_content(*d).len() as int,
        }
    }

    /// The bytes that `write_to` produces: the kind and the chunks of a
    /// list, or the data and a pad byte where its length is odd.
    pub open spec fn spec_encoding(&self) -> Seq<u8>
        decreases self,
    {
        match self {
            RiffContent::List { kind, subchunks } => kind_bytes(*kind) + list_encoding(subchunks@),
            RiffContent::Data(d) => bytes_content(*d) + pad(bytes_content(*d).len() as int),
        }
    }
}


/// Facts on the sizes of a chunk: its encoding is as long as its stated
/// size, which is even and at least eight.
pub proof fn lemma_chunk_len(c: RiffChunk)
    ensures
        c.spec_len() >= 8,
        c.spec_len() % 2 == 0,
        c.spec_content().spec_len() >= 0,
        c.spec_encoding().len() == c.spec_len(),
    decreases c, 1int,
{
    lemma_content_len(c.content);
    reveal(RiffChunk::spec_len);
    reveal(RiffChunk::spec_encoding);
}

/// The encoding of content is as long as its length field, plus the pad
/// byte of odd data; the length of a list is even.
pub proof fn lemma_content_len(c: RiffContent)
    ensures
        c.spec_len() >= 0,
        c.spec_encoding().len() == c.spec_len() + match c {
            RiffContent::Data(d) => pad(bytes_content(d).len() as int).len() as int,
            _ => 0,
        },
        c is List ==> c.spec_len() % 2 == 0,
    decreases c, 0int,
{
    match c {
        RiffContent::List { kind, subchunks } => {
            lemma_list_len(subchunks@);
        },
        RiffContent::Data(d) => {},
    }
}

/// The summed sizes of a list of chunks are even and make up its encoding.
pub proof fn lemma_list_len(s: Seq<RiffChunk>)
    ensures
        list_len(s) >= 0,
        list_len(s) % 2 == 0,
        list_encoding(s).len() == list_len(s),
    decreases s,
{
    reveal(list_len);
    reveal(list_encoding);
    if s.len() > 0 {
        lemma_list_len(s.subrange(0, s.len() - 1));
        lemma_chunk_len(s[s.len() - 1]);
    }
}

/// The sizes of a prefix of a list sum to no more than those of the list.
pub proof fn lemma_list_len_prefix(s: Seq<RiffChunk>, i: int)
    requires
        0 <= i <= s.len(),
    ensures
        list_len(s.subrange(0, i)) <= list_len(s),
    decreases s.len(),
{
    if i < s.len() {
        let t = s.subrange(0, s.len() - 1);
        reveal(list_len);
        lemma_chunk_len(s[s.len() - 1]);
        lemma_list_len_prefix(t, i);
        assert(t.subrange(0, i) =~= s.subrange(0, i));
    } else {
        assert(s.subrange(0, i) =~= s);
    }
}

/// Extending a prefix of a list by its next chunk.
proof fn lemma_list_step(s: Seq<RiffChunk>, i: int)
    requires
        0 <= i < s.len(),
    ensures
        list_len(s.subrange(0, i + 1)) == list_len(s.subrange(0, i)) + s[i].spec_len(),
        list_encoding(s.subrange(0, i + 1)) == list_encoding(s.subrange(0, i))
            + s[i].spec_encoding(),
        list_wf(s.subrange(0, i + 1)) == (list_wf(s.subrange(0, i)) && s[i].wf()),
{
    let t = s.subrange(0, i + 1);
    assert(t.subrange(0, t.len() - 1) =~= s.subrange(0, i));
    reveal(list_len);
    reveal(list_encoding);
    reveal(list_wf);
}

/// Whether this tag marks a chunk that holds a list of chunks.
pub fn has_subchunks(id: [u8; 4]) -> (r: bool)
    ensures
        r == spec_has_subchunks(id@),
{
    (id[0] == 0x52 && id[1] == 0x49 && id[2] == 0x46 && id[3] == 0x46) || (id[0] == 0x4C && id[1]
        == 0x49 && id[2] == 0x53 && id[3] == 0x54) || (id[0] == 0x73 && id[1] == 0x65 && id[2]
        == 0x71 && id[3] == 0x74)
}

/// Whether this tag marks a list that starts with a four-byte kind.
pub fn has_kind(id: [u8; 4]) -> (r: bool)
    ensures
        r == spec_has_kind(id@),
{
    (id[0] == 0x52 && id[1] == 0x49 && id[2] == 0x46 && id[3] == 0x46) || (id[0] == 0x4C && id[1]
        == 0x49 && id[2] == 0x53 && id[3] == 0x54)
}

/// Data of odd length is followed by exactly one `0x00` byte in the
/// encoding, and data of even length by none.
pub proof fn lemma_data_padding(d: Bytes)
    ensures
        bytes_content(d).len() % 2 == 1 ==> RiffContent::Data(d).spec_encoding() == bytes_content(
            d,
        ).push(0u8),
        bytes_content(d).len() % 2 == 0 ==> RiffContent::Data(d).spec_encoding() == bytes_content(
            d,
        ),
{
    assert(bytes_content(d) + seq![0u8] =~= bytes_content(d).push(0u8));
    assert(bytes_content(d) + Seq::<u8>::empty() =~= bytes_content(d));
}

/// The size, encoding and well-formedness of a chunk, spelled out: the tag,
/// the length field holding the unpadded length of the content, then the
/// content; the size is rounded up to an even number.
pub proof fn lemma_chunk_unfold(c: RiffChunk)
    ensures
        c.spec_id().len() == 4,
        c.spec_len() == 8 + c.spec_content().spec_len() + (8 + c.spec_content().spec_len()) % 2,
        c.spec_encoding() == c.spec_id() + le32(c.spec_content().spec_len())
            + c.spec_content().spec_encoding(),
        c.wf() == match c.spec_content() {
            RiffContent::List { kind, subchunks } => {
                &&& spec_has_subchunks(c.spec_id())
                &&& (kind is Some <==> spec_has_kind(c.spec_id()))
                &&& list_wf(subchunks@)
            },
            RiffContent::Data(_) => !spec_has_subchunks(c.spec_id()),
        },
{
}

/// The sizes, encoding and well-formedness of a list, spelled out: the
/// chunks one after another, each followed by its own pad byte.
pub proof fn lemma_list_unfold(s: Seq<RiffChunk>)
    ensures
        s.len() == 0 ==> list_len(s) == 0 && list_encoding(s) == Seq::<u8>::empty() && list_wf(s),
        s.len() > 0 ==> {
            let t = s.subrange(0, s.len() - 1);
            let c = s[s.len() - 1];
            &&& list_len(s) == list_len(t) + c.spec_len()
            &&& list_encoding(s) == list_encoding(t) + c.spec_encoding()
            &&& list_wf(s) == (list_wf(t) && c.wf())
        },
{
    reveal(list_len);
    reveal(list_encoding);
    reveal(list_wf);
}

/// Whether the bytes of `s` from `pos` on, within `end`, begin with the
/// encoding of the well-formed chunk `c` whose length field fits in a `u32`,
/// and whose tag is `RIFF` where `check_riff_id` is set.
pub open spec fn encoded_at(c: RiffChunk, s: Seq<u8>, pos: int, end: int, check_riff_id: bool) -> bool {
    &&& c.wf()
    &&& c.spec_content().spec_len() <= u32::MAX
    &&& (check_riff_id ==> is_riff_tag(c.spec_id()))
    &&& 0 <= pos
    &&& pos + c.spec_encoding().len() <= end
    &&& end <= s.len()
    &&& s.subrange(pos, pos + c.spec_encoding().len()) == c.spec_encoding()
}

/// What the header of an encoded chunk tells of the chunk.
proof fn lemma_encoded_header(c: RiffChunk, s: Seq<u8>, pos: int, end: int, check_riff_id: bool)
    requires
        encoded_at(c, s, pos, end, check_riff_id),
    ensures
        pos + 8 <= end,
        s.subrange(pos, pos + 4) == c.spec_id(),
        le32_at(s, pos + 4) == c.spec_content().spec_len(),
        spec_has_subchunks(c.spec_id()) <==> c.spec_content() is List,
        c.spec_content() matches RiffContent::List { kind, subchunks } ==> {
            &&& c.spec_encoding().len() == 8 + c.spec_content().spec_len()
            &&& (kind is Some <==> spec_has_kind(c.spec_id()))
            &&& list_wf(subchunks@)
            &&& list_encoding(subchunks@) == s.subrange(pos + 8 + kind_len(kind), pos + 8
                + c.spec_content().spec_len())
            &&& c.spec_content().spec_len() == kind_len(kind) + list_len(subchunks@)
        },
        c.spec_content() is Data ==> {
            &&& c.spec_encoding().len() == 8 + c.spec_content().spec_len() + c.spec_content().spec_len() % 2
            &&& c.spec_content().spec_len() % 2 == 1 ==> s[pos + 8 + c.spec_content().spec_len()] == 0
        },
{
    let e = c.spec_encoding();
    let len = c.content.spec_len();
    lemma_chunk_len(c);
    lemma_content_len(c.content);
    lemma_le32_round_trip(len);
    assert(e == c.id@ + le32(len) + c.content.spec_encoding());
    assert(s.subrange(pos, pos + 4) =~= e.subrange(0, 4));
    assert(e.subrange(0, 4) =~= c.id@);
    assert(e.subrange(4, 8) =~= le32(len));
    assert(s[pos + 4] == e[4] && s[pos + 5] == e[5] && s[pos + 6] == e[6] && s[pos + 7] == e[7]);
    match c.content {
        RiffContent::List { kind, subchunks } => {
            assert(s.subrange(pos + 8 + kind_len(kind), pos + 8 + len) =~= e.subrange(
                8 + kind_len(kind),
                8 + len,
            ));
            assert(e.subrange(8 + kind_len(kind), 8 + len) =~= list_encoding(subchunks@));
        },
        RiffContent::Data(d) => {
            if len % 2 == 1 {
                assert(s[pos + 8 + len] == e[8 + len]);
            }
        },
    }
}

/// The encoding of a prefix of a list is a prefix of the list's encoding.
proof fn lemma_list_encoding_prefix(s: Seq<RiffChunk>, i: int)
    requires
        0 <= i <= s.len(),
    ensures
        list_encoding(s.subrange(0, i)) == list_encoding(s).subrange(0, list_len(s.subrange(0, i))),
    decreases s.len(),
{
    lemma_list_len(s);
    lemma_list_len(s.subrange(0, i));
    if i < s.len() {
        let t = s.subrange(0, s.len() - 1);
        lemma_list_encoding_prefix(t, i);
        assert(t.subrange(0, i) =~= s.subrange(0, i));
        lemma_list_len(t);
        lemma_list_len_prefix(t, i);
        reveal(list_encoding);
        assert(list_encoding(s) == list_encoding(t) + s[s.len() - 1].spec_encoding());
        assert(list_encoding(s).subrange(0, list_len(s.subrange(0, i))) =~= list_encoding(
            t,
        ).subrange(0, list_len(s.subrange(0, i))));
    } else {
        assert(s.subrange(0, i) =~= s);
        assert(list_encoding(s).subrange(0, list_len(s)) =~= list_encoding(s));
    }
}

/// Every chunk of a well-formed list is well formed.
proof fn lemma_list_wf_elem(s: Seq<RiffChunk>, i: int)
    requires
        list_wf(s),
        0 <= i < s.len(),
    ensures
        s[i].wf(),
    decreases s.len(),
{
    reveal(list_wf);
    if i < s.len() - 1 {
        let t = s.subrange(0, s.len() - 1);
        lemma_list_wf_elem(t, i);
        assert(t[i] == s[i]);
    }
}

/// Appending a chunk to a list.
proof fn lemma_list_push(s: Seq<RiffChunk>, c: RiffChunk)
    ensures
        list_encoding(s.push(c)) == list_encoding(s) + c.spec_encoding(),
        list_wf(s.push(c)) == (list_wf(s) && c.wf()),
{
    assert(s.push(c).subrange(0, s.len() as int) =~= s);
    reveal(list_encoding);
    reveal(list_wf);
}

/// Whether this tag is `RIFF`, the tag of the outermost chunk.
fn is_riff(id: [u8; 4]) -> (r: bool)
    ensures
        r == is_riff_tag(id@),
{
    id[0] == 0x52 && id[1] == 0x49 && id[2] == 0x46 && id[3] == 0x46
}

impl RiffChunk {
    /// Construct a new RIFF chunk.
    pub fn new(id: [u8; 4], content: RiffContent) -> (r: RiffChunk)
        ensures
            r.spec_id() == id@,
            r.spec_content() == content,
    {
        RiffChunk { id, content }
    }

    /// Decode a RIFF file: the chunk at the start of `b`, which must carry
    /// the tag `RIFF`. Bytes after that chunk are not read. The data of the
    /// tree are views into `b`.
    pub fn from_bytes(b: Bytes) -> (r: Result<RiffChunk, Error>)
        ensures
            r matches Ok(c) ==> {
                &&& c.wf()
                &&& is_riff_tag(c.spec_id())
                &&& c.spec_encoding().len() <= bytes_content(b).len()
                &&& c.spec_encoding() == bytes_content(b).subrange(0, c.spec_encoding().len() as int)
            },
            forall|c: RiffChunk| #[trigger]
                encoded_at(c, bytes_content(b), 0, bytes_content(b).len() as int, true) ==> (r matches Ok(
                    d,
                ) && d.spec_encoding() == c.spec_encoding()),
            bytes_content(b).len() >= 4 && !is_riff_tag(bytes_content(b).subrange(0, 4)) ==> r
                == Err::<RiffChunk, Error>(Error::NoRiffHeader),
            bytes_content(b).len() < 8 && !(bytes_content(b).len() >= 4 && !is_riff_tag(
                bytes_content(b).subrange(0, 4),
            )) ==> r == Err::<RiffChunk, Error>(Error::Truncated),
            bytes_content(b).len() >= 8 && is_riff_tag(bytes_content(b).subrange(0, 4)) && (8
                + le32_at(bytes_content(b), 4) > bytes_content(b).len() || le32_at(bytes_content(b), 4)
                < 4) ==> r == Err::<RiffChunk, Error>(Error::Truncated),
            bytes_content(b).len() >= 8 && is_riff_tag(bytes_content(b).subrange(0, 4)) && 8
                + le32_at(bytes_content(b), 4) <= bytes_content(b).len() && le32_at(bytes_content(b), 4)
                >= 4 && r is Err ==> r == Err::<RiffChunk, Error>(Error::MalformedNesting) || r
                == Err::<RiffChunk, Error>(Error::BadPadding),
    {
        let n = bytes_as_slice(&b).len();
        let r = RiffChunk::from_bytes_impl(&b, 0, n, true);
        assert forall|c: RiffChunk| #[trigger]
            encoded_at(c, bytes_content(b), 0, bytes_content(b).len() as int, true) implies (r matches Ok(
                (d, m),
            ) && d.spec_encoding() == c.spec_encoding()) by {
            assert(encoded_at(c, bytes_content(b), 0, n as int, true));
        }
        match r {
            Ok((c, _)) => Ok(c),
            Err(e) => Err(e),
        }
    }

    /// Decode the chunk that starts at `pos` in the window `pos..end` of the
    /// bytes of `b`; nothing after `end` is read. The tag must be `RIFF`
    /// where `check_riff_id` is set. Returns the chunk and the index after it
    /// and its pad byte. A chunk of a list that runs past the end of the
    /// list's content fails with `MalformedNesting`.
    #[verifier::rlimit(60)]
    #[verifier::spinoff_prover]
    pub fn from_bytes_impl(b: &Bytes, pos: usize, end: usize, check_riff_id: bool) -> (r: Result<
        (RiffChunk, usize),
        Error,
    >)
        requires
            pos <= end <= bytes_content(*b).len(),
        ensures
            r matches Ok((c, n)) ==> {
                &&& pos < n <= end
                &&& c.wf()
                &&& c.spec_encoding() == bytes_content(*b).subrange(pos as int, n as int)
                &&& check_riff_id ==> is_riff_tag(c.spec_id())
            },
            forall|c: RiffChunk| #[trigger]
                encoded_at(c, bytes_content(*b), pos as int, end as int, check_riff_id) ==> (r matches Ok(
                    (d, n),
                ) && n == pos + c.spec_encoding().len() && d.spec_encoding() == c.spec_encoding()),
            r is Err ==> r == Err::<(RiffChunk, usize), Error>(Error::Truncated) || r == Err::<
                (RiffChunk, usize),
                Error,
            >(Error::MalformedNesting) || r == Err::<(RiffChunk, usize), Error>(Error::BadPadding)
                || (check_riff_id && r == Err::<(RiffChunk, usize), Error>(Error::NoRiffHeader)),
            check_riff_id && pos + 4 <= end && !is_riff_tag(bytes_content(*b).subrange(pos as int, pos + 4))
                ==> r == Err::<(RiffChunk, usize), Error>(Error::NoRiffHeader),
            end - pos < 8 && !(check_riff_id && pos + 4 <= end && !is_riff_tag(
                bytes_content(*b).subrange(pos as int, pos + 4),
            )) ==> r == Err::<(RiffChunk, usize), Error>(Error::Truncated),
            pos + 8 <= end && !(check_riff_id && !is_riff_tag(bytes_content(*b).subrange(pos as int, pos + 4)))
                && pos + 8 + le32_at(bytes_content(*b), pos + 4) > end ==> r == Err::<(RiffChunk, usize), Error>(
                Error::Truncated,
            ),
            pos + 8 <= end && !(check_riff_id && !is_riff_tag(bytes_content(*b).subrange(pos as int, pos + 4)))
                && spec_has_kind(bytes_content(*b).subrange(pos as int, pos + 4)) && le32_at(bytes_content(*b), pos + 4)
                < 4 ==> r == Err::<(RiffChunk, usize), Error>(Error::Truncated),
            pos + 8 <= end && spec_has_subchunks(bytes_content(*b).subrange(pos as int, pos + 4)) && !(
            check_riff_id && !is_riff_tag(bytes_content(*b).subrange(pos as int, pos + 4))) && pos + 8
                + le32_at(bytes_content(*b), pos + 4) <= end && !(spec_has_kind(
                bytes_content(*b).subrange(pos as int, pos + 4),
            ) && le32_at(bytes_content(*b), pos + 4) < 4) && r is Err ==> r == Err::<(RiffChunk, usize), Error>(
                Error::MalformedNesting,
            ) || r == Err::<(RiffChunk, usize), Error>(Error::BadPadding),
        decreases end - pos,
    {
        let s = bytes_as_slice(b);
        let ghost has = exists|c: RiffChunk| encoded_at(c, s@, pos as int, end as int, check_riff_id);
        let ghost cc = choose|c: RiffChunk| encoded_at(c, s@, pos as int, end as int, check_riff_id);
        proof {
            if has {
                lemma_encoded_header(cc, s@, pos as int, end as int, check_riff_id);
            }
        }
        if end - pos < 4 {
            return Err(Error::Truncated);
        }
        let id: [u8; 4] = [s[pos], s[pos + 1], s[pos + 2], s[pos + 3]];
        assert(id@ =~= s@.subrange(pos as int, pos + 4));
        if check_riff_id && !is_riff(id) {
            return Err(Error::NoRiffHeader);
        }
        if end - pos < 8 {
            return Err(Error::Truncated);
        }
        let len = read_le32(s, pos + 4);
        if len as usize > end - pos - 8 {
            return Err(Error::Truncated);
        }
        let cstart = pos + 8;
        let cend = cstart + len as usize;
        proof {
            lemma_le32_of_bytes(s@.subrange(pos + 4, pos + 8));
            assert(le32(len as int) == s@.subrange(pos + 4, pos + 8));
        }
        if has_subchunks(id) {
            let mut p = cstart;
            let kind = if has_kind(id) {
                if len < 4 {
                    return Err(Error::Truncated);
                }
                p = cstart + 4;
                let k: [u8; 4] = [s[cstart], s[cstart + 1], s[cstart + 2], s[cstart + 3]];
                assert(k@ =~= s@.subrange(cstart as int, cstart + 4));
                Some(k)
            } else {
                None
            };
            let ghost csubs = match cc.content {
                RiffContent::List { subchunks, .. } => subchunks@,
                _ => Seq::<RiffChunk>::empty(),
            };
            let ghost ckind = match cc.content {
                RiffContent::List { kind, .. } => kind,
                _ => None,
            };
            let mut subchunks: Vec<RiffChunk> = Vec::new();
            proof {
                reveal(list_encoding);
                reveal(list_wf);
                reveal(list_len);
                assert(kind_bytes(kind) + list_encoding(subchunks@) =~= s@.subrange(
                    cstart as int,
                    p as int,
                ));
                if has {
                    assert(csubs.subrange(0, 0) =~= Seq::<RiffChunk>::empty());
                    lemma_list_len(csubs);
                }
            }
            while p < cend
                invariant
                    cstart <= p <= cend <= end <= s@.len(),
                    pos + 8 == cstart,
                    cend == cstart + len,
                    len as int == le32_at(s@, pos + 4),
                    id@ == s@.subrange(pos as int, pos + 4),
                    check_riff_id ==> is_riff_tag(id@),
                    s@ == bytes_content(*b),
                    spec_has_subchunks(id@),
                    kind is Some <==> spec_has_kind(id@),
                    spec_has_kind(id@) ==> len >= 4,
                    list_wf(subchunks@),
                    kind_bytes(kind) + list_encoding(subchunks@) == s@.subrange(
                        cstart as int,
                        p as int,
                    ),
                    has == exists|x: RiffChunk| encoded_at(x, s@, pos as int, end as int, check_riff_id),
                    has ==> {
                        &&& cc.spec_content() is List
                        &&& kind_len(kind) == kind_len(ckind)
                        &&& list_wf(csubs)
                        &&& list_encoding(csubs) == s@.subrange(cstart + kind_len(kind), cend as int)
                        &&& len == kind_len(kind) + list_len(csubs)
                        &&& list_len(csubs) >= 0
                        &&& subchunks@.len() <= csubs.len()
                        &&& p == cstart + kind_len(kind) + list_len(
                            csubs.subrange(0, subchunks@.len() as int),
                        )
                    },
                decreases cend - p,
            {
                let ghost k = subchunks@.len() as int;
                proof {
                    if has {
                        if k == csubs.len() {
                            assert(csubs.subrange(0, k) =~= csubs);
                        }
                        let child = csubs[k];
                        lemma_list_step(csubs, k);
                        lemma_list_len_prefix(csubs, k + 1);
                        lemma_list_len(csubs.subrange(0, k));
                        lemma_list_len(csubs.subrange(0, k + 1));
                        lemma_chunk_len(child);
                        lemma_list_wf_elem(csubs, k);
                        lemma_list_encoding_prefix(csubs, k);
                        lemma_list_encoding_prefix(csubs, k + 1);
                        let lk = list_len(csubs.subrange(0, k));
                        let lk1 = list_len(csubs.subrange(0, k + 1));
                        assert(list_encoding(csubs.subrange(0, k + 1)).subrange(lk, lk1)
                            =~= child.spec_encoding());
                        assert(list_encoding(csubs).subrange(lk, lk1) =~= list_encoding(
                            csubs,
                        ).subrange(0, lk1).subrange(lk, lk1));
                        assert(child.spec_encoding() =~= list_encoding(csubs).subrange(lk, lk1));
                        assert(s@.subrange(p as int, p + child.spec_encoding().len())
                            =~= list_encoding(csubs).subrange(lk, lk1));
                        assert(child.spec_content().spec_len() <= child.spec_len());
                        assert(encoded_at(child, s@, p as int, cend as int, false));
                    }
                }
                match RiffChunk::from_bytes_impl(b, p, cend, false) {
                    Ok((c, n)) => {
                        proof {
                            lemma_list_push(subchunks@, c);
                            assert(s@.subrange(cstart as int, n as int) =~= s@.subrange(
                                cstart as int,
                                p as int,
                            ) + s@.subrange(p as int, n as int));
                        }
                        subchunks.push(c);
                        p = n;
                    },
                    Err(Error::Truncated) => {
                        return Err(Error::MalformedNesting);
                    },
                    Err(e) => {
                        return Err(e);
                    },
                }
            }
            let content = RiffContent::List { kind, subchunks };
            let c = RiffChunk { id, content };
            proof {
                lemma_list_len(subchunks@);
                assert(content.spec_len() == len);
                assert(s@.subrange(pos as int, cend as int) =~= s@.subrange(pos as int, pos + 4)
                    + s@.subrange(pos + 4, pos + 8) + s@.subrange(cstart as int, cend as int));
                assert forall|x: RiffChunk| #[trigger]
                    encoded_at(x, s@, pos as int, end as int, check_riff_id) implies cend == pos
                    + x.spec_encoding().len() && c.spec_encoding() == x.spec_encoding() by {
                    lemma_encoded_header(x, s@, pos as int, end as int, check_riff_id);
                }
            }
            Ok((c, cend))
        } else {
            let mut n = cend;
            if len % 2 == 1 {
                if cend >= end {
                    return Err(Error::Truncated);
                }
                if s[cend] != 0 {
                    return Err(Error::BadPadding);
                }
                n = cend + 1;
            }
            let data = bytes_slice(b, cstart, cend);
            let c = RiffChunk { id, content: RiffContent::Data(data) };
            proof {
                assert(s@.subrange(pos as int, n as int) =~= s@.subrange(pos as int, pos + 4)
                    + s@.subrange(pos + 4, pos + 8) + s@.subrange(cstart as int, cend as int) + pad(
                    len as int,
                ));
                assert forall|x: RiffChunk| #[trigger]
                    encoded_at(x, s@, pos as int, end as int, check_riff_id) implies n == pos
                    + x.spec_encoding().len() && c.spec_encoding() == x.spec_encoding() by {
                    lemma_encoded_header(x, s@, pos as int, end as int, check_riff_id);
                }
            }
            Ok((c, n))
        }
    }

    /// Get the id of this `RiffChunk`.
    pub fn id(&self) -> (r: [u8; 4])
        ensures
            r@ == self.spec_id(),
    {
        self.id
    }

    /// Get the content of this `RiffChunk`.
    pub fn content(&self) -> (r: &RiffContent)
        ensures
            *r == self.spec_content(),
    {
        &self.content
    }

    /// Get a mutable reference to the content of this `RiffChunk`.
    pub fn content_mut(&mut self) -> (r: &mut RiffContent)
        ensures
            *r == old(self).spec_content(),
            final(self).spec_id() == old(self).spec_id(),
            final(self).spec_content() == *final(r),
    {
        &mut self.content
    }

    /// The total size of this chunk once encoded, or `None` where it does
    /// not fit in a `u32`.
    fn checked_len(&self) -> (r: Option<u32>)
        ensures
            r == if self.spec_len() <= u32::MAX {
                Some(self.spec_len() as u32)
            } else {
                None::<u32>
            },
        decreases self, 1int,
    {
        proof {
            lemma_chunk_len(*self);
            reveal(RiffChunk::spec_len);
        }
        match self.content.checked_len() {
            Some(n) => {
                if n > u32::MAX - 9 {
                    None
                } else {
                    let len = 8 + n;
                    Some(len + len % 2)
                }
            },
            None => None,
        }
    }

    /// Get the total size of this `RiffChunk` once it is encoded: the tag
    /// (4 bytes), the size field (4 bytes), the content and a padding byte
    /// if the size of the content is odd.
    pub fn len(&self) -> (r: u32)
        requires
            self.spec_len() <= u32::MAX,
        ensures
            r == self.spec_len(),
    {
        proof {
            lemma_chunk_len(*self);
        }
        match self.checked_len() {
            Some(n) => n,
            None => 0,
        }
    }

    /// Append the encoding of this `RiffChunk` to `out`. Fails, writing
    /// nothing, where the length of its content does not fit in the `u32`
    /// length field.
    pub fn write_to(&self, out: &mut Vec<u8>) -> (r: Result<(), Error>)
        ensures
            r is Ok <==> self.spec_content().spec_len() <= u32::MAX,
            r is Ok ==> final(out)@ == old(out)@ + self.spec_encoding(),
            r is Err ==> r == Err::<(), Error>(Error::Overflow) && final(out)@ == old(out)@,
        decreases self, 1int,
    {
        proof {
            lemma_content_len(self.content);
            reveal(RiffChunk::spec_encoding);
        }
        match self.content.checked_len() {
            None => Err(Error::Overflow),
            Some(n) => {
                push_all(out, &self.id);
                push_le32(out, n);
                self.content.write_to(out);
                assert(out@ =~= old(out)@ + self.spec_encoding());
                Ok(())
            },
        }
    }
}

impl RiffContent {
    /// The length of this content once encoded, or `None` where it does not
    /// fit in a `u32`.
    fn checked_len(&self) -> (r: Option<u32>)
        ensures
            r == if self.spec_len() <= u32::MAX {
                Some(self.spec_len() as u32)
            } else {
                None::<u32>
            },
        decreases self, 0int,
    {
        match self {
            RiffContent::List { kind, subchunks } => {
                let mut total: u32 = if kind.is_some() {
                    4
                } else {
                    0
                };
                let mut i: usize = 0;
                proof {
                    assert(subchunks@.subrange(0, 0) =~= Seq::<RiffChunk>::empty());
                    reveal(list_len);
                }
                while i < subchunks.len()
                    invariant
                        i <= subchunks@.len(),
                        *self == (RiffContent::List { kind: *kind, subchunks: *subchunks }),
                        total == kind_len(*kind) + list_len(subchunks@.subrange(0, i as int)),
                        self.spec_len() == kind_len(*kind) + list_len(subchunks@),
                    decreases subchunks@.len() - i,
                {
                    proof {
                        lemma_list_step(subchunks@, i as int);
                        lemma_list_len_prefix(subchunks@, i as int + 1);
                        lemma_list_len(subchunks@.subrange(0, i as int));
                        lemma_chunk_len(subchunks@[i as int]);
                        vstd::std_specs::vec::axiom_vec_index_decreases(*subchunks, i as int);
                    }
                    match subchunks[i].checked_len() {
                        Some(n) => {
                            if n > u32::MAX - total {
                                return None;
                            }
                            total = total + n;
                        },
                        None => {
                            return None;
                        },
                    }
                    i = i + 1;
                }
                proof {
                    assert(subchunks@.subrange(0, i as int) =~= subchunks@);
                }
                Some(total)
            },
            RiffContent::Data(d) => {
                let n = bytes_as_slice(d).len();
                if n > u32::MAX as usize {
                    None
                } else {
                    Some(n as u32)
                }
            },
        }
    }

    /// Get the size of this `RiffContent` once it is encoded, without the pad
    /// byte of data of odd length: the kind (4 bytes) of a list that has one
    /// and the sizes of its chunks, or the length of the data.
    pub fn len(&self) -> (r: u32)
        requires
            self.spec_len() <= u32::MAX,
        ensures
            r == self.spec_len(),
    {
        proof {
            lemma_content_len(*self);
        }
        match self.checked_len() {
            Some(n) => n,
            None => 0,
        }
    }

    /// Get `kind` and `subchunks` of this `RiffContent` if it is a `List`.
    pub fn list(&self) -> (r: Option<(&Option<[u8; 4]>, &Vec<RiffChunk>)>)
        ensures
            match self {
                RiffContent::List { kind, subchunks } => r == Some((kind, subchunks)),
                RiffContent::Data(_) => r is None,
            },
    {
        match self {
            RiffContent::List { kind, subchunks } => Some((kind, subchunks)),
            RiffContent::Data(_) => None,
        }
    }

    /// Get the `data` of this `RiffContent` if it is `Data`.
    pub fn data(&self) -> (r: Option<Bytes>)
        ensures
            match self {
                RiffContent::List { .. } => r is None,
                RiffContent::Data(d) => r matches Some(e) && bytes_content(e) == bytes_content(*d),
            },
    {
        match self {
            RiffContent::List { .. } => None,
            RiffContent::Data(data) => Some(data.clone()),
        }
    }

    /// Append the encoding of this `RiffContent` to `out`: the kind and the
    /// chunks of a list, or the data followed by a `0x00` byte where its
    /// length is odd.
    pub fn write_to(&self, out: &mut Vec<u8>)
        requires
            self.spec_len() <= u32::MAX,
        ensures
            final(out)@ == old(out)@ + self.spec_encoding(),
        decreases self, 0int,
    {
        match self {
            RiffContent::List { kind, subchunks } => {
                match kind {
                    Some(k) => push_all(out, k),
                    None => {},
                }
                let ghost start = out@;
                let mut i: usize = 0;
                proof {
                    assert(subchunks@.subrange(0, 0) =~= Seq::<RiffChunk>::empty());
                    reveal(list_encoding);
                    lemma_list_len(subchunks@);
                    assert(decreases_to!(*self => *subchunks));
                }
                while i < subchunks.len()
                    invariant
                        i <= subchunks@.len(),
                        out@ == start + list_encoding(subchunks@.subrange(0, i as int)),
                        *self == (RiffContent::List { kind: *kind, subchunks: *subchunks }),
                        start == old(out)@ + kind_bytes(*kind),
                        decreases_to!(*self => *subchunks),
                        kind_len(*kind) + list_len(subchunks@) <= u32::MAX,
                        list_len(subchunks@) >= 0,
                    decreases subchunks@.len() - i,
                {
                    proof {
                        lemma_list_step(subchunks@, i as int);
                        lemma_list_len_prefix(subchunks@, i as int + 1);
                        lemma_list_len(subchunks@.subrange(0, i as int));
                        lemma_chunk_len(subchunks@[i as int]);
                        vstd::std_specs::vec::axiom_vec_index_decreases(*subchunks, i as int);
                        assert(decreases_to!(*self => subchunks@[i as int]));
                        lemma_content_len(subchunks@[i as int].spec_content());
                        reveal(RiffChunk::spec_len);
                    }
                    let _ = subchunks[i].write_to(out);
                    i = i + 1;
                }
                proof {
                    assert(subchunks@.subrange(0, i as int) =~= subchunks@);
                }
                assert(out@ =~= old(out)@ + self.spec_encoding());
            },
            RiffContent::Data(d) => {
                let data = bytes_as_slice(d);
                push_all(out, data);
                if data.len() % 2 != 0 {
                    out.push(0u8);
                }
                assert(out@ =~= old(out)@ + self.spec_encoding());
            },
        }
    }
}

} // verus!
