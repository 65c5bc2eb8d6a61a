//! PNG files: the signature and the chunks that follow it, in file order.

use crate::be32::{be_bytes, be_value, lemma_value_of_bytes, read_be};
use crate::chunk::{
    lemma_bytes_of_parse, lemma_parse_of_bytes, parse_chunk, Chunk, ChunkError, ChunkView,
};
use crate::chunk_type::{parse_str, ChunkType, ChunkTypeError};
use crate::outcome::result_view;
use std::str::FromStr;
use vstd::prelude::*;
use vstd::slice::slice_subrange;
use vstd::std_specs::convert::TryFromSpecImpl;

verus! {

/// Why a buffer is not a PNG file.
#[derive(Debug, Clone, Copy, PartialEq, Eq, Structural)]
pub enum PngErr {
    /// What follows the signature is not a sequence of chunks.
    InvalidChunk(ChunkError),
    /// The buffer does not start with the eight signature bytes.
    IllegalSignature,
}

impl PngErr {
    /// What [`PngErr::to_string`] returns.
    pub open spec fn text(self) -> Seq<char> {
        match self {
            PngErr::InvalidChunk(cause) => cause.text(),
            PngErr::IllegalSignature => "Illegal file signature: is this a png file?"@,
        }
    }

    /// The text that describes the error to a user.
    pub fn to_string(&self) -> (text: String)
        ensures
            text@ == self.text(),
    {
        match self {
            PngErr::InvalidChunk(cause) => cause.to_string(),
            PngErr::IllegalSignature => "Illegal file signature: is this a png file?".to_owned(),
        }
    }
}

/// The eight bytes that every PNG file starts with.
pub open spec fn signature() -> Seq<u8> {
    seq![137u8, 80u8, 78u8, 71u8, 13u8, 10u8, 26u8, 10u8]
}

/// The views of a sequence of chunks.
pub open spec fn views(chunks: Seq<Chunk>) -> Seq<ChunkView> {
    chunks.map_values(|chunk: Chunk| chunk@)
}

/// The frames of the chunks, one after the other.
pub open spec fn chunks_bytes(chunks: Seq<ChunkView>) -> Seq<u8>
    decreases chunks.len(),
{
    if chunks.len() == 0 {
        Seq::empty()
    } else {
        chunks[0].bytes() + chunks_bytes(chunks.drop_first())
    }
}

/// The file that holds the chunks: the signature, then the frames.
pub open spec fn png_bytes(chunks: Seq<ChunkView>) -> Seq<u8> {
    signature() + chunks_bytes(chunks)
}

/// The number of bytes of the frame that starts `bytes`, as its length field
/// declares it.
pub open spec fn declared_frame_len(bytes: Seq<u8>) -> int {
    be_value(bytes.subrange(0, 4)) + 12
}

/// What parsing returns for the bytes after the signature: the chunks whose
/// frames the bytes are, or the error of the first frame that is none. No
/// bytes at all are no chunks.
pub open spec fn parse_chunks(bytes: Seq<u8>) -> Result<Seq<ChunkView>, ChunkError>
    decreases bytes.len(),
{
    if bytes.len() == 0 {
        Ok(Seq::empty())
    } else if bytes.len() < 12 || declared_frame_len(bytes) > bytes.len() {
        Err(ChunkError::IllegalLength)
    } else {
        match parse_chunk(bytes.subrange(0, declared_frame_len(bytes))) {
            Err(error) => Err(error),
            Ok(first) => followed_by(
                seq![first],
                parse_chunks(bytes.subrange(declared_frame_len(bytes), bytes.len() as int)),
            ),
        }
    }
}

/// The chunks `parsed`, then those of `rest`, unless `rest` is an error.
pub open spec fn followed_by(
    parsed: Seq<ChunkView>,
    rest: Result<Seq<ChunkView>, ChunkError>,
) -> Result<Seq<ChunkView>, ChunkError> {
    match rest {
        Ok(chunks) => Ok(parsed + chunks),
        Err(error) => Err(error),
    }
}

/// What parsing a whole buffer returns.
pub open spec fn parse_png(bytes: Seq<u8>) -> Result<Seq<ChunkView>, PngErr> {
    if bytes.len() < 8 || bytes.subrange(0, 8) != signature() {
        Err(PngErr::IllegalSignature)
    } else {
        match parse_chunks(bytes.subrange(8, bytes.len() as int)) {
            Ok(chunks) => Ok(chunks),
            Err(error) => Err(PngErr::InvalidChunk(error)),
        }
    }
}

/// `i` is the place of the first chunk with the type code `code`.
pub open spec fn is_first_of_type(chunks: Seq<ChunkView>, code: Seq<u8>, i: int) -> bool {
    &&& 0 <= i < chunks.len()
    &&& chunks[i].chunk_type == code
    &&& forall|j: int| 0 <= j < i ==> (#[trigger] chunks[j]).chunk_type != code
}

/// The place of the first chunk that a query for the type `query` finds:
/// none if the query is no type code, or if no chunk has that type.
pub open spec fn first_of_type(chunks: Seq<ChunkView>, query: Seq<char>) -> Option<int> {
    match parse_str(query) {
        Ok(code) => if exists|i: int| is_first_of_type(chunks, code, i) {
            Some(choose|i: int| is_first_of_type(chunks, code, i))
        } else {
            None
        },
        Err(_) => None,
    }
}

/// The chunks that a query for the type `query` finds, in file order: none
/// at all (which is not the same as an empty list) if the query is no type
/// code.
pub open spec fn all_of_type(chunks: Seq<ChunkView>, query: Seq<char>) -> Option<Seq<ChunkView>> {
    match parse_str(query) {
        Ok(code) => Some(chunks.filter(|chunk: ChunkView| chunk.chunk_type == code)),
        Err(_) => None,
    }
}

/// Every chunk is well formed and intact.
pub open spec fn all_sound(chunks: Seq<ChunkView>) -> bool {
    forall|i: int| 0 <= i < chunks.len() ==> (#[trigger] chunks[i]).wf() && chunks[i].intact()
}

/// Appending a chunk appends its frame.
pub proof fn lemma_chunks_bytes_push(chunks: Seq<ChunkView>, chunk: ChunkView)
    ensures
        chunks_bytes(chunks.push(chunk)) == chunks_bytes(chunks) + chunk.bytes(),
    decreases chunks.len(),
{
    let longer = chunks.push(chunk);
    if chunks.len() == 0 {
        assert(longer.drop_first() =~= Seq::<ChunkView>::empty());
        assert(chunks_bytes(longer.drop_first()) =~= Seq::<u8>::empty());
        assert(chunks_bytes(longer) =~= chunks_bytes(chunks) + chunk.bytes());
    } else {
        lemma_chunks_bytes_push(chunks.drop_first(), chunk);
        assert(longer.drop_first() =~= chunks.drop_first().push(chunk));
        assert(chunks_bytes(longer) =~= chunks_bytes(chunks) + chunk.bytes());
    }
}

/// The frames of a sequence that is not empty are the first frame, then the
/// frames of the others.
proof fn lemma_chunks_bytes_first(chunks: Seq<ChunkView>)
    requires
        chunks.len() > 0,
    ensures
        chunks_bytes(chunks) == chunks[0].bytes() + chunks_bytes(chunks.drop_first()),
{
}

/// Where the first frame of a sequence of frames ends, and what it is.
proof fn lemma_first_frame(first: ChunkView, more: Seq<u8>)
    requires
        first.wf(),
    ensures
        (first.bytes() + more).len() >= 12,
        declared_frame_len(first.bytes() + more) == first.bytes().len(),
        (first.bytes() + more).subrange(0, first.bytes().len() as int) == first.bytes(),
        (first.bytes() + more).subrange(
            first.bytes().len() as int,
            (first.bytes() + more).len() as int,
        ) == more,
{
    let frame = first.bytes();
    let bytes = frame + more;
    lemma_value_of_bytes(first.length());
    assert(frame.len() == first.data.len() + 12);
    assert(bytes.subrange(0, 4) =~= be_bytes(first.length()));
    assert(bytes.subrange(0, frame.len() as int) =~= frame);
    assert(bytes.subrange(frame.len() as int, bytes.len() as int) =~= more);
}

/// What `parse_chunks` returns for bytes that parse: the chunk of the first
/// frame, then the chunks of the bytes behind it.
proof fn lemma_parsed_first(bytes: Seq<u8>)
    requires
        bytes.len() > 0,
        parse_chunks(bytes) is Ok,
    ensures
        12 <= declared_frame_len(bytes) <= bytes.len(),
        parse_chunk(bytes.subrange(0, declared_frame_len(bytes))) is Ok,
        parse_chunks(bytes.subrange(declared_frame_len(bytes), bytes.len() as int)) is Ok,
        parse_chunks(bytes)->Ok_0 == seq![
            parse_chunk(bytes.subrange(0, declared_frame_len(bytes)))->Ok_0,
        ] + parse_chunks(bytes.subrange(declared_frame_len(bytes), bytes.len() as int))->Ok_0,
{
}

/// The frames of a chunk put in front of others.
proof fn lemma_chunks_bytes_prepend(first: ChunkView, rest: Seq<ChunkView>)
    ensures
        chunks_bytes(seq![first] + rest) == first.bytes() + chunks_bytes(rest),
{
    let chunks = seq![first] + rest;
    assert(chunks.drop_first() =~= rest);
    lemma_chunks_bytes_first(chunks);
}

/// Bytes that are a frame and then frames are the frames of all the chunks.
proof fn lemma_joined(bytes: Seq<u8>, n: int, first: ChunkView, rest: Seq<ChunkView>)
    requires
        0 <= n <= bytes.len(),
        first.bytes() == bytes.subrange(0, n),
        chunks_bytes(rest) == bytes.subrange(n, bytes.len() as int),
    ensures
        chunks_bytes(seq![first] + rest) == bytes,
{
    lemma_chunks_bytes_prepend(first, rest);
    assert(bytes.subrange(0, n) + bytes.subrange(n, bytes.len() as int) =~= bytes);
}

/// A sound chunk in front of sound chunks.
proof fn lemma_sound_prepend(first: ChunkView, rest: Seq<ChunkView>)
    requires
        first.wf(),
        first.intact(),
        all_sound(rest),
    ensures
        all_sound(seq![first] + rest),
{
    let chunks = seq![first] + rest;
    assert forall|i: int| 0 <= i < chunks.len() implies (#[trigger] chunks[i]).wf()
        && chunks[i].intact() by {
        if i > 0 {
            assert(chunks[i] == rest[i - 1]);
        }
    }
}

/// The chunks behind the first of sound chunks are sound.
proof fn lemma_sound_rest(chunks: Seq<ChunkView>)
    requires
        chunks.len() > 0,
        all_sound(chunks),
    ensures
        chunks[0].wf(),
        chunks[0].intact(),
        all_sound(chunks.drop_first()),
{
    let rest = chunks.drop_first();
    assert forall|i: int| 0 <= i < rest.len() implies (#[trigger] rest[i]).wf()
        && rest[i].intact() by {
        assert(rest[i] == chunks[i + 1]);
    }
}

/// Parsing a sound chunk's frame followed by bytes that parse gives the
/// chunk followed by what the bytes parse to.
proof fn lemma_parse_prepended(first: ChunkView, more: Seq<u8>)
    requires
        first.wf(),
        first.intact(),
        parse_chunks(more) is Ok,
    ensures
        parse_chunks(first.bytes() + more) == Ok::<Seq<ChunkView>, ChunkError>(
            seq![first] + parse_chunks(more)->Ok_0,
        ),
{
    assert(first == ChunkView::build(first.chunk_type, first.data));
    lemma_parse_of_bytes(first.chunk_type, first.data);
    lemma_first_frame(first, more);
}

/// Parsing the frames of well-formed, intact chunks gives the chunks back.
pub proof fn lemma_parse_of_chunks_bytes(chunks: Seq<ChunkView>)
    requires
        all_sound(chunks),
    ensures
        parse_chunks(chunks_bytes(chunks)) == Ok::<Seq<ChunkView>, ChunkError>(chunks),
    decreases chunks.len(),
{
    if chunks.len() == 0 {
        assert(chunks =~= Seq::<ChunkView>::empty());
    } else {
        let first = chunks[0];
        let rest = chunks.drop_first();
        lemma_sound_rest(chunks);
        lemma_parse_of_chunks_bytes(rest);
        lemma_parse_prepended(first, chunks_bytes(rest));
        lemma_chunks_bytes_first(chunks);
        assert(seq![first] + rest =~= chunks);
    }
}

/// Bytes that parse as chunks are the frames of those chunks, and each of
/// the chunks is well formed and intact.
pub proof fn lemma_chunks_bytes_of_parse(bytes: Seq<u8>)
    requires
        parse_chunks(bytes) is Ok,
    ensures
        chunks_bytes(parse_chunks(bytes)->Ok_0) == bytes,
        all_sound(parse_chunks(bytes)->Ok_0),
    decreases bytes.len(),
{
    if bytes.len() == 0 {
        assert(chunks_bytes(Seq::<ChunkView>::empty()) =~= bytes);
    } else {
        lemma_parsed_first(bytes);
        let n = declared_frame_len(bytes);
        let frame = bytes.subrange(0, n);
        let tail = bytes.subrange(n, bytes.len() as int);
        let first = parse_chunk(frame)->Ok_0;
        let rest = parse_chunks(tail)->Ok_0;
        lemma_bytes_of_parse(frame);
        lemma_chunks_bytes_of_parse(tail);
        lemma_joined(bytes, n, first, rest);
        lemma_sound_prepend(first, rest);
    }
}

/// One step of parsing behind chunks that are already parsed: the error of
/// the first frame, or the same parse with that frame's chunk moved over.
proof fn lemma_parse_step(parsed: Seq<ChunkView>, bytes: Seq<u8>)
    requires
        12 <= declared_frame_len(bytes) <= bytes.len(),
    ensures
        match parse_chunk(bytes.subrange(0, declared_frame_len(bytes))) {
            Err(error) => followed_by(parsed, parse_chunks(bytes)) == Err::<
                Seq<ChunkView>,
                ChunkError,
            >(error),
            Ok(first) => followed_by(parsed, parse_chunks(bytes)) == followed_by(
                parsed.push(first),
                parse_chunks(bytes.subrange(declared_frame_len(bytes), bytes.len() as int)),
            ),
        },
{
    let tail = parse_chunks(bytes.subrange(declared_frame_len(bytes), bytes.len() as int));
    match parse_chunk(bytes.subrange(0, declared_frame_len(bytes))) {
        Err(error) => {},
        Ok(first) => {
            if tail is Ok {
                assert(parsed + (seq![first] + tail->Ok_0) =~= parsed.push(first) + tail->Ok_0);
            }
        },
    }
}

/// The parts of the bytes from `pos` on, as parts of the whole.
proof fn lemma_window(bytes: Seq<u8>, pos: int, end: int)
    requires
        0 <= pos <= end <= bytes.len(),
    ensures
        bytes.subrange(pos, bytes.len() as int).subrange(0, end - pos) == bytes.subrange(pos, end),
        bytes.subrange(pos, bytes.len() as int).subrange(end - pos, bytes.len() - pos)
            == bytes.subrange(end, bytes.len() as int),
{
    let rest = bytes.subrange(pos, bytes.len() as int);
    assert(rest.subrange(0, end - pos) =~= bytes.subrange(pos, end));
    assert(rest.subrange(end - pos, bytes.len() - pos) =~= bytes.subrange(end, bytes.len() as int));
}

/// Serialising chunks into a file and parsing the file gives the chunks back,
/// for all chunks that are well formed and intact. With no chunks the file is
/// the signature alone.
pub proof fn lemma_parse_of_png_bytes(chunks: Seq<ChunkView>)
    requires
        all_sound(chunks),
    ensures
        parse_png(png_bytes(chunks)) == Ok::<Seq<ChunkView>, PngErr>(chunks),
        chunks.len() == 0 ==> png_bytes(chunks) == signature(),
{
    let bytes = png_bytes(chunks);
    assert(bytes.subrange(0, 8) =~= signature());
    assert(bytes.subrange(8, bytes.len() as int) =~= chunks_bytes(chunks));
    lemma_parse_of_chunks_bytes(chunks);
    if chunks.len() == 0 {
        assert(chunks_bytes(chunks) =~= Seq::<u8>::empty());
        assert(bytes =~= signature());
    }
}

/// A buffer that parses is the serialisation of the chunks it parses to.
pub proof fn lemma_png_bytes_of_parse(bytes: Seq<u8>)
    requires
        parse_png(bytes) is Ok,
    ensures
        png_bytes(parse_png(bytes)->Ok_0) == bytes,
        all_sound(parse_png(bytes)->Ok_0),
{
    let tail = bytes.subrange(8, bytes.len() as int);
    lemma_chunks_bytes_of_parse(tail);
    assert(bytes.subrange(0, 8) + tail =~= bytes);
}

/// There is at most one first chunk of a type.
pub proof fn lemma_first_of_type_unique(chunks: Seq<ChunkView>, query: Seq<char>, i: int)
    requires
        parse_str(query) is Ok,
        is_first_of_type(chunks, parse_str(query)->Ok_0, i),
    ensures
        first_of_type(chunks, query) == Some(i),
{
    let code = parse_str(query)->Ok_0;
    let j = choose|j: int| is_first_of_type(chunks, code, j);
    assert(is_first_of_type(chunks, code, j));
    if j < i {
        assert(chunks[j].chunk_type != code);
    }
    if i < j {
        assert(chunks[i].chunk_type != code);
    }
}

/// A PNG file: the signature and the chunks, in file order.
///
/// The view is the sequence of the chunks' views.
#[derive(Debug)]
pub struct Png {
    chunks: Vec<Chunk>,
}

impl View for Png {
    type V = Seq<ChunkView>;

    closed spec fn view(&self) -> Seq<ChunkView> {
        views(self.chunks@)
    }
}

fn starts_with_signature(value: &[u8]) -> (r: bool)
    ensures
        r == (value@.len() >= 8 && value@.subrange(0, 8) == signature()),
{
    if value.len() < 8 {
        return false;
    }
    let r: bool = value[0] == 137 && value[1] == 80 && value[2] == 78 && value[3] == 71
        && value[4] == 13 && value[5] == 10 && value[6] == 26 && value[7] == 10;
    proof {
        if r {
            assert(value@.subrange(0, 8) =~= signature());
        } else {
            let head = value@.subrange(0, 8);
            assert(head[0] == value@[0] && head[1] == value@[1] && head[2] == value@[2]
                && head[3] == value@[3] && head[4] == value@[4] && head[5] == value@[5]
                && head[6] == value@[6] && head[7] == value@[7]);
            assert(signature()[0] == 137 && signature()[1] == 80 && signature()[2] == 78
                && signature()[3] == 71 && signature()[4] == 13 && signature()[5] == 10
                && signature()[6] == 26 && signature()[7] == 10);
        }
    }
    r
}

impl Png {
    /// The signature of every PNG file.
    pub const STANDARD_HEADER: [u8; 8] = [137, 80, 78, 71, 13, 10, 26, 10];

    /// The file that holds the given chunks, in their order.
    pub fn from_chunks(chunks: Vec<Chunk>) -> (png: Png)
        ensures
            png@ == views(chunks@),
    {
        Png { chunks }
    }

    /// Puts a chunk after the others.
    pub fn append_chunk(&mut self, chunk: Chunk)
        ensures
            final(self)@ == old(self)@.push(chunk@),
    {
        self.chunks.push(chunk);
        assert(views(self.chunks@) =~= views(old(self).chunks@).push(chunk@));
    }

    /// Takes out the first chunk of the type that `chunk_type` spells and
    /// returns it. Nothing is found, and the file stays as it is, if no chunk
    /// has that type or if `chunk_type` is no type code.
    pub fn remove_first_chunk(&mut self, chunk_type: &str) -> (removed: Option<Chunk>)
        ensures
            match first_of_type(old(self)@, chunk_type@) {
                Some(i) => removed is Some && removed->0@ == old(self)@[i] && final(self)@ == old(
                    self,
                )@.remove(i),
                None => removed is None && final(self)@ == old(self)@,
            },
    {
        let wanted: ChunkType = match ChunkType::from_str(chunk_type) {
            Ok(wanted) => wanted,
            Err(_) => {
                return None;
            },
        };
        let ghost code: Seq<u8> = wanted@;
        let mut i: usize = 0;
        while i < self.chunks.len()
            invariant
                i <= self.chunks@.len(),
                *self == *old(self),
                code == wanted@,
                parse_str(chunk_type@) == Ok::<Seq<u8>, ChunkTypeError>(code),
                forall|j: int| 0 <= j < i ==> (#[trigger] self@[j]).chunk_type != code,
            decreases self.chunks@.len() - i,
        {
            let current: &ChunkType = self.chunks[i].chunk_type();
            let found: bool = *current == wanted;
            proof {
                current.lemma_eq_by_view(wanted);
            }
            if found {
                proof {
                    assert(is_first_of_type(self@, code, i as int));
                    lemma_first_of_type_unique(self@, chunk_type@, i as int);
                }
                let chunk: Chunk = self.chunks.remove(i);
                assert(views(self.chunks@) =~= views(old(self).chunks@).remove(i as int));
                return Some(chunk);
            }
            i = i + 1;
        }
        assert(forall|k: int| !is_first_of_type(self@, code, k));
        None
    }

    /// The signature.
    pub fn header(&self) -> (header: &[u8; 8])
        ensures
            header@ == signature(),
    {
        assert(Png::STANDARD_HEADER@ =~= signature());
        &Png::STANDARD_HEADER
    }

    /// The chunks, in file order.
    pub fn chunks(&self) -> (chunks: &[Chunk])
        ensures
            views(chunks@) == self@,
    {
        self.chunks.as_slice()
    }

    /// All chunks of the type that `chunk_type` spells, in file order, or
    /// nothing if `chunk_type` is no type code.
    pub fn chunk_by_type(&self, chunk_type: &str) -> (found: Option<Vec<&Chunk>>)
        ensures
            match all_of_type(self@, chunk_type@) {
                Some(chunks) => found is Some && found->0@.map_values(|chunk: &Chunk| chunk@)
                    == chunks,
                None => found is None,
            },
    {
        let wanted: ChunkType = match ChunkType::from_str(chunk_type) {
            Ok(wanted) => wanted,
            Err(_) => {
                return None;
            },
        };
        let ghost code: Seq<u8> = wanted@;
        let ghost of_type = |chunk: ChunkView| chunk.chunk_type == code;
        let mut found: Vec<&Chunk> = Vec::new();
        let mut i: usize = 0;
        assert(self@.take(0) =~= Seq::<ChunkView>::empty());
        assert(found@.map_values(|chunk: &Chunk| chunk@) =~= Seq::<ChunkView>::empty());
        while i < self.chunks.len()
            invariant
                i <= self.chunks@.len(),
                code == wanted@,
                of_type == |chunk: ChunkView| chunk.chunk_type == code,
                found@.map_values(|chunk: &Chunk| chunk@) == self@.take(i as int).filter(of_type),
            decreases self.chunks@.len() - i,
        {
            let chunk: &Chunk = &self.chunks[i];
            let current: &ChunkType = chunk.chunk_type();
            let matches: bool = *current == wanted;
            proof {
                current.lemma_eq_by_view(wanted);
                assert(self@.take(i + 1) =~= self@.take(i as int).push(chunk@));
                self@.take(i as int).lemma_filter_push(chunk@, of_type);
            }
            if matches {
                found.push(chunk);
                assert(found@.map_values(|chunk: &Chunk| chunk@) =~= self@.take(i as int).filter(
                    of_type,
                ).push(chunk@));
            }
            i = i + 1;
        }
        assert(self@.take(i as int) =~= self@);
        Some(found)
    }

    /// The file: the signature, then the frame of each chunk in order. The
    /// file of intact chunks parses to the same chunks.
    pub fn as_bytes(&self) -> (bytes: Vec<u8>)
        ensures
            bytes@ == png_bytes(self@),
            all_sound(self@) ==> parse_png(bytes@) == Ok::<Seq<ChunkView>, PngErr>(self@),
    {
        proof {
            if all_sound(self@) {
                lemma_parse_of_png_bytes(self@);
            }
        }
        let mut bytes: Vec<u8> = Vec::new();
        bytes.extend_from_slice(self.header().as_slice());
        assert(self@.take(0) =~= Seq::<ChunkView>::empty());
        assert(bytes@ =~= png_bytes(self@.take(0)));
        let mut i: usize = 0;
        while i < self.chunks.len()
            invariant
                i <= self.chunks@.len(),
                bytes@ == png_bytes(self@.take(i as int)),
            decreases self.chunks@.len() - i,
        {
            let frame: Vec<u8> = self.chunks[i].as_bytes();
            bytes.extend_from_slice(frame.as_slice());
            proof {
                assert(self@.take(i + 1) =~= self@.take(i as int).push(self@[i as int]));
                lemma_chunks_bytes_push(self@.take(i as int), self@[i as int]);
                assert(bytes@ =~= png_bytes(self@.take(i + 1)));
            }
            i = i + 1;
        }
        assert(self@.take(i as int) =~= self@);
        bytes
    }
}

/// A file owns vectors, which no spec function can build, so the trait's own
/// statement of `try_from` is left open here. What the function returns is
/// stated on the function, through the file's view.
impl TryFromSpecImpl<&[u8]> for Png {
    open spec fn obeys_try_from_spec() -> bool {
        false
    }

    open spec fn try_from_spec(value: &[u8]) -> Result<Self, PngErr> {
        arbitrary()
    }
}

impl TryFrom<&[u8]> for Png {
    type Error = PngErr;

    /// Parses a whole file: the signature, then frame after frame up to the
    /// end of the buffer. The first frame that is no chunk fails the whole
    /// parse; no part of a file is ever returned. A buffer that does not
    /// start with the signature is refused for that, whatever else it holds.
    /// The chunks of a buffer that parses are intact, and the buffer is their
    /// serialisation.
    fn try_from(value: &[u8]) -> (r: Result<Png, PngErr>)
        ensures
            result_view(r) == parse_png(value@),
            (value@.len() < 8 || value@.subrange(0, 8) != signature()) ==> r == Err::<Png, PngErr>(
                PngErr::IllegalSignature,
            ),
            r is Ok ==> all_sound(r->Ok_0@) && png_bytes(r->Ok_0@) == value@,
    {
        proof {
            if parse_png(value@) is Ok {
                lemma_png_bytes_of_parse(value@);
            }
        }
        if !starts_with_signature(value) {
            return Err(PngErr::IllegalSignature);
        }
        let n: usize = value.len();
        let ghost body: Seq<u8> = value@.subrange(8, n as int);
        let mut pos: usize = 8;
        let mut chunks: Vec<Chunk> = Vec::new();
        proof {
            assert(views(chunks@) =~= Seq::<ChunkView>::empty());
            if parse_chunks(body) is Ok {
                assert(views(chunks@) + parse_chunks(body)->Ok_0 =~= parse_chunks(body)->Ok_0);
            }
        }
        while pos < n
            invariant
                8 <= pos <= n,
                n == value@.len(),
                value@.subrange(0, 8) == signature(),
                body == value@.subrange(8, n as int),
                followed_by(views(chunks@), parse_chunks(value@.subrange(pos as int, n as int)))
                    == parse_chunks(body),
            decreases n - pos,
        {
            let ghost rest: Seq<u8> = value@.subrange(pos as int, n as int);
            if n - pos < 12 {
                return Err(PngErr::InvalidChunk(ChunkError::IllegalLength));
            }
            proof {
                lemma_window(value@, pos as int, pos + 4);
            }
            let length: usize = read_be(value, pos) as usize;
            if length > n - pos - 12 {
                return Err(PngErr::InvalidChunk(ChunkError::IllegalLength));
            }
            let end: usize = pos + 12 + length;
            proof {
                lemma_window(value@, pos as int, end as int);
                lemma_parse_step(views(chunks@), rest);
            }
            match Chunk::try_from(slice_subrange(value, pos, end)) {
                Err(error) => {
                    return Err(PngErr::InvalidChunk(error));
                },
                Ok(chunk) => {
                    let ghost before: Seq<ChunkView> = views(chunks@);
                    chunks.push(chunk);
                    assert(views(chunks@) =~= before.push(chunk@));
                },
            }
            pos = end;
        }
        proof {
            assert(value@.subrange(pos as int, n as int) =~= Seq::<u8>::empty());
            assert(views(chunks@) + Seq::<ChunkView>::empty() =~= views(chunks@));
        }
        Ok(Png::from_chunks(chunks))
    }
}

} // verus!
