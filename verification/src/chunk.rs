//! Chunks: a type code and a payload, framed with a length and a checksum.

use crate::be32::{be_bytes, be_value, lemma_bytes_of_value, lemma_value_of_bytes, read_be, to_be};
use crate::checksum::{checksum, crc32_iso_hdlc};
use crate::chunk_type::{accepted, all_letters, ChunkType, ChunkTypeError};
use crate::outcome::result_view;
use crate::text::{decimal, push_decimal, string_from_utf8};
use std::string::FromUtf8Error;
use vstd::prelude::*;
use vstd::slice::{slice_subrange, slice_to_vec};
use vstd::std_specs::convert::TryFromSpecImpl;
use vstd::string::StringExecFns;
use vstd::utf8::{decode_utf8, encode_utf8, encode_utf8_decode_utf8, valid_utf8};

verus! {

/// Why a frame is not a chunk.
#[derive(Debug, Clone, Copy, PartialEq, Eq, Structural)]
pub enum ChunkError {
    /// The frame is shorter than twelve bytes, or its length field is not the
    /// number of its bytes less twelve.
    IllegalLength,
    /// The type code was turned away.
    IllegalChunkType(ChunkTypeError),
    /// The stored checksum is not the checksum of the type code and payload.
    IncorrectChecksum,
}

impl ChunkError {
    /// What [`ChunkError::to_string`] returns.
    pub open spec fn text(self) -> Seq<char> {
        match self {
            ChunkError::IllegalLength =>
                "Error while constructing: field 'length' must greater than 12 and fits data"@,
            ChunkError::IllegalChunkType(cause) => cause.text(),
            ChunkError::IncorrectChecksum => "Incorrect checksum: is your png broken?"@,
        }
    }

    /// The text that describes the error to a user.
    pub fn to_string(&self) -> (text: String)
        ensures
            text@ == self.text(),
    {
        match self {
            ChunkError::IllegalLength =>
                "Error while constructing: field 'length' must greater than 12 and fits data"
                    .to_owned(),
            ChunkError::IllegalChunkType(cause) => cause.to_string(),
            ChunkError::IncorrectChecksum => "Incorrect checksum: is your png broken?".to_owned(),
        }
    }
}

/// What a chunk is: its type code, its payload and its checksum. The length
/// field is not part of the model, it is the length of the payload.
pub struct ChunkView {
    pub chunk_type: Seq<u8>,
    pub data: Seq<u8>,
    pub crc: u32,
}

impl ChunkView {
    /// The chunk that [`Chunk::new`] builds from a type code and a payload.
    pub open spec fn build(chunk_type: Seq<u8>, data: Seq<u8>) -> ChunkView {
        ChunkView { chunk_type, data, crc: crc32_iso_hdlc(chunk_type + data) }
    }

    /// The type code is one that the byte path accepts and the payload's
    /// length fits the length field. This holds of the view of every [`Chunk`].
    pub open spec fn wf(self) -> bool {
        accepted(self.chunk_type) && self.data.len() <= u32::MAX
    }

    /// The checksum is the checksum of the type code and the payload.
    pub open spec fn intact(self) -> bool {
        self.crc == crc32_iso_hdlc(self.chunk_type + self.data)
    }

    /// The value of the length field.
    pub open spec fn length(self) -> u32 {
        self.data.len() as u32
    }

    /// The frame of the chunk: length, type code, payload, checksum.
    pub open spec fn bytes(self) -> Seq<u8> {
        be_bytes(self.length()) + self.chunk_type + self.data + be_bytes(self.crc)
    }

    /// The payload as it is printed: as text, or nothing if it is no text.
    pub open spec fn data_text(self) -> Seq<char> {
        if valid_utf8(self.data) {
            decode_utf8(self.data)
        } else {
            Seq::empty()
        }
    }

    /// What [`Chunk::to_string`] returns.
    pub open spec fn text(self) -> Seq<char> {
        "Chunk information:\n\tlength: "@ + decimal(self.length() as nat) + ",\n\ttype: "@
            + decode_utf8(self.chunk_type) + ",\n\tdata: "@ + self.data_text() + ",\n\tcrc: "@
            + decimal(self.crc as nat)
    }
}

/// The part of a frame that the checksum covers: type code and payload.
pub open spec fn checked_region(frame: Seq<u8>) -> Seq<u8> {
    frame.subrange(4, frame.len() - 4)
}

/// What parsing `frame` returns when `computed` is the checksum of its
/// checked region. The first test that fails decides the error.
pub open spec fn parse_frame(frame: Seq<u8>, computed: u32) -> Result<ChunkView, ChunkError> {
    if frame.len() < 12 || be_value(frame.subrange(0, 4)) != frame.len() - 12 {
        Err(ChunkError::IllegalLength)
    } else if !accepted(frame.subrange(4, 8)) {
        Err(ChunkError::IllegalChunkType(ChunkTypeError::IllegalByte))
    } else if be_value(frame.subrange(frame.len() - 4, frame.len() as int)) != computed {
        Err(ChunkError::IncorrectChecksum)
    } else {
        Ok(
            ChunkView {
                chunk_type: frame.subrange(4, 8),
                data: frame.subrange(8, frame.len() - 4),
                crc: computed,
            },
        )
    }
}

/// What parsing `frame` returns.
pub open spec fn parse_chunk(frame: Seq<u8>) -> Result<ChunkView, ChunkError> {
    parse_frame(frame, crc32_iso_hdlc(checked_region(frame)))
}

/// Serialising a chunk and parsing the frame gives the chunk back, whatever
/// the payload, for every type code that the byte path accepts. Every code of
/// four ASCII letters is one.
pub proof fn lemma_parse_of_bytes(chunk_type: Seq<u8>, data: Seq<u8>)
    requires
        accepted(chunk_type),
        data.len() <= u32::MAX,
    ensures
        parse_chunk(ChunkView::build(chunk_type, data).bytes()) == Ok::<ChunkView, ChunkError>(
            ChunkView::build(chunk_type, data),
        ),
{
    let chunk = ChunkView::build(chunk_type, data);
    let frame = chunk.bytes();
    lemma_value_of_bytes(chunk.length());
    lemma_value_of_bytes(chunk.crc);
    assert(frame.subrange(0, 4) =~= be_bytes(chunk.length()));
    assert(frame.subrange(4, 8) =~= chunk_type);
    assert(frame.subrange(8, frame.len() - 4) =~= data);
    assert(frame.subrange(frame.len() - 4, frame.len() as int) =~= be_bytes(chunk.crc));
    assert(checked_region(frame) =~= chunk_type + data);
}

/// A frame that parses is the serialisation of the chunk it parses to, and
/// that chunk is well formed and intact.
pub proof fn lemma_bytes_of_parse(frame: Seq<u8>)
    requires
        parse_chunk(frame) is Ok,
    ensures
        parse_chunk(frame)->Ok_0.bytes() == frame,
        parse_chunk(frame)->Ok_0.wf(),
        parse_chunk(frame)->Ok_0.intact(),
{
    let chunk = parse_chunk(frame)->Ok_0;
    let n = frame.len() as int;
    lemma_bytes_of_value(frame.subrange(0, 4));
    lemma_bytes_of_value(frame.subrange(n - 4, n));
    assert(chunk.chunk_type + chunk.data =~= checked_region(frame));
    assert(chunk.bytes() =~= frame);
}

/// A frame that differs from a chunk's serialisation only between the length
/// field and the stored checksum is rejected for its checksum, if its type
/// code is still accepted and the checksum of the altered part is not the
/// stored one.
pub proof fn lemma_altered_region_rejected(chunk: ChunkView, altered: Seq<u8>)
    requires
        chunk.wf(),
        altered.len() == chunk.bytes().len(),
        altered.subrange(0, 4) == chunk.bytes().subrange(0, 4),
        altered.subrange(altered.len() - 4, altered.len() as int) == chunk.bytes().subrange(
            altered.len() - 4,
            altered.len() as int,
        ),
        accepted(altered.subrange(4, 8)),
        crc32_iso_hdlc(checked_region(altered)) != chunk.crc,
    ensures
        parse_chunk(altered) == Err::<ChunkView, ChunkError>(ChunkError::IncorrectChecksum),
{
    let frame = chunk.bytes();
    lemma_value_of_bytes(chunk.length());
    lemma_value_of_bytes(chunk.crc);
    assert(frame.subrange(0, 4) =~= be_bytes(chunk.length()));
    assert(frame.subrange(frame.len() - 4, frame.len() as int) =~= be_bytes(chunk.crc));
}

/// A frame with one bit flipped: bit `bit` of the byte at `at`.
pub open spec fn with_bit_flipped(frame: Seq<u8>, at: int, bit: u8) -> Seq<u8> {
    frame.update(at, frame[at] ^ (1u8 << bit))
}

/// Flipping one bit in the type code or the payload of an intact chunk's
/// frame, and leaving the stored checksum as it is, has the frame rejected
/// for its checksum, if the type code is four letters and the flip changes the
/// checksum of type code and payload. That every such flip changes a CRC-32
/// is a fact of its arithmetic, which is not stated here.
pub proof fn lemma_flipped_bit_rejected(chunk: ChunkView, at: int, bit: u8)
    requires
        chunk.wf(),
        chunk.intact(),
        all_letters(chunk.chunk_type),
        4 <= at < chunk.bytes().len() - 4,
        bit < 8,
        crc32_iso_hdlc(checked_region(with_bit_flipped(chunk.bytes(), at, bit)))
            != crc32_iso_hdlc(checked_region(chunk.bytes())),
    ensures
        parse_chunk(with_bit_flipped(chunk.bytes(), at, bit)) == Err::<ChunkView, ChunkError>(
            ChunkError::IncorrectChecksum,
        ),
{
    let frame = chunk.bytes();
    let flipped = with_bit_flipped(frame, at, bit);
    assert(flipped.subrange(0, 4) =~= frame.subrange(0, 4));
    assert(flipped.subrange(flipped.len() - 4, flipped.len() as int) =~= frame.subrange(
        flipped.len() - 4,
        flipped.len() as int,
    ));
    assert(frame.subrange(4, 8) =~= chunk.chunk_type);
    assert(checked_region(frame) =~= chunk.chunk_type + chunk.data);
    let code = flipped.subrange(4, 8);
    assert(code.len() == 4);
    assert(forall|i: int| 0 <= i < 4 && i != at - 4 ==> code[i] == chunk.chunk_type[i]);
    assert(accepted(code));
    lemma_altered_region_rejected(chunk, flipped);
}

/// A chunk of a PNG file.
///
/// The view is a [`ChunkView`]; it is well formed for every value. A chunk
/// that [`Chunk::new`] built or [`Chunk::try_from`] parsed is intact as well:
/// its checksum is that of its type code and payload. Only
/// [`Chunk::from_frame`], which takes the checksum from its caller, can make
/// one that is not.
#[derive(Debug)]
pub struct Chunk {
    length: u32,
    chunk_type: ChunkType,
    data: Vec<u8>,
    crc: u32,
}

impl View for Chunk {
    type V = ChunkView;

    closed spec fn view(&self) -> ChunkView {
        ChunkView { chunk_type: self.chunk_type@, data: self.data@, crc: self.crc }
    }
}

impl Chunk {
    #[verifier::type_invariant]
    spec fn well_formed(self) -> bool {
        self.length as int == self.data@.len() && accepted(self.chunk_type@)
    }

    /// Builds the chunk with the given type code and payload. The length and
    /// the checksum are derived from them.
    pub fn new(chunk_type: ChunkType, data: Vec<u8>) -> (chunk: Chunk)
        requires
            data@.len() <= u32::MAX,
        ensures
            chunk@ == ChunkView::build(chunk_type@, data@),
            chunk@.wf(),
            chunk@.intact(),
    {
        let length: u32 = data.len() as u32;
        let code: [u8; 4] = chunk_type.bytes();
        let mut covered: Vec<u8> = Vec::new();
        covered.extend_from_slice(code.as_slice());
        covered.extend_from_slice(data.as_slice());
        assert(covered@ =~= chunk_type@ + data@);
        let crc: u32 = checksum(covered.as_slice());
        Chunk { length, chunk_type, data, crc }
    }

    /// Parses a frame, given in `computed` the checksum of the frame's type
    /// code and payload: tests the length field, the type code and the stored
    /// checksum, in this order, and returns the chunk if all three hold.
    ///
    /// [`Chunk::try_from`] computes the checksum and calls this function. A
    /// caller that has the checksum from elsewhere may call it directly; it
    /// then answers for the chunk being intact.
    pub fn from_frame(value: &[u8], computed: u32) -> (r: Result<Chunk, ChunkError>)
        ensures
            result_view(r) == parse_frame(value@, computed),
            r is Ok ==> r->Ok_0@.bytes() == value@,
            r is Ok ==> (r->Ok_0@.intact() <==> computed == crc32_iso_hdlc(
                checked_region(value@),
            )),
    {
        proof {
            if parse_frame(value@, computed) is Ok {
                let chunk = parse_frame(value@, computed)->Ok_0;
                let n = value@.len() as int;
                lemma_bytes_of_value(value@.subrange(0, 4));
                lemma_bytes_of_value(value@.subrange(n - 4, n));
                assert(chunk.chunk_type + chunk.data =~= checked_region(value@));
                assert(chunk.bytes() =~= value@);
            }
        }
        let n: usize = value.len();
        if n < 12 {
            return Err(ChunkError::IllegalLength);
        }
        let length: u32 = read_be(value, 0);
        if n - 12 != length as usize {
            return Err(ChunkError::IllegalLength);
        }
        let code: [u8; 4] = [value[4], value[5], value[6], value[7]];
        assert(code@ =~= value@.subrange(4, 8));
        let chunk_type: ChunkType = match ChunkType::try_from(code) {
            Ok(chunk_type) => chunk_type,
            Err(cause) => {
                return Err(ChunkError::IllegalChunkType(cause));
            },
        };
        let data: Vec<u8> = slice_to_vec(slice_subrange(value, 8, n - 4));
        let stored: u32 = read_be(value, n - 4);
        if stored != computed {
            return Err(ChunkError::IncorrectChecksum);
        }
        Ok(Chunk { length, chunk_type, data, crc: stored })
    }

    /// The value of the length field: the number of payload bytes.
    pub fn length(&self) -> (length: u32)
        ensures
            length == self@.length(),
            length == self@.data.len(),
    {
        proof {
            use_type_invariant(self);
        }
        self.length
    }

    /// The type code.
    pub fn chunk_type(&self) -> (chunk_type: &ChunkType)
        ensures
            chunk_type@ == self@.chunk_type,
            accepted(chunk_type@),
    {
        proof {
            use_type_invariant(self);
        }
        &self.chunk_type
    }

    /// The checksum.
    pub fn crc(&self) -> (crc: u32)
        ensures
            crc == self@.crc,
    {
        self.crc
    }

    /// The payload.
    pub fn data(&self) -> (data: &[u8])
        ensures
            data@ == self@.data,
    {
        self.data.as_slice()
    }

    /// The payload as text: the string whose UTF-8 encoding the payload is, or
    /// an error if the payload is not valid UTF-8.
    pub fn data_as_string(&self) -> (r: Result<String, FromUtf8Error>)
        ensures
            r is Ok <==> valid_utf8(self@.data),
            r is Ok ==> encode_utf8(r->Ok_0@) == self@.data,
            r is Ok ==> r->Ok_0@ == decode_utf8(self@.data),
    {
        let copy: Vec<u8> = self.data.clone();
        assert(copy@ =~= self.data@);
        let r = string_from_utf8(copy);
        proof {
            if r is Ok {
                encode_utf8_decode_utf8(r->Ok_0@);
            }
        }
        r
    }

    /// The chunk as it is printed: its four fields by name, the numbers in
    /// decimal, the payload as text if it is text. The type code must be
    /// text.
    pub fn to_string(&self) -> (text: String)
        requires
            valid_utf8(self@.chunk_type),
        ensures
            text@ == self@.text(),
    {
        proof {
            use_type_invariant(self);
        }
        let mut text: String = "Chunk information:\n\tlength: ".to_owned();
        push_decimal(&mut text, self.length);
        text.append(",\n\ttype: ");
        let code: String = self.chunk_type.to_string();
        text.append(code.as_str());
        text.append(",\n\tdata: ");
        match self.data_as_string() {
            Ok(data) => {
                text.append(data.as_str());
            },
            Err(_) => {
                assert(text@ + self@.data_text() =~= text@);
            },
        }
        text.append(",\n\tcrc: ");
        push_decimal(&mut text, self.crc);
        text
    }

    /// The frame of the chunk: length, type code, payload and checksum. The
    /// frame of an intact chunk parses to the chunk.
    pub fn as_bytes(&self) -> (frame: Vec<u8>)
        ensures
            frame@ == self@.bytes(),
            self@.wf(),
            self@.intact() ==> parse_chunk(frame@) == Ok::<ChunkView, ChunkError>(self@),
    {
        proof {
            use_type_invariant(self);
            if self@.intact() {
                lemma_parse_of_bytes(self@.chunk_type, self@.data);
            }
        }
        let length: [u8; 4] = to_be(self.length);
        let code: [u8; 4] = self.chunk_type.bytes();
        let crc: [u8; 4] = to_be(self.crc);
        let mut frame: Vec<u8> = Vec::new();
        frame.extend_from_slice(length.as_slice());
        frame.extend_from_slice(code.as_slice());
        frame.extend_from_slice(self.data.as_slice());
        frame.extend_from_slice(crc.as_slice());
        assert(frame@ =~= self@.bytes());
        frame
    }
}

/// A chunk owns a vector, which no spec function can build, so the trait's
/// own statement of `try_from` is left open here. What the function returns
/// is stated on the function, through the chunk's view.
impl TryFromSpecImpl<&[u8]> for Chunk {
    open spec fn obeys_try_from_spec() -> bool {
        false
    }

    open spec fn try_from_spec(value: &[u8]) -> Result<Self, ChunkError> {
        arbitrary()
    }
}

impl TryFrom<&[u8]> for Chunk {
    type Error = ChunkError;

    /// Parses a frame: the length field, the type code by the byte path, the
    /// payload, and the checksum, which must be that of type code and payload.
    /// A frame whose length field is not the number of its bytes less twelve
    /// is refused for its length, whatever else it holds. The chunk of a
    /// frame that parses is intact, and the frame is its serialisation.
    fn try_from(value: &[u8]) -> (r: Result<Chunk, ChunkError>)
        ensures
            result_view(r) == parse_chunk(value@),
            (value@.len() < 12 || be_value(value@.subrange(0, 4)) != value@.len() - 12) ==> r
                == Err::<Chunk, ChunkError>(ChunkError::IllegalLength),
            r is Ok ==> r->Ok_0@.intact() && r->Ok_0@.bytes() == value@,
    {
        proof {
            if parse_chunk(value@) is Ok {
                lemma_bytes_of_parse(value@);
            }
        }
        let n: usize = value.len();
        if n < 12 {
            return Err(ChunkError::IllegalLength);
        }
        let computed: u32 = checksum(slice_subrange(value, 4, n - 4));
        Chunk::from_frame(value, computed)
    }
}

} // verus!
