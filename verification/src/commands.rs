//! What the four commands compute, from the bytes of a file to the bytes to
//! write back. Reading and writing the files is left to the caller.

use crate::chunk::{Chunk, ChunkView};
use crate::chunk_type::{parse_str, ChunkType, ChunkTypeError};
use crate::outcome::result_view;
use crate::png::{
    all_of_type, all_sound, first_of_type, lemma_parse_of_png_bytes, lemma_png_bytes_of_parse,
    parse_png, png_bytes, Png, PngErr,
};
use std::str::FromStr;
use vstd::prelude::*;
use vstd::utf8::{decode_utf8, valid_utf8};

verus! {

/// Why a command failed before it had anything to write.
#[derive(Debug, Clone, Copy, PartialEq, Eq, Structural)]
pub enum CommandProcessError {
    /// The type code given to the command is none.
    IllegalChunkType(ChunkTypeError),
    /// The file is no PNG file.
    PngParseError(PngErr),
}

impl CommandProcessError {
    /// What [`CommandProcessError::to_string`] returns.
    pub open spec fn text(self) -> Seq<char> {
        match self {
            CommandProcessError::IllegalChunkType(cause) => cause.text(),
            CommandProcessError::PngParseError(cause) => cause.text(),
        }
    }

    /// The text that describes the error to a user.
    pub fn to_string(&self) -> (text: String)
        ensures
            text@ == self.text(),
    {
        match self {
            CommandProcessError::IllegalChunkType(cause) => cause.to_string(),
            CommandProcessError::PngParseError(cause) => cause.to_string(),
        }
    }
}

/// The file with a new chunk of the type `query` and the payload `message`
/// behind its chunks. The file is looked at first, then the type code.
pub open spec fn encoded(file: Seq<u8>, query: Seq<char>, message: Seq<u8>) -> Result<
    Seq<u8>,
    CommandProcessError,
> {
    match parse_png(file) {
        Err(error) => Err(CommandProcessError::PngParseError(error)),
        Ok(chunks) => match parse_str(query) {
            Err(error) => Err(CommandProcessError::IllegalChunkType(error)),
            Ok(code) => Ok(png_bytes(chunks.push(ChunkView::build(code, message)))),
        },
    }
}

/// The text shown for a chunk: its payload as text, or a fixed notice if the
/// payload is not valid UTF-8.
pub open spec fn shown_text(chunk: ChunkView) -> Seq<char> {
    if valid_utf8(chunk.data) {
        decode_utf8(chunk.data)
    } else {
        "/// Invalid UTF-8 String ///"@
    }
}

/// The texts shown for a query: one for each chunk of the type, in file
/// order, and none if the query is no type code.
pub open spec fn decoded(chunks: Seq<ChunkView>, query: Seq<char>) -> Seq<Seq<char>> {
    match all_of_type(chunks, query) {
        Some(found) => found.map_values(|chunk: ChunkView| shown_text(chunk)),
        None => Seq::empty(),
    }
}

/// The views of a sequence of strings.
pub open spec fn texts(strings: Seq<String>) -> Seq<Seq<char>> {
    strings.map_values(|string: String| string@)
}

/// A message that was hidden is found again: the file that `encode` returns
/// parses to the chunks of the old file and the new chunk behind them, and a
/// query for the new chunk's type shows what it showed before and then the
/// message.
pub proof fn lemma_decode_of_encode(file: Seq<u8>, query: Seq<char>, message: Seq<u8>)
    requires
        message.len() <= u32::MAX,
        encoded(file, query, message) is Ok,
    ensures
        parse_png(encoded(file, query, message)->Ok_0) == Ok::<Seq<ChunkView>, PngErr>(
            parse_png(file)->Ok_0.push(ChunkView::build(parse_str(query)->Ok_0, message)),
        ),
        decoded(
            parse_png(file)->Ok_0.push(ChunkView::build(parse_str(query)->Ok_0, message)),
            query,
        ) == decoded(parse_png(file)->Ok_0, query).push(
            shown_text(ChunkView::build(parse_str(query)->Ok_0, message)),
        ),
{
    let chunks = parse_png(file)->Ok_0;
    let code = parse_str(query)->Ok_0;
    let hidden = ChunkView::build(code, message);
    let longer = chunks.push(hidden);
    lemma_png_bytes_of_parse(file);
    assert forall|i: int| 0 <= i < longer.len() implies (#[trigger] longer[i]).wf()
        && longer[i].intact() by {
        if i < chunks.len() {
            assert(longer[i] == chunks[i]);
        }
    }
    assert(all_sound(longer));
    lemma_parse_of_png_bytes(longer);
    let of_type = |chunk: ChunkView| chunk.chunk_type == code;
    chunks.lemma_filter_push(hidden, of_type);
    assert(chunks.filter(of_type).push(hidden).map_values(|chunk: ChunkView| shown_text(chunk))
        =~= chunks.filter(of_type).map_values(|chunk: ChunkView| shown_text(chunk)).push(
        shown_text(hidden),
    ));
}

/// Hides `message` in the file: parses the file, builds a chunk of the type
/// that `chunk_type` spells around the message, puts it behind the others
/// and returns the new file.
pub fn encode(file: &[u8], chunk_type: &str, message: Vec<u8>) -> (r: Result<
    Vec<u8>,
    CommandProcessError,
>)
    requires
        message@.len() <= u32::MAX,
    ensures
        result_view(r) == encoded(file@, chunk_type@, message@),
{
    let mut png: Png = match Png::try_from(file) {
        Ok(png) => png,
        Err(error) => {
            return Err(CommandProcessError::PngParseError(error));
        },
    };
    let code: ChunkType = match ChunkType::from_str(chunk_type) {
        Ok(code) => code,
        Err(error) => {
            return Err(CommandProcessError::IllegalChunkType(error));
        },
    };
    png.append_chunk(Chunk::new(code, message));
    Ok(png.as_bytes())
}

/// Finds the messages in the file: the payload of each chunk of the type that
/// `chunk_type` spells, as text. No such chunk, or no such type code, gives
/// an empty list.
pub fn decode(file: &[u8], chunk_type: &str) -> (r: Result<Vec<String>, CommandProcessError>)
    ensures
        match parse_png(file@) {
            Err(error) => r == Err::<Vec<String>, CommandProcessError>(
                CommandProcessError::PngParseError(error),
            ),
            Ok(chunks) => r is Ok && texts(r->Ok_0@) == decoded(chunks, chunk_type@),
        },
{
    let png: Png = match Png::try_from(file) {
        Ok(png) => png,
        Err(error) => {
            return Err(CommandProcessError::PngParseError(error));
        },
    };
    let mut shown: Vec<String> = Vec::new();
    let found: Vec<&Chunk> = match png.chunk_by_type(chunk_type) {
        Some(found) => found,
        None => {
            assert(texts(shown@) =~= Seq::<Seq<char>>::empty());
            return Ok(shown);
        },
    };
    let ghost wanted: Seq<ChunkView> = found@.map_values(|chunk: &Chunk| chunk@);
    let mut i: usize = 0;
    while i < found.len()
        invariant
            i <= found@.len(),
            wanted == found@.map_values(|chunk: &Chunk| chunk@),
            texts(shown@) == wanted.take(i as int).map_values(
                |chunk: ChunkView| shown_text(chunk),
            ),
        decreases found@.len() - i,
    {
        let text: String = match found[i].data_as_string() {
            Ok(text) => text,
            Err(_) => "/// Invalid UTF-8 String ///".to_owned(),
        };
        let ghost before: Seq<Seq<char>> = texts(shown@);
        shown.push(text);
        proof {
            assert(texts(shown@) =~= before.push(text@));
            assert(text@ == shown_text(wanted[i as int]));
            assert(wanted.take(i + 1).map_values(|chunk: ChunkView| shown_text(chunk))
                =~= wanted.take(i as int).map_values(|chunk: ChunkView| shown_text(chunk)).push(
                shown_text(wanted[i as int]),
            ));
        }
        i = i + 1;
    }
    assert(wanted.take(i as int) =~= wanted);
    Ok(shown)
}

/// Takes the first chunk of the type that `chunk_type` spells out of the
/// file. Returns that chunk, if there was one, and the file to write back,
/// which is the file as it was if there was none.
pub fn remove(file: &[u8], chunk_type: &str) -> (r: Result<
    (Option<Chunk>, Vec<u8>),
    CommandProcessError,
>)
    ensures
        match parse_png(file@) {
            Err(error) => r is Err && r->Err_0 == CommandProcessError::PngParseError(error),
            Ok(chunks) => r is Ok && match first_of_type(chunks, chunk_type@) {
                Some(i) => r->Ok_0.0 is Some && r->Ok_0.0->0@ == chunks[i] && r->Ok_0.1@
                    == png_bytes(chunks.remove(i)),
                None => r->Ok_0.0 is None && r->Ok_0.1@ == file@,
            },
        },
{
    let mut png: Png = match Png::try_from(file) {
        Ok(png) => png,
        Err(error) => {
            return Err(CommandProcessError::PngParseError(error));
        },
    };
    proof {
        lemma_png_bytes_of_parse(file@);
    }
    let removed: Option<Chunk> = png.remove_first_chunk(chunk_type);
    let bytes: Vec<u8> = png.as_bytes();
    Ok((removed, bytes))
}

} // verus!
