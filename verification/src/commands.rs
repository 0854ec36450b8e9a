//! The four commands on a PNG file, from bytes read to bytes or text to
//! write: hide a message in a new chunk, read one back, take one out, and
//! list what a file holds. Reading and writing the file is the caller's part.
use crate::chunk::{Chunk, ChunkView};
use crate::chunk_type::{validity_error, ChunkType, InvalidChunkType};
use crate::png::{
    all_readable, first_of_type, lemma_find_appended, lemma_parse_written_png,
    lemma_png_bytes_len_remove, lemma_remove_only_chunk_of_type, lemma_write_parsed_png, parse_png,
    png_bytes, png_text, Png, PngParseError,
};
use vstd::prelude::*;
use vstd::string::StringSliceAdditionalSpecFns;
use vstd::utf8::{encode_utf8, valid_utf8};

verus! {

/// Why a command did not go through.
#[derive(Debug, Clone, Copy, PartialEq, Eq, Structural)]
pub enum CommandError {
    /// The chunk type given is not a valid one.
    InvalidType(InvalidChunkType),
    /// The message has more bytes than a chunk's 32-bit length can count.
    MessageTooLong,
    /// The file is not a well-formed PNG file.
    Png(PngParseError),
    /// The file has no chunk of the type asked for.
    NotFound,
    /// The chunk's data is not UTF-8 text.
    NotText,
}

/// The chunk that a type string and a message make, each taken by its bytes.
pub open spec fn chunk_of_arg(code: Seq<u8>, content: Seq<u8>) -> Result<ChunkView, CommandError> {
    if validity_error(code) is Some {
        Err(CommandError::InvalidType(validity_error(code)->0))
    } else if content.len() > u32::MAX {
        Err(CommandError::MessageTooLong)
    } else {
        Ok(ChunkView { chunk_type: code, data: content })
    }
}

/// What `encode` hands back: with no file read, the new chunk's bytes; with a
/// file, the file read, extended by the chunk and written out again.
pub open spec fn encoded(source: Option<Seq<u8>>, code: Seq<u8>, content: Seq<u8>) -> Result<
    Seq<u8>,
    CommandError,
> {
    match chunk_of_arg(code, content) {
        Err(e) => Err(e),
        Ok(chunk) => match source {
            None => Ok(chunk.bytes()),
            Some(file) => match parse_png(file) {
                Err(e) => Err(CommandError::Png(e)),
                Ok(chunks) => Ok(png_bytes(chunks.push(chunk))),
            },
        },
    }
}

/// What `remove` hands back: the file without the first chunk of the type.
pub open spec fn removed(file: Seq<u8>, code: Seq<u8>) -> Result<Seq<u8>, CommandError> {
    match parse_png(file) {
        Err(e) => Err(CommandError::Png(e)),
        Ok(chunks) => match first_of_type(chunks, code) {
            None => Err(CommandError::NotFound),
            Some(i) => Ok(png_bytes(chunks.remove(i))),
        },
    }
}

/// The data that `decode` reads: that of the first chunk of the type.
pub open spec fn decoded(file: Seq<u8>, code: Seq<u8>) -> Result<Seq<u8>, CommandError> {
    match parse_png(file) {
        Err(e) => Err(CommandError::Png(e)),
        Ok(chunks) => match first_of_type(chunks, code) {
            None => Err(CommandError::NotFound),
            Some(i) => if valid_utf8(chunks[i].data) {
                Ok(chunks[i].data)
            } else {
                Err(CommandError::NotText)
            },
        },
    }
}

/// Both ways of `encode` write the same bytes: where the file is well formed,
/// reading it, adding the chunk and writing it out gives the file followed by
/// the chunk's bytes, which is what appending them to the file leaves.
pub proof fn lemma_encoded_file_is_file_then_chunk(file: Seq<u8>, code: Seq<u8>, content: Seq<u8>)
    requires
        encoded(Some(file), code, content) is Ok,
    ensures
        encoded(None, code, content) is Ok,
        encoded(Some(file), code, content)->Ok_0 == file + encoded(None, code, content)->Ok_0,
{
    let chunk = chunk_of_arg(code, content)->Ok_0;
    let chunks = parse_png(file)->Ok_0;
    lemma_write_parsed_png(file);
    assert(chunks.push(chunk).drop_last() =~= chunks);
    assert(png_bytes(chunks.push(chunk)) =~= png_bytes(chunks) + chunk.bytes());
}

/// Append then find, through a file: where a file holds no chunk of a type,
/// and a chunk of that type is put at its end, `decode` on the bytes written
/// reads the new chunk's data, as text where it is UTF-8.
pub proof fn lemma_decode_appended(chunks: Seq<ChunkView>, chunk: ChunkView)
    requires
        all_readable(chunks),
        chunk.well_formed(),
        first_of_type(chunks, chunk.chunk_type) is None,
    ensures
        decoded(png_bytes(chunks.push(chunk)), chunk.chunk_type) == if valid_utf8(chunk.data) {
            Ok::<Seq<u8>, CommandError>(chunk.data)
        } else {
            Err::<Seq<u8>, CommandError>(CommandError::NotText)
        },
{
    let longer = chunks.push(chunk);
    assert(all_readable(longer)) by {
        assert forall|i: int| 0 <= i < longer.len() implies (#[trigger] longer[i]).well_formed() by {
            if i < chunks.len() {
                assert(longer[i] == chunks[i]);
            }
        }
    }
    lemma_parse_written_png(longer);
    lemma_find_appended(chunks, chunk);
}

/// Remove then miss, through a file: where exactly one chunk of a file has a
/// type, `remove` on the file's bytes gives the signature and the other
/// chunks in their order, shorter by that chunk's twelve bytes and data, and
/// a second `remove` on these finds nothing.
pub proof fn lemma_remove_only_chunk(chunks: Seq<ChunkView>, code: Seq<u8>, i: int)
    requires
        all_readable(chunks),
        0 <= i < chunks.len(),
        chunks[i].chunk_type == code,
        forall|j: int| 0 <= j < chunks.len() && j != i ==> (#[trigger] chunks[j]).chunk_type != code,
    ensures
        removed(png_bytes(chunks), code) == Ok::<Seq<u8>, CommandError>(
            png_bytes(chunks.remove(i)),
        ),
        png_bytes(chunks.remove(i)).len() == png_bytes(chunks).len() - (12 + chunks[i].data.len()),
        removed(png_bytes(chunks.remove(i)), code) == Err::<Seq<u8>, CommandError>(
            CommandError::NotFound,
        ),
{
    let shorter = chunks.remove(i);
    assert(all_readable(shorter)) by {
        assert forall|k: int| 0 <= k < shorter.len() implies (#[trigger] shorter[k]).well_formed() by {
            if k < i {
                assert(shorter[k] == chunks[k]);
            } else {
                assert(shorter[k] == chunks[k + 1]);
            }
        }
    }
    lemma_parse_written_png(chunks);
    lemma_parse_written_png(shorter);
    lemma_remove_only_chunk_of_type(chunks, code, i);
    lemma_png_bytes_len_remove(chunks, i);
    assert(chunks[i].well_formed());
}

/// The chunk that a type string and a message make.
pub fn chunk_from_arg(string_chunktype: &str, content: &str) -> (r: Result<Chunk, CommandError>)
    ensures
        match r {
            Ok(chunk) => chunk_of_arg(string_chunktype.spec_bytes(), content.spec_bytes()) == Ok::<
                ChunkView,
                CommandError,
            >(chunk@),
            Err(e) => chunk_of_arg(string_chunktype.spec_bytes(), content.spec_bytes()) == Err::<
                ChunkView,
                CommandError,
            >(e),
        },
{
    let chunktype = match ChunkType::from_str(string_chunktype) {
        Ok(t) => t,
        Err(e) => {
            return Err(CommandError::InvalidType(e));
        },
    };
    let data = content.as_bytes_vec();
    if data.len() > 0xFFFF_FFFF {
        return Err(CommandError::MessageTooLong);
    }
    Ok(Chunk::new(chunktype, data))
}

/// Hides `message` in a new chunk of type `chunktype`. With no `source`, the
/// result is the chunk's bytes, to be appended to a file as they are: the
/// file is not looked at. With the bytes of a file as `source`, the file is
/// read in full, the chunk is put at its end, and the result is the whole
/// file to write.
pub fn encode(source: Option<&[u8]>, chunktype: &str, message: &str) -> (r: Result<
    Vec<u8>,
    CommandError,
>)
    ensures
        match r {
            Ok(bytes) => encoded(
                match source {
                    Some(file) => Some(file@),
                    None => None,
                },
                chunktype.spec_bytes(),
                message.spec_bytes(),
            ) == Ok::<Seq<u8>, CommandError>(bytes@),
            Err(e) => encoded(
                match source {
                    Some(file) => Some(file@),
                    None => None,
                },
                chunktype.spec_bytes(),
                message.spec_bytes(),
            ) == Err::<Seq<u8>, CommandError>(e),
        },
{
    let new_chunk = match chunk_from_arg(chunktype, message) {
        Ok(chunk) => chunk,
        Err(e) => {
            return Err(e);
        },
    };
    match source {
        None => Ok(new_chunk.as_bytes()),
        Some(file) => {
            let mut new_png = match read_to_png(file) {
                Ok(png) => png,
                Err(e) => {
                    return Err(e);
                },
            };
            new_png.append_chunk(new_chunk);
            Ok(new_png.as_bytes())
        },
    }
}

/// Reads the message hidden in the first chunk of type `chunktype`.
pub fn decode(file: &[u8], chunktype: &str) -> (r: Result<String, CommandError>)
    ensures
        match r {
            Ok(message) => decoded(file@, chunktype.spec_bytes()) == Ok::<Seq<u8>, CommandError>(
                encode_utf8(message@),
            ),
            Err(e) => decoded(file@, chunktype.spec_bytes()) == Err::<Seq<u8>, CommandError>(e),
        },
{
    let png = match read_to_png(file) {
        Ok(png) => png,
        Err(e) => {
            return Err(e);
        },
    };
    let chunk = match png.chunk_by_type(chunktype) {
        Some(chunk) => chunk,
        None => {
            return Err(CommandError::NotFound);
        },
    };
    match chunk.data_as_string() {
        Ok(message) => Ok(message),
        Err(_) => Err(CommandError::NotText),
    }
}

/// Takes the first chunk of type `chunktype` out of the file; the result is
/// the whole file to write.
pub fn remove(file: &[u8], chunktype: &str) -> (r: Result<Vec<u8>, CommandError>)
    ensures
        match r {
            Ok(bytes) => removed(file@, chunktype.spec_bytes()) == Ok::<Seq<u8>, CommandError>(
                bytes@,
            ),
            Err(e) => removed(file@, chunktype.spec_bytes()) == Err::<Seq<u8>, CommandError>(e),
        },
{
    let mut png = match read_to_png(file) {
        Ok(png) => png,
        Err(e) => {
            return Err(e);
        },
    };
    match png.remove_chunk(chunktype) {
        Ok(_) => Ok(png.as_bytes()),
        Err(_) => Err(CommandError::NotFound),
    }
}

/// Lists what the file holds, as text to print.
pub fn print_chunks(file: &[u8]) -> (r: Result<String, CommandError>)
    ensures
        match r {
            Ok(text) => parse_png(file@) matches Ok(chunks) && text@ == png_text(chunks),
            Err(e) => parse_png(file@) matches Err(cause) && e == CommandError::Png(cause),
        },
{
    match read_to_png(file) {
        Ok(png) => Ok(png.to_string()),
        Err(e) => Err(e),
    }
}

/// Reads a file's bytes as a PNG file.
fn read_to_png(file: &[u8]) -> (r: Result<Png, CommandError>)
    ensures
        match r {
            Ok(png) => parse_png(file@) == Ok::<Seq<ChunkView>, PngParseError>(png@),
            Err(e) => parse_png(file@) matches Err(cause) && e == CommandError::Png(cause),
        },
{
    match Png::try_from(file) {
        Ok(png) => Ok(png),
        Err(e) => Err(CommandError::Png(e)),
    }
}

} // verus!
