//! A PNG file: the signature and the chunks in file order.
use crate::chunk::{
    lemma_parse_written_chunk, lemma_write_parsed_chunk, parse_chunk, Chunk, ChunkParseError,
    ChunkView,
};
use crate::chunk_type::{is_valid_code, ChunkType};
use crate::endian::{be_bytes, be_value, lemma_be_value_of_bytes, u32_from_be};
use crate::text::{ascii_chars, decimal, decimal_list, decimal_list_string, decimal_string};
use vstd::prelude::*;
use vstd::slice::slice_subrange;
use vstd::std_specs::convert::TryFromSpecImpl;
use vstd::string::StringSliceAdditionalSpecFns;

verus! {

/// Why bytes were not taken as a PNG file.
#[derive(Debug, Clone, Copy, PartialEq, Eq, Structural)]
pub enum PngParseError {
    /// The buffer does not start with the eight signature bytes.
    BadSignature,
    /// A chunk after the signature was refused.
    ChunkError(ChunkParseError),
}

/// No chunk of the type asked for.
#[derive(Debug, Clone, Copy, PartialEq, Eq, Structural)]
pub struct NotFound;

/// The eight bytes that every PNG file starts with.
pub open spec fn signature() -> Seq<u8> {
    seq![137u8, 80, 78, 71, 13, 10, 26, 10]
}

/// How many bytes the chunk at the start of `bytes` takes: twelve more than
/// its length field says, or all of `bytes` where they do not hold that many.
pub open spec fn first_chunk_len(bytes: Seq<u8>) -> int {
    if bytes.len() >= 12 && 12 + be_value(bytes.subrange(0, 4)) <= bytes.len() {
        12 + be_value(bytes.subrange(0, 4))
    } else {
        bytes.len() as int
    }
}

/// What a buffer holds when read as chunks laid end to end; the first chunk
/// that is refused decides the error.
pub open spec fn parse_chunks(bytes: Seq<u8>) -> Result<Seq<ChunkView>, ChunkParseError>
    decreases bytes.len(),
{
    if bytes.len() == 0 {
        Ok(Seq::empty())
    } else {
        let n = first_chunk_len(bytes);
        match parse_chunk(bytes.subrange(0, n)) {
            Err(e) => Err(e),
            Ok(first) => match parse_chunks(bytes.subrange(n, bytes.len() as int)) {
                Err(e) => Err(e),
                Ok(rest) => Ok(seq![first] + rest),
            },
        }
    }
}

/// What a buffer holds when read as a PNG file.
pub open spec fn parse_png(bytes: Seq<u8>) -> Result<Seq<ChunkView>, PngParseError> {
    if bytes.len() < 8 || bytes.subrange(0, 8) != signature() {
        Err(PngParseError::BadSignature)
    } else {
        match parse_chunks(bytes.subrange(8, bytes.len() as int)) {
            Err(e) => Err(PngParseError::ChunkError(e)),
            Ok(chunks) => Ok(chunks),
        }
    }
}

/// The chunks as they stand in a file, end to end.
pub open spec fn chunks_bytes(chunks: Seq<ChunkView>) -> Seq<u8>
    decreases chunks.len(),
{
    if chunks.len() == 0 {
        Seq::empty()
    } else {
        chunks_bytes(chunks.drop_last()) + chunks.last().bytes()
    }
}

/// A PNG file with these chunks: the signature, then the chunks.
pub open spec fn png_bytes(chunks: Seq<ChunkView>) -> Seq<u8> {
    signature() + chunks_bytes(chunks)
}

/// The chunks as they are printed for inspection, one after another.
pub open spec fn chunks_text(chunks: Seq<ChunkView>) -> Seq<char>
    decreases chunks.len(),
{
    if chunks.len() == 0 {
        Seq::empty()
    } else {
        chunks_text(chunks.drop_last()) + chunks.last().text()
    }
}

/// A PNG file as it is printed for inspection: the signature as a list of
/// numbers, how many chunks there are, then the chunks.
pub open spec fn png_text(chunks: Seq<ChunkView>) -> Seq<char> {
    "header:"@ + ascii_chars(decimal_list(signature())) + "\nchunks:"@ + ascii_chars(
        decimal(chunks.len()),
    ) + "\n"@ + chunks_text(chunks)
}

/// What holds of the chunks of every file: each is well formed.
pub open spec fn all_readable(chunks: Seq<ChunkView>) -> bool {
    forall|i: int| 0 <= i < chunks.len() ==> (#[trigger] chunks[i]).well_formed()
}

/// True when `i` is the place of the first chunk of type `code`.
pub open spec fn is_first_of_type(chunks: Seq<ChunkView>, code: Seq<u8>, i: int) -> bool {
    &&& 0 <= i < chunks.len()
    &&& chunks[i].chunk_type == code
    &&& forall|j: int| 0 <= j < i ==> (#[trigger] chunks[j]).chunk_type != code
}

/// The place of the first chunk of type `code`, where there is one.
pub open spec fn first_of_type(chunks: Seq<ChunkView>, code: Seq<u8>) -> Option<int> {
    if exists|i: int| is_first_of_type(chunks, code, i) {
        Some(choose|i: int| is_first_of_type(chunks, code, i))
    } else {
        None
    }
}

/// Joins the chunks read so far to what the rest of the buffer holds.
spec fn and_then_chunks(
    done: Seq<ChunkView>,
    rest: Result<Seq<ChunkView>, ChunkParseError>,
) -> Result<Seq<ChunkView>, ChunkParseError> {
    match rest {
        Err(e) => Err(e),
        Ok(chunks) => Ok(done + chunks),
    }
}

/// A PNG file held in memory: its chunks, in file order.
#[derive(Debug)]
pub struct Png {
    chunks: Vec<Chunk>,
}

impl View for Png {
    type V = Seq<ChunkView>;

    closed spec fn view(&self) -> Seq<ChunkView> {
        Seq::new(self.chunks@.len(), |i: int| self.chunks@[i]@)
    }
}

impl Png {
    /// The signature bytes.
    pub const STANDARD_HEADER: [u8; 8] = [137, 80, 78, 71, 13, 10, 26, 10];

    #[verifier::type_invariant]
    pub(crate) open spec fn readable(self) -> bool {
        all_readable(self@)
    }

    /// Puts a chunk at the end of the file.
    pub fn append_chunk(&mut self, chunk: Chunk)
        ensures
            final(self)@ == old(self)@.push(chunk@),
    {
        proof {
            use_type_invariant(&*self);
            use_type_invariant(&chunk);
        }
        // The list is taken out to be changed and then put back.
        let mut chunks = Vec::new();
        std::mem::swap(&mut chunks, &mut self.chunks);
        chunks.push(chunk);
        assert forall|i: int| 0 <= i < chunks@.len() implies (#[trigger] chunks@[i])@.well_formed() by {
            if i < old(self)@.len() {
                assert(chunks@[i]@ == old(self)@[i]);
            }
        }
        std::mem::swap(&mut chunks, &mut self.chunks);
        assert(self@ =~= old(self)@.push(chunk@));
    }

    /// The signature bytes.
    pub fn header(&self) -> (r: &[u8; 8])
        ensures
            r@ == signature(),
    {
        assert(Png::STANDARD_HEADER@ =~= signature());
        &Png::STANDARD_HEADER
    }

    /// The first chunk of the type that `chunk_type` spells, where there is
    /// one. A string that spells no chunk type finds nothing.
    pub fn chunk_by_type(&self, chunk_type: &str) -> (r: Option<&Chunk>)
        ensures
            match r {
                Some(chunk) => first_of_type(self@, chunk_type.spec_bytes()) matches Some(i)
                    && chunk@ == self@[i],
                None => first_of_type(self@, chunk_type.spec_bytes()) is None,
            },
    {
        match self.position(chunk_type) {
            Some(i) => Some(&self.chunks[i]),
            None => None,
        }
    }

    /// Takes the first chunk of the type that `chunk_type` spells out of the
    /// file and returns it; the chunks around it keep their order. Where there
    /// is none, the file is left as it was.
    pub fn remove_chunk(&mut self, chunk_type: &str) -> (r: Result<Chunk, NotFound>)
        ensures
            match r {
                Ok(chunk) => first_of_type(old(self)@, chunk_type.spec_bytes()) matches Some(i)
                    && chunk@ == old(self)@[i] && final(self)@ == old(self)@.remove(i),
                Err(_) => first_of_type(old(self)@, chunk_type.spec_bytes()) is None
                    && final(self)@ == old(self)@,
            },
    {
        proof {
            use_type_invariant(&*self);
        }
        match self.position(chunk_type) {
            Some(i) => {
                let mut chunks = Vec::new();
                std::mem::swap(&mut chunks, &mut self.chunks);
                let chunk = chunks.remove(i);
                assert forall|k: int| 0 <= k < chunks@.len() implies (
                #[trigger] chunks@[k])@.well_formed() by {
                    if k < i {
                        assert(chunks@[k]@ == old(self)@[k]);
                    } else {
                        assert(chunks@[k]@ == old(self)@[k + 1]);
                    }
                }
                std::mem::swap(&mut chunks, &mut self.chunks);
                assert(self@ =~= old(self)@.remove(i as int));
                Ok(chunk)
            },
            None => Err(NotFound),
        }
    }

    /// Where the first chunk of the type that `chunk_type` spells stands.
    fn position(&self, chunk_type: &str) -> (r: Option<usize>)
        ensures
            match r {
                Some(i) => first_of_type(self@, chunk_type.spec_bytes()) == Some(i as int) && i
                    < self@.len(),
                None => first_of_type(self@, chunk_type.spec_bytes()) is None,
            },
    {
        proof {
            use_type_invariant(self);
        }
        let ghost code = chunk_type.spec_bytes();
        let wanted = match ChunkType::from_str(chunk_type) {
            Ok(t) => t,
            Err(_) => {
                assert forall|i: int| !is_first_of_type(self@, code, i) by {
                    if 0 <= i < self@.len() {
                        assert(self@[i].well_formed());
                    }
                }
                return None;
            },
        };
        let mut i: usize = 0;
        while i < self.chunks.len()
            invariant
                i <= self.chunks@.len(),
                wanted@ == code,
                code == chunk_type.spec_bytes(),
                forall|j: int| 0 <= j < i ==> (#[trigger] self@[j]).chunk_type != code,
            decreases self.chunks@.len() - i,
        {
            if *self.chunks[i].chunk_type() == wanted {
                proof {
                    assert(self@[i as int] == self.chunks@[i as int]@);
                    lemma_first_of_type_is(self@, code, i as int);
                }
                return Some(i);
            }
            i += 1;
        }
        assert forall|k: int| !is_first_of_type(self@, code, k) by {
            if 0 <= k < self@.len() {
                assert(self@[k].chunk_type != code);
            }
        }
        None
    }

    /// The file as bytes: the signature, then each chunk in order. The bytes
    /// are read as this file again.
    #[verifier::rlimit(50)]
    pub fn as_bytes(&self) -> (r: Vec<u8>)
        ensures
            r@ == png_bytes(self@),
            parse_png(r@) == Ok::<Seq<ChunkView>, PngParseError>(self@),
    {
        proof {
            use_type_invariant(self);
            lemma_parse_written_png(self@);
        }
        let mut bytes: Vec<u8> = Vec::new();
        bytes.extend_from_slice(Png::STANDARD_HEADER.as_slice());
        assert(bytes@ =~= signature());
        let mut i: usize = 0;
        while i < self.chunks.len()
            invariant
                i <= self.chunks@.len(),
                bytes@ == signature() + chunks_bytes(self@.take(i as int)),
            decreases self.chunks@.len() - i,
        {
            self.chunks[i].append_to(&mut bytes);
            proof {
                lemma_chunks_bytes_take(self@, i as int);
                assert(self@[i as int] == self.chunks@[i as int]@);
                lemma_concat_assoc(signature(), chunks_bytes(self@.take(i as int)), self@[i as int].bytes());
            }
            i += 1;
        }
        assert(self@.take(i as int) =~= self@);
        assert(bytes@ =~= png_bytes(self@));
        bytes
    }

    /// The file as it is printed for inspection.
    pub fn to_string(&self) -> (r: String)
        ensures
            r@ == png_text(self@),
    {
        assert(Png::STANDARD_HEADER@ =~= signature());
        let mut text = String::from_str("header:");
        text.append(decimal_list_string(Png::STANDARD_HEADER.as_slice()).as_str());
        text.append("\nchunks:");
        text.append(decimal_string(self.chunks.len() as u64).as_str());
        text.append("\n");
        let ghost start = text@;
        assert(chunks_text(self@.take(0)) =~= Seq::<char>::empty());
        assert(text@ =~= start + chunks_text(self@.take(0)));
        let mut i: usize = 0;
        while i < self.chunks.len()
            invariant
                i <= self.chunks@.len(),
                text@ == start + chunks_text(self@.take(i as int)),
            decreases self.chunks@.len() - i,
        {
            text.append(self.chunks[i].to_string().as_str());
            proof {
                let next = self@.take(i + 1);
                assert(next.drop_last() =~= self@.take(i as int));
                assert(next.last() == self@[i as int]);
                assert(text@ =~= start + chunks_text(next));
            }
            i += 1;
        }
        assert(self@.take(i as int) =~= self@);
        text
    }

    /// The chunks, in file order; each is well formed.
    pub fn chunks(&self) -> (r: &[Chunk])
        ensures
            r@.len() == self@.len(),
            forall|i: int| 0 <= i < r@.len() ==> (#[trigger] r@[i])@ == self@[i],
            all_readable(self@),
    {
        proof {
            use_type_invariant(self);
        }
        self.chunks.as_slice()
    }
}

impl TryFrom<&[u8]> for Png {
    type Error = PngParseError;

    /// Reads a whole PNG file: the signature, then chunk after chunk until
    /// the buffer ends. The first chunk that is refused refuses the file.
    #[verifier::rlimit(50)]
    fn try_from(value: &[u8]) -> (r: Result<Png, PngParseError>)
        ensures
            match r {
                Ok(png) => parse_png(value@) == Ok::<Seq<ChunkView>, PngParseError>(png@),
                Err(e) => parse_png(value@) == Err::<Seq<ChunkView>, PngParseError>(e),
            },
    {
        let len = value.len();
        if len < 8 {
            return Err(PngParseError::BadSignature);
        }
        let mut k: usize = 0;
        while k < 8
            invariant
                k <= 8 <= value@.len(),
                forall|j: int| 0 <= j < k ==> value@[j] == signature()[j],
            decreases 8 - k,
        {
            if value[k] != Png::STANDARD_HEADER[k] {
                assert(value@.subrange(0, 8)[k as int] != signature()[k as int]);
                return Err(PngParseError::BadSignature);
            }
            k += 1;
        }
        assert(value@.subrange(0, 8) =~= signature());
        let ghost body = value@.subrange(8, len as int);
        let mut chunks: Vec<Chunk> = Vec::new();
        let mut pos: usize = 8;
        assert(body.subrange(0, body.len() as int) =~= body);
        while pos < len
            invariant
                8 <= pos <= len,
                len == value@.len(),
                value@.subrange(0, 8) == signature(),
                body == value@.subrange(8, len as int),
                parse_chunks(body) == and_then_chunks(
                    Seq::new(chunks@.len(), |i: int| chunks@[i]@),
                    parse_chunks(value@.subrange(pos as int, len as int)),
                ),
                forall|i: int| 0 <= i < chunks@.len() ==> (#[trigger] chunks@[i])@.well_formed(),
            decreases len - pos,
        {
            let rest = len - pos;
            let ghost tail = value@.subrange(pos as int, len as int);
            let mut n = rest;
            if rest >= 12 {
                let declared = u32_from_be(slice_subrange(value, pos, pos + 4)) as usize;
                assert(value@.subrange(pos as int, pos + 4) =~= tail.subrange(0, 4));
                if declared <= rest - 12 {
                    n = 12 + declared;
                }
            }
            assert(n == first_chunk_len(tail));
            assert(value@.subrange(pos as int, pos + n) =~= tail.subrange(0, n as int));
            assert(value@.subrange(pos + n, len as int) =~= tail.subrange(
                n as int,
                tail.len() as int,
            ));
            let ghost done = Seq::new(chunks@.len(), |i: int| chunks@[i]@);
            match Chunk::try_from(slice_subrange(value, pos, pos + n)) {
                Err(e) => {
                    assert(parse_chunks(tail) == Err::<Seq<ChunkView>, ChunkParseError>(e));
                    return Err(PngParseError::ChunkError(e));
                },
                Ok(chunk) => {
                    chunks.push(chunk);
                },
            }
            proof {
                let now = Seq::new(chunks@.len(), |i: int| chunks@[i]@);
                let first = chunks@[chunks@.len() - 1]@;
                assert(now =~= done.push(first));
                let after = parse_chunks(value@.subrange(pos + n, len as int));
                if let Ok(more) = after {
                    assert(done + (seq![first] + more) =~= now + more);
                }
            }
            pos += n;
        }
        assert(value@.subrange(pos as int, len as int) =~= Seq::<u8>::empty());
        assert(Seq::new(chunks@.len(), |i: int| chunks@[i]@) + Seq::<ChunkView>::empty()
            =~= Seq::new(chunks@.len(), |i: int| chunks@[i]@));
        Ok(Png { chunks })
    }
}

/// The contract of `try_from` stands on the function itself.
impl TryFromSpecImpl<&[u8]> for Png {
    open spec fn obeys_try_from_spec() -> bool {
        false
    }

    open spec fn try_from_spec(v: &[u8]) -> Result<Self, Self::Error> {
        arbitrary()
    }
}

/// Only one place is the first.
pub proof fn lemma_first_of_type_is(chunks: Seq<ChunkView>, code: Seq<u8>, i: int)
    requires
        is_first_of_type(chunks, code, i),
    ensures
        first_of_type(chunks, code) == Some(i),
{
    let k = choose|k: int| is_first_of_type(chunks, code, k);
    if k < i {
        assert(chunks[k].chunk_type != code);
    }
    if i < k {
        assert(chunks[i].chunk_type != code);
    }
}

/// Where no place is the first, no chunk has the type.
pub proof fn lemma_first_of_type_none(chunks: Seq<ChunkView>, code: Seq<u8>, i: int)
    requires
        first_of_type(chunks, code) is None,
        0 <= i < chunks.len(),
    ensures
        chunks[i].chunk_type != code,
    decreases i,
{
    if chunks[i].chunk_type == code {
        if exists|j: int| 0 <= j < i && (#[trigger] chunks[j]).chunk_type == code {
            let j = choose|j: int| 0 <= j < i && (#[trigger] chunks[j]).chunk_type == code;
            lemma_first_of_type_none(chunks, code, j);
        } else {
            assert(is_first_of_type(chunks, code, i));
        }
    }
}

/// Joining three buffers gives the same bytes however they are grouped.
proof fn lemma_concat_assoc(a: Seq<u8>, b: Seq<u8>, c: Seq<u8>)
    ensures
        (a + b) + c == a + (b + c),
{
    assert((a + b) + c =~= a + (b + c));
}

/// The bytes of the first `i + 1` chunks are those of the first `i`, then
/// those of the next chunk.
proof fn lemma_chunks_bytes_take(chunks: Seq<ChunkView>, i: int)
    requires
        0 <= i < chunks.len(),
    ensures
        chunks_bytes(chunks.take(i + 1)) == chunks_bytes(chunks.take(i)) + chunks[i].bytes(),
{
    let next = chunks.take(i + 1);
    assert(next.drop_last() =~= chunks.take(i));
    assert(next.last() == chunks[i]);
}

/// Serializing a chunk sequence with one chunk in front puts that chunk's
/// bytes in front.
proof fn lemma_chunks_bytes_prepend(first: ChunkView, rest: Seq<ChunkView>)
    ensures
        chunks_bytes(seq![first] + rest) == first.bytes() + chunks_bytes(rest),
    decreases rest.len(),
{
    let all = seq![first] + rest;
    if rest.len() == 0 {
        assert(all.drop_last() =~= rest);
        assert(all.last() == first);
        assert(chunks_bytes(rest) + first.bytes() =~= first.bytes() + chunks_bytes(rest));
    } else {
        assert(all.drop_last() =~= seq![first] + rest.drop_last());
        assert(all.last() == rest.last());
        lemma_chunks_bytes_prepend(first, rest.drop_last());
        assert(chunks_bytes(all) =~= first.bytes() + chunks_bytes(rest));
    }
}

/// What reading chunks does first, where the buffer is not empty and is read
/// to its end: it reads the first chunk, then the rest.
proof fn lemma_parse_chunks_step(bytes: Seq<u8>)
    requires
        bytes.len() > 0,
        parse_chunks(bytes) is Ok,
    ensures
        0 < first_chunk_len(bytes) <= bytes.len(),
        parse_chunk(bytes.subrange(0, first_chunk_len(bytes))) is Ok,
        parse_chunks(bytes.subrange(first_chunk_len(bytes), bytes.len() as int)) is Ok,
        parse_chunks(bytes)->Ok_0 == seq![
            parse_chunk(bytes.subrange(0, first_chunk_len(bytes)))->Ok_0,
        ] + parse_chunks(bytes.subrange(first_chunk_len(bytes), bytes.len() as int))->Ok_0,
{
}

/// A buffer is its first `n` bytes followed by the others.
proof fn lemma_split(bytes: Seq<u8>, n: int)
    requires
        0 <= n <= bytes.len(),
    ensures
        bytes.subrange(0, n) + bytes.subrange(n, bytes.len() as int) == bytes,
{
    assert(bytes.subrange(0, n) + bytes.subrange(n, bytes.len() as int) =~= bytes);
}

/// A buffer that is read as chunks holds exactly the bytes of those chunks.
#[verifier::rlimit(50)]
proof fn lemma_write_parsed_chunks(bytes: Seq<u8>)
    requires
        parse_chunks(bytes) is Ok,
    ensures
        chunks_bytes(parse_chunks(bytes)->Ok_0) == bytes,
    decreases bytes.len(),
{
    if bytes.len() == 0 {
        assert(chunks_bytes(Seq::<ChunkView>::empty()) =~= bytes);
    } else {
        lemma_parse_chunks_step(bytes);
        let n = first_chunk_len(bytes);
        let head = bytes.subrange(0, n);
        let tail = bytes.subrange(n, bytes.len() as int);
        let first = parse_chunk(head)->Ok_0;
        let rest = parse_chunks(tail)->Ok_0;
        lemma_write_parsed_chunk(head);
        lemma_write_parsed_chunks(tail);
        lemma_chunks_bytes_prepend(first, rest);
        lemma_split(bytes, n);
    }
}

/// Reading then writing gives the file back: every buffer that is read as a
/// PNG file is, byte for byte, what its chunks serialize to.
pub proof fn lemma_write_parsed_png(bytes: Seq<u8>)
    requires
        parse_png(bytes) is Ok,
    ensures
        png_bytes(parse_png(bytes)->Ok_0) == bytes,
{
    let body = bytes.subrange(8, bytes.len() as int);
    lemma_write_parsed_chunks(body);
    assert(bytes.subrange(0, 8) + body =~= bytes);
}

/// The bytes of well-formed chunks, end to end, are read as those chunks.
#[verifier::rlimit(50)]
proof fn lemma_parse_written_chunks(chunks: Seq<ChunkView>)
    requires
        all_readable(chunks),
    ensures
        parse_chunks(chunks_bytes(chunks)) == Ok::<Seq<ChunkView>, ChunkParseError>(chunks),
    decreases chunks.len(),
{
    if chunks.len() == 0 {
        assert(chunks =~= Seq::<ChunkView>::empty());
    } else {
        let first = chunks[0];
        let rest = chunks.drop_first();
        assert(chunks =~= seq![first] + rest);
        assert(all_readable(rest)) by {
            assert forall|i: int| 0 <= i < rest.len() implies (#[trigger] rest[i]).well_formed() by {
                assert(rest[i] == chunks[i + 1]);
            }
        }
        lemma_chunks_bytes_prepend(first, rest);
        lemma_parse_written_chunks(rest);
        lemma_parse_written_chunk(first);
        lemma_first_chunk_len(first, chunks_bytes(rest));
    }
}

/// In front of any bytes, a chunk's own bytes are taken as the first chunk.
proof fn lemma_first_chunk_len(first: ChunkView, after: Seq<u8>)
    requires
        first.well_formed(),
    ensures
        first_chunk_len(first.bytes() + after) == first.bytes().len(),
        (first.bytes() + after).subrange(0, first.bytes().len() as int) == first.bytes(),
        (first.bytes() + after).subrange(
            first.bytes().len() as int,
            (first.bytes() + after).len() as int,
        ) == after,
{
    let bytes = first.bytes() + after;
    let n = first.bytes().len() as int;
    lemma_be_value_of_bytes(first.data.len() as u32);
    assert(bytes.subrange(0, 4) =~= be_bytes(first.data.len() as u32));
    assert(bytes.subrange(0, n) =~= first.bytes());
    assert(bytes.subrange(n, bytes.len() as int) =~= after);
}

/// Writing then reading gives the chunks back: the bytes of every file are
/// read as its chunks, in the same order.
pub proof fn lemma_parse_written_png(chunks: Seq<ChunkView>)
    requires
        all_readable(chunks),
    ensures
        parse_png(png_bytes(chunks)) == Ok::<Seq<ChunkView>, PngParseError>(chunks),
{
    let bytes = png_bytes(chunks);
    lemma_parse_written_chunks(chunks);
    assert(bytes.subrange(0, 8) =~= signature());
    assert(bytes.subrange(8, bytes.len() as int) =~= chunks_bytes(chunks));
}

/// After a chunk is put at the end, a search for its type succeeds: it finds
/// the chunk that was first of that type before, or, where there was none,
/// the new chunk.
pub proof fn lemma_find_appended(chunks: Seq<ChunkView>, chunk: ChunkView)
    ensures
        first_of_type(chunks.push(chunk), chunk.chunk_type) == match first_of_type(
            chunks,
            chunk.chunk_type,
        ) {
            Some(i) => Some(i),
            None => Some(chunks.len() as int),
        },
{
    let code = chunk.chunk_type;
    let longer = chunks.push(chunk);
    match first_of_type(chunks, code) {
        Some(i) => {
            assert(is_first_of_type(chunks, code, i));
            assert forall|j: int| 0 <= j < i implies (#[trigger] longer[j]).chunk_type != code by {
                assert(chunks[j].chunk_type != code);
            }
            assert(longer[i] == chunks[i]);
            lemma_first_of_type_is(longer, code, i);
        },
        None => {
            assert forall|j: int| 0 <= j < chunks.len() implies (#[trigger] longer[j]).chunk_type
                != code by {
                lemma_first_of_type_none(chunks, code, j);
            }
            lemma_first_of_type_is(longer, code, chunks.len() as int);
        },
    }
}

/// Where exactly one chunk has a type, that chunk is found, and once it is
/// taken out a second search finds nothing.
pub proof fn lemma_remove_only_chunk_of_type(chunks: Seq<ChunkView>, code: Seq<u8>, i: int)
    requires
        0 <= i < chunks.len(),
        chunks[i].chunk_type == code,
        forall|j: int| 0 <= j < chunks.len() && j != i ==> (#[trigger] chunks[j]).chunk_type != code,
    ensures
        first_of_type(chunks, code) == Some(i),
        first_of_type(chunks.remove(i), code) is None,
{
    lemma_first_of_type_is(chunks, code, i);
    let shorter = chunks.remove(i);
    assert forall|k: int| !is_first_of_type(shorter, code, k) by {
        if 0 <= k < shorter.len() {
            if k < i {
                assert(shorter[k] == chunks[k]);
            } else {
                assert(shorter[k] == chunks[k + 1]);
            }
        }
    }
}

/// Taking a chunk out of a file shortens its bytes by that chunk's bytes.
pub proof fn lemma_png_bytes_len_remove(chunks: Seq<ChunkView>, i: int)
    requires
        0 <= i < chunks.len(),
    ensures
        png_bytes(chunks.remove(i)).len() == png_bytes(chunks).len() - chunks[i].bytes().len(),
    decreases chunks.len(),
{
    let shorter = chunks.remove(i);
    if i == chunks.len() - 1 {
        assert(shorter =~= chunks.drop_last());
    } else {
        assert(shorter.drop_last() =~= chunks.drop_last().remove(i));
        assert(shorter.last() == chunks.last());
        lemma_png_bytes_len_remove(chunks.drop_last(), i);
    }
}

} // verus!
