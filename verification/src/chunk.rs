//! One chunk of a PNG file: length, type, data and checksum.
use crate::checksum::{checksum, crc32, lemma_crc32_detects_one_changed_byte};
use crate::chunk_type::{is_valid_code, validity_error, ChunkType, InvalidChunkType};
use crate::endian::{
    be_bytes, be_value, lemma_be_bytes_of_value, lemma_be_value_of_bytes, u32_from_be, u32_to_be,
};
use crate::text::{
    ascii_chars, decimal, decimal_list, decimal_list_string, decimal_string, string_from_utf8,
};
use vstd::prelude::*;
use vstd::slice::{slice_subrange, slice_to_vec};
use vstd::std_specs::convert::TryFromSpecImpl;
use vstd::utf8::{encode_utf8, valid_utf8};

verus! {

/// The fewest bytes a chunk takes: length, type and checksum around no data.
pub const MINIMUM_CHUNK_SIZE: usize = 12;

/// Why bytes were not taken as a chunk.
#[derive(Debug, Clone, Copy, PartialEq, Eq, Structural)]
pub enum ChunkParseError {
    /// Fewer than twelve bytes.
    TooShort,
    /// The four type bytes are not a valid chunk type.
    InvalidType(InvalidChunkType),
    /// The bytes between type and checksum are not as many as the length
    /// field says.
    LengthMismatch,
    /// The stored checksum is not that of type and data.
    ChecksumMismatch,
}

/// The data of a chunk is not UTF-8 text.
#[derive(Debug, Clone, Copy, PartialEq, Eq, Structural)]
pub struct EncodingError;

/// What a chunk is: its type code and its data. Length and checksum follow
/// from these.
pub ghost struct ChunkView {
    pub chunk_type: Seq<u8>,
    pub data: Seq<u8>,
}

impl ChunkView {
    /// The checksum of the chunk: that of its type code followed by its data.
    pub open spec fn crc(self) -> u32 {
        crc32(self.chunk_type + self.data)
    }

    /// What holds of every chunk: a valid type code, and data that a 32-bit
    /// length can count.
    pub open spec fn well_formed(self) -> bool {
        is_valid_code(self.chunk_type) && self.data.len() <= u32::MAX
    }

    /// The chunk as it stands in a file: length, type, data, checksum.
    pub open spec fn bytes(self) -> Seq<u8> {
        be_bytes(self.data.len() as u32) + self.chunk_type + self.data + be_bytes(self.crc())
    }

    /// The chunk as it is printed for inspection: length, type, data as a
    /// list of numbers, and checksum, each on a line of its own.
    pub open spec fn text(self) -> Seq<char> {
        "length:"@ + ascii_chars(decimal(self.data.len())) + "\ndType:"@ + ascii_chars(
            self.chunk_type,
        ) + "\n,Data"@ + ascii_chars(decimal_list(self.data)) + "\n,CRC:"@ + ascii_chars(
            decimal(self.crc() as nat),
        ) + "\n"@
    }
}

/// What a buffer holds when read as exactly one chunk.
pub open spec fn parse_chunk(bytes: Seq<u8>) -> Result<ChunkView, ChunkParseError> {
    let end = bytes.len() - 4;
    let chunk = ChunkView { chunk_type: bytes.subrange(4, 8), data: bytes.subrange(8, end) };
    if bytes.len() < 12 {
        Err(ChunkParseError::TooShort)
    } else if validity_error(chunk.chunk_type) is Some {
        Err(ChunkParseError::InvalidType(validity_error(chunk.chunk_type)->0))
    } else if be_value(bytes.subrange(0, 4)) != chunk.data.len() {
        Err(ChunkParseError::LengthMismatch)
    } else if be_value(bytes.subrange(end, end + 4)) != chunk.crc() {
        Err(ChunkParseError::ChecksumMismatch)
    } else {
        Ok(chunk)
    }
}

/// A chunk whose checksum is that of its type and data.
#[derive(Debug)]
pub struct Chunk {
    chunk_type: ChunkType,
    data: Vec<u8>,
    crc: u32,
}

impl View for Chunk {
    type V = ChunkView;

    closed spec fn view(&self) -> ChunkView {
        ChunkView { chunk_type: self.chunk_type@, data: self.data@ }
    }
}

impl Chunk {
    #[verifier::type_invariant]
    pub(crate) open spec fn checked(self) -> bool {
        &&& self@.well_formed()
        &&& self.stored_crc() == self@.crc()
    }

    pub(crate) closed spec fn stored_crc(self) -> u32 {
        self.crc
    }

    /// A chunk of the given type and data, with the checksum computed.
    pub fn new(chunk_type: ChunkType, data: Vec<u8>) -> (r: Chunk)
        requires
            data@.len() <= u32::MAX,
        ensures
            r@ == (ChunkView { chunk_type: chunk_type@, data: data@ }),
            r@.well_formed(),
    {
        let crc = Chunk::compute_png_crc(&chunk_type, &data);
        proof {
            use_type_invariant(&chunk_type);
        }
        Chunk { chunk_type, data, crc }
    }

    /// The number of data bytes.
    pub fn length(&self) -> (r: u32)
        ensures
            r == self@.data.len(),
    {
        proof {
            use_type_invariant(self);
        }
        self.data.len() as u32
    }

    /// The type of the chunk.
    pub fn chunk_type(&self) -> (r: &ChunkType)
        ensures
            r@ == self@.chunk_type,
            is_valid_code(r@),
    {
        proof {
            use_type_invariant(self);
        }
        &self.chunk_type
    }

    /// The data of the chunk.
    pub fn data(&self) -> (r: &[u8])
        ensures
            r@ == self@.data,
            r@.len() <= u32::MAX,
    {
        proof {
            use_type_invariant(self);
        }
        self.data.as_slice()
    }

    /// The checksum of the chunk.
    pub fn crc(&self) -> (r: u32)
        ensures
            r == self@.crc(),
    {
        proof {
            use_type_invariant(self);
        }
        self.crc
    }

    /// The data as text, when it is UTF-8.
    pub fn data_as_string(&self) -> (r: Result<String, EncodingError>)
        ensures
            r is Ok <==> valid_utf8(self@.data),
            r matches Ok(s) ==> encode_utf8(s@) == self@.data,
    {
        match string_from_utf8(slice_to_vec(self.data())) {
            Some(s) => Ok(s),
            None => Err(EncodingError),
        }
    }

    /// The chunk as it stands in a file: twelve bytes more than its data,
    /// and bytes that are read as this chunk again.
    pub fn as_bytes(&self) -> (r: Vec<u8>)
        ensures
            r@ == self@.bytes(),
            r@.len() == 12 + self@.data.len(),
            parse_chunk(r@) == Ok::<ChunkView, ChunkParseError>(self@),
    {
        proof {
            use_type_invariant(self);
            lemma_parse_written_chunk(self@);
        }
        let mut bytes: Vec<u8> = Vec::new();
        self.append_to(&mut bytes);
        assert(bytes@ =~= self@.bytes());
        bytes
    }

    /// Writes the chunk, as it stands in a file, behind what `bytes` holds.
    pub(crate) fn append_to(&self, bytes: &mut Vec<u8>)
        ensures
            final(bytes)@ == old(bytes)@ + self@.bytes(),
    {
        let length = u32_to_be(self.length());
        let code = self.chunk_type.bytes();
        let crc = u32_to_be(self.crc());
        bytes.extend_from_slice(length.as_slice());
        bytes.extend_from_slice(code.as_slice());
        bytes.extend_from_slice(self.data.as_slice());
        bytes.extend_from_slice(crc.as_slice());
        assert(bytes@ =~= old(bytes)@ + self@.bytes());
    }

    /// The chunk as it is printed for inspection.
    pub fn to_string(&self) -> (r: String)
        ensures
            r@ == self@.text(),
    {
        let mut text = String::from_str("length:");
        text.append(decimal_string(self.length() as u64).as_str());
        text.append("\ndType:");
        text.append(self.chunk_type.to_string().as_str());
        text.append("\n,Data");
        text.append(decimal_list_string(self.data.as_slice()).as_str());
        text.append("\n,CRC:");
        text.append(decimal_string(self.crc() as u64).as_str());
        text.append("\n");
        text
    }

    /// The checksum of a type code followed by data.
    fn compute_png_crc(chunk_type: &ChunkType, data: &Vec<u8>) -> (r: u32)
        ensures
            r == crc32(chunk_type@ + data@),
    {
        let code = chunk_type.bytes();
        let mut hashing_bytes = slice_to_vec(code.as_slice());
        hashing_bytes.extend_from_slice(data.as_slice());
        assert(hashing_bytes@ =~= chunk_type@ + data@);
        checksum(hashing_bytes.as_slice())
    }
}

impl TryFrom<&[u8]> for Chunk {
    type Error = ChunkParseError;

    /// Reads a buffer that holds exactly one chunk.
    #[verifier::rlimit(50)]
    fn try_from(value: &[u8]) -> (r: Result<Chunk, ChunkParseError>)
        ensures
            match r {
                Ok(chunk) => parse_chunk(value@) == Ok::<ChunkView, ChunkParseError>(chunk@),
                Err(e) => parse_chunk(value@) == Err::<ChunkView, ChunkParseError>(e),
            },
    {
        if value.len() < MINIMUM_CHUNK_SIZE {
            return Err(ChunkParseError::TooShort);
        }
        let end = value.len() - 4;
        let declared = u32_from_be(slice_subrange(value, 0, 4));
        let chunk_type = match ChunkType::try_from(slice_subrange(value, 4, 8)) {
            Ok(t) => t,
            Err(e) => {
                return Err(ChunkParseError::InvalidType(e));
            },
        };
        if end - 8 != declared as usize {
            return Err(ChunkParseError::LengthMismatch);
        }
        let data = slice_to_vec(slice_subrange(value, 8, end));
        let crc = u32_from_be(slice_subrange(value, end, end + 4));
        if crc != Chunk::compute_png_crc(&chunk_type, &data) {
            return Err(ChunkParseError::ChecksumMismatch);
        }
        Ok(Chunk { chunk_type, data, crc })
    }
}

/// The contract of `try_from` stands on the function itself.
impl TryFromSpecImpl<&[u8]> for Chunk {
    open spec fn obeys_try_from_spec() -> bool {
        false
    }

    open spec fn try_from_spec(v: &[u8]) -> Result<Self, Self::Error> {
        arbitrary()
    }
}

/// Writing then reading gives the chunk back: the bytes of every chunk are
/// read as that chunk, with the same length, type, data and checksum.
pub proof fn lemma_parse_written_chunk(chunk: ChunkView)
    requires
        chunk.well_formed(),
    ensures
        parse_chunk(chunk.bytes()) == Ok::<ChunkView, ChunkParseError>(chunk),
{
    let bytes = chunk.bytes();
    let end = bytes.len() - 4;
    lemma_be_value_of_bytes(chunk.data.len() as u32);
    lemma_be_value_of_bytes(chunk.crc());
    assert(bytes.subrange(0, 4) =~= be_bytes(chunk.data.len() as u32));
    assert(bytes.subrange(4, 8) =~= chunk.chunk_type);
    assert(bytes.subrange(8, end) =~= chunk.data);
    assert(bytes.subrange(end, end + 4) =~= be_bytes(chunk.crc()));
}

/// Reading then writing gives the bytes back: a buffer that is read as a
/// chunk holds exactly the bytes of that chunk.
pub proof fn lemma_write_parsed_chunk(bytes: Seq<u8>)
    requires
        parse_chunk(bytes) is Ok,
    ensures
        parse_chunk(bytes)->Ok_0.bytes() == bytes,
        parse_chunk(bytes)->Ok_0.well_formed(),
{
    let chunk = parse_chunk(bytes)->Ok_0;
    let end = bytes.len() - 4;
    lemma_be_bytes_of_value(bytes.subrange(0, 4));
    lemma_be_bytes_of_value(bytes.subrange(end, end + 4));
    assert(chunk.bytes() =~= bytes);
}

/// The checksum guards type and data: in a buffer that is read as a chunk,
/// changing one byte of the type or the data, with the stored checksum left
/// as it is, makes the buffer be refused. Where the four type bytes still form
/// a valid code, it is refused for its checksum.
#[verifier::rlimit(50)]
pub proof fn lemma_changed_byte_is_refused(bytes: Seq<u8>, i: int, byte: u8)
    requires
        parse_chunk(bytes) is Ok,
        4 <= i < bytes.len() - 4,
        byte != bytes[i],
    ensures
        parse_chunk(bytes.update(i, byte)) is Err,
        validity_error(bytes.update(i, byte).subrange(4, 8)) is None ==> parse_chunk(
            bytes.update(i, byte),
        ) == Err::<ChunkView, ChunkParseError>(ChunkParseError::ChecksumMismatch),
{
    let changed = bytes.update(i, byte);
    let end = bytes.len() - 4;
    let before = bytes.subrange(4, 8) + bytes.subrange(8, end);
    let after = changed.subrange(4, 8) + changed.subrange(8, end);
    assert(changed.subrange(0, 4) =~= bytes.subrange(0, 4));
    assert(changed.subrange(end, end + 4) =~= bytes.subrange(end, end + 4));
    assert(before[i - 4] == bytes[i]);
    assert(after[i - 4] == byte);
    assert forall|j: int| 0 <= j < before.len() && j != i - 4 implies before[j] == after[j] by {
        assert(before[j] == bytes[j + 4]);
        assert(after[j] == changed[j + 4]);
    }
    lemma_crc32_detects_one_changed_byte(before, after, i - 4);
}

/// The same for one flipped bit: in a buffer that is read as a chunk,
/// flipping any one bit of the type or the data makes the buffer be refused,
/// and where the type bytes still form a valid code, for its checksum.
pub proof fn lemma_flipped_bit_is_refused(bytes: Seq<u8>, i: int, bit: u8)
    requires
        parse_chunk(bytes) is Ok,
        4 <= i < bytes.len() - 4,
        bit < 8,
    ensures
        parse_chunk(bytes.update(i, bytes[i] ^ (1u8 << bit))) is Err,
        validity_error(bytes.update(i, bytes[i] ^ (1u8 << bit)).subrange(4, 8)) is None
            ==> parse_chunk(bytes.update(i, bytes[i] ^ (1u8 << bit))) == Err::<
            ChunkView,
            ChunkParseError,
        >(ChunkParseError::ChecksumMismatch),
{
    let b = bytes[i];
    assert(bit < 8 ==> b ^ (1u8 << bit) != b) by (bit_vector);
    lemma_changed_byte_is_refused(bytes, i, b ^ (1u8 << bit));
}

} // verus!
