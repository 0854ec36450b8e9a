//! The four-letter code that names a chunk's kind.
use crate::text::{ascii_chars, ascii_string};
use std::str::FromStr;
use vstd::prelude::*;
use vstd::std_specs::cmp::PartialEqSpecImpl;
use vstd::std_specs::convert::TryFromSpecImpl;
use vstd::string::StringSliceAdditionalSpecFns;

verus! {

/// Why bytes, or a string, were not taken as a chunk type.
#[derive(Debug, Clone, Copy, PartialEq, Eq, Structural)]
pub enum InvalidChunkType {
    /// The input does not hold exactly four bytes.
    WrongLength,
    /// Some byte is not an ASCII letter.
    NotAlphabetic,
    /// Bit 5 of the third byte is set.
    ReservedBitSet,
}

/// True for the ASCII letters `A`-`Z` and `a`-`z`.
pub open spec fn is_letter(b: u8) -> bool {
    (65 <= b <= 90) || (97 <= b <= 122)
}

/// True when bit 5 (`0x20`) of the byte is set.
pub open spec fn bit5(b: u8) -> bool {
    b & 0x20 == 0x20
}

/// Four ASCII letters.
pub open spec fn is_code(s: Seq<u8>) -> bool {
    s.len() == 4 && forall|i: int| 0 <= i < 4 ==> is_letter(#[trigger] s[i])
}

/// A code that current PNG revisions accept, and what every `ChunkType`
/// holds: four letters, the third in upper case.
pub open spec fn is_valid_code(s: Seq<u8>) -> bool {
    is_code(s) && !bit5(s[2])
}

/// What, if anything, keeps `s` from being a code.
pub open spec fn code_error(s: Seq<u8>) -> Option<InvalidChunkType> {
    if s.len() != 4 {
        Some(InvalidChunkType::WrongLength)
    } else if !is_code(s) {
        Some(InvalidChunkType::NotAlphabetic)
    } else {
        None
    }
}

/// What, if anything, keeps `s` from being a valid code.
pub open spec fn validity_error(s: Seq<u8>) -> Option<InvalidChunkType> {
    if code_error(s) is Some {
        code_error(s)
    } else if bit5(s[2]) {
        Some(InvalidChunkType::ReservedBitSet)
    } else {
        None
    }
}

/// Among letters, bit 5 tells the case: set for lower, clear for upper.
pub proof fn lemma_bit5_is_lower_case(b: u8)
    requires
        is_letter(b),
    ensures
        bit5(b) <==> 97 <= b <= 122,
        !bit5(b) <==> 65 <= b <= 90,
{
    assert(((65 <= b <= 90) || (97 <= b <= 122)) ==> ((b & 0x20 == 0x20) <==> 97 <= b))
        by (bit_vector);
}

/// A chunk type: four ASCII letters, the third in upper case. No value of
/// this type holds anything else.
#[derive(Debug, Clone, Copy)]
pub struct ChunkType {
    code: [u8; 4],
}

impl View for ChunkType {
    type V = Seq<u8>;

    closed spec fn view(&self) -> Seq<u8> {
        self.code@
    }
}

/// True for an ASCII letter.
fn letter(b: u8) -> (r: bool)
    ensures
        r == is_letter(b),
{
    (65 <= b && b <= 90) || (97 <= b && b <= 122)
}

/// True when all four bytes are ASCII letters.
fn letters(code: &[u8; 4]) -> (r: bool)
    ensures
        r == is_code(code@),
{
    letter(code[0]) && letter(code[1]) && letter(code[2]) && letter(code[3])
}

impl ChunkType {
    #[verifier::type_invariant]
    pub(crate) open spec fn valid(self) -> bool {
        is_valid_code(self@)
    }

    /// The four bytes of the code.
    pub fn bytes(&self) -> (r: [u8; 4])
        ensures
            r@ == self@,
            is_valid_code(self@),
    {
        proof {
            use_type_invariant(self);
        }
        self.code
    }

    /// True when the code is one that current PNG revisions accept, which
    /// every chunk type is.
    pub fn is_valid(&self) -> (r: bool)
        ensures
            r == is_valid_code(self@),
            r,
    {
        proof {
            use_type_invariant(self);
        }
        self.is_reserved_bit_valid()
    }

    /// True for a critical chunk: the first letter is in upper case.
    pub fn is_critical(&self) -> (r: bool)
        ensures
            r == !bit5(self@[0]),
            r == (65 <= self@[0] <= 90),
    {
        proof {
            use_type_invariant(self);
            lemma_bit5_is_lower_case(self.code@[0]);
        }
        (self.code[0] & 0x20) != 0x20
    }

    /// True for a public chunk: the second letter is in upper case.
    pub fn is_public(&self) -> (r: bool)
        ensures
            r == !bit5(self@[1]),
            r == (65 <= self@[1] <= 90),
    {
        proof {
            use_type_invariant(self);
            lemma_bit5_is_lower_case(self.code@[1]);
        }
        (self.code[1] & 0x20) != 0x20
    }

    /// True when the reserved bit is clear: the third letter is in upper
    /// case, as it is in every chunk type.
    pub fn is_reserved_bit_valid(&self) -> (r: bool)
        ensures
            r == !bit5(self@[2]),
            r == (65 <= self@[2] <= 90),
            r,
    {
        proof {
            use_type_invariant(self);
            lemma_bit5_is_lower_case(self.code@[2]);
        }
        (self.code[2] & 0x20) != 0x20
    }

    /// True when the chunk is safe to copy: the fourth letter is in lower case.
    pub fn is_safe_to_copy(&self) -> (r: bool)
        ensures
            r == bit5(self@[3]),
            r == (97 <= self@[3] <= 122),
    {
        proof {
            use_type_invariant(self);
            lemma_bit5_is_lower_case(self.code@[3]);
        }
        (self.code[3] & 0x20) == 0x20
    }

    /// Reads a chunk type from a string. The string is taken exactly when
    /// its bytes are: four ASCII letters, the third in upper case.
    pub fn from_str(s: &str) -> (r: Result<Self, InvalidChunkType>)
        ensures
            match r {
                Ok(t) => validity_error(s.spec_bytes()) is None && t@ == s.spec_bytes(),
                Err(e) => validity_error(s.spec_bytes()) == Some(e),
            },
    {
        ChunkType::try_from(s.as_bytes())
    }

    /// The code as text: its four letters.
    pub fn to_string(&self) -> (r: String)
        ensures
            r@ == ascii_chars(self@),
    {
        proof {
            use_type_invariant(self);
        }
        let mut bytes: Vec<u8> = Vec::new();
        bytes.push(self.code[0]);
        bytes.push(self.code[1]);
        bytes.push(self.code[2]);
        bytes.push(self.code[3]);
        assert(bytes@ =~= self.code@);
        ascii_string(bytes)
    }
}

impl PartialEq for ChunkType {
    /// Two chunk types are equal when they hold the same four letters.
    fn eq(&self, other: &ChunkType) -> (r: bool) {
        let r = self.code[0] == other.code[0] && self.code[1] == other.code[1] && self.code[2]
            == other.code[2] && self.code[3] == other.code[3];
        proof {
            if r {
                assert(self.code@ =~= other.code@);
            }
        }
        r
    }
}

impl PartialEqSpecImpl for ChunkType {
    open spec fn obeys_eq_spec() -> bool {
        true
    }

    open spec fn eq_spec(&self, other: &ChunkType) -> bool {
        self@ == other@
    }
}

impl Eq for ChunkType {

}

impl TryFrom<[u8; 4]> for ChunkType {
    type Error = InvalidChunkType;

    /// Takes four bytes as a chunk type when they form a valid code.
    fn try_from(value: [u8; 4]) -> (r: Result<Self, InvalidChunkType>)
        ensures
            match r {
                Ok(t) => validity_error(value@) is None && t@ == value@,
                Err(e) => validity_error(value@) == Some(e),
            },
    {
        if !letters(&value) {
            return Err(InvalidChunkType::NotAlphabetic);
        }
        if (value[2] & 0x20) == 0x20 {
            return Err(InvalidChunkType::ReservedBitSet);
        }
        Ok(ChunkType { code: value })
    }
}

impl TryFromSpecImpl<[u8; 4]> for ChunkType {
    open spec fn obeys_try_from_spec() -> bool {
        true
    }

    closed spec fn try_from_spec(v: [u8; 4]) -> Result<Self, Self::Error> {
        match validity_error(v@) {
            Some(e) => Err(e),
            None => Ok(ChunkType { code: v }),
        }
    }
}

impl TryFrom<&[u8]> for ChunkType {
    type Error = InvalidChunkType;

    /// Takes a slice as a chunk type when it holds the four bytes of a valid
    /// code.
    fn try_from(value: &[u8]) -> (r: Result<Self, InvalidChunkType>)
        ensures
            match r {
                Ok(t) => validity_error(value@) is None && t@ == value@,
                Err(e) => validity_error(value@) == Some(e),
            },
    {
        if value.len() != 4 {
            return Err(InvalidChunkType::WrongLength);
        }
        let code = [value[0], value[1], value[2], value[3]];
        assert(code@ =~= value@);
        ChunkType::try_from(code)
    }
}

impl TryFromSpecImpl<&[u8]> for ChunkType {
    open spec fn obeys_try_from_spec() -> bool {
        true
    }

    closed spec fn try_from_spec(v: &[u8]) -> Result<Self, Self::Error> {
        match validity_error(v@) {
            Some(e) => Err(e),
            None => Ok(ChunkType { code: [v@[0], v@[1], v@[2], v@[3]] }),
        }
    }
}

impl FromStr for ChunkType {
    type Err = InvalidChunkType;

    /// As `ChunkType::from_str`.
    fn from_str(s: &str) -> (r: Result<Self, InvalidChunkType>)
        ensures
            match r {
                Ok(t) => validity_error(s.spec_bytes()) is None && t@ == s.spec_bytes(),
                Err(e) => validity_error(s.spec_bytes()) == Some(e),
            },
    {
        ChunkType::from_str(s)
    }
}

} // verus!
