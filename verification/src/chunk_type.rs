//! Chunk type codes: four bytes whose letter case carries four flags.

use crate::be32::{
    be_bytes, be_value, from_be, lemma_bytes_of_value, lemma_value_of_bytes, to_be,
};
use crate::text::string_from_utf8;
use std::str::FromStr;
use vstd::prelude::*;
use vstd::slice::slice_to_vec;
use vstd::std_specs::convert::TryFromSpecImpl;
use vstd::utf8::{
    decode_utf8, encode_utf8, encode_utf8_decode_utf8, encode_utf8_valid_utf8, is_ascii_chars,
    is_ascii_chars_encode_utf8, valid_utf8,
};

verus! {

/// `b` is an ASCII capital letter, `A` to `Z`.
pub open spec fn is_upper(b: u8) -> bool {
    0x41 <= b <= 0x5a
}

/// `b` is an ASCII small letter, `a` to `z`.
pub open spec fn is_lower(b: u8) -> bool {
    0x61 <= b <= 0x7a
}

/// `b` is an ASCII letter.
pub open spec fn is_letter(b: u8) -> bool {
    is_upper(b) || is_lower(b)
}

/// The case of a letter is its bit of value 32: clear in a capital letter, set
/// in a small one. This is how the PNG format reads the four flags of a code.
pub proof fn lemma_case_is_bit_five(b: u8)
    requires
        is_letter(b),
    ensures
        is_upper(b) <==> b & 0x20 == 0,
        is_lower(b) <==> b & 0x20 == 0x20,
{
    assert((0x41 <= b <= 0x5a) ==> b & 0x20 == 0) by (bit_vector);
    assert((0x61 <= b <= 0x7a) ==> b & 0x20 == 0x20) by (bit_vector);
}

/// Four bytes that are all ASCII letters: what a code made from a string is.
pub open spec fn all_letters(code: Seq<u8>) -> bool {
    &&& code.len() == 4
    &&& is_letter(code[0])
    &&& is_letter(code[1])
    &&& is_letter(code[2])
    &&& is_letter(code[3])
}

/// Four bytes that the byte path takes as a type code.
///
/// The byte path is lenient: it turns away only a code without any letter.
/// A code read from a file may therefore hold bytes that are no letters;
/// [`ChunkType::is_valid`] tells whether it holds none. The string path is
/// strict and asks for [`all_letters`].
pub open spec fn accepted(code: Seq<u8>) -> bool {
    &&& code.len() == 4
    &&& (is_letter(code[0]) || is_letter(code[1]) || is_letter(code[2]) || is_letter(code[3]))
}

/// `c` is an ASCII letter.
pub open spec fn is_letter_char(c: char) -> bool {
    c as u32 <= 0xff && is_letter(c as u8)
}

/// The bytes of a string of ASCII characters, one byte for each.
pub open spec fn ascii_bytes(s: Seq<char>) -> Seq<u8> {
    Seq::new(s.len(), |i: int| s[i] as u8)
}

/// A code of four letters is valid UTF-8, and as text it is the four letters.
pub proof fn lemma_letters_are_text(code: Seq<u8>)
    requires
        all_letters(code),
    ensures
        valid_utf8(code),
        decode_utf8(code) == Seq::new(4, |i: int| code[i] as char),
        ascii_bytes(decode_utf8(code)) == code,
{
    let letters = Seq::new(4, |i: int| code[i] as char);
    assert(is_ascii_chars(letters));
    is_ascii_chars_encode_utf8(letters);
    assert(encode_utf8(letters) =~= code);
    encode_utf8_valid_utf8(letters);
    encode_utf8_decode_utf8(letters);
    assert(ascii_bytes(letters) =~= code);
}

/// Why a type code was turned away.
#[derive(Debug, Clone, Copy, PartialEq, Eq, Structural)]
pub enum ChunkTypeError {
    /// The bytes fail the letter check of the path that read them.
    IllegalByte,
    /// The string does not have exactly four characters.
    UnexpectedLength,
}

impl ChunkTypeError {
    /// What [`ChunkTypeError::to_string`] returns.
    pub open spec fn text(self) -> Seq<char> {
        match self {
            ChunkTypeError::IllegalByte => "Invalid chunk type: bytes must in alphabetic"@,
            ChunkTypeError::UnexpectedLength =>
                "Error while converting from str: length must be 4"@,
        }
    }

    /// The text that describes the error to a user.
    pub fn to_string(&self) -> (text: String)
        ensures
            text@ == self.text(),
    {
        match self {
            ChunkTypeError::IllegalByte =>
                "Invalid chunk type: bytes must in alphabetic".to_owned(),
            ChunkTypeError::UnexpectedLength =>
                "Error while converting from str: length must be 4".to_owned(),
        }
    }
}

/// What the string path returns for the characters `s`.
pub open spec fn parse_str(s: Seq<char>) -> Result<Seq<u8>, ChunkTypeError> {
    if s.len() != 4 {
        Err(ChunkTypeError::UnexpectedLength)
    } else if !(is_letter_char(s[0]) && is_letter_char(s[1]) && is_letter_char(s[2])
        && is_letter_char(s[3])) {
        Err(ChunkTypeError::IllegalByte)
    } else {
        Ok(ascii_bytes(s))
    }
}

/// A chunk type code.
///
/// Its view is the four bytes of the code. Every value holds a code that the
/// byte path accepts, see [`accepted`].
#[derive(PartialEq, Eq, Debug, Structural)]
pub struct ChunkType(u32);

impl Clone for ChunkType {
    fn clone(&self) -> (copy: Self)
        ensures
            copy == *self,
    {
        proof {
            use_type_invariant(self);
        }
        ChunkType(self.0)
    }
}

impl View for ChunkType {
    type V = Seq<u8>;

    closed spec fn view(&self) -> Seq<u8> {
        be_bytes(self.0)
    }
}

fn byte_is_upper(b: u8) -> (r: bool)
    ensures
        r == is_upper(b),
{
    0x41 <= b && b <= 0x5a
}

fn byte_is_lower(b: u8) -> (r: bool)
    ensures
        r == is_lower(b),
{
    0x61 <= b && b <= 0x7a
}

fn byte_is_letter(b: u8) -> (r: bool)
    ensures
        r == is_letter(b),
{
    byte_is_upper(b) || byte_is_lower(b)
}

impl ChunkType {
    #[verifier::type_invariant]
    spec fn holds_accepted_code(self) -> bool {
        accepted(be_bytes(self.0))
    }

    /// Two codes are the same value exactly when their bytes are the same.
    pub proof fn lemma_eq_by_view(self, other: ChunkType)
        ensures
            (self == other) <==> (self@ == other@),
    {
        lemma_value_of_bytes(self.0);
        lemma_value_of_bytes(other.0);
    }

    /// The four bytes of the code.
    pub fn bytes(&self) -> (b: [u8; 4])
        ensures
            b@ == self@,
            accepted(b@),
    {
        proof {
            use_type_invariant(self);
        }
        to_be(self.0)
    }

    /// The code as text. A code that is not valid UTF-8 has no text: such a
    /// code holds a byte that is no letter.
    pub fn to_string(&self) -> (text: String)
        requires
            valid_utf8(self@),
        ensures
            encode_utf8(text@) == self@,
            text@ == decode_utf8(self@),
    {
        let code: [u8; 4] = self.bytes();
        let decoded = string_from_utf8(slice_to_vec(code.as_slice()));
        proof {
            if decoded is Ok {
                encode_utf8_decode_utf8(decoded->Ok_0@);
            }
        }
        decoded.unwrap()
    }

    /// All four bytes are letters and the reserved bit is valid.
    pub fn is_valid(&self) -> (r: bool)
        ensures
            r == (all_letters(self@) && is_upper(self@[2])),
    {
        let b: [u8; 4] = self.bytes();
        byte_is_letter(b[0]) && byte_is_letter(b[1]) && byte_is_letter(b[2]) && byte_is_letter(b[3])
            && self.is_reserved_bit_valid()
    }

    /// The chunk is critical: the first byte is a capital letter.
    pub fn is_critical(&self) -> (r: bool)
        ensures
            r == is_upper(self@[0]),
            is_letter(self@[0]) ==> r == (self@[0] & 0x20 == 0),
    {
        let b: [u8; 4] = self.bytes();
        proof {
            if is_letter(b@[0]) {
                lemma_case_is_bit_five(b@[0]);
            }
        }
        byte_is_upper(b[0])
    }

    /// The chunk is public: the second byte is a capital letter.
    pub fn is_public(&self) -> (r: bool)
        ensures
            r == is_upper(self@[1]),
            is_letter(self@[1]) ==> r == (self@[1] & 0x20 == 0),
    {
        let b: [u8; 4] = self.bytes();
        proof {
            if is_letter(b@[1]) {
                lemma_case_is_bit_five(b@[1]);
            }
        }
        byte_is_upper(b[1])
    }

    /// The reserved bit is valid: the third byte is a capital letter.
    pub fn is_reserved_bit_valid(&self) -> (r: bool)
        ensures
            r == is_upper(self@[2]),
            is_letter(self@[2]) ==> r == (self@[2] & 0x20 == 0),
    {
        let b: [u8; 4] = self.bytes();
        proof {
            if is_letter(b@[2]) {
                lemma_case_is_bit_five(b@[2]);
            }
        }
        byte_is_upper(b[2])
    }

    /// The chunk is safe to copy: the fourth byte is a small letter.
    pub fn is_safe_to_copy(&self) -> (r: bool)
        ensures
            r == is_lower(self@[3]),
            is_letter(self@[3]) ==> r == (self@[3] & 0x20 == 0x20),
    {
        let b: [u8; 4] = self.bytes();
        proof {
            if is_letter(b@[3]) {
                lemma_case_is_bit_five(b@[3]);
            }
        }
        byte_is_lower(b[3])
    }
}

impl TryFromSpecImpl<[u8; 4]> for ChunkType {
    open spec fn obeys_try_from_spec() -> bool {
        true
    }

    closed spec fn try_from_spec(value: [u8; 4]) -> Result<Self, ChunkTypeError> {
        if accepted(value@) {
            Ok(ChunkType(be_value(value@)))
        } else {
            Err(ChunkTypeError::IllegalByte)
        }
    }
}

impl TryFrom<[u8; 4]> for ChunkType {
    type Error = ChunkTypeError;

    /// The byte path: takes the four bytes unless none of them is a letter.
    fn try_from(value: [u8; 4]) -> (r: Result<Self, ChunkTypeError>)
        ensures
            accepted(value@) ==> r is Ok && r->Ok_0@ == value@,
            !accepted(value@) ==> r == Err::<ChunkType, ChunkTypeError>(
                ChunkTypeError::IllegalByte,
            ),
    {
        if !byte_is_letter(value[0]) && !byte_is_letter(value[1]) && !byte_is_letter(value[2])
            && !byte_is_letter(value[3]) {
            Err(ChunkTypeError::IllegalByte)
        } else {
            proof {
                lemma_bytes_of_value(value@);
            }
            Ok(ChunkType(from_be(value)))
        }
    }
}

fn char_is_letter(c: char) -> (r: bool)
    ensures
        r == is_letter_char(c),
{
    ('A' <= c && c <= 'Z') || ('a' <= c && c <= 'z')
}

impl FromStr for ChunkType {
    type Err = ChunkTypeError;

    /// The string path: takes exactly four ASCII letters. The code it makes
    /// holds the four letters, so it is text.
    fn from_str(s: &str) -> (r: Result<Self, ChunkTypeError>)
        ensures
            match parse_str(s@) {
                Ok(code) => r is Ok && r->Ok_0@ == code,
                Err(e) => r == Err::<ChunkType, ChunkTypeError>(e),
            },
            r is Ok ==> all_letters(r->Ok_0@) && valid_utf8(r->Ok_0@) && decode_utf8(r->Ok_0@)
                == s@,
    {
        if s.unicode_len() != 4 {
            return Err(ChunkTypeError::UnexpectedLength);
        }
        let c0: char = s.get_char(0);
        let c1: char = s.get_char(1);
        let c2: char = s.get_char(2);
        let c3: char = s.get_char(3);
        if !(char_is_letter(c0) && char_is_letter(c1) && char_is_letter(c2) && char_is_letter(c3)) {
            return Err(ChunkTypeError::IllegalByte);
        }
        let letters: [u8; 4] = [c0 as u8, c1 as u8, c2 as u8, c3 as u8];
        proof {
            assert(letters@ =~= ascii_bytes(s@));
            lemma_bytes_of_value(letters@);
            lemma_letters_are_text(letters@);
            assert(decode_utf8(letters@) =~= s@);
        }
        Ok(ChunkType(from_be(letters)))
    }
}

} // verus!
