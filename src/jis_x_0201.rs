//! JIS X 0201 (ANK), a single-byte encoding built on 7-bit ASCII.
//!
//! Bytes `0x00..=0x7F` are ASCII, except that `0x5C` (reverse solidus) is the
//! Yen sign U+00A5 and `0x7E` (tilde) is the overline U+203E. Bytes
//! `0xA1..=0xDF` are the half-width katakana U+FF61..=U+FF9F. No other byte
//! decodes.
use vstd::prelude::*;
use vstd::slice::slice_to_vec;
use vstd::utf8::char_u32_cast;

verus! {

/// Why bytes could not be decoded.
#[derive(Debug, Clone, Copy, PartialEq, Eq, Structural)]
pub enum DecodingError {
    /// The byte has no character in the encoding.
    InvalidByte(u8),
}

/// The JIS X 0201 encoding.
pub struct JisX0201 {}

/// Decodes a sequence of bytes one character at a time.
pub struct Decoder {
    bytes: Vec<u8>,
    pos: usize,
}

/// The character that byte `b` stands for, if any.
pub open spec fn jis_char(b: u8) -> Option<char> {
    if b == 0x5c {
        Some('\u{a5}')
    } else if b == 0x7e {
        Some('\u{203e}')
    } else if b <= 0x7f {
        Some(b as char)
    } else if 0xa1 <= b <= 0xdf {
        Some((b as u32 + 0xFEC0) as char)
    } else {
        None
    }
}

/// `r` is what decoding byte `b` gives.
pub open spec fn decoded_as(b: u8, r: Result<char, DecodingError>) -> bool {
    match jis_char(b) {
        Some(c) => r == Ok::<char, DecodingError>(c),
        None => r == Err::<char, DecodingError>(DecodingError::InvalidByte(b)),
    }
}

/// `s` is the character-for-character decoding of `bytes`.
pub open spec fn decodes(bytes: Seq<u8>, s: Seq<char>) -> bool {
    s.len() == bytes.len() && forall|i: int| 0 <= i < bytes.len() ==> jis_char(bytes[i]) == Some(s[i])
}

/// `r` is the decoding of the first string of `bytes`: of everything before
/// the first NUL byte, or of all of it where there is none; or else the error
/// for the first byte before that point that does not decode.
pub open spec fn is_first_string(bytes: Seq<u8>, r: Result<String, DecodingError>) -> bool {
    match r {
        Ok(s) => {
            &&& s@.len() <= bytes.len()
            &&& decodes(bytes.subrange(0, s@.len() as int), s@)
            &&& s@.len() < bytes.len() ==> bytes[s@.len() as int] == 0
            &&& forall|k: int| 0 <= k < s@.len() ==> bytes[k] != 0
        },
        Err(e) => exists|i: int|
            0 <= i < bytes.len() && jis_char(bytes[i]) is None && (forall|k: int|
                0 <= k < i ==> jis_char(bytes[k]) is Some && bytes[k] != 0) && e
                == DecodingError::InvalidByte(bytes[i]),
    }
}

/// Relies on `char::from_u32`: `Some` exactly for a Unicode scalar value,
/// holding that value.
#[verifier::external_body]
fn char_from_u32(u: u32) -> (r: Option<char>)
    ensures
        r is Some <==> (u < 0xD800 || (0xE000 <= u && u <= 0x10FFFF)),
        r matches Some(c) ==> c as u32 == u,
{
    char::from_u32(u)
}

/// Relies on `String::push`: appends `c` at the end of `s`.
#[verifier::external_body]
fn push_char(s: &mut String, c: char)
    ensures
        final(s)@ == old(s)@.push(c),
{
    s.push(c)
}

impl Decoder {
    /// The decoder is at a position within its bytes.
    pub closed spec fn wf(&self) -> bool {
        self.pos <= self.bytes@.len()
    }

    /// The bytes that are left to decode.
    pub closed spec fn rest(&self) -> Seq<u8> {
        self.bytes@.subrange(self.pos as int, self.bytes@.len() as int)
    }

    /// A decoder over `bytes`.
    pub fn new(bytes: Vec<u8>) -> (r: Decoder)
        ensures
            r.wf(),
            r.rest() == bytes@,
    {
        let r = Decoder { bytes, pos: 0 };
        assert(r.rest() =~= r.bytes@);
        r
    }

    /// The character that `byte` stands for, or `None` where it has none.
    pub fn decode_byte(byte: u8) -> (r: Option<char>)
        ensures
            r == jis_char(byte),
    {
        if byte == 0x5c {
            Some('\u{a5}')
        } else if byte == 0x7e {
            Some('\u{203e}')
        } else if byte <= 0x7f {
            Some(byte as char)
        } else if 0xa1 <= byte && byte <= 0xdf {
            let u: u32 = byte as u32 + 0xFEC0;
            match char_from_u32(u) {
                Some(c) => {
                    proof {
                        char_u32_cast(c, u);
                    }
                    Some(c)
                },
                None => None,
            }
        } else {
            None
        }
    }

    /// Decodes the next byte: `None` at the end, else the character or an
    /// `InvalidByte` error. Either way the byte is consumed.
    pub fn next(&mut self) -> (r: Option<Result<char, DecodingError>>)
        requires
            old(self).wf(),
        ensures
            final(self).wf(),
            old(self).rest().len() == 0 ==> r is None && final(self).rest() == old(self).rest(),
            old(self).rest().len() > 0 ==> final(self).rest() == old(self).rest().drop_first() && (
            r matches Some(x) && decoded_as(old(self).rest()[0], x)),
    {
        if self.pos >= self.bytes.len() {
            return None;
        }
        let byte = self.bytes[self.pos];
        let ghost before = self.rest();
        assert(before[0] == byte);
        self.pos = self.pos + 1;
        assert(self.rest() =~= before.drop_first());
        match Self::decode_byte(byte) {
            Some(c) => Some(Ok(c)),
            None => Some(Err(DecodingError::InvalidByte(byte))),
        }
    }
}

impl JisX0201 {
    /// A decoder over a copy of `bytes`.
    pub fn iter(bytes: &[u8]) -> (r: Decoder)
        ensures
            r.wf(),
            r.rest() == bytes@,
    {
        Decoder::new(slice_to_vec(bytes))
    }

    /// Decodes all of `bytes`, NUL bytes included, failing at the first byte
    /// that does not decode.
    pub fn all(bytes: &[u8]) -> (r: Result<String, DecodingError>)
        ensures
            match r {
                Ok(s) => decodes(bytes@, s@),
                Err(e) => exists|i: int|
                    0 <= i < bytes@.len() && jis_char(bytes@[i]) is None && (forall|k: int|
                        0 <= k < i ==> jis_char(bytes@[k]) is Some) && e
                        == DecodingError::InvalidByte(bytes@[i]),
            },
            r is Ok <==> forall|i: int| 0 <= i < bytes@.len() ==> jis_char(bytes@[i]) is Some,
    {
        let mut s = String::new();
        let mut i: usize = 0;
        while i < bytes.len()
            invariant
                i <= bytes@.len(),
                decodes(bytes@.subrange(0, i as int), s@),
        decreases bytes@.len() - i,
        {
            match Decoder::decode_byte(bytes[i]) {
                Some(c) => push_char(&mut s, c),
                None => {
                    assert(forall|k: int| 0 <= k < i ==> bytes@.subrange(0, i as int)[k] == bytes@[k]);
                    return Err(DecodingError::InvalidByte(bytes[i]));
                },
            }
            i = i + 1;
            assert(forall|k: int| 0 <= k < i ==> bytes@.subrange(0, i as int)[k] == bytes@[k]);
        }
        assert(bytes@.subrange(0, i as int) =~= bytes@);
        Ok(s)
    }

    /// Decodes the first string of `bytes`: everything before the first NUL
    /// byte, or all of it where there is none. Fails at the first byte before
    /// that point that does not decode.
    pub fn first(bytes: &[u8]) -> (r: Result<String, DecodingError>)
        ensures
            is_first_string(bytes@, r),
    {
        let mut s = String::new();
        let mut i: usize = 0;
        while i < bytes.len()
            invariant
                i <= bytes@.len(),
                s@.len() == i,
                decodes(bytes@.subrange(0, i as int), s@),
                forall|k: int| 0 <= k < i ==> bytes@[k] != 0,
            decreases bytes@.len() - i,
        {
            match Decoder::decode_byte(bytes[i]) {
                Some(c) => {
                    if c == '\0' {
                        return Ok(s);
                    }
                    push_char(&mut s, c);
                },
                None => {
                    assert(forall|k: int| 0 <= k < i ==> bytes@.subrange(0, i as int)[k] == bytes@[k]);
                    return Err(DecodingError::InvalidByte(bytes[i]));
                },
            }
            i = i + 1;
            assert(forall|k: int| 0 <= k < i ==> bytes@.subrange(0, i as int)[k] == bytes@[k]);
        }
        Ok(s)
    }

    /// Decodes a string as stored in a fixed field: the same as [`JisX0201::first`].
    pub fn deserialize_str(bytes: &[u8]) -> (r: Result<String, DecodingError>)
        ensures
            is_first_string(bytes@, r),
    {
        Self::first(bytes)
    }
}

/// Decoding of a container of bytes as JIS X 0201.
pub trait IteratorExt: Sized {
    /// The bytes that `self` holds, in order.
    spec fn byte_view(&self) -> Seq<u8>;

    /// A decoder over the bytes of `self`.
    fn jisx0201(self) -> (r: Decoder)
        ensures
            r.wf(),
            r.rest() == self.byte_view(),
    ;
}

impl IteratorExt for Vec<u8> {
    open spec fn byte_view(&self) -> Seq<u8> {
        self@
    }

    fn jisx0201(self) -> (r: Decoder) {
        Decoder::new(self)
    }
}

} // verus!
