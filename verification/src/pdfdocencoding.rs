//! Text strings of PDF: Unicode text to bytes and back.
//!
//! A text string is written in PDFDocEncoding where every character of it has
//! a byte there, and otherwise as UTF-16BE behind the byte-order marker
//! `FE FF`. The marker alone tells a reader which of the two it has before
//! it. Bytes without a marker that are well-formed UTF-8 are read as UTF-8,
//! for the sake of the many writers that put UTF-8 where PDFDocEncoding
//! belongs.

use vstd::prelude::*;
use vstd::slice::slice_subrange;
use vstd::utf8::decode_utf8;
use vstd::utf8::encode_utf8;
use vstd::utf8::encode_utf8_decode_utf8;
use vstd::utf8::encode_utf8_valid_utf8;
use vstd::utf8::is_ascii_chars;
use vstd::utf8::is_ascii_chars_encode_utf8;
use vstd::utf8::length_of_first_scalar;
use vstd::utf8::pop_first_scalar;
use vstd::utf8::valid_utf8;
use crate::charmap::forward_spec;
use crate::charmap::lemma_reverse_inverts_forward;
use crate::charmap::pdfdoc_to_unicode;
use crate::charmap::reverse_spec;
use crate::charmap::unicode_to_pdfdoc;
use crate::utf16::REPLACEMENT_CHARACTER;
use crate::utf16::decode_utf16be_marking;
use crate::utf16::encode_utf16be_with_bom;
use crate::utf16::lemma_decode_encode;
use crate::utf16::lemma_malformed_is_marked;
use crate::utf16::utf16be_decode;
use crate::utf16::utf16be_encode;
use crate::utf16::well_formed_utf16be;

verus! {

/// Why strict decoding refused a byte sequence.
#[derive(Clone, Copy, Debug, PartialEq, Eq)]
pub enum DecodeError {
    /// A PDFDocEncoding byte has no character: the byte 159.
    InvalidByte,
    /// The UTF-16BE text held an unpaired or truncated surrogate or a stray
    /// last byte, or decodes to text that holds a replacement character.
    InvalidUtf16,
}

impl DecodeError {
    /// A short description of the error.
    pub fn message(&self) -> (r: &'static str)
        ensures
            r@ == match *self {
                DecodeError::InvalidByte => "Invalid character in PDFDocEncoding"@,
                DecodeError::InvalidUtf16 => "Invalid UTF-16BE sequence"@,
            },
    {
        match self {
            DecodeError::InvalidByte => "Invalid character in PDFDocEncoding",
            DecodeError::InvalidUtf16 => "Invalid UTF-16BE sequence",
        }
    }
}

/// Whether `bytes` begins with the byte-order marker `FE FF`.
pub open spec fn has_marker(bytes: Seq<u8>) -> bool {
    bytes.len() >= 2 && bytes[0] == 0xFEu8 && bytes[1] == 0xFFu8
}

/// Whether every character of `s` has a byte in PDFDocEncoding.
pub open spec fn all_representable(s: Seq<char>) -> bool {
    forall|i: int| 0 <= i < s.len() ==> reverse_spec(#[trigger] s[i]) is Some
}

/// The PDFDocEncoding bytes of a text of representable characters: one byte
/// for each character, in order.
pub open spec fn pdfdoc_encode(s: Seq<char>) -> Seq<u8>
    recommends
        all_representable(s),
{
    Seq::new(s.len(), |i: int| reverse_spec(s[i])->0)
}

/// The bytes of a text string: PDFDocEncoding without a marker where the
/// whole text can be written in it, and otherwise the marker and the whole
/// text in UTF-16BE.
pub open spec fn encode_spec(s: Seq<char>) -> Seq<u8> {
    if all_representable(s) {
        pdfdoc_encode(s)
    } else {
        seq![0xFEu8, 0xFFu8] + utf16be_encode(s)
    }
}

/// The character that a PDFDocEncoding byte is read as: the undefined byte
/// becomes a replacement character.
pub open spec fn pdfdoc_decode_byte(b: u8) -> char {
    match forward_spec(b) {
        Some(c) => c,
        None => REPLACEMENT_CHARACTER,
    }
}

/// The text that PDFDocEncoding bytes are read as.
pub open spec fn pdfdoc_decode(bytes: Seq<u8>) -> Seq<char> {
    Seq::new(bytes.len(), |i: int| pdfdoc_decode_byte(bytes[i]))
}

/// The text of a text string, read leniently. In this order: behind a marker,
/// UTF-16BE; well-formed UTF-8, as UTF-8; anything else, PDFDocEncoding.
pub open spec fn decode_spec(bytes: Seq<u8>) -> Seq<char> {
    if has_marker(bytes) {
        utf16be_decode(bytes.skip(2))
    } else if valid_utf8(bytes) {
        decode_utf8(bytes)
    } else {
        pdfdoc_decode(bytes)
    }
}

/// The text of a text string, read strictly: the lenient reading, refused
/// where a replacement character stands in the decoded UTF-16BE text or
/// where the undefined byte occurs in PDFDocEncoding.
pub open spec fn decode_strict_spec(bytes: Seq<u8>) -> Result<Seq<char>, DecodeError> {
    if has_marker(bytes) {
        if utf16be_decode(bytes.skip(2)).contains(REPLACEMENT_CHARACTER) {
            Err(DecodeError::InvalidUtf16)
        } else {
            Ok(utf16be_decode(bytes.skip(2)))
        }
    } else if valid_utf8(bytes) {
        Ok(decode_utf8(bytes))
    } else if bytes.contains(159u8) {
        Err(DecodeError::InvalidByte)
    } else {
        Ok(pdfdoc_decode(bytes))
    }
}

/// Whether the whole text can be written in PDFDocEncoding.
pub fn can_use_pdfdocencoding(s: &str) -> (r: bool)
    ensures
        r == all_representable(s@),
{
    for ch in it: s.chars()
        invariant
            it.seq() == s@,
            all_representable(s@.take(it.index())),
    {
        if unicode_to_pdfdoc(ch).is_none() {
            return false;
        }
    }
    assert(s@.take(s@.len() as int) =~= s@);
    true
}

/// Encodes a text as the bytes of a PDF text string.
pub fn utf8_to_pdf_string_bytes(s: &str) -> (r: Vec<u8>)
    ensures
        r@ == encode_spec(s@),
{
    if can_use_pdfdocencoding(s) {
        let mut result: Vec<u8> = Vec::new();
        for ch in it: s.chars()
            invariant
                it.seq() == s@,
                all_representable(s@),
                result@ == pdfdoc_encode(s@.take(it.index())),
        {
            result.push(unicode_to_pdfdoc(ch).unwrap());
        }
        result
    } else {
        encode_utf16be_with_bom(s)
    }
}

/// Reads PDFDocEncoding bytes, and says whether the undefined byte occurred.
fn decode_pdfdoc_marking(bytes: &[u8]) -> (r: (String, bool))
    ensures
        r.0@ == pdfdoc_decode(bytes@),
        r.1 == bytes@.contains(159u8),
{
    let mut result = String::new();
    let mut undefined = false;
    let mut i: usize = 0;
    while i < bytes.len()
        invariant
            i <= bytes.len(),
            result@ =~= pdfdoc_decode(bytes@.take(i as int)),
            undefined == bytes@.take(i as int).contains(159u8),
        decreases bytes.len() - i,
    {
        let ghost seen = bytes@.take(i as int);
        match pdfdoc_to_unicode(bytes[i]) {
            Some(ch) => {
                result.push(ch);
            },
            None => {
                result.push(REPLACEMENT_CHARACTER);
                undefined = true;
            },
        }
        i = i + 1;
        proof {
            let now = bytes@.take(i as int);
            assert(now.contains(159u8) == (seen.contains(159u8) || bytes[i - 1] == 159u8)) by {
                if seen.contains(159u8) {
                    let k = choose|k: int| 0 <= k < seen.len() && seen[k] == 159u8;
                    assert(now[k] == 159u8);
                }
                if bytes[i - 1] == 159u8 {
                    assert(now[i - 1] == 159u8);
                }
            }
        }
    }
    assert(bytes@.take(bytes@.len() as int) =~= bytes@);
    (result, undefined)
}

/// Decodes the bytes of a PDF text string leniently: every byte sequence
/// decodes, and what has no meaning becomes a replacement character.
pub fn pdf_string_bytes_to_utf8(bytes: &[u8]) -> (r: String)
    ensures
        r@ == decode_spec(bytes@),
{
    if bytes.len() >= 2 && bytes[0] == 0xFE && bytes[1] == 0xFF {
        return decode_utf16be_marking(slice_subrange(bytes, 2, bytes.len())).0;
    }
    if let Ok(s) = core::str::from_utf8(bytes) {
        proof {
            encode_utf8_decode_utf8(s@);
        }
        return s.to_owned();
    }
    decode_pdfdoc_marking(bytes).0
}

/// Decodes the bytes of a PDF text string strictly: the text of the lenient
/// decoding, or an error where that decoding had to substitute.
pub fn pdf_string_bytes_to_utf8_strict(bytes: &[u8]) -> (r: Result<String, DecodeError>)
    ensures
        match r {
            Ok(text) => decode_strict_spec(bytes@) == Ok::<Seq<char>, DecodeError>(text@),
            Err(e) => decode_strict_spec(bytes@) == Err::<Seq<char>, DecodeError>(e),
        },
{
    if bytes.len() >= 2 && bytes[0] == 0xFE && bytes[1] == 0xFF {
        let (decoded, replaced) = decode_utf16be_marking(slice_subrange(bytes, 2, bytes.len()));
        if replaced {
            return Err(DecodeError::InvalidUtf16);
        }
        return Ok(decoded);
    }
    if let Ok(s) = core::str::from_utf8(bytes) {
        proof {
            encode_utf8_decode_utf8(s@);
        }
        return Ok(s.to_owned());
    }
    let (decoded, undefined) = decode_pdfdoc_marking(bytes);
    if undefined {
        return Err(DecodeError::InvalidByte);
    }
    Ok(decoded)
}

/// Whether a reader takes the PDFDocEncoding bytes of `s` for another
/// encoding: they begin with the marker, which is the case where the text
/// begins with U+00FE U+00FF, or they hold a byte above 127 and are
/// well-formed UTF-8 all the same.
pub open spec fn misread_as_other_encoding(s: Seq<char>) -> bool {
    has_marker(pdfdoc_encode(s)) || (!is_ascii_chars(s) && valid_utf8(pdfdoc_encode(s)))
}

/// Each PDFDocEncoding byte of a representable text decodes to the character
/// it was made from.
pub proof fn lemma_pdfdoc_decode_encode(s: Seq<char>)
    requires
        all_representable(s),
    ensures
        pdfdoc_decode(pdfdoc_encode(s)) == s,
        !pdfdoc_encode(s).contains(159u8),
{
    let bytes = pdfdoc_encode(s);
    assert forall|i: int| 0 <= i < s.len() implies pdfdoc_decode_byte(#[trigger] bytes[i]) == s[i]
        && bytes[i] != 159u8 by {
        lemma_reverse_inverts_forward(bytes[i], s[i]);
    }
}

/// The PDFDocEncoding bytes of ASCII text are its UTF-8 bytes.
proof fn lemma_pdfdoc_encode_ascii(s: Seq<char>)
    requires
        is_ascii_chars(s),
    ensures
        all_representable(s),
        pdfdoc_encode(s) == encode_utf8(s),
{
    is_ascii_chars_encode_utf8(s);
}

/// Well-formed UTF-8 decodes to at most one character for each byte, and to
/// fewer characters than bytes where a byte above 127 occurs.
proof fn lemma_decode_utf8_len(bytes: Seq<u8>)
    requires
        valid_utf8(bytes),
    ensures
        decode_utf8(bytes).len() <= bytes.len(),
        (exists|i: int| 0 <= i < bytes.len() && bytes[i] >= 0x80u8) ==> decode_utf8(bytes).len()
            < bytes.len(),
    decreases bytes.len(),
{
    if bytes.len() > 0 {
        let rest = pop_first_scalar(bytes);
        let n = length_of_first_scalar(bytes);
        lemma_decode_utf8_len(rest);
        if exists|i: int| 0 <= i < bytes.len() && bytes[i] >= 0x80u8 {
            let i = choose|i: int| 0 <= i < bytes.len() && bytes[i] >= 0x80u8;
            if n == 1 {
                assert(rest[i - 1] == bytes[i]);
            }
        }
    }
}

/// The byte of a character outside ASCII lies above 127.
proof fn lemma_byte_above_ascii(c: char)
    requires
        !('\0' <= c <= '\u{7f}'),
        reverse_spec(c) is Some,
    ensures
        reverse_spec(c)->0 >= 0x80u8,
{
}

/// The PDFDocEncoding bytes of a text begin with the marker exactly where
/// the text begins with U+00FE and U+00FF, the two characters whose bytes
/// are those of the marker.
pub proof fn lemma_marker_in_pdfdoc_bytes(s: Seq<char>)
    requires
        all_representable(s),
    ensures
        has_marker(pdfdoc_encode(s)) <==> s.len() >= 2 && s[0] == '\u{FE}' && s[1] == '\u{FF}',
{
    if s.len() >= 2 {
        lemma_reverse_inverts_forward(0xFEu8, s[0]);
        lemma_reverse_inverts_forward(0xFFu8, s[1]);
    }
}

/// A text of representable characters comes back from its own bytes, which
/// carry no marker, unless a reader takes those bytes for another encoding.
pub proof fn lemma_pdfdoc_round_trip(s: Seq<char>)
    requires
        all_representable(s),
        !misread_as_other_encoding(s),
    ensures
        !has_marker(encode_spec(s)),
        decode_spec(encode_spec(s)) == s,
{
    if is_ascii_chars(s) {
        lemma_pdfdoc_encode_ascii(s);
        encode_utf8_valid_utf8(s);
        encode_utf8_decode_utf8(s);
    } else {
        lemma_pdfdoc_decode_encode(s);
    }
}

/// A text of representable characters whose bytes a reader takes for another
/// encoding does not come back: its bytes begin with the marker, or decode to
/// another text.
pub proof fn lemma_pdfdoc_misread(s: Seq<char>)
    requires
        all_representable(s),
        misread_as_other_encoding(s),
    ensures
        has_marker(encode_spec(s)) || decode_spec(encode_spec(s)) != s,
{
    let bytes = pdfdoc_encode(s);
    if !has_marker(bytes) {
        let i = choose|i: int| 0 <= i < s.len() && !('\0' <= #[trigger] s[i] <= '\u{7f}');
        lemma_byte_above_ascii(s[i]);
        assert(bytes[i] >= 0x80u8);
        lemma_decode_utf8_len(bytes);
    }
}

/// ASCII text is written as its own bytes, and comes back from them.
pub proof fn lemma_ascii_round_trip(s: Seq<char>)
    requires
        is_ascii_chars(s),
    ensures
        encode_spec(s) == encode_utf8(s),
        encode_spec(s).len() == s.len(),
        forall|i: int| 0 <= i < s.len() ==> encode_spec(s)[i] == s[i] as u8,
        !has_marker(encode_spec(s)),
        decode_spec(encode_spec(s)) == s,
{
    lemma_pdfdoc_encode_ascii(s);
    is_ascii_chars_encode_utf8(s);
    lemma_marker_in_pdfdoc_bytes(s);
    lemma_pdfdoc_round_trip(s);
}

/// A text with a character that PDFDocEncoding lacks is written behind the
/// marker, and comes back from its bytes.
pub proof fn lemma_utf16_round_trip(s: Seq<char>)
    requires
        !all_representable(s),
    ensures
        has_marker(encode_spec(s)),
        decode_spec(encode_spec(s)) == s,
{
    let bytes = encode_spec(s);
    assert(bytes.skip(2) =~= utf16be_encode(s));
    lemma_decode_encode(s);
}

/// Strict decoding returns the text of lenient decoding or nothing: it never
/// returns another text.
pub proof fn lemma_strict_agrees_with_lenient(bytes: Seq<u8>)
    ensures
        decode_strict_spec(bytes) matches Ok(text) ==> text == decode_spec(bytes),
{
}

/// Strict decoding succeeds exactly where lenient decoding did not have to
/// substitute: behind a marker, where the decoded text holds no replacement
/// character, which rules out all malformed input; without a marker, on
/// well-formed UTF-8, and on PDFDocEncoding bytes whose decoded text holds no
/// replacement character.
pub proof fn lemma_strict_refuses_substitution(bytes: Seq<u8>)
    ensures
        decode_strict_spec(bytes) is Err <==> !(!has_marker(bytes) && valid_utf8(bytes))
            && decode_spec(bytes).contains(REPLACEMENT_CHARACTER),
        has_marker(bytes) && !well_formed_utf16be(bytes.skip(2)) ==> decode_strict_spec(bytes)
            == Err::<Seq<char>, DecodeError>(DecodeError::InvalidUtf16),
{
    if has_marker(bytes) {
        if !well_formed_utf16be(bytes.skip(2)) {
            lemma_malformed_is_marked(bytes.skip(2));
        }
    } else if !valid_utf8(bytes) {
        let text = pdfdoc_decode(bytes);
        if bytes.contains(159u8) {
            let i = choose|i: int| 0 <= i < bytes.len() && bytes[i] == 159u8;
            assert(text[i] == REPLACEMENT_CHARACTER);
        }
        if text.contains(REPLACEMENT_CHARACTER) {
            let i = choose|i: int| 0 <= i < text.len() && text[i] == REPLACEMENT_CHARACTER;
            assert(bytes[i] == 159u8);
        }
    }
}

/// Strict decoding accepts the bytes of every text that comes back from them
/// and holds no replacement character, and returns the text.
pub proof fn lemma_strict_round_trip(s: Seq<char>)
    requires
        all_representable(s) ==> !misread_as_other_encoding(s),
        !s.contains(REPLACEMENT_CHARACTER),
    ensures
        decode_strict_spec(encode_spec(s)) == Ok::<Seq<char>, DecodeError>(s),
{
    if all_representable(s) {
        lemma_pdfdoc_round_trip(s);
        lemma_pdfdoc_decode_encode(s);
    } else {
        lemma_utf16_round_trip(s);
    }
}

} // verus!
