//! The PDFDocEncoding character map.
//!
//! PDFDocEncoding is the single-byte encoding of PDF text strings. Bytes
//! 0-127 are ASCII. Bytes 128-158 hold typographic characters, byte 159 is
//! undefined, and bytes 160-255 agree with the code points U+00A0-U+00FF.
//! The table is fixed by the file format: every reader and writer of PDF
//! text strings has to agree on it byte for byte.
//!
//! [`forward_spec`] is the table. [`reverse_spec`] is its inverse, and
//! [`lemma_reverse_inverts_forward`] proves that it is.

use vstd::prelude::*;

verus! {

/// The character that PDFDocEncoding assigns to a byte, or `None` for the one
/// undefined byte, 159.
pub open spec fn forward_spec(b: u8) -> Option<char> {
    match b {
        128u8 => Some('\u{2022}'),  // BULLET
        129u8 => Some('\u{2020}'),  // DAGGER
        130u8 => Some('\u{2021}'),  // DOUBLE DAGGER
        131u8 => Some('\u{2026}'),  // HORIZONTAL ELLIPSIS
        132u8 => Some('\u{2014}'),  // EM DASH
        133u8 => Some('\u{2013}'),  // EN DASH
        134u8 => Some('\u{0192}'),  // LATIN SMALL LETTER F WITH HOOK
        135u8 => Some('\u{2044}'),  // FRACTION SLASH
        136u8 => Some('\u{2039}'),  // SINGLE LEFT-POINTING ANGLE QUOTATION MARK
        137u8 => Some('\u{203A}'),  // SINGLE RIGHT-POINTING ANGLE QUOTATION MARK
        138u8 => Some('\u{2212}'),  // MINUS SIGN
        139u8 => Some('\u{2030}'),  // PER MILLE SIGN
        140u8 => Some('\u{201E}'),  // DOUBLE LOW-9 QUOTATION MARK
        141u8 => Some('\u{201C}'),  // LEFT DOUBLE QUOTATION MARK
        142u8 => Some('\u{201D}'),  // RIGHT DOUBLE QUOTATION MARK
        143u8 => Some('\u{2018}'),  // LEFT SINGLE QUOTATION MARK
        144u8 => Some('\u{2019}'),  // RIGHT SINGLE QUOTATION MARK
        145u8 => Some('\u{201A}'),  // SINGLE LOW-9 QUOTATION MARK
        146u8 => Some('\u{2122}'),  // TRADE MARK SIGN
        147u8 => Some('\u{FB01}'),  // LATIN SMALL LIGATURE FI
        148u8 => Some('\u{FB02}'),  // LATIN SMALL LIGATURE FL
        149u8 => Some('\u{0141}'),  // LATIN CAPITAL LETTER L WITH STROKE
        150u8 => Some('\u{0152}'),  // LATIN CAPITAL LIGATURE OE
        151u8 => Some('\u{0160}'),  // LATIN CAPITAL LETTER S WITH CARON
        152u8 => Some('\u{0178}'),  // LATIN CAPITAL LETTER Y WITH DIAERESIS
        153u8 => Some('\u{017D}'),  // LATIN CAPITAL LETTER Z WITH CARON
        154u8 => Some('\u{0131}'),  // LATIN SMALL LETTER DOTLESS I
        155u8 => Some('\u{0142}'),  // LATIN SMALL LETTER L WITH STROKE
        156u8 => Some('\u{0153}'),  // LATIN SMALL LIGATURE OE
        157u8 => Some('\u{0161}'),  // LATIN SMALL LETTER S WITH CARON
        158u8 => Some('\u{017E}'),  // LATIN SMALL LETTER Z WITH CARON
        159u8 => None,  // undefined
        _ => Some(b as char),  // ASCII, and U+00A0-U+00FF
    }
}

/// The byte that stands for a character in PDFDocEncoding, or `None` where
/// the character has no byte.
pub open spec fn reverse_spec(c: char) -> Option<u8> {
    if c as u32 <= 0x7F {
        Some(c as u8)
    } else if 0xA0 <= c as u32 <= 0xFF {
        Some(c as u8)
    } else {
        match c {
            '\u{2022}' => Some(128u8),
            '\u{2020}' => Some(129u8),
            '\u{2021}' => Some(130u8),
            '\u{2026}' => Some(131u8),
            '\u{2014}' => Some(132u8),
            '\u{2013}' => Some(133u8),
            '\u{0192}' => Some(134u8),
            '\u{2044}' => Some(135u8),
            '\u{2039}' => Some(136u8),
            '\u{203A}' => Some(137u8),
            '\u{2212}' => Some(138u8),
            '\u{2030}' => Some(139u8),
            '\u{201E}' => Some(140u8),
            '\u{201C}' => Some(141u8),
            '\u{201D}' => Some(142u8),
            '\u{2018}' => Some(143u8),
            '\u{2019}' => Some(144u8),
            '\u{201A}' => Some(145u8),
            '\u{2122}' => Some(146u8),
            '\u{FB01}' => Some(147u8),
            '\u{FB02}' => Some(148u8),
            '\u{0141}' => Some(149u8),
            '\u{0152}' => Some(150u8),
            '\u{0160}' => Some(151u8),
            '\u{0178}' => Some(152u8),
            '\u{017D}' => Some(153u8),
            '\u{0131}' => Some(154u8),
            '\u{0142}' => Some(155u8),
            '\u{0153}' => Some(156u8),
            '\u{0161}' => Some(157u8),
            '\u{017E}' => Some(158u8),
            _ => None,
        }
    }
}

/// `reverse_spec` is the inverse of `forward_spec`: a character has the byte
/// `b` exactly when `b` decodes to that character.
pub proof fn lemma_reverse_inverts_forward(b: u8, c: char)
    ensures
        reverse_spec(c) == Some(b) <==> forward_spec(b) == Some(c),
{
}

/// No two bytes decode to the same character.
pub proof fn lemma_forward_injective(b1: u8, b2: u8)
    requires
        forward_spec(b1) is Some,
        forward_spec(b1) == forward_spec(b2),
    ensures
        b1 == b2,
{
    lemma_reverse_inverts_forward(b1, forward_spec(b1)->0);
    lemma_reverse_inverts_forward(b2, forward_spec(b1)->0);
}

/// The undefined byte is never the encoding of a character, and the
/// replacement character U+FFFD has no byte.
pub proof fn lemma_reverse_never_undefined(c: char)
    ensures
        reverse_spec(c) != Some(159u8),
        reverse_spec('\u{FFFD}') is None,
{
}

/// Decodes one PDFDocEncoding byte.
pub fn pdfdoc_to_unicode(b: u8) -> (r: Option<char>)
    ensures
        r == forward_spec(b),
{
    match b {
        128u8 => Some('\u{2022}'),
        129u8 => Some('\u{2020}'),
        130u8 => Some('\u{2021}'),
        131u8 => Some('\u{2026}'),
        132u8 => Some('\u{2014}'),
        133u8 => Some('\u{2013}'),
        134u8 => Some('\u{0192}'),
        135u8 => Some('\u{2044}'),
        136u8 => Some('\u{2039}'),
        137u8 => Some('\u{203A}'),
        138u8 => Some('\u{2212}'),
        139u8 => Some('\u{2030}'),
        140u8 => Some('\u{201E}'),
        141u8 => Some('\u{201C}'),
        142u8 => Some('\u{201D}'),
        143u8 => Some('\u{2018}'),
        144u8 => Some('\u{2019}'),
        145u8 => Some('\u{201A}'),
        146u8 => Some('\u{2122}'),
        147u8 => Some('\u{FB01}'),
        148u8 => Some('\u{FB02}'),
        149u8 => Some('\u{0141}'),
        150u8 => Some('\u{0152}'),
        151u8 => Some('\u{0160}'),
        152u8 => Some('\u{0178}'),
        153u8 => Some('\u{017D}'),
        154u8 => Some('\u{0131}'),
        155u8 => Some('\u{0142}'),
        156u8 => Some('\u{0153}'),
        157u8 => Some('\u{0161}'),
        158u8 => Some('\u{017E}'),
        159u8 => None,
        _ => Some(b as char),
    }
}

/// Encodes one character to its PDFDocEncoding byte, if it has one.
pub fn unicode_to_pdfdoc(ch: char) -> (r: Option<u8>)
    ensures
        r == reverse_spec(ch),
        r matches Some(b) ==> forward_spec(b) == Some(ch),
        r is None ==> forall|b: u8| forward_spec(b) != Some(ch),
{
    let code_point: u32 = ch as u32;
    proof {
        assert forall|b: u8| forward_spec(b) == Some(ch) implies reverse_spec(ch) == Some(b) by {
            lemma_reverse_inverts_forward(b, ch);
        }
    }
    if code_point <= 0x7F {
        Some(code_point as u8)
    } else if 0xA0 <= code_point && code_point <= 0xFF {
        Some(code_point as u8)
    } else {
        match ch {
            '\u{2022}' => Some(128u8),
            '\u{2020}' => Some(129u8),
            '\u{2021}' => Some(130u8),
            '\u{2026}' => Some(131u8),
            '\u{2014}' => Some(132u8),
            '\u{2013}' => Some(133u8),
            '\u{0192}' => Some(134u8),
            '\u{2044}' => Some(135u8),
            '\u{2039}' => Some(136u8),
            '\u{203A}' => Some(137u8),
            '\u{2212}' => Some(138u8),
            '\u{2030}' => Some(139u8),
            '\u{201E}' => Some(140u8),
            '\u{201C}' => Some(141u8),
            '\u{201D}' => Some(142u8),
            '\u{2018}' => Some(143u8),
            '\u{2019}' => Some(144u8),
            '\u{201A}' => Some(145u8),
            '\u{2122}' => Some(146u8),
            '\u{FB01}' => Some(147u8),
            '\u{FB02}' => Some(148u8),
            '\u{0141}' => Some(149u8),
            '\u{0152}' => Some(150u8),
            '\u{0160}' => Some(151u8),
            '\u{0178}' => Some(152u8),
            '\u{017D}' => Some(153u8),
            '\u{0131}' => Some(154u8),
            '\u{0142}' => Some(155u8),
            '\u{0153}' => Some(156u8),
            '\u{0161}' => Some(157u8),
            '\u{017E}' => Some(158u8),
            _ => None,
        }
    }
}

/// The byte of the `i`-th entry of the reverse map: the bytes in increasing
/// order, without the undefined one.
pub open spec fn defined_byte(i: int) -> u8 {
    if i < 159 {
        i as u8
    } else {
        (i + 1) as u8
    }
}

/// The reverse map as a list: for each byte that has a character, in
/// increasing order of the bytes, the character's code point and the byte.
pub open spec fn reverse_map_spec() -> Seq<(u16, u8)> {
    Seq::new(255, |i: int| (forward_spec(defined_byte(i))->0 as u16, defined_byte(i)))
}

/// Builds the reverse map from the table.
pub fn build_unicode_to_pdfdoc_map() -> (map: Vec<(u16, u8)>)
    ensures
        map@ == reverse_map_spec(),
{
    let mut map: Vec<(u16, u8)> = Vec::new();
    let mut next: u16 = 0;
    while next < 256
        invariant
            next <= 256,
            map@.len() == (if next <= 159 { next as int } else { next - 1 }),
            forall|i: int| 0 <= i < map@.len() ==> map@[i] == reverse_map_spec()[i],
        decreases 256 - next,
    {
        let b: u8 = next as u8;
        if let Some(ch) = pdfdoc_to_unicode(b) {
            let code_point: u32 = ch as u32;
            map.push((code_point as u16, b));
        }
        next = next + 1;
    }
    map
}

} // verus!
