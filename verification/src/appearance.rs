//! The content of the appearance stream of a text field: the PDF operators
//! that draw the field's value.

use vstd::prelude::*;
use vstd::string::StrSliceExecFns;
use vstd::string::StringExecFns;
use vstd::utf8::encode_utf8;

verus! {

/// A character as it is written inside a literal string of a content
/// stream: the two brackets, the backslash, and carriage return, line feed
/// and tab are written behind a backslash.
pub open spec fn escape_char(c: char) -> Seq<char> {
    match c {
        '(' => seq!['\\', '('],
        ')' => seq!['\\', ')'],
        '\\' => seq!['\\', '\\'],
        '\r' => seq!['\\', 'r'],
        '\n' => seq!['\\', 'n'],
        '\t' => seq!['\\', 't'],
        _ => seq![c],
    }
}

/// A text as it is written inside a literal string: each character escaped,
/// in order.
pub open spec fn escape_spec(s: Seq<char>) -> Seq<char>
    decreases s.len(),
{
    if s.len() == 0 {
        Seq::empty()
    } else {
        escape_spec(s.drop_last()) + escape_char(s.last())
    }
}

/// Escapes a text for a literal string of a content stream.
pub fn escape_pdf_string(s: &str) -> (r: String)
    ensures
        r@ == escape_spec(s@),
{
    let mut result = String::new();
    for c in it: s.chars()
        invariant
            it.seq() == s@,
            result@ == escape_spec(s@.take(it.index())),
    {
        match c {
            '(' => {
                result.push('\\');
                result.push('(');
            },
            ')' => {
                result.push('\\');
                result.push(')');
            },
            '\\' => {
                result.push('\\');
                result.push('\\');
            },
            '\r' => {
                result.push('\\');
                result.push('r');
            },
            '\n' => {
                result.push('\\');
                result.push('n');
            },
            '\t' => {
                result.push('\\');
                result.push('t');
            },
            _ => {
                result.push(c);
            },
        }
        assert(s@.take(it.index() + 1).drop_last() =~= s@.take(it.index()));
    }
    assert(s@.take(s@.len() as int) =~= s@);
    result
}

/// The operators that draw `text` in a field of the given size: a marked
/// content section that clips to the field, selects Helvetica in the given
/// size and black, moves to the given position and shows the escaped text.
/// The numbers are given as they are to be written.
pub open spec fn text_appearance_ops(
    text: Seq<char>,
    width: Seq<char>,
    height: Seq<char>,
    x_pos: Seq<char>,
    y_pos: Seq<char>,
    font_size: Seq<char>,
) -> Seq<char> {
    "/Tx BMC\nq\n0 0 "@ + width + " "@ + height + " re\nW\nn\nBT\n/Helv "@ + font_size
        + " Tf\n0 g\n"@ + x_pos + " "@ + y_pos + " Td\n("@ + escape_spec(text)
        + ") Tj\nET\nQ\nEMC\n"@
}

/// Writes the operators that draw `text`, as the bytes of a content stream.
pub fn generate_text_appearance_ops(
    text: &str,
    width: &str,
    height: &str,
    x_pos: &str,
    y_pos: &str,
    font_size: &str,
) -> (r: Vec<u8>)
    ensures
        r@ == encode_utf8(text_appearance_ops(text@, width@, height@, x_pos@, y_pos@, font_size@)),
{
    let mut content = String::new();
    content.append("/Tx BMC\nq\n0 0 ");
    content.append(width);
    content.append(" ");
    content.append(height);
    content.append(" re\nW\nn\nBT\n/Helv ");
    content.append(font_size);
    content.append(" Tf\n0 g\n");
    content.append(x_pos);
    content.append(" ");
    content.append(y_pos);
    content.append(" Td\n(");
    let escaped = escape_pdf_string(text);
    content.append(escaped.as_str());
    content.append(") Tj\nET\nQ\nEMC\n");
    content.as_str().as_bytes_vec()
}

} // verus!
