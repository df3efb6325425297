//! The PDF objects that the form logic reads.

use vstd::prelude::*;
use crate::pdfdocencoding::decode_spec;
use crate::pdfdocencoding::decode_strict_spec;
use crate::pdfdocencoding::pdf_string_bytes_to_utf8;
use crate::pdfdocencoding::pdf_string_bytes_to_utf8_strict;
use crate::pdfdocencoding::DecodeError;

verus! {

/// A reference to an object of a PDF file, by the object's number.
#[derive(Clone, Copy, Debug, PartialEq, Eq, Structural)]
pub struct PlainRef {
    pub id: u64,
}

/// A string object of a PDF file: bytes, which stand for text where the file
/// uses the string as a text string.
#[derive(Debug, PartialEq, Eq)]
pub struct PdfString {
    pub data: Vec<u8>,
}

impl View for PdfString {
    type V = Seq<u8>;

    open spec fn view(&self) -> Seq<u8> {
        self.data@
    }
}

impl Clone for PdfString {
    fn clone(&self) -> (r: Self)
        ensures
            r@ == self@,
    {
        PdfString { data: self.data.clone() }
    }
}

impl PdfString {
    /// A string object of the given bytes.
    pub fn new(data: Vec<u8>) -> (r: Self)
        ensures
            r@ == data@,
    {
        PdfString { data }
    }

    /// The bytes of the string.
    pub fn as_bytes(&self) -> (r: &[u8])
        ensures
            r@ == self@,
    {
        self.data.as_slice()
    }

    /// The text of the string, read leniently.
    pub fn to_string_lossy(&self) -> (r: String)
        ensures
            r@ == decode_spec(self@),
    {
        pdf_string_bytes_to_utf8(self.data.as_slice())
    }

    /// The text of the string, read strictly.
    pub fn to_string(&self) -> (r: Result<String, DecodeError>)
        ensures
            match r {
                Ok(text) => decode_strict_spec(self@) == Ok::<Seq<char>, DecodeError>(text@),
                Err(e) => decode_strict_spec(self@) == Err::<Seq<char>, DecodeError>(e),
            },
    {
        pdf_string_bytes_to_utf8_strict(self.data.as_slice())
    }
}

/// A PDF object, as far as the form logic tells objects apart. Numbers with
/// a fraction, arrays, dictionaries, streams and references are all `Other`:
/// no field value is read from them.
#[derive(Debug, PartialEq, Eq)]
pub enum Primitive {
    Null,
    Integer(i32),
    Boolean(bool),
    String(PdfString),
    Name(String),
    Other,
}

/// What a `Primitive` holds.
pub enum PrimitiveView {
    Null,
    Integer(i32),
    Boolean(bool),
    String(Seq<u8>),
    Name(Seq<char>),
    Other,
}

impl View for Primitive {
    type V = PrimitiveView;

    open spec fn view(&self) -> PrimitiveView {
        match self {
            Primitive::Null => PrimitiveView::Null,
            Primitive::Integer(i) => PrimitiveView::Integer(*i),
            Primitive::Boolean(b) => PrimitiveView::Boolean(*b),
            Primitive::String(s) => PrimitiveView::String(s@),
            Primitive::Name(n) => PrimitiveView::Name(n@),
            Primitive::Other => PrimitiveView::Other,
        }
    }
}

impl Clone for Primitive {
    fn clone(&self) -> (r: Self)
        ensures
            r@ == self@,
    {
        match self {
            Primitive::Null => Primitive::Null,
            Primitive::Integer(i) => Primitive::Integer(*i),
            Primitive::Boolean(b) => Primitive::Boolean(*b),
            Primitive::String(s) => Primitive::String(s.clone()),
            Primitive::Name(n) => Primitive::Name(n.clone()),
            Primitive::Other => Primitive::Other,
        }
    }
}

} // verus!
