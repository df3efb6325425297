//! Reading and filling the interactive forms of PDF files.
//!
//! The heart of the library is the text codec of [`pdfdocencoding`]: text
//! strings of PDF are written in PDFDocEncoding ([`charmap`]) or in UTF-16BE
//! ([`utf16`]), and read back from either. Around it stands the logic of
//! forms: the objects that hold field values ([`primitive`]), the hierarchy of
//! fields and their full names ([`field`]), the fields of a document as a
//! user sees them ([`api`]), the plan that fills a form ([`fill`]), and the
//! content stream that shows a text value ([`appearance`]).
//!
//! Every function is verified against a contract over the mathematical
//! model of its arguments. What the library takes on trust of the standard
//! library stands in [`std_specs`].

pub mod api;
pub mod appearance;
pub mod charmap;
pub mod error;
pub mod field;
pub mod fill;
pub mod pdfdocencoding;
pub mod primitive;
pub mod std_specs;
pub mod utf16;

pub use api::AcroFormDocument;
pub use api::FieldValue;
pub use api::FormField;
pub use error::PdfError;
pub use field::FieldDictionaryExt;
pub use field::FieldType;
pub use field::InteractiveFormDictionaryExt;
