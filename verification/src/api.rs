//! Form fields and their values.

use vstd::prelude::*;
use vstd::string::StrSliceExecFns;
use vstd::utf8::encode_utf8;
use vstd::utf8::encode_utf8_decode_utf8;
use vstd::utf8::encode_utf8_first_scalar;
use vstd::utf8::encode_utf8_valid_utf8;
use crate::error::PdfError;
use crate::field::full_name;
use crate::field::lemma_terminal_fields_are_terminal;
use crate::field::prepend;
use crate::field::terminal_fields;
use crate::field::FieldDictionaryExt;
use crate::field::FieldStore;
use crate::field::FieldType;
use crate::field::InteractiveFormDictionary;
use crate::field::InteractiveFormDictionaryExt;
use crate::pdfdocencoding::decode_spec;
use crate::primitive::PdfString;
use crate::primitive::PlainRef;
use crate::primitive::Primitive;
use crate::primitive::PrimitiveView;

verus! {

/// The value of a form field.
#[derive(Debug, PartialEq)]
pub enum FieldValue {
    Text(String),
    Boolean(bool),
    Choice(String),
    Integer(i32),
}

/// What a `FieldValue` holds.
pub enum FieldValueView {
    Text(Seq<char>),
    Boolean(bool),
    Choice(Seq<char>),
    Integer(i32),
}

impl View for FieldValue {
    type V = FieldValueView;

    open spec fn view(&self) -> FieldValueView {
        match self {
            FieldValue::Text(s) => FieldValueView::Text(s@),
            FieldValue::Boolean(b) => FieldValueView::Boolean(*b),
            FieldValue::Choice(s) => FieldValueView::Choice(s@),
            FieldValue::Integer(i) => FieldValueView::Integer(*i),
        }
    }
}

impl Clone for FieldValue {
    fn clone(&self) -> (r: Self)
        ensures
            r@ == self@,
    {
        match self {
            FieldValue::Text(s) => FieldValue::Text(s.clone()),
            FieldValue::Boolean(b) => FieldValue::Boolean(*b),
            FieldValue::Choice(s) => FieldValue::Choice(s.clone()),
            FieldValue::Integer(i) => FieldValue::Integer(*i),
        }
    }
}

/// The field value that a PDF object is read as: a string as the text it
/// decodes to, a name as a choice, an integer and a boolean as themselves,
/// and nothing else as a value.
pub open spec fn from_primitive_spec(prim: PrimitiveView) -> Option<FieldValueView> {
    match prim {
        PrimitiveView::String(bytes) => Some(FieldValueView::Text(decode_spec(bytes))),
        PrimitiveView::Integer(i) => Some(FieldValueView::Integer(i)),
        PrimitiveView::Name(n) => Some(FieldValueView::Choice(n)),
        PrimitiveView::Boolean(b) => Some(FieldValueView::Boolean(b)),
        _ => None,
    }
}

/// The PDF object that a field value is written as: text as a string of its
/// UTF-8 bytes, a choice as a name.
pub open spec fn to_primitive_spec(value: FieldValueView) -> PrimitiveView {
    match value {
        FieldValueView::Text(s) => PrimitiveView::String(encode_utf8(s)),
        FieldValueView::Integer(i) => PrimitiveView::Integer(i),
        FieldValueView::Choice(s) => PrimitiveView::Name(s),
        FieldValueView::Boolean(b) => PrimitiveView::Boolean(b),
    }
}

/// A field value that is written as a PDF object is read back from it.
pub proof fn lemma_field_value_round_trip(value: FieldValueView)
    ensures
        from_primitive_spec(to_primitive_spec(value)) == Some(value),
{
    if let FieldValueView::Text(s) = value {
        encode_utf8_valid_utf8(s);
        encode_utf8_decode_utf8(s);
        if s.len() > 0 {
            encode_utf8_first_scalar(s);
        }
    }
}

impl FieldValue {
    /// Reads a field value from a PDF object.
    pub fn from_primitive(prim: &Primitive) -> (r: Option<Self>)
        ensures
            match r {
                Some(value) => from_primitive_spec(prim@) == Some(value@),
                None => from_primitive_spec(prim@) is None,
            },
    {
        match prim {
            Primitive::String(s) => Some(FieldValue::Text(s.to_string_lossy())),
            Primitive::Integer(i) => Some(FieldValue::Integer(*i)),
            Primitive::Name(n) => Some(FieldValue::Choice(n.clone())),
            Primitive::Boolean(b) => Some(FieldValue::Boolean(*b)),
            _ => None,
        }
    }

    /// Writes the field value as a PDF object.
    pub fn to_primitive(&self) -> (r: Primitive)
        ensures
            r@ == to_primitive_spec(self@),
    {
        match self {
            FieldValue::Text(s) => Primitive::String(PdfString::new(s.as_str().as_bytes_vec())),
            FieldValue::Integer(i) => Primitive::Integer(*i),
            FieldValue::Choice(s) => Primitive::Name(s.clone()),
            FieldValue::Boolean(b) => Primitive::Boolean(*b),
        }
    }
}

/// A terminal field of a form, as a user of the form sees it.
#[derive(Debug)]
pub struct FormField {
    pub name: String,
    pub field_type: FieldType,
    pub current_value: Option<FieldValue>,
    pub flags: u32,
}

/// What a `FormField` holds.
pub struct FormFieldView {
    pub name: Seq<char>,
    pub field_type: FieldType,
    pub current_value: Option<FieldValueView>,
    pub flags: u32,
}

impl View for FormField {
    type V = FormFieldView;

    open spec fn view(&self) -> FormFieldView {
        FormFieldView {
            name: self.name@,
            field_type: self.field_type,
            current_value: match self.current_value {
                Some(value) => Some(value@),
                None => None,
            },
            flags: self.flags,
        }
    }
}

impl Clone for FormField {
    fn clone(&self) -> (r: Self)
        ensures
            r@ == self@,
    {
        FormField {
            name: self.name.clone(),
            field_type: self.field_type,
            current_value: match &self.current_value {
                Some(value) => Some(value.clone()),
                None => None,
            },
            flags: self.flags,
        }
    }
}

/// What a list of form fields holds.
pub open spec fn form_field_views(fields: Seq<FormField>) -> Seq<FormFieldView> {
    fields.map_values(|f: FormField| f@)
}

/// The terminal field at `r` as a form field: its full name, its type, the
/// value read from its value object, and its flags.
pub open spec fn form_field_of(store: &FieldStore, r: PlainRef) -> Result<FormFieldView, PdfError>
    recommends
        store.resolves(r),
        store.field(r).typ is Some,
{
    match full_name(store, &store.field(r)) {
        Err(e) => Err(e),
        Ok(name) => Ok(
            FormFieldView {
                name,
                field_type: store.field(r).typ->0,
                current_value: from_primitive_spec(store.field(r).value@),
                flags: store.field(r).flags,
            },
        ),
    }
}

/// The terminal fields at `refs` as form fields, in order. The first full
/// name that cannot be made is an error.
pub open spec fn form_fields_of(store: &FieldStore, refs: Seq<PlainRef>) -> Result<
    Seq<FormFieldView>,
    PdfError,
>
    decreases refs.len(),
{
    if refs.len() == 0 {
        Ok(Seq::empty())
    } else {
        match form_field_of(store, refs[0]) {
            Err(e) => Err(e),
            Ok(field) => prepend(seq![field], form_fields_of(store, refs.drop_first())),
        }
    }
}

/// An annotation of a page, as far as filling a form reads it.
#[derive(Debug)]
pub struct Annotation {
    /// The reference of the annotation, or `None` where it is written into
    /// the page directly.
    pub reference: Option<PlainRef>,
    /// The `T` entry of the annotation: the partial name of the field that
    /// the annotation shows.
    pub title: Option<Primitive>,
}

/// A document with an interactive form: its field dictionaries, the form
/// dictionary of its catalog, if it has one, and the annotations of its
/// pages, page by page.
#[derive(Debug)]
pub struct AcroFormDocument {
    pub store: FieldStore,
    pub forms: Option<InteractiveFormDictionary>,
    pub pages: Vec<Vec<Annotation>>,
}

impl AcroFormDocument {
    /// The form fields of the document: none where it has no form, and
    /// otherwise the terminal fields of the form, each before its
    /// descendants.
    pub open spec fn fields_spec(&self) -> Result<Seq<FormFieldView>, PdfError> {
        match self.forms {
            None => Ok(Seq::empty()),
            Some(forms) => match terminal_fields(
                &self.store,
                forms.fields@,
                self.store.depth_limit(),
            ) {
                Err(e) => Err(e),
                Ok(all) => form_fields_of(&self.store, all),
            },
        }
    }

    /// A document of the given field dictionaries, form and pages.
    pub fn new(
        store: FieldStore,
        forms: Option<InteractiveFormDictionary>,
        pages: Vec<Vec<Annotation>>,
    ) -> (r: Self)
        ensures
            r.store == store,
            r.forms == forms,
            r.pages == pages,
    {
        AcroFormDocument { store, forms, pages }
    }

    /// Lists the form fields of the document.
    pub fn fields(&self) -> (r: Result<Vec<FormField>, PdfError>)
        ensures
            match r {
                Ok(found) => self.fields_spec() == Ok::<Seq<FormFieldView>, PdfError>(
                    form_field_views(found@),
                ),
                Err(e) => self.fields_spec() == Err::<Seq<FormFieldView>, PdfError>(e),
            },
    {
        let mut result: Vec<FormField> = Vec::new();
        assert(form_field_views(result@) =~= Seq::<FormFieldView>::empty());
        if let Some(forms) = &self.forms {
            let all = match forms.all_fields(&self.store) {
                Ok(all) => all,
                Err(e) => {
                    return Err(e);
                },
            };
            proof {
                lemma_terminal_fields_are_terminal(
                    &self.store,
                    forms.fields@,
                    self.store.depth_limit(),
                );
                assert(all@.skip(0) =~= all@);
            }
            let mut i: usize = 0;
            while i < all.len()
                invariant
                    i <= all.len(),
                    forall|k: int|
                        0 <= k < all@.len() ==> self.store.resolves(#[trigger] all@[k])
                            && self.store.field(all@[k]).typ is Some,
                    self.fields_spec() == prepend(
                        form_field_views(result@),
                        form_fields_of(&self.store, all@.skip(i as int)),
                    ),
                decreases all.len() - i,
            {
                let ghost before = form_field_views(result@);
                let ghost rest = all@.skip(i as int);
                assert(rest.drop_first() =~= all@.skip(i + 1));
                let field = match self.store.get(all[i]) {
                    Ok(field) => field,
                    Err(e) => {
                        return Err(e);
                    },
                };
                if let Some(field_type) = field.typ {
                    let name = match field.get_full_name(&self.store) {
                        Ok(name) => name,
                        Err(e) => {
                            return Err(e);
                        },
                    };
                    let current_value = FieldValue::from_primitive(&field.value);
                    result.push(FormField { name, field_type, current_value, flags: field.flags });
                    proof {
                        let made = form_field_of(&self.store, all@[i as int])->Ok_0;
                        assert(form_field_views(result@) =~= before + seq![made]);
                        if let Ok(t) = form_fields_of(&self.store, all@.skip(i + 1)) {
                            assert(before + (seq![made] + t) =~= (before + seq![made]) + t);
                        }
                    }
                }
                i = i + 1;
            }
        }
        Ok(result)
    }
}

} // verus!
