//! Filling a form: which objects of the document get which value.
//!
//! The values are given by full field name. A value goes to the field of
//! that full name, and to every annotation whose title is that name. The
//! result is a plan: the document itself is left as it is, and whoever holds
//! the file writes the values of the plan into it.

use vstd::prelude::*;
use crate::api::to_primitive_spec;
use crate::api::AcroFormDocument;
use crate::api::Annotation;
use crate::api::FieldValue;
use crate::api::FieldValueView;
use crate::error::PdfError;
use crate::field::field_named;
use crate::field::prepend;
use crate::field::FieldStore;
use crate::field::InteractiveFormDictionary;
use crate::field::InteractiveFormDictionaryExt;
use crate::pdfdocencoding::decode_spec;
use crate::primitive::PlainRef;
use crate::primitive::Primitive;
use crate::primitive::PrimitiveView;

verus! {

/// A new value for the `V` entry of an object.
#[derive(Debug, PartialEq, Eq)]
pub struct ValueUpdate {
    pub target: PlainRef,
    pub value: Primitive,
}

impl View for ValueUpdate {
    type V = (PlainRef, PrimitiveView);

    open spec fn view(&self) -> (PlainRef, PrimitiveView) {
        (self.target, self.value@)
    }
}

/// The updates that fill a form: those of field dictionaries, then those of
/// annotations, each list in the order in which the updates are to be made.
#[derive(Debug, PartialEq, Eq)]
pub struct FillPlan {
    pub field_updates: Vec<ValueUpdate>,
    pub annotation_updates: Vec<ValueUpdate>,
}

/// What a list of updates holds.
pub open spec fn update_views(updates: Seq<ValueUpdate>) -> Seq<(PlainRef, PrimitiveView)> {
    updates.map_values(|u: ValueUpdate| u@)
}

/// What a list of named values holds.
pub open spec fn value_views(values: Seq<(String, FieldValue)>) -> Seq<
    (Seq<char>, FieldValueView),
> {
    values.map_values(|v: (String, FieldValue)| (v.0@, v.1@))
}

/// The value given for `name`: that of the first entry with this name.
pub open spec fn value_for(values: Seq<(Seq<char>, FieldValueView)>, name: Seq<char>) -> Option<
    FieldValueView,
>
    decreases values.len(),
{
    if values.len() == 0 {
        None
    } else if values[0].0 == name {
        Some(values[0].1)
    } else {
        value_for(values.drop_first(), name)
    }
}

/// The updates of field dictionaries: for each named value in order, where
/// the form has a field of that full name, the value for that field. A name
/// that cannot be looked up is an error.
pub open spec fn field_updates_spec(
    store: &FieldStore,
    form: &InteractiveFormDictionary,
    values: Seq<(Seq<char>, FieldValueView)>,
) -> Result<Seq<(PlainRef, PrimitiveView)>, PdfError>
    decreases values.len(),
{
    if values.len() == 0 {
        Ok(Seq::empty())
    } else {
        match field_named(store, form, values[0].0) {
            Err(e) => Err(e),
            Ok(None) => field_updates_spec(store, form, values.drop_first()),
            Ok(Some(r)) => prepend(
                seq![(r, to_primitive_spec(values[0].1))],
                field_updates_spec(store, form, values.drop_first()),
            ),
        }
    }
}

/// The update of one annotation: where its title is a string, a value is
/// given for the text of that string, and the annotation has a reference,
/// that value for the annotation.
pub open spec fn annotation_update(
    annotation: &Annotation,
    values: Seq<(Seq<char>, FieldValueView)>,
) -> Seq<(PlainRef, PrimitiveView)> {
    match (annotation.title, annotation.reference) {
        (Some(Primitive::String(title)), Some(r)) => match value_for(values, decode_spec(title@)) {
            Some(value) => seq![(r, to_primitive_spec(value))],
            None => Seq::empty(),
        },
        _ => Seq::empty(),
    }
}

/// The updates of the annotations of one page, in the order of the
/// annotations.
pub open spec fn page_updates(
    annotations: Seq<Annotation>,
    values: Seq<(Seq<char>, FieldValueView)>,
) -> Seq<(PlainRef, PrimitiveView)>
    decreases annotations.len(),
{
    if annotations.len() == 0 {
        Seq::empty()
    } else {
        page_updates(annotations.drop_last(), values) + annotation_update(
            &annotations.last(),
            values,
        )
    }
}

/// The updates of the annotations of all pages, page by page.
pub open spec fn annotation_updates_spec(
    pages: Seq<Vec<Annotation>>,
    values: Seq<(Seq<char>, FieldValueView)>,
) -> Seq<(PlainRef, PrimitiveView)>
    decreases pages.len(),
{
    if pages.len() == 0 {
        Seq::empty()
    } else {
        annotation_updates_spec(pages.drop_last(), values) + page_updates(pages.last()@, values)
    }
}

/// Looks up the value given for `name`.
fn find_value<'a>(values: &'a Vec<(String, FieldValue)>, name: &String) -> (r: Option<
    &'a FieldValue,
>)
    ensures
        match r {
            Some(value) => value_for(value_views(values@), name@) == Some(value@),
            None => value_for(value_views(values@), name@) is None,
        },
{
    let mut i: usize = 0;
    assert(value_views(values@).skip(0) =~= value_views(values@));
    while i < values.len()
        invariant
            i <= values.len(),
            value_for(value_views(values@), name@) == value_for(
                value_views(values@).skip(i as int),
                name@,
            ),
        decreases values.len() - i,
    {
        let ghost rest = value_views(values@).skip(i as int);
        assert(rest.drop_first() =~= value_views(values@).skip(i + 1));
        if values[i].0 == *name {
            return Some(&values[i].1);
        }
        i = i + 1;
    }
    None
}

impl AcroFormDocument {
    /// The plan that fills the form of the document with the given values:
    /// the updates of its fields, where the document has a form, and of its
    /// annotations.
    pub open spec fn fill_spec(&self, values: Seq<(Seq<char>, FieldValueView)>) -> Result<
        (Seq<(PlainRef, PrimitiveView)>, Seq<(PlainRef, PrimitiveView)>),
        PdfError,
    > {
        match self.forms {
            None => Err(PdfError::MissingForm),
            Some(form) => match field_updates_spec(&self.store, &form, values) {
                Err(e) => Err(e),
                Ok(field_updates) => Ok(
                    (field_updates, annotation_updates_spec(self.pages@, values)),
                ),
            },
        }
    }

    /// Plans how to fill the form with the given values, each named by the
    /// full name of its field. A document without a form cannot be filled;
    /// a name that no field has is passed over.
    pub fn fill(&self, values: &Vec<(String, FieldValue)>) -> (r: Result<FillPlan, PdfError>)
        ensures
            match r {
                Ok(plan) => self.fill_spec(value_views(values@)) == Ok::<
                    (Seq<(PlainRef, PrimitiveView)>, Seq<(PlainRef, PrimitiveView)>),
                    PdfError,
                >((update_views(plan.field_updates@), update_views(plan.annotation_updates@))),
                Err(e) => self.fill_spec(value_views(values@)) == Err::<
                    (Seq<(PlainRef, PrimitiveView)>, Seq<(PlainRef, PrimitiveView)>),
                    PdfError,
                >(e),
            },
    {
        let form = match &self.forms {
            Some(form) => form,
            None => {
                return Err(PdfError::MissingForm);
            },
        };
        let ghost named = value_views(values@);
        let mut field_updates: Vec<ValueUpdate> = Vec::new();
        let mut i: usize = 0;
        assert(named.skip(0) =~= named);
        while i < values.len()
            invariant
                i <= values.len(),
                named == value_views(values@),
                self.forms == Some(*form),
                field_updates_spec(&self.store, form, named) == prepend(
                    update_views(field_updates@),
                    field_updates_spec(&self.store, form, named.skip(i as int)),
                ),
            decreases values.len() - i,
        {
            let ghost before = update_views(field_updates@);
            let ghost rest = named.skip(i as int);
            assert(rest.drop_first() =~= named.skip(i + 1));
            let found = match form.find_field_by_name(values[i].0.as_str(), &self.store) {
                Ok(found) => found,
                Err(e) => {
                    return Err(e);
                },
            };
            if let Some(target) = found {
                field_updates.push(ValueUpdate { target, value: values[i].1.to_primitive() });
                proof {
                    let made = (target, to_primitive_spec(values@[i as int].1@));
                    assert(update_views(field_updates@) =~= before + seq![made]);
                    if let Ok(t) = field_updates_spec(&self.store, form, named.skip(i + 1)) {
                        assert(before + (seq![made] + t) =~= (before + seq![made]) + t);
                    }
                }
            }
            i = i + 1;
        }

        let mut annotation_updates: Vec<ValueUpdate> = Vec::new();
        let mut p: usize = 0;
        while p < self.pages.len()
            invariant
                p <= self.pages.len(),
                named == value_views(values@),
                update_views(annotation_updates@) == annotation_updates_spec(
                    self.pages@.take(p as int),
                    named,
                ),
            decreases self.pages.len() - p,
        {
            let page = &self.pages[p];
            let ghost done = update_views(annotation_updates@);
            let mut a: usize = 0;
            while a < page.len()
                invariant
                    a <= page.len(),
                    named == value_views(values@),
                    update_views(annotation_updates@) == done + page_updates(
                        page@.take(a as int),
                        named,
                    ),
                decreases page.len() - a,
            {
                let annotation = &page[a];
                let ghost before = update_views(annotation_updates@);
                assert(page@.take(a + 1).drop_last() =~= page@.take(a as int));
                if let Some(Primitive::String(title)) = &annotation.title {
                    let title_text = title.to_string_lossy();
                    if let Some(value) = find_value(values, &title_text) {
                        if let Some(target) = annotation.reference {
                            annotation_updates.push(
                                ValueUpdate { target, value: value.to_primitive() },
                            );
                            proof {
                                let made = (target, to_primitive_spec(value@));
                                assert(update_views(annotation_updates@) =~= before + seq![made]);
                            }
                        }
                    }
                }
                a = a + 1;
            }
            proof {
                assert(page@.take(page@.len() as int) =~= page@);
                assert(self.pages@.take(p + 1).drop_last() =~= self.pages@.take(p as int));
            }
            p = p + 1;
        }
        assert(self.pages@.take(self.pages@.len() as int) =~= self.pages@);
        Ok(FillPlan { field_updates, annotation_updates })
    }
}

} // verus!
