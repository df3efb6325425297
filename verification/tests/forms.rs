use acroform::api::AcroFormDocument;
use acroform::api::Annotation;
use acroform::api::FieldValue;
use acroform::error::PdfError;
use acroform::field::FieldDictionary;
use acroform::field::FieldDictionaryExt;
use acroform::field::FieldStore;
use acroform::field::FieldType;
use acroform::field::InteractiveFormDictionary;
use acroform::field::InteractiveFormDictionaryExt;
use acroform::fill::FillPlan;
use acroform::fill::ValueUpdate;
use acroform::primitive::PdfString;
use acroform::primitive::PlainRef;
use acroform::primitive::Primitive;

fn node(name: Option<&str>, parent: Option<u64>, kids: Vec<u64>, typ: Option<FieldType>) -> FieldDictionary {
    FieldDictionary {
        typ,
        name: name.map(|n| PdfString::new(n.as_bytes().to_vec())),
        parent: parent.map(|id| PlainRef { id }),
        kids: kids.into_iter().map(|id| PlainRef { id }).collect(),
        value: Primitive::Null,
        flags: 0,
    }
}

/// form[0] -> page[1] -> { name[2], group[3] -> { street[4], city[5] } }, and a second root, agree[6].
fn sample_store() -> FieldStore {
    FieldStore::new(vec![
        node(Some("form"), None, vec![1], None),
        node(Some("page"), Some(0), vec![2, 3], None),
        node(Some("name"), Some(1), vec![], Some(FieldType::Text)),
        node(None, Some(1), vec![4, 5], None),
        node(Some("street"), Some(3), vec![], Some(FieldType::Text)),
        node(Some("city"), Some(3), vec![], Some(FieldType::Choice)),
        node(Some("agree"), None, vec![], Some(FieldType::Button)),
    ])
}

fn sample_form() -> InteractiveFormDictionary {
    InteractiveFormDictionary { fields: vec![PlainRef { id: 0 }, PlainRef { id: 6 }] }
}

fn ids(refs: &[PlainRef]) -> Vec<u64> {
    refs.iter().map(|r| r.id).collect()
}

#[test]
fn test_field_value_conversion() {
    let text = FieldValue::Text("hello".to_string());
    let prim = text.to_primitive();
    let back = FieldValue::from_primitive(&prim).unwrap();
    assert_eq!(text, back);

    let int = FieldValue::Integer(42);
    let prim = int.to_primitive();
    let back = FieldValue::from_primitive(&prim).unwrap();
    assert_eq!(int, back);
}

#[test]
fn test_field_name() {
    let store = sample_store();
    let root = store.get(PlainRef { id: 0 }).unwrap();
    assert_eq!(root.get_full_name(&store), Ok("form".to_string()));
    let name = store.get(PlainRef { id: 2 }).unwrap();
    assert_eq!(name.get_full_name(&store), Ok("page.form.name".to_string()));
}

#[test]
fn field_value_conversion_of_every_kind() {
    for value in [
        FieldValue::Text("caf\u{e9} \u{1F600}".to_string()),
        FieldValue::Text(String::new()),
        FieldValue::Boolean(true),
        FieldValue::Choice("Yes".to_string()),
        FieldValue::Integer(-7),
    ] {
        let prim = value.to_primitive();
        assert_eq!(FieldValue::from_primitive(&prim), Some(value));
    }
}

#[test]
fn text_value_is_written_as_utf8_bytes() {
    let prim = FieldValue::Text("caf\u{e9}".to_string()).to_primitive();
    assert_eq!(prim, Primitive::String(PdfString::new(vec![b'c', b'a', b'f', 0xC3, 0xA9])));
    let prim = FieldValue::Choice("Off".to_string()).to_primitive();
    assert_eq!(prim, Primitive::Name("Off".to_string()));
}

#[test]
fn string_object_is_read_through_the_text_codec() {
    let marked = Primitive::String(PdfString::new(vec![0xFE, 0xFF, 0x00, b'H', 0x00, b'i']));
    assert_eq!(FieldValue::from_primitive(&marked), Some(FieldValue::Text("Hi".to_string())));
    let pdfdoc = Primitive::String(PdfString::new(vec![141, b'a', 142]));
    assert_eq!(
        FieldValue::from_primitive(&pdfdoc),
        Some(FieldValue::Text("\u{201C}a\u{201D}".to_string()))
    );
}

#[test]
fn objects_that_are_no_values() {
    assert_eq!(FieldValue::from_primitive(&Primitive::Null), None);
    assert_eq!(FieldValue::from_primitive(&Primitive::Other), None);
}

#[test]
fn pdf_string_strict_and_lossy() {
    let s = PdfString::new(vec![b'a', 159]);
    assert_eq!(s.to_string_lossy(), "a\u{FFFD}");
    assert_eq!(s.to_string(), Err(acroform::pdfdocencoding::DecodeError::InvalidByte));
    assert_eq!(s.as_bytes(), &[b'a', 159]);
    assert_eq!(PdfString::new(vec![b'o', b'k']).to_string(), Ok("ok".to_string()));
}

#[test]
fn store_resolves_by_object_number() {
    let store = sample_store();
    assert!(store.get(PlainRef { id: 6 }).is_ok());
    assert_eq!(store.get(PlainRef { id: 7 }).err(), Some(PdfError::NullRef { obj_nr: 7 }));
}

#[test]
fn full_name_lists_ancestors_nearest_first_and_skips_nameless() {
    let store = sample_store();
    let street = store.get(PlainRef { id: 4 }).unwrap();
    assert_eq!(street.get_full_name(&store), Ok("page.form.street".to_string()));
    let group = store.get(PlainRef { id: 3 }).unwrap();
    assert_eq!(group.get_full_name(&store), Ok("page.form".to_string()));
    let lone = node(None, None, vec![], None);
    assert_eq!(lone.get_full_name(&store), Ok(String::new()));
}

#[test]
fn full_name_decodes_partial_names() {
    let store = FieldStore::new(vec![
        FieldDictionary {
            typ: None,
            name: Some(PdfString::new(vec![0xFE, 0xFF, 0x04, 0x16])),
            parent: None,
            kids: vec![PlainRef { id: 1 }],
            value: Primitive::Null,
            flags: 0,
        },
        FieldDictionary {
            typ: Some(FieldType::Text),
            name: Some(PdfString::new(vec![b'n', 233])),
            parent: Some(PlainRef { id: 0 }),
            kids: vec![],
            value: Primitive::Null,
            flags: 0,
        },
    ]);
    let leaf = store.get(PlainRef { id: 1 }).unwrap();
    assert_eq!(leaf.get_full_name(&store), Ok("\u{416}.n\u{e9}".to_string()));
}

#[test]
fn full_name_fails_on_dangling_parent() {
    let store = FieldStore::new(vec![node(Some("a"), Some(9), vec![], Some(FieldType::Text))]);
    let a = store.get(PlainRef { id: 0 }).unwrap();
    assert_eq!(a.get_full_name(&store), Err(PdfError::NullRef { obj_nr: 9 }));
}

#[test]
fn full_name_fails_on_parent_cycle() {
    let store = FieldStore::new(vec![
        node(Some("a"), Some(1), vec![], Some(FieldType::Text)),
        node(Some("b"), Some(0), vec![], None),
    ]);
    let a = store.get(PlainRef { id: 0 }).unwrap();
    assert_eq!(a.get_full_name(&store), Err(PdfError::MaxDepth));
}

#[test]
fn full_name_of_the_longest_chain_a_store_can_hold() {
    let store = FieldStore::new(vec![
        node(Some("a"), Some(1), vec![], Some(FieldType::Text)),
        node(Some("b"), Some(2), vec![], None),
        node(Some("c"), None, vec![], None),
    ]);
    let a = store.get(PlainRef { id: 0 }).unwrap();
    assert_eq!(a.get_full_name(&store), Ok("b.c.a".to_string()));
}

#[test]
fn traverse_lists_terminal_descendants_in_order() {
    let store = sample_store();
    let root = store.get(PlainRef { id: 0 }).unwrap();
    assert_eq!(ids(&root.traverse_field_refs(&store).unwrap()), vec![2, 4, 5]);
    let leaf = store.get(PlainRef { id: 2 }).unwrap();
    assert_eq!(ids(&leaf.traverse_field_refs(&store).unwrap()), Vec::<u64>::new());
}

#[test]
fn traverse_lists_a_terminal_field_before_its_kids() {
    let store = FieldStore::new(vec![
        node(Some("r"), None, vec![1], None),
        node(Some("radio"), Some(0), vec![2, 3], Some(FieldType::Button)),
        node(None, Some(1), vec![], Some(FieldType::Button)),
        node(None, Some(1), vec![], None),
    ]);
    let root = store.get(PlainRef { id: 0 }).unwrap();
    assert_eq!(ids(&root.traverse_field_refs(&store).unwrap()), vec![1, 2]);
}

#[test]
fn traverse_fails_on_dangling_kid_and_on_cycle() {
    let store = FieldStore::new(vec![node(Some("r"), None, vec![5], None)]);
    let root = store.get(PlainRef { id: 0 }).unwrap();
    assert_eq!(root.traverse_field_refs(&store).err(), Some(PdfError::NullRef { obj_nr: 5 }));

    let store = FieldStore::new(vec![
        node(Some("a"), None, vec![1], None),
        node(Some("b"), Some(0), vec![0], None),
    ]);
    let a = store.get(PlainRef { id: 0 }).unwrap();
    assert_eq!(a.traverse_field_refs(&store).err(), Some(PdfError::MaxDepth));
}

#[test]
fn all_fields_walks_every_root() {
    let store = sample_store();
    assert_eq!(ids(&sample_form().all_fields(&store).unwrap()), vec![2, 4, 5, 6]);
    let empty = InteractiveFormDictionary { fields: vec![] };
    assert_eq!(ids(&empty.all_fields(&store).unwrap()), Vec::<u64>::new());
}

#[test]
fn find_field_by_name_returns_the_first_match() {
    let store = sample_store();
    let form = sample_form();
    assert_eq!(form.find_field_by_name("page.form.city", &store), Ok(Some(PlainRef { id: 5 })));
    assert_eq!(form.find_field_by_name("agree", &store), Ok(Some(PlainRef { id: 6 })));
    assert_eq!(form.find_field_by_name("form.page.city", &store), Ok(None));
    assert_eq!(form.find_field_by_name("", &store), Ok(None));

    let twice = FieldStore::new(vec![
        node(Some("x"), None, vec![], Some(FieldType::Text)),
        node(Some("x"), None, vec![], Some(FieldType::Text)),
    ]);
    let form = InteractiveFormDictionary { fields: vec![PlainRef { id: 1 }, PlainRef { id: 0 }] };
    assert_eq!(form.find_field_by_name("x", &twice), Ok(Some(PlainRef { id: 1 })));
}

#[test]
fn find_field_by_name_reports_the_first_error() {
    let store = FieldStore::new(vec![
        node(Some("a"), Some(7), vec![], Some(FieldType::Text)),
        node(Some("b"), None, vec![], Some(FieldType::Text)),
    ]);
    let form = InteractiveFormDictionary { fields: vec![PlainRef { id: 1 }, PlainRef { id: 0 }] };
    assert_eq!(form.find_field_by_name("b", &store), Ok(Some(PlainRef { id: 1 })));
    assert_eq!(form.find_field_by_name("c", &store), Err(PdfError::NullRef { obj_nr: 7 }));
}

#[test]
fn document_lists_its_form_fields() {
    let mut store = sample_store();
    store.fields[2].value = Primitive::String(PdfString::new(b"Ada".to_vec()));
    store.fields[2].flags = 2;
    store.fields[5].value = Primitive::Name("Paris".to_string());
    store.fields[6].value = Primitive::Boolean(true);
    let doc = AcroFormDocument::new(store, Some(sample_form()), vec![]);
    let fields = doc.fields().unwrap();
    let shown: Vec<(String, FieldType, Option<FieldValue>, u32)> =
        fields.iter().map(|f| (f.name.clone(), f.field_type, f.current_value.clone(), f.flags)).collect();
    assert_eq!(
        shown,
        vec![
            ("page.form.name".to_string(), FieldType::Text, Some(FieldValue::Text("Ada".to_string())), 2),
            ("page.form.street".to_string(), FieldType::Text, None, 0),
            ("page.form.city".to_string(), FieldType::Choice, Some(FieldValue::Choice("Paris".to_string())), 0),
            ("agree".to_string(), FieldType::Button, Some(FieldValue::Boolean(true)), 0),
        ]
    );
}

#[test]
fn document_without_form_has_no_fields() {
    let doc = AcroFormDocument::new(sample_store(), None, vec![]);
    assert_eq!(doc.fields().unwrap().len(), 0);
}

#[test]
fn document_reports_broken_hierarchy() {
    let store = FieldStore::new(vec![node(Some("r"), None, vec![3], None)]);
    let form = InteractiveFormDictionary { fields: vec![PlainRef { id: 0 }] };
    let doc = AcroFormDocument::new(store, Some(form), vec![]);
    assert_eq!(doc.fields().err(), Some(PdfError::NullRef { obj_nr: 3 }));
}

fn titled(reference: Option<u64>, title: &str) -> Annotation {
    Annotation {
        reference: reference.map(|id| PlainRef { id }),
        title: Some(Primitive::String(PdfString::new(title.as_bytes().to_vec()))),
    }
}

fn text(s: &str) -> FieldValue {
    FieldValue::Text(s.to_string())
}

fn update(id: u64, value: Primitive) -> ValueUpdate {
    ValueUpdate { target: PlainRef { id }, value }
}

fn utf8(s: &str) -> Primitive {
    Primitive::String(PdfString::new(s.as_bytes().to_vec()))
}

#[test]
fn fill_needs_a_form() {
    let doc = AcroFormDocument::new(sample_store(), None, vec![]);
    assert_eq!(doc.fill(&vec![]), Err(PdfError::MissingForm));
    assert_eq!(doc.fill(&vec![("agree".to_string(), FieldValue::Boolean(true))]), Err(PdfError::MissingForm));
}

#[test]
fn fill_with_no_values_plans_nothing() {
    let doc = AcroFormDocument::new(sample_store(), Some(sample_form()), vec![vec![titled(Some(2), "name")]]);
    assert_eq!(doc.fill(&vec![]), Ok(FillPlan { field_updates: vec![], annotation_updates: vec![] }));
}

#[test]
fn fill_updates_named_fields_in_the_order_of_the_values() {
    let doc = AcroFormDocument::new(sample_store(), Some(sample_form()), vec![]);
    let values = vec![
        ("agree".to_string(), FieldValue::Boolean(true)),
        ("nonexistent.field".to_string(), text("value")),
        ("page.form.city".to_string(), FieldValue::Choice("Paris".to_string())),
        ("page.form.name".to_string(), text("TEST_VALUE")),
        ("page.form.street".to_string(), FieldValue::Integer(12)),
    ];
    let plan = doc.fill(&values).unwrap();
    assert_eq!(
        plan.field_updates,
        vec![
            update(6, Primitive::Boolean(true)),
            update(5, Primitive::Name("Paris".to_string())),
            update(2, utf8("TEST_VALUE")),
            update(4, Primitive::Integer(12)),
        ]
    );
    assert_eq!(plan.annotation_updates, vec![]);
}

#[test]
fn fill_passes_over_names_that_no_field_has() {
    let doc = AcroFormDocument::new(sample_store(), Some(sample_form()), vec![]);
    let plan = doc.fill(&vec![("nonexistent.field".to_string(), text("value"))]).unwrap();
    assert_eq!(plan, FillPlan { field_updates: vec![], annotation_updates: vec![] });
}

#[test]
fn fill_updates_annotations_by_title_page_by_page() {
    let pages = vec![
        vec![titled(Some(10), "b"), titled(Some(11), "a"), titled(None, "a")],
        vec![],
        vec![
            titled(Some(12), "a"),
            Annotation { reference: Some(PlainRef { id: 13 }), title: None },
            Annotation { reference: Some(PlainRef { id: 14 }), title: Some(Primitive::Name("a".to_string())) },
            titled(Some(15), "c"),
        ],
    ];
    let doc = AcroFormDocument::new(sample_store(), Some(sample_form()), pages);
    let values = vec![("a".to_string(), text("one")), ("b".to_string(), FieldValue::Integer(2))];
    let plan = doc.fill(&values).unwrap();
    assert_eq!(plan.field_updates, vec![]);
    assert_eq!(
        plan.annotation_updates,
        vec![update(10, Primitive::Integer(2)), update(11, utf8("one")), update(12, utf8("one"))]
    );
}

#[test]
fn fill_reads_annotation_titles_through_the_text_codec() {
    let pages = vec![vec![
        Annotation {
            reference: Some(PlainRef { id: 20 }),
            title: Some(Primitive::String(PdfString::new(vec![0xFE, 0xFF, 0x04, 0x16]))),
        },
        Annotation {
            reference: Some(PlainRef { id: 21 }),
            title: Some(Primitive::String(PdfString::new(vec![b'n', 233]))),
        },
    ]];
    let doc = AcroFormDocument::new(sample_store(), Some(sample_form()), pages);
    let values = vec![("\u{416}".to_string(), text("x")), ("n\u{e9}".to_string(), text("y"))];
    let plan = doc.fill(&values).unwrap();
    assert_eq!(plan.annotation_updates, vec![update(20, utf8("x")), update(21, utf8("y"))]);
}

#[test]
fn fill_takes_the_first_value_given_for_a_title() {
    let doc = AcroFormDocument::new(sample_store(), Some(sample_form()), vec![vec![titled(Some(30), "a")]]);
    let values = vec![("a".to_string(), text("first")), ("a".to_string(), text("second"))];
    let plan = doc.fill(&values).unwrap();
    assert_eq!(plan.annotation_updates, vec![update(30, utf8("first"))]);
}

#[test]
fn fill_reports_a_broken_hierarchy() {
    let store = FieldStore::new(vec![node(Some("r"), None, vec![3], None)]);
    let form = InteractiveFormDictionary { fields: vec![PlainRef { id: 0 }] };
    let doc = AcroFormDocument::new(store, Some(form), vec![vec![titled(Some(1), "x")]]);
    assert_eq!(doc.fill(&vec![("x".to_string(), text("v"))]), Err(PdfError::NullRef { obj_nr: 3 }));
    assert!(doc.fill(&vec![]).is_ok());
}

#[test]
fn traverse_of_the_deepest_nesting_a_store_can_hold() {
    let store = FieldStore::new(vec![
        node(Some("a"), None, vec![1], None),
        node(Some("b"), Some(0), vec![2], None),
        node(Some("c"), Some(1), vec![], Some(FieldType::Text)),
    ]);
    let form = InteractiveFormDictionary { fields: vec![PlainRef { id: 0 }] };
    assert_eq!(ids(&form.all_fields(&store).unwrap()), vec![2]);
    let c = store.get(PlainRef { id: 2 }).unwrap();
    assert_eq!(c.get_full_name(&store), Ok("b.a.c".to_string()));
}

#[test]
fn dangling_reference_at_the_deepest_level_is_a_null_reference() {
    let store = FieldStore::new(vec![
        node(Some("a"), None, vec![1], None),
        node(Some("b"), Some(0), vec![9], None),
    ]);
    let form = InteractiveFormDictionary { fields: vec![PlainRef { id: 0 }] };
    assert_eq!(form.all_fields(&store).err(), Some(PdfError::NullRef { obj_nr: 9 }));

    let store = FieldStore::new(vec![
        node(Some("a"), Some(1), vec![], None),
        node(Some("b"), Some(9), vec![], None),
    ]);
    let a = store.get(PlainRef { id: 0 }).unwrap();
    assert_eq!(a.get_full_name(&store), Err(PdfError::NullRef { obj_nr: 9 }));
}

#[test]
fn field_that_is_its_own_kid_is_too_deep() {
    let store = FieldStore::new(vec![node(Some("a"), None, vec![0], Some(FieldType::Text))]);
    let form = InteractiveFormDictionary { fields: vec![PlainRef { id: 0 }] };
    assert_eq!(form.all_fields(&store).err(), Some(PdfError::MaxDepth));
    let doc = AcroFormDocument::new(store, Some(form), vec![]);
    assert_eq!(doc.fields().err(), Some(PdfError::MaxDepth));
}

#[test]
fn shared_kid_is_listed_once_for_each_way_to_it() {
    let store = FieldStore::new(vec![
        node(Some("a"), None, vec![2], None),
        node(Some("b"), None, vec![2], None),
        node(Some("c"), Some(0), vec![], Some(FieldType::Text)),
    ]);
    let form = InteractiveFormDictionary { fields: vec![PlainRef { id: 0 }, PlainRef { id: 1 }] };
    assert_eq!(ids(&form.all_fields(&store).unwrap()), vec![2, 2]);
}
