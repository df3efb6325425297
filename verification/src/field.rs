//! The hierarchy of form fields.
//!
//! The fields of an interactive form make a forest. A field names its parent
//! and its kids by reference, and a `FieldStore` resolves the references. A
//! field with a type is a terminal field: one that a user fills in. The full
//! name of a field is made of its own partial name and those of its
//! ancestors.

use vstd::prelude::*;
use vstd::set_lib::lemma_int_range;
use vstd::set_lib::lemma_len_subset;
use vstd::set_lib::set_int_range;
use vstd::string::StringExecFns;
use crate::error::PdfError;
use crate::pdfdocencoding::decode_spec;
use crate::primitive::PdfString;
use crate::primitive::PlainRef;
use crate::primitive::Primitive;

verus! {

/// The type of a terminal field.
#[derive(Clone, Copy, Debug, PartialEq, Eq, Structural)]
pub enum FieldType {
    Button,
    Text,
    Choice,
    Signature,
    SignatureReference,
}

/// A field dictionary: what a PDF file records of one field.
#[derive(Debug)]
pub struct FieldDictionary {
    pub typ: Option<FieldType>,
    pub name: Option<PdfString>,
    pub parent: Option<PlainRef>,
    pub kids: Vec<PlainRef>,
    pub value: Primitive,
    pub flags: u32,
}

/// The field dictionaries of a document. A reference resolves to the
/// dictionary at the index that is the reference's object number.
#[derive(Debug)]
pub struct FieldStore {
    pub fields: Vec<FieldDictionary>,
}

impl FieldStore {
    /// Whether the store holds the object that `r` names.
    pub open spec fn resolves(&self, r: PlainRef) -> bool {
        r.id < self.fields@.len()
    }

    /// The field dictionary that `r` names.
    pub open spec fn field(&self, r: PlainRef) -> FieldDictionary
        recommends
            self.resolves(r),
    {
        self.fields@[r.id as int]
    }

    /// How deep the fields of the store can be nested without a field being
    /// its own ancestor: the number of fields.
    pub open spec fn depth_limit(&self) -> nat {
        self.fields@.len()
    }

    /// A store of the given field dictionaries.
    pub fn new(fields: Vec<FieldDictionary>) -> (r: Self)
        ensures
            r.fields == fields,
    {
        FieldStore { fields }
    }

    /// Resolves a reference.
    pub fn get(&self, r: PlainRef) -> (res: Result<&FieldDictionary, PdfError>)
        ensures
            match res {
                Ok(f) => self.resolves(r) && *f == self.field(r),
                Err(e) => !self.resolves(r) && e == (PdfError::NullRef { obj_nr: r.id }),
            },
    {
        if r.id < self.fields.len() as u64 {
            Ok(&self.fields[r.id as usize])
        } else {
            Err(PdfError::NullRef { obj_nr: r.id })
        }
    }
}

/// The ancestors of a field whose parent is `start`, nearest first: the
/// references met by following `parent` until a field has none. A reference
/// that does not resolve is an error, and so is a chain of more than `limit`
/// ancestors.
pub open spec fn ancestors(store: &FieldStore, start: Option<PlainRef>, limit: nat) -> Result<
    Seq<PlainRef>,
    PdfError,
>
    decreases limit,
{
    match start {
        None => Ok(Seq::empty()),
        Some(r) => if !store.resolves(r) {
            Err(PdfError::NullRef { obj_nr: r.id })
        } else if limit == 0 {
            Err(PdfError::MaxDepth)
        } else {
            match ancestors(store, store.field(r).parent, (limit - 1) as nat) {
                Ok(rest) => Ok(seq![r] + rest),
                Err(e) => Err(e),
            }
        },
    }
}

/// The partial name of a field as text, if it has one.
pub open spec fn partial_name(field: &FieldDictionary) -> Option<Seq<char>> {
    match field.name {
        Some(name) => Some(decode_spec(name@)),
        None => None,
    }
}

/// The partial names of the fields at `refs`, in order. A field without a
/// name contributes nothing.
pub open spec fn partial_names(store: &FieldStore, refs: Seq<PlainRef>) -> Seq<Seq<char>>
    decreases refs.len(),
{
    if refs.len() == 0 {
        Seq::empty()
    } else {
        let rest = partial_names(store, refs.drop_last());
        match partial_name(&store.field(refs.last())) {
            Some(name) => rest.push(name),
            None => rest,
        }
    }
}

/// The parts joined by full stops.
pub open spec fn join_dotted(parts: Seq<Seq<char>>) -> Seq<char>
    decreases parts.len(),
{
    if parts.len() == 0 {
        Seq::empty()
    } else if parts.len() == 1 {
        parts[0]
    } else {
        join_dotted(parts.drop_last()) + seq!['.'] + parts.last()
    }
}

/// The parts of the full name of a field: the partial names of its
/// ancestors, nearest first, and then its own.
pub open spec fn name_parts(store: &FieldStore, field: &FieldDictionary) -> Result<
    Seq<Seq<char>>,
    PdfError,
> {
    match ancestors(store, field.parent, store.depth_limit()) {
        Err(e) => Err(e),
        Ok(refs) => Ok(
            partial_names(store, refs) + match partial_name(field) {
                Some(name) => seq![name],
                None => Seq::empty(),
            },
        ),
    }
}

/// The full name of a field: its name parts joined by full stops.
pub open spec fn full_name(store: &FieldStore, field: &FieldDictionary) -> Result<
    Seq<char>,
    PdfError,
> {
    match name_parts(store, field) {
        Err(e) => Err(e),
        Ok(parts) => Ok(join_dotted(parts)),
    }
}

/// The texts of a list of strings.
pub open spec fn texts(parts: Seq<String>) -> Seq<Seq<char>> {
    parts.map_values(|s: String| s@)
}

/// Joins the parts by full stops.
pub fn join_with_dots(parts: &Vec<String>) -> (r: String)
    ensures
        r@ == join_dotted(texts(parts@)),
{
    let mut result = String::new();
    let mut i: usize = 0;
    while i < parts.len()
        invariant
            i <= parts.len(),
            result@ == join_dotted(texts(parts@).take(i as int)),
        decreases parts.len() - i,
    {
        let ghost all = texts(parts@);
        if i > 0 {
            result.push('.');
        }
        result.append(parts[i].as_str());
        proof {
            assert(all.take(i + 1).drop_last() =~= all.take(i as int));
        }
        i = i + 1;
    }
    assert(texts(parts@).take(parts@.len() as int) =~= texts(parts@));
    result
}

/// A list put before the list of a result; an error stays as it is.
pub open spec fn prepend<T>(head: Seq<T>, tail: Result<Seq<T>, PdfError>) -> Result<
    Seq<T>,
    PdfError,
> {
    match tail {
        Ok(rest) => Ok(head + rest),
        Err(e) => Err(e),
    }
}

/// The field at `r` as a list: itself where it is a terminal field, nothing
/// where it is not.
pub open spec fn if_terminal(store: &FieldStore, r: PlainRef) -> Seq<PlainRef> {
    if store.field(r).typ is Some {
        seq![r]
    } else {
        Seq::empty()
    }
}

/// The terminal fields at and below `refs`, each before its descendants and
/// the fields of one list in the order of the list. A reference that does not
/// resolve is an error, and so are fields nested more than `depth` deep; the
/// first error on the way is the result.
pub open spec fn terminal_fields(store: &FieldStore, refs: Seq<PlainRef>, depth: nat) -> Result<
    Seq<PlainRef>,
    PdfError,
>
    decreases depth, refs.len(),
{
    if refs.len() == 0 {
        Ok(Seq::empty())
    } else if !store.resolves(refs[0]) {
        Err(PdfError::NullRef { obj_nr: refs[0].id })
    } else if depth == 0 {
        Err(PdfError::MaxDepth)
    } else {
        match terminal_fields(store, store.field(refs[0]).kids@, (depth - 1) as nat) {
            Err(e) => Err(e),
            Ok(below) => prepend(
                if_terminal(store, refs[0]) + below,
                terminal_fields(store, refs.drop_first(), depth),
            ),
        }
    }
}

/// The first of the fields at `refs` whose full name is `name`. A full name
/// that cannot be made before such a field is found is an error.
pub open spec fn first_named(store: &FieldStore, refs: Seq<PlainRef>, name: Seq<char>) -> Result<
    Option<PlainRef>,
    PdfError,
>
    decreases refs.len(),
{
    if refs.len() == 0 {
        Ok(None)
    } else {
        match full_name(store, &store.field(refs[0])) {
            Err(e) => Err(e),
            Ok(found) => if found == name {
                Ok(Some(refs[0]))
            } else {
                first_named(store, refs.drop_first(), name)
            },
        }
    }
}

/// Every field that `terminal_fields` lists is a terminal field of the store.
pub proof fn lemma_terminal_fields_are_terminal(
    store: &FieldStore,
    refs: Seq<PlainRef>,
    depth: nat,
)
    ensures
        terminal_fields(store, refs, depth) matches Ok(found) ==> forall|i: int|
            0 <= i < found.len() ==> store.resolves(#[trigger] found[i]) && store.field(
                found[i],
            ).typ is Some,
    decreases depth, refs.len(),
{
    if refs.len() > 0 && store.resolves(refs[0]) && depth > 0 {
        lemma_terminal_fields_are_terminal(store, store.field(refs[0]).kids@, (depth - 1) as nat);
        lemma_terminal_fields_are_terminal(store, refs.drop_first(), depth);
    }
}

/// Collects the terminal fields at and below `refs`.
fn collect_terminal_fields(store: &FieldStore, refs: &Vec<PlainRef>, depth: usize) -> (r: Result<
    Vec<PlainRef>,
    PdfError,
>)
    ensures
        match r {
            Ok(found) => terminal_fields(store, refs@, depth as nat) == Ok::<
                Seq<PlainRef>,
                PdfError,
            >(found@),
            Err(e) => terminal_fields(store, refs@, depth as nat) == Err::<Seq<PlainRef>, PdfError>(
                e,
            ),
        },
    decreases depth, refs@.len(),
{
    let mut result: Vec<PlainRef> = Vec::new();
    let mut i: usize = 0;
    assert(refs@.skip(0) =~= refs@);
    while i < refs.len()
        invariant
            i <= refs.len(),
            terminal_fields(store, refs@, depth as nat) == prepend(
                result@,
                terminal_fields(store, refs@.skip(i as int), depth as nat),
            ),
        decreases refs.len() - i,
    {
        let ghost rest = refs@.skip(i as int);
        let ghost before = result@;
        assert(rest.drop_first() =~= refs@.skip(i + 1));
        let field = match store.get(refs[i]) {
            Ok(field) => field,
            Err(e) => {
                return Err(e);
            },
        };
        if depth == 0 {
            return Err(PdfError::MaxDepth);
        }
        if field.typ.is_some() {
            result.push(refs[i]);
        }
        let mut below = match collect_terminal_fields(store, &field.kids, depth - 1) {
            Ok(below) => below,
            Err(e) => {
                return Err(e);
            },
        };
        let ghost head = if_terminal(store, refs@[i as int]) + below@;
        result.append(&mut below);
        proof {
            let tail = terminal_fields(store, refs@.skip(i + 1), depth as nat);
            assert(result@ =~= before + head);
            if let Ok(t) = tail {
                assert(before + (head + t) =~= (before + head) + t);
            }
        }
        i = i + 1;
    }
    Ok(result)
}

/// What the form logic adds to a field dictionary.
pub trait FieldDictionaryExt {
    /// The full name of the field.
    fn get_full_name(&self, resolver: &FieldStore) -> Result<String, PdfError>;

    /// The terminal fields below the field.
    fn traverse_field_refs(&self, resolver: &FieldStore) -> Result<Vec<PlainRef>, PdfError>;
}

impl FieldDictionaryExt for FieldDictionary {
    /// The full name of the field: the partial names of its ancestors,
    /// nearest first, then its own, joined by full stops.
    fn get_full_name(&self, resolver: &FieldStore) -> (r: Result<String, PdfError>)
        ensures
            match r {
                Ok(name) => full_name(resolver, self) == Ok::<Seq<char>, PdfError>(name@),
                Err(e) => full_name(resolver, self) == Err::<Seq<char>, PdfError>(e),
            },
    {
        let mut parts: Vec<String> = Vec::new();
        let mut current: Option<PlainRef> = self.parent;
        let mut remaining: usize = resolver.fields.len();
        let ghost mut seen: Seq<PlainRef> = Seq::empty();
        while current.is_some()
            invariant
                ancestors(resolver, self.parent, resolver.depth_limit()) == prepend(
                    seen,
                    ancestors(resolver, current, remaining as nat),
                ),
                texts(parts@) == partial_names(resolver, seen),
            decreases remaining,
        {
            let r = current.unwrap();
            let parent = match resolver.get(r) {
                Ok(parent) => parent,
                Err(e) => {
                    return Err(e);
                },
            };
            if remaining == 0 {
                return Err(PdfError::MaxDepth);
            }
            if let Some(name) = &parent.name {
                parts.push(name.to_string_lossy());
            }
            proof {
                let up = ancestors(resolver, parent.parent, (remaining - 1) as nat);
                if let Ok(rest) = up {
                    assert(seen + (seq![r] + rest) =~= seen.push(r) + rest);
                }
                assert(seen.push(r).drop_last() =~= seen);
                seen = seen.push(r);
            }
            current = parent.parent;
            remaining = remaining - 1;
        }
        let ghost parts_before = parts@;
        if let Some(name) = &self.name {
            parts.push(name.to_string_lossy());
            assert(texts(parts@) =~= texts(parts_before) + seq![parts@.last()@]);
        }
        Ok(join_with_dots(&parts))
    }

    /// The terminal fields below the field, each before its descendants.
    fn traverse_field_refs(&self, resolver: &FieldStore) -> (r: Result<Vec<PlainRef>, PdfError>)
        ensures
            match r {
                Ok(found) => terminal_fields(resolver, self.kids@, resolver.depth_limit()) == Ok::<
                    Seq<PlainRef>,
                    PdfError,
                >(found@),
                Err(e) => terminal_fields(resolver, self.kids@, resolver.depth_limit()) == Err::<
                    Seq<PlainRef>,
                    PdfError,
                >(e),
            },
    {
        collect_terminal_fields(resolver, &self.kids, resolver.fields.len())
    }
}

/// The interactive form of a document: its root fields.
#[derive(Debug)]
pub struct InteractiveFormDictionary {
    pub fields: Vec<PlainRef>,
}

/// The fields of a form that have the full name `name`: the first of them
/// among the terminal fields of the form.
pub open spec fn field_named(
    store: &FieldStore,
    form: &InteractiveFormDictionary,
    name: Seq<char>,
) -> Result<Option<PlainRef>, PdfError> {
    match terminal_fields(store, form.fields@, store.depth_limit()) {
        Err(e) => Err(e),
        Ok(all) => first_named(store, all, name),
    }
}

/// The field that `first_named` finds is one of `refs` and has the name.
pub proof fn lemma_first_named_has_name(store: &FieldStore, refs: Seq<PlainRef>, name: Seq<char>)
    ensures
        first_named(store, refs, name) matches Ok(Some(r)) ==> refs.contains(r) && full_name(
            store,
            &store.field(r),
        ) == Ok::<Seq<char>, PdfError>(name),
    decreases refs.len(),
{
    if refs.len() > 0 {
        let rest = refs.drop_first();
        lemma_first_named_has_name(store, rest, name);
        assert(refs.contains(refs[0]));
        if let Ok(Some(r)) = first_named(store, rest, name) {
            let k = choose|k: int| 0 <= k < rest.len() && rest[k] == r;
            assert(refs[k + 1] == r);
        }
    }
}

/// The field that a form has for a name is a terminal field of the store
/// with that full name.
pub proof fn lemma_named_field_has_name(
    store: &FieldStore,
    form: &InteractiveFormDictionary,
    name: Seq<char>,
)
    ensures
        field_named(store, form, name) matches Ok(Some(r)) ==> store.resolves(r) && store.field(
            r,
        ).typ is Some && full_name(store, &store.field(r)) == Ok::<Seq<char>, PdfError>(name),
{
    if let Ok(all) = terminal_fields(store, form.fields@, store.depth_limit()) {
        lemma_terminal_fields_are_terminal(store, form.fields@, store.depth_limit());
        lemma_first_named_has_name(store, all, name);
    }
}

/// What the form logic adds to the interactive form dictionary.
pub trait InteractiveFormDictionaryExt {
    /// All terminal fields of the form.
    fn all_fields(&self, resolver: &FieldStore) -> Result<Vec<PlainRef>, PdfError>;

    /// The terminal field with the given full name.
    fn find_field_by_name(&self, name: &str, resolver: &FieldStore) -> Result<
        Option<PlainRef>,
        PdfError,
    >;
}

impl InteractiveFormDictionaryExt for InteractiveFormDictionary {
    /// All terminal fields of the form, each before its descendants.
    fn all_fields(&self, resolver: &FieldStore) -> (r: Result<Vec<PlainRef>, PdfError>)
        ensures
            match r {
                Ok(found) => terminal_fields(resolver, self.fields@, resolver.depth_limit())
                    == Ok::<Seq<PlainRef>, PdfError>(found@),
                Err(e) => terminal_fields(resolver, self.fields@, resolver.depth_limit()) == Err::<
                    Seq<PlainRef>,
                    PdfError,
                >(e),
            },
    {
        collect_terminal_fields(resolver, &self.fields, resolver.fields.len())
    }

    /// The first terminal field of the form whose full name is `name`.
    fn find_field_by_name(&self, name: &str, resolver: &FieldStore) -> (r: Result<
        Option<PlainRef>,
        PdfError,
    >)
        ensures
            r == field_named(resolver, self, name@),
    {
        let all = match self.all_fields(resolver) {
            Ok(all) => all,
            Err(e) => {
                return Err(e);
            },
        };
        proof {
            lemma_terminal_fields_are_terminal(resolver, self.fields@, resolver.depth_limit());
        }
        let wanted = name.to_owned();
        let mut i: usize = 0;
        assert(all@.skip(0) =~= all@);
        while i < all.len()
            invariant
                i <= all.len(),
                wanted@ == name@,
                forall|k: int| 0 <= k < all@.len() ==> resolver.resolves(#[trigger] all@[k]),
                field_named(resolver, self, name@) == first_named(
                    resolver,
                    all@.skip(i as int),
                    name@,
                ),
            decreases all.len() - i,
        {
            assert(all@.skip(i as int).drop_first() =~= all@.skip(i + 1));
            let field = match resolver.get(all[i]) {
                Ok(field) => field,
                Err(e) => {
                    return Err(e);
                },
            };
            let field_name = match field.get_full_name(resolver) {
                Ok(field_name) => field_name,
                Err(e) => {
                    return Err(e);
                },
            };
            if field_name == wanted {
                return Ok(Some(all[i]));
            }
            i = i + 1;
        }
        Ok(None)
    }
}

/// The field `steps` levels above `start`: `start` itself for no steps, and
/// nothing where the way up ends before.
pub open spec fn nth_ancestor(store: &FieldStore, start: Option<PlainRef>, steps: nat) -> Option<
    PlainRef,
>
    decreases steps,
{
    if steps == 0 {
        start
    } else {
        match start {
            Some(r) if store.resolves(r) => nth_ancestor(
                store,
                store.field(r).parent,
                (steps - 1) as nat,
            ),
            _ => None,
        }
    }
}

/// Whether the field at `r` is its own ancestor.
pub open spec fn is_own_ancestor(store: &FieldStore, r: PlainRef) -> bool {
    store.resolves(r) && exists|steps: nat|
        steps > 0 && nth_ancestor(store, Some(r), steps) == Some(r)
}

/// Whether the field at `to` is `steps` levels below the field at `from`.
pub open spec fn is_below(store: &FieldStore, from: PlainRef, to: PlainRef, steps: nat) -> bool
    decreases steps,
{
    if steps == 0 {
        from == to
    } else {
        store.resolves(from) && exists|i: int|
            0 <= i < store.field(from).kids@.len() && is_below(
                store,
                #[trigger] store.field(from).kids@[i],
                to,
                (steps - 1) as nat,
            )
    }
}

/// Whether the field at `r` is its own descendant.
pub open spec fn is_own_descendant(store: &FieldStore, r: PlainRef) -> bool {
    store.resolves(r) && exists|steps: nat| steps > 0 && is_below(store, r, r, steps)
}

/// More numbers than `n`, all of them below `n`, hold one number twice.
proof fn lemma_pigeonhole(s: Seq<int>, n: int)
    requires
        0 <= n < s.len(),
        forall|i: int| 0 <= i < s.len() ==> 0 <= #[trigger] s[i] < n,
    ensures
        exists|i: int, j: int| 0 <= i < j < s.len() && s[i] == s[j],
{
    if s.no_duplicates() {
        s.unique_seq_to_set();
        lemma_int_range(0, n);
        assert(s.to_set().subset_of(set_int_range(0, n))) by {
            assert forall|v: int| s.to_set().contains(v) implies set_int_range(0, n).contains(
                v,
            ) by {
                let i = choose|i: int| 0 <= i < s.len() && s[i] == v;
                assert(0 <= s[i] < n);
            }
        }
        lemma_len_subset(s.to_set(), set_int_range(0, n));
    } else {
        let (i, j) = choose|i: int, j: int|
            0 <= i < s.len() && 0 <= j < s.len() && i != j && s[i] == s[j];
        if i < j {
            assert(0 <= i < j < s.len() && s[i] == s[j]);
        } else {
            assert(0 <= j < i < s.len() && s[j] == s[i]);
        }
    }
}

/// The way up from the field that is `first` levels above `start` is the
/// rest of the way up from `start`.
proof fn lemma_nth_ancestor_add(
    store: &FieldStore,
    start: Option<PlainRef>,
    first: nat,
    more: nat,
)
    ensures
        nth_ancestor(store, start, first + more) == nth_ancestor(
            store,
            nth_ancestor(store, start, first),
            more,
        ),
    decreases first,
{
    if first > 0 {
        match start {
            Some(r) if store.resolves(r) => {
                lemma_nth_ancestor_add(store, store.field(r).parent, (first - 1) as nat, more);
            },
            _ => {
                lemma_nth_ancestor_none(store, more);
            },
        }
    }
}

/// Nothing is above nothing.
proof fn lemma_nth_ancestor_none(store: &FieldStore, steps: nat)
    ensures
        nth_ancestor(store, None, steps) is None,
    decreases steps,
{
}

/// Where the way up from `start` is too long for `limit`, every field on
/// it up to `limit` levels above `start` is there and resolves.
proof fn lemma_long_way_up(store: &FieldStore, start: Option<PlainRef>, limit: nat, steps: nat)
    requires
        ancestors(store, start, limit) == Err::<Seq<PlainRef>, PdfError>(PdfError::MaxDepth),
        steps <= limit,
    ensures
        nth_ancestor(store, start, steps) matches Some(r) && store.resolves(r),
    decreases limit,
{
    if steps > 0 {
        lemma_long_way_up(
            store,
            store.field(start->0).parent,
            (limit - 1) as nat,
            (steps - 1) as nat,
        );
    }
}

/// `MaxDepth` is the answer to a parent chain only where a field of the store
/// is its own ancestor.
pub proof fn lemma_max_depth_means_own_ancestor(store: &FieldStore, start: Option<PlainRef>)
    requires
        ancestors(store, start, store.depth_limit()) == Err::<Seq<PlainRef>, PdfError>(
            PdfError::MaxDepth,
        ),
    ensures
        exists|r: PlainRef| is_own_ancestor(store, r),
{
    let n = store.depth_limit();
    let ids = Seq::new(n + 1, |k: int| nth_ancestor(store, start, k as nat)->0.id as int);
    assert forall|k: int| 0 <= k < ids.len() implies 0 <= #[trigger] ids[k] < n by {
        lemma_long_way_up(store, start, n, k as nat);
    }
    lemma_pigeonhole(ids, n as int);
    let (i, j) = choose|i: int, j: int| 0 <= i < j < ids.len() && ids[i] == ids[j];
    lemma_long_way_up(store, start, n, i as nat);
    lemma_long_way_up(store, start, n, j as nat);
    let r = nth_ancestor(store, start, i as nat)->0;
    lemma_nth_ancestor_add(store, start, i as nat, (j - i) as nat);
    assert(nth_ancestor(store, Some(r), (j - i) as nat) == Some(r));
    assert(is_own_ancestor(store, r));
}

/// Whether each field of `path` resolves and is a kid of the one before it.
pub open spec fn is_path_down(store: &FieldStore, path: Seq<PlainRef>) -> bool {
    &&& forall|i: int| 0 <= i < path.len() ==> store.resolves(#[trigger] path[i])
    &&& forall|i: int|
        0 <= i < path.len() - 1 ==> store.field(#[trigger] path[i]).kids@.contains(path[i + 1])
}

/// Where the fields below `refs` are nested too deep for `depth`, a path
/// leads down from one of `refs` through `depth` further levels.
proof fn lemma_deep_path(store: &FieldStore, refs: Seq<PlainRef>, depth: nat) -> (path: Seq<
    PlainRef,
>)
    requires
        terminal_fields(store, refs, depth) == Err::<Seq<PlainRef>, PdfError>(PdfError::MaxDepth),
    ensures
        path.len() == depth + 1,
        refs.contains(path[0]),
        is_path_down(store, path),
    decreases depth, refs.len(),
{
    let r = refs[0];
    if depth == 0 {
        seq![r]
    } else {
        match terminal_fields(store, store.field(r).kids@, (depth - 1) as nat) {
            Err(_) => {
                let below = lemma_deep_path(store, store.field(r).kids@, (depth - 1) as nat);
                let path = seq![r] + below;
                assert forall|i: int| 0 <= i < path.len() - 1 implies store.field(
                    #[trigger] path[i],
                ).kids@.contains(path[i + 1]) by {
                    if i > 0 {
                        assert(path[i] == below[i - 1]);
                        assert(path[i + 1] == below[i]);
                    }
                }
                path
            },
            Ok(_) => {
                let path = lemma_deep_path(store, refs.drop_first(), depth);
                let k = choose|k: int|
                    0 <= k < refs.drop_first().len() && refs.drop_first()[k] == path[0];
                assert(refs[k + 1] == path[0]);
                path
            },
        }
    }
}

/// The field at the end of a stretch of a path down is below the field at
/// its start, by the length of the stretch.
proof fn lemma_path_is_below(store: &FieldStore, path: Seq<PlainRef>, i: int, j: int)
    requires
        is_path_down(store, path),
        0 <= i <= j < path.len(),
    ensures
        is_below(store, path[i], path[j], (j - i) as nat),
    decreases j - i,
{
    if i < j {
        lemma_path_is_below(store, path, i + 1, j);
        let kids = store.field(path[i]).kids@;
        let k = choose|k: int| 0 <= k < kids.len() && kids[k] == path[i + 1];
        assert(is_below(store, kids[k], path[j], (j - i - 1) as nat));
    }
}

/// `MaxDepth` is the answer to a descent only where a field of the store is
/// its own descendant.
pub proof fn lemma_max_depth_means_own_descendant(store: &FieldStore, refs: Seq<PlainRef>)
    requires
        terminal_fields(store, refs, store.depth_limit()) == Err::<Seq<PlainRef>, PdfError>(
            PdfError::MaxDepth,
        ),
    ensures
        exists|r: PlainRef| is_own_descendant(store, r),
{
    let n = store.depth_limit();
    let path = lemma_deep_path(store, refs, n);
    let ids = Seq::new(n + 1, |k: int| path[k].id as int);
    assert forall|k: int| 0 <= k < ids.len() implies 0 <= #[trigger] ids[k] < n by {
        assert(store.resolves(path[k]));
    }
    lemma_pigeonhole(ids, n as int);
    let (i, j) = choose|i: int, j: int| 0 <= i < j < ids.len() && ids[i] == ids[j];
    assert(path[i] == path[j]);
    lemma_path_is_below(store, path, i, j);
    assert(is_own_descendant(store, path[i]));
}

} // verus!
