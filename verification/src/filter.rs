//! Choosing file types.

use vstd::prelude::*;

use crate::error::{CarveError, CarveErrorView};
use crate::pieces::{lowercase, pieces, split, split_at_each, to_lowercase, trim, trimmed};
use crate::signatures::{
    names_of, type_names, valid_type_names, views, Signature, SignatureView,
};
use crate::text::{
    ascending, before, chars_of, comes_before, inserted_in_order, join, joined, same_text,
    string_of, texts,
};

verus! {

/// A set of type names.
#[derive(Debug)]
pub struct TypeFilter {
    names: Vec<String>,
}

impl View for TypeFilter {
    type V = Set<Seq<char>>;

    closed spec fn view(&self) -> Set<Seq<char>> {
        texts(self.names@).to_set()
    }
}

impl TypeFilter {
    /// The names are kept in order, without repetitions.
    #[verifier::type_invariant]
    spec fn in_order(self) -> bool {
        ascending(texts(self.names@))
    }

    /// The empty set.
    pub fn new() -> (f: TypeFilter)
        ensures
            f@ == Set::<Seq<char>>::empty(),
    {
        let names: Vec<String> = Vec::new();
        assert(texts(names@).to_set() =~= Set::<Seq<char>>::empty());
        TypeFilter { names }
    }

    /// Whether `name` is in the set.
    pub fn contains(&self, name: &str) -> (yes: bool)
        ensures
            yes == self@.contains(name@),
    {
        let mut k: usize = 0;
        while k < self.names.len()
            invariant
                k <= self.names@.len(),
                forall|j: int| 0 <= j < k ==> self.names@[j]@ != name@,
            decreases self.names@.len() - k,
        {
            if same_text(self.names[k].as_str(), name) {
                assert(texts(self.names@)[k as int] == name@);
                return true;
            }
            k = k + 1;
        }
        false
    }

    /// The set with `name` added.
    pub fn with(self, name: String) -> (f: TypeFilter)
        ensures
            f@ == self@.insert(name@),
    {
        proof {
            use_type_invariant(&self);
        }
        let ghost was: Seq<Seq<char>> = texts(self.names@);
        let mut names: Vec<String> = self.names;
        let mut k: usize = 0;
        while k < names.len() && comes_before(names[k].as_str(), name.as_str())
            invariant
                k <= names@.len(),
                texts(names@) == was,
                forall|j: int| 0 <= j < k ==> before(was[j], name@),
            decreases names@.len() - k,
        {
            assert(was[k as int] == names@[k as int]@);
            k = k + 1;
        }
        if k < names.len() && same_text(names[k].as_str(), name.as_str()) {
            proof {
                assert(was[k as int] == name@);
                assert(was.to_set() =~= was.to_set().insert(name@));
            }
            return TypeFilter { names };
        }
        proof {
            if k < names@.len() {
                assert(was[k as int] == names@[k as int]@);
            }
            inserted_in_order(was, k as int, name@);
            assert(texts(names@.insert(k as int, name)) =~= was.insert(k as int, name@));
        }
        names.insert(k, name);
        TypeFilter { names }
    }
}

/// The set of type names that an optional filter lets through, if it is given.
pub open spec fn chosen(filter: Option<TypeFilter>) -> Option<Set<Seq<char>>> {
    match filter {
        Some(f) => Some(f@),
        None => None,
    }
}

/// Whether a filter lets a type through. Without one, every type passes.
pub open spec fn passes(filter: Option<Set<Seq<char>>>, name: Seq<char>) -> bool {
    filter matches Some(f) ==> f.contains(name)
}

/// Whether `filter` lets the type `name` through.
pub fn lets_through(filter: &Option<TypeFilter>, name: &str) -> (yes: bool)
    ensures
        yes == passes(chosen(*filter), name@),
{
    match filter {
        Some(f) => f.contains(name),
        None => true,
    }
}

// ---------------------------------------------------------------------------
// Reading a choice
// ---------------------------------------------------------------------------

/// The names in a comma-separated list, in lower case and without the white
/// space around them.
pub open spec fn listed_names(list: Seq<char>) -> Seq<Seq<char>> {
    split_at_each(list, ',').map_values(|name: Seq<char>| lowercase(trimmed(name)))
}

/// Those of a list of names that are not names of types.
pub open spec fn unknown_among(names: Seq<Seq<char>>) -> Seq<Seq<char>>
    decreases names.len(),
{
    if names.len() == 0 {
        Seq::empty()
    } else {
        let before = unknown_among(names.drop_last());
        if type_names().contains(names.last()) {
            before
        } else {
            before.push(names.last())
        }
    }
}

/// Whether `name` is one of `names`.
fn is_among(names: &Vec<&'static str>, name: &str) -> (yes: bool)
    ensures
        yes == names_of(names@).to_set().contains(name@),
{
    let mut k: usize = 0;
    while k < names.len()
        invariant
            k <= names@.len(),
            forall|j: int| 0 <= j < k ==> names@[j]@ != name@,
        decreases names@.len() - k,
    {
        if same_text(names[k], name) {
            assert(names_of(names@)[k as int] == name@);
            return true;
        }
        k = k + 1;
    }
    false
}

/// Reads a comma-separated list of type names. If some of them are unknown, the
/// error names all of those, in order.
pub fn parse_types(list: &str) -> (r: Result<TypeFilter, CarveError>)
    ensures
        match r {
            Ok(f) => unknown_among(listed_names(list@)).len() == 0 && f@ == listed_names(
                list@,
            ).to_set(),
            Err(e) => unknown_among(listed_names(list@)).len() > 0 && e@
                == CarveErrorView::UnknownTypes(
                joined(unknown_among(listed_names(list@)), ", "@),
            ),
        },
{
    let valid: Vec<&'static str> = valid_type_names();
    let chars: Vec<char> = chars_of(list);
    let parts: Vec<Vec<char>> = split(&chars, ',');
    let ghost all: Seq<Seq<char>> = listed_names(list@);
    let mut known: TypeFilter = TypeFilter::new();
    let mut bad: Vec<String> = Vec::new();
    let mut k: usize = 0;
    proof {
        assert(texts(bad@) =~= unknown_among(all.take(0)));
        assert(all.take(0).to_set() =~= Set::<Seq<char>>::empty());
    }
    while k < parts.len()
        invariant
            k <= parts@.len(),
            all == listed_names(list@),
            pieces(parts@) == split_at_each(list@, ','),
            names_of(valid@).to_set() == type_names(),
            texts(bad@) == unknown_among(all.take(k as int)),
            bad@.len() == 0 ==> known@ == all.take(k as int).to_set(),
        decreases parts@.len() - k,
    {
        let name: String = string_of(&to_lowercase(trim(&parts[k])));
        proof {
            assert(pieces(parts@)[k as int] == parts@[k as int]@);
            assert(all[k as int] == name@);
            assert(all.take(k + 1).drop_last() =~= all.take(k as int));
            assert(all.take(k + 1) =~= all.take(k as int).push(name@));
            assert(all.take(k + 1).to_set() =~= all.take(k as int).to_set().insert(name@)) by {
                broadcast use vstd::seq_lib::group_seq_properties;

            }
        }
        let ghost before: Seq<Seq<char>> = texts(bad@);
        if is_among(&valid, name.as_str()) {
            known = known.with(name);
        } else {
            let ghost said: Seq<char> = name@;
            bad.push(name);
            assert(texts(bad@) =~= before.push(said));
        }
        k = k + 1;
    }
    assert(all.take(k as int) =~= all);
    if bad.len() > 0 {
        return Err(CarveError::UnknownTypes(join(&bad, ", ")));
    }
    Ok(known)
}

/// A list that is accepted names at least one type, so that a filter that was
/// asked for is never empty; and it names only types that exist.
pub proof fn accepted_choice_names_types(list: Seq<char>)
    requires
        unknown_among(listed_names(list)).len() == 0,
    ensures
        listed_names(list).to_set() != Set::<Seq<char>>::empty(),
        listed_names(list).to_set().subset_of(type_names()),
{
    let names = listed_names(list);
    split_is_not_empty(list, ',');
    assert(names.to_set().contains(names[0]));
    assert forall|n: Seq<char>| names.to_set().contains(n) implies type_names().contains(n) by {
        none_unknown(names, names.index_of(n));
    }
}

/// There is always a piece.
proof fn split_is_not_empty(s: Seq<char>, c: char)
    ensures
        split_at_each(s, c).len() > 0,
    decreases s.len(),
{
    if s.len() > 0 {
        split_is_not_empty(s.drop_last(), c);
    }
}

/// Where none is unknown, each is known.
proof fn none_unknown(names: Seq<Seq<char>>, k: int)
    requires
        unknown_among(names).len() == 0,
        0 <= k < names.len(),
    ensures
        type_names().contains(names[k]),
    decreases names.len(),
{
    if k < names.len() - 1 {
        none_unknown(names.drop_last(), k);
    }
}

/// Whether `label` says what a filter lets through: its names in order, or
/// "all" if there is none.
pub open spec fn says_choice(filter: Option<Set<Seq<char>>>, label: Seq<char>) -> bool {
    match filter {
        None => label == "all"@,
        Some(f) => exists|names: Seq<Seq<char>>|
            ascending(names) && names.to_set() == f && label == #[trigger] joined(names, ","@),
    }
}

/// What `filter` lets through, in words.
pub fn choice_label(filter: &Option<TypeFilter>) -> (label: String)
    ensures
        says_choice(chosen(*filter), label@),
{
    match filter {
        None => "all".to_string(),
        Some(f) => {
            proof {
                use_type_invariant(f);
            }
            let label: String = join(&f.names, ",");
            assert(label@ == joined(texts(f.names@), ","@));
            label
        },
    }
}

// ---------------------------------------------------------------------------
// What to scan for
// ---------------------------------------------------------------------------

/// Whether the signature `name` can lead to a type that is in the set `f`: a
/// ZIP file may be an office document, and what is found by "ftyp" may be of
/// two types.
pub open spec fn may_lead_to(name: Seq<char>, f: Set<Seq<char>>) -> bool {
    if name == "zip"@ {
        f.contains("zip"@) || f.contains("docx"@) || f.contains("xlsx"@) || f.contains("pptx"@)
    } else if name == "ftyp"@ {
        f.contains("mp4"@) || f.contains("mov"@)
    } else {
        f.contains(name)
    }
}

/// Whether the signature `name` is scanned for.
pub open spec fn is_active(filter: Option<Set<Seq<char>>>, name: Seq<char>) -> bool {
    filter matches Some(f) ==> may_lead_to(name, f)
}

/// Those of the first `n` signatures that are scanned for.
pub open spec fn active_among(
    sigs: Seq<SignatureView>,
    filter: Option<Set<Seq<char>>>,
    n: int,
) -> Seq<usize>
    decreases n,
{
    if n <= 0 {
        Seq::empty()
    } else {
        let before = active_among(sigs, filter, n - 1);
        if is_active(filter, sigs[n - 1].name) {
            before.push((n - 1) as usize)
        } else {
            before
        }
    }
}

/// Which signatures to scan for: all of them, or those that can lead to a type
/// that the filter lets through.
pub fn active_signatures(db: &[Signature], filter: &Option<TypeFilter>) -> (active: Vec<usize>)
    ensures
        active@ == active_among(views(db@), chosen(*filter), db@.len() as int),
{
    let mut active: Vec<usize> = Vec::new();
    let mut k: usize = 0;
    while k < db.len()
        invariant
            k <= db@.len(),
            active@ == active_among(views(db@), chosen(*filter), k as int),
        decreases db@.len() - k,
    {
        let name: &'static str = db[k].name;
        assert(views(db@)[k as int].name == name@);
        let wanted: bool = match filter {
            None => true,
            Some(f) => if same_text(name, "zip") {
                f.contains("zip") || f.contains("docx") || f.contains("xlsx") || f.contains("pptx")
            } else if same_text(name, "ftyp") {
                f.contains("mp4") || f.contains("mov")
            } else {
                f.contains(name)
            },
        };
        if wanted {
            active.push(k);
        }
        k = k + 1;
    }
    active
}

} // verus!
