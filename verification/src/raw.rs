//! The raw, pre-semantic reflection of a `.schema` file: its root name, taken
//! from the file name, and its datatype map of dotted `key.datatype` entries,
//! each datatype an atom, a text, a record, a vector, or a nested map.

use crate::block::{symbol_of, BlockDelimiter, BlockForm, DotosBlock};
use crate::engine::SchemaError;
use crate::name::Name;
use crate::text::{ascii_upper, is_ascii_alphanumeric};
use vstd::prelude::*;

verus! {

/// A raw schema file: the root name its file name spells and its datatypes.
#[derive(Debug)]
pub struct RawSchemaFile {
    root_name: Name,
    datatypes: RawDatatypeMap,
}

/// A map of named datatypes, in the order they were written.
#[derive(Debug)]
pub struct RawDatatypeMap {
    entries: Vec<RawDatatypeEntry>,
}

/// One named datatype.
#[derive(Debug)]
pub struct RawDatatypeEntry {
    name: Name,
    datatype: RawDotosDatatype,
}

/// A raw datatype.
#[derive(Debug)]
pub enum RawDotosDatatype {
    Atom(String),
    Text(String),
    Record(RawDotosSequence),
    Vector(RawDotosSequence),
    KeyValue(RawDatatypeMap),
}

/// A sequence of raw datatypes.
#[derive(Debug)]
pub struct RawDotosSequence {
    items: Vec<RawDotosDatatype>,
}

/// The mathematical form of a raw datatype.
pub enum RawModel {
    Atom(Seq<char>),
    Text(Seq<char>),
    Record(Seq<RawModel>),
    Vector(Seq<RawModel>),
    KeyValue(Seq<(Seq<char>, RawModel)>),
}

// ---------------------------------------------------------------------------
// Views.
// ---------------------------------------------------------------------------

pub closed spec fn raw_view(d: RawDotosDatatype) -> RawModel
    decreases d,
{
    match d {
        RawDotosDatatype::Atom(t) => RawModel::Atom(t@),
        RawDotosDatatype::Text(t) => RawModel::Text(t@),
        RawDotosDatatype::Record(s) => RawModel::Record(raw_views(s.items@)),
        RawDotosDatatype::Vector(s) => RawModel::Vector(raw_views(s.items@)),
        RawDotosDatatype::KeyValue(m) => RawModel::KeyValue(entry_views(m.entries@)),
    }
}

pub closed spec fn raw_views(s: Seq<RawDotosDatatype>) -> Seq<RawModel>
    decreases s,
{
    Seq::new(
        s.len(),
        |i: int|
            if 0 <= i < s.len() {
                raw_view(s[i])
            } else {
                RawModel::Atom(Seq::empty())
            },
    )
}

pub closed spec fn entry_views(s: Seq<RawDatatypeEntry>) -> Seq<(Seq<char>, RawModel)>
    decreases s,
{
    Seq::new(
        s.len(),
        |i: int|
            if 0 <= i < s.len() {
                (s[i].name@, raw_view(s[i].datatype))
            } else {
                (Seq::empty(), RawModel::Atom(Seq::empty()))
            },
    )
}

// ---------------------------------------------------------------------------
// Reading blocks.
// ---------------------------------------------------------------------------

/// The raw datatype a block reads as: an atom or a pipe text as itself, a
/// parenthesized group as a record, a bracketed group as a vector, a braced
/// group as a map, a plain dotted application as the atom of its dotted text.
/// Pipe-delimited groups and other applications are errors.
pub open spec fn raw_block(b: DotosBlock) -> Result<RawModel, SchemaError>
    decreases b, 0nat,
{
    match b.form {
        BlockForm::Atom(t) => Ok(RawModel::Atom(t@)),
        BlockForm::PipeText(t) => Ok(RawModel::Text(t@)),
        BlockForm::Delimited(d, objects) => match d {
            BlockDelimiter::Parenthesis => match raw_items(objects@) {
                Ok(items) => Ok(RawModel::Record(items)),
                Err(e) => Err(e),
            },
            BlockDelimiter::SquareBracket => match raw_items(objects@) {
                Ok(items) => Ok(RawModel::Vector(items)),
                Err(e) => Err(e),
            },
            BlockDelimiter::Brace => match raw_entries(objects@) {
                Ok(entries) => Ok(RawModel::KeyValue(entries)),
                Err(e) => Err(e),
            },
            _ => Err(SchemaError::ExpectedSyntaxReference { found: b.fallback }),
        },
        BlockForm::Application(_, _, dotted) => match dotted {
            Some(t) => Ok(RawModel::Atom(t@)),
            None => Err(SchemaError::ExpectedSyntaxReference { found: b.fallback }),
        },
    }
}

/// The raw datatypes a list of blocks reads as; the first error, left to
/// right, when one fails.
pub open spec fn raw_items(s: Seq<DotosBlock>) -> Result<Seq<RawModel>, SchemaError>
    decreases s, 1nat,
{
    if s.len() == 0 {
        Ok(Seq::empty())
    } else {
        proof {
            assert(decreases_to!(s => s.subrange(0, s.len() - 1)));
        }
        match raw_items(s.drop_last()) {
            Err(e) => Err(e),
            Ok(init) => match raw_block(s.last()) {
                Err(e) => Err(e),
                Ok(x) => Ok(init.push(x)),
            },
        }
    }
}

/// The raw entry a block reads as: a dotted `key.datatype` application whose
/// key is a symbol.
pub open spec fn raw_entry(b: DotosBlock) -> Result<(Seq<char>, RawModel), SchemaError>
    decreases b, 0nat,
{
    match b.form {
        BlockForm::Application(head, payload, _) => match symbol_of(*head) {
            Err(e) => Err(e),
            Ok(key) => match raw_block(*payload) {
                Err(e) => Err(e),
                Ok(x) => Ok((key, x)),
            },
        },
        _ => Err(SchemaError::ExpectedDottedEntry),
    }
}

/// The raw entries a list of blocks reads as; the first error, left to right,
/// when one fails.
pub open spec fn raw_entries(s: Seq<DotosBlock>) -> Result<Seq<(Seq<char>, RawModel)>, SchemaError>
    decreases s, 1nat,
{
    if s.len() == 0 {
        Ok(Seq::empty())
    } else {
        proof {
            assert(decreases_to!(s => s.subrange(0, s.len() - 1)));
        }
        match raw_entries(s.drop_last()) {
            Err(e) => Err(e),
            Ok(init) => match raw_entry(s.last()) {
                Err(e) => Err(e),
                Ok(x) => Ok(init.push(x)),
            },
        }
    }
}

proof fn lemma_raw_views_push(s: Seq<RawDotosDatatype>, x: RawDotosDatatype)
    ensures
        raw_views(s.push(x)) =~= raw_views(s).push(raw_view(x)),
{
    assert forall|i: int| 0 <= i < s.len() implies raw_views(s.push(x))[i] == raw_views(s)[i] by {
        assert(s.push(x)[i] == s[i]);
    }
}

proof fn lemma_entry_views_push(s: Seq<RawDatatypeEntry>, x: RawDatatypeEntry)
    ensures
        entry_views(s.push(x)) =~= entry_views(s).push((x.name@, raw_view(x.datatype))),
{
    assert forall|i: int| 0 <= i < s.len() implies entry_views(s.push(x))[i] == entry_views(s)[i]
        by {
        assert(s.push(x)[i] == s[i]);
    }
}

proof fn lemma_raw_views_empty(s: Seq<RawDotosDatatype>)
    requires
        s.len() == 0,
    ensures
        raw_views(s) =~= Seq::<RawModel>::empty(),
{
}

proof fn lemma_entry_views_empty(s: Seq<RawDatatypeEntry>)
    requires
        s.len() == 0,
    ensures
        entry_views(s) =~= Seq::<(Seq<char>, RawModel)>::empty(),
{
}

impl RawDotosDatatype {
    pub open spec fn view_of(&self) -> RawModel {
        raw_view(*self)
    }

    /// Read one block as a raw datatype.
    pub fn from_block(block: &DotosBlock) -> (r: Result<Self, SchemaError>)
        ensures
            match (r, raw_block(*block)) {
                (Ok(d), Ok(m)) => raw_view(d) == m,
                (Err(e), Err(f)) => e == f,
                _ => false,
            },
        decreases block, 0nat,
    {
        match &block.form {
            BlockForm::Atom(text) => Ok(RawDotosDatatype::Atom(text.clone())),
            BlockForm::PipeText(text) => Ok(RawDotosDatatype::Text(text.clone())),
            BlockForm::Delimited(delimiter, objects) => match delimiter {
                BlockDelimiter::Parenthesis => {
                    proof {
                        assert(decreases_to!(*block => block.form));
                    }
                    match RawDotosSequence::from_blocks(objects) {
                        Ok(sequence) => Ok(RawDotosDatatype::Record(sequence)),
                        Err(e) => Err(e),
                    }
                },
                BlockDelimiter::SquareBracket => match RawDotosSequence::from_blocks(objects) {
                    Ok(sequence) => Ok(RawDotosDatatype::Vector(sequence)),
                    Err(e) => Err(e),
                },
                BlockDelimiter::Brace => match RawDatatypeMap::from_blocks(objects) {
                    Ok(map) => Ok(RawDotosDatatype::KeyValue(map)),
                    Err(e) => Err(e),
                },
                _ => Err(SchemaError::ExpectedSyntaxReference { found: block.fallback.clone() }),
            },
            BlockForm::Application(_, _, dotted) => match dotted {
                Some(text) => Ok(RawDotosDatatype::Atom(text.clone())),
                None => Err(SchemaError::ExpectedSyntaxReference { found: block.fallback.clone() }),
            },
        }
    }

    pub fn as_atom(&self) -> (r: Option<&str>)
        ensures
            match r {
                Some(t) => raw_view(*self) == RawModel::Atom(t@),
                None => !(raw_view(*self) is Atom),
            },
    {
        match self {
            Self::Atom(text) => Some(text.as_str()),
            _ => None,
        }
    }

    pub fn as_text(&self) -> (r: Option<&str>)
        ensures
            match r {
                Some(t) => raw_view(*self) == RawModel::Text(t@),
                None => !(raw_view(*self) is Text),
            },
    {
        match self {
            Self::Text(text) => Some(text.as_str()),
            _ => None,
        }
    }

    pub fn as_record(&self) -> (r: Option<&RawDotosSequence>)
        ensures
            match r {
                Some(s) => raw_view(*self) == RawModel::Record(s.items_view()),
                None => !(raw_view(*self) is Record),
            },
    {
        match self {
            Self::Record(sequence) => Some(sequence),
            _ => None,
        }
    }

    pub fn as_vector(&self) -> (r: Option<&RawDotosSequence>)
        ensures
            match r {
                Some(s) => raw_view(*self) == RawModel::Vector(s.items_view()),
                None => !(raw_view(*self) is Vector),
            },
    {
        match self {
            Self::Vector(sequence) => Some(sequence),
            _ => None,
        }
    }

    pub fn as_key_value(&self) -> (r: Option<&RawDatatypeMap>)
        ensures
            match r {
                Some(m) => raw_view(*self) == RawModel::KeyValue(m.entries_view()),
                None => !(raw_view(*self) is KeyValue),
            },
    {
        match self {
            Self::KeyValue(map) => Some(map),
            _ => None,
        }
    }
}

impl RawDotosSequence {
    pub closed spec fn items_view(&self) -> Seq<RawModel> {
        raw_views(self.items@)
    }

    /// Read each block as a raw datatype; the first error stops the read.
    pub fn from_blocks(objects: &Vec<DotosBlock>) -> (r: Result<Self, SchemaError>)
        ensures
            match (r, raw_items(objects@)) {
                (Ok(s), Ok(m)) => s.items_view() == m,
                (Err(e), Err(f)) => e == f,
                _ => false,
            },
        decreases objects@, 0nat,
    {
        let mut items: Vec<RawDotosDatatype> = Vec::new();
        let mut i: usize = 0;
        proof {
            lemma_raw_views_empty(items@);
            assert(objects@.take(0) =~= Seq::<DotosBlock>::empty());
        }
        while i < objects.len()
            invariant
                i <= objects@.len(),
                raw_items(objects@.take(i as int)) == Ok::<Seq<RawModel>, SchemaError>(
                    raw_views(items@),
                ),
            decreases objects.len() - i,
        {
            proof {
                assert(objects@.take(i + 1).drop_last() =~= objects@.take(i as int));
                assert(objects@.take(i + 1).last() == objects@[i as int]);
                assert(decreases_to!(objects@ => objects@[i as int]));
            }
            match RawDotosDatatype::from_block(&objects[i]) {
                Ok(item) => {
                    proof {
                        lemma_raw_views_push(items@, item);
                    }
                    items.push(item);
                },
                Err(e) => {
                    proof {
                        lemma_raw_items_error_prefix(objects@, i as int + 1);
                    }
                    return Err(e);
                },
            }
            i += 1;
        }
        assert(objects@.take(objects@.len() as int) =~= objects@);
        Ok(RawDotosSequence { items })
    }

    pub fn items(&self) -> (r: &[RawDotosDatatype])
        ensures
            raw_views(r@) == self.items_view(),
    {
        self.items.as_slice()
    }
}

/// A failing prefix makes the whole list fail with the same error.
proof fn lemma_raw_items_error_prefix(s: Seq<DotosBlock>, k: int)
    requires
        0 <= k <= s.len(),
        raw_items(s.take(k)) is Err,
    ensures
        raw_items(s) == raw_items(s.take(k)),
    decreases s.len() - k,
{
    if k < s.len() {
        assert(s.take(k + 1).drop_last() =~= s.take(k));
        lemma_raw_items_error_prefix(s, k + 1);
    } else {
        assert(s.take(k) =~= s);
    }
}

/// A failing prefix makes the whole list fail with the same error.
proof fn lemma_raw_entries_error_prefix(s: Seq<DotosBlock>, k: int)
    requires
        0 <= k <= s.len(),
        raw_entries(s.take(k)) is Err,
    ensures
        raw_entries(s) == raw_entries(s.take(k)),
    decreases s.len() - k,
{
    if k < s.len() {
        assert(s.take(k + 1).drop_last() =~= s.take(k));
        lemma_raw_entries_error_prefix(s, k + 1);
    } else {
        assert(s.take(k) =~= s);
    }
}

impl RawDatatypeEntry {
    pub closed spec fn name_view(&self) -> Seq<char> {
        self.name@
    }

    pub closed spec fn datatype_view(&self) -> RawModel {
        raw_view(self.datatype)
    }

    pub fn name(&self) -> (r: &Name)
        ensures
            r@ == self.name_view(),
    {
        &self.name
    }

    pub fn datatype(&self) -> (r: &RawDotosDatatype)
        ensures
            raw_view(*r) == self.datatype_view(),
    {
        &self.datatype
    }
}

/// The index of the first entry named `name`.
pub open spec fn first_named(entries: Seq<(Seq<char>, RawModel)>, name: Seq<char>) -> Option<int>
    decreases entries.len(),
{
    if entries.len() == 0 {
        None
    } else if entries[0].0 == name {
        Some(0)
    } else {
        match first_named(entries.drop_first(), name) {
            Some(i) => Some(i + 1),
            None => None,
        }
    }
}

impl RawDatatypeMap {
    pub closed spec fn entries_view(&self) -> Seq<(Seq<char>, RawModel)> {
        entry_views(self.entries@)
    }

    /// Read the map as a sequence of dotted `key.datatype` entries, each key a
    /// symbol; the first error stops the read.
    pub fn from_blocks(objects: &Vec<DotosBlock>) -> (r: Result<Self, SchemaError>)
        ensures
            match (r, raw_entries(objects@)) {
                (Ok(m), Ok(e)) => m.entries_view() == e,
                (Err(e), Err(f)) => e == f,
                _ => false,
            },
        decreases objects@, 0nat,
    {
        let mut entries: Vec<RawDatatypeEntry> = Vec::new();
        let mut i: usize = 0;
        proof {
            lemma_entry_views_empty(entries@);
            assert(objects@.take(0) =~= Seq::<DotosBlock>::empty());
        }
        while i < objects.len()
            invariant
                i <= objects@.len(),
                raw_entries(objects@.take(i as int)) == Ok::<
                    Seq<(Seq<char>, RawModel)>,
                    SchemaError,
                >(entry_views(entries@)),
            decreases objects.len() - i,
        {
            proof {
                assert(objects@.take(i + 1).drop_last() =~= objects@.take(i as int));
                assert(objects@.take(i + 1).last() == objects@[i as int]);
            }
            let object = &objects[i];
            match &object.form {
                BlockForm::Application(head, payload, _) => {
                    let name = match head.schema_name() {
                        Ok(name) => name,
                        Err(e) => {
                            proof {
                                assert(raw_entry(objects@[i as int]) == Err::<
                                    (Seq<char>, RawModel),
                                    SchemaError,
                                >(e));
                                assert(raw_entries(objects@.take(i + 1)) is Err);
                                lemma_raw_entries_error_prefix(objects@, i as int + 1);
                            }
                            return Err(e);
                        },
                    };
                    proof {
                        assert(decreases_to!(objects@ => objects@[i as int]));
                        assert(decreases_to!(objects@[i as int] => objects@[i as int].form));
                        assert(decreases_to!(objects@[i as int].form => *payload));
                    }
                    match RawDotosDatatype::from_block(payload) {
                        Ok(datatype) => {
                            let entry = RawDatatypeEntry { name, datatype };
                            proof {
                                lemma_entry_views_push(entries@, entry);
                            }
                            entries.push(entry);
                        },
                        Err(e) => {
                            proof {
                                assert(raw_entry(objects@[i as int]) == Err::<
                                    (Seq<char>, RawModel),
                                    SchemaError,
                                >(e));
                                assert(raw_entries(objects@.take(i + 1)) is Err);
                                lemma_raw_entries_error_prefix(objects@, i as int + 1);
                            }
                            return Err(e);
                        },
                    }
                },
                _ => {
                    proof {
                        assert(raw_entry(objects@[i as int]) == Err::<
                            (Seq<char>, RawModel),
                            SchemaError,
                        >(SchemaError::ExpectedDottedEntry));
                        assert(raw_entries(objects@.take(i + 1)) is Err);
                        lemma_raw_entries_error_prefix(objects@, i as int + 1);
                    }
                    return Err(SchemaError::ExpectedDottedEntry);
                },
            }
            i += 1;
        }
        assert(objects@.take(objects@.len() as int) =~= objects@);
        Ok(RawDatatypeMap { entries })
    }

    pub fn entries(&self) -> (r: &[RawDatatypeEntry])
        ensures
            entry_views(r@) == self.entries_view(),
    {
        self.entries.as_slice()
    }

    /// The datatype of the first entry named `name`.
    pub fn datatype_named(&self, name: &str) -> (r: Option<&RawDotosDatatype>)
        ensures
            match (r, first_named(self.entries_view(), name@)) {
                (Some(d), Some(i)) => raw_view(*d) == self.entries_view()[i].1,
                (None, None) => true,
                _ => false,
            },
    {
        let ghost view = self.entries_view();
        let mut i: usize = 0;
        assert(view.subrange(0, view.len() as int) =~= view);
        while i < self.entries.len()
            invariant
                i <= self.entries@.len(),
                view == entry_views(self.entries@),
                view.len() == self.entries@.len(),
                first_named(view, name@) == match first_named(view.subrange(i as int, view.len() as int), name@) {
                    Some(k) => Some(k + i),
                    None => None::<int>,
                },
            decreases self.entries.len() - i,
        {
            let ghost rest = view.subrange(i as int, view.len() as int);
            assert(rest.drop_first() =~= view.subrange(i + 1, view.len() as int));
            assert(view[i as int] == (self.entries@[i as int].name@, raw_view(self.entries@[i as int].datatype)));
            if crate::text::str_eq(self.entries[i].name.as_str(), name) {
                return Some(&self.entries[i].datatype);
            }
            i += 1;
        }
        None
    }
}

// ---------------------------------------------------------------------------
// The file.
// ---------------------------------------------------------------------------

/// The root name a file stem spells: its ASCII letters and digits, each run
/// after a separator (and the first) capitalized, the separators dropped.
pub open spec fn stem_name_from(s: Seq<char>, upper_next: bool) -> Seq<char>
    decreases s.len(),
{
    if s.len() == 0 {
        Seq::empty()
    } else if is_ascii_alphanumeric(s[0]) {
        seq![
            if upper_next {
                ascii_upper(s[0])
            } else {
                s[0]
            },
        ] + stem_name_from(s.drop_first(), false)
    } else {
        stem_name_from(s.drop_first(), true)
    }
}

/// The root name a file stem spells.
pub open spec fn stem_name(s: Seq<char>) -> Seq<char> {
    stem_name_from(s, true)
}

fn root_name_of(stem: &str) -> (r: Name)
    ensures
        r@ == stem_name(stem@),
{
    let chars = crate::text::chars_of(stem);
    let mut output = String::new();
    let mut upper_next = true;
    let mut i: usize = 0;
    assert(chars@.subrange(0, chars@.len() as int) =~= chars@);
    assert(output@ + stem_name(stem@) =~= stem_name(stem@));
    while i < chars.len()
        invariant
            i <= chars@.len(),
            chars@ == stem@,
            output@ + stem_name_from(chars@.subrange(i as int, chars@.len() as int), upper_next)
                == stem_name(stem@),
        decreases chars.len() - i,
    {
        let c = chars[i];
        let rest = Ghost(chars@.subrange(i as int, chars@.len() as int));
        assert(rest@.drop_first() =~= chars@.subrange(i + 1, chars@.len() as int));
        assert(rest@[0] == c);
        if crate::text::is_alphanumeric(c) {
            if upper_next {
                crate::text::push_char(&mut output, crate::text::to_upper(c));
                upper_next = false;
            } else {
                crate::text::push_char(&mut output, c);
            }
        } else {
            upper_next = true;
        }
        i += 1;
    }
    assert(chars@.subrange(chars@.len() as int, chars@.len() as int) =~= Seq::<char>::empty());
    assert(output@ + Seq::<char>::empty() =~= output@);
    Name::from_string(output)
}

impl RawSchemaFile {
    pub closed spec fn root_name_view(&self) -> Seq<char> {
        self.root_name@
    }

    pub closed spec fn datatypes_view(&self) -> Seq<(Seq<char>, RawModel)> {
        self.datatypes.entries_view()
    }

    /// Read a raw schema file from its file stem and the root blocks of its
    /// document: the document must hold exactly one root, a braced datatype
    /// map.
    pub fn from_stem_and_root_objects(stem: &str, roots: &Vec<DotosBlock>) -> (r: Result<
        Self,
        SchemaError,
    >)
        ensures
            roots@.len() != 1 ==> r == Err::<Self, SchemaError>(
                SchemaError::ExpectedRootObjectCount {
                    expected: "one root key-value datatype map",
                    found: roots@.len() as usize,
                },
            ),
            roots@.len() == 1 ==> match roots@[0].form {
                BlockForm::Delimited(BlockDelimiter::Brace, objects) => match (
                    r,
                    raw_entries(objects@),
                ) {
                    (Ok(f), Ok(e)) => f.root_name_view() == stem_name(stem@) && f.datatypes_view()
                        == e,
                    (Err(x), Err(y)) => x == y,
                    _ => false,
                },
                _ => r == Err::<Self, SchemaError>(
                    SchemaError::ExpectedDelimiter { expected: "root key-value datatype map" },
                ),
            },
    {
        let root_name = root_name_of(stem);
        if roots.len() != 1 {
            return Err(
                SchemaError::ExpectedRootObjectCount {
                    expected: "one root key-value datatype map",
                    found: roots.len(),
                },
            );
        }
        match &roots[0].form {
            BlockForm::Delimited(BlockDelimiter::Brace, objects) => {
                match RawDatatypeMap::from_blocks(objects) {
                    Ok(datatypes) => Ok(RawSchemaFile { root_name, datatypes }),
                    Err(e) => Err(e),
                }
            },
            _ => Err(SchemaError::ExpectedDelimiter { expected: "root key-value datatype map" }),
        }
    }

    pub fn root_name(&self) -> (r: &Name)
        ensures
            r@ == self.root_name_view(),
    {
        &self.root_name
    }

    pub fn datatypes(&self) -> (r: &RawDatatypeMap)
        ensures
            r.entries_view() == self.datatypes_view(),
    {
        &self.datatypes
    }
}

} // verus!
