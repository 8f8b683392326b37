//! The authored source form of a whole schema: its imports, its two root
//! positions, and its `types`, `generics`, and `impls` blocks, each with its
//! `.schema` text.

use crate::block::{BlockDelimiter, BlockForm, DotosBlock};
use crate::engine::SchemaError;
use crate::name::{dotos_seq, names_view, Name};
use crate::reference::{from_name_view, reference_view, TypeReference};
use crate::declaration::{
    declarations_model, label_of, product_error, Declaration, DeclarationModel, EnumDeclaration, ImplBlock,
    ImplModel, TypeDeclarationModel,
};
use crate::engine::SchemaIdentity;
use crate::lowering::SourceTypeResolver;
use crate::reference::{scalar_kind_seq, variant_view, variants_view, EnumVariant, ReferenceModel, ResolvedImport};
use crate::source_form::{
    catalog_lowered, catalog_text, enum_field_names, enum_inline_names, enum_text, enum_variant_model,
    enum_variants_model, is_type_seq, lowering_fault, namespace_group, public_declarations, value_text,
    variants_public_declarations, SourceDeclarationValue, SourceEnumBody, SourceImplCatalog,
};
use crate::source_reference::lowered_view;
use crate::tree::{
    arities_ok, arity_error, block_targets_ok, blocks_model, first_impl_repeat, first_product_failure,
    first_unresolved_block, import_declarations_model, imports_model, manifest, manifest_distinct,
    products_ok, tree_arity_fault, Root, RootApplication, RootModel, SchemaTree, TreeModel,
};
use crate::source_reference::{source_text_seq, source_view, SourceReference};
use crate::text::{is_ascii_lower, join, join_seq, owned, views_of};
use crate::tree::ImportDeclaration;
use vstd::prelude::*;

verus! {

/// The imports of a schema, one entry per source path.
#[derive(Debug)]
pub struct SourceImports {
    entries: Vec<SourceImport>,
}

/// One import entry: a lowercase dotted source path and the capitalized
/// targets imported from it.
#[derive(Debug)]
pub struct SourceImport {
    path: Vec<Name>,
    targets: Vec<Name>,
}

/// A root position (`Input` or `Output`) and its body.
#[derive(Debug)]
pub struct SourceRootEnum {
    name: Name,
    body: SourceRootBody,
}

/// A root body: an enum body `[Variant …]`, or an application `Head.(Arg …)`.
#[derive(Debug)]
pub enum SourceRootBody {
    Enum(SourceEnumBody),
    Application(SourceReference),
}

/// The `types` block: type names and their definitions.
#[derive(Debug)]
pub struct SourceTypes {
    entries: Vec<SourceTypeEntry>,
}

/// One `types` entry.
#[derive(Debug)]
pub struct SourceTypeEntry {
    name: Name,
    value: SourceDeclarationValue,
}

/// The `generics` block: generic names, their binders, and their bodies.
#[derive(Debug)]
pub struct SourceGenerics {
    entries: Vec<SourceGenericEntry>,
}

/// One `generics` entry.
#[derive(Debug)]
pub struct SourceGenericEntry {
    name: Name,
    parameters: Vec<Name>,
    value: SourceDeclarationValue,
}

/// The `impls` block: target type names and their impl catalogs.
#[derive(Debug)]
pub struct SourceImpls {
    entries: Vec<SourceImplsEntry>,
}

/// One `impls` entry.
#[derive(Debug)]
pub struct SourceImplsEntry {
    target: Name,
    catalog: SourceImplCatalog,
}

/// The source form of a whole schema.
#[derive(Debug)]
pub struct SchemaSource {
    imports: SourceImports,
    input: SourceRootEnum,
    output: SourceRootEnum,
    types: SourceTypes,
    generics: SourceGenerics,
    impls: SourceImpls,
}

/// A schema source held as an artifact.
#[derive(Debug)]
pub struct SchemaSourceArtifact(SchemaSource);

// ---------------------------------------------------------------------------
// Texts.
// ---------------------------------------------------------------------------

/// A per-kind block: `{}` when empty, else one entry per line, each indented
/// by two spaces, inside `{` and `}` on their own lines.
pub open spec fn kind_block_seq(entries: Seq<Seq<char>>) -> Seq<char> {
    if entries.len() == 0 {
        seq!['{', '}']
    } else {
        seq!['{', '\n'] + join_seq(
            entries.map_values(|e: Seq<char>| seq![' ', ' '] + e),
            seq!['\n'],
        ) + seq!['\n', '}']
    }
}

/// An import entry's text: `path.to.Target`, or `path.to.[X Y]` for any other
/// number of targets.
pub open spec fn import_text(path: Seq<Seq<char>>, targets: Seq<Seq<char>>) -> Seq<char> {
    let dotted = join_seq(path, seq!['.']);
    if targets.len() == 1 {
        dotted + seq!['.'] + targets[0]
    } else {
        dotted + seq!['.', '['] + join_seq(targets, seq![' ']) + seq![']']
    }
}

/// The colon-separated source name of one imported target.
pub open spec fn colon_source_seq(path: Seq<Seq<char>>, target: Seq<char>) -> Seq<char> {
    join_seq(path.push(target), seq![':'])
}

/// Whether a name is a namespace segment: its first character is an ASCII
/// lowercase letter.
pub open spec fn is_namespace_seq(s: Seq<char>) -> bool {
    s.len() > 0 && is_ascii_lower(s[0])
}

/// Whether a name is a simple type name: a type name with no dot in it.
pub open spec fn is_simple_type_seq(s: Seq<char>) -> bool {
    is_type_seq(s) && !s.contains('.')
}

pub closed spec fn imports_text(i: SourceImports) -> Seq<char> {
    kind_block_seq(
        i.entries@.map_values(
            |e: SourceImport| import_text(names_view(e.path@), names_view(e.targets@)),
        ),
    )
}

pub closed spec fn root_body_text(b: SourceRootBody) -> Seq<char> {
    match b {
        SourceRootBody::Enum(e) => enum_text(e),
        SourceRootBody::Application(r) => source_text_seq(source_view(r)),
    }
}

pub closed spec fn type_entry_text(e: SourceTypeEntry) -> Seq<char> {
    dotos_seq(e.name@) + seq!['.'] + value_text(e.value)
}

pub closed spec fn generic_entry_text(e: SourceGenericEntry) -> Seq<char> {
    dotos_seq(e.name@) + seq!['.', '(', '('] + join_seq(
        names_view(e.parameters@).map_values(|p: Seq<char>| dotos_seq(p)),
        seq![' '],
    ) + seq![')', ' '] + value_text(e.value) + seq![')']
}

pub closed spec fn impls_entry_text(e: SourceImplsEntry) -> Seq<char> {
    dotos_seq(e.target@) + seq!['.'] + catalog_text(e.catalog)
}

pub closed spec fn types_text(t: SourceTypes) -> Seq<char> {
    kind_block_seq(t.entries@.map_values(|e: SourceTypeEntry| type_entry_text(e)))
}

pub closed spec fn generics_text(g: SourceGenerics) -> Seq<char> {
    kind_block_seq(g.entries@.map_values(|e: SourceGenericEntry| generic_entry_text(e)))
}

pub closed spec fn impls_text(i: SourceImpls) -> Seq<char> {
    kind_block_seq(i.entries@.map_values(|e: SourceImplsEntry| impls_entry_text(e)))
}

/// The schema's text: its imports, input and output bodies, and its three
/// per-kind blocks, one per line.
pub closed spec fn source_text(s: SchemaSource) -> Seq<char> {
    join_seq(
        seq![
            imports_text(s.imports),
            root_body_text(s.input.body),
            root_body_text(s.output.body),
            types_text(s.types),
            generics_text(s.generics),
            impls_text(s.impls),
        ],
        seq!['\n'],
    )
}

/// A per-kind block over already rendered entries.
fn kind_block(entries: &Vec<String>) -> (r: String)
    ensures
        r@ == kind_block_seq(views_of(entries@)),
{
    proof {
        reveal_strlit("{}");
        assert("{}"@ =~= seq!['{', '}']);
        reveal_strlit("  ");
        assert("  "@ =~= seq![' ', ' ']);
        reveal_strlit("{\n");
        assert("{\n"@ =~= seq!['{', '\n']);
        reveal_strlit("\n}");
        assert("\n}"@ =~= seq!['\n', '}']);
        reveal_strlit("\n");
        assert("\n"@ =~= seq!['\n']);
    }
    if entries.len() == 0 {
        return owned("{}");
    }
    let ghost target = views_of(entries@).map_values(|e: Seq<char>| seq![' ', ' '] + e);
    let mut lines: Vec<String> = Vec::new();
    let mut i: usize = 0;
    while i < entries.len()
        invariant
            i <= entries@.len(),
            target == views_of(entries@).map_values(|e: Seq<char>| seq![' ', ' '] + e),
            views_of(lines@) == target.take(i as int),
        decreases entries.len() - i,
    {
        let mut line = owned("  ");
        line.append(entries[i].as_str());
        proof {
            reveal_strlit("  ");
            assert("  "@ =~= seq![' ', ' ']);
            assert(line@ == target[i as int]);
        }
        proof {
            crate::text::lemma_views_of_push(lines@, line);
        }
        lines.push(line);
        assert(target.take(i + 1) =~= target.take(i as int).push(target[i as int]));
        i += 1;
    }
    assert(target.take(entries@.len() as int) =~= target);
    let mut r = owned("{\n");
    r.append(join(&lines, "\n").as_str());
    r.append("\n}");
    r
}

/// `names` rendered as DOTOS leaves and joined by `sep`.
fn joined_names(names: &Vec<Name>, sep: &str, dotos: bool) -> (r: String)
    ensures
        r@ == join_seq(
            if dotos {
                names_view(names@).map_values(|p: Seq<char>| dotos_seq(p))
            } else {
                names_view(names@)
            },
            sep@,
        ),
{
    let ghost target = if dotos {
        names_view(names@).map_values(|p: Seq<char>| dotos_seq(p))
    } else {
        names_view(names@)
    };
    let mut parts: Vec<String> = Vec::new();
    let mut i: usize = 0;
    while i < names.len()
        invariant
            i <= names@.len(),
            target == if dotos {
                names_view(names@).map_values(|p: Seq<char>| dotos_seq(p))
            } else {
                names_view(names@)
            },
            views_of(parts@) == target.take(i as int),
        decreases names.len() - i,
    {
        let part = if dotos {
            names[i].to_dotos()
        } else {
            owned(names[i].as_str())
        };
        proof {
            crate::text::lemma_views_of_push(parts@, part);
        }
        parts.push(part);
        assert(target.take(i + 1) =~= target.take(i as int).push(target[i as int]));
        i += 1;
    }
    assert(target.take(names@.len() as int) =~= target);
    join(&parts, sep)
}

// ---------------------------------------------------------------------------
// Imports.
// ---------------------------------------------------------------------------

/// What making an import of `targets` from `path` gives: the import when
/// the path and the targets are non-empty, every path segment lowercase-led
/// and every target a simple type name; else the first fault.
pub open spec fn import_new_result(
    path: Seq<Seq<char>>,
    targets: Seq<Seq<char>>,
    r: Result<SourceImport, SchemaError>,
) -> bool {
    match r {
        Ok(i) => {
            &&& path.len() > 0
            &&& targets.len() > 0
            &&& forall|k: int| 0 <= k < path.len() ==> is_namespace_seq(#[trigger] path[k])
            &&& forall|k: int| 0 <= k < targets.len() ==> is_simple_type_seq(#[trigger] targets[k])
            &&& i.path_view() == path
            &&& i.targets_view() == targets
        },
        Err(SchemaError::MalformedImportSource { found }) => {
            ||| (path.len() == 0 || targets.len() == 0) && found@ == import_text(path, targets)
            ||| path.len() > 0 && targets.len() > 0 && exists|k: int|
                0 <= k < path.len() && !is_namespace_seq(path[k]) && (forall|j: int|
                    0 <= j < k ==> is_namespace_seq(#[trigger] path[j])) && found@ == dotos_seq(path[k])
        },
        Err(SchemaError::MalformedImportTarget { target }) => {
            &&& path.len() > 0
            &&& targets.len() > 0
            &&& forall|k: int| 0 <= k < path.len() ==> is_namespace_seq(#[trigger] path[k])
            &&& exists|k: int|
                0 <= k < targets.len() && !is_simple_type_seq(targets[k]) && (forall|j: int|
                    0 <= j < k ==> is_simple_type_seq(#[trigger] targets[j])) && target@ == dotos_seq(targets[k])
        },
        Err(_) => false,
    }
}

impl SourceImport {
    pub closed spec fn path_view(&self) -> Seq<Seq<char>> {
        names_view(self.path@)
    }

    pub closed spec fn targets_view(&self) -> Seq<Seq<char>> {
        names_view(self.targets@)
    }

    /// An import of `targets` from the dotted source `path`. The path and the
    /// targets must both be non-empty, every path segment lowercase-led, and
    /// every target a capitalized name with no dot in it.
    pub fn new(path: Vec<Name>, targets: Vec<Name>) -> (r: Result<Self, SchemaError>)
        ensures
            import_new_result(names_view(path@), names_view(targets@), r),
    {
        if path.len() == 0 || targets.len() == 0 {
            return Err(SchemaError::MalformedImportSource { found: Self::joined_path(&path, &targets) });
        }
        let mut i: usize = 0;
        while i < path.len()
            invariant
                i <= path@.len(),
                path@.len() > 0,
                targets@.len() > 0,
                forall|j: int| 0 <= j < i ==> is_namespace_seq(#[trigger] path@[j]@),
            decreases path.len() - i,
        {
            if !is_namespace_name(&path[i]) {
                let found = path[i].to_dotos();
                assert(found@ == dotos_seq(path@[i as int]@));
                let ghost pv = names_view(path@);
                assert(exists|k: int|
                    0 <= k < pv.len() && !is_namespace_seq(pv[k]) && (forall|j: int|
                        0 <= j < k ==> is_namespace_seq(#[trigger] pv[j])) && found@ == dotos_seq(pv[k])) by {
                    assert(pv[i as int] == path@[i as int]@);
                    assert(!is_namespace_seq(pv[i as int]));
                    assert forall|j: int| 0 <= j < i implies is_namespace_seq(#[trigger] pv[j]) by {
                        assert(pv[j] == path@[j]@);
                    }
                }
                return Err(SchemaError::MalformedImportSource { found });
            }
            i += 1;
        }
        let mut i: usize = 0;
        while i < targets.len()
            invariant
                i <= targets@.len(),
                path@.len() > 0,
                targets@.len() > 0,
                forall|j: int| 0 <= j < path@.len() ==> is_namespace_seq(#[trigger] path@[j]@),
                forall|j: int| 0 <= j < i ==> is_simple_type_seq(#[trigger] targets@[j]@),
            decreases targets.len() - i,
        {
            if !is_simple_type_name(&targets[i]) {
                let target = targets[i].to_dotos();
                assert(target@ == dotos_seq(targets@[i as int]@));
                let ghost tv = names_view(targets@);
                let ghost pv = names_view(path@);
                assert(exists|k: int|
                    0 <= k < tv.len() && !is_simple_type_seq(tv[k]) && (forall|j: int|
                        0 <= j < k ==> is_simple_type_seq(#[trigger] tv[j])) && target@ == dotos_seq(tv[k])) by {
                    assert(tv[i as int] == targets@[i as int]@);
                    assert forall|j: int| 0 <= j < i implies is_simple_type_seq(#[trigger] tv[j]) by {
                        assert(tv[j] == targets@[j]@);
                    }
                }
                assert forall|k: int| 0 <= k < pv.len() implies is_namespace_seq(#[trigger] pv[k]) by {
                    assert(pv[k] == path@[k]@);
                }
                return Err(SchemaError::MalformedImportTarget { target });
            }
            i += 1;
        }
        Ok(SourceImport { path, targets })
    }

    pub fn path(&self) -> (r: &[Name])
        ensures
            names_view(r@) == self.path_view(),
    {
        self.path.as_slice()
    }

    pub fn targets(&self) -> (r: &[Name])
        ensures
            names_view(r@) == self.targets_view(),
    {
        self.targets.as_slice()
    }

    fn joined_path(path: &Vec<Name>, targets: &Vec<Name>) -> (r: String)
        ensures
            r@ == import_text(names_view(path@), names_view(targets@)),
    {
        let mut r = joined_names(path, ".", false);
        proof {
            reveal_strlit(".");
            assert("."@ =~= seq!['.']);
            reveal_strlit(".[");
            assert(".["@ =~= seq!['.', '[']);
            reveal_strlit(" ");
            assert(" "@ =~= seq![' ']);
            reveal_strlit("]");
            assert("]"@ =~= seq![']']);
        }
        if targets.len() == 1 {
            r.append(".");
            r.append(targets[0].as_str());
        } else {
            r.append(".[");
            r.append(joined_names(targets, " ", false).as_str());
            r.append("]");
        }
        r
    }

    /// The entry's `.schema` text.
    pub fn to_schema_text(&self) -> (r: String)
        ensures
            r@ == import_text(self.path_view(), self.targets_view()),
    {
        Self::joined_path(&self.path, &self.targets)
    }

    /// The colon-separated source name of one target: the path segments and the
    /// target joined by `:`.
    fn colon_source(&self, target: &Name) -> (r: Name)
        ensures
            r@ == colon_source_seq(self.path_view(), target@),
    {
        let mut segments = crate::name::names_clone(self.path.as_slice());
        let ghost before = segments@;
        segments.push(target.duplicate());
        proof {
            crate::name::lemma_names_view_push(before, segments@[before.len() as int]);
            reveal_strlit(":");
            assert(":"@ =~= seq![':']);
        }
        Name::from_string(joined_names(&segments, ":", false))
    }

    /// The import declarations this entry makes: one per target, named by the
    /// target and sourced from its colon-separated source name.
    pub fn to_schema_imports(&self) -> (r: Vec<ImportDeclaration>)
        ensures
            r@.len() == self.targets_view().len(),
            forall|k: int|
                0 <= k < r@.len() ==> (#[trigger] r@[k]).local_name@ == self.targets_view()[k]
                    && reference_view(r@[k].source) == from_name_view(
                    colon_source_seq(self.path_view(), self.targets_view()[k]),
                ),
    {
        let mut out: Vec<ImportDeclaration> = Vec::new();
        let mut i: usize = 0;
        while i < self.targets.len()
            invariant
                i <= self.targets@.len(),
                out@.len() == i,
                forall|k: int|
                    0 <= k < i ==> (#[trigger] out@[k]).local_name@ == self.targets_view()[k]
                        && reference_view(out@[k].source) == from_name_view(
                        colon_source_seq(self.path_view(), self.targets_view()[k]),
                    ),
            decreases self.targets.len() - i,
        {
            let target = &self.targets[i];
            let source = TypeReference::from_name(self.colon_source(target));
            out.push(ImportDeclaration { local_name: target.duplicate(), source });
            i += 1;
        }
        out
    }
}

fn is_namespace_name(name: &Name) -> (r: bool)
    ensures
        r == is_namespace_seq(name@),
{
    let s = name.as_str();
    s.unicode_len() > 0 && crate::text::is_lower(s.get_char(0))
}

fn is_simple_type_name(name: &Name) -> (r: bool)
    ensures
        r == is_simple_type_seq(name@),
{
    let s = name.as_str();
    s.unicode_len() > 0 && crate::text::is_upper(s.get_char(0)) && !crate::text::contains_char(
        s,
        '.',
    )
}

impl SourceImports {
    pub closed spec fn entries_view(&self) -> Seq<SourceImport> {
        self.entries@
    }

    /// No imports.
    pub fn empty() -> (r: Self)
        ensures
            r.entries_view().len() == 0,
    {
        SourceImports { entries: Vec::new() }
    }

    pub fn new(entries: Vec<SourceImport>) -> (r: Self)
        ensures
            r.entries_view() == entries@,
    {
        SourceImports { entries }
    }

    pub fn entries(&self) -> (r: &[SourceImport])
        ensures
            r@ == self.entries_view(),
    {
        self.entries.as_slice()
    }

    /// The block's `.schema` text.
    pub fn to_schema_text(&self) -> (r: String)
        ensures
            r@ == imports_text(*self),
    {
        let ghost target = self.entries@.map_values(
            |e: SourceImport| import_text(names_view(e.path@), names_view(e.targets@)),
        );
        let mut parts: Vec<String> = Vec::new();
        let mut i: usize = 0;
        while i < self.entries.len()
            invariant
                i <= self.entries@.len(),
                target == self.entries@.map_values(
                    |e: SourceImport| import_text(names_view(e.path@), names_view(e.targets@)),
                ),
                views_of(parts@) == target.take(i as int),
            decreases self.entries.len() - i,
        {
            let text = self.entries[i].to_schema_text();
            proof {
                crate::text::lemma_views_of_push(parts@, text);
            }
            parts.push(text);
            assert(target.take(i + 1) =~= target.take(i as int).push(target[i as int]));
            i += 1;
        }
        assert(target.take(self.entries@.len() as int) =~= target);
        kind_block(&parts)
    }

    /// The import declarations of every entry, in order.
    pub fn to_schema_imports(&self) -> (r: Vec<ImportDeclaration>)
        ensures
            r@.len() == import_count(self.entries_view()),
    {
        let mut out: Vec<ImportDeclaration> = Vec::new();
        let mut i: usize = 0;
        while i < self.entries.len()
            invariant
                i <= self.entries@.len(),
                out@.len() == import_count(self.entries@.take(i as int)),
            decreases self.entries.len() - i,
        {
            let mut more = self.entries[i].to_schema_imports();
            assert(self.entries@.take(i + 1).drop_last() =~= self.entries@.take(i as int));
            out.append(&mut more);
            i += 1;
        }
        assert(self.entries@.take(self.entries@.len() as int) =~= self.entries@);
        out
    }
}

/// The number of targets across import entries.
pub open spec fn import_count(entries: Seq<SourceImport>) -> nat
    decreases entries.len(),
{
    if entries.len() == 0 {
        0
    } else {
        import_count(entries.drop_last()) + entries.last().targets_view().len()
    }
}

// ---------------------------------------------------------------------------
// Roots.
// ---------------------------------------------------------------------------

impl SourceRootEnum {
    pub closed spec fn name_view(&self) -> Seq<char> {
        self.name@
    }

    pub closed spec fn body_view(&self) -> SourceRootBody {
        self.body
    }

    pub fn new(name: Name, body: SourceRootBody) -> (r: Self)
        ensures
            r.name_view() == name@,
            r.body_view() == body,
    {
        SourceRootEnum { name, body }
    }

    pub fn name(&self) -> (r: &Name)
        ensures
            r@ == self.name_view(),
    {
        &self.name
    }

    pub fn body(&self) -> (r: &SourceRootBody)
        ensures
            *r == self.body_view(),
    {
        &self.body
    }
}

impl SourceRootBody {
    /// The enum body of an enum root.
    pub fn as_enum(&self) -> (r: Option<&SourceEnumBody>)
        ensures
            match r {
                Some(b) => *self == SourceRootBody::Enum(*b),
                None => self is Application,
            },
    {
        match self {
            Self::Enum(body) => Some(body),
            Self::Application(_) => None,
        }
    }

    /// The applied reference of an application root.
    pub fn as_application(&self) -> (r: Option<&SourceReference>)
        ensures
            match r {
                Some(a) => *self == SourceRootBody::Application(*a),
                None => self is Enum,
            },
    {
        match self {
            Self::Application(reference) => Some(reference),
            Self::Enum(_) => None,
        }
    }

    /// The body's `.schema` text.
    pub fn to_schema_text(&self) -> (r: String)
        ensures
            r@ == root_body_text(*self),
    {
        match self {
            Self::Enum(body) => body.to_schema_text(),
            Self::Application(reference) => reference.to_schema_text(),
        }
    }

    /// The names of the variants that carry an inline body; none for an
    /// application root.
    pub fn inline_declaration_names(&self) -> (r: Vec<Name>)
        ensures
            names_view(r@) == match *self {
                SourceRootBody::Enum(b) => enum_inline_names(b),
                SourceRootBody::Application(_) => Seq::empty(),
            },
    {
        match self {
            Self::Enum(body) => body.inline_declaration_names(),
            Self::Application(_) => {
                let r: Vec<Name> = Vec::new();
                assert(names_view(r@) =~= Seq::<Seq<char>>::empty());
                r
            },
        }
    }

    /// The names declared inline by the fields of the variants' inline struct
    /// bodies; none for an application root.
    pub fn public_inline_field_declaration_names(&self) -> (r: Vec<Name>)
        ensures
            names_view(r@) == match *self {
                SourceRootBody::Enum(b) => enum_field_names(b),
                SourceRootBody::Application(_) => Seq::empty(),
            },
    {
        match self {
            Self::Enum(body) => body.public_inline_field_declaration_names(),
            Self::Application(_) => {
                let r: Vec<Name> = Vec::new();
                assert(names_view(r@) =~= Seq::<Seq<char>>::empty());
                r
            },
        }
    }
}

// ---------------------------------------------------------------------------
// The per-kind blocks.
// ---------------------------------------------------------------------------

impl SourceTypeEntry {
    pub closed spec fn name_view(&self) -> Seq<char> {
        self.name@
    }

    pub closed spec fn value_view(&self) -> SourceDeclarationValue {
        self.value
    }

    pub fn new(name: Name, value: SourceDeclarationValue) -> (r: Self)
        ensures
            r.name_view() == name@,
            r.value_view() == value,
    {
        SourceTypeEntry { name, value }
    }

    pub fn name(&self) -> (r: &Name)
        ensures
            r@ == self.name_view(),
    {
        &self.name
    }

    pub fn value(&self) -> (r: &SourceDeclarationValue)
        ensures
            *r == self.value_view(),
    {
        &self.value
    }

    fn to_schema_text(&self) -> (r: String)
        ensures
            r@ == type_entry_text(*self),
    {
        let mut r = self.name.to_dotos();
        r.append(".");
        r.append(self.value.to_schema_text().as_str());
        proof {
            reveal_strlit(".");
            assert("."@ =~= seq!['.']);
        }
        r
    }
}

impl SourceTypes {
    pub closed spec fn entries_view(&self) -> Seq<SourceTypeEntry> {
        self.entries@
    }

    pub fn new(entries: Vec<SourceTypeEntry>) -> (r: Self)
        ensures
            r.entries_view() == entries@,
    {
        SourceTypes { entries }
    }

    pub fn entries(&self) -> (r: &[SourceTypeEntry])
        ensures
            r@ == self.entries_view(),
    {
        self.entries.as_slice()
    }

    /// The block's `.schema` text.
    pub fn to_schema_text(&self) -> (r: String)
        ensures
            r@ == types_text(*self),
    {
        let ghost target = self.entries@.map_values(|e: SourceTypeEntry| type_entry_text(e));
        let mut parts: Vec<String> = Vec::new();
        let mut i: usize = 0;
        while i < self.entries.len()
            invariant
                i <= self.entries@.len(),
                target == self.entries@.map_values(|e: SourceTypeEntry| type_entry_text(e)),
                views_of(parts@) == target.take(i as int),
            decreases self.entries.len() - i,
        {
            let text = self.entries[i].to_schema_text();
            proof {
                crate::text::lemma_views_of_push(parts@, text);
            }
            parts.push(text);
            assert(target.take(i + 1) =~= target.take(i as int).push(target[i as int]));
            i += 1;
        }
        assert(target.take(self.entries@.len() as int) =~= target);
        kind_block(&parts)
    }
}

impl SourceGenericEntry {
    pub closed spec fn name_view(&self) -> Seq<char> {
        self.name@
    }

    pub closed spec fn parameters_view(&self) -> Seq<Seq<char>> {
        names_view(self.parameters@)
    }

    pub closed spec fn value_view(&self) -> SourceDeclarationValue {
        self.value
    }

    pub fn new(name: Name, parameters: Vec<Name>, value: SourceDeclarationValue) -> (r: Self)
        ensures
            r.name_view() == name@,
            r.parameters_view() == names_view(parameters@),
            r.value_view() == value,
    {
        SourceGenericEntry { name, parameters, value }
    }

    pub fn name(&self) -> (r: &Name)
        ensures
            r@ == self.name_view(),
    {
        &self.name
    }

    pub fn parameters(&self) -> (r: &[Name])
        ensures
            names_view(r@) == self.parameters_view(),
    {
        self.parameters.as_slice()
    }

    pub fn value(&self) -> (r: &SourceDeclarationValue)
        ensures
            *r == self.value_view(),
    {
        &self.value
    }

    fn to_schema_text(&self) -> (r: String)
        ensures
            r@ == generic_entry_text(*self),
    {
        let binders = joined_names(&self.parameters, " ", true);
        let mut r = self.name.to_dotos();
        r.append(".((");
        r.append(binders.as_str());
        r.append(") ");
        r.append(self.value.to_schema_text().as_str());
        r.append(")");
        proof {
            reveal_strlit(" ");
            assert(" "@ =~= seq![' ']);
            reveal_strlit(".((");
            assert(".(("@ =~= seq!['.', '(', '(']);
            reveal_strlit(") ");
            assert(") "@ =~= seq![')', ' ']);
            reveal_strlit(")");
            assert(")"@ =~= seq![')']);
        }
        r
    }
}

impl SourceGenerics {
    pub closed spec fn entries_view(&self) -> Seq<SourceGenericEntry> {
        self.entries@
    }

    pub fn new(entries: Vec<SourceGenericEntry>) -> (r: Self)
        ensures
            r.entries_view() == entries@,
    {
        SourceGenerics { entries }
    }

    pub fn entries(&self) -> (r: &[SourceGenericEntry])
        ensures
            r@ == self.entries_view(),
    {
        self.entries.as_slice()
    }

    /// The block's `.schema` text.
    pub fn to_schema_text(&self) -> (r: String)
        ensures
            r@ == generics_text(*self),
    {
        let ghost target = self.entries@.map_values(|e: SourceGenericEntry| generic_entry_text(e));
        let mut parts: Vec<String> = Vec::new();
        let mut i: usize = 0;
        while i < self.entries.len()
            invariant
                i <= self.entries@.len(),
                target == self.entries@.map_values(|e: SourceGenericEntry| generic_entry_text(e)),
                views_of(parts@) == target.take(i as int),
            decreases self.entries.len() - i,
        {
            let text = self.entries[i].to_schema_text();
            proof {
                crate::text::lemma_views_of_push(parts@, text);
            }
            parts.push(text);
            assert(target.take(i + 1) =~= target.take(i as int).push(target[i as int]));
            i += 1;
        }
        assert(target.take(self.entries@.len() as int) =~= target);
        kind_block(&parts)
    }
}

impl SourceImplsEntry {
    pub closed spec fn target_view(&self) -> Seq<char> {
        self.target@
    }

    pub closed spec fn catalog_view(&self) -> SourceImplCatalog {
        self.catalog
    }

    pub fn new(target: Name, catalog: SourceImplCatalog) -> (r: Self)
        ensures
            r.target_view() == target@,
            r.catalog_view() == catalog,
    {
        SourceImplsEntry { target, catalog }
    }

    pub fn target(&self) -> (r: &Name)
        ensures
            r@ == self.target_view(),
    {
        &self.target
    }

    pub fn catalog(&self) -> (r: &SourceImplCatalog)
        ensures
            *r == self.catalog_view(),
    {
        &self.catalog
    }

    fn to_schema_text(&self) -> (r: String)
        ensures
            r@ == impls_entry_text(*self),
    {
        let mut r = self.target.to_dotos();
        r.append(".");
        r.append(self.catalog.to_schema_text().as_str());
        proof {
            reveal_strlit(".");
            assert("."@ =~= seq!['.']);
        }
        r
    }
}

impl SourceImpls {
    pub closed spec fn entries_view(&self) -> Seq<SourceImplsEntry> {
        self.entries@
    }

    pub fn new(entries: Vec<SourceImplsEntry>) -> (r: Self)
        ensures
            r.entries_view() == entries@,
    {
        SourceImpls { entries }
    }

    pub fn entries(&self) -> (r: &[SourceImplsEntry])
        ensures
            r@ == self.entries_view(),
    {
        self.entries.as_slice()
    }

    /// The block's `.schema` text.
    pub fn to_schema_text(&self) -> (r: String)
        ensures
            r@ == impls_text(*self),
    {
        let ghost target = self.entries@.map_values(|e: SourceImplsEntry| impls_entry_text(e));
        let mut parts: Vec<String> = Vec::new();
        let mut i: usize = 0;
        while i < self.entries.len()
            invariant
                i <= self.entries@.len(),
                target == self.entries@.map_values(|e: SourceImplsEntry| impls_entry_text(e)),
                views_of(parts@) == target.take(i as int),
            decreases self.entries.len() - i,
        {
            let text = self.entries[i].to_schema_text();
            proof {
                crate::text::lemma_views_of_push(parts@, text);
            }
            parts.push(text);
            assert(target.take(i + 1) =~= target.take(i as int).push(target[i as int]));
            i += 1;
        }
        assert(target.take(self.entries@.len() as int) =~= target);
        kind_block(&parts)
    }
}

// ---------------------------------------------------------------------------
// The whole source.
// ---------------------------------------------------------------------------

impl SchemaSource {
    pub closed spec fn imports_view(&self) -> SourceImports {
        self.imports
    }

    pub closed spec fn input_view(&self) -> SourceRootEnum {
        self.input
    }

    pub closed spec fn output_view(&self) -> SourceRootEnum {
        self.output
    }

    pub closed spec fn types_view(&self) -> SourceTypes {
        self.types
    }

    pub closed spec fn generics_view(&self) -> SourceGenerics {
        self.generics
    }

    pub closed spec fn impls_view(&self) -> SourceImpls {
        self.impls
    }

    pub fn new(
        imports: SourceImports,
        input: SourceRootEnum,
        output: SourceRootEnum,
        types: SourceTypes,
        generics: SourceGenerics,
        impls: SourceImpls,
    ) -> (r: Self)
        ensures
            r.imports_view() == imports,
            r.input_view() == input,
            r.output_view() == output,
            r.types_view() == types,
            r.generics_view() == generics,
            r.impls_view() == impls,
    {
        SchemaSource { imports, input, output, types, generics, impls }
    }

    pub fn imports(&self) -> (r: &SourceImports)
        ensures
            *r == self.imports_view(),
    {
        &self.imports
    }

    pub fn input(&self) -> (r: &SourceRootEnum)
        ensures
            *r == self.input_view(),
    {
        &self.input
    }

    pub fn output(&self) -> (r: &SourceRootEnum)
        ensures
            *r == self.output_view(),
    {
        &self.output
    }

    pub fn types(&self) -> (r: &SourceTypes)
        ensures
            *r == self.types_view(),
    {
        &self.types
    }

    pub fn generics(&self) -> (r: &SourceGenerics)
        ensures
            *r == self.generics_view(),
    {
        &self.generics
    }

    pub fn impls(&self) -> (r: &SourceImpls)
        ensures
            *r == self.impls_view(),
    {
        &self.impls
    }

    /// The schema's `.schema` text: imports, input and output bodies, then the
    /// `types`, `generics`, and `impls` blocks, one per line.
    pub fn to_schema_text(&self) -> (r: String)
        ensures
            r@ == source_text(*self),
    {
        let parts = vec![
            self.imports.to_schema_text(),
            self.input.body.to_schema_text(),
            self.output.body.to_schema_text(),
            self.types.to_schema_text(),
            self.generics.to_schema_text(),
            self.impls.to_schema_text(),
        ];
        assert(views_of(parts@) =~= seq![
            imports_text(self.imports),
            root_body_text(self.input.body),
            root_body_text(self.output.body),
            types_text(self.types),
            generics_text(self.generics),
            impls_text(self.impls),
        ]);
        proof {
            reveal_strlit("\n");
            assert("\n"@ =~= seq!['\n']);
        }
        join(&parts, "\n")
    }
}

impl SchemaSourceArtifact {
    pub closed spec fn source_view(&self) -> SchemaSource {
        self.0
    }

    pub fn new(source: SchemaSource) -> (r: Self)
        ensures
            r.source_view() == source,
    {
        SchemaSourceArtifact(source)
    }

    pub fn source(&self) -> (r: &SchemaSource)
        ensures
            *r == self.source_view(),
    {
        &self.0
    }

    pub fn into_source(self) -> (r: SchemaSource)
        ensures
            r == self.source_view(),
    {
        self.0
    }

    /// The artifact's `.schema` text.
    pub fn to_schema_text(&self) -> (r: String)
        ensures
            r@ == source_text(self.source_view()),
    {
        self.0.to_schema_text()
    }
}


// ---------------------------------------------------------------------------
// Lowering the whole source into a schema tree.
// ---------------------------------------------------------------------------

/// What stops a source from lowering.
pub enum LowerFault {
    /// A body that cannot stand where it is written; the diagnostic text.
    Syntax(Seq<char>),
    /// A reserved scalar name declared as a type.
    ReservedScalar(Seq<char>),
    /// A name declared twice.
    Duplicate(Seq<char>),
    /// An application root that does not lower to an application; its text.
    RootApplication(Seq<char>),
}

/// The error reported for a lowering fault.
pub open spec fn lower_error(e: SchemaError, f: LowerFault) -> bool {
    match f {
        LowerFault::Syntax(t) => lowering_fault(e, t),
        LowerFault::ReservedScalar(n) => e matches SchemaError::ReservedScalarTypeName { name } && name@ == n,
        LowerFault::Duplicate(n) => e matches SchemaError::DuplicateSourceDeclaration { name } && name@ == n,
        LowerFault::RootApplication(t) => e matches SchemaError::ExpectedRootApplication { position, found }
            && position@ == "root"@ && found@ == t,
    }
}

/// Whether a declaration named `n` is among `a`.
pub open spec fn has_declaration_named(a: Seq<DeclarationModel>, n: Seq<char>) -> bool {
    exists|k: int| 0 <= k < a.len() && (#[trigger] a[k]).name == n
}

/// `ds` appended to `acc` one by one, refusing the first name already
/// declared.
pub open spec fn push_checked(acc: Seq<DeclarationModel>, ds: Seq<DeclarationModel>) -> Result<
    Seq<DeclarationModel>,
    LowerFault,
>
    decreases ds.len(),
{
    if ds.len() == 0 {
        Ok(acc)
    } else {
        match push_checked(acc, ds.drop_last()) {
            Err(f) => Err(f),
            Ok(a) => if has_declaration_named(a, ds.last().name) {
                Err(LowerFault::Duplicate(ds.last().name))
            } else {
                Ok(a.push(ds.last()))
            },
        }
    }
}

/// The `types` entries lowered in order onto `acc`.
pub closed spec fn types_lowered(es: Seq<SourceTypeEntry>, names: Seq<Seq<char>>, acc: Seq<DeclarationModel>) -> Result<
    Seq<DeclarationModel>,
    LowerFault,
>
    decreases es.len(),
{
    if es.len() == 0 {
        Ok(acc)
    } else {
        match types_lowered(es.drop_last(), names, acc) {
            Err(f) => Err(f),
            Ok(a) => {
                let e = es.last();
                if scalar_kind_seq(e.name@) is Some {
                    Err(LowerFault::ReservedScalar(e.name@))
                } else {
                    match namespace_group(e.value, e.name@, names, None) {
                        Err(t) => Err(LowerFault::Syntax(t)),
                        Ok(g) => push_checked(a, public_declarations(g, Seq::empty())),
                    }
                }
            },
        }
    }
}

/// The `generics` entries lowered in order onto `acc`, each carrying its
/// binders.
pub closed spec fn generics_lowered(
    es: Seq<SourceGenericEntry>,
    names: Seq<Seq<char>>,
    acc: Seq<DeclarationModel>,
) -> Result<Seq<DeclarationModel>, LowerFault>
    decreases es.len(),
{
    if es.len() == 0 {
        Ok(acc)
    } else {
        match generics_lowered(es.drop_last(), names, acc) {
            Err(f) => Err(f),
            Ok(a) => {
                let e = es.last();
                if scalar_kind_seq(e.name@) is Some {
                    Err(LowerFault::ReservedScalar(e.name@))
                } else {
                    match namespace_group(e.value, e.name@, names, None) {
                        Err(t) => Err(LowerFault::Syntax(t)),
                        Ok(g) => push_checked(a, public_declarations(g, names_view(e.parameters@))),
                    }
                }
            },
        }
    }
}

/// The declarations a root's enum body writes inline; none for an
/// application root.
pub closed spec fn root_public(r: SourceRootEnum, names: Seq<Seq<char>>) -> Result<Seq<DeclarationModel>, Seq<char>> {
    match r.body {
        SourceRootBody::Enum(b) => variants_public_declarations(b.variants_view(), names),
        SourceRootBody::Application(_) => Ok(Seq::empty()),
    }
}

/// A root lowered against the namespace's declared names: an enum body as
/// the root enum, an application as the application it lowers to.
pub closed spec fn root_lowered(r: SourceRootEnum, declared: Seq<Seq<char>>) -> Result<RootModel, LowerFault> {
    match r.body {
        SourceRootBody::Enum(b) => Ok(RootModel::Enum(r.name@, enum_variants_model(b.variants_view(), declared, None))),
        SourceRootBody::Application(a) => match lowered_view(source_view(a)) {
            ReferenceModel::Application(h, args) => Ok(RootModel::Application(r.name@, h, args)),
            _ => Err(LowerFault::RootApplication(source_text_seq(source_view(a)))),
        },
    }
}

/// The names declared types may be resolved to: the `types` and `generics`
/// names, the roots' inline variant bodies, and the types those bodies'
/// fields declare.
pub closed spec fn source_names(s: SchemaSource) -> Seq<Seq<char>> {
    s.types.entries@.map_values(|e: SourceTypeEntry| e.name@) + s.generics.entries@.map_values(
        |e: SourceGenericEntry| e.name@,
    ) + root_inline_names(s.input.body) + root_inline_names(s.output.body) + root_field_names(s.input.body)
        + root_field_names(s.output.body)
}

pub open spec fn root_inline_names(b: SourceRootBody) -> Seq<Seq<char>> {
    match b {
        SourceRootBody::Enum(e) => enum_inline_names(e),
        SourceRootBody::Application(_) => Seq::empty(),
    }
}

pub open spec fn root_field_names(b: SourceRootBody) -> Seq<Seq<char>> {
    match b {
        SourceRootBody::Enum(e) => enum_field_names(e),
        SourceRootBody::Application(_) => Seq::empty(),
    }
}

/// The parts a source lowers to.
pub struct LoweredModel {
    pub namespace: Seq<DeclarationModel>,
    pub input: RootModel,
    pub output: RootModel,
    pub impl_blocks: Seq<(Seq<char>, Seq<ImplModel>)>,
}

/// The names of a list of declarations.
pub open spec fn declared_names(d: Seq<DeclarationModel>) -> Seq<Seq<char>> {
    d.map_values(|x: DeclarationModel| x.name)
}

/// A source lowered: the `types`, then the `generics`, then the roots' inline
/// declarations, each name declared once; the roots against the namespace;
/// and every impl catalog resolved.
pub closed spec fn source_lowered(s: SchemaSource) -> Result<LoweredModel, LowerFault> {
    let names = source_names(s);
    match types_lowered(s.types.entries@, names, Seq::empty()) {
        Err(f) => Err(f),
        Ok(a) => match generics_lowered(s.generics.entries@, names, a) {
            Err(f) => Err(f),
            Ok(b) => match root_public(s.input, names) {
                Err(t) => Err(LowerFault::Syntax(t)),
                Ok(ins) => match push_checked(b, ins) {
                    Err(f) => Err(f),
                    Ok(c) => match root_public(s.output, names) {
                        Err(t) => Err(LowerFault::Syntax(t)),
                        Ok(outs) => match push_checked(c, outs) {
                            Err(f) => Err(f),
                            Ok(d) => match root_lowered(s.input, declared_names(d)) {
                                Err(f) => Err(f),
                                Ok(i) => match root_lowered(s.output, declared_names(d)) {
                                    Err(f) => Err(f),
                                    Ok(o) => Ok(
                                        LoweredModel {
                                            namespace: d,
                                            input: i,
                                            output: o,
                                            impl_blocks: s.impls.entries@.map_values(
                                                |e: SourceImplsEntry| (e.target@, catalog_lowered(e.catalog, names, None)),
                                            ),
                                        },
                                    ),
                                },
                            },
                        },
                    },
                },
            },
        },
    }
}

/// The tree a lowered source makes with its identity and imports.
pub open spec fn lowered_tree(
    l: LoweredModel,
    identity: SchemaIdentity,
    imports: Seq<ImportDeclaration>,
    resolved: Seq<ResolvedImport>,
) -> TreeModel {
    TreeModel {
        component: identity.component_view(),
        version: identity.version_view(),
        imports: import_declarations_model(imports),
        resolved_imports: imports_model(resolved),
        input: l.input,
        output: l.output,
        namespace: l.namespace,
        impl_blocks: l.impl_blocks,
    }
}

/// The error the product-component check reports on `t`.
pub open spec fn product_check_error(t: TreeModel, e: SchemaError) -> bool {
    exists|i: int|
        first_product_failure(t, i) && (#[trigger] t.namespace[i].value matches TypeDeclarationModel::Struct(_, fields)
            && product_error(e, fields))
}

/// The error the impl-target check reports on `t`.
pub open spec fn impls_check_error(t: TreeModel, e: SchemaError) -> bool {
    (exists|i: int|
        first_unresolved_block(t, i) && (e matches SchemaError::UnresolvedImplTarget { name } && name@ == (
        #[trigger] t.impl_blocks[i]).0)) || (block_targets_ok(t) && exists|j: int|
        first_impl_repeat(manifest(t), j) && (e matches SchemaError::DuplicateImplEntry { target, entry }
            && target@ == manifest(t)[j].0 && entry@ == label_of(#[trigger] manifest(t)[j].1)))
}

/// Append `ds` to `acc` one by one, refusing a name already declared.
#[verifier::loop_isolation(false)]
fn push_declarations(acc: &mut Vec<Declaration>, ds: Vec<Declaration>) -> (r: Result<(), SchemaError>)
    ensures
        match push_checked(declarations_model(old(acc)@), declarations_model(ds@)) {
            Ok(m) => r is Ok && declarations_model(final(acc)@) == m,
            Err(f) => r matches Err(e) && lower_error(e, f),
        },
{
    let ghost a0 = declarations_model(acc@);
    let ghost dm = declarations_model(ds@);
    let mut ds = ds;
    let n = ds.len();
    let mut i: usize = 0;
    assert(dm.take(0) =~= Seq::<DeclarationModel>::empty());
    assert(ds@ =~= ds@.subrange(0, n as int));
    let ghost d0 = ds@;
    while i < n
        invariant
            n == d0.len(),
            dm == declarations_model(d0),
            i <= n,
            ds@ == d0.subrange(i as int, n as int),
            push_checked(a0, dm.take(i as int)) == Ok::<Seq<DeclarationModel>, LowerFault>(declarations_model(acc@)),
        decreases n - i,
    {
        let d = ds.remove(0);
        assert(d == d0[i as int]);
        assert(ds@ =~= d0.subrange(i + 1, n as int));
        let ghost t = dm.take(i + 1);
        assert(t.drop_last() =~= dm.take(i as int));
        assert(t.last() == d@);
        let mut k: usize = 0;
        while k < acc.len()
            invariant
                k <= acc@.len(),
                forall|j: int| 0 <= j < k ==> (#[trigger] acc@[j])@.name != d@.name,
            decreases acc.len() - k,
        {
            if acc[k].name().same(d.name()) {
                proof {
                    assert(declarations_model(acc@)[k as int] == acc@[k as int]@);
                    assert(has_declaration_named(declarations_model(acc@), d@.name));
                    lemma_push_checked_fault_stays(a0, dm, i as int + 1);
                }
                return Err(SchemaError::DuplicateSourceDeclaration { name: owned(d.name().as_str()) });
            }
            k += 1;
        }
        proof {
            assert(!has_declaration_named(declarations_model(acc@), d@.name)) by {
                if has_declaration_named(declarations_model(acc@), d@.name) {
                    let j = choose|j: int|
                        0 <= j < declarations_model(acc@).len() && (#[trigger] declarations_model(acc@)[j]).name == d@.name;
                    assert(acc@[j]@.name != d@.name);
                }
            }
        }
        let ghost before = acc@;
        acc.push(d);
        assert(declarations_model(acc@) =~= declarations_model(before).push(d@));
        i += 1;
    }
    assert(dm.take(n as int) =~= dm);
    Ok(())
}

/// A refusal among the first `k` declarations pushed is the refusal of all.
proof fn lemma_push_checked_fault_stays(acc: Seq<DeclarationModel>, ds: Seq<DeclarationModel>, k: int)
    requires
        0 <= k <= ds.len(),
        push_checked(acc, ds.take(k)) is Err,
    ensures
        push_checked(acc, ds) == push_checked(acc, ds.take(k)),
    decreases ds.len() - k,
{
    if k == ds.len() {
        assert(ds.take(k) =~= ds);
    } else {
        let t = ds.take(k + 1);
        assert(t.drop_last() =~= ds.take(k));
        lemma_push_checked_fault_stays(acc, ds, k + 1);
    }
}

proof fn lemma_types_fault_stays(es: Seq<SourceTypeEntry>, names: Seq<Seq<char>>, acc: Seq<DeclarationModel>, k: int)
    requires
        0 <= k <= es.len(),
        types_lowered(es.take(k), names, acc) is Err,
    ensures
        types_lowered(es, names, acc) == types_lowered(es.take(k), names, acc),
    decreases es.len() - k,
{
    if k == es.len() {
        assert(es.take(k) =~= es);
    } else {
        let t = es.take(k + 1);
        assert(t.drop_last() =~= es.take(k));
        lemma_types_fault_stays(es, names, acc, k + 1);
    }
}

proof fn lemma_generics_fault_stays(es: Seq<SourceGenericEntry>, names: Seq<Seq<char>>, acc: Seq<DeclarationModel>, k: int)
    requires
        0 <= k <= es.len(),
        generics_lowered(es.take(k), names, acc) is Err,
    ensures
        generics_lowered(es, names, acc) == generics_lowered(es.take(k), names, acc),
    decreases es.len() - k,
{
    if k == es.len() {
        assert(es.take(k) =~= es);
    } else {
        let t = es.take(k + 1);
        assert(t.drop_last() =~= es.take(k));
        lemma_generics_fault_stays(es, names, acc, k + 1);
    }
}

/// A copy of a list of names.
#[verifier::loop_isolation(false)]
fn copy_names(ns: &[Name]) -> (r: Vec<Name>)
    ensures
        names_view(r@) == names_view(ns@),
{
    let mut out: Vec<Name> = Vec::new();
    let mut i: usize = 0;
    while i < ns.len()
        invariant
            i <= ns@.len(),
            names_view(out@) == names_view(ns@).take(i as int),
        decreases ns.len() - i,
    {
        let ghost before = out@;
        let x = ns[i].duplicate();
        out.push(x);
        assert(out@ == before.push(x));
        assert(names_view(out@) =~= names_view(before).push(x@));
        assert(names_view(out@) =~= names_view(ns@).take(i + 1));
        i += 1;
    }
    assert(names_view(ns@).take(ns@.len() as int) =~= names_view(ns@));
    out
}

impl SourceRootEnum {
    /// The declarations this root's enum body writes inline.
    fn public_inline_declarations(&self, resolver: &SourceTypeResolver) -> (r: Result<Vec<Declaration>, SchemaError>)
        ensures
            match (r, root_public(*self, resolver@)) {
                (Ok(d), Ok(m)) => declarations_model(d@) == m,
                (Err(e), Err(t)) => lowering_fault(e, t),
                _ => false,
            },
    {
        match &self.body {
            SourceRootBody::Enum(b) => b.public_inline_declarations(resolver),
            SourceRootBody::Application(_) => {
                let v: Vec<Declaration> = Vec::new();
                assert(declarations_model(v@) =~= Seq::<DeclarationModel>::empty());
                Ok(v)
            },
        }
    }

    /// This root lowered against the namespace's declared names.
    #[verifier::loop_isolation(false)]
    fn to_root(&self, declared: &SourceTypeResolver) -> (r: Result<Root, SchemaError>)
        ensures
            match root_lowered(*self, declared@) {
                Ok(m) => r matches Ok(x) && x@ == m,
                Err(f) => r matches Err(e) && lower_error(e, f),
            },
    {
        match &self.body {
            SourceRootBody::Enum(b) => {
                let vs = b.variants();
                let mut variants: Vec<EnumVariant> = Vec::new();
                let mut i: usize = 0;
                while i < vs.len()
                    invariant
                        i <= vs@.len(),
                        vs@ == b.variants_view(),
                        variants@.len() == i,
                        forall|j: int|
                            0 <= j < i ==> variant_view(#[trigger] variants@[j]) == enum_variant_model(
                                vs@[j],
                                declared@,
                                None,
                            ),
                    decreases vs.len() - i,
                {
                    variants.push(vs[i].to_enum_variant(declared, None));
                    i += 1;
                }
                assert(variants_view(variants@) =~= enum_variants_model(b.variants_view(), declared@, None));
                let d = EnumDeclaration::new(self.name.duplicate(), variants);
                Ok(Root::Enum(d))
            },
            SourceRootBody::Application(a) => {
                let t = a.to_type_reference();
                match t {
                    TypeReference::Application { head, arguments } => {
                        proof {
                            crate::reference::lemma_app_args(t);
                        }
                        Ok(Root::application(RootApplication::new(self.name.duplicate(), head, arguments)))
                    },
                    _ => {
                        proof {
                            reveal_strlit("root");
                        }
                        Err(SchemaError::ExpectedRootApplication { position: "root", found: a.to_schema_text() })
                    },
                }
            },
        }
    }
}

impl SchemaSource {
    /// The resolver over the names this source declares.
    #[verifier::loop_isolation(false)]
    pub fn type_resolver(&self) -> (r: SourceTypeResolver)
        ensures
            r@ == source_names(*self),
    {
        let mut names: Vec<Name> = Vec::new();
        let ts = self.types.entries();
        let mut i: usize = 0;
        assert(names_view(names@) =~= ts@.map_values(|e: SourceTypeEntry| e.name@).take(0));
        while i < ts.len()
            invariant
                i <= ts@.len(),
                names_view(names@) == ts@.map_values(|e: SourceTypeEntry| e.name@).take(i as int),
            decreases ts.len() - i,
        {
            let ghost before = names@;
            let x = ts[i].name().duplicate();
            names.push(x);
            assert(names@ == before.push(x));
            assert(names_view(names@) =~= names_view(before).push(x@));
            assert(names_view(names@) =~= ts@.map_values(|e: SourceTypeEntry| e.name@).take(i + 1));
            i += 1;
        }
        let ghost tn = ts@.map_values(|e: SourceTypeEntry| e.name@);
        assert(tn.take(ts@.len() as int) =~= tn);
        let gs = self.generics.entries();
        let ghost gn = gs@.map_values(|e: SourceGenericEntry| e.name@);
        let mut j: usize = 0;
        assert(names_view(names@) =~= tn + gn.take(0));
        while j < gs.len()
            invariant
                j <= gs@.len(),
                gn == gs@.map_values(|e: SourceGenericEntry| e.name@),
                names_view(names@) == tn + gn.take(j as int),
            decreases gs.len() - j,
        {
            let ghost before = names@;
            let x = gs[j].name().duplicate();
            names.push(x);
            assert(names@ == before.push(x));
            assert(names_view(names@) =~= names_view(before).push(x@));
            assert(names_view(names@) =~= tn + gn.take(j + 1));
            j += 1;
        }
        assert(gn.take(gs@.len() as int) =~= gn);
        let mut a = self.input.body.inline_declaration_names();
        let mut b = self.output.body.inline_declaration_names();
        let mut c = self.input.body.public_inline_field_declaration_names();
        let mut d = self.output.body.public_inline_field_declaration_names();
        let ghost (av, bv, cv, dv) = (names_view(a@), names_view(b@), names_view(c@), names_view(d@));
        let ghost n0 = names@;
        names.append(&mut a);
        let ghost n1 = names@;
        names.append(&mut b);
        let ghost n2 = names@;
        names.append(&mut c);
        let ghost n3 = names@;
        names.append(&mut d);
        proof {
            assert(names_view(n1) =~= names_view(n0) + av);
            assert(names_view(n2) =~= names_view(n1) + bv);
            assert(names_view(n3) =~= names_view(n2) + cv);
            assert(names_view(names@) =~= names_view(n3) + dv);
            assert(names_view(names@) =~= source_names(*self));
        }
        SourceTypeResolver::new(names)
    }

    /// Lower this source into its schema tree under `identity` with the given
    /// imports, and run the product-component, arity and impl-target checks
    /// on it.
    #[verifier::loop_isolation(false)]
    pub fn to_schema_tree(
        &self,
        identity: SchemaIdentity,
        imports: Vec<ImportDeclaration>,
        resolved: Vec<ResolvedImport>,
    ) -> (r: Result<SchemaTree, SchemaError>)
        ensures
            match source_lowered(*self) {
                Err(f) => r matches Err(e) && lower_error(e, f),
                Ok(l) => {
                    let t = lowered_tree(l, identity, imports@, resolved@);
                    &&& (r is Ok <==> products_ok(t) && arities_ok(t) && block_targets_ok(t) && manifest_distinct(
                        manifest(t),
                    ))
                    &&& (r matches Ok(x) ==> x@ == t)
                    &&& (!products_ok(t) ==> (r matches Err(e) && product_check_error(t, e)))
                    &&& (products_ok(t) && !arities_ok(t) ==> (r matches Err(e) && (tree_arity_fault(
                        t,
                    ) matches Some(fa) && arity_error(e, fa))))
                    &&& (products_ok(t) && arities_ok(t) ==> (r matches Err(e) ==> impls_check_error(t, e)))
                },
            },
    {
        let resolver = self.type_resolver();
        let ghost names = resolver@;
        let mut decls: Vec<Declaration> = Vec::new();
        assert(declarations_model(decls@) =~= Seq::<DeclarationModel>::empty());
        // The types.
        let ts = self.types.entries();
        let ghost tes = ts@;
        let mut i: usize = 0;
        assert(tes.take(0) =~= Seq::<SourceTypeEntry>::empty());
        while i < ts.len()
            invariant
                i <= tes.len(),
                tes == ts@,
                tes == self.types.entries@,
                names == resolver@,
                types_lowered(tes.take(i as int), names, Seq::empty()) == Ok::<Seq<DeclarationModel>, LowerFault>(
                    declarations_model(decls@),
                ),
            decreases ts.len() - i,
        {
            let ghost t1 = tes.take(i + 1);
            assert(t1.drop_last() =~= tes.take(i as int));
            assert(t1.last() == tes[i as int]);
            let entry = &ts[i];
            if TypeReference::is_reserved_scalar_name(entry.name()) {
                proof {
                    lemma_types_fault_stays(tes, names, Seq::empty(), i as int + 1);
                }
                return Err(SchemaError::ReservedScalarTypeName { name: owned(entry.name().as_str()) });
            }
            match entry.value().to_namespace_declaration_group(entry.name().duplicate(), &resolver, None) {
                Err(e) => {
                    proof {
                        lemma_types_fault_stays(tes, names, Seq::empty(), i as int + 1);
                    }
                    return Err(e);
                },
                Ok(g) => {
                    let ds = g.into_public_declarations(Vec::new());
                    proof {
                        assert(names_view(Seq::<Name>::empty()) =~= Seq::<Seq<char>>::empty());
                    }
                    let pushed = push_declarations(&mut decls, ds);
                    if pushed.is_err() {
                        proof {
                            lemma_types_fault_stays(tes, names, Seq::empty(), i as int + 1);
                        }
                        return Err(pushed.unwrap_err());
                    }
                },
            }
            i += 1;
        }
        assert(tes.take(tes.len() as int) =~= tes);
        let ghost after_types = declarations_model(decls@);
        // The generics.
        let gs = self.generics.entries();
        let ghost ges = gs@;
        let mut k: usize = 0;
        assert(ges.take(0) =~= Seq::<SourceGenericEntry>::empty());
        while k < gs.len()
            invariant
                k <= ges.len(),
                ges == gs@,
                ges == self.generics.entries@,
                names == resolver@,
                generics_lowered(ges.take(k as int), names, after_types) == Ok::<Seq<DeclarationModel>, LowerFault>(
                    declarations_model(decls@),
                ),
            decreases gs.len() - k,
        {
            let ghost t1 = ges.take(k + 1);
            assert(t1.drop_last() =~= ges.take(k as int));
            assert(t1.last() == ges[k as int]);
            let entry = &gs[k];
            if TypeReference::is_reserved_scalar_name(entry.name()) {
                proof {
                    lemma_generics_fault_stays(ges, names, after_types, k as int + 1);
                }
                return Err(SchemaError::ReservedScalarTypeName { name: owned(entry.name().as_str()) });
            }
            match entry.value().to_namespace_declaration_group(entry.name().duplicate(), &resolver, None) {
                Err(e) => {
                    proof {
                        lemma_generics_fault_stays(ges, names, after_types, k as int + 1);
                    }
                    return Err(e);
                },
                Ok(g) => {
                    let ds = g.into_public_declarations(copy_names(entry.parameters()));
                    let pushed = push_declarations(&mut decls, ds);
                    if pushed.is_err() {
                        proof {
                            lemma_generics_fault_stays(ges, names, after_types, k as int + 1);
                        }
                        return Err(pushed.unwrap_err());
                    }
                },
            }
            k += 1;
        }
        assert(ges.take(ges.len() as int) =~= ges);
        // The roots' inline declarations.
        let ins = self.input.public_inline_declarations(&resolver)?;
        push_declarations(&mut decls, ins)?;
        let outs = self.output.public_inline_declarations(&resolver)?;
        push_declarations(&mut decls, outs)?;
        // The roots, against the namespace.
        let mut declared: Vec<Name> = Vec::new();
        let mut m: usize = 0;
        while m < decls.len()
            invariant
                m <= decls@.len(),
                names_view(declared@) == declared_names(declarations_model(decls@)).take(m as int),
            decreases decls.len() - m,
        {
            let ghost before = declared@;
            let x = decls[m].name().duplicate();
            declared.push(x);
            assert(declared@ == before.push(x));
            assert(names_view(declared@) =~= names_view(before).push(x@));
            assert(names_view(declared@) =~= declared_names(declarations_model(decls@)).take(m + 1));
            m += 1;
        }
        assert(declared_names(declarations_model(decls@)).take(decls@.len() as int) =~= declared_names(
            declarations_model(decls@),
        ));
        let declared = SourceTypeResolver::new(declared);
        let input = self.input.to_root(&declared)?;
        let output = self.output.to_root(&declared)?;
        // The impl blocks.
        let es = self.impls.entries();
        let mut blocks: Vec<ImplBlock> = Vec::new();
        let mut b: usize = 0;
        while b < es.len()
            invariant
                b <= es@.len(),
                es@ == self.impls.entries@,
                names == resolver@,
                blocks@.len() == b,
                forall|j: int|
                    0 <= j < b ==> (#[trigger] blocks@[j])@ == (es@[j].target@, catalog_lowered(es@[j].catalog, names, None)),
            decreases es.len() - b,
        {
            blocks.push(ImplBlock::new(es[b].target.duplicate(), es[b].catalog.lower(&resolver, None)));
            b += 1;
        }
        let ghost l = source_lowered(*self)->Ok_0;
        assert(blocks_model(blocks@) =~= l.impl_blocks);
        let tree = SchemaTree::new(identity, imports, resolved, input, output, decls).with_impl_blocks(blocks);
        assert(tree@ == lowered_tree(l, identity, imports@, resolved@));
        let tree = tree.product_components_verified()?;
        let tree = tree.arities_verified()?;
        tree.impls_verified()
    }
}


// ---------------------------------------------------------------------------
// Reading an import entry from blocks.
// ---------------------------------------------------------------------------

/// The text a block carries as a plain string: an atom's text or a pipe
/// text's text.
pub open spec fn demoted_text(b: DotosBlock) -> Option<Seq<char>> {
    match b.form {
        BlockForm::Atom(t) => Some(t@),
        BlockForm::PipeText(t) => Some(t@),
        _ => None,
    }
}

/// The dotted text of a block: an application as its head's and payload's
/// texts joined by a dot, an atom as its text, anything else as re-emitted.
pub open spec fn dotted_text(b: DotosBlock) -> Seq<char>
    decreases b,
{
    match b.form {
        BlockForm::Application(h, p, _) => dotted_text(*h) + seq!['.'] + dotted_text(*p),
        BlockForm::Atom(t) => t@,
        _ => b.fallback@,
    }
}

/// The path segments of a dotted import head and the block that ends it, or
/// the text of the first segment that is not a plain string.
pub open spec fn import_chain(b: DotosBlock) -> Result<(Seq<Seq<char>>, DotosBlock), Seq<char>>
    decreases b,
{
    match b.form {
        BlockForm::Application(h, p, _) => match demoted_text(*h) {
            None => Err(b.fallback@),
            Some(seg) => match import_chain(*p) {
                Err(e) => Err(e),
                Ok(x) => Ok((seq![seg] + x.0, x.1)),
            },
        },
        _ => Ok((Seq::empty(), b)),
    }
}

/// One bracketed import target: an application as its dotted text, else its
/// plain string.
pub open spec fn import_target(b: DotosBlock) -> Result<Seq<char>, Seq<char>> {
    match b.form {
        BlockForm::Application(..) => Ok(dotted_text(b)),
        _ => match demoted_text(b) {
            Some(t) => Ok(t),
            None => Err(b.fallback@),
        },
    }
}

/// The bracketed import targets, in order, or the first that is neither.
pub open spec fn import_targets(objs: Seq<DotosBlock>) -> Result<Seq<Seq<char>>, Seq<char>>
    decreases objs.len(),
{
    if objs.len() == 0 {
        Ok(Seq::empty())
    } else {
        match import_targets(objs.drop_last()) {
            Err(e) => Err(e),
            Ok(acc) => match import_target(objs.last()) {
                Err(e) => Err(e),
                Ok(t) => Ok(acc.push(t)),
            },
        }
    }
}

/// The path and targets of the import entry at `index`: a dotted lowercase
/// path ending in a capitalized target, or ending at a dot before a bracket
/// of targets; else the text of the malformed source.
pub open spec fn import_parts(blocks: Seq<DotosBlock>, index: int) -> Result<(Seq<Seq<char>>, Seq<Seq<char>>), Seq<char>> {
    if !(0 <= index < blocks.len()) {
        Err(Seq::empty())
    } else {
        match import_chain(blocks[index]) {
            Err(e) => Err(e),
            Ok(x) => match x.1.form {
                BlockForm::Delimited(BlockDelimiter::SquareBracket, objs) => match import_targets(objs@) {
                    Err(e) => Err(e),
                    Ok(ts) => Ok((x.0, ts)),
                },
                BlockForm::Atom(t) => Ok((x.0, seq![t@])),
                _ => Err(x.1.fallback@),
            },
        }
    }
}

pub(crate) fn demote(b: &DotosBlock) -> (r: Option<String>)
    ensures
        match r {
            Some(t) => demoted_text(*b) == Some(t@),
            None => demoted_text(*b) is None,
        },
{
    match &b.form {
        BlockForm::Atom(t) => Some(owned(t.as_str())),
        BlockForm::PipeText(t) => Some(owned(t.as_str())),
        _ => None,
    }
}

fn dotted(b: &DotosBlock) -> (r: String)
    ensures
        r@ == dotted_text(*b),
    decreases b,
{
    match &b.form {
        BlockForm::Application(h, p, _) => {
            let mut text = dotted(h);
            text.append(".");
            text.append(dotted(p).as_str());
            proof {
                reveal_strlit(".");
                assert("."@ =~= seq!['.']);
            }
            text
        },
        BlockForm::Atom(t) => owned(t.as_str()),
        _ => owned(b.fallback.as_str()),
    }
}

/// Collect the path segments of a dotted import head onto `segments`, and
/// give the block that ends it.
fn read_import_chain<'a>(b: &'a DotosBlock, segments: &mut Vec<Name>) -> (r: Result<&'a DotosBlock, SchemaError>)
    ensures
        match import_chain(*b) {
            Ok(x) => r matches Ok(t) && *t == x.1 && names_view(final(segments)@) == names_view(old(segments)@) + x.0,
            Err(e) => r matches Err(SchemaError::MalformedImportSource { found }) && found@ == e,
        },
    decreases b,
{
    match &b.form {
        BlockForm::Application(h, p, _) => match demote(h) {
            None => Err(SchemaError::MalformedImportSource { found: owned(b.fallback.as_str()) }),
            Some(seg) => {
                let ghost before = segments@;
                let x = Name::from_string(seg);
                segments.push(x);
                assert(names_view(segments@) =~= names_view(before).push(x@));
                let r = read_import_chain(p, segments);
                proof {
                    if let Ok(y) = import_chain(**p) {
                        assert(names_view(before).push(x@) + y.0 =~= names_view(before) + (seq![x@] + y.0));
                    }
                }
                r
            },
        },
        _ => {
            assert(names_view(segments@) =~= names_view(segments@) + Seq::<Seq<char>>::empty());
            Ok(b)
        },
    }
}

impl SourceImport {
    /// Read the import entry at `index`, which moves past it: a dotted
    /// lowercase path ending in its one capitalized target, or ending at a
    /// dot before a bracket of targets.
    #[verifier::loop_isolation(false)]
    pub fn from_blocks_at(blocks: &[DotosBlock], index: &mut usize) -> (r: Result<Self, SchemaError>)
        ensures
            match import_parts(blocks@, *old(index) as int) {
                Err(t) => r matches Err(SchemaError::MalformedImportSource { found }) && found@ == t,
                Ok(p) => import_new_result(p.0, p.1, r) && *final(index) == *old(index) + 1,
            },
    {
        if *index >= blocks.len() {
            return Err(SchemaError::MalformedImportSource { found: String::new() });
        }
        let head = &blocks[*index];
        let mut segments: Vec<Name> = Vec::new();
        assert(names_view(segments@) =~= Seq::<Seq<char>>::empty());
        let terminal = read_import_chain(head, &mut segments)?;
        *index += 1;
        match &terminal.form {
            BlockForm::Delimited(BlockDelimiter::SquareBracket, objs) => {
                let mut targets: Vec<Name> = Vec::new();
                let mut i: usize = 0;
                assert(objs@.take(0) =~= Seq::<DotosBlock>::empty());
                assert(names_view(targets@) =~= Seq::<Seq<char>>::empty());
                while i < objs.len()
                    invariant
                        i <= objs@.len(),
                        import_targets(objs@.take(i as int)) == Ok::<Seq<Seq<char>>, Seq<char>>(names_view(targets@)),
                    decreases objs.len() - i,
                {
                    let o = &objs[i];
                    let ghost t1 = objs@.take(i + 1);
                    assert(t1.drop_last() =~= objs@.take(i as int));
                    assert(t1.last() == objs@[i as int]);
                    let text = match &o.form {
                        BlockForm::Application(..) => dotted(o),
                        _ => match demote(o) {
                            Some(t) => t,
                            None => {
                                proof {
                                    lemma_import_targets_fault_stays(objs@, i as int + 1);
                                }
                                return Err(SchemaError::MalformedImportSource { found: owned(o.fallback.as_str()) });
                            },
                        },
                    };
                    let ghost before = targets@;
                    let x = Name::from_string(text);
                    targets.push(x);
                    assert(names_view(targets@) =~= names_view(before).push(x@));
                    i += 1;
                }
                assert(objs@.take(objs@.len() as int) =~= objs@);
                SourceImport::new(segments, targets)
            },
            BlockForm::Atom(t) => {
                let target = Name::new(t.as_str());
                let targets = vec![target];
                assert(names_view(targets@) =~= seq![t@]);
                SourceImport::new(segments, targets)
            },
            _ => Err(SchemaError::MalformedImportSource { found: owned(terminal.fallback.as_str()) }),
        }
    }
}

/// A bracketed target that is neither an application nor a plain string
/// among the first `k` is the fault of all of them.
proof fn lemma_import_targets_fault_stays(objs: Seq<DotosBlock>, k: int)
    requires
        0 <= k <= objs.len(),
        import_targets(objs.take(k)) is Err,
    ensures
        import_targets(objs) == import_targets(objs.take(k)),
    decreases objs.len() - k,
{
    if k == objs.len() {
        assert(objs.take(k) =~= objs);
    } else {
        let t = objs.take(k + 1);
        assert(t.drop_last() =~= objs.take(k));
        lemma_import_targets_fault_stays(objs, k + 1);
    }
}

} // verus!
