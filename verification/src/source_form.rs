//! The source form of declarations: re-headed declarations, their struct,
//! enum, reference, and text bodies, the fields and variants of those bodies,
//! and impl catalogs of method signatures, each with its `.schema` text.

use crate::declaration::{
    declarations_model, field_model, fields_model, type_model, type_model_name, Declaration,
    DeclarationModel, EnumDeclaration, FieldDeclaration, FieldModel, ImplCatalog, ImplModel,
    ImplReference, MethodParameter, MethodSignature, NewtypeDeclaration, SignatureModel, signatures_model,
    StructDeclaration, TypeDeclaration, TypeDeclarationModel, Visibility,
};
use crate::engine::SchemaError;
use crate::lowering::{namespace_view, resolve_name_seq, resolve_source, SourceTypeResolver};
use crate::name::{dotos_seq, field_seq, local_seq, names_view, pipe_text_seq, qualified_seq, Name};
use crate::reference::{variant_view, variants_view, EnumVariant, VariantModel};
use crate::reference::{reference_view, TypeReference};
use crate::source_reference::{
    can_inline_seq, raised_view, source_text_seq, source_view, SourceReference,
};
use crate::text::is_ascii_upper;
use crate::text::{join, join_seq, views_of};
use vstd::prelude::*;

verus! {

/// A list of re-headed declarations.
#[derive(Debug)]
pub struct SourceDeclarations {
    declarations: Vec<SourceDeclaration>,
}

/// One re-headed declaration `(Name Body)`, or `(Name)` without a body.
#[derive(Debug)]
pub struct SourceDeclaration {
    name: Name,
    value: Option<SourceDeclarationValue>,
}

/// A declaration body: a reference, a text literal, a struct, or an enum.
#[derive(Debug)]
pub enum SourceDeclarationValue {
    Reference(SourceReference),
    Text(String),
    Struct(SourceStructBody),
    Enum(SourceEnumBody),
}

/// A struct body: its fields in order.
#[derive(Debug)]
pub struct SourceStructBody {
    fields: Vec<SourceField>,
}

/// Whether a field's name was written or is implied by its reference.
#[derive(Clone, Copy, Debug, PartialEq, Eq, Structural)]
pub enum SourceFieldIdentity {
    Implicit,
    Explicit,
}

/// One struct field: a name, a value, and whether the name was written.
#[derive(Debug)]
pub struct SourceField {
    name: Name,
    value: SourceFieldValue,
    identity: SourceFieldIdentity,
}

/// A field's value: derived from its name, a reference, or an inline
/// declaration body.
#[derive(Debug)]
pub enum SourceFieldValue {
    Derived,
    Reference(SourceReference),
    Declaration(SourceDeclarationValue),
}

/// An enum body: its variants in order.
#[derive(Debug)]
pub struct SourceEnumBody {
    variants: Vec<SourceVariantSignature>,
}

/// One enum variant: a unit variant, or a variant carrying a payload.
#[derive(Debug)]
pub enum SourceVariantSignature {
    Unit(SourceVariantName),
    Data(SourceVariantName, SourceVariantPayload),
}

/// A variant name.
#[derive(Debug)]
pub struct SourceVariantName {
    name: Name,
}

/// A variant payload: a reference, or an inline declaration body.
#[derive(Debug)]
pub enum SourceVariantPayload {
    Reference(SourceReference),
    Declaration(SourceDeclarationValue),
}

/// One method parameter `name.Type`.
#[derive(Debug)]
pub struct SourceMethodParameter {
    name: Name,
    reference: SourceReference,
}

/// A method signature `(name { params } Return)`.
#[derive(Debug)]
pub struct SourceMethodSignature {
    name: Name,
    parameters: Vec<SourceMethodParameter>,
    return_reference: SourceReference,
}

/// One entry of an impl catalog: a marker trait, a trait with its method
/// signatures, or an inherent method signature.
#[derive(Debug)]
pub enum SourceImplEntry {
    Marker(Name),
    TraitImpl(Name, Vec<SourceMethodSignature>),
    InherentMethod(SourceMethodSignature),
}

/// A square-bracket catalog of impl entries.
#[derive(Debug)]
pub struct SourceImplCatalog {
    entries: Vec<SourceImplEntry>,
}

/// `parts` between `open` and `close`, separated by single spaces.
pub open spec fn wrapped(open: Seq<char>, parts: Seq<Seq<char>>, close: Seq<char>) -> Seq<char> {
    open + join_seq(parts, seq![' ']) + close
}

/// `parts` between `open` and `close` with a space inside each delimiter, or
/// the bare delimiters when there are no parts.
pub open spec fn inline_seq(open: Seq<char>, parts: Seq<Seq<char>>, close: Seq<char>) -> Seq<char> {
    if parts.len() == 0 {
        open + close
    } else {
        open + seq![' '] + join_seq(parts, seq![' ']) + seq![' '] + close
    }
}

/// The text of a declaration body.
pub closed spec fn value_text(v: SourceDeclarationValue) -> Seq<char>
    decreases v, 0int,
{
    match v {
        SourceDeclarationValue::Reference(r) => source_text_seq(source_view(r)),
        SourceDeclarationValue::Text(t) => pipe_text_seq(t@),
        SourceDeclarationValue::Struct(b) => struct_text(b),
        SourceDeclarationValue::Enum(b) => enum_text(b),
    }
}

/// The text of a struct body: `{}`, or `{ field … }`.
pub closed spec fn struct_text(b: SourceStructBody) -> Seq<char>
    decreases b, 1int,
{
    inline_seq(seq!['{'], field_texts(b), seq!['}'])
}

/// The texts of a struct body's fields, in order.
pub closed spec fn field_texts(b: SourceStructBody) -> Seq<Seq<char>>
    decreases b, 0int,
{
    Seq::new(
        b.fields@.len(),
        |i: int|
            if 0 <= i < b.fields@.len() {
                field_text(b.fields@[i])
            } else {
                Seq::empty()
            },
    )
}

/// The text of a field.
pub closed spec fn field_text(f: SourceField) -> Seq<char>
    decreases f, 0int,
{
    match f.value {
        SourceFieldValue::Derived => match f.identity {
            SourceFieldIdentity::Implicit => dotos_seq(f.name@),
            SourceFieldIdentity::Explicit => dotos_seq(f.name@) + seq![' ', '*'],
        },
        SourceFieldValue::Reference(r) => match f.identity {
            SourceFieldIdentity::Implicit => source_text_seq(source_view(r)),
            SourceFieldIdentity::Explicit => dotos_seq(f.name@) + seq!['.'] + source_text_seq(
                source_view(r),
            ),
        },
        SourceFieldValue::Declaration(v) => dotos_seq(f.name@) + seq![' '] + value_text(v),
    }
}

/// The text of an enum body: its variants in square brackets.
pub closed spec fn enum_text(b: SourceEnumBody) -> Seq<char>
    decreases b, 1int,
{
    wrapped(seq!['['], variant_texts(b), seq![']'])
}

/// The texts of an enum body's variants, in order.
pub closed spec fn variant_texts(b: SourceEnumBody) -> Seq<Seq<char>>
    decreases b, 0int,
{
    Seq::new(
        b.variants@.len(),
        |i: int|
            if 0 <= i < b.variants@.len() {
                variant_text(b.variants@[i])
            } else {
                Seq::empty()
            },
    )
}

/// The text of a variant: its name; `Name.Payload` when the payload text is a
/// single inline token, `Name.(Payload)` otherwise; `(Name Body)` for an
/// inline declaration payload.
pub closed spec fn variant_text(v: SourceVariantSignature) -> Seq<char>
    decreases v, 0int,
{
    match v {
        SourceVariantSignature::Unit(n) => dotos_seq(n.name@),
        SourceVariantSignature::Data(n, SourceVariantPayload::Reference(r)) => {
            let payload = source_text_seq(source_view(r));
            if can_inline_seq(payload) {
                dotos_seq(n.name@) + seq!['.'] + payload
            } else {
                dotos_seq(n.name@) + seq!['.', '('] + payload + seq![')']
            }
        },
        SourceVariantSignature::Data(n, SourceVariantPayload::Declaration(d)) => wrapped(
            seq!['('],
            seq![dotos_seq(n.name@), value_text(d)],
            seq![')'],
        ),
    }
}

/// The text of a payload.
pub closed spec fn payload_text(p: SourceVariantPayload) -> Seq<char> {
    match p {
        SourceVariantPayload::Reference(r) => source_text_seq(source_view(r)),
        SourceVariantPayload::Declaration(d) => value_text(d),
    }
}

/// The text of a re-headed declaration.
pub closed spec fn declaration_text(d: SourceDeclaration) -> Seq<char> {
    match d.value {
        Some(v) => wrapped(seq!['('], seq![dotos_seq(d.name@), value_text(v)], seq![')']),
        None => wrapped(seq!['('], seq![dotos_seq(d.name@)], seq![')']),
    }
}

/// The text of a method parameter.
pub closed spec fn parameter_text(p: SourceMethodParameter) -> Seq<char> {
    dotos_seq(p.name@) + seq!['.'] + source_text_seq(source_view(p.reference))
}

/// The text of a method signature.
pub closed spec fn signature_text(s: SourceMethodSignature) -> Seq<char> {
    wrapped(
        seq!['('],
        seq![
            dotos_seq(s.name@),
            inline_seq(
                seq!['{'],
                Seq::new(s.parameters@.len(), |i: int| parameter_text(s.parameters@[i])),
                seq!['}'],
            ),
            source_text_seq(source_view(s.return_reference)),
        ],
        seq![')'],
    )
}

/// The text of an impl entry.
pub closed spec fn impl_entry_text(e: SourceImplEntry) -> Seq<char> {
    match e {
        SourceImplEntry::Marker(n) => dotos_seq(n@),
        SourceImplEntry::TraitImpl(n, sigs) => dotos_seq(n@) + seq![' '] + inline_seq(
            seq!['['],
            Seq::new(sigs@.len(), |i: int| signature_text(sigs@[i])),
            seq![']'],
        ),
        SourceImplEntry::InherentMethod(s) => signature_text(s),
    }
}


/// Whether a name is a type name: its first character is an ASCII capital.
pub open spec fn is_type_seq(s: Seq<char>) -> bool {
    s.len() > 0 && is_ascii_upper(s[0])
}

/// The names carried by the `Some` entries, in order.
pub open spec fn somes(s: Seq<Option<Seq<char>>>) -> Seq<Seq<char>>
    decreases s.len(),
{
    if s.len() == 0 {
        Seq::empty()
    } else {
        match s.last() {
            Some(n) => somes(s.drop_last()).push(n),
            None => somes(s.drop_last()),
        }
    }
}

/// The lists concatenated in order.
pub open spec fn concat_all(s: Seq<Seq<Seq<char>>>) -> Seq<Seq<char>>
    decreases s.len(),
{
    if s.len() == 0 {
        Seq::empty()
    } else {
        concat_all(s.drop_last()) + s.last()
    }
}

/// The name a field declares inline: a type-named field whose value is a
/// reference or an inline body.
pub open spec fn field_inline_name(f: SourceField) -> Option<Seq<char>> {
    match f.value_view() {
        SourceFieldValue::Derived => None,
        _ => if is_type_seq(f.name_view()) {
            Some(f.name_view())
        } else {
            None
        },
    }
}

/// The names a struct body's fields declare inline, in order.
pub open spec fn struct_inline_names(b: SourceStructBody) -> Seq<Seq<char>> {
    somes(b.fields_view().map_values(|f: SourceField| field_inline_name(f)))
}

/// The name a variant declares inline: a variant with an inline body.
pub open spec fn variant_inline_name(v: SourceVariantSignature) -> Option<Seq<char>> {
    match v {
        SourceVariantSignature::Data(n, SourceVariantPayload::Declaration(_)) => Some(n.name_view()),
        _ => None,
    }
}

/// The names an enum body's variants declare inline, in order.
pub open spec fn enum_inline_names(b: SourceEnumBody) -> Seq<Seq<char>> {
    somes(b.variants_view().map_values(|v: SourceVariantSignature| variant_inline_name(v)))
}

/// The names the fields of a variant's inline struct body declare inline.
pub open spec fn variant_field_names(v: SourceVariantSignature) -> Seq<Seq<char>> {
    match v {
        SourceVariantSignature::Data(
            _,
            SourceVariantPayload::Declaration(SourceDeclarationValue::Struct(b)),
        ) => struct_inline_names(b),
        _ => Seq::empty(),
    }
}

/// The names declared inline by the fields of an enum body's inline struct
/// payloads, variant by variant.
pub open spec fn enum_field_names(b: SourceEnumBody) -> Seq<Seq<char>> {
    concat_all(b.variants_view().map_values(|v: SourceVariantSignature| variant_field_names(v)))
}

proof fn lemma_somes_take(s: Seq<Option<Seq<char>>>, i: int)
    requires
        0 <= i < s.len(),
    ensures
        somes(s.take(i + 1)) == match s[i] {
            Some(n) => somes(s.take(i)).push(n),
            None => somes(s.take(i)),
        },
{
    assert(s.take(i + 1).drop_last() =~= s.take(i));
}

proof fn lemma_concat_take(s: Seq<Seq<Seq<char>>>, i: int)
    requires
        0 <= i < s.len(),
    ensures
        concat_all(s.take(i + 1)) == concat_all(s.take(i)) + s[i],
{
    assert(s.take(i + 1).drop_last() =~= s.take(i));
}

fn clone_name(n: &Name) -> (r: Name)
    ensures
        r@ == n@,
{
    n.duplicate()
}

fn is_type_name(name: &Name) -> (r: bool)
    ensures
        r == is_type_seq(name@),
{
    let s = name.as_str();
    s.unicode_len() > 0 && crate::text::is_upper(s.get_char(0))
}

/// The text of an impl catalog: its entries inline in square brackets.
pub open spec fn catalog_text(c: SourceImplCatalog) -> Seq<char> {
    inline_seq(
        seq!['['],
        Seq::new(c.entries_view().len(), |i: int| impl_entry_text(c.entries_view()[i])),
        seq![']'],
    )
}

/// `parts` between `open` and `close`, separated by single spaces.
fn wrap(open: &str, parts: &Vec<String>, close: &str) -> (r: String)
    ensures
        r@ == wrapped(open@, views_of(parts@), close@),
{
    let mut r = crate::text::owned(open);
    let inner = join(parts, " ");
    proof {
        reveal_strlit(" ");
        assert(" "@ =~= seq![' ']);
    }
    r.append(inner.as_str());
    r.append(close);
    r
}

/// `parts` inline between two delimiters, or the bare delimiters.
fn inline(open: &str, parts: &Vec<String>, close: &str) -> (r: String)
    ensures
        r@ == inline_seq(open@, views_of(parts@), close@),
{
    proof {
        reveal_strlit(" ");
        assert(" "@ =~= seq![' ']);
    }
    let mut r = crate::text::owned(open);
    if parts.len() == 0 {
        r.append(close);
        return r;
    }
    r.append(" ");
    r.append(join(parts, " ").as_str());
    r.append(" ");
    r.append(close);
    r
}

/// Append one rendered part.
fn push_part(parts: &mut Vec<String>, text: String)
    ensures
        views_of(final(parts)@) == views_of(old(parts)@).push(text@),
{
    proof {
        crate::text::lemma_views_of_push(parts@, text);
    }
    parts.push(text);
}

/// A text literal in its pipe-text form.
fn pipe_text(text: &str) -> (r: String)
    ensures
        r@ == pipe_text_seq(text@),
{
    let mut r = crate::text::owned("[|");
    r.append(text);
    r.append("|]");
    proof {
        reveal_strlit("[|");
        assert("[|"@ =~= seq!['[', '|']);
        reveal_strlit("|]");
        assert("|]"@ =~= seq!['|', ']']);
    }
    r
}

impl SourceDeclarationValue {
    /// The body's `.schema` text.
    pub fn to_schema_text(&self) -> (r: String)
        ensures
            r@ == value_text(*self),
        decreases self,
    {
        match self {
            SourceDeclarationValue::Reference(reference) => reference.to_schema_text(),
            SourceDeclarationValue::Text(text) => pipe_text(text.as_str()),
            SourceDeclarationValue::Struct(body) => body.to_schema_text(),
            SourceDeclarationValue::Enum(body) => body.to_schema_text(),
        }
    }
}

impl SourceStructBody {
    pub closed spec fn fields_view(&self) -> Seq<SourceField> {
        self.fields@
    }

    pub fn new(fields: Vec<SourceField>) -> (r: Self)
        ensures
            r.fields_view() == fields@,
    {
        SourceStructBody { fields }
    }

    pub fn fields(&self) -> (r: &[SourceField])
        ensures
            r@ == self.fields_view(),
    {
        self.fields.as_slice()
    }

    /// The names the fields declare inline: each type-named field whose value
    /// is a reference or an inline body, in order.
    pub fn inline_field_declaration_names(&self) -> (r: Vec<Name>)
        ensures
            names_view(r@) == struct_inline_names(*self),
    {
        let ghost opts = self.fields_view().map_values(|f: SourceField| field_inline_name(f));
        let mut out: Vec<Name> = Vec::new();
        let mut i: usize = 0;
        assert(opts.take(0) =~= Seq::<Option<Seq<char>>>::empty());
        assert(names_view(out@) =~= Seq::<Seq<char>>::empty());
        while i < self.fields.len()
            invariant
                i <= self.fields@.len(),
                opts == self.fields_view().map_values(|f: SourceField| field_inline_name(f)),
                self.fields_view() == self.fields@,
                names_view(out@) == somes(opts.take(i as int)),
            decreases self.fields.len() - i,
        {
            proof {
                lemma_somes_take(opts, i as int);
            }
            let field = &self.fields[i];
            let keep = match &field.value {
                SourceFieldValue::Derived => false,
                _ => is_type_name(&field.name),
            };
            if keep {
                let ghost before = out@;
                out.push(clone_name(&field.name));
                proof {
                    crate::name::lemma_names_view_push(before, out@[before.len() as int]);
                }
            }
            i += 1;
        }
        assert(opts.take(self.fields@.len() as int) =~= opts);
        out
    }

    /// The struct body's `.schema` text: `{}`, or `{ field … }`.
    pub fn to_schema_text(&self) -> (r: String)
        ensures
            r@ == struct_text(*self),
        decreases self,
    {
        let ghost texts = field_texts(*self);
        let mut parts: Vec<String> = Vec::new();
        let mut i: usize = 0;
        while i < self.fields.len()
            invariant
                i <= self.fields@.len(),
                texts.len() == self.fields@.len(),
                forall|k: int| 0 <= k < self.fields@.len() ==> #[trigger] texts[k] == field_text(self.fields@[k]),
                views_of(parts@) == texts.take(i as int),
            decreases self.fields.len() - i,
        {
            proof {
                assert(decreases_to!(*self => self.fields));
                assert(decreases_to!(self.fields => self.fields@));
                assert(decreases_to!(self.fields@ => self.fields@[i as int]));
            }
            let text = self.fields[i].to_schema_text();
            push_part(&mut parts, text);
            assert(views_of(parts@) =~= texts.take(i + 1));
            i += 1;
        }
        assert(texts.take(texts.len() as int) =~= texts);
        proof {
            reveal_strlit("{");
            assert("{"@ =~= seq!['{']);
            reveal_strlit("}");
            assert("}"@ =~= seq!['}']);
        }
        inline("{", &parts, "}")
    }
}

impl SourceField {
    pub closed spec fn name_view(&self) -> Seq<char> {
        self.name@
    }

    pub closed spec fn value_view(&self) -> SourceFieldValue {
        self.value
    }

    pub closed spec fn identity_view(&self) -> SourceFieldIdentity {
        self.identity
    }

    /// A field whose name is implied by its reference.
    pub fn derived(name: Name) -> (r: Self)
        ensures
            r.name_view() == name@,
            r.value_view() is Derived,
            r.identity_view() == SourceFieldIdentity::Implicit,
    {
        SourceField { name, value: SourceFieldValue::Derived, identity: SourceFieldIdentity::Implicit }
    }

    /// A field with a written name and a reference.
    pub fn from_reference(name: Name, reference: SourceReference) -> (r: Self)
        ensures
            r.name_view() == name@,
            r.value_view() == SourceFieldValue::Reference(reference),
            r.identity_view() == SourceFieldIdentity::Explicit,
    {
        SourceField { name, value: SourceFieldValue::Reference(reference), identity: SourceFieldIdentity::Explicit }
    }

    /// A field carrying an inline declaration body.
    pub fn from_declaration(name: Name, value: SourceDeclarationValue) -> (r: Self)
        ensures
            r.name_view() == name@,
            r.value_view() == SourceFieldValue::Declaration(value),
            r.identity_view() == SourceFieldIdentity::Implicit,
    {
        SourceField { name, value: SourceFieldValue::Declaration(value), identity: SourceFieldIdentity::Implicit }
    }

    /// The field that renders a semantic field: a bare named type whose derived
    /// field name is the field's own name is written implicitly, anything else
    /// as `name.Reference`.
    pub fn from_type_reference(name: Name, reference: &TypeReference) -> (r: Self)
        ensures
            ({
                let source = raised_view(reference_view(*reference));
                if source is Plain && field_seq(local_seq(source->Plain_0)) == name@ {
                    &&& r.name_view() == source->Plain_0
                    &&& r.value_view() is Derived
                    &&& r.identity_view() == SourceFieldIdentity::Implicit
                } else {
                    &&& r.name_view() == name@
                    &&& r.value_view() is Reference
                    &&& source_view(r.value_view()->Reference_0) == source
                    &&& r.identity_view() == SourceFieldIdentity::Explicit
                }
            }),
    {
        let source = SourceReference::from_type_reference(reference);
        let derived_name = match source.plain_name() {
            Some(reference_name) => {
                if crate::text::str_eq(reference_name.field_name().as_str(), name.as_str()) {
                    Some(reference_name.duplicate())
                } else {
                    None
                }
            },
            None => None,
        };
        match derived_name {
            Some(reference_name) => Self::derived(reference_name),
            None => Self::from_reference(name, source),
        }
    }

    pub fn name(&self) -> (r: &Name)
        ensures
            r@ == self.name_view(),
    {
        &self.name
    }

    pub fn value(&self) -> (r: &SourceFieldValue)
        ensures
            *r == self.value_view(),
    {
        &self.value
    }

    /// The field's `.schema` text.
    pub fn to_schema_text(&self) -> (r: String)
        ensures
            r@ == field_text(*self),
        decreases self,
    {
        proof {
            reveal_strlit(" *");
            assert(" *"@ =~= seq![' ', '*']);
            reveal_strlit(".");
            assert("."@ =~= seq!['.']);
            reveal_strlit(" ");
            assert(" "@ =~= seq![' ']);
        }
        match &self.value {
            SourceFieldValue::Derived => match self.identity {
                SourceFieldIdentity::Implicit => self.name.to_dotos(),
                SourceFieldIdentity::Explicit => {
                    let mut r = self.name.to_dotos();
                    r.append(" *");
                    r
                },
            },
            SourceFieldValue::Reference(reference) => match self.identity {
                SourceFieldIdentity::Implicit => reference.to_schema_text(),
                SourceFieldIdentity::Explicit => {
                    let mut r = self.name.to_dotos();
                    r.append(".");
                    r.append(reference.to_schema_text().as_str());
                    r
                },
            },
            SourceFieldValue::Declaration(value) => {
                proof {
                    assert(decreases_to!(*self => self.value));
                }
                let mut r = self.name.to_dotos();
                r.append(" ");
                r.append(value.to_schema_text().as_str());
                r
            },
        }
    }
}

impl SourceFieldValue {
    /// The value's `.schema` text: `*` for a derived value.
    pub fn to_schema_text(&self) -> (r: String)
        ensures
            r@ == match *self {
                SourceFieldValue::Derived => seq!['*'],
                SourceFieldValue::Reference(x) => source_text_seq(source_view(x)),
                SourceFieldValue::Declaration(v) => value_text(v),
            },
    {
        proof {
            reveal_strlit("*");
            assert("*"@ =~= seq!['*']);
        }
        match self {
            SourceFieldValue::Derived => crate::text::owned("*"),
            SourceFieldValue::Reference(reference) => reference.to_schema_text(),
            SourceFieldValue::Declaration(value) => value.to_schema_text(),
        }
    }
}

impl SourceEnumBody {
    pub closed spec fn variants_view(&self) -> Seq<SourceVariantSignature> {
        self.variants@
    }

    pub fn new(variants: Vec<SourceVariantSignature>) -> (r: Self)
        ensures
            r.variants_view() == variants@,
    {
        SourceEnumBody { variants }
    }

    pub fn variants(&self) -> (r: &[SourceVariantSignature])
        ensures
            r@ == self.variants_view(),
    {
        self.variants.as_slice()
    }

    /// The names of the variants that carry an inline body, in order.
    pub fn inline_declaration_names(&self) -> (r: Vec<Name>)
        ensures
            names_view(r@) == enum_inline_names(*self),
    {
        let ghost opts = self.variants_view().map_values(
            |v: SourceVariantSignature| variant_inline_name(v),
        );
        let mut out: Vec<Name> = Vec::new();
        let mut i: usize = 0;
        assert(opts.take(0) =~= Seq::<Option<Seq<char>>>::empty());
        assert(names_view(out@) =~= Seq::<Seq<char>>::empty());
        while i < self.variants.len()
            invariant
                i <= self.variants@.len(),
                opts == self.variants_view().map_values(
                    |v: SourceVariantSignature| variant_inline_name(v),
                ),
                self.variants_view() == self.variants@,
                names_view(out@) == somes(opts.take(i as int)),
            decreases self.variants.len() - i,
        {
            proof {
                lemma_somes_take(opts, i as int);
            }
            match &self.variants[i] {
                SourceVariantSignature::Data(name, SourceVariantPayload::Declaration(_)) => {
                    let ghost before = out@;
                    out.push(clone_name(&name.name));
                    proof {
                        crate::name::lemma_names_view_push(before, out@[before.len() as int]);
                    }
                },
                _ => {},
            }
            i += 1;
        }
        assert(opts.take(self.variants@.len() as int) =~= opts);
        out
    }

    /// The names declared inline by the fields of the variants' inline struct
    /// bodies, variant by variant.
    pub fn public_inline_field_declaration_names(&self) -> (r: Vec<Name>)
        ensures
            names_view(r@) == enum_field_names(*self),
    {
        let ghost lists = self.variants_view().map_values(
            |v: SourceVariantSignature| variant_field_names(v),
        );
        let mut out: Vec<Name> = Vec::new();
        let mut i: usize = 0;
        assert(lists.take(0) =~= Seq::<Seq<Seq<char>>>::empty());
        assert(names_view(out@) =~= Seq::<Seq<char>>::empty());
        while i < self.variants.len()
            invariant
                i <= self.variants@.len(),
                lists == self.variants_view().map_values(
                    |v: SourceVariantSignature| variant_field_names(v),
                ),
                self.variants_view() == self.variants@,
                names_view(out@) == concat_all(lists.take(i as int)),
            decreases self.variants.len() - i,
        {
            proof {
                lemma_concat_take(lists, i as int);
            }
            match &self.variants[i] {
                SourceVariantSignature::Data(
                    _,
                    SourceVariantPayload::Declaration(SourceDeclarationValue::Struct(body)),
                ) => {
                    let mut more = body.inline_field_declaration_names();
                    let ghost before = out@;
                    let ghost added = more@;
                    out.append(&mut more);
                    proof {
                        crate::name::lemma_names_view_concat(before, added);
                    }
                },
                _ => {
                    assert(lists[i as int] =~= Seq::<Seq<char>>::empty());
                    assert(names_view(out@) + lists[i as int] =~= names_view(out@));
                },
            }
            i += 1;
        }
        assert(lists.take(self.variants@.len() as int) =~= lists);
        out
    }

    /// The enum body's `.schema` text: its variants in square brackets.
    pub fn to_schema_text(&self) -> (r: String)
        ensures
            r@ == enum_text(*self),
        decreases self,
    {
        let ghost texts = variant_texts(*self);
        let mut parts: Vec<String> = Vec::new();
        let mut i: usize = 0;
        while i < self.variants.len()
            invariant
                i <= self.variants@.len(),
                texts.len() == self.variants@.len(),
                forall|k: int| 0 <= k < self.variants@.len() ==> #[trigger] texts[k] == variant_text(self.variants@[k]),
                views_of(parts@) == texts.take(i as int),
            decreases self.variants.len() - i,
        {
            proof {
                assert(decreases_to!(*self => self.variants));
                assert(decreases_to!(self.variants => self.variants@));
                assert(decreases_to!(self.variants@ => self.variants@[i as int]));
            }
            let text = self.variants[i].to_structural_dotos();
            push_part(&mut parts, text);
            assert(views_of(parts@) =~= texts.take(i + 1));
            i += 1;
        }
        assert(texts.take(texts.len() as int) =~= texts);
        proof {
            reveal_strlit("[");
            assert("["@ =~= seq!['[']);
            reveal_strlit("]");
            assert("]"@ =~= seq![']']);
        }
        wrap("[", &parts, "]")
    }
}

impl SourceVariantSignature {
    /// A unit variant.
    pub fn from_name(name: Name) -> (r: Self)
        ensures
            r matches SourceVariantSignature::Unit(n) && n.name_view() == name@,
    {
        SourceVariantSignature::Unit(SourceVariantName::new(name))
    }

    /// A variant carrying a payload.
    pub fn from_payload(name: Name, payload: SourceVariantPayload) -> (r: Self)
        ensures
            r matches SourceVariantSignature::Data(n, p) && n.name_view() == name@ && p == payload,
    {
        SourceVariantSignature::Data(SourceVariantName::new(name), payload)
    }

    pub fn name(&self) -> (r: &Name)
        ensures
            match *self {
                SourceVariantSignature::Unit(n) => r@ == n.name_view(),
                SourceVariantSignature::Data(n, _) => r@ == n.name_view(),
            },
    {
        match self {
            SourceVariantSignature::Unit(name) => &name.name,
            SourceVariantSignature::Data(name, _) => &name.name,
        }
    }

    /// The payload reference, when the payload is a reference.
    pub fn payload(&self) -> (r: Option<&SourceReference>)
        ensures
            match r {
                Some(x) => self matches SourceVariantSignature::Data(_, SourceVariantPayload::Reference(y))
                    && *x == y,
                None => !(self matches SourceVariantSignature::Data(_, SourceVariantPayload::Reference(_))),
            },
    {
        match self {
            SourceVariantSignature::Data(_, SourceVariantPayload::Reference(reference)) => Some(reference),
            _ => None,
        }
    }

    /// The payload as written, reference or inline declaration.
    pub fn payload_source(&self) -> (r: Option<&SourceVariantPayload>)
        ensures
            match r {
                Some(p) => self matches SourceVariantSignature::Data(_, q) && *p == q,
                None => self is Unit,
            },
    {
        match self {
            SourceVariantSignature::Data(_, payload) => Some(payload),
            SourceVariantSignature::Unit(_) => None,
        }
    }

    /// The variant's `.schema` text.
    pub fn to_structural_dotos(&self) -> (r: String)
        ensures
            r@ == variant_text(*self),
        decreases self,
    {
        proof {
            reveal_strlit(".");
            assert("."@ =~= seq!['.']);
            reveal_strlit(".(");
            assert(".("@ =~= seq!['.', '(']);
            reveal_strlit(")");
            assert(")"@ =~= seq![')']);
            reveal_strlit("(");
            assert("("@ =~= seq!['(']);
        }
        match self {
            SourceVariantSignature::Unit(name) => name.name.to_dotos(),
            SourceVariantSignature::Data(name, SourceVariantPayload::Reference(reference)) => {
                let payload = reference.to_schema_text();
                let mut r = name.name.to_dotos();
                if crate::source_reference::can_inline(payload.as_str()) {
                    r.append(".");
                    r.append(payload.as_str());
                } else {
                    r.append(".(");
                    r.append(payload.as_str());
                    r.append(")");
                }
                r
            },
            SourceVariantSignature::Data(name, SourceVariantPayload::Declaration(value)) => {
                proof {
                    assert(decreases_to!(*self => self->Data_1));
                }
                let parts = vec![name.name.to_dotos(), value.to_schema_text()];
                let r = wrap("(", &parts, ")");
                assert(views_of(parts@) =~= seq![dotos_seq(name.name@), value_text(*value)]);
                r
            },
        }
    }
}

impl SourceVariantName {
    pub closed spec fn name_view(&self) -> Seq<char> {
        self.name@
    }

    pub fn new(name: Name) -> (r: Self)
        ensures
            r.name_view() == name@,
    {
        SourceVariantName { name }
    }
}

impl SourceVariantPayload {
    /// The payload's `.schema` text.
    pub fn to_schema_text(&self) -> (r: String)
        ensures
            r@ == payload_text(*self),
    {
        match self {
            SourceVariantPayload::Reference(reference) => reference.to_schema_text(),
            SourceVariantPayload::Declaration(value) => value.to_schema_text(),
        }
    }
}

impl SourceDeclaration {
    pub closed spec fn name_view(&self) -> Seq<char> {
        self.name@
    }

    pub closed spec fn value_view(&self) -> Option<SourceDeclarationValue> {
        self.value
    }

    pub fn new(name: Name, value: Option<SourceDeclarationValue>) -> (r: Self)
        ensures
            r.name_view() == name@,
            r.value_view() == value,
    {
        SourceDeclaration { name, value }
    }

    pub fn name(&self) -> (r: &Name)
        ensures
            r@ == self.name_view(),
    {
        &self.name
    }

    pub fn value(&self) -> (r: Option<&SourceDeclarationValue>)
        ensures
            match r {
                Some(v) => self.value_view() == Some(*v),
                None => self.value_view() is None,
            },
    {
        match &self.value {
            Some(v) => Some(v),
            None => None,
        }
    }

    /// The declaration's `.schema` text: `(Name Body)`, or `(Name)`.
    pub fn to_schema_text(&self) -> (r: String)
        ensures
            r@ == declaration_text(*self),
    {
        proof {
            reveal_strlit("(");
            assert("("@ =~= seq!['(']);
            reveal_strlit(")");
            assert(")"@ =~= seq![')']);
        }
        match &self.value {
            Some(value) => {
                let parts = vec![self.name.to_dotos(), value.to_schema_text()];
                let r = wrap("(", &parts, ")");
                assert(views_of(parts@) =~= seq![dotos_seq(self.name@), value_text(*value)]);
                r
            },
            None => {
                let parts = vec![self.name.to_dotos()];
                let r = wrap("(", &parts, ")");
                assert(views_of(parts@) =~= seq![dotos_seq(self.name@)]);
                r
            },
        }
    }
}

impl SourceDeclarations {
    pub closed spec fn declarations_view(&self) -> Seq<SourceDeclaration> {
        self.declarations@
    }

    pub fn new(declarations: Vec<SourceDeclaration>) -> (r: Self)
        ensures
            r.declarations_view() == declarations@,
    {
        SourceDeclarations { declarations }
    }

    pub fn declarations(&self) -> (r: &[SourceDeclaration])
        ensures
            r@ == self.declarations_view(),
    {
        self.declarations.as_slice()
    }

    /// The declarations' `.schema` text, one per line.
    pub fn to_schema_text(&self) -> (r: String)
        ensures
            r@ == join_seq(
                Seq::new(
                    self.declarations_view().len(),
                    |i: int| declaration_text(self.declarations_view()[i]),
                ),
                seq!['\n'],
            ),
    {
        let ghost texts = Seq::new(self.declarations@.len(), |i: int| declaration_text(self.declarations@[i]));
        let mut parts: Vec<String> = Vec::new();
        let mut i: usize = 0;
        while i < self.declarations.len()
            invariant
                i <= self.declarations@.len(),
                texts == Seq::new(self.declarations@.len(), |k: int| declaration_text(self.declarations@[k])),
                views_of(parts@) == texts.take(i as int),
            decreases self.declarations.len() - i,
        {
            push_part(&mut parts, self.declarations[i].to_schema_text());
            assert(views_of(parts@) =~= texts.take(i + 1));
            i += 1;
        }
        assert(texts.take(texts.len() as int) =~= texts);
        proof {
            reveal_strlit("\n");
            assert("\n"@ =~= seq!['\n']);
        }
        join(&parts, "\n")
    }
}

impl SourceMethodParameter {
    pub closed spec fn name_view(&self) -> Seq<char> {
        self.name@
    }

    pub fn new(name: Name, reference: SourceReference) -> (r: Self)
        ensures
            r.name_view() == name@,
            r.reference_view() == reference,
    {
        SourceMethodParameter { name, reference }
    }

    pub closed spec fn reference_view(&self) -> SourceReference {
        self.reference
    }

    pub fn name(&self) -> (r: &Name)
        ensures
            r@ == self.name_view(),
    {
        &self.name
    }

    pub fn reference(&self) -> (r: &SourceReference)
        ensures
            *r == self.reference_view(),
    {
        &self.reference
    }

    fn to_schema_text(&self) -> (r: String)
        ensures
            r@ == parameter_text(*self),
    {
        let mut r = self.name.to_dotos();
        r.append(".");
        proof {
            reveal_strlit(".");
            assert("."@ =~= seq!['.']);
        }
        r.append(self.reference.to_schema_text().as_str());
        r
    }
}

impl SourceMethodSignature {
    pub closed spec fn name_view(&self) -> Seq<char> {
        self.name@
    }

    pub fn new(
        name: Name,
        parameters: Vec<SourceMethodParameter>,
        return_reference: SourceReference,
    ) -> (r: Self)
        ensures
            r.name_view() == name@,
            r.parameters_view() == parameters@,
            r.return_view() == return_reference,
    {
        SourceMethodSignature { name, parameters, return_reference }
    }

    pub closed spec fn parameters_view(&self) -> Seq<SourceMethodParameter> {
        self.parameters@
    }

    pub closed spec fn return_view(&self) -> SourceReference {
        self.return_reference
    }

    pub fn name(&self) -> (r: &Name)
        ensures
            r@ == self.name_view(),
    {
        &self.name
    }

    pub fn parameters(&self) -> (r: &[SourceMethodParameter])
        ensures
            r@ == self.parameters_view(),
    {
        self.parameters.as_slice()
    }

    pub fn return_reference(&self) -> (r: &SourceReference)
        ensures
            *r == self.return_view(),
    {
        &self.return_reference
    }

    fn to_schema_text(&self) -> (r: String)
        ensures
            r@ == signature_text(*self),
    {
        let ghost texts = Seq::new(self.parameters@.len(), |i: int| parameter_text(self.parameters@[i]));
        let mut parts: Vec<String> = Vec::new();
        let mut i: usize = 0;
        while i < self.parameters.len()
            invariant
                i <= self.parameters@.len(),
                texts == Seq::new(self.parameters@.len(), |k: int| parameter_text(self.parameters@[k])),
                views_of(parts@) == texts.take(i as int),
            decreases self.parameters.len() - i,
        {
            push_part(&mut parts, self.parameters[i].to_schema_text());
            assert(views_of(parts@) =~= texts.take(i + 1));
            i += 1;
        }
        assert(texts.take(texts.len() as int) =~= texts);
        proof {
            reveal_strlit("{");
            assert("{"@ =~= seq!['{']);
            reveal_strlit("}");
            assert("}"@ =~= seq!['}']);
            reveal_strlit("(");
            assert("("@ =~= seq!['(']);
            reveal_strlit(")");
            assert(")"@ =~= seq![')']);
        }
        let parameters = inline("{", &parts, "}");
        let outer = vec![self.name.to_dotos(), parameters, self.return_reference.to_schema_text()];
        let r = wrap("(", &outer, ")");
        assert(views_of(outer@) =~= seq![
            dotos_seq(self.name@),
            inline_seq(seq!['{'], texts, seq!['}']),
            source_text_seq(source_view(self.return_reference)),
        ]);
        r
    }
}

impl SourceImplEntry {
    fn to_schema_text(&self) -> (r: String)
        ensures
            r@ == impl_entry_text(*self),
    {
        match self {
            SourceImplEntry::Marker(name) => name.to_dotos(),
            SourceImplEntry::TraitImpl(name, signatures) => {
                let ghost texts = Seq::new(signatures@.len(), |i: int| signature_text(signatures@[i]));
                let mut parts: Vec<String> = Vec::new();
                let mut i: usize = 0;
                while i < signatures.len()
                    invariant
                        i <= signatures@.len(),
                        texts == Seq::new(signatures@.len(), |k: int| signature_text(signatures@[k])),
                        views_of(parts@) == texts.take(i as int),
                    decreases signatures.len() - i,
                {
                    push_part(&mut parts, signatures[i].to_schema_text());
                    assert(views_of(parts@) =~= texts.take(i + 1));
                    i += 1;
                }
                assert(texts.take(texts.len() as int) =~= texts);
                proof {
                    reveal_strlit("[");
                    assert("["@ =~= seq!['[']);
                    reveal_strlit("]");
                    assert("]"@ =~= seq![']']);
                    reveal_strlit(" ");
                    assert(" "@ =~= seq![' ']);
                }
                let mut r = name.to_dotos();
                r.append(" ");
                r.append(inline("[", &parts, "]").as_str());
                r
            },
            SourceImplEntry::InherentMethod(signature) => signature.to_schema_text(),
        }
    }
}

impl SourceImplCatalog {
    pub closed spec fn entries_view(&self) -> Seq<SourceImplEntry> {
        self.entries@
    }

    pub fn new(entries: Vec<SourceImplEntry>) -> (r: Self)
        ensures
            r.entries_view() == entries@,
    {
        SourceImplCatalog { entries }
    }

    pub fn entries(&self) -> (r: &[SourceImplEntry])
        ensures
            r@ == self.entries_view(),
    {
        self.entries.as_slice()
    }

    pub fn is_empty(&self) -> (r: bool)
        ensures
            r == (self.entries_view().len() == 0),
    {
        self.entries.len() == 0
    }

    /// The catalog's `.schema` text: its entries inline in square brackets.
    pub fn to_schema_text(&self) -> (r: String)
        ensures
            r@ == catalog_text(*self),
    {
        let ghost texts = Seq::new(self.entries@.len(), |i: int| impl_entry_text(self.entries@[i]));
        let mut parts: Vec<String> = Vec::new();
        let mut i: usize = 0;
        while i < self.entries.len()
            invariant
                i <= self.entries@.len(),
                texts == Seq::new(self.entries@.len(), |k: int| impl_entry_text(self.entries@[k])),
                views_of(parts@) == texts.take(i as int),
            decreases self.entries.len() - i,
        {
            push_part(&mut parts, self.entries[i].to_schema_text());
            assert(views_of(parts@) =~= texts.take(i + 1));
            i += 1;
        }
        assert(texts.take(texts.len() as int) =~= texts);
        proof {
            reveal_strlit("[");
            assert("["@ =~= seq!['[']);
            reveal_strlit("]");
            assert("]"@ =~= seq![']']);
        }
        inline("[", &parts, "]")
    }
}


// ---------------------------------------------------------------------------
// Lowering declaration bodies into type declarations.
// ---------------------------------------------------------------------------

/// Where the declarations a struct's fields write inline are visible: to the
/// whole source, or as helpers of the struct alone.
#[derive(Clone, Copy, Debug, PartialEq, Eq, Structural)]
pub enum SourceInlineDeclarationVisibility {
    PublicSourceScope,
    PrivateHelper,
}

/// The mathematical form of a lowered declaration group: the public and the
/// private helper declarations it writes, and its own declaration.
pub struct GroupModel {
    pub public: Seq<TypeDeclarationModel>,
    pub private: Seq<TypeDeclarationModel>,
    pub primary: Option<TypeDeclarationModel>,
}

/// The mathematical form of a lowered field: the declarations it writes
/// inline, and the field itself.
pub struct LoweredFieldModel {
    pub public: Seq<TypeDeclarationModel>,
    pub private: Seq<TypeDeclarationModel>,
    pub field: FieldModel,
}

/// The models of a list of type declarations.
pub open spec fn tdecls_model(s: Seq<TypeDeclaration>) -> Seq<TypeDeclarationModel> {
    s.map_values(|t: TypeDeclaration| type_model(t))
}

/// A declaration as a one-element list, where there is one.
pub open spec fn opt_seq(t: Option<TypeDeclarationModel>) -> Seq<TypeDeclarationModel> {
    match t {
        Some(x) => seq![x],
        None => Seq::empty(),
    }
}

/// A group as the declarations of a field: its own declaration joins the
/// public ones or the private ones, as `vis` says.
pub open spec fn group_for_field(g: GroupModel, vis: SourceInlineDeclarationVisibility) -> (
    Seq<TypeDeclarationModel>,
    Seq<TypeDeclarationModel>,
) {
    match vis {
        SourceInlineDeclarationVisibility::PublicSourceScope => (g.public + opt_seq(g.primary), g.private),
        SourceInlineDeclarationVisibility::PrivateHelper => (g.public, g.private + opt_seq(g.primary)),
    }
}

/// All the declarations of a group, its own last.
pub open spec fn group_declarations(g: GroupModel) -> Seq<TypeDeclarationModel> {
    g.public + g.private + opt_seq(g.primary)
}

/// The text of the fault for an inline body at a field not named as a type.
pub open spec fn inline_field_fault(name: Seq<char>) -> Seq<char> {
    "inline declaration field "@ + name
}

/// The text of the fault for a text literal at a declaration position.
pub open spec fn text_declaration_fault() -> Seq<char> {
    "text declaration"@
}

/// The group a declaration body named `name` lowers to, or the text of the
/// fault it meets: a reference becomes a newtype, a struct or an enum body
/// its declarations, and a text literal is refused.
pub closed spec fn value_group(
    v: SourceDeclarationValue,
    name: Seq<char>,
    names: Seq<Seq<char>>,
    ns: Option<Seq<char>>,
) -> Result<GroupModel, Seq<char>>
    decreases v, 3int,
{
    match v {
        SourceDeclarationValue::Reference(r) => Ok(
            GroupModel {
                public: Seq::empty(),
                private: Seq::empty(),
                primary: Some(TypeDeclarationModel::Newtype(name, resolve_source(names, ns, source_view(r)))),
            },
        ),
        SourceDeclarationValue::Text(_) => Err(text_declaration_fault()),
        SourceDeclarationValue::Struct(b) => struct_group(
            b,
            name,
            names,
            ns,
            SourceInlineDeclarationVisibility::PrivateHelper,
        ),
        SourceDeclarationValue::Enum(b) => enum_group(b, name, names, ns),
    }
}

/// The group a struct body lowers to: the declarations its fields write,
/// and a newtype of the one field's type when it has exactly one field, a
/// struct of its fields otherwise.
pub closed spec fn struct_group(
    b: SourceStructBody,
    name: Seq<char>,
    names: Seq<Seq<char>>,
    ns: Option<Seq<char>>,
    vis: SourceInlineDeclarationVisibility,
) -> Result<GroupModel, Seq<char>>
    decreases b, 2int,
{
    match fields_lowered(b.fields@, names, ns, vis) {
        Err(e) => Err(e),
        Ok(l) => Ok(
            GroupModel {
                public: l.0,
                private: l.1,
                primary: Some(
                    if l.2.len() == 1 {
                        TypeDeclarationModel::Newtype(name, l.2[0].reference)
                    } else {
                        TypeDeclarationModel::Struct(name, l.2)
                    },
                ),
            },
        ),
    }
}

/// The fields lowered in order: the public and private declarations they
/// write and the fields, or the first fault.
pub closed spec fn fields_lowered(
    fs: Seq<SourceField>,
    names: Seq<Seq<char>>,
    ns: Option<Seq<char>>,
    vis: SourceInlineDeclarationVisibility,
) -> Result<(Seq<TypeDeclarationModel>, Seq<TypeDeclarationModel>, Seq<FieldModel>), Seq<char>>
    decreases fs, 1int,
{
    if fs.len() == 0 {
        Ok((Seq::empty(), Seq::empty(), Seq::empty()))
    } else {
        proof {
            assert(decreases_to!(fs => fs.subrange(0, fs.len() - 1)));
        }
        match fields_lowered(fs.subrange(0, fs.len() - 1), names, ns, vis) {
            Err(e) => Err(e),
            Ok(acc) => match field_lowered(fs[fs.len() - 1], names, ns, vis) {
                Err(e) => Err(e),
                Ok(f) => Ok((acc.0 + f.public, acc.1 + f.private, acc.2.push(f.field))),
            },
        }
    }
}

/// A field lowered: its snake_case name with the reference it resolves to.
/// A type-named field with a reference also declares that name as a newtype
/// of it; a type-named field with an inline body declares the body's group;
/// an inline body at any other field is refused.
pub closed spec fn field_lowered(
    f: SourceField,
    names: Seq<Seq<char>>,
    ns: Option<Seq<char>>,
    vis: SourceInlineDeclarationVisibility,
) -> Result<LoweredFieldModel, Seq<char>>
    decreases f, 0int,
{
    let fname = field_seq(local_seq(f.name@));
    let own = FieldModel { name: fname, reference: resolve_name_seq(names, ns, f.name@) };
    match f.value {
        SourceFieldValue::Derived => Ok(LoweredFieldModel { public: Seq::empty(), private: Seq::empty(), field: own }),
        SourceFieldValue::Reference(r) => if is_type_seq(f.name@) {
            let decl = TypeDeclarationModel::Newtype(qualified_seq(f.name@, ns), resolve_source(names, ns, source_view(r)));
            let g = GroupModel { public: Seq::empty(), private: Seq::empty(), primary: Some(decl) };
            Ok(LoweredFieldModel { public: group_for_field(g, vis).0, private: group_for_field(g, vis).1, field: own })
        } else {
            Ok(
                LoweredFieldModel {
                    public: Seq::empty(),
                    private: Seq::empty(),
                    field: FieldModel { name: fname, reference: resolve_source(names, ns, source_view(r)) },
                },
            )
        },
        SourceFieldValue::Declaration(v) => if is_type_seq(f.name@) {
            match value_group(v, qualified_seq(f.name@, ns), names, ns) {
                Err(e) => Err(e),
                Ok(g) => Ok(LoweredFieldModel { public: group_for_field(g, vis).0, private: group_for_field(g, vis).1, field: own }),
            }
        } else {
            Err(inline_field_fault(f.name@))
        },
    }
}

/// The group an enum body lowers to: the declarations its variants' inline
/// bodies write, as helpers, and an enum of its variants.
pub closed spec fn enum_group(
    b: SourceEnumBody,
    name: Seq<char>,
    names: Seq<Seq<char>>,
    ns: Option<Seq<char>>,
) -> Result<GroupModel, Seq<char>>
    decreases b, 2int,
{
    match variants_private(b.variants@, names, ns) {
        Err(e) => Err(e),
        Ok(private) => Ok(
            GroupModel {
                public: Seq::empty(),
                private: private,
                primary: Some(TypeDeclarationModel::Enum(name, enum_variants_model(b.variants@, Seq::empty(), ns))),
            },
        ),
    }
}

/// The helper declarations of the variants' inline bodies, in order, or the
/// first fault.
pub closed spec fn variants_private(
    vs: Seq<SourceVariantSignature>,
    names: Seq<Seq<char>>,
    ns: Option<Seq<char>>,
) -> Result<Seq<TypeDeclarationModel>, Seq<char>>
    decreases vs, 1int,
{
    if vs.len() == 0 {
        Ok(Seq::empty())
    } else {
        proof {
            assert(decreases_to!(vs => vs.subrange(0, vs.len() - 1)));
        }
        match variants_private(vs.subrange(0, vs.len() - 1), names, ns) {
            Err(e) => Err(e),
            Ok(acc) => match variant_private(vs[vs.len() - 1], names, ns) {
                Err(e) => Err(e),
                Ok(d) => Ok(acc + d),
            },
        }
    }
}

/// The helper declarations of a variant's inline body, named by the
/// variant: none for a unit variant or a reference payload.
pub closed spec fn variant_private(
    v: SourceVariantSignature,
    names: Seq<Seq<char>>,
    ns: Option<Seq<char>>,
) -> Result<Seq<TypeDeclarationModel>, Seq<char>>
    decreases v, 0int,
{
    match v {
        SourceVariantSignature::Data(n, SourceVariantPayload::Declaration(d)) => match value_group(
            d,
            qualified_seq(n.name@, ns),
            names,
            ns,
        ) {
            Err(e) => Err(e),
            Ok(g) => Ok(group_declarations(g)),
        },
        _ => Ok(Seq::empty()),
    }
}

/// An enum variant lowered against the declared `names`: a reference
/// payload resolved, an inline body's payload the variant's own name, and a
/// unit variant named like a declared type carrying that type.
pub closed spec fn enum_variant_model(v: SourceVariantSignature, names: Seq<Seq<char>>, ns: Option<Seq<char>>) -> VariantModel {
    match v {
        SourceVariantSignature::Unit(n) => VariantModel {
            name: n.name@,
            payload: if names.contains(n.name@) {
                Some(resolve_name_seq(names, ns, n.name@))
            } else {
                None
            },
        },
        SourceVariantSignature::Data(n, SourceVariantPayload::Reference(r)) => VariantModel {
            name: n.name@,
            payload: Some(resolve_source(names, ns, source_view(r))),
        },
        SourceVariantSignature::Data(n, SourceVariantPayload::Declaration(_)) => VariantModel {
            name: n.name@,
            payload: Some(resolve_name_seq(names, ns, n.name@)),
        },
    }
}

/// The variants of an enum body lowered, in order.
pub open spec fn enum_variants_model(
    vs: Seq<SourceVariantSignature>,
    names: Seq<Seq<char>>,
    ns: Option<Seq<char>>,
) -> Seq<VariantModel> {
    vs.map_values(|v: SourceVariantSignature| enum_variant_model(v, names, ns))
}

/// A fault met among the first `k` fields is the fault of all of them.
proof fn lemma_fields_fault_stays(
    fs: Seq<SourceField>,
    k: int,
    names: Seq<Seq<char>>,
    ns: Option<Seq<char>>,
    vis: SourceInlineDeclarationVisibility,
)
    requires
        0 <= k <= fs.len(),
        fields_lowered(fs.subrange(0, k), names, ns, vis) is Err,
    ensures
        fields_lowered(fs, names, ns, vis) == fields_lowered(fs.subrange(0, k), names, ns, vis),
    decreases fs.len() - k,
{
    if k == fs.len() {
        assert(fs.subrange(0, k) =~= fs);
    } else {
        let pre = fs.subrange(0, k + 1);
        assert(pre.subrange(0, pre.len() - 1) =~= fs.subrange(0, k));
        lemma_fields_fault_stays(fs, k + 1, names, ns, vis);
    }
}

/// A fault met among the first `k` variants is the fault of all of them.
proof fn lemma_variants_fault_stays(
    vs: Seq<SourceVariantSignature>,
    k: int,
    names: Seq<Seq<char>>,
    ns: Option<Seq<char>>,
)
    requires
        0 <= k <= vs.len(),
        variants_private(vs.subrange(0, k), names, ns) is Err,
    ensures
        variants_private(vs, names, ns) == variants_private(vs.subrange(0, k), names, ns),
    decreases vs.len() - k,
{
    if k == vs.len() {
        assert(vs.subrange(0, k) =~= vs);
    } else {
        let pre = vs.subrange(0, k + 1);
        assert(pre.subrange(0, pre.len() - 1) =~= vs.subrange(0, k));
        lemma_variants_fault_stays(vs, k + 1, names, ns);
    }
}

/// A lowered declaration group.
pub struct SourceDeclarationGroup {
    public: Vec<TypeDeclaration>,
    private: Vec<TypeDeclaration>,
    primary: Option<TypeDeclaration>,
}

impl View for SourceDeclarationGroup {
    type V = GroupModel;

    closed spec fn view(&self) -> GroupModel {
        GroupModel {
            public: tdecls_model(self.public@),
            private: tdecls_model(self.private@),
            primary: match self.primary {
                Some(t) => Some(type_model(t)),
                None => None,
            },
        }
    }
}

/// A lowered field, with the declarations it writes inline.
pub struct SourceLoweredField {
    public_declarations: Vec<TypeDeclaration>,
    private_declarations: Vec<TypeDeclaration>,
    field: FieldDeclaration,
}

impl View for SourceLoweredField {
    type V = LoweredFieldModel;

    closed spec fn view(&self) -> LoweredFieldModel {
        LoweredFieldModel {
            public: tdecls_model(self.public_declarations@),
            private: tdecls_model(self.private_declarations@),
            field: field_model(self.field),
        }
    }
}

/// A fault of lowering is the syntax-declaration error carrying its text.
pub open spec fn lowering_fault(e: SchemaError, t: Seq<char>) -> bool {
    e matches SchemaError::ExpectedSyntaxDeclaration { found } && found@ == t
}

impl SourceLoweredField {
    /// The lowered field.
    pub fn field(&self) -> (r: &FieldDeclaration)
        ensures
            field_model(*r) == self@.field,
    {
        &self.field
    }

    /// The declarations the field writes inline that the whole source sees.
    pub fn public_declarations(&self) -> (r: &[TypeDeclaration])
        ensures
            tdecls_model(r@) == self@.public,
    {
        self.public_declarations.as_slice()
    }

    /// The helper declarations the field writes inline.
    pub fn private_declarations(&self) -> (r: &[TypeDeclaration])
        ensures
            tdecls_model(r@) == self@.private,
    {
        self.private_declarations.as_slice()
    }
}

impl SourceDeclarationGroup {
    /// The group as a field's declarations.
    fn into_field_declarations(self, vis: SourceInlineDeclarationVisibility) -> (r: (
        Vec<TypeDeclaration>,
        Vec<TypeDeclaration>,
    ))
        ensures
            (tdecls_model(r.0@), tdecls_model(r.1@)) == group_for_field(self@, vis),
    {
        let mut public = self.public;
        let mut private = self.private;
        let ghost p0 = public@;
        let ghost q0 = private@;
        match self.primary {
            Some(t) => {
                match vis {
                    SourceInlineDeclarationVisibility::PublicSourceScope => public.push(t),
                    SourceInlineDeclarationVisibility::PrivateHelper => private.push(t),
                }
            },
            None => {},
        }
        assert(tdecls_model(public@) =~= group_for_field(self@, vis).0);
        assert(tdecls_model(private@) =~= group_for_field(self@, vis).1);
        (public, private)
    }

    /// All the declarations of the group, its own last.
    fn into_type_declarations(self) -> (r: Vec<TypeDeclaration>)
        ensures
            tdecls_model(r@) == group_declarations(self@),
    {
        let mut all = self.public;
        let mut private = self.private;
        all.append(&mut private);
        match self.primary {
            Some(t) => all.push(t),
            None => {},
        }
        assert(tdecls_model(all@) =~= group_declarations(self@));
        all
    }
}

fn name_is_type(n: &Name) -> (r: bool)
    ensures
        r == is_type_seq(n@),
{
    let s = n.as_str();
    let len = s.unicode_len();
    len > 0 && crate::text::is_upper(s.get_char(0))
}

fn lowering_error(text: String) -> (r: SchemaError)
    ensures
        lowering_fault(r, text@),
{
    SchemaError::ExpectedSyntaxDeclaration { found: text }
}

impl SourceDeclarationValue {
    /// Lower this body, named `name`, against `resolver` inside `ns`.
    pub fn to_declaration_group(
        &self,
        name: Name,
        resolver: &SourceTypeResolver,
        ns: Option<&Name>,
    ) -> (r: Result<SourceDeclarationGroup, SchemaError>)
        ensures
            match (r, value_group(*self, name@, resolver@, namespace_view(ns))) {
                (Ok(g), Ok(m)) => g@ == m,
                (Err(e), Err(t)) => lowering_fault(e, t),
                _ => false,
            },
        decreases *self, 3int,
    {
        match self {
            SourceDeclarationValue::Reference(reference) => {
                let primary = TypeDeclaration::Newtype(NewtypeDeclaration::new(name, reference.resolve_with(resolver, ns)));
                let g = SourceDeclarationGroup { public: Vec::new(), private: Vec::new(), primary: Some(primary) };
                assert(tdecls_model(g.public@) =~= Seq::<TypeDeclarationModel>::empty());
                assert(tdecls_model(g.private@) =~= Seq::<TypeDeclarationModel>::empty());
                Ok(g)
            },
            SourceDeclarationValue::Text(_) => {
                proof {
                    reveal_strlit("text declaration");
                }
                Err(lowering_error(crate::text::owned("text declaration")))
            },
            SourceDeclarationValue::Struct(body) => body.to_declaration_group_with_visibility(
                name,
                resolver,
                ns,
                SourceInlineDeclarationVisibility::PrivateHelper,
            ),
            SourceDeclarationValue::Enum(body) => body.to_declaration_group(name, resolver, ns),
        }
    }
}

impl SourceStructBody {
    /// Lower this struct body, named `name`: each field in order, then the
    /// struct, or a newtype of its one field.
    pub fn to_declaration_group_with_visibility(
        &self,
        name: Name,
        resolver: &SourceTypeResolver,
        ns: Option<&Name>,
        vis: SourceInlineDeclarationVisibility,
    ) -> (r: Result<SourceDeclarationGroup, SchemaError>)
        ensures
            match (r, struct_group(*self, name@, resolver@, namespace_view(ns), vis)) {
                (Ok(g), Ok(m)) => g@ == m,
                (Err(e), Err(t)) => lowering_fault(e, t),
                _ => false,
            },
        decreases *self, 2int,
    {
        let ghost fs = self.fields@;
        let ghost names = resolver@;
        let ghost nsv = namespace_view(ns);
        let mut public: Vec<TypeDeclaration> = Vec::new();
        let mut private: Vec<TypeDeclaration> = Vec::new();
        let mut fields: Vec<FieldDeclaration> = Vec::new();
        let mut i: usize = 0;
        proof {
            assert(fs.subrange(0, 0) =~= Seq::<SourceField>::empty());
            assert(tdecls_model(public@) =~= Seq::<TypeDeclarationModel>::empty());
            assert(fields_model(fields@) =~= Seq::<FieldModel>::empty());
        }
        while i < self.fields.len()
            invariant
                i <= fs.len(),
                fs == self.fields@,
                names == resolver@,
                nsv == namespace_view(ns),
                fields_lowered(fs.subrange(0, i as int), names, nsv, vis) == Ok::<
                    (Seq<TypeDeclarationModel>, Seq<TypeDeclarationModel>, Seq<FieldModel>),
                    Seq<char>,
                >((tdecls_model(public@), tdecls_model(private@), fields_model(fields@))),
            decreases self.fields.len() - i,
        {
            proof {
                assert(decreases_to!(*self => self.fields));
                assert(decreases_to!(self.fields => self.fields@));
                assert(decreases_to!(self.fields@ => self.fields@[i as int]));
                assert(fs.subrange(0, i + 1).subrange(0, i as int) =~= fs.subrange(0, i as int));
                assert(fs.subrange(0, i + 1)[i as int] == fs[i as int]);
            }
            let lowered = self.fields[i].to_lowered_field(resolver, ns, vis);
            let ghost pre = fs.subrange(0, i + 1);
            proof {
                assert(pre.subrange(0, pre.len() - 1) =~= fs.subrange(0, i as int));
                assert(pre[pre.len() - 1] == fs[i as int]);
            }
            match lowered {
                Err(e) => {
                    proof {
                        lemma_fields_fault_stays(fs, i as int + 1, names, nsv, vis);
                    }
                    return Err(e);
                },
                Ok(l) => {
                    let ghost lm = l@;
                    let SourceLoweredField { public_declarations, private_declarations, field } = l;
                    let mut pd = public_declarations;
                    let mut qd = private_declarations;
                    let ghost pdm = tdecls_model(pd@);
                    let ghost qdm = tdecls_model(qd@);
                    assert(pdm == lm.public && qdm == lm.private && field_model(field) == lm.field);
                    let ghost p0 = public@;
                    let ghost q0 = private@;
                    let ghost f0 = fields@;
                    public.append(&mut pd);
                    private.append(&mut qd);
                    fields.push(field);
                    proof {
                        assert(tdecls_model(public@) =~= tdecls_model(p0) + pdm);
                        assert(tdecls_model(private@) =~= tdecls_model(q0) + qdm);
                        assert(fields_model(fields@) =~= fields_model(f0).push(field_model(field)));
                    }
                },
            }
            i += 1;
        }
        proof {
            assert(fs.subrange(0, fs.len() as int) =~= fs);
        }
        let primary = if fields.len() == 1 {
            let only = fields.pop().unwrap();
            TypeDeclaration::Newtype(NewtypeDeclaration::new(name, only.reference))
        } else {
            TypeDeclaration::Struct(StructDeclaration::new(name, fields))
        };
        Ok(SourceDeclarationGroup { public, private, primary: Some(primary) })
    }
}

impl SourceField {
    /// Lower this field against `resolver` inside `ns`: its snake_case name
    /// with the reference it resolves to, and what it declares inline.
    pub fn to_lowered_field(
        &self,
        resolver: &SourceTypeResolver,
        ns: Option<&Name>,
        vis: SourceInlineDeclarationVisibility,
    ) -> (r: Result<SourceLoweredField, SchemaError>)
        ensures
            match (r, field_lowered(*self, resolver@, namespace_view(ns), vis)) {
                (Ok(l), Ok(m)) => l@ == m,
                (Err(e), Err(t)) => lowering_fault(e, t),
                _ => false,
            },
        decreases *self, 0int,
    {
        let fname = Name::from_string(self.name.field_name());
        match &self.value {
            SourceFieldValue::Derived => {
                let field = FieldDeclaration::new(fname, resolver.resolve_name(ns, &self.name));
                let l = SourceLoweredField { public_declarations: Vec::new(), private_declarations: Vec::new(), field };
                assert(tdecls_model(l.public_declarations@) =~= Seq::<TypeDeclarationModel>::empty());
                assert(tdecls_model(l.private_declarations@) =~= Seq::<TypeDeclarationModel>::empty());
                Ok(l)
            },
            SourceFieldValue::Reference(reference) => {
                if name_is_type(&self.name) {
                    let decl = TypeDeclaration::Newtype(
                        NewtypeDeclaration::new(self.name.qualified_under(ns), reference.resolve_with(resolver, ns)),
                    );
                    let g = SourceDeclarationGroup { public: Vec::new(), private: Vec::new(), primary: Some(decl) };
                    proof {
                        assert(tdecls_model(g.public@) =~= Seq::<TypeDeclarationModel>::empty());
                        assert(tdecls_model(g.private@) =~= Seq::<TypeDeclarationModel>::empty());
                    }
                    let (public, private) = g.into_field_declarations(vis);
                    let field = FieldDeclaration::new(fname, resolver.resolve_name(ns, &self.name));
                    Ok(SourceLoweredField { public_declarations: public, private_declarations: private, field })
                } else {
                    let field = FieldDeclaration::new(fname, reference.resolve_with(resolver, ns));
                    let l = SourceLoweredField { public_declarations: Vec::new(), private_declarations: Vec::new(), field };
                    assert(tdecls_model(l.public_declarations@) =~= Seq::<TypeDeclarationModel>::empty());
                    assert(tdecls_model(l.private_declarations@) =~= Seq::<TypeDeclarationModel>::empty());
                    Ok(l)
                }
            },
            SourceFieldValue::Declaration(value) => {
                if name_is_type(&self.name) {
                    proof {
                        assert(decreases_to!(*self => self.value));
                    }
                    match value.to_declaration_group(self.name.qualified_under(ns), resolver, ns) {
                        Err(e) => Err(e),
                        Ok(g) => {
                            let (public, private) = g.into_field_declarations(vis);
                            let field = FieldDeclaration::new(fname, resolver.resolve_name(ns, &self.name));
                            Ok(SourceLoweredField { public_declarations: public, private_declarations: private, field })
                        },
                    }
                } else {
                    let mut text = crate::text::owned("inline declaration field ");
                    text.append(self.name.as_str());
                    Err(lowering_error(text))
                }
            },
        }
    }
}

impl SourceVariantSignature {
    /// This variant lowered against the declared names of `resolver`.
    pub(crate) fn to_enum_variant(&self, resolver: &SourceTypeResolver, ns: Option<&Name>) -> (r: EnumVariant)
        ensures
            variant_view(r) == enum_variant_model(*self, resolver@, namespace_view(ns)),
    {
        match self {
            SourceVariantSignature::Unit(n) => {
                if resolver.contains(n.name.as_str()) {
                    EnumVariant::new(n.name.duplicate(), Some(resolver.resolve_name(ns, &n.name)))
                } else {
                    EnumVariant::new(n.name.duplicate(), None)
                }
            },
            SourceVariantSignature::Data(n, SourceVariantPayload::Reference(reference)) => EnumVariant::new(
                n.name.duplicate(),
                Some(reference.resolve_with(resolver, ns)),
            ),
            SourceVariantSignature::Data(n, SourceVariantPayload::Declaration(_)) => EnumVariant::new(
                n.name.duplicate(),
                Some(resolver.resolve_name(ns, &n.name)),
            ),
        }
    }

    /// The helper declarations this variant's inline body writes.
    fn private_inline_declarations(
        &self,
        resolver: &SourceTypeResolver,
        ns: Option<&Name>,
    ) -> (r: Result<Vec<TypeDeclaration>, SchemaError>)
        ensures
            match (r, variant_private(*self, resolver@, namespace_view(ns))) {
                (Ok(d), Ok(m)) => tdecls_model(d@) == m,
                (Err(e), Err(t)) => lowering_fault(e, t),
                _ => false,
            },
        decreases *self, 0int,
    {
        match self {
            SourceVariantSignature::Data(n, SourceVariantPayload::Declaration(value)) => {
                match value.to_declaration_group(n.name.qualified_under(ns), resolver, ns) {
                    Err(e) => Err(e),
                    Ok(g) => Ok(g.into_type_declarations()),
                }
            },
            _ => {
                let v: Vec<TypeDeclaration> = Vec::new();
                assert(tdecls_model(v@) =~= Seq::<TypeDeclarationModel>::empty());
                Ok(v)
            },
        }
    }
}

impl SourceEnumBody {
    /// Lower this enum body, named `name`: the helpers its variants' inline
    /// bodies write, then the enum.
    pub fn to_declaration_group(
        &self,
        name: Name,
        resolver: &SourceTypeResolver,
        ns: Option<&Name>,
    ) -> (r: Result<SourceDeclarationGroup, SchemaError>)
        ensures
            match (r, enum_group(*self, name@, resolver@, namespace_view(ns))) {
                (Ok(g), Ok(m)) => g@ == m,
                (Err(e), Err(t)) => lowering_fault(e, t),
                _ => false,
            },
        decreases *self, 2int,
    {
        let ghost vs = self.variants@;
        let ghost names = resolver@;
        let ghost nsv = namespace_view(ns);
        let none = SourceTypeResolver::explicit_only();
        let mut private: Vec<TypeDeclaration> = Vec::new();
        let mut variants: Vec<EnumVariant> = Vec::new();
        let mut i: usize = 0;
        proof {
            assert(vs.subrange(0, 0) =~= Seq::<SourceVariantSignature>::empty());
            assert(tdecls_model(private@) =~= Seq::<TypeDeclarationModel>::empty());
        }
        while i < self.variants.len()
            invariant
                i <= vs.len(),
                vs == self.variants@,
                names == resolver@,
                nsv == namespace_view(ns),
                variants_private(vs.subrange(0, i as int), names, nsv) == Ok::<Seq<TypeDeclarationModel>, Seq<char>>(
                    tdecls_model(private@),
                ),
                variants@.len() == i,
                forall|j: int|
                    0 <= j < i ==> variant_view(#[trigger] variants@[j]) == enum_variant_model(vs[j], none@, nsv),
                none@ == Seq::<Seq<char>>::empty(),
            decreases self.variants.len() - i,
        {
            proof {
                assert(decreases_to!(*self => self.variants));
                assert(decreases_to!(self.variants => self.variants@));
                assert(decreases_to!(self.variants@ => self.variants@[i as int]));
                assert(vs.subrange(0, i + 1).subrange(0, i as int) =~= vs.subrange(0, i as int));
                assert(vs.subrange(0, i + 1)[i as int] == vs[i as int]);
            }
            let ghost pre = vs.subrange(0, i + 1);
            proof {
                assert(pre.subrange(0, pre.len() - 1) =~= vs.subrange(0, i as int));
                assert(pre[pre.len() - 1] == vs[i as int]);
            }
            match self.variants[i].private_inline_declarations(resolver, ns) {
                Err(e) => {
                    proof {
                        lemma_variants_fault_stays(vs, i as int + 1, names, nsv);
                    }
                    return Err(e);
                },
                Ok(d) => {
                    let mut d = d;
                    let ghost p0 = private@;
                    let ghost dm = tdecls_model(d@);
                    private.append(&mut d);
                    assert(tdecls_model(private@) =~= tdecls_model(p0) + dm);
                },
            }
            variants.push(self.variants[i].to_enum_variant(&none, ns));
            i += 1;
        }
        proof {
            assert(vs.subrange(0, vs.len() as int) =~= vs);
            assert(variants_view(variants@) =~= enum_variants_model(vs, Seq::empty(), nsv));
        }
        let e = EnumDeclaration::new(name, variants);
        let public: Vec<TypeDeclaration> = Vec::new();
        assert(tdecls_model(public@) =~= Seq::<TypeDeclarationModel>::empty());
        Ok(SourceDeclarationGroup { public, private, primary: Some(TypeDeclaration::Enum(e)) })
    }
}


// ---------------------------------------------------------------------------
// Lowering what a namespace declares, and impl catalogs.
// ---------------------------------------------------------------------------

/// A declaration of the namespace holding a lowered type.
pub open spec fn decl_of(vis: Visibility, t: TypeDeclarationModel, params: Seq<Seq<char>>) -> DeclarationModel {
    DeclarationModel { visibility: vis, name: type_model_name(t), parameters: params, value: t, impls: Seq::empty() }
}

/// A group as namespace declarations: its public helpers, its private
/// helpers, then its own declaration, public and carrying `params`.
pub open spec fn public_declarations(g: GroupModel, params: Seq<Seq<char>>) -> Seq<DeclarationModel> {
    g.public.map_values(|t: TypeDeclarationModel| decl_of(Visibility::Public, t, Seq::empty())) + g.private.map_values(
        |t: TypeDeclarationModel| decl_of(Visibility::Private, t, Seq::empty()),
    ) + match g.primary {
        Some(t) => seq![decl_of(Visibility::Public, t, params)],
        None => Seq::empty(),
    }
}

/// The group a variant's inline body writes at namespace scope: an inline
/// struct's fields declare their types publicly; none for a unit variant or
/// a reference payload.
pub closed spec fn variant_public_group(
    v: SourceVariantSignature,
    names: Seq<Seq<char>>,
    ns: Option<Seq<char>>,
) -> Result<GroupModel, Seq<char>> {
    match v {
        SourceVariantSignature::Data(n, SourceVariantPayload::Declaration(SourceDeclarationValue::Struct(b))) => struct_group(
            b,
            qualified_seq(n.name@, ns),
            names,
            ns,
            SourceInlineDeclarationVisibility::PublicSourceScope,
        ),
        SourceVariantSignature::Data(n, SourceVariantPayload::Declaration(d)) => value_group(
            d,
            qualified_seq(n.name@, ns),
            names,
            ns,
        ),
        _ => Ok(GroupModel { public: Seq::empty(), private: Seq::empty(), primary: None }),
    }
}

/// The declarations of the variants' public groups, in order, or the first
/// fault.
pub closed spec fn variants_public(
    vs: Seq<SourceVariantSignature>,
    names: Seq<Seq<char>>,
    ns: Option<Seq<char>>,
) -> Result<Seq<TypeDeclarationModel>, Seq<char>>
    decreases vs.len(),
{
    if vs.len() == 0 {
        Ok(Seq::empty())
    } else {
        match variants_public(vs.subrange(0, vs.len() - 1), names, ns) {
            Err(e) => Err(e),
            Ok(acc) => match variant_public_group(vs[vs.len() - 1], names, ns) {
                Err(e) => Err(e),
                Ok(g) => Ok(acc + group_declarations(g)),
            },
        }
    }
}

/// The group an enum body written at namespace scope lowers to: the types
/// its variants' inline bodies declare, public, then the enum.
pub closed spec fn enum_public_group(
    b: SourceEnumBody,
    name: Seq<char>,
    names: Seq<Seq<char>>,
    ns: Option<Seq<char>>,
) -> Result<GroupModel, Seq<char>> {
    match variants_public(b.variants@, names, ns) {
        Err(e) => Err(e),
        Ok(public) => Ok(
            GroupModel {
                public: public,
                private: Seq::empty(),
                primary: Some(TypeDeclarationModel::Enum(name, enum_variants_model(b.variants@, Seq::empty(), ns))),
            },
        ),
    }
}

/// The group a declaration body written at namespace scope lowers to: an
/// enum body's inline types are public there.
pub closed spec fn namespace_group(
    v: SourceDeclarationValue,
    name: Seq<char>,
    names: Seq<Seq<char>>,
    ns: Option<Seq<char>>,
) -> Result<GroupModel, Seq<char>> {
    match v {
        SourceDeclarationValue::Enum(b) => enum_public_group(b, name, names, ns),
        _ => value_group(v, name, names, ns),
    }
}

/// The namespace declarations of the variants' public groups, in order, or
/// the first fault.
pub closed spec fn variants_public_declarations(
    vs: Seq<SourceVariantSignature>,
    names: Seq<Seq<char>>,
) -> Result<Seq<DeclarationModel>, Seq<char>>
    decreases vs.len(),
{
    if vs.len() == 0 {
        Ok(Seq::empty())
    } else {
        match variants_public_declarations(vs.subrange(0, vs.len() - 1), names) {
            Err(e) => Err(e),
            Ok(acc) => match variant_public_group(vs[vs.len() - 1], names, None) {
                Err(e) => Err(e),
                Ok(g) => Ok(acc + public_declarations(g, Seq::empty())),
            },
        }
    }
}

/// A method signature lowered: each type resolved.
pub closed spec fn signature_lowered(s: SourceMethodSignature, names: Seq<Seq<char>>, ns: Option<Seq<char>>) -> SignatureModel {
    SignatureModel {
        name: s.name@,
        parameters: s.parameters@.map_values(
            |p: SourceMethodParameter| (p.name@, resolve_source(names, ns, source_view(p.reference))),
        ),
        return_reference: resolve_source(names, ns, source_view(s.return_reference)),
    }
}

/// An impl entry lowered: its method signatures resolved.
pub closed spec fn impl_entry_lowered(e: SourceImplEntry, names: Seq<Seq<char>>, ns: Option<Seq<char>>) -> ImplModel {
    match e {
        SourceImplEntry::Marker(n) => ImplModel::Marker(n@),
        SourceImplEntry::TraitImpl(n, sigs) => ImplModel::TraitImpl(
            n@,
            sigs@.map_values(|x: SourceMethodSignature| signature_lowered(x, names, ns)),
        ),
        SourceImplEntry::InherentMethod(x) => ImplModel::InherentMethod(signature_lowered(x, names, ns)),
    }
}

/// An impl catalog lowered, entry by entry.
pub closed spec fn catalog_lowered(c: SourceImplCatalog, names: Seq<Seq<char>>, ns: Option<Seq<char>>) -> Seq<ImplModel> {
    c.entries@.map_values(|e: SourceImplEntry| impl_entry_lowered(e, names, ns))
}

impl SourceDeclarationGroup {
    /// The group as namespace declarations, its own carrying `parameters`.
    pub fn into_public_declarations(self, parameters: Vec<Name>) -> (r: Vec<Declaration>)
        ensures
            declarations_model(r@) == public_declarations(self@, names_view(parameters@)),
    {
        let ghost g = self@;
        let mut out: Vec<Declaration> = Vec::new();
        let mut public = self.public;
        let mut private = self.private;
        let ghost pub0 = public@;
        let ghost priv0 = private@;
        let ghost pubm = g.public.map_values(|t: TypeDeclarationModel| decl_of(Visibility::Public, t, Seq::empty()));
        let ghost privm = g.private.map_values(|t: TypeDeclarationModel| decl_of(Visibility::Private, t, Seq::empty()));
        let n_pub = public.len();
        let n_priv = private.len();
        let mut i: usize = 0;
        assert(public@ =~= pub0.subrange(0, pub0.len() as int));
        assert(private@ =~= priv0.subrange(0, priv0.len() as int));
        assert(declarations_model(out@) =~= pubm.take(0));
        while i < n_pub
            invariant
                n_pub == pub0.len(),
                i <= pub0.len(),
                public@ == pub0.subrange(i as int, pub0.len() as int),
                g.public == tdecls_model(pub0),
                pubm == g.public.map_values(|t: TypeDeclarationModel| decl_of(Visibility::Public, t, Seq::empty())),
                declarations_model(out@) == pubm.take(i as int),
            decreases n_pub - i,
        {
            let t = public.remove(0);
            assert(t == pub0[i as int]);
            assert(public@ =~= pub0.subrange(i + 1, pub0.len() as int));
            let d = Declaration::public(t);
            let ghost before = out@;
            out.push(d);
            assert(declarations_model(out@) =~= pubm.take(i + 1)) by {
                assert(declarations_model(before) == pubm.take(i as int));
                assert(out@ == before.push(d));
                assert(g.public[i as int] == type_model(t));
                assert(d@ == pubm[i as int]);
                assert(declarations_model(out@) =~= declarations_model(before).push(d@));
            }
            i += 1;
        }
        assert(pubm.take(pub0.len() as int) =~= pubm);
        let mut j: usize = 0;
        assert(declarations_model(out@) =~= pubm + privm.take(0));
        while j < n_priv
            invariant
                n_priv == priv0.len(),
                pubm.len() == pub0.len(),
                j <= priv0.len(),
                private@ == priv0.subrange(j as int, priv0.len() as int),
                g.private == tdecls_model(priv0),
                privm == g.private.map_values(|t: TypeDeclarationModel| decl_of(Visibility::Private, t, Seq::empty())),
                declarations_model(out@) == pubm + privm.take(j as int),
            decreases n_priv - j,
        {
            let t = private.remove(0);
            assert(t == priv0[j as int]);
            assert(private@ =~= priv0.subrange(j + 1, priv0.len() as int));
            let d = Declaration::private(t);
            let ghost before = out@;
            out.push(d);
            assert(declarations_model(out@) =~= pubm + privm.take(j + 1)) by {
                assert(out@ == before.push(d));
                assert(g.private[j as int] == type_model(t));
                assert(d@ == privm[j as int]);
                assert(declarations_model(out@) =~= declarations_model(before).push(d@));
            }
            j += 1;
        }
        assert(privm.take(priv0.len() as int) =~= privm);
        match self.primary {
            Some(t) => {
                let d = Declaration::public(t).with_parameters(parameters);
                let ghost before = out@;
                out.push(d);
                assert(declarations_model(out@) =~= declarations_model(before).push(d@));
            },
            None => {},
        }
        assert(declarations_model(out@) =~= public_declarations(g, names_view(parameters@)));
        out
    }
}

impl SourceVariantSignature {
    /// The group this variant's inline body writes at namespace scope.
    fn public_inline_declaration(
        &self,
        resolver: &SourceTypeResolver,
        ns: Option<&Name>,
    ) -> (r: Result<SourceDeclarationGroup, SchemaError>)
        ensures
            match (r, variant_public_group(*self, resolver@, namespace_view(ns))) {
                (Ok(g), Ok(m)) => g@ == m,
                (Err(e), Err(t)) => lowering_fault(e, t),
                _ => false,
            },
    {
        match self {
            SourceVariantSignature::Data(n, SourceVariantPayload::Declaration(SourceDeclarationValue::Struct(body))) => {
                body.to_declaration_group_with_visibility(
                    n.name.qualified_under(ns),
                    resolver,
                    ns,
                    SourceInlineDeclarationVisibility::PublicSourceScope,
                )
            },
            SourceVariantSignature::Data(n, SourceVariantPayload::Declaration(value)) => value.to_declaration_group(
                n.name.qualified_under(ns),
                resolver,
                ns,
            ),
            _ => {
                let g = SourceDeclarationGroup { public: Vec::new(), private: Vec::new(), primary: None };
                assert(tdecls_model(g.public@) =~= Seq::<TypeDeclarationModel>::empty());
                assert(tdecls_model(g.private@) =~= Seq::<TypeDeclarationModel>::empty());
                Ok(g)
            },
        }
    }
}

impl SourceEnumBody {
    /// Lower this enum body written at namespace scope: the types its
    /// variants' inline bodies declare, public, then the enum.
    pub fn to_public_declaration_group(
        &self,
        name: Name,
        resolver: &SourceTypeResolver,
        ns: Option<&Name>,
    ) -> (r: Result<SourceDeclarationGroup, SchemaError>)
        ensures
            match (r, enum_public_group(*self, name@, resolver@, namespace_view(ns))) {
                (Ok(g), Ok(m)) => g@ == m,
                (Err(e), Err(t)) => lowering_fault(e, t),
                _ => false,
            },
    {
        let ghost vs = self.variants@;
        let ghost names = resolver@;
        let ghost nsv = namespace_view(ns);
        let none = SourceTypeResolver::explicit_only();
        let mut public: Vec<TypeDeclaration> = Vec::new();
        let mut variants: Vec<EnumVariant> = Vec::new();
        let mut i: usize = 0;
        proof {
            assert(vs.subrange(0, 0) =~= Seq::<SourceVariantSignature>::empty());
            assert(tdecls_model(public@) =~= Seq::<TypeDeclarationModel>::empty());
        }
        while i < self.variants.len()
            invariant
                i <= vs.len(),
                vs == self.variants@,
                names == resolver@,
                nsv == namespace_view(ns),
                variants_public(vs.subrange(0, i as int), names, nsv) == Ok::<Seq<TypeDeclarationModel>, Seq<char>>(
                    tdecls_model(public@),
                ),
                variants@.len() == i,
                forall|j: int|
                    0 <= j < i ==> variant_view(#[trigger] variants@[j]) == enum_variant_model(vs[j], none@, nsv),
                none@ == Seq::<Seq<char>>::empty(),
            decreases self.variants.len() - i,
        {
            let ghost pre = vs.subrange(0, i + 1);
            proof {
                assert(pre.subrange(0, pre.len() - 1) =~= vs.subrange(0, i as int));
                assert(pre[pre.len() - 1] == vs[i as int]);
            }
            match self.variants[i].public_inline_declaration(resolver, ns) {
                Err(e) => {
                    proof {
                        lemma_variants_public_fault_stays(vs, i as int + 1, names, nsv);
                    }
                    return Err(e);
                },
                Ok(g) => {
                    let mut d = g.into_type_declarations();
                    let ghost p0 = public@;
                    let ghost dm = tdecls_model(d@);
                    public.append(&mut d);
                    assert(tdecls_model(public@) =~= tdecls_model(p0) + dm);
                },
            }
            variants.push(self.variants[i].to_enum_variant(&none, ns));
            i += 1;
        }
        proof {
            assert(vs.subrange(0, vs.len() as int) =~= vs);
            assert(variants_view(variants@) =~= enum_variants_model(vs, Seq::empty(), nsv));
        }
        let e = EnumDeclaration::new(name, variants);
        let private: Vec<TypeDeclaration> = Vec::new();
        assert(tdecls_model(private@) =~= Seq::<TypeDeclarationModel>::empty());
        Ok(SourceDeclarationGroup { public, private, primary: Some(TypeDeclaration::Enum(e)) })
    }

    /// The namespace declarations this enum body's variants write inline, as
    /// a root's body.
    pub fn public_inline_declarations(&self, resolver: &SourceTypeResolver) -> (r: Result<Vec<Declaration>, SchemaError>)
        ensures
            match (r, variants_public_declarations(self.variants_view(), resolver@)) {
                (Ok(d), Ok(m)) => declarations_model(d@) == m,
                (Err(e), Err(t)) => lowering_fault(e, t),
                _ => false,
            },
    {
        let ghost vs = self.variants@;
        let ghost names = resolver@;
        let mut out: Vec<Declaration> = Vec::new();
        let mut i: usize = 0;
        proof {
            assert(vs.subrange(0, 0) =~= Seq::<SourceVariantSignature>::empty());
            assert(declarations_model(out@) =~= Seq::<DeclarationModel>::empty());
        }
        while i < self.variants.len()
            invariant
                i <= vs.len(),
                vs == self.variants@,
                names == resolver@,
                variants_public_declarations(vs.subrange(0, i as int), names) == Ok::<Seq<DeclarationModel>, Seq<char>>(
                    declarations_model(out@),
                ),
            decreases self.variants.len() - i,
        {
            let ghost pre = vs.subrange(0, i + 1);
            proof {
                assert(pre.subrange(0, pre.len() - 1) =~= vs.subrange(0, i as int));
                assert(pre[pre.len() - 1] == vs[i as int]);
            }
            match self.variants[i].public_inline_declaration(resolver, None) {
                Err(e) => {
                    proof {
                        lemma_variants_declarations_fault_stays(vs, i as int + 1, names);
                    }
                    return Err(e);
                },
                Ok(g) => {
                    let mut d = g.into_public_declarations(Vec::new());
                    proof {
                        assert(names_view(Seq::<Name>::empty()) =~= Seq::<Seq<char>>::empty());
                    }
                    let ghost o0 = out@;
                    let ghost dm = declarations_model(d@);
                    out.append(&mut d);
                    assert(declarations_model(out@) =~= declarations_model(o0) + dm);
                },
            }
            i += 1;
        }
        proof {
            assert(vs.subrange(0, vs.len() as int) =~= vs);
        }
        Ok(out)
    }
}

/// A fault met among the first `k` variants' public groups is the fault of
/// all of them.
proof fn lemma_variants_public_fault_stays(
    vs: Seq<SourceVariantSignature>,
    k: int,
    names: Seq<Seq<char>>,
    ns: Option<Seq<char>>,
)
    requires
        0 <= k <= vs.len(),
        variants_public(vs.subrange(0, k), names, ns) is Err,
    ensures
        variants_public(vs, names, ns) == variants_public(vs.subrange(0, k), names, ns),
    decreases vs.len() - k,
{
    if k == vs.len() {
        assert(vs.subrange(0, k) =~= vs);
    } else {
        let pre = vs.subrange(0, k + 1);
        assert(pre.subrange(0, pre.len() - 1) =~= vs.subrange(0, k));
        lemma_variants_public_fault_stays(vs, k + 1, names, ns);
    }
}

proof fn lemma_variants_declarations_fault_stays(vs: Seq<SourceVariantSignature>, k: int, names: Seq<Seq<char>>)
    requires
        0 <= k <= vs.len(),
        variants_public_declarations(vs.subrange(0, k), names) is Err,
    ensures
        variants_public_declarations(vs, names) == variants_public_declarations(vs.subrange(0, k), names),
    decreases vs.len() - k,
{
    if k == vs.len() {
        assert(vs.subrange(0, k) =~= vs);
    } else {
        let pre = vs.subrange(0, k + 1);
        assert(pre.subrange(0, pre.len() - 1) =~= vs.subrange(0, k));
        lemma_variants_declarations_fault_stays(vs, k + 1, names);
    }
}

impl SourceDeclarationValue {
    /// Lower this body written at namespace scope, named `name`.
    pub fn to_namespace_declaration_group(
        &self,
        name: Name,
        resolver: &SourceTypeResolver,
        ns: Option<&Name>,
    ) -> (r: Result<SourceDeclarationGroup, SchemaError>)
        ensures
            match (r, namespace_group(*self, name@, resolver@, namespace_view(ns))) {
                (Ok(g), Ok(m)) => g@ == m,
                (Err(e), Err(t)) => lowering_fault(e, t),
                _ => false,
            },
    {
        match self {
            SourceDeclarationValue::Enum(body) => body.to_public_declaration_group(name, resolver, ns),
            _ => self.to_declaration_group(name, resolver, ns),
        }
    }
}

impl SourceMethodSignature {
    /// This signature lowered: each type resolved against `resolver`.
    pub fn lower(&self, resolver: &SourceTypeResolver, ns: Option<&Name>) -> (r: MethodSignature)
        ensures
            r@ == signature_lowered(*self, resolver@, namespace_view(ns)),
    {
        let mut parameters: Vec<MethodParameter> = Vec::new();
        let mut i: usize = 0;
        while i < self.parameters.len()
            invariant
                i <= self.parameters@.len(),
                parameters@.len() == i,
                forall|j: int|
                    0 <= j < i ==> (#[trigger] parameters@[j])@ == (
                        self.parameters@[j].name@,
                        resolve_source(resolver@, namespace_view(ns), source_view(self.parameters@[j].reference)),
                    ),
            decreases self.parameters.len() - i,
        {
            let p = &self.parameters[i];
            parameters.push(MethodParameter::new(p.name.duplicate(), p.reference.resolve_with(resolver, ns)));
            i += 1;
        }
        let r = MethodSignature::new(self.name.duplicate(), parameters, self.return_reference.resolve_with(resolver, ns));
        assert(r@.parameters =~= signature_lowered(*self, resolver@, namespace_view(ns)).parameters);
        r
    }
}

impl SourceImplCatalog {
    /// This catalog lowered: each entry's signatures resolved against
    /// `resolver`.
    pub fn lower(&self, resolver: &SourceTypeResolver, ns: Option<&Name>) -> (r: ImplCatalog)
        ensures
            r@ == catalog_lowered(*self, resolver@, namespace_view(ns)),
    {
        let mut entries: Vec<ImplReference> = Vec::new();
        let mut i: usize = 0;
        while i < self.entries.len()
            invariant
                i <= self.entries@.len(),
                entries@.len() == i,
                forall|j: int|
                    0 <= j < i ==> (#[trigger] entries@[j])@ == impl_entry_lowered(
                        self.entries@[j],
                        resolver@,
                        namespace_view(ns),
                    ),
            decreases self.entries.len() - i,
        {
            let entry = match &self.entries[i] {
                SourceImplEntry::Marker(n) => ImplReference::Marker(n.duplicate()),
                SourceImplEntry::TraitImpl(n, sigs) => {
                    let mut lowered: Vec<MethodSignature> = Vec::new();
                    let mut k: usize = 0;
                    while k < sigs.len()
                        invariant
                            k <= sigs@.len(),
                            lowered@.len() == k,
                            forall|j: int|
                                0 <= j < k ==> (#[trigger] lowered@[j])@ == signature_lowered(
                                    sigs@[j],
                                    resolver@,
                                    namespace_view(ns),
                                ),
                        decreases sigs.len() - k,
                    {
                        lowered.push(sigs[k].lower(resolver, ns));
                        k += 1;
                    }
                    let ghost lv = signatures_model(lowered@);
                    assert(lv =~= sigs@.map_values(
                        |x: SourceMethodSignature| signature_lowered(x, resolver@, namespace_view(ns)),
                    ));
                    let r = ImplReference::TraitImpl(n.duplicate(), lowered);
                    assert(r@ == impl_entry_lowered(self.entries@[i as int], resolver@, namespace_view(ns)));
                    r
                },
                SourceImplEntry::InherentMethod(x) => ImplReference::InherentMethod(x.lower(resolver, ns)),
            };
            entries.push(entry);
            i += 1;
        }
        let r = ImplCatalog::new(entries);
        assert(r@ =~= catalog_lowered(*self, resolver@, namespace_view(ns)));
        r
    }
}

} // verus!
