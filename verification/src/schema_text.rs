//! The canonical `.schema` text of a schema tree: the imports block, the two
//! roots, and the `types`, `generics`, and `impls` blocks, each projected from
//! the tree's declarations.

use crate::declaration::{
    declarations_model, field_model, FieldDeclaration, impls_model, refers_to, signatures_model, Declaration,
    DeclarationModel, EnumDeclaration, FieldModel, ImplBlock, ImplCatalog, ImplModel,
    ImplReference, MethodParameter, MethodSignature, SignatureModel, StructFieldMap,
    TypeDeclaration, TypeDeclarationModel, type_model,
};
use crate::name::{dotos_seq, names_view, Name};
use crate::reference::{
    reference_view, variant_view, variants_view, EnumVariant, ReferenceModel, TypeReference,
    VariantModel,
};
use crate::seqs::{count_where};
use crate::source_reference::{reference_field_seq, reference_text_seq};
use crate::text::{join, join_seq, views_of};
use crate::tree::{root_name_seq, ImportDeclaration, Root, RootModel, SchemaTree, TreeModel};
use vstd::prelude::*;

verus! {

/// `parts` separated by single spaces between an opening and a closing
/// delimiter.
pub open spec fn wrap_seq(open: Seq<char>, parts: Seq<Seq<char>>, close: Seq<char>) -> Seq<char> {
    open + join_seq(parts, seq![' ']) + close
}

/// A dotted entry `key.value`.
pub open spec fn dotted_seq(key: Seq<char>, value: Seq<char>) -> Seq<char> {
    key + seq!['.'] + value
}

/// The text of an enum variant: its name, or `(Name Payload)`.
pub open spec fn variant_text_seq(v: VariantModel) -> Seq<char> {
    match v.payload {
        None => dotos_seq(v.name),
        Some(p) => wrap_seq(seq!['('], seq![dotos_seq(v.name), reference_text_seq(p)], seq![')']),
    }
}

/// The text of an enum body: its variants in square brackets.
pub open spec fn enum_body_seq(vs: Seq<VariantModel>) -> Seq<char> {
    wrap_seq(seq!['['], Seq::new(vs.len(), |i: int| variant_text_seq(vs[i])), seq![']'])
}

/// The text of field `f` of product `fs`: the bare reference when the field
/// carries the name its unique reference derives, else `name.Reference`.
pub open spec fn field_text_seq(fs: Seq<FieldModel>, f: FieldModel) -> Seq<char> {
    if count_where(fs, refers_to(f.reference)) == 1 && f.name == reference_field_seq(f.reference) {
        reference_text_seq(f.reference)
    } else {
        dotted_seq(dotos_seq(f.name), reference_text_seq(f.reference))
    }
}

/// The text of a struct body: `{}` when empty, else `{ field … }`.
pub open spec fn struct_body_seq(fs: Seq<FieldModel>) -> Seq<char> {
    if fs.len() == 0 {
        seq!['{', '}']
    } else {
        seq!['{', ' '] + join_seq(Seq::new(fs.len(), |i: int| field_text_seq(fs, fs[i])), seq![' '])
            + seq![' ', '}']
    }
}

/// The text of a declared type body.
pub open spec fn type_text_seq(d: TypeDeclarationModel) -> Seq<char> {
    match d {
        TypeDeclarationModel::Struct(_, fs) => struct_body_seq(fs),
        TypeDeclarationModel::Enum(_, vs) => enum_body_seq(vs),
        TypeDeclarationModel::Newtype(_, r) => reference_text_seq(r),
    }
}

/// The text of a method parameter: `name.Reference`.
pub open spec fn parameter_text_seq(p: (Seq<char>, ReferenceModel)) -> Seq<char> {
    dotted_seq(dotos_seq(p.0), reference_text_seq(p.1))
}

/// The text of a method signature: `(name { params } Return)`.
pub open spec fn signature_text_seq(s: SignatureModel) -> Seq<char> {
    wrap_seq(
        seq!['('],
        seq![
            dotos_seq(s.name),
            wrap_seq(
                seq!['{'],
                Seq::new(s.parameters.len(), |i: int| parameter_text_seq(s.parameters[i])),
                seq!['}'],
            ),
            reference_text_seq(s.return_reference),
        ],
        seq![')'],
    )
}

/// The text of a list of signatures in square brackets.
pub open spec fn signatures_text_seq(ms: Seq<SignatureModel>) -> Seq<char> {
    wrap_seq(seq!['['], Seq::new(ms.len(), |i: int| signature_text_seq(ms[i])), seq![']'])
}

/// The text of an impl entry.
pub open spec fn impl_text_seq(e: ImplModel) -> Seq<char> {
    match e {
        ImplModel::Marker(n) => dotos_seq(n),
        ImplModel::TraitImpl(n, ms) => dotos_seq(n) + seq![' '] + signatures_text_seq(ms),
        ImplModel::InherentMethod(s) => signature_text_seq(s),
    }
}

/// The text of an impl catalog: its entries in square brackets.
pub open spec fn catalog_text_seq(es: Seq<ImplModel>) -> Seq<char> {
    wrap_seq(seq!['['], Seq::new(es.len(), |i: int| impl_text_seq(es[i])), seq![']'])
}

/// `s` with every `from` character replaced by `to`.
pub open spec fn replaced_seq(s: Seq<char>, from: char, to: char) -> Seq<char> {
    Seq::new(s.len(), |i: int| if s[i] == from { to } else { s[i] })
}

/// The text of an import entry: a plain source path with its colons re-spelled
/// as dots, or else the source reference's text.
pub open spec fn import_text_seq(source: ReferenceModel) -> Seq<char> {
    match source {
        ReferenceModel::Plain(n) => replaced_seq(n, ':', '.'),
        _ => reference_text_seq(source),
    }
}

/// The text of a root: an enum body, or the application reference's text.
pub open spec fn root_text_seq(r: RootModel) -> Seq<char> {
    match r {
        RootModel::Enum(_, vs) => enum_body_seq(vs),
        RootModel::Application(_, h, args) => reference_text_seq(ReferenceModel::Application(h, args)),
    }
}

/// The `types` entry of a declaration: `Name.Definition`.
pub open spec fn types_entry_seq(d: DeclarationModel) -> Seq<char> {
    dotted_seq(dotos_seq(d.name), type_text_seq(d.value))
}

/// The `generics` entry of a declaration: `Name.((Params …) Definition)`.
pub open spec fn generics_entry_seq(d: DeclarationModel) -> Seq<char> {
    dotos_seq(d.name) + seq!['.', '(', '('] + join_seq(
        Seq::new(d.parameters.len(), |i: int| dotos_seq(d.parameters[i])),
        seq![' '],
    ) + seq![')', ' '] + type_text_seq(d.value) + seq![')']
}

/// The `impls` entry of a target and its catalog: `Name.[ … ]`.
pub open spec fn impls_entry_seq(target: Seq<char>, es: Seq<ImplModel>) -> Seq<char> {
    dotted_seq(dotos_seq(target), catalog_text_seq(es))
}

/// The `types` entries of the declarations without parameters, in order.
pub open spec fn types_entries(ns: Seq<DeclarationModel>) -> Seq<Seq<char>>
    decreases ns.len(),
{
    if ns.len() == 0 {
        Seq::empty()
    } else {
        types_entries(ns.drop_last()) + if ns.last().parameters.len() == 0 {
            seq![types_entry_seq(ns.last())]
        } else {
            Seq::empty()
        }
    }
}

/// The `generics` entries of the declarations with parameters, in order.
pub open spec fn generics_entries(ns: Seq<DeclarationModel>) -> Seq<Seq<char>>
    decreases ns.len(),
{
    if ns.len() == 0 {
        Seq::empty()
    } else {
        generics_entries(ns.drop_last()) + if ns.last().parameters.len() != 0 {
            seq![generics_entry_seq(ns.last())]
        } else {
            Seq::empty()
        }
    }
}

/// The `impls` entries of the declarations carrying a fused catalog, in order.
pub open spec fn fused_impls_entries(ns: Seq<DeclarationModel>) -> Seq<Seq<char>>
    decreases ns.len(),
{
    if ns.len() == 0 {
        Seq::empty()
    } else {
        fused_impls_entries(ns.drop_last()) + if ns.last().impls.len() != 0 {
            seq![impls_entry_seq(ns.last().name, ns.last().impls)]
        } else {
            Seq::empty()
        }
    }
}

/// A root block: `{}` when empty, else one indented entry per line.
pub open spec fn brace_block_seq(entries: Seq<Seq<char>>) -> Seq<char> {
    if entries.len() == 0 {
        seq!['{', '}']
    } else {
        seq!['{', '\n'] + join_seq(
            Seq::new(entries.len(), |i: int| seq![' ', ' '] + entries[i]),
            seq!['\n'],
        ) + seq!['\n', '}']
    }
}

/// The canonical schema text of a tree with the given import entries: the six
/// root blocks, one per line.
pub open spec fn schema_text_seq(t: TreeModel, imports: Seq<ReferenceModel>) -> Seq<char> {
    join_seq(
        seq![
            brace_block_seq(Seq::new(imports.len(), |i: int| import_text_seq(imports[i]))),
            root_text_seq(t.input),
            root_text_seq(t.output),
            brace_block_seq(types_entries(t.namespace)),
            brace_block_seq(generics_entries(t.namespace)),
            brace_block_seq(
                fused_impls_entries(t.namespace) + Seq::new(
                    t.impl_blocks.len(),
                    |i: int| impls_entry_seq(t.impl_blocks[i].0, t.impl_blocks[i].1),
                ),
            ),
        ],
        seq!['\n'],
    )
}

/// `parts` between `open` and `close`, separated by single spaces.
fn wrap(open: &str, parts: &Vec<String>, close: &str) -> (r: String)
    ensures
        r@ == wrap_seq(open@, views_of(parts@), close@),
{
    let mut r = crate::text::owned(open);
    let inner = join(parts, " ");
    proof {
        reveal_strlit(" ");
        assert(" "@ =~= seq![' ']);
    }
    r.append(inner.as_str());
    r.append(close);
    r
}

/// Append one rendered part to a list of parts.
fn push_part(parts: &mut Vec<String>, text: String)
    ensures
        views_of(final(parts)@) == views_of(old(parts)@).push(text@),
{
    proof {
        crate::text::lemma_views_of_push(parts@, text);
    }
    parts.push(text);
}

/// `key.value`.
fn dotted(key: String, value: &str) -> (r: String)
    ensures
        r@ == dotted_seq(key@, value@),
{
    let mut r = key;
    r.append(".");
    proof {
        reveal_strlit(".");
    }
    r.append(value);
    r
}

/// `s` with every `from` character replaced by `to`.
fn replace_char(s: &str, from: char, to: char) -> (r: String)
    ensures
        r@ == replaced_seq(s@, from, to),
{
    let chars = crate::text::chars_of(s);
    let mut out: Vec<char> = Vec::new();
    let mut i: usize = 0;
    while i < chars.len()
        invariant
            i <= chars@.len(),
            chars@ == s@,
            out@ == replaced_seq(s@, from, to).take(i as int),
        decreases chars.len() - i,
    {
        if chars[i] == from {
            out.push(to);
        } else {
            out.push(chars[i]);
        }
        assert(out@ =~= replaced_seq(s@, from, to).take(i + 1));
        i += 1;
    }
    assert(out@ =~= replaced_seq(s@, from, to));
    crate::text::string_of(out.as_slice())
}

impl EnumVariant {
    /// The variant's schema text: its name, or `(Name Payload)`.
    pub fn to_schema_text(&self) -> (r: String)
        ensures
            r@ == variant_text_seq(variant_view(*self)),
    {
        match &self.payload {
            None => self.name.to_dotos(),
            Some(payload) => {
                let parts = vec![self.name.to_dotos(), payload.to_structural_dotos()];
                proof {
                    reveal_strlit("(");
                    reveal_strlit(")");
                }
                let r = wrap("(", &parts, ")");
                assert(views_of(parts@) =~= seq![dotos_seq(self.name@), reference_text_seq(reference_view(*payload))]);
                r
            },
        }
    }
}

impl EnumDeclaration {
    /// The enum body's schema text: its variants in square brackets.
    pub fn body_schema_text(&self) -> (r: String)
        ensures
            r@ == enum_body_seq(variants_view(self.variants@)),
    {
        let ghost vs = variants_view(self.variants@);
        let mut parts: Vec<String> = Vec::new();
        let mut i: usize = 0;
        while i < self.variants.len()
            invariant
                i <= self.variants@.len(),
                vs == variants_view(self.variants@),
                views_of(parts@) == Seq::new(i as nat, |k: int| variant_text_seq(vs[k])),
            decreases self.variants.len() - i,
        {
            assert(vs[i as int] == variant_view(self.variants@[i as int]));
            let text = self.variants[i].to_schema_text();
            proof {
                crate::text::lemma_views_of_push(parts@, text);
            }
            parts.push(text);
            assert(views_of(parts@) =~= Seq::new((i + 1) as nat, |k: int| variant_text_seq(vs[k])));
            i += 1;
        }
        proof {
            reveal_strlit("[");
            reveal_strlit("]");
        }
        wrap("[", &parts, "]")
    }
}


impl FieldDeclaration {
    /// The field's schema text within `product`.
    pub fn to_schema_text(&self, product: &StructFieldMap) -> (r: String)
        ensures
            r@ == field_text_seq(product@, field_model(*self)),
    {
        let reference = self.reference.to_structural_dotos();
        let derived = self.reference.derived_field_name();
        if product.reference_count(&self.reference) == 1 && self.name.same(&derived) {
            reference
        } else {
            dotted(self.name.to_dotos(), reference.as_str())
        }
    }
}

impl StructFieldMap {
    /// The struct body's schema text: `{}` when empty, else `{ field … }`.
    pub fn to_schema_text(&self) -> (r: String)
        ensures
            r@ == struct_body_seq(self@),
    {
        let entries = self.entries();
        proof {
            reveal_strlit("{}");
            reveal_strlit("{ ");
            reveal_strlit(" }");
            reveal_strlit(" ");
        }
        if entries.len() == 0 {
            assert(self@.len() == 0);
            return crate::text::owned("{}");
        }
        let ghost fs = self@;
        let mut parts: Vec<String> = Vec::new();
        let mut i: usize = 0;
        while i < entries.len()
            invariant
                i <= entries@.len(),
                fs == self@,
                crate::declaration::fields_model(entries@) == fs,
                views_of(parts@) == Seq::new(i as nat, |k: int| field_text_seq(fs, fs[k])),
            decreases entries.len() - i,
        {
            assert(fs[i as int] == field_model(entries@[i as int]));
            push_part(&mut parts, entries[i].to_schema_text(self));
            assert(views_of(parts@) =~= Seq::new((i + 1) as nat, |k: int| field_text_seq(fs, fs[k])));
            i += 1;
        }
        let mut r = crate::text::owned("{ ");
        r.append(join(&parts, " ").as_str());
        r.append(" }");
        assert(" "@ =~= seq![' ']);
        r
    }
}

impl TypeDeclaration {
    /// The declared body's schema text.
    pub fn to_schema_text(&self) -> (r: String)
        ensures
            r@ == type_text_seq(type_model(*self)),
    {
        match self {
            TypeDeclaration::Struct(declaration) => declaration.fields.to_schema_text(),
            TypeDeclaration::Enum(declaration) => declaration.body_schema_text(),
            TypeDeclaration::Newtype(declaration) => declaration.reference.to_structural_dotos(),
        }
    }
}

impl MethodParameter {
    /// `name.Reference`.
    pub fn to_schema_text(&self) -> (r: String)
        ensures
            r@ == parameter_text_seq(self@),
    {
        dotted(self.name().to_dotos(), self.reference().to_structural_dotos().as_str())
    }
}

impl MethodSignature {
    /// `(name { params } Return)`.
    pub fn to_schema_text(&self) -> (r: String)
        ensures
            r@ == signature_text_seq(self@),
    {
        let parameters = self.parameters();
        let ghost ps = self@.parameters;
        let mut parts: Vec<String> = Vec::new();
        let mut i: usize = 0;
        while i < parameters.len()
            invariant
                i <= parameters@.len(),
                ps == self@.parameters,
                Seq::new(parameters@.len(), |k: int| parameters@[k]@) == ps,
                views_of(parts@) == Seq::new(i as nat, |k: int| parameter_text_seq(ps[k])),
            decreases parameters.len() - i,
        {
            assert(ps[i as int] == parameters@[i as int]@);
            push_part(&mut parts, parameters[i].to_schema_text());
            assert(views_of(parts@) =~= Seq::new((i + 1) as nat, |k: int| parameter_text_seq(ps[k])));
            i += 1;
        }
        proof {
            reveal_strlit("{");
            reveal_strlit("}");
            reveal_strlit("(");
            reveal_strlit(")");
        }
        let parameters_text = wrap("{", &parts, "}");
        assert(ps.len() == parameters@.len());
        assert(views_of(parts@) =~= Seq::new(ps.len(), |k: int| parameter_text_seq(ps[k])));
        assert(parameters_text@ == wrap_seq(
            seq!['{'],
            Seq::new(ps.len(), |k: int| parameter_text_seq(ps[k])),
            seq!['}'],
        ));
        let outer = vec![self.name().to_dotos(), parameters_text, self.return_reference().to_structural_dotos()];
        let r = wrap("(", &outer, ")");
        assert(views_of(outer@) =~= seq![
            dotos_seq(self@.name),
            wrap_seq(seq!['{'], Seq::new(ps.len(), |k: int| parameter_text_seq(ps[k])), seq!['}']),
            reference_text_seq(self@.return_reference),
        ]);
        r
    }
}

/// The square-bracketed texts of a list of signatures.
fn signatures_text(methods: &[MethodSignature]) -> (r: String)
    ensures
        r@ == signatures_text_seq(signatures_model(methods@)),
{
    let ghost ms = signatures_model(methods@);
    let mut parts: Vec<String> = Vec::new();
    let mut i: usize = 0;
    while i < methods.len()
        invariant
            i <= methods@.len(),
            ms == signatures_model(methods@),
            views_of(parts@) == Seq::new(i as nat, |k: int| signature_text_seq(ms[k])),
        decreases methods.len() - i,
    {
        assert(ms[i as int] == methods@[i as int]@);
        push_part(&mut parts, methods[i].to_schema_text());
        assert(views_of(parts@) =~= Seq::new((i + 1) as nat, |k: int| signature_text_seq(ms[k])));
        i += 1;
    }
    proof {
        reveal_strlit("[");
        reveal_strlit("]");
    }
    wrap("[", &parts, "]")
}

impl ImplReference {
    /// The entry's schema text: a trait marker, a trait with its methods, or
    /// an inherent method signature.
    pub fn to_schema_text(&self) -> (r: String)
        ensures
            r@ == impl_text_seq(self@),
    {
        match self {
            ImplReference::Marker(name) => name.to_dotos(),
            ImplReference::TraitImpl(name, methods) => {
                let mut r = name.to_dotos();
                r.append(" ");
                proof {
                    reveal_strlit(" ");
                }
                r.append(signatures_text(methods.as_slice()).as_str());
                r
            },
            ImplReference::InherentMethod(signature) => signature.to_schema_text(),
        }
    }
}

impl ImplCatalog {
    /// The catalog's schema text: its entries in square brackets.
    pub fn to_schema_text(&self) -> (r: String)
        ensures
            r@ == catalog_text_seq(self@),
    {
        let entries = self.entries();
        let ghost es = self@;
        let mut parts: Vec<String> = Vec::new();
        let mut i: usize = 0;
        while i < entries.len()
            invariant
                i <= entries@.len(),
                es == self@,
                impls_model(entries@) == es,
                views_of(parts@) == Seq::new(i as nat, |k: int| impl_text_seq(es[k])),
            decreases entries.len() - i,
        {
            assert(es[i as int] == entries@[i as int]@);
            push_part(&mut parts, entries[i].to_schema_text());
            assert(views_of(parts@) =~= Seq::new((i + 1) as nat, |k: int| impl_text_seq(es[k])));
            i += 1;
        }
        proof {
            reveal_strlit("[");
            reveal_strlit("]");
        }
        wrap("[", &parts, "]")
    }
}

impl ImplBlock {
    /// One `impls` entry: `Target.[ … ]`.
    pub fn impls_entry_text(target: &Name, catalog: &ImplCatalog) -> (r: String)
        ensures
            r@ == impls_entry_seq(target@, catalog@),
    {
        dotted(target.to_dotos(), catalog.to_schema_text().as_str())
    }
}


impl ImportDeclaration {
    /// The import entry's text: a plain source path with its colons re-spelled
    /// as dots, or else the source reference's text.
    pub fn to_schema_text(&self) -> (r: String)
        ensures
            r@ == import_text_seq(reference_view(self.source)),
    {
        match self.source.plain_name() {
            Some(name) => replace_char(name.as_str(), ':', '.'),
            None => self.source.to_structural_dotos(),
        }
    }
}

impl Root {
    /// The root's schema text: an enum body, or the text of the application
    /// reference it projects to.
    pub fn to_root_schema_text(&self) -> (r: String)
        ensures
            r@ == root_text_seq(self@),
    {
        match self {
            Root::Enum(declaration) => declaration.body_schema_text(),
            Root::Application(application) => {
                let reference = TypeReference::Application {
                    head: application.head().deep_clone(),
                    arguments: crate::reference::clone_references(application.arguments()),
                };
                proof {
                    crate::reference::lemma_app_args(reference);
                }
                reference.to_structural_dotos()
            },
        }
    }
}

impl Declaration {
    /// The `types` entry of this declaration: `Name.Definition`.
    pub fn types_entry_text(&self) -> (r: String)
        ensures
            r@ == types_entry_seq(self@),
    {
        dotted(self.name().to_dotos(), self.value().to_schema_text().as_str())
    }

    /// The `generics` entry of this declaration: `Name.((Params …) Definition)`.
    pub fn generics_entry_text(&self) -> (r: String)
        ensures
            r@ == generics_entry_seq(self@),
    {
        let parameters = self.parameters();
        let ghost ps = self@.parameters;
        let mut parts: Vec<String> = Vec::new();
        let mut i: usize = 0;
        while i < parameters.len()
            invariant
                i <= parameters@.len(),
                ps == self@.parameters,
                names_view(parameters@) == ps,
                views_of(parts@) == Seq::new(i as nat, |k: int| dotos_seq(ps[k])),
            decreases parameters.len() - i,
        {
            assert(ps[i as int] == parameters@[i as int]@);
            push_part(&mut parts, parameters[i].to_dotos());
            assert(views_of(parts@) =~= Seq::new((i + 1) as nat, |k: int| dotos_seq(ps[k])));
            i += 1;
        }
        let mut r = self.name().to_dotos();
        r.append(".((");
        r.append(join(&parts, " ").as_str());
        r.append(") ");
        r.append(self.value().to_schema_text().as_str());
        r.append(")");
        proof {
            reveal_strlit(".((");
            reveal_strlit(" ");
            reveal_strlit(") ");
            reveal_strlit(")");
            assert(" "@ =~= seq![' ']);
            assert(views_of(parts@) =~= Seq::new(ps.len(), |k: int| dotos_seq(ps[k])));
        }
        r
    }
}

/// A root block: `{}` when empty, else one two-space-indented entry per line.
fn brace_block_text(entries: &Vec<String>) -> (r: String)
    ensures
        r@ == brace_block_seq(views_of(entries@)),
{
    proof {
        reveal_strlit("{}");
        reveal_strlit("{\n");
        reveal_strlit("\n}");
        reveal_strlit("\n");
        reveal_strlit("  ");
    }
    if entries.len() == 0 {
        return crate::text::owned("{}");
    }
    let ghost es = views_of(entries@);
    let mut lines: Vec<String> = Vec::new();
    let mut i: usize = 0;
    while i < entries.len()
        invariant
            i <= entries@.len(),
            es == views_of(entries@),
            views_of(lines@) == Seq::new(i as nat, |k: int| seq![' ', ' '] + es[k]),
        decreases entries.len() - i,
    {
        proof {
            reveal_strlit("  ");
            assert("  "@ =~= seq![' ', ' ']);
            assert(es[i as int] == entries@[i as int]@);
        }
        let mut line = crate::text::owned("  ");
        line.append(entries[i].as_str());
        push_part(&mut lines, line);
        assert(views_of(lines@) =~= Seq::new((i + 1) as nat, |k: int| seq![' ', ' '] + es[k]));
        i += 1;
    }
    let mut r = crate::text::owned("{\n");
    r.append(join(&lines, "\n").as_str());
    r.append("\n}");
    assert("\n"@ =~= seq!['\n']);
    r
}

impl SchemaTree {
    fn imports_schema_text(&self) -> (r: String)
        ensures
            r@ == brace_block_seq(
                Seq::new(
                    self.imports_view().len(),
                    |i: int| import_text_seq(reference_view(self.imports_view()[i].source)),
                ),
            ),
    {
        let imports = self.imports();
        let mut parts: Vec<String> = Vec::new();
        let mut i: usize = 0;
        while i < imports.len()
            invariant
                i <= imports@.len(),
                imports@ == self.imports_view(),
                views_of(parts@) == Seq::new(
                    i as nat,
                    |k: int| import_text_seq(reference_view(imports@[k].source)),
                ),
            decreases imports.len() - i,
        {
            push_part(&mut parts, imports[i].to_schema_text());
            assert(views_of(parts@) =~= Seq::new(
                (i + 1) as nat,
                |k: int| import_text_seq(reference_view(imports@[k].source)),
            ));
            i += 1;
        }
        brace_block_text(&parts)
    }

    fn types_schema_text(&self) -> (r: String)
        ensures
            r@ == brace_block_seq(types_entries(self@.namespace)),
    {
        let namespace = self.namespace();
        let ghost ns = self@.namespace;
        let mut parts: Vec<String> = Vec::new();
        let mut i: usize = 0;
        while i < namespace.len()
            invariant
                i <= namespace@.len(),
                ns == self@.namespace,
                declarations_model(namespace@) == ns,
                views_of(parts@) == types_entries(ns.take(i as int)),
            decreases namespace.len() - i,
        {
            assert(ns.take(i + 1).drop_last() =~= ns.take(i as int));
            assert(ns[i as int] == namespace@[i as int]@);
            if namespace[i].parameters().len() == 0 {
                push_part(&mut parts, namespace[i].types_entry_text());
            }
            i += 1;
        }
        assert(ns.take(ns.len() as int) =~= ns);
        brace_block_text(&parts)
    }

    fn generics_schema_text(&self) -> (r: String)
        ensures
            r@ == brace_block_seq(generics_entries(self@.namespace)),
    {
        let namespace = self.namespace();
        let ghost ns = self@.namespace;
        let mut parts: Vec<String> = Vec::new();
        let mut i: usize = 0;
        while i < namespace.len()
            invariant
                i <= namespace@.len(),
                ns == self@.namespace,
                declarations_model(namespace@) == ns,
                views_of(parts@) == generics_entries(ns.take(i as int)),
            decreases namespace.len() - i,
        {
            assert(ns.take(i + 1).drop_last() =~= ns.take(i as int));
            assert(ns[i as int] == namespace@[i as int]@);
            if namespace[i].parameters().len() != 0 {
                push_part(&mut parts, namespace[i].generics_entry_text());
            }
            i += 1;
        }
        assert(ns.take(ns.len() as int) =~= ns);
        brace_block_text(&parts)
    }

    fn impls_schema_text(&self) -> (r: String)
        ensures
            r@ == brace_block_seq(
                fused_impls_entries(self@.namespace) + Seq::new(
                    self@.impl_blocks.len(),
                    |i: int| impls_entry_seq(self@.impl_blocks[i].0, self@.impl_blocks[i].1),
                ),
            ),
    {
        let namespace = self.namespace();
        let ghost ns = self@.namespace;
        let mut parts: Vec<String> = Vec::new();
        let mut i: usize = 0;
        while i < namespace.len()
            invariant
                i <= namespace@.len(),
                ns == self@.namespace,
                declarations_model(namespace@) == ns,
                views_of(parts@) == fused_impls_entries(ns.take(i as int)),
            decreases namespace.len() - i,
        {
            assert(ns.take(i + 1).drop_last() =~= ns.take(i as int));
            assert(ns[i as int] == namespace@[i as int]@);
            if !namespace[i].impls().is_empty() {
                push_part(&mut parts, ImplBlock::impls_entry_text(namespace[i].name(), namespace[i].impls()));
            }
            i += 1;
        }
        assert(ns.take(ns.len() as int) =~= ns);
        let ghost fused = fused_impls_entries(ns);
        let blocks = self.impl_blocks();
        let ghost bs = self@.impl_blocks;
        let mut b: usize = 0;
        while b < blocks.len()
            invariant
                b <= blocks@.len(),
                bs == self@.impl_blocks,
                crate::tree::blocks_model(blocks@) == bs,
                views_of(parts@) == fused + Seq::new(b as nat, |k: int| impls_entry_seq(bs[k].0, bs[k].1)),
            decreases blocks.len() - b,
        {
            assert(bs[b as int] == blocks@[b as int]@);
            push_part(&mut parts, ImplBlock::impls_entry_text(blocks[b].target(), blocks[b].catalog()));
            assert(views_of(parts@) =~= fused + Seq::new(
                (b + 1) as nat,
                |k: int| impls_entry_seq(bs[k].0, bs[k].1),
            ));
            b += 1;
        }
        brace_block_text(&parts)
    }

    /// The canonical `.schema` text of this tree: the imports block, the input
    /// root, the output root, and the `types`, `generics`, and `impls` blocks,
    /// one per line.
    pub fn to_schema_text(&self) -> (r: String)
        ensures
            r@ == schema_text_seq(
                self@,
                Seq::new(self.imports_view().len(), |i: int| reference_view(self.imports_view()[i].source)),
            ),
    {
        let ghost imports = Seq::new(
            self.imports_view().len(),
            |i: int| reference_view(self.imports_view()[i].source),
        );
        let blocks = vec![
            self.imports_schema_text(),
            self.input().to_root_schema_text(),
            self.output().to_root_schema_text(),
            self.types_schema_text(),
            self.generics_schema_text(),
            self.impls_schema_text(),
        ];
        assert(Seq::new(imports.len(), |i: int| import_text_seq(imports[i])) =~= Seq::new(
            self.imports_view().len(),
            |i: int| import_text_seq(reference_view(self.imports_view()[i].source)),
        ));
        let r = join(&blocks, "\n");
        proof {
            reveal_strlit("\n");
            assert("\n"@ =~= seq!['\n']);
        }
        assert(views_of(blocks@) =~= seq![
            brace_block_seq(Seq::new(imports.len(), |i: int| import_text_seq(imports[i]))),
            root_text_seq(self@.input),
            root_text_seq(self@.output),
            brace_block_seq(types_entries(self@.namespace)),
            brace_block_seq(generics_entries(self@.namespace)),
            brace_block_seq(
                fused_impls_entries(self@.namespace) + Seq::new(
                    self@.impl_blocks.len(),
                    |i: int| impls_entry_seq(self@.impl_blocks[i].0, self@.impl_blocks[i].1),
                ),
            ),
        ]);
        r
    }
}

} // verus!
