//! Declarations: struct, enum, and newtype bodies, their fields and variants,
//! and the impl catalogs attached to them.

use crate::engine::SchemaError;
use crate::source_reference::reference_field_seq;
use crate::name::{local_seq, names_clone, names_view, Name};
use crate::reference::{
    clone_variants, option_reference_view, reference_view, variant_view,
    variants_view, EnumVariant, ReferenceModel, TypeReference, VariantModel,
};
use crate::signature_text::{atom_text, param_text, params_text, sig_text, write_atom};
use crate::seqs::{
    count_where, first_index, lemma_count_positive, lemma_count_step, lemma_count_two, lemma_first_index_step,
};
use vstd::prelude::*;

verus! {

/// Whether a declaration is exported.
#[derive(Clone, Copy, Debug, PartialEq, Eq, Structural)]
pub enum Visibility {
    Public,
    Private,
}

/// A struct field: a name and its reference.
#[derive(Debug)]
pub struct FieldDeclaration {
    pub name: Name,
    pub reference: TypeReference,
}

/// The mathematical form of a field.
pub struct FieldModel {
    pub name: Seq<char>,
    pub reference: ReferenceModel,
}

pub open spec fn field_model(f: FieldDeclaration) -> FieldModel {
    FieldModel { name: f.name@, reference: reference_view(f.reference) }
}

pub open spec fn fields_model(s: Seq<FieldDeclaration>) -> Seq<FieldModel> {
    Seq::new(s.len(), |i: int| field_model(s[i]))
}

/// The predicate: a field carries the reference `r`.
pub open spec fn refers_to(r: ReferenceModel) -> spec_fn(FieldModel) -> bool {
    |f: FieldModel| f.reference == r
}

/// The predicate: a field carries both the reference and the name of `g`.
pub open spec fn same_identity(g: FieldModel) -> spec_fn(FieldModel) -> bool {
    |f: FieldModel| f.reference == g.reference && f.name == g.name
}

/// The product-component rule a field breaks, if any: 1 when a component
/// whose reference occurs once carries a name other than the derived one, 2
/// when a repeated component leaves its derived name, 3 when a repeated
/// component repeats both reference and name; 0 when it breaks none.
pub open spec fn product_fault(fs: Seq<FieldModel>, i: int) -> int {
    let f = fs[i];
    let occurrences = count_where(fs, refers_to(f.reference));
    let derived = reference_field_seq(f.reference);
    if occurrences == 1 && f.name != derived {
        1
    } else if occurrences > 1 && f.name == derived {
        2
    } else if occurrences > 1 && count_where(fs, same_identity(f)) > 1 {
        3
    } else {
        0
    }
}

/// Whether no field of a product breaks a product-component rule.
pub open spec fn product_ok(fs: Seq<FieldModel>) -> bool {
    forall|i: int| 0 <= i < fs.len() ==> product_fault(fs, i) == 0
}

/// `i` is the first field of the product that breaks a rule.
pub open spec fn first_product_fault(fs: Seq<FieldModel>, i: int) -> bool {
    &&& 0 <= i < fs.len()
    &&& product_fault(fs, i) != 0
    &&& forall|j: int| 0 <= j < i ==> product_fault(fs, j) == 0
}

/// The error a product is rejected with: the rule its first faulty field
/// breaks, naming that field and its reference.
pub open spec fn product_error(e: SchemaError, fs: Seq<FieldModel>) -> bool {
    exists|i: int|
        first_product_fault(fs, i) && match e {
            SchemaError::ExplicitFieldOnUniqueProductComponent { field, type_label } => product_fault(fs, i) == 1
                && field@ == (#[trigger] fs[i]).name && type_label@ == crate::source_reference::reference_text_seq(
                fs[i].reference,
            ),
            SchemaError::DuplicateImplicitProductComponent { type_label } => product_fault(fs, i) == 2
                && type_label@ == crate::source_reference::reference_text_seq(fs[i].reference),
            SchemaError::DuplicateExplicitProductComponentIdentity { field, type_label } => product_fault(fs, i) == 3
                && field@ == fs[i].name && type_label@ == crate::source_reference::reference_text_seq(
                fs[i].reference,
            ),
            _ => false,
        }
}

/// Whether another field of `fs` carries the reference of field `i`.
pub open spec fn reference_repeated(fs: Seq<FieldModel>, i: int) -> bool {
    exists|j: int| 0 <= j < fs.len() && j != i && (#[trigger] fs[j]).reference == fs[i].reference
}

/// Whether another field of `fs` carries both the reference and the name of
/// field `i`.
pub open spec fn identity_repeated(fs: Seq<FieldModel>, i: int) -> bool {
    exists|j: int|
        0 <= j < fs.len() && j != i && (#[trigger] fs[j]).reference == fs[i].reference && fs[j].name == fs[i].name
}

/// The field counts the product check takes, read as whether another field
/// shares the reference, or the reference and the name.
proof fn lemma_product_counts(fs: Seq<FieldModel>, i: int)
    requires
        0 <= i < fs.len(),
    ensures
        count_where(fs, refers_to(fs[i].reference)) >= 1,
        (count_where(fs, refers_to(fs[i].reference)) > 1) == reference_repeated(fs, i),
        (count_where(fs, same_identity(fs[i])) > 1) == identity_repeated(fs, i),
{
    let f = fs[i];
    let p = refers_to(f.reference);
    let q = same_identity(f);
    lemma_count_positive(fs, p);
    assert(p(fs[i]));
    lemma_count_two(fs, p);
    lemma_count_two(fs, q);
    if reference_repeated(fs, i) {
        let j = choose|j: int| 0 <= j < fs.len() && j != i && (#[trigger] fs[j]).reference == fs[i].reference;
        if i < j {
            assert(p(fs[i]) && p(fs[j]));
        } else {
            assert(p(fs[j]) && p(fs[i]));
        }
    }
    if count_where(fs, p) > 1 {
        let (a, b) = choose|a: int, b: int| 0 <= a < b < fs.len() && p(#[trigger] fs[a]) && p(#[trigger] fs[b]);
        if a != i {
            assert(fs[a].reference == fs[i].reference);
        } else {
            assert(fs[b].reference == fs[i].reference);
        }
    }
    if identity_repeated(fs, i) {
        let j = choose|j: int|
            0 <= j < fs.len() && j != i && (#[trigger] fs[j]).reference == fs[i].reference && fs[j].name == fs[i].name;
        if i < j {
            assert(q(fs[i]) && q(fs[j]));
        } else {
            assert(q(fs[j]) && q(fs[i]));
        }
    }
    if count_where(fs, q) > 1 {
        let (a, b) = choose|a: int, b: int| 0 <= a < b < fs.len() && q(#[trigger] fs[a]) && q(#[trigger] fs[b]);
        if a != i {
            assert(fs[a].reference == fs[i].reference && fs[a].name == fs[i].name);
        } else {
            assert(fs[b].reference == fs[i].reference && fs[b].name == fs[i].name);
        }
    }
}

/// The product-component rules: a struct's fields pass exactly when every
/// field whose reference occurs once carries the name derived from it, and
/// every field whose reference repeats carries an explicit name that no other
/// field of that reference carries.
pub proof fn law_product_rules(fs: Seq<FieldModel>)
    ensures
        product_ok(fs) <==> forall|i: int|
            0 <= i < fs.len() ==> {
                &&& !reference_repeated(fs, i) ==> fs[i].name == reference_field_seq(fs[i].reference)
                &&& reference_repeated(fs, i) ==> fs[i].name != reference_field_seq(fs[i].reference)
                    && !identity_repeated(fs, i)
            },
{
    assert forall|i: int| 0 <= i < fs.len() implies (product_fault(fs, i) == 0) == ({
        &&& !reference_repeated(fs, i) ==> fs[i].name == reference_field_seq(fs[i].reference)
        &&& reference_repeated(fs, i) ==> fs[i].name != reference_field_seq(fs[i].reference) && !identity_repeated(
            fs,
            i,
        )
    }) by {
        lemma_product_counts(fs, i);
    }
}

/// Two fields that carry the same reference and the same name are never
/// accepted together in a product.
pub proof fn law_twin_fields_rejected(fs: Seq<FieldModel>, i: int, j: int)
    requires
        0 <= i < fs.len(),
        0 <= j < fs.len(),
        i != j,
        fs[i].reference == fs[j].reference,
        fs[i].name == fs[j].name,
    ensures
        !product_ok(fs),
{
    lemma_product_counts(fs, i);
    assert(reference_repeated(fs, i));
    assert(identity_repeated(fs, i));
    assert(product_fault(fs, i) != 0);
}

/// The error a product is rejected with names a field that breaks the rule
/// the error speaks of: an explicit name on a component whose reference
/// occurs once, a derived name on a repeated component, or a name repeated
/// with its reference.
pub proof fn law_product_error_names_its_rule(e: SchemaError, fs: Seq<FieldModel>)
    requires
        product_error(e, fs),
    ensures
        !product_ok(fs),
        e matches SchemaError::ExplicitFieldOnUniqueProductComponent { field, type_label } ==> exists|i: int|
            0 <= i < fs.len() && !reference_repeated(fs, i) && (#[trigger] fs[i]).name != reference_field_seq(
                fs[i].reference,
            ) && field@ == fs[i].name,
        e matches SchemaError::DuplicateImplicitProductComponent { type_label } ==> exists|i: int|
            0 <= i < fs.len() && reference_repeated(fs, i) && (#[trigger] fs[i]).name == reference_field_seq(
                fs[i].reference,
            ),
        e matches SchemaError::DuplicateExplicitProductComponentIdentity { field, type_label } ==> exists|i: int|
            0 <= i < fs.len() && identity_repeated(fs, i) && (#[trigger] fs[i]).name != reference_field_seq(
                fs[i].reference,
            ) && field@ == fs[i].name,
        e is ExplicitFieldOnUniqueProductComponent || e is DuplicateImplicitProductComponent
            || e is DuplicateExplicitProductComponentIdentity,
{
    let i = choose|i: int|
        first_product_fault(fs, i) && match e {
            SchemaError::ExplicitFieldOnUniqueProductComponent { field, type_label } => product_fault(fs, i) == 1
                && field@ == (#[trigger] fs[i]).name && type_label@ == crate::source_reference::reference_text_seq(
                fs[i].reference,
            ),
            SchemaError::DuplicateImplicitProductComponent { type_label } => product_fault(fs, i) == 2
                && type_label@ == crate::source_reference::reference_text_seq(fs[i].reference),
            SchemaError::DuplicateExplicitProductComponentIdentity { field, type_label } => product_fault(fs, i) == 3
                && field@ == fs[i].name && type_label@ == crate::source_reference::reference_text_seq(
                fs[i].reference,
            ),
            _ => false,
        };
    lemma_product_counts(fs, i);
    assert(fs[i] == fs[i]);
}

/// The ordered field map of a struct body.
#[derive(Debug)]
pub struct StructFieldMap {
    entries: Vec<FieldDeclaration>,
}

impl View for StructFieldMap {
    type V = Seq<FieldModel>;

    closed spec fn view(&self) -> Seq<FieldModel> {
        fields_model(self.entries@)
    }
}

#[derive(Debug)]
pub struct StructDeclaration {
    pub name: Name,
    pub fields: StructFieldMap,
}

#[derive(Debug)]
pub struct EnumDeclaration {
    pub name: Name,
    pub variants: Vec<EnumVariant>,
}

#[derive(Debug)]
pub struct NewtypeDeclaration {
    pub name: Name,
    pub reference: TypeReference,
}

/// A declared type body.
#[derive(Debug)]
pub enum TypeDeclaration {
    Struct(StructDeclaration),
    Enum(EnumDeclaration),
    Newtype(NewtypeDeclaration),
}

/// The mathematical form of a declared type body.
pub enum TypeDeclarationModel {
    Struct(Seq<char>, Seq<FieldModel>),
    Enum(Seq<char>, Seq<VariantModel>),
    Newtype(Seq<char>, ReferenceModel),
}

pub open spec fn type_model(t: TypeDeclaration) -> TypeDeclarationModel {
    match t {
        TypeDeclaration::Struct(s) => TypeDeclarationModel::Struct(s.name@, s.fields@),
        TypeDeclaration::Enum(e) => TypeDeclarationModel::Enum(e.name@, variants_view(e.variants@)),
        TypeDeclaration::Newtype(n) => TypeDeclarationModel::Newtype(
            n.name@,
            reference_view(n.reference),
        ),
    }
}

pub open spec fn type_model_name(t: TypeDeclarationModel) -> Seq<char> {
    match t {
        TypeDeclarationModel::Struct(n, _) => n,
        TypeDeclarationModel::Enum(n, _) => n,
        TypeDeclarationModel::Newtype(n, _) => n,
    }
}

/// One method parameter: a name and its reference.
#[derive(Debug)]
pub struct MethodParameter {
    name: Name,
    reference: TypeReference,
}

/// A callable method signature `(name { params } Return)`.
#[derive(Debug)]
pub struct MethodSignature {
    name: Name,
    parameters: Vec<MethodParameter>,
    return_reference: TypeReference,
}

/// The mathematical form of a method signature.
pub struct SignatureModel {
    pub name: Seq<char>,
    pub parameters: Seq<(Seq<char>, ReferenceModel)>,
    pub return_reference: ReferenceModel,
}

impl View for MethodParameter {
    type V = (Seq<char>, ReferenceModel);

    closed spec fn view(&self) -> (Seq<char>, ReferenceModel) {
        (self.name@, reference_view(self.reference))
    }
}

impl View for MethodSignature {
    type V = SignatureModel;

    closed spec fn view(&self) -> SignatureModel {
        SignatureModel {
            name: self.name@,
            parameters: Seq::new(self.parameters@.len(), |i: int| self.parameters@[i]@),
            return_reference: reference_view(self.return_reference),
        }
    }
}

/// One entry of an impl catalog.
#[derive(Debug)]
pub enum ImplReference {
    Marker(Name),
    TraitImpl(Name, Vec<MethodSignature>),
    InherentMethod(MethodSignature),
}

/// The mathematical form of an impl catalog entry.
pub enum ImplModel {
    Marker(Seq<char>),
    TraitImpl(Seq<char>, Seq<SignatureModel>),
    InherentMethod(SignatureModel),
}

pub open spec fn signatures_model(s: Seq<MethodSignature>) -> Seq<SignatureModel> {
    Seq::new(s.len(), |i: int| s[i]@)
}

impl View for ImplReference {
    type V = ImplModel;

    open spec fn view(&self) -> ImplModel {
        match self {
            ImplReference::Marker(n) => ImplModel::Marker(n@),
            ImplReference::TraitImpl(n, m) => ImplModel::TraitImpl(n@, signatures_model(m@)),
            ImplReference::InherentMethod(s) => ImplModel::InherentMethod(s@),
        }
    }
}

pub open spec fn impls_model(s: Seq<ImplReference>) -> Seq<ImplModel> {
    Seq::new(s.len(), |i: int| s[i]@)
}

/// An enumerable list of impl references.
#[derive(Debug)]
pub struct ImplCatalog {
    entries: Vec<ImplReference>,
}

impl View for ImplCatalog {
    type V = Seq<ImplModel>;

    closed spec fn view(&self) -> Seq<ImplModel> {
        impls_model(self.entries@)
    }
}

/// The composition identity of an impl entry under one target.
#[derive(Debug, PartialEq, Eq)]
pub enum ImplCompositionKey {
    Trait(String),
    Method(String),
}

/// The mathematical form of a composition key.
pub enum KeyModel {
    Trait(Seq<char>),
    Method(Seq<char>),
}

impl View for ImplCompositionKey {
    type V = KeyModel;

    open spec fn view(&self) -> KeyModel {
        match self {
            ImplCompositionKey::Trait(s) => KeyModel::Trait(s@),
            ImplCompositionKey::Method(s) => KeyModel::Method(s@),
        }
    }
}

/// The predicate: a field carries `name`.
pub open spec fn field_named_pred(name: Seq<char>) -> spec_fn(FieldModel) -> bool {
    |m: FieldModel| m.name == name
}

/// The predicate: a variant carries `name`.
pub open spec fn variant_named_pred(name: Seq<char>) -> spec_fn(EnumVariant) -> bool {
    |m: EnumVariant| m.name@ == name
}

/// A namespace declaration.
#[derive(Debug)]
pub struct Declaration {
    visibility: Visibility,
    name: Name,
    parameters: Vec<Name>,
    value: TypeDeclaration,
    impls: ImplCatalog,
}

/// The mathematical form of a declaration.
pub struct DeclarationModel {
    pub visibility: Visibility,
    pub name: Seq<char>,
    pub parameters: Seq<Seq<char>>,
    pub value: TypeDeclarationModel,
    pub impls: Seq<ImplModel>,
}

impl View for Declaration {
    type V = DeclarationModel;

    closed spec fn view(&self) -> DeclarationModel {
        DeclarationModel {
            visibility: self.visibility,
            name: type_model_name(type_model(self.value)),
            parameters: names_view(self.parameters@),
            value: type_model(self.value),
            impls: self.impls@,
        }
    }
}

/// A declaration's model is named as its body is.
pub proof fn lemma_declaration_named_as_body(d: Declaration)
    ensures
        d@.name == type_model_name(d@.value),
{
}

pub open spec fn declarations_model(s: Seq<Declaration>) -> Seq<DeclarationModel> {
    Seq::new(s.len(), |i: int| s[i]@)
}

/// A standalone impl block for a type declared elsewhere.
#[derive(Debug)]
pub struct ImplBlock {
    target: Name,
    catalog: ImplCatalog,
}

impl View for ImplBlock {
    type V = (Seq<char>, Seq<ImplModel>);

    closed spec fn view(&self) -> (Seq<char>, Seq<ImplModel>) {
        (self.target@, self.catalog@)
    }
}

/// `core::slice::from_ref`: a one-element slice over the referenced value.
#[verifier::external_body]
fn one_element_slice<T>(value: &T) -> (r: &[T])
    ensures
        r@ == seq![*value],
{
    core::slice::from_ref(value)
}

impl FieldDeclaration {
    pub fn new(name: Name, reference: TypeReference) -> (r: Self)
        ensures
            field_model(r) == (FieldModel { name: name@, reference: reference_view(reference) }),
    {
        FieldDeclaration { name, reference }
    }

    pub fn deep_clone(&self) -> (r: Self)
        ensures
            field_model(r) == field_model(*self),
    {
        FieldDeclaration { name: self.name.clone(), reference: self.reference.deep_clone() }
    }
}

impl StructFieldMap {
    pub fn new(entries: Vec<FieldDeclaration>) -> (r: Self)
        ensures
            r@ == fields_model(entries@),
    {
        StructFieldMap { entries }
    }

    pub fn entries(&self) -> (r: &[FieldDeclaration])
        ensures
            fields_model(r@) == self@,
    {
        self.entries.as_slice()
    }

    /// An iterator over the fields, in order.
    pub fn iter(&self) -> (r: std::slice::Iter<'_, FieldDeclaration>)
        ensures
            fields_model(vstd::std_specs::slice::into_iter_elts(r)) == self@,
    {
        broadcast use vstd::std_specs::slice::group_slice_axioms;
        let r = self.entries.iter();
        assert(vstd::std_specs::slice::into_iter_elts(r) =~= self.entries@);
        r
    }

    pub fn len(&self) -> (r: usize)
        ensures
            r == self@.len(),
    {
        self.entries.len()
    }

    pub fn is_empty(&self) -> (r: bool)
        ensures
            r == (self@.len() == 0),
    {
        self.entries.len() == 0
    }

    pub fn first(&self) -> (r: Option<&FieldDeclaration>)
        ensures
            match r {
                Some(f) => self@.len() > 0 && field_model(*f) == self@[0],
                None => self@.len() == 0,
            },
    {
        if self.entries.len() == 0 {
            None
        } else {
            Some(&self.entries[0])
        }
    }

    /// A copy of the field list.
    pub fn clone_entries(&self) -> (r: Vec<FieldDeclaration>)
        ensures
            fields_model(r@) == self@,
    {
        let mut out: Vec<FieldDeclaration> = Vec::new();
        let mut i: usize = 0;
        while i < self.entries.len()
            invariant
                i <= self.entries@.len(),
                out@.len() == i,
                forall|j: int| 0 <= j < i ==> field_model(out@[j]) == field_model(self.entries@[j]),
            decreases self.entries.len() - i,
        {
            out.push(self.entries[i].deep_clone());
            i += 1;
        }
        assert(fields_model(out@) =~= self@);
        out
    }

    /// The number of fields whose reference equals `reference`.
    pub fn reference_count(&self, reference: &TypeReference) -> (r: usize)
        ensures
            r == count_where(self@, refers_to(reference_view(*reference))),
    {
        let ghost p = refers_to(reference_view(*reference));
        let mut count: usize = 0;
        let mut i: usize = 0;
        while i < self.entries.len()
            invariant
                i <= self.entries@.len(),
                self@.len() == self.entries@.len(),
                p == refers_to(reference_view(*reference)),
                count == count_where(self@.take(i as int), p),
                count <= i,
            decreases self.entries.len() - i,
        {
            proof {
                lemma_count_step(self@, p, i as int);
                assert(self@[i as int] == field_model(self.entries@[i as int]));
                assert(p(self@[i as int]) == (reference_view(self.entries@[i as int].reference)
                    == reference_view(*reference)));
            }
            if self.entries[i].reference.same(reference) {
                count += 1;
            }
            i += 1;
        }
        assert(self@.take(self@.len() as int) =~= self@);
        count
    }

    /// Whether a field named `name` exists.
    pub fn has_field_named(&self, name: &Name) -> (r: bool)
        ensures
            r == exists|j: int| 0 <= j < self@.len() && (#[trigger] self@[j]).name == name@,
    {
        let mut i: usize = 0;
        while i < self.entries.len()
            invariant
                i <= self.entries@.len(),
                self@.len() == self.entries@.len(),
                forall|j: int| 0 <= j < i ==> (#[trigger] self@[j]).name != name@,
            decreases self.entries.len() - i,
        {
            if self.entries[i].name.same(name) {
                assert(self@[i as int].name == name@);
                return true;
            }
            i += 1;
        }
        false
    }

    /// The first field named `name`.
    pub fn field_named(&self, name: &str) -> (r: Option<&FieldDeclaration>)
        ensures
            match r {
                Some(f) => first_index(self@, field_named_pred(name@)) matches Some(i)
                    && field_model(*f) == self@[i],
                None => first_index(self@, field_named_pred(name@)) is None,
            },
    {
        let ghost p = field_named_pred(name@);
        let mut i: usize = 0;
        while i < self.entries.len()
            invariant
                i <= self.entries@.len(),
                self@.len() == self.entries@.len(),
                p == field_named_pred(name@),
                first_index(self@.take(i as int), p) is None,
            decreases self.entries.len() - i,
        {
            proof {
                lemma_first_index_step(self@, p, i as int);
            }
            assert(self@[i as int] == field_model(self.entries@[i as int]));
            if self.entries[i].name.is(name) {
                assert(self@[i as int].name == name@);
                assert(p(self@[i as int]));
                proof {
                    crate::seqs::lemma_first_index_found(self@, p, i as int);
                }
                return Some(&self.entries[i]);
            }
            i += 1;
        }
        assert(self@.take(self@.len() as int) =~= self@);
        None
    }
}

impl StructDeclaration {
    pub fn new(name: Name, fields: Vec<FieldDeclaration>) -> (r: Self)
        ensures
            r.name@ == name@,
            r.fields@ == fields_model(fields@),
    {
        StructDeclaration { name, fields: StructFieldMap::new(fields) }
    }
}

impl NewtypeDeclaration {
    pub fn new(name: Name, reference: TypeReference) -> (r: Self)
        ensures
            r.name@ == name@,
            reference_view(r.reference) == reference_view(reference),
    {
        NewtypeDeclaration { name, reference }
    }
}

impl EnumDeclaration {
    pub fn new(name: Name, variants: Vec<EnumVariant>) -> (r: Self)
        ensures
            r.name@ == name@,
            variants_view(r.variants@) == variants_view(variants@),
    {
        EnumDeclaration { name, variants }
    }

    /// Whether a variant named `variant_name` exists.
    pub fn has_variant(&self, variant_name: &Name) -> (r: bool)
        ensures
            r == exists|j: int|
                0 <= j < self.variants@.len() && (#[trigger] self.variants@[j]).name@
                    == variant_name@,
    {
        let mut i: usize = 0;
        while i < self.variants.len()
            invariant
                i <= self.variants@.len(),
                forall|j: int| 0 <= j < i ==> (#[trigger] self.variants@[j]).name@ != variant_name@,
            decreases self.variants.len() - i,
        {
            if self.variants[i].name.same(variant_name) {
                return true;
            }
            i += 1;
        }
        false
    }

    /// The first variant named `name`.
    pub fn variant_named(&self, name: &str) -> (r: Option<&EnumVariant>)
        ensures
            match r {
                Some(v) => first_index(self.variants@, variant_named_pred(name@)) matches Some(
                    i,
                ) && variant_view(*v) == variant_view(self.variants@[i]),
                None => first_index(self.variants@, variant_named_pred(name@)) is None,
            },
    {
        let ghost p = variant_named_pred(name@);
        let mut i: usize = 0;
        while i < self.variants.len()
            invariant
                i <= self.variants@.len(),
                p == variant_named_pred(name@),
                first_index(self.variants@.take(i as int), p) is None,
            decreases self.variants.len() - i,
        {
            proof {
                lemma_first_index_step(self.variants@, p, i as int);
            }
            if self.variants[i].name.is(name) {
                assert(p(self.variants@[i as int]));
                proof {
                    crate::seqs::lemma_first_index_found(self.variants@, p, i as int);
                }
                return Some(&self.variants[i]);
            }
            i += 1;
        }
        assert(self.variants@.take(self.variants@.len() as int) =~= self.variants@);
        None
    }

    /// A copy of this declaration.
    pub fn deep_clone(&self) -> (r: Self)
        ensures
            r.name@ == self.name@,
            variants_view(r.variants@) == variants_view(self.variants@),
    {
        EnumDeclaration { name: self.name.clone(), variants: clone_variants(&self.variants) }
    }
}

/// The same-named direct payload rule: a variant whose payload is a plain name
/// with the variant's own local part.
pub open spec fn same_named_payload(v: VariantModel) -> Option<Seq<char>> {
    match v.payload {
        Some(ReferenceModel::Plain(p)) => if local_seq(p) == local_seq(v.name) {
            Some(local_seq(p))
        } else {
            None
        },
        _ => None,
    }
}

impl EnumVariant {
    /// The payload type's local name when the payload is a plain name sharing
    /// the variant's local name.
    pub fn same_named_direct_payload_type(&self) -> (r: Option<&str>)
        ensures
            match r {
                Some(s) => same_named_payload(variant_view(*self)) == Some(s@),
                None => same_named_payload(variant_view(*self)) is None,
            },
    {
        let payload = match &self.payload {
            Some(p) => p,
            None => return None,
        };
        let payload_name = match payload.plain_name() {
            Some(n) => n,
            None => return None,
        };
        let local = payload_name.local_part();
        if crate::text::str_eq(local, self.name.local_part()) {
            Some(local)
        } else {
            None
        }
    }
}

impl TypeDeclaration {
    pub fn name(&self) -> (r: &Name)
        ensures
            r@ == type_model_name(type_model(*self)),
    {
        match self {
            Self::Struct(d) => &d.name,
            Self::Newtype(d) => &d.name,
            Self::Enum(d) => &d.name,
        }
    }

    pub fn has_field_named(&self, field_name: &Name) -> (r: bool)
        ensures
            r == match type_model(*self) {
                TypeDeclarationModel::Struct(_, fields) => exists|j: int|
                    0 <= j < fields.len() && (#[trigger] fields[j]).name == field_name@,
                _ => false,
            },
    {
        match self {
            Self::Struct(d) => d.fields.has_field_named(field_name),
            _ => false,
        }
    }

    pub fn has_variant_named(&self, variant_name: &Name) -> (r: bool)
        ensures
            r == match *self {
                TypeDeclaration::Enum(e) => exists|j: int|
                    0 <= j < e.variants@.len() && (#[trigger] e.variants@[j]).name@
                        == variant_name@,
                _ => false,
            },
    {
        match self {
            Self::Enum(d) => d.has_variant(variant_name),
            _ => false,
        }
    }

    /// A copy of this body.
    pub fn deep_clone(&self) -> (r: Self)
        ensures
            type_model(r) == type_model(*self),
    {
        match self {
            Self::Struct(d) => Self::Struct(
                StructDeclaration::new(d.name.clone(), d.fields.clone_entries()),
            ),
            Self::Enum(d) => Self::Enum(d.deep_clone()),
            Self::Newtype(d) => Self::Newtype(
                NewtypeDeclaration::new(d.name.clone(), d.reference.deep_clone()),
            ),
        }
    }
}

impl MethodParameter {
    pub fn new(name: Name, reference: TypeReference) -> (r: Self)
        ensures
            r@ == (name@, reference_view(reference)),
    {
        MethodParameter { name, reference }
    }

    pub fn name(&self) -> (r: &Name)
        ensures
            r@ == self@.0,
    {
        &self.name
    }

    pub fn reference(&self) -> (r: &TypeReference)
        ensures
            reference_view(*r) == self@.1,
    {
        &self.reference
    }

    fn same(&self, other: &Self) -> (r: bool)
        ensures
            r == (self@ == other@),
    {
        self.name.same(&other.name) && self.reference.same(&other.reference)
    }
}

/// The rendering of a signature: `name { p.T … } R`, each reference in its
/// canonical text, each name bare when it holds only plain characters and
/// quoted otherwise.
pub open spec fn render_seq(s: SignatureModel) -> Seq<char> {
    sig_text(s)
}

/// Two signatures render to the same text exactly when they are the same
/// signature: the rendering is a signature's identity.
pub proof fn law_render_identifies(a: SignatureModel, b: SignatureModel)
    ensures
        render_seq(a) == render_seq(b) <==> a == b,
{
    crate::signature_text::lemma_sig_text_identifies(a, b);
}

impl MethodParameter {
    /// Write the text of this parameter: its name, a dot, and its type.
    fn write_signature_text(&self, out: &mut String)
        ensures
            final(out)@ == old(out)@ + param_text(self@),
    {
        let ghost start = old(out)@;
        write_atom(out, self.name.as_str());
        crate::text::push_char(out, '.');
        crate::signature_text::write_ref(out, &self.reference);
        assert(out@ =~= start + param_text(self@));
    }
}

impl MethodSignature {
    pub fn new(
        name: Name,
        parameters: Vec<MethodParameter>,
        return_reference: TypeReference,
    ) -> (r: Self)
        ensures
            r@ == (SignatureModel {
                name: name@,
                parameters: Seq::new(parameters@.len(), |i: int| parameters@[i]@),
                return_reference: reference_view(return_reference),
            }),
    {
        MethodSignature { name, parameters, return_reference }
    }

    pub fn name(&self) -> (r: &Name)
        ensures
            r@ == self@.name,
    {
        &self.name
    }

    pub fn parameters(&self) -> (r: &[MethodParameter])
        ensures
            Seq::new(r@.len(), |i: int| r@[i]@) == self@.parameters,
    {
        self.parameters.as_slice()
    }

    pub fn return_reference(&self) -> (r: &TypeReference)
        ensures
            reference_view(*r) == self@.return_reference,
    {
        &self.return_reference
    }

    /// Equality of two signatures, by model.
    pub fn same(&self, other: &Self) -> (r: bool)
        ensures
            r == (self@ == other@),
    {
        if !self.name.same(&other.name) || !self.return_reference.same(&other.return_reference) {
            return false;
        }
        if self.parameters.len() != other.parameters.len() {
            assert(self@.parameters.len() != other@.parameters.len());
            return false;
        }
        let mut i: usize = 0;
        while i < self.parameters.len()
            invariant
                i <= self.parameters@.len(),
                self.parameters@.len() == other.parameters@.len(),
                forall|j: int| 0 <= j < i ==> self.parameters@[j]@ == other.parameters@[j]@,
            decreases self.parameters.len() - i,
        {
            if !self.parameters[i].same(&other.parameters[i]) {
                assert(self@.parameters[i as int] != other@.parameters[i as int]);
                return false;
            }
            i += 1;
        }
        assert(self@.parameters =~= other@.parameters);
        true
    }

    /// The text of this signature, `name { p.T … } R`: its name, each
    /// parameter's name and type, and its return type. Distinct signatures
    /// never render alike.
    pub fn render(&self) -> (r: String)
        ensures
            r@ == render_seq(self@),
    {
        let ghost sig = self@;
        let mut out = String::new();
        write_atom(&mut out, self.name.as_str());
        crate::text::push_char(&mut out, ' ');
        crate::text::push_char(&mut out, '{');
        crate::text::push_char(&mut out, ' ');
        let ghost m = out@;
        let ghost ps = sig.parameters;
        let mut i: usize = 0;
        assert(ps.take(0) =~= Seq::<(Seq<char>, ReferenceModel)>::empty());
        assert(out@ =~= m + params_text(ps.take(0)));
        while i < self.parameters.len()
            invariant
                i <= self.parameters@.len(),
                sig == self@,
                ps == sig.parameters,
                ps.len() == self.parameters@.len(),
                out@ == m + params_text(ps.take(i as int)),
            decreases self.parameters.len() - i,
        {
            if i > 0 {
                crate::text::push_char(&mut out, ' ');
            }
            self.parameters[i].write_signature_text(&mut out);
            proof {
                assert(ps[i as int] == self.parameters@[i as int]@);
                assert(ps.take(i + 1) =~= ps.take(i as int).push(ps[i as int]));
                crate::signature_text::lemma_params_push(ps.take(i as int), ps[i as int]);
            }
            i += 1;
        }
        assert(ps.take(self.parameters@.len() as int) =~= ps);
        crate::text::push_char(&mut out, ' ');
        crate::text::push_char(&mut out, '}');
        crate::text::push_char(&mut out, ' ');
        crate::signature_text::write_ref(&mut out, &self.return_reference);
        assert(out@ =~= render_seq(self@));
        out
    }
}

/// The composition key of an impl entry.
pub open spec fn key_of(e: ImplModel) -> KeyModel {
    match e {
        ImplModel::Marker(n) => KeyModel::Trait(n),
        ImplModel::TraitImpl(n, _) => KeyModel::Trait(n),
        ImplModel::InherentMethod(s) => KeyModel::Method(render_seq(s)),
    }
}

/// The label of an impl entry: its trait name, or its full signature rendering.
pub open spec fn label_of(e: ImplModel) -> Seq<char> {
    match key_of(e) {
        KeyModel::Trait(n) => n,
        KeyModel::Method(s) => s,
    }
}

/// The methods an impl entry references.
pub open spec fn methods_of(e: ImplModel) -> Seq<SignatureModel> {
    match e {
        ImplModel::Marker(_) => Seq::empty(),
        ImplModel::TraitImpl(_, m) => m,
        ImplModel::InherentMethod(s) => seq![s],
    }
}

impl ImplReference {
    /// The trait this entry names, if any.
    pub fn trait_name(&self) -> (r: Option<&Name>)
        ensures
            match r {
                Some(n) => match self@ {
                    ImplModel::Marker(t) => n@ == t,
                    ImplModel::TraitImpl(t, _) => n@ == t,
                    ImplModel::InherentMethod(_) => false,
                },
                None => self@ is InherentMethod,
            },
    {
        match self {
            Self::Marker(n) | Self::TraitImpl(n, _) => Some(n),
            Self::InherentMethod(_) => None,
        }
    }

    /// The method signatures this entry references.
    pub fn methods(&self) -> (r: &[MethodSignature])
        ensures
            signatures_model(r@) == methods_of(self@),
    {
        match self {
            Self::Marker(_) => {
                let r: &[MethodSignature] = &[];
                assert(signatures_model(r@) =~= Seq::<SignatureModel>::empty());
                r
            },
            Self::TraitImpl(_, methods) => methods.as_slice(),
            Self::InherentMethod(signature) => {
                let r = one_element_slice(signature);
                assert(signatures_model(r@) =~= seq![signature@]);
                r
            },
        }
    }

    pub fn composition_key(&self) -> (r: ImplCompositionKey)
        ensures
            r@ == key_of(self@),
    {
        match self {
            Self::Marker(n) | Self::TraitImpl(n, _) => ImplCompositionKey::Trait(
                crate::text::owned(n.as_str()),
            ),
            Self::InherentMethod(signature) => ImplCompositionKey::Method(signature.render()),
        }
    }

    pub fn label(&self) -> (r: String)
        ensures
            r@ == label_of(self@),
    {
        match self {
            Self::Marker(n) | Self::TraitImpl(n, _) => crate::text::owned(n.as_str()),
            Self::InherentMethod(signature) => signature.render(),
        }
    }
}

impl ImplCompositionKey {
    /// Equality of two keys, by model.
    pub fn same(&self, other: &Self) -> (r: bool)
        ensures
            r == (self@ == other@),
    {
        match (self, other) {
            (Self::Trait(a), Self::Trait(b)) => *a == *b,
            (Self::Method(a), Self::Method(b)) => *a == *b,
            _ => false,
        }
    }
}

impl ImplCatalog {
    pub fn empty() -> (r: Self)
        ensures
            r@ == Seq::<ImplModel>::empty(),
    {
        let r = ImplCatalog { entries: Vec::new() };
        assert(r@ =~= Seq::<ImplModel>::empty());
        r
    }

    pub fn new(entries: Vec<ImplReference>) -> (r: Self)
        ensures
            r@ == impls_model(entries@),
    {
        ImplCatalog { entries }
    }

    pub fn entries(&self) -> (r: &[ImplReference])
        ensures
            impls_model(r@) == self@,
    {
        self.entries.as_slice()
    }

    pub fn is_empty(&self) -> (r: bool)
        ensures
            r == (self@.len() == 0),
    {
        self.entries.len() == 0
    }
}

impl ImplBlock {
    pub fn new(target: Name, catalog: ImplCatalog) -> (r: Self)
        ensures
            r@ == (target@, catalog@),
    {
        ImplBlock { target, catalog }
    }

    pub fn target(&self) -> (r: &Name)
        ensures
            r@ == self@.0,
    {
        &self.target
    }

    pub fn catalog(&self) -> (r: &ImplCatalog)
        ensures
            r@ == self@.1,
    {
        &self.catalog
    }
}

impl Declaration {
    /// A declaration is always named as its body is.
    #[verifier::type_invariant]
    spec fn named_as_body(self) -> bool {
        self.name@ == type_model_name(type_model(self.value))
    }

    pub fn public(value: TypeDeclaration) -> (r: Self)
        ensures
            r@ == (DeclarationModel {
                visibility: Visibility::Public,
                name: type_model_name(type_model(value)),
                parameters: Seq::empty(),
                value: type_model(value),
                impls: Seq::empty(),
            }),
    {
        Self::new(Visibility::Public, value)
    }

    pub fn private(value: TypeDeclaration) -> (r: Self)
        ensures
            r@ == (DeclarationModel {
                visibility: Visibility::Private,
                name: type_model_name(type_model(value)),
                parameters: Seq::empty(),
                value: type_model(value),
                impls: Seq::empty(),
            }),
    {
        Self::new(Visibility::Private, value)
    }

    pub fn new(visibility: Visibility, value: TypeDeclaration) -> (r: Self)
        ensures
            r@ == (DeclarationModel {
                visibility,
                name: type_model_name(type_model(value)),
                parameters: Seq::empty(),
                value: type_model(value),
                impls: Seq::empty(),
            }),
    {
        let name = value.name().clone();
        let r = Declaration {
            visibility,
            name,
            parameters: Vec::new(),
            value,
            impls: ImplCatalog::empty(),
        };
        assert(names_view(r.parameters@) =~= Seq::<Seq<char>>::empty());
        r
    }

    /// Attach declared type parameters.
    pub fn with_parameters(self, parameters: Vec<Name>) -> (r: Self)
        ensures
            r@ == (DeclarationModel { parameters: names_view(parameters@), ..self@ }),
    {
        proof {
            use_type_invariant(&self);
        }
        Declaration { parameters, ..self }
    }

    /// Attach an impl catalog.
    pub fn with_impls(self, impls: ImplCatalog) -> (r: Self)
        ensures
            r@ == (DeclarationModel { impls: impls@, ..self@ }),
    {
        proof {
            use_type_invariant(&self);
        }
        Declaration { impls, ..self }
    }

    pub fn impls(&self) -> (r: &ImplCatalog)
        ensures
            r@ == self@.impls,
    {
        &self.impls
    }

    pub fn name(&self) -> (r: &Name)
        ensures
            r@ == self@.name,
    {
        proof {
            use_type_invariant(self);
        }
        &self.name
    }

    pub fn parameters(&self) -> (r: &[Name])
        ensures
            names_view(r@) == self@.parameters,
    {
        self.parameters.as_slice()
    }

    pub fn visibility(&self) -> (r: Visibility)
        ensures
            r == self@.visibility,
    {
        self.visibility
    }

    pub fn is_private(&self) -> (r: bool)
        ensures
            r == (self@.visibility == Visibility::Private),
    {
        self.visibility == Visibility::Private
    }

    pub fn value(&self) -> (r: &TypeDeclaration)
        ensures
            type_model(*r) == self@.value,
    {
        &self.value
    }

    /// A copy of this declaration's parameters.
    pub fn parameters_clone(&self) -> (r: Vec<Name>)
        ensures
            names_view(r@) == self@.parameters,
    {
        names_clone(self.parameters.as_slice())
    }

    /// Reject the first repeated binder; accept a list of distinct binders.
    pub fn verify_distinct_binders(&self) -> (r: Result<(), SchemaError>)
        ensures
            r is Ok <==> distinct_seq(self@.parameters),
            r matches Err(e) ==> duplicate_binder_error(e, self@.name, self@.parameters),
    {
        proof {
            use_type_invariant(self);
        }
        verify_distinct_binders(&self.name, self.parameters.as_slice())
    }
}

/// Whether no name repeats in `s`.
pub open spec fn distinct_seq(s: Seq<Seq<char>>) -> bool {
    forall|i: int, j: int| 0 <= i < j < s.len() ==> s[i] != s[j]
}

/// `j` is the first position of `s` repeating an earlier entry.
pub open spec fn first_repeat(s: Seq<Seq<char>>, j: int) -> bool {
    &&& 0 <= j < s.len()
    &&& forall|a: int, b: int| 0 <= a < b < j ==> s[a] != s[b]
    &&& exists|i: int| 0 <= i < j && s[i] == s[j]
}

/// The error the binders of declaration `head` are rejected with: the first
/// binder repeating an earlier one.
pub open spec fn duplicate_binder_error(e: SchemaError, head: Seq<char>, binders: Seq<Seq<char>>) -> bool {
    e matches SchemaError::DuplicateTypeParameter { declaration, parameter } && declaration@ == head && exists|
        j: int,
    | first_repeat(binders, j) && parameter@ == #[trigger] binders[j]
}

/// Reject the first binder that repeats an earlier one with
/// `DuplicateTypeParameter`; accept a list of distinct binders.
pub fn verify_distinct_binders(head: &Name, binders: &[Name]) -> (r: Result<(), SchemaError>)
    ensures
        r is Ok <==> distinct_seq(names_view(binders@)),
        r matches Err(e) ==> duplicate_binder_error(e, head@, names_view(binders@)),
{
    let ghost v = names_view(binders@);
    let mut i: usize = 0;
    while i < binders.len()
        invariant
            i <= binders@.len(),
            v == names_view(binders@),
            forall|a: int, b: int| 0 <= a < b < i ==> v[a] != v[b],
        decreases binders.len() - i,
    {
        match crate::name::position_of_name(vstd::slice::slice_subrange(binders, 0, i), &binders[i]) {
            Some(k) => {
                assert(!distinct_seq(v)) by {
                    assert(v[k as int] == v[i as int]);
                }
                assert(first_repeat(v, i as int)) by {
                    assert(v[k as int] == v[i as int]);
                }
                return Err(
                    SchemaError::DuplicateTypeParameter {
                        declaration: crate::text::owned(head.as_str()),
                        parameter: crate::text::owned(binders[i].as_str()),
                    },
                );
            },
            None => {
                assert forall|a: int, b: int| 0 <= a < b < i + 1 implies v[a] != v[b] by {
                    if b == i {
                        assert(binders@.subrange(0, i as int)[a] == binders@[a]);
                    }
                }
            },
        }
        i += 1;
    }
    Ok(())
}


impl StructFieldMap {
    /// The number of fields carrying both the reference and the name of `field`.
    fn identity_count(&self, field: &FieldDeclaration) -> (r: usize)
        ensures
            r == count_where(self@, same_identity(field_model(*field))),
    {
        let ghost p = same_identity(field_model(*field));
        let mut count: usize = 0;
        let mut i: usize = 0;
        while i < self.entries.len()
            invariant
                i <= self.entries@.len(),
                self@.len() == self.entries@.len(),
                p == same_identity(field_model(*field)),
                count == count_where(self@.take(i as int), p),
                count <= i,
            decreases self.entries.len() - i,
        {
            proof {
                lemma_count_step(self@, p, i as int);
                assert(self@[i as int] == field_model(self.entries@[i as int]));
            }
            if self.entries[i].reference.same(&field.reference) && self.entries[i].name.same(&field.name) {
                count += 1;
            }
            i += 1;
        }
        assert(self@.take(self@.len() as int) =~= self@);
        count
    }

    /// Check the product-component rules field by field: a component whose
    /// reference occurs once carries its derived name; a repeated component
    /// carries an explicit name, distinct among the components of its
    /// reference.
    pub fn product_components_verified(&self) -> (r: Result<(), SchemaError>)
        ensures
            r is Ok <==> product_ok(self@),
            r matches Err(e) ==> product_error(e, self@),
    {
        let mut i: usize = 0;
        while i < self.entries.len()
            invariant
                i <= self.entries@.len(),
                self@.len() == self.entries@.len(),
                forall|j: int| 0 <= j < i ==> product_fault(self@, j) == 0,
            decreases self.entries.len() - i,
        {
            let field = &self.entries[i];
            assert(self@[i as int] == field_model(*field));
            let occurrences = self.reference_count(&field.reference);
            let derived = field.reference.derived_field_name();
            let same_name = field.name.same(&derived);
            if occurrences == 1 && !same_name {
                assert(first_product_fault(self@, i as int));
                return Err(
                    SchemaError::ExplicitFieldOnUniqueProductComponent {
                        field: crate::text::owned(field.name.as_str()),
                        type_label: field.reference.to_structural_dotos(),
                    },
                );
            }
            if occurrences > 1 && same_name {
                assert(first_product_fault(self@, i as int));
                return Err(
                    SchemaError::DuplicateImplicitProductComponent {
                        type_label: field.reference.to_structural_dotos(),
                    },
                );
            }
            if occurrences > 1 && self.identity_count(field) > 1 {
                assert(first_product_fault(self@, i as int));
                return Err(
                    SchemaError::DuplicateExplicitProductComponentIdentity {
                        field: crate::text::owned(field.name.as_str()),
                        type_label: field.reference.to_structural_dotos(),
                    },
                );
            }
            i += 1;
        }
        Ok(())
    }
}

} // verus!
