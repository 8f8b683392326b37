//! Type references: the types that stand at a field, variant-payload, or
//! import position, with their generic projections and application heads.

use crate::name::{names_clone, names_view, Name};
use crate::signature_text::{
    atom_text, imported_tag, kids_text, lemma_child, lemma_node_text, node, parameters_tag,
    sx_count, sx_import, sx_names, sx_text, sx_variants, variants_tag, write_atom, write_count,
    write_names, write_variants, Sx,
};
use crate::text::{decimal_seq, decimal_text, join, join_seq, str_eq, views_of};
use vstd::prelude::*;

verus! {

/// The lowering strategy of a single-type generic application.
#[derive(Clone, Copy, Debug, PartialEq, Eq, Structural)]
pub enum SingleTypeReferenceProjection {
    Vector,
    Optional,
    ScopeOf,
}

/// The lowering strategy of a multi-type generic application.
#[derive(Clone, Copy, Debug, PartialEq, Eq, Structural)]
pub enum MultiTypeReferenceProjection {
    KeyedMap,
}

/// The lowering strategy of a value generic application.
#[derive(Clone, Copy, Debug, PartialEq, Eq, Structural)]
pub enum ValueReferenceProjection {
    Bytes,
}

pub open spec fn single_name_seq(p: SingleTypeReferenceProjection) -> Seq<char> {
    match p {
        SingleTypeReferenceProjection::Vector => seq!['V', 'e', 'c', 't', 'o', 'r'],
        SingleTypeReferenceProjection::Optional => seq!['O', 'p', 't', 'i', 'o', 'n', 'a', 'l'],
        SingleTypeReferenceProjection::ScopeOf => seq!['S', 'c', 'o', 'p', 'e', 'O', 'f'],
    }
}

pub open spec fn multi_name_seq(p: MultiTypeReferenceProjection) -> Seq<char> {
    match p {
        MultiTypeReferenceProjection::KeyedMap => seq!['M', 'a', 'p'],
    }
}

pub open spec fn value_name_seq(p: ValueReferenceProjection) -> Seq<char> {
    match p {
        ValueReferenceProjection::Bytes => seq!['B', 'y', 't', 'e', 's'],
    }
}

impl SingleTypeReferenceProjection {
    /// The canonical spelling of this projection.
    pub fn canonical_name(self) -> (r: &'static str)
        ensures
            r@ == single_name_seq(self),
    {
        proof {
            reveal_strlit("Vector");
            reveal_strlit("Optional");
            reveal_strlit("ScopeOf");
        }
        match self {
            Self::Vector => "Vector",
            Self::Optional => "Optional",
            Self::ScopeOf => "ScopeOf",
        }
    }

    /// The projection spelled `name`, if any.
    pub fn from_canonical_name(name: &str) -> (r: Option<Self>)
        ensures
            match r {
                Some(p) => single_name_seq(p) == name@,
                None => forall|p: Self| single_name_seq(p) != name@,
            },
    {
        let candidates = [Self::Vector, Self::Optional, Self::ScopeOf];
        let mut i: usize = 0;
        while i < 3
            invariant
                i <= 3,
                candidates@ == seq![Self::Vector, Self::Optional, Self::ScopeOf],
                forall|j: int| 0 <= j < i ==> single_name_seq(#[trigger] candidates@[j]) != name@,
            decreases 3 - i,
        {
            if str_eq(candidates[i].canonical_name(), name) {
                return Some(candidates[i]);
            }
            i += 1;
        }
        assert forall|p: Self| single_name_seq(p) != name@ by {
            match p {
                Self::Vector => assert(candidates@[0] == p),
                Self::Optional => assert(candidates@[1] == p),
                Self::ScopeOf => assert(candidates@[2] == p),
            }
        }
        None
    }
}

impl MultiTypeReferenceProjection {
    pub fn canonical_name(self) -> (r: &'static str)
        ensures
            r@ == multi_name_seq(self),
    {
        proof {
            reveal_strlit("Map");
        }
        match self {
            Self::KeyedMap => "Map",
        }
    }

    pub fn from_canonical_name(name: &str) -> (r: Option<Self>)
        ensures
            match r {
                Some(p) => multi_name_seq(p) == name@,
                None => forall|p: Self| multi_name_seq(p) != name@,
            },
    {
        if str_eq(Self::KeyedMap.canonical_name(), name) {
            Some(Self::KeyedMap)
        } else {
            assert forall|p: Self| multi_name_seq(p) != name@ by {
                match p {
                    Self::KeyedMap => {},
                }
            }
            None
        }
    }
}

impl ValueReferenceProjection {
    pub fn canonical_name(self) -> (r: &'static str)
        ensures
            r@ == value_name_seq(self),
    {
        proof {
            reveal_strlit("Bytes");
        }
        match self {
            Self::Bytes => "Bytes",
        }
    }

    pub fn from_canonical_name(name: &str) -> (r: Option<Self>)
        ensures
            match r {
                Some(p) => value_name_seq(p) == name@,
                None => forall|p: Self| value_name_seq(p) != name@,
            },
    {
        if str_eq(Self::Bytes.canonical_name(), name) {
            Some(Self::Bytes)
        } else {
            assert forall|p: Self| value_name_seq(p) != name@ by {
                match p {
                    Self::Bytes => {},
                }
            }
            None
        }
    }
}

/// A type at a reference position.
#[derive(Debug)]
pub enum TypeReference {
    String,
    Integer,
    Boolean,
    Path,
    Bytes,
    Plain(Name),
    SingleTypeApplication { projection: SingleTypeReferenceProjection, argument: Box<TypeReference> },
    MultiTypeApplication {
        projection: MultiTypeReferenceProjection,
        arguments: Vec<TypeReference>,
    },
    ValueApplication { projection: ValueReferenceProjection, value: u64 },
    Application { head: ApplicationHead, arguments: Vec<TypeReference> },
}

/// The head of a generic application: a local name, or a resolved import.
#[derive(Debug)]
pub enum ApplicationHead {
    Local(Name),
    Imported(ResolvedImport),
}

/// The `crate:module:Type` colon path an import names.
#[derive(Debug)]
pub struct ImportSource {
    path: Name,
}

/// An import resolved against a dependency schema: its local alias, its
/// source path, and the frame it declares (binder list and variants), with the
/// generic arity carried across the crate boundary.
#[derive(Debug)]
pub struct ResolvedImport {
    local_name: Name,
    source: ImportSource,
    parameter_count: Option<usize>,
    parameters: Vec<Name>,
    variants: Vec<EnumVariant>,
}

/// One enum variant: a name and an optional payload reference.
#[derive(Debug)]
pub struct EnumVariant {
    pub name: Name,
    pub payload: Option<TypeReference>,
}

/// The mathematical form of a type reference.
pub enum ReferenceModel {
    String,
    Integer,
    Boolean,
    Path,
    Bytes,
    Plain(Seq<char>),
    Single(SingleTypeReferenceProjection, Box<ReferenceModel>),
    Multi(MultiTypeReferenceProjection, Seq<ReferenceModel>),
    Value(ValueReferenceProjection, u64),
    Application(HeadModel, Seq<ReferenceModel>),
}

/// The mathematical form of an application head.
pub enum HeadModel {
    Local(Seq<char>),
    Imported(ImportModel),
}

/// The mathematical form of a resolved import.
pub struct ImportModel {
    pub local_name: Seq<char>,
    pub source: Seq<char>,
    pub parameter_count: Option<usize>,
    pub parameters: Seq<Seq<char>>,
    pub variants: Seq<VariantModel>,
}

/// The mathematical form of an enum variant.
pub struct VariantModel {
    pub name: Seq<char>,
    pub payload: Option<ReferenceModel>,
}

pub open spec fn reference_view(r: TypeReference) -> ReferenceModel
    decreases r,
{
    match r {
        TypeReference::String => ReferenceModel::String,
        TypeReference::Integer => ReferenceModel::Integer,
        TypeReference::Boolean => ReferenceModel::Boolean,
        TypeReference::Path => ReferenceModel::Path,
        TypeReference::Bytes => ReferenceModel::Bytes,
        TypeReference::Plain(n) => ReferenceModel::Plain(n@),
        TypeReference::SingleTypeApplication { projection, argument } => ReferenceModel::Single(
            projection,
            Box::new(reference_view(*argument)),
        ),
        TypeReference::MultiTypeApplication { projection, arguments } => ReferenceModel::Multi(
            projection,
            references_view(arguments@),
        ),
        TypeReference::ValueApplication { projection, value } => ReferenceModel::Value(
            projection,
            value,
        ),
        TypeReference::Application { head, arguments } => ReferenceModel::Application(
            head_view(head),
            references_view(arguments@),
        ),
    }
}

pub open spec fn head_view(h: ApplicationHead) -> HeadModel
    decreases h,
{
    match h {
        ApplicationHead::Local(n) => HeadModel::Local(n@),
        ApplicationHead::Imported(i) => HeadModel::Imported(import_view(i)),
    }
}

pub closed spec fn import_view(i: ResolvedImport) -> ImportModel
    decreases i,
{
    ImportModel {
        local_name: i.local_name@,
        source: i.source.path@,
        parameter_count: i.parameter_count,
        parameters: names_view(i.parameters@),
        variants: variants_view(i.variants@),
    }
}

pub open spec fn variant_view(v: EnumVariant) -> VariantModel
    decreases v,
{
    VariantModel {
        name: v.name@,
        payload: match v.payload {
            Some(p) => Some(reference_view(p)),
            None => None,
        },
    }
}

/// The views of a list of references.
pub open spec fn references_view(s: Seq<TypeReference>) -> Seq<ReferenceModel>
    decreases s,
{
    Seq::new(
        s.len(),
        |i: int|
            if 0 <= i < s.len() {
                reference_view(s[i])
            } else {
                ReferenceModel::String
            },
    )
}

/// The views of a list of variants.
pub open spec fn variants_view(s: Seq<EnumVariant>) -> Seq<VariantModel>
    decreases s,
{
    Seq::new(
        s.len(),
        |i: int|
            if 0 <= i < s.len() {
                variant_view(s[i])
            } else {
                VariantModel { name: Seq::empty(), payload: None }
            },
    )
}

/// The view of an optional reference.
pub open spec fn option_reference_view(o: Option<TypeReference>) -> Option<ReferenceModel> {
    match o {
        Some(p) => Some(reference_view(p)),
        None => None,
    }
}

pub proof fn lemma_multi_args(r: TypeReference)
    requires
        r is MultiTypeApplication,
    ensures
        reference_view(r) == ReferenceModel::Multi(
            r->MultiTypeApplication_projection,
            references_view(r->MultiTypeApplication_arguments@),
        ),
{
}

pub proof fn lemma_app_args(r: TypeReference)
    requires
        r is Application,
    ensures
        reference_view(r) == ReferenceModel::Application(
            head_view(r->Application_head),
            references_view(r->Application_arguments@),
        ),
{
}

proof fn lemma_import_variants(i: ResolvedImport)
    ensures
        import_view(i).variants == variants_view(i.variants@),
{
    assert(import_view(i).variants =~= variants_view(i.variants@));
}

/// Equal-length lists whose members view equal have equal views.
pub proof fn lemma_references_view_eq(a: Seq<TypeReference>, b: Seq<TypeReference>)
    requires
        a.len() == b.len(),
        forall|i: int| 0 <= i < a.len() ==> reference_view(a[i]) == reference_view(b[i]),
    ensures
        references_view(a) == references_view(b),
{
    assert(references_view(a) =~= references_view(b));
}

/// Exec-side equality of two reference lists, by view.
pub fn same_references(a: &Vec<TypeReference>, b: &Vec<TypeReference>) -> (r: bool)
    ensures
        r == (references_view(a@) == references_view(b@)),
    decreases a, 0nat,
{
    if a.len() != b.len() {
        assert(references_view(a@).len() != references_view(b@).len());
        return false;
    }
    let mut i: usize = 0;
    while i < a.len()
        invariant
            i <= a@.len(),
            a@.len() == b@.len(),
            forall|j: int| 0 <= j < i ==> reference_view(a@[j]) == reference_view(b@[j]),
        decreases a.len() - i,
    {
        proof {
            assert(decreases_to!(*a => a@));
            assert(decreases_to!(a@ => a@[i as int]));
        }
        if !a[i].same(&b[i]) {
            assert(references_view(a@)[i as int] != references_view(b@)[i as int]);
            return false;
        }
        i += 1;
    }
    proof {
        lemma_references_view_eq(a@, b@);
    }
    true
}

/// Exec-side equality of two variant lists, by view.
pub fn same_variants(a: &Vec<EnumVariant>, b: &Vec<EnumVariant>) -> (r: bool)
    ensures
        r == (variants_view(a@) == variants_view(b@)),
    decreases a, 0nat,
{
    if a.len() != b.len() {
        assert(variants_view(a@).len() != variants_view(b@).len());
        return false;
    }
    let mut i: usize = 0;
    while i < a.len()
        invariant
            i <= a@.len(),
            a@.len() == b@.len(),
            forall|j: int| 0 <= j < i ==> variant_view(a@[j]) == variant_view(b@[j]),
        decreases a.len() - i,
    {
        proof {
            assert(decreases_to!(*a => a@));
            assert(decreases_to!(a@ => a@[i as int]));
        }
        if !a[i].same(&b[i]) {
            assert(variants_view(a@)[i as int] != variants_view(b@)[i as int]);
            return false;
        }
        i += 1;
    }
    assert(variants_view(a@) =~= variants_view(b@));
    true
}

/// Exec-side equality of two name lists, by view.
pub fn same_names(a: &[Name], b: &[Name]) -> (r: bool)
    ensures
        r == (names_view(a@) == names_view(b@)),
{
    if a.len() != b.len() {
        assert(names_view(a@).len() != names_view(b@).len());
        return false;
    }
    let mut i: usize = 0;
    while i < a.len()
        invariant
            i <= a@.len(),
            a@.len() == b@.len(),
            forall|j: int| 0 <= j < i ==> a@[j]@ == b@[j]@,
        decreases a.len() - i,
    {
        if !a[i].same(&b[i]) {
            assert(names_view(a@)[i as int] != names_view(b@)[i as int]);
            return false;
        }
        i += 1;
    }
    assert(names_view(a@) =~= names_view(b@));
    true
}

/// A copy of a reference list.
pub fn clone_references(a: &Vec<TypeReference>) -> (r: Vec<TypeReference>)
    ensures
        references_view(r@) == references_view(a@),
    decreases a, 0nat,
{
    let mut out: Vec<TypeReference> = Vec::new();
    let mut i: usize = 0;
    while i < a.len()
        invariant
            i <= a@.len(),
            out@.len() == i,
            forall|j: int| 0 <= j < i ==> reference_view(out@[j]) == reference_view(a@[j]),
        decreases a.len() - i,
    {
        proof {
            assert(decreases_to!(*a => a@));
            assert(decreases_to!(a@ => a@[i as int]));
        }
        out.push(a[i].deep_clone());
        i += 1;
    }
    assert(references_view(out@) =~= references_view(a@));
    out
}

/// A copy of a variant list.
pub fn clone_variants(a: &Vec<EnumVariant>) -> (r: Vec<EnumVariant>)
    ensures
        variants_view(r@) == variants_view(a@),
    decreases a, 0nat,
{
    let mut out: Vec<EnumVariant> = Vec::new();
    let mut i: usize = 0;
    while i < a.len()
        invariant
            i <= a@.len(),
            out@.len() == i,
            forall|j: int| 0 <= j < i ==> variant_view(out@[j]) == variant_view(a@[j]),
        decreases a.len() - i,
    {
        proof {
            assert(decreases_to!(*a => a@));
            assert(decreases_to!(a@ => a@[i as int]));
        }
        out.push(a[i].deep_clone());
        i += 1;
    }
    assert(variants_view(out@) =~= variants_view(a@));
    out
}

impl ImportSource {
    pub closed spec fn path_view(&self) -> Seq<char> {
        self.path@
    }

    pub fn new(path: Name) -> (r: Self)
        ensures
            r.path_view() == path@,
    {
        ImportSource { path }
    }

    pub fn path(&self) -> (r: &Name)
        ensures
            r@ == self.path_view(),
    {
        &self.path
    }
}

impl ResolvedImport {
    /// Write the identity text of this import: every part of it.
    #[verifier::spinoff_prover]
    #[verifier::rlimit(60)]
    pub(crate) fn write_identity_text(&self, out: &mut String)
        ensures
            final(out)@ == old(out)@ + sx_text(sx_import(import_view(*self))),
        decreases self, 1nat,
    {
        let ghost start = old(out)@;
        let ghost i = import_view(*self);
        proof {
            reveal_strlit("Imported");
            assert("Imported"@ =~= imported_tag());
            reveal_strlit("Parameters");
            assert("Parameters"@ =~= parameters_tag());
            reveal_strlit("Variants");
            assert("Variants"@ =~= variants_tag());
        }
        let ghost head = start + seq!['('] + atom_text(imported_tag());
        let ghost k0 = Sx::Atom(i.local_name);
        let ghost k1 = Sx::Atom(i.source);
        let ghost k2 = sx_count(i.parameter_count);
        let ghost k3 = node(parameters_tag(), sx_names(i.parameters));
        let ghost k4 = node(variants_tag(), sx_variants(i.variants));
        let ghost e = Seq::<Sx>::empty();
        crate::text::push_char(out, '(');
        write_atom(out, "Imported");
        proof {
            assert(kids_text(e) == Seq::<char>::empty());
            assert(out@ =~= head + kids_text(e));
        }
        crate::text::push_char(out, ' ');
        write_atom(out, self.local_name.as_str());
        proof {
            lemma_child(head, e, k0);
            assert(out@ =~= head + kids_text(e.push(k0)));
        }
        crate::text::push_char(out, ' ');
        write_atom(out, self.source.path.as_str());
        proof {
            lemma_child(head, e.push(k0), k1);
            assert(out@ =~= head + kids_text(e.push(k0).push(k1)));
        }
        crate::text::push_char(out, ' ');
        write_count(out, self.parameter_count);
        proof {
            lemma_child(head, e.push(k0).push(k1), k2);
            assert(out@ =~= head + kids_text(e.push(k0).push(k1).push(k2)));
        }
        crate::text::push_char(out, ' ');
        let ghost m3 = out@;
        crate::text::push_char(out, '(');
        write_atom(out, "Parameters");
        write_names(out, self.parameters.as_slice());
        crate::text::push_char(out, ')');
        proof {
            lemma_node_text(parameters_tag(), sx_names(i.parameters));
            assert(out@ =~= m3 + sx_text(k3));
            lemma_child(head, e.push(k0).push(k1).push(k2), k3);
            assert(out@ =~= head + kids_text(e.push(k0).push(k1).push(k2).push(k3)));
        }
        crate::text::push_char(out, ' ');
        let ghost m4 = out@;
        crate::text::push_char(out, '(');
        write_atom(out, "Variants");
        write_variants(out, &self.variants);
        crate::text::push_char(out, ')');
        proof {
            lemma_node_text(variants_tag(), sx_variants(i.variants));
            assert(out@ =~= m4 + sx_text(k4));
            lemma_child(head, e.push(k0).push(k1).push(k2).push(k3), k4);
            assert(out@ =~= head + kids_text(e.push(k0).push(k1).push(k2).push(k3).push(k4)));
        }
        crate::text::push_char(out, ')');
        proof {
            assert(e.push(k0).push(k1).push(k2).push(k3).push(k4) =~= seq![k0, k1, k2, k3, k4]);
            lemma_node_text(imported_tag(), seq![k0, k1, k2, k3, k4]);
            assert(sx_import(i) == node(imported_tag(), seq![k0, k1, k2, k3, k4]));
            assert(out@ =~= start + sx_text(sx_import(i)));
        }
    }
}

impl ResolvedImport {
    /// Assemble a resolved import from its projected parts.
    pub fn from_projected_parts(
        local_name: Name,
        source: ImportSource,
        parameter_count: Option<usize>,
        parameters: Vec<Name>,
        variants: Vec<EnumVariant>,
    ) -> (r: Self)
        ensures
            import_view(r) == (ImportModel {
                local_name: local_name@,
                source: source.path_view(),
                parameter_count,
                parameters: names_view(parameters@),
                variants: variants_view(variants@),
            }),
    {
        let r = ResolvedImport { local_name, source, parameter_count, parameters, variants };
        proof {
            lemma_import_variants(r);
        }
        r
    }

    pub fn local_name(&self) -> (r: &Name)
        ensures
            r@ == import_view(*self).local_name,
    {
        &self.local_name
    }

    pub fn source(&self) -> (r: &ImportSource)
        ensures
            r.path_view() == import_view(*self).source,
    {
        &self.source
    }

    pub fn parameter_count(&self) -> (r: Option<usize>)
        ensures
            r == import_view(*self).parameter_count,
    {
        self.parameter_count
    }

    pub fn parameters(&self) -> (r: &[Name])
        ensures
            names_view(r@) == import_view(*self).parameters,
    {
        self.parameters.as_slice()
    }

    pub fn variants(&self) -> (r: &Vec<EnumVariant>)
        ensures
            variants_view(r@) == import_view(*self).variants,
    {
        proof {
            lemma_import_variants(*self);
        }
        &self.variants
    }

    /// Exec-side equality, by view.
    pub fn same(&self, other: &Self) -> (r: bool)
        ensures
            r == (import_view(*self) == import_view(*other)),
        decreases self, 0nat,
    {
        proof {
            lemma_import_variants(*self);
            lemma_import_variants(*other);
            assert(decreases_to!(*self => self.variants));
        }
        self.local_name.same(&other.local_name) && self.source.path.same(&other.source.path)
            && self.parameter_count == other.parameter_count && same_names(
            self.parameters.as_slice(),
            other.parameters.as_slice(),
        ) && same_variants(&self.variants, &other.variants)
    }

    /// A copy of this import.
    pub fn deep_clone(&self) -> (r: Self)
        ensures
            import_view(r) == import_view(*self),
        decreases self, 0nat,
    {
        proof {
            assert(decreases_to!(*self => self.variants));
        }
        let variants = clone_variants(&self.variants);
        let r = ResolvedImport {
            local_name: self.local_name.clone(),
            source: ImportSource { path: self.source.path.clone() },
            parameter_count: self.parameter_count,
            parameters: names_clone(self.parameters.as_slice()),
            variants,
        };
        proof {
            lemma_import_variants(r);
            lemma_import_variants(*self);
        }
        r
    }
}

impl EnumVariant {
    pub fn new(name: Name, payload: Option<TypeReference>) -> (r: Self)
        ensures
            variant_view(r) == (VariantModel {
                name: name@,
                payload: option_reference_view(payload),
            }),
    {
        EnumVariant { name, payload }
    }

    /// Exec-side equality, by view.
    pub fn same(&self, other: &Self) -> (r: bool)
        ensures
            r == (variant_view(*self) == variant_view(*other)),
        decreases self, 0nat,
    {
        if !self.name.same(&other.name) {
            return false;
        }
        match (&self.payload, &other.payload) {
            (Some(a), Some(b)) => {
                proof {
                    assert(decreases_to!(*self => self.payload));
                }
                a.same(b)
            },
            (None, None) => true,
            _ => false,
        }
    }

    /// A copy of this variant.
    pub fn deep_clone(&self) -> (r: Self)
        ensures
            variant_view(r) == variant_view(*self),
        decreases self, 0nat,
    {
        let payload = match &self.payload {
            Some(p) => {
                proof {
                    assert(decreases_to!(*self => self.payload));
                }
                Some(p.deep_clone())
            },
            None => None,
        };
        EnumVariant { name: self.name.clone(), payload }
    }
}

impl ApplicationHead {
    /// The head's local name, whether or not it has been resolved to an import.
    pub fn name(&self) -> (r: &Name)
        ensures
            r@ == head_name_seq(head_view(*self)),
    {
        match self {
            Self::Local(name) => name,
            Self::Imported(import) => import.local_name(),
        }
    }

    /// Exec-side equality, by view.
    pub fn same(&self, other: &Self) -> (r: bool)
        ensures
            r == (head_view(*self) == head_view(*other)),
        decreases self, 0nat,
    {
        match (self, other) {
            (Self::Local(a), Self::Local(b)) => a.same(b),
            (Self::Imported(a), Self::Imported(b)) => a.same(b),
            _ => false,
        }
    }

    /// A copy of this head.
    pub fn deep_clone(&self) -> (r: Self)
        ensures
            head_view(r) == head_view(*self),
        decreases self, 0nat,
    {
        match self {
            Self::Local(a) => Self::Local(a.clone()),
            Self::Imported(a) => Self::Imported(a.deep_clone()),
        }
    }
}

/// The local name an application head is written as.
pub open spec fn head_name_seq(h: HeadModel) -> Seq<char> {
    match h {
        HeadModel::Local(n) => n,
        HeadModel::Imported(i) => i.local_name,
    }
}

/// The reserved scalar spelling of a reference, if it is a scalar leaf.
pub open spec fn scalar_seq(r: ReferenceModel) -> Option<Seq<char>> {
    match r {
        ReferenceModel::String => Some(seq!['S', 't', 'r', 'i', 'n', 'g']),
        ReferenceModel::Integer => Some(seq!['I', 'n', 't', 'e', 'g', 'e', 'r']),
        ReferenceModel::Boolean => Some(seq!['B', 'o', 'o', 'l', 'e', 'a', 'n']),
        ReferenceModel::Path => Some(seq!['P', 'a', 't', 'h']),
        ReferenceModel::Bytes => Some(seq!['B', 'y', 't', 'e', 's']),
        _ => None,
    }
}

/// The scalar leaf a reserved name denotes, if any.
pub open spec fn scalar_kind_seq(name: Seq<char>) -> Option<ReferenceModel> {
    if name == seq!['S', 't', 'r', 'i', 'n', 'g'] {
        Some(ReferenceModel::String)
    } else if name == seq!['I', 'n', 't', 'e', 'g', 'e', 'r'] {
        Some(ReferenceModel::Integer)
    } else if name == seq!['B', 'o', 'o', 'l', 'e', 'a', 'n'] {
        Some(ReferenceModel::Boolean)
    } else if name == seq!['P', 'a', 't', 'h'] {
        Some(ReferenceModel::Path)
    } else if name == seq!['B', 'y', 't', 'e', 's'] {
        Some(ReferenceModel::Bytes)
    } else {
        None
    }
}

/// The reference a name denotes: its scalar leaf, or a declared-name leaf.
pub open spec fn from_name_view(name: Seq<char>) -> ReferenceModel {
    match scalar_kind_seq(name) {
        Some(k) => k,
        None => ReferenceModel::Plain(name),
    }
}

/// The machine DOTOS projection of a reference.
pub open spec fn machine_seq(r: ReferenceModel) -> Seq<char>
    decreases r,
{
    match r {
        ReferenceModel::Plain(n) => seq!['(', 'P', 'l', 'a', 'i', 'n', ' '] + crate::name::dotos_seq(
            n,
        ) + seq![')'],
        ReferenceModel::Single(p, a) => seq!['('] + single_name_seq(p) + seq![' '] + machine_seq(*a)
            + seq![')'],
        ReferenceModel::Multi(p, args) => seq!['('] + multi_name_seq(p) + seq![' '] + join_seq(machine_texts(args), seq![' ']) + seq![')'],
        ReferenceModel::Value(p, v) => seq!['('] + value_name_seq(p) + seq![' '] + decimal_seq(
            v as nat,
        ) + seq![')'],
        ReferenceModel::Application(h, args) => seq![
            '(',
            'A',
            'p',
            'p',
            'l',
            'i',
            'c',
            'a',
            't',
            'i',
            'o',
            'n',
            ' ',
            '(',
        ] + crate::name::dotos_seq(head_name_seq(h)) + seq![' ', '('] + join_seq(machine_texts(args), seq![' ']) + seq![')', ')', ')'],
        _ => scalar_seq(r)->0,
    }
}

/// The machine texts of a list of references.
pub open spec fn machine_texts(args: Seq<ReferenceModel>) -> Seq<Seq<char>>
    decreases args,
{
    Seq::new(
        args.len(),
        |i: int|
            if 0 <= i < args.len() {
                machine_seq(args[i])
            } else {
                Seq::empty()
            },
    )
}

impl TypeReference {
    /// The reserved scalar leaves, in roster order.
    pub fn scalar_kinds() -> (r: Vec<TypeReference>)
        ensures
            r@.len() == 5,
            reference_view(r@[0]) == ReferenceModel::String,
            reference_view(r@[1]) == ReferenceModel::Integer,
            reference_view(r@[2]) == ReferenceModel::Boolean,
            reference_view(r@[3]) == ReferenceModel::Path,
            reference_view(r@[4]) == ReferenceModel::Bytes,
    {
        vec![Self::String, Self::Integer, Self::Boolean, Self::Path, Self::Bytes]
    }

    /// A reference from a schema name: a reserved scalar name becomes its
    /// scalar leaf, every other name a declared-name leaf.
    pub fn new(name: &str) -> (r: Self)
        ensures
            reference_view(r) == from_name_view(name@),
    {
        Self::from_name(Name::new(name))
    }

    pub fn from_name(name: Name) -> (r: Self)
        ensures
            reference_view(r) == from_name_view(name@),
    {
        match Self::scalar_kind_for(name.as_str()) {
            Some(kind) => kind,
            None => Self::Plain(name),
        }
    }

    pub fn is_reserved_scalar_name(name: &Name) -> (r: bool)
        ensures
            r == scalar_kind_seq(name@) is Some,
    {
        Self::scalar_kind_for(name.as_str()).is_some()
    }

    fn scalar_kind_for(name: &str) -> (r: Option<Self>)
        ensures
            match r {
                Some(k) => scalar_kind_seq(name@) == Some(reference_view(k)),
                None => scalar_kind_seq(name@) is None,
            },
    {
        proof {
            reveal_strlit("String");
            reveal_strlit("Integer");
            reveal_strlit("Boolean");
            reveal_strlit("Path");
            reveal_strlit("Bytes");
            assert("String"@ =~= seq!['S', 't', 'r', 'i', 'n', 'g']);
            assert("Integer"@ =~= seq!['I', 'n', 't', 'e', 'g', 'e', 'r']);
            assert("Boolean"@ =~= seq!['B', 'o', 'o', 'l', 'e', 'a', 'n']);
            assert("Path"@ =~= seq!['P', 'a', 't', 'h']);
            assert("Bytes"@ =~= seq!['B', 'y', 't', 'e', 's']);
        }
        if str_eq(name, "String") {
            Some(Self::String)
        } else if str_eq(name, "Integer") {
            Some(Self::Integer)
        } else if str_eq(name, "Boolean") {
            Some(Self::Boolean)
        } else if str_eq(name, "Path") {
            Some(Self::Path)
        } else if str_eq(name, "Bytes") {
            Some(Self::Bytes)
        } else {
            None
        }
    }

    /// The reserved name of a scalar leaf; `None` for every other reference.
    pub fn scalar_name(&self) -> (r: Option<&'static str>)
        ensures
            match r {
                Some(s) => scalar_seq(reference_view(*self)) == Some(s@),
                None => scalar_seq(reference_view(*self)) is None,
            },
    {
        proof {
            reveal_strlit("String");
            reveal_strlit("Integer");
            reveal_strlit("Boolean");
            reveal_strlit("Path");
            reveal_strlit("Bytes");
        }
        match self {
            Self::String => Some("String"),
            Self::Integer => Some("Integer"),
            Self::Boolean => Some("Boolean"),
            Self::Path => Some("Path"),
            Self::Bytes => Some("Bytes"),
            _ => None,
        }
    }

    /// The declared name when this is a declared-name leaf.
    pub fn plain_name(&self) -> (r: Option<&Name>)
        ensures
            match r {
                Some(n) => reference_view(*self) == ReferenceModel::Plain(n@),
                None => !(reference_view(*self) is Plain),
            },
    {
        match self {
            Self::Plain(name) => Some(name),
            _ => None,
        }
    }

    pub fn is_plain(&self) -> (r: bool)
        ensures
            r == reference_view(*self) is Plain,
    {
        match self {
            Self::Plain(_) => true,
            _ => false,
        }
    }

    pub fn single_type_application(
        projection: SingleTypeReferenceProjection,
        argument: TypeReference,
    ) -> (r: Self)
        ensures
            reference_view(r) == ReferenceModel::Single(projection, Box::new(reference_view(argument))),
    {
        Self::SingleTypeApplication { projection, argument: Box::new(argument) }
    }

    pub fn multi_type_application(
        projection: MultiTypeReferenceProjection,
        arguments: Vec<TypeReference>,
    ) -> (r: Self)
        ensures
            reference_view(r) == ReferenceModel::Multi(projection, references_view(arguments@)),
    {
        let r = Self::MultiTypeApplication { projection, arguments };
        proof {
            lemma_multi_args(r);
        }
        r
    }

    pub fn value_application(projection: ValueReferenceProjection, value: u64) -> (r: Self)
        ensures
            reference_view(r) == ReferenceModel::Value(projection, value),
    {
        Self::ValueApplication { projection, value }
    }

    pub fn vector(argument: TypeReference) -> (r: Self)
        ensures
            reference_view(r) == ReferenceModel::Single(
                SingleTypeReferenceProjection::Vector,
                Box::new(reference_view(argument)),
            ),
    {
        Self::single_type_application(SingleTypeReferenceProjection::Vector, argument)
    }

    pub fn optional(argument: TypeReference) -> (r: Self)
        ensures
            reference_view(r) == ReferenceModel::Single(
                SingleTypeReferenceProjection::Optional,
                Box::new(reference_view(argument)),
            ),
    {
        Self::single_type_application(SingleTypeReferenceProjection::Optional, argument)
    }

    pub fn scope_of(argument: TypeReference) -> (r: Self)
        ensures
            reference_view(r) == ReferenceModel::Single(
                SingleTypeReferenceProjection::ScopeOf,
                Box::new(reference_view(argument)),
            ),
    {
        Self::single_type_application(SingleTypeReferenceProjection::ScopeOf, argument)
    }

    pub fn map(key: TypeReference, value: TypeReference) -> (r: Self)
        ensures
            reference_view(r) == ReferenceModel::Multi(
                MultiTypeReferenceProjection::KeyedMap,
                seq![reference_view(key), reference_view(value)],
            ),
    {
        let arguments = vec![key, value];
        let r = Self::multi_type_application(MultiTypeReferenceProjection::KeyedMap, arguments);
        assert(references_view(arguments@) =~= seq![reference_view(key), reference_view(value)]);
        r
    }

    pub fn fixed_width_bytes(width: u64) -> (r: Self)
        ensures
            reference_view(r) == ReferenceModel::Value(ValueReferenceProjection::Bytes, width),
    {
        Self::value_application(ValueReferenceProjection::Bytes, width)
    }

    /// A general application of `head` to `arguments`.
    pub fn application(head: ApplicationHead, arguments: Vec<TypeReference>) -> (r: Self)
        ensures
            reference_view(r) == ReferenceModel::Application(
                head_view(head),
                references_view(arguments@),
            ),
    {
        let r = Self::Application { head, arguments };
        proof {
            lemma_app_args(r);
        }
        r
    }

    /// Exec-side equality, by view.
    pub fn same(&self, other: &Self) -> (r: bool)
        ensures
            r == (reference_view(*self) == reference_view(*other)),
        decreases self, 1nat,
    {
        match (self, other) {
            (Self::String, Self::String) => true,
            (Self::Integer, Self::Integer) => true,
            (Self::Boolean, Self::Boolean) => true,
            (Self::Path, Self::Path) => true,
            (Self::Bytes, Self::Bytes) => true,
            (Self::Plain(a), Self::Plain(b)) => a.same(b),
            (
                Self::SingleTypeApplication { projection: p1, argument: a1 },
                Self::SingleTypeApplication { projection: p2, argument: a2 },
            ) => *p1 == *p2 && a1.same(a2),
            (
                Self::MultiTypeApplication { projection: p1, arguments: a1 },
                Self::MultiTypeApplication { projection: p2, arguments: a2 },
            ) => {
                proof {
                    lemma_multi_args(*self);
                    lemma_multi_args(*other);
                }
                *p1 == *p2 && same_references(a1, a2)
            },
            (
                Self::ValueApplication { projection: p1, value: v1 },
                Self::ValueApplication { projection: p2, value: v2 },
            ) => *p1 == *p2 && *v1 == *v2,
            (
                Self::Application { head: h1, arguments: a1 },
                Self::Application { head: h2, arguments: a2 },
            ) => {
                proof {
                    lemma_app_args(*self);
                    lemma_app_args(*other);
                }
                h1.same(h2) && same_references(a1, a2)
            },
            _ => false,
        }
    }

    /// A copy of this reference.
    pub fn deep_clone(&self) -> (r: Self)
        ensures
            reference_view(r) == reference_view(*self),
        decreases self, 1nat,
    {
        match self {
            Self::String => Self::String,
            Self::Integer => Self::Integer,
            Self::Boolean => Self::Boolean,
            Self::Path => Self::Path,
            Self::Bytes => Self::Bytes,
            Self::Plain(a) => Self::Plain(a.clone()),
            Self::SingleTypeApplication { projection, argument } => Self::SingleTypeApplication {
                projection: *projection,
                argument: Box::new(argument.deep_clone()),
            },
            Self::MultiTypeApplication { projection, arguments } => {
                proof {
                    lemma_multi_args(*self);
                }
                Self::multi_type_application(*projection, clone_references(arguments))
            },
            Self::ValueApplication { projection, value } => Self::ValueApplication {
                projection: *projection,
                value: *value,
            },
            Self::Application { head, arguments } => {
                proof {
                    lemma_app_args(*self);
                }
                Self::application(head.deep_clone(), clone_references(arguments))
            },
        }
    }

    /// The machine DOTOS projection: a scalar's reserved name, or a
    /// parenthesized tagged form.
    pub fn to_dotos(&self) -> (r: String)
        ensures
            r@ == machine_seq(reference_view(*self)),
        decreases self,
    {
        match self {
            Self::Plain(name) => {
                let mut text = crate::text::owned("(Plain ");
                text.append(name.to_dotos().as_str());
                text.append(")");
                proof {
                    reveal_strlit("(Plain ");
                    reveal_strlit(")");
                }
                assert(text@ =~= machine_seq(reference_view(*self)));
                text
            },
            Self::SingleTypeApplication { projection, argument } => {
                let mut text = crate::text::owned("(");
                text.append(projection.canonical_name());
                text.append(" ");
                text.append(argument.to_dotos().as_str());
                text.append(")");
                proof {
                    reveal_strlit("(");
                    reveal_strlit(" ");
                    reveal_strlit(")");
                }
                assert(text@ =~= machine_seq(reference_view(*self)));
                text
            },
            Self::MultiTypeApplication { projection, arguments } => {
                let joined = Self::joined_dotos(arguments);
                let mut text = crate::text::owned("(");
                text.append(projection.canonical_name());
                text.append(" ");
                text.append(joined.as_str());
                text.append(")");
                proof {
                    reveal_strlit("(");
                    reveal_strlit(" ");
                    reveal_strlit(")");
                    lemma_multi_args(*self);
                }
                assert(text@ =~= machine_seq(reference_view(*self)));
                text
            },
            Self::ValueApplication { projection, value } => {
                let mut text = crate::text::owned("(");
                text.append(projection.canonical_name());
                text.append(" ");
                text.append(decimal_text(*value).as_str());
                text.append(")");
                proof {
                    reveal_strlit("(");
                    reveal_strlit(" ");
                    reveal_strlit(")");
                }
                assert(text@ =~= machine_seq(reference_view(*self)));
                text
            },
            Self::Application { head, arguments } => {
                let joined = Self::joined_dotos(arguments);
                let mut text = crate::text::owned("(Application (");
                text.append(head.name().to_dotos().as_str());
                text.append(" (");
                text.append(joined.as_str());
                text.append(")))");
                proof {
                    reveal_strlit("(Application (");
                    reveal_strlit(" (");
                    reveal_strlit(")))");
                    lemma_app_args(*self);
                }
                assert(text@ =~= machine_seq(reference_view(*self)));
                text
            },
            _ => {
                let name = self.scalar_name();
                match name {
                    Some(n) => crate::text::owned(n),
                    None => String::new(),
                }
            },
        }
    }

    fn joined_dotos(arguments: &Vec<TypeReference>) -> (r: String)
        ensures
            r@ == join_seq(machine_texts(references_view(arguments@)), seq![' ']),
        decreases arguments,
    {
        let mut parts: Vec<String> = Vec::new();
        let mut i: usize = 0;
        while i < arguments.len()
            invariant
                i <= arguments@.len(),
                views_of(parts@) =~= machine_texts(references_view(arguments@)).subrange(
                    0,
                    i as int,
                ),
            decreases arguments.len() - i,
        {
            proof {
                assert(decreases_to!(*arguments => arguments@));
                assert(decreases_to!(arguments@ => arguments@[i as int]));
            }
            let ghost before = parts@;
            let text = arguments[i].to_dotos();
            parts.push(text);
            assert(views_of(parts@) =~= views_of(before).push(text@));
            assert(machine_texts(references_view(arguments@)).subrange(0, i + 1) =~= machine_texts(
                references_view(arguments@),
            ).subrange(0, i as int).push(machine_seq(reference_view(arguments@[i as int]))));
            i += 1;
        }
        proof {
            reveal_strlit(" ");
        }
        let r = join(&parts, " ");
        assert(" "@ =~= seq![' ']);
        assert(machine_texts(references_view(arguments@)).subrange(0, arguments@.len() as int)
            =~= machine_texts(references_view(arguments@)));
        r
    }
}

} // verus!
