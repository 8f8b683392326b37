//! The name-bearing schema tree: identity, imports, the two roots, the
//! namespace declarations, and the standalone impl blocks, with the lookups,
//! monomorphization, and semantic-boundary checks over the whole.

use crate::declaration::{
    declarations_model, distinct_seq, duplicate_binder_error, same_named_payload, type_model, type_model_name,
    verify_distinct_binders, Declaration, DeclarationModel, EnumDeclaration, ImplBlock,
    ImplModel, ImplReference, TypeDeclaration, TypeDeclarationModel,
};
use crate::engine::{SchemaError, SchemaIdentity};
use crate::name::{names_view, Name, SymbolPath};
use crate::reference::{
    clone_references, head_name_seq, head_view, import_view, option_reference_view,
    reference_view, references_view, variant_view, variants_view, ApplicationHead, EnumVariant,
    HeadModel, ImportModel, ReferenceModel, ResolvedImport, SingleTypeReferenceProjection,
    TypeReference, VariantModel,
};
use crate::seqs::{first_index, lemma_first_index_absent, lemma_first_index_found, lemma_first_index_step};
use vstd::prelude::*;

verus! {

/// An import entry: the local name and the source it names.
#[derive(Debug)]
pub struct ImportDeclaration {
    pub local_name: Name,
    pub source: TypeReference,
}

/// A root in the application form `(Head Arg …)`, named by its position.
#[derive(Debug)]
pub struct RootApplication {
    name: Name,
    head: ApplicationHead,
    arguments: Vec<TypeReference>,
}

/// A component root: an enum body, or an application form.
#[derive(Debug)]
pub enum Root {
    Enum(EnumDeclaration),
    Application(Box<RootApplication>),
}

/// The mathematical form of a root.
pub enum RootModel {
    Enum(Seq<char>, Seq<VariantModel>),
    Application(Seq<char>, HeadModel, Seq<ReferenceModel>),
}

impl View for RootApplication {
    type V = (Seq<char>, HeadModel, Seq<ReferenceModel>);

    closed spec fn view(&self) -> (Seq<char>, HeadModel, Seq<ReferenceModel>) {
        (self.name@, head_view(self.head), references_view(self.arguments@))
    }
}

impl View for Root {
    type V = RootModel;

    open spec fn view(&self) -> RootModel {
        match self {
            Root::Enum(e) => RootModel::Enum(e.name@, variants_view(e.variants@)),
            Root::Application(a) => RootModel::Application(a@.0, a@.1, a@.2),
        }
    }
}

pub open spec fn root_name_seq(r: RootModel) -> Seq<char> {
    match r {
        RootModel::Enum(n, _) => n,
        RootModel::Application(n, _, _) => n,
    }
}

/// The schema tree.
#[derive(Debug)]
pub struct SchemaTree {
    identity: SchemaIdentity,
    imports: Vec<ImportDeclaration>,
    resolved_imports: Vec<ResolvedImport>,
    input: Root,
    output: Root,
    namespace: Vec<Declaration>,
    impl_blocks: Vec<ImplBlock>,
}

/// The mathematical form of the tree's semantic content.
pub struct TreeModel {
    pub component: Seq<char>,
    pub version: Seq<char>,
    pub imports: Seq<(Seq<char>, ReferenceModel)>,
    pub resolved_imports: Seq<ImportModel>,
    pub input: RootModel,
    pub output: RootModel,
    pub namespace: Seq<DeclarationModel>,
    pub impl_blocks: Seq<(Seq<char>, Seq<ImplModel>)>,
}

/// The import declarations as (local name, source) pairs.
pub open spec fn import_declarations_model(s: Seq<ImportDeclaration>) -> Seq<(Seq<char>, ReferenceModel)> {
    Seq::new(s.len(), |i: int| (s[i].local_name@, reference_view(s[i].source)))
}

pub open spec fn imports_model(s: Seq<ResolvedImport>) -> Seq<ImportModel> {
    Seq::new(s.len(), |i: int| import_view(s[i]))
}

pub open spec fn blocks_model(s: Seq<ImplBlock>) -> Seq<(Seq<char>, Seq<ImplModel>)> {
    Seq::new(s.len(), |i: int| s[i]@)
}

impl View for SchemaTree {
    type V = TreeModel;

    closed spec fn view(&self) -> TreeModel {
        TreeModel {
            component: self.identity.component_view(),
            version: self.identity.version_view(),
            imports: import_declarations_model(self.imports@),
            resolved_imports: imports_model(self.resolved_imports@),
            input: self.input@,
            output: self.output@,
            namespace: declarations_model(self.namespace@),
            impl_blocks: blocks_model(self.impl_blocks@),
        }
    }
}

/// The predicate: a declaration carries `name`.
pub open spec fn declaration_named(name: Seq<char>) -> spec_fn(DeclarationModel) -> bool {
    |d: DeclarationModel| d.name == name
}

/// The predicate: a resolved import is aliased `name`.
pub open spec fn import_named(name: Seq<char>) -> spec_fn(ImportModel) -> bool {
    |i: ImportModel| i.local_name == name
}

/// The namespace declaration named `name`: the first one carrying it.
pub open spec fn declaration_of(t: TreeModel, name: Seq<char>) -> Option<DeclarationModel> {
    match first_index(t.namespace, declaration_named(name)) {
        Some(i) => Some(t.namespace[i]),
        None => None,
    }
}

/// The root carrying position name `name`: the input first, then the output.
pub open spec fn root_of(t: TreeModel, name: Seq<char>) -> Option<RootModel> {
    if root_name_seq(t.input) == name {
        Some(t.input)
    } else if root_name_seq(t.output) == name {
        Some(t.output)
    } else {
        None
    }
}

/// The frame a local head names: a namespace enum's binders and variants, or
/// else a resolved import with a non-empty frame aliased by the name.
pub open spec fn local_frame_of(t: TreeModel, name: Seq<char>) -> Option<
    (Seq<Seq<char>>, Seq<VariantModel>),
> {
    match declaration_of(t, name) {
        Some(d) => match d.value {
            TypeDeclarationModel::Enum(_, variants) => Some((d.parameters, variants)),
            _ => imported_frame_of(t, name),
        },
        None => imported_frame_of(t, name),
    }
}

/// The frame carried on the first resolved import aliased `name`, when it
/// carries variants.
pub open spec fn imported_frame_of(t: TreeModel, name: Seq<char>) -> Option<
    (Seq<Seq<char>>, Seq<VariantModel>),
> {
    match first_index(t.resolved_imports, import_named(name)) {
        Some(i) => if t.resolved_imports[i].variants.len() > 0 {
            Some((t.resolved_imports[i].parameters, t.resolved_imports[i].variants))
        } else {
            None
        },
        None => None,
    }
}

/// The frame an application head names.
pub open spec fn frame_of(t: TreeModel, h: HeadModel) -> Option<(Seq<Seq<char>>, Seq<VariantModel>)> {
    match h {
        HeadModel::Local(n) => local_frame_of(t, n),
        HeadModel::Imported(i) => Some((i.parameters, i.variants)),
    }
}

/// The predicate: a name equals `n`.
pub open spec fn name_is(n: Seq<char>) -> spec_fn(Seq<char>) -> bool {
    |q: Seq<char>| q == n
}

/// A payload with each frame binder replaced by its argument.
pub open spec fn substituted(
    params: Seq<Seq<char>>,
    args: Seq<ReferenceModel>,
    payload: ReferenceModel,
) -> ReferenceModel {
    match payload {
        ReferenceModel::Plain(n) => match first_index(params, name_is(n)) {
            Some(k) => args[k],
            None => payload,
        },
        _ => payload,
    }
}

/// The frame's variants with every payload substituted.
pub open spec fn expanded_variants(
    params: Seq<Seq<char>>,
    args: Seq<ReferenceModel>,
    variants: Seq<VariantModel>,
) -> Seq<VariantModel> {
    Seq::new(
        variants.len(),
        |i: int|
            VariantModel {
                name: variants[i].name,
                payload: match variants[i].payload {
                    Some(p) => Some(substituted(params, args, p)),
                    None => None,
                },
            },
    )
}

/// A payload that reproduces a sibling application root, re-aimed at that
/// root by name; any other payload unchanged.
pub open spec fn reaimed(t: TreeModel, payload: ReferenceModel) -> ReferenceModel {
    match payload {
        ReferenceModel::Application(h, args) => if (t.input matches RootModel::Application(
            n,
            rh,
            ra,
        ) && rh == h && ra == args) {
            ReferenceModel::Plain(root_name_seq(t.input))
        } else if (t.output matches RootModel::Application(n, rh, ra) && rh == h && ra == args) {
            ReferenceModel::Plain(root_name_seq(t.output))
        } else {
            payload
        },
        _ => payload,
    }
}

/// The expansion of an application root into its concrete variants.
pub open spec fn expansion_of(
    t: TreeModel,
    name: Seq<char>,
    h: HeadModel,
    args: Seq<ReferenceModel>,
) -> Option<(Seq<char>, Seq<VariantModel>)> {
    match frame_of(t, h) {
        Some((params, variants)) => {
            let expanded = expanded_variants(params, args, variants);
            Some(
                (
                    name,
                    Seq::new(
                        expanded.len(),
                        |i: int|
                            VariantModel {
                                name: expanded[i].name,
                                payload: match expanded[i].payload {
                                    Some(p) => Some(reaimed(t, p)),
                                    None => None,
                                },
                            },
                    ),
                ),
            )
        },
        None => None,
    }
}

/// Whether every binder a frame's payloads may name has an argument.
pub open spec fn frame_fits(t: TreeModel, h: HeadModel, args: Seq<ReferenceModel>) -> bool {
    match frame_of(t, h) {
        Some((params, variants)) => binders_bound(params, args, variants),
        None => true,
    }
}

/// Whether a payload that names a binder names one the arguments supply.
pub open spec fn binder_bound(params: Seq<Seq<char>>, args: Seq<ReferenceModel>, payload: ReferenceModel) -> bool {
    payload matches ReferenceModel::Plain(n) ==> (first_index(params, name_is(n)) matches Some(k) ==> k
        < args.len())
}

/// Whether every payload of the frame that names a binder names one the
/// arguments supply.
pub open spec fn binders_bound(params: Seq<Seq<char>>, args: Seq<ReferenceModel>, variants: Seq<VariantModel>) -> bool {
    forall|i: int|
        0 <= i < variants.len() ==> (match (#[trigger] variants[i]).payload {
            Some(p) => binder_bound(params, args, p),
            None => true,
        })
}

/// A borrowed view of a declared type: a namespace declaration's body or a
/// root enum.
pub enum SchemaDeclaredType<'schema> {
    Root(&'schema EnumDeclaration),
    Namespace(&'schema TypeDeclaration),
}

/// One impl entry of the manifest paired with the type it targets.
pub struct ReferencedImpl<'schema> {
    target: &'schema Name,
    entry: &'schema ImplReference,
}

impl<'schema> ReferencedImpl<'schema> {
    pub closed spec fn model(&self) -> (Seq<char>, ImplModel) {
        (self.target@, self.entry@)
    }

    pub fn target(&self) -> (r: &Name)
        ensures
            r@ == self.model().0,
    {
        self.target
    }

    pub fn entry(&self) -> (r: &ImplReference)
        ensures
            r@ == self.model().1,
    {
        self.entry
    }
}

/// The manifest of the fused catalogs of the first `n` declarations.
pub open spec fn fused_manifest(ns: Seq<DeclarationModel>, n: int) -> Seq<(Seq<char>, ImplModel)>
    decreases n,
{
    if n <= 0 || n > ns.len() {
        Seq::empty()
    } else {
        fused_manifest(ns, n - 1) + Seq::new(
            ns[n - 1].impls.len(),
            |k: int| (ns[n - 1].name, ns[n - 1].impls[k]),
        )
    }
}

/// The manifest of the first `n` standalone impl blocks.
pub open spec fn block_manifest(bs: Seq<(Seq<char>, Seq<ImplModel>)>, n: int) -> Seq<
    (Seq<char>, ImplModel),
>
    decreases n,
{
    if n <= 0 || n > bs.len() {
        Seq::empty()
    } else {
        block_manifest(bs, n - 1) + Seq::new(bs[n - 1].1.len(), |k: int| (bs[n - 1].0, bs[n - 1].1[k]))
    }
}

/// Every referenced impl entry paired with its target: the fused catalogs in
/// declaration order, then the standalone blocks in order.
pub open spec fn manifest(t: TreeModel) -> Seq<(Seq<char>, ImplModel)> {
    fused_manifest(t.namespace, t.namespace.len() as int) + block_manifest(
        t.impl_blocks,
        t.impl_blocks.len() as int,
    )
}


/// The generic arity an application head fixes, when it names a declared
/// parameterized type.
pub open spec fn head_arity(t: TreeModel, h: HeadModel) -> Option<int> {
    match h {
        HeadModel::Local(n) => match declaration_of(t, n) {
            Some(d) => Some(d.parameters.len() as int),
            None => None,
        },
        HeadModel::Imported(i) => match i.parameter_count {
            Some(c) => Some(c as int),
            None => None,
        },
    }
}

/// Whether every application in a reference supplies its head's declared arity.
pub open spec fn reference_arity_ok(t: TreeModel, r: ReferenceModel) -> bool
    decreases r, 1nat,
{
    match r {
        ReferenceModel::Single(_, a) => reference_arity_ok(t, *a),
        ReferenceModel::Multi(_, args) => references_arity_ok(t, args),
        ReferenceModel::Application(h, args) => (match head_arity(t, h) {
            Some(n) => n == args.len(),
            None => true,
        }) && references_arity_ok(t, args),
        _ => true,
    }
}

/// Whether every reference of a list passes `reference_arity_ok`.
pub open spec fn references_arity_ok(t: TreeModel, s: Seq<ReferenceModel>) -> bool
    decreases s, 0nat,
{
    if s.len() == 0 {
        true
    } else {
        references_arity_ok(t, s.subrange(0, s.len() - 1)) && reference_arity_ok(t, s[s.len() - 1])
    }
}

/// A list passes the arity rule exactly when each of its members does.
pub proof fn lemma_references_arity_ok(t: TreeModel, s: Seq<ReferenceModel>)
    ensures
        references_arity_ok(t, s) == (forall|i: int|
            0 <= i < s.len() ==> reference_arity_ok(t, #[trigger] s[i])),
    decreases s.len(),
{
    if s.len() > 0 {
        let p = s.subrange(0, s.len() - 1);
        lemma_references_arity_ok(t, p);
        assert forall|i: int| 0 <= i < p.len() implies p[i] == s[i] by {}
    }
}

/// Whether a variant's payload is legal: not optional, not a same-named plain
/// type, and arity-correct.
pub open spec fn variant_ok(t: TreeModel, v: VariantModel) -> bool {
    match v.payload {
        Some(p) => !(p matches ReferenceModel::Single(SingleTypeReferenceProjection::Optional, _))
            && same_named_payload(v) is None && reference_arity_ok(t, p),
        None => true,
    }
}

pub open spec fn enum_ok(t: TreeModel, variants: Seq<VariantModel>) -> bool {
    forall|i: int| 0 <= i < variants.len() ==> variant_ok(t, #[trigger] variants[i])
}

pub open spec fn declaration_arity_ok(t: TreeModel, d: TypeDeclarationModel) -> bool {
    match d {
        TypeDeclarationModel::Struct(_, fields) => forall|i: int|
            0 <= i < fields.len() ==> reference_arity_ok(t, #[trigger] fields[i].reference),
        TypeDeclarationModel::Newtype(_, r) => reference_arity_ok(t, r),
        TypeDeclarationModel::Enum(_, variants) => enum_ok(t, variants),
    }
}

pub open spec fn root_arity_ok(t: TreeModel, r: RootModel) -> bool {
    match r {
        RootModel::Enum(_, variants) => enum_ok(t, variants),
        RootModel::Application(_, h, args) => reference_arity_ok(
            t,
            ReferenceModel::Application(h, args),
        ),
    }
}

/// Whether the whole tree passes the lowering-time arity rules.
pub open spec fn arities_ok(t: TreeModel) -> bool {
    &&& forall|i: int|
        0 <= i < t.namespace.len() ==> declaration_arity_ok(t, #[trigger] t.namespace[i].value)
    &&& root_arity_ok(t, t.input)
    &&& root_arity_ok(t, t.output)
}

/// A lowering-time arity fault: an optional variant payload, a payload
/// repeating its variant's name, or an application of the wrong arity.
pub enum ArityFault {
    OptionalPayload(Seq<char>, Seq<char>),
    SameNamedPayload(Seq<char>, Seq<char>, Seq<char>),
    Mismatch(Seq<char>, int, int),
}

/// The error a fault is reported with.
pub open spec fn arity_error(e: SchemaError, f: ArityFault) -> bool {
    match f {
        ArityFault::OptionalPayload(en, vn) => e matches SchemaError::OptionalVariantPayload {
            enum_name,
            variant_name,
        } && enum_name@ == en && variant_name@ == vn,
        ArityFault::SameNamedPayload(en, vn, pt) => e matches SchemaError::SameNamedVariantPayload {
            enum_name,
            variant_name,
            payload_type,
        } && enum_name@ == en && variant_name@ == vn && payload_type@ == pt,
        ArityFault::Mismatch(h, n, k) => e matches SchemaError::GenericArityMismatch {
            head,
            expected,
            found,
        } && head@ == h && expected == n && found == k,
    }
}

/// The first entry of `s` that is a fault.
pub open spec fn first_fault(s: Seq<Option<ArityFault>>) -> Option<ArityFault>
    decreases s.len(),
{
    if s.len() == 0 {
        None
    } else if s[0] is Some {
        s[0]
    } else {
        first_fault(s.subrange(1, s.len() as int))
    }
}

/// The first fault of an entry when every earlier entry has none.
pub proof fn lemma_first_fault_at(s: Seq<Option<ArityFault>>, i: int)
    requires
        0 <= i < s.len(),
        s[i] is Some,
        forall|j: int| 0 <= j < i ==> (#[trigger] s[j]) is None,
    ensures
        first_fault(s) == s[i],
    decreases i,
{
    if i > 0 {
        let rest = s.subrange(1, s.len() as int);
        assert forall|j: int| 0 <= j < i - 1 implies (#[trigger] rest[j]) is None by {
            assert(rest[j] == s[j + 1]);
        }
        lemma_first_fault_at(rest, i - 1);
        assert(rest[i - 1] == s[i]);
        assert(s[0] is None);
    }
}

/// A list whose entries have no fault has none.
pub proof fn lemma_first_fault_none(s: Seq<Option<ArityFault>>)
    requires
        forall|j: int| 0 <= j < s.len() ==> (#[trigger] s[j]) is None,
    ensures
        first_fault(s) is None,
    decreases s.len(),
{
    if s.len() > 0 {
        let rest = s.subrange(1, s.len() as int);
        assert forall|j: int| 0 <= j < rest.len() implies (#[trigger] rest[j]) is None by {
            assert(rest[j] == s[j + 1]);
        }
        lemma_first_fault_none(rest);
    }
}

/// The first arity fault inside a reference, in reading order.
pub open spec fn reference_fault(t: TreeModel, r: ReferenceModel) -> Option<ArityFault>
    decreases r, 1nat,
{
    match r {
        ReferenceModel::Single(_, a) => reference_fault(t, *a),
        ReferenceModel::Multi(_, args) => references_fault(t, args),
        ReferenceModel::Application(h, args) => match head_arity(t, h) {
            Some(n) => if n != args.len() {
                Some(ArityFault::Mismatch(head_name_seq(h), n, args.len() as int))
            } else {
                references_fault(t, args)
            },
            None => references_fault(t, args),
        },
        _ => None,
    }
}

/// The first arity fault inside a list of references.
pub open spec fn references_fault(t: TreeModel, s: Seq<ReferenceModel>) -> Option<ArityFault>
    decreases s, 0nat,
{
    if s.len() == 0 {
        None
    } else {
        match reference_fault(t, s[0]) {
            Some(f) => Some(f),
            None => references_fault(t, s.subrange(1, s.len() as int)),
        }
    }
}

/// The faults of each reference of a list.
pub open spec fn reference_faults(t: TreeModel, s: Seq<ReferenceModel>) -> Seq<Option<ArityFault>> {
    Seq::new(s.len(), |i: int| reference_fault(t, s[i]))
}

/// The first fault of a list is the first among its members' faults.
pub proof fn lemma_references_fault(t: TreeModel, s: Seq<ReferenceModel>)
    ensures
        references_fault(t, s) == first_fault(reference_faults(t, s)),
    decreases s.len(),
{
    if s.len() > 0 {
        let rest = s.subrange(1, s.len() as int);
        lemma_references_fault(t, rest);
        assert(reference_faults(t, s).subrange(1, s.len() as int) =~= reference_faults(t, rest));
    }
}

/// The fault of one variant of the enum named `enum_name`: an optional
/// payload, then a payload repeating the variant's name, then the payload's
/// arity.
pub open spec fn variant_fault(t: TreeModel, enum_name: Seq<char>, v: VariantModel) -> Option<ArityFault> {
    match v.payload {
        Some(p) => if p matches ReferenceModel::Single(SingleTypeReferenceProjection::Optional, _) {
            Some(ArityFault::OptionalPayload(enum_name, v.name))
        } else if same_named_payload(v) is Some {
            Some(ArityFault::SameNamedPayload(enum_name, v.name, same_named_payload(v)->0))
        } else {
            reference_fault(t, p)
        },
        None => None,
    }
}

/// The first fault among the variants of the enum named `enum_name`.
pub open spec fn variants_fault(t: TreeModel, enum_name: Seq<char>, vs: Seq<VariantModel>) -> Option<ArityFault> {
    first_fault(Seq::new(vs.len(), |i: int| variant_fault(t, enum_name, vs[i])))
}

/// The first fault of a namespace declaration.
pub open spec fn declaration_fault(t: TreeModel, d: TypeDeclarationModel) -> Option<ArityFault> {
    match d {
        TypeDeclarationModel::Struct(_, fields) => first_fault(
            Seq::new(fields.len(), |i: int| reference_fault(t, fields[i].reference)),
        ),
        TypeDeclarationModel::Newtype(_, r) => reference_fault(t, r),
        TypeDeclarationModel::Enum(name, variants) => variants_fault(t, name, variants),
    }
}

/// The first fault of a root.
pub open spec fn root_fault(t: TreeModel, r: RootModel) -> Option<ArityFault> {
    match r {
        RootModel::Enum(name, variants) => variants_fault(t, name, variants),
        RootModel::Application(_, h, args) => reference_fault(t, ReferenceModel::Application(h, args)),
    }
}

/// The first arity fault of the whole: across the namespace in order, then
/// the input root, then the output root.
pub open spec fn tree_arity_fault(t: TreeModel) -> Option<ArityFault> {
    match first_fault(Seq::new(t.namespace.len(), |i: int| declaration_fault(t, t.namespace[i].value))) {
        Some(f) => Some(f),
        None => match root_fault(t, t.input) {
            Some(f) => Some(f),
            None => root_fault(t, t.output),
        },
    }
}

/// Whether every binder-bearing head's binders are distinct.
pub open spec fn parameters_ok(t: TreeModel) -> bool {
    &&& forall|i: int|
        0 <= i < t.namespace.len() ==> distinct_seq(#[trigger] t.namespace[i].parameters)
    &&& forall|i: int|
        0 <= i < t.resolved_imports.len() ==> distinct_seq(
            #[trigger] t.resolved_imports[i].parameters,
        )
}

/// Every binder-bearing head of the whole with its binders, in order: each
/// namespace declaration, then each resolved import.
pub open spec fn binder_heads(t: TreeModel) -> Seq<(Seq<char>, Seq<Seq<char>>)> {
    Seq::new(t.namespace.len(), |i: int| (t.namespace[i].name, t.namespace[i].parameters)) + Seq::new(
        t.resolved_imports.len(),
        |i: int| (t.resolved_imports[i].local_name, t.resolved_imports[i].parameters),
    )
}

/// `k` is the first binder-bearing head whose binders repeat.
pub open spec fn first_binder_fault(t: TreeModel, k: int) -> bool {
    &&& 0 <= k < binder_heads(t).len()
    &&& !distinct_seq(binder_heads(t)[k].1)
    &&& forall|m: int| 0 <= m < k ==> distinct_seq(#[trigger] binder_heads(t)[m].1)
}

/// Every top-level declaration name of the whole, in order: the input root,
/// the output root, each namespace declaration, each resolved import.
pub open spec fn head_names(t: TreeModel) -> Seq<Seq<char>> {
    seq![root_name_seq(t.input), root_name_seq(t.output)] + Seq::new(
        t.namespace.len(),
        |i: int| t.namespace[i].name,
    ) + Seq::new(t.resolved_imports.len(), |i: int| t.resolved_imports[i].local_name)
}

/// Whether no impl target carries the same composition key twice.
pub open spec fn manifest_distinct(m: Seq<(Seq<char>, ImplModel)>) -> bool {
    forall|i: int, j: int|
        0 <= i < j < m.len() ==> !(m[i].0 == m[j].0 && crate::declaration::key_of(m[i].1)
            == crate::declaration::key_of(m[j].1))
}

/// Whether every standalone impl block targets a namespace declaration.
pub open spec fn block_targets_ok(t: TreeModel) -> bool {
    forall|i: int|
        0 <= i < t.impl_blocks.len() ==> declaration_of(t, #[trigger] t.impl_blocks[i].0) is Some
}

impl RootApplication {
    pub fn new(name: Name, head: ApplicationHead, arguments: Vec<TypeReference>) -> (r: Self)
        ensures
            r@ == (name@, head_view(head), references_view(arguments@)),
    {
        RootApplication { name, head, arguments }
    }

    pub fn name(&self) -> (r: &Name)
        ensures
            r@ == self@.0,
    {
        &self.name
    }

    pub fn head(&self) -> (r: &ApplicationHead)
        ensures
            head_view(*r) == self@.1,
    {
        &self.head
    }

    pub fn arguments(&self) -> (r: &Vec<TypeReference>)
        ensures
            references_view(r@) == self@.2,
    {
        &self.arguments
    }

    /// Substitute each frame binder with the corresponding argument throughout
    /// the frame's variant payloads.
    pub fn expand_with(&self, frame_parameters: &[Name], frame_variants: &Vec<EnumVariant>) -> (r:
        Vec<EnumVariant>)
        requires
            binders_bound(names_view(frame_parameters@), self@.2, variants_view(frame_variants@)),
        ensures
            variants_view(r@) == expanded_variants(
                names_view(frame_parameters@),
                self@.2,
                variants_view(frame_variants@),
            ),
    {
        let mut out: Vec<EnumVariant> = Vec::new();
        let mut i: usize = 0;
        let ghost target = expanded_variants(
            names_view(frame_parameters@),
            self@.2,
            variants_view(frame_variants@),
        );
        while i < frame_variants.len()
            invariant
                i <= frame_variants@.len(),
                binders_bound(names_view(frame_parameters@), self@.2, variants_view(frame_variants@)),
                target == expanded_variants(
                    names_view(frame_parameters@),
                    self@.2,
                    variants_view(frame_variants@),
                ),
                out@.len() == i,
                forall|j: int| 0 <= j < i ==> variant_view(#[trigger] out@[j]) == target[j],
            decreases frame_variants.len() - i,
        {
            let variant = &frame_variants[i];
            assert(variants_view(frame_variants@)[i as int] == variant_view(*variant));
            let payload = match &variant.payload {
                Some(p) => Some(self.substitute_binder(frame_parameters, p)),
                None => None,
            };
            out.push(EnumVariant { name: variant.name.clone(), payload });
            i += 1;
        }
        assert(variants_view(out@) =~= target);
        out
    }

    /// Replace a frame binder reference with its argument; any other
    /// reference is unchanged.
    fn substitute_binder(&self, frame_parameters: &[Name], payload: &TypeReference) -> (r:
        TypeReference)
        requires
            binder_bound(names_view(frame_parameters@), self@.2, reference_view(*payload)),
        ensures
            reference_view(r) == substituted(
                names_view(frame_parameters@),
                self@.2,
                reference_view(*payload),
            ),
    {
        let name = match payload {
            TypeReference::Plain(name) => name,
            _ => return payload.deep_clone(),
        };
        let ghost p = name_is(name@);
        let mut i: usize = 0;
        while i < frame_parameters.len()
            invariant
                i <= frame_parameters@.len(),
                binder_bound(names_view(frame_parameters@), self@.2, reference_view(*payload)),
                self@.2.len() == self.arguments@.len(),
                reference_view(*payload) == ReferenceModel::Plain(name@),
                p == name_is(name@),
                first_index(names_view(frame_parameters@).take(i as int), p) is None,
            decreases frame_parameters.len() - i,
        {
            proof {
                lemma_first_index_step(names_view(frame_parameters@), p, i as int);
            }
            if frame_parameters[i].same(name) {
                proof {
                    lemma_first_index_found(names_view(frame_parameters@), p, i as int);
                    assert(references_view(self.arguments@)[i as int] == reference_view(
                        self.arguments@[i as int],
                    ));
                }
                return self.arguments[i].deep_clone();
            }
            i += 1;
        }
        proof {
            lemma_first_index_absent(names_view(frame_parameters@), p);
        }
        payload.deep_clone()
    }
}

impl Root {
    /// An application root.
    pub fn application(application: RootApplication) -> (r: Self)
        ensures
            r@ == RootModel::Application(application@.0, application@.1, application@.2),
    {
        Root::Application(Box::new(application))
    }

    /// The root's identity name.
    pub fn name(&self) -> (r: &Name)
        ensures
            r@ == root_name_seq(self@),
    {
        match self {
            Self::Enum(d) => &d.name,
            Self::Application(a) => a.name(),
        }
    }

    pub fn as_enum(&self) -> (r: Option<&EnumDeclaration>)
        ensures
            match r {
                Some(e) => self@ == RootModel::Enum(e.name@, variants_view(e.variants@)),
                None => self@ is Application,
            },
    {
        match self {
            Self::Enum(d) => Some(d),
            Self::Application(_) => None,
        }
    }

    pub fn as_application(&self) -> (r: Option<&RootApplication>)
        ensures
            match r {
                Some(a) => self@ == RootModel::Application(a@.0, a@.1, a@.2),
                None => self@ is Enum,
            },
    {
        match self {
            Self::Application(a) => Some(a),
            Self::Enum(_) => None,
        }
    }
}


impl SchemaTree {
    pub fn new(
        identity: SchemaIdentity,
        imports: Vec<ImportDeclaration>,
        resolved_imports: Vec<ResolvedImport>,
        input: Root,
        output: Root,
        namespace: Vec<Declaration>,
    ) -> (r: Self)
        ensures
            r@ == (TreeModel {
                component: identity.component_view(),
                version: identity.version_view(),
                imports: import_declarations_model(imports@),
                resolved_imports: imports_model(resolved_imports@),
                input: input@,
                output: output@,
                namespace: declarations_model(namespace@),
                impl_blocks: Seq::empty(),
            }),
            r.imports_view() == imports@,
            r.version_view() == identity.version_view(),
    {
        let r = SchemaTree {
            identity,
            imports,
            resolved_imports,
            input,
            output,
            namespace,
            impl_blocks: Vec::new(),
        };
        assert(blocks_model(r.impl_blocks@) =~= Seq::<(Seq<char>, Seq<ImplModel>)>::empty());
        r
    }

    /// Attach the standalone impl blocks.
    pub fn with_impl_blocks(self, impl_blocks: Vec<ImplBlock>) -> (r: Self)
        ensures
            r@ == (TreeModel { impl_blocks: blocks_model(impl_blocks@), ..self@ }),
            r.imports_view() == self.imports_view(),
            r.version_view() == self.version_view(),
    {
        SchemaTree { impl_blocks, ..self }
    }

    pub fn identity(&self) -> (r: &SchemaIdentity)
        ensures
            r.component_view() == self@.component,
            r.version_view() == self@.version,
    {
        &self.identity
    }

    pub fn imports(&self) -> (r: &[ImportDeclaration])
        ensures
            r@ == self.imports_view(),
    {
        self.imports.as_slice()
    }

    pub closed spec fn imports_view(&self) -> Seq<ImportDeclaration> {
        self.imports@
    }

    /// The version of the schema's identity.
    pub closed spec fn version_view(&self) -> Seq<char> {
        self.identity.version_view()
    }

    pub fn resolved_imports(&self) -> (r: &[ResolvedImport])
        ensures
            imports_model(r@) == self@.resolved_imports,
    {
        self.resolved_imports.as_slice()
    }

    pub fn input(&self) -> (r: &Root)
        ensures
            r@ == self@.input,
    {
        &self.input
    }

    pub fn output(&self) -> (r: &Root)
        ensures
            r@ == self@.output,
    {
        &self.output
    }

    pub fn input_and_output(&self) -> (r: [&Root; 2])
        ensures
            r[0]@ == self@.input,
            r[1]@ == self@.output,
    {
        [&self.input, &self.output]
    }

    pub fn namespace(&self) -> (r: &[Declaration])
        ensures
            declarations_model(r@) == self@.namespace,
    {
        self.namespace.as_slice()
    }

    pub fn impl_blocks(&self) -> (r: &[ImplBlock])
        ensures
            blocks_model(r@) == self@.impl_blocks,
    {
        self.impl_blocks.as_slice()
    }

    /// The root carrying the given position name: the input, then the output.
    pub fn root_named(&self, name: &str) -> (r: Option<&Root>)
        ensures
            match r {
                Some(root) => root_of(self@, name@) == Some(root@),
                None => root_of(self@, name@) is None,
            },
    {
        if self.input.name().is(name) {
            Some(&self.input)
        } else if self.output.name().is(name) {
            Some(&self.output)
        } else {
            None
        }
    }

    /// The enum body of the root carrying the given position name.
    pub fn root_enum_named(&self, name: &str) -> (r: Option<&EnumDeclaration>)
        ensures
            match r {
                Some(e) => root_of(self@, name@) == Some(
                    RootModel::Enum(e.name@, variants_view(e.variants@)),
                ),
                None => !(root_of(self@, name@) matches Some(RootModel::Enum(_, _))),
            },
    {
        match self.root_named(name) {
            Some(root) => root.as_enum(),
            None => None,
        }
    }

    /// The namespace declaration named `name`.
    pub fn namespace_declaration_named(&self, name: &str) -> (r: Option<&Declaration>)
        ensures
            match r {
                Some(d) => declaration_of(self@, name@) == Some(d@),
                None => declaration_of(self@, name@) is None,
            },
    {
        let ghost p = declaration_named(name@);
        let ghost ns = self@.namespace;
        let mut i: usize = 0;
        while i < self.namespace.len()
            invariant
                i <= self.namespace@.len(),
                ns == declarations_model(self.namespace@),
                ns == self@.namespace,
                p == declaration_named(name@),
                first_index(ns.take(i as int), p) is None,
            decreases self.namespace.len() - i,
        {
            proof {
                lemma_first_index_step(ns, p, i as int);
            }
            if self.namespace[i].name().is(name) {
                proof {
                    lemma_first_index_found(ns, p, i as int);
                }
                return Some(&self.namespace[i]);
            }
            i += 1;
        }
        proof {
            lemma_first_index_absent(ns, p);
        }
        None
    }

    /// The body of the namespace declaration named `name`.
    pub fn type_named(&self, name: &str) -> (r: Option<&TypeDeclaration>)
        ensures
            match r {
                Some(t) => declaration_of(self@, name@) matches Some(d) && d.value == type_model(*t),
                None => declaration_of(self@, name@) is None,
            },
    {
        match self.namespace_declaration_named(name) {
            Some(d) => Some(d.value()),
            None => None,
        }
    }

    /// A namespace declaration's body, or else a root enum, named `name`.
    pub fn declared_type_named(&self, name: &str) -> (r: Option<SchemaDeclaredType<'_>>)
        ensures
            match r {
                Some(SchemaDeclaredType::Namespace(t)) => declaration_of(self@, name@) matches Some(d)
                    && d.value == type_model(*t),
                Some(SchemaDeclaredType::Root(e)) => declaration_of(self@, name@) is None
                    && root_of(self@, name@) == Some(
                    RootModel::Enum(e.name@, variants_view(e.variants@)),
                ),
                None => declaration_of(self@, name@) is None && !(root_of(self@, name@) matches Some(
                    RootModel::Enum(_, _),
                )),
            },
    {
        match self.type_named(name) {
            Some(t) => Some(SchemaDeclaredType::Namespace(t)),
            None => match self.root_enum_named(name) {
                Some(e) => Some(SchemaDeclaredType::Root(e)),
                None => None,
            },
        }
    }

    /// The declared generic arity of a namespace declaration.
    pub fn declared_parameter_count(&self, name: &str) -> (r: Option<usize>)
        ensures
            match r {
                Some(n) => declaration_of(self@, name@) matches Some(d) && n == d.parameters.len(),
                None => declaration_of(self@, name@) is None,
            },
    {
        match self.namespace_declaration_named(name) {
            Some(d) => Some(d.parameters().len()),
            None => None,
        }
    }

    /// The binders and variants of a namespace enum named `name`.
    pub fn declared_frame_body(&self, name: &str) -> (r: Option<(&[Name], &Vec<EnumVariant>)>)
        ensures
            match r {
                Some((params, variants)) => declaration_of(self@, name@) matches Some(d)
                    && d.parameters == names_view(params@) && (d.value matches TypeDeclarationModel::Enum(
                    _,
                    vs,
                ) && vs == variants_view(variants@)),
                None => !(declaration_of(self@, name@) matches Some(d) && d.value is Enum),
            },
    {
        let declaration = match self.namespace_declaration_named(name) {
            Some(d) => d,
            None => return None,
        };
        match declaration.value() {
            TypeDeclaration::Enum(body) => Some((declaration.parameters(), &body.variants)),
            _ => None,
        }
    }

    /// The frame carried on the first resolved import aliased `name`, when it
    /// carries variants.
    fn imported_frame_body(&self, name: &Name) -> (r: Option<(&[Name], &Vec<EnumVariant>)>)
        ensures
            match r {
                Some((params, variants)) => imported_frame_of(self@, name@) == Some(
                    (names_view(params@), variants_view(variants@)),
                ),
                None => imported_frame_of(self@, name@) is None,
            },
    {
        let ghost p = import_named(name@);
        let ghost is = self@.resolved_imports;
        let mut i: usize = 0;
        while i < self.resolved_imports.len()
            invariant
                i <= self.resolved_imports@.len(),
                is == imports_model(self.resolved_imports@),
                is == self@.resolved_imports,
                p == import_named(name@),
                first_index(is.take(i as int), p) is None,
            decreases self.resolved_imports.len() - i,
        {
            proof {
                lemma_first_index_step(is, p, i as int);
            }
            let import = &self.resolved_imports[i];
            if import.local_name().same(name) {
                proof {
                    lemma_first_index_found(is, p, i as int);
                }
                if import.variants().len() == 0 {
                    return None;
                }
                return Some((import.parameters(), import.variants()));
            }
            i += 1;
        }
        proof {
            lemma_first_index_absent(is, p);
        }
        None
    }

    /// The binders and variants of the frame an application head names.
    fn frame_body_for_head<'head>(&'head self, head: &'head ApplicationHead) -> (r: Option<
        (&'head [Name], &'head Vec<EnumVariant>),
    >)
        ensures
            match r {
                Some((params, variants)) => frame_of(self@, head_view(*head)) == Some(
                    (names_view(params@), variants_view(variants@)),
                ),
                None => frame_of(self@, head_view(*head)) is None,
            },
    {
        match head {
            ApplicationHead::Local(name) => match self.declared_frame_body(name.as_str()) {
                Some(frame) => Some(frame),
                None => self.imported_frame_body(name),
            },
            ApplicationHead::Imported(import) => Some((import.parameters(), import.variants())),
        }
    }

    /// Monomorphize an application root into the concrete enum it denotes,
    /// re-aiming any argument that reproduces a sibling application root.
    pub fn expand_application_root(&self, application: &RootApplication) -> (r: Option<
        EnumDeclaration,
    >)
        requires
            frame_fits(self@, application@.1, application@.2),
        ensures
            match r {
                Some(e) => expansion_of(self@, application@.0, application@.1, application@.2)
                    == Some((e.name@, variants_view(e.variants@))),
                None => expansion_of(self@, application@.0, application@.1, application@.2) is None,
            },
    {
        let (parameters, variants) = match self.frame_body_for_head(application.head()) {
            Some(frame) => frame,
            None => return None,
        };
        let expanded = application.expand_with(parameters, variants);
        let ghost expansion = expansion_of(self@, application@.0, application@.1, application@.2)->Some_0;
        let ghost target = expansion.1;
        let mut out: Vec<EnumVariant> = Vec::new();
        let mut i: usize = 0;
        while i < expanded.len()
            invariant
                i <= expanded@.len(),
                target.len() == expanded@.len(),
                target == Seq::new(
                    variants_view(expanded@).len(),
                    |k: int|
                        VariantModel {
                            name: variants_view(expanded@)[k].name,
                            payload: match variants_view(expanded@)[k].payload {
                                Some(p) => Some(reaimed(self@, p)),
                                None => None,
                            },
                        },
                ),
                out@.len() == i,
                forall|j: int| 0 <= j < i ==> variant_view(#[trigger] out@[j]) == target[j],
            decreases expanded.len() - i,
        {
            let variant = &expanded[i];
            let payload = match &variant.payload {
                Some(p) => Some(self.reaim_sibling_application(p)),
                None => None,
            };
            out.push(EnumVariant { name: variant.name.clone(), payload });
            i += 1;
        }
        assert(variants_view(out@) =~= target);
        Some(EnumDeclaration { name: application.name().clone(), variants: out })
    }

    /// Rewrite a payload that reproduces a sibling application root into a
    /// plain reference to that root by name.
    fn reaim_sibling_application(&self, payload: &TypeReference) -> (r: TypeReference)
        ensures
            reference_view(r) == reaimed(self@, reference_view(*payload)),
    {
        let (head, arguments) = match payload {
            TypeReference::Application { head, arguments } => (head, arguments),
            _ => return payload.deep_clone(),
        };
        proof {
            crate::reference::lemma_app_args(*payload);
        }
        if let Some(sibling) = self.input.as_application() {
            if sibling.head().same(head) && crate::reference::same_references(
                sibling.arguments(),
                arguments,
            ) {
                return TypeReference::Plain(sibling.name().clone());
            }
        }
        if let Some(sibling) = self.output.as_application() {
            if sibling.head().same(head) && crate::reference::same_references(
                sibling.arguments(),
                arguments,
            ) {
                return TypeReference::Plain(sibling.name().clone());
            }
        }
        payload.deep_clone()
    }
}


/// The site label each top-level declaration of the whole is reported by, in
/// the order of `head_names`.
pub open spec fn head_sites(t: TreeModel) -> Seq<Seq<char>> {
    seq!["the input root"@, "the output root"@] + Seq::new(
        t.namespace.len(),
        |i: int| "a namespace declaration"@,
    ) + Seq::new(t.resolved_imports.len(), |i: int| "a resolved import"@)
}

/// Whether the first `j` entries of `s` are pairwise distinct.
pub open spec fn distinct_prefix(s: Seq<Seq<char>>, j: int) -> bool {
    forall|a: int, b: int| 0 <= a < b < j ==> s[a] != s[b]
}

/// `j` is the first position repeating an earlier entry, and `i` is the first
/// occurrence of that entry.
pub open spec fn first_repeat_at(s: Seq<Seq<char>>, i: int, j: int) -> bool {
    &&& 0 <= i < j < s.len()
    &&& s[i] == s[j]
    &&& distinct_prefix(s, j)
}

impl SchemaTree {
    /// The generic arity an application head fixes in this schema.
    fn declared_head_arity(&self, head: &ApplicationHead) -> (r: Option<usize>)
        ensures
            match r {
                Some(n) => head_arity(self@, head_view(*head)) == Some(n as int),
                None => head_arity(self@, head_view(*head)) is None,
            },
    {
        match head {
            ApplicationHead::Local(name) => match self.namespace_declaration_named(name.as_str()) {
                Some(declaration) => Some(declaration.parameters().len()),
                None => None,
            },
            ApplicationHead::Imported(import) => import.parameter_count(),
        }
    }

    /// Check an application `(head arguments…)`: the head's declared arity,
    /// then each argument in turn.
    fn verify_application_arities(&self, head: &ApplicationHead, arguments: &Vec<TypeReference>) -> (r:
        Result<(), SchemaError>)
        ensures
            r is Ok <==> reference_arity_ok(
                self@,
                ReferenceModel::Application(head_view(*head), references_view(arguments@)),
            ),
            r is Ok ==> reference_fault(
                self@,
                ReferenceModel::Application(head_view(*head), references_view(arguments@)),
            ) is None,
            r matches Err(e) ==> reference_fault(
                self@,
                ReferenceModel::Application(head_view(*head), references_view(arguments@)),
            ) matches Some(f) && arity_error(e, f),
        decreases arguments, 1nat,
    {
        if let Some(expected) = self.declared_head_arity(head) {
            if expected != arguments.len() {
                return Err(
                    SchemaError::GenericArityMismatch {
                        head: crate::text::owned(head.name().as_str()),
                        expected,
                        found: arguments.len(),
                    },
                );
            }
        }
        self.verify_arguments_arities(arguments)
    }

    /// Check every reference of a list.
    fn verify_arguments_arities(&self, arguments: &Vec<TypeReference>) -> (r: Result<(), SchemaError>)
        ensures
            r is Ok <==> references_arity_ok(self@, references_view(arguments@)),
            r is Ok ==> references_fault(self@, references_view(arguments@)) is None,
            r matches Err(e) ==> references_fault(self@, references_view(arguments@)) matches Some(f) && arity_error(
                e,
                f,
            ),
        decreases arguments, 0nat,
    {
        let ghost v = references_view(arguments@);
        let ghost fs = reference_faults(self@, v);
        proof {
            lemma_references_arity_ok(self@, v);
            lemma_references_fault(self@, v);
        }
        let mut i: usize = 0;
        while i < arguments.len()
            invariant
                i <= arguments@.len(),
                v == references_view(arguments@),
                fs == reference_faults(self@, v),
                references_fault(self@, v) == first_fault(fs),
                forall|j: int| 0 <= j < i ==> reference_arity_ok(self@, #[trigger] v[j]),
                forall|j: int| 0 <= j < i ==> (#[trigger] fs[j]) is None,
            decreases arguments.len() - i,
        {
            proof {
                assert(decreases_to!(*arguments => arguments@));
                assert(decreases_to!(arguments@ => arguments@[i as int]));
            }
            assert(v[i as int] == reference_view(arguments@[i as int]));
            let checked = self.verify_reference_arities(&arguments[i]);
            if checked.is_err() {
                assert(!reference_arity_ok(self@, v[i as int]));
                proof {
                    lemma_references_arity_ok(self@, v);
                    assert(fs[i as int] == reference_fault(self@, v[i as int]));
                    lemma_first_fault_at(fs, i as int);
                }
                return checked;
            }
            assert(fs[i as int] == reference_fault(self@, v[i as int]));
            i += 1;
        }
        proof {
            lemma_first_fault_none(fs);
        }
        Ok(())
    }

    /// Check that every application inside `reference` supplies its head's
    /// declared arity.
    fn verify_reference_arities(&self, reference: &TypeReference) -> (r: Result<(), SchemaError>)
        ensures
            r is Ok <==> reference_arity_ok(self@, reference_view(*reference)),
            r is Ok ==> reference_fault(self@, reference_view(*reference)) is None,
            r matches Err(e) ==> reference_fault(self@, reference_view(*reference)) matches Some(f) && arity_error(
                e,
                f,
            ),
        decreases reference, 2nat,
    {
        match reference {
            TypeReference::SingleTypeApplication { argument, .. } => {
                let inner: &TypeReference = argument;
                self.verify_reference_arities(inner)
            },
            TypeReference::MultiTypeApplication { projection, arguments } => {
                proof {
                    crate::reference::lemma_multi_args(*reference);
                }
                self.verify_arguments_arities(arguments)
            },
            TypeReference::Application { head, arguments } => {
                proof {
                    crate::reference::lemma_app_args(*reference);
                }
                self.verify_application_arities(head, arguments)
            },
            _ => Ok(()),
        }
    }

    /// Check every variant payload of an enum body: no optional payload, no
    /// payload that repeats the variant's own name, and arity-correct.
    fn verify_enum_arities(&self, declaration: &EnumDeclaration) -> (r: Result<(), SchemaError>)
        ensures
            r is Ok <==> enum_ok(self@, variants_view(declaration.variants@)),
            r is Ok ==> variants_fault(self@, declaration.name@, variants_view(declaration.variants@)) is None,
            r matches Err(e) ==> variants_fault(self@, declaration.name@, variants_view(declaration.variants@)) matches Some(
                f,
            ) && arity_error(e, f),
    {
        let ghost vs = variants_view(declaration.variants@);
        let ghost fs = Seq::new(vs.len(), |j: int| variant_fault(self@, declaration.name@, vs[j]));
        let mut i: usize = 0;
        while i < declaration.variants.len()
            invariant
                i <= declaration.variants@.len(),
                vs == variants_view(declaration.variants@),
                fs == Seq::new(vs.len(), |j: int| variant_fault(self@, declaration.name@, vs[j])),
                forall|j: int| 0 <= j < i ==> variant_ok(self@, #[trigger] vs[j]),
                forall|j: int| 0 <= j < i ==> (#[trigger] fs[j]) is None,
            decreases declaration.variants.len() - i,
        {
            let variant = &declaration.variants[i];
            assert(vs[i as int] == variant_view(*variant));
            assert(fs[i as int] == variant_fault(self@, declaration.name@, vs[i as int]));
            if let Some(payload) = &variant.payload {
                if let TypeReference::SingleTypeApplication {
                    projection: SingleTypeReferenceProjection::Optional,
                    ..
                } = payload {
                    proof {
                        lemma_first_fault_at(fs, i as int);
                    }
                    return Err(
                        SchemaError::OptionalVariantPayload {
                            enum_name: crate::text::owned(declaration.name.as_str()),
                            variant_name: crate::text::owned(variant.name.as_str()),
                        },
                    );
                }
                if let Some(payload_type) = variant.same_named_direct_payload_type() {
                    proof {
                        lemma_first_fault_at(fs, i as int);
                    }
                    return Err(
                        SchemaError::SameNamedVariantPayload {
                            enum_name: crate::text::owned(declaration.name.as_str()),
                            variant_name: crate::text::owned(variant.name.as_str()),
                            payload_type: crate::text::owned(payload_type),
                        },
                    );
                }
                let checked = self.verify_reference_arities(payload);
                if checked.is_err() {
                    proof {
                        lemma_first_fault_at(fs, i as int);
                    }
                    return checked;
                }
            }
            i += 1;
        }
        proof {
            lemma_first_fault_none(fs);
        }
        Ok(())
    }

    fn verify_declaration_arities(&self, declaration: &TypeDeclaration) -> (r: Result<(), SchemaError>)
        ensures
            r is Ok <==> declaration_arity_ok(self@, type_model(*declaration)),
            r is Ok ==> declaration_fault(self@, type_model(*declaration)) is None,
            r matches Err(e) ==> declaration_fault(self@, type_model(*declaration)) matches Some(f) && arity_error(e, f),
    {
        match declaration {
            TypeDeclaration::Struct(body) => {
                assert(type_model(*declaration) == TypeDeclarationModel::Struct(body.name@, body.fields@));
                let fields = body.fields.entries();
                let ghost fs = Seq::new(body.fields@.len(), |j: int| reference_fault(self@, body.fields@[j].reference));
                let mut i: usize = 0;
                while i < fields.len()
                    invariant
                        i <= fields@.len(),
                        type_model(*declaration) == TypeDeclarationModel::Struct(body.name@, body.fields@),
                        crate::declaration::fields_model(fields@) == body.fields@,
                        fs == Seq::new(body.fields@.len(), |j: int| reference_fault(self@, body.fields@[j].reference)),
                        forall|j: int|
                            0 <= j < i ==> reference_arity_ok(self@, #[trigger] body.fields@[j].reference),
                        forall|j: int| 0 <= j < i ==> (#[trigger] fs[j]) is None,
                    decreases fields.len() - i,
                {
                    assert(body.fields@[i as int].reference == reference_view(fields@[i as int].reference));
                    assert(fs[i as int] == reference_fault(self@, body.fields@[i as int].reference));
                    let checked = self.verify_reference_arities(&fields[i].reference);
                    if checked.is_err() {
                        assert(!reference_arity_ok(self@, body.fields@[i as int].reference));
                        proof {
                            lemma_first_fault_at(fs, i as int);
                        }
                        return checked;
                    }
                    i += 1;
                }
                proof {
                    lemma_first_fault_none(fs);
                }
                Ok(())
            },
            TypeDeclaration::Newtype(body) => self.verify_reference_arities(&body.reference),
            TypeDeclaration::Enum(body) => self.verify_enum_arities(body),
        }
    }

    fn verify_root_arities(&self, root: &Root) -> (r: Result<(), SchemaError>)
        ensures
            r is Ok <==> root_arity_ok(self@, root@),
            r is Ok ==> root_fault(self@, root@) is None,
            r matches Err(e) ==> root_fault(self@, root@) matches Some(f) && arity_error(e, f),
    {
        match root {
            Root::Enum(declaration) => self.verify_enum_arities(declaration),
            Root::Application(application) => self.verify_application_arities(
                &application.head,
                &application.arguments,
            ),
        }
    }

    /// Confirm that every application whose head is a declared parameterized
    /// type supplies exactly that head's arity, and that every enum variant
    /// payload is legal, across the namespace and both roots.
    pub fn arities_verified(self) -> (r: Result<Self, SchemaError>)
        ensures
            r is Ok <==> arities_ok(self@),
            r matches Ok(t) ==> t@ == self@,
            r matches Err(e) ==> tree_arity_fault(self@) matches Some(f) && arity_error(e, f),
    {
        let ghost t = self@;
        let ghost fs = Seq::new(t.namespace.len(), |j: int| declaration_fault(t, t.namespace[j].value));
        let mut i: usize = 0;
        while i < self.namespace.len()
            invariant
                t == self@,
                i <= self.namespace@.len(),
                t.namespace == declarations_model(self.namespace@),
                fs == Seq::new(t.namespace.len(), |j: int| declaration_fault(t, t.namespace[j].value)),
                forall|j: int|
                    0 <= j < i ==> declaration_arity_ok(t, #[trigger] t.namespace[j].value),
                forall|j: int| 0 <= j < i ==> (#[trigger] fs[j]) is None,
            decreases self.namespace.len() - i,
        {
            let checked = self.verify_declaration_arities(self.namespace[i].value());
            assert(fs[i as int] == declaration_fault(t, t.namespace[i as int].value));
            if let Err(e) = checked {
                assert(!declaration_arity_ok(t, t.namespace[i as int].value));
                proof {
                    lemma_first_fault_at(fs, i as int);
                }
                return Err(e);
            }
            i += 1;
        }
        proof {
            lemma_first_fault_none(fs);
        }
        if let Err(e) = self.verify_root_arities(&self.input) {
            return Err(e);
        }
        if let Err(e) = self.verify_root_arities(&self.output) {
            return Err(e);
        }
        Ok(self)
    }

    /// Confirm that no declaration head, native or imported, repeats a binder.
    pub fn parameters_verified(&self) -> (r: Result<(), SchemaError>)
        ensures
            r is Ok <==> parameters_ok(self@),
            r matches Err(e) ==> exists|k: int|
                first_binder_fault(self@, k) && duplicate_binder_error(
                    e,
                    #[trigger] binder_heads(self@)[k].0,
                    binder_heads(self@)[k].1,
                ),
    {
        let ghost t = self@;
        let mut i: usize = 0;
        while i < self.namespace.len()
            invariant
                t == self@,
                i <= self.namespace@.len(),
                t.namespace == declarations_model(self.namespace@),
                forall|j: int| 0 <= j < i ==> distinct_seq(#[trigger] t.namespace[j].parameters),
            decreases self.namespace.len() - i,
        {
            let checked = self.namespace[i].verify_distinct_binders();
            if let Err(e) = checked {
                assert(!distinct_seq(t.namespace[i as int].parameters));
                let ghost hs = binder_heads(t);
                assert(hs[i as int] == (t.namespace[i as int].name, t.namespace[i as int].parameters));
                assert forall|m: int| 0 <= m < i implies distinct_seq(#[trigger] hs[m].1) by {
                    assert(hs[m].1 == t.namespace[m].parameters);
                }
                assert(first_binder_fault(t, i as int));
                assert(duplicate_binder_error(e, hs[i as int].0, hs[i as int].1));
                return Err(e);
            }
            i += 1;
        }
        let mut k: usize = 0;
        while k < self.resolved_imports.len()
            invariant
                t == self@,
                k <= self.resolved_imports@.len(),
                t.resolved_imports == imports_model(self.resolved_imports@),
                forall|j: int| 0 <= j < t.namespace.len() ==> distinct_seq(#[trigger] t.namespace[j].parameters),
                forall|j: int|
                    0 <= j < k ==> distinct_seq(#[trigger] t.resolved_imports[j].parameters),
            decreases self.resolved_imports.len() - k,
        {
            let import = &self.resolved_imports[k];
            let checked = verify_distinct_binders(import.local_name(), import.parameters());
            if let Err(e) = checked {
                assert(!distinct_seq(t.resolved_imports[k as int].parameters));
                let ghost hs = binder_heads(t);
                let ghost n = t.namespace.len() as int;
                assert(hs[n + k] == (t.resolved_imports[k as int].local_name, t.resolved_imports[k as int].parameters));
                assert forall|m: int| 0 <= m < n + k implies distinct_seq(#[trigger] hs[m].1) by {
                    if m < n {
                        assert(hs[m].1 == t.namespace[m].parameters);
                    } else {
                        assert(hs[m].1 == t.resolved_imports[m - n].parameters);
                    }
                }
                assert(first_binder_fault(t, n + k));
                assert(duplicate_binder_error(e, hs[n + k].0, hs[n + k].1));
                return Err(e);
            }
            k += 1;
        }
        Ok(())
    }
}


impl SchemaTree {
    /// Every position introducing a top-level declaration of the whole, paired
    /// with the site label the duplicate error reports it by.
    fn declaration_heads(&self) -> (r: (Vec<Name>, Vec<&'static str>))
        ensures
            r.0@.len() == head_names(self@).len(),
            r.1@.len() == head_names(self@).len(),
            forall|i: int| 0 <= i < r.0@.len() ==> (#[trigger] r.0@[i])@ == head_names(self@)[i],
            forall|i: int| 0 <= i < r.1@.len() ==> (#[trigger] r.1@[i])@ == head_sites(self@)[i],
    {
        let ghost t = self@;
        let ghost hs = head_names(t);
        let ghost ss = head_sites(t);
        let mut names: Vec<Name> = Vec::new();
        let mut sites: Vec<&'static str> = Vec::new();
        names.push(self.input.name().clone());
        sites.push("the input root");
        names.push(self.output.name().clone());
        sites.push("the output root");
        let mut i: usize = 0;
        while i < self.namespace.len()
            invariant
                t == self@,
                hs == head_names(t),
                ss == head_sites(t),
                i <= self.namespace@.len(),
                t.namespace == declarations_model(self.namespace@),
                names@.len() == 2 + i,
                sites@.len() == 2 + i,
                forall|k: int| 0 <= k < names@.len() ==> (#[trigger] names@[k])@ == hs[k],
                forall|k: int| 0 <= k < sites@.len() ==> (#[trigger] sites@[k])@ == ss[k],
            decreases self.namespace.len() - i,
        {
            names.push(self.namespace[i].name().clone());
            sites.push("a namespace declaration");
            i += 1;
        }
        let mut k: usize = 0;
        while k < self.resolved_imports.len()
            invariant
                t == self@,
                hs == head_names(t),
                ss == head_sites(t),
                k <= self.resolved_imports@.len(),
                t.resolved_imports == imports_model(self.resolved_imports@),
                names@.len() == 2 + t.namespace.len() + k,
                sites@.len() == 2 + t.namespace.len() + k,
                forall|j: int| 0 <= j < names@.len() ==> (#[trigger] names@[j])@ == hs[j],
                forall|j: int| 0 <= j < sites@.len() ==> (#[trigger] sites@[j])@ == ss[j],
            decreases self.resolved_imports.len() - k,
        {
            names.push(self.resolved_imports[k].local_name().clone());
            sites.push("a resolved import");
            k += 1;
        }
        (names, sites)
    }

    /// Confirm that the loaded whole is one namespace: no two top-level
    /// declarations (the roots, the namespace, the resolved imports) share a
    /// name. The first repeated name is reported with the sites of its first
    /// and its second occurrence.
    pub fn declaration_names_unique(&self) -> (r: Result<(), SchemaError>)
        ensures
            r is Ok <==> distinct_seq(head_names(self@)),
            r matches Err(e) ==> exists|i: int, j: int|
                #![trigger head_names(self@)[i], head_names(self@)[j]]
                first_repeat_at(head_names(self@), i, j) && (e matches SchemaError::DuplicateDeclaration {
                    name,
                    first_site,
                    second_site,
                } && name@ == head_names(self@)[j] && first_site@ == head_sites(self@)[i]
                    && second_site@ == head_sites(self@)[j]),
    {
        let ghost hs = head_names(self@);
        let heads = self.declaration_heads();
        let names = heads.0;
        let sites = heads.1;
        let mut j: usize = 0;
        while j < names.len()
            invariant
                hs == head_names(self@),
                names@.len() == hs.len(),
                sites@.len() == hs.len(),
                forall|a: int| 0 <= a < names@.len() ==> (#[trigger] names@[a])@ == hs[a],
                forall|a: int| 0 <= a < sites@.len() ==> (#[trigger] sites@[a])@ == head_sites(self@)[a],
                j <= names@.len(),
                distinct_prefix(hs, j as int),
            decreases names.len() - j,
        {
            let mut i: usize = 0;
            while i < j
                invariant
                    hs == head_names(self@),
                    names@.len() == hs.len(),
                    sites@.len() == hs.len(),
                    forall|a: int| 0 <= a < names@.len() ==> (#[trigger] names@[a])@ == hs[a],
                    forall|a: int| 0 <= a < sites@.len() ==> (#[trigger] sites@[a])@ == head_sites(self@)[a],
                    j < names@.len(),
                    i <= j,
                    distinct_prefix(hs, j as int),
                    forall|a: int| 0 <= a < i ==> hs[a] != hs[j as int],
                decreases j - i,
            {
                assert(names@[i as int]@ == hs[i as int] && names@[j as int]@ == hs[j as int]);
                if names[i].same(&names[j]) {
                    let e = SchemaError::DuplicateDeclaration {
                        name: crate::text::owned(names[j].as_str()),
                        first_site: crate::text::owned(sites[i]),
                        second_site: crate::text::owned(sites[j]),
                    };
                    assert(first_repeat_at(hs, i as int, j as int));
                    return Err(e);
                }
                i += 1;
            }
            j += 1;
        }
        Ok(())
    }
}


/// The targets and entries of a list of referenced impls.
pub open spec fn referenced_model(s: Seq<ReferencedImpl>) -> Seq<(Seq<char>, ImplModel)> {
    Seq::new(s.len(), |i: int| s[i].model())
}

/// `i` is the first standalone impl block whose target is not a namespace
/// declaration.
pub open spec fn first_unresolved_block(t: TreeModel, i: int) -> bool {
    &&& 0 <= i < t.impl_blocks.len()
    &&& declaration_of(t, t.impl_blocks[i].0) is None
    &&& forall|j: int| 0 <= j < i ==> declaration_of(t, #[trigger] t.impl_blocks[j].0) is Some
}

/// `j` is the first manifest entry whose target already carries its
/// composition key.
pub open spec fn first_impl_repeat(m: Seq<(Seq<char>, ImplModel)>, j: int) -> bool {
    &&& 0 <= j < m.len()
    &&& exists|i: int|
        0 <= i < j && #[trigger] m[i].0 == m[j].0 && crate::declaration::key_of(m[i].1)
            == crate::declaration::key_of(m[j].1)
    &&& manifest_distinct(m.take(j))
}

impl SchemaTree {
    /// The enumerable impl manifest: every referenced impl entry, each paired
    /// with the type it targets; the fused catalogs of the namespace
    /// declarations first, then the standalone impl blocks.
    pub fn referenced_impls(&self) -> (r: Vec<ReferencedImpl<'_>>)
        ensures
            referenced_model(r@) == manifest(self@),
    {
        let ghost t = self@;
        let mut out: Vec<ReferencedImpl> = Vec::new();
        let mut d: usize = 0;
        while d < self.namespace.len()
            invariant
                t == self@,
                d <= self.namespace@.len(),
                t.namespace == declarations_model(self.namespace@),
                referenced_model(out@) == fused_manifest(t.namespace, d as int),
            decreases self.namespace.len() - d,
        {
            let declaration = &self.namespace[d];
            let entries = declaration.impls().entries();
            let ghost base = fused_manifest(t.namespace, d as int);
            let ghost nd = t.namespace[d as int];
            let mut k: usize = 0;
            while k < entries.len()
                invariant
                    k <= entries@.len(),
                    nd == declaration@,
                    crate::declaration::impls_model(entries@) == nd.impls,
                    referenced_model(out@) == base + Seq::new(k as nat, |m: int| (nd.name, nd.impls[m])),
                decreases entries.len() - k,
            {
                assert(entries@[k as int]@ == crate::declaration::impls_model(entries@)[k as int]);
                let item = ReferencedImpl { target: declaration.name(), entry: &entries[k] };
                assert(item.model() == (nd.name, nd.impls[k as int]));
                let ghost before = out@;
                out.push(item);
                assert(out@.len() == before.len() + 1);
                assert(referenced_model(before).len() == before.len());
                assert(before.len() == base.len() + k);
                assert(out@[before.len() as int] == item);
                assert(referenced_model(out@)[before.len() as int] == item.model());
                assert forall|x: int| 0 <= x < out@.len() implies #[trigger] referenced_model(out@)[x] == (base
                    + Seq::new((k + 1) as nat, |m: int| (nd.name, nd.impls[m])))[x] by {
                    if x < before.len() {
                        assert(referenced_model(before)[x] == before[x].model());
                    }
                }
                assert(referenced_model(out@) =~= base + Seq::new((k + 1) as nat, |m: int| (nd.name, nd.impls[m])));
                k += 1;
            }
            assert(fused_manifest(t.namespace, d + 1) =~= base + Seq::new(
                nd.impls.len(),
                |m: int| (nd.name, nd.impls[m]),
            ));
            d += 1;
        }
        let ghost fused = fused_manifest(t.namespace, t.namespace.len() as int);
        let mut b: usize = 0;
        while b < self.impl_blocks.len()
            invariant
                t == self@,
                b <= self.impl_blocks@.len(),
                t.impl_blocks == blocks_model(self.impl_blocks@),
                fused == fused_manifest(t.namespace, t.namespace.len() as int),
                referenced_model(out@) == fused + block_manifest(t.impl_blocks, b as int),
            decreases self.impl_blocks.len() - b,
        {
            let block = &self.impl_blocks[b];
            let entries = block.catalog().entries();
            let ghost base = referenced_model(out@);
            let ghost nb = t.impl_blocks[b as int];
            let mut k: usize = 0;
            while k < entries.len()
                invariant
                    k <= entries@.len(),
                    nb == block@,
                    crate::declaration::impls_model(entries@) == nb.1,
                    referenced_model(out@) == base + Seq::new(k as nat, |m: int| (nb.0, nb.1[m])),
                decreases entries.len() - k,
            {
                assert(entries@[k as int]@ == crate::declaration::impls_model(entries@)[k as int]);
                let item = ReferencedImpl { target: block.target(), entry: &entries[k] };
                assert(item.model() == (nb.0, nb.1[k as int]));
                let ghost before = out@;
                out.push(item);
                assert(out@.len() == before.len() + 1);
                assert(referenced_model(before).len() == before.len());
                assert(before.len() == base.len() + k);
                assert(out@[before.len() as int] == item);
                assert(referenced_model(out@)[before.len() as int] == item.model());
                assert forall|x: int| 0 <= x < out@.len() implies #[trigger] referenced_model(out@)[x] == (base
                    + Seq::new((k + 1) as nat, |m: int| (nb.0, nb.1[m])))[x] by {
                    if x < before.len() {
                        assert(referenced_model(before)[x] == before[x].model());
                    }
                }
                assert(referenced_model(out@) =~= base + Seq::new((k + 1) as nat, |m: int| (nb.0, nb.1[m])));
                k += 1;
            }
            assert(block_manifest(t.impl_blocks, b + 1) =~= block_manifest(t.impl_blocks, b as int)
                + Seq::new(nb.1.len(), |m: int| (nb.0, nb.1[m])));
            assert(referenced_model(out@) =~= fused + block_manifest(t.impl_blocks, b + 1));
            b += 1;
        }
        out
    }

    /// Reject the first manifest entry whose target already carries the same
    /// composition key.
    fn impl_entries_distinct(&self) -> (r: Result<(), SchemaError>)
        ensures
            r is Ok <==> manifest_distinct(manifest(self@)),
            r matches Err(e) ==> exists|j: int|
                first_impl_repeat(manifest(self@), j) && (e matches SchemaError::DuplicateImplEntry {
                    target,
                    entry,
                } && target@ == manifest(self@)[j].0 && entry@ == crate::declaration::label_of(
                    #[trigger] manifest(self@)[j].1,
                )),
    {
        let ghost m = manifest(self@);
        let references = self.referenced_impls();
        let mut keys: Vec<crate::declaration::ImplCompositionKey> = Vec::new();
        let mut k: usize = 0;
        while k < references.len()
            invariant
                k <= references@.len(),
                referenced_model(references@) == m,
                m == manifest(self@),
                keys@.len() == k,
                forall|a: int| 0 <= a < k ==> (#[trigger] keys@[a])@ == crate::declaration::key_of(m[a].1),
            decreases references.len() - k,
        {
            assert(m[k as int] == references@[k as int].model());
            keys.push(references[k].entry().composition_key());
            k += 1;
        }
        let mut j: usize = 0;
        while j < references.len()
            invariant
                j <= references@.len(),
                referenced_model(references@) == m,
                m == manifest(self@),
                keys@.len() == m.len(),
                forall|a: int| 0 <= a < m.len() ==> (#[trigger] keys@[a])@ == crate::declaration::key_of(m[a].1),
                manifest_distinct(m.take(j as int)),
            decreases references.len() - j,
        {
            let mut i: usize = 0;
            while i < j
                invariant
                    j < references@.len(),
                    i <= j,
                    referenced_model(references@) == m,
                    m == manifest(self@),
                    keys@.len() == m.len(),
                    forall|a: int| 0 <= a < m.len() ==> (#[trigger] keys@[a])@ == crate::declaration::key_of(m[a].1),
                    manifest_distinct(m.take(j as int)),
                    forall|a: int| 0 <= a < i ==> !(m[a].0 == m[j as int].0 && crate::declaration::key_of(m[a].1)
                        == crate::declaration::key_of(m[j as int].1)),
                decreases j - i,
            {
                assert(m[i as int] == references@[i as int].model());
                assert(m[j as int] == references@[j as int].model());
                assert(keys@[i as int]@ == crate::declaration::key_of(m[i as int].1));
                assert(keys@[j as int]@ == crate::declaration::key_of(m[j as int].1));
                if references[i].target().same(references[j].target()) && keys[i].same(&keys[j]) {
                    assert(m[i as int].0 == m[j as int].0);
                    assert(first_impl_repeat(m, j as int));
                    assert(!manifest_distinct(m));
                    return Err(
                        SchemaError::DuplicateImplEntry {
                            target: crate::text::owned(references[j].target().as_str()),
                            entry: references[j].entry().label(),
                        },
                    );
                }
                i += 1;
            }
            assert forall|a: int, b: int|
                #![trigger m.take(j + 1)[a], m.take(j + 1)[b]]
                0 <= a < b < m.take(j + 1).len() implies !(m.take(j + 1)[a].0 == m.take(j + 1)[b].0
                && crate::declaration::key_of(m.take(j + 1)[a].1) == crate::declaration::key_of(
                m.take(j + 1)[b].1,
            )) by {
                if b < j {
                    assert(m.take(j as int)[a] == m[a] && m.take(j as int)[b] == m[b]);
                }
            }
            j += 1;
        }
        assert(m.take(m.len() as int) =~= m);
        Ok(())
    }

    /// Confirm the impl manifest: every standalone impl block targets a
    /// namespace declaration, and no target carries the same entry twice.
    pub fn impls_verified(self) -> (r: Result<Self, SchemaError>)
        ensures
            r is Ok <==> block_targets_ok(self@) && manifest_distinct(manifest(self@)),
            r matches Ok(t) ==> t@ == self@,
            r matches Err(e) ==> (exists|i: int|
                first_unresolved_block(self@, i) && (e matches SchemaError::UnresolvedImplTarget {
                    name,
                } && name@ == (#[trigger] self@.impl_blocks[i]).0)) || (block_targets_ok(self@)
                && exists|j: int|
                first_impl_repeat(manifest(self@), j) && (e matches SchemaError::DuplicateImplEntry {
                    target,
                    entry,
                } && target@ == manifest(self@)[j].0 && entry@ == crate::declaration::label_of(
                    #[trigger] manifest(self@)[j].1,
                ))),
    {
        let ghost t = self@;
        let mut b: usize = 0;
        while b < self.impl_blocks.len()
            invariant
                t == self@,
                b <= self.impl_blocks@.len(),
                t.impl_blocks == blocks_model(self.impl_blocks@),
                forall|j: int| 0 <= j < b ==> declaration_of(t, #[trigger] t.impl_blocks[j].0) is Some,
            decreases self.impl_blocks.len() - b,
        {
            let target = self.impl_blocks[b].target();
            if self.type_named(target.as_str()).is_none() {
                assert(first_unresolved_block(t, b as int));
                return Err(SchemaError::UnresolvedImplTarget { name: crate::text::owned(target.as_str()) });
            }
            b += 1;
        }
        match self.impl_entries_distinct() {
            Ok(()) => Ok(self),
            Err(e) => Err(e),
        }
    }
}


/// Whether every struct declaration of the namespace passes the
/// product-component rules.
pub open spec fn products_ok(t: TreeModel) -> bool {
    forall|i: int|
        0 <= i < t.namespace.len() ==> match #[trigger] t.namespace[i].value {
            TypeDeclarationModel::Struct(_, fields) => crate::declaration::product_ok(fields),
            _ => true,
        }
}

/// A tree in which some struct holds two fields of the same reference and
/// the same name fails the product check.
pub proof fn law_tree_twin_fields_rejected(t: TreeModel, d: int, i: int, j: int)
    requires
        0 <= d < t.namespace.len(),
        t.namespace[d].value is Struct,
        0 <= i < t.namespace[d].value->Struct_1.len(),
        0 <= j < t.namespace[d].value->Struct_1.len(),
        i != j,
        t.namespace[d].value->Struct_1[i] == t.namespace[d].value->Struct_1[j],
    ensures
        !products_ok(t),
{
    crate::declaration::law_twin_fields_rejected(t.namespace[d].value->Struct_1, i, j);
}

/// Whether some variant of `vs` is named `name`.
pub open spec fn variant_listed(vs: Seq<VariantModel>, name: Seq<char>) -> bool {
    exists|j: int| 0 <= j < vs.len() && (#[trigger] vs[j]).name == name
}

/// Whether some field of `fs` is named `name`.
pub open spec fn field_listed(fs: Seq<crate::declaration::FieldModel>, name: Seq<char>) -> bool {
    exists|j: int| 0 <= j < fs.len() && (#[trigger] fs[j]).name == name
}

/// Whether the root named `root` is an enum with a variant named `variant`.
pub open spec fn root_has_variant(t: TreeModel, root: Seq<char>, variant: Seq<char>) -> bool {
    match root_of(t, root) {
        Some(RootModel::Enum(_, vs)) => variant_listed(vs, variant),
        _ => false,
    }
}

/// Whether the namespace declaration named `ty` is a struct with a field named
/// `field`.
pub open spec fn declaration_has_field(t: TreeModel, ty: Seq<char>, field: Seq<char>) -> bool {
    match declaration_of(t, ty) {
        Some(d) => match d.value {
            TypeDeclarationModel::Struct(_, fs) => field_listed(fs, field),
            _ => false,
        },
        None => false,
    }
}

/// Whether the namespace declaration named `ty` is an enum with a variant
/// named `variant`.
pub open spec fn declaration_has_variant(t: TreeModel, ty: Seq<char>, variant: Seq<char>) -> bool {
    match declaration_of(t, ty) {
        Some(d) => match d.value {
            TypeDeclarationModel::Enum(_, vs) => variant_listed(vs, variant),
            _ => false,
        },
        None => false,
    }
}

/// Whether a symbol path addresses a position of this schema: a declared
/// type, a root variant, a struct field, or an enum variant.
pub open spec fn path_positioned(t: TreeModel, p: Seq<Seq<char>>) -> bool {
    &&& p.len() > 0 && p[0] == t.component
    &&& (p.len() == 2 && declaration_of(t, p[1]) is Some) || (p.len() == 3 && (root_has_variant(
        t,
        p[1],
        p[2],
    ) || declaration_has_field(t, p[1], p[2]) || declaration_has_variant(t, p[1], p[2])))
}

/// Whether every namespace declaration is named as its body is.
pub open spec fn names_agree(t: TreeModel) -> bool {
    forall|i: int| 0 <= i < t.namespace.len() ==> (#[trigger] t.namespace[i]).name == type_model_name(t.namespace[i].value)
}

/// Every declaration of a tree is named as its body is.
pub proof fn lemma_tree_names_agree(tree: &SchemaTree)
    ensures
        names_agree(tree@),
{
    assert forall|i: int| 0 <= i < tree@.namespace.len() implies (#[trigger] tree@.namespace[i]).name
        == type_model_name(tree@.namespace[i].value) by {
        crate::declaration::lemma_declaration_named_as_body(tree.namespace@[i]);
    }
}

/// Every path a tree hands out addresses a position of the tree: a type
/// path, a field path, an enum-variant path and a root-variant path each lead
/// back to a position.
pub proof fn law_paths_lead_to_positions(tree: &SchemaTree, ty: Seq<char>, member: Seq<char>)
    ensures
        declaration_of(tree@, ty) matches Some(d) ==> type_model_name(d.value) == ty && path_positioned(
            tree@,
            seq![tree@.component, type_model_name(d.value)],
        ),
        declaration_has_field(tree@, ty, member) ==> path_positioned(tree@, seq![tree@.component, ty, member]),
        declaration_has_variant(tree@, ty, member) ==> path_positioned(tree@, seq![tree@.component, ty, member]),
        root_has_variant(tree@, ty, member) ==> (root_of(tree@, ty) matches Some(RootModel::Enum(n, _)) && n == ty
            && path_positioned(tree@, seq![tree@.component, n, member])),
{
    let t = tree@;
    lemma_tree_names_agree(tree);
    crate::seqs::lemma_first_index(t.namespace, declaration_named(ty));
    if let Some(d) = declaration_of(t, ty) {
        let i = first_index(t.namespace, declaration_named(ty))->Some_0;
        assert(t.namespace[i].name == type_model_name(t.namespace[i].value));
        let p = seq![tree@.component, type_model_name(d.value)];
        assert(p[1] == ty);
    }
    let q = seq![tree@.component, ty, member];
    assert(q[1] == ty && q[2] == member && q[0] == tree@.component);
}

/// A listed variant name in the exec form is a listed variant in the model.
pub proof fn lemma_variant_listed(vs: Seq<EnumVariant>, name: Seq<char>)
    ensures
        variant_listed(variants_view(vs), name) == exists|j: int|
            0 <= j < vs.len() && (#[trigger] vs[j]).name@ == name,
{
    if exists|j: int| 0 <= j < vs.len() && (#[trigger] vs[j]).name@ == name {
        let j = choose|j: int| 0 <= j < vs.len() && (#[trigger] vs[j]).name@ == name;
        assert(variants_view(vs)[j].name == name);
    }
    if variant_listed(variants_view(vs), name) {
        let j = choose|j: int| 0 <= j < variants_view(vs).len() && (#[trigger] variants_view(vs)[j]).name == name;
        assert(vs[j].name@ == name);
    }
}

/// Whether a declaration passes the product rules: a struct's fields do, and
/// any other declaration trivially.
pub open spec fn struct_products_ok(d: TypeDeclarationModel) -> bool {
    match d {
        TypeDeclarationModel::Struct(_, fields) => crate::declaration::product_ok(fields),
        _ => true,
    }
}

/// `i` is the first namespace declaration breaking the product rules.
pub open spec fn first_product_failure(t: TreeModel, i: int) -> bool {
    &&& 0 <= i < t.namespace.len()
    &&& !struct_products_ok(t.namespace[i].value)
    &&& forall|j: int| 0 <= j < i ==> struct_products_ok(#[trigger] t.namespace[j].value)
}

/// The position a symbol path addresses.
pub enum SymbolPathPosition<'path> {
    Type { type_label: &'path Name },
    RootVariant { root_name: &'path Name, variant_name: &'path Name },
    Field { type_label: &'path Name, field_name: &'path Name },
    EnumVariant { enum_name: &'path Name, variant_name: &'path Name },
}

impl SchemaTree {
    /// Check the product-component rules on every struct declaration.
    pub fn product_components_verified(self) -> (r: Result<Self, SchemaError>)
        ensures
            r is Ok <==> products_ok(self@),
            r matches Ok(t) ==> t@ == self@,
            r matches Err(e) ==> exists|i: int|
                first_product_failure(self@, i) && (#[trigger] self@.namespace[i].value matches TypeDeclarationModel::Struct(
                    _,
                    fields,
                ) && crate::declaration::product_error(e, fields)),
    {
        let ghost t = self@;
        let mut i: usize = 0;
        while i < self.namespace.len()
            invariant
                t == self@,
                i <= self.namespace@.len(),
                t.namespace == declarations_model(self.namespace@),
                forall|j: int| 0 <= j < i ==> struct_products_ok(#[trigger] t.namespace[j].value),
            decreases self.namespace.len() - i,
        {
            if let TypeDeclaration::Struct(declaration) = self.namespace[i].value() {
                assert(t.namespace[i as int].value == TypeDeclarationModel::Struct(
                    declaration.name@,
                    declaration.fields@,
                ));
                if let Err(e) = declaration.fields.product_components_verified() {
                    assert(first_product_failure(t, i as int));
                    return Err(e);
                }
            }
            i += 1;
        }
        Ok(self)
    }

    /// The symbol path of the namespace declaration named `type_label`.
    pub fn type_path(&self, type_label: &str) -> (r: Option<SymbolPath>)
        ensures
            match r {
                Some(p) => declaration_of(self@, type_label@) matches Some(d) && p@ == seq![
                    self@.component,
                    type_model_name(d.value),
                ],
                None => declaration_of(self@, type_label@) is None,
            },
    {
        match self.type_named(type_label) {
            Some(declaration) => Some(SymbolPath::type_path(&self.identity, declaration.name())),
            None => None,
        }
    }

    /// The symbol path of a variant of a root enum.
    pub fn root_variant_path(&self, root_name: &str, variant_name: &str) -> (r: Option<SymbolPath>)
        ensures
            match r {
                Some(p) => root_has_variant(self@, root_name@, variant_name@) && (root_of(
                    self@,
                    root_name@,
                ) matches Some(RootModel::Enum(n, _)) && p@ == seq![self@.component, n, variant_name@]),
                None => !root_has_variant(self@, root_name@, variant_name@),
            },
    {
        let root = match self.root_enum_named(root_name) {
            Some(root) => root,
            None => return None,
        };
        let variant = Name::new(variant_name);
        proof {
            lemma_variant_listed(root.variants@, variant_name@);
        }
        if root.has_variant(&variant) {
            Some(SymbolPath::root_variant_path(&self.identity, &root.name, &variant))
        } else {
            None
        }
    }

    /// The symbol path of a field of a namespace struct.
    pub fn field_path(&self, type_label: &str, field_name: &str) -> (r: Option<SymbolPath>)
        ensures
            match r {
                Some(p) => declaration_has_field(self@, type_label@, field_name@) && (declaration_of(
                    self@,
                    type_label@,
                ) matches Some(d) && p@ == seq![self@.component, type_model_name(d.value), field_name@]),
                None => !declaration_has_field(self@, type_label@, field_name@),
            },
    {
        let declaration = match self.type_named(type_label) {
            Some(TypeDeclaration::Struct(declaration)) => declaration,
            _ => return None,
        };
        let field = Name::new(field_name);
        if declaration.fields.has_field_named(&field) {
            Some(SymbolPath::field_path(&self.identity, &declaration.name, &field))
        } else {
            None
        }
    }

    /// The symbol path of a variant of a namespace enum.
    pub fn enum_variant_path(&self, enum_name: &str, variant_name: &str) -> (r: Option<SymbolPath>)
        ensures
            match r {
                Some(p) => declaration_has_variant(self@, enum_name@, variant_name@) && (declaration_of(
                    self@,
                    enum_name@,
                ) matches Some(d) && p@ == seq![self@.component, type_model_name(d.value), variant_name@]),
                None => !declaration_has_variant(self@, enum_name@, variant_name@),
            },
    {
        let declaration = match self.type_named(enum_name) {
            Some(TypeDeclaration::Enum(declaration)) => declaration,
            _ => return None,
        };
        let variant = Name::new(variant_name);
        proof {
            lemma_variant_listed(declaration.variants@, variant_name@);
        }
        if declaration.has_variant(&variant) {
            Some(SymbolPath::enum_variant_path(&self.identity, &declaration.name, &variant))
        } else {
            None
        }
    }

    /// The schema position a symbol path addresses, if it addresses one: a
    /// declared type, then a root variant, a struct field, or an enum variant.
    pub fn symbol_path_position<'path>(&self, path: &'path SymbolPath) -> (r: Option<
        SymbolPathPosition<'path>,
    >)
        ensures
            match r {
                None => !path_positioned(self@, path@),
                Some(SymbolPathPosition::Type { type_label }) => path_positioned(self@, path@) && path@
                    == seq![self@.component, type_label@],
                Some(SymbolPathPosition::RootVariant { root_name, variant_name }) => path@ == seq![
                    self@.component,
                    root_name@,
                    variant_name@,
                ] && root_has_variant(self@, root_name@, variant_name@),
                Some(SymbolPathPosition::Field { type_label, field_name }) => path@ == seq![
                    self@.component,
                    type_label@,
                    field_name@,
                ] && !root_has_variant(self@, type_label@, field_name@) && declaration_has_field(
                    self@,
                    type_label@,
                    field_name@,
                ),
                Some(SymbolPathPosition::EnumVariant { enum_name, variant_name }) => path@ == seq![
                    self@.component,
                    enum_name@,
                    variant_name@,
                ] && !root_has_variant(self@, enum_name@, variant_name@) && !declaration_has_field(
                    self@,
                    enum_name@,
                    variant_name@,
                ) && declaration_has_variant(self@, enum_name@, variant_name@),
            },
    {
        if !path.belongs_to(&self.identity) {
            return None;
        }
        let local = path.local_segments();
        assert(names_view(local@) == path@.drop_first());
        if local.len() == 1 {
            assert(names_view(local@)[0] == local@[0]@);
            assert(path@.drop_first()[0] == path@[1]);
            assert(path@ =~= seq![path@[0], local@[0]@]);
            if self.type_named(local[0].as_str()).is_some() {
                return Some(SymbolPathPosition::Type { type_label: &local[0] });
            }
            return None;
        }
        if local.len() != 2 {
            return None;
        }
        let first = &local[0];
        let second = &local[1];
        assert(names_view(local@)[0] == first@ && names_view(local@)[1] == second@);
        assert(path@.drop_first()[0] == path@[1] && path@.drop_first()[1] == path@[2]);
        assert(path@ =~= seq![path@[0], first@, second@]);
        if let Some(root) = self.root_enum_named(first.as_str()) {
            proof {
                lemma_variant_listed(root.variants@, second@);
            }
            if root.has_variant(second) {
                return Some(SymbolPathPosition::RootVariant { root_name: first, variant_name: second });
            }
        }
        let declaration = match self.type_named(first.as_str()) {
            Some(declaration) => declaration,
            None => return None,
        };
        if declaration.has_field_named(second) {
            return Some(SymbolPathPosition::Field { type_label: first, field_name: second });
        }
        if let TypeDeclaration::Enum(body) = declaration {
            proof {
                lemma_variant_listed(body.variants@, second@);
            }
        }
        if declaration.has_variant_named(second) {
            return Some(SymbolPathPosition::EnumVariant { enum_name: first, variant_name: second });
        }
        None
    }
}

} // verus!
