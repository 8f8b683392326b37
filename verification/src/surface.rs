//! The Rust surface a schema's impl catalog is checked against: the traits and
//! inherent methods a crate actually exposes, and the trust-boundary check
//! that every referenced trait and method signature is present.

use crate::declaration::{
    methods_of, render_seq, signatures_model, ImplModel, MethodSignature, SignatureModel,
};
use crate::engine::SchemaError;
use crate::name::Name;
use crate::tree::{manifest, ReferencedImpl, SchemaTree, TreeModel};
use vstd::prelude::*;

verus! {

/// One fact about what the Rust side provides: a trait implemented for a
/// type, or a method with a specific signature present on a type.
#[derive(Debug)]
pub enum ImplFact {
    Trait { type_label: Name, trait_name: Name },
    Method { type_label: Name, signature: MethodSignature },
}

/// The mathematical form of an impl fact.
pub enum FactModel {
    Trait(Seq<char>, Seq<char>),
    Method(Seq<char>, SignatureModel),
}

impl View for ImplFact {
    type V = FactModel;

    closed spec fn view(&self) -> FactModel {
        match self {
            ImplFact::Trait { type_label, trait_name } => FactModel::Trait(type_label@, trait_name@),
            ImplFact::Method { type_label, signature } => FactModel::Method(type_label@, signature@),
        }
    }
}

/// The set of impl facts a crate exposes.
#[derive(Debug)]
pub struct RustSurface {
    facts: Vec<ImplFact>,
}

pub open spec fn facts_model(s: Seq<ImplFact>) -> Seq<FactModel> {
    Seq::new(s.len(), |i: int| s[i]@)
}

impl View for RustSurface {
    type V = Seq<FactModel>;

    closed spec fn view(&self) -> Seq<FactModel> {
        facts_model(self.facts@)
    }
}

/// Whether the surface implements trait `name` for type `target`.
pub open spec fn trait_present(facts: Seq<FactModel>, target: Seq<char>, name: Seq<char>) -> bool {
    exists|i: int| 0 <= i < facts.len() && #[trigger] facts[i] == FactModel::Trait(target, name)
}

/// Whether the surface carries method `signature` on type `target`.
pub open spec fn method_present(facts: Seq<FactModel>, target: Seq<char>, signature: SignatureModel) -> bool {
    exists|i: int| 0 <= i < facts.len() && #[trigger] facts[i] == FactModel::Method(target, signature)
}

/// The trait an impl entry names, if any.
pub open spec fn trait_of(e: ImplModel) -> Option<Seq<char>> {
    match e {
        ImplModel::Marker(n) => Some(n),
        ImplModel::TraitImpl(n, _) => Some(n),
        ImplModel::InherentMethod(_) => None,
    }
}

/// Whether the surface backs one manifest entry: its trait, when it names
/// one, and every method signature it references.
pub open spec fn entry_backed(facts: Seq<FactModel>, entry: (Seq<char>, ImplModel)) -> bool {
    &&& match trait_of(entry.1) {
        Some(n) => trait_present(facts, entry.0, n),
        None => true,
    }
    &&& forall|k: int|
        0 <= k < methods_of(entry.1).len() ==> method_present(
            facts,
            entry.0,
            #[trigger] methods_of(entry.1)[k],
        )
}

/// Whether the surface backs every entry of a schema's impl manifest.
pub open spec fn catalog_backed(facts: Seq<FactModel>, t: TreeModel) -> bool {
    forall|i: int| 0 <= i < manifest(t).len() ==> entry_backed(facts, #[trigger] manifest(t)[i])
}

/// The error a missing trait fact `target: name` is reported with.
pub open spec fn missing_trait_error(e: SchemaError, target: Seq<char>, name: Seq<char>) -> bool {
    e matches SchemaError::UnverifiedImplReference { target: t, kind, signature } && t@ == target && kind@
        == "trait impl"@ && signature@ == name
}

/// The error a missing method fact `target: signature` is reported with.
pub open spec fn missing_method_error(e: SchemaError, target: Seq<char>, signature: SignatureModel) -> bool {
    e matches SchemaError::UnverifiedImplReference { target: t, kind, signature: rendered } && t@ == target
        && kind@ == "method signature"@ && rendered@ == render_seq(signature)
}

/// `k` is the first method signature of a manifest entry the surface lacks.
pub open spec fn first_missing_method(facts: Seq<FactModel>, entry: (Seq<char>, ImplModel), k: int) -> bool {
    &&& 0 <= k < methods_of(entry.1).len()
    &&& !method_present(facts, entry.0, methods_of(entry.1)[k])
    &&& forall|j: int| 0 <= j < k ==> method_present(facts, entry.0, #[trigger] methods_of(entry.1)[j])
}

/// The error an unbacked manifest entry is reported with: its missing trait
/// when it names one the surface lacks, else its first missing method.
pub open spec fn entry_error(e: SchemaError, facts: Seq<FactModel>, entry: (Seq<char>, ImplModel)) -> bool {
    if trait_of(entry.1) matches Some(n) && !trait_present(facts, entry.0, n) {
        missing_trait_error(e, entry.0, trait_of(entry.1)->0)
    } else {
        exists|k: int| first_missing_method(facts, entry, k) && missing_method_error(e, entry.0, #[trigger] methods_of(entry.1)[k])
    }
}

/// `i` is the first manifest entry of `t` the surface does not back.
pub open spec fn first_unbacked(facts: Seq<FactModel>, t: TreeModel, i: int) -> bool {
    &&& 0 <= i < manifest(t).len()
    &&& !entry_backed(facts, manifest(t)[i])
    &&& forall|j: int| 0 <= j < i ==> entry_backed(facts, #[trigger] manifest(t)[j])
}

impl ImplFact {
    pub fn trait_impl(type_label: Name, trait_name: Name) -> (r: Self)
        ensures
            r@ == FactModel::Trait(type_label@, trait_name@),
    {
        ImplFact::Trait { type_label, trait_name }
    }

    pub fn method(type_label: Name, signature: MethodSignature) -> (r: Self)
        ensures
            r@ == FactModel::Method(type_label@, signature@),
    {
        ImplFact::Method { type_label, signature }
    }
}

impl RustSurface {
    pub fn new(facts: Vec<ImplFact>) -> (r: Self)
        ensures
            r@ == facts_model(facts@),
    {
        RustSurface { facts }
    }

    /// Confirm that the trait fact `target: trait_name` is present.
    fn verify_trait(&self, target: &Name, trait_name: &Name) -> (r: Result<(), SchemaError>)
        ensures
            r is Ok <==> trait_present(self@, target@, trait_name@),
            r matches Err(e) ==> (e matches SchemaError::UnverifiedImplReference {
                target: t,
                kind,
                signature,
            } && t@ == target@ && kind@ == "trait impl"@ && signature@ == trait_name@),
    {
        let mut i: usize = 0;
        while i < self.facts.len()
            invariant
                i <= self.facts@.len(),
                forall|j: int| 0 <= j < i ==> self@[j] != FactModel::Trait(target@, trait_name@),
            decreases self.facts.len() - i,
        {
            assert(self@[i as int] == self.facts@[i as int]@);
            if let ImplFact::Trait { type_label, trait_name: present } = &self.facts[i] {
                if type_label.same(target) && present.same(trait_name) {
                    return Ok(());
                }
            }
            i += 1;
        }
        Err(
            SchemaError::UnverifiedImplReference {
                target: crate::text::owned(target.as_str()),
                kind: crate::text::owned("trait impl"),
                signature: crate::text::owned(trait_name.as_str()),
            },
        )
    }

    /// Confirm that the method fact `target: signature` is present.
    fn verify_method(&self, target: &Name, signature: &MethodSignature) -> (r: Result<(), SchemaError>)
        ensures
            r is Ok <==> method_present(self@, target@, signature@),
            r matches Err(e) ==> (e matches SchemaError::UnverifiedImplReference {
                target: t,
                kind,
                signature: rendered,
            } && t@ == target@ && kind@ == "method signature"@ && rendered@ == render_seq(signature@)),
    {
        let mut i: usize = 0;
        while i < self.facts.len()
            invariant
                i <= self.facts@.len(),
                forall|j: int| 0 <= j < i ==> self@[j] != FactModel::Method(target@, signature@),
            decreases self.facts.len() - i,
        {
            assert(self@[i as int] == self.facts@[i as int]@);
            if let ImplFact::Method { type_label, signature: present } = &self.facts[i] {
                if type_label.same(target) && present.same(signature) {
                    return Ok(());
                }
            }
            i += 1;
        }
        Err(
            SchemaError::UnverifiedImplReference {
                target: crate::text::owned(target.as_str()),
                kind: crate::text::owned("method signature"),
                signature: signature.render(),
            },
        )
    }

    /// Check one manifest entry: its trait, then each method it references.
    fn verify_entry(&self, reference: &ReferencedImpl) -> (r: Result<(), SchemaError>)
        ensures
            r is Ok <==> entry_backed(self@, reference.model()),
            r matches Err(e) ==> entry_error(e, self@, reference.model()),
    {
        let target = reference.target();
        let entry = reference.entry();
        if let Some(trait_name) = entry.trait_name() {
            let checked = self.verify_trait(target, trait_name);
            if checked.is_err() {
                return checked;
            }
        }
        assert(!(trait_of(reference.model().1) matches Some(n) && !trait_present(self@, target@, n)));
        let methods = entry.methods();
        let ghost ms = methods_of(reference.model().1);
        let mut k: usize = 0;
        while k < methods.len()
            invariant
                k <= methods@.len(),
                signatures_model(methods@) == ms,
                ms == methods_of(reference.model().1),
                target@ == reference.model().0,
                !(trait_of(reference.model().1) matches Some(n) && !trait_present(self@, target@, n)),
                forall|j: int| 0 <= j < k ==> method_present(self@, target@, #[trigger] ms[j]),
            decreases methods.len() - k,
        {
            assert(ms[k as int] == methods@[k as int]@);
            let checked = self.verify_method(target, &methods[k]);
            if let Err(e) = checked {
                assert(first_missing_method(self@, reference.model(), k as int));
                assert(missing_method_error(e, reference.model().0, methods_of(reference.model().1)[k as int]));
                return Err(e);
            }
            k += 1;
        }
        Ok(())
    }

    /// Check every impl reference of the schema against this surface: a
    /// marker or trait impl needs a matching trait fact for its target, and
    /// every method signature it references needs a matching method fact. The
    /// first reference without a matching fact fails with
    /// `UnverifiedImplReference`.
    pub fn verify_catalog(&self, schema: &SchemaTree) -> (r: Result<(), SchemaError>)
        ensures
            r is Ok <==> catalog_backed(self@, schema@),
            r matches Err(e) ==> exists|i: int| first_unbacked(self@, schema@, i) && entry_error(e, self@, #[trigger] manifest(schema@)[i]),
    {
        let references = schema.referenced_impls();
        let ghost m = manifest(schema@);
        let mut i: usize = 0;
        while i < references.len()
            invariant
                i <= references@.len(),
                crate::tree::referenced_model(references@) == m,
                m == manifest(schema@),
                forall|j: int| 0 <= j < i ==> entry_backed(self@, #[trigger] m[j]),
            decreases references.len() - i,
        {
            assert(m[i as int] == references@[i as int].model());
            let checked = self.verify_entry(&references[i]);
            if checked.is_err() {
                assert(first_unbacked(self@, schema@, i as int));
                return checked;
            }
            i += 1;
        }
        Ok(())
    }
}

} // verus!
