//! The schema identity and the typed error every fallible operation answers.

use crate::identifier::DeclarationKind;
use crate::name::Name;
use vstd::prelude::*;

verus! {

/// The component name and version a schema is authored under.
#[derive(Debug)]
pub struct SchemaIdentity {
    component: Name,
    version: String,
}

impl SchemaIdentity {
    pub fn new(component: &str, version: &str) -> (r: Self)
        ensures
            r.component_view() == component@,
            r.version_view() == version@,
    {
        Self { component: Name::new(component), version: crate::text::owned(version) }
    }

    pub closed spec fn component_view(&self) -> Seq<char> {
        self.component@
    }

    pub closed spec fn version_view(&self) -> Seq<char> {
        self.version@
    }

    pub fn component(&self) -> (r: &Name)
        ensures
            r@ == self.component_view(),
    {
        &self.component
    }

    pub fn version(&self) -> (r: &str)
        ensures
            r@ == self.version_view(),
    {
        self.version.as_str()
    }

    /// A copy of this identity.
    pub fn duplicate(&self) -> (r: Self)
        ensures
            r.component_view() == self.component_view(),
            r.version_view() == self.version_view(),
    {
        Self { component: self.component.duplicate(), version: self.version.clone() }
    }

    /// Whether two identities carry the same component and version.
    pub fn same_as(&self, other: &Self) -> (r: bool)
        ensures
            r == (self.component_view() == other.component_view() && self.version_view() == other.version_view()),
    {
        self.component.same(&other.component) && self.version == other.version
    }
}

/// The failure of a schema operation, one variant per fault.
#[derive(Clone, Debug, PartialEq, Eq)]
pub enum SchemaError {
    ExplicitFieldOnUniqueProductComponent { field: String, type_label: String },
    DuplicateImplicitProductComponent { type_label: String },
    DuplicateExplicitProductComponentIdentity { field: String, type_label: String },
    OptionalVariantPayload { enum_name: String, variant_name: String },
    SameNamedVariantPayload { enum_name: String, variant_name: String, payload_type: String },
    MalformedSchemaPath { path: String },
    ExpectedSymbol { found: String },
    MalformedSchemaNode { found: String },
    ExpectedDottedEntry,
    ExpectedSyntaxReference { found: String },
    MalformedImportSource { found: String },
    MalformedImportTarget { target: String },
    ExpectedRootObjectCount { expected: &'static str, found: usize },
    ExpectedDelimiter { expected: &'static str },
    ExpectedSyntaxDeclaration { found: String },
    ReservedScalarTypeName { name: String },
    DuplicateSourceDeclaration { name: String },
    ExpectedRootApplication { position: &'static str, found: String },
    ExpectedSyntaxReferenceArity { form: &'static str, expected: &'static str, found: usize },
    DuplicateDeclaration { name: String, first_site: String, second_site: String },
    SchemaEditTargetNotFound { type_label: String },
    SchemaEditExpectedStruct { type_label: String },
    SchemaEditExpectedEnum { type_label: String },
    SchemaEditDuplicateField { type_label: String, field_name: String },
    SchemaEditDuplicateVariant { type_label: String, variant_name: String },
    SchemaEditFieldNotFound { type_label: String, field_name: String },
    DuplicateTypeParameter { declaration: String, parameter: String },
    GenericArityMismatch { head: String, expected: usize, found: usize },
    UnverifiedImplReference { target: String, kind: String, signature: String },
    UnresolvedImplTarget { name: String },
    DuplicateImplEntry { target: String, entry: String },
    CoreProjectionNameAbsent { identifier: String },
    NameTableIdentifierAbsent { identifier: String },
    NameTableNameConflict { kind: DeclarationKind, name: String, holder: String, requested: String },
}

} // verus!
