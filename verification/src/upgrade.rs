//! Schema edits, the receipts an accepted edit leaves on the lineage chain,
//! and the upgrade objects that carry an ordered list of edits between two
//! schema identities.

use crate::engine::SchemaIdentity;
use crate::identifier::{IdModel, NominalIdentifier};
use crate::identity::ContentHash;
use crate::name::Name;
use crate::reference::{option_reference_view, reference_view, ReferenceModel, TypeReference};
use vstd::prelude::*;

verus! {

/// One schema edit.
#[derive(Debug)]
pub enum SchemaEdit {
    AddField(AddField),
    ChangeFieldType(ChangeFieldType),
    AddVariant(AddVariant),
    Rename(Rename),
}

/// Add a field to a struct, filling existing values with a default.
#[derive(Debug)]
pub struct AddField {
    pub target_type: Name,
    pub field_name: Name,
    pub field_type: TypeReference,
    pub default_value: DefaultValue,
}

/// Change a struct field's type, migrating existing values.
#[derive(Debug)]
pub struct ChangeFieldType {
    pub target_type: Name,
    pub field_name: Name,
    pub new_type: TypeReference,
    pub migration: FieldMigration,
}

/// Add a variant to an enum.
#[derive(Debug)]
pub struct AddVariant {
    pub target_type: Name,
    pub variant_name: Name,
    pub payload: Option<TypeReference>,
}

/// Rebind one declaration's identifier to a new name.
#[derive(Debug)]
pub struct Rename {
    pub identifier: NominalIdentifier,
    pub new_name: Name,
}

/// The name-table change a rename records: the identifier and the name it
/// moved from and to.
#[derive(Debug)]
pub struct NameTableDelta {
    pub identifier: NominalIdentifier,
    pub previous_name: Name,
    pub new_name: Name,
}

/// How existing values of a changed field are carried over.
#[derive(Debug)]
pub enum FieldMigration {
    WrapSingleton,
    SetDefault(DefaultValue),
}

/// A default value for a new or migrated field.
#[derive(Debug)]
pub enum DefaultValue {
    String(String),
    Integer(u64),
    Boolean(bool),
    Unit,
}

/// The per-field migration a structural edit contributes to a conversion.
#[derive(Debug)]
pub struct MigrationSpec {
    pub target_type: Name,
    pub field_name: Name,
    pub previous_type: Option<TypeReference>,
    pub next_type: TypeReference,
    pub migration: FieldMigration,
}

/// What an accepted edit did: a structural change with its field migration,
/// if any, or a rename with its name delta.
#[derive(Debug)]
pub enum EditEffect {
    StructureChange(Option<Box<MigrationSpec>>),
    Rename(NameTableDelta),
}

/// One receipt edge of the lineage graph: the parent and child core hashes
/// and what the edit did.
#[derive(Debug)]
pub struct SchemaEditReceipt {
    pub parent_core_hash: ContentHash,
    pub child_core_hash: ContentHash,
    pub effect: EditEffect,
}

/// A complete upgrade: the identity pair and the ordered edits.
#[derive(Debug)]
pub struct UpgradeObject {
    pub previous_identity: SchemaIdentity,
    pub next_identity: SchemaIdentity,
    pub edits: Vec<SchemaEdit>,
}

/// The receipt of an applied upgrade: the identity pair and each edit's
/// receipt, in order.
#[derive(Debug)]
pub struct UpgradeReceipt {
    pub previous_identity: SchemaIdentity,
    pub next_identity: SchemaIdentity,
    pub edit_receipts: Vec<SchemaEditReceipt>,
}

/// The mathematical form of a default value.
pub enum DefaultModel {
    String(Seq<char>),
    Integer(u64),
    Boolean(bool),
    Unit,
}

/// The mathematical form of a field migration.
pub enum MigrationKindModel {
    WrapSingleton,
    SetDefault(DefaultModel),
}

/// The mathematical form of a migration spec.
pub struct MigrationModel {
    pub target_type: Seq<char>,
    pub field_name: Seq<char>,
    pub previous_type: Option<ReferenceModel>,
    pub next_type: ReferenceModel,
    pub migration: MigrationKindModel,
}

/// The mathematical form of a name-table delta.
pub struct DeltaModel {
    pub identifier: IdModel,
    pub previous_name: Seq<char>,
    pub new_name: Seq<char>,
}

/// The mathematical form of an edit effect.
pub enum EffectModel {
    StructureChange(Option<MigrationModel>),
    Rename(DeltaModel),
}

/// The mathematical form of a receipt edge.
pub struct ReceiptModel {
    pub parent: Seq<u8>,
    pub child: Seq<u8>,
    pub effect: EffectModel,
}

pub open spec fn default_view(d: DefaultValue) -> DefaultModel {
    match d {
        DefaultValue::String(s) => DefaultModel::String(s@),
        DefaultValue::Integer(v) => DefaultModel::Integer(v),
        DefaultValue::Boolean(b) => DefaultModel::Boolean(b),
        DefaultValue::Unit => DefaultModel::Unit,
    }
}

pub open spec fn migration_kind_view(m: FieldMigration) -> MigrationKindModel {
    match m {
        FieldMigration::WrapSingleton => MigrationKindModel::WrapSingleton,
        FieldMigration::SetDefault(d) => MigrationKindModel::SetDefault(default_view(d)),
    }
}

pub open spec fn migration_view(m: MigrationSpec) -> MigrationModel {
    MigrationModel {
        target_type: m.target_type@,
        field_name: m.field_name@,
        previous_type: option_reference_view(m.previous_type),
        next_type: reference_view(m.next_type),
        migration: migration_kind_view(m.migration),
    }
}

pub open spec fn delta_view(d: NameTableDelta) -> DeltaModel {
    DeltaModel { identifier: d.identifier@, previous_name: d.previous_name@, new_name: d.new_name@ }
}

pub open spec fn effect_view(e: EditEffect) -> EffectModel {
    match e {
        EditEffect::StructureChange(Some(m)) => EffectModel::StructureChange(Some(migration_view(*m))),
        EditEffect::StructureChange(None) => EffectModel::StructureChange(None),
        EditEffect::Rename(d) => EffectModel::Rename(delta_view(d)),
    }
}

impl View for SchemaEditReceipt {
    type V = ReceiptModel;

    open spec fn view(&self) -> ReceiptModel {
        ReceiptModel {
            parent: self.parent_core_hash@,
            child: self.child_core_hash@,
            effect: effect_view(self.effect),
        }
    }
}

/// The views of a list of receipts.
pub open spec fn receipts_view(s: Seq<SchemaEditReceipt>) -> Seq<ReceiptModel> {
    Seq::new(s.len(), |i: int| s[i]@)
}

impl DefaultValue {
    /// Identity of two default values, by model.
    pub fn same(&self, other: &Self) -> (r: bool)
        ensures
            r == (default_view(*self) == default_view(*other)),
    {
        match (self, other) {
            (DefaultValue::String(a), DefaultValue::String(b)) => crate::text::str_eq(a.as_str(), b.as_str()),
            (DefaultValue::Integer(a), DefaultValue::Integer(b)) => *a == *b,
            (DefaultValue::Boolean(a), DefaultValue::Boolean(b)) => *a == *b,
            (DefaultValue::Unit, DefaultValue::Unit) => true,
            _ => false,
        }
    }
}

impl FieldMigration {
    /// Identity of two migrations, by model.
    pub fn same(&self, other: &Self) -> (r: bool)
        ensures
            r == (migration_kind_view(*self) == migration_kind_view(*other)),
    {
        match (self, other) {
            (FieldMigration::WrapSingleton, FieldMigration::WrapSingleton) => true,
            (FieldMigration::SetDefault(a), FieldMigration::SetDefault(b)) => a.same(b),
            _ => false,
        }
    }
}

/// Identity of two optional references, by view.
fn same_optional_reference(a: &Option<TypeReference>, b: &Option<TypeReference>) -> (r: bool)
    ensures
        r == (option_reference_view(*a) == option_reference_view(*b)),
{
    match (a, b) {
        (Some(x), Some(y)) => x.same(y),
        (None, None) => true,
        _ => false,
    }
}

impl MigrationSpec {
    /// Identity of two migration specs, by model.
    pub fn same(&self, other: &Self) -> (r: bool)
        ensures
            r == (migration_view(*self) == migration_view(*other)),
    {
        self.target_type.same(&other.target_type) && self.field_name.same(&other.field_name)
            && same_optional_reference(&self.previous_type, &other.previous_type)
            && self.next_type.same(&other.next_type) && self.migration.same(&other.migration)
    }
}

impl NameTableDelta {
    /// Identity of two deltas, by model.
    pub fn same(&self, other: &Self) -> (r: bool)
        ensures
            r == (delta_view(*self) == delta_view(*other)),
    {
        self.identifier.same(&other.identifier) && self.previous_name.same(&other.previous_name)
            && self.new_name.same(&other.new_name)
    }
}

impl EditEffect {
    /// The field migration this edit contributes to a conversion, or `None`
    /// for a rename and for a structural edit that needs none.
    pub fn migration_spec(&self) -> (r: Option<&MigrationSpec>)
        ensures
            match r {
                Some(m) => effect_view(*self) == EffectModel::StructureChange(Some(migration_view(*m))),
                None => effect_view(*self) == EffectModel::StructureChange(None) || effect_view(*self) is Rename,
            },
    {
        match self {
            EditEffect::StructureChange(Some(migration)) => Some(migration),
            EditEffect::StructureChange(None) => None,
            EditEffect::Rename(_) => None,
        }
    }

    /// Identity of two effects, by model.
    pub fn same(&self, other: &Self) -> (r: bool)
        ensures
            r == (effect_view(*self) == effect_view(*other)),
    {
        match (self, other) {
            (EditEffect::StructureChange(Some(a)), EditEffect::StructureChange(Some(b))) => a.same(b),
            (EditEffect::StructureChange(None), EditEffect::StructureChange(None)) => true,
            (EditEffect::Rename(a), EditEffect::Rename(b)) => a.same(b),
            _ => false,
        }
    }
}

impl SchemaEditReceipt {
    pub fn parent_core_hash(&self) -> (r: &ContentHash)
        ensures
            r@ == self@.parent,
    {
        &self.parent_core_hash
    }

    pub fn child_core_hash(&self) -> (r: &ContentHash)
        ensures
            r@ == self@.child,
    {
        &self.child_core_hash
    }

    pub fn effect(&self) -> (r: &EditEffect)
        ensures
            effect_view(*r) == self@.effect,
    {
        &self.effect
    }

    /// The field migration this edit contributes to a conversion, or `None`.
    pub fn migration_spec(&self) -> (r: Option<&MigrationSpec>)
        ensures
            match r {
                Some(m) => self@.effect == EffectModel::StructureChange(Some(migration_view(*m))),
                None => self@.effect == EffectModel::StructureChange(None) || self@.effect is Rename,
            },
    {
        self.effect.migration_spec()
    }

    /// Whether this edit left the core hash fixed.
    pub fn is_core_preserving(&self) -> (r: bool)
        ensures
            r == (self@.parent == self@.child),
    {
        self.parent_core_hash.same(&self.child_core_hash)
    }

    /// Identity of two receipts, by model.
    pub fn same(&self, other: &Self) -> (r: bool)
        ensures
            r == (self@ == other@),
    {
        self.parent_core_hash.same(&other.parent_core_hash) && self.child_core_hash.same(
            &other.child_core_hash,
        ) && self.effect.same(&other.effect)
    }
}

impl SchemaEdit {
    pub fn add_field(target_type: &str, field_name: &str, field_type: TypeReference, default_value: DefaultValue) -> (r:
        Self)
        ensures
            r matches SchemaEdit::AddField(a) && a.target_type@ == target_type@ && a.field_name@
                == field_name@ && reference_view(a.field_type) == reference_view(field_type)
                && default_view(a.default_value) == default_view(default_value),
    {
        SchemaEdit::AddField(
            AddField {
                target_type: Name::new(target_type),
                field_name: Name::new(field_name),
                field_type,
                default_value,
            },
        )
    }

    pub fn change_field_type(target_type: &str, field_name: &str, new_type: TypeReference, migration: FieldMigration) -> (r:
        Self)
        ensures
            r matches SchemaEdit::ChangeFieldType(c) && c.target_type@ == target_type@ && c.field_name@
                == field_name@ && reference_view(c.new_type) == reference_view(new_type)
                && migration_kind_view(c.migration) == migration_kind_view(migration),
    {
        SchemaEdit::ChangeFieldType(
            ChangeFieldType {
                target_type: Name::new(target_type),
                field_name: Name::new(field_name),
                new_type,
                migration,
            },
        )
    }

    pub fn add_variant(target_type: &str, variant_name: &str, payload: Option<TypeReference>) -> (r: Self)
        ensures
            r matches SchemaEdit::AddVariant(a) && a.target_type@ == target_type@ && a.variant_name@
                == variant_name@ && option_reference_view(a.payload) == option_reference_view(payload),
    {
        SchemaEdit::AddVariant(
            AddVariant { target_type: Name::new(target_type), variant_name: Name::new(variant_name), payload },
        )
    }

    /// Rename the declaration carrying `identifier` to `new_name`.
    pub fn rename(identifier: NominalIdentifier, new_name: &str) -> (r: Self)
        ensures
            r matches SchemaEdit::Rename(n) && n.identifier@ == identifier@ && n.new_name@ == new_name@,
    {
        SchemaEdit::Rename(Rename { identifier, new_name: Name::new(new_name) })
    }
}

impl UpgradeObject {
    pub fn new(previous_identity: SchemaIdentity, next_identity: SchemaIdentity, edits: Vec<SchemaEdit>) -> (r:
        Self)
        ensures
            r.previous_identity == previous_identity,
            r.next_identity == next_identity,
            r.edits == edits,
    {
        UpgradeObject { previous_identity, next_identity, edits }
    }

    pub fn previous_identity(&self) -> (r: &SchemaIdentity)
        ensures
            *r == self.previous_identity,
    {
        &self.previous_identity
    }

    pub fn next_identity(&self) -> (r: &SchemaIdentity)
        ensures
            *r == self.next_identity,
    {
        &self.next_identity
    }

    pub fn edits(&self) -> (r: &[SchemaEdit])
        ensures
            r@ == self.edits@,
    {
        self.edits.as_slice()
    }
}

impl UpgradeReceipt {
    pub fn previous_identity(&self) -> (r: &SchemaIdentity)
        ensures
            *r == self.previous_identity,
    {
        &self.previous_identity
    }

    pub fn next_identity(&self) -> (r: &SchemaIdentity)
        ensures
            *r == self.next_identity,
    {
        &self.next_identity
    }

    pub fn edit_receipts(&self) -> (r: &[SchemaEditReceipt])
        ensures
            r@ == self.edit_receipts@,
    {
        self.edit_receipts.as_slice()
    }
}

} // verus!
