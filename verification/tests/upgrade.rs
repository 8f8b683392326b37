use schema::{
    ContentHash, DeclarationKind, DefaultValue, EditEffect, FieldMigration, MigrationSpec, Name,
    NameTableDelta, NominalIdentifier, SchemaEdit, SchemaEditReceipt, SchemaIdentity,
    TypeReference, UpgradeObject,
};

fn hash(n: u8) -> ContentHash {
    ContentHash::from_hex(&format!("{:064x}", n)).expect("64 hex digits")
}

#[test]
fn an_upgrade_keeps_its_identities_and_edits_in_order() {
    let identifier = NominalIdentifier::mint(DeclarationKind::Type, "Widget");
    let upgrade = UpgradeObject::new(
        SchemaIdentity::new("domain:lib", "0.1.0"),
        SchemaIdentity::new("domain:lib", "0.2.0"),
        vec![
            SchemaEdit::add_field("Widget", "size", TypeReference::Integer, DefaultValue::Integer(0)),
            SchemaEdit::change_field_type(
                "Widget",
                "tags",
                TypeReference::vector(TypeReference::String),
                FieldMigration::WrapSingleton,
            ),
            SchemaEdit::add_variant("Shape", "Circle", None),
            SchemaEdit::rename(identifier, "Gadget"),
        ],
    );
    assert_eq!(upgrade.previous_identity().version(), "0.1.0");
    assert_eq!(upgrade.next_identity().version(), "0.2.0");
    assert_eq!(upgrade.edits().len(), 4);
    assert!(matches!(&upgrade.edits()[0], SchemaEdit::AddField(edit) if edit.field_name.as_str() == "size"));
    assert!(matches!(&upgrade.edits()[3], SchemaEdit::Rename(edit) if edit.new_name.as_str() == "Gadget"));
}

#[test]
fn a_rename_receipt_preserves_the_core_hash() {
    let identifier = NominalIdentifier::mint(DeclarationKind::Type, "Widget");
    let receipt = SchemaEditReceipt {
        parent_core_hash: hash(1),
        child_core_hash: hash(1),
        effect: EditEffect::Rename(NameTableDelta {
            identifier,
            previous_name: Name::new("Widget"),
            new_name: Name::new("Gadget"),
        }),
    };
    assert!(receipt.is_core_preserving());
    assert!(receipt.migration_spec().is_none());
}

#[test]
fn a_structural_receipt_carries_its_migration() {
    let receipt = SchemaEditReceipt {
        parent_core_hash: hash(1),
        child_core_hash: hash(2),
        effect: EditEffect::StructureChange(Some(Box::new(MigrationSpec {
            target_type: Name::new("Widget"),
            field_name: Name::new("size"),
            previous_type: None,
            next_type: TypeReference::Integer,
            migration: FieldMigration::SetDefault(DefaultValue::Integer(0)),
        }))),
    };
    assert!(!receipt.is_core_preserving());
    let migration = receipt.migration_spec().expect("a structural edit with a migration");
    assert_eq!(migration.field_name.as_str(), "size");
    assert!(receipt.same(&SchemaEditReceipt {
        parent_core_hash: hash(1),
        child_core_hash: hash(2),
        effect: EditEffect::StructureChange(Some(Box::new(MigrationSpec {
            target_type: Name::new("Widget"),
            field_name: Name::new("size"),
            previous_type: None,
            next_type: TypeReference::Integer,
            migration: FieldMigration::SetDefault(DefaultValue::Integer(0)),
        }))),
    }));
}
