mod block;
mod declaration;
mod engine;
mod environment;
mod factoring;
mod identifier;
mod identity;
mod instance;
mod layout;
mod lineage;
mod lowering;
mod macros;
mod name;
mod raw;
mod reference;
mod reference_dotos;
mod schema_text;
mod seqs;
mod signature_text;
mod source_form;
mod source_reference;
mod source_schema;
mod surface;
mod text;
mod tree;
mod upgrade;

pub use block::{
    BlockDelimiter, BlockForm, DeclarationHead, DelimiterText, DotosBlock, NamespaceEntry,
    NamespaceEntryWalk, NamespacePairWalk, SchemaNode, SchemaNodeData, SchemaNodePair,
    SchemaNodeValue,
};
pub use declaration::{
    Declaration, EnumDeclaration, FieldDeclaration, ImplBlock, ImplCatalog, ImplCompositionKey,
    ImplReference, MethodParameter, MethodSignature, NewtypeDeclaration, StructDeclaration,
    StructFieldMap, TypeDeclaration, Visibility,
};
pub use engine::{SchemaError, SchemaIdentity};
pub use reference_dotos::ReferenceDecodeError;
pub use environment::{
    SchemaEnvironmentManifest, SchemaNodeType, SchemaNodeTypeLabel, SchemaRootBlockKind,
    SchemaRootBlockSummary, SchemaSourcePosition, SchemaSourceRange, SchemaSourceSummary,
};
pub use factoring::{
    FactoredEncoding, HelpRendering, IndirectionLink, IndirectionProjection,
    LinkedStructureExpansion, MainStructureDepthCap,
};
pub use identifier::{
    DeclarationKind, NameDeclaration, NameEntry, NameHarvest, NameTable, NominalIdentifier,
};
pub use identity::ContentHash;
pub use instance::{InstanceReference, InstanceSchema, InstanceSchemaBody, InstanceSchemaText};
pub use layout::{LayoutFault, SchemaDocumentLayout, SchemaDocumentSlot};
pub use lineage::LineageGraph;
pub use macros::{MacroContext, MacroDispatch, MacroPair, MacroPosition};
pub use name::{Name, SymbolPath};
pub use raw::{
    RawDatatypeEntry, RawDatatypeMap, RawDotosDatatype, RawDotosSequence, RawSchemaFile,
};
pub use reference::{
    ApplicationHead, EnumVariant, ImportSource, MultiTypeReferenceProjection, ResolvedImport,
    SingleTypeReferenceProjection, TypeReference, ValueReferenceProjection,
};
pub use lowering::SourceTypeResolver;
pub use source_form::{
    SourceDeclaration, SourceDeclarationGroup, SourceDeclarationValue, SourceDeclarations, SourceEnumBody,
    SourceField, SourceFieldIdentity, SourceFieldValue, SourceImplCatalog, SourceImplEntry,
    SourceInlineDeclarationVisibility, SourceLoweredField,
    SourceMethodParameter, SourceMethodSignature, SourceStructBody, SourceVariantName,
    SourceVariantPayload, SourceVariantSignature,
};
pub use source_reference::{
    SourceGenericDefinition, SourceGenericDefinitionKind, SourceGenericFieldNamePattern,
    SourceGenericValue, SourceGenericValueKind, SourceMultiTypeApplication, SourceReference,
    SourceSingleTypeApplication, SourceValueApplication,
};
pub use source_schema::{
    SchemaSource, SchemaSourceArtifact, SourceGenericEntry, SourceGenerics, SourceImport,
    SourceImports, SourceImpls, SourceImplsEntry, SourceRootBody, SourceRootEnum, SourceTypeEntry,
    SourceTypes,
};
pub use surface::{ImplFact, RustSurface};
pub use tree::{
    ImportDeclaration, ReferencedImpl, Root, RootApplication, SchemaDeclaredType, SchemaTree,
    SymbolPathPosition,
};
pub use upgrade::{
    AddField, AddVariant, ChangeFieldType, DefaultValue, EditEffect, FieldMigration, MigrationSpec,
    NameTableDelta, Rename, SchemaEdit, SchemaEditReceipt, UpgradeObject, UpgradeReceipt,
};
