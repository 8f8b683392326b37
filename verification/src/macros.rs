//! The positions a schema macro can stand at, and how a macro is dispatched.

use crate::block::DotosBlock;
use crate::declaration::{declarations_model, Declaration, DeclarationModel};
use crate::text::views_of;
use vstd::prelude::*;

verus! {

/// A position in a schema document where a macro can fire.
#[derive(Clone, Copy, Debug, PartialEq, Eq, Structural)]
pub enum MacroPosition {
    RootImports,
    RootInput,
    RootOutput,
    RootNamespace,
    NamespaceDeclaration,
    StructFields,
    EnumVariants,
    TypeReference,
}

/// How a macro is matched at its position: positionally at a root, by the
/// structure of the blocks there, by a tagged invocation, or by either of the
/// last two.
#[derive(Clone, Copy, Debug, PartialEq, Eq, Structural)]
pub enum MacroDispatch {
    RootPositional,
    ByStructure,
    TaggedInvocation,
    ByStructureOrTaggedInvocation,
}

/// A key/value pair a macro sees at a declaration position: the block carrying
/// the key and the block carrying the value.
#[derive(Clone, Copy, Debug)]
pub struct MacroPair<'object> {
    pub name: &'object DotosBlock,
    pub definition: &'object DotosBlock,
}

/// The keyword a macro position is spelled with.
pub open spec fn position_keyword(p: MacroPosition) -> Seq<char> {
    match p {
        MacroPosition::RootImports => "RootImports"@,
        MacroPosition::RootInput => "RootInput"@,
        MacroPosition::RootOutput => "RootOutput"@,
        MacroPosition::RootNamespace => "RootNamespace"@,
        MacroPosition::NamespaceDeclaration => "NamespaceDeclaration"@,
        MacroPosition::StructFields => "StructFields"@,
        MacroPosition::EnumVariants => "EnumVariants"@,
        MacroPosition::TypeReference => "TypeReference"@,
    }
}

impl MacroPosition {
    /// The keyword this position is spelled with.
    pub fn as_str(&self) -> (r: &'static str)
        ensures
            r@ == position_keyword(*self),
    {
        match self {
            MacroPosition::RootImports => "RootImports",
            MacroPosition::RootInput => "RootInput",
            MacroPosition::RootOutput => "RootOutput",
            MacroPosition::RootNamespace => "RootNamespace",
            MacroPosition::NamespaceDeclaration => "NamespaceDeclaration",
            MacroPosition::StructFields => "StructFields",
            MacroPosition::EnumVariants => "EnumVariants",
            MacroPosition::TypeReference => "TypeReference",
        }
    }
}

/// What a lowering pass records as it goes: the positions and macros that
/// fired, the capture bindings and templates they used, and the declarations
/// lowered inline for later collection.
#[derive(Debug)]
pub struct MacroContext {
    positions_seen: Vec<MacroPosition>,
    macros_applied: Vec<String>,
    bindings_seen: Vec<String>,
    expanded_templates: Vec<String>,
    inline_declarations: Vec<Declaration>,
}

/// The mathematical form of a macro context.
pub struct ContextModel {
    pub positions: Seq<MacroPosition>,
    pub macros: Seq<Seq<char>>,
    pub bindings: Seq<Seq<char>>,
    pub templates: Seq<Seq<char>>,
    pub inline: Seq<DeclarationModel>,
}

impl View for MacroContext {
    type V = ContextModel;

    closed spec fn view(&self) -> ContextModel {
        ContextModel {
            positions: self.positions_seen@,
            macros: views_of(self.macros_applied@),
            bindings: views_of(self.bindings_seen@),
            templates: views_of(self.expanded_templates@),
            inline: declarations_model(self.inline_declarations@),
        }
    }
}

/// The record of a capture binding: the macro's name, `::`, the binding's.
pub open spec fn binding_record(macro_name: Seq<char>, binding_name: Seq<char>) -> Seq<char> {
    macro_name + "::"@ + binding_name
}

/// The record of an expanded template: the macro's name, ` -> `, the
/// template.
pub open spec fn template_record(macro_name: Seq<char>, template: Seq<char>) -> Seq<char> {
    macro_name + " -> "@ + template
}

impl Default for MacroContext {
    fn default() -> (r: Self)
        ensures
            r@.positions.len() == 0,
            r@.macros.len() == 0,
            r@.bindings.len() == 0,
            r@.templates.len() == 0,
            r@.inline.len() == 0,
    {
        MacroContext::new()
    }
}

impl MacroContext {
    /// An empty record.
    pub fn new() -> (r: Self)
        ensures
            r@.positions.len() == 0,
            r@.macros.len() == 0,
            r@.bindings.len() == 0,
            r@.templates.len() == 0,
            r@.inline.len() == 0,
    {
        MacroContext {
            positions_seen: Vec::new(),
            macros_applied: Vec::new(),
            bindings_seen: Vec::new(),
            expanded_templates: Vec::new(),
            inline_declarations: Vec::new(),
        }
    }

    pub fn remember_position(&mut self, position: MacroPosition)
        ensures
            final(self)@ == (ContextModel { positions: old(self)@.positions.push(position), ..old(self)@ }),
    {
        self.positions_seen.push(position);
    }

    pub fn remember_macro(&mut self, macro_name: &str)
        ensures
            final(self)@ == (ContextModel { macros: old(self)@.macros.push(macro_name@), ..old(self)@ }),
    {
        let ghost before = self.macros_applied@;
        self.macros_applied.push(crate::text::owned(macro_name));
        proof {
            crate::text::lemma_views_of_push(before, self.macros_applied@.last());
            assert(self.macros_applied@ == before.push(self.macros_applied@.last()));
        }
    }

    pub fn remember_binding(&mut self, macro_name: &str, binding_name: &str)
        ensures
            final(self)@ == (ContextModel {
                bindings: old(self)@.bindings.push(binding_record(macro_name@, binding_name@)),
                ..old(self)@
            }),
    {
        let mut record = crate::text::owned(macro_name);
        record.append("::");
        record.append(binding_name);
        proof {
            reveal_strlit("::");
        }
        let ghost before = self.bindings_seen@;
        self.bindings_seen.push(record);
        proof {
            crate::text::lemma_views_of_push(before, self.bindings_seen@.last());
            assert(self.bindings_seen@ == before.push(self.bindings_seen@.last()));
        }
    }

    pub fn remember_expanded_template(&mut self, macro_name: &str, template: &str)
        ensures
            final(self)@ == (ContextModel {
                templates: old(self)@.templates.push(template_record(macro_name@, template@)),
                ..old(self)@
            }),
    {
        let mut record = crate::text::owned(macro_name);
        record.append(" -> ");
        record.append(template);
        proof {
            reveal_strlit(" -> ");
        }
        let ghost before = self.expanded_templates@;
        self.expanded_templates.push(record);
        proof {
            crate::text::lemma_views_of_push(before, self.expanded_templates@.last());
            assert(self.expanded_templates@ == before.push(self.expanded_templates@.last()));
        }
    }

    /// How many declarations have been lowered inline so far.
    pub fn inline_declaration_count(&self) -> (r: usize)
        ensures
            r == self@.inline.len(),
    {
        self.inline_declarations.len()
    }

    /// Take the inline declarations from position `index` on, in order,
    /// leaving the earlier ones.
    pub fn drain_inline_declarations_from(&mut self, index: usize) -> (r: Vec<Declaration>)
        requires
            index <= old(self)@.inline.len(),
        ensures
            declarations_model(r@) == old(self)@.inline.skip(index as int),
            final(self)@ == (ContextModel { inline: old(self)@.inline.take(index as int), ..old(self)@ }),
    {
        let ghost before = self.inline_declarations@;
        let r = self.inline_declarations.split_off(index);
        assert(declarations_model(r@) =~= declarations_model(before).skip(index as int));
        assert(declarations_model(self.inline_declarations@) =~= declarations_model(before).take(index as int));
        r
    }

    pub fn positions_seen(&self) -> (r: &[MacroPosition])
        ensures
            r@ == self@.positions,
    {
        self.positions_seen.as_slice()
    }

    pub fn macros_applied(&self) -> (r: &[String])
        ensures
            views_of(r@) == self@.macros,
    {
        self.macros_applied.as_slice()
    }

    pub fn bindings_seen(&self) -> (r: &[String])
        ensures
            views_of(r@) == self@.bindings,
    {
        self.bindings_seen.as_slice()
    }

    pub fn expanded_templates(&self) -> (r: &[String])
        ensures
            views_of(r@) == self@.templates,
    {
        self.expanded_templates.as_slice()
    }

    pub fn inline_declarations(&self) -> (r: &[Declaration])
        ensures
            declarations_model(r@) == self@.inline,
    {
        self.inline_declarations.as_slice()
    }
}

} // verus!
