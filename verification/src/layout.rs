//! The six-slot layout of a schema document's root objects: a brace block of
//! imports, the input and output root values (each one block, or a dotted
//! head atom and its payload), then brace blocks of types, generics and impls.

use crate::block::{block_ends_at_dot, ends_at_dot, BlockDelimiter, BlockForm, DotosBlock};
use crate::engine::SchemaError;
use crate::text::owned;
use vstd::prelude::*;

verus! {

/// Whether a block is a brace-delimited group.
pub open spec fn is_brace_block(b: DotosBlock) -> bool {
    b.form matches BlockForm::Delimited(BlockDelimiter::Brace, _)
}

/// Why a document's root objects do not have the six-slot layout.
pub enum LayoutFault {
    /// The slots ran past the objects, or objects were left after them; the
    /// number of root objects.
    Count(nat),
    /// A brace slot held another block; the diagnostic text.
    Misplaced(Seq<char>),
    /// A root value ended at a dotted head with no payload after it.
    DanglingDot,
}

/// The name of the brace slot at position `k`.
pub open spec fn brace_slot_name(k: nat) -> Seq<char> {
    if k == 0 {
        "imports"@
    } else if k == 3 {
        "types"@
    } else if k == 4 {
        "generics"@
    } else {
        "impls"@
    }
}

/// The diagnostic for a block standing where the brace slot `slot` belongs.
pub open spec fn misplaced_text(slot: Seq<char>, b: DotosBlock) -> Seq<char> {
    slot + " root slot "@ + b.fallback@ + ", expected brace block"@
}

/// The width of a brace slot named `slot` starting at `cursor`.
pub open spec fn delimited_width(objects: Seq<DotosBlock>, cursor: nat, slot: Seq<char>) -> Result<
    nat,
    LayoutFault,
> {
    if cursor >= objects.len() {
        Err(LayoutFault::Count(objects.len()))
    } else if is_brace_block(objects[cursor as int]) {
        Ok(1)
    } else {
        Err(LayoutFault::Misplaced(misplaced_text(slot, objects[cursor as int])))
    }
}

/// The width of a root value starting at `cursor`: two blocks for a dotted
/// head atom and its payload, one block otherwise.
pub open spec fn root_body_width(objects: Seq<DotosBlock>, cursor: nat) -> Result<nat, LayoutFault> {
    if cursor >= objects.len() {
        Err(LayoutFault::Count(objects.len()))
    } else if !ends_at_dot(objects[cursor as int]) {
        Ok(1)
    } else if cursor + 1 < objects.len() {
        Ok(2)
    } else {
        Err(LayoutFault::DanglingDot)
    }
}

/// The width of slot `k` starting at `cursor`: slots 1 and 2 are the root
/// values, the others brace blocks.
pub open spec fn slot_width(objects: Seq<DotosBlock>, k: nat, cursor: nat) -> Result<nat, LayoutFault> {
    if k == 1 || k == 2 {
        root_body_width(objects, cursor)
    } else {
        delimited_width(objects, cursor, brace_slot_name(k))
    }
}

/// The slots from `k` on, as (start, width) pairs, starting at `cursor`; the
/// objects must end exactly where the sixth slot does.
pub open spec fn layout_from(objects: Seq<DotosBlock>, k: nat, cursor: nat) -> Result<
    Seq<(nat, nat)>,
    LayoutFault,
>
    decreases 6 - k,
{
    if k >= 6 {
        if cursor == objects.len() {
            Ok(Seq::empty())
        } else {
            Err(LayoutFault::Count(objects.len()))
        }
    } else {
        match slot_width(objects, k, cursor) {
            Err(f) => Err(f),
            Ok(w) => match layout_from(objects, k + 1, cursor + w) {
                Ok(rest) => Ok(seq![(cursor, w)] + rest),
                Err(f) => Err(f),
            },
        }
    }
}

/// The six slots of a document's root objects, in order.
pub open spec fn document_layout(objects: Seq<DotosBlock>) -> Result<Seq<(nat, nat)>, LayoutFault> {
    layout_from(objects, 0, 0)
}

/// The slots of a layout from `k` on lie in order within the objects, each
/// at least one block wide.
pub proof fn lemma_layout_slots(objects: Seq<DotosBlock>, k: nat, cursor: nat)
    requires
        k <= 6,
        layout_from(objects, k, cursor) is Ok,
    ensures
        cursor <= objects.len(),
        layout_from(objects, k, cursor)->Ok_0.len() == 6 - k,
        forall|i: int|
            0 <= i < 6 - k ==> cursor <= (#[trigger] layout_from(objects, k, cursor)->Ok_0[i]).0
                && 1 <= layout_from(objects, k, cursor)->Ok_0[i].1
                && layout_from(objects, k, cursor)->Ok_0[i].0 + layout_from(
                objects,
                k,
                cursor,
            )->Ok_0[i].1 <= objects.len(),
    decreases 6 - k,
{
    if k < 6 {
        let w = slot_width(objects, k, cursor)->Ok_0;
        lemma_layout_slots(objects, k + 1, cursor + w);
        let rest = layout_from(objects, k + 1, cursor + w)->Ok_0;
        let all = layout_from(objects, k, cursor)->Ok_0;
        assert forall|i: int| 0 <= i < 6 - k implies cursor <= (#[trigger] all[i]).0 && 1
            <= all[i].1 && all[i].0 + all[i].1 <= objects.len() by {
            if i > 0 {
                assert(all[i] == rest[i - 1]);
            }
        }
    }
}

/// The error reported for a layout fault.
pub open spec fn fault_error(f: LayoutFault, e: SchemaError) -> bool {
    match f {
        LayoutFault::Count(n) => e == SchemaError::ExpectedRootObjectCount {
            expected: "6 root slots (imports input output types generics impls)",
            found: n as usize,
        },
        LayoutFault::Misplaced(t) => e matches SchemaError::ExpectedSyntaxDeclaration { found }
            && found@ == t,
        LayoutFault::DanglingDot => e == SchemaError::ExpectedSyntaxReferenceArity {
            form: "dotted reference",
            expected: "a head and payload",
            found: 1,
        },
    }
}

/// One slot: where it starts among the root objects and how many it spans.
#[derive(Clone, Copy, Debug, PartialEq, Eq)]
pub struct SchemaDocumentSlot {
    start: usize,
    width: usize,
}

impl View for SchemaDocumentSlot {
    type V = (nat, nat);

    closed spec fn view(&self) -> (nat, nat) {
        (self.start as nat, self.width as nat)
    }
}

impl SchemaDocumentSlot {
    pub fn start(&self) -> (r: usize)
        ensures
            r == self@.0,
    {
        self.start
    }

    pub fn width(&self) -> (r: usize)
        ensures
            r == self@.1,
    {
        self.width
    }

    /// A brace slot named `slot_name` at `cursor`, which moves past it.
    fn consume_delimited(objects: &[DotosBlock], cursor: &mut usize, slot_name: &str) -> (r: Result<
        Self,
        SchemaError,
    >)
        ensures
            match (r, delimited_width(objects@, *old(cursor) as nat, slot_name@)) {
                (Ok(s), Ok(w)) => s@ == (*old(cursor) as nat, w) && *final(cursor) == *old(cursor)
                    + w,
                (Err(e), Err(f)) => fault_error(f, e),
                _ => false,
            },
    {
        let start = *cursor;
        if start >= objects.len() {
            return Err(
                SchemaError::ExpectedRootObjectCount {
                    expected: "6 root slots (imports input output types generics impls)",
                    found: objects.len(),
                },
            );
        }
        let block = &objects[start];
        match &block.form {
            BlockForm::Delimited(BlockDelimiter::Brace, _) => {
                *cursor = start + 1;
                Ok(SchemaDocumentSlot { start, width: 1 })
            },
            _ => {
                let mut found = owned(slot_name);
                found.append(" root slot ");
                found.append(block.fallback.as_str());
                found.append(", expected brace block");
                Err(SchemaError::ExpectedSyntaxDeclaration { found })
            },
        }
    }

    /// A root value at `cursor`, which moves past it.
    fn consume_root_body(objects: &[DotosBlock], cursor: &mut usize) -> (r: Result<Self, SchemaError>)
        ensures
            match (r, root_body_width(objects@, *old(cursor) as nat)) {
                (Ok(s), Ok(w)) => s@ == (*old(cursor) as nat, w) && *final(cursor) == *old(cursor)
                    + w,
                (Err(e), Err(f)) => fault_error(f, e),
                _ => false,
            },
    {
        let start = *cursor;
        if start >= objects.len() {
            return Err(
                SchemaError::ExpectedRootObjectCount {
                    expected: "6 root slots (imports input output types generics impls)",
                    found: objects.len(),
                },
            );
        }
        let width = block_span_width_at(objects, start)?;
        *cursor = start + width;
        Ok(SchemaDocumentSlot { start, width })
    }
}

/// How many root objects the value at `index` spans: a dotted head atom and
/// its payload, or one block.
fn block_span_width_at(objects: &[DotosBlock], index: usize) -> (r: Result<usize, SchemaError>)
    requires
        index < objects@.len(),
    ensures
        match (r, root_body_width(objects@, index as nat)) {
            (Ok(w), Ok(v)) => w == v,
            (Err(e), Err(f)) => fault_error(f, e),
            _ => false,
        },
{
    if !block_ends_at_dot(&objects[index]) {
        return Ok(1);
    }
    if index + 1 >= objects.len() {
        return Err(
            SchemaError::ExpectedSyntaxReferenceArity {
                form: "dotted reference",
                expected: "a head and payload",
                found: 1,
            },
        );
    }
    Ok(2)
}

/// The six slots of a schema document, in order.
#[derive(Clone, Copy, Debug, PartialEq, Eq)]
pub struct SchemaDocumentLayout {
    imports: SchemaDocumentSlot,
    input: SchemaDocumentSlot,
    output: SchemaDocumentSlot,
    types: SchemaDocumentSlot,
    generics: SchemaDocumentSlot,
    impls: SchemaDocumentSlot,
}

impl View for SchemaDocumentLayout {
    type V = Seq<(nat, nat)>;

    closed spec fn view(&self) -> Seq<(nat, nat)> {
        seq![self.imports@, self.input@, self.output@, self.types@, self.generics@, self.impls@]
    }
}

impl SchemaDocumentLayout {
    /// Split a document's root objects into its six slots, or report the
    /// first way they fail the layout.
    pub fn from_root_objects(objects: &[DotosBlock]) -> (r: Result<Self, SchemaError>)
        ensures
            match (r, document_layout(objects@)) {
                (Ok(l), Ok(slots)) => l@ == slots,
                (Err(e), Err(f)) => fault_error(f, e),
                _ => false,
            },
    {
        proof {
            reveal_with_fuel(layout_from, 7);
        }
        let mut cursor: usize = 0;
        let imports = SchemaDocumentSlot::consume_delimited(objects, &mut cursor, "imports")?;
        let input = SchemaDocumentSlot::consume_root_body(objects, &mut cursor)?;
        let output = SchemaDocumentSlot::consume_root_body(objects, &mut cursor)?;
        let types = SchemaDocumentSlot::consume_delimited(objects, &mut cursor, "types")?;
        let generics = SchemaDocumentSlot::consume_delimited(objects, &mut cursor, "generics")?;
        let impls = SchemaDocumentSlot::consume_delimited(objects, &mut cursor, "impls")?;
        if cursor != objects.len() {
            return Err(
                SchemaError::ExpectedRootObjectCount {
                    expected: "6 root slots (imports input output types generics impls)",
                    found: objects.len(),
                },
            );
        }
        let r = SchemaDocumentLayout { imports, input, output, types, generics, impls };
        assert(r@ =~= document_layout(objects@)->Ok_0);
        Ok(r)
    }

    pub fn imports(&self) -> (r: SchemaDocumentSlot)
        ensures
            r@ == self@[0],
    {
        self.imports
    }

    pub fn input(&self) -> (r: SchemaDocumentSlot)
        ensures
            r@ == self@[1],
    {
        self.input
    }

    pub fn output(&self) -> (r: SchemaDocumentSlot)
        ensures
            r@ == self@[2],
    {
        self.output
    }

    pub fn types(&self) -> (r: SchemaDocumentSlot)
        ensures
            r@ == self@[3],
    {
        self.types
    }

    pub fn generics(&self) -> (r: SchemaDocumentSlot)
        ensures
            r@ == self@[4],
    {
        self.generics
    }

    pub fn impls(&self) -> (r: SchemaDocumentSlot)
        ensures
            r@ == self@[5],
    {
        self.impls
    }
}

} // verus!
