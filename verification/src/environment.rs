//! Source positions and the per-module summary of a loaded schema file: the
//! file's full range, the range and node type of each of its six root
//! blocks, and the node-type labels an editor paints over them.

use crate::block::DotosBlock;
use crate::layout::{document_layout, lemma_layout_slots, SchemaDocumentLayout};
use crate::name::Name;
use vstd::prelude::*;
use vstd::utf8::{encode_scalar, encode_utf8};

verus! {

/// A position in source text: byte offset, one-based line, one-based column.
#[derive(Clone, Copy, Debug, PartialEq, Eq, Structural)]
pub struct SchemaSourcePosition {
    byte: usize,
    line: usize,
    column: usize,
}

/// A range of source text between two positions.
#[derive(Clone, Copy, Debug, PartialEq, Eq, Structural)]
pub struct SchemaSourceRange {
    start: SchemaSourcePosition,
    end: SchemaSourcePosition,
}

/// The six root blocks of a schema file, in order.
#[derive(Clone, Copy, Debug, PartialEq, Eq, Structural)]
pub enum SchemaRootBlockKind {
    Imports,
    Input,
    Output,
    Types,
    Generics,
    Impls,
}

/// The node type an editor labels a range with.
#[derive(Clone, Copy, Debug, PartialEq, Eq, Structural)]
pub enum SchemaNodeType {
    Module,
    Imports,
    InputRoot,
    OutputRoot,
    Types,
    Generics,
    Impls,
}

/// One root block of a file: its kind, its range, and its node type.
#[derive(Clone, Copy, Debug, PartialEq, Eq, Structural)]
pub struct SchemaRootBlockSummary {
    kind: SchemaRootBlockKind,
    range: SchemaSourceRange,
    node_type: SchemaNodeType,
}

/// One node-type label over a range.
#[derive(Clone, Copy, Debug, PartialEq, Eq, Structural)]
pub struct SchemaNodeTypeLabel {
    node_type: SchemaNodeType,
    range: SchemaSourceRange,
}

/// The summary of one schema file: its path, its full range, its root
/// blocks, and the node-type labels over them.
#[derive(Debug)]
pub struct SchemaSourceSummary {
    path: String,
    file_range: SchemaSourceRange,
    root_blocks: Vec<SchemaRootBlockSummary>,
    node_type_labels: Vec<SchemaNodeTypeLabel>,
}

/// The module names an environment load walks.
#[derive(Debug)]
pub struct SchemaEnvironmentManifest {
    module_names: Vec<Name>,
}

impl View for SchemaSourcePosition {
    type V = (nat, nat, nat);

    closed spec fn view(&self) -> (nat, nat, nat) {
        (self.byte as nat, self.line as nat, self.column as nat)
    }
}

impl View for SchemaSourceRange {
    type V = ((nat, nat, nat), (nat, nat, nat));

    closed spec fn view(&self) -> ((nat, nat, nat), (nat, nat, nat)) {
        (self.start@, self.end@)
    }
}

impl View for SchemaRootBlockSummary {
    type V = (SchemaRootBlockKind, ((nat, nat, nat), (nat, nat, nat)), SchemaNodeType);

    closed spec fn view(&self) -> (SchemaRootBlockKind, ((nat, nat, nat), (nat, nat, nat)), SchemaNodeType) {
        (self.kind, self.range@, self.node_type)
    }
}

impl View for SchemaNodeTypeLabel {
    type V = (SchemaNodeType, ((nat, nat, nat), (nat, nat, nat)));

    closed spec fn view(&self) -> (SchemaNodeType, ((nat, nat, nat), (nat, nat, nat))) {
        (self.node_type, self.range@)
    }
}

/// The number of bytes `c` takes in UTF-8.
pub open spec fn utf8_width(c: char) -> nat {
    encode_scalar(c as u32).len()
}

/// The position reached after reading `s` from the start of a document.
pub open spec fn position_after(s: Seq<char>) -> (nat, nat, nat)
    decreases s.len(),
{
    if s.len() == 0 {
        (0, 1, 1)
    } else {
        let p = position_after(s.drop_last());
        let c = s.last();
        (
            p.0 + utf8_width(c),
            if c == '\n' {
                p.1 + 1
            } else {
                p.1
            },
            if c == '\n' {
                1
            } else {
                p.2 + 1
            },
        )
    }
}

/// Encoding a text grown by one character appends that character's bytes.
proof fn lemma_encode_push(s: Seq<char>, c: char)
    ensures
        encode_utf8(s.push(c)) == encode_utf8(s) + encode_scalar(c as u32),
    decreases s.len(),
{
    if s.len() == 0 {
        assert(s.push(c).drop_first() =~= Seq::<char>::empty());
        assert(encode_utf8(s.push(c)) =~= encode_scalar(c as u32) + encode_utf8(Seq::<char>::empty()));
    } else {
        lemma_encode_push(s.drop_first(), c);
        assert(s.push(c).drop_first() =~= s.drop_first().push(c));
        assert(s.push(c)[0] == s[0]);
    }
}

/// The byte offset after a text is its UTF-8 length, the line is one more
/// than its newline count, and neither exceeds the byte length plus one.
proof fn lemma_position_bounds(s: Seq<char>)
    ensures
        position_after(s).0 == encode_utf8(s).len(),
        position_after(s).1 <= s.len() + 1,
        position_after(s).2 <= s.len() + 1,
        s.len() <= encode_utf8(s).len(),
    decreases s.len(),
{
    if s.len() > 0 {
        lemma_position_bounds(s.drop_last());
        lemma_encode_push(s.drop_last(), s.last());
        assert(s.drop_last().push(s.last()) =~= s);
        lemma_scalar_width(s.last());
    }
}

/// Every character takes one to four bytes.
proof fn lemma_scalar_width(c: char)
    ensures
        1 <= encode_scalar(c as u32).len() <= 4,
{
}

/// The number of bytes `c` takes in UTF-8.
fn char_width(c: char) -> (r: usize)
    ensures
        r == utf8_width(c),
{
    let v = c as u32;
    if v <= 0x7F {
        1
    } else if v <= 0x7FF {
        2
    } else if v <= 0xFFFF {
        3
    } else {
        4
    }
}

impl SchemaSourcePosition {
    /// A position at the given byte offset, line, and column.
    pub fn new(byte: usize, line: usize, column: usize) -> (r: Self)
        ensures
            r@ == (byte as nat, line as nat, column as nat),
    {
        SchemaSourcePosition { byte, line, column }
    }

    pub fn byte(&self) -> (r: usize)
        ensures
            r == self@.0,
    {
        self.byte
    }

    pub fn line(&self) -> (r: usize)
        ensures
            r == self@.1,
    {
        self.line
    }

    pub fn column(&self) -> (r: usize)
        ensures
            r == self@.2,
    {
        self.column
    }

    /// The start of a document: byte zero, line one, column one.
    fn new_document_start() -> (r: Self)
        ensures
            r@ == position_after(Seq::<char>::empty()),
    {
        SchemaSourcePosition { byte: 0, line: 1, column: 1 }
    }

    /// The position after reading `character` from this one: the byte offset
    /// grows by the character's UTF-8 width; a newline starts the next line at
    /// column one, any other character moves one column right.
    fn after_character(self, character: char) -> (r: Self)
        requires
            self.byte + 4 <= usize::MAX,
            self.line + 1 <= usize::MAX,
            self.column + 1 <= usize::MAX,
        ensures
            r@ == (
                self@.0 + utf8_width(character),
                if character == '\n' {
                    self@.1 + 1
                } else {
                    self@.1
                },
                if character == '\n' {
                    1
                } else {
                    self@.2 + 1
                },
            ),
    {
        let mut next = self;
        next.byte = next.byte + char_width(character);
        if character == '\n' {
            next.line = next.line + 1;
            next.column = 1;
        } else {
            next.column = next.column + 1;
        }
        next
    }

    /// The position at the end of `source`.
    pub fn from_source_text(source: &str) -> (r: Self)
        requires
            encode_utf8(source@).len() + 4 <= usize::MAX,
        ensures
            r@ == position_after(source@),
    {
        let chars = crate::text::chars_of(source);
        let mut position = Self::new_document_start();
        let mut i: usize = 0;
        while i < chars.len()
            invariant
                i <= chars@.len(),
                chars@ == source@,
                encode_utf8(source@).len() + 4 <= usize::MAX,
                position@ == position_after(
                    chars@.take(i as int),
                ),
            decreases chars.len() - i,
        {
            proof {
                assert(chars@.take(i + 1).drop_last() =~= chars@.take(i as int));
                lemma_position_bounds(chars@.take(i as int));
                lemma_position_bounds(chars@.take(i + 1));
                lemma_position_bounds(source@);
                assert(chars@.take(i + 1) =~= chars@.take(i as int).push(chars@[i as int]));
                lemma_encode_push(chars@.take(i as int), chars@[i as int]);
                lemma_prefix_encoding(source@, i + 1);
            }
            position = position.after_character(chars[i]);
            i += 1;
        }
        assert(chars@.take(chars@.len() as int) =~= source@);
        position
    }
}

/// A prefix's encoding is no longer than the whole text's.
proof fn lemma_prefix_encoding(s: Seq<char>, n: int)
    requires
        0 <= n <= s.len(),
    ensures
        encode_utf8(s.take(n)).len() <= encode_utf8(s).len(),
    decreases s.len() - n,
{
    if n < s.len() {
        lemma_prefix_encoding(s, n + 1);
        assert(s.take(n + 1) =~= s.take(n).push(s[n]));
        lemma_encode_push(s.take(n), s[n]);
    } else {
        assert(s.take(n) =~= s);
    }
}

impl SchemaSourceRange {
    /// The range between two positions.
    pub fn new(start: SchemaSourcePosition, end: SchemaSourcePosition) -> (r: Self)
        ensures
            r@ == (start@, end@),
    {
        SchemaSourceRange { start, end }
    }

    pub fn start(&self) -> (r: SchemaSourcePosition)
        ensures
            r@ == self@.0,
    {
        self.start
    }

    pub fn end(&self) -> (r: SchemaSourcePosition)
        ensures
            r@ == self@.1,
    {
        self.end
    }

    /// The range of a whole document: from its start to the position after
    /// its last character.
    pub fn from_source_text(source: &str) -> (r: Self)
        requires
            encode_utf8(source@).len() + 4 <= usize::MAX,
        ensures
            r@ == (position_after(Seq::<char>::empty()), position_after(source@)),
    {
        SchemaSourceRange {
            start: SchemaSourcePosition::new_document_start(),
            end: SchemaSourcePosition::from_source_text(source),
        }
    }
}

/// The range of a slot of root objects: from its first object's start to its
/// last object's end.
pub open spec fn slot_range(object_ranges: Seq<SchemaSourceRange>, slot: (nat, nat)) -> (
    (nat, nat, nat),
    (nat, nat, nat),
) {
    (object_ranges[slot.0 as int]@.0, object_ranges[slot.0 + slot.1 - 1]@.1)
}

/// The node type a root block kind is labelled with.
pub open spec fn node_type_of(kind: SchemaRootBlockKind) -> SchemaNodeType {
    match kind {
        SchemaRootBlockKind::Imports => SchemaNodeType::Imports,
        SchemaRootBlockKind::Input => SchemaNodeType::InputRoot,
        SchemaRootBlockKind::Output => SchemaNodeType::OutputRoot,
        SchemaRootBlockKind::Types => SchemaNodeType::Types,
        SchemaRootBlockKind::Generics => SchemaNodeType::Generics,
        SchemaRootBlockKind::Impls => SchemaNodeType::Impls,
    }
}

/// The root block kinds in file order.
pub open spec fn root_block_kind_at(i: int) -> SchemaRootBlockKind {
    if i == 0 {
        SchemaRootBlockKind::Imports
    } else if i == 1 {
        SchemaRootBlockKind::Input
    } else if i == 2 {
        SchemaRootBlockKind::Output
    } else if i == 3 {
        SchemaRootBlockKind::Types
    } else if i == 4 {
        SchemaRootBlockKind::Generics
    } else {
        SchemaRootBlockKind::Impls
    }
}

impl SchemaNodeType {
    /// The node type of a root block kind.
    pub fn from_root_block_kind(kind: SchemaRootBlockKind) -> (r: Self)
        ensures
            r == node_type_of(kind),
    {
        match kind {
            SchemaRootBlockKind::Imports => SchemaNodeType::Imports,
            SchemaRootBlockKind::Input => SchemaNodeType::InputRoot,
            SchemaRootBlockKind::Output => SchemaNodeType::OutputRoot,
            SchemaRootBlockKind::Types => SchemaNodeType::Types,
            SchemaRootBlockKind::Generics => SchemaNodeType::Generics,
            SchemaRootBlockKind::Impls => SchemaNodeType::Impls,
        }
    }
}

impl SchemaRootBlockSummary {
    pub fn kind(&self) -> (r: SchemaRootBlockKind)
        ensures
            r == self@.0,
    {
        self.kind
    }

    pub fn range(&self) -> (r: SchemaSourceRange)
        ensures
            r@ == self@.1,
    {
        self.range
    }

    pub fn node_type(&self) -> (r: SchemaNodeType)
        ensures
            r == self@.2,
    {
        self.node_type
    }

    /// The summary of a root block of the given kind spanning `range`.
    fn from_slot(kind: SchemaRootBlockKind, range: SchemaSourceRange) -> (r: Self)
        ensures
            r@ == (kind, range@, node_type_of(kind)),
    {
        SchemaRootBlockSummary { kind, range, node_type: SchemaNodeType::from_root_block_kind(kind) }
    }
}

impl SchemaNodeTypeLabel {
    pub fn node_type(&self) -> (r: SchemaNodeType)
        ensures
            r == self@.0,
    {
        self.node_type
    }

    pub fn range(&self) -> (r: SchemaSourceRange)
        ensures
            r@ == self@.1,
    {
        self.range
    }
}

/// The views of a list of root-block summaries.
pub open spec fn blocks_view(s: Seq<SchemaRootBlockSummary>) -> Seq<
    (SchemaRootBlockKind, ((nat, nat, nat), (nat, nat, nat)), SchemaNodeType),
> {
    Seq::new(s.len(), |i: int| s[i]@)
}

/// The views of a list of node-type labels.
pub open spec fn labels_view(s: Seq<SchemaNodeTypeLabel>) -> Seq<(SchemaNodeType, ((nat, nat, nat), (nat, nat, nat)))> {
    Seq::new(s.len(), |i: int| s[i]@)
}

impl SchemaSourceSummary {
    pub closed spec fn path_view(&self) -> Seq<char> {
        self.path@
    }

    pub closed spec fn file_range_view(&self) -> ((nat, nat, nat), (nat, nat, nat)) {
        self.file_range@
    }

    pub closed spec fn root_blocks_view(&self) -> Seq<
        (SchemaRootBlockKind, ((nat, nat, nat), (nat, nat, nat)), SchemaNodeType),
    > {
        blocks_view(self.root_blocks@)
    }

    pub closed spec fn labels_view(&self) -> Seq<(SchemaNodeType, ((nat, nat, nat), (nat, nat, nat)))> {
        labels_view(self.node_type_labels@)
    }

    /// Summarise one schema file from its path, its text, its root objects
    /// and the range of each: the six root blocks are the slots of the
    /// document layout, each ranging from its first object's start to its last
    /// object's end; a text without that layout has no root blocks.
    pub fn from_root_objects(
        path: &str,
        source: &str,
        objects: &[DotosBlock],
        object_ranges: &[SchemaSourceRange],
    ) -> (r: Self)
        requires
            encode_utf8(source@).len() + 4 <= usize::MAX,
            object_ranges@.len() == objects@.len(),
        ensures
            r.path_view() == path@,
            r.file_range_view() == (position_after(Seq::<char>::empty()), position_after(source@)),
            match document_layout(objects@) {
                Err(_) => r.root_blocks_view().len() == 0,
                Ok(slots) => r.root_blocks_view().len() == 6 && forall|i: int|
                    0 <= i < 6 ==> #[trigger] r.root_blocks_view()[i] == (
                        root_block_kind_at(i),
                        slot_range(object_ranges@, slots[i]),
                        node_type_of(root_block_kind_at(i)),
                    ),
            },
            r.labels_view().len() == r.root_blocks_view().len() + 1,
            r.labels_view()[0] == (SchemaNodeType::Module, r.file_range_view()),
            forall|i: int|
                0 <= i < r.root_blocks_view().len() ==> #[trigger] r.labels_view()[i + 1] == (
                    r.root_blocks_view()[i].2,
                    r.root_blocks_view()[i].1,
                ),
    {
        let layout = match SchemaDocumentLayout::from_root_objects(objects) {
            Ok(layout) => layout,
            Err(_) => return Self::from_module_source(path, source, None),
        };
        proof {
            lemma_layout_slots(objects@, 0, 0);
        }
        let slots = [
            layout.imports(),
            layout.input(),
            layout.output(),
            layout.types(),
            layout.generics(),
            layout.impls(),
        ];
        let mut ranges: Vec<SchemaSourceRange> = Vec::new();
        let mut i: usize = 0;
        while i < 6
            invariant
                i <= 6,
                slots@.len() == 6,
                forall|k: int| 0 <= k < 6 ==> (#[trigger] slots@[k])@ == layout@[k],
                document_layout(objects@) == Ok::<Seq<(nat, nat)>, crate::layout::LayoutFault>(layout@),
                object_ranges@.len() == objects@.len(),
                forall|k: int|
                    0 <= k < 6 ==> 1 <= (#[trigger] layout@[k]).1 && layout@[k].0 + layout@[k].1
                        <= objects@.len(),
                layout@.len() == 6,
                ranges@.len() == i,
                forall|k: int|
                    0 <= k < i ==> (#[trigger] ranges@[k])@ == slot_range(object_ranges@, layout@[k]),
            decreases 6 - i,
        {
            let slot = slots[i];
            let first = object_ranges[slot.start()].start();
            let last = object_ranges[slot.start() + slot.width() - 1].end();
            ranges.push(SchemaSourceRange::new(first, last));
            i += 1;
        }
        Self::from_module_source(path, source, Some(ranges.as_slice()))
    }

    /// Summarise one schema file from its path, its text, and the ranges of
    /// its six root blocks in file order (`None` when the text does not have
    /// the six-block layout, which leaves no root blocks). The labels are the
    /// whole-file module label followed by one label per root block.
    pub fn from_module_source(path: &str, source: &str, root_block_ranges: Option<&[SchemaSourceRange]>) -> (r:
        Self)
        requires
            encode_utf8(source@).len() + 4 <= usize::MAX,
            root_block_ranges matches Some(ranges) ==> ranges@.len() == 6,
        ensures
            r.path_view() == path@,
            r.file_range_view() == (position_after(Seq::<char>::empty()), position_after(source@)),
            match root_block_ranges {
                None => r.root_blocks_view().len() == 0,
                Some(ranges) => r.root_blocks_view().len() == 6 && forall|i: int|
                    0 <= i < 6 ==> #[trigger] r.root_blocks_view()[i] == (
                        root_block_kind_at(i),
                        ranges@[i]@,
                        node_type_of(root_block_kind_at(i)),
                    ),
            },
            r.labels_view().len() == r.root_blocks_view().len() + 1,
            r.labels_view()[0] == (SchemaNodeType::Module, r.file_range_view()),
            forall|i: int|
                0 <= i < r.root_blocks_view().len() ==> #[trigger] r.labels_view()[i + 1] == (
                    r.root_blocks_view()[i].2,
                    r.root_blocks_view()[i].1,
                ),
    {
        let file_range = SchemaSourceRange::from_source_text(source);
        let mut root_blocks: Vec<SchemaRootBlockSummary> = Vec::new();
        if let Some(ranges) = root_block_ranges {
            let kinds = [
                SchemaRootBlockKind::Imports,
                SchemaRootBlockKind::Input,
                SchemaRootBlockKind::Output,
                SchemaRootBlockKind::Types,
                SchemaRootBlockKind::Generics,
                SchemaRootBlockKind::Impls,
            ];
            let mut i: usize = 0;
            while i < 6
                invariant
                    i <= 6,
                    ranges@.len() == 6,
                    kinds@ == seq![
                        SchemaRootBlockKind::Imports,
                        SchemaRootBlockKind::Input,
                        SchemaRootBlockKind::Output,
                        SchemaRootBlockKind::Types,
                        SchemaRootBlockKind::Generics,
                        SchemaRootBlockKind::Impls,
                    ],
                    root_blocks@.len() == i,
                    forall|k: int|
                        0 <= k < i ==> (#[trigger] root_blocks@[k])@ == (
                            root_block_kind_at(k),
                            ranges@[k]@,
                            node_type_of(root_block_kind_at(k)),
                        ),
                decreases 6 - i,
            {
                assert(kinds@[i as int] == root_block_kind_at(i as int));
                root_blocks.push(SchemaRootBlockSummary::from_slot(kinds[i], ranges[i]));
                i += 1;
            }
        }
        let mut node_type_labels: Vec<SchemaNodeTypeLabel> = Vec::new();
        node_type_labels.push(SchemaNodeTypeLabel { node_type: SchemaNodeType::Module, range: file_range });
        let mut k: usize = 0;
        while k < root_blocks.len()
            invariant
                k <= root_blocks@.len(),
                node_type_labels@.len() == k + 1,
                node_type_labels@[0]@ == (SchemaNodeType::Module, file_range@),
                forall|i: int|
                    0 <= i < k ==> (#[trigger] node_type_labels@[i + 1])@ == (
                        root_blocks@[i]@.2,
                        root_blocks@[i]@.1,
                    ),
            decreases root_blocks.len() - k,
        {
            let block = root_blocks[k];
            node_type_labels.push(SchemaNodeTypeLabel { node_type: block.node_type, range: block.range });
            k += 1;
        }
        let r = SchemaSourceSummary { path: crate::text::owned(path), file_range, root_blocks, node_type_labels };
        assert(r.labels_view()[0] == node_type_labels@[0]@);
        r
    }

    pub fn path(&self) -> (r: &str)
        ensures
            r@ == self.path_view(),
    {
        self.path.as_str()
    }

    pub fn file_range(&self) -> (r: SchemaSourceRange)
        ensures
            r@ == self.file_range_view(),
    {
        self.file_range
    }

    pub fn root_blocks(&self) -> (r: &[SchemaRootBlockSummary])
        ensures
            blocks_view(r@) == self.root_blocks_view(),
    {
        self.root_blocks.as_slice()
    }

    pub fn node_type_labels(&self) -> (r: &[SchemaNodeTypeLabel])
        ensures
            labels_view(r@) == self.labels_view(),
    {
        self.node_type_labels.as_slice()
    }
}

impl SchemaEnvironmentManifest {
    pub fn new(module_names: Vec<Name>) -> (r: Self)
        ensures
            r.names_view() == crate::name::names_view(module_names@),
    {
        SchemaEnvironmentManifest { module_names }
    }

    pub closed spec fn names_view(&self) -> Seq<Seq<char>> {
        crate::name::names_view(self.module_names@)
    }

    pub fn module_names(&self) -> (r: &[Name])
        ensures
            crate::name::names_view(r@) == self.names_view(),
    {
        self.module_names.as_slice()
    }
}

} // verus!
