//! A parsed DOTOS block as the schema readers see it: an atom, a pipe-text
//! literal, a delimited group of blocks, or a dotted application, each with
//! the text it re-emits as in diagnostics.

use crate::engine::SchemaError;
use crate::name::{is_symbol_seq, names_view, Name};
use crate::text::{join, join_seq, owned, views_of};
use vstd::prelude::*;

verus! {

/// The delimiter of a delimited block.
#[derive(Clone, Copy, Debug, PartialEq, Eq, Structural)]
pub enum BlockDelimiter {
    Parenthesis,
    SquareBracket,
    Brace,
    PipeParenthesis,
    PipeBrace,
}

/// The shape of a block.
#[derive(Debug)]
pub enum BlockForm {
    /// A bare atom and its text.
    Atom(String),
    /// A pipe-text literal `[|…|]` and the text it carries.
    PipeText(String),
    /// A delimited group and the blocks it holds.
    Delimited(BlockDelimiter, Vec<DotosBlock>),
    /// A dotted application `head.payload`, with the dotted text the reader
    /// flattens it to when it is a plain dotted path.
    Application(Box<DotosBlock>, Box<DotosBlock>, Option<String>),
}

/// A parsed block: its shape and the text it re-emits as in diagnostics.
#[derive(Debug)]
pub struct DotosBlock {
    pub form: BlockForm,
    pub fallback: String,
}

/// The name a block spells at a name position: a symbol atom's text, or the
/// error naming what was found instead.
pub open spec fn symbol_of(b: DotosBlock) -> Result<Seq<char>, SchemaError> {
    match b.form {
        BlockForm::Atom(t) => if is_symbol_seq(t@) {
            Ok(t@)
        } else {
            Err(SchemaError::ExpectedSymbol { found: b.fallback })
        },
        _ => Err(SchemaError::ExpectedSymbol { found: b.fallback }),
    }
}

impl DotosBlock {
    /// The name this block spells: a symbol atom's text; anything else is
    /// `ExpectedSymbol` carrying the block's re-emitted text.
    pub fn schema_name(&self) -> (r: Result<Name, SchemaError>)
        ensures
            match (r, symbol_of(*self)) {
                (Ok(n), Ok(t)) => n@ == t,
                (Err(e), Err(f)) => e == f,
                _ => false,
            },
    {
        match &self.form {
            BlockForm::Atom(text) => {
                let name = Name::new(text.as_str());
                if name.qualifies_as_symbol_name() {
                    Ok(name)
                } else {
                    Err(SchemaError::ExpectedSymbol { found: self.fallback.clone() })
                }
            },
            _ => Err(SchemaError::ExpectedSymbol { found: self.fallback.clone() }),
        }
    }
}

/// A declaration head: the declared name and its type parameters.
#[derive(Debug)]
pub struct DeclarationHead {
    name: Name,
    parameters: Vec<Name>,
}

impl DeclarationHead {
    pub closed spec fn name_view(&self) -> Seq<char> {
        self.name@
    }

    pub closed spec fn parameters_view(&self) -> Seq<Seq<char>> {
        names_view(self.parameters@)
    }

    /// Decode the declaration-name position: a bare symbol atom, with no
    /// parameters.
    pub fn from_block(block: &DotosBlock) -> (r: Result<Self, SchemaError>)
        ensures
            match (r, symbol_of(*block)) {
                (Ok(h), Ok(t)) => h.name_view() == t && h.parameters_view().len() == 0,
                (Err(e), Err(f)) => e == f,
                _ => false,
            },
    {
        match block.schema_name() {
            Ok(name) => {
                let parameters: Vec<Name> = Vec::new();
                assert(names_view(parameters@) =~= Seq::<Seq<char>>::empty());
                Ok(DeclarationHead { name, parameters })
            },
            Err(e) => Err(e),
        }
    }

    pub fn name(&self) -> (r: &Name)
        ensures
            r@ == self.name_view(),
    {
        &self.name
    }

    pub fn parameters(&self) -> (r: &[Name])
        ensures
            names_view(r@) == self.parameters_view(),
    {
        self.parameters.as_slice()
    }

    pub fn into_parts(self) -> (r: (Name, Vec<Name>))
        ensures
            r.0@ == self.name_view(),
            names_view(r.1@) == self.parameters_view(),
    {
        (self.name, self.parameters)
    }
}

/// A tagged schema node `(Tag Data)`, or `(Tag)` for a unit node.
#[derive(Debug)]
pub struct SchemaNode {
    tag: Name,
    data: SchemaNodeData,
}

/// The data a schema node carries.
#[derive(Debug)]
pub enum SchemaNodeData {
    Unit,
    Value(SchemaNodeValue),
    Vector(Vec<SchemaNodeValue>),
    KeyedMap(Vec<SchemaNodePair>),
}

/// One value inside a schema node.
#[derive(Debug)]
pub enum SchemaNodeValue {
    Symbol(Name),
    Text(String),
    Node(Box<SchemaNode>),
    Vector(Vec<SchemaNodeValue>),
    KeyedMap(Vec<SchemaNodePair>),
}

/// One `key.value` entry of a schema-node map.
#[derive(Debug)]
pub struct SchemaNodePair {
    key: Name,
    value: SchemaNodeValue,
}

impl SchemaNode {
    pub closed spec fn tag_view(&self) -> Seq<char> {
        self.tag@
    }

    pub closed spec fn data_view(&self) -> SchemaNodeData {
        self.data
    }

    pub fn new(tag: Name, data: SchemaNodeData) -> (r: Self)
        ensures
            r.tag_view() == tag@,
            r.data_view() == data,
    {
        SchemaNode { tag, data }
    }

    pub fn tag(&self) -> (r: &Name)
        ensures
            r@ == self.tag_view(),
    {
        &self.tag
    }

    pub fn data(&self) -> (r: &SchemaNodeData)
        ensures
            *r == self.data_view(),
    {
        &self.data
    }
}

impl SchemaNodePair {
    pub closed spec fn key_view(&self) -> Seq<char> {
        self.key@
    }

    pub closed spec fn value_view(&self) -> SchemaNodeValue {
        self.value
    }

    pub fn new(key: Name, value: SchemaNodeValue) -> (r: Self)
        ensures
            r.key_view() == key@,
            r.value_view() == value,
    {
        SchemaNodePair { key, value }
    }

    pub fn key(&self) -> (r: &Name)
        ensures
            r@ == self.key_view(),
    {
        &self.key
    }

    pub fn value(&self) -> (r: &SchemaNodeValue)
        ensures
            *r == self.value_view(),
    {
        &self.value
    }
}

/// Whether an atom's text ends at its dot, leaving its value to the next block.
pub open spec fn ends_at_dot(b: DotosBlock) -> bool {
    match b.form {
        BlockForm::Atom(t) => t@.len() > 0 && t@.last() == '.',
        _ => false,
    }
}

pub(crate) fn block_ends_at_dot(b: &DotosBlock) -> (r: bool)
    ensures
        r == ends_at_dot(*b),
{
    match &b.form {
        BlockForm::Atom(text) => {
            let n = text.as_str().unicode_len();
            n > 0 && text.as_str().get_char(n - 1) == '.'
        },
        _ => false,
    }
}

/// One segmented declaration entry: the block carrying the key, and the block
/// carrying the value. When the value stays inline past the key's dot the key
/// block serves as both.
#[derive(Debug)]
pub struct NamespaceEntry<'schema> {
    pub name: &'schema DotosBlock,
    pub definition: &'schema DotosBlock,
}

/// A cursor over a declaration-block body that segments it into entries.
#[derive(Debug)]
pub struct NamespaceEntryWalk<'schema> {
    objects: &'schema [DotosBlock],
    cursor: usize,
}

/// The next entry from `cursor` and where the walk continues: a dotted
/// application is one entry of its key and value; a key atom ending at its dot
/// takes the following block as its value, and is an error with none after
/// it; any other block is both key and value.
pub open spec fn next_entry_spec(objects: Seq<DotosBlock>, cursor: int) -> (
    Result<Option<(DotosBlock, DotosBlock)>, SchemaError>,
    int,
) {
    if cursor >= objects.len() {
        (Ok(None), cursor)
    } else {
        let head = objects[cursor];
        match head.form {
            BlockForm::Application(name, definition, _) => (
                Ok(Some((*name, *definition))),
                cursor + 1,
            ),
            _ => if ends_at_dot(head) {
                if cursor + 1 >= objects.len() {
                    (Err(SchemaError::ExpectedDelimiter { expected: "a declaration value after a trailing-dot key" }), cursor + 1)
                } else {
                    (Ok(Some((head, objects[cursor + 1]))), cursor + 2)
                }
            } else {
                (Ok(Some((head, head))), cursor + 1)
            },
        }
    }
}

impl<'schema> NamespaceEntryWalk<'schema> {
    pub closed spec fn objects_view(&self) -> Seq<DotosBlock> {
        self.objects@
    }

    pub closed spec fn cursor_view(&self) -> int {
        self.cursor as int
    }

    pub fn new(objects: &'schema [DotosBlock]) -> (r: Self)
        ensures
            r.objects_view() == objects@,
            r.cursor_view() == 0,
    {
        NamespaceEntryWalk { objects, cursor: 0 }
    }

    /// The next entry, `None` once the body is exhausted.
    pub fn next_entry(&mut self) -> (r: Result<Option<NamespaceEntry<'schema>>, SchemaError>)
        requires
            old(self).cursor_view() <= old(self).objects_view().len(),
        ensures
            final(self).objects_view() == old(self).objects_view(),
            final(self).cursor_view() == next_entry_spec(
                old(self).objects_view(),
                old(self).cursor_view(),
            ).1,
            final(self).cursor_view() <= final(self).objects_view().len(),
            match (r, next_entry_spec(old(self).objects_view(), old(self).cursor_view()).0) {
                (Ok(Some(e)), Ok(Some(m))) => *e.name == m.0 && *e.definition == m.1,
                (Ok(None), Ok(None)) => true,
                (Err(e), Err(f)) => e == f,
                _ => false,
            },
    {
        if self.cursor >= self.objects.len() {
            return Ok(None);
        }
        let head = &self.objects[self.cursor];
        self.cursor = self.cursor + 1;
        if let BlockForm::Application(name, definition, _) = &head.form {
            return Ok(Some(NamespaceEntry { name, definition }));
        }
        let definition = if block_ends_at_dot(head) {
            if self.cursor >= self.objects.len() {
                return Err(SchemaError::ExpectedDelimiter { expected: "a declaration value after a trailing-dot key" });
            }
            let next = &self.objects[self.cursor];
            self.cursor = self.cursor + 1;
            next
        } else {
            head
        };
        Ok(Some(NamespaceEntry { name: head, definition }))
    }
}

/// A cursor over a per-kind declaration block body that segments it into one
/// key/value pair per dotted entry, yielding what it can: a key atom ending at
/// its dot with nothing after it is its own value.
#[derive(Debug)]
pub struct NamespacePairWalk<'schema> {
    objects: &'schema [DotosBlock],
    cursor: usize,
}

/// The next pair from `cursor` and where the walk continues.
pub open spec fn next_pair_spec(objects: Seq<DotosBlock>, cursor: int) -> (
    Option<(DotosBlock, DotosBlock)>,
    int,
) {
    if cursor >= objects.len() {
        (None, cursor)
    } else {
        let head = objects[cursor];
        match head.form {
            BlockForm::Application(name, definition, _) => (
                Some((*name, *definition)),
                cursor + 1,
            ),
            _ => if ends_at_dot(head) && cursor + 1 < objects.len() {
                (Some((head, objects[cursor + 1])), cursor + 2)
            } else {
                (Some((head, head)), cursor + 1)
            },
        }
    }
}

impl<'schema> NamespacePairWalk<'schema> {
    pub closed spec fn objects_view(&self) -> Seq<DotosBlock> {
        self.objects@
    }

    pub closed spec fn cursor_view(&self) -> int {
        self.cursor as int
    }

    pub fn new(objects: &'schema [DotosBlock]) -> (r: Self)
        ensures
            r.objects_view() == objects@,
            r.cursor_view() == 0,
    {
        NamespacePairWalk { objects, cursor: 0 }
    }

    /// The next key/value pair, `None` once the body is exhausted.
    pub fn next_pair(&mut self) -> (r: Option<crate::macros::MacroPair<'schema>>)
        requires
            old(self).cursor_view() <= old(self).objects_view().len(),
        ensures
            final(self).objects_view() == old(self).objects_view(),
            final(self).cursor_view() == next_pair_spec(
                old(self).objects_view(),
                old(self).cursor_view(),
            ).1,
            final(self).cursor_view() <= final(self).objects_view().len(),
            match (r, next_pair_spec(old(self).objects_view(), old(self).cursor_view()).0) {
                (Some(p), Some(m)) => *p.name == m.0 && *p.definition == m.1,
                (None, None) => true,
                _ => false,
            },
    {
        if self.cursor >= self.objects.len() {
            return None;
        }
        let head = &self.objects[self.cursor];
        self.cursor = self.cursor + 1;
        if let BlockForm::Application(name, definition, _) = &head.form {
            return Some(crate::macros::MacroPair { name, definition });
        }
        let definition = if block_ends_at_dot(head) && self.cursor < self.objects.len() {
            let next = &self.objects[self.cursor];
            self.cursor = self.cursor + 1;
            next
        } else {
            head
        };
        Some(crate::macros::MacroPair { name: head, definition })
    }
}

/// The opening text of a delimiter.
pub open spec fn opening_seq(d: BlockDelimiter) -> Seq<char> {
    match d {
        BlockDelimiter::Parenthesis => seq!['('],
        BlockDelimiter::SquareBracket => seq!['['],
        BlockDelimiter::Brace => seq!['{'],
        BlockDelimiter::PipeParenthesis => seq!['(', '|'],
        BlockDelimiter::PipeBrace => seq!['{', '|'],
    }
}

/// The closing text of a delimiter.
pub open spec fn closing_seq(d: BlockDelimiter) -> Seq<char> {
    match d {
        BlockDelimiter::Parenthesis => seq![')'],
        BlockDelimiter::SquareBracket => seq![']'],
        BlockDelimiter::Brace => seq!['}'],
        BlockDelimiter::PipeParenthesis => seq!['|', ')'],
        BlockDelimiter::PipeBrace => seq!['|', '}'],
    }
}

/// The text a block re-emits when no macro expands inside it: an atom as its
/// text, a pipe text between `[|` and `|]`, a delimited group as its
/// children's texts between its delimiters, separated by single spaces, and
/// an application as its head's text and its payload's text joined by a dot.
pub open spec fn reemitted(b: DotosBlock) -> Seq<char>
    decreases b, 0nat,
{
    match b.form {
        BlockForm::Atom(t) => t@,
        BlockForm::PipeText(t) => seq!['[', '|'] + t@ + seq!['|', ']'],
        BlockForm::Delimited(d, objects) => opening_seq(d) + join_seq(
            reemitted_all(objects@),
            seq![' '],
        ) + closing_seq(d),
        BlockForm::Application(head, payload, _) => reemitted(*head) + seq!['.'] + reemitted(
            *payload,
        ),
    }
}

/// The re-emitted texts of a list of blocks, in order.
pub open spec fn reemitted_all(s: Seq<DotosBlock>) -> Seq<Seq<char>>
    decreases s, 1nat,
{
    if s.len() == 0 {
        Seq::empty()
    } else {
        proof {
            assert(decreases_to!(s => s.subrange(0, s.len() - 1)));
        }
        reemitted_all(s.drop_last()).push(reemitted(s.last()))
    }
}

impl DotosBlock {
    /// Re-emit this block as text, recursing into its children.
    pub fn reemit(&self) -> (r: String)
        ensures
            r@ == reemitted(*self),
        decreases self, 0nat,
    {
        match &self.form {
            BlockForm::Atom(text) => text.clone(),
            BlockForm::PipeText(text) => {
                proof {
                    reveal_strlit("[|");
                    reveal_strlit("|]");
                }
                let mut r = owned("[|");
                r.append(text.as_str());
                r.append("|]");
                r
            },
            BlockForm::Delimited(delimiter, objects) => {
                proof {
                    assert(decreases_to!(*self => self.form));
                }
                let children = reemit_all(objects);
                DelimiterText::new(*delimiter).wrap(&children)
            },
            BlockForm::Application(head, payload, _) => {
                proof {
                    reveal_strlit(".");
                }
                let mut r = head.reemit();
                r.append(".");
                r.append(payload.reemit().as_str());
                r
            },
        }
    }
}

/// Re-emit each block of a list, in order.
fn reemit_all(objects: &Vec<DotosBlock>) -> (r: Vec<String>)
    ensures
        views_of(r@) == reemitted_all(objects@),
    decreases objects@, 0nat,
{
    let mut texts: Vec<String> = Vec::new();
    let mut i: usize = 0;
    proof {
        assert(objects@.take(0) =~= Seq::<DotosBlock>::empty());
        assert(views_of(texts@) =~= Seq::<Seq<char>>::empty());
    }
    while i < objects.len()
        invariant
            i <= objects@.len(),
            views_of(texts@) == reemitted_all(objects@.take(i as int)),
        decreases objects.len() - i,
    {
        proof {
            assert(objects@.take(i + 1).drop_last() =~= objects@.take(i as int));
            assert(objects@.take(i + 1).last() == objects@[i as int]);
            assert(decreases_to!(objects@ => objects@[i as int]));
        }
        let text = objects[i].reemit();
        proof {
            crate::text::lemma_views_of_push(texts@, text);
        }
        texts.push(text);
        i += 1;
    }
    assert(objects@.take(objects@.len() as int) =~= objects@);
    texts
}

/// The delimiter pair text a block tree re-emits with.
#[derive(Clone, Copy, Debug)]
pub struct DelimiterText {
    delimiter: BlockDelimiter,
}

impl DelimiterText {
    pub closed spec fn delimiter_view(&self) -> BlockDelimiter {
        self.delimiter
    }

    pub fn new(delimiter: BlockDelimiter) -> (r: Self)
        ensures
            r.delimiter_view() == delimiter,
    {
        DelimiterText { delimiter }
    }

    /// `children` between the delimiters, separated by single spaces.
    pub fn wrap(&self, children: &Vec<String>) -> (r: String)
        ensures
            r@ == opening_seq(self.delimiter_view()) + join_seq(views_of(children@), seq![' '])
                + closing_seq(self.delimiter_view()),
    {
        proof {
            reveal_strlit(" ");
            assert(" "@ =~= seq![' ']);
        }
        let mut r = owned(self.opening());
        r.append(join(children, " ").as_str());
        r.append(self.closing());
        r
    }

    pub fn opening(&self) -> (r: &'static str)
        ensures
            r@ == opening_seq(self.delimiter_view()),
    {
        proof {
            reveal_strlit("(");
            reveal_strlit("[");
            reveal_strlit("{");
            reveal_strlit("(|");
            reveal_strlit("{|");
        }
        match self.delimiter {
            BlockDelimiter::Parenthesis => "(",
            BlockDelimiter::SquareBracket => "[",
            BlockDelimiter::Brace => "{",
            BlockDelimiter::PipeParenthesis => "(|",
            BlockDelimiter::PipeBrace => "{|",
        }
    }

    pub fn closing(&self) -> (r: &'static str)
        ensures
            r@ == closing_seq(self.delimiter_view()),
    {
        proof {
            reveal_strlit(")");
            reveal_strlit("]");
            reveal_strlit("}");
            reveal_strlit("|)");
            reveal_strlit("|}");
        }
        match self.delimiter {
            BlockDelimiter::Parenthesis => ")",
            BlockDelimiter::SquareBracket => "]",
            BlockDelimiter::Brace => "}",
            BlockDelimiter::PipeParenthesis => "|)",
            BlockDelimiter::PipeBrace => "|}",
        }
    }
}

} // verus!
