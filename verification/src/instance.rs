//! Rendering the per-instance schema trace a decoder records while it reads a
//! value: at every position the reference it expected and what it realized
//! there. Two projections: the aligned one, one reference token per position,
//! and the expanded one, which follows the realized value all the way down.
//! At an enum-payload position both collapse the variant's transparent payload
//! wrapper, so the rendered token is the wrapped reference.

use crate::source_reference::{
    bytes_definition, map_definition, optional_definition, source_text_seq, source_view,
    vector_definition, SourceModel, SourceReference,
};
use crate::reference::{
    MultiTypeReferenceProjection, SingleTypeReferenceProjection, ValueReferenceProjection,
};
use crate::text::{join, join_seq, owned, views_of};
use vstd::prelude::*;

verus! {

/// A reference as the instance trace records it.
#[derive(Debug)]
pub enum InstanceReference {
    Named(String),
    Vector(Box<InstanceReference>),
    Optional(Box<InstanceReference>),
    KeyedMap(Box<InstanceReference>, Box<InstanceReference>),
    FixedBytes(u64),
}

/// What the decoder realized at one position.
#[derive(Debug)]
pub enum InstanceSchemaBody {
    Scalar,
    EnumPayload(Option<Box<InstanceSchema>>),
    Newtype(Box<InstanceSchema>),
    Optional(Option<Box<InstanceSchema>>),
    Vector(Vec<InstanceSchema>),
    KeyedMap(Vec<(InstanceSchema, InstanceSchema)>),
    Struct(Vec<InstanceSchema>),
}

/// One position of the trace: the expected reference and the realized body.
#[derive(Debug)]
pub struct InstanceSchema {
    pub expected: InstanceReference,
    pub body: InstanceSchemaBody,
}

/// A renderer over one trace node.
pub struct InstanceSchemaText<'schema> {
    schema: &'schema InstanceSchema,
}

// ---------------------------------------------------------------------------
// The source reference of a traced reference.
// ---------------------------------------------------------------------------

/// The source reference a traced reference lifts to: a named type as itself,
/// the builtin collections through their builtin definitions.
pub open spec fn instance_source_view(r: InstanceReference) -> SourceModel
    decreases r,
{
    match r {
        InstanceReference::Named(n) => SourceModel::Plain(n@),
        InstanceReference::Vector(e) => SourceModel::Single(
            vector_definition().name,
            SingleTypeReferenceProjection::Vector,
            vector_definition().pattern,
            Box::new(instance_source_view(*e)),
        ),
        InstanceReference::Optional(i) => SourceModel::Single(
            optional_definition().name,
            SingleTypeReferenceProjection::Optional,
            optional_definition().pattern,
            Box::new(instance_source_view(*i)),
        ),
        InstanceReference::KeyedMap(k, v) => SourceModel::Multi(
            map_definition().name,
            MultiTypeReferenceProjection::KeyedMap,
            map_definition().pattern,
            seq![instance_source_view(*k), instance_source_view(*v)],
        ),
        InstanceReference::FixedBytes(w) => SourceModel::Value(
            bytes_definition().name,
            ValueReferenceProjection::Bytes,
            bytes_definition().pattern,
            w,
        ),
    }
}

// ---------------------------------------------------------------------------
// The two projections.
// ---------------------------------------------------------------------------

/// `children` in braces, padded: `{}` or `{ a b }`.
pub open spec fn brace_seq(children: Seq<Seq<char>>) -> Seq<char> {
    if children.len() == 0 {
        seq!['{', '}']
    } else {
        seq!['{', ' '] + join_seq(children, seq![' ']) + seq![' ', '}']
    }
}

/// `children` between two delimiters, unpadded: `(a b)`, `[a b]`.
pub open spec fn wrap_seq(open: char, children: Seq<Seq<char>>, close: char) -> Seq<char> {
    seq![open] + join_seq(children, seq![' ']) + seq![close]
}

/// A head applied to one argument: `Head.argument`.
pub open spec fn applied_seq(head: Seq<char>, argument: Seq<char>) -> Seq<char> {
    head + seq!['.'] + argument
}

/// The expected reference's text at a position.
pub open spec fn reference_text_seq(s: InstanceSchema) -> Seq<char> {
    source_text_seq(instance_source_view(s.expected))
}

/// The reference texts of a list of positions.
pub open spec fn reference_texts(s: Seq<InstanceSchema>) -> Seq<Seq<char>> {
    s.map_values(|x: InstanceSchema| reference_text_seq(x))
}

/// The aligned projection: a struct shows its fields' references in braces;
/// an enum with a payload shows its reference applied to the collapsed
/// payload; every other position shows its reference.
pub open spec fn aligned_seq(s: InstanceSchema) -> Seq<char>
    decreases s, 0nat,
{
    match s.body {
        InstanceSchemaBody::Struct(fields) => brace_seq(reference_texts(fields@)),
        InstanceSchemaBody::EnumPayload(Some(payload)) => applied_seq(
            reference_text_seq(s),
            collapsed_reference_seq(*payload),
        ),
        _ => reference_text_seq(s),
    }
}

/// The aligned texts of a list of positions.
pub open spec fn aligned_list(s: Seq<InstanceSchema>) -> Seq<Seq<char>>
    decreases s, 0nat,
{
    if s.len() == 0 {
        Seq::empty()
    } else {
        proof {
            assert(decreases_to!(s => s.subrange(0, s.len() - 1)));
        }
        aligned_list(s.drop_last()).push(aligned_seq(s.last()))
    }
}

/// A variant payload at aligned depth, its transparent wrapper collapsed: a
/// wrapper over a struct, or a bare struct, renders as the struct's aligned
/// fields in parentheses; a wrapper over anything else renders as the wrapped
/// reference.
pub open spec fn collapsed_reference_seq(s: InstanceSchema) -> Seq<char>
    decreases s, 0nat,
{
    match s.body {
        InstanceSchemaBody::Newtype(inner) => match inner.body {
            InstanceSchemaBody::Struct(fields) => wrap_seq('(', aligned_list(fields@), ')'),
            _ => reference_text_seq(*inner),
        },
        InstanceSchemaBody::Struct(fields) => wrap_seq('(', aligned_list(fields@), ')'),
        _ => reference_text_seq(s),
    }
}

/// The expanded projection: the realized value followed all the way down.
pub open spec fn expanded_seq(s: InstanceSchema) -> Seq<char>
    decreases s, 0nat,
{
    match s.body {
        InstanceSchemaBody::Scalar => reference_text_seq(s),
        InstanceSchemaBody::EnumPayload(None) => reference_text_seq(s),
        InstanceSchemaBody::EnumPayload(Some(payload)) => applied_seq(
            reference_text_seq(s),
            collapsed_expansion_seq(*payload),
        ),
        InstanceSchemaBody::Newtype(inner) => applied_seq(
            reference_text_seq(s),
            expanded_seq(*inner),
        ),
        InstanceSchemaBody::Optional(None) => reference_text_seq(s),
        InstanceSchemaBody::Optional(Some(inner)) => applied_seq(
            reference_text_seq(s),
            expanded_seq(*inner),
        ),
        InstanceSchemaBody::Vector(elements) => if elements@.len() == 0 {
            reference_text_seq(s)
        } else {
            wrap_seq('[', expanded_list(elements@), ']')
        },
        InstanceSchemaBody::KeyedMap(pairs) => if pairs@.len() == 0 {
            reference_text_seq(s)
        } else {
            brace_seq(expanded_pairs(pairs@))
        },
        InstanceSchemaBody::Struct(fields) => brace_seq(expanded_list(fields@)),
    }
}

/// The expanded texts of a list of positions.
pub open spec fn expanded_list(s: Seq<InstanceSchema>) -> Seq<Seq<char>>
    decreases s, 0nat,
{
    if s.len() == 0 {
        Seq::empty()
    } else {
        proof {
            assert(decreases_to!(s => s.subrange(0, s.len() - 1)));
        }
        expanded_list(s.drop_last()).push(expanded_seq(s.last()))
    }
}

/// The expanded texts of a map's entries: each key, then its value.
pub open spec fn expanded_pairs(s: Seq<(InstanceSchema, InstanceSchema)>) -> Seq<Seq<char>>
    decreases s, 0nat,
{
    if s.len() == 0 {
        Seq::empty()
    } else {
        proof {
            assert(decreases_to!(s => s.subrange(0, s.len() - 1)));
        }
        expanded_pairs(s.drop_last()).push(expanded_seq(s.last().0)).push(
            expanded_seq(s.last().1),
        )
    }
}

/// A variant payload expanded, its transparent wrappers collapsed: a wrapper
/// contributes no token, and the struct it reveals renders as its field group,
/// its expanded fields in parentheses.
pub open spec fn collapsed_expansion_seq(s: InstanceSchema) -> Seq<char>
    decreases s, 1nat,
{
    match s.body {
        InstanceSchemaBody::Newtype(inner) => collapsed_expansion_seq(*inner),
        InstanceSchemaBody::Struct(fields) => wrap_seq('(', expanded_list(fields@), ')'),
        _ => expanded_seq(s),
    }
}

// ---------------------------------------------------------------------------
// The executable renderer.
// ---------------------------------------------------------------------------

fn brace(children: &Vec<String>) -> (r: String)
    ensures
        r@ == brace_seq(views_of(children@)),
{
    proof {
        reveal_strlit("{}");
        assert("{}"@ =~= seq!['{', '}']);
        reveal_strlit("{ ");
        assert("{ "@ =~= seq!['{', ' ']);
        reveal_strlit(" }");
        assert(" }"@ =~= seq![' ', '}']);
        reveal_strlit(" ");
        assert(" "@ =~= seq![' ']);
    }
    if children.len() == 0 {
        return owned("{}");
    }
    let mut r = owned("{ ");
    r.append(join(children, " ").as_str());
    r.append(" }");
    r
}

fn wrap(open: char, children: &Vec<String>, close: char) -> (r: String)
    ensures
        r@ == wrap_seq(open, views_of(children@), close),
{
    proof {
        reveal_strlit(" ");
        assert(" "@ =~= seq![' ']);
    }
    let mut r = String::new();
    crate::text::push_char(&mut r, open);
    r.append(join(children, " ").as_str());
    crate::text::push_char(&mut r, close);
    r
}

fn applied(head: String, argument: String) -> (r: String)
    ensures
        r@ == applied_seq(head@, argument@),
{
    proof {
        reveal_strlit(".");
        assert("."@ =~= seq!['.']);
    }
    let mut r = head;
    r.append(".");
    r.append(argument.as_str());
    r
}

impl<'schema> InstanceSchemaText<'schema> {
    pub closed spec fn schema_view(&self) -> InstanceSchema {
        *self.schema
    }

    pub fn new(schema: &'schema InstanceSchema) -> (r: Self)
        ensures
            r.schema_view() == *schema,
    {
        InstanceSchemaText { schema }
    }

    /// The reference the decoder expected at this position, rendered through
    /// the schema encoder.
    pub fn reference_text(&self) -> (r: String)
        ensures
            r@ == reference_text_seq(self.schema_view()),
    {
        SourceReference::from_instance_reference(&self.schema.expected).rendered_schema_text()
    }

    /// The aligned projection.
    pub fn aligned(&self) -> (r: String)
        ensures
            r@ == aligned_seq(self.schema_view()),
        decreases self.schema_view(), 0nat,
    {
        match &self.schema.body {
            InstanceSchemaBody::Struct(fields) => {
                let ghost target = reference_texts(fields@);
                let mut texts: Vec<String> = Vec::new();
                let mut i: usize = 0;
                while i < fields.len()
                    invariant
                        i <= fields@.len(),
                        target == reference_texts(fields@),
                        views_of(texts@) == target.take(i as int),
                    decreases fields.len() - i,
                {
                    let text = InstanceSchemaText::new(&fields[i]).reference_text();
                    proof {
                        crate::text::lemma_views_of_push(texts@, text);
                    }
                    texts.push(text);
                    assert(target.take(i + 1) =~= target.take(i as int).push(target[i as int]));
                    i += 1;
                }
                assert(target.take(fields@.len() as int) =~= target);
                brace(&texts)
            },
            InstanceSchemaBody::EnumPayload(Some(payload)) => {
                proof {
                    assert(decreases_to!(*self.schema => self.schema.body));
                }
                let payload_text = InstanceSchemaText::new(payload).collapsed_reference();
                applied(self.reference_text(), payload_text)
            },
            _ => self.reference_text(),
        }
    }

    fn aligned_texts(fields: &Vec<InstanceSchema>) -> (r: Vec<String>)
        ensures
            views_of(r@) == aligned_list(fields@),
        decreases fields@, 0nat,
    {
        let mut texts: Vec<String> = Vec::new();
        let mut i: usize = 0;
        assert(fields@.take(0) =~= Seq::<InstanceSchema>::empty());
        assert(views_of(texts@) =~= Seq::<Seq<char>>::empty());
        while i < fields.len()
            invariant
                i <= fields@.len(),
                views_of(texts@) == aligned_list(fields@.take(i as int)),
            decreases fields.len() - i,
        {
            proof {
                assert(fields@.take(i + 1).drop_last() =~= fields@.take(i as int));
                assert(decreases_to!(fields@ => fields@[i as int]));
            }
            let text = InstanceSchemaText::new(&fields[i]).aligned();
            proof {
                crate::text::lemma_views_of_push(texts@, text);
            }
            texts.push(text);
            i += 1;
        }
        assert(fields@.take(fields@.len() as int) =~= fields@);
        texts
    }

    fn collapsed_reference(&self) -> (r: String)
        ensures
            r@ == collapsed_reference_seq(self.schema_view()),
        decreases self.schema_view(), 0nat,
    {
        match &self.schema.body {
            InstanceSchemaBody::Newtype(inner) => match &inner.body {
                InstanceSchemaBody::Struct(fields) => {
                    proof {
                        assert(decreases_to!(*self.schema => self.schema.body));
                    }
                    wrap('(', &Self::aligned_texts(fields), ')')
                },
                _ => InstanceSchemaText::new(inner).reference_text(),
            },
            InstanceSchemaBody::Struct(fields) => wrap('(', &Self::aligned_texts(fields), ')'),
            _ => self.reference_text(),
        }
    }

    /// The expanded projection.
    pub fn expanded(&self) -> (r: String)
        ensures
            r@ == expanded_seq(self.schema_view()),
        decreases self.schema_view(), 0nat,
    {
        proof {
            assert(decreases_to!(*self.schema => self.schema.body));
        }
        match &self.schema.body {
            InstanceSchemaBody::Scalar => self.reference_text(),
            InstanceSchemaBody::EnumPayload(None) => self.reference_text(),
            InstanceSchemaBody::EnumPayload(Some(payload)) => {
                let payload_text = InstanceSchemaText::new(payload).collapsed_expansion();
                applied(self.reference_text(), payload_text)
            },
            InstanceSchemaBody::Newtype(inner) => {
                let inner_text = InstanceSchemaText::new(inner).expanded();
                applied(self.reference_text(), inner_text)
            },
            InstanceSchemaBody::Optional(None) => self.reference_text(),
            InstanceSchemaBody::Optional(Some(inner)) => {
                let inner_text = InstanceSchemaText::new(inner).expanded();
                applied(self.reference_text(), inner_text)
            },
            InstanceSchemaBody::Vector(elements) => {
                if elements.len() == 0 {
                    return self.reference_text();
                }
                wrap('[', &Self::expanded_texts(elements), ']')
            },
            InstanceSchemaBody::KeyedMap(pairs) => {
                if pairs.len() == 0 {
                    return self.reference_text();
                }
                brace(&Self::expanded_pair_texts(pairs))
            },
            InstanceSchemaBody::Struct(fields) => brace(&Self::expanded_texts(fields)),
        }
    }

    fn expanded_texts(items: &Vec<InstanceSchema>) -> (r: Vec<String>)
        ensures
            views_of(r@) == expanded_list(items@),
        decreases items@, 0nat,
    {
        let mut texts: Vec<String> = Vec::new();
        let mut i: usize = 0;
        assert(items@.take(0) =~= Seq::<InstanceSchema>::empty());
        assert(views_of(texts@) =~= Seq::<Seq<char>>::empty());
        while i < items.len()
            invariant
                i <= items@.len(),
                views_of(texts@) == expanded_list(items@.take(i as int)),
            decreases items.len() - i,
        {
            proof {
                assert(items@.take(i + 1).drop_last() =~= items@.take(i as int));
                assert(decreases_to!(items@ => items@[i as int]));
            }
            let text = InstanceSchemaText::new(&items[i]).expanded();
            proof {
                crate::text::lemma_views_of_push(texts@, text);
            }
            texts.push(text);
            i += 1;
        }
        assert(items@.take(items@.len() as int) =~= items@);
        texts
    }

    fn expanded_pair_texts(pairs: &Vec<(InstanceSchema, InstanceSchema)>) -> (r: Vec<String>)
        ensures
            views_of(r@) == expanded_pairs(pairs@),
        decreases pairs@, 0nat,
    {
        let mut texts: Vec<String> = Vec::new();
        let mut i: usize = 0;
        assert(pairs@.take(0) =~= Seq::<(InstanceSchema, InstanceSchema)>::empty());
        assert(views_of(texts@) =~= Seq::<Seq<char>>::empty());
        while i < pairs.len()
            invariant
                i <= pairs@.len(),
                views_of(texts@) == expanded_pairs(pairs@.take(i as int)),
            decreases pairs.len() - i,
        {
            proof {
                assert(pairs@.take(i + 1).drop_last() =~= pairs@.take(i as int));
                assert(decreases_to!(pairs@ => pairs@[i as int]));
                assert(decreases_to!(pairs@[i as int] => pairs@[i as int].0));
                assert(decreases_to!(pairs@[i as int] => pairs@[i as int].1));
            }
            let key = InstanceSchemaText::new(&pairs[i].0).expanded();
            let value = InstanceSchemaText::new(&pairs[i].1).expanded();
            proof {
                crate::text::lemma_views_of_push(texts@, key);
            }
            texts.push(key);
            proof {
                crate::text::lemma_views_of_push(texts@, value);
            }
            texts.push(value);
            i += 1;
        }
        assert(pairs@.take(pairs@.len() as int) =~= pairs@);
        texts
    }

    fn collapsed_expansion(&self) -> (r: String)
        ensures
            r@ == collapsed_expansion_seq(self.schema_view()),
        decreases self.schema_view(), 1nat,
    {
        proof {
            assert(decreases_to!(*self.schema => self.schema.body));
        }
        match &self.schema.body {
            InstanceSchemaBody::Newtype(inner) => InstanceSchemaText::new(inner).collapsed_expansion(),
            InstanceSchemaBody::Struct(fields) => wrap('(', &Self::expanded_texts(fields), ')'),
            _ => self.expanded(),
        }
    }
}

} // verus!
