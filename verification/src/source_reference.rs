//! The source-side reference grammar: dotted references `Head.Arg` /
//! `Head.(A B)` as authored, with the builtin generic definitions that lower a
//! head to its projection by definition data.

use crate::engine::SchemaError;
use crate::factoring::{children_model, hoist_head_model, with_children_model};
use crate::instance::{instance_source_view, InstanceReference};
use crate::name::{dotos_seq, field_seq, local_seq, Name};
use crate::lowering::{namespace_view, resolve_source, resolve_sources, SourceTypeResolver};
use crate::reference::{
    from_name_view, head_view, reference_view, references_view, ApplicationHead,
    MultiTypeReferenceProjection, ReferenceModel, SingleTypeReferenceProjection, TypeReference,
    ValueReferenceProjection, HeadModel,
};
use crate::text::{
    char_is_whitespace, chars_of, decimal_seq, decimal_text, join, join_seq, owned, parse_u64,
    parse_unsigned, unicode_white_space, views_of,
};
use vstd::prelude::*;

verus! {

/// How a generic application derives the field name of a component typed by it.
#[derive(Debug)]
pub enum SourceApplicationFieldNamePattern {
    Prefix(Name),
    Suffix(Name),
    ValueByKey,
    Constant(Name),
}

/// The value argument of a value application.
#[derive(Clone, Copy, Debug, PartialEq, Eq, Structural)]
pub enum SourceGenericValue {
    UnsignedInteger(u64),
}

/// A reference as authored in `.schema` source.
#[derive(Debug)]
pub enum SourceReference {
    Plain(Name),
    ValueApplication(Box<SourceValueApplication>),
    SingleTypeApplication(Box<SourceSingleTypeApplication>),
    MultiTypeApplication(Box<SourceMultiTypeApplication>),
    Application { head: Name, arguments: Vec<SourceReference> },
}

#[derive(Debug)]
pub struct SourceValueApplication {
    head: Name,
    projection: ValueReferenceProjection,
    field_name_pattern: SourceApplicationFieldNamePattern,
    value: SourceGenericValue,
}

#[derive(Debug)]
pub struct SourceSingleTypeApplication {
    head: Name,
    projection: SingleTypeReferenceProjection,
    field_name_pattern: SourceApplicationFieldNamePattern,
    argument: Box<SourceReference>,
}

#[derive(Debug)]
pub struct SourceMultiTypeApplication {
    head: Name,
    projection: MultiTypeReferenceProjection,
    field_name_pattern: SourceApplicationFieldNamePattern,
    arguments: Vec<SourceReference>,
}

/// The mathematical form of a field-name pattern.
pub enum PatternModel {
    Prefix(Seq<char>),
    Suffix(Seq<char>),
    ValueByKey,
    Constant(Seq<char>),
}

/// The mathematical form of a source reference.
pub enum SourceModel {
    Plain(Seq<char>),
    Value(Seq<char>, ValueReferenceProjection, PatternModel, u64),
    Single(Seq<char>, SingleTypeReferenceProjection, PatternModel, Box<SourceModel>),
    Multi(Seq<char>, MultiTypeReferenceProjection, PatternModel, Seq<SourceModel>),
    Application(Seq<char>, Seq<SourceModel>),
}

pub open spec fn pattern_view(p: SourceApplicationFieldNamePattern) -> PatternModel {
    match p {
        SourceApplicationFieldNamePattern::Prefix(n) => PatternModel::Prefix(n@),
        SourceApplicationFieldNamePattern::Suffix(n) => PatternModel::Suffix(n@),
        SourceApplicationFieldNamePattern::ValueByKey => PatternModel::ValueByKey,
        SourceApplicationFieldNamePattern::Constant(n) => PatternModel::Constant(n@),
    }
}

pub closed spec fn source_view(r: SourceReference) -> SourceModel
    decreases r,
{
    match r {
        SourceReference::Plain(n) => SourceModel::Plain(n@),
        SourceReference::ValueApplication(a) => SourceModel::Value(
            a.head@,
            a.projection,
            pattern_view(a.field_name_pattern),
            match a.value {
                SourceGenericValue::UnsignedInteger(v) => v,
            },
        ),
        SourceReference::SingleTypeApplication(a) => SourceModel::Single(
            a.head@,
            a.projection,
            pattern_view(a.field_name_pattern),
            Box::new(source_view(*a.argument)),
        ),
        SourceReference::MultiTypeApplication(a) => SourceModel::Multi(
            a.head@,
            a.projection,
            pattern_view(a.field_name_pattern),
            sources_view(a.arguments@),
        ),
        SourceReference::Application { head, arguments } => SourceModel::Application(
            head@,
            sources_view(arguments@),
        ),
    }
}

pub closed spec fn sources_view(s: Seq<SourceReference>) -> Seq<SourceModel>
    decreases s,
{
    Seq::new(
        s.len(),
        |i: int|
            if 0 <= i < s.len() {
                source_view(s[i])
            } else {
                SourceModel::Plain(Seq::empty())
            },
    )
}

/// Whether an argument text can follow a head's dot without grouping: it holds
/// no whitespace and no parentheses.
pub open spec fn can_inline_seq(t: Seq<char>) -> bool {
    forall|i: int| 0 <= i < t.len() ==> !unicode_white_space(#[trigger] t[i]) && t[i] != '('
        && t[i] != ')'
}

/// The dotted application text of a head over its argument texts.
pub open spec fn application_text_seq(head: Seq<char>, parts: Seq<Seq<char>>) -> Seq<char> {
    if parts.len() == 1 && can_inline_seq(parts[0]) {
        dotos_seq(head) + seq!['.'] + parts[0]
    } else {
        dotos_seq(head) + seq!['.', '('] + join_seq(parts, seq![' ']) + seq![')']
    }
}

/// The schema text of a source reference.
pub open spec fn source_text_seq(r: SourceModel) -> Seq<char>
    decreases r,
{
    match r {
        SourceModel::Plain(n) => dotos_seq(n),
        SourceModel::Value(head, _, _, v) => application_text_seq(head, seq![decimal_seq(v as nat)]),
        SourceModel::Single(head, _, _, a) => application_text_seq(head, seq![source_text_seq(*a)]),
        SourceModel::Multi(head, _, _, args) => application_text_seq(head, source_texts(args)),
        SourceModel::Application(head, args) => application_text_seq(head, source_texts(args)),
    }
}

pub open spec fn source_texts(args: Seq<SourceModel>) -> Seq<Seq<char>>
    decreases args,
{
    Seq::new(
        args.len(),
        |i: int|
            if 0 <= i < args.len() {
                source_text_seq(args[i])
            } else {
                Seq::empty()
            },
    )
}

/// The field name a pattern derives from its first two argument derivations.
pub open spec fn pattern_field_from(p: PatternModel, first: Seq<char>, second: Seq<char>) -> Seq<
    char,
> {
    match p {
        PatternModel::Prefix(prefix) => prefix + seq!['_'] + first,
        PatternModel::Suffix(suffix) => first + seq!['_'] + suffix,
        PatternModel::ValueByKey => second + seq!['_', 'b', 'y', '_'] + first,
        PatternModel::Constant(name) => name,
    }
}

/// The derivation at `index` of a list of derivations, or empty when absent.
pub open spec fn part_at(parts: Seq<Seq<char>>, index: int) -> Seq<char> {
    if 0 <= index < parts.len() {
        parts[index]
    } else {
        Seq::empty()
    }
}

/// The field name derived from a reference: snake_case of a plain name, the
/// definition's pattern for a builtin application (a missing argument derives
/// as empty), or the head's snake_case followed by `_` and each argument's
/// derivation for a general application.
pub open spec fn derived_seq(r: SourceModel) -> Seq<char>
    decreases r,
{
    match r {
        SourceModel::Plain(n) => field_seq(local_seq(n)),
        SourceModel::Value(_, _, p, _) => pattern_field_from(p, Seq::empty(), Seq::empty()),
        SourceModel::Single(_, _, p, a) => pattern_field_from(p, derived_seq(*a), Seq::empty()),
        SourceModel::Multi(_, _, p, args) => pattern_field_from(
            p,
            part_at(derived_parts(args), 0),
            part_at(derived_parts(args), 1),
        ),
        SourceModel::Application(head, args) => application_field_seq(
            field_seq(local_seq(head)),
            derived_parts(args),
            args.len() as int,
        ),
    }
}

/// The derivation of each argument.
pub open spec fn derived_parts(args: Seq<SourceModel>) -> Seq<Seq<char>>
    decreases args,
{
    Seq::new(
        args.len(),
        |i: int|
            if 0 <= i < args.len() {
                derived_seq(args[i])
            } else {
                Seq::empty()
            },
    )
}

/// The head's field name followed by `_` and each of the first `n` parts.
pub open spec fn application_field_seq(head: Seq<char>, parts: Seq<Seq<char>>, n: int) -> Seq<
    char,
>
    decreases n,
{
    if n <= 0 || n > parts.len() {
        head
    } else {
        application_field_seq(head, parts, n - 1) + seq!['_'] + parts[n - 1]
    }
}

/// The semantic reference a source reference lowers to.
pub open spec fn lowered_view(r: SourceModel) -> ReferenceModel
    decreases r,
{
    match r {
        SourceModel::Plain(n) => from_name_view(n),
        SourceModel::Value(_, p, _, v) => ReferenceModel::Value(p, v),
        SourceModel::Single(_, p, _, a) => ReferenceModel::Single(p, Box::new(lowered_view(*a))),
        SourceModel::Multi(_, p, _, args) => ReferenceModel::Multi(p, lowered_views(args)),
        SourceModel::Application(head, args) => ReferenceModel::Application(
            HeadModel::Local(head),
            lowered_views(args),
        ),
    }
}

pub open spec fn lowered_views(args: Seq<SourceModel>) -> Seq<ReferenceModel>
    decreases args,
{
    Seq::new(
        args.len(),
        |i: int|
            if 0 <= i < args.len() {
                lowered_view(args[i])
            } else {
                ReferenceModel::String
            },
    )
}

pub proof fn lemma_sources_index(s: Seq<SourceReference>, i: int)
    requires
        0 <= i < s.len(),
    ensures
        sources_view(s).len() == s.len(),
        sources_view(s)[i] == source_view(s[i]),
{
}

pub proof fn lemma_sources_len(s: Seq<SourceReference>)
    ensures
        sources_view(s).len() == s.len(),
{
}

/// The source views of a list grown by one reference.
pub proof fn lemma_sources_push(s: Seq<SourceReference>, x: SourceReference)
    ensures
        sources_view(s.push(x)) =~= sources_view(s).push(source_view(x)),
{
    assert forall|i: int| 0 <= i < s.len() implies sources_view(s.push(x))[i] == sources_view(
        s,
    )[i] by {
        assert(s.push(x)[i] == s[i]);
    }
}

impl SourceApplicationFieldNamePattern {
    pub fn deep_clone(&self) -> (r: Self)
        ensures
            pattern_view(r) == pattern_view(*self),
    {
        match self {
            Self::Prefix(n) => Self::Prefix(n.clone()),
            Self::Suffix(n) => Self::Suffix(n.clone()),
            Self::ValueByKey => Self::ValueByKey,
            Self::Constant(n) => Self::Constant(n.clone()),
        }
    }

    /// The field name this pattern derives from the first two argument
    /// derivations.
    fn apply(&self, first: &Name, second: &Name) -> (r: Name)
        ensures
            r@ == pattern_field_from(pattern_view(*self), first@, second@),
    {
        match self {
            Self::Prefix(prefix) => {
                let mut text = owned(prefix.as_str());
                text.append("_");
                text.append(first.as_str());
                proof {
                    reveal_strlit("_");
                }
                assert(text@ =~= pattern_field_from(pattern_view(*self), first@, second@));
                Name::from_string(text)
            },
            Self::Suffix(suffix) => {
                let mut text = owned(first.as_str());
                text.append("_");
                text.append(suffix.as_str());
                proof {
                    reveal_strlit("_");
                }
                assert(text@ =~= pattern_field_from(pattern_view(*self), first@, second@));
                Name::from_string(text)
            },
            Self::ValueByKey => {
                let mut text = owned(second.as_str());
                text.append("_by_");
                text.append(first.as_str());
                proof {
                    reveal_strlit("_by_");
                }
                assert(text@ =~= pattern_field_from(pattern_view(*self), first@, second@));
                Name::from_string(text)
            },
            Self::Constant(name) => name.clone(),
        }
    }
}

impl SourceValueApplication {
    pub closed spec fn view(&self) -> SourceModel {
        source_view(SourceReference::ValueApplication(Box::new(*self)))
    }
}

impl SourceReference {
    pub open spec fn view_of(&self) -> SourceModel {
        source_view(*self)
    }

    /// A plain reference to `name`.
    pub fn plain(name: Name) -> (r: Self)
        ensures
            source_view(r) == SourceModel::Plain(name@),
    {
        SourceReference::Plain(name)
    }

    /// A general application of `head` to `arguments`.
    pub fn application(head: Name, arguments: Vec<SourceReference>) -> (r: Self)
        ensures
            source_view(r) == SourceModel::Application(head@, sources_view(arguments@)),
    {
        SourceReference::Application { head, arguments }
    }

    /// A copy of this reference.
    pub fn deep_clone(&self) -> (r: Self)
        ensures
            source_view(r) == source_view(*self),
        decreases self,
    {
        match self {
            Self::Plain(n) => Self::Plain(n.clone()),
            Self::ValueApplication(a) => Self::ValueApplication(
                Box::new(
                    SourceValueApplication {
                        head: a.head.clone(),
                        projection: a.projection,
                        field_name_pattern: a.field_name_pattern.deep_clone(),
                        value: a.value,
                    },
                ),
            ),
            Self::SingleTypeApplication(a) => Self::SingleTypeApplication(
                Box::new(
                    SourceSingleTypeApplication {
                        head: a.head.clone(),
                        projection: a.projection,
                        field_name_pattern: a.field_name_pattern.deep_clone(),
                        argument: Box::new(a.argument.deep_clone()),
                    },
                ),
            ),
            Self::MultiTypeApplication(a) => {
                let arguments = clone_sources(&a.arguments);
                Self::MultiTypeApplication(
                    Box::new(
                        SourceMultiTypeApplication {
                            head: a.head.clone(),
                            projection: a.projection,
                            field_name_pattern: a.field_name_pattern.deep_clone(),
                            arguments,
                        },
                    ),
                )
            },
            Self::Application { head, arguments } => Self::Application {
                head: head.clone(),
                arguments: clone_sources(arguments),
            },
        }
    }

    /// The source reference a traced instance reference lifts to: a named type
    /// as itself, the builtin collections through their builtin definitions.
    pub fn from_instance_reference(reference: &InstanceReference) -> (r: Self)
        ensures
            source_view(r) == instance_source_view(*reference),
        decreases reference,
    {
        match reference {
            InstanceReference::Named(name) => Self::Plain(Name::new(name.as_str())),
            InstanceReference::Vector(element) => {
                let definition = SourceGenericDefinition::single_type_definition_for(
                    SingleTypeReferenceProjection::Vector,
                );
                definition.source_single_type_application(Self::from_instance_reference(element))
            },
            InstanceReference::Optional(inner) => {
                let definition = SourceGenericDefinition::single_type_definition_for(
                    SingleTypeReferenceProjection::Optional,
                );
                definition.source_single_type_application(Self::from_instance_reference(inner))
            },
            InstanceReference::KeyedMap(key, value) => {
                let definition = SourceGenericDefinition::multi_type_definition_for(
                    MultiTypeReferenceProjection::KeyedMap,
                );
                let arguments = vec![
                    Self::from_instance_reference(key),
                    Self::from_instance_reference(value),
                ];
                proof {
                    lemma_sources_len(arguments@);
                    lemma_sources_index(arguments@, 0);
                    lemma_sources_index(arguments@, 1);
                    assert(sources_view(arguments@) =~= seq![
                        instance_source_view(**key),
                        instance_source_view(**value),
                    ]);
                }
                definition.source_multi_type_application(arguments)
            },
            InstanceReference::FixedBytes(width) => {
                let definition = SourceGenericDefinition::value_definition_for(
                    ValueReferenceProjection::Bytes,
                );
                definition.source_value_application(SourceGenericValue::UnsignedInteger(*width))
            },
        }
    }

    /// The plain type name when this is a bare named type.
    pub fn plain_name(&self) -> (r: Option<&Name>)
        ensures
            match r {
                Some(n) => source_view(*self) == SourceModel::Plain(n@),
                None => !(source_view(*self) is Plain),
            },
    {
        match self {
            Self::Plain(name) => Some(name),
            _ => None,
        }
    }

    /// The unsigned integer a plain reference spells, if it spells one.
    pub fn unsigned_integer_argument(&self) -> (r: Option<u64>)
        ensures
            r == match source_view(*self) {
                SourceModel::Plain(n) => parse_unsigned(n),
                _ => None,
            },
    {
        match self {
            Self::Plain(name) => parse_u64(name.as_str()),
            _ => None,
        }
    }

    /// Render through the schema encoder.
    pub fn rendered_schema_text(&self) -> (r: String)
        ensures
            r@ == source_text_seq(source_view(*self)),
    {
        self.to_schema_text()
    }

    /// The dotted schema text of this reference.
    pub fn to_schema_text(&self) -> (r: String)
        ensures
            r@ == source_text_seq(source_view(*self)),
        decreases self,
    {
        match self {
            Self::Plain(name) => name.to_dotos(),
            Self::ValueApplication(application) => {
                let value = match application.value {
                    SourceGenericValue::UnsignedInteger(v) => v,
                };
                let parts = vec![decimal_text(value)];
                assert(views_of(parts@) =~= seq![decimal_seq(value as nat)]);
                application_text_for_head(&application.head, &parts)
            },
            Self::SingleTypeApplication(application) => {
                let parts = vec![application.argument.to_schema_text()];
                assert(views_of(parts@) =~= seq![
                    source_text_seq(source_view(*application.argument)),
                ]);
                application_text_for_head(&application.head, &parts)
            },
            Self::MultiTypeApplication(application) => {
                let parts = texts_of(&application.arguments);
                application_text_for_head(&application.head, &parts)
            },
            Self::Application { head, arguments } => {
                let parts = texts_of(arguments);
                application_text_for_head(head, &parts)
            },
        }
    }

    /// The field name derived from this reference.
    #[verifier::loop_isolation(false)]
    pub fn derived_field_name(&self) -> (r: Name)
        ensures
            r@ == derived_seq(source_view(*self)),
        decreases self,
    {
        match self {
            Self::Plain(name) => {
                let r = Name::from_string(name.field_name());
                assert(source_view(*self) == SourceModel::Plain(name@));
                r
            },
            Self::ValueApplication(application) => {
                let empty = Name::new("");
                proof {
                    reveal_strlit("");
                }
                assert(empty@ =~= Seq::<char>::empty());
                application.field_name_pattern.apply(&empty, &empty)
            },
            Self::SingleTypeApplication(application) => {
                let first = application.argument.derived_field_name();
                let empty = Name::new("");
                proof {
                    reveal_strlit("");
                }
                assert(empty@ =~= Seq::<char>::empty());
                application.field_name_pattern.apply(&first, &empty)
            },
            Self::MultiTypeApplication(application) => {
                let arguments = &application.arguments;
                proof {
                    lemma_sources_len(arguments@);
                }
                let first = if arguments.len() > 0 {
                    proof {
                        assert(decreases_to!(*arguments => arguments@));
                        assert(decreases_to!(arguments@ => arguments@[0]));
                        assert(decreases_to!(*self => arguments@[0]));
                        lemma_sources_index(arguments@, 0);
                    }
                    arguments[0].derived_field_name()
                } else {
                    proof {
                        reveal_strlit("");
                    }
                    let e = Name::new("");
                    assert(e@ =~= Seq::<char>::empty());
                    e
                };
                let second = if arguments.len() > 1 {
                    proof {
                        assert(decreases_to!(*arguments => arguments@));
                        assert(decreases_to!(arguments@ => arguments@[1]));
                        assert(decreases_to!(*self => arguments@[1]));
                        lemma_sources_index(arguments@, 1);
                    }
                    arguments[1].derived_field_name()
                } else {
                    proof {
                        reveal_strlit("");
                    }
                    let e = Name::new("");
                    assert(e@ =~= Seq::<char>::empty());
                    e
                };
                proof {
                    let parts = derived_parts(sources_view(arguments@));
                    if arguments@.len() > 0 {
                        lemma_sources_index(arguments@, 0);
                        assert(parts[0] == derived_seq(source_view(arguments@[0])));
                    }
                    if arguments@.len() > 1 {
                        lemma_sources_index(arguments@, 1);
                        assert(parts[1] == derived_seq(source_view(arguments@[1])));
                    }
                    assert(first@ == part_at(parts, 0));
                    assert(second@ == part_at(parts, 1));
                }
                application.field_name_pattern.apply(&first, &second)
            },
            Self::Application { head, arguments } => {
                let mut derived = head.field_name();
                let mut i: usize = 0;
                proof {
                    lemma_sources_len(arguments@);
                }
                while i < arguments.len()
                    invariant
                        i <= arguments@.len(),
                        sources_view(arguments@).len() == arguments@.len(),
                        derived_parts(sources_view(arguments@)).len() == arguments@.len(),
                        derived@ == application_field_seq(
                            field_seq(local_seq(head@)),
                            derived_parts(sources_view(arguments@)),
                            i as int,
                        ),
                    decreases arguments.len() - i,
                {
                    proof {
                        assert(decreases_to!(*arguments => arguments@));
                        assert(decreases_to!(arguments@ => arguments@[i as int]));
                        assert(decreases_to!(*self => arguments@[i as int]));
                        lemma_sources_index(arguments@, i as int);
                    }
                    let piece = arguments[i].derived_field_name();
                    derived.append("_");
                    derived.append(piece.as_str());
                    proof {
                        reveal_strlit("_");
                        assert(derived_parts(sources_view(arguments@))[i as int] == derived_seq(
                            source_view(arguments@[i as int]),
                        ));
                    }
                    i += 1;
                }
                Name::from_string(derived)
            },
        }
    }

    /// The semantic reference this source reference lowers to.
    pub fn to_type_reference(&self) -> (r: TypeReference)
        ensures
            reference_view(r) == lowered_view(source_view(*self)),
        decreases self,
    {
        match self {
            Self::Plain(name) => TypeReference::from_name(name.clone()),
            Self::ValueApplication(application) => {
                let value = match application.value {
                    SourceGenericValue::UnsignedInteger(v) => v,
                };
                TypeReference::value_application(application.projection, value)
            },
            Self::SingleTypeApplication(application) => TypeReference::single_type_application(
                application.projection,
                application.argument.to_type_reference(),
            ),
            Self::MultiTypeApplication(application) => TypeReference::multi_type_application(
                application.projection,
                lower_all(&application.arguments),
            ),
            Self::Application { head, arguments } => TypeReference::application(
                ApplicationHead::Local(head.clone()),
                lower_all(arguments),
            ),
        }
    }

    /// The source reference that renders a semantic reference: scalars as their
    /// reserved names, builtin applications through their definitions, general
    /// applications by their head's local name.
    pub fn from_type_reference(reference: &TypeReference) -> (r: Self)
        ensures
            source_view(r) == raised_view(reference_view(*reference)),
        decreases reference,
    {
        match reference {
            TypeReference::Plain(name) => Self::Plain(name.clone()),
            TypeReference::SingleTypeApplication { projection, argument } => {
                let definition = SourceGenericDefinition::single_type_definition_for(*projection);
                let inner = Self::from_type_reference(argument);
                definition.source_single_type_application(inner)
            },
            TypeReference::MultiTypeApplication { projection, arguments } => {
                proof {
                    crate::reference::lemma_multi_args(*reference);
                }
                let definition = SourceGenericDefinition::multi_type_definition_for(*projection);
                definition.source_multi_type_application(raise_all(arguments))
            },
            TypeReference::ValueApplication { projection, value } => {
                let definition = SourceGenericDefinition::value_definition_for(*projection);
                definition.source_value_application(SourceGenericValue::UnsignedInteger(*value))
            },
            TypeReference::Application { head, arguments } => {
                proof {
                    crate::reference::lemma_app_args(*reference);
                }
                Self::Application { head: head.name().clone(), arguments: raise_all(arguments) }
            },
            _ => {
                let name = match reference.scalar_name() {
                    Some(n) => n,
                    None => "",
                };
                Self::Plain(Name::new(name))
            },
        }
    }

    /// Build a reference from an application head and its arguments: a builtin
    /// head lowers through its definition; any other PascalCase head is a
    /// general application.
    pub fn from_application_parts(head: Name, arguments: Vec<SourceReference>) -> (r: Result<
        Self,
        SchemaError,
    >)
        ensures
            match builtin_definition(head@) {
                Some(d) => match definition_lowering(d, sources_view(arguments@)) {
                    Some(v) => r matches Ok(x) && source_view(x) == v,
                    None => r matches Err(e) && lowering_error(e, d, sources_view(arguments@)),
                },
                None => if crate::name::is_pascal_seq(head@) {
                    r matches Ok(v) && source_view(v) == SourceModel::Application(
                        head@,
                        sources_view(arguments@),
                    )
                } else {
                    r matches Err(SchemaError::ExpectedSyntaxReference { found }) && found@
                        == crate::name::dotos_seq(head@)
                },
            },
    {
        let table = SourceGenericDefinitions::builtin();
        match table.definition(&head) {
            Some(definition) => definition.lower(arguments),
            None => {
                if !head.qualifies_as_pascal_case() {
                    return Err(SchemaError::ExpectedSyntaxReference { found: head.to_dotos() });
                }
                Ok(Self::Application { head, arguments })
            },
        }
    }
}

impl SourceReference {
    /// The head type name a hoist derives its linkname from; `None` for a
    /// leaf (a plain name or a value application).
    pub(crate) fn hoistable_head(&self) -> (r: Option<&Name>)
        ensures
            match r {
                Some(h) => hoist_head_model(source_view(*self)) == Some(h@),
                None => hoist_head_model(source_view(*self)) is None,
            },
    {
        match self {
            Self::SingleTypeApplication(a) => Some(&a.head),
            Self::MultiTypeApplication(a) => Some(&a.head),
            Self::Application { head, .. } => Some(head),
            Self::Plain(_) | Self::ValueApplication(_) => None,
        }
    }

    /// The nested references, in order: the one argument of a single-type
    /// application, the arguments of the other applications, none for a leaf.
    pub(crate) fn children(&self) -> (r: Vec<&SourceReference>)
        ensures
            refs_views(r@) == children_model(source_view(*self)),
    {
        match self {
            Self::SingleTypeApplication(a) => {
                let argument: &SourceReference = &a.argument;
                let v = vec![argument];
                assert(refs_views(v@) =~= seq![source_view(*a.argument)]);
                v
            },
            Self::MultiTypeApplication(a) => {
                let v = refs_of(&a.arguments);
                proof {
                    lemma_refs_views_of(v@, a.arguments@);
                }
                v
            },
            Self::Application { arguments, .. } => {
                let v = refs_of(arguments);
                proof {
                    lemma_refs_views_of(v@, arguments@);
                }
                v
            },
            Self::Plain(_) | Self::ValueApplication(_) => {
                let v: Vec<&SourceReference> = Vec::new();
                assert(refs_views(v@) =~= Seq::<SourceModel>::empty());
                v
            },
        }
    }

    /// This reference rebuilt over `children` in place of its nested
    /// references; a leaf is copied unchanged.
    pub(crate) fn with_children(&self, children: Vec<SourceReference>) -> (r: SourceReference)
        requires
            children@.len() == children_model(source_view(*self)).len(),
        ensures
            source_view(r) == with_children_model(source_view(*self), sources_view(children@)),
    {
        match self {
            Self::SingleTypeApplication(a) => {
                let mut children = children;
                proof {
                    lemma_sources_index(children@, 0);
                }
                let ghost first = children@[0];
                let argument = children.pop().unwrap();
                Self::SingleTypeApplication(
                    Box::new(
                        SourceSingleTypeApplication {
                            head: a.head.clone(),
                            projection: a.projection,
                            field_name_pattern: a.field_name_pattern.deep_clone(),
                            argument: Box::new(argument),
                        },
                    ),
                )
            },
            Self::MultiTypeApplication(a) => Self::MultiTypeApplication(
                Box::new(
                    SourceMultiTypeApplication {
                        head: a.head.clone(),
                        projection: a.projection,
                        field_name_pattern: a.field_name_pattern.deep_clone(),
                        arguments: children,
                    },
                ),
            ),
            Self::Application { head, .. } => Self::Application {
                head: head.clone(),
                arguments: children,
            },
            Self::Plain(_) | Self::ValueApplication(_) => self.deep_clone(),
        }
    }
}

proof fn lemma_refs_views_of(v: Seq<&SourceReference>, s: Seq<SourceReference>)
    requires
        v.len() == s.len(),
        forall|i: int| 0 <= i < v.len() ==> *v[i] == s[i],
    ensures
        refs_views(v) == sources_view(s),
{
    lemma_sources_len(s);
    assert forall|i: int| 0 <= i < v.len() implies refs_views(v)[i] == sources_view(s)[i] by {
        lemma_sources_index(s, i);
    }
    assert(refs_views(v) =~= sources_view(s));
}

/// The views of a list of source references, in order.
pub open spec fn refs_views(s: Seq<&SourceReference>) -> Seq<SourceModel> {
    Seq::new(s.len(), |i: int| source_view(*s[i]))
}

fn refs_of(arguments: &Vec<SourceReference>) -> (r: Vec<&SourceReference>)
    ensures
        r@.len() == arguments@.len(),
        forall|i: int| 0 <= i < r@.len() ==> *r@[i] == arguments@[i],
{
    let mut out: Vec<&SourceReference> = Vec::new();
    let mut i: usize = 0;
    while i < arguments.len()
        invariant
            i <= arguments@.len(),
            out@.len() == i,
            forall|j: int| 0 <= j < i ==> *out@[j] == arguments@[j],
        decreases arguments.len() - i,
    {
        out.push(&arguments[i]);
        i += 1;
    }
    out
}

fn clone_sources(arguments: &Vec<SourceReference>) -> (r: Vec<SourceReference>)
    ensures
        sources_view(r@) == sources_view(arguments@),
    decreases arguments,
{
    let mut out: Vec<SourceReference> = Vec::new();
    let mut i: usize = 0;
    while i < arguments.len()
        invariant
            i <= arguments@.len(),
            out@.len() == i,
            forall|j: int| 0 <= j < i ==> source_view(out@[j]) == source_view(arguments@[j]),
        decreases arguments.len() - i,
    {
        proof {
            assert(decreases_to!(*arguments => arguments@));
            assert(decreases_to!(arguments@ => arguments@[i as int]));
        }
        out.push(arguments[i].deep_clone());
        i += 1;
    }
    assert(sources_view(out@) =~= sources_view(arguments@));
    out
}

fn texts_of(arguments: &Vec<SourceReference>) -> (r: Vec<String>)
    ensures
        views_of(r@) == source_texts(sources_view(arguments@)),
    decreases arguments,
{
    let mut out: Vec<String> = Vec::new();
    let mut i: usize = 0;
    proof {
        lemma_sources_len(arguments@);
    }
    while i < arguments.len()
        invariant
            i <= arguments@.len(),
            sources_view(arguments@).len() == arguments@.len(),
            views_of(out@) =~= source_texts(sources_view(arguments@)).subrange(0, i as int),
        decreases arguments.len() - i,
    {
        proof {
            assert(decreases_to!(*arguments => arguments@));
            assert(decreases_to!(arguments@ => arguments@[i as int]));
            lemma_sources_index(arguments@, i as int);
        }
        let ghost before = out@;
        let text = arguments[i].to_schema_text();
        out.push(text);
        assert(views_of(out@) =~= views_of(before).push(text@));
        assert(source_texts(sources_view(arguments@)).subrange(0, i + 1) =~= source_texts(
            sources_view(arguments@),
        ).subrange(0, i as int).push(text@));
        i += 1;
    }
    assert(source_texts(sources_view(arguments@)).subrange(0, arguments@.len() as int)
        =~= source_texts(sources_view(arguments@)));
    out
}

impl SourceReference {
    /// The reference this resolves to against the declared names of
    /// `resolver`, inside namespace `ns`.
    pub fn resolve_with(&self, resolver: &SourceTypeResolver, ns: Option<&Name>) -> (r: TypeReference)
        ensures
            reference_view(r) == resolve_source(resolver@, namespace_view(ns), source_view(*self)),
        decreases self,
    {
        match self {
            Self::Plain(name) => resolver.resolve_name(ns, name),
            Self::ValueApplication(_) => self.to_type_reference(),
            Self::SingleTypeApplication(application) => TypeReference::single_type_application(
                application.projection,
                application.argument.resolve_with(resolver, ns),
            ),
            Self::MultiTypeApplication(application) => TypeReference::multi_type_application(
                application.projection,
                resolve_all(&application.arguments, resolver, ns),
            ),
            Self::Application { head, arguments } => TypeReference::application(
                ApplicationHead::Local(resolver.visible_name(ns, head)),
                resolve_all(arguments, resolver, ns),
            ),
        }
    }
}

fn resolve_all(arguments: &Vec<SourceReference>, resolver: &SourceTypeResolver, ns: Option<&Name>) -> (r: Vec<
    TypeReference,
>)
    ensures
        references_view(r@) == resolve_sources(resolver@, namespace_view(ns), sources_view(arguments@)),
    decreases arguments,
{
    let mut out: Vec<TypeReference> = Vec::new();
    let mut i: usize = 0;
    proof {
        lemma_sources_len(arguments@);
    }
    while i < arguments.len()
        invariant
            i <= arguments@.len(),
            sources_view(arguments@).len() == arguments@.len(),
            out@.len() == i,
            forall|j: int|
                0 <= j < i ==> reference_view(out@[j]) == resolve_source(
                    resolver@,
                    namespace_view(ns),
                    sources_view(arguments@)[j],
                ),
        decreases arguments.len() - i,
    {
        proof {
            assert(decreases_to!(*arguments => arguments@));
            assert(decreases_to!(arguments@ => arguments@[i as int]));
            lemma_sources_index(arguments@, i as int);
        }
        out.push(arguments[i].resolve_with(resolver, ns));
        i += 1;
    }
    assert(references_view(out@) =~= resolve_sources(resolver@, namespace_view(ns), sources_view(arguments@)));
    out
}

fn lower_all(arguments: &Vec<SourceReference>) -> (r: Vec<TypeReference>)
    ensures
        references_view(r@) == lowered_views(sources_view(arguments@)),
    decreases arguments,
{
    let mut out: Vec<TypeReference> = Vec::new();
    let mut i: usize = 0;
    proof {
        lemma_sources_len(arguments@);
    }
    while i < arguments.len()
        invariant
            i <= arguments@.len(),
            sources_view(arguments@).len() == arguments@.len(),
            out@.len() == i,
            forall|j: int|
                0 <= j < i ==> reference_view(out@[j]) == lowered_view(
                    sources_view(arguments@)[j],
                ),
        decreases arguments.len() - i,
    {
        proof {
            assert(decreases_to!(*arguments => arguments@));
            assert(decreases_to!(arguments@ => arguments@[i as int]));
            lemma_sources_index(arguments@, i as int);
        }
        out.push(arguments[i].to_type_reference());
        i += 1;
    }
    assert(references_view(out@) =~= lowered_views(sources_view(arguments@)));
    out
}

fn raise_all(arguments: &Vec<TypeReference>) -> (r: Vec<SourceReference>)
    ensures
        sources_view(r@) == raised_views(references_view(arguments@)),
    decreases arguments,
{
    let mut out: Vec<SourceReference> = Vec::new();
    let mut i: usize = 0;
    while i < arguments.len()
        invariant
            i <= arguments@.len(),
            out@.len() == i,
            forall|j: int|
                0 <= j < i ==> source_view(out@[j]) == raised_view(
                    references_view(arguments@)[j],
                ),
        decreases arguments.len() - i,
    {
        proof {
            assert(decreases_to!(*arguments => arguments@));
            assert(decreases_to!(arguments@ => arguments@[i as int]));
        }
        out.push(SourceReference::from_type_reference(&arguments[i]));
        i += 1;
    }
    proof {
        lemma_sources_len(out@);
    }
    assert(sources_view(out@) =~= raised_views(references_view(arguments@)));
    out
}

/// The dotted application text of `head` over the argument texts.
fn application_text_for_head(head: &Name, parts: &Vec<String>) -> (r: String)
    ensures
        r@ == application_text_seq(head@, views_of(parts@)),
{
    let mut text = head.to_dotos();
    if parts.len() == 1 && can_inline(parts[0].as_str()) {
        text.append(".");
        text.append(parts[0].as_str());
        proof {
            reveal_strlit(".");
        }
        assert(text@ =~= application_text_seq(head@, views_of(parts@)));
        text
    } else {
        text.append(".(");
        text.append(join(parts, " ").as_str());
        text.append(")");
        proof {
            reveal_strlit(".(");
            reveal_strlit(" ");
            reveal_strlit(")");
        }
        assert(" "@ =~= seq![' ']);
        assert(text@ =~= application_text_seq(head@, views_of(parts@)));
        text
    }
}

pub(crate) fn can_inline(text: &str) -> (r: bool)
    ensures
        r == can_inline_seq(text@),
{
    let chars = chars_of(text);
    let mut i: usize = 0;
    while i < chars.len()
        invariant
            i <= chars@.len(),
            chars@ == text@,
            forall|j: int|
                0 <= j < i ==> !unicode_white_space(#[trigger] chars@[j]) && chars@[j] != '('
                    && chars@[j] != ')',
        decreases chars.len() - i,
    {
        let c = chars[i];
        if char_is_whitespace(c) || c == '(' || c == ')' {
            return false;
        }
        i += 1;
    }
    true
}

/// The field-name pattern of a generic definition.
#[derive(Clone, Copy, Debug)]
pub enum SourceGenericFieldNamePattern {
    Prefix(&'static str),
    Suffix(&'static str),
    ValueByKey,
    Constant(&'static str),
}

/// What a value generic reads its argument as.
#[derive(Clone, Copy, Debug, PartialEq, Eq, Structural)]
pub enum SourceGenericValueKind {
    UnsignedInteger,
}

/// The kind of a generic definition: its argument shape and projection.
#[derive(Clone, Copy, Debug)]
pub enum SourceGenericDefinitionKind {
    Value(SourceGenericValueKind, ValueReferenceProjection),
    SingleType(SingleTypeReferenceProjection),
    MultiType(usize, MultiTypeReferenceProjection),
}

/// A generic definition: a head name, its kind, and its field-name pattern.
#[derive(Clone, Copy, Debug)]
pub struct SourceGenericDefinition {
    pub name: &'static str,
    pub kind: SourceGenericDefinitionKind,
    pub field_name_pattern: SourceGenericFieldNamePattern,
}

/// The pattern a definition installs on the applications it lowers.
pub open spec fn generic_pattern_view(p: SourceGenericFieldNamePattern) -> PatternModel {
    match p {
        SourceGenericFieldNamePattern::Prefix(s) => PatternModel::Prefix(s@),
        SourceGenericFieldNamePattern::Suffix(s) => PatternModel::Suffix(s@),
        SourceGenericFieldNamePattern::ValueByKey => PatternModel::ValueByKey,
        SourceGenericFieldNamePattern::Constant(s) => PatternModel::Constant(s@),
    }
}

/// The argument count a definition kind requires.
pub open spec fn kind_argument_count(k: SourceGenericDefinitionKind) -> int {
    match k {
        SourceGenericDefinitionKind::Value(_, _) => 1,
        SourceGenericDefinitionKind::SingleType(_) => 1,
        SourceGenericDefinitionKind::MultiType(n, _) => n as int,
    }
}

/// The mathematical form of a generic definition.
pub struct DefinitionModel {
    pub name: Seq<char>,
    pub kind: SourceGenericDefinitionKind,
    pub pattern: PatternModel,
}

pub open spec fn definition_view(d: SourceGenericDefinition) -> DefinitionModel {
    DefinitionModel {
        name: d.name@,
        kind: d.kind,
        pattern: generic_pattern_view(d.field_name_pattern),
    }
}

pub open spec fn vector_definition() -> DefinitionModel {
    DefinitionModel {
        name: seq!['V', 'e', 'c', 't', 'o', 'r'],
        kind: SourceGenericDefinitionKind::SingleType(SingleTypeReferenceProjection::Vector),
        pattern: PatternModel::Suffix(seq!['v', 'e', 'c', 't', 'o', 'r']),
    }
}

pub open spec fn optional_definition() -> DefinitionModel {
    DefinitionModel {
        name: seq!['O', 'p', 't', 'i', 'o', 'n', 'a', 'l'],
        kind: SourceGenericDefinitionKind::SingleType(SingleTypeReferenceProjection::Optional),
        pattern: PatternModel::Prefix(seq!['o', 'p', 't', 'i', 'o', 'n', 'a', 'l']),
    }
}

pub open spec fn scope_definition() -> DefinitionModel {
    DefinitionModel {
        name: seq!['S', 'c', 'o', 'p', 'e', 'O', 'f'],
        kind: SourceGenericDefinitionKind::SingleType(SingleTypeReferenceProjection::ScopeOf),
        pattern: PatternModel::Suffix(seq!['s', 'c', 'o', 'p', 'e']),
    }
}

pub open spec fn map_definition() -> DefinitionModel {
    DefinitionModel {
        name: seq!['M', 'a', 'p'],
        kind: SourceGenericDefinitionKind::MultiType(2, MultiTypeReferenceProjection::KeyedMap),
        pattern: PatternModel::ValueByKey,
    }
}

pub open spec fn bytes_definition() -> DefinitionModel {
    DefinitionModel {
        name: seq!['B', 'y', 't', 'e', 's'],
        kind: SourceGenericDefinitionKind::Value(
            SourceGenericValueKind::UnsignedInteger,
            ValueReferenceProjection::Bytes,
        ),
        pattern: PatternModel::Constant(seq!['b', 'y', 't', 'e', 's']),
    }
}

/// The builtin generic definitions, in table order.
pub open spec fn builtin_table() -> Seq<DefinitionModel> {
    seq![
        vector_definition(),
        optional_definition(),
        scope_definition(),
        map_definition(),
        bytes_definition(),
    ]
}

/// The builtin definition named `name`, if any.
pub open spec fn builtin_definition(name: Seq<char>) -> Option<DefinitionModel> {
    if name == vector_definition().name {
        Some(vector_definition())
    } else if name == optional_definition().name {
        Some(optional_definition())
    } else if name == scope_definition().name {
        Some(scope_definition())
    } else if name == map_definition().name {
        Some(map_definition())
    } else if name == bytes_definition().name {
        Some(bytes_definition())
    } else {
        None
    }
}

/// The builtin single-type definition carrying projection `p`.
pub open spec fn single_definition_of(p: SingleTypeReferenceProjection) -> DefinitionModel {
    match p {
        SingleTypeReferenceProjection::Vector => vector_definition(),
        SingleTypeReferenceProjection::Optional => optional_definition(),
        SingleTypeReferenceProjection::ScopeOf => scope_definition(),
    }
}

/// The unsigned value a plain argument spells.
pub open spec fn unsigned_of(a: SourceModel) -> Option<u64> {
    match a {
        SourceModel::Plain(n) => crate::text::parse_unsigned(n),
        _ => None,
    }
}

/// The result of lowering `args` through definition `d`: the arity must be the
/// kind's; a value kind reads its argument as an unsigned literal.
pub open spec fn definition_lowering(d: DefinitionModel, args: Seq<SourceModel>) -> Option<SourceModel> {
    if args.len() != kind_argument_count(d.kind) {
        None
    } else {
        match d.kind {
            SourceGenericDefinitionKind::Value(_, p) => match unsigned_of(args[0]) {
                Some(v) => Some(SourceModel::Value(d.name, p, d.pattern, v)),
                None => None,
            },
            SourceGenericDefinitionKind::SingleType(p) => Some(
                SourceModel::Single(d.name, p, d.pattern, Box::new(args[0])),
            ),
            SourceGenericDefinitionKind::MultiType(_, p) => Some(
                SourceModel::Multi(d.name, p, d.pattern, args),
            ),
        }
    }
}

/// The error a failed lowering through definition `d` is reported with: a
/// wrong argument count, else a value argument that is not an unsigned
/// literal, reported by its schema text.
pub open spec fn lowering_error(e: SchemaError, d: DefinitionModel, args: Seq<SourceModel>) -> bool {
    if args.len() != kind_argument_count(d.kind) {
        e matches SchemaError::GenericArityMismatch { head, expected, found } && head@ == d.name && expected
            == kind_argument_count(d.kind) && found == args.len()
    } else {
        e matches SchemaError::ExpectedSyntaxReference { found } && found@ == source_text_seq(args[0])
    }
}

/// The source form of a semantic reference: scalars by their reserved names,
/// builtin applications through their definitions, a general application by
/// its head's local name.
pub open spec fn raised_view(r: ReferenceModel) -> SourceModel
    decreases r,
{
    match r {
        ReferenceModel::Plain(n) => SourceModel::Plain(n),
        ReferenceModel::Single(p, a) => SourceModel::Single(
            single_definition_of(p).name,
            p,
            single_definition_of(p).pattern,
            Box::new(raised_view(*a)),
        ),
        ReferenceModel::Multi(p, args) => SourceModel::Multi(
            map_definition().name,
            p,
            map_definition().pattern,
            raised_views(args),
        ),
        ReferenceModel::Value(p, v) => SourceModel::Value(
            bytes_definition().name,
            p,
            bytes_definition().pattern,
            v,
        ),
        ReferenceModel::Application(h, args) => SourceModel::Application(
            crate::reference::head_name_seq(h),
            raised_views(args),
        ),
        _ => SourceModel::Plain(crate::reference::scalar_seq(r)->0),
    }
}

pub open spec fn raised_views(args: Seq<ReferenceModel>) -> Seq<SourceModel>
    decreases args,
{
    Seq::new(
        args.len(),
        |i: int|
            if 0 <= i < args.len() {
                raised_view(args[i])
            } else {
                SourceModel::Plain(Seq::empty())
            },
    )
}

/// The builtin generic definition table.
struct SourceGenericDefinitions {
    definitions: Vec<SourceGenericDefinition>,
}

impl SourceGenericFieldNamePattern {
    fn into_application_pattern(self) -> (r: SourceApplicationFieldNamePattern)
        ensures
            pattern_view(r) == generic_pattern_view(self),
    {
        match self {
            Self::Prefix(prefix) => SourceApplicationFieldNamePattern::Prefix(Name::new(prefix)),
            Self::Suffix(suffix) => SourceApplicationFieldNamePattern::Suffix(Name::new(suffix)),
            Self::ValueByKey => SourceApplicationFieldNamePattern::ValueByKey,
            Self::Constant(name) => SourceApplicationFieldNamePattern::Constant(Name::new(name)),
        }
    }
}

impl SourceGenericDefinitionKind {
    pub fn argument_count(self) -> (r: usize)
        ensures
            r as int == kind_argument_count(self),
    {
        match self {
            Self::Value(_, _) | Self::SingleType(_) => 1,
            Self::MultiType(count, _) => count,
        }
    }
}

impl SourceGenericDefinition {
    /// A value definition.
    pub fn value(
        name: &'static str,
        value_kind: SourceGenericValueKind,
        projection: ValueReferenceProjection,
        field_name_pattern: SourceGenericFieldNamePattern,
    ) -> (r: Self)
        ensures
            definition_view(r) == (DefinitionModel {
                name: name@,
                kind: SourceGenericDefinitionKind::Value(value_kind, projection),
                pattern: generic_pattern_view(field_name_pattern),
            }),
    {
        Self {
            name,
            kind: SourceGenericDefinitionKind::Value(value_kind, projection),
            field_name_pattern,
        }
    }

    /// A single-type definition.
    pub fn single_type(
        name: &'static str,
        projection: SingleTypeReferenceProjection,
        field_name_pattern: SourceGenericFieldNamePattern,
    ) -> (r: Self)
        ensures
            definition_view(r) == (DefinitionModel {
                name: name@,
                kind: SourceGenericDefinitionKind::SingleType(projection),
                pattern: generic_pattern_view(field_name_pattern),
            }),
    {
        Self { name, kind: SourceGenericDefinitionKind::SingleType(projection), field_name_pattern }
    }

    /// A multi-type definition of `argument_count` arguments.
    pub fn multi_type(
        name: &'static str,
        argument_count: usize,
        projection: MultiTypeReferenceProjection,
        field_name_pattern: SourceGenericFieldNamePattern,
    ) -> (r: Self)
        ensures
            definition_view(r) == (DefinitionModel {
                name: name@,
                kind: SourceGenericDefinitionKind::MultiType(argument_count, projection),
                pattern: generic_pattern_view(field_name_pattern),
            }),
    {
        Self {
            name,
            kind: SourceGenericDefinitionKind::MultiType(argument_count, projection),
            field_name_pattern,
        }
    }

    /// Lower an argument list through this definition. A wrong argument count
    /// is a `GenericArityMismatch`; a value argument that is not an unsigned
    /// literal is an `ExpectedSyntaxReference`.
    pub fn lower(self, arguments: Vec<SourceReference>) -> (r: Result<SourceReference, SchemaError>)
        ensures
            match definition_lowering(definition_view(self), sources_view(arguments@)) {
                Some(v) => r matches Ok(x) && source_view(x) == v,
                None => r matches Err(e) && lowering_error(e, definition_view(self), sources_view(arguments@)),
            },
    {
        let expected = self.kind.argument_count();
        proof {
            lemma_sources_len(arguments@);
        }
        if expected != arguments.len() {
            return Err(
                SchemaError::GenericArityMismatch {
                    head: owned(self.name),
                    expected,
                    found: arguments.len(),
                },
            );
        }
        let head = Name::new(self.name);
        let field_name_pattern = self.field_name_pattern.into_application_pattern();
        let mut arguments = arguments;
        let ghost original = arguments@;
        proof {
            if original.len() > 0 {
                lemma_sources_index(original, 0);
            }
        }
        match self.kind {
            SourceGenericDefinitionKind::Value(_, projection) => {
                let argument = arguments.swap_remove(0);
                match argument.unsigned_integer_argument() {
                    Some(value) => Ok(
                        SourceReference::ValueApplication(
                            Box::new(
                                SourceValueApplication {
                                    head,
                                    projection,
                                    field_name_pattern,
                                    value: SourceGenericValue::UnsignedInteger(value),
                                },
                            ),
                        ),
                    ),
                    None => Err(
                        SchemaError::ExpectedSyntaxReference { found: argument.to_schema_text() },
                    ),
                }
            },
            SourceGenericDefinitionKind::SingleType(projection) => {
                let argument = arguments.swap_remove(0);
                Ok(
                    SourceReference::SingleTypeApplication(
                        Box::new(
                            SourceSingleTypeApplication {
                                head,
                                projection,
                                field_name_pattern,
                                argument: Box::new(argument),
                            },
                        ),
                    ),
                )
            },
            SourceGenericDefinitionKind::MultiType(_, projection) => Ok(
                SourceReference::MultiTypeApplication(
                    Box::new(
                        SourceMultiTypeApplication { head, projection, field_name_pattern, arguments },
                    ),
                ),
            ),
        }
    }

    /// The value application this definition builds around `value`.
    pub fn source_value_application(self, value: SourceGenericValue) -> (r: SourceReference)
        requires
            self.kind is Value,
        ensures
            source_view(r) == SourceModel::Value(
                self.name@,
                self.kind->Value_1,
                generic_pattern_view(self.field_name_pattern),
                match value {
                    SourceGenericValue::UnsignedInteger(v) => v,
                },
            ),
    {
        let projection = match self.kind {
            SourceGenericDefinitionKind::Value(_, projection) => projection,
            _ => ValueReferenceProjection::Bytes,
        };
        SourceReference::ValueApplication(
            Box::new(
                SourceValueApplication {
                    head: Name::new(self.name),
                    projection,
                    field_name_pattern: self.field_name_pattern.into_application_pattern(),
                    value,
                },
            ),
        )
    }

    /// The single-type application this definition builds around `argument`.
    pub fn source_single_type_application(self, argument: SourceReference) -> (r: SourceReference)
        requires
            self.kind is SingleType,
        ensures
            source_view(r) == SourceModel::Single(
                self.name@,
                self.kind->SingleType_0,
                generic_pattern_view(self.field_name_pattern),
                Box::new(source_view(argument)),
            ),
    {
        let projection = match self.kind {
            SourceGenericDefinitionKind::SingleType(projection) => projection,
            _ => SingleTypeReferenceProjection::Vector,
        };
        SourceReference::SingleTypeApplication(
            Box::new(
                SourceSingleTypeApplication {
                    head: Name::new(self.name),
                    projection,
                    field_name_pattern: self.field_name_pattern.into_application_pattern(),
                    argument: Box::new(argument),
                },
            ),
        )
    }

    /// The multi-type application this definition builds around `arguments`.
    pub fn source_multi_type_application(self, arguments: Vec<SourceReference>) -> (r:
        SourceReference)
        requires
            self.kind is MultiType,
        ensures
            source_view(r) == SourceModel::Multi(
                self.name@,
                self.kind->MultiType_1,
                generic_pattern_view(self.field_name_pattern),
                sources_view(arguments@),
            ),
    {
        let projection = match self.kind {
            SourceGenericDefinitionKind::MultiType(_, projection) => projection,
            _ => MultiTypeReferenceProjection::KeyedMap,
        };
        SourceReference::MultiTypeApplication(
            Box::new(
                SourceMultiTypeApplication {
                    head: Name::new(self.name),
                    projection,
                    field_name_pattern: self.field_name_pattern.into_application_pattern(),
                    arguments,
                },
            ),
        )
    }

    fn single_type_definition_for(projection: SingleTypeReferenceProjection) -> (r: Self)
        ensures
            definition_view(r) == single_definition_of(projection),
    {
        let table = SourceGenericDefinitions::builtin();
        let r = match projection {
            SingleTypeReferenceProjection::Vector => table.definitions[0],
            SingleTypeReferenceProjection::Optional => table.definitions[1],
            SingleTypeReferenceProjection::ScopeOf => table.definitions[2],
        };
        r
    }

    fn multi_type_definition_for(projection: MultiTypeReferenceProjection) -> (r: Self)
        ensures
            definition_view(r) == map_definition(),
    {
        let table = SourceGenericDefinitions::builtin();
        table.definitions[3]
    }

    fn value_definition_for(projection: ValueReferenceProjection) -> (r: Self)
        ensures
            definition_view(r) == bytes_definition(),
    {
        let table = SourceGenericDefinitions::builtin();
        table.definitions[4]
    }
}

impl SourceGenericDefinitions {
    /// The builtin table: `Vector`, `Optional`, `ScopeOf`, `Map`, `Bytes`.
    fn builtin() -> (r: Self)
        ensures
            r.definitions@.len() == 5,
            forall|i: int| 0 <= i < 5 ==> definition_view(#[trigger] r.definitions@[i]) == builtin_table()[i],
    {
        let definitions = vec![
            SourceGenericDefinition::single_type(
                "Vector",
                SingleTypeReferenceProjection::Vector,
                SourceGenericFieldNamePattern::Suffix("vector"),
            ),
            SourceGenericDefinition::single_type(
                "Optional",
                SingleTypeReferenceProjection::Optional,
                SourceGenericFieldNamePattern::Prefix("optional"),
            ),
            SourceGenericDefinition::single_type(
                "ScopeOf",
                SingleTypeReferenceProjection::ScopeOf,
                SourceGenericFieldNamePattern::Suffix("scope"),
            ),
            SourceGenericDefinition::multi_type(
                "Map",
                2,
                MultiTypeReferenceProjection::KeyedMap,
                SourceGenericFieldNamePattern::ValueByKey,
            ),
            SourceGenericDefinition::value(
                "Bytes",
                SourceGenericValueKind::UnsignedInteger,
                ValueReferenceProjection::Bytes,
                SourceGenericFieldNamePattern::Constant("bytes"),
            ),
        ];
        proof {
            reveal_strlit("Vector");
            reveal_strlit("vector");
            reveal_strlit("Optional");
            reveal_strlit("optional");
            reveal_strlit("ScopeOf");
            reveal_strlit("scope");
            reveal_strlit("Map");
            reveal_strlit("Bytes");
            reveal_strlit("bytes");
            assert("Vector"@ =~= vector_definition().name);
            assert("vector"@ =~= seq!['v', 'e', 'c', 't', 'o', 'r']);
            assert("Optional"@ =~= optional_definition().name);
            assert("optional"@ =~= seq!['o', 'p', 't', 'i', 'o', 'n', 'a', 'l']);
            assert("ScopeOf"@ =~= scope_definition().name);
            assert("scope"@ =~= seq!['s', 'c', 'o', 'p', 'e']);
            assert("Map"@ =~= map_definition().name);
            assert("Bytes"@ =~= bytes_definition().name);
            assert("bytes"@ =~= seq!['b', 'y', 't', 'e', 's']);
        }
        SourceGenericDefinitions { definitions }
    }

    /// The definition whose head is `name`.
    fn definition(&self, name: &Name) -> (r: Option<SourceGenericDefinition>)
        requires
            self.definitions@.len() == 5,
            forall|i: int| 0 <= i < 5 ==> definition_view(#[trigger] self.definitions@[i]) == builtin_table()[i],
        ensures
            match r {
                Some(d) => builtin_definition(name@) == Some(definition_view(d)),
                None => builtin_definition(name@) is None,
            },
    {
        let mut i: usize = 0;
        while i < self.definitions.len()
            invariant
                i <= 5,
                self.definitions@.len() == 5,
                forall|k: int| 0 <= k < 5 ==> definition_view(#[trigger] self.definitions@[k]) == builtin_table()[k],
                forall|k: int| 0 <= k < i ==> builtin_table()[k].name != name@,
            decreases 5 - i,
        {
            let candidate = self.definitions[i];
            if name.is(candidate.name) {
                assert(definition_view(self.definitions@[i as int]) == builtin_table()[i as int]);
                return Some(candidate);
            }
            i += 1;
        }
        None
    }
}


/// The field name a reference derives when it stands unnamed in a struct.
pub open spec fn reference_field_seq(r: ReferenceModel) -> Seq<char> {
    derived_seq(raised_view(r))
}

/// The source-grammar text of a reference.
pub open spec fn reference_text_seq(r: ReferenceModel) -> Seq<char> {
    source_text_seq(raised_view(r))
}

impl TypeReference {
    /// The field name this reference derives: the same derivation the source
    /// form of the reference applies.
    pub fn derived_field_name(&self) -> (r: Name)
        ensures
            r@ == reference_field_seq(reference_view(*self)),
    {
        SourceReference::from_type_reference(self).derived_field_name()
    }

    /// The source-grammar projection of this reference: a bare name for a leaf
    /// and the dotted positional form for every composite.
    pub fn to_structural_dotos(&self) -> (r: String)
        ensures
            r@ == reference_text_seq(reference_view(*self)),
    {
        SourceReference::from_type_reference(self).to_schema_text()
    }
}

} // verus!
