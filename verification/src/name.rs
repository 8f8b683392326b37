//! Names and symbol paths: the human-facing identifiers of the schema model.

use crate::engine::SchemaIdentity;
use crate::text::{
    ascii_lower, char_is_whitespace, chars_of, contains_char, is_ascii_upper, is_upper, join,
    join_seq, owned, push_char, str_eq, to_lower, unicode_white_space, views_of,
};
use vstd::prelude::*;

verus! {

/// A schema name. A namespaced name carries its namespace segments before
/// its local part, separated by `:`.
#[derive(Debug)]
pub struct Name {
    text: String,
}

impl View for Name {
    type V = Seq<char>;

    closed spec fn view(&self) -> Seq<char> {
        self.text@
    }
}

impl Clone for Name {
    fn clone(&self) -> (r: Self)
        ensures
            r@ == self@,
    {
        Name { text: self.text.clone() }
    }
}

impl PartialEq for Name {
    fn eq(&self, other: &Self) -> (r: bool) {
        self.text == other.text
    }
}

impl Eq for Name {

}

impl vstd::std_specs::cmp::PartialEqSpecImpl for Name {
    open spec fn obeys_eq_spec() -> bool {
        true
    }

    open spec fn eq_spec(&self, other: &Self) -> bool {
        self@ == other@
    }
}

/// The `:`-separated segments of `s`, in order; always at least one.
pub open spec fn split_colon(s: Seq<char>) -> Seq<Seq<char>>
    decreases s.len(),
{
    if s.len() == 0 {
        seq![Seq::empty()]
    } else {
        let prior = split_colon(s.drop_last());
        if s.last() == ':' {
            prior.push(Seq::empty())
        } else {
            prior.update(prior.len() - 1, prior.last().push(s.last()))
        }
    }
}

/// The local part of `s`: the characters after its last `:`, or all of `s`.
pub open spec fn local_seq(s: Seq<char>) -> Seq<char>
    decreases s.len(),
{
    if s.len() == 0 {
        Seq::empty()
    } else if s.last() == ':' {
        Seq::empty()
    } else {
        local_seq(s.drop_last()).push(s.last())
    }
}

/// The snake_case field-name derivation of a local part: each uppercase ASCII
/// letter becomes `_` plus its lowercase form (no `_` at the very start), and
/// each `-` becomes `_`.
pub open spec fn field_seq(s: Seq<char>) -> Seq<char>
    decreases s.len(),
{
    if s.len() == 0 {
        Seq::empty()
    } else {
        let prior = field_seq(s.drop_last());
        let c = s.last();
        if is_ascii_upper(c) {
            if s.len() > 1 {
                prior.push('_').push(ascii_lower(c))
            } else {
                prior.push(ascii_lower(c))
            }
        } else if c == '-' {
            prior.push('_')
        } else {
            prior.push(c)
        }
    }
}

/// The lowerCamel projection of a local part: its first character lowercased.
pub open spec fn lower_camel_seq(s: Seq<char>) -> Seq<char> {
    if s.len() == 0 {
        Seq::empty()
    } else {
        seq![ascii_lower(s[0])] + s.drop_first()
    }
}

/// Whether `c` may stand in a bare DOTOS symbol.
pub open spec fn symbol_safe(c: char) -> bool {
    !unicode_white_space(c) && c != '"' && c != '(' && c != ')' && c != '[' && c != ']' && c
        != '{' && c != '}'
}

/// Whether `s` is a non-empty run of symbol-safe characters.
pub open spec fn is_symbol_seq(s: Seq<char>) -> bool {
    s.len() > 0 && forall|i: int| 0 <= i < s.len() ==> symbol_safe(#[trigger] s[i])
}

/// Whether `s` is a symbol whose local part starts with an ASCII uppercase letter.
pub open spec fn is_pascal_seq(s: Seq<char>) -> bool {
    is_symbol_seq(s) && local_seq(s).len() > 0 && is_ascii_upper(local_seq(s)[0])
}

/// The pipe-text literal `[|text|]` that carries a string that is not a bare
/// symbol.
pub open spec fn pipe_text_seq(s: Seq<char>) -> Seq<char> {
    seq!['[', '|'] + s + seq!['|', ']']
}

/// The DOTOS leaf text of a name: the bare symbol, or a pipe-text literal.
pub open spec fn dotos_seq(s: Seq<char>) -> Seq<char> {
    if is_symbol_seq(s) {
        s
    } else {
        pipe_text_seq(s)
    }
}

/// `s` qualified under `namespace`: `namespace:s` unless `s` already has one.
pub open spec fn qualified_seq(s: Seq<char>, namespace: Option<Seq<char>>) -> Seq<char> {
    match namespace {
        Some(ns) => if s.contains(':') {
            s
        } else {
            ns + seq![':'] + s
        },
        None => s,
    }
}

/// The last segment of the split is the local part.
pub proof fn lemma_split_last_is_local(s: Seq<char>)
    ensures
        split_colon(s).len() >= 1,
        split_colon(s).last() == local_seq(s),
    decreases s.len(),
{
    if s.len() > 0 {
        lemma_split_last_is_local(s.drop_last());
    }
}

/// A name without `:` is its own local part.
pub proof fn lemma_local_of_plain(s: Seq<char>)
    requires
        !s.contains(':'),
    ensures
        local_seq(s) == s,
    decreases s.len(),
{
    if s.len() > 0 {
        assert(!s.drop_last().contains(':')) by {
            if s.drop_last().contains(':') {
                let k = choose|k: int| 0 <= k < s.drop_last().len() && s.drop_last()[k] == ':';
                assert(s[k] == ':');
            }
        }
        lemma_local_of_plain(s.drop_last());
        assert(s.last() != ':') by {
            assert(s[s.len() - 1] == s.last());
        }
        assert(s.drop_last().push(s.last()) =~= s);
    }
}

/// The local part of `a + b` is the local part of `b` when `b` holds a `:`,
/// and otherwise `local(a) + b`.
pub proof fn lemma_local_concat(a: Seq<char>, b: Seq<char>)
    ensures
        !b.contains(':') ==> local_seq(a + b) == local_seq(a) + b,
        b.contains(':') ==> local_seq(a + b) == local_seq(b),
    decreases b.len(),
{
    if b.len() == 0 {
        assert(a + b =~= a);
        assert(!b.contains(':'));
        assert(local_seq(a) + b =~= local_seq(a));
    } else {
        lemma_local_concat(a, b.drop_last());
        assert((a + b).drop_last() =~= a + b.drop_last());
        assert((a + b).last() == b.last());
        if b.last() == ':' {
            assert(b.contains(':')) by {
                assert(b[b.len() - 1] == ':');
            }
        } else {
            assert(b.drop_last().contains(':') == b.contains(':')) by {
                if b.contains(':') {
                    let k = choose|k: int| 0 <= k < b.len() && b[k] == ':';
                    assert(k < b.len() - 1);
                    assert(b.drop_last()[k] == ':');
                }
                if b.drop_last().contains(':') {
                    let k = choose|k: int|
                        0 <= k < b.drop_last().len() && b.drop_last()[k] == ':';
                    assert(b[k] == ':');
                }
            }
            if !b.contains(':') {
                assert(local_seq(a) + b.drop_last().push(b.last()) =~= (local_seq(a)
                    + b.drop_last()).push(b.last()));
                assert(b.drop_last().push(b.last()) =~= b);
            } else {
                lemma_local_concat(seq![], b.drop_last());
                assert(seq![] + b =~= b);
                assert(seq![] + b.drop_last() =~= b.drop_last());
            }
        }
    }
}

impl Name {
    pub fn new(value: &str) -> (r: Self)
        ensures
            r@ == value@,
    {
        Name { text: owned(value) }
    }

    /// A name holding an owned string.
    pub fn from_string(value: String) -> (r: Self)
        ensures
            r@ == value@,
    {
        Name { text: value }
    }

    /// A copy of this name.
    pub fn duplicate(&self) -> (r: Self)
        ensures
            r@ == self@,
    {
        Name { text: self.text.clone() }
    }

    /// Whether two names are equal.
    pub fn same(&self, other: &Self) -> (r: bool)
        ensures
            r == (self@ == other@),
    {
        self.text == other.text
    }

    /// Whether this name spells `text`.
    pub fn is(&self, text: &str) -> (r: bool)
        ensures
            r == (self@ == text@),
    {
        str_eq(self.text.as_str(), text)
    }

    pub fn as_str(&self) -> (r: &str)
        ensures
            r@ == self@,
    {
        self.text.as_str()
    }

    /// The `:`-separated namespace segments, local part last.
    pub fn namespace_segments(&self) -> (r: Vec<&str>)
        ensures
            r@.len() == split_colon(self@).len(),
            forall|i: int| 0 <= i < r@.len() ==> (#[trigger] r@[i])@ == split_colon(self@)[i],
    {
        let s = self.text.as_str();
        let chars = chars_of(s);
        let mut segments: Vec<&str> = Vec::new();
        let mut start: usize = 0;
        let mut i: usize = 0;
        assert(chars@.subrange(0, 0) =~= Seq::<char>::empty());
        assert(Seq::new(0, |k: int| segments@[k]@).push(chars@.subrange(0, 0)) =~= seq![
            Seq::<char>::empty(),
        ]);
        while i < chars.len()
            invariant
                start <= i <= chars@.len(),
                chars@ == self@,
                s@ == self@,
                split_colon(chars@.subrange(0, i as int)) =~= Seq::new(
                    segments@.len() as nat,
                    |k: int| segments@[k]@,
                ).push(chars@.subrange(start as int, i as int)),
            decreases chars.len() - i,
        {
            let ghost before = Seq::new(segments@.len() as nat, |k: int| segments@[k]@);
            let ghost current = chars@.subrange(start as int, i as int);
            let ghost prefix = chars@.subrange(0, i + 1);
            assert(prefix.drop_last() =~= chars@.subrange(0, i as int));
            assert(prefix.last() == chars@[i as int]);
            if chars[i] == ':' {
                let segment = s.substring_char(start, i);
                segments.push(segment);
                start = i + 1;
                assert(Seq::new(segments@.len() as nat, |k: int| segments@[k]@) =~= before.push(
                    segment@,
                ));
                assert(chars@.subrange(start as int, i + 1) =~= Seq::<char>::empty());
                assert(split_colon(prefix) =~= before.push(current).push(Seq::empty()));
            } else {
                assert(chars@.subrange(start as int, i + 1) =~= current.push(chars@[i as int]));
                assert(before.push(current).update(before.len() as int, current.push(chars@[i as int]))
                    =~= before.push(current.push(chars@[i as int])));
            }
            i += 1;
        }
        let last = s.substring_char(start, chars.len());
        let ghost before = Seq::new(segments@.len() as nat, |k: int| segments@[k]@);
        segments.push(last);
        assert(chars@.subrange(0, chars@.len() as int) =~= chars@);
        assert(Seq::new(segments@.len() as nat, |k: int| segments@[k]@) =~= before.push(last@));
        proof {
            let views = Seq::new(segments@.len() as nat, |k: int| segments@[k]@);
            assert forall|k: int| 0 <= k < segments@.len() implies (#[trigger] segments@[k])@
                == split_colon(self@)[k] by {
                assert(views[k] == segments@[k]@);
            }
        }
        segments
    }

    /// The local part: the characters after the last `:`, or the whole name.
    pub fn local_part(&self) -> (r: &str)
        ensures
            r@ == local_seq(self@),
    {
        let s = self.text.as_str();
        let chars = chars_of(s);
        let mut start: usize = 0;
        let mut i: usize = 0;
        while i < chars.len()
            invariant
                start <= i <= chars@.len(),
                chars@ == self@,
                s@ == self@,
                local_seq(chars@.subrange(0, i as int)) =~= chars@.subrange(
                    start as int,
                    i as int,
                ),
            decreases chars.len() - i,
        {
            assert(chars@.subrange(0, i + 1).drop_last() =~= chars@.subrange(0, i as int));
            if chars[i] == ':' {
                start = i + 1;
            } else {
                assert(chars@.subrange(start as int, i + 1) =~= chars@.subrange(
                    start as int,
                    i as int,
                ).push(chars@[i as int]));
            }
            i += 1;
        }
        assert(chars@.subrange(0, chars@.len() as int) =~= chars@);
        s.substring_char(start, chars.len())
    }

    /// The local part as a name of its own.
    pub fn local_name(&self) -> (r: Name)
        ensures
            r@ == local_seq(self@),
    {
        Name::new(self.local_part())
    }

    pub fn has_namespace(&self) -> (r: bool)
        ensures
            r == self@.contains(':'),
    {
        contains_char(self.text.as_str(), ':')
    }

    /// This name qualified under `namespace`, unless it already carries one.
    pub fn qualified_under(&self, namespace: Option<&Name>) -> (r: Self)
        ensures
            r@ == qualified_seq(
                self@,
                match namespace {
                    Some(n) => Some(n@),
                    None => None,
                },
            ),
    {
        match namespace {
            Some(namespace) => {
                if !self.has_namespace() {
                    let mut text = namespace.text.clone();
                    push_char(&mut text, ':');
                    text.append(self.text.as_str());
                    Name { text }
                } else {
                    self.clone()
                }
            },
            None => self.clone(),
        }
    }

    /// The snake_case field name derived from the local part.
    pub fn field_name(&self) -> (r: String)
        ensures
            r@ == field_seq(local_seq(self@)),
    {
        let local = chars_of(self.local_part());
        let mut output = String::new();
        let mut index: usize = 0;
        while index < local.len()
            invariant
                index <= local@.len(),
                local@ == local_seq(self@),
                output@ == field_seq(local@.subrange(0, index as int)),
            decreases local.len() - index,
        {
            let character = local[index];
            assert(local@.subrange(0, index + 1).drop_last() =~= local@.subrange(0, index as int));
            if is_upper(character) {
                if index > 0 {
                    push_char(&mut output, '_');
                }
                push_char(&mut output, to_lower(character));
            } else if character == '-' {
                push_char(&mut output, '_');
            } else {
                push_char(&mut output, character);
            }
            index += 1;
        }
        assert(local@.subrange(0, local@.len() as int) =~= local@);
        output
    }

    /// The lowerCamel projection of the local part: first character lowercased.
    pub fn lower_camel(&self) -> (r: String)
        ensures
            r@ == lower_camel_seq(local_seq(self@)),
    {
        let local = chars_of(self.local_part());
        if local.len() == 0 {
            return String::new();
        }
        let mut projection = String::new();
        push_char(&mut projection, to_lower(local[0]));
        let mut i: usize = 1;
        while i < local.len()
            invariant
                1 <= i <= local@.len(),
                projection@ == seq![ascii_lower(local@[0])] + local@.subrange(1, i as int),
            decreases local.len() - i,
        {
            push_char(&mut projection, local[i]);
            assert(local@.subrange(1, i + 1) =~= local@.subrange(1, i as int).push(
                local@[i as int],
            ));
            i += 1;
        }
        assert(local@.subrange(1, local@.len() as int) =~= local@.drop_first());
        projection
    }

    /// Whether this name is a bare DOTOS symbol: non-empty, with no whitespace
    /// and none of the delimiter or quote characters.
    pub fn qualifies_as_symbol_name(&self) -> (r: bool)
        ensures
            r == is_symbol_seq(self@),
    {
        let chars = chars_of(self.text.as_str());
        if chars.len() == 0 {
            return false;
        }
        let mut i: usize = 0;
        while i < chars.len()
            invariant
                i <= chars@.len(),
                chars@ == self@,
                forall|j: int| 0 <= j < i ==> symbol_safe(#[trigger] chars@[j]),
            decreases chars.len() - i,
        {
            let c = chars[i];
            if char_is_whitespace(c) || c == '"' || c == '(' || c == ')' || c == '[' || c == ']'
                || c == '{' || c == '}' {
                assert(!symbol_safe(self@[i as int]));
                return false;
            }
            i += 1;
        }
        true
    }

    /// Whether this name is a symbol whose local part begins with an ASCII
    /// uppercase letter.
    pub fn qualifies_as_pascal_case(&self) -> (r: bool)
        ensures
            r == is_pascal_seq(self@),
    {
        if !self.qualifies_as_symbol_name() {
            return false;
        }
        let local = self.local_part();
        if local.unicode_len() == 0 {
            return false;
        }
        is_upper(local.get_char(0))
    }

    /// The DOTOS leaf text: the bare symbol, or a pipe-text literal when the
    /// name is not a bare symbol.
    pub fn to_dotos(&self) -> (r: String)
        ensures
            r@ == dotos_seq(self@),
    {
        if self.qualifies_as_symbol_name() {
            self.text.clone()
        } else {
            let mut text = String::new();
            text.append("[|");
            text.append(self.text.as_str());
            text.append("|]");
            proof {
                reveal_strlit("[|");
                reveal_strlit("|]");
            }
            assert(text@ =~= pipe_text_seq(self@));
            text
        }
    }
}

/// A path of names addressing a symbol: the component name first, then the
/// local segments.
pub struct SymbolPath {
    segments: Vec<Name>,
}

/// The character sequences of a list of names.
pub open spec fn names_view(names: Seq<Name>) -> Seq<Seq<char>> {
    names.map_values(|n: Name| n@)
}

impl View for SymbolPath {
    type V = Seq<Seq<char>>;

    closed spec fn view(&self) -> Seq<Seq<char>> {
        names_view(self.segments@)
    }
}

/// Viewing a list grown by one name grows its view by that name.
pub proof fn lemma_names_view_push(s: Seq<Name>, x: Name)
    ensures
        names_view(s.push(x)) =~= names_view(s).push(x@),
{
}

/// The view of a concatenation is the concatenation of the views.
pub proof fn lemma_names_view_concat(a: Seq<Name>, b: Seq<Name>)
    ensures
        names_view(a + b) =~= names_view(a) + names_view(b),
{
}

/// The view of a prefix one longer is the shorter prefix's view plus one.
pub proof fn lemma_names_view_prefix(s: Seq<Name>, i: int)
    requires
        0 <= i < s.len(),
    ensures
        names_view(s.subrange(0, i + 1)) =~= names_view(s.subrange(0, i)).push(s[i]@),
{
    assert(s.subrange(0, i + 1) =~= s.subrange(0, i).push(s[i]));
    lemma_names_view_push(s.subrange(0, i), s[i]);
}

/// A copy of a list of names.
pub fn names_clone(names: &[Name]) -> (r: Vec<Name>)
    ensures
        names_view(r@) == names_view(names@),
{
    let mut out: Vec<Name> = Vec::new();
    let mut i: usize = 0;
    while i < names.len()
        invariant
            i <= names@.len(),
            names_view(out@) =~= names_view(names@.subrange(0, i as int)),
        decreases names.len() - i,
    {
        let ghost before = out@;
        out.push(names[i].clone());
        proof {
            lemma_names_view_push(before, out@.last());
            lemma_names_view_prefix(names@, i as int);
        }
        i += 1;
    }
    assert(names@.subrange(0, names@.len() as int) =~= names@);
    out
}

/// Whether `names` holds a name equal to `name`, and where.
pub fn position_of_name(names: &[Name], name: &Name) -> (r: Option<usize>)
    ensures
        match r {
            Some(i) => i < names@.len() && names@[i as int]@ == name@ && forall|j: int|
                0 <= j < i ==> (#[trigger] names@[j])@ != name@,
            None => forall|j: int| 0 <= j < names@.len() ==> (#[trigger] names@[j])@ != name@,
        },
{
    let mut i: usize = 0;
    while i < names.len()
        invariant
            i <= names@.len(),
            forall|j: int| 0 <= j < i ==> (#[trigger] names@[j])@ != name@,
        decreases names.len() - i,
    {
        if names[i].same(name) {
            return Some(i);
        }
        i += 1;
    }
    None
}

impl SymbolPath {
    pub fn new(segments: Vec<Name>) -> (r: Self)
        ensures
            r@ == names_view(segments@),
    {
        SymbolPath { segments }
    }

    pub fn from_identity_and_segments(identity: &SchemaIdentity, segments: Vec<Name>) -> (r: Self)
        ensures
            r@ == seq![identity.component_view()] + names_view(segments@),
    {
        let mut path_segments = vec![identity.component().clone()];
        let mut i: usize = 0;
        while i < segments.len()
            invariant
                i <= segments@.len(),
                names_view(path_segments@) =~= seq![identity.component_view()] + names_view(
                    segments@.subrange(0, i as int),
                ),
            decreases segments.len() - i,
        {
            let ghost before = path_segments@;
            path_segments.push(segments[i].clone());
            proof {
                lemma_names_view_push(before, path_segments@.last());
                lemma_names_view_prefix(segments@, i as int);
            }
            i += 1;
        }
        assert(segments@.subrange(0, segments@.len() as int) =~= segments@);
        Self::new(path_segments)
    }

    pub fn segments(&self) -> (r: &[Name])
        ensures
            names_view(r@) == self@,
    {
        self.segments.as_slice()
    }

    pub fn component(&self) -> (r: Option<&Name>)
        ensures
            match r {
                Some(n) => self@.len() > 0 && n@ == self@[0],
                None => self@.len() == 0,
            },
    {
        if self.segments.len() == 0 {
            None
        } else {
            Some(&self.segments[0])
        }
    }

    pub fn local_segments(&self) -> (r: &[Name])
        ensures
            names_view(r@) == if self@.len() == 0 {
                Seq::empty()
            } else {
                self@.drop_first()
            },
    {
        if self.segments.len() == 0 {
            let r: &[Name] = &[];
            assert(names_view(r@) =~= Seq::empty());
            r
        } else {
            let r = vstd::slice::slice_subrange(self.segments.as_slice(), 1, self.segments.len());
            assert(names_view(r@) =~= self@.drop_first());
            r
        }
    }

    pub fn belongs_to(&self, identity: &SchemaIdentity) -> (r: bool)
        ensures
            r == (self@.len() > 0 && self@[0] == identity.component_view()),
    {
        match self.component() {
            Some(component) => component.same(identity.component()),
            None => false,
        }
    }

    pub fn type_path(identity: &SchemaIdentity, type_label: &Name) -> (r: Self)
        ensures
            r@ == seq![identity.component_view(), type_label@],
    {
        let segments = vec![type_label.clone()];
        assert(names_view(segments@) =~= seq![type_label@]);
        let r = Self::from_identity_and_segments(identity, segments);
        assert(r@ =~= seq![identity.component_view(), type_label@]);
        r
    }

    pub fn root_variant_path(
        identity: &SchemaIdentity,
        root_name: &Name,
        variant_name: &Name,
    ) -> (r: Self)
        ensures
            r@ == seq![identity.component_view(), root_name@, variant_name@],
    {
        Self::two_segment_path(identity, root_name, variant_name)
    }

    pub fn field_path(identity: &SchemaIdentity, type_label: &Name, field_name: &Name) -> (r: Self)
        ensures
            r@ == seq![identity.component_view(), type_label@, field_name@],
    {
        Self::two_segment_path(identity, type_label, field_name)
    }

    pub fn enum_variant_path(
        identity: &SchemaIdentity,
        enum_name: &Name,
        variant_name: &Name,
    ) -> (r: Self)
        ensures
            r@ == seq![identity.component_view(), enum_name@, variant_name@],
    {
        Self::two_segment_path(identity, enum_name, variant_name)
    }

    fn two_segment_path(identity: &SchemaIdentity, first: &Name, second: &Name) -> (r: Self)
        ensures
            r@ == seq![identity.component_view(), first@, second@],
    {
        let segments = vec![first.clone(), second.clone()];
        assert(names_view(segments@) =~= seq![first@, second@]);
        let r = Self::from_identity_and_segments(identity, segments);
        assert(r@ =~= seq![identity.component_view(), first@, second@]);
        r
    }

    /// The segments joined with `/`.
    pub fn to_text(&self) -> (r: String)
        ensures
            r@ == join_seq(self@, seq!['/']),
    {
        let mut parts: Vec<String> = Vec::new();
        let mut i: usize = 0;
        while i < self.segments.len()
            invariant
                i <= self.segments@.len(),
                views_of(parts@) =~= names_view(self.segments@.subrange(0, i as int)),
            decreases self.segments.len() - i,
        {
            parts.push(self.segments[i].text.clone());
            proof {
                lemma_names_view_prefix(self.segments@, i as int);
            }
            i += 1;
        }
        assert(self.segments@.subrange(0, self.segments@.len() as int) =~= self.segments@);
        proof {
            reveal_strlit("/");
        }
        let r = join(&parts, "/");
        assert("/"@ =~= seq!['/']);
        r
    }
}

} // verus!
