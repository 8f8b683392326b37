//! The signature text of a method: `name { p.T … } R`, with every reference
//! in its canonical DOTOS form. A name made only of plain characters is
//! written as it is; any other name is quoted and escaped, and an imported
//! application head is written with everything it resolves to, so that two
//! signatures render to the same text exactly when they are equal.

use crate::declaration::SignatureModel;
use crate::reference::{
    head_view, import_view, multi_name_seq, reference_view, references_view, single_name_seq,
    value_name_seq, variant_view, variants_view, ApplicationHead, EnumVariant, HeadModel,
    ImportModel, MultiTypeReferenceProjection, ReferenceModel, SingleTypeReferenceProjection,
    TypeReference, ValueReferenceProjection, VariantModel,
};
use crate::text::{decimal_seq, decimal_text, digit_char, push_char};
use vstd::prelude::*;

verus! {

/// A character that a bare name may hold: anything but a space, a quote, a
/// backslash, a dot, or a parenthesis or brace.
pub open spec fn plain_char(c: char) -> bool {
    c != ' ' && c != '"' && c != '\\' && c != '.' && c != '(' && c != ')' && c != '{' && c != '}'
}

/// A name written bare: one or more plain characters.
pub open spec fn plain_word(s: Seq<char>) -> bool {
    s.len() > 0 && forall|i: int| 0 <= i < s.len() ==> plain_char(#[trigger] s[i])
}

/// One character of a quoted name, escaped: a quote or a backslash gets a
/// backslash before it.
pub open spec fn esc_piece(c: char) -> Seq<char> {
    if c == '"' || c == '\\' {
        seq!['\\', c]
    } else {
        seq![c]
    }
}

/// The escaped characters of a quoted name.
pub open spec fn esc(s: Seq<char>) -> Seq<char>
    decreases s.len(),
{
    if s.len() == 0 {
        Seq::empty()
    } else {
        esc_piece(s[0]) + esc(s.subrange(1, s.len() as int))
    }
}

/// The text of a name: bare when it is a plain word, else quoted and escaped.
pub open spec fn atom_text(s: Seq<char>) -> Seq<char> {
    if plain_word(s) {
        s
    } else {
        seq!['"'] + esc(s) + seq!['"']
    }
}

/// Text that cannot continue a bare name: empty, or led by a character that
/// is not plain.
pub open spec fn ends_token(r: Seq<char>) -> bool {
    r.len() == 0 || !plain_char(r[0])
}

/// A tree of names: a name, or a parenthesized list of trees.
pub enum Sx {
    Atom(Seq<char>),
    List(Seq<Sx>),
}

/// The text of a tree: a name as its text, a list as its members between
/// parentheses, separated by single spaces.
pub open spec fn sx_text(x: Sx) -> Seq<char>
    decreases x, 2nat,
{
    match x {
        Sx::Atom(a) => atom_text(a),
        Sx::List(ks) => seq!['('] + inner_text(ks) + seq![')'],
    }
}

/// The members of a list, separated by single spaces.
pub open spec fn inner_text(ks: Seq<Sx>) -> Seq<char>
    decreases ks, 1nat,
{
    if ks.len() == 0 {
        Seq::empty()
    } else {
        proof {
            assert(decreases_to!(ks => ks.subrange(1, ks.len() as int)));
        }
        sx_text(ks[0]) + kids_text(ks.subrange(1, ks.len() as int))
    }
}

/// Members written each after a space.
pub open spec fn kids_text(ks: Seq<Sx>) -> Seq<char>
    decreases ks, 0nat,
{
    if ks.len() == 0 {
        Seq::empty()
    } else {
        proof {
            assert(decreases_to!(ks => ks.subrange(1, ks.len() as int)));
        }
        seq![' '] + sx_text(ks[0]) + kids_text(ks.subrange(1, ks.len() as int))
    }
}

/// A list led by a tag name.
pub open spec fn node(tag: Seq<char>, ks: Seq<Sx>) -> Sx {
    Sx::List(seq![Sx::Atom(tag)] + ks)
}

/// Equal texts after a common prefix are equal.
proof fn lemma_cancel(p: Seq<char>, y: Seq<char>, z: Seq<char>)
    requires
        p + y == p + z,
    ensures
        y == z,
{
    assert(y =~= (p + y).subrange(p.len() as int, (p + y).len() as int));
    assert(z =~= (p + z).subrange(p.len() as int, (p + z).len() as int));
}

/// Escaping one character more appends its escaped piece.
pub proof fn lemma_esc_push(s: Seq<char>, c: char)
    ensures
        esc(s.push(c)) == esc(s) + esc_piece(c),
    decreases s.len(),
{
    if s.len() == 0 {
        assert(s.push(c).subrange(1, 1) =~= Seq::<char>::empty());
        assert(esc(Seq::<char>::empty()) == Seq::<char>::empty());
        assert(s.push(c)[0] == c);
        assert(esc(s.push(c)) =~= esc_piece(c) + Seq::<char>::empty());
        assert(esc(s) == Seq::<char>::empty());
    } else {
        let t = s.subrange(1, s.len() as int);
        lemma_esc_push(t, c);
        assert(s.push(c).subrange(1, s.len() as int + 1) =~= t.push(c));
        assert(s.push(c)[0] == s[0]);
        assert(esc(s.push(c)) =~= esc_piece(s[0]) + (esc(t) + esc_piece(c)));
    }
}

/// An escaped name ends at its first unescaped quote: what follows it, and
/// the name itself, are read back uniquely.
proof fn lemma_esc_unique(a: Seq<char>, b: Seq<char>, r1: Seq<char>, r2: Seq<char>)
    requires
        esc(a) + seq!['"'] + r1 == esc(b) + seq!['"'] + r2,
    ensures
        a == b,
        r1 == r2,
    decreases a.len(),
{
    let lhs = esc(a) + seq!['"'] + r1;
    let rhs = esc(b) + seq!['"'] + r2;
    if a.len() == 0 {
        if b.len() > 0 {
            assert(rhs[0] == esc_piece(b[0])[0]);
            assert(lhs[0] == '"');
            assert(false);
        }
        assert(lhs =~= seq!['"'] + r1);
        assert(rhs =~= seq!['"'] + r2);
        lemma_cancel(seq!['"'], r1, r2);
        assert(a =~= b);
    } else if b.len() == 0 {
        assert(lhs[0] == esc_piece(a[0])[0]);
        assert(rhs[0] == '"');
        assert(false);
    } else {
        let ta = a.subrange(1, a.len() as int);
        let tb = b.subrange(1, b.len() as int);
        let pa = esc_piece(a[0]);
        let pb = esc_piece(b[0]);
        assert(lhs =~= pa + (esc(ta) + seq!['"'] + r1));
        assert(rhs =~= pb + (esc(tb) + seq!['"'] + r2));
        assert(lhs[0] == pa[0] && rhs[0] == pb[0]);
        assert(a[0] == b[0]) by {
            if pa.len() == 2 {
                assert(lhs[1] == a[0]);
                if pb.len() == 1 {
                    assert(pb[0] == b[0] && b[0] == '\\');
                    assert(false);
                }
                assert(rhs[1] == b[0]);
            } else {
                if pb.len() == 2 {
                    assert(pa[0] == a[0] && a[0] == '\\');
                    assert(false);
                }
            }
        }
        lemma_cancel(pa, esc(ta) + seq!['"'] + r1, esc(tb) + seq!['"'] + r2);
        lemma_esc_unique(ta, tb, r1, r2);
        assert(a =~= seq![a[0]] + ta);
        assert(b =~= seq![b[0]] + tb);
    }
}

/// A name's text is led by a plain character exactly when it is written
/// bare, and by a quote otherwise.
pub proof fn lemma_atom_start(a: Seq<char>)
    ensures
        atom_text(a).len() > 0,
        plain_word(a) ==> plain_char(atom_text(a)[0]),
        !plain_word(a) ==> atom_text(a)[0] == '"',
{
    if plain_word(a) {
        assert(plain_char(a[0]));
    }
}

/// A tree's text is led by a plain character, a quote or an opening
/// parenthesis.
pub proof fn lemma_text_start(x: Sx)
    ensures
        sx_text(x).len() > 0,
        plain_char(sx_text(x)[0]) || sx_text(x)[0] == '"' || sx_text(x)[0] == '(',
{
    match x {
        Sx::Atom(a) => lemma_atom_start(a),
        Sx::List(_) => {},
    }
}

/// Two bare names followed by text that cannot continue them are read back
/// uniquely.
proof fn lemma_word_unique(a: Seq<char>, b: Seq<char>, r1: Seq<char>, r2: Seq<char>)
    requires
        plain_word(a),
        plain_word(b),
        ends_token(r1),
        ends_token(r2),
        a + r1 == b + r2,
    ensures
        a == b,
        r1 == r2,
{
    let t = a + r1;
    if a.len() < b.len() {
        if r1.len() == 0 {
            assert(t.len() == a.len());
            assert((b + r2).len() >= b.len());
        } else {
            assert(t[a.len() as int] == r1[0]);
            assert((b + r2)[a.len() as int] == b[a.len() as int]);
            assert(plain_char(b[a.len() as int]));
        }
        assert(false);
    }
    if b.len() < a.len() {
        if r2.len() == 0 {
            assert((b + r2).len() == b.len());
        } else {
            assert((b + r2)[b.len() as int] == r2[0]);
            assert(t[b.len() as int] == a[b.len() as int]);
            assert(plain_char(a[b.len() as int]));
        }
        assert(false);
    }
    assert(a =~= t.subrange(0, a.len() as int));
    assert(b =~= (b + r2).subrange(0, b.len() as int));
    assert(a == b);
    lemma_cancel(a, r1, r2);
}

/// Two names followed by text that cannot continue a bare name are read
/// back uniquely.
pub proof fn lemma_atom_unique(a: Seq<char>, b: Seq<char>, r1: Seq<char>, r2: Seq<char>)
    requires
        ends_token(r1),
        ends_token(r2),
        atom_text(a) + r1 == atom_text(b) + r2,
    ensures
        a == b,
        r1 == r2,
{
    let lhs = atom_text(a) + r1;
    let rhs = atom_text(b) + r2;
    lemma_atom_start(a);
    lemma_atom_start(b);
    assert(lhs[0] == atom_text(a)[0] && rhs[0] == atom_text(b)[0]);
    if plain_word(a) && plain_word(b) {
        lemma_word_unique(a, b, r1, r2);
    } else if plain_word(a) || plain_word(b) {
        assert(false);
    } else {
        assert(lhs =~= seq!['"'] + (esc(a) + seq!['"'] + r1));
        assert(rhs =~= seq!['"'] + (esc(b) + seq!['"'] + r2));
        lemma_cancel(seq!['"'], esc(a) + seq!['"'] + r1, esc(b) + seq!['"'] + r2);
        lemma_esc_unique(a, b, r1, r2);
    }
}

/// A tree's text ends where the tree ends: the tree, and what follows its
/// text, are read back uniquely.
pub proof fn lemma_sx_unique(x: Sx, y: Sx, r1: Seq<char>, r2: Seq<char>)
    requires
        ends_token(r1),
        ends_token(r2),
        sx_text(x) + r1 == sx_text(y) + r2,
    ensures
        x == y,
        r1 == r2,
    decreases x, 2nat,
{
    let lhs = sx_text(x) + r1;
    let rhs = sx_text(y) + r2;
    match x {
        Sx::Atom(a) => match y {
            Sx::Atom(b) => {
                lemma_atom_unique(a, b, r1, r2);
            },
            Sx::List(_) => {
                lemma_atom_start(a);
                assert(lhs[0] == atom_text(a)[0]);
                assert(rhs[0] == '(');
            },
        },
        Sx::List(ks) => match y {
            Sx::Atom(b) => {
                lemma_atom_start(b);
                assert(rhs[0] == atom_text(b)[0]);
                assert(lhs[0] == '(');
            },
            Sx::List(ls) => {
                assert(lhs =~= seq!['('] + (inner_text(ks) + seq![')'] + r1));
                assert(rhs =~= seq!['('] + (inner_text(ls) + seq![')'] + r2));
                lemma_cancel(seq!['('], inner_text(ks) + seq![')'] + r1, inner_text(ls) + seq![')'] + r2);
                lemma_inner_unique(ks, ls, r1, r2);
            },
        },
    }
}

/// A list's members end at the closing parenthesis: the members, and what
/// follows, are read back uniquely.
proof fn lemma_inner_unique(ks: Seq<Sx>, ls: Seq<Sx>, r1: Seq<char>, r2: Seq<char>)
    requires
        inner_text(ks) + seq![')'] + r1 == inner_text(ls) + seq![')'] + r2,
    ensures
        ks == ls,
        r1 == r2,
    decreases ks, 1nat,
{
    let lhs = inner_text(ks) + seq![')'] + r1;
    let rhs = inner_text(ls) + seq![')'] + r2;
    if ks.len() == 0 {
        if ls.len() > 0 {
            lemma_text_start(ls[0]);
            assert(rhs[0] == sx_text(ls[0])[0]);
            assert(lhs[0] == ')');
            assert(false);
        }
        assert(lhs =~= seq![')'] + r1);
        assert(rhs =~= seq![')'] + r2);
        lemma_cancel(seq![')'], r1, r2);
        assert(ks =~= ls);
    } else if ls.len() == 0 {
        lemma_text_start(ks[0]);
        assert(lhs[0] == sx_text(ks[0])[0]);
        assert(rhs[0] == ')');
        assert(false);
    } else {
        let tk = ks.subrange(1, ks.len() as int);
        let tl = ls.subrange(1, ls.len() as int);
        assert(decreases_to!(ks => tk));
        let f1 = kids_text(tk) + seq![')'] + r1;
        let f2 = kids_text(tl) + seq![')'] + r2;
        assert(lhs =~= sx_text(ks[0]) + f1);
        assert(rhs =~= sx_text(ls[0]) + f2);
        lemma_kids_start(tk, r1);
        lemma_kids_start(tl, r2);
        lemma_sx_unique(ks[0], ls[0], f1, f2);
        lemma_kids_unique(tk, tl, r1, r2);
        assert(ks =~= seq![ks[0]] + tk);
        assert(ls =~= seq![ls[0]] + tl);
    }
}

/// Members after a space, then the closing parenthesis, cannot continue a
/// bare name.
proof fn lemma_kids_start(ks: Seq<Sx>, r: Seq<char>)
    ensures
        ends_token(kids_text(ks) + seq![')'] + r),
        (kids_text(ks) + seq![')'] + r)[0] == ' ' || (kids_text(ks) + seq![')'] + r)[0] == ')',
{
    let t = kids_text(ks) + seq![')'] + r;
    if ks.len() == 0 {
        assert(t =~= seq![')'] + r);
    } else {
        assert(t[0] == ' ');
    }
}

/// Members each after a space end at the closing parenthesis: the members,
/// and what follows, are read back uniquely.
proof fn lemma_kids_unique(ks: Seq<Sx>, ls: Seq<Sx>, r1: Seq<char>, r2: Seq<char>)
    requires
        kids_text(ks) + seq![')'] + r1 == kids_text(ls) + seq![')'] + r2,
    ensures
        ks == ls,
        r1 == r2,
    decreases ks, 0nat,
{
    let lhs = kids_text(ks) + seq![')'] + r1;
    let rhs = kids_text(ls) + seq![')'] + r2;
    if ks.len() == 0 {
        if ls.len() > 0 {
            assert(rhs[0] == ' ');
            assert(lhs[0] == ')');
        }
        assert(lhs =~= seq![')'] + r1);
        assert(rhs =~= seq![')'] + r2);
        lemma_cancel(seq![')'], r1, r2);
        assert(ks =~= ls);
    } else if ls.len() == 0 {
        assert(lhs[0] == ' ');
        assert(rhs[0] == ')');
    } else {
        let tk = ks.subrange(1, ks.len() as int);
        let tl = ls.subrange(1, ls.len() as int);
        assert(decreases_to!(ks => tk));
        let f1 = kids_text(tk) + seq![')'] + r1;
        let f2 = kids_text(tl) + seq![')'] + r2;
        assert(lhs =~= seq![' '] + (sx_text(ks[0]) + f1));
        assert(rhs =~= seq![' '] + (sx_text(ls[0]) + f2));
        lemma_cancel(seq![' '], sx_text(ks[0]) + f1, sx_text(ls[0]) + f2);
        lemma_kids_start(tk, r1);
        lemma_kids_start(tl, r2);
        lemma_sx_unique(ks[0], ls[0], f1, f2);
        lemma_kids_unique(tk, tl, r1, r2);
        assert(ks =~= seq![ks[0]] + tk);
        assert(ls =~= seq![ls[0]] + tl);
    }
}

/// Two trees with the same text are the same tree.
pub proof fn lemma_sx_text_injective(x: Sx, y: Sx)
    requires
        sx_text(x) == sx_text(y),
    ensures
        x == y,
{
    assert(sx_text(x) + Seq::<char>::empty() =~= sx_text(x));
    assert(sx_text(y) + Seq::<char>::empty() =~= sx_text(y));
    lemma_sx_unique(x, y, Seq::empty(), Seq::empty());
}

/// Giving a list one more member after a space appends that member's text.
pub proof fn lemma_kids_push(ks: Seq<Sx>, k: Sx)
    ensures
        kids_text(ks.push(k)) == kids_text(ks) + seq![' '] + sx_text(k),
    decreases ks.len(),
{
    if ks.len() == 0 {
        assert(ks.push(k).subrange(1, 1) =~= Seq::<Sx>::empty());
        assert(kids_text(Seq::<Sx>::empty()) == Seq::<char>::empty());
        assert(ks.push(k)[0] == k);
        assert(kids_text(ks.push(k)) =~= seq![' '] + sx_text(k) + Seq::<char>::empty());
        assert(kids_text(ks) == Seq::<char>::empty());
    } else {
        let t = ks.subrange(1, ks.len() as int);
        lemma_kids_push(t, k);
        assert(ks.push(k).subrange(1, ks.len() as int + 1) =~= t.push(k));
        assert(ks.push(k)[0] == ks[0]);
        assert(kids_text(ks.push(k)) =~= seq![' '] + sx_text(ks[0]) + (kids_text(t) + seq![' '] + sx_text(k)));
    }
}

/// The text of a tagged list: its tag after the opening parenthesis, then
/// each member after a space.
pub proof fn lemma_node_text(tag: Seq<char>, ks: Seq<Sx>)
    ensures
        sx_text(node(tag, ks)) == seq!['('] + atom_text(tag) + kids_text(ks) + seq![')'],
{
    let all = seq![Sx::Atom(tag)] + ks;
    assert(all[0] == Sx::Atom(tag));
    assert(all.subrange(1, all.len() as int) =~= ks);
    assert(inner_text(all) == sx_text(Sx::Atom(tag)) + kids_text(ks));
    assert(sx_text(node(tag, ks)) =~= seq!['('] + atom_text(tag) + kids_text(ks) + seq![')']);
}

/// Two tagged lists are the same exactly when their tags and members are.
pub proof fn lemma_node_eq(t1: Seq<char>, k1: Seq<Sx>, t2: Seq<char>, k2: Seq<Sx>)
    requires
        node(t1, k1) == node(t2, k2),
    ensures
        t1 == t2,
        k1 == k2,
{
    let a = seq![Sx::Atom(t1)] + k1;
    let b = seq![Sx::Atom(t2)] + k2;
    assert(a[0] == b[0]);
    assert(k1 =~= a.subrange(1, a.len() as int));
    assert(k2 =~= b.subrange(1, b.len() as int));
}

/// Distinct numbers have distinct decimal texts.
pub proof fn lemma_decimal_injective(n: nat, m: nat)
    requires
        decimal_seq(n) == decimal_seq(m),
    ensures
        n == m,
    decreases n,
{
    lemma_decimal_len(n);
    lemma_decimal_len(m);
    let dn = decimal_seq(n);
    let dm = decimal_seq(m);
    assert(dn[dn.len() - 1] == digit_char(n % 10));
    assert(dm[dm.len() - 1] == digit_char(m % 10));
    lemma_digit_char_injective(n % 10, m % 10);
    if n >= 10 && m >= 10 {
        assert(decimal_seq(n / 10) =~= dn.drop_last());
        assert(decimal_seq(m / 10) =~= dm.drop_last());
        lemma_decimal_injective(n / 10, m / 10);
    } else if n < 10 && m >= 10 {
        lemma_decimal_len(m / 10);
    } else if n >= 10 && m < 10 {
        lemma_decimal_len(n / 10);
    }
}

proof fn lemma_decimal_len(n: nat)
    ensures
        decimal_seq(n).len() >= 1,
        decimal_seq(n).last() == digit_char(n % 10),
        n < 10 ==> decimal_seq(n).len() == 1,
        n >= 10 ==> decimal_seq(n).len() == decimal_seq(n / 10).len() + 1,
    decreases n,
{
    if n >= 10 {
        lemma_decimal_len(n / 10);
    }
}

proof fn lemma_digit_char_injective(a: nat, b: nat)
    requires
        a < 10,
        b < 10,
        digit_char(a) == digit_char(b),
    ensures
        a == b,
{
    assert(((a + 48) as u8) as char == ((b + 48) as u8) as char);
    assert((((a + 48) as u8) as char) as u32 == (a + 48) as u32);
    assert((((b + 48) as u8) as char) as u32 == (b + 48) as u32);
}

/// The scalar spellings and the tags of the canonical reference text.
pub open spec fn string_word() -> Seq<char> {
    seq!['S', 't', 'r', 'i', 'n', 'g']
}

pub open spec fn integer_word() -> Seq<char> {
    seq!['I', 'n', 't', 'e', 'g', 'e', 'r']
}

pub open spec fn boolean_word() -> Seq<char> {
    seq!['B', 'o', 'o', 'l', 'e', 'a', 'n']
}

pub open spec fn path_word() -> Seq<char> {
    seq!['P', 'a', 't', 'h']
}

pub open spec fn bytes_word() -> Seq<char> {
    seq!['B', 'y', 't', 'e', 's']
}

pub open spec fn plain_tag() -> Seq<char> {
    seq!['P', 'l', 'a', 'i', 'n']
}

pub open spec fn application_tag() -> Seq<char> {
    seq!['A', 'p', 'p', 'l', 'i', 'c', 'a', 't', 'i', 'o', 'n']
}

pub open spec fn imported_tag() -> Seq<char> {
    seq!['I', 'm', 'p', 'o', 'r', 't', 'e', 'd']
}

pub open spec fn none_tag() -> Seq<char> {
    seq!['N', 'o', 'n', 'e']
}

pub open spec fn parameters_tag() -> Seq<char> {
    seq!['P', 'a', 'r', 'a', 'm', 'e', 't', 'e', 'r', 's']
}

pub open spec fn variants_tag() -> Seq<char> {
    seq!['V', 'a', 'r', 'i', 'a', 'n', 't', 's']
}

/// The tree a number is written as.
pub open spec fn sx_num(n: nat) -> Sx {
    Sx::Atom(decimal_seq(n))
}

/// The tree of a type reference, in the canonical text: a scalar as its
/// name, a declared name as `(Plain n)`, a generic application as its
/// projection's name and arguments, and a user application as
/// `(Application (head (args…)))`.
pub open spec fn sx_ref(r: ReferenceModel) -> Sx
    decreases r,
{
    match r {
        ReferenceModel::String => Sx::Atom(string_word()),
        ReferenceModel::Integer => Sx::Atom(integer_word()),
        ReferenceModel::Boolean => Sx::Atom(boolean_word()),
        ReferenceModel::Path => Sx::Atom(path_word()),
        ReferenceModel::Bytes => Sx::Atom(bytes_word()),
        ReferenceModel::Plain(n) => node(plain_tag(), seq![Sx::Atom(n)]),
        ReferenceModel::Single(p, a) => node(single_name_seq(p), seq![sx_ref(*a)]),
        ReferenceModel::Multi(p, args) => node(multi_name_seq(p), sx_refs(args)),
        ReferenceModel::Value(p, v) => node(value_name_seq(p), seq![sx_num(v as nat)]),
        ReferenceModel::Application(h, args) => node(
            application_tag(),
            seq![Sx::List(seq![sx_head(h), Sx::List(sx_refs(args))])],
        ),
    }
}

/// The trees of a list of references.
pub open spec fn sx_refs(s: Seq<ReferenceModel>) -> Seq<Sx>
    decreases s,
{
    if s.len() == 0 {
        Seq::empty()
    } else {
        proof {
            assert(decreases_to!(s => s.subrange(0, s.len() - 1)));
        }
        sx_refs(s.subrange(0, s.len() - 1)).push(sx_ref(s[s.len() - 1]))
    }
}

/// The tree of an application head: a local name, or the whole import
/// tagged as imported.
pub open spec fn sx_head(h: HeadModel) -> Sx
    decreases h,
{
    match h {
        HeadModel::Local(n) => Sx::Atom(n),
        HeadModel::Imported(i) => sx_import(i),
    }
}

/// The tree of an optional count.
pub open spec fn sx_count(c: Option<usize>) -> Sx {
    match c {
        Some(n) => sx_num(n as nat),
        None => node(none_tag(), Seq::empty()),
    }
}

/// The trees of a list of names.
pub open spec fn sx_names(ns: Seq<Seq<char>>) -> Seq<Sx> {
    Seq::new(ns.len(), |i: int| Sx::Atom(ns[i]))
}

/// The tree of a resolved import: every part of it.
pub open spec fn sx_import(i: ImportModel) -> Sx
    decreases i,
{
    node(
        imported_tag(),
        seq![
            Sx::Atom(i.local_name),
            Sx::Atom(i.source),
            sx_count(i.parameter_count),
            node(parameters_tag(), sx_names(i.parameters)),
            node(variants_tag(), sx_variants(i.variants)),
        ],
    )
}

/// The trees of a list of variants.
pub open spec fn sx_variants(vs: Seq<VariantModel>) -> Seq<Sx>
    decreases vs,
{
    if vs.len() == 0 {
        Seq::empty()
    } else {
        proof {
            assert(decreases_to!(vs => vs.subrange(0, vs.len() - 1)));
        }
        sx_variants(vs.subrange(0, vs.len() - 1)).push(sx_variant(vs[vs.len() - 1]))
    }
}

/// The members of a variant's tree after its name: its payload, if any.
pub open spec fn sx_payload(p: Option<ReferenceModel>) -> Seq<Sx>
    decreases p,
{
    match p {
        Some(r) => seq![sx_ref(r)],
        None => Seq::empty(),
    }
}

/// The tree of a variant: its name, then its payload, if any.
pub open spec fn sx_variant(v: VariantModel) -> Sx
    decreases v,
{
    node(v.name, sx_payload(v.payload))
}

/// What tells the trees of different kinds of reference apart: whether the
/// tree is a list, and the first two characters of its name or tag.
pub open spec fn sx_key(x: Sx) -> (bool, char, char) {
    match x {
        Sx::Atom(w) => (false, w[0], w[1]),
        Sx::List(ks) => match ks[0] {
            Sx::Atom(t) => (true, t[0], t[1]),
            Sx::List(_) => (true, ' ', ' '),
        },
    }
}

/// The key of each kind of reference.
pub open spec fn ref_key(r: ReferenceModel) -> (bool, char, char) {
    match r {
        ReferenceModel::String => (false, 'S', 't'),
        ReferenceModel::Integer => (false, 'I', 'n'),
        ReferenceModel::Boolean => (false, 'B', 'o'),
        ReferenceModel::Path => (false, 'P', 'a'),
        ReferenceModel::Bytes => (false, 'B', 'y'),
        ReferenceModel::Plain(_) => (true, 'P', 'l'),
        ReferenceModel::Single(p, _) => match p {
            SingleTypeReferenceProjection::Vector => (true, 'V', 'e'),
            SingleTypeReferenceProjection::Optional => (true, 'O', 'p'),
            SingleTypeReferenceProjection::ScopeOf => (true, 'S', 'c'),
        },
        ReferenceModel::Multi(_, _) => (true, 'M', 'a'),
        ReferenceModel::Value(_, _) => (true, 'B', 'y'),
        ReferenceModel::Application(_, _) => (true, 'A', 'p'),
    }
}

proof fn lemma_node_key(tag: Seq<char>, ks: Seq<Sx>)
    ensures
        sx_key(node(tag, ks)) == (true, tag[0], tag[1]),
{
    assert((seq![Sx::Atom(tag)] + ks)[0] == Sx::Atom(tag));
}

/// Each reference's tree carries its kind's key.
proof fn lemma_ref_key(r: ReferenceModel)
    ensures
        sx_key(sx_ref(r)) == ref_key(r),
{
    match r {
        ReferenceModel::Plain(n) => lemma_node_key(plain_tag(), seq![Sx::Atom(n)]),
        ReferenceModel::Single(p, a) => lemma_node_key(single_name_seq(p), seq![sx_ref(*a)]),
        ReferenceModel::Multi(p, args) => lemma_node_key(multi_name_seq(p), sx_refs(args)),
        ReferenceModel::Value(p, v) => lemma_node_key(value_name_seq(p), seq![sx_num(v as nat)]),
        ReferenceModel::Application(h, args) => lemma_node_key(
            application_tag(),
            seq![Sx::List(seq![sx_head(h), Sx::List(sx_refs(args))])],
        ),
        _ => {},
    }
}

/// Two references with the same tree are the same reference.
pub proof fn lemma_ref_injective(a: ReferenceModel, b: ReferenceModel)
    requires
        sx_ref(a) == sx_ref(b),
    ensures
        a == b,
    decreases a,
{
    lemma_ref_key(a);
    lemma_ref_key(b);
    assert(ref_key(a) == ref_key(b));
    match a {
        ReferenceModel::Plain(n) => {
            if let ReferenceModel::Plain(m) = b {
                lemma_node_eq(plain_tag(), seq![Sx::Atom(n)], plain_tag(), seq![Sx::Atom(m)]);
                assert(seq![Sx::Atom(n)][0] == seq![Sx::Atom(m)][0]);
            }
        },
        ReferenceModel::Single(p, x) => {
            if let ReferenceModel::Single(q, y) = b {
                assert(p == q);
                lemma_node_eq(single_name_seq(p), seq![sx_ref(*x)], single_name_seq(q), seq![sx_ref(*y)]);
                assert(seq![sx_ref(*x)][0] == seq![sx_ref(*y)][0]);
                lemma_ref_injective(*x, *y);
            }
        },
        ReferenceModel::Multi(p, xs) => {
            if let ReferenceModel::Multi(q, ys) = b {
                lemma_node_eq(multi_name_seq(p), sx_refs(xs), multi_name_seq(q), sx_refs(ys));
                lemma_refs_injective(xs, ys);
            }
        },
        ReferenceModel::Value(p, v) => {
            if let ReferenceModel::Value(q, w) = b {
                lemma_node_eq(value_name_seq(p), seq![sx_num(v as nat)], value_name_seq(q), seq![sx_num(w as nat)]);
                assert(seq![sx_num(v as nat)][0] == seq![sx_num(w as nat)][0]);
                lemma_decimal_injective(v as nat, w as nat);
            }
        },
        ReferenceModel::Application(h, xs) => {
            if let ReferenceModel::Application(g, ys) = b {
                let ka = seq![Sx::List(seq![sx_head(h), Sx::List(sx_refs(xs))])];
                let kb = seq![Sx::List(seq![sx_head(g), Sx::List(sx_refs(ys))])];
                lemma_node_eq(application_tag(), ka, application_tag(), kb);
                assert(ka[0] == kb[0]);
                let la = seq![sx_head(h), Sx::List(sx_refs(xs))];
                let lb = seq![sx_head(g), Sx::List(sx_refs(ys))];
                assert(la[0] == lb[0] && la[1] == lb[1]);
                lemma_head_injective(h, g);
                lemma_refs_injective(xs, ys);
            }
        },
        _ => {},
    }
}

/// Two lists of references with the same trees are the same list.
pub proof fn lemma_refs_injective(a: Seq<ReferenceModel>, b: Seq<ReferenceModel>)
    requires
        sx_refs(a) == sx_refs(b),
    ensures
        a == b,
    decreases a,
{
    if a.len() == 0 {
        if b.len() > 0 {
            assert(sx_refs(b).len() > 0);
        }
        assert(a =~= b);
    } else if b.len() == 0 {
        assert(sx_refs(a).len() > 0);
    } else {
        let pa = a.subrange(0, a.len() - 1);
        let pb = b.subrange(0, b.len() - 1);
        assert(decreases_to!(a => pa));
        let sa = sx_refs(a);
        let sb = sx_refs(b);
        assert(sa.drop_last() =~= sx_refs(pa));
        assert(sb.drop_last() =~= sx_refs(pb));
        assert(sa.last() == sx_ref(a[a.len() - 1]));
        assert(sb.last() == sx_ref(b[b.len() - 1]));
        lemma_refs_injective(pa, pb);
        lemma_ref_injective(a[a.len() - 1], b[b.len() - 1]);
        assert(a =~= pa.push(a[a.len() - 1]));
        assert(b =~= pb.push(b[b.len() - 1]));
    }
}

/// Two heads with the same tree are the same head.
pub proof fn lemma_head_injective(a: HeadModel, b: HeadModel)
    requires
        sx_head(a) == sx_head(b),
    ensures
        a == b,
    decreases a,
{
    match a {
        HeadModel::Local(n) => match b {
            HeadModel::Local(m) => {},
            HeadModel::Imported(j) => {},
        },
        HeadModel::Imported(i) => match b {
            HeadModel::Local(m) => {},
            HeadModel::Imported(j) => {
                lemma_import_injective(i, j);
            },
        },
    }
}

/// Two counts with the same tree are the same count.
proof fn lemma_count_injective(a: Option<usize>, b: Option<usize>)
    requires
        sx_count(a) == sx_count(b),
    ensures
        a == b,
{
    match a {
        Some(n) => {
            if let Some(m) = b {
                lemma_decimal_injective(n as nat, m as nat);
            }
        },
        None => {},
    }
}

/// Two imports with the same tree are the same import.
pub proof fn lemma_import_injective(a: ImportModel, b: ImportModel)
    requires
        sx_import(a) == sx_import(b),
    ensures
        a == b,
    decreases a,
{
    let ka = seq![
        Sx::Atom(a.local_name),
        Sx::Atom(a.source),
        sx_count(a.parameter_count),
        node(parameters_tag(), sx_names(a.parameters)),
        node(variants_tag(), sx_variants(a.variants)),
    ];
    let kb = seq![
        Sx::Atom(b.local_name),
        Sx::Atom(b.source),
        sx_count(b.parameter_count),
        node(parameters_tag(), sx_names(b.parameters)),
        node(variants_tag(), sx_variants(b.variants)),
    ];
    lemma_node_eq(imported_tag(), ka, imported_tag(), kb);
    assert(ka[0] == kb[0] && ka[1] == kb[1] && ka[2] == kb[2] && ka[3] == kb[3] && ka[4] == kb[4]);
    lemma_count_injective(a.parameter_count, b.parameter_count);
    lemma_node_eq(parameters_tag(), sx_names(a.parameters), parameters_tag(), sx_names(b.parameters));
    lemma_node_eq(variants_tag(), sx_variants(a.variants), variants_tag(), sx_variants(b.variants));
    assert(a.parameters =~= b.parameters) by {
        assert(sx_names(a.parameters).len() == sx_names(b.parameters).len());
        assert forall|k: int| 0 <= k < a.parameters.len() implies a.parameters[k] == b.parameters[k] by {
            assert(sx_names(a.parameters)[k] == sx_names(b.parameters)[k]);
        }
    }
    lemma_variants_injective(a.variants, b.variants);
}

/// Two lists of variants with the same trees are the same list.
pub proof fn lemma_variants_injective(a: Seq<VariantModel>, b: Seq<VariantModel>)
    requires
        sx_variants(a) == sx_variants(b),
    ensures
        a == b,
    decreases a,
{
    if a.len() == 0 {
        if b.len() > 0 {
            assert(sx_variants(b).len() > 0);
        }
        assert(a =~= b);
    } else if b.len() == 0 {
        assert(sx_variants(a).len() > 0);
    } else {
        let pa = a.subrange(0, a.len() - 1);
        let pb = b.subrange(0, b.len() - 1);
        assert(decreases_to!(a => pa));
        let sa = sx_variants(a);
        let sb = sx_variants(b);
        assert(sa.drop_last() =~= sx_variants(pa));
        assert(sb.drop_last() =~= sx_variants(pb));
        assert(sa.last() == sx_variant(a[a.len() - 1]));
        assert(sb.last() == sx_variant(b[b.len() - 1]));
        lemma_variants_injective(pa, pb);
        lemma_variant_injective(a[a.len() - 1], b[b.len() - 1]);
        assert(a =~= pa.push(a[a.len() - 1]));
        assert(b =~= pb.push(b[b.len() - 1]));
    }
}

/// Two variants with the same tree are the same variant.
pub proof fn lemma_variant_injective(a: VariantModel, b: VariantModel)
    requires
        sx_variant(a) == sx_variant(b),
    ensures
        a == b,
    decreases a,
{
    lemma_node_eq(a.name, sx_payload(a.payload), b.name, sx_payload(b.payload));
    match a.payload {
        Some(p) => {
            match b.payload {
                Some(q) => {
                    assert(seq![sx_ref(p)][0] == seq![sx_ref(q)][0]);
                    lemma_ref_injective(p, q);
                },
                None => {
                    assert(sx_payload(a.payload).len() == 1);
                },
            }
        },
        None => {
            if b.payload is Some {
                assert(sx_payload(b.payload).len() == 1);
            }
        },
    }
}

/// The text of a parameter: its name, a dot, and its reference.
pub open spec fn param_text(p: (Seq<char>, ReferenceModel)) -> Seq<char> {
    atom_text(p.0) + seq!['.'] + sx_text(sx_ref(p.1))
}

/// Parameters after the first, each after a space.
pub open spec fn params_tail(ps: Seq<(Seq<char>, ReferenceModel)>) -> Seq<char>
    decreases ps.len(),
{
    if ps.len() == 0 {
        Seq::empty()
    } else {
        seq![' '] + param_text(ps[0]) + params_tail(ps.subrange(1, ps.len() as int))
    }
}

/// The parameters, separated by single spaces.
pub open spec fn params_text(ps: Seq<(Seq<char>, ReferenceModel)>) -> Seq<char> {
    if ps.len() == 0 {
        Seq::empty()
    } else {
        param_text(ps[0]) + params_tail(ps.subrange(1, ps.len() as int))
    }
}

/// The text of a signature: `name { p.T … } R`.
pub open spec fn sig_text(s: SignatureModel) -> Seq<char> {
    atom_text(s.name) + seq![' ', '{', ' '] + params_text(s.parameters) + seq![' ', '}', ' ']
        + sx_text(sx_ref(s.return_reference))
}

/// A parameter's text, followed by text that cannot continue a name, is read
/// back uniquely.
proof fn lemma_param_unique(
    p: (Seq<char>, ReferenceModel),
    q: (Seq<char>, ReferenceModel),
    r1: Seq<char>,
    r2: Seq<char>,
)
    requires
        ends_token(r1),
        ends_token(r2),
        param_text(p) + r1 == param_text(q) + r2,
    ensures
        p == q,
        r1 == r2,
{
    let f1 = seq!['.'] + sx_text(sx_ref(p.1)) + r1;
    let f2 = seq!['.'] + sx_text(sx_ref(q.1)) + r2;
    assert(param_text(p) + r1 =~= atom_text(p.0) + f1);
    assert(param_text(q) + r2 =~= atom_text(q.0) + f2);
    lemma_atom_unique(p.0, q.0, f1, f2);
    assert(f1 =~= seq!['.'] + (sx_text(sx_ref(p.1)) + r1));
    assert(f2 =~= seq!['.'] + (sx_text(sx_ref(q.1)) + r2));
    lemma_cancel(seq!['.'], sx_text(sx_ref(p.1)) + r1, sx_text(sx_ref(q.1)) + r2);
    lemma_sx_unique(sx_ref(p.1), sx_ref(q.1), r1, r2);
    lemma_ref_injective(p.1, q.1);
}

/// A parameter's text is led by a plain character or a quote.
proof fn lemma_param_start(p: (Seq<char>, ReferenceModel))
    ensures
        param_text(p).len() > 0,
        plain_char(param_text(p)[0]) || param_text(p)[0] == '"',
{
    lemma_atom_start(p.0);
    assert(param_text(p)[0] == atom_text(p.0)[0]);
}

proof fn lemma_params_tail_unique(
    ps: Seq<(Seq<char>, ReferenceModel)>,
    qs: Seq<(Seq<char>, ReferenceModel)>,
    r1: Seq<char>,
    r2: Seq<char>,
)
    requires
        params_tail(ps) + seq![' ', '}', ' '] + r1 == params_tail(qs) + seq![' ', '}', ' '] + r2,
    ensures
        ps == qs,
        r1 == r2,
    decreases ps.len(),
{
    let lhs = params_tail(ps) + seq![' ', '}', ' '] + r1;
    let rhs = params_tail(qs) + seq![' ', '}', ' '] + r2;
    if ps.len() == 0 {
        if qs.len() > 0 {
            lemma_param_start(qs[0]);
            assert(rhs[1] == param_text(qs[0])[0]);
            assert(lhs[1] == '}');
            assert(false);
        }
        assert(lhs =~= seq![' ', '}', ' '] + r1);
        assert(rhs =~= seq![' ', '}', ' '] + r2);
        lemma_cancel(seq![' ', '}', ' '], r1, r2);
        assert(ps =~= qs);
    } else if qs.len() == 0 {
        lemma_param_start(ps[0]);
        assert(lhs[1] == param_text(ps[0])[0]);
        assert(rhs[1] == '}');
        assert(false);
    } else {
        let tp = ps.subrange(1, ps.len() as int);
        let tq = qs.subrange(1, qs.len() as int);
        let f1 = params_tail(tp) + seq![' ', '}', ' '] + r1;
        let f2 = params_tail(tq) + seq![' ', '}', ' '] + r2;
        assert(lhs =~= seq![' '] + (param_text(ps[0]) + f1));
        assert(rhs =~= seq![' '] + (param_text(qs[0]) + f2));
        lemma_cancel(seq![' '], param_text(ps[0]) + f1, param_text(qs[0]) + f2);
        assert(f1[0] == ' ') by {
            if tp.len() == 0 {
                assert(f1 =~= seq![' ', '}', ' '] + r1);
            }
        }
        assert(f2[0] == ' ') by {
            if tq.len() == 0 {
                assert(f2 =~= seq![' ', '}', ' '] + r2);
            }
        }
        lemma_param_unique(ps[0], qs[0], f1, f2);
        lemma_params_tail_unique(tp, tq, r1, r2);
        assert(ps =~= seq![ps[0]] + tp);
        assert(qs =~= seq![qs[0]] + tq);
    }
}

proof fn lemma_params_unique(
    ps: Seq<(Seq<char>, ReferenceModel)>,
    qs: Seq<(Seq<char>, ReferenceModel)>,
    r1: Seq<char>,
    r2: Seq<char>,
)
    requires
        params_text(ps) + seq![' ', '}', ' '] + r1 == params_text(qs) + seq![' ', '}', ' '] + r2,
    ensures
        ps == qs,
        r1 == r2,
{
    let lhs = params_text(ps) + seq![' ', '}', ' '] + r1;
    let rhs = params_text(qs) + seq![' ', '}', ' '] + r2;
    if ps.len() == 0 {
        if qs.len() > 0 {
            lemma_param_start(qs[0]);
            assert(rhs[0] == param_text(qs[0])[0]);
            assert(lhs[0] == ' ');
            assert(false);
        }
        assert(lhs =~= seq![' ', '}', ' '] + r1);
        assert(rhs =~= seq![' ', '}', ' '] + r2);
        lemma_cancel(seq![' ', '}', ' '], r1, r2);
        assert(ps =~= qs);
    } else if qs.len() == 0 {
        lemma_param_start(ps[0]);
        assert(lhs[0] == param_text(ps[0])[0]);
        assert(rhs[0] == ' ');
        assert(false);
    } else {
        let tp = ps.subrange(1, ps.len() as int);
        let tq = qs.subrange(1, qs.len() as int);
        let f1 = params_tail(tp) + seq![' ', '}', ' '] + r1;
        let f2 = params_tail(tq) + seq![' ', '}', ' '] + r2;
        assert(lhs =~= param_text(ps[0]) + f1);
        assert(rhs =~= param_text(qs[0]) + f2);
        assert(f1[0] == ' ') by {
            if tp.len() == 0 {
                assert(f1 =~= seq![' ', '}', ' '] + r1);
            }
        }
        assert(f2[0] == ' ') by {
            if tq.len() == 0 {
                assert(f2 =~= seq![' ', '}', ' '] + r2);
            }
        }
        lemma_param_unique(ps[0], qs[0], f1, f2);
        lemma_params_tail_unique(tp, tq, r1, r2);
        assert(ps =~= seq![ps[0]] + tp);
        assert(qs =~= seq![qs[0]] + tq);
    }
}

/// A signature's text tells it apart from every other signature.
pub proof fn lemma_sig_text_identifies(a: SignatureModel, b: SignatureModel)
    ensures
        sig_text(a) == sig_text(b) <==> a == b,
{
    if sig_text(a) == sig_text(b) {
        let ra = sx_text(sx_ref(a.return_reference));
        let rb = sx_text(sx_ref(b.return_reference));
        let f1 = seq![' ', '{', ' '] + (params_text(a.parameters) + seq![' ', '}', ' '] + ra);
        let f2 = seq![' ', '{', ' '] + (params_text(b.parameters) + seq![' ', '}', ' '] + rb);
        assert(sig_text(a) =~= atom_text(a.name) + f1);
        assert(sig_text(b) =~= atom_text(b.name) + f2);
        lemma_atom_unique(a.name, b.name, f1, f2);
        lemma_cancel(
            seq![' ', '{', ' '],
            params_text(a.parameters) + seq![' ', '}', ' '] + ra,
            params_text(b.parameters) + seq![' ', '}', ' '] + rb,
        );
        lemma_params_unique(a.parameters, b.parameters, ra, rb);
        lemma_sx_text_injective(sx_ref(a.return_reference), sx_ref(b.return_reference));
        lemma_ref_injective(a.return_reference, b.return_reference);
    }
}

/// Giving a list one more member appends it, after a space unless it is the
/// first.
pub proof fn lemma_inner_push(ks: Seq<Sx>, k: Sx)
    ensures
        ks.len() == 0 ==> inner_text(ks.push(k)) == sx_text(k),
        ks.len() > 0 ==> inner_text(ks.push(k)) == inner_text(ks) + seq![' '] + sx_text(k),
{
    let t = ks.push(k);
    assert(t[0] == if ks.len() == 0 { k } else { ks[0] });
    if ks.len() == 0 {
        assert(t.subrange(1, t.len() as int) =~= Seq::<Sx>::empty());
        assert(kids_text(Seq::<Sx>::empty()) == Seq::<char>::empty());
        assert(inner_text(t) =~= sx_text(k));
    } else {
        let rest = ks.subrange(1, ks.len() as int);
        assert(t.subrange(1, t.len() as int) =~= rest.push(k));
        lemma_kids_push(rest, k);
        assert(inner_text(t) =~= sx_text(ks[0]) + (kids_text(rest) + seq![' '] + sx_text(k)));
    }
}

/// One more parameter after the first is written after a space.
proof fn lemma_params_tail_push(ps: Seq<(Seq<char>, ReferenceModel)>, p: (Seq<char>, ReferenceModel))
    ensures
        params_tail(ps.push(p)) == params_tail(ps) + seq![' '] + param_text(p),
    decreases ps.len(),
{
    let t = ps.push(p);
    if ps.len() == 0 {
        let e = Seq::<(Seq<char>, ReferenceModel)>::empty();
        assert(t.subrange(1, 1) =~= e);
        assert(t[0] == p);
        assert(params_tail(e) == Seq::<char>::empty());
        assert(params_tail(t) == seq![' '] + param_text(p) + params_tail(e));
        assert(params_tail(t) =~= seq![' '] + param_text(p) + Seq::<char>::empty());
        assert(params_tail(ps) == Seq::<char>::empty());
    } else {
        let rest = ps.subrange(1, ps.len() as int);
        lemma_params_tail_push(rest, p);
        assert(t.subrange(1, t.len() as int) =~= rest.push(p));
        assert(t[0] == ps[0]);
        assert(params_tail(t) =~= seq![' '] + param_text(ps[0]) + (params_tail(rest) + seq![' '] + param_text(p)));
    }
}

/// One more parameter is written after a space unless it is the first.
pub proof fn lemma_params_push(ps: Seq<(Seq<char>, ReferenceModel)>, p: (Seq<char>, ReferenceModel))
    ensures
        ps.len() == 0 ==> params_text(ps.push(p)) == param_text(p),
        ps.len() > 0 ==> params_text(ps.push(p)) == params_text(ps) + seq![' '] + param_text(p),
{
    let t = ps.push(p);
    if ps.len() == 0 {
        assert(t[0] == p);
        assert(t.subrange(1, 1) =~= Seq::<(Seq<char>, ReferenceModel)>::empty());
        assert(params_tail(Seq::<(Seq<char>, ReferenceModel)>::empty()) == Seq::<char>::empty());
        assert(params_text(t) =~= param_text(p));
    } else {
        let rest = ps.subrange(1, ps.len() as int);
        assert(t[0] == ps[0]);
        assert(t.subrange(1, t.len() as int) =~= rest.push(p));
        lemma_params_tail_push(rest, p);
        assert(params_text(t) =~= param_text(ps[0]) + (params_tail(rest) + seq![' '] + param_text(p)));
    }
}

fn is_plain(c: char) -> (r: bool)
    ensures
        r == plain_char(c),
{
    c != ' ' && c != '"' && c != '\\' && c != '.' && c != '(' && c != ')' && c != '{' && c != '}'
}

/// Write the text of a name: bare when every character is plain, else
/// quoted and escaped.
pub(crate) fn write_atom(out: &mut String, s: &str)
    ensures
        final(out)@ == old(out)@ + atom_text(s@),
{
    let chars = crate::text::chars_of(s);
    let ghost start = old(out)@;
    let mut all_plain = true;
    let mut j: usize = 0;
    while j < chars.len()
        invariant
            j <= chars@.len(),
            chars@ == s@,
            all_plain == forall|k: int| 0 <= k < j ==> plain_char(#[trigger] chars@[k]),
        decreases chars.len() - j,
    {
        if !is_plain(chars[j]) {
            all_plain = false;
        }
        j += 1;
    }
    if chars.len() > 0 && all_plain {
        out.append(s);
        return;
    }
    push_char(out, '"');
    let mut i: usize = 0;
    assert(chars@.take(0) =~= Seq::<char>::empty());
    assert(esc(Seq::<char>::empty()) == Seq::<char>::empty());
    assert(out@ =~= start + seq!['"'] + esc(chars@.take(0)));
    while i < chars.len()
        invariant
            i <= chars@.len(),
            chars@ == s@,
            out@ == start + seq!['"'] + esc(chars@.take(i as int)),
        decreases chars.len() - i,
    {
        let c = chars[i];
        let ghost before = out@;
        if c == '"' || c == '\\' {
            push_char(out, '\\');
        }
        push_char(out, c);
        proof {
            lemma_esc_push(chars@.take(i as int), c);
            assert(chars@.take(i + 1) =~= chars@.take(i as int).push(c));
            assert(out@ =~= before + esc_piece(c));
        }
        i += 1;
    }
    push_char(out, '"');
    assert(chars@.take(chars@.len() as int) =~= s@);
    assert(out@ =~= old(out)@ + atom_text(s@));
}

/// Open a tagged list: the opening parenthesis and the tag.
fn open_node(out: &mut String, tag: &str)
    ensures
        final(out)@ == old(out)@ + seq!['('] + atom_text(tag@),
{
    push_char(out, '(');
    write_atom(out, tag);
}

fn close_node(out: &mut String)
    ensures
        final(out)@ == old(out)@ + seq![')'],
{
    push_char(out, ')');
    assert(out@ =~= old(out)@ + seq![')']);
}

fn space(out: &mut String)
    ensures
        final(out)@ == old(out)@ + seq![' '],
{
    push_char(out, ' ');
    assert(out@ =~= old(out)@ + seq![' ']);
}

/// Write a member of a list whose earlier members `ks` are written, each
/// after a space.
pub(crate) proof fn lemma_child(before: Seq<char>, ks: Seq<Sx>, k: Sx)
    ensures
        before + kids_text(ks) + seq![' '] + sx_text(k) == before + kids_text(ks.push(k)),
{
    lemma_kids_push(ks, k);
    assert(before + kids_text(ks) + seq![' '] + sx_text(k) =~= before + (kids_text(ks) + seq![' '] + sx_text(k)));
}

/// A tagged list with one member.
proof fn lemma_node_one(start: Seq<char>, tag: Seq<char>, k: Sx)
    ensures
        start + seq!['('] + atom_text(tag) + seq![' '] + sx_text(k) + seq![')'] == start + sx_text(
            node(tag, seq![k]),
        ),
{
    lemma_node_text(tag, seq![k]);
    assert(seq![k].subrange(1, 1) =~= Seq::<Sx>::empty());
    assert(kids_text(Seq::<Sx>::empty()) == Seq::<char>::empty());
    assert(kids_text(seq![k]) =~= seq![' '] + sx_text(k));
}

/// Write the text of a number.
fn write_num(out: &mut String, n: u64)
    ensures
        final(out)@ == old(out)@ + sx_text(sx_num(n as nat)),
{
    let digits = decimal_text(n);
    write_atom(out, digits.as_str());
}

/// Write the canonical text of a reference.
pub(crate) fn write_ref(out: &mut String, r: &TypeReference)
    ensures
        final(out)@ == old(out)@ + sx_text(sx_ref(reference_view(*r))),
    decreases r, 3nat,
{
    let ghost start = old(out)@;
    match r {
        TypeReference::String => {
            proof {
                reveal_strlit("String");
                assert("String"@ =~= string_word());
            }
            write_atom(out, "String");
        },
        TypeReference::Integer => {
            proof {
                reveal_strlit("Integer");
                assert("Integer"@ =~= integer_word());
            }
            write_atom(out, "Integer");
        },
        TypeReference::Boolean => {
            proof {
                reveal_strlit("Boolean");
                assert("Boolean"@ =~= boolean_word());
            }
            write_atom(out, "Boolean");
        },
        TypeReference::Path => {
            proof {
                reveal_strlit("Path");
                assert("Path"@ =~= path_word());
            }
            write_atom(out, "Path");
        },
        TypeReference::Bytes => {
            proof {
                reveal_strlit("Bytes");
                assert("Bytes"@ =~= bytes_word());
            }
            write_atom(out, "Bytes");
        },
        TypeReference::Plain(n) => {
            proof {
                reveal_strlit("Plain");
                assert("Plain"@ =~= plain_tag());
            }
            open_node(out, "Plain");
            space(out);
            write_atom(out, n.as_str());
            close_node(out);
            proof {
                lemma_node_one(start, plain_tag(), Sx::Atom(n@));
            }
        },
        TypeReference::SingleTypeApplication { projection, argument } => {
            let tag = projection.canonical_name();
            open_node(out, tag);
            space(out);
            let inner: &TypeReference = argument;
            write_ref(out, inner);
            close_node(out);
            proof {
                lemma_node_one(start, single_name_seq(*projection), sx_ref(reference_view(*inner)));
            }
        },
        TypeReference::MultiTypeApplication { projection, arguments } => {
            proof {
                crate::reference::lemma_multi_args(*r);
            }
            let tag = projection.canonical_name();
            open_node(out, tag);
            write_refs(out, arguments);
            close_node(out);
            proof {
                lemma_node_text(multi_name_seq(*projection), sx_refs(references_view(arguments@)));
            }
        },
        TypeReference::ValueApplication { projection, value } => {
            let tag = projection.canonical_name();
            open_node(out, tag);
            space(out);
            write_num(out, *value);
            close_node(out);
            proof {
                lemma_node_one(start, value_name_seq(*projection), sx_num(*value as nat));
            }
        },
        TypeReference::Application { head, arguments } => {
            proof {
                crate::reference::lemma_app_args(*r);
                reveal_strlit("Application");
                assert("Application"@ =~= application_tag());
            }
            open_node(out, "Application");
            space(out);
            let ghost m = out@;
            push_char(out, '(');
            write_head(out, head);
            space(out);
            write_ref_group(out, arguments);
            close_node(out);
            proof {
                let h = sx_head(head_view(*head));
                let g = Sx::List(sx_refs(references_view(arguments@)));
                let pair = seq![h, g];
                assert(pair[0] == h);
                assert(pair.subrange(1, 2) =~= seq![g]);
                assert(seq![g].subrange(1, 1) =~= Seq::<Sx>::empty());
                assert(kids_text(Seq::<Sx>::empty()) == Seq::<char>::empty());
                assert(kids_text(seq![g]) =~= seq![' '] + sx_text(g));
                assert(inner_text(pair) =~= sx_text(h) + seq![' '] + sx_text(g));
                assert(out@ =~= m + sx_text(Sx::List(pair)));
            }
            close_node(out);
            proof {
                lemma_node_one(
                    start,
                    application_tag(),
                    Sx::List(seq![sx_head(head_view(*head)), Sx::List(sx_refs(references_view(arguments@)))]),
                );
            }
        },
    }
}

/// Write a list of references, each after a space.
fn write_refs(out: &mut String, args: &Vec<TypeReference>)
    ensures
        final(out)@ == old(out)@ + kids_text(sx_refs(references_view(args@))),
    decreases args, 2nat,
{
    let ghost start = old(out)@;
    let ghost v = references_view(args@);
    let mut i: usize = 0;
    assert(v.take(0) =~= Seq::<ReferenceModel>::empty());
    assert(sx_refs(Seq::<ReferenceModel>::empty()) == Seq::<Sx>::empty());
    assert(kids_text(Seq::<Sx>::empty()) == Seq::<char>::empty());
    assert(out@ =~= start + kids_text(sx_refs(v.take(0))));
    while i < args.len()
        invariant
            i <= args@.len(),
            v == references_view(args@),
            v.len() == args@.len(),
            out@ == start + kids_text(sx_refs(v.take(i as int))),
        decreases args.len() - i,
    {
        proof {
            assert(decreases_to!(*args => args@));
            assert(decreases_to!(args@ => args@[i as int]));
        }
        space(out);
        write_ref(out, &args[i]);
        proof {
            assert(v[i as int] == reference_view(args@[i as int]));
            let t = v.take(i + 1);
            assert(t.subrange(0, t.len() - 1) =~= v.take(i as int));
            assert(t[t.len() - 1] == v[i as int]);
            assert(sx_refs(t) == sx_refs(v.take(i as int)).push(sx_ref(v[i as int])));
            lemma_child(start, sx_refs(v.take(i as int)), sx_ref(v[i as int]));
        }
        i += 1;
    }
    assert(v.take(args@.len() as int) =~= v);
}

/// Write a parenthesized list of references, separated by single spaces.
fn write_ref_group(out: &mut String, args: &Vec<TypeReference>)
    ensures
        final(out)@ == old(out)@ + sx_text(Sx::List(sx_refs(references_view(args@)))),
    decreases args, 2nat,
{
    let ghost start = old(out)@;
    let ghost v = references_view(args@);
    push_char(out, '(');
    let mut i: usize = 0;
    assert(v.take(0) =~= Seq::<ReferenceModel>::empty());
    assert(sx_refs(Seq::<ReferenceModel>::empty()) == Seq::<Sx>::empty());
    assert(inner_text(Seq::<Sx>::empty()) == Seq::<char>::empty());
    assert(out@ =~= start + seq!['('] + inner_text(sx_refs(v.take(0))));
    while i < args.len()
        invariant
            i <= args@.len(),
            v == references_view(args@),
            v.len() == args@.len(),
            out@ == start + seq!['('] + inner_text(sx_refs(v.take(i as int))),
        decreases args.len() - i,
    {
        proof {
            assert(decreases_to!(*args => args@));
            assert(decreases_to!(args@ => args@[i as int]));
        }
        let ghost before = out@;
        if i > 0 {
            space(out);
        }
        write_ref(out, &args[i]);
        proof {
            assert(v[i as int] == reference_view(args@[i as int]));
            let t = v.take(i + 1);
            assert(t.subrange(0, t.len() - 1) =~= v.take(i as int));
            assert(t[t.len() - 1] == v[i as int]);
            assert(sx_refs(t) == sx_refs(v.take(i as int)).push(sx_ref(v[i as int])));
            assert(sx_refs(v.take(i as int)).len() == i) by {
                crate::signature_text::lemma_sx_refs_len(v.take(i as int));
            }
            lemma_inner_push(sx_refs(v.take(i as int)), sx_ref(v[i as int]));
        }
        i += 1;
    }
    assert(v.take(args@.len() as int) =~= v);
    close_node(out);
}

/// A list of references has as many trees as references.
pub proof fn lemma_sx_refs_len(s: Seq<ReferenceModel>)
    ensures
        sx_refs(s).len() == s.len(),
    decreases s.len(),
{
    if s.len() > 0 {
        lemma_sx_refs_len(s.subrange(0, s.len() - 1));
    }
}

/// Write the text of an application head.
fn write_head(out: &mut String, h: &ApplicationHead)
    ensures
        final(out)@ == old(out)@ + sx_text(sx_head(head_view(*h))),
    decreases h, 2nat,
{
    match h {
        ApplicationHead::Local(n) => {
            write_atom(out, n.as_str());
        },
        ApplicationHead::Imported(i) => {
            i.write_identity_text(out);
        },
    }
}

/// Write the text of an optional count.
pub(crate) fn write_count(out: &mut String, c: Option<usize>)
    ensures
        final(out)@ == old(out)@ + sx_text(sx_count(c)),
{
    match c {
        Some(n) => write_num(out, n as u64),
        None => {
            proof {
                reveal_strlit("None");
                assert("None"@ =~= none_tag());
            }
            open_node(out, "None");
            close_node(out);
            proof {
                lemma_node_text(none_tag(), Seq::empty());
                assert(kids_text(Seq::<Sx>::empty()) == Seq::<char>::empty());
            }
        },
    }
}

/// Write a list of names, each after a space.
pub(crate) fn write_names(out: &mut String, ns: &[crate::name::Name])
    ensures
        final(out)@ == old(out)@ + kids_text(sx_names(crate::name::names_view(ns@))),
{
    let ghost start = old(out)@;
    let ghost v = crate::name::names_view(ns@);
    let mut i: usize = 0;
    assert(sx_names(v).take(0) =~= Seq::<Sx>::empty());
    assert(kids_text(Seq::<Sx>::empty()) == Seq::<char>::empty());
    assert(out@ =~= start + kids_text(sx_names(v).take(0)));
    while i < ns.len()
        invariant
            i <= ns@.len(),
            v == crate::name::names_view(ns@),
            v.len() == ns@.len(),
            out@ == start + kids_text(sx_names(v).take(i as int)),
        decreases ns.len() - i,
    {
        space(out);
        write_atom(out, ns[i].as_str());
        proof {
            assert(v[i as int] == ns@[i as int]@);
            assert(sx_names(v).take(i + 1) =~= sx_names(v).take(i as int).push(Sx::Atom(v[i as int])));
            lemma_child(start, sx_names(v).take(i as int), Sx::Atom(v[i as int]));
        }
        i += 1;
    }
    assert(sx_names(v).take(ns@.len() as int) =~= sx_names(v));
}

/// Write a list of variants, each after a space.
pub(crate) fn write_variants(out: &mut String, vs: &Vec<EnumVariant>)
    ensures
        final(out)@ == old(out)@ + kids_text(sx_variants(variants_view(vs@))),
    decreases vs, 2nat,
{
    let ghost start = old(out)@;
    let ghost v = variants_view(vs@);
    let mut i: usize = 0;
    assert(v.take(0) =~= Seq::<VariantModel>::empty());
    assert(sx_variants(Seq::<VariantModel>::empty()) == Seq::<Sx>::empty());
    assert(kids_text(Seq::<Sx>::empty()) == Seq::<char>::empty());
    assert(out@ =~= start + kids_text(sx_variants(v.take(0))));
    while i < vs.len()
        invariant
            i <= vs@.len(),
            v == variants_view(vs@),
            v.len() == vs@.len(),
            out@ == start + kids_text(sx_variants(v.take(i as int))),
        decreases vs.len() - i,
    {
        proof {
            assert(decreases_to!(*vs => vs@));
            assert(decreases_to!(vs@ => vs@[i as int]));
        }
        space(out);
        write_variant(out, &vs[i]);
        proof {
            assert(v[i as int] == variant_view(vs@[i as int]));
            let t = v.take(i + 1);
            assert(t.subrange(0, t.len() - 1) =~= v.take(i as int));
            assert(t[t.len() - 1] == v[i as int]);
            assert(sx_variants(t) == sx_variants(v.take(i as int)).push(sx_variant(v[i as int])));
            lemma_child(start, sx_variants(v.take(i as int)), sx_variant(v[i as int]));
        }
        i += 1;
    }
    assert(v.take(vs@.len() as int) =~= v);
}

/// Write the text of a variant: its name, then its payload, if any.
fn write_variant(out: &mut String, v: &EnumVariant)
    ensures
        final(out)@ == old(out)@ + sx_text(sx_variant(variant_view(*v))),
    decreases v, 1nat,
{
    let ghost start = old(out)@;
    open_node(out, v.name.as_str());
    match &v.payload {
        Some(p) => {
            space(out);
            write_ref(out, p);
            close_node(out);
            proof {
                assert(variant_view(*v).payload == Some(reference_view(*p)));
                lemma_node_one(start, v.name@, sx_ref(reference_view(*p)));
            }
        },
        None => {
            close_node(out);
            proof {
                assert(variant_view(*v).payload is None);
                lemma_node_text(v.name@, Seq::empty());
                assert(kids_text(Seq::<Sx>::empty()) == Seq::<char>::empty());
            }
        },
    }
    proof {
        assert(variant_view(*v).name == v.name@);
    }
}

} // verus!
