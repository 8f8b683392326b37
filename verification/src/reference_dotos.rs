//! Reading a type reference back from its canonical block form: a scalar
//! name, `(Plain Name)`, `(Application (Head (Args …)))`, or a projection
//! head followed by its arguments.

use crate::block::{BlockDelimiter, BlockForm, DotosBlock};
use crate::name::Name;
use crate::reference::{
    head_view, multi_name_seq, references_view, reference_view, scalar_kind_seq, scalar_seq, single_name_seq, value_name_seq,
    ApplicationHead, HeadModel, MultiTypeReferenceProjection, ReferenceModel,
    SingleTypeReferenceProjection, TypeReference, ValueReferenceProjection,
};
use crate::source_schema::{demote, demoted_text};
use crate::factoring::lemma_decimal_value;
use crate::text::{
    all_digits, decimal_seq, digit_char, is_ascii_digit, parse_u64, parse_unsigned, str_eq, unsigned_digits,
};
use vstd::prelude::*;

verus! {

/// Why a block is not the canonical form of a type reference.
#[derive(Clone, Debug, PartialEq, Eq)]
pub enum ReferenceDecodeError {
    /// A delimited group was expected at the named position.
    ExpectedDelimited { position: &'static str, delimiter: &'static str },
    /// A group held another number of blocks than the position takes.
    ExpectedRootCount { position: &'static str, expected: usize, found: usize },
    /// A plain atom was expected at the named position.
    ExpectedAtom { position: &'static str },
    /// A head that names no form of the enum.
    UnknownVariant { enum_name: &'static str, variant: String },
}

/// The mathematical form of a decode error.
pub enum DecodeFault {
    ExpectedDelimited(Seq<char>, Seq<char>),
    ExpectedRootCount(Seq<char>, nat, nat),
    ExpectedAtom(Seq<char>),
    UnknownVariant(Seq<char>, Seq<char>),
}

pub open spec fn fault_view(e: ReferenceDecodeError) -> DecodeFault {
    match e {
        ReferenceDecodeError::ExpectedDelimited { position, delimiter } => DecodeFault::ExpectedDelimited(
            position@,
            delimiter@,
        ),
        ReferenceDecodeError::ExpectedRootCount { position, expected, found } => DecodeFault::ExpectedRootCount(
            position@,
            expected as nat,
            found as nat,
        ),
        ReferenceDecodeError::ExpectedAtom { position } => DecodeFault::ExpectedAtom(position@),
        ReferenceDecodeError::UnknownVariant { enum_name, variant } => DecodeFault::UnknownVariant(
            enum_name@,
            variant@,
        ),
    }
}

/// What reading a block gives: a value, a fault, or a panic on a group too
/// short for its head.
pub enum Decoded<T> {
    Panics,
    Fails(DecodeFault),
    Gives(T),
}

/// The single-type projection spelled `v`, if any.
pub open spec fn single_named(v: Seq<char>) -> Option<SingleTypeReferenceProjection> {
    if v == single_name_seq(SingleTypeReferenceProjection::Vector) {
        Some(SingleTypeReferenceProjection::Vector)
    } else if v == single_name_seq(SingleTypeReferenceProjection::Optional) {
        Some(SingleTypeReferenceProjection::Optional)
    } else if v == single_name_seq(SingleTypeReferenceProjection::ScopeOf) {
        Some(SingleTypeReferenceProjection::ScopeOf)
    } else {
        None
    }
}

/// The multi-type projection spelled `v`, if any.
pub open spec fn multi_named(v: Seq<char>) -> Option<MultiTypeReferenceProjection> {
    if v == multi_name_seq(MultiTypeReferenceProjection::KeyedMap) {
        Some(MultiTypeReferenceProjection::KeyedMap)
    } else {
        None
    }
}

/// The value projection spelled `v`, if any.
pub open spec fn value_named(v: Seq<char>) -> Option<ValueReferenceProjection> {
    if v == value_name_seq(ValueReferenceProjection::Bytes) {
        Some(ValueReferenceProjection::Bytes)
    } else {
        None
    }
}

/// Whether head `v` reads the block after it.
pub open spec fn head_takes_argument(v: Seq<char>) -> bool {
    v == "Plain"@ || v == "Application"@ || single_named(v) is Some || value_named(v) is Some
}

/// The reference a block reads as: a plain atom names a scalar; a
/// parenthesized group starts with its head, after which come its arguments.
pub open spec fn decoded_reference(b: DotosBlock) -> Decoded<ReferenceModel>
    decreases b, 0nat,
{
    match demoted_text(b) {
        Some(t) => match scalar_kind_seq(t) {
            Some(m) => Decoded::Gives(m),
            None => Decoded::Fails(DecodeFault::UnknownVariant("TypeReference"@, t)),
        },
        None => match b.form {
            BlockForm::Delimited(BlockDelimiter::Parenthesis, objs) => {
                let cs = objs@;
                if cs.len() == 0 {
                    Decoded::Fails(DecodeFault::ExpectedRootCount("TypeReference"@, 1, 0))
                } else {
                    match demoted_text(cs[0]) {
                        None => Decoded::Fails(DecodeFault::ExpectedAtom("TypeReference variant"@)),
                        Some(v) => if cs.len() < 2 && head_takes_argument(v) {
                            Decoded::Panics
                        } else if v == "Plain"@ {
                            match demoted_text(cs[1]) {
                                Some(n) => Decoded::Gives(ReferenceModel::Plain(n)),
                                None => Decoded::Fails(DecodeFault::ExpectedAtom("Name"@)),
                            }
                        } else if v == "Application"@ {
                            decoded_application(cs[1])
                        } else if single_named(v) is Some {
                            match decoded_reference(cs[1]) {
                                Decoded::Gives(a) => Decoded::Gives(
                                    ReferenceModel::Single(single_named(v)->Some_0, Box::new(a)),
                                ),
                                Decoded::Fails(f) => Decoded::Fails(f),
                                Decoded::Panics => Decoded::Panics,
                            }
                        } else if multi_named(v) is Some {
                            proof {
                                assert(decreases_to!(cs => cs.subrange(1, cs.len() as int)));
                            }
                            match decoded_list(cs.subrange(1, cs.len() as int)) {
                                Decoded::Gives(s) => Decoded::Gives(ReferenceModel::Multi(multi_named(v)->Some_0, s)),
                                Decoded::Fails(f) => Decoded::Fails(f),
                                Decoded::Panics => Decoded::Panics,
                            }
                        } else if value_named(v) is Some {
                            match demoted_text(cs[1]) {
                                Some(w) => match parse_unsigned(w) {
                                    Some(n) => Decoded::Gives(ReferenceModel::Value(value_named(v)->Some_0, n)),
                                    None => Decoded::Fails(DecodeFault::ExpectedAtom("value application width"@)),
                                },
                                None => Decoded::Fails(DecodeFault::ExpectedAtom("value application width"@)),
                            }
                        } else {
                            Decoded::Fails(DecodeFault::UnknownVariant("TypeReference"@, v))
                        },
                    }
                }
            },
            _ => Decoded::Fails(DecodeFault::ExpectedDelimited("TypeReference"@, "("@)),
        },
    }
}

/// The payload of an `Application` head: a group of a head name and a group
/// of arguments; the head reads as local.
pub open spec fn decoded_application(c: DotosBlock) -> Decoded<ReferenceModel>
    decreases c, 1nat,
{
    match c.form {
        BlockForm::Delimited(BlockDelimiter::Parenthesis, pobjs) => {
            let pc = pobjs@;
            if pc.len() != 2 {
                Decoded::Fails(
                    DecodeFault::ExpectedRootCount("TypeReference::Application payload"@, 2, pc.len()),
                )
            } else {
                match demoted_text(pc[0]) {
                    None => Decoded::Fails(DecodeFault::ExpectedAtom("Name"@)),
                    Some(h) => match pc[1].form {
                        BlockForm::Delimited(BlockDelimiter::Parenthesis, aobjs) => match decoded_list(aobjs@) {
                            Decoded::Gives(s) => Decoded::Gives(ReferenceModel::Application(HeadModel::Local(h), s)),
                            Decoded::Fails(f) => Decoded::Fails(f),
                            Decoded::Panics => Decoded::Panics,
                        },
                        _ => Decoded::Fails(
                            DecodeFault::ExpectedDelimited("TypeReference::Application arguments"@, "("@),
                        ),
                    },
                }
            }
        },
        _ => Decoded::Fails(DecodeFault::ExpectedDelimited("TypeReference::Application payload"@, "("@)),
    }
}

/// The references a list of blocks reads as, in order, up to the first that
/// does not read.
pub open spec fn decoded_list(s: Seq<DotosBlock>) -> Decoded<Seq<ReferenceModel>>
    decreases s, 2nat,
{
    if s.len() == 0 {
        Decoded::Gives(Seq::empty())
    } else {
        proof {
            assert(decreases_to!(s => s.subrange(0, s.len() - 1)));
        }
        match decoded_list(s.drop_last()) {
            Decoded::Gives(acc) => match decoded_reference(s.last()) {
                Decoded::Gives(m) => Decoded::Gives(acc.push(m)),
                Decoded::Fails(f) => Decoded::Fails(f),
                Decoded::Panics => Decoded::Panics,
            },
            Decoded::Fails(f) => Decoded::Fails(f),
            Decoded::Panics => Decoded::Panics,
        }
    }
}

/// Whether `r` is what reading gave: the value on `Gives`, the fault on
/// `Fails`.
pub open spec fn decode_result(r: Result<TypeReference, ReferenceDecodeError>, d: Decoded<ReferenceModel>) -> bool {
    match r {
        Ok(t) => d == Decoded::Gives(reference_view(t)),
        Err(e) => d == Decoded::<ReferenceModel>::Fails(fault_view(e)),
    }
}

/// Whether `r` is what reading a list gave.
pub open spec fn decode_list_result(
    r: Result<Vec<TypeReference>, ReferenceDecodeError>,
    d: Decoded<Seq<ReferenceModel>>,
) -> bool {
    match r {
        Ok(v) => d == Decoded::Gives(references_view(v@)),
        Err(e) => d == Decoded::<Seq<ReferenceModel>>::Fails(fault_view(e)),
    }
}

/// Once a prefix of a list fails or panics, so does the whole list.
proof fn lemma_list_stops(s: Seq<DotosBlock>, k: int)
    requires
        0 <= k <= s.len(),
        !(decoded_list(s.take(k)) is Gives),
    ensures
        decoded_list(s) == decoded_list(s.take(k)),
    decreases s.len() - k,
{
    if k == s.len() {
        assert(s.take(k) =~= s);
    } else {
        let t = s.take(k + 1);
        assert(t.drop_last() =~= s.take(k));
        lemma_list_stops(s, k + 1);
    }
}

fn read_list(objects: &Vec<DotosBlock>, start: usize) -> (r: Result<Vec<TypeReference>, ReferenceDecodeError>)
    requires
        start <= objects@.len(),
        !(decoded_list(objects@.subrange(start as int, objects@.len() as int)) is Panics),
    ensures
        decode_list_result(r, decoded_list(objects@.subrange(start as int, objects@.len() as int))),
    decreases objects@, 1nat,
{
    let ghost s = objects@.subrange(start as int, objects@.len() as int);
    let mut out: Vec<TypeReference> = Vec::new();
    let mut i: usize = start;
    assert(s.take(0) =~= Seq::<DotosBlock>::empty());
    assert(references_view(out@) =~= Seq::<ReferenceModel>::empty());
    while i < objects.len()
        invariant
            start <= i <= objects@.len(),
            s == objects@.subrange(start as int, objects@.len() as int),
            !(decoded_list(s) is Panics),
            decoded_list(s.take(i - start)) == Decoded::Gives(references_view(out@)),
        decreases objects.len() - i,
    {
        let ghost k = i - start;
        let ghost t1 = s.take(k + 1);
        assert(t1.drop_last() =~= s.take(k));
        assert(t1.last() == objects@[i as int]);
        proof {
            assert(decreases_to!(objects@ => objects@[i as int]));
            if decoded_reference(objects@[i as int]) is Panics {
                lemma_list_stops(s, k + 1);
            }
        }
        match TypeReference::from_dotos_block(&objects[i]) {
            Ok(t) => {
                let ghost before = out@;
                out.push(t);
                assert(references_view(out@) =~= references_view(before).push(reference_view(t)));
            },
            Err(e) => {
                proof {
                    lemma_list_stops(s, k + 1);
                }
                return Err(e);
            },
        }
        i += 1;
    }
    assert(s.take(s.len() as int) =~= s);
    Ok(out)
}

impl TypeReference {
    /// Read a reference from its canonical block form: `String`, `Integer`,
    /// `Boolean`, `Path` and `Bytes` as plain atoms, `(Plain Name)`,
    /// `(Application (Head (Args …)))`, `(Vector A)`, `(Optional A)`,
    /// `(ScopeOf A)`, `(Map A …)` and `(Bytes N)`.
    pub fn from_dotos_block(block: &DotosBlock) -> (r: Result<TypeReference, ReferenceDecodeError>)
        requires
            !(decoded_reference(*block) is Panics),
        ensures
            decode_result(r, decoded_reference(*block)),
        decreases block, 0nat,
    {
        if let Some(t) = demote(block) {
            let m = TypeReference::new(t.as_str());
            return match m {
                TypeReference::Plain(_) => Err(ReferenceDecodeError::UnknownVariant { enum_name: "TypeReference", variant: t }),
                _ => Ok(m),
            };
        }
        let cs = match &block.form {
            BlockForm::Delimited(BlockDelimiter::Parenthesis, objs) => objs,
            _ => {
                return Err(ReferenceDecodeError::ExpectedDelimited { position: "TypeReference", delimiter: "(" });
            },
        };
        if cs.len() == 0 {
            return Err(ReferenceDecodeError::ExpectedRootCount { position: "TypeReference", expected: 1, found: 0 });
        }
        let v = match demote(&cs[0]) {
            Some(v) => v,
            None => {
                return Err(ReferenceDecodeError::ExpectedAtom { position: "TypeReference variant" });
            },
        };
        proof {
            if cs@.len() >= 2 {
                assert(decreases_to!(*block => block.form));
                assert(decreases_to!(*block => cs@[1]));
            }
        }
        if str_eq(v.as_str(), "Plain") {
            return match demote(&cs[1]) {
                Some(n) => Ok(TypeReference::Plain(Name::from_string(n))),
                None => Err(ReferenceDecodeError::ExpectedAtom { position: "Name" }),
            };
        }
        if str_eq(v.as_str(), "Application") {
            return read_application(&cs[1]);
        }
        if let Some(p) = SingleTypeReferenceProjection::from_canonical_name(v.as_str()) {
            let a = TypeReference::from_dotos_block(&cs[1])?;
            return Ok(TypeReference::SingleTypeApplication { projection: p, argument: Box::new(a) });
        }
        if let Some(p) = MultiTypeReferenceProjection::from_canonical_name(v.as_str()) {
            let arguments = read_list(cs, 1)?;
            return Ok(TypeReference::MultiTypeApplication { projection: p, arguments });
        }
        if let Some(p) = ValueReferenceProjection::from_canonical_name(v.as_str()) {
            let width = match demote(&cs[1]) {
                Some(w) => parse_u64(w.as_str()),
                None => None,
            };
            return match width {
                Some(value) => Ok(TypeReference::ValueApplication { projection: p, value }),
                None => Err(ReferenceDecodeError::ExpectedAtom { position: "value application width" }),
            };
        }
        Err(ReferenceDecodeError::UnknownVariant { enum_name: "TypeReference", variant: v })
    }
}

fn read_application(c: &DotosBlock) -> (r: Result<TypeReference, ReferenceDecodeError>)
    requires
        !(decoded_application(*c) is Panics),
    ensures
        decode_result(r, decoded_application(*c)),
    decreases c, 1nat,
{
    let pc = match &c.form {
        BlockForm::Delimited(BlockDelimiter::Parenthesis, objs) => objs,
        _ => {
            return Err(ReferenceDecodeError::ExpectedDelimited {
                position: "TypeReference::Application payload",
                delimiter: "(",
            });
        },
    };
    if pc.len() != 2 {
        return Err(ReferenceDecodeError::ExpectedRootCount {
            position: "TypeReference::Application payload",
            expected: 2,
            found: pc.len(),
        });
    }
    let head = match demote(&pc[0]) {
        Some(h) => h,
        None => {
            return Err(ReferenceDecodeError::ExpectedAtom { position: "Name" });
        },
    };
    match &pc[1].form {
        BlockForm::Delimited(BlockDelimiter::Parenthesis, aobjs) => {
            proof {
                assert(aobjs@.subrange(0, aobjs@.len() as int) =~= aobjs@);
            }
            let arguments = read_list(aobjs, 0)?;
            let ghost hv = head@;
            let n = Name::from_string(head);
            assert(n@ == hv);
            let h = ApplicationHead::Local(n);
            assert(head_view(h) == HeadModel::Local(hv));
            let t = TypeReference::Application { head: h, arguments };
            assert(reference_view(t) == ReferenceModel::Application(HeadModel::Local(hv), references_view(arguments@)));
            Ok(t)
        },
        _ => Err(ReferenceDecodeError::ExpectedDelimited {
            position: "TypeReference::Application arguments",
            delimiter: "(",
        }),
    }
}

/// Whether block `b` spells reference `m` in canonical form: a scalar as its
/// plain name; `(Plain Name)`; a projection head followed by its arguments;
/// `(Bytes N)` with `N` in decimal; `(Application (Head (Args …)))` for a
/// local head.
pub open spec fn canonical_for(b: DotosBlock, m: ReferenceModel) -> bool
    decreases m, 0nat,
{
    match m {
        ReferenceModel::String | ReferenceModel::Integer | ReferenceModel::Boolean | ReferenceModel::Path
        | ReferenceModel::Bytes => demoted_text(b) == scalar_seq(m),
        _ => match b.form {
            BlockForm::Delimited(BlockDelimiter::Parenthesis, objs) => {
                let cs = objs@;
                match m {
                    ReferenceModel::Plain(n) => cs.len() == 2 && demoted_text(cs[0]) == Some("Plain"@)
                        && demoted_text(cs[1]) == Some(n),
                    ReferenceModel::Single(p, a) => cs.len() == 2 && demoted_text(cs[0]) == Some(single_name_seq(p))
                        && canonical_for(cs[1], *a),
                    ReferenceModel::Multi(p, args) => cs.len() >= 1 && demoted_text(cs[0]) == Some(multi_name_seq(p))
                        && canonical_list(cs.subrange(1, cs.len() as int), args),
                    ReferenceModel::Value(p, n) => cs.len() == 2 && demoted_text(cs[0]) == Some(value_name_seq(p))
                        && demoted_text(cs[1]) == Some(decimal_seq(n as nat)),
                    ReferenceModel::Application(HeadModel::Local(h), args) => cs.len() == 2 && demoted_text(cs[0])
                        == Some("Application"@) && match cs[1].form {
                        BlockForm::Delimited(BlockDelimiter::Parenthesis, pobjs) => pobjs@.len() == 2 && demoted_text(
                            pobjs@[0],
                        ) == Some(h) && match pobjs@[1].form {
                            BlockForm::Delimited(BlockDelimiter::Parenthesis, aobjs) => canonical_list(aobjs@, args),
                            _ => false,
                        },
                        _ => false,
                    },
                    _ => false,
                }
            },
            _ => false,
        },
    }
}

/// Whether each block of `bs` spells the reference at its place in `ms`.
pub open spec fn canonical_list(bs: Seq<DotosBlock>, ms: Seq<ReferenceModel>) -> bool
    decreases ms, 1nat,
{
    if ms.len() == 0 {
        bs.len() == 0
    } else {
        proof {
            assert(decreases_to!(ms => ms.subrange(0, ms.len() - 1)));
        }
        bs.len() == ms.len() && canonical_list(bs.drop_last(), ms.drop_last()) && canonical_for(bs.last(), ms.last())
    }
}

/// A scalar's name reads back as that scalar.
proof fn lemma_scalar_names_read_back(m: ReferenceModel)
    requires
        scalar_seq(m) is Some,
    ensures
        scalar_kind_seq(scalar_seq(m)->Some_0) == Some(m),
{
    let s = seq!['S', 't', 'r', 'i', 'n', 'g'];
    let i = seq!['I', 'n', 't', 'e', 'g', 'e', 'r'];
    let b = seq!['B', 'o', 'o', 'l', 'e', 'a', 'n'];
    let p = seq!['P', 'a', 't', 'h'];
    let y = seq!['B', 'y', 't', 'e', 's'];
    assert(i[0] != s[0] && b[0] != s[0] && b[0] != i[0] && p[0] != s[0] && p[0] != i[0] && p[0] != b[0]);
    assert(y[0] != s[0] && y[0] != i[0] && y[1] != b[1] && y[0] != p[0]);
}

/// A decimal rendering parses back to its value.
proof fn lemma_decimal_parses(n: u64)
    ensures
        parse_unsigned(decimal_seq(n as nat)) == Some(n),
{
    lemma_decimal_value(n as nat);
    lemma_decimal_digits(n as nat);
    assert(unsigned_digits(decimal_seq(n as nat)) == decimal_seq(n as nat));
}

proof fn lemma_decimal_digits(v: nat)
    ensures
        all_digits(decimal_seq(v)),
        decimal_seq(v).len() > 0 && decimal_seq(v)[0] != '+',
    decreases v,
{
    if v >= 10 {
        lemma_decimal_digits(v / 10);
        let s = decimal_seq(v);
        assert(s.drop_last() == decimal_seq(v / 10));
        assert(is_ascii_digit(digit_char(v % 10))) by {
            assert(((v % 10 + 48) as u8) as char == ((v % 10 + 48) as u8) as char);
        }
        assert forall|i: int| 0 <= i < s.len() implies is_ascii_digit(#[trigger] s[i]) by {
            if i < s.len() - 1 {
                assert(s[i] == decimal_seq(v / 10)[i]);
            }
        }
    }
}

/// Every canonical spelling of a reference with local heads reads back as
/// that reference.
pub proof fn law_canonical_reference_reads_back(b: DotosBlock, m: ReferenceModel)
    requires
        canonical_for(b, m),
    ensures
        decoded_reference(b) == Decoded::Gives(m),
    decreases m, 0nat,
{
    reveal_strlit("Plain");
    reveal_strlit("Application");
    match m {
        ReferenceModel::String | ReferenceModel::Integer | ReferenceModel::Boolean | ReferenceModel::Path
        | ReferenceModel::Bytes => {
            lemma_scalar_names_read_back(m);
        },
        _ => {
            if let BlockForm::Delimited(BlockDelimiter::Parenthesis, objs) = b.form {
                let cs = objs@;
                assert(demoted_text(b) is None);
                match m {
                    ReferenceModel::Single(p, a) => {
                        law_canonical_reference_reads_back(cs[1], *a);
                    },
                    ReferenceModel::Multi(p, args) => {
                        lemma_canonical_list_reads_back(cs.subrange(1, cs.len() as int), args);
                    },
                    ReferenceModel::Value(p, n) => {
                        lemma_decimal_parses(n);
                        assert(value_name_seq(p)[0] != "Plain"@[0]);
                    },
                    ReferenceModel::Application(HeadModel::Local(h), args) => {
                        if let BlockForm::Delimited(BlockDelimiter::Parenthesis, pobjs) = cs[1].form {
                            if let BlockForm::Delimited(BlockDelimiter::Parenthesis, aobjs) = pobjs@[1].form {
                                lemma_canonical_list_reads_back(aobjs@, args);
                                assert(decoded_application(cs[1]) == Decoded::Gives(m));
                                assert("Application"@[0] != "Plain"@[0]);
                            }
                        }
                    },
                    _ => {},
                }
            }
        },
    }
}

proof fn lemma_canonical_list_reads_back(bs: Seq<DotosBlock>, ms: Seq<ReferenceModel>)
    requires
        canonical_list(bs, ms),
    ensures
        decoded_list(bs) == Decoded::Gives(ms),
    decreases ms, 1nat,
{
    if ms.len() > 0 {
        assert(decreases_to!(ms => ms.subrange(0, ms.len() - 1)));
        lemma_canonical_list_reads_back(bs.drop_last(), ms.drop_last());
        law_canonical_reference_reads_back(bs.last(), ms.last());
        assert(ms.drop_last().push(ms.last()) =~= ms);
    } else {
        assert(ms =~= Seq::<ReferenceModel>::empty());
    }
}

} // verus!
