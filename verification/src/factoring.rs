//! The depth-capped indirection projection of a source reference: composite
//! subtrees nested deeper than a cap are hoisted behind fresh lowercase
//! linknames, spelled unlike any plain name of the reference, each hoisted
//! structure is factored in turn, and the factored encoding inlines back to
//! the reference it was made from.

use crate::name::{dotos_seq, local_seq, lower_camel_seq, Name};
use crate::reference::{reference_view, scalar_kind_seq, ReferenceModel, TypeReference};
use crate::source_reference::{
    lowered_view, lowered_views, raised_view, raised_views, refs_views, source_text_seq, source_view, sources_view, SourceModel,
    SourceReference,
};
use crate::text::{decimal_seq, decimal_text, digits_value, join, join_seq, owned, views_of};
use std::collections::VecDeque;
use vstd::prelude::*;
use vstd::relations::injective_on;
use vstd::set_lib::{lemma_int_range, lemma_len_subset, lemma_map_size, set_int_range};

verus! {

// ---------------------------------------------------------------------------
// The shape of a reference model: its head, its nested references, its size.
// ---------------------------------------------------------------------------

/// The head name of a composite reference; `None` for a plain name or a value
/// application, which carry no nested reference to hoist.
pub open spec fn hoist_head_model(m: SourceModel) -> Option<Seq<char>> {
    match m {
        SourceModel::Single(h, _, _, _) => Some(h),
        SourceModel::Multi(h, _, _, _) => Some(h),
        SourceModel::Application(h, _) => Some(h),
        _ => None,
    }
}

/// The nested references of a reference, in order.
pub open spec fn children_model(m: SourceModel) -> Seq<SourceModel> {
    match m {
        SourceModel::Single(_, _, _, a) => seq![*a],
        SourceModel::Multi(_, _, _, args) => args,
        SourceModel::Application(_, args) => args,
        _ => Seq::empty(),
    }
}

/// A reference with its nested references replaced by `cs`.
pub open spec fn with_children_model(m: SourceModel, cs: Seq<SourceModel>) -> SourceModel {
    match m {
        SourceModel::Single(h, p, pat, _) => SourceModel::Single(h, p, pat, Box::new(cs[0])),
        SourceModel::Multi(h, p, pat, _) => SourceModel::Multi(h, p, pat, cs),
        SourceModel::Application(h, _) => SourceModel::Application(h, cs),
        _ => m,
    }
}

/// The number of reference nodes in `m`.
pub open spec fn model_size(m: SourceModel) -> nat
    decreases m,
{
    match m {
        SourceModel::Single(_, _, _, a) => 1 + model_size(*a),
        SourceModel::Multi(_, _, _, args) => 1 + sizes_sum(args),
        SourceModel::Application(_, args) => 1 + sizes_sum(args),
        _ => 1,
    }
}

/// The number of reference nodes in a list of references.
pub open spec fn sizes_sum(s: Seq<SourceModel>) -> nat
    decreases s,
{
    if s.len() == 0 {
        0
    } else {
        proof {
            assert(decreases_to!(s => s.subrange(0, s.len() - 1)));
        }
        sizes_sum(s.drop_last()) + model_size(s.last())
    }
}

pub proof fn lemma_size_children(m: SourceModel)
    ensures
        model_size(m) == 1 + sizes_sum(children_model(m)),
        model_size(m) >= 1,
{
    match m {
        SourceModel::Single(_, _, _, a) => {
            let one = seq![*a];
            assert(one.drop_last() =~= Seq::<SourceModel>::empty());
            assert(sizes_sum(Seq::<SourceModel>::empty()) == 0);
            assert(one.last() == *a);
            assert(sizes_sum(one) == sizes_sum(one.drop_last()) + model_size(one.last()));
        },
        _ => {},
    }
}

proof fn lemma_sizes_take(s: Seq<SourceModel>, i: int)
    requires
        0 <= i < s.len(),
    ensures
        sizes_sum(s.take(i + 1)) == sizes_sum(s.take(i)) + model_size(s[i]),
        model_size(s[i]) >= 1,
{
    assert(s.take(i + 1).drop_last() =~= s.take(i));
    lemma_size_children(s[i]);
}

proof fn lemma_sizes_prefix(s: Seq<SourceModel>, i: int)
    requires
        0 <= i <= s.len(),
    ensures
        sizes_sum(s.take(i)) <= sizes_sum(s),
    decreases s.len() - i,
{
    if i < s.len() {
        lemma_sizes_take(s, i);
        lemma_sizes_prefix(s, i + 1);
    } else {
        assert(s.take(i) =~= s);
    }
}

// ---------------------------------------------------------------------------
// Linkname allocation: `map`, then `map2`, `map3`, … past the names in use.
// ---------------------------------------------------------------------------

/// The disambiguated linkname `base` followed by the decimal `ordinal`.
pub open spec fn linkname_candidate(base: Seq<char>, ordinal: nat) -> Seq<char> {
    base + decimal_seq(ordinal)
}

/// The first ordinal from `ordinal` on whose candidate is not in `used`,
/// looking at most `fuel` ordinals ahead.
pub open spec fn first_free_ordinal(
    base: Seq<char>,
    used: Seq<Seq<char>>,
    ordinal: nat,
    fuel: nat,
) -> nat
    decreases fuel,
{
    if fuel == 0 || !used.contains(linkname_candidate(base, ordinal)) {
        ordinal
    } else {
        first_free_ordinal(base, used, ordinal + 1, (fuel - 1) as nat)
    }
}

/// The linkname minted for a hoisted type named `head` when the names in
/// `used` are taken: the lowerCamel projection of its local part, or that
/// projection with the first free ordinal from 2 appended.
pub open spec fn allocated_linkname(used: Seq<Seq<char>>, head: Seq<char>) -> Seq<char> {
    let base = lower_camel_seq(local_seq(head));
    if !used.contains(base) {
        base
    } else {
        linkname_candidate(base, first_free_ordinal(base, used, 2, used.len()))
    }
}

pub(crate) proof fn lemma_decimal_value(v: nat)
    ensures
        digits_value(decimal_seq(v)) == v,
        decimal_seq(v).len() >= 1,
    decreases v,
{
    lemma_digit_char_value(v % 10);
    if v < 10 {
        let s = seq![crate::text::digit_char(v)];
        assert(s.drop_last() =~= Seq::<char>::empty());
        assert(digits_value(Seq::<char>::empty()) == 0);
        assert(s.last() == crate::text::digit_char(v));
        assert(v % 10 == v);
    } else {
        lemma_decimal_value(v / 10);
        let s = decimal_seq(v);
        assert(s.drop_last() =~= decimal_seq(v / 10));
        assert(s.last() == crate::text::digit_char(v % 10));
        assert((v / 10) * 10 + v % 10 == v) by (nonlinear_arith);
    }
}

proof fn lemma_digit_char_value(d: nat)
    requires
        d < 10,
    ensures
        (crate::text::digit_char(d) as u32 - 48) as nat == d,
{
    assert(((d + 48) as u8) as char as u32 == d + 48);
}

proof fn lemma_candidate_injective(base: Seq<char>, a: nat, b: nat)
    requires
        linkname_candidate(base, a) == linkname_candidate(base, b),
    ensures
        a == b,
{
    let ca = linkname_candidate(base, a);
    assert(ca.subrange(base.len() as int, ca.len() as int) =~= decimal_seq(a));
    assert(ca.subrange(base.len() as int, ca.len() as int) =~= decimal_seq(b));
    lemma_decimal_value(a);
    lemma_decimal_value(b);
}

/// When `base` and the candidates of ordinals `2..k` are all taken, `used`
/// holds at least `k - 1` entries.
proof fn lemma_candidates_fit(base: Seq<char>, used: Seq<Seq<char>>, k: int)
    requires
        2 <= k,
        used.contains(base),
        forall|j: int| 2 <= j < k ==> used.contains(#[trigger] linkname_candidate(base, j as nat)),
    ensures
        k - 1 <= used.len(),
{
    let f = |j: int|
        if j < 2 {
            base
        } else {
            linkname_candidate(base, j as nat)
        };
    let x = set_int_range(1, k);
    lemma_int_range(1, k);
    assert forall|a: int, b: int| x.contains(a) && x.contains(b) && #[trigger] f(a) == #[trigger] f(
        b,
    ) implies a == b by {
        if a >= 2 && b >= 2 {
            lemma_candidate_injective(base, a as nat, b as nat);
        } else if a >= 2 {
            lemma_decimal_value(a as nat);
            assert(f(a).len() > base.len());
        } else if b >= 2 {
            lemma_decimal_value(b as nat);
            assert(f(b).len() > base.len());
        }
    }
    assert(injective_on(f, x));
    let y = x.map(f);
    lemma_map_size(x, y, f);
    assert forall|s: Seq<char>| y.contains(s) implies used.to_set().contains(s) by {
        let j = choose|j: int| x.contains(j) && f(j) == s;
        if j >= 2 {
            assert(used.contains(linkname_candidate(base, j as nat)));
        }
    }
    lemma_len_subset(y, used.to_set());
    used.lemma_cardinality_of_set();
}

proof fn lemma_first_free(base: Seq<char>, used: Seq<Seq<char>>, ordinal: nat, fuel: nat)
    requires
        2 <= ordinal,
        ordinal - 2 + fuel == used.len(),
        used.contains(base),
        forall|j: int| 2 <= j < ordinal ==> used.contains(#[trigger] linkname_candidate(base, j as nat)),
    ensures
        !used.contains(linkname_candidate(base, first_free_ordinal(base, used, ordinal, fuel))),
    decreases fuel,
{
    if fuel == 0 {
        lemma_candidates_fit(base, used, ordinal as int);
    } else if used.contains(linkname_candidate(base, ordinal)) {
        assert forall|j: int| 2 <= j < ordinal + 1 implies used.contains(
            #[trigger] linkname_candidate(base, j as nat),
        ) by {}
        lemma_first_free(base, used, ordinal + 1, (fuel - 1) as nat);
    }
}

/// A minted linkname is never one already in use.
proof fn lemma_allocated_fresh(used: Seq<Seq<char>>, head: Seq<char>)
    ensures
        !used.contains(allocated_linkname(used, head)),
{
    let base = lower_camel_seq(local_seq(head));
    if used.contains(base) {
        lemma_first_free(base, used, 2, used.len());
    }
}

// ---------------------------------------------------------------------------
// Factoring under the depth cap.
// ---------------------------------------------------------------------------

/// A hoisted structure named by its linkname.
pub type LinkModel = (Seq<char>, SourceModel);

/// The factoring state: the names no linkname may take (the plain names of
/// the reference being factored), the linknames minted so far, in order, and
/// the hoisted structures still waiting to be factored, first in first out.
pub struct FactorState {
    pub reserved: Seq<Seq<char>>,
    pub used: Seq<Seq<char>>,
    pub queue: Seq<LinkModel>,
}

/// The number of reference nodes across the waiting structures.
pub open spec fn queue_weight(q: Seq<LinkModel>) -> nat
    decreases q.len(),
{
    if q.len() == 0 {
        0
    } else {
        queue_weight(q.drop_last()) + model_size(q.last().1)
    }
}

/// Rewrite `m`, found `depth` levels down, under the cap: a composite subtree
/// deeper than the cap becomes a fresh linkname and is queued for hoisting; a
/// leaf is kept; a composite within the cap is rebuilt over its rewritten
/// nested references, one level deeper.
pub open spec fn factor_spec(m: SourceModel, depth: nat, cap: nat, st: FactorState) -> (
    SourceModel,
    FactorState,
)
    decreases model_size(m), 0nat,
{
    if depth > cap {
        match hoist_head_model(m) {
            Some(h) => {
                let n = allocated_linkname(st.reserved + st.used, h);
                (
                    SourceModel::Plain(n),
                    FactorState {
                        reserved: st.reserved,
                        used: st.used.push(n),
                        queue: st.queue.push((n, m)),
                    },
                )
            },
            None => (m, st),
        }
    } else if hoist_head_model(m) is None {
        (m, st)
    } else {
        proof {
            lemma_size_children(m);
        }
        let (cs, next) = factor_list_spec(children_model(m), depth + 1, cap, st);
        (with_children_model(m, cs), next)
    }
}

/// Rewrite a list of references, left to right, threading the state.
pub open spec fn factor_list_spec(s: Seq<SourceModel>, depth: nat, cap: nat, st: FactorState) -> (
    Seq<SourceModel>,
    FactorState,
)
    decreases sizes_sum(s), 1nat,
{
    if s.len() == 0 {
        (Seq::empty(), st)
    } else {
        proof {
            lemma_size_children(s.last());
        }
        let (init, mid) = factor_list_spec(s.drop_last(), depth, cap, st);
        let (last, next) = factor_spec(s.last(), depth, cap, mid);
        (init.push(last), next)
    }
}

/// `st2` continues `st`: the minted names and the queue only grew at their
/// ends, one queued structure per minted name, each at least one node; the
/// reserved names stay as they were.
pub open spec fn extends(st: FactorState, st2: FactorState) -> bool {
    &&& st2.reserved == st.reserved
    &&& st.queue.len() <= st2.queue.len()
    &&& st2.queue.subrange(0, st.queue.len() as int) == st.queue
    &&& st.used.len() <= st2.used.len()
    &&& st2.used.subrange(0, st.used.len() as int) == st.used
    &&& st2.used.len() - st.used.len() == st2.queue.len() - st.queue.len()
    &&& forall|j: int|
        st.queue.len() <= j < st2.queue.len() ==> st2.used[st.used.len() + j - st.queue.len()]
            == #[trigger] st2.queue[j].0
    &&& st2.queue.len() - st.queue.len() <= queue_weight(st2.queue) - queue_weight(st.queue)
}

proof fn lemma_queue_weight_push(q: Seq<LinkModel>, x: LinkModel)
    ensures
        queue_weight(q.push(x)) == queue_weight(q) + model_size(x.1),
        model_size(x.1) >= 1,
{
    assert(q.push(x).drop_last() =~= q);
    lemma_size_children(x.1);
}

pub proof fn lemma_queue_weight_first(q: Seq<LinkModel>)
    requires
        q.len() > 0,
    ensures
        queue_weight(q) == model_size(q[0].1) + queue_weight(q.drop_first()),
    decreases q.len(),
{
    if q.len() > 1 {
        lemma_queue_weight_first(q.drop_last());
        assert(q.drop_last().drop_first() =~= q.drop_first().drop_last());
        assert(q.drop_first().last() == q.last());
        assert(q.drop_last()[0] == q[0]);
        assert(queue_weight(q.drop_first()) == queue_weight(q.drop_first().drop_last())
            + model_size(q.drop_first().last().1));
    } else {
        assert(q.drop_first().len() == 0);
        assert(q.drop_last().len() == 0);
        assert(queue_weight(q.drop_first()) == 0);
        assert(queue_weight(q.drop_last()) == 0);
        assert(q.last() == q[0]);
    }
}

proof fn lemma_extends_refl(st: FactorState)
    ensures
        extends(st, st),
{
    assert(st.queue.subrange(0, st.queue.len() as int) =~= st.queue);
    assert(st.used.subrange(0, st.used.len() as int) =~= st.used);
}

proof fn lemma_extends_trans(a: FactorState, b: FactorState, c: FactorState)
    requires
        extends(a, b),
        extends(b, c),
    ensures
        extends(a, c),
{
    assert(c.queue.subrange(0, a.queue.len() as int) =~= b.queue.subrange(
        0,
        a.queue.len() as int,
    )) by {
        assert forall|j: int| 0 <= j < a.queue.len() implies c.queue[j] == b.queue[j] by {
            assert(c.queue.subrange(0, b.queue.len() as int)[j] == c.queue[j]);
        }
    }
    assert(c.used.subrange(0, a.used.len() as int) =~= b.used.subrange(0, a.used.len() as int)) by {
        assert forall|j: int| 0 <= j < a.used.len() implies c.used[j] == b.used[j] by {
            assert(c.used.subrange(0, b.used.len() as int)[j] == c.used[j]);
        }
    }
    assert forall|j: int| a.queue.len() <= j < c.queue.len() implies c.used[a.used.len() + j
        - a.queue.len()] == #[trigger] c.queue[j].0 by {
        if j >= b.queue.len() {
        } else {
            assert(c.queue.subrange(0, b.queue.len() as int)[j] == c.queue[j]);
            assert(c.used.subrange(0, b.used.len() as int)[b.used.len() - (b.queue.len() - j)]
                == c.used[b.used.len() - (b.queue.len() - j)]);
        }
    }
}

/// Factoring only grows the state, by at most as many waiting nodes as `m`
/// has, and by one fewer when `m` is within the cap, whose root stays put.
pub proof fn lemma_factor_growth(m: SourceModel, depth: nat, cap: nat, st: FactorState)
    ensures
        extends(st, factor_spec(m, depth, cap, st).1),
        queue_weight(factor_spec(m, depth, cap, st).1.queue) + (if depth <= cap {
            1int
        } else {
            0int
        }) <= queue_weight(st.queue) + model_size(m),
    decreases model_size(m), 0nat,
{
    lemma_size_children(m);
    if depth > cap {
        match hoist_head_model(m) {
            Some(h) => {
                let n = allocated_linkname(st.reserved + st.used, h);
                let st2 = FactorState {
                    reserved: st.reserved,
                    used: st.used.push(n),
                    queue: st.queue.push((n, m)),
                };
                lemma_queue_weight_push(st.queue, (n, m));
                assert(st2.queue.subrange(0, st.queue.len() as int) =~= st.queue);
                assert(st2.used.subrange(0, st.used.len() as int) =~= st.used);
            },
            None => {
                lemma_extends_refl(st);
            },
        }
    } else if hoist_head_model(m) is None {
        lemma_extends_refl(st);
    } else {
        lemma_factor_list_growth(children_model(m), depth + 1, cap, st);
    }
}

pub proof fn lemma_factor_list_growth(s: Seq<SourceModel>, depth: nat, cap: nat, st: FactorState)
    ensures
        extends(st, factor_list_spec(s, depth, cap, st).1),
        queue_weight(factor_list_spec(s, depth, cap, st).1.queue) <= queue_weight(st.queue)
            + sizes_sum(s),
        factor_list_spec(s, depth, cap, st).0.len() == s.len(),
    decreases sizes_sum(s), 1nat,
{
    if s.len() == 0 {
        lemma_extends_refl(st);
    } else {
        lemma_size_children(s.last());
        let (init, mid) = factor_list_spec(s.drop_last(), depth, cap, st);
        lemma_factor_list_growth(s.drop_last(), depth, cap, st);
        lemma_factor_growth(s.last(), depth, cap, mid);
        lemma_extends_trans(st, mid, factor_spec(s.last(), depth, cap, mid).1);
    }
}

/// Factor the waiting structures in order, each afresh from depth 0, appending
/// each factored structure under its linkname to `links`.
pub open spec fn drain_spec(st: FactorState, links: Seq<LinkModel>, cap: nat) -> Seq<LinkModel>
    decreases queue_weight(st.queue),
{
    if st.queue.len() == 0 {
        links
    } else {
        let name = st.queue[0].0;
        let structure = st.queue[0].1;
        let rest = FactorState {
            reserved: st.reserved,
            used: st.used,
            queue: st.queue.drop_first(),
        };
        proof {
            lemma_queue_weight_first(st.queue);
            lemma_factor_growth(structure, 0, cap, rest);
        }
        let (factored, next) = factor_spec(structure, 0, cap, rest);
        drain_spec(next, links.push((name, factored)), cap)
    }
}

/// The factoring state before factoring `m`: its plain names reserved,
/// nothing minted and nothing waiting.
pub open spec fn start_state(m: SourceModel) -> FactorState {
    FactorState { reserved: plain_leaves(m), used: Seq::empty(), queue: Seq::empty() }
}

/// The factored encoding of `m` under `cap`: the main structure and the
/// hoisted structures in the order their linknames were minted.
pub open spec fn factored_spec(m: SourceModel, cap: nat) -> (SourceModel, Seq<LinkModel>) {
    let (main, st) = factor_spec(m, 0, cap, start_state(m));
    (main, drain_spec(st, Seq::empty(), cap))
}


// ---------------------------------------------------------------------------
// Inlining linknames back into their hoisted structures.
// ---------------------------------------------------------------------------

/// The linknames of a list of hoisted structures, in order.
pub open spec fn link_names(links: Seq<LinkModel>) -> Seq<Seq<char>> {
    links.map_values(|l: LinkModel| l.0)
}

/// The index of the last hoisted structure named `n`, the one a lookup by
/// name finds when later entries replace earlier ones.
pub open spec fn link_index(links: Seq<LinkModel>, n: Seq<char>) -> Option<int>
    decreases links.len(),
{
    if links.len() == 0 {
        None
    } else if links.last().0 == n {
        Some(links.len() - 1)
    } else {
        link_index(links.drop_last(), n)
    }
}

/// `m` with every linkname replaced, recursively, by its hoisted structure;
/// every other leaf is kept. `None` when some path follows more than `fuel`
/// linknames, as it does forever when the links reach themselves.
pub open spec fn inline_spec(m: SourceModel, links: Seq<LinkModel>, fuel: nat) -> Option<
    SourceModel,
>
    decreases fuel, model_size(m), 0nat,
{
    match m {
        SourceModel::Plain(n) => match link_index(links, n) {
            Some(i) => if fuel == 0 || !(0 <= i < links.len()) {
                None
            } else {
                inline_spec(links[i].1, links, (fuel - 1) as nat)
            },
            None => Some(m),
        },
        SourceModel::Value(..) => Some(m),
        _ => {
            proof {
                lemma_size_children(m);
            }
            match inline_list_spec(children_model(m), links, fuel) {
                Some(cs) => Some(with_children_model(m, cs)),
                None => None,
            }
        },
    }
}

/// Inline a list of references, in order; `None` when any one runs out.
pub open spec fn inline_list_spec(s: Seq<SourceModel>, links: Seq<LinkModel>, fuel: nat) -> Option<
    Seq<SourceModel>,
>
    decreases fuel, sizes_sum(s), 1nat,
{
    if s.len() == 0 {
        Some(Seq::empty())
    } else {
        proof {
            lemma_size_children(s.last());
        }
        match (inline_list_spec(s.drop_last(), links, fuel), inline_spec(s.last(), links, fuel)) {
            (Some(init), Some(last)) => Some(init.push(last)),
            _ => None,
        }
    }
}

/// No plain leaf of `m` is named by one of `names`.
pub open spec fn avoids(m: SourceModel, names: Seq<Seq<char>>) -> bool
    decreases model_size(m), 0nat,
{
    match m {
        SourceModel::Plain(n) => !names.contains(n),
        SourceModel::Value(..) => true,
        _ => {
            proof {
                lemma_size_children(m);
            }
            avoids_all(children_model(m), names)
        },
    }
}

/// No plain leaf of any reference in `s` is named by one of `names`.
pub open spec fn avoids_all(s: Seq<SourceModel>, names: Seq<Seq<char>>) -> bool
    decreases sizes_sum(s), 1nat,
{
    if s.len() == 0 {
        true
    } else {
        proof {
            lemma_size_children(s.last());
        }
        avoids_all(s.drop_last(), names) && avoids(s.last(), names)
    }
}

/// The plain names of `m`, left to right.
pub open spec fn plain_leaves(m: SourceModel) -> Seq<Seq<char>>
    decreases model_size(m), 0nat,
{
    match m {
        SourceModel::Plain(n) => seq![n],
        SourceModel::Value(..) => Seq::empty(),
        _ => {
            proof {
                lemma_size_children(m);
            }
            plain_leaves_all(children_model(m))
        },
    }
}

/// The plain names of the references in `s`, left to right.
pub open spec fn plain_leaves_all(s: Seq<SourceModel>) -> Seq<Seq<char>>
    decreases sizes_sum(s), 1nat,
{
    if s.len() == 0 {
        Seq::empty()
    } else {
        proof {
            lemma_size_children(s.last());
        }
        plain_leaves_all(s.drop_last()) + plain_leaves(s.last())
    }
}

/// A reference has no more plain names than nodes.
proof fn lemma_plain_leaves_len(m: SourceModel)
    ensures
        plain_leaves(m).len() <= model_size(m),
    decreases model_size(m), 0nat,
{
    lemma_size_children(m);
    if hoist_head_model(m) is Some {
        lemma_plain_leaves_all_len(children_model(m));
    }
}

proof fn lemma_plain_leaves_all_len(s: Seq<SourceModel>)
    ensures
        plain_leaves_all(s).len() <= sizes_sum(s),
    decreases sizes_sum(s), 1nat,
{
    if s.len() > 0 {
        lemma_size_children(s.last());
        lemma_plain_leaves_all_len(s.drop_last());
        lemma_plain_leaves_len(s.last());
    }
}

/// A reference avoids every name that is none of its plain names.
proof fn lemma_avoids_other_names(m: SourceModel, names: Seq<Seq<char>>)
    requires
        forall|k: int| 0 <= k < names.len() ==> !plain_leaves(m).contains(#[trigger] names[k]),
    ensures
        avoids(m, names),
    decreases model_size(m), 0nat,
{
    lemma_size_children(m);
    match m {
        SourceModel::Plain(n) => {
            if names.contains(n) {
                let k = choose|k: int| 0 <= k < names.len() && names[k] == n;
                assert(plain_leaves(m)[0] == n);
            }
        },
        SourceModel::Value(..) => {},
        _ => {
            lemma_avoids_all_other_names(children_model(m), names);
        },
    }
}

proof fn lemma_avoids_all_other_names(s: Seq<SourceModel>, names: Seq<Seq<char>>)
    requires
        forall|k: int| 0 <= k < names.len() ==> !plain_leaves_all(s).contains(#[trigger] names[k]),
    ensures
        avoids_all(s, names),
    decreases sizes_sum(s), 1nat,
{
    if s.len() > 0 {
        lemma_size_children(s.last());
        let a = plain_leaves_all(s.drop_last());
        let b = plain_leaves(s.last());
        assert forall|k: int| 0 <= k < names.len() implies !a.contains(#[trigger] names[k])
            && !b.contains(names[k]) by {
            if a.contains(names[k]) {
                let i = choose|i: int| 0 <= i < a.len() && a[i] == names[k];
                assert((a + b)[i] == names[k]);
            }
            if b.contains(names[k]) {
                let i = choose|i: int| 0 <= i < b.len() && b[i] == names[k];
                assert((a + b)[a.len() + i] == names[k]);
            }
        }
        lemma_avoids_all_other_names(s.drop_last(), names);
        lemma_avoids_other_names(s.last(), names);
    }
}


// ---------------------------------------------------------------------------
// The factored encoding lowers back to the reference it was made from.
// ---------------------------------------------------------------------------

/// Every queued structure from `from` to `to` is what its linkname inlines to.
pub open spec fn entries_resolve(
    q: Seq<LinkModel>,
    from: int,
    to: int,
    links: Seq<LinkModel>,
    fuel: nat,
) -> bool {
    forall|j: int|
        from <= j < to ==> inline_spec(SourceModel::Plain((#[trigger] q[j]).0), links, fuel) == Some(
            q[j].1,
        )
}

/// Every queued structure from `from` to `to` avoids `names`.
pub open spec fn entries_avoid(q: Seq<LinkModel>, from: int, to: int, names: Seq<Seq<char>>) -> bool {
    forall|j: int| from <= j < to ==> avoids((#[trigger] q[j]).1, names)
}

proof fn lemma_link_index_found(links: Seq<LinkModel>, n: Seq<char>)
    ensures
        match link_index(links, n) {
            Some(i) => 0 <= i < links.len() && links[i].0 == n,
            None => !link_names(links).contains(n),
        },
    decreases links.len(),
{
    if links.len() > 0 {
        lemma_link_index_found(links.drop_last(), n);
        if links.last().0 != n {
            if link_names(links).contains(n) {
                let k = choose|k: int| 0 <= k < links.len() && link_names(links)[k] == n;
                assert(k != links.len() - 1);
                assert(link_names(links.drop_last())[k] == n);
            }
        }
    }
}

proof fn lemma_link_index_unique(links: Seq<LinkModel>, g: int)
    requires
        link_names(links).no_duplicates(),
        0 <= g < links.len(),
    ensures
        link_index(links, links[g].0) == Some(g),
    decreases links.len(),
{
    if g < links.len() - 1 {
        assert(link_names(links)[g] != link_names(links)[links.len() - 1]);
        let init = links.drop_last();
        assert forall|i: int, j: int|
            0 <= i < init.len() && 0 <= j < init.len() && i != j implies link_names(init)[i]
            != link_names(init)[j] by {
            assert(link_names(links)[i] != link_names(links)[j]);
        }
        lemma_link_index_unique(init, g);
    }
}

proof fn lemma_with_children(x: SourceModel, cs: Seq<SourceModel>, ds: Seq<SourceModel>)
    requires
        hoist_head_model(x) is Some,
        cs.len() == children_model(x).len(),
        ds.len() == children_model(x).len(),
    ensures
        children_model(with_children_model(x, cs)) == cs,
        hoist_head_model(with_children_model(x, cs)) == hoist_head_model(x),
        with_children_model(with_children_model(x, cs), ds) == with_children_model(x, ds),
        with_children_model(x, children_model(x)) == x,
{
    match x {
        SourceModel::Single(_, _, _, a) => {
            assert(seq![cs[0]] =~= cs);
        },
        _ => {},
    }
}

proof fn lemma_inline_mono(m: SourceModel, links: Seq<LinkModel>, f: nat, g: nat)
    requires
        inline_spec(m, links, f) is Some,
        f <= g,
    ensures
        inline_spec(m, links, g) == inline_spec(m, links, f),
    decreases f, model_size(m), 0nat,
{
    lemma_size_children(m);
    match m {
        SourceModel::Plain(n) => match link_index(links, n) {
            Some(i) => {
                lemma_inline_mono(links[i].1, links, (f - 1) as nat, (g - 1) as nat);
            },
            None => {},
        },
        SourceModel::Value(..) => {},
        _ => {
            lemma_inline_list_mono(children_model(m), links, f, g);
        },
    }
}

proof fn lemma_inline_list_mono(s: Seq<SourceModel>, links: Seq<LinkModel>, f: nat, g: nat)
    requires
        inline_list_spec(s, links, f) is Some,
        f <= g,
    ensures
        inline_list_spec(s, links, g) == inline_list_spec(s, links, f),
    decreases f, sizes_sum(s), 1nat,
{
    if s.len() > 0 {
        lemma_size_children(s.last());
        lemma_inline_list_mono(s.drop_last(), links, f, g);
        lemma_inline_mono(s.last(), links, f, g);
    }
}

/// Factoring keeps the minted names distinct and clear of the reserved names.
proof fn lemma_factor_fresh(x: SourceModel, depth: nat, cap: nat, st: FactorState)
    requires
        st.used.no_duplicates(),
        forall|k: int| 0 <= k < st.used.len() ==> !st.reserved.contains(#[trigger] st.used[k]),
    ensures
        factor_spec(x, depth, cap, st).1.used.no_duplicates(),
        forall|k: int|
            0 <= k < factor_spec(x, depth, cap, st).1.used.len() ==> !st.reserved.contains(
                #[trigger] factor_spec(x, depth, cap, st).1.used[k],
            ),
    decreases model_size(x), 0nat,
{
    lemma_size_children(x);
    if depth > cap {
        match hoist_head_model(x) {
            Some(h) => {
                let all = st.reserved + st.used;
                let n = allocated_linkname(all, h);
                lemma_allocated_fresh(all, h);
                let u = st.used.push(n);
                assert(!st.used.contains(n)) by {
                    if st.used.contains(n) {
                        let i = choose|i: int| 0 <= i < st.used.len() && st.used[i] == n;
                        assert(all[st.reserved.len() + i] == n);
                    }
                }
                assert(!st.reserved.contains(n)) by {
                    if st.reserved.contains(n) {
                        let i = choose|i: int| 0 <= i < st.reserved.len() && st.reserved[i] == n;
                        assert(all[i] == n);
                    }
                }
                assert forall|i: int, j: int|
                    0 <= i < u.len() && 0 <= j < u.len() && i != j implies u[i] != u[j] by {
                    if i == st.used.len() {
                        assert(st.used.contains(u[j]));
                    } else if j == st.used.len() {
                        assert(st.used.contains(u[i]));
                    }
                }
                assert forall|k: int| 0 <= k < u.len() implies !st.reserved.contains(
                    #[trigger] u[k],
                ) by {
                    if k < st.used.len() {
                        assert(u[k] == st.used[k]);
                    }
                }
            },
            None => {},
        }
    } else if hoist_head_model(x) is Some {
        lemma_factor_list_fresh(children_model(x), depth + 1, cap, st);
    }
}

proof fn lemma_factor_list_fresh(s: Seq<SourceModel>, depth: nat, cap: nat, st: FactorState)
    requires
        st.used.no_duplicates(),
        forall|k: int| 0 <= k < st.used.len() ==> !st.reserved.contains(#[trigger] st.used[k]),
    ensures
        factor_list_spec(s, depth, cap, st).1.used.no_duplicates(),
        forall|k: int|
            0 <= k < factor_list_spec(s, depth, cap, st).1.used.len() ==> !st.reserved.contains(
                #[trigger] factor_list_spec(s, depth, cap, st).1.used[k],
            ),
    decreases sizes_sum(s), 1nat,
{
    if s.len() > 0 {
        lemma_size_children(s.last());
        let (init, mid) = factor_list_spec(s.drop_last(), depth, cap, st);
        lemma_factor_list_fresh(s.drop_last(), depth, cap, st);
        lemma_factor_list_growth(s.drop_last(), depth, cap, st);
        lemma_factor_fresh(s.last(), depth, cap, mid);
    }
}

/// The structures queued while factoring `x` are parts of `x`, so they avoid
/// whatever names `x` avoids.
proof fn lemma_factor_avoids(
    x: SourceModel,
    depth: nat,
    cap: nat,
    st: FactorState,
    names: Seq<Seq<char>>,
)
    requires
        avoids(x, names),
    ensures
        entries_avoid(
            factor_spec(x, depth, cap, st).1.queue,
            st.queue.len() as int,
            factor_spec(x, depth, cap, st).1.queue.len() as int,
            names,
        ),
    decreases model_size(x), 0nat,
{
    lemma_size_children(x);
    if depth > cap {
        match hoist_head_model(x) {
            Some(h) => {
                let n = allocated_linkname(st.used, h);
                assert(st.queue.push((n, x))[st.queue.len() as int] == (n, x));
            },
            None => {},
        }
    } else if hoist_head_model(x) is Some {
        lemma_factor_list_avoids(children_model(x), depth + 1, cap, st, names);
    }
}

proof fn lemma_factor_list_avoids(
    s: Seq<SourceModel>,
    depth: nat,
    cap: nat,
    st: FactorState,
    names: Seq<Seq<char>>,
)
    requires
        avoids_all(s, names),
    ensures
        entries_avoid(
            factor_list_spec(s, depth, cap, st).1.queue,
            st.queue.len() as int,
            factor_list_spec(s, depth, cap, st).1.queue.len() as int,
            names,
        ),
    decreases sizes_sum(s), 1nat,
{
    if s.len() > 0 {
        lemma_size_children(s.last());
        let (init, mid) = factor_list_spec(s.drop_last(), depth, cap, st);
        let next = factor_spec(s.last(), depth, cap, mid).1;
        lemma_factor_list_avoids(s.drop_last(), depth, cap, st, names);
        lemma_factor_avoids(s.last(), depth, cap, mid, names);
        lemma_factor_list_growth(s.drop_last(), depth, cap, st);
        lemma_factor_growth(s.last(), depth, cap, mid);
        assert forall|j: int| st.queue.len() <= j < next.queue.len() implies avoids(
            (#[trigger] next.queue[j]).1,
            names,
        ) by {
            if j < mid.queue.len() {
                assert(next.queue.subrange(0, mid.queue.len() as int)[j] == next.queue[j]);
            }
        }
    }
}

/// Inlining a factored reference gives back the reference, when its own
/// leaves are not linknames and each structure it queued is what its linkname
/// inlines to.
proof fn lemma_factor_inlines(
    x: SourceModel,
    depth: nat,
    cap: nat,
    st: FactorState,
    links: Seq<LinkModel>,
    fuel: nat,
)
    requires
        avoids(x, link_names(links)),
        entries_resolve(
            factor_spec(x, depth, cap, st).1.queue,
            st.queue.len() as int,
            factor_spec(x, depth, cap, st).1.queue.len() as int,
            links,
            fuel,
        ),
    ensures
        inline_spec(factor_spec(x, depth, cap, st).0, links, fuel) == Some(x),
    decreases model_size(x), 0nat,
{
    lemma_size_children(x);
    if depth > cap && hoist_head_model(x) is Some {
        let n = allocated_linkname(st.reserved + st.used, hoist_head_model(x)->0);
        let q = st.queue.push((n, x));
        assert(factor_spec(x, depth, cap, st).1.queue == q);
        assert(factor_spec(x, depth, cap, st).0 == SourceModel::Plain(n));
        assert(q[st.queue.len() as int] == (n, x));
        assert(inline_spec(SourceModel::Plain(q[st.queue.len() as int].0), links, fuel) == Some(
            q[st.queue.len() as int].1,
        ));
    } else if hoist_head_model(x) is None {
        assert(factor_spec(x, depth, cap, st).0 == x);
        match x {
            SourceModel::Plain(n) => {
                lemma_link_index_found(links, n);
                if link_index(links, n) is Some {
                    assert(link_names(links)[link_index(links, n)->0] == n);
                }
            },
            _ => {},
        }
    } else {
        let cs = children_model(x);
        let (out, next) = factor_list_spec(cs, depth + 1, cap, st);
        assert(factor_spec(x, depth, cap, st).0 == with_children_model(x, out));
        lemma_factor_list_growth(cs, depth + 1, cap, st);
        lemma_factor_list_inlines(cs, depth + 1, cap, st, links, fuel);
        lemma_with_children(x, out, cs);
        let y = with_children_model(x, out);
        assert(!(y is Plain) && !(y is Value));
        assert(children_model(y) == out);
        assert(inline_list_spec(out, links, fuel) == Some(cs));
        assert(inline_spec(y, links, fuel) == Some(with_children_model(y, cs)));
    }
}

proof fn lemma_factor_list_inlines(
    s: Seq<SourceModel>,
    depth: nat,
    cap: nat,
    st: FactorState,
    links: Seq<LinkModel>,
    fuel: nat,
)
    requires
        avoids_all(s, link_names(links)),
        entries_resolve(
            factor_list_spec(s, depth, cap, st).1.queue,
            st.queue.len() as int,
            factor_list_spec(s, depth, cap, st).1.queue.len() as int,
            links,
            fuel,
        ),
    ensures
        inline_list_spec(factor_list_spec(s, depth, cap, st).0, links, fuel) == Some(s),
    decreases sizes_sum(s), 1nat,
{
    if s.len() > 0 {
        lemma_size_children(s.last());
        let (init, mid) = factor_list_spec(s.drop_last(), depth, cap, st);
        let (last, next) = factor_spec(s.last(), depth, cap, mid);
        lemma_factor_list_growth(s.drop_last(), depth, cap, st);
        lemma_factor_growth(s.last(), depth, cap, mid);
        assert forall|j: int| st.queue.len() <= j < mid.queue.len() implies inline_spec(
            SourceModel::Plain((#[trigger] mid.queue[j]).0),
            links,
            fuel,
        ) == Some(mid.queue[j].1) by {
            assert(next.queue.subrange(0, mid.queue.len() as int)[j] == next.queue[j]);
            assert(inline_spec(SourceModel::Plain(next.queue[j].0), links, fuel) == Some(
                next.queue[j].1,
            ));
        }
        assert forall|j: int| mid.queue.len() <= j < next.queue.len() implies inline_spec(
            SourceModel::Plain((#[trigger] next.queue[j]).0),
            links,
            fuel,
        ) == Some(next.queue[j].1) by {
            assert(inline_spec(SourceModel::Plain(next.queue[j].0), links, fuel) == Some(
                next.queue[j].1,
            ));
        }
        lemma_factor_list_inlines(s.drop_last(), depth, cap, st, links, fuel);
        lemma_factor_inlines(s.last(), depth, cap, mid, links, fuel);
        assert(init.push(last).drop_last() =~= init);
        assert(init.push(last).last() == last);
        assert(s.drop_last().push(s.last()) =~= s);
    }
}

/// Draining the queue mints no reserved name: every linkname of the drained
/// links is clear of the reserved names.
proof fn lemma_drain_reserved(st: FactorState, links: Seq<LinkModel>, cap: nat)
    requires
        st.used.no_duplicates(),
        forall|k: int| 0 <= k < st.used.len() ==> !st.reserved.contains(#[trigger] st.used[k]),
        forall|k: int| 0 <= k < st.queue.len() ==> !st.reserved.contains(#[trigger] st.queue[k].0),
        forall|k: int| 0 <= k < links.len() ==> !st.reserved.contains(#[trigger] links[k].0),
    ensures
        forall|k: int|
            0 <= k < drain_spec(st, links, cap).len() ==> !st.reserved.contains(
                #[trigger] drain_spec(st, links, cap)[k].0,
            ),
    decreases queue_weight(st.queue),
{
    if st.queue.len() > 0 {
        let q0 = st.queue[0];
        let rest = FactorState {
            reserved: st.reserved,
            used: st.used,
            queue: st.queue.drop_first(),
        };
        lemma_queue_weight_first(st.queue);
        lemma_factor_growth(q0.1, 0, cap, rest);
        lemma_factor_fresh(q0.1, 0, cap, rest);
        let (fact, next) = factor_spec(q0.1, 0, cap, rest);
        let links2 = links.push((q0.0, fact));
        assert(drain_spec(st, links, cap) == drain_spec(next, links2, cap));
        assert forall|k: int| 0 <= k < next.queue.len() implies !st.reserved.contains(
            #[trigger] next.queue[k].0,
        ) by {
            if k < rest.queue.len() {
                assert(next.queue.subrange(0, rest.queue.len() as int)[k] == next.queue[k]);
                assert(st.queue[k + 1] == rest.queue[k]);
            } else {
                assert(next.used[rest.used.len() + k - rest.queue.len()] == next.queue[k].0);
            }
        }
        assert forall|k: int| 0 <= k < links2.len() implies !st.reserved.contains(
            #[trigger] links2[k].0,
        ) by {
            if k < links.len() {
                assert(links2[k] == links[k]);
            }
        }
        lemma_drain_reserved(next, links2, cap);
    }
}

/// Draining the queue: each waiting structure lands, under its linkname, at
/// its place after `links`, and inlines back to itself there.
#[verifier::rlimit(40)]
proof fn lemma_drain_inlines(st: FactorState, links: Seq<LinkModel>, cap: nat)
    requires
        st.used == link_names(links) + link_names(st.queue),
        st.used.no_duplicates(),
        forall|k: int| 0 <= k < st.used.len() ==> !st.reserved.contains(#[trigger] st.used[k]),
        entries_avoid(
            st.queue,
            0,
            st.queue.len() as int,
            link_names(drain_spec(st, links, cap)),
        ),
    ensures
        drain_spec(st, links, cap).len() >= links.len() + st.queue.len(),
        drain_spec(st, links, cap).subrange(0, links.len() as int) == links,
        link_names(drain_spec(st, links, cap)).no_duplicates(),
        forall|j: int|
            0 <= j < st.queue.len() ==> drain_spec(st, links, cap)[links.len() + j].0 == (
            #[trigger] st.queue[j]).0,
        forall|j: int|
            0 <= j < st.queue.len() ==> inline_spec(
                drain_spec(st, links, cap)[links.len() + j].1,
                drain_spec(st, links, cap),
                (drain_spec(st, links, cap).len() - links.len() - j) as nat,
            ) == Some((#[trigger] st.queue[j]).1),
    decreases queue_weight(st.queue),
{
    let r = drain_spec(st, links, cap);
    if st.queue.len() == 0 {
        assert(link_names(st.queue) =~= Seq::<Seq<char>>::empty());
        assert(st.used =~= link_names(links));
        assert(links.subrange(0, links.len() as int) =~= links);
    } else {
        let q0 = st.queue[0];
        let rest = FactorState {
            reserved: st.reserved,
            used: st.used,
            queue: st.queue.drop_first(),
        };
        lemma_queue_weight_first(st.queue);
        lemma_factor_growth(q0.1, 0, cap, rest);
        lemma_factor_fresh(q0.1, 0, cap, rest);
        let (fact, next) = factor_spec(q0.1, 0, cap, rest);
        let links2 = links.push((q0.0, fact));
        assert(r == drain_spec(next, links2, cap));
        let names = link_names(r);
        // The minted names line up with the finished links and the queue.
        assert(next.used =~= link_names(links2) + link_names(next.queue)) by {
            assert forall|k: int| 0 <= k < next.used.len() implies next.used[k] == (link_names(
                links2,
            ) + link_names(next.queue))[k] by {
                if k < st.used.len() {
                    assert(next.used.subrange(0, st.used.len() as int)[k] == next.used[k]);
                    if k < links.len() {
                    } else if k == links.len() {
                    } else {
                        let j = k - links.len() - 1;
                        assert(next.queue.subrange(0, rest.queue.len() as int)[j] == next.queue[j]);
                    }
                } else {
                    let j = k - links.len() - 1;
                    assert(next.used[st.used.len() + j - rest.queue.len()] == next.queue[j].0);
                }
            }
        }
        lemma_factor_avoids(q0.1, 0, cap, rest, names);
        assert(entries_avoid(next.queue, 0, next.queue.len() as int, names)) by {
            assert forall|j: int| 0 <= j < next.queue.len() implies avoids(
                (#[trigger] next.queue[j]).1,
                names,
            ) by {
                if j < rest.queue.len() {
                    assert(next.queue.subrange(0, rest.queue.len() as int)[j] == next.queue[j]);
                    assert(st.queue[j + 1] == rest.queue[j]);
                }
            }
        }
        lemma_drain_inlines(next, links2, cap);
        assert(r.subrange(0, links.len() as int) =~= links) by {
            assert forall|k: int| 0 <= k < links.len() implies r[k] == links[k] by {
                assert(r.subrange(0, links2.len() as int)[k] == r[k]);
            }
        }
        assert(r[links.len() as int] == (q0.0, fact)) by {
            assert(r.subrange(0, links2.len() as int)[links.len() as int] == r[links.len() as int]);
        }
        // The structures queued while factoring `q0` resolve in `r`.
        let f = (r.len() - links.len()) as nat;
        assert(entries_resolve(next.queue, rest.queue.len() as int, next.queue.len() as int, r, f))
            by {
            assert forall|j: int| rest.queue.len() <= j < next.queue.len() implies inline_spec(
                SourceModel::Plain((#[trigger] next.queue[j]).0),
                r,
                f,
            ) == Some(next.queue[j].1) by {
                let g = links2.len() + j;
                lemma_link_index_unique(r, g);
                assert(r[g].0 == next.queue[j].0);
                lemma_inline_mono(r[g].1, r, (r.len() - links2.len() - j) as nat, (f - 1) as nat);
            }
        }
        lemma_factor_inlines(q0.1, 0, cap, rest, r, f);
        assert forall|j: int| 0 <= j < st.queue.len() implies r[links.len() + j].0 == (
        #[trigger] st.queue[j]).0 by {
            if j > 0 {
                assert(st.queue[j] == rest.queue[j - 1]);
                assert(next.queue.subrange(0, rest.queue.len() as int)[j - 1] == next.queue[j
                    - 1]);
                assert(r[links2.len() + (j - 1)].0 == next.queue[j - 1].0);
            }
        }
        assert forall|j: int| 0 <= j < st.queue.len() implies inline_spec(
            r[links.len() + j].1,
            r,
            (r.len() - links.len() - j) as nat,
        ) == Some((#[trigger] st.queue[j]).1) by {
            if j > 0 {
                assert(st.queue[j] == rest.queue[j - 1]);
                assert(next.queue.subrange(0, rest.queue.len() as int)[j - 1] == next.queue[j
                    - 1]);
                assert(inline_spec(
                    r[links2.len() + (j - 1)].1,
                    r,
                    (r.len() - links2.len() - (j - 1)) as nat,
                ) == Some(next.queue[j - 1].1));
            }
        }
    }
}

/// The factored encoding of a reference lowers back to that reference:
/// inlining every linkname of the encoding into its hoisted structure
/// reproduces the reference exactly; and its linknames are pairwise
/// distinct.
pub proof fn law_factored_encoding_lowers_back(m: SourceModel, cap: nat)
    ensures
        link_names(factored_spec(m, cap).1).no_duplicates(),
        inline_spec(
            factored_spec(m, cap).0,
            factored_spec(m, cap).1,
            factored_spec(m, cap).1.len() + 1,
        ) == Some(m),
{
    let st = start_state(m);
    let (main, st0) = factor_spec(m, 0, cap, st);
    let r = drain_spec(st0, Seq::empty(), cap);
    let names = link_names(r);
    lemma_factor_growth(m, 0, cap, st);
    lemma_factor_fresh(m, 0, cap, st);
    assert forall|k: int| 0 <= k < st0.queue.len() implies !st.reserved.contains(
        #[trigger] st0.queue[k].0,
    ) by {
        assert(st0.used[0 + k - 0] == st0.queue[k].0);
    }
    lemma_drain_reserved(st0, Seq::empty(), cap);
    assert forall|k: int| 0 <= k < names.len() implies !plain_leaves(m).contains(
        #[trigger] names[k],
    ) by {
        assert(names[k] == r[k].0);
    }
    lemma_avoids_other_names(m, names);
    lemma_factor_avoids(m, 0, cap, st, names);
    assert(st0.used =~= link_names(Seq::<LinkModel>::empty()) + link_names(st0.queue)) by {
        assert forall|k: int| 0 <= k < st0.used.len() implies st0.used[k] == link_names(
            st0.queue,
        )[k] by {
            assert(st0.used[0 + k - 0] == st0.queue[k].0);
        }
    }
    lemma_drain_inlines(st0, Seq::empty(), cap);
    let f = (r.len() + 1) as nat;
    assert(entries_resolve(st0.queue, 0, st0.queue.len() as int, r, f)) by {
        assert forall|j: int| 0 <= j < st0.queue.len() implies inline_spec(
            SourceModel::Plain((#[trigger] st0.queue[j]).0),
            r,
            f,
        ) == Some(st0.queue[j].1) by {
            lemma_link_index_unique(r, j);
            lemma_inline_mono(r[j].1, r, (r.len() - j) as nat, (f - 1) as nat);
        }
    }
    lemma_factor_inlines(m, 0, cap, st, r, f);
}


/// Help printed with every hoisted structure shown is the complete factored
/// text of the encoding.
pub proof fn law_complete_help_is_the_encoding(m: SourceModel, cap: nat)
    ensures
        rendered_text(
            factored_spec(m, cap).0,
            factored_spec(m, cap).1,
            visible_links(LinkedStructureExpansion::Complete, factored_spec(m, cap).1.len()),
        ) == rendered_text(factored_spec(m, cap).0, factored_spec(m, cap).1, factored_spec(m, cap).1.len()),
{
}

/// References that survive a trip to source form and back: no plain name is a
/// reserved scalar spelling, which would read back as the scalar, and every
/// application head is local, since source form keeps only the head's name.
pub open spec fn survives_source(r: ReferenceModel) -> bool
    decreases r, 0nat,
{
    match r {
        ReferenceModel::Plain(n) => scalar_kind_seq(n) is None,
        ReferenceModel::Single(_, a) => survives_source(*a),
        ReferenceModel::Multi(_, args) => survives_all(args),
        ReferenceModel::Application(h, args) => h is Local && survives_all(args),
        _ => true,
    }
}

/// Every reference of the list survives a trip to source form and back.
pub open spec fn survives_all(s: Seq<ReferenceModel>) -> bool
    decreases s, 1nat,
{
    if s.len() == 0 {
        true
    } else {
        proof {
            assert(decreases_to!(s => s.subrange(0, s.len() - 1)));
        }
        survives_all(s.drop_last()) && survives_source(s.last())
    }
}

proof fn lemma_survives_all_index(s: Seq<ReferenceModel>, i: int)
    requires
        survives_all(s),
        0 <= i < s.len(),
    ensures
        survives_source(s[i]),
    decreases s.len(),
{
    if i < s.len() - 1 {
        lemma_survives_all_index(s.drop_last(), i);
    }
}

/// A semantic reference rendered in source form lowers back to itself.
pub proof fn law_source_form_round_trip(r: ReferenceModel)
    requires
        survives_source(r),
    ensures
        lowered_view(raised_view(r)) == r,
    decreases r,
{
    match r {
        ReferenceModel::Single(_, a) => {
            law_source_form_round_trip(*a);
        },
        ReferenceModel::Multi(_, args) => {
            lemma_round_trip_all(args);
        },
        ReferenceModel::Application(h, args) => {
            lemma_round_trip_all(args);
        },
        _ => {},
    }
}

proof fn lemma_round_trip_all(args: Seq<ReferenceModel>)
    requires
        survives_all(args),
    ensures
        lowered_views(raised_views(args)) == args,
    decreases args,
{
    assert forall|i: int| 0 <= i < args.len() implies lowered_views(raised_views(args))[i]
        == args[i] by {
        lemma_survives_all_index(args, i);
        assert(decreases_to!(args => args[i]));
        law_source_form_round_trip(args[i]);
    }
    assert(lowered_views(raised_views(args)) =~= args);
}

/// Rendering a semantic reference in source form, encoding it under any cap,
/// and lowering the encoding gives back the semantic reference, whenever the
/// reference survives source form.
pub proof fn law_semantic_encoding_round_trip(r: ReferenceModel, cap: nat)
    requires
        survives_source(r),
    ensures
        inline_spec(
            factored_spec(raised_view(r), cap).0,
            factored_spec(raised_view(r), cap).1,
            factored_spec(raised_view(r), cap).1.len() + 1,
        ) == Some(raised_view(r)),
        lowered_view(
            inline_spec(
                factored_spec(raised_view(r), cap).0,
                factored_spec(raised_view(r), cap).1,
                factored_spec(raised_view(r), cap).1.len() + 1,
            )->0,
        ) == r,
{
    law_factored_encoding_lowers_back(raised_view(r), cap);
    law_source_form_round_trip(r);
}

// ---------------------------------------------------------------------------
// Rendering.
// ---------------------------------------------------------------------------

/// How many hoisted structures a projection prints after the main structure.
pub open spec fn visible_links(e: LinkedStructureExpansion, total: nat) -> nat {
    match e {
        LinkedStructureExpansion::Complete => total,
        LinkedStructureExpansion::Truncated { visible_links } => if visible_links < total {
            visible_links as nat
        } else {
            total
        },
    }
}

/// The text of a hoisted structure: its linkname, a space, its structure.
pub open spec fn link_text(l: LinkModel) -> Seq<char> {
    dotos_seq(l.0) + seq![' '] + source_text_seq(l.1)
}

/// The main structure's text, then the first `visible` hoisted structures,
/// one per line.
pub open spec fn rendered_text(main: SourceModel, links: Seq<LinkModel>, visible: nat) -> Seq<
    char,
> {
    join_seq(
        seq![source_text_seq(main)] + links.take(visible as int).map_values(|l: LinkModel| link_text(l)),
        seq!['\n'],
    )
}

// ---------------------------------------------------------------------------
// The executable projection.
// ---------------------------------------------------------------------------

/// A depth-capped indirection projection: a main-structure depth cap and how
/// many hoisted structures print after the main structure.
#[derive(Clone, Copy, Debug)]
pub struct IndirectionProjection {
    main_structure_depth_cap: MainStructureDepthCap,
    linked_structure_expansion: LinkedStructureExpansion,
}

/// The nesting depth beyond which a composite subtree is hoisted behind a
/// linkname; a subtree at a depth up to the cap prints inline.
#[derive(Clone, Copy, Debug)]
pub struct MainStructureDepthCap(usize);

/// How many hoisted structures a projection prints: every one, which keeps the
/// value exact, or at most a visible count, which makes the print lossy.
#[derive(Clone, Copy, Debug, PartialEq, Eq, Structural)]
pub enum LinkedStructureExpansion {
    Complete,
    Truncated { visible_links: usize },
}

/// A complete factoring of a reference: the main structure with its beyond-cap
/// subtrees replaced by linknames, and the hoisted structures, each named by
/// its linkname.
#[derive(Debug)]
pub struct FactoredEncoding {
    main: SourceReference,
    links: Vec<IndirectionLink>,
}

/// One hoisted subtree named by its linkname.
#[derive(Debug)]
pub struct IndirectionLink {
    name: Name,
    structure: SourceReference,
}

/// A help rendering: text only, with no path back to a value.
#[derive(Debug)]
pub struct HelpRendering {
    text: String,
}

/// The names no linkname may take, and the linknames minted so far.
struct LinknameAllocator {
    reserved: Vec<String>,
    used: Vec<String>,
}

/// The linkname and structure views of a list of hoisted structures.
pub closed spec fn links_view(links: Seq<IndirectionLink>) -> Seq<LinkModel> {
    links.map_values(|l: IndirectionLink| (l.name@, source_view(l.structure)))
}

/// The linkname and structure views of the waiting structures.
pub open spec fn pending_view(q: Seq<(Name, SourceReference)>) -> Seq<LinkModel> {
    q.map_values(|p: (Name, SourceReference)| (p.0@, source_view(p.1)))
}

/// The factoring state an allocator and a queue hold.
pub open spec fn state_of(
    reserved: Seq<String>,
    used: Seq<String>,
    queue: Seq<(Name, SourceReference)>,
) -> FactorState {
    FactorState { reserved: views_of(reserved), used: views_of(used), queue: pending_view(queue) }
}

impl MainStructureDepthCap {
    pub closed spec fn depth_view(&self) -> nat {
        self.0 as nat
    }

    pub fn new(depth: usize) -> (r: Self)
        ensures
            r.depth_view() == depth,
    {
        MainStructureDepthCap(depth)
    }

    fn depth(self) -> (r: usize)
        ensures
            r == self.depth_view(),
    {
        self.0
    }
}

impl LinkedStructureExpansion {
    fn visible_link_count(self, total: usize) -> (r: usize)
        ensures
            r == visible_links(self, total as nat),
    {
        match self {
            Self::Complete => total,
            Self::Truncated { visible_links } => if visible_links < total {
                visible_links
            } else {
                total
            },
        }
    }
}

/// Append the plain names of `reference`, left to right, to `out`.
fn collect_plain_leaves(reference: &SourceReference, out: &mut Vec<String>)
    ensures
        views_of(final(out)@) == views_of(old(out)@) + plain_leaves(source_view(*reference)),
    decreases model_size(source_view(*reference)),
{
    let ghost m = source_view(*reference);
    proof {
        lemma_size_children(m);
    }
    match reference.plain_name() {
        Some(name) => {
            let ghost before = out@;
            out.push(owned(name.as_str()));
            proof {
                crate::text::lemma_views_of_push(before, out@.last());
                assert(out@ =~= before.push(out@.last()));
            }
            assert(views_of(out@) =~= views_of(before) + plain_leaves(m));
        },
        None => {
            if reference.hoistable_head().is_none() {
                assert(views_of(out@) =~= views_of(out@) + plain_leaves(m));
                return;
            }
            let children = reference.children();
            let ghost cs = refs_views(children@);
            let ghost start = out@;
            let mut i: usize = 0;
            assert(cs.take(0) =~= Seq::<SourceModel>::empty());
            assert(views_of(out@) =~= views_of(start) + plain_leaves_all(cs.take(0)));
            while i < children.len()
                invariant
                    i <= children@.len(),
                    m == source_view(*reference),
                    cs == refs_views(children@),
                    cs == children_model(m),
                    cs.len() == children@.len(),
                    model_size(m) == 1 + sizes_sum(cs),
                    views_of(out@) == views_of(start) + plain_leaves_all(cs.take(i as int)),
                decreases children.len() - i,
            {
                proof {
                    lemma_sizes_prefix(cs, i + 1);
                    lemma_sizes_take(cs, i as int);
                    assert(cs[i as int] == source_view(*children@[i as int]));
                    assert(cs.take(i + 1).drop_last() =~= cs.take(i as int));
                    assert(cs.take(i + 1).last() == cs[i as int]);
                    lemma_size_children(cs[i as int]);
                }
                collect_plain_leaves(children[i], out);
                assert(views_of(out@) =~= views_of(start) + plain_leaves_all(cs.take(i + 1)));
                i += 1;
            }
            assert(cs.take(cs.len() as int) =~= cs);
        },
    }
}

impl LinknameAllocator {
    /// An allocator that keeps clear of the plain names of `reference`.
    fn new(reference: &SourceReference) -> (r: Self)
        ensures
            views_of(r.reserved@) == plain_leaves(source_view(*reference)),
            views_of(r.used@) == Seq::<Seq<char>>::empty(),
    {
        let mut reserved: Vec<String> = Vec::new();
        collect_plain_leaves(reference, &mut reserved);
        assert(views_of(Seq::<String>::empty()) =~= Seq::<Seq<char>>::empty());
        assert(views_of(reserved@) =~= plain_leaves(source_view(*reference)));
        let r = LinknameAllocator { reserved, used: Vec::new() };
        assert(views_of(r.used@) =~= Seq::<Seq<char>>::empty());
        r
    }

    fn contains(&self, text: &str) -> (r: bool)
        ensures
            r == (views_of(self.reserved@) + views_of(self.used@)).contains(text@),
    {
        let ghost all = views_of(self.reserved@) + views_of(self.used@);
        let mut i: usize = 0;
        while i < self.reserved.len()
            invariant
                i <= self.reserved@.len(),
                all == views_of(self.reserved@) + views_of(self.used@),
                forall|j: int| 0 <= j < i ==> all[j] != text@,
            decreases self.reserved.len() - i,
        {
            if crate::text::str_eq(self.reserved[i].as_str(), text) {
                assert(all[i as int] == text@);
                return true;
            }
            i += 1;
        }
        let mut i: usize = 0;
        while i < self.used.len()
            invariant
                i <= self.used@.len(),
                all == views_of(self.reserved@) + views_of(self.used@),
                forall|j: int| 0 <= j < self.reserved@.len() + i ==> all[j] != text@,
            decreases self.used.len() - i,
        {
            if crate::text::str_eq(self.used[i].as_str(), text) {
                assert(all[self.reserved@.len() + i] == text@);
                return true;
            }
            i += 1;
        }
        assert(!all.contains(text@)) by {
            if all.contains(text@) {
                let k = choose|k: int| 0 <= k < all.len() && all[k] == text@;
                assert(all[k] != text@);
            }
        }
        false
    }

    fn remember(&mut self, text: String)
        ensures
            views_of(final(self).used@) == views_of(old(self).used@).push(text@),
            final(self).reserved@ == old(self).reserved@,
    {
        proof {
            crate::text::lemma_views_of_push(self.used@, text);
        }
        self.used.push(text);
    }

    /// Mint a fresh lowercase linkname from a hoisted type's name: the first
    /// `Map` is `map`, the next `map2`, and so on, skipping reserved names.
    fn allocate(&mut self, head: &Name) -> (r: Name)
        requires
            old(self).reserved@.len() + old(self).used@.len() + 3 <= usize::MAX,
        ensures
            r@ == allocated_linkname(views_of(old(self).reserved@) + views_of(old(self).used@), head@),
            views_of(final(self).used@) == views_of(old(self).used@).push(r@),
            final(self).reserved@ == old(self).reserved@,
    {
        let ghost used = views_of(self.reserved@) + views_of(self.used@);
        let base = head.lower_camel();
        if !self.contains(base.as_str()) {
            self.remember(base.clone());
            return Name::from_string(base);
        }
        let mut ordinal: usize = 2;
        loop
            invariant
                2 <= ordinal <= used.len() + 1,
                views_of(self.reserved@) + views_of(self.used@) == used,
                self.reserved@ == old(self).reserved@,
                self.used@ == old(self).used@,
                used.len() + 3 <= usize::MAX,
                base@ == lower_camel_seq(local_seq(head@)),
                used.contains(base@),
                forall|j: int|
                    2 <= j < ordinal ==> used.contains(#[trigger] linkname_candidate(base@, j as nat)),
                first_free_ordinal(base@, used, ordinal as nat, (used.len() - (ordinal - 2)) as nat)
                    == first_free_ordinal(base@, used, 2, used.len()),
            decreases used.len() + 2 - ordinal,
        {
            let mut candidate = base.clone();
            candidate.append(decimal_text(ordinal as u64).as_str());
            assert(candidate@ == linkname_candidate(base@, ordinal as nat));
            if !self.contains(candidate.as_str()) {
                self.remember(candidate.clone());
                return Name::from_string(candidate);
            }
            proof {
                assert forall|j: int| 2 <= j < ordinal + 1 implies used.contains(
                    #[trigger] linkname_candidate(base@, j as nat),
                ) by {}
                lemma_candidates_fit(base@, used, ordinal + 1);
            }
            ordinal += 1;
        }
    }
}

/// Rewrite `reference`, found `depth` levels down, under the cap, minting
/// linknames from `allocator` and queueing hoisted structures on `queue`.
fn factor_capped(
    reference: &SourceReference,
    depth: usize,
    cap: usize,
    allocator: &mut LinknameAllocator,
    queue: &mut VecDeque<(Name, SourceReference)>,
) -> (r: SourceReference)
    requires
        old(allocator).reserved@.len() + old(allocator).used@.len() + model_size(
            source_view(*reference),
        ) + 2 <= usize::MAX,
        depth + model_size(source_view(*reference)) <= usize::MAX,
    ensures
        (source_view(r), state_of(final(allocator).reserved@, final(allocator).used@, final(queue)@)) == factor_spec(
            source_view(*reference),
            depth as nat,
            cap as nat,
            state_of(old(allocator).reserved@, old(allocator).used@, old(queue)@),
        ),
    decreases model_size(source_view(*reference)),
{
    let ghost m = source_view(*reference);
    let ghost st = state_of(allocator.reserved@, allocator.used@, queue@);
    proof {
        lemma_size_children(m);
    }
    if depth > cap {
        match reference.hoistable_head() {
            Some(head) => {
                let name = allocator.allocate(head);
                let entry = (name.duplicate(), reference.deep_clone());
                let ghost before = queue@;
                queue.push_back(entry);
                assert(pending_view(queue@) =~= pending_view(before).push((name@, m)));
                SourceReference::plain(name)
            },
            None => reference.deep_clone(),
        }
    } else {
        match reference.hoistable_head() {
            None => reference.deep_clone(),
            Some(_) => {
                let children = reference.children();
                let ghost cs = refs_views(children@);
                let mut out: Vec<SourceReference> = Vec::new();
                let mut i: usize = 0;
                proof {
                    assert(cs.take(0) =~= Seq::<SourceModel>::empty());
                    crate::source_reference::lemma_sources_len(out@);
                    assert(sources_view(out@) =~= Seq::<SourceModel>::empty());
                }
                while i < children.len()
                    invariant
                        i <= children@.len(),
                        m == source_view(*reference),
                        cs == refs_views(children@),
                        cs == children_model(m),
                        cs.len() == children@.len(),
                        model_size(m) == 1 + sizes_sum(cs),
                        depth <= cap,
                        depth + model_size(m) <= usize::MAX,
                        st.reserved.len() + st.used.len() + model_size(m) + 2 <= usize::MAX,
                        allocator.reserved@.len() == st.reserved.len(),
                        (sources_view(out@), state_of(allocator.reserved@, allocator.used@, queue@)) == factor_list_spec(
                            cs.take(i as int),
                            depth as nat + 1,
                            cap as nat,
                            st,
                        ),
                        allocator.used@.len() <= st.used.len() + sizes_sum(cs.take(i as int)),
                    decreases children.len() - i,
                {
                    let ghost before = state_of(allocator.reserved@, allocator.used@, queue@);
                    let ghost prior = cs.take(i as int);
                    proof {
                        lemma_sizes_take(cs, i as int);
                        lemma_sizes_prefix(cs, i + 1);
                        assert(cs[i as int] == source_view(*children@[i as int]));
                        assert(model_size(source_view(*children[i as int])) < model_size(m));
                    }
                    let c = factor_capped(children[i], depth + 1, cap, allocator, queue);
                    proof {
                        lemma_factor_growth(cs[i as int], depth as nat + 1, cap as nat, before);
                        assert(cs.take(i + 1).drop_last() =~= prior);
                        assert(cs.take(i + 1).last() == cs[i as int]);
                        crate::source_reference::lemma_sources_push(out@, c);
                    }
                    out.push(c);
                    i += 1;
                }
                assert(cs.take(cs.len() as int) =~= cs);
                proof {
                    lemma_factor_list_growth(cs, depth as nat + 1, cap as nat, st);
                    crate::source_reference::lemma_sources_len(out@);
                }
                reference.with_children(out)
            },
        }
    }
}

impl FactoredEncoding {
    pub closed spec fn main_view(&self) -> SourceModel {
        source_view(self.main)
    }

    pub closed spec fn links_view(&self) -> Seq<LinkModel> {
        links_view(self.links@)
    }

    /// Factor `reference` under `cap`, then factor each hoisted structure in
    /// turn, afresh from depth 0, until no structure waits.
    fn factor(reference: &SourceReference, cap: MainStructureDepthCap) -> (r: Self)
        requires
            2 * model_size(source_view(*reference)) + 2 <= usize::MAX,
        ensures
            (r.main_view(), r.links_view()) == factored_spec(
                source_view(*reference),
                cap.depth_view(),
            ),
    {
        let cap = cap.depth();
        let ghost m = source_view(*reference);
        let mut allocator = LinknameAllocator::new(reference);
        let mut queue: VecDeque<(Name, SourceReference)> = VecDeque::new();
        proof {
            assert(pending_view(queue@) =~= Seq::<LinkModel>::empty());
            assert(state_of(allocator.reserved@, allocator.used@, queue@) == start_state(m));
            assert(allocator.used@.len() == views_of(allocator.used@).len());
            assert(allocator.reserved@.len() == views_of(allocator.reserved@).len());
            lemma_plain_leaves_len(m);
        }
        let main = factor_capped(reference, 0, cap, &mut allocator, &mut queue);
        let ghost start = state_of(allocator.reserved@, allocator.used@, queue@);
        proof {
            lemma_factor_growth(m, 0, cap as nat, start_state(m));
        }
        let mut links: Vec<IndirectionLink> = Vec::new();
        assert(links_view(links@) =~= Seq::<LinkModel>::empty());
        loop
            invariant
                drain_spec(state_of(allocator.reserved@, allocator.used@, queue@), links_view(links@), cap as nat)
                    == drain_spec(start, Seq::empty(), cap as nat),
                links@.len() + queue_weight(pending_view(queue@)) + 1 <= model_size(m),
                views_of(allocator.used@).len() == links@.len() + queue@.len(),
                allocator.used@.len() == views_of(allocator.used@).len(),
                allocator.reserved@.len() <= model_size(m),
                2 * model_size(m) + 2 <= usize::MAX,
            ensures
                queue@.len() == 0,
                drain_spec(state_of(allocator.reserved@, allocator.used@, queue@), links_view(links@), cap as nat)
                    == drain_spec(start, Seq::empty(), cap as nat),
            decreases queue_weight(pending_view(queue@)),
        {
            let ghost before = queue@;
            let ghost st = state_of(allocator.reserved@, allocator.used@, queue@);
            match queue.pop_front() {
                None => {
                    break ;
                },
                Some(entry) => {
                    let (name, structure) = entry;
                    let ghost rest = state_of(allocator.reserved@, allocator.used@, queue@);
                    proof {
                        assert(pending_view(queue@) =~= pending_view(before).drop_first());
                        assert(pending_view(before)[0] == (name@, source_view(structure)));
                        lemma_queue_weight_first(pending_view(before));
                        lemma_queue_weight_count(pending_view(queue@));
                        lemma_factor_growth(source_view(structure), 0, cap as nat, rest);
                    }
                    let factored = factor_capped(&structure, 0, cap, &mut allocator, &mut queue);
                    let ghost old_links = links@;
                    links.push(IndirectionLink { name, structure: factored });
                    assert(links_view(links@) =~= links_view(old_links).push(
                        (name@, source_view(factored)),
                    ));
                },
            }
        }
        FactoredEncoding { main, links }
    }

    /// The complete factored text: the main structure, then every hoisted
    /// structure on its own line introduced by its linkname.
    pub fn to_schema_text(&self) -> (r: String)
        ensures
            r@ == rendered_text(
                self.main_view(),
                self.links_view(),
                self.links_view().len(),
            ),
    {
        self.render(LinkedStructureExpansion::Complete)
    }

    #[verifier::rlimit(40)]
    fn render(&self, expansion: LinkedStructureExpansion) -> (r: String)
        ensures
            r@ == rendered_text(
                self.main_view(),
                self.links_view(),
                visible_links(expansion, self.links_view().len()),
            ),
    {
        let visible = expansion.visible_link_count(self.links.len());
        let ghost texts = seq![source_text_seq(source_view(self.main))] + links_view(
            self.links@,
        ).take(visible as int).map_values(|l: LinkModel| link_text(l));
        let mut lines: Vec<String> = Vec::new();
        lines.push(self.main.to_schema_text());
        let mut i: usize = 0;
        while i < visible
            invariant
                i <= visible <= self.links@.len(),
                texts.len() == visible + 1,
                texts == seq![source_text_seq(source_view(self.main))] + links_view(
                    self.links@,
                ).take(visible as int).map_values(|l: LinkModel| link_text(l)),
                views_of(lines@) == texts.take(i + 1),
            decreases visible - i,
        {
            let text = self.links[i].to_schema_text();
            proof {
                crate::text::lemma_views_of_push(lines@, text);
                assert(texts[i + 1] == link_text(links_view(self.links@)[i as int]));
            }
            lines.push(text);
            assert(texts.take(i + 2) =~= texts.take(i + 1).push(texts[i + 1]));
            i += 1;
        }
        assert(texts.take(visible + 1) =~= texts);
        proof {
            reveal_strlit("\n");
            assert("\n"@ =~= seq!['\n']);
        }
        join(&lines, "\n")
    }

    /// The main structure's text.
    pub fn main_text(&self) -> (r: String)
        ensures
            r@ == source_text_seq(self.main_view()),
    {
        self.main.to_schema_text()
    }

    /// The hoisted structures, in the order their linknames were minted.
    pub fn links(&self) -> (r: &[IndirectionLink])
        ensures
            links_view(r@) == self.links_view(),
    {
        self.links.as_slice()
    }
}

proof fn lemma_queue_weight_count(q: Seq<LinkModel>)
    ensures
        q.len() <= queue_weight(q),
    decreases q.len(),
{
    if q.len() > 0 {
        lemma_queue_weight_count(q.drop_last());
        lemma_size_children(q.last().1);
    }
}


/// The index of the last hoisted structure named `name`.
fn find_link(links: &Vec<IndirectionLink>, name: &Name) -> (r: Option<usize>)
    ensures
        match r {
            Some(i) => link_index(links_view(links@), name@) == Some(i as int) && i < links@.len(),
            None => link_index(links_view(links@), name@) is None,
        },
{
    let mut i: usize = links.len();
    assert(links_view(links@).take(i as int) =~= links_view(links@));
    while i > 0
        invariant
            i <= links@.len(),
            link_index(links_view(links@), name@) == link_index(
                links_view(links@).take(i as int),
                name@,
            ),
        decreases i,
    {
        let ghost view = links_view(links@).take(i as int);
        assert(view.drop_last() =~= links_view(links@).take(i - 1));
        assert(view.last() == (links@[i - 1].name@, source_view(links@[i - 1].structure)));
        if links[i - 1].name.same(name) {
            return Some(i - 1);
        }
        i -= 1;
    }
    None
}

/// `reference` with every linkname in `links` replaced, recursively, by its
/// hoisted structure.
fn inline_links(
    reference: &SourceReference,
    links: &Vec<IndirectionLink>,
    Ghost(fuel): Ghost<nat>,
) -> (r: SourceReference)
    requires
        inline_spec(source_view(*reference), links_view(links@), fuel) is Some,
    ensures
        inline_spec(source_view(*reference), links_view(links@), fuel) == Some(source_view(r)),
    decreases fuel, model_size(source_view(*reference)),
{
    let ghost m = source_view(*reference);
    proof {
        lemma_size_children(m);
    }
    match reference.plain_name() {
        Some(name) => match find_link(links, name) {
            Some(i) => {
                assert(links_view(links@)[i as int].1 == source_view(links@[i as int].structure));
                inline_links(&links[i].structure, links, Ghost((fuel - 1) as nat))
            },
            None => reference.deep_clone(),
        },
        None => match reference.hoistable_head() {
            None => reference.deep_clone(),
            Some(_) => {
                let children = reference.children();
                let ghost cs = refs_views(children@);
                let ghost inlined = inline_list_spec(cs, links_view(links@), fuel);
                proof {
                    lemma_inline_list_prefixes(cs, links_view(links@), fuel);
                }
                let mut out: Vec<SourceReference> = Vec::new();
                let mut i: usize = 0;
                proof {
                    crate::source_reference::lemma_sources_len(out@);
                    assert(sources_view(out@) =~= Seq::<SourceModel>::empty());
                }
                while i < children.len()
                    invariant
                        i <= children@.len(),
                        m == source_view(*reference),
                        cs == refs_views(children@),
                        cs == children_model(m),
                        model_size(m) == 1 + sizes_sum(cs),
                        inlined == inline_list_spec(cs, links_view(links@), fuel),
                        inlined is Some,
                        forall|k: int|
                            0 <= k <= cs.len() ==> #[trigger] inline_list_spec(
                                cs.take(k),
                                links_view(links@),
                                fuel,
                            ) == Some(inlined->0.take(k)),
                        inlined->0.len() == cs.len(),
                        sources_view(out@) == inlined->0.take(i as int),
                    decreases children.len() - i,
                {
                    proof {
                        lemma_sizes_take(cs, i as int);
                        lemma_sizes_prefix(cs, i + 1);
                        assert(cs[i as int] == source_view(*children@[i as int]));
                        assert(model_size(source_view(*children[i as int])) < model_size(m));
                        let next = cs.take(i + 1);
                        assert(next.drop_last() =~= cs.take(i as int));
                        assert(next.last() == cs[i as int]);
                        assert(inline_list_spec(next, links_view(links@), fuel) == Some(
                            inlined->0.take(i + 1),
                        ));
                        assert(inlined->0.take(i + 1).last() == inlined->0[i as int]);
                        assert(inline_spec(cs[i as int], links_view(links@), fuel) == Some(
                            inlined->0[i as int],
                        ));
                    }
                    let c = inline_links(children[i], links, Ghost(fuel));
                    proof {
                        crate::source_reference::lemma_sources_push(out@, c);
                        assert(inlined->0.take(i + 1) =~= inlined->0.take(i as int).push(
                            inlined->0[i as int],
                        ));
                    }
                    out.push(c);
                    i += 1;
                }
                assert(inlined->0.take(cs.len() as int) =~= inlined->0);
                proof {
                    crate::source_reference::lemma_sources_len(out@);
                }
                reference.with_children(out)
            },
        },
    }
}

/// When a list inlines, each prefix inlines to the same prefix.
proof fn lemma_inline_list_prefixes(s: Seq<SourceModel>, links: Seq<LinkModel>, fuel: nat)
    requires
        inline_list_spec(s, links, fuel) is Some,
    ensures
        inline_list_spec(s, links, fuel)->0.len() == s.len(),
        forall|k: int|
            0 <= k <= s.len() ==> #[trigger] inline_list_spec(s.take(k), links, fuel) == Some(
                inline_list_spec(s, links, fuel)->0.take(k),
            ),
    decreases s.len(),
{
    let whole = inline_list_spec(s, links, fuel)->0;
    if s.len() == 0 {
        assert(s.take(0) =~= s);
        assert(whole.take(0) =~= whole);
    } else {
        let init = s.drop_last();
        lemma_inline_list_prefixes(init, links, fuel);
        let head = inline_list_spec(init, links, fuel)->0;
        assert(whole == head.push(inline_spec(s.last(), links, fuel)->0));
        assert forall|k: int| 0 <= k <= s.len() implies #[trigger] inline_list_spec(
            s.take(k),
            links,
            fuel,
        ) == Some(whole.take(k)) by {
            if k == s.len() {
                assert(s.take(k) =~= s);
                assert(whole.take(k) =~= whole);
            } else {
                assert(s.take(k) =~= init.take(k));
                assert(whole.take(k) =~= head.take(k));
                assert(inline_list_spec(init.take(k), links, fuel) == Some(head.take(k)));
            }
        }
    }
}

impl FactoredEncoding {
    /// The reference this encoding was factored from, rebuilt by inlining every
    /// linkname back into its hoisted structure.
    pub fn lower(&self) -> (r: SourceReference)
        requires
            inline_spec(self.main_view(), self.links_view(), self.links_view().len() + 1) is Some,
        ensures
            inline_spec(self.main_view(), self.links_view(), self.links_view().len() + 1) == Some(
                source_view(r),
            ),
    {
        inline_links(&self.main, &self.links, Ghost((self.links@.len() + 1) as nat))
    }

    /// The lowered reference as a semantic reference.
    pub fn to_type_reference(&self) -> (r: TypeReference)
        requires
            inline_spec(self.main_view(), self.links_view(), self.links_view().len() + 1) is Some,
        ensures
            reference_view(r) == lowered_view(
                inline_spec(self.main_view(), self.links_view(), self.links_view().len() + 1)->0,
            ),
    {
        self.lower().to_type_reference()
    }
}

impl IndirectionLink {
    pub closed spec fn name_view(&self) -> Seq<char> {
        self.name@
    }

    pub closed spec fn structure_view(&self) -> SourceModel {
        source_view(self.structure)
    }

    pub fn name(&self) -> (r: &Name)
        ensures
            r@ == self.name_view(),
    {
        &self.name
    }

    /// The hoisted structure's text.
    pub fn structure_text(&self) -> (r: String)
        ensures
            r@ == source_text_seq(self.structure_view()),
    {
        self.structure.to_schema_text()
    }

    fn to_schema_text(&self) -> (r: String)
        ensures
            r@ == link_text((self.name@, source_view(self.structure))),
    {
        let mut r = self.name.to_dotos();
        r.append(" ");
        r.append(self.structure.to_schema_text().as_str());
        proof {
            reveal_strlit(" ");
            assert(" "@ =~= seq![' ']);
        }
        r
    }
}

impl HelpRendering {
    pub closed spec fn text_view(&self) -> Seq<char> {
        self.text@
    }

    pub fn text(&self) -> (r: &str)
        ensures
            r@ == self.text_view(),
    {
        self.text.as_str()
    }
}

impl IndirectionProjection {
    pub closed spec fn cap_view(&self) -> nat {
        self.main_structure_depth_cap.depth_view()
    }

    pub closed spec fn expansion_view(&self) -> LinkedStructureExpansion {
        self.linked_structure_expansion
    }

    pub fn new(
        main_structure_depth_cap: MainStructureDepthCap,
        linked_structure_expansion: LinkedStructureExpansion,
    ) -> (r: Self)
        ensures
            r.cap_view() == main_structure_depth_cap.depth_view(),
            r.expansion_view() == linked_structure_expansion,
    {
        IndirectionProjection { main_structure_depth_cap, linked_structure_expansion }
    }

    /// Encode `reference` as a complete factored encoding; `None` when the
    /// expansion truncates, since a truncated print cannot stand for a value.
    pub fn encode(&self, reference: &SourceReference) -> (r: Option<FactoredEncoding>)
        requires
            2 * model_size(source_view(*reference)) + 2 <= usize::MAX,
        ensures
            match r {
                Some(e) => self.expansion_view() == LinkedStructureExpansion::Complete && (
                e.main_view(),
                e.links_view(),
                ) == factored_spec(source_view(*reference), self.cap_view()),
                None => self.expansion_view() is Truncated,
            },
    {
        match self.linked_structure_expansion {
            LinkedStructureExpansion::Complete => Some(
                FactoredEncoding::factor(reference, self.main_structure_depth_cap),
            ),
            LinkedStructureExpansion::Truncated { .. } => None,
        }
    }

    /// Render `reference` as help text: the factored encoding printed with as
    /// many hoisted structures as the expansion shows.
    pub fn help(&self, reference: &SourceReference) -> (r: HelpRendering)
        requires
            2 * model_size(source_view(*reference)) + 2 <= usize::MAX,
        ensures
            r.text_view() == rendered_text(
                factored_spec(source_view(*reference), self.cap_view()).0,
                factored_spec(source_view(*reference), self.cap_view()).1,
                visible_links(
                    self.expansion_view(),
                    factored_spec(source_view(*reference), self.cap_view()).1.len(),
                ),
            ),
    {
        let encoding = FactoredEncoding::factor(reference, self.main_structure_depth_cap);
        HelpRendering { text: encoding.render(self.linked_structure_expansion) }
    }
}

} // verus!
