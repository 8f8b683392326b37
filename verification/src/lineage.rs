//! The lineage graph: receipt edges connecting schema versions by their core
//! hashes, with the conversion-chain and common-ancestor walks over them. A
//! structural edge moves the core hash; a rename edge is a self-loop that
//! never lies on a walk.

use crate::identity::ContentHash;
use crate::upgrade::{receipts_view, ReceiptModel, SchemaEditReceipt};
use vstd::prelude::*;
use vstd::set_lib::{lemma_int_range, lemma_len_subset, set_int_range};

verus! {

/// A lineage graph over core hashes: the accepted receipt edges.
#[derive(Debug)]
pub struct LineageGraph {
    edges: Vec<SchemaEditReceipt>,
}

impl View for LineageGraph {
    type V = Seq<ReceiptModel>;

    closed spec fn view(&self) -> Seq<ReceiptModel> {
        receipts_view(self.edges@)
    }
}

/// Whether an edge moves the core hash.
pub open spec fn advances(e: ReceiptModel) -> bool {
    e.parent != e.child
}

/// Whether `x` is an edge of `g`.
pub open spec fn holds_edge(g: Seq<ReceiptModel>, x: ReceiptModel) -> bool {
    exists|i: int| 0 <= i < g.len() && #[trigger] g[i] == x
}

/// Whether `c` is a chain of structural edges of `g` leading from `from` to
/// `to`; the empty chain leads from a hash to itself.
pub open spec fn is_chain(g: Seq<ReceiptModel>, from: Seq<u8>, to: Seq<u8>, c: Seq<ReceiptModel>) -> bool {
    &&& forall|k: int| 0 <= k < c.len() ==> holds_edge(g, #[trigger] c[k]) && advances(c[k])
    &&& forall|k: int| 0 <= k < c.len() - 1 ==> (#[trigger] c[k]).child == c[k + 1].parent
    &&& if c.len() == 0 {
        from == to
    } else {
        c[0].parent == from && c[c.len() - 1].child == to
    }
}

/// Whether some chain of structural edges leads from `from` to `to`.
pub open spec fn reachable(g: Seq<ReceiptModel>, from: Seq<u8>, to: Seq<u8>) -> bool {
    exists|c: Seq<ReceiptModel>| is_chain(g, from, to, c)
}

/// Whether `s` holds the hash `x`.
pub open spec fn holds_hash(s: Seq<Seq<u8>>, x: Seq<u8>) -> bool {
    exists|i: int| 0 <= i < s.len() && #[trigger] s[i] == x
}

/// Whether every structural edge leaving a hash of `s` leads into `s`.
pub open spec fn forward_closed(g: Seq<ReceiptModel>, s: Seq<Seq<u8>>) -> bool {
    forall|i: int|
        0 <= i < g.len() && advances(g[i]) && holds_hash(s, #[trigger] g[i].parent) ==> holds_hash(s, g[i].child)
}

/// Whether every structural edge entering a hash of `s` leaves from `s`.
pub open spec fn backward_closed(g: Seq<ReceiptModel>, s: Seq<Seq<u8>>) -> bool {
    forall|i: int|
        0 <= i < g.len() && advances(g[i]) && holds_hash(s, #[trigger] g[i].child) ==> holds_hash(s, g[i].parent)
}

/// The edges a graph holds after recording each edge of `s` in turn onto
/// `g`: an edge already held is dropped, any other is appended.
pub open spec fn recorded(g: Seq<ReceiptModel>, s: Seq<ReceiptModel>) -> Seq<ReceiptModel>
    decreases s.len(),
{
    if s.len() == 0 {
        g
    } else {
        let h = recorded(g, s.drop_last());
        if holds_edge(h, s.last()) {
            h
        } else {
            h.push(s.last())
        }
    }
}

/// The views of a list of hashes.
pub open spec fn hashes_view(s: Seq<ContentHash>) -> Seq<Seq<u8>> {
    Seq::new(s.len(), |i: int| s[i]@)
}

/// The views of a list of borrowed receipts.
pub open spec fn chain_view<'a>(c: Seq<&'a SchemaEditReceipt>) -> Seq<ReceiptModel> {
    Seq::new(c.len(), |k: int| c[k]@)
}

/// A repeated edge changes no walk: two graphs holding the same edges connect
/// exactly the same core hashes.
pub proof fn law_same_edges_same_reach(g1: Seq<ReceiptModel>, g2: Seq<ReceiptModel>, from: Seq<u8>, to: Seq<u8>)
    requires
        forall|x: ReceiptModel| #[trigger] holds_edge(g1, x) <==> holds_edge(g2, x),
    ensures
        reachable(g1, from, to) <==> reachable(g2, from, to),
{
    if reachable(g1, from, to) {
        let c = choose|c: Seq<ReceiptModel>| is_chain(g1, from, to, c);
        assert forall|k: int| 0 <= k < c.len() implies holds_edge(g2, #[trigger] c[k]) && advances(c[k]) by {
            assert(holds_edge(g1, c[k]));
        }
        assert(is_chain(g2, from, to, c));
    }
    if reachable(g2, from, to) {
        let c = choose|c: Seq<ReceiptModel>| is_chain(g2, from, to, c);
        assert forall|k: int| 0 <= k < c.len() implies holds_edge(g1, #[trigger] c[k]) && advances(c[k]) by {
            assert(holds_edge(g2, c[k]));
        }
        assert(is_chain(g1, from, to, c));
    }
}

/// A chain that starts inside a forward-closed set stays inside it.
proof fn lemma_chain_stays_forward(g: Seq<ReceiptModel>, s: Seq<Seq<u8>>, from: Seq<u8>, to: Seq<u8>, c: Seq<ReceiptModel>)
    requires
        forward_closed(g, s),
        holds_hash(s, from),
        is_chain(g, from, to, c),
    ensures
        holds_hash(s, to),
    decreases c.len(),
{
    if c.len() > 0 {
        let i = choose|i: int| 0 <= i < g.len() && #[trigger] g[i] == c[0];
        assert(holds_edge(g, c[0]) && advances(c[0]));
        assert(holds_hash(s, g[i].child));
        let rest = c.drop_first();
        assert(is_chain(g, c[0].child, to, rest)) by {
            assert forall|k: int| 0 <= k < rest.len() implies holds_edge(g, #[trigger] rest[k]) && advances(rest[k]) by {
                assert(rest[k] == c[k + 1]);
            }
            assert forall|k: int| 0 <= k < rest.len() - 1 implies (#[trigger] rest[k]).child == rest[k + 1].parent by {
                assert(rest[k] == c[k + 1]);
                assert(rest[k + 1] == c[k + 2]);
            }
            if rest.len() == 0 {
            } else {
                assert(rest[0] == c[1]);
                assert(c[0].child == c[1].parent);
            }
        }
        lemma_chain_stays_forward(g, s, c[0].child, to, rest);
    }
}

/// A chain that ends inside a backward-closed set lies inside it from its
/// start.
proof fn lemma_chain_stays_backward(g: Seq<ReceiptModel>, s: Seq<Seq<u8>>, from: Seq<u8>, to: Seq<u8>, c: Seq<ReceiptModel>)
    requires
        backward_closed(g, s),
        holds_hash(s, to),
        is_chain(g, from, to, c),
    ensures
        holds_hash(s, from),
    decreases c.len(),
{
    if c.len() > 0 {
        let last = c.len() - 1;
        let i = choose|i: int| 0 <= i < g.len() && #[trigger] g[i] == c[last];
        assert(holds_edge(g, c[last]) && advances(c[last]));
        assert(holds_hash(s, g[i].parent));
        let rest = c.drop_last();
        assert(is_chain(g, from, c[last].parent, rest)) by {
            assert forall|k: int| 0 <= k < rest.len() implies holds_edge(g, #[trigger] rest[k]) && advances(rest[k]) by {
                assert(rest[k] == c[k]);
            }
            assert forall|k: int| 0 <= k < rest.len() - 1 implies (#[trigger] rest[k]).child == rest[k + 1].parent by {
                assert(rest[k] == c[k]);
                assert(rest[k + 1] == c[k + 1]);
            }
            if rest.len() == 0 {
            } else {
                assert(rest[rest.len() - 1] == c[last - 1]);
                assert(c[last - 1].child == c[last].parent);
            }
        }
        lemma_chain_stays_backward(g, s, from, c[last].parent, rest);
    }
}

/// Extending a chain by one structural edge at its front.
proof fn lemma_chain_prepend(g: Seq<ReceiptModel>, e: ReceiptModel, to: Seq<u8>, c: Seq<ReceiptModel>)
    requires
        holds_edge(g, e),
        advances(e),
        is_chain(g, e.child, to, c),
    ensures
        is_chain(g, e.parent, to, seq![e] + c),
{
    let d = seq![e] + c;
    assert forall|k: int| 0 <= k < d.len() implies holds_edge(g, #[trigger] d[k]) && advances(d[k]) by {
        if k > 0 {
            assert(d[k] == c[k - 1]);
        }
    }
    assert forall|k: int| 0 <= k < d.len() - 1 implies (#[trigger] d[k]).child == d[k + 1].parent by {
        if k > 0 {
            assert(d[k] == c[k - 1]);
            assert(d[k + 1] == c[k]);
        } else {
            assert(d[1] == c[0]);
        }
    }
    if c.len() > 0 {
        assert(d[d.len() - 1] == c[c.len() - 1]);
    }
}

/// A list of distinct indices below `n` has at most `n` entries.
proof fn lemma_distinct_indices(s: Seq<int>, n: int)
    requires
        0 <= n,
        s.no_duplicates(),
        forall|k: int| 0 <= k < s.len() ==> 0 <= #[trigger] s[k] < n,
    ensures
        s.len() <= n,
{
    s.unique_seq_to_set();
    lemma_int_range(0, n);
    assert(s.to_set().subset_of(set_int_range(0, n)));
    lemma_len_subset(s.to_set(), set_int_range(0, n));
}

/// The hash an edge is walked out of: its parent on a forward walk, its child
/// on a backward one.
pub open spec fn walk_src(e: ReceiptModel, forward: bool) -> Seq<u8> {
    if forward {
        e.parent
    } else {
        e.child
    }
}

/// The hash an edge is walked into.
pub open spec fn walk_dst(e: ReceiptModel, forward: bool) -> Seq<u8> {
    if forward {
        e.child
    } else {
        e.parent
    }
}

/// Whether `c` leads, in the walk's direction, from `source` to `x`: a chain
/// from `source` to `x` on a forward walk, from `x` to `source` on a backward
/// one.
pub open spec fn walk_chain(g: Seq<ReceiptModel>, forward: bool, source: Seq<u8>, x: Seq<u8>, c: Seq<ReceiptModel>) -> bool {
    if forward {
        is_chain(g, source, x, c)
    } else {
        is_chain(g, x, source, c)
    }
}

/// Whether some chain of at most `n` structural edges leads from `from` to
/// `to`.
pub open spec fn within(g: Seq<ReceiptModel>, from: Seq<u8>, to: Seq<u8>, n: nat) -> bool {
    exists|d: Seq<ReceiptModel>| #[trigger] is_chain(g, from, to, d) && d.len() <= n
}

/// Whether some walk chain of exactly `n` edges leads from `source` to `x`.
pub open spec fn walk_of_length(g: Seq<ReceiptModel>, forward: bool, source: Seq<u8>, x: Seq<u8>, n: nat) -> bool {
    exists|c: Seq<ReceiptModel>| #[trigger] walk_chain(g, forward, source, x, c) && c.len() == n
}

/// Every edge walked out of the first `head` hashes of `vs` leads into `vs`.
pub open spec fn walk_closed(g: Seq<ReceiptModel>, forward: bool, vs: Seq<Seq<u8>>, head: int) -> bool {
    forall|i: int|
        0 <= i < g.len() && advances(g[i]) && holds_hash(vs.take(head), #[trigger] walk_src(g[i], forward))
            ==> holds_hash(vs, walk_dst(g[i], forward))
}

/// The breadth-first levels of a walk: `lvl[k]` is the length of a shortest
/// walk chain from `source` to `vs[k]`, the levels never decrease along `vs`,
/// and no hash past `head` lies more than one level beyond it.
pub open spec fn walk_levels(
    g: Seq<ReceiptModel>,
    forward: bool,
    source: Seq<u8>,
    vs: Seq<Seq<u8>>,
    lvl: Seq<nat>,
    head: int,
) -> bool {
    &&& vs.len() >= 1
    &&& vs[0] == source
    &&& lvl.len() == vs.len()
    &&& lvl[0] == 0
    &&& forall|k: int| 0 <= k < vs.len() ==> #[trigger] walk_of_length(g, forward, source, vs[k], lvl[k])
    &&& forall|k: int, c: Seq<ReceiptModel>|
        0 <= k < vs.len() && #[trigger] walk_chain(g, forward, source, vs[k], c) ==> lvl[k] <= c.len()
    &&& forall|a: int, b: int| 0 <= a <= b < vs.len() ==> #[trigger] lvl[a] <= #[trigger] lvl[b]
    &&& 0 <= head <= vs.len()
    &&& head < vs.len() ==> lvl[vs.len() - 1] <= lvl[head] + 1
}

/// The last edge of a nonempty walk chain, and the chain before it.
proof fn lemma_walk_last(g: Seq<ReceiptModel>, forward: bool, source: Seq<u8>, x: Seq<u8>, c: Seq<ReceiptModel>) -> (r: (
    int,
    Seq<ReceiptModel>,
))
    requires
        walk_chain(g, forward, source, x, c),
        c.len() > 0,
    ensures
        0 <= r.0 < g.len(),
        advances(g[r.0]),
        walk_dst(g[r.0], forward) == x,
        walk_chain(g, forward, source, walk_src(g[r.0], forward), r.1),
        r.1.len() + 1 == c.len(),
{
    if forward {
        let last = c.len() - 1;
        assert(holds_edge(g, c[last]) && advances(c[last]));
        let i = choose|i: int| 0 <= i < g.len() && #[trigger] g[i] == c[last];
        let rest = c.drop_last();
        assert(is_chain(g, source, c[last].parent, rest)) by {
            assert forall|k: int| 0 <= k < rest.len() implies holds_edge(g, #[trigger] rest[k]) && advances(rest[k]) by {
                assert(rest[k] == c[k]);
            }
            assert forall|k: int| 0 <= k < rest.len() - 1 implies (#[trigger] rest[k]).child == rest[k + 1].parent by {
                assert(rest[k] == c[k]);
                assert(rest[k + 1] == c[k + 1]);
            }
            if rest.len() > 0 {
                assert(rest[0] == c[0]);
                assert(rest[rest.len() - 1] == c[last - 1]);
                assert(c[last - 1].child == c[last].parent);
            }
        }
        (i, rest)
    } else {
        assert(holds_edge(g, c[0]) && advances(c[0]));
        let i = choose|i: int| 0 <= i < g.len() && #[trigger] g[i] == c[0];
        let rest = c.drop_first();
        assert(is_chain(g, c[0].child, source, rest)) by {
            assert forall|k: int| 0 <= k < rest.len() implies holds_edge(g, #[trigger] rest[k]) && advances(rest[k]) by {
                assert(rest[k] == c[k + 1]);
            }
            assert forall|k: int| 0 <= k < rest.len() - 1 implies (#[trigger] rest[k]).child == rest[k + 1].parent by {
                assert(rest[k] == c[k + 1]);
                assert(rest[k + 1] == c[k + 2]);
            }
            if rest.len() > 0 {
                assert(rest[0] == c[1]);
                assert(c[0].child == c[1].parent);
                assert(rest[rest.len() - 1] == c[c.len() - 1]);
            }
        }
        (i, rest)
    }
}

/// A walk chain extended by one more edge walked out of its end.
proof fn lemma_walk_extend(g: Seq<ReceiptModel>, forward: bool, source: Seq<u8>, c: Seq<ReceiptModel>, i: int) -> (r: Seq<
    ReceiptModel,
>)
    requires
        0 <= i < g.len(),
        advances(g[i]),
        walk_chain(g, forward, source, walk_src(g[i], forward), c),
    ensures
        walk_chain(g, forward, source, walk_dst(g[i], forward), r),
        r.len() == c.len() + 1,
{
    assert(holds_edge(g, g[i]));
    if forward {
        let d = c.push(g[i]);
        assert forall|k: int| 0 <= k < d.len() implies holds_edge(g, #[trigger] d[k]) && advances(d[k]) by {
            if k < c.len() {
                assert(d[k] == c[k]);
            }
        }
        assert forall|k: int| 0 <= k < d.len() - 1 implies (#[trigger] d[k]).child == d[k + 1].parent by {
            assert(d[k] == c[k]);
            if k + 1 < c.len() {
                assert(d[k + 1] == c[k + 1]);
            }
        }
        if c.len() > 0 {
            assert(d[0] == c[0]);
        }
        d
    } else {
        lemma_chain_prepend(g, g[i], source, c);
        seq![g[i]] + c
    }
}

/// Every hash within fewer levels of the source than the head lies before
/// the head.
proof fn lemma_walk_near(
    g: Seq<ReceiptModel>,
    forward: bool,
    source: Seq<u8>,
    vs: Seq<Seq<u8>>,
    lvl: Seq<nat>,
    head: int,
    x: Seq<u8>,
    c: Seq<ReceiptModel>,
)
    requires
        walk_levels(g, forward, source, vs, lvl, head),
        walk_closed(g, forward, vs, head),
        head < vs.len(),
        walk_chain(g, forward, source, x, c),
        c.len() < lvl[head],
    ensures
        exists|k: int| 0 <= k < head && vs[k] == x,
    decreases c.len(),
{
    if c.len() == 0 {
        assert(x == source);
        assert(lvl[0] <= lvl[head]);
        assert(head != 0);
        assert(vs[0] == x);
    } else {
        let (i, d) = lemma_walk_last(g, forward, source, x, c);
        lemma_walk_near(g, forward, source, vs, lvl, head, walk_src(g[i], forward), d);
        let j = choose|j: int| 0 <= j < head && vs[j] == walk_src(g[i], forward);
        assert(vs.take(head)[j] == vs[j]);
        assert(holds_hash(vs.take(head), walk_src(g[i], forward)));
        assert(holds_hash(vs, x));
        let t = choose|t: int| 0 <= t < vs.len() && #[trigger] vs[t] == x;
        assert(walk_chain(g, forward, source, vs[t], c));
        assert(lvl[t] <= c.len());
        if t >= head {
            assert(lvl[head] <= lvl[t]);
        }
    }
}

/// Holding one more hash, walked into from the head by edge `i`, keeps the
/// levels, the new hash one level beyond the head.
proof fn lemma_walk_push(
    g: Seq<ReceiptModel>,
    forward: bool,
    source: Seq<u8>,
    vs: Seq<Seq<u8>>,
    lvl: Seq<nat>,
    head: int,
    i: int,
)
    requires
        walk_levels(g, forward, source, vs, lvl, head),
        walk_closed(g, forward, vs, head),
        head < vs.len(),
        0 <= i < g.len(),
        advances(g[i]),
        walk_src(g[i], forward) == vs[head],
        !holds_hash(vs, walk_dst(g[i], forward)),
    ensures
        walk_levels(g, forward, source, vs.push(walk_dst(g[i], forward)), lvl.push(lvl[head] + 1), head),
{
    let z = walk_dst(g[i], forward);
    let ws = vs.push(z);
    let nl = lvl.push(lvl[head] + 1);
    let n = vs.len() as int;
    assert(ws[n] == z);
    assert forall|k: int| 0 <= k < ws.len() implies #[trigger] walk_of_length(g, forward, source, ws[k], nl[k]) by {
        if k < n {
            assert(ws[k] == vs[k] && nl[k] == lvl[k]);
            assert(walk_of_length(g, forward, source, vs[k], lvl[k]));
        } else {
            assert(walk_of_length(g, forward, source, vs[head], lvl[head]));
            let c = choose|c: Seq<ReceiptModel>| #[trigger] walk_chain(g, forward, source, vs[head], c) && c.len() == lvl[head];
            let d = lemma_walk_extend(g, forward, source, c, i);
            assert(walk_chain(g, forward, source, ws[k], d));
        }
    }
    assert forall|k: int, c: Seq<ReceiptModel>|
        0 <= k < ws.len() && #[trigger] walk_chain(g, forward, source, ws[k], c) implies nl[k] <= c.len() by {
        if k < n {
            assert(ws[k] == vs[k] && nl[k] == lvl[k]);
            assert(walk_chain(g, forward, source, vs[k], c));
        } else {
            assert(ws[k] == z);
            if z == source {
                assert(holds_hash(vs, z)) by {
                    assert(vs[0] == z);
                }
            }
            if c.len() == 0 {
                assert(z == source);
            }
            let (j, d) = lemma_walk_last(g, forward, source, z, c);
            if d.len() < lvl[head] {
                lemma_walk_near(g, forward, source, vs, lvl, head, walk_src(g[j], forward), d);
                let t = choose|t: int| 0 <= t < head && vs[t] == walk_src(g[j], forward);
                assert(vs.take(head)[t] == vs[t]);
                assert(holds_hash(vs.take(head), walk_src(g[j], forward)));
                assert(holds_hash(vs, walk_dst(g[j], forward)));
            }
        }
    }
    assert forall|a: int, b: int| 0 <= a <= b < ws.len() implies #[trigger] nl[a] <= #[trigger] nl[b] by {
        if b == n {
            if a < n {
                assert(nl[a] == lvl[a]);
                assert(lvl[a] <= lvl[n - 1]);
            }
        } else {
            assert(nl[a] == lvl[a] && nl[b] == lvl[b]);
        }
    }
    assert(nl[head] == lvl[head]);
    assert(nl[0] == lvl[0]);
    assert(ws[0] == vs[0]);
}

/// Moving the head one step on keeps the levels.
proof fn lemma_walk_advance(g: Seq<ReceiptModel>, forward: bool, source: Seq<u8>, vs: Seq<Seq<u8>>, lvl: Seq<nat>, head: int)
    requires
        walk_levels(g, forward, source, vs, lvl, head),
        head < vs.len(),
    ensures
        walk_levels(g, forward, source, vs, lvl, head + 1),
{
    if head + 1 < vs.len() {
        assert(lvl[head] <= lvl[head + 1]);
    }
}

/// A walk that holds only its source has level zero there.
proof fn lemma_walk_start(g: Seq<ReceiptModel>, forward: bool, source: Seq<u8>)
    ensures
        walk_levels(g, forward, source, seq![source], seq![0nat], 0),
{
    let vs = seq![source];
    let lvl = seq![0nat];
    assert(is_chain(g, source, source, Seq::empty()));
    assert(walk_chain(g, forward, source, vs[0], Seq::empty()));
    assert forall|k: int| 0 <= k < vs.len() implies #[trigger] walk_of_length(g, forward, source, vs[k], lvl[k]) by {
        assert(walk_chain(g, forward, source, vs[k], Seq::empty()));
    }
}

/// The closure of a forward walk, stated in the walk's own terms.
proof fn lemma_forward_walk_closed(
    g: Seq<ReceiptModel>,
    source: Seq<u8>,
    vs: Seq<Seq<u8>>,
    reach: Seq<usize>,
    parent: Seq<usize>,
    head: int,
)
    requires
        forward_walk(g, source, vs, reach, parent, head),
    ensures
        walk_closed(g, true, vs, head),
{
    assert forall|i: int|
        0 <= i < g.len() && advances(g[i]) && holds_hash(vs.take(head), #[trigger] walk_src(g[i], true)) implies holds_hash(
        vs,
        walk_dst(g[i], true),
    ) by {
        assert(walk_src(g[i], true) == g[i].parent);
    }
}

/// The closure of a backward walk, stated in the walk's own terms.
proof fn lemma_backward_walk_closed(g: Seq<ReceiptModel>, target: Seq<u8>, vs: Seq<Seq<u8>>, via: Seq<usize>, head: int)
    requires
        backward_walk(g, target, vs, via, head),
    ensures
        walk_closed(g, false, vs, head),
{
    assert forall|i: int|
        0 <= i < g.len() && advances(g[i]) && holds_hash(vs.take(head), #[trigger] walk_src(g[i], false)) implies holds_hash(
        vs,
        walk_dst(g[i], false),
    ) by {
        assert(walk_src(g[i], false) == g[i].child);
    }
}

/// Whether `h` is a member of `s`, by identity of the addresses.
fn contains_hash(s: &Vec<ContentHash>, h: &ContentHash) -> (r: bool)
    ensures
        r == holds_hash(hashes_view(s@), h@),
{
    let mut i: usize = 0;
    while i < s.len()
        invariant
            i <= s@.len(),
            forall|j: int| 0 <= j < i ==> s@[j]@ != h@,
        decreases s.len() - i,
    {
        if s[i].same(h) {
            assert(hashes_view(s@)[i as int] == h@);
            return true;
        }
        i += 1;
    }
    assert forall|j: int| 0 <= j < hashes_view(s@).len() implies #[trigger] hashes_view(s@)[j] != h@ by {
        assert(hashes_view(s@)[j] == s@[j]@);
    }
    false
}

impl SchemaEditReceipt {
    /// Whether this edge moves the core hash forward out of `node`.
    fn advances_from(&self, node: &ContentHash) -> (r: bool)
        ensures
            r == (self@.parent == node@ && advances(self@)),
    {
        self.parent_core_hash.same(node) && !self.parent_core_hash.same(&self.child_core_hash)
    }

    /// Whether this edge moves the core hash forward into `node`.
    fn advances_to(&self, node: &ContentHash) -> (r: bool)
        ensures
            r == (self@.child == node@ && advances(self@)),
    {
        self.child_core_hash.same(node) && !self.parent_core_hash.same(&self.child_core_hash)
    }
}

impl LineageGraph {
    pub fn new() -> (r: Self)
        ensures
            r@ == Seq::<ReceiptModel>::empty(),
    {
        let r = LineageGraph { edges: Vec::new() };
        assert(r@ =~= Seq::<ReceiptModel>::empty());
        r
    }

    /// Record one accepted edit as an edge; an edge equal to one already
    /// stored is dropped.
    pub fn record(&mut self, receipt: SchemaEditReceipt)
        ensures
            holds_edge(old(self)@, receipt@) ==> final(self)@ == old(self)@,
            !holds_edge(old(self)@, receipt@) ==> final(self)@ == old(self)@.push(receipt@),
    {
        let mut i: usize = 0;
        while i < self.edges.len()
            invariant
                i <= self.edges@.len(),
                self@ == receipts_view(self.edges@),
                forall|j: int| 0 <= j < i ==> self@[j] != receipt@,
            decreases self.edges.len() - i,
        {
            assert(self@[i as int] == self.edges@[i as int]@);
            if self.edges[i].same(&receipt) {
                return;
            }
            i += 1;
        }
        let ghost before = self@;
        self.edges.push(receipt);
        assert(self@ =~= before.push(receipt@));
    }

    /// Build a graph from receipt edges, dropping repeated edges.
    pub fn from_edges(edges: Vec<SchemaEditReceipt>) -> (r: Self)
        ensures
            r@ == recorded(Seq::empty(), receipts_view(edges@)),
            r@.no_duplicates(),
            forall|i: int| 0 <= i < r@.len() ==> holds_edge(receipts_view(edges@), #[trigger] r@[i]),
            forall|j: int| 0 <= j < edges@.len() ==> holds_edge(r@, #[trigger] edges@[j]@),
    {
        let ghost all = receipts_view(edges@);
        let total: usize = edges.len();
        assert(all.len() == total);
        let mut graph = Self::new();
        let mut rest = edges;
        let mut n: usize = 0;
        while rest.len() > 0
            invariant
                all.len() == n + rest@.len(),
                all.len() <= usize::MAX,
                receipts_view(rest@) == all.skip(n as int),
                graph@ == recorded(Seq::empty(), all.take(n as int)),
                graph@.no_duplicates(),
                forall|i: int| 0 <= i < graph@.len() ==> holds_edge(all, #[trigger] graph@[i]),
                forall|j: int| 0 <= j < n ==> holds_edge(graph@, #[trigger] all[j]),
            decreases rest.len(),
        {
            let ghost rest_before = rest@;
            let receipt = rest.remove(0);
            assert(receipt@ == receipts_view(rest_before)[0]);
            assert(receipts_view(rest@) =~= all.skip(n + 1)) by {
                assert forall|k: int| 0 <= k < rest@.len() implies #[trigger] receipts_view(rest@)[k] == all.skip(
                    n + 1,
                )[k] by {
                    assert(rest@[k] == rest_before[k + 1]);
                    assert(receipts_view(rest_before)[k + 1] == all.skip(n as int)[k + 1]);
                }
            }
            assert(receipt@ == all[n as int]);
            let ghost before = graph@;
            graph.record(receipt);
            assert(all.take(n + 1).drop_last() =~= all.take(n as int));
            proof {
                if holds_edge(before, all[n as int]) {
                    assert forall|j: int| 0 <= j < n + 1 implies holds_edge(graph@, #[trigger] all[j]) by {}
                } else {
                    assert(graph@ == before.push(all[n as int]));
                    assert(graph@[before.len() as int] == all[n as int]);
                    assert forall|j: int| 0 <= j < n + 1 implies holds_edge(graph@, #[trigger] all[j]) by {
                        if j < n {
                            let k = choose|k: int| 0 <= k < before.len() && #[trigger] before[k] == all[j];
                            assert(graph@[k] == all[j]);
                        }
                    }
                    assert forall|a: int, b: int| 0 <= a < graph@.len() && 0 <= b < graph@.len() && a != b implies graph@[a]
                        != graph@[b] by {
                        if a == before.len() {
                            assert(!holds_edge(before, graph@[a]) && graph@[b] == before[b]);
                        } else if b == before.len() {
                            assert(!holds_edge(before, graph@[b]) && graph@[a] == before[a]);
                        }
                    }
                    assert forall|i: int| 0 <= i < graph@.len() implies holds_edge(all, #[trigger] graph@[i]) by {
                        if i == before.len() {
                            assert(all[n as int] == graph@[i]);
                        }
                    }
                }
            }
            n += 1;
        }
        assert(all.take(n as int) =~= all);
        assert forall|j: int| 0 <= j < edges@.len() implies holds_edge(graph@, #[trigger] edges@[j]@) by {
            assert(all[j] == edges@[j]@);
        }
        assert forall|i: int| 0 <= i < graph@.len() implies holds_edge(receipts_view(edges@), #[trigger] graph@[i]) by {
        }
        graph
    }

    pub fn edges(&self) -> (r: &[SchemaEditReceipt])
        ensures
            receipts_view(r@) == self@,
    {
        self.edges.as_slice()
    }
}


/// The invariant of a backward walk toward `target`: `vs` holds distinct
/// hashes starting at `target`, each entered by edge `via[k]` out of it, each
/// an ancestor of `target`, and every structural parent of the first `head`
/// hashes is already held.
pub open spec fn backward_walk(g: Seq<ReceiptModel>, target: Seq<u8>, vs: Seq<Seq<u8>>, via: Seq<usize>, head: int) -> bool {
    &&& vs.len() >= 1
    &&& vs[0] == target
    &&& vs.no_duplicates()
    &&& via.len() == vs.len()
    &&& forall|k: int|
        1 <= k < vs.len() ==> (#[trigger] via[k]) < g.len() && advances(g[via[k] as int]) && g[via[k] as int].parent
            == vs[k]
    &&& forall|k: int| 0 <= k < vs.len() ==> reachable(g, #[trigger] vs[k], target)
    &&& 0 <= head <= vs.len()
    &&& vs.len() <= g.len() + 1
    &&& forall|i: int|
        0 <= i < g.len() && advances(g[i]) && holds_hash(vs.take(head), #[trigger] g[i].child) ==> holds_hash(
            vs,
            g[i].parent,
        )
}

/// The invariant of a forward walk out of `source`: `vs` holds distinct
/// hashes starting at `source`, each reached by edge `reach[k]` from an
/// earlier hash `parent[k]`, and every structural child of the first `head`
/// hashes is already held.
pub open spec fn forward_walk(
    g: Seq<ReceiptModel>,
    source: Seq<u8>,
    vs: Seq<Seq<u8>>,
    reach: Seq<usize>,
    parent: Seq<usize>,
    head: int,
) -> bool {
    &&& vs.len() >= 1
    &&& vs[0] == source
    &&& vs.no_duplicates()
    &&& reach.len() == vs.len()
    &&& parent.len() == vs.len()
    &&& forall|k: int|
        1 <= k < vs.len() ==> (#[trigger] reach[k]) < g.len() && advances(g[reach[k] as int]) && g[reach[k] as int].child
            == vs[k] && parent[k] < k && g[reach[k] as int].parent == vs[parent[k] as int]
    &&& 0 <= head <= vs.len()
    &&& vs.len() <= g.len() + 1
    &&& forall|i: int|
        0 <= i < g.len() && advances(g[i]) && holds_hash(vs.take(head), #[trigger] g[i].parent) ==> holds_hash(
            vs,
            g[i].child,
        )
}

/// Distinct hashes each tied to a distinct edge number fit within the edge
/// count plus one.
proof fn lemma_walk_bound(g: Seq<ReceiptModel>, vs: Seq<Seq<u8>>, edge: Seq<usize>, child_side: bool)
    requires
        vs.len() >= 1,
        vs.no_duplicates(),
        edge.len() == vs.len(),
        forall|k: int|
            1 <= k < vs.len() ==> (#[trigger] edge[k]) < g.len() && (if child_side {
                g[edge[k] as int].child == vs[k]
            } else {
                g[edge[k] as int].parent == vs[k]
            }),
    ensures
        vs.len() <= g.len() + 1,
{
    let s = Seq::new((vs.len() - 1) as nat, |k: int| edge[k + 1] as int);
    assert forall|a: int, b: int| 0 <= a < s.len() && 0 <= b < s.len() && a != b implies s[a] != s[b] by {
        if s[a] == s[b] {
            assert(vs[a + 1] == vs[b + 1]);
        }
    }
    assert forall|k: int| 0 <= k < s.len() implies 0 <= #[trigger] s[k] < g.len() by {
        assert(edge[k + 1] < g.len());
    }
    lemma_distinct_indices(s, g.len() as int);
}

impl LineageGraph {
    /// Walk one hash of a backward walk: hold every structural parent of it.
    fn enqueue_parents(
        &self,
        head: usize,
        visited: &mut Vec<ContentHash>,
        via: &mut Vec<usize>,
        target: Ghost<Seq<u8>>,
        lvl: Ghost<Seq<nat>>,
    ) -> (r: Ghost<Seq<nat>>)
        requires
            backward_walk(self@, target@, hashes_view(old(visited)@), old(via)@, head as int),
            walk_levels(self@, false, target@, hashes_view(old(visited)@), lvl@, head as int),
            (head as int) < old(visited)@.len(),
        ensures
            backward_walk(self@, target@, hashes_view(final(visited)@), final(via)@, head + 1),
            walk_levels(self@, false, target@, hashes_view(final(visited)@), r@, head + 1),
            hashes_view(old(visited)@).len() <= hashes_view(final(visited)@).len(),
            forall|k: int|
                0 <= k < old(visited)@.len() ==> #[trigger] hashes_view(final(visited)@)[k] == hashes_view(
                    old(visited)@,
                )[k],
    {
        let ghost g = self@;
        let ghost start = hashes_view(visited@);
        let ghost mut levels = lvl@;
        let node = visited[head];
        let mut e: usize = 0;
        while e < self.edges.len()
            invariant
                g == self@,
                g == receipts_view(self.edges@),
                e <= g.len(),
                (head as int) < visited@.len(),
                start.len() <= visited@.len(),
                forall|k: int| 0 <= k < start.len() ==> #[trigger] hashes_view(visited@)[k] == start[k],
                node@ == hashes_view(visited@)[head as int],
                backward_walk(g, target@, hashes_view(visited@), via@, head as int),
                walk_levels(g, false, target@, hashes_view(visited@), levels, head as int),
                forall|i: int|
                    0 <= i < e && advances(g[i]) && #[trigger] g[i].child == node@ ==> holds_hash(
                        hashes_view(visited@),
                        g[i].parent,
                    ),
            decreases self.edges.len() - e,
        {
            assert(g[e as int] == self.edges@[e as int]@);
            if self.edges[e].advances_to(&node) {
                let parent = self.edges[e].parent_core_hash;
                if !contains_hash(visited, &parent) {
                    let ghost vs = hashes_view(visited@);
                    let ghost old_via = via@;
                    proof {
                        let c = choose|c: Seq<ReceiptModel>| is_chain(g, vs[head as int], target@, c);
                        assert(holds_edge(g, g[e as int]));
                        lemma_chain_prepend(g, g[e as int], target@, c);
                        lemma_backward_walk_closed(g, target@, vs, via@, head as int);
                        lemma_walk_push(g, false, target@, vs, levels, head as int, e as int);
                        levels = levels.push(levels[head as int] + 1);
                    }
                    visited.push(parent);
                    via.push(e);
                    let ghost ws = hashes_view(visited@);
                    assert(ws =~= vs.push(parent@));
                    assert(walk_levels(g, false, target@, ws, levels, head as int));
                    assert(ws.no_duplicates()) by {
                        assert forall|a: int, b: int| 0 <= a < ws.len() && 0 <= b < ws.len() && a != b implies ws[a]
                            != ws[b] by {
                            if a == vs.len() {
                                assert(!holds_hash(vs, ws[a]));
                                assert(ws[b] == vs[b]);
                            } else if b == vs.len() {
                                assert(!holds_hash(vs, ws[b]));
                                assert(ws[a] == vs[a]);
                            }
                        }
                    }
                    proof {
                        lemma_walk_bound(g, ws, via@, false);
                        assert forall|i: int|
                            0 <= i < g.len() && advances(g[i]) && holds_hash(ws.take(head as int), #[trigger] g[i].child)
                                implies holds_hash(ws, g[i].parent) by {
                            assert(ws.take(head as int) =~= vs.take(head as int));
                            let k = choose|k: int| 0 <= k < vs.len() && #[trigger] vs[k] == g[i].parent;
                            assert(ws[k] == vs[k]);
                        }
                        assert forall|i: int|
                            0 <= i < e + 1 && advances(g[i]) && #[trigger] g[i].child == node@ implies holds_hash(
                                ws,
                                g[i].parent,
                            ) by {
                            if i == e {
                                assert(ws[vs.len() as int] == g[i].parent);
                            } else {
                                let k = choose|k: int| 0 <= k < vs.len() && #[trigger] vs[k] == g[i].parent;
                                assert(ws[k] == vs[k]);
                            }
                        }
                        assert forall|k: int| 0 <= k < ws.len() implies reachable(g, #[trigger] ws[k], target@) by {
                            if k < vs.len() {
                                assert(ws[k] == vs[k]);
                            }
                        }
                        assert forall|k: int| 1 <= k < ws.len() implies (#[trigger] via@[k]) < g.len() && advances(
                            g[via@[k] as int],
                        ) && g[via@[k] as int].parent == ws[k] by {
                            if k < vs.len() {
                                assert(via@[k] == old_via[k]);
                                assert(ws[k] == vs[k]);
                            }
                        }
                    }
                }
            }
            e += 1;
        }
        proof {
            let vs = hashes_view(visited@);
            assert forall|i: int|
                0 <= i < g.len() && advances(g[i]) && holds_hash(vs.take(head + 1), #[trigger] g[i].child) implies holds_hash(
                vs,
                g[i].parent,
            ) by {
                let k = choose|k: int| 0 <= k < vs.take(head + 1).len() && #[trigger] vs.take(head + 1)[k] == g[i].child;
                if k < head {
                    assert(vs.take(head as int)[k] == g[i].child);
                } else {
                    assert(g[i].child == node@);
                }
            }
            lemma_walk_advance(g, false, target@, vs, levels, head as int);
        }
        Ghost(levels)
    }

    /// Every hash `hash` descends from, `hash` itself included.
    fn ancestry(&self, hash: &ContentHash) -> (r: Vec<ContentHash>)
        ensures
            holds_hash(hashes_view(r@), hash@),
            backward_closed(self@, hashes_view(r@)),
            forall|k: int| 0 <= k < r@.len() ==> reachable(self@, #[trigger] hashes_view(r@)[k], hash@),
    {
        let ghost g = self@;
        let mut visited: Vec<ContentHash> = Vec::new();
        visited.push(*hash);
        let mut via: Vec<usize> = Vec::new();
        via.push(0);
        proof {
            let vs = hashes_view(visited@);
            assert(is_chain(g, hash@, hash@, Seq::empty()));
            assert(vs.take(0) =~= Seq::<Seq<u8>>::empty());
            assert(backward_walk(g, hash@, vs, via@, 0));
        }
        let ghost mut levels: Seq<nat> = seq![0nat];
        proof {
            lemma_walk_start(g, false, hash@);
            assert(hashes_view(visited@) =~= seq![hash@]);
        }
        let mut head: usize = 0;
        while head < visited.len()
            invariant
                g == self@,
                backward_walk(g, hash@, hashes_view(visited@), via@, head as int),
                walk_levels(g, false, hash@, hashes_view(visited@), levels, head as int),
            decreases g.len() + 1 - head,
        {
            let next = self.enqueue_parents(head, &mut visited, &mut via, Ghost(hash@), Ghost(levels));
            proof {
                levels = next@;
            }
            head += 1;
        }
        proof {
            let vs = hashes_view(visited@);
            assert(vs.take(head as int) =~= vs);
            assert(vs[0] == hash@);
        }
        visited
    }

    /// The nearest hash from which both `left` and `right` descend, walking
    /// `right`'s ancestry nearest-first, or `None` when they share no
    /// ancestor.
    pub fn common_ancestor(&self, left: &ContentHash, right: &ContentHash) -> (r: Option<ContentHash>)
        ensures
            r matches Some(a) ==> reachable(self@, a@, left@) && reachable(self@, a@, right@),
            r matches Some(a) ==> forall|x: Seq<u8>, c: Seq<ReceiptModel>|
                reachable(self@, x, left@) && #[trigger] is_chain(self@, x, right@, c) ==> within(
                    self@,
                    a@,
                    right@,
                    c.len(),
                ),
            r is None ==> forall|x: Seq<u8>| !(#[trigger] reachable(self@, x, left@) && reachable(self@, x, right@)),
    {
        let ghost g = self@;
        let left_ancestry = self.ancestry(left);
        let ghost la = hashes_view(left_ancestry@);
        let mut visited: Vec<ContentHash> = Vec::new();
        visited.push(*right);
        let mut via: Vec<usize> = Vec::new();
        via.push(0);
        proof {
            let vs = hashes_view(visited@);
            assert(is_chain(g, right@, right@, Seq::empty()));
            assert(vs.take(0) =~= Seq::<Seq<u8>>::empty());
            assert(backward_walk(g, right@, vs, via@, 0));
        }
        let ghost mut levels: Seq<nat> = seq![0nat];
        proof {
            lemma_walk_start(g, false, right@);
            assert(hashes_view(visited@) =~= seq![right@]);
        }
        let mut head: usize = 0;
        while head < visited.len()
            invariant
                g == self@,
                la == hashes_view(left_ancestry@),
                holds_hash(la, left@),
                backward_closed(g, la),
                backward_walk(g, right@, hashes_view(visited@), via@, head as int),
                walk_levels(g, false, right@, hashes_view(visited@), levels, head as int),
                forall|k: int| 0 <= k < head ==> !holds_hash(la, #[trigger] hashes_view(visited@)[k]),
                forall|k: int| 0 <= k < left_ancestry@.len() ==> reachable(g, #[trigger] la[k], left@),
            decreases g.len() + 1 - head,
        {
            let node = visited[head];
            if contains_hash(&left_ancestry, &node) {
                proof {
                    let vs = hashes_view(visited@);
                    let k = choose|k: int| 0 <= k < la.len() && #[trigger] la[k] == node@;
                    assert(vs[head as int] == node@);
                    lemma_backward_walk_closed(g, right@, vs, via@, head as int);
                    assert(walk_of_length(g, false, right@, vs[head as int], levels[head as int]));
                    assert forall|x: Seq<u8>, c: Seq<ReceiptModel>|
                        reachable(g, x, left@) && #[trigger] is_chain(g, x, right@, c) implies within(
                        g,
                        node@,
                        right@,
                        c.len(),
                    ) by {
                        let d = choose|d: Seq<ReceiptModel>| #[trigger]
                            walk_chain(g, false, right@, vs[head as int], d) && d.len() == levels[head as int];
                        assert(is_chain(g, node@, right@, d));
                        if c.len() < levels[head as int] {
                            assert(walk_chain(g, false, right@, x, c));
                            lemma_walk_near(g, false, right@, vs, levels, head as int, x, c);
                            let t = choose|t: int| 0 <= t < head && vs[t] == x;
                            let cl = choose|cl: Seq<ReceiptModel>| is_chain(g, x, left@, cl);
                            lemma_chain_stays_backward(g, la, x, left@, cl);
                            assert(!holds_hash(la, vs[t]));
                        }
                    }
                }
                return Some(node);
            }
            let ghost before = hashes_view(visited@);
            let next = self.enqueue_parents(head, &mut visited, &mut via, Ghost(right@), Ghost(levels));
            proof {
                levels = next@;
            }
            assert forall|k: int| 0 <= k < head + 1 implies !holds_hash(la, #[trigger] hashes_view(visited@)[k]) by {
                assert(hashes_view(visited@)[k] == before[k]);
            }
            head += 1;
        }
        proof {
            let vs = hashes_view(visited@);
            assert(vs.take(head as int) =~= vs);
            assert forall|x: Seq<u8>| !(#[trigger] reachable(g, x, left@) && reachable(g, x, right@)) by {
                if reachable(g, x, left@) && reachable(g, x, right@) {
                    let cl = choose|c: Seq<ReceiptModel>| is_chain(g, x, left@, c);
                    let cr = choose|c: Seq<ReceiptModel>| is_chain(g, x, right@, c);
                    assert(holds_hash(vs, right@)) by {
                        assert(vs[0] == right@);
                    }
                    lemma_chain_stays_backward(g, vs, x, right@, cr);
                    lemma_chain_stays_backward(g, la, x, left@, cl);
                    let k = choose|k: int| 0 <= k < vs.len() && #[trigger] vs[k] == x;
                    assert(!holds_hash(la, vs[k]));
                }
            }
        }
        None
    }
}


/// Whether each walked hash lies one level beyond the hash it was reached
/// from, the source at level zero.
pub open spec fn parent_levels(lvl: Seq<nat>, parent: Seq<usize>) -> bool {
    &&& lvl.len() == parent.len()
    &&& lvl.len() >= 1
    &&& lvl[0] == 0
    &&& forall|k: int| 1 <= k < lvl.len() ==> #[trigger] lvl[k] == lvl[parent[k] as int] + 1
}

impl LineageGraph {
    /// The chain of edges from `vs[0]` to `vs[last]`, following the
    /// remembered reaching edges backward from `last`.
    fn reconstruct_chain(
        &self,
        visited: &Vec<ContentHash>,
        reach: &Vec<usize>,
        parent: &Vec<usize>,
        last: usize,
        lvl: Ghost<Seq<nat>>,
    ) -> (r: Vec<&SchemaEditReceipt>)
        requires
            forward_walk(self@, hashes_view(visited@)[0], hashes_view(visited@), reach@, parent@, 0),
            (last as int) < visited@.len(),
            parent_levels(lvl@, parent@),
        ensures
            is_chain(self@, hashes_view(visited@)[0], hashes_view(visited@)[last as int], chain_view(r@)),
            chain_view(r@).len() == lvl@[last as int],
    {
        let ghost g = self@;
        let ghost vs = hashes_view(visited@);
        let mut chain: Vec<&SchemaEditReceipt> = Vec::new();
        let mut k: usize = last;
        assert(chain_view(chain@).len() == 0);
        assert(is_chain(g, vs[last as int], vs[last as int], chain_view(chain@))) by {
            assert(chain_view(chain@) =~= Seq::<ReceiptModel>::empty());
        }
        while k != 0
            invariant
                g == self@,
                g == receipts_view(self.edges@),
                vs == hashes_view(visited@),
                forward_walk(g, vs[0], vs, reach@, parent@, 0),
                (k as int) < vs.len(),
                (last as int) < vs.len(),
                is_chain(g, vs[k as int], vs[last as int], chain_view(chain@)),
                parent_levels(lvl@, parent@),
                chain_view(chain@).len() + lvl@[k as int] == lvl@[last as int],
            decreases k,
        {
            let e = reach[k];
            let edge = &self.edges[e];
            assert(edge@ == g[e as int]);
            let ghost before = chain_view(chain@);
            proof {
                assert(holds_edge(g, g[e as int]));
                lemma_chain_prepend(g, g[e as int], vs[last as int], before);
            }
            chain.insert(0, edge);
            assert(chain_view(chain@) =~= seq![g[e as int]] + before);
            k = parent[k];
        }
        chain
    }

    /// The receipts along the conversion path from core hash `from` to core
    /// hash `to`, in application order, or `None` when no path of structural
    /// edges connects them; the empty chain when they are equal.
    pub fn conversion_chain(&self, from: &ContentHash, to: &ContentHash) -> (r: Option<Vec<&SchemaEditReceipt>>)
        ensures
            r is Some <==> reachable(self@, from@, to@),
            r matches Some(c) ==> is_chain(self@, from@, to@, chain_view(c@)),
            r matches Some(c) ==> forall|d: Seq<ReceiptModel>| #[trigger]
                is_chain(self@, from@, to@, d) ==> chain_view(c@).len() <= d.len(),
    {
        let ghost g = self@;
        if from.same(to) {
            let chain: Vec<&SchemaEditReceipt> = Vec::new();
            assert(chain_view(chain@) =~= Seq::<ReceiptModel>::empty());
            assert(is_chain(g, from@, to@, chain_view(chain@)));
            return Some(chain);
        }
        let mut visited: Vec<ContentHash> = Vec::new();
        visited.push(*from);
        let mut reach: Vec<usize> = Vec::new();
        reach.push(0);
        let mut parent: Vec<usize> = Vec::new();
        parent.push(0);
        proof {
            let vs = hashes_view(visited@);
            assert(vs.take(0) =~= Seq::<Seq<u8>>::empty());
            assert(vs[0] == from@);
            assert(forward_walk(g, from@, vs, reach@, parent@, 0));
        }
        let ghost mut levels: Seq<nat> = seq![0nat];
        proof {
            lemma_walk_start(g, true, from@);
            assert(hashes_view(visited@) =~= seq![from@]);
        }
        let mut head: usize = 0;
        while head < visited.len()
            invariant
                g == self@,
                g == receipts_view(self.edges@),
                from@ != to@,
                forward_walk(g, from@, hashes_view(visited@), reach@, parent@, head as int),
                walk_levels(g, true, from@, hashes_view(visited@), levels, head as int),
                parent_levels(levels, parent@),
                !holds_hash(hashes_view(visited@), to@),
            decreases g.len() + 1 - head,
        {
            let node = visited[head];
            let ghost start = hashes_view(visited@);
            let mut e: usize = 0;
            while e < self.edges.len()
                invariant
                    g == self@,
                    g == receipts_view(self.edges@),
                    e <= g.len(),
                    (head as int) < visited@.len(),
                    from@ != to@,
                    start.len() <= visited@.len(),
                    forall|k: int| 0 <= k < start.len() ==> #[trigger] hashes_view(visited@)[k] == start[k],
                    node@ == hashes_view(visited@)[head as int],
                    forward_walk(g, from@, hashes_view(visited@), reach@, parent@, head as int),
                    walk_levels(g, true, from@, hashes_view(visited@), levels, head as int),
                    parent_levels(levels, parent@),
                    !holds_hash(hashes_view(visited@), to@),
                    forall|i: int|
                        0 <= i < e && advances(g[i]) && #[trigger] g[i].parent == node@ ==> holds_hash(
                            hashes_view(visited@),
                            g[i].child,
                        ),
                decreases self.edges.len() - e,
            {
                assert(g[e as int] == self.edges@[e as int]@);
                if self.edges[e].advances_from(&node) {
                    let child = self.edges[e].child_core_hash;
                    if !contains_hash(&visited, &child) {
                        let ghost vs = hashes_view(visited@);
                        let ghost old_reach = reach@;
                        let ghost old_parent = parent@;
                        let ghost old_levels = levels;
                        proof {
                            lemma_forward_walk_closed(g, from@, vs, reach@, parent@, head as int);
                            lemma_walk_push(g, true, from@, vs, levels, head as int, e as int);
                            levels = levels.push(levels[head as int] + 1);
                        }
                        visited.push(child);
                        reach.push(e);
                        parent.push(head);
                        let ghost ws = hashes_view(visited@);
                        assert(ws =~= vs.push(child@));
                        assert(ws.no_duplicates()) by {
                            assert forall|a: int, b: int| 0 <= a < ws.len() && 0 <= b < ws.len() && a != b implies ws[a]
                                != ws[b] by {
                                if a == vs.len() {
                                    assert(!holds_hash(vs, ws[a]));
                                    assert(ws[b] == vs[b]);
                                } else if b == vs.len() {
                                    assert(!holds_hash(vs, ws[b]));
                                    assert(ws[a] == vs[a]);
                                }
                            }
                        }
                        proof {
                            assert forall|k: int| 1 <= k < ws.len() implies (#[trigger] reach@[k]) < g.len() && advances(
                                g[reach@[k] as int],
                            ) && g[reach@[k] as int].child == ws[k] && parent@[k] < k && g[reach@[k] as int].parent
                                == ws[parent@[k] as int] by {
                                if k < vs.len() {
                                    assert(reach@[k] == old_reach[k]);
                                    assert(parent@[k] == old_parent[k]);
                                    assert(ws[k] == vs[k]);
                                    assert(ws[parent@[k] as int] == vs[parent@[k] as int]);
                                } else {
                                    assert(ws[head as int] == vs[head as int]);
                                }
                            }
                            lemma_walk_bound(g, ws, reach@, true);
                            assert forall|i: int|
                                0 <= i < g.len() && advances(g[i]) && holds_hash(ws.take(head as int), #[trigger] g[i].parent)
                                    implies holds_hash(ws, g[i].child) by {
                                assert(ws.take(head as int) =~= vs.take(head as int));
                                let k = choose|k: int| 0 <= k < vs.len() && #[trigger] vs[k] == g[i].child;
                                assert(ws[k] == vs[k]);
                            }
                            assert forall|i: int|
                                0 <= i < e + 1 && advances(g[i]) && #[trigger] g[i].parent == node@ implies holds_hash(
                                    ws,
                                    g[i].child,
                                ) by {
                                if i == e {
                                    assert(ws[vs.len() as int] == g[i].child);
                                } else {
                                    let k = choose|k: int| 0 <= k < vs.len() && #[trigger] vs[k] == g[i].child;
                                    assert(ws[k] == vs[k]);
                                }
                            }
                            assert(forward_walk(g, from@, ws, reach@, parent@, head as int));
                            assert(walk_levels(g, true, from@, ws, levels, head as int));
                            assert forall|k: int| 1 <= k < levels.len() implies #[trigger] levels[k] == levels[parent@[k] as int]
                                + 1 by {
                                if k < vs.len() {
                                    assert(levels[k] == old_levels[k]);
                                    assert(parent@[k] == old_parent[k]);
                                    assert(reach@[k] < g.len());
                                    assert(parent@[k] < k);
                                    assert(levels[parent@[k] as int] == old_levels[parent@[k] as int]);
                                } else {
                                    assert(levels[head as int] == old_levels[head as int]);
                                }
                            }
                            assert(parent_levels(levels, parent@));
                            assert(forward_walk(g, ws[0], ws, reach@, parent@, 0)) by {
                                assert(ws.take(0) =~= Seq::<Seq<u8>>::empty());
                            }
                        }
                        if child.same(to) {
                            let chain = self.reconstruct_chain(&visited, &reach, &parent, visited.len() - 1, Ghost(levels));
                            assert(ws[ws.len() - 1] == to@);
                            assert forall|d: Seq<ReceiptModel>| #[trigger] is_chain(g, from@, to@, d) implies chain_view(
                                chain@,
                            ).len() <= d.len() by {
                                assert(walk_chain(g, true, from@, ws[ws.len() - 1], d));
                            }
                            return Some(chain);
                        }
                        assert(!holds_hash(ws, to@)) by {
                            if holds_hash(ws, to@) {
                                let k = choose|k: int| 0 <= k < ws.len() && #[trigger] ws[k] == to@;
                                if k < vs.len() {
                                    assert(vs[k] == to@);
                                }
                            }
                        }
                    }
                }
                e += 1;
            }
            proof {
                let vs = hashes_view(visited@);
                assert forall|i: int|
                    0 <= i < g.len() && advances(g[i]) && holds_hash(vs.take(head + 1), #[trigger] g[i].parent)
                        implies holds_hash(vs, g[i].child) by {
                    let k = choose|k: int| 0 <= k < vs.take(head + 1).len() && #[trigger] vs.take(head + 1)[k] == g[i].parent;
                    if k < head {
                        assert(vs.take(head as int)[k] == g[i].parent);
                    } else {
                        assert(g[i].parent == node@);
                    }
                }
                lemma_walk_advance(g, true, from@, vs, levels, head as int);
            }
            head += 1;
        }
        proof {
            let vs = hashes_view(visited@);
            assert(vs.take(head as int) =~= vs);
            if reachable(g, from@, to@) {
                let c = choose|c: Seq<ReceiptModel>| is_chain(g, from@, to@, c);
                assert(holds_hash(vs, from@)) by {
                    assert(vs[0] == from@);
                }
                lemma_chain_stays_forward(g, vs, from@, to@, c);
            }
        }
        None
    }
}

} // verus!
