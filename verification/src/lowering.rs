//! Name resolution for lowering source declarations: a name written without
//! a namespace, inside namespace `a:b`, names `a:b:N` when that is declared,
//! else `a:N` when that is declared, else `N` itself; a reference resolves
//! every name it carries that way.

use crate::name::{names_view, split_colon, Name};
use crate::reference::{from_name_view, HeadModel, ReferenceModel, TypeReference};
use crate::source_reference::{lowered_view, SourceModel};
use crate::text::{join, join_seq, owned, views_of};
use vstd::prelude::*;

verus! {

/// A namespace option as a plain value.
pub open spec fn namespace_view(ns: Option<&Name>) -> Option<Seq<char>> {
    match ns {
        Some(n) => Some(n@),
        None => None,
    }
}

/// `name` under the first `count` segments of a namespace.
pub open spec fn scoped_seq(segments: Seq<Seq<char>>, count: int, name: Seq<char>) -> Seq<char> {
    join_seq(segments.take(count), seq![':']) + seq![':'] + name
}

/// The deepest scoping of `name` under the first `count` segments, or fewer,
/// that names a declared type.
pub open spec fn deepest_scoped(
    names: Seq<Seq<char>>,
    segments: Seq<Seq<char>>,
    count: nat,
    name: Seq<char>,
) -> Option<Seq<char>>
    decreases count,
{
    if count == 0 {
        None
    } else if names.contains(scoped_seq(segments, count as int, name)) {
        Some(scoped_seq(segments, count as int, name))
    } else {
        deepest_scoped(names, segments, (count - 1) as nat, name)
    }
}

/// The name `name` denotes inside namespace `ns`, given the declared `names`:
/// a name with a namespace as written; else its deepest declared scoping
/// under `ns`; else the name itself.
pub open spec fn visible_seq(names: Seq<Seq<char>>, ns: Option<Seq<char>>, name: Seq<char>) -> Seq<char> {
    if name.contains(':') {
        name
    } else {
        match ns {
            Some(s) => match deepest_scoped(names, split_colon(s), split_colon(s).len(), name) {
                Some(c) => c,
                None => name,
            },
            None => name,
        }
    }
}

/// The reference a name resolves to: a scalar for a reserved scalar name,
/// else the visible name.
pub open spec fn resolve_name_seq(names: Seq<Seq<char>>, ns: Option<Seq<char>>, name: Seq<char>) -> ReferenceModel {
    from_name_view(visible_seq(names, ns, name))
}

/// The reference a source reference resolves to: each name resolved, a
/// value application lowered as written, a user application's head made
/// visible and local.
pub open spec fn resolve_source(names: Seq<Seq<char>>, ns: Option<Seq<char>>, m: SourceModel) -> ReferenceModel
    decreases m,
{
    match m {
        SourceModel::Plain(n) => resolve_name_seq(names, ns, n),
        SourceModel::Value(..) => lowered_view(m),
        SourceModel::Single(_, p, _, a) => ReferenceModel::Single(p, Box::new(resolve_source(names, ns, *a))),
        SourceModel::Multi(_, p, _, args) => ReferenceModel::Multi(p, resolve_sources(names, ns, args)),
        SourceModel::Application(h, args) => ReferenceModel::Application(
            HeadModel::Local(visible_seq(names, ns, h)),
            resolve_sources(names, ns, args),
        ),
    }
}

/// Each of a list of source references resolved.
pub open spec fn resolve_sources(names: Seq<Seq<char>>, ns: Option<Seq<char>>, args: Seq<SourceModel>) -> Seq<
    ReferenceModel,
>
    decreases args,
{
    Seq::new(
        args.len(),
        |i: int|
            if 0 <= i < args.len() {
                resolve_source(names, ns, args[i])
            } else {
                ReferenceModel::String
            },
    )
}

/// The declared type names that lowering resolves against.
pub struct SourceTypeResolver {
    names: Vec<Name>,
}

impl View for SourceTypeResolver {
    type V = Seq<Seq<char>>;

    closed spec fn view(&self) -> Seq<Seq<char>> {
        names_view(self.names@)
    }
}

impl SourceTypeResolver {
    /// A resolver over the given declared names.
    pub fn new(names: Vec<Name>) -> (r: Self)
        ensures
            r@ == names_view(names@),
    {
        SourceTypeResolver { names }
    }

    /// A resolver that knows no declared names: every unscoped name stays as
    /// written.
    pub fn explicit_only() -> (r: Self)
        ensures
            r@ == Seq::<Seq<char>>::empty(),
    {
        let r = SourceTypeResolver { names: Vec::new() };
        assert(names_view(r.names@) =~= Seq::<Seq<char>>::empty());
        r
    }

    /// Whether `text` is one of the declared names.
    pub fn contains(&self, text: &str) -> (r: bool)
        ensures
            r == self@.contains(text@),
    {
        let mut i: usize = 0;
        while i < self.names.len()
            invariant
                i <= self.names@.len(),
                self@ == names_view(self.names@),
                forall|j: int| 0 <= j < i ==> self@[j] != text@,
            decreases self.names.len() - i,
        {
            if self.names[i].is(text) {
                assert(self@[i as int] == text@);
                return true;
            }
            i += 1;
        }
        assert(!self@.contains(text@)) by {
            if self@.contains(text@) {
                let k = choose|k: int| 0 <= k < self@.len() && self@[k] == text@;
                assert(self@[k] != text@);
            }
        }
        false
    }

    /// The name `name` denotes inside namespace `ns`.
    pub fn visible_name(&self, ns: Option<&Name>, name: &Name) -> (r: Name)
        ensures
            r@ == visible_seq(self@, namespace_view(ns), name@),
    {
        if name.has_namespace() {
            return name.duplicate();
        }
        assert(!name@.contains(':'));
        match ns {
            None => name.duplicate(),
            Some(s) => {
                let segments = s.namespace_segments();
                let ghost segs = split_colon(s@);
                assert(namespace_view(ns) == Some(s@));
                let mut count: usize = segments.len();
                while count > 0
                    invariant
                        count <= segments@.len(),
                        segments@.len() == segs.len(),
                        segs == split_colon(s@),
                        namespace_view(ns) == Some(s@),
                        !name@.contains(':'),
                        forall|i: int| 0 <= i < segments@.len() ==> (#[trigger] segments@[i])@ == segs[i],
                        deepest_scoped(self@, segs, segs.len(), name@) == deepest_scoped(
                            self@,
                            segs,
                            count as nat,
                            name@,
                        ),
                    decreases count,
                {
                    let mut prefix: Vec<String> = Vec::new();
                    let mut k: usize = 0;
                    while k < count
                        invariant
                            k <= count,
                            count <= segments@.len(),
                            segments@.len() == segs.len(),
                            forall|i: int| 0 <= i < segments@.len() ==> (#[trigger] segments@[i])@ == segs[i],
                            views_of(prefix@) == segs.take(k as int),
                        decreases count - k,
                    {
                        let ghost before = prefix@;
                        prefix.push(owned(segments[k]));
                        proof {
                            crate::text::lemma_views_of_push(before, prefix@.last());
                            assert(prefix@ == before.push(prefix@.last()));
                            assert(segs.take(k + 1) =~= segs.take(k as int).push(segs[k as int]));
                        }
                        k += 1;
                    }
                    let mut candidate = join(&prefix, ":");
                    candidate.append(":");
                    candidate.append(name.as_str());
                    proof {
                        reveal_strlit(":");
                        assert(":"@ =~= seq![':']);
                        assert(candidate@ == scoped_seq(segs, count as int, name@));
                    }
                    if self.contains(candidate.as_str()) {
                        proof {
                            assert(deepest_scoped(self@, segs, count as nat, name@) == Some(candidate@));
                            assert(namespace_view(ns) == Some(s@));
                        }
                        return Name::from_string(candidate);
                    }
                    count -= 1;
                }
                proof {
                    assert(deepest_scoped(self@, segs, 0, name@) is None);
                    assert(namespace_view(ns) == Some(s@));
                }
                name.duplicate()
            },
        }
    }

    /// The reference a name resolves to inside namespace `ns`.
    pub fn resolve_name(&self, ns: Option<&Name>, name: &Name) -> (r: TypeReference)
        ensures
            crate::reference::reference_view(r) == resolve_name_seq(self@, namespace_view(ns), name@),
    {
        TypeReference::from_name(self.visible_name(ns, name))
    }
}

} // verus!
