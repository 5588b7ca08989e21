//! Expansion of the resource paths a model's entity container spawns: each
//! entity set and singleton, the keyed instance of an entity set, and the
//! navigation paths reachable from them, with a bound on the number of key
//! segments a path may carry.

use vstd::prelude::*;

use crate::edm::{
    key_path_to_string, navigation_at, spec_key_path_string, EntityContainerElement, Model,
};
use crate::text::{clone_strings, concat3, lemma_strs_push, owned, strs};

verus! {

/// A path spawned from the entity container: its segments, the entity type
/// (an index into [`Model::entity_types`]) it ends at, and whether it
/// addresses a collection.
#[derive(Debug, Clone)]
pub struct SpawnedPath {
    pub segments: Vec<String>,
    pub terminal_type: usize,
    pub is_collection: bool,
}

/// A [`SpawnedPath`] as a value.
pub struct SpawnedPathView {
    pub segments: Seq<Seq<char>>,
    pub terminal_type: usize,
    pub is_collection: bool,
}

impl View for SpawnedPath {
    type V = SpawnedPathView;

    open spec fn view(&self) -> SpawnedPathView {
        SpawnedPathView {
            segments: strs(self.segments@),
            terminal_type: self.terminal_type,
            is_collection: self.is_collection,
        }
    }
}

pub open spec fn spawned_views(v: Seq<SpawnedPath>) -> Seq<SpawnedPathView> {
    v.map_values(|p: SpawnedPath| p@)
}

/// Expands the paths of a model, allowing fewer than `max_key_segments` key
/// segments in a path.
pub struct PathExpander {
    max_key_segments: usize,
}

// ---------------------------------------------------------------------------
// Specification
// ---------------------------------------------------------------------------

/// The key segment `{Key}` of an entity type: its first key path in braces,
/// if it has a key.
pub open spec fn key_segment(m: Model, target: usize) -> Option<Seq<char>> {
    if target < m.entity_types@.len() && m.entity_types@[target as int].keys@.len() > 0 {
        Some(
            "{"@ + spec_key_path_string(m.entity_types@[target as int].keys@[0]@, m) + "}"@,
        )
    } else {
        None
    }
}

/// A collection path followed by the target's key segment, where the bound
/// allows one more: the segments, the key segments used, whether the key was
/// added, and whether the path may be followed further.
pub open spec fn spec_expand_collection(
    m: Model,
    segs: Seq<Seq<char>>,
    target: usize,
    ks: nat,
    max: nat,
) -> (Seq<Seq<char>>, nat, bool, bool) {
    match key_segment(m, target) {
        Some(k) => if ks + 1 < max {
            (segs.push(k), ks + 1, true, true)
        } else {
            (segs, ks, false, false)
        },
        None => (segs, ks, false, false),
    }
}

/// The effective navigation properties of an entity type of `m`.
pub open spec fn entity_navs(m: Model, entity: usize) -> Seq<crate::edm::MemberRef> {
    if entity < m.entity_types@.len() {
        m.entity_types@[entity as int].navigation_properties@
    } else {
        Seq::empty()
    }
}

/// The paths spawned by the navigation properties of `entity` from the
/// `j`-th on, depth first: each navigation's path, then the paths below it,
/// then those of the next navigation. `None` when following them takes more
/// than `fuel` levels.
pub open spec fn nav_paths(
    m: Model,
    max: nat,
    entity: usize,
    segs: Seq<Seq<char>>,
    ks: nat,
    j: nat,
    fuel: nat,
) -> Option<Seq<SpawnedPathView>>
    decreases fuel, entity_navs(m, entity).len() - j,
{
    let navs = entity_navs(m, entity);
    if j >= navs.len() {
        Some(Seq::empty())
    } else {
        let rest = nav_paths(m, max, entity, segs, ks, j + 1, fuel);
        match navigation_at(m, navs[j as int]) {
            None => rest,
            Some(nav) => if nav.target >= m.entity_types@.len() {
                rest
            } else {
                let segs1 = segs.push(nav.name@);
                let e = spec_expand_collection(m, segs1, nav.target, ks, max);
                let segs2 = if nav.is_collection {
                    e.0
                } else {
                    segs1
                };
                let ks2 = if nav.is_collection {
                    e.1
                } else {
                    ks
                };
                let can = if nav.is_collection {
                    e.3
                } else {
                    true
                };
                let here = SpawnedPathView {
                    segments: segs2,
                    terminal_type: nav.target,
                    is_collection: nav.is_collection && !e.2,
                };
                let sub = if can && ks2 < max {
                    if fuel == 0 {
                        None
                    } else {
                        nav_paths(m, max, nav.target, segs2, ks2, 0, (fuel - 1) as nat)
                    }
                } else {
                    Some(Seq::empty())
                };
                match (sub, rest) {
                    (Some(a), Some(b)) => Some(seq![here] + a + b),
                    _ => None,
                }
            },
        }
    }
}

/// The paths spawned by container element `i`: an entity set, its keyed
/// instance and what lies below it; a singleton and what lies below it;
/// nothing for an import.
pub open spec fn root_paths(m: Model, max: nat, e: EntityContainerElement, fuel: nat) -> Option<
    Seq<SpawnedPathView>,
> {
    match e {
        EntityContainerElement::EntitySet(es) => {
            let root = seq![es.name@];
            let p0 = SpawnedPathView { segments: root, terminal_type: es.target, is_collection: true };
            let x = spec_expand_collection(m, root, es.target, 0, max);
            if x.2 {
                let p1 = SpawnedPathView {
                    segments: x.0,
                    terminal_type: es.target,
                    is_collection: false,
                };
                match nav_paths(m, max, es.target, x.0, x.1, 0, fuel) {
                    Some(s) => Some(seq![p0, p1] + s),
                    None => None,
                }
            } else {
                Some(seq![p0])
            }
        },
        EntityContainerElement::Singleton(s) => {
            let root = seq![s.name@];
            let p0 = SpawnedPathView { segments: root, terminal_type: s.target, is_collection: false };
            match nav_paths(m, max, s.target, root, 0, 0, fuel) {
                Some(t) => Some(seq![p0] + t),
                None => None,
            }
        },
        _ => Some(Seq::empty()),
    }
}

/// The paths spawned by the container elements from the `i`-th on.
pub open spec fn paths_from(m: Model, max: nat, i: nat, fuel: nat) -> Option<Seq<SpawnedPathView>>
    decreases
            match m.entity_container {
                Some(c) => c.elements@.len(),
                None => 0,
            } - i,
{
    match m.entity_container {
        Some(c) => if i >= c.elements@.len() {
            Some(Seq::empty())
        } else {
            match (root_paths(m, max, c.elements@[i as int], fuel), paths_from(m, max, i + 1, fuel)) {
                (Some(a), Some(b)) => Some(a + b),
                _ => None,
            }
        },
        None => Some(Seq::empty()),
    }
}

/// Following navigation properties from the container ends within a number
/// of levels that a `usize` counts: chains of single-valued navigation
/// properties that return to a type already visited are followed without
/// bound, so a model with such a cycle spawns no finite list of paths.
pub open spec fn expansion_ends(m: Model, max: nat) -> bool {
    exists|fuel: usize| #[trigger] paths_from(m, max, 0, fuel as nat) is Some
}

/// The paths a model spawns, where the expansion ends.
pub open spec fn spawned_paths(m: Model, max: nat) -> Seq<SpawnedPathView> {
    let fuel = choose|fuel: usize| #[trigger] paths_from(m, max, 0, fuel as nat) is Some;
    paths_from(m, max, 0, fuel as nat)->0
}

/// More levels give the same paths, once the expansion fits.
pub proof fn lemma_nav_paths_fuel(
    m: Model,
    max: nat,
    entity: usize,
    segs: Seq<Seq<char>>,
    ks: nat,
    j: nat,
    f: nat,
    g: nat,
)
    requires
        nav_paths(m, max, entity, segs, ks, j, f) is Some,
        f <= g,
    ensures
        nav_paths(m, max, entity, segs, ks, j, g) == nav_paths(m, max, entity, segs, ks, j, f),
    decreases f, entity_navs(m, entity).len() - j,
{
    let navs = entity_navs(m, entity);
    if j < navs.len() {
        lemma_nav_paths_fuel(m, max, entity, segs, ks, j + 1, f, g);
        match navigation_at(m, navs[j as int]) {
            None => {},
            Some(nav) => if nav.target < m.entity_types@.len() {
                let segs1 = segs.push(nav.name@);
                let e = spec_expand_collection(m, segs1, nav.target, ks, max);
                let segs2 = if nav.is_collection { e.0 } else { segs1 };
                let ks2 = if nav.is_collection { e.1 } else { ks };
                let can = if nav.is_collection { e.3 } else { true };
                if can && ks2 < max {
                    lemma_nav_paths_fuel(m, max, nav.target, segs2, ks2, 0, (f - 1) as nat, (g - 1) as nat);
                }
            },
        }
    }
}

pub proof fn lemma_root_paths_fuel(m: Model, max: nat, e: EntityContainerElement, f: nat, g: nat)
    requires
        root_paths(m, max, e, f) is Some,
        f <= g,
    ensures
        root_paths(m, max, e, g) == root_paths(m, max, e, f),
{
    match e {
        EntityContainerElement::EntitySet(es) => {
            let x = spec_expand_collection(m, seq![es.name@], es.target, 0, max);
            if x.2 {
                lemma_nav_paths_fuel(m, max, es.target, x.0, x.1, 0, f, g);
            }
        },
        EntityContainerElement::Singleton(s) => {
            lemma_nav_paths_fuel(m, max, s.target, seq![s.name@], 0, 0, f, g);
        },
        _ => {},
    }
}

pub proof fn lemma_paths_from_fuel(m: Model, max: nat, i: nat, f: nat, g: nat)
    requires
        paths_from(m, max, i, f) is Some,
        f <= g,
    ensures
        paths_from(m, max, i, g) == paths_from(m, max, i, f),
    decreases
            match m.entity_container {
                Some(c) => c.elements@.len(),
                None => 0,
            } - i,
{
    if let Some(c) = m.entity_container {
        if i < c.elements@.len() {
            lemma_root_paths_fuel(m, max, c.elements@[i as int], f, g);
            lemma_paths_from_fuel(m, max, i + 1, f, g);
        }
    }
}

/// Where the expansion ends, the most levels a `usize` counts give the
/// paths it spawns.
pub proof fn lemma_spawned_paths(m: Model, max: nat)
    requires
        expansion_ends(m, max),
    ensures
        paths_from(m, max, 0, usize::MAX as nat) == Some(spawned_paths(m, max)),
{
    let f = choose|fuel: usize| #[trigger] paths_from(m, max, 0, fuel as nat) is Some;
    lemma_paths_from_fuel(m, max, 0, f as nat, usize::MAX as nat);
}

/// The names of the container's entity sets and singletons, the roots
/// paths start from.
pub open spec fn root_names(m: Model) -> Seq<Seq<char>> {
    match m.entity_container {
        Some(c) => c.elements@.filter(|e: EntityContainerElement| e is EntitySet || e is Singleton).map_values(
            |e: EntityContainerElement| root_name(e),
        ),
        None => Seq::empty(),
    }
}

pub open spec fn root_name(e: EntityContainerElement) -> Seq<char> {
    match e {
        EntityContainerElement::EntitySet(x) => x.name@,
        EntityContainerElement::Singleton(x) => x.name@,
        _ => Seq::empty(),
    }
}

/// Every path below a prefix extends it by at least one segment.
proof fn lemma_nav_paths_extend(
    m: Model,
    max: nat,
    entity: usize,
    segs: Seq<Seq<char>>,
    ks: nat,
    j: nat,
    fuel: nat,
)
    ensures
        nav_paths(m, max, entity, segs, ks, j, fuel) matches Some(ps) ==> forall|k: int|
            0 <= k < ps.len() ==> (#[trigger] ps[k]).segments.len() > segs.len() && segs.is_prefix_of(
                ps[k].segments,
            ),
    decreases fuel, entity_navs(m, entity).len() - j,
{
    let navs = entity_navs(m, entity);
    if j < navs.len() {
        lemma_nav_paths_extend(m, max, entity, segs, ks, j + 1, fuel);
        match navigation_at(m, navs[j as int]) {
            None => {},
            Some(nav) => if nav.target < m.entity_types@.len() {
                let segs1 = segs.push(nav.name@);
                let e = spec_expand_collection(m, segs1, nav.target, ks, max);
                let segs2 = if nav.is_collection { e.0 } else { segs1 };
                let ks2 = if nav.is_collection { e.1 } else { ks };
                let can = if nav.is_collection { e.3 } else { true };
                assert(segs.is_prefix_of(segs2) && segs2.len() > segs.len()) by {
                    assert(segs.is_prefix_of(segs1));
                    if nav.is_collection {
                        if let Some(key) = key_segment(m, nav.target) {
                            if ks + 1 < max {
                                assert(segs2 == segs1.push(key));
                            }
                        }
                    }
                }
                if can && ks2 < max && fuel > 0 {
                    lemma_nav_paths_extend(m, max, nav.target, segs2, ks2, 0, (fuel - 1) as nat);
                }
                if let Some(ps) = nav_paths(m, max, entity, segs, ks, j, fuel) {
                    let rest = nav_paths(m, max, entity, segs, ks, j + 1, fuel)->0;
                    let sub = if can && ks2 < max {
                        nav_paths(m, max, nav.target, segs2, ks2, 0, (fuel - 1) as nat)->0
                    } else {
                        Seq::empty()
                    };
                    let here = SpawnedPathView {
                        segments: segs2,
                        terminal_type: nav.target,
                        is_collection: nav.is_collection && !e.2,
                    };
                    assert(ps == seq![here] + sub + rest);
                    assert forall|k: int| 0 <= k < ps.len() implies (#[trigger] ps[k]).segments.len() > segs.len()
                        && segs.is_prefix_of(ps[k].segments) by {
                        if k == 0 {
                        } else if k < 1 + sub.len() {
                            assert(ps[k] == sub[k - 1]);
                            assert(segs2.is_prefix_of(sub[k - 1].segments));
                            assert(segs.is_prefix_of(sub[k - 1].segments)) by {
                                assert forall|x: int| 0 <= x < segs.len() implies segs[x] == sub[k - 1].segments[x] by {
                                    assert(segs[x] == segs2[x]);
                                }
                            }
                        } else {
                            assert(ps[k] == rest[k - 1 - sub.len()]);
                        }
                    }
                }
            },
        }
    }
}

/// Every spawned path starts at the name of one of the container's entity
/// sets or singletons.
pub proof fn lemma_paths_start_at_roots(m: Model, max: nat, i: nat, fuel: nat)
    ensures
        paths_from(m, max, i, fuel) matches Some(ps) ==> forall|k: int|
            0 <= k < ps.len() ==> (#[trigger] ps[k]).segments.len() > 0 && root_names(m).contains(
                ps[k].segments[0],
            ),
    decreases
            match m.entity_container {
                Some(c) => c.elements@.len(),
                None => 0,
            } - i,
{
    if let Some(c) = m.entity_container {
        if i < c.elements@.len() {
            lemma_paths_start_at_roots(m, max, i + 1, fuel);
            let e = c.elements@[i as int];
            let keep = |x: EntityContainerElement| x is EntitySet || x is Singleton;
            if let Some(ps) = paths_from(m, max, i, fuel) {
                let a = root_paths(m, max, e, fuel)->0;
                let b = paths_from(m, max, i + 1, fuel)->0;
                assert(ps == a + b);
                if e is EntitySet || e is Singleton {
                    let n = root_name(e);
                    let root = seq![n];
                    c.elements@.lemma_filter_contains(keep, i as int);
                    let f = c.elements@.filter(keep);
                    assert(f.contains(e));
                    let w = choose|w: int| 0 <= w < f.len() && f[w] == e;
                    assert(root_names(m) == f.map_values(|x: EntityContainerElement| root_name(x)));
                    assert(root_names(m)[w] == n);
                    match e {
                        EntityContainerElement::EntitySet(es) => {
                            let x = spec_expand_collection(m, root, es.target, 0, max);
                            if x.2 {
                                lemma_nav_paths_extend(m, max, es.target, x.0, x.1, 0, fuel);
                                assert(x.0 == root.push(key_segment(m, es.target)->0));
                            }
                        },
                        EntityContainerElement::Singleton(sg) => {
                            lemma_nav_paths_extend(m, max, sg.target, root, 0, 0, fuel);
                        },
                        _ => {},
                    }
                    assert forall|k: int| 0 <= k < a.len() implies (#[trigger] a[k]).segments.len() > 0
                        && a[k].segments[0] == n by {
                        match e {
                            EntityContainerElement::EntitySet(es) => {
                                let x = spec_expand_collection(m, root, es.target, 0, max);
                                if x.2 && k >= 2 {
                                    let t = nav_paths(m, max, es.target, x.0, x.1, 0, fuel)->0;
                                    assert(a[k] == t[k - 2]);
                                    assert(x.0.is_prefix_of(t[k - 2].segments));
                                    assert(a[k].segments[0] == x.0[0]);
                                }
                            },
                            EntityContainerElement::Singleton(sg) => {
                                if k >= 1 {
                                    let t = nav_paths(m, max, sg.target, root, 0, 0, fuel)->0;
                                    assert(a[k] == t[k - 1]);
                                    assert(root.is_prefix_of(t[k - 1].segments));
                                    assert(a[k].segments[0] == root[0]);
                                }
                            },
                            _ => {},
                        }
                    }
                } else {
                    assert(a.len() == 0);
                }
                assert forall|k: int| 0 <= k < ps.len() implies (#[trigger] ps[k]).segments.len() > 0 && root_names(
                    m,
                ).contains(ps[k].segments[0]) by {
                    if k < a.len() {
                        assert(ps[k] == a[k]);
                    } else {
                        assert(ps[k] == b[k - a.len()]);
                    }
                }
            }
        }
    }
}

/// Where the expansion ends, each path the model spawns starts at the name
/// of one of the container's entity sets or singletons.
pub proof fn lemma_spawned_roots(m: Model, max: nat)
    requires
        expansion_ends(m, max),
    ensures
        forall|k: int|
            0 <= k < spawned_paths(m, max).len() ==> (#[trigger] spawned_paths(m, max)[k]).segments.len() > 0
                && root_names(m).contains(spawned_paths(m, max)[k].segments[0]),
{
    lemma_spawned_paths(m, max);
    lemma_paths_start_at_roots(m, max, 0, usize::MAX as nat);
}

/// The keyed instance path of an entity set: its name, then `{`, the
/// rendering of the first key path of its entity type, and `}`.
pub open spec fn keyed_instance(m: Model, name: Seq<char>, target: usize) -> SpawnedPathView {
    SpawnedPathView {
        segments: seq![name, "{"@ + spec_key_path_string(m.entity_types@[target as int].keys@[0]@, m) + "}"@],
        terminal_type: target,
        is_collection: false,
    }
}

/// Container element `j` is an entity set whose entity type has a key.
pub open spec fn keyed_set_at(m: Model, j: int) -> bool {
    match m.entity_container {
        Some(c) => 0 <= j < c.elements@.len() && match c.elements@[j] {
            EntityContainerElement::EntitySet(es) => es.target < m.entity_types@.len()
                && m.entity_types@[es.target as int].keys@.len() > 0,
            _ => false,
        },
        None => false,
    }
}

proof fn lemma_paths_from_contain(m: Model, max: nat, i: nat, fuel: nat, j: nat, p: SpawnedPathView)
    requires
        m.entity_container matches Some(c) && i <= j < c.elements@.len(),
        root_paths(m, max, m.entity_container->0.elements@[j as int], fuel) matches Some(rs) && rs.contains(p),
        paths_from(m, max, i, fuel) is Some,
    ensures
        paths_from(m, max, i, fuel)->0.contains(p),
    decreases j - i,
{
    let c = m.entity_container->0;
    let a = root_paths(m, max, c.elements@[i as int], fuel)->0;
    let b = paths_from(m, max, i + 1, fuel)->0;
    if i == j {
        let k = choose|k: int| 0 <= k < a.len() && a[k] == p;
        assert((a + b)[k] == p);
    } else {
        lemma_paths_from_contain(m, max, i + 1, fuel, j, p);
        let k = choose|k: int| 0 <= k < b.len() && b[k] == p;
        assert((a + b)[a.len() + k] == p);
    }
}

/// An entity set whose entity type has a key spawns, beside its collection
/// path, the keyed instance path built from the type's first key (see
/// [`keyed_instance`]), where the bound allows a key segment at all
/// (`max > 1`).
pub proof fn lemma_entity_set_instance(m: Model, max: nat, j: int)
    requires
        expansion_ends(m, max),
        max > 1,
        keyed_set_at(m, j),
    ensures
        spawned_paths(m, max).contains(
            keyed_instance(
                m,
                m.entity_container->0.elements@[j]->EntitySet_0.name@,
                m.entity_container->0.elements@[j]->EntitySet_0.target,
            ),
        ),
{
    let c = m.entity_container->0;
    let es = c.elements@[j]->EntitySet_0;
    let fuel = usize::MAX as nat;
    lemma_spawned_paths(m, max);
    let p = keyed_instance(m, es.name@, es.target);
    let x = spec_expand_collection(m, seq![es.name@], es.target, 0, max);
    assert(x.0 =~= seq![es.name@].push(key_segment(m, es.target)->0));
    assert(p.segments =~= x.0);
    lemma_paths_from_fuel(m, max, 0, fuel, fuel);
    assert(paths_from(m, max, 0, fuel) is Some);
    assert(root_paths(m, max, c.elements@[j], fuel) is Some) by {
        lemma_paths_from_root_some(m, max, 0, fuel, j as nat);
    }
    let rs = root_paths(m, max, c.elements@[j], fuel)->0;
    assert(rs[1] == p);
    lemma_paths_from_contain(m, max, 0, fuel, j as nat, p);
}

/// Every entity set spawns its collection path (its name alone, a
/// collection of its entity type), and every singleton its own path (its
/// name alone, not a collection).
pub proof fn lemma_root_paths_spawned(m: Model, max: nat, j: int)
    requires
        expansion_ends(m, max),
        m.entity_container is Some,
        0 <= j < m.entity_container->0.elements@.len(),
    ensures
        ({
            let e = m.entity_container->0.elements@[j];
            match e {
                EntityContainerElement::EntitySet(es) => spawned_paths(m, max).contains(
                    SpawnedPathView { segments: seq![es.name@], terminal_type: es.target, is_collection: true },
                ),
                EntityContainerElement::Singleton(sg) => spawned_paths(m, max).contains(
                    SpawnedPathView { segments: seq![sg.name@], terminal_type: sg.target, is_collection: false },
                ),
                _ => true,
            }
        }),
{
    let c = m.entity_container->0;
    let e = c.elements@[j];
    let fuel = usize::MAX as nat;
    lemma_spawned_paths(m, max);
    lemma_paths_from_root_some(m, max, 0, fuel, j as nat);
    let rs = root_paths(m, max, e, fuel)->0;
    match e {
        EntityContainerElement::EntitySet(es) => {
            let p = SpawnedPathView { segments: seq![es.name@], terminal_type: es.target, is_collection: true };
            assert(rs[0] == p);
            lemma_paths_from_contain(m, max, 0, fuel, j as nat, p);
        },
        EntityContainerElement::Singleton(sg) => {
            let p = SpawnedPathView { segments: seq![sg.name@], terminal_type: sg.target, is_collection: false };
            assert(rs[0] == p);
            lemma_paths_from_contain(m, max, 0, fuel, j as nat, p);
        },
        _ => {},
    }
}

proof fn lemma_paths_from_root_some(m: Model, max: nat, i: nat, fuel: nat, j: nat)
    requires
        m.entity_container matches Some(c) && i <= j < c.elements@.len(),
        paths_from(m, max, i, fuel) is Some,
    ensures
        root_paths(m, max, m.entity_container->0.elements@[j as int], fuel) is Some,
    decreases j - i,
{
    if i < j {
        lemma_paths_from_root_some(m, max, i + 1, fuel, j);
    }
}

// ---------------------------------------------------------------------------
// Execution
// ---------------------------------------------------------------------------

impl PathExpander {
    /// The bound on key segments: a path carries fewer than this many.
    pub closed spec fn limit(&self) -> nat {
        self.max_key_segments as nat
    }

    pub fn new(max_key_segments: usize) -> (r: Self)
        ensures
            r.limit() == max_key_segments,
    {
        Self { max_key_segments }
    }

    /// The paths spawned by `model`'s entity container, in container order;
    /// the paths below a navigation property follow it depth first.
    /// The paths the model spawns (see [`spawned_paths`]).
    pub fn collect_paths(&self, model: &Model) -> (r: Vec<SpawnedPath>)
        requires
            expansion_ends(*model, self.limit()),
        ensures
            spawned_views(r@) == spawned_paths(*model, self.limit()),
    {
        proof {
            lemma_spawned_paths(*model, self.limit());
        }
        match self.collect_within(model, usize::MAX) {
            Some(v) => v,
            None => Vec::new(),
        }
    }

    /// The paths the model spawns when following navigation properties takes
    /// at most `depth` levels; `None` when it takes more.
    pub fn collect_paths_within(&self, model: &Model, depth: usize) -> (r: Option<Vec<SpawnedPath>>)
        ensures
            match paths_from(*model, self.limit(), 0, depth as nat) {
                Some(p) => r matches Some(v) && spawned_views(v@) == p && expansion_ends(*model, self.limit())
                    && p == spawned_paths(*model, self.limit()),
                None => r is None,
            },
    {
        let r = self.collect_within(model, depth);
        proof {
            if let Some(p) = paths_from(*model, self.limit(), 0, depth as nat) {
                assert(expansion_ends(*model, self.limit()));
                lemma_spawned_paths(*model, self.limit());
                lemma_paths_from_fuel(*model, self.limit(), 0, depth as nat, usize::MAX as nat);
            }
        }
        r
    }

    fn collect_within(&self, model: &Model, fuel: usize) -> (r: Option<Vec<SpawnedPath>>)
        ensures
            match paths_from(*model, self.limit(), 0, fuel as nat) {
                Some(p) => r matches Some(v) && spawned_views(v@) == p,
                None => r is None,
            },
    {
        let ghost max = self.limit();
        let mut paths: Vec<SpawnedPath> = Vec::new();
        let container = match &model.entity_container {
            Some(c) => c,
            None => {
                assert(spawned_views(paths@) =~= Seq::<SpawnedPathView>::empty());
                return Some(paths);
            },
        };
        let mut i: usize = 0;
        proof {
            assert(spawned_views(paths@) =~= Seq::<SpawnedPathView>::empty());
        }
        while i < container.elements.len()
            invariant
                model.entity_container == Some(*container),
                max == self.limit(),
                i <= container.elements@.len(),
                forall|k: int| 0 <= k < i ==> root_paths(*model, max, #[trigger] container.elements@[k], fuel as nat) is Some,
                paths_from(*model, max, 0, fuel as nat) == match paths_from(*model, max, i as nat, fuel as nat) {
                    Some(rest) => Some(spawned_views(paths@) + rest),
                    None => None::<Seq<SpawnedPathView>>,
                },
            decreases container.elements.len() - i,
        {
            let ghost before = spawned_views(paths@);
            let ghost here = root_paths(*model, max, container.elements@[i as int], fuel as nat);
            let ghost after = paths_from(*model, max, (i + 1) as nat, fuel as nat);
            if !self.collect_root(model, &container.elements[i], &mut paths, fuel) {
                return None;
            }
            proof {
                if let Some(a) = after {
                    assert(before + (here->0 + a) =~= (before + here->0) + a);
                }
            }
            i = i + 1;
        }
        proof {
            assert(spawned_views(paths@) + Seq::<SpawnedPathView>::empty() =~= spawned_views(paths@));
        }
        Some(paths)
    }

    fn collect_root(
        &self,
        model: &Model,
        el: &EntityContainerElement,
        paths: &mut Vec<SpawnedPath>,
        fuel: usize,
    ) -> (r: bool)
        ensures
            r == root_paths(*model, self.limit(), *el, fuel as nat) is Some,
            r ==> spawned_views(final(paths)@) == spawned_views(old(paths)@) + root_paths(
                *model,
                self.limit(),
                *el,
                fuel as nat,
            )->0,
    {
        let ghost max = self.limit();
        let ghost start = spawned_views(paths@);
        match el {
            EntityContainerElement::EntitySet(es) => {
                let mut current: Vec<String> = Vec::new();
                current.push(owned(es.name.as_str()));
                proof {
                    lemma_strs_push(Seq::<String>::empty(), current@[0]);
                    assert(strs(current@) =~= seq![es.name@]);
                }
                self.push_path(paths, &current, es.target, true);
                let (instance, next_keys, key_added, can_descend) = expand_collection_path(
                    current,
                    model,
                    es.target,
                    0,
                    self.max_key_segments,
                );
                if key_added {
                    self.push_path(paths, &instance, es.target, false);
                }
                if key_added && can_descend {
                    if !self.collect_nav_paths(model, es.target, &instance, next_keys, 0, paths, fuel) {
                        return false;
                    }
                }
                proof {
                    let x = spec_expand_collection(*model, seq![es.name@], es.target, 0, max);
                    let p0 = SpawnedPathView { segments: seq![es.name@], terminal_type: es.target, is_collection: true };
                    if x.2 {
                        let p1 = SpawnedPathView { segments: x.0, terminal_type: es.target, is_collection: false };
                        let s = nav_paths(*model, max, es.target, x.0, x.1, 0, fuel as nat)->0;
                        assert(start.push(p0).push(p1) + s =~= start + (seq![p0, p1] + s));
                    } else {
                        assert(start.push(p0) =~= start + seq![p0]);
                    }
                }
                true
            },
            EntityContainerElement::Singleton(s) => {
                let mut current: Vec<String> = Vec::new();
                current.push(owned(s.name.as_str()));
                proof {
                    lemma_strs_push(Seq::<String>::empty(), current@[0]);
                    assert(strs(current@) =~= seq![s.name@]);
                }
                self.push_path(paths, &current, s.target, false);
                if !self.collect_nav_paths(model, s.target, &current, 0, 0, paths, fuel) {
                    return false;
                }
                proof {
                    let p0 = SpawnedPathView { segments: seq![s.name@], terminal_type: s.target, is_collection: false };
                    let t = nav_paths(*model, max, s.target, seq![s.name@], 0, 0, fuel as nat)->0;
                    assert(start.push(p0) + t =~= start + (seq![p0] + t));
                }
                true
            },
            _ => {
                assert(start =~= start + Seq::<SpawnedPathView>::empty());
                true
            },
        }
    }

    fn push_path(&self, paths: &mut Vec<SpawnedPath>, segments: &Vec<String>, target: usize, coll: bool)
        ensures
            spawned_views(final(paths)@) == spawned_views(old(paths)@).push(
                SpawnedPathView { segments: strs(segments@), terminal_type: target, is_collection: coll },
            ),
    {
        let p = SpawnedPath { segments: clone_strings(segments), terminal_type: target, is_collection: coll };
        let ghost before = paths@;
        paths.push(p);
        assert(spawned_views(paths@) =~= spawned_views(before).push(p@));
    }

    /// The paths below `entity` reached through its navigation properties
    /// from the `j`-th on (see [`nav_paths`]).
    fn collect_nav_paths(
        &self,
        model: &Model,
        entity: usize,
        segments: &Vec<String>,
        key_segments: usize,
        j: usize,
        paths: &mut Vec<SpawnedPath>,
        fuel: usize,
    ) -> (r: bool)
        requires
            key_segments < self.limit() || key_segments == 0,
        ensures
            r == nav_paths(*model, self.limit(), entity, strs(segments@), key_segments as nat, j as nat, fuel as nat)
                is Some,
            r ==> spawned_views(final(paths)@) == spawned_views(old(paths)@) + nav_paths(
                *model,
                self.limit(),
                entity,
                strs(segments@),
                key_segments as nat,
                j as nat,
                fuel as nat,
            )->0,
        decreases fuel, entity_navs(*model, entity).len() - j,
    {
        let ghost max = self.limit();
        let ghost segs = strs(segments@);
        let ghost start = spawned_views(paths@);
        if entity >= model.entity_types.len() || j >= model.entity_types[entity].navigation_properties.len() {
            assert(start =~= start + Seq::<SpawnedPathView>::empty());
            return true;
        }
        let nref = model.entity_types[entity].navigation_properties[j];
        let nav = match model.navigation(&nref) {
            Some(n) => n,
            None => {
                return self.collect_nav_paths(model, entity, segments, key_segments, j + 1, paths, fuel);
            },
        };
        if nav.target >= model.entity_types.len() {
            return self.collect_nav_paths(model, entity, segments, key_segments, j + 1, paths, fuel);
        }
        let target = nav.target;
        let mut next_segments = clone_strings(segments);
        let nname = owned(nav.name.as_str());
        let ghost ns = next_segments@;
        next_segments.push(nname);
        proof {
            lemma_strs_push(ns, nname);
        }
        let mut next_keys = key_segments;
        let mut can_descend = true;
        let mut ends_in_collection = nav.is_collection;
        if nav.is_collection {
            let (expanded, expanded_keys, key_added, expanded_can) = expand_collection_path(
                next_segments,
                model,
                target,
                key_segments,
                self.max_key_segments,
            );
            next_segments = expanded;
            next_keys = expanded_keys;
            can_descend = expanded_can;
            ends_in_collection = !key_added;
        }
        let ghost here = SpawnedPathView {
            segments: strs(next_segments@),
            terminal_type: target,
            is_collection: ends_in_collection,
        };
        self.push_path(paths, &next_segments, target, ends_in_collection);
        let ghost mid = spawned_views(paths@);
        if can_descend && next_keys < self.max_key_segments {
            if fuel == 0 {
                return false;
            }
            if !self.collect_nav_paths(model, target, &next_segments, next_keys, 0, paths, fuel - 1) {
                return false;
            }
        }
        let ghost low = spawned_views(paths@);
        if !self.collect_nav_paths(model, entity, segments, key_segments, j + 1, paths, fuel) {
            return false;
        }
        proof {
            let sub = low.skip(mid.len() as int);
            let rest = nav_paths(*model, max, entity, segs, key_segments as nat, (j + 1) as nat, fuel as nat)->0;
            assert(low =~= mid + sub);
            assert(mid =~= start.push(here));
            assert(start.push(here) + sub + rest =~= start + (seq![here] + sub + rest));
        }
        true
    }
}

/// Appends the key segment of `target` to a collection path where the bound
/// allows it (see [`spec_expand_collection`]).
fn expand_collection_path(
    segments: Vec<String>,
    model: &Model,
    target: usize,
    key_segments: usize,
    max_key_segments: usize,
) -> (r: (Vec<String>, usize, bool, bool))
    requires
        key_segments < max_key_segments || key_segments == 0,
    ensures
        ({
            let e = spec_expand_collection(
                *model,
                strs(segments@),
                target,
                key_segments as nat,
                max_key_segments as nat,
            );
            strs(r.0@) == e.0 && r.1 == e.1 && r.2 == e.2 && r.3 == e.3
        }),
        r.1 < max_key_segments || r.1 == 0,
{
    if target >= model.entity_types.len() || model.entity_types[target].keys.len() == 0 {
        return (segments, key_segments, false, false);
    }
    if key_segments + 1 < max_key_segments {
        let key = key_path_to_string(&model.entity_types[target].keys[0], model);
        let seg = concat3("{", key.as_str(), "}");
        proof {
            reveal_strlit("{");
            reveal_strlit("}");
        }
        let mut segments = segments;
        let ghost before = segments@;
        segments.push(seg);
        proof {
            lemma_strs_push(before, seg);
        }
        return (segments, key_segments + 1, true, true);
    }
    (segments, key_segments, false, false)
}

} // verus!
