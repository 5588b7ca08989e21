//! Rules on entity containers: what a navigation property binding's path and
//! target may consist of, and which container targets are unknown.

use vstd::prelude::*;

use crate::edm::{
    BindingPathSegment, EntityContainer, EntityContainerElement, Model, NavigationPropertyBinding,
    ResolvedType, navigation_at, property_at, singleton_name, spec_binding_path_string,
};
use crate::text::owned;
use crate::validator::{ValidationError, ValidationErrorView, errs, report};

verus! {

pub open spec fn is_cast(s: BindingPathSegment) -> bool {
    s is EntityTypeCast || s is ComplexTypeCast
}

pub open spec fn or_false(b: Option<bool>) -> bool {
    match b {
        Some(x) => x,
        None => false,
    }
}

/// What is wrong with the segments of a binding path from position `i` on;
/// `saw` records that the final segment was a non-containment navigation
/// property.
pub open spec fn path_segments_reason(
    m: Model,
    eff: Seq<BindingPathSegment>,
    i: int,
    saw: bool,
) -> Option<Seq<char>>
    decreases eff.len() - i,
{
    if i >= eff.len() || i < 0 {
        if saw {
            None
        } else {
            Some("Path must end in a navigation property segment"@)
        }
    } else {
        let is_last = i + 1 == eff.len();
        let unresolvable = "Path segment does not resolve to a property or navigation property"@;
        match eff[i] {
            BindingPathSegment::EntityTypeCast(_) => path_segments_reason(m, eff, i + 1, saw),
            BindingPathSegment::ComplexTypeCast(_) => path_segments_reason(m, eff, i + 1, saw),
            BindingPathSegment::NavigationProperty(r) => match navigation_at(m, r) {
                None => Some(unresolvable),
                Some(n) => if is_last && or_false(n.contains_target) {
                    Some("Final navigation segment in Path must be non-containment"@)
                } else if !is_last && !or_false(n.contains_target) {
                    Some(
                        "Only containment navigation segments are allowed before the final segment"@,
                    )
                } else if n.target >= m.entity_types@.len() {
                    Some("Navigation segment target cannot be resolved"@)
                } else {
                    path_segments_reason(m, eff, i + 1, saw || is_last)
                },
            },
            BindingPathSegment::Property(r) => match property_at(m, r) {
                None => Some(unresolvable),
                Some(p) => match p.ty {
                    ResolvedType::Complex(_) => path_segments_reason(m, eff, i + 1, saw),
                    _ => Some("Non-navigation path segments must resolve to complex properties"@),
                },
            },
            _ => Some(unresolvable),
        }
    }
}

/// What is wrong with a binding path, if anything.
pub open spec fn path_reason(m: Model, path: Seq<BindingPathSegment>) -> Option<Seq<char>> {
    if path.len() == 0 {
        Some("Path must not be empty"@)
    } else if is_cast(path.last()) && path.len() == 1 {
        Some("Terminal type-cast requires a preceding navigation segment"@)
    } else if is_cast(path.last()) {
        path_segments_reason(m, path.drop_last(), 0, false)
    } else {
        path_segments_reason(m, path, 0, false)
    }
}

/// What is wrong with the segments of a binding target from position `i` on.
pub open spec fn target_segments_reason(m: Model, t: Seq<BindingPathSegment>, i: int) -> Option<
    Seq<char>,
>
    decreases t.len() - i,
{
    if i >= t.len() || i < 0 {
        None
    } else {
        let is_last = i + 1 == t.len();
        let unresolvable =
            "Target path segment does not resolve to a complex property or containment navigation property"@;
        match t[i] {
            BindingPathSegment::NavigationProperty(r) => match navigation_at(m, r) {
                None => Some(unresolvable),
                Some(n) => if !or_false(n.contains_target) {
                    Some("Target path navigation segments must be containment navigation properties"@)
                } else if !is_last && n.is_collection {
                    Some("Intermediate Target path segments must be single-valued"@)
                } else if n.target >= m.entity_types@.len() {
                    Some("Target path navigation segment target cannot be resolved"@)
                } else {
                    target_segments_reason(m, t, i + 1)
                },
            },
            BindingPathSegment::Property(r) => match property_at(m, r) {
                None => Some(unresolvable),
                Some(p) => if p.is_collection {
                    Some("Target path property segments must be single-valued complex properties"@)
                } else {
                    match p.ty {
                        ResolvedType::Complex(_) => target_segments_reason(m, t, i + 1),
                        _ => Some("Target path property segments must be complex properties"@),
                    }
                },
            },
            _ => Some(unresolvable),
        }
    }
}

/// What is wrong with a binding target, if anything. A target that starts
/// with an unresolved segment, or with a singleton that is not one of the
/// container's, is left to other rules.
pub open spec fn target_reason(m: Model, t: Seq<BindingPathSegment>) -> Option<Seq<char>> {
    if t.len() == 0 {
        Some("Target must not be empty"@)
    } else {
        match t[0] {
            BindingPathSegment::Unresolved(_) => None,
            BindingPathSegment::EntitySet(_) => if t.len() == 1 {
                None
            } else {
                Some("Target paths with additional segments must start from a singleton"@)
            },
            BindingPathSegment::Singleton(idx) => if singleton_name(m, idx) is None || t.len() == 1 {
                None
            } else {
                target_segments_reason(m, t, 1)
            },
            _ => Some("Target must start with an entity set or singleton"@),
        }
    }
}

/// Segment `j` of a binding target is acceptable past its head: a live
/// containment navigation property with a live target, single-valued unless
/// last, or a live single-valued property of complex type.
pub open spec fn target_segment_ok(m: Model, t: Seq<BindingPathSegment>, j: int) -> bool {
    match t[j] {
        BindingPathSegment::NavigationProperty(r) => match navigation_at(m, r) {
            Some(n) => or_false(n.contains_target) && (j + 1 < t.len() ==> !n.is_collection) && n.target
                < m.entity_types@.len(),
            None => false,
        },
        BindingPathSegment::Property(r) => match property_at(m, r) {
            Some(p) => !p.is_collection && p.ty is Complex,
            None => false,
        },
        _ => false,
    }
}

/// Segment `j` of a binding path (its trailing cast dropped) is acceptable:
/// a type cast, a live property of complex type, or a live navigation
/// property with a live target that is containment unless last and not
/// containment if last.
pub open spec fn path_segment_ok(m: Model, p: Seq<BindingPathSegment>, j: int) -> bool {
    match p[j] {
        BindingPathSegment::EntityTypeCast(_) => true,
        BindingPathSegment::ComplexTypeCast(_) => true,
        BindingPathSegment::NavigationProperty(r) => match navigation_at(m, r) {
            Some(n) => (j + 1 == p.len() <==> !or_false(n.contains_target)) && n.target < m.entity_types@.len(),
            None => false,
        },
        BindingPathSegment::Property(r) => match property_at(m, r) {
            Some(x) => x.ty is Complex,
            None => false,
        },
        _ => false,
    }
}

proof fn lemma_target_segments(m: Model, t: Seq<BindingPathSegment>, i: int)
    requires
        0 <= i <= t.len(),
    ensures
        target_segments_reason(m, t, i) is None <==> forall|j: int| i <= j < t.len() ==> #[trigger] target_segment_ok(m, t, j),
    decreases t.len() - i,
{
    if i < t.len() {
        lemma_target_segments(m, t, i + 1);
        if target_segments_reason(m, t, i) is None {
            assert forall|j: int| i <= j < t.len() implies #[trigger] target_segment_ok(m, t, j) by {
                if j == i {
                } else {
                    assert(target_segments_reason(m, t, i + 1) is None);
                }
            }
        }
        if forall|j: int| i <= j < t.len() ==> #[trigger] target_segment_ok(m, t, j) {
            assert(target_segment_ok(m, t, i));
            assert forall|j: int| i + 1 <= j < t.len() implies #[trigger] target_segment_ok(m, t, j) by {}
        }
    }
}

proof fn lemma_path_segments(m: Model, p: Seq<BindingPathSegment>, i: int, saw: bool)
    requires
        0 <= i <= p.len(),
    ensures
        path_segments_reason(m, p, i, saw) is None <==> (forall|j: int| i <= j < p.len() ==> #[trigger] path_segment_ok(m, p, j))
            && (saw || (i < p.len() && p.last() is NavigationProperty)),
    decreases p.len() - i,
{
    if i < p.len() {
        let is_last = i + 1 == p.len();
        let saw2 = saw || (is_last && p[i] is NavigationProperty);
        lemma_path_segments(m, p, i + 1, saw2);
        if path_segments_reason(m, p, i, saw) is None {
            assert(path_segments_reason(m, p, i + 1, saw2) is None);
            assert forall|j: int| i <= j < p.len() implies #[trigger] path_segment_ok(m, p, j) by {}
        }
        if (forall|j: int| i <= j < p.len() ==> #[trigger] path_segment_ok(m, p, j)) && (saw || (i < p.len()
            && p.last() is NavigationProperty)) {
            assert(path_segment_ok(m, p, i));
            assert forall|j: int| i + 1 <= j < p.len() implies #[trigger] path_segment_ok(m, p, j) by {}
            if is_last {
                assert(p.last() == p[i]);
            }
        }
    }
}

/// When the binding-target rule reports nothing: the target is not empty,
/// and it starts with an unresolved segment (left to other rules), or is a
/// lone entity set, or starts with a singleton that is not the container's,
/// or with one of its singletons followed only by acceptable segments (see
/// [`target_segment_ok`]).
pub proof fn lemma_target_rule(m: Model, t: Seq<BindingPathSegment>)
    ensures
        target_reason(m, t) is None <==> t.len() > 0 && match t[0] {
            BindingPathSegment::Unresolved(_) => true,
            BindingPathSegment::EntitySet(_) => t.len() == 1,
            BindingPathSegment::Singleton(idx) => singleton_name(m, idx) is None || forall|j: int|
                1 <= j < t.len() ==> #[trigger] target_segment_ok(m, t, j),
            _ => false,
        },
{
    if t.len() > 0 {
        lemma_target_segments(m, t, 1);
    }
}

/// A binding path the path rule accepts: with one trailing type cast
/// dropped, it is not empty, each segment is acceptable (see
/// [`path_segment_ok`]), and the last is a navigation property.
pub open spec fn path_accepted(m: Model, path: Seq<BindingPathSegment>) -> bool {
    segments_accepted(m, without_trailing_cast(path))
}

/// The path with one trailing type cast dropped.
pub open spec fn without_trailing_cast(path: Seq<BindingPathSegment>) -> Seq<BindingPathSegment> {
    if path.len() > 0 && is_cast(path.last()) {
        path.drop_last()
    } else {
        path
    }
}

/// Not empty, each segment acceptable, the last a navigation property.
pub open spec fn segments_accepted(m: Model, p: Seq<BindingPathSegment>) -> bool {
    &&& p.len() > 0
    &&& forall|j: int| 0 <= j < p.len() ==> #[trigger] path_segment_ok(m, p, j)
    &&& p.last() is NavigationProperty
}

/// The binding-path rule reports nothing exactly on the paths it accepts
/// (see [`path_accepted`]).
pub proof fn lemma_path_rule(m: Model, path: Seq<BindingPathSegment>)
    ensures
        path_reason(m, path) is None <==> path_accepted(m, path),
{
    if path.len() == 0 {
        assert(path_reason(m, path) is Some);
        assert(!path_accepted(m, path));
    } else if is_cast(path.last()) {
        let p = path.drop_last();
        if path.len() == 1 {
            assert(p.len() == 0);
            assert(path_reason(m, path) is Some);
            assert(!path_accepted(m, path));
        } else {
            lemma_path_segments(m, p, 0, false);
            assert(path_reason(m, path) == path_segments_reason(m, p, 0, false));
            assert(without_trailing_cast(path) == p);
        }
    } else {
        lemma_path_segments(m, path, 0, false);
        assert(path_reason(m, path) == path_segments_reason(m, path, 0, false));
        assert(without_trailing_cast(path) == path);
    }
}

pub open spec fn binding_errors(
    m: Model,
    container: Seq<char>,
    kind: Seq<char>,
    source: Seq<char>,
    b: NavigationPropertyBinding,
) -> Seq<ValidationErrorView> {
    let p = match path_reason(m, b.path@) {
        None => Seq::empty(),
        Some(reason) => seq![
            ValidationErrorView::InvalidNavigationPropertyBinding {
                container,
                source_kind: kind,
                source,
                attribute: "Path"@,
                value: spec_binding_path_string(b.path@, m),
                reason,
            },
        ],
    };
    let t = match target_reason(m, b.target@) {
        None => Seq::empty(),
        Some(reason) => seq![
            ValidationErrorView::InvalidNavigationPropertyBinding {
                container,
                source_kind: kind,
                source,
                attribute: "Target"@,
                value: spec_binding_path_string(b.target@, m),
                reason,
            },
        ],
    };
    p + t
}

pub open spec fn bindings_errors(
    m: Model,
    container: Seq<char>,
    kind: Seq<char>,
    source: Seq<char>,
    bs: Seq<NavigationPropertyBinding>,
) -> Seq<ValidationErrorView>
    decreases bs.len(),
{
    if bs.len() == 0 {
        Seq::empty()
    } else {
        bindings_errors(m, container, kind, source, bs.drop_last()) + binding_errors(
            m,
            container,
            kind,
            source,
            bs.last(),
        )
    }
}

pub open spec fn element_binding_errors(m: Model, container: Seq<char>, e: EntityContainerElement) -> Seq<
    ValidationErrorView,
> {
    match e {
        EntityContainerElement::EntitySet(x) => bindings_errors(
            m,
            container,
            "EntitySet.NavigationPropertyBinding"@,
            x.name@,
            x.navigation_property_bindings@,
        ),
        EntityContainerElement::Singleton(x) => bindings_errors(
            m,
            container,
            "Singleton.NavigationPropertyBinding"@,
            x.name@,
            x.navigation_property_bindings@,
        ),
        _ => Seq::empty(),
    }
}

pub open spec fn elements_binding_errors(
    m: Model,
    container: Seq<char>,
    es: Seq<EntityContainerElement>,
) -> Seq<ValidationErrorView>
    decreases es.len(),
{
    if es.len() == 0 {
        Seq::empty()
    } else {
        elements_binding_errors(m, container, es.drop_last()) + element_binding_errors(
            m,
            container,
            es.last(),
        )
    }
}

/// The binding semantics rule on a model.
pub open spec fn binding_semantics_errors(m: Model) -> Seq<ValidationErrorView> {
    match m.entity_container {
        None => Seq::empty(),
        Some(c) => elements_binding_errors(m, c.name@, c.elements@),
    }
}

pub fn path_reason_of(m: &Model, path: &Vec<BindingPathSegment>) -> (r: Option<&'static str>)
    ensures
        match r {
            Some(x) => path_reason(*m, path@) == Some(x@),
            None => path_reason(*m, path@) is None,
        },
{
    if path.len() == 0 {
        return Some("Path must not be empty");
    }
    let last_cast = match &path[path.len() - 1] {
        BindingPathSegment::EntityTypeCast(_) | BindingPathSegment::ComplexTypeCast(_) => true,
        _ => false,
    };
    if last_cast && path.len() == 1 {
        return Some("Terminal type-cast requires a preceding navigation segment");
    }
    let n = if last_cast {
        path.len() - 1
    } else {
        path.len()
    };
    let ghost eff = path@.take(n as int);
    proof {
        if !last_cast {
            assert(eff =~= path@);
        } else {
            assert(eff =~= path@.drop_last());
        }
    }
    let mut saw = false;
    let mut i: usize = 0;
    while i < n
        invariant
            i <= n <= path@.len(),
            eff == path@.take(n as int),
            path_reason(*m, path@) == path_segments_reason(*m, eff, i as int, saw),
        decreases n - i,
    {
        let is_last = i + 1 == n;
        match &path[i] {
            BindingPathSegment::EntityTypeCast(_) | BindingPathSegment::ComplexTypeCast(_) => {},
            BindingPathSegment::NavigationProperty(r) => match m.navigation(r) {
                None => {
                    return Some("Path segment does not resolve to a property or navigation property");
                },
                Some(nav) => {
                    let ct = match nav.contains_target {
                        Some(b) => b,
                        None => false,
                    };
                    if is_last && ct {
                        return Some("Final navigation segment in Path must be non-containment");
                    }
                    if !is_last && !ct {
                        return Some(
                            "Only containment navigation segments are allowed before the final segment",
                        );
                    }
                    if nav.target >= m.entity_types.len() {
                        return Some("Navigation segment target cannot be resolved");
                    }
                    saw = saw || is_last;
                },
            },
            BindingPathSegment::Property(r) => match m.property(r) {
                None => {
                    return Some("Path segment does not resolve to a property or navigation property");
                },
                Some(p) => match p.ty {
                    ResolvedType::Complex(_) => {},
                    _ => {
                        return Some("Non-navigation path segments must resolve to complex properties");
                    },
                },
            },
            _ => {
                return Some("Path segment does not resolve to a property or navigation property");
            },
        }
        i = i + 1;
    }
    if saw {
        None
    } else {
        Some("Path must end in a navigation property segment")
    }
}

fn is_singleton_of(m: &Model, idx: usize) -> (r: bool)
    ensures
        r == (singleton_name(*m, idx) is Some),
{
    match &m.entity_container {
        None => false,
        Some(c) => if idx < c.elements.len() {
            match &c.elements[idx] {
                EntityContainerElement::Singleton(_) => true,
                _ => false,
            }
        } else {
            false
        },
    }
}

pub fn target_reason_of(m: &Model, t: &Vec<BindingPathSegment>) -> (r: Option<&'static str>)
    ensures
        match r {
            Some(x) => target_reason(*m, t@) == Some(x@),
            None => target_reason(*m, t@) is None,
        },
{
    if t.len() == 0 {
        return Some("Target must not be empty");
    }
    match &t[0] {
        BindingPathSegment::Unresolved(_) => {
            return None;
        },
        BindingPathSegment::EntitySet(_) => {
            if t.len() == 1 {
                return None;
            }
            return Some("Target paths with additional segments must start from a singleton");
        },
        BindingPathSegment::Singleton(idx) => {
            if !is_singleton_of(m, *idx) || t.len() == 1 {
                return None;
            }
        },
        _ => {
            return Some("Target must start with an entity set or singleton");
        },
    }
    let mut i: usize = 1;
    while i < t.len()
        invariant
            1 <= i <= t@.len(),
            target_reason(*m, t@) == target_segments_reason(*m, t@, i as int),
        decreases t.len() - i,
    {
        let is_last = i + 1 == t.len();
        match &t[i] {
            BindingPathSegment::NavigationProperty(r) => match m.navigation(r) {
                None => {
                    return Some(
                        "Target path segment does not resolve to a complex property or containment navigation property",
                    );
                },
                Some(nav) => {
                    let ct = match nav.contains_target {
                        Some(b) => b,
                        None => false,
                    };
                    if !ct {
                        return Some(
                            "Target path navigation segments must be containment navigation properties",
                        );
                    }
                    if !is_last && nav.is_collection {
                        return Some("Intermediate Target path segments must be single-valued");
                    }
                    if nav.target >= m.entity_types.len() {
                        return Some("Target path navigation segment target cannot be resolved");
                    }
                },
            },
            BindingPathSegment::Property(r) => match m.property(r) {
                None => {
                    return Some(
                        "Target path segment does not resolve to a complex property or containment navigation property",
                    );
                },
                Some(p) => {
                    if p.is_collection {
                        return Some(
                            "Target path property segments must be single-valued complex properties",
                        );
                    }
                    match p.ty {
                        ResolvedType::Complex(_) => {},
                        _ => {
                            return Some("Target path property segments must be complex properties");
                        },
                    }
                },
            },
            _ => {
                return Some(
                    "Target path segment does not resolve to a complex property or containment navigation property",
                );
            },
        }
        i = i + 1;
    }
    None
}

pub fn check_binding(
    m: &Model,
    container: &str,
    kind: &'static str,
    source: &str,
    b: &NavigationPropertyBinding,
    out: &mut Vec<ValidationError>,
)
    ensures
        errs(final(out)@) == errs(old(out)@) + binding_errors(*m, container@, kind@, source@, *b),
{
    let ghost base = errs(out@);
    match path_reason_of(m, &b.path) {
        None => {},
        Some(reason) => {
            report(
                out,
                ValidationError::InvalidNavigationPropertyBinding {
                    container: owned(container),
                    source_kind: kind,
                    source: owned(source),
                    attribute: "Path",
                    value: b.path_string(m),
                    reason,
                },
            );
        },
    }
    match target_reason_of(m, &b.target) {
        None => {},
        Some(reason) => {
            report(
                out,
                ValidationError::InvalidNavigationPropertyBinding {
                    container: owned(container),
                    source_kind: kind,
                    source: owned(source),
                    attribute: "Target",
                    value: b.target_string(m),
                    reason,
                },
            );
        },
    }
    proof {
        reveal_strlit("Path");
        reveal_strlit("Target");
        assert(errs(out@) =~= base + binding_errors(*m, container@, kind@, source@, *b));
    }
}

fn check_bindings(
    m: &Model,
    container: &str,
    kind: &'static str,
    source: &str,
    bs: &Vec<NavigationPropertyBinding>,
    out: &mut Vec<ValidationError>,
)
    ensures
        errs(final(out)@) == errs(old(out)@) + bindings_errors(*m, container@, kind@, source@, bs@),
{
    let ghost base = errs(out@);
    let mut i: usize = 0;
    proof {
        assert(base + bindings_errors(*m, container@, kind@, source@, bs@.take(0)) =~= base);
    }
    while i < bs.len()
        invariant
            i <= bs@.len(),
            base == errs(old(out)@),
            errs(out@) == base + bindings_errors(*m, container@, kind@, source@, bs@.take(i as int)),
        decreases bs.len() - i,
    {
        proof {
            assert(bs@.take(i + 1).drop_last() =~= bs@.take(i as int));
            assert(bs@.take(i + 1).last() == bs@[i as int]);
        }
        let ghost before = errs(out@);
        check_binding(m, container, kind, source, &bs[i], out);
        proof {
            assert(errs(out@) =~= base + bindings_errors(*m, container@, kind@, source@, bs@.take(i + 1)));
        }
        i = i + 1;
    }
    proof {
        assert(bs@.take(bs@.len() as int) =~= bs@);
    }
}

/// The binding semantics rule on a model.
pub fn check_binding_semantics(m: &Model, out: &mut Vec<ValidationError>)
    ensures
        errs(final(out)@) == errs(old(out)@) + binding_semantics_errors(*m),
{
    match &m.entity_container {
        None => {
            proof {
                assert(errs(out@) =~= errs(out@) + Seq::<ValidationErrorView>::empty());
            }
        },
        Some(c) => {
            let ghost base = errs(out@);
            let ghost es = c.elements@;
            let mut i: usize = 0;
            proof {
                assert(base + elements_binding_errors(*m, c.name@, es.take(0)) =~= base);
            }
            while i < c.elements.len()
                invariant
                    i <= es.len(),
                    es == c.elements@,
                    m.entity_container == Some(*c),
                    base == errs(old(out)@),
                    errs(out@) == base + elements_binding_errors(*m, c.name@, es.take(i as int)),
                decreases c.elements.len() - i,
            {
                proof {
                    assert(es.take(i + 1).drop_last() =~= es.take(i as int));
                    assert(es.take(i + 1).last() == es[i as int]);
                }
                let ghost before = errs(out@);
                match &c.elements[i] {
                    EntityContainerElement::EntitySet(x) => {
                        check_bindings(
                            m,
                            c.name.as_str(),
                            "EntitySet.NavigationPropertyBinding",
                            x.name.as_str(),
                            &x.navigation_property_bindings,
                            out,
                        );
                    },
                    EntityContainerElement::Singleton(x) => {
                        check_bindings(
                            m,
                            c.name.as_str(),
                            "Singleton.NavigationPropertyBinding",
                            x.name.as_str(),
                            &x.navigation_property_bindings,
                            out,
                        );
                    },
                    _ => {},
                }
                proof {
                    assert(errs(out@) =~= before + element_binding_errors(*m, c.name@, es[i as int]));
                }
                i = i + 1;
            }
            proof {
                assert(es.take(es.len() as int) =~= es);
            }
        },
    }
}

// ---------------------------------------------------------------------------
// Unknown container targets
// ---------------------------------------------------------------------------

/// The authored name of the first unresolved segment of a path.
pub open spec fn first_unresolved(p: Seq<BindingPathSegment>) -> Option<Seq<char>>
    decreases p.len(),
{
    if p.len() == 0 {
        None
    } else {
        match first_unresolved(p.drop_last()) {
            Some(n) => Some(n),
            None => match p.last() {
                BindingPathSegment::Unresolved(n) => Some(n@),
                _ => None,
            },
        }
    }
}

/// The first unresolved segment of a path is at `j`.
pub open spec fn first_unresolved_at(p: Seq<BindingPathSegment>, j: int) -> bool {
    &&& 0 <= j < p.len()
    &&& p[j] is Unresolved
    &&& forall|i: int| 0 <= i < j ==> !(#[trigger] p[i] is Unresolved)
}

/// [`first_unresolved`] is the authored name of the leftmost unresolved
/// segment, and none when no segment is unresolved.
pub proof fn lemma_first_unresolved(p: Seq<BindingPathSegment>)
    ensures
        first_unresolved(p) is None <==> forall|i: int| 0 <= i < p.len() ==> !(#[trigger] p[i] is Unresolved),
        forall|j: int| #[trigger] first_unresolved_at(p, j) ==> first_unresolved(p) == Some(p[j]->Unresolved_0@),
    decreases p.len(),
{
    if p.len() > 0 {
        let q = p.drop_last();
        lemma_first_unresolved(q);
        assert forall|i: int| 0 <= i < q.len() implies q[i] == p[i] by {}
        assert forall|j: int| #[trigger] first_unresolved_at(p, j) implies first_unresolved(p) == Some(
            p[j]->Unresolved_0@,
        ) by {
            if j < q.len() {
                assert(first_unresolved_at(q, j));
            } else {
                assert(forall|i: int| 0 <= i < q.len() ==> !(#[trigger] q[i] is Unresolved)) by {
                    assert forall|i: int| 0 <= i < q.len() implies !(#[trigger] q[i] is Unresolved) by {
                        assert(q[i] == p[i]);
                    }
                }
            }
        }
        if first_unresolved(p) is None {
            assert forall|i: int| 0 <= i < p.len() implies !(#[trigger] p[i] is Unresolved) by {
                if i < q.len() {
                    assert(q[i] == p[i]);
                }
            }
        }
        if forall|i: int| 0 <= i < p.len() ==> !(#[trigger] p[i] is Unresolved) {
            assert forall|i: int| 0 <= i < q.len() implies !(#[trigger] q[i] is Unresolved) by {
                assert(q[i] == p[i]);
            }
            assert(!(p[p.len() - 1] is Unresolved));
        }
    }
}

pub open spec fn unknown_target_error(
    container: Seq<char>,
    kind: Seq<char>,
    source: Seq<char>,
    p: Seq<BindingPathSegment>,
) -> Seq<ValidationErrorView> {
    match first_unresolved(p) {
        None => Seq::empty(),
        Some(t) => seq![
            ValidationErrorView::UnknownContainerTarget { container, source_kind: kind, source, target: t },
        ],
    }
}

pub open spec fn unknown_binding_targets(
    container: Seq<char>,
    kind: Seq<char>,
    source: Seq<char>,
    bs: Seq<NavigationPropertyBinding>,
) -> Seq<ValidationErrorView>
    decreases bs.len(),
{
    if bs.len() == 0 {
        Seq::empty()
    } else {
        unknown_binding_targets(container, kind, source, bs.drop_last()) + unknown_target_error(
            container,
            kind,
            source,
            bs.last().target@,
        )
    }
}

pub open spec fn element_unknown_targets(container: Seq<char>, e: EntityContainerElement) -> Seq<
    ValidationErrorView,
> {
    match e {
        EntityContainerElement::EntitySet(x) => unknown_binding_targets(
            container,
            "EntitySet.NavigationPropertyBinding"@,
            x.name@,
            x.navigation_property_bindings@,
        ),
        EntityContainerElement::Singleton(x) => unknown_binding_targets(
            container,
            "Singleton.NavigationPropertyBinding"@,
            x.name@,
            x.navigation_property_bindings@,
        ),
        EntityContainerElement::FunctionImport(x) => match x.entity_set {
            None => Seq::empty(),
            Some(p) => unknown_target_error(container, "FunctionImport.EntitySet"@, x.name@, p@),
        },
        EntityContainerElement::ActionImport(x) => match x.entity_set {
            None => Seq::empty(),
            Some(p) => unknown_target_error(container, "ActionImport.EntitySet"@, x.name@, p@),
        },
    }
}

/// The known container targets rule on an entity container.
pub open spec fn unknown_target_errors(c: EntityContainer) -> Seq<ValidationErrorView> {
    elements_unknown_targets(c.name@, c.elements@)
}

pub open spec fn elements_unknown_targets(container: Seq<char>, es: Seq<EntityContainerElement>) -> Seq<
    ValidationErrorView,
>
    decreases es.len(),
{
    if es.len() == 0 {
        Seq::empty()
    } else {
        elements_unknown_targets(container, es.drop_last()) + element_unknown_targets(
            container,
            es.last(),
        )
    }
}

fn first_unresolved_of(p: &Vec<BindingPathSegment>) -> (r: Option<String>)
    ensures
        match r {
            Some(n) => first_unresolved(p@) == Some(n@),
            None => first_unresolved(p@) is None,
        },
{
    let mut i: usize = 0;
    while i < p.len()
        invariant
            i <= p@.len(),
            first_unresolved(p@.take(i as int)) is None,
        decreases p.len() - i,
    {
        proof {
            assert(p@.take(i + 1).drop_last() =~= p@.take(i as int));
            assert(p@.take(i + 1).last() == p@[i as int]);
        }
        if let BindingPathSegment::Unresolved(n) = &p[i] {
            proof {
                lemma_first_unresolved_prefix(p@, i + 1);
            }
            return Some(owned(n.as_str()));
        }
        i = i + 1;
    }
    proof {
        assert(p@.take(p@.len() as int) =~= p@);
    }
    None
}

proof fn lemma_first_unresolved_prefix(p: Seq<BindingPathSegment>, i: int)
    requires
        0 <= i <= p.len(),
        first_unresolved(p.take(i)) is Some,
    ensures
        first_unresolved(p) == first_unresolved(p.take(i)),
    decreases p.len() - i,
{
    if i < p.len() {
        assert(p.take(i + 1).drop_last() =~= p.take(i));
        lemma_first_unresolved_prefix(p, i + 1);
    } else {
        assert(p.take(i) =~= p);
    }
}

fn check_unknown_target(
    container: &str,
    kind: &'static str,
    source: &str,
    p: &Vec<BindingPathSegment>,
    out: &mut Vec<ValidationError>,
)
    ensures
        errs(final(out)@) == errs(old(out)@) + unknown_target_error(container@, kind@, source@, p@),
{
    match first_unresolved_of(p) {
        None => {
            proof {
                assert(errs(out@) =~= errs(out@) + Seq::<ValidationErrorView>::empty());
            }
        },
        Some(t) => {
            report(
                out,
                ValidationError::UnknownContainerTarget {
                    container: owned(container),
                    source_kind: kind,
                    source: owned(source),
                    target: t,
                },
            );
        },
    }
}

fn check_unknown_binding_targets(
    container: &str,
    kind: &'static str,
    source: &str,
    bs: &Vec<NavigationPropertyBinding>,
    out: &mut Vec<ValidationError>,
)
    ensures
        errs(final(out)@) == errs(old(out)@) + unknown_binding_targets(container@, kind@, source@, bs@),
{
    let ghost base = errs(out@);
    let mut i: usize = 0;
    proof {
        assert(base + unknown_binding_targets(container@, kind@, source@, bs@.take(0)) =~= base);
    }
    while i < bs.len()
        invariant
            i <= bs@.len(),
            base == errs(old(out)@),
            errs(out@) == base + unknown_binding_targets(container@, kind@, source@, bs@.take(i as int)),
        decreases bs.len() - i,
    {
        proof {
            assert(bs@.take(i + 1).drop_last() =~= bs@.take(i as int));
            assert(bs@.take(i + 1).last() == bs@[i as int]);
        }
        check_unknown_target(container, kind, source, &bs[i].target, out);
        proof {
            assert(errs(out@) =~= base + unknown_binding_targets(container@, kind@, source@, bs@.take(i + 1)));
        }
        i = i + 1;
    }
    proof {
        assert(bs@.take(bs@.len() as int) =~= bs@);
    }
}

/// The known container targets rule on an entity container.
pub fn check_unknown_targets(c: &EntityContainer, out: &mut Vec<ValidationError>)
    ensures
        errs(final(out)@) == errs(old(out)@) + unknown_target_errors(*c),
{
    let ghost base = errs(out@);
    let ghost es = c.elements@;
    let mut i: usize = 0;
    proof {
        assert(base + elements_unknown_targets(c.name@, es.take(0)) =~= base);
    }
    while i < c.elements.len()
        invariant
            i <= es.len(),
            es == c.elements@,
            base == errs(old(out)@),
            errs(out@) == base + elements_unknown_targets(c.name@, es.take(i as int)),
        decreases c.elements.len() - i,
    {
        proof {
            assert(es.take(i + 1).drop_last() =~= es.take(i as int));
            assert(es.take(i + 1).last() == es[i as int]);
        }
        let ghost before = errs(out@);
        match &c.elements[i] {
            EntityContainerElement::EntitySet(x) => {
                check_unknown_binding_targets(
                    c.name.as_str(),
                    "EntitySet.NavigationPropertyBinding",
                    x.name.as_str(),
                    &x.navigation_property_bindings,
                    out,
                );
            },
            EntityContainerElement::Singleton(x) => {
                check_unknown_binding_targets(
                    c.name.as_str(),
                    "Singleton.NavigationPropertyBinding",
                    x.name.as_str(),
                    &x.navigation_property_bindings,
                    out,
                );
            },
            EntityContainerElement::FunctionImport(x) => match &x.entity_set {
                None => {},
                Some(p) => check_unknown_target(c.name.as_str(), "FunctionImport.EntitySet", x.name.as_str(), p, out),
            },
            EntityContainerElement::ActionImport(x) => match &x.entity_set {
                None => {},
                Some(p) => check_unknown_target(c.name.as_str(), "ActionImport.EntitySet", x.name.as_str(), p, out),
            },
        }
        proof {
            assert(errs(out@) =~= before + element_unknown_targets(c.name@, es[i as int]));
        }
        i = i + 1;
    }
    proof {
        assert(es.take(es.len() as int) =~= es);
    }
}

} // verus!
