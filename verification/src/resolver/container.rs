//! Resolution of an entity container: the elements of the container it
//! extends, then its own entity sets, singletons, function imports and action
//! imports, with their entity types and operations looked up.

use vstd::prelude::*;

use crate::csdl;
use crate::resolver::inherit::{contains_str, qualified, unsupported};
use crate::resolver::lookup::{aliases_view, arena_id, find_id, find_last, last_index, lemma_last_index_bounds, spec_kind, spec_unqualify, unqualify_to_local};
use crate::resolver::{ResolveError, ResolveErrorView};
use crate::text::{clone_strings, concat3, lemma_strs_push, owned, strs};

verus! {

/// A declaration of a container: `kind` 0 to 3 for an entity set, a
/// singleton, a function import and an action import; `reference` is the
/// entity type or the operation it names; `paths` and `targets` are its
/// navigation property bindings; `entity_set` an import's entity set.
pub struct DeclaredView {
    pub kind: u8,
    pub name: Seq<char>,
    pub reference: Option<Seq<char>>,
    pub paths: Seq<Seq<char>>,
    pub targets: Seq<Seq<char>>,
    pub entity_set: Option<Seq<char>>,
}

/// An element of a resolved container: `target` is the entity type of a set
/// or singleton (an index into the entity type arena), `operation` the
/// operation an import names.
pub struct EntryView {
    pub kind: u8,
    pub name: Seq<char>,
    pub target: usize,
    pub operation: Seq<char>,
    pub paths: Seq<Seq<char>>,
    pub targets: Seq<Seq<char>>,
    pub entity_set: Option<Seq<char>>,
}

pub open spec fn opt_str(o: Option<String>) -> Option<Seq<char>> {
    match o {
        Some(x) => Some(x@),
        None => None,
    }
}

pub open spec fn set_decl(x: csdl::EntitySet) -> DeclaredView {
    DeclaredView {
        kind: 0,
        name: x.name@,
        reference: opt_str(x.entity_type),
        paths: x.navigation_property_bindings@.map_values(|b: csdl::NavigationPropertyBinding| b.path@),
        targets: x.navigation_property_bindings@.map_values(
            |b: csdl::NavigationPropertyBinding| b.target@,
        ),
        entity_set: None,
    }
}

pub open spec fn singleton_decl(x: csdl::Singleton) -> DeclaredView {
    DeclaredView {
        kind: 1,
        name: x.name@,
        reference: opt_str(x.type_ref),
        paths: x.navigation_property_bindings@.map_values(|b: csdl::NavigationPropertyBinding| b.path@),
        targets: x.navigation_property_bindings@.map_values(
            |b: csdl::NavigationPropertyBinding| b.target@,
        ),
        entity_set: None,
    }
}

pub open spec fn function_import_decl(x: csdl::FunctionImport) -> DeclaredView {
    DeclaredView {
        kind: 2,
        name: x.name@,
        reference: opt_str(x.function),
        paths: Seq::empty(),
        targets: Seq::empty(),
        entity_set: opt_str(x.entity_set),
    }
}

pub open spec fn action_import_decl(x: csdl::ActionImport) -> DeclaredView {
    DeclaredView {
        kind: 3,
        name: x.name@,
        reference: opt_str(x.action),
        paths: Seq::empty(),
        targets: Seq::empty(),
        entity_set: opt_str(x.entity_set),
    }
}

/// A container's own declarations in the order they are resolved.
pub open spec fn declared(c: csdl::EntityContainer) -> Seq<DeclaredView> {
    c.entity_sets@.map_values(|x: csdl::EntitySet| set_decl(x)) + c.singletons@.map_values(
        |x: csdl::Singleton| singleton_decl(x),
    ) + c.function_imports@.map_values(|x: csdl::FunctionImport| function_import_decl(x))
        + c.action_imports@.map_values(|x: csdl::ActionImport| action_import_decl(x))
}

pub open spec fn entry_names(es: Seq<EntryView>) -> Seq<Seq<char>> {
    es.map_values(|e: EntryView| e.name)
}

pub open spec fn kind_label(k: u8) -> Seq<char> {
    if k == 0 {
        "EntitySet"@
    } else if k == 1 {
        "Singleton"@
    } else if k == 2 {
        "FunctionImport"@
    } else {
        "ActionImport"@
    }
}

/// The entity type a reference names, as an arena index.
pub open spec fn entity_ref(
    t: Seq<char>,
    s: Seq<csdl::SchemaElement>,
    ns: Seq<char>,
    al: Seq<(Seq<char>, Seq<char>)>,
) -> Option<nat> {
    match spec_unqualify(t, ns, al) {
        None => None,
        Some(short) => arena_id(s, 0, short),
    }
}

/// Whether a reference names an operation of kind `k` (functions 5,
/// actions 6).
pub open spec fn operation_exists(
    t: Seq<char>,
    k: u8,
    s: Seq<csdl::SchemaElement>,
    ns: Seq<char>,
    al: Seq<(Seq<char>, Seq<char>)>,
) -> bool {
    match spec_unqualify(t, ns, al) {
        None => false,
        Some(short) => arena_id(s, k, short) is Some,
    }
}

/// Adds one declaration to the elements resolved so far.
pub open spec fn add_one(
    acc: Seq<EntryView>,
    d: DeclaredView,
    cname: Seq<char>,
    s: Seq<csdl::SchemaElement>,
    ns: Seq<char>,
    al: Seq<(Seq<char>, Seq<char>)>,
) -> Result<Seq<EntryView>, ResolveErrorView> {
    if entry_names(acc).contains(d.name) {
        Err(ResolveErrorView::DuplicateName(cname + "."@ + d.name))
    } else {
        match d.reference {
            None => Err(
                ResolveErrorView::MissingTypeName { element_kind: kind_label(d.kind), element_name: d.name },
            ),
            Some(t) => if d.kind <= 1 {
                match entity_ref(t, s, ns, al) {
                    None => Err(ResolveErrorView::UnknownEntity(t)),
                    Some(id) => Ok(
                        acc.push(
                            EntryView {
                                kind: d.kind,
                                name: d.name,
                                target: id as usize,
                                operation: Seq::empty(),
                                paths: d.paths,
                                targets: d.targets,
                                entity_set: None,
                            },
                        ),
                    ),
                }
            } else if operation_exists(t, if d.kind == 2 { 5u8 } else { 6u8 }, s, ns, al) {
                Ok(
                    acc.push(
                        EntryView {
                            kind: d.kind,
                            name: d.name,
                            target: 0,
                            operation: t,
                            paths: Seq::empty(),
                            targets: Seq::empty(),
                            entity_set: d.entity_set,
                        },
                    ),
                )
            } else {
                Err(ResolveErrorView::UnknownType(t))
            },
        }
    }
}

/// Adds the declarations one by one, stopping at the first failure.
pub open spec fn add_all(
    base: Seq<EntryView>,
    ds: Seq<DeclaredView>,
    cname: Seq<char>,
    s: Seq<csdl::SchemaElement>,
    ns: Seq<char>,
    al: Seq<(Seq<char>, Seq<char>)>,
) -> Result<Seq<EntryView>, ResolveErrorView>
    decreases ds.len(),
{
    if ds.len() == 0 {
        Ok(base)
    } else {
        match add_all(base, ds.drop_last(), cname, s, ns, al) {
            Err(e) => Err(e),
            Ok(acc) => add_one(acc, ds.last(), cname, s, ns, al),
        }
    }
}

pub open spec fn container_at(e: csdl::SchemaElement) -> csdl::EntityContainer {
    match e {
        csdl::SchemaElement::EntityContainer(c) => c,
        _ => arbitrary(),
    }
}

/// The elements of container `c`: those of the container it extends, then
/// its own; `visiting` holds the containers that extend it.
pub open spec fn spec_container(
    s: Seq<csdl::SchemaElement>,
    ns: Seq<char>,
    al: Seq<(Seq<char>, Seq<char>)>,
    c: csdl::EntityContainer,
    visiting: Seq<Seq<char>>,
    fuel: nat,
) -> Result<Seq<EntryView>, ResolveErrorView>
    decreases fuel,
{
    let cyclic = unsupported("Cyclic EntityContainer.Extends"@, qualified(ns, c.name@));
    if visiting.contains(c.name@) {
        Err(cyclic)
    } else {
        let base = match c.extends {
            None => Ok(Seq::<EntryView>::empty()),
            Some(x) => match spec_unqualify(x@, ns, al) {
                None => Err(ResolveErrorView::UnknownType(x@)),
                Some(bn) => match last_index(s, 7, bn) {
                    None => Err(ResolveErrorView::UnknownType(x@)),
                    Some(j) => if fuel == 0 {
                        Err(cyclic)
                    } else {
                        spec_container(
                            s,
                            ns,
                            al,
                            container_at(s[j]),
                            visiting.push(c.name@),
                            (fuel - 1) as nat,
                        )
                    },
                },
            },
        };
        match base {
            Err(e) => Err(e),
            Ok(b) => add_all(b, declared(c), c.name@, s, ns, al),
        }
    }
}

/// The names of a container's own declarations, in the order they are
/// resolved: entity sets, singletons, function imports, action imports.
pub open spec fn decl_names(c: csdl::EntityContainer) -> Seq<Seq<char>> {
    declared(c).map_values(|d: DeclaredView| d.name)
}

/// Adding declarations appends one entry per declaration, named and kinded
/// as declared, an import keeping the operation it names; no name is added
/// twice.
proof fn lemma_add_all(
    base: Seq<EntryView>,
    ds: Seq<DeclaredView>,
    cname: Seq<char>,
    s: Seq<csdl::SchemaElement>,
    ns: Seq<char>,
    al: Seq<(Seq<char>, Seq<char>)>,
)
    ensures
        add_all(base, ds, cname, s, ns, al) matches Ok(r) ==> {
            &&& r.len() == base.len() + ds.len()
            &&& r.take(base.len() as int) == base
            &&& entry_names(r) == entry_names(base) + ds.map_values(|d: DeclaredView| d.name)
            &&& forall|k: int|
                0 <= k < ds.len() ==> (#[trigger] r[base.len() + k]).kind == ds[k].kind && (ds[k].kind >= 2
                    ==> r[base.len() + k].operation == ds[k].reference->0)
            &&& entry_names(base).no_duplicates() ==> entry_names(r).no_duplicates()
        },
    decreases ds.len(),
{
    if ds.len() > 0 {
        let init = ds.drop_last();
        lemma_add_all(base, init, cname, s, ns, al);
        if let Ok(acc) = add_all(base, init, cname, s, ns, al) {
            let d = ds.last();
            if let Ok(r) = add_one(acc, d, cname, s, ns, al) {
                let e = r.last();
                assert(r == acc.push(e));
                assert(e.name == d.name && e.kind == d.kind);
                assert(d.kind >= 2 ==> e.operation == d.reference->0);
                assert(!entry_names(acc).contains(d.name));
                assert(entry_names(r) =~= entry_names(acc).push(d.name));
                assert(ds.map_values(|x: DeclaredView| x.name) =~= init.map_values(|x: DeclaredView| x.name).push(d.name));
                assert(entry_names(r) =~= entry_names(base) + ds.map_values(|x: DeclaredView| x.name));
                assert(r.take(base.len() as int) =~= acc.take(base.len() as int));
                assert forall|k: int|
                    0 <= k < ds.len() implies (#[trigger] r[base.len() + k]).kind == ds[k].kind && (ds[k].kind >= 2
                        ==> r[base.len() + k].operation == ds[k].reference->0) by {
                    if k < ds.len() - 1 {
                        assert(r[base.len() + k] == acc[base.len() + k]);
                        assert(init[k] == ds[k]);
                    }
                }
                if entry_names(base).no_duplicates() {
                    assert(entry_names(acc).no_duplicates());
                    let na = entry_names(acc);
                    assert forall|i: int, j: int| 0 <= i < entry_names(r).len() && 0 <= j < entry_names(r).len() && i != j
                        implies entry_names(r)[i] != entry_names(r)[j] by {
                        if i == na.len() as int {
                            assert(entry_names(r)[j] == na[j]);
                        } else if j == na.len() as int {
                            assert(entry_names(r)[i] == na[i]);
                        }
                    }
                }
            }
        }
    }
}

/// Adding declarations stops at the first one whose name is taken, by an
/// element already there or by an earlier declaration: provided the earlier
/// ones are added, the result is `DuplicateName` with the container's name,
/// a dot and that name.
pub proof fn lemma_first_duplicate(
    base: Seq<EntryView>,
    ds: Seq<DeclaredView>,
    k: int,
    cname: Seq<char>,
    s: Seq<csdl::SchemaElement>,
    ns: Seq<char>,
    al: Seq<(Seq<char>, Seq<char>)>,
)
    requires
        0 <= k < ds.len(),
        add_all(base, ds.take(k), cname, s, ns, al) is Ok,
        (entry_names(base) + ds.take(k).map_values(|d: DeclaredView| d.name)).contains(ds[k].name),
    ensures
        add_all(base, ds, cname, s, ns, al) == Err::<Seq<EntryView>, _>(
            ResolveErrorView::DuplicateName(cname + "."@ + ds[k].name),
        ),
{
    lemma_add_all(base, ds.take(k), cname, s, ns, al);
    let t = ds.take(k + 1);
    assert(t.drop_last() =~= ds.take(k));
    assert(t.last() == ds[k]);
    lemma_add_all_err(base, ds, k + 1, cname, s, ns, al);
}

/// The elements of a resolved entity container: those of the container it
/// extends (none without `Extends`), then one for each of its own entity
/// sets, singletons, function imports and action imports, in that order
/// and in declaration order, each of its kind, and no name twice; an import
/// keeps the function or action it names.
pub proof fn lemma_container_elements(
    s: Seq<csdl::SchemaElement>,
    ns: Seq<char>,
    al: Seq<(Seq<char>, Seq<char>)>,
    c: csdl::EntityContainer,
    visiting: Seq<Seq<char>>,
    fuel: nat,
)
    ensures
        spec_container(s, ns, al, c, visiting, fuel) matches Ok(r) ==> {
            let n = r.len() - declared(c).len();
            &&& 0 <= n
            &&& entry_names(r) == entry_names(r.take(n)) + decl_names(c)
            &&& forall|k: int|
                0 <= k < declared(c).len() ==> (#[trigger] r[n + k]).kind == declared(c)[k].kind && (declared(
                    c,
                )[k].kind >= 2 ==> r[n + k].operation == declared(c)[k].reference->0)
            &&& entry_names(r).no_duplicates()
            &&& match c.extends {
                None => n == 0,
                Some(x) => spec_unqualify(x@, ns, al) matches Some(bn) && last_index(s, 7, bn) matches Some(j)
                    && fuel > 0 && spec_container(s, ns, al, container_at(s[j]), visiting.push(c.name@), (fuel - 1) as nat)
                    == Ok::<_, ResolveErrorView>(r.take(n)),
            }
        },
    decreases fuel,
{
    if !visiting.contains(c.name@) {
        let base = match c.extends {
            None => Ok(Seq::<EntryView>::empty()),
            Some(x) => match spec_unqualify(x@, ns, al) {
                None => Err(ResolveErrorView::UnknownType(x@)),
                Some(bn) => match last_index(s, 7, bn) {
                    None => Err(ResolveErrorView::UnknownType(x@)),
                    Some(j) => if fuel == 0 {
                        Err(unsupported("Cyclic EntityContainer.Extends"@, qualified(ns, c.name@)))
                    } else {
                        spec_container(s, ns, al, container_at(s[j]), visiting.push(c.name@), (fuel - 1) as nat)
                    },
                },
            },
        };
        if let Ok(b) = base {
            if let Some(x) = c.extends {
                let bn = spec_unqualify(x@, ns, al)->0;
                let j = last_index(s, 7, bn)->0;
                lemma_container_elements(s, ns, al, container_at(s[j]), visiting.push(c.name@), (fuel - 1) as nat);
            } else {
                assert(entry_names(b) =~= Seq::<Seq<char>>::empty());
            }
            assert(entry_names(b).no_duplicates());
            lemma_add_all(b, declared(c), c.name@, s, ns, al);
        }
    }
}

/// Executable counterpart of [`DeclaredView`].
pub struct Declared {
    pub kind: u8,
    pub name: String,
    pub reference: Option<String>,
    pub paths: Vec<String>,
    pub targets: Vec<String>,
    pub entity_set: Option<String>,
}

impl Declared {
    pub open spec fn spec_view(&self) -> DeclaredView {
        DeclaredView {
            kind: self.kind,
            name: self.name@,
            reference: opt_str(self.reference),
            paths: strs(self.paths@),
            targets: strs(self.targets@),
            entity_set: opt_str(self.entity_set),
        }
    }
}

/// Executable counterpart of [`EntryView`].
pub struct Entry {
    pub kind: u8,
    pub name: String,
    pub target: usize,
    pub operation: String,
    pub paths: Vec<String>,
    pub targets: Vec<String>,
    pub entity_set: Option<String>,
}

impl Entry {
    pub open spec fn spec_view(&self) -> EntryView {
        EntryView {
            kind: self.kind,
            name: self.name@,
            target: self.target,
            operation: self.operation@,
            paths: strs(self.paths@),
            targets: strs(self.targets@),
            entity_set: opt_str(self.entity_set),
        }
    }
}

pub open spec fn entries_view(v: Seq<Entry>) -> Seq<EntryView> {
    v.map_values(|e: Entry| e.spec_view())
}

pub open spec fn decls_view(v: Seq<Declared>) -> Seq<DeclaredView> {
    v.map_values(|d: Declared| d.spec_view())
}

fn copy_opt(o: &Option<String>) -> (r: Option<String>)
    ensures
        opt_str(r) == opt_str(*o),
{
    match o {
        Some(x) => Some(owned(x.as_str())),
        None => None,
    }
}

fn binding_parts(bs: &Vec<csdl::NavigationPropertyBinding>) -> (r: (Vec<String>, Vec<String>))
    ensures
        strs(r.0@) == bs@.map_values(|b: csdl::NavigationPropertyBinding| b.path@),
        strs(r.1@) == bs@.map_values(|b: csdl::NavigationPropertyBinding| b.target@),
{
    let mut ps: Vec<String> = Vec::new();
    let mut ts: Vec<String> = Vec::new();
    let mut i: usize = 0;
    while i < bs.len()
        invariant
            i <= bs@.len(),
            strs(ps@) == bs@.take(i as int).map_values(|b: csdl::NavigationPropertyBinding| b.path@),
            strs(ts@) == bs@.take(i as int).map_values(|b: csdl::NavigationPropertyBinding| b.target@),
        decreases bs.len() - i,
    {
        let ghost (p0, t0) = (ps@, ts@);
        let p = owned(bs[i].path.as_str());
        let t = owned(bs[i].target.as_str());
        ps.push(p);
        ts.push(t);
        proof {
            lemma_strs_push(p0, p);
            lemma_strs_push(t0, t);
            assert(bs@.take(i + 1) =~= bs@.take(i as int).push(bs@[i as int]));
            assert(strs(ps@) =~= bs@.take(i + 1).map_values(|b: csdl::NavigationPropertyBinding| b.path@));
            assert(strs(ts@) =~= bs@.take(i + 1).map_values(|b: csdl::NavigationPropertyBinding| b.target@));
        }
        i = i + 1;
    }
    proof {
        assert(bs@.take(bs@.len() as int) =~= bs@);
    }
    (ps, ts)
}

/// The declarations of a container, in the order they are resolved.
pub fn declarations(c: &csdl::EntityContainer) -> (r: Vec<Declared>)
    ensures
        decls_view(r@) == declared(*c),
{
    let mut out: Vec<Declared> = Vec::new();
    let mut i: usize = 0;
    while i < c.entity_sets.len()
        invariant
            i <= c.entity_sets@.len(),
            decls_view(out@) == c.entity_sets@.take(i as int).map_values(|x: csdl::EntitySet| set_decl(x)),
        decreases c.entity_sets.len() - i,
    {
        let x = &c.entity_sets[i];
        let ghost o = out@;
        let (paths, targets) = binding_parts(&x.navigation_property_bindings);
        out.push(Declared { kind: 0, name: owned(x.name.as_str()), reference: copy_opt(&x.entity_type), paths, targets, entity_set: None });
        proof {
            assert(c.entity_sets@.take(i + 1) =~= c.entity_sets@.take(i as int).push(c.entity_sets@[i as int]));
            assert(out@ =~= o.push(out@.last()));
            assert(out@.last().spec_view() == set_decl(c.entity_sets@[i as int]));
            assert(decls_view(out@) =~= decls_view(o).push(set_decl(c.entity_sets@[i as int])));
            assert(decls_view(out@) =~= c.entity_sets@.take(i + 1).map_values(|x: csdl::EntitySet| set_decl(x)));
        }
        i = i + 1;
    }
    let ghost p1 = c.entity_sets@.map_values(|x: csdl::EntitySet| set_decl(x));
    proof {
        assert(c.entity_sets@.take(c.entity_sets@.len() as int) =~= c.entity_sets@);
    }
    let mut i: usize = 0;
    while i < c.singletons.len()
        invariant
            i <= c.singletons@.len(),
            decls_view(out@) == p1 + c.singletons@.take(i as int).map_values(|x: csdl::Singleton| singleton_decl(x)),
        decreases c.singletons.len() - i,
    {
        let x = &c.singletons[i];
        let ghost o = out@;
        let (paths, targets) = binding_parts(&x.navigation_property_bindings);
        out.push(Declared { kind: 1, name: owned(x.name.as_str()), reference: copy_opt(&x.type_ref), paths, targets, entity_set: None });
        proof {
            assert(c.singletons@.take(i + 1) =~= c.singletons@.take(i as int).push(c.singletons@[i as int]));
            assert(out@ =~= o.push(out@.last()));
            assert(out@.last().spec_view() == singleton_decl(c.singletons@[i as int]));
            assert(decls_view(out@) =~= decls_view(o).push(singleton_decl(c.singletons@[i as int])));
            assert(decls_view(out@) =~= p1 + c.singletons@.take(i + 1).map_values(|x: csdl::Singleton| singleton_decl(x)));
        }
        i = i + 1;
    }
    let ghost p2 = p1 + c.singletons@.map_values(|x: csdl::Singleton| singleton_decl(x));
    proof {
        assert(c.singletons@.take(c.singletons@.len() as int) =~= c.singletons@);
    }
    let mut i: usize = 0;
    while i < c.function_imports.len()
        invariant
            i <= c.function_imports@.len(),
            decls_view(out@) == p2 + c.function_imports@.take(i as int).map_values(|x: csdl::FunctionImport| function_import_decl(x)),
        decreases c.function_imports.len() - i,
    {
        let x = &c.function_imports[i];
        let ghost o = out@;
        let paths: Vec<String> = Vec::new();
        let targets: Vec<String> = Vec::new();
        proof {
            assert(strs(paths@) =~= Seq::<Seq<char>>::empty());
        }
        out.push(Declared { kind: 2, name: owned(x.name.as_str()), reference: copy_opt(&x.function), paths, targets, entity_set: copy_opt(&x.entity_set) });
        proof {
            assert(c.function_imports@.take(i + 1) =~= c.function_imports@.take(i as int).push(c.function_imports@[i as int]));
            assert(out@ =~= o.push(out@.last()));
            assert(out@.last().spec_view() == function_import_decl(c.function_imports@[i as int]));
            assert(decls_view(out@) =~= decls_view(o).push(function_import_decl(c.function_imports@[i as int])));
            assert(decls_view(out@) =~= p2 + c.function_imports@.take(i + 1).map_values(|x: csdl::FunctionImport| function_import_decl(x)));
        }
        i = i + 1;
    }
    let ghost p3 = p2 + c.function_imports@.map_values(|x: csdl::FunctionImport| function_import_decl(x));
    proof {
        assert(c.function_imports@.take(c.function_imports@.len() as int) =~= c.function_imports@);
    }
    let mut i: usize = 0;
    while i < c.action_imports.len()
        invariant
            i <= c.action_imports@.len(),
            decls_view(out@) == p3 + c.action_imports@.take(i as int).map_values(|x: csdl::ActionImport| action_import_decl(x)),
        decreases c.action_imports.len() - i,
    {
        let x = &c.action_imports[i];
        let ghost o = out@;
        let paths: Vec<String> = Vec::new();
        let targets: Vec<String> = Vec::new();
        proof {
            assert(strs(paths@) =~= Seq::<Seq<char>>::empty());
        }
        out.push(Declared { kind: 3, name: owned(x.name.as_str()), reference: copy_opt(&x.action), paths, targets, entity_set: copy_opt(&x.entity_set) });
        proof {
            assert(c.action_imports@.take(i + 1) =~= c.action_imports@.take(i as int).push(c.action_imports@[i as int]));
            assert(out@ =~= o.push(out@.last()));
            assert(out@.last().spec_view() == action_import_decl(c.action_imports@[i as int]));
            assert(decls_view(out@) =~= decls_view(o).push(action_import_decl(c.action_imports@[i as int])));
            assert(decls_view(out@) =~= p3 + c.action_imports@.take(i + 1).map_values(|x: csdl::ActionImport| action_import_decl(x)));
        }
        i = i + 1;
    }
    proof {
        assert(c.action_imports@.take(c.action_imports@.len() as int) =~= c.action_imports@);
    }
    out
}


fn has_entry_named(acc: &Vec<Entry>, name: &str) -> (r: bool)
    ensures
        r == entry_names(entries_view(acc@)).contains(name@),
{
    let mut i: usize = 0;
    while i < acc.len()
        invariant
            i <= acc@.len(),
            forall|j: int| 0 <= j < i ==> acc@[j].name@ != name@,
        decreases acc.len() - i,
    {
        if crate::text::str_eq(acc[i].name.as_str(), name) {
            proof {
                assert(entry_names(entries_view(acc@))[i as int] == name@);
            }
            return true;
        }
        i = i + 1;
    }
    proof {
        if entry_names(entries_view(acc@)).contains(name@) {
            let j = choose|j: int| 0 <= j < entry_names(entries_view(acc@)).len() && entry_names(entries_view(acc@))[j] == name@;
            assert(acc@[j].name@ == name@);
        }
    }
    false
}

fn entity_ref_of(t: &str, elems: &Vec<csdl::SchemaElement>, ns: &str, al: &Vec<(String, String)>) -> (r: Option<usize>)
    ensures
        match r {
            Some(id) => entity_ref(t@, elems@, ns@, aliases_view(al@)) == Some(id as nat),
            None => entity_ref(t@, elems@, ns@, aliases_view(al@)) is None,
        },
{
    match unqualify_to_local(t, ns, al) {
        None => None,
        Some(short) => find_id(elems, 0, short.as_str()),
    }
}

fn operation_exists_of(t: &str, k: u8, elems: &Vec<csdl::SchemaElement>, ns: &str, al: &Vec<(String, String)>) -> (r: bool)
    ensures
        r == operation_exists(t@, k, elems@, ns@, aliases_view(al@)),
{
    match unqualify_to_local(t, ns, al) {
        None => false,
        Some(short) => find_id(elems, k, short.as_str()).is_some(),
    }
}

fn label_of(k: u8) -> (r: &'static str)
    ensures
        r@ == kind_label(k),
{
    if k == 0 {
        "EntitySet"
    } else if k == 1 {
        "Singleton"
    } else if k == 2 {
        "FunctionImport"
    } else {
        "ActionImport"
    }
}

proof fn lemma_add_all_err(
    base: Seq<EntryView>,
    ds: Seq<DeclaredView>,
    i: int,
    cname: Seq<char>,
    s: Seq<csdl::SchemaElement>,
    ns: Seq<char>,
    al: Seq<(Seq<char>, Seq<char>)>,
)
    requires
        0 <= i <= ds.len(),
        add_all(base, ds.take(i), cname, s, ns, al) is Err,
    ensures
        add_all(base, ds, cname, s, ns, al) == add_all(base, ds.take(i), cname, s, ns, al),
    decreases ds.len() - i,
{
    if i < ds.len() {
        assert(ds.take(i + 1).drop_last() =~= ds.take(i));
        lemma_add_all_err(base, ds, i + 1, cname, s, ns, al);
    } else {
        assert(ds.take(i) =~= ds);
    }
}

/// Adds one declaration of container `cname` to `acc`.
fn add_declaration(
    acc: &mut Vec<Entry>,
    d: &Declared,
    cname: &str,
    elems: &Vec<csdl::SchemaElement>,
    ns: &str,
    al: &Vec<(String, String)>,
) -> (r: Result<(), ResolveError>)
    ensures
        match add_one(entries_view(old(acc)@), d.spec_view(), cname@, elems@, ns@, aliases_view(al@)) {
            Ok(v) => r is Ok && entries_view(final(acc)@) == v,
            Err(e) => r is Err && r->Err_0@ == e,
        },
{
    let ghost a0 = entries_view(acc@);
    if has_entry_named(acc, d.name.as_str()) {
        return Err(ResolveError::DuplicateName(concat3(cname, ".", d.name.as_str())));
    }
    let t = match &d.reference {
        None => {
            return Err(
                ResolveError::MissingTypeName {
                    element_kind: label_of(d.kind),
                    element_name: owned(d.name.as_str()),
                },
            );
        },
        Some(t) => t,
    };
    if d.kind <= 1 {
        match entity_ref_of(t.as_str(), elems, ns, al) {
            None => Err(ResolveError::UnknownEntity(owned(t.as_str()))),
            Some(id) => {
                let e = Entry {
                    kind: d.kind,
                    name: owned(d.name.as_str()),
                    target: id,
                    operation: owned(""),
                    paths: clone_strings(&d.paths),
                    targets: clone_strings(&d.targets),
                    entity_set: None,
                };
                proof {
                    reveal_strlit("");
                    assert(e.operation@ =~= Seq::<char>::empty());
                }
                acc.push(e);
                proof {
                    assert(entries_view(acc@) =~= a0.push(e.spec_view()));
                }
                Ok(())
            },
        }
    } else {
        let k: u8 = if d.kind == 2 {
            5
        } else {
            6
        };
        if operation_exists_of(t.as_str(), k, elems, ns, al) {
            let paths: Vec<String> = Vec::new();
            let targets: Vec<String> = Vec::new();
            let e = Entry {
                kind: d.kind,
                name: owned(d.name.as_str()),
                target: 0,
                operation: owned(t.as_str()),
                paths,
                targets,
                entity_set: copy_opt(&d.entity_set),
            };
            proof {
                assert(e.spec_view().paths =~= Seq::<Seq<char>>::empty());
                assert(e.spec_view().targets =~= Seq::<Seq<char>>::empty());
            }
            acc.push(e);
            proof {
                assert(entries_view(acc@) =~= a0.push(e.spec_view()));
            }
            Ok(())
        } else {
            Err(ResolveError::UnknownType(owned(t.as_str())))
        }
    }
}

/// Adds the declarations `ds` of container `cname` to `acc`.
fn add_declarations(
    acc: &mut Vec<Entry>,
    ds: &Vec<Declared>,
    cname: &str,
    elems: &Vec<csdl::SchemaElement>,
    ns: &str,
    al: &Vec<(String, String)>,
) -> (r: Result<(), ResolveError>)
    ensures
        match add_all(entries_view(old(acc)@), decls_view(ds@), cname@, elems@, ns@, aliases_view(al@)) {
            Ok(v) => r is Ok && entries_view(final(acc)@) == v,
            Err(e) => r is Err && r->Err_0@ == e,
        },
{
    let ghost base = entries_view(acc@);
    let ghost dv = decls_view(ds@);
    let mut i: usize = 0;
    while i < ds.len()
        invariant
            i <= ds@.len(),
            dv == decls_view(ds@),
            base == entries_view(old(acc)@),
            add_all(base, dv.take(i as int), cname@, elems@, ns@, aliases_view(al@)) == Ok::<
                Seq<EntryView>,
                ResolveErrorView,
            >(entries_view(acc@)),
        decreases ds.len() - i,
    {
        proof {
            assert(dv.take(i + 1).drop_last() =~= dv.take(i as int));
            assert(dv.take(i + 1).last() == ds@[i as int].spec_view());
        }
        match add_declaration(acc, &ds[i], cname, elems, ns, al) {
            Err(x) => {
                proof {
                    assert(add_all(base, dv.take(i + 1), cname@, elems@, ns@, aliases_view(al@)) == Err::<Seq<EntryView>, ResolveErrorView>(x@));
                    lemma_add_all_err(base, dv, i + 1, cname@, elems@, ns@, aliases_view(al@));
                }
                return Err(x);
            },
            Ok(()) => {},
        }
        i = i + 1;
    }
    proof {
        assert(dv.take(dv.len() as int) =~= dv);
    }
    Ok(())
}

fn container_of(e: &csdl::SchemaElement) -> (r: &csdl::EntityContainer)
    requires
        spec_kind(*e) == 7,
    ensures
        *r == container_at(*e),
{
    match e {
        csdl::SchemaElement::EntityContainer(c) => c,
        _ => {
            assert(false);
            unreached()
        },
    }
}

pub open spec fn entries_rv(r: Result<Vec<Entry>, ResolveError>) -> Result<Seq<EntryView>, ResolveErrorView> {
    match r {
        Ok(v) => Ok(entries_view(v@)),
        Err(e) => Err(e@),
    }
}

/// Resolves the elements of container `c`.
pub fn resolve_entity_container(
    c: &csdl::EntityContainer,
    elems: &Vec<csdl::SchemaElement>,
    ns: &str,
    al: &Vec<(String, String)>,
    visiting: &mut Vec<String>,
    fuel: usize,
) -> (r: Result<Vec<Entry>, ResolveError>)
    ensures
        entries_rv(r) == spec_container(elems@, ns@, aliases_view(al@), *c, strs(old(visiting)@), fuel as nat),
        strs(final(visiting)@) == strs(old(visiting)@),
    decreases fuel,
{
    if contains_str(visiting, c.name.as_str()) {
        return Err(ResolveError::UnsupportedCsdlFeature {
            feature: "Cyclic EntityContainer.Extends",
            location: concat3(ns, ".", c.name.as_str()),
        });
    }
    let mut acc: Vec<Entry> = Vec::new();
    match &c.extends {
        None => {
            proof {
                assert(entries_view(acc@) =~= Seq::<EntryView>::empty());
            }
        },
        Some(x) => {
            let bn = match unqualify_to_local(x.as_str(), ns, al) {
                Some(b) => b,
                None => return Err(ResolveError::UnknownType(owned(x.as_str()))),
            };
            let j = match find_last(elems, 7, bn.as_str()) {
                Some(j) => j,
                None => return Err(ResolveError::UnknownType(owned(x.as_str()))),
            };
            proof {
                lemma_last_index_bounds(elems@, 7, bn@);
            }
            if fuel == 0 {
                return Err(ResolveError::UnsupportedCsdlFeature {
                    feature: "Cyclic EntityContainer.Extends",
                    location: concat3(ns, ".", c.name.as_str()),
                });
            }
            let ghost before = strs(visiting@);
            visiting.push(owned(c.name.as_str()));
            proof {
                assert(strs(visiting@) =~= before.push(c.name@));
            }
            let res = resolve_entity_container(container_of(&elems[j]), elems, ns, al, visiting, fuel - 1);
            let ghost mid = visiting@;
            visiting.pop();
            proof {
                assert(strs(visiting@) =~= strs(mid).drop_last());
            }
            match res {
                Ok(v) => {
                    acc = v;
                },
                Err(e) => return Err(e),
            }
        },
    }
    let ds = declarations(c);
    match add_declarations(&mut acc, &ds, c.name.as_str(), elems, ns, al) {
        Ok(()) => Ok(acc),
        Err(e) => Err(e),
    }
}


/// Every entry is one of the four kinds and pairs each binding path with a
/// target.
pub open spec fn entries_wf(es: Seq<EntryView>) -> bool {
    forall|j: int|
        0 <= j < es.len() ==> (#[trigger] es[j]).kind <= 3 && es[j].targets.len() == es[j].paths.len()
}

pub open spec fn decls_wf(ds: Seq<DeclaredView>) -> bool {
    forall|j: int|
        0 <= j < ds.len() ==> (#[trigger] ds[j]).kind <= 3 && ds[j].targets.len() == ds[j].paths.len()
}

proof fn lemma_declared_wf(c: csdl::EntityContainer)
    ensures
        decls_wf(declared(c)),
{
    let a = c.entity_sets@.map_values(|x: csdl::EntitySet| set_decl(x));
    let b = c.singletons@.map_values(|x: csdl::Singleton| singleton_decl(x));
    let f = c.function_imports@.map_values(|x: csdl::FunctionImport| function_import_decl(x));
    let g = c.action_imports@.map_values(|x: csdl::ActionImport| action_import_decl(x));
    assert(decls_wf(a));
    assert(decls_wf(b));
    assert(decls_wf(f));
    assert(decls_wf(g));
    let ab = a + b;
    assert forall|j: int| 0 <= j < ab.len() implies (#[trigger] ab[j]).kind <= 3 && ab[j].targets.len() == ab[j].paths.len() by {
        if j < a.len() {
            assert(ab[j] == a[j]);
        } else {
            assert(ab[j] == b[j - a.len()]);
        }
    }
    let abf = ab + f;
    assert forall|j: int| 0 <= j < abf.len() implies (#[trigger] abf[j]).kind <= 3 && abf[j].targets.len() == abf[j].paths.len() by {
        if j < ab.len() {
            assert(abf[j] == ab[j]);
        } else {
            assert(abf[j] == f[j - ab.len()]);
        }
    }
    let all = abf + g;
    assert forall|j: int| 0 <= j < all.len() implies (#[trigger] all[j]).kind <= 3 && all[j].targets.len() == all[j].paths.len() by {
        if j < abf.len() {
            assert(all[j] == abf[j]);
        } else {
            assert(all[j] == g[j - abf.len()]);
        }
    }
    assert(declared(c) == all);
}

proof fn lemma_add_all_wf(
    base: Seq<EntryView>,
    ds: Seq<DeclaredView>,
    cname: Seq<char>,
    s: Seq<csdl::SchemaElement>,
    ns: Seq<char>,
    al: Seq<(Seq<char>, Seq<char>)>,
)
    requires
        entries_wf(base),
        decls_wf(ds),
    ensures
        add_all(base, ds, cname, s, ns, al) matches Ok(v) ==> entries_wf(v),
    decreases ds.len(),
{
    if ds.len() > 0 {
        let d = ds.drop_last();
        assert forall|j: int| 0 <= j < d.len() implies (#[trigger] d[j]).kind <= 3 && d[j].targets.len() == d[j].paths.len() by {
            assert(d[j] == ds[j]);
        }
        lemma_add_all_wf(base, d, cname, s, ns, al);
        assert(ds.last() == ds[ds.len() - 1]);
    }
}

/// A resolved container holds well-formed entries.
pub proof fn lemma_container_wf(
    s: Seq<csdl::SchemaElement>,
    ns: Seq<char>,
    al: Seq<(Seq<char>, Seq<char>)>,
    c: csdl::EntityContainer,
    visiting: Seq<Seq<char>>,
    fuel: nat,
)
    ensures
        spec_container(s, ns, al, c, visiting, fuel) matches Ok(v) ==> entries_wf(v),
    decreases fuel,
{
    lemma_declared_wf(c);
    if !visiting.contains(c.name@) {
        if let Some(x) = c.extends {
            if let Some(bn) = spec_unqualify(x@, ns, al) {
                if let Some(j) = last_index(s, 7, bn) {
                    if fuel > 0 {
                        lemma_container_wf(s, ns, al, container_at(s[j]), visiting.push(c.name@), (fuel - 1) as nat);
                        if let Ok(b) = spec_container(s, ns, al, container_at(s[j]), visiting.push(c.name@), (fuel - 1) as nat) {
                            lemma_add_all_wf(b, declared(c), c.name@, s, ns, al);
                        }
                    }
                }
            }
        } else {
            lemma_add_all_wf(Seq::empty(), declared(c), c.name@, s, ns, al);
        }
    }
}

} // verus!
