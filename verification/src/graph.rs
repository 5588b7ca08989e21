//! The resolved semantic model as a graph of nodes, edges and paths.
//!
//! Every model element becomes a node; a reference from one element to
//! another becomes an edge labelled with what the reference is; a resolved
//! path (a key, a partner, a navigation binding, an entity-set path) becomes
//! a path threading the nodes of its segments. Value attributes are left
//! out.
//!
//! Nodes are registered in a first pass over all schemas, each under the
//! element it stands for; the second pass maps the references it meets back
//! to the node registered last for the referenced element.

use vstd::prelude::*;
use vstd::set_lib::{lemma_int_range, lemma_len_subset, lemma_map_size, set_int_range};

use crate::edm::{
    binding_path_to_string, entity_set_path_to_string, key_path_to_string, navigation_at,
    property_at, spec_binding_path_string, spec_entity_set_path_string, spec_key_path_string,
    BindingPathSegment, DocumentModel, EntityContainerElement, EntitySetPathSegment, EnumMember,
    KeyPathSegment, MemberRef, Model, NavigationPropertyBinding, OperationParameter,
    OperationReturnType, ResolvedType, SchemaElement, TermType,
};
use crate::text::{concat, concat3, decimal, lemma_decimal_injective, owned, str_eq, strs, to_decimal};

verus! {

#[derive(Debug)]
pub struct Graph {
    pub nodes: Vec<Node>,
    pub edges: Vec<Edge>,
    pub paths: Vec<Path>,
}

#[derive(Debug)]
pub struct Node {
    pub id: String,
    pub kind: String,
    pub label: String,
}

#[derive(Debug)]
pub struct Edge {
    pub id: String,
    pub source: String,
    pub target: String,
    pub kind: String,
    pub label: String,
}

#[derive(Debug)]
pub struct Segment {
    pub node: String,
    pub order: u32,
}

#[derive(Debug)]
pub struct Path {
    pub id: String,
    pub owner: String,
    pub label: String,
    pub segments: Vec<Segment>,
}

pub struct NodeView {
    pub id: Seq<char>,
    pub kind: Seq<char>,
    pub label: Seq<char>,
}

pub struct EdgeView {
    pub id: Seq<char>,
    pub source: Seq<char>,
    pub target: Seq<char>,
    pub kind: Seq<char>,
    pub label: Seq<char>,
}

pub struct SegmentView {
    pub node: Seq<char>,
    pub order: u32,
}

pub struct PathView {
    pub id: Seq<char>,
    pub owner: Seq<char>,
    pub label: Seq<char>,
    pub segments: Seq<SegmentView>,
}

pub struct GraphView {
    pub nodes: Seq<NodeView>,
    pub edges: Seq<EdgeView>,
    pub paths: Seq<PathView>,
}

impl View for Node {
    type V = NodeView;

    open spec fn view(&self) -> NodeView {
        NodeView { id: self.id@, kind: self.kind@, label: self.label@ }
    }
}

impl View for Edge {
    type V = EdgeView;

    open spec fn view(&self) -> EdgeView {
        EdgeView {
            id: self.id@,
            source: self.source@,
            target: self.target@,
            kind: self.kind@,
            label: self.label@,
        }
    }
}

impl View for Segment {
    type V = SegmentView;

    open spec fn view(&self) -> SegmentView {
        SegmentView { node: self.node@, order: self.order }
    }
}

impl View for Path {
    type V = PathView;

    open spec fn view(&self) -> PathView {
        PathView {
            id: self.id@,
            owner: self.owner@,
            label: self.label@,
            segments: self.segments@.map_values(|s: Segment| s@),
        }
    }
}

pub open spec fn node_views(v: Seq<Node>) -> Seq<NodeView> {
    v.map_values(|n: Node| n@)
}

pub open spec fn edge_views(v: Seq<Edge>) -> Seq<EdgeView> {
    v.map_values(|e: Edge| e@)
}

pub open spec fn path_views(v: Seq<Path>) -> Seq<PathView> {
    v.map_values(|p: Path| p@)
}

impl View for Graph {
    type V = GraphView;

    open spec fn view(&self) -> GraphView {
        GraphView {
            nodes: node_views(self.nodes@),
            edges: edge_views(self.edges@),
            paths: path_views(self.paths@),
        }
    }
}

/// The model element a node stands for, within its schema.
#[derive(Debug, Clone, Copy, PartialEq, Eq, Structural)]
pub enum ElementKey {
    Schema,
    EntityType(usize),
    ComplexType(usize),
    EnumType(usize),
    /// An enum type and the member's position in it.
    EnumMember(usize, usize),
    TypeDefinition(usize),
    Term(usize),
    Function(usize),
    Action(usize),
    Container,
    /// A container element by its position.
    ContainerElement(usize),
    Property(crate::edm::MemberRef),
    NavigationProperty(crate::edm::MemberRef),
}

/// A node registered for an element of schema `schema`.
pub struct RegView {
    pub schema: usize,
    pub key: ElementKey,
    pub id: Seq<char>,
}

/// What the graph holds while it is built: its nodes, edges and paths, and
/// the registrations of nodes under elements, in order.
pub struct BuildState {
    pub nodes: Seq<NodeView>,
    pub edges: Seq<EdgeView>,
    pub paths: Seq<PathView>,
    pub regs: Seq<RegView>,
}

// ---------------------------------------------------------------------------
// Specification of the building steps
// ---------------------------------------------------------------------------

pub open spec fn node_ids(nodes: Seq<NodeView>) -> Seq<Seq<char>> {
    nodes.map_values(|n: NodeView| n.id)
}

pub open spec fn edge_ids(edges: Seq<EdgeView>) -> Seq<Seq<char>> {
    edges.map_values(|e: EdgeView| e.id)
}

/// `base~n`.
pub open spec fn suffixed(base: Seq<char>, n: nat) -> Seq<char> {
    base + "~"@ + decimal(n)
}

/// `base~2` up to `base~(n-1)` are all taken.
pub open spec fn taken_below(used: Seq<Seq<char>>, base: Seq<char>, n: nat) -> bool {
    forall|k: nat| 2 <= k < n ==> used.contains(#[trigger] suffixed(base, k))
}

/// The id a node asking for `base` gets: `base` itself when no node has it,
/// else `base~n` for the least `n >= 2` that no node has.
pub open spec fn fresh_id(used: Seq<Seq<char>>, base: Seq<char>) -> Seq<char> {
    if !used.contains(base) {
        base
    } else {
        suffixed(
            base,
            choose|n: nat|
                2 <= n && !used.contains(#[trigger] suffixed(base, n)) && taken_below(used, base, n),
        )
    }
}

/// Adds a node asking for id `base`, registered under `key` if given.
pub open spec fn reg_node(
    st: BuildState,
    base: Seq<char>,
    kind: Seq<char>,
    label: Seq<char>,
    key: Option<(usize, ElementKey)>,
) -> BuildState {
    let id = fresh_id(node_ids(st.nodes), base);
    BuildState {
        nodes: st.nodes.push(NodeView { id, kind, label }),
        regs: match key {
            Some(k) => st.regs.push(RegView { schema: k.0, key: k.1, id }),
            None => st.regs,
        },
        ..st
    }
}

/// The id of the node registered last under element `k` of schema `s`.
pub open spec fn lookup(regs: Seq<RegView>, s: usize, k: ElementKey) -> Option<Seq<char>>
    decreases regs.len(),
{
    if regs.len() == 0 {
        None
    } else if regs.last().schema == s && regs.last().key == k {
        Some(regs.last().id)
    } else {
        lookup(regs.drop_last(), s, k)
    }
}

pub open spec fn edge_id(src: Seq<char>, tgt: Seq<char>, kind: Seq<char>) -> Seq<char> {
    src + "->"@ + tgt + ":"@ + kind
}

/// Adds the edge `src->tgt:kind` unless an edge has that id already.
pub open spec fn add_edge(
    st: BuildState,
    src: Seq<char>,
    tgt: Seq<char>,
    kind: Seq<char>,
    label: Seq<char>,
) -> BuildState {
    let id = edge_id(src, tgt, kind);
    if edge_ids(st.edges).contains(id) {
        st
    } else {
        BuildState {
            edges: st.edges.push(EdgeView { id, source: src, target: tgt, kind, label }),
            ..st
        }
    }
}

/// The node ids with runs of one id reduced to a single occurrence.
pub open spec fn dedup_adjacent(ns: Seq<Seq<char>>) -> Seq<Seq<char>>
    decreases ns.len(),
{
    if ns.len() == 0 {
        ns
    } else {
        let d = dedup_adjacent(ns.drop_last());
        if d.len() > 0 && d.last() == ns.last() {
            d
        } else {
            d.push(ns.last())
        }
    }
}

/// The segments of a path through `ns`, numbered from 1 (modulo 2^32).
pub open spec fn numbered(ns: Seq<Seq<char>>) -> Seq<SegmentView> {
    Seq::new(ns.len(), |k: int| SegmentView { node: ns[k], order: ((k + 1) % 4294967296) as u32 })
}

/// Adds a path through `nodes` (adjacent repeats dropped) if it threads at
/// least one edge, that is, visits at least two nodes.
pub open spec fn add_path(
    st: BuildState,
    id: Seq<char>,
    owner: Seq<char>,
    label: Seq<char>,
    nodes: Seq<Seq<char>>,
) -> BuildState {
    let d = dedup_adjacent(nodes);
    if d.len() < 2 {
        st
    } else {
        BuildState {
            paths: st.paths.push(PathView { id, owner, label, segments: numbered(d) }),
            ..st
        }
    }
}

pub open spec fn distinct_ids(ids: Seq<Seq<char>>) -> bool {
    forall|i: int, j: int| 0 <= i < j < ids.len() ==> ids[i] != ids[j]
}

// ---------------------------------------------------------------------------
// First pass: nodes
// ---------------------------------------------------------------------------

/// `ns.name`
pub open spec fn qualified(ns: Seq<char>, name: Seq<char>) -> Seq<char> {
    ns + "."@ + name
}

/// `id/name`
pub open spec fn child(id: Seq<char>, name: Seq<char>) -> Seq<char> {
    id + "/"@ + name
}

/// Nodes for the first `n` members `refs` of the type whose node is `owner`:
/// structural properties, or navigation properties when `nav`. A reference
/// that names no member of `m` gets no node.
pub open spec fn reg_members(
    st: BuildState,
    m: Model,
    s: usize,
    owner: Seq<char>,
    refs: Seq<MemberRef>,
    nav: bool,
    n: nat,
) -> BuildState
    decreases n,
{
    if n == 0 {
        st
    } else {
        let st1 = reg_members(st, m, s, owner, refs, nav, (n - 1) as nat);
        let r = refs[n - 1];
        if nav {
            match navigation_at(m, r) {
                Some(x) => reg_node(
                    st1,
                    child(owner, x.name@),
                    "NavigationProperty"@,
                    x.name@,
                    Some((s, ElementKey::NavigationProperty(r))),
                ),
                None => st1,
            }
        } else {
            match property_at(m, r) {
                Some(x) => reg_node(
                    st1,
                    child(owner, x.name@),
                    "Property"@,
                    x.name@,
                    Some((s, ElementKey::Property(r))),
                ),
                None => st1,
            }
        }
    }
}

/// The node of an entity or complex type, then those of its effective
/// properties and navigation properties.
pub open spec fn reg_structured(
    st: BuildState,
    m: Model,
    s: usize,
    kind: Seq<char>,
    name: Seq<char>,
    key: ElementKey,
    props: Seq<MemberRef>,
    navs: Seq<MemberRef>,
) -> BuildState {
    let base = qualified(m.namespace@, name);
    let id = fresh_id(node_ids(st.nodes), base);
    let st1 = reg_node(st, base, kind, name, Some((s, key)));
    let st2 = reg_members(st1, m, s, id, props, false, props.len());
    reg_members(st2, m, s, id, navs, true, navs.len())
}

pub open spec fn reg_enum_members(
    st: BuildState,
    s: usize,
    k: usize,
    owner: Seq<char>,
    members: Seq<EnumMember>,
    n: nat,
) -> BuildState
    decreases n,
{
    if n == 0 {
        st
    } else {
        let st1 = reg_enum_members(st, s, k, owner, members, (n - 1) as nat);
        let x = members[n - 1];
        reg_node(
            st1,
            child(owner, x.name@),
            "EnumMember"@,
            x.name@,
            Some((s, ElementKey::EnumMember(k, (n - 1) as usize))),
        )
    }
}

/// Parameter nodes; they are registered under no element.
pub open spec fn reg_params(
    st: BuildState,
    owner: Seq<char>,
    params: Seq<OperationParameter>,
    n: nat,
) -> BuildState
    decreases n,
{
    if n == 0 {
        st
    } else {
        let st1 = reg_params(st, owner, params, (n - 1) as nat);
        let p = params[n - 1];
        reg_node(st1, child(owner, p.name@), "Parameter"@, p.name@, None)
    }
}

/// A named node `ns.name` with child nodes for the operation's parameters.
pub open spec fn reg_operation(
    st: BuildState,
    m: Model,
    s: usize,
    kind: Seq<char>,
    name: Seq<char>,
    key: ElementKey,
    params: Seq<OperationParameter>,
) -> BuildState {
    let base = qualified(m.namespace@, name);
    let id = fresh_id(node_ids(st.nodes), base);
    reg_params(reg_node(st, base, kind, name, Some((s, key))), id, params, params.len())
}

/// The nodes of one schema element; an element naming no arena entry gets
/// none.
pub open spec fn reg_element(st: BuildState, m: Model, s: usize, el: SchemaElement) -> BuildState {
    let ns = m.namespace@;
    match el {
        SchemaElement::EntityType(k) => if k < m.entity_types@.len() {
            let x = m.entity_types@[k as int];
            reg_structured(
                st,
                m,
                s,
                "EntityType"@,
                x.name@,
                ElementKey::EntityType(k),
                x.properties@,
                x.navigation_properties@,
            )
        } else {
            st
        },
        SchemaElement::ComplexType(k) => if k < m.complex_types@.len() {
            let x = m.complex_types@[k as int];
            reg_structured(
                st,
                m,
                s,
                "ComplexType"@,
                x.name@,
                ElementKey::ComplexType(k),
                x.properties@,
                x.navigation_properties@,
            )
        } else {
            st
        },
        SchemaElement::EnumType(k) => if k < m.enum_types@.len() {
            let x = m.enum_types@[k as int];
            let base = qualified(ns, x.name@);
            let id = fresh_id(node_ids(st.nodes), base);
            reg_enum_members(
                reg_node(st, base, "EnumType"@, x.name@, Some((s, ElementKey::EnumType(k)))),
                s,
                k,
                id,
                x.members@,
                x.members@.len(),
            )
        } else {
            st
        },
        SchemaElement::TypeDefinition(k) => if k < m.type_definitions@.len() {
            let x = m.type_definitions@[k as int];
            reg_node(
                st,
                qualified(ns, x.name@),
                "TypeDefinition"@,
                x.name@,
                Some((s, ElementKey::TypeDefinition(k))),
            )
        } else {
            st
        },
        SchemaElement::Term(k) => if k < m.terms@.len() {
            let x = m.terms@[k as int];
            reg_node(st, qualified(ns, x.name@), "Term"@, x.name@, Some((s, ElementKey::Term(k))))
        } else {
            st
        },
        SchemaElement::Function(k) => if k < m.functions@.len() {
            let x = m.functions@[k as int];
            reg_operation(st, m, s, "Function"@, x.name@, ElementKey::Function(k), x.parameters@)
        } else {
            st
        },
        SchemaElement::Action(k) => if k < m.actions@.len() {
            let x = m.actions@[k as int];
            reg_operation(st, m, s, "Action"@, x.name@, ElementKey::Action(k), x.parameters@)
        } else {
            st
        },
    }
}

pub open spec fn reg_elements(st: BuildState, m: Model, s: usize, n: nat) -> BuildState
    decreases n,
{
    if n == 0 {
        st
    } else {
        reg_element(reg_elements(st, m, s, (n - 1) as nat), m, s, m.elements@[n - 1])
    }
}

pub open spec fn container_element_kind(e: EntityContainerElement) -> Seq<char> {
    match e {
        EntityContainerElement::EntitySet(_) => "EntitySet"@,
        EntityContainerElement::Singleton(_) => "Singleton"@,
        EntityContainerElement::FunctionImport(_) => "FunctionImport"@,
        EntityContainerElement::ActionImport(_) => "ActionImport"@,
    }
}

pub open spec fn container_element_name(e: EntityContainerElement) -> Seq<char> {
    match e {
        EntityContainerElement::EntitySet(x) => x.name@,
        EntityContainerElement::Singleton(x) => x.name@,
        EntityContainerElement::FunctionImport(x) => x.name@,
        EntityContainerElement::ActionImport(x) => x.name@,
    }
}

pub open spec fn reg_container_elements(
    st: BuildState,
    s: usize,
    cid: Seq<char>,
    els: Seq<EntityContainerElement>,
    n: nat,
) -> BuildState
    decreases n,
{
    if n == 0 {
        st
    } else {
        let st1 = reg_container_elements(st, s, cid, els, (n - 1) as nat);
        let e = els[n - 1];
        reg_node(
            st1,
            child(cid, container_element_name(e)),
            container_element_kind(e),
            container_element_name(e),
            Some((s, ElementKey::ContainerElement((n - 1) as usize))),
        )
    }
}

pub open spec fn reg_container(st: BuildState, m: Model, s: usize) -> BuildState {
    match m.entity_container {
        Some(c) => {
            let base = qualified(m.namespace@, c.name@);
            let cid = fresh_id(node_ids(st.nodes), base);
            reg_container_elements(
                reg_node(st, base, "EntityContainer"@, c.name@, Some((s, ElementKey::Container))),
                s,
                cid,
                c.elements@,
                c.elements@.len(),
            )
        },
        None => st,
    }
}

/// The nodes of schema `s`: the schema, its elements in order with their
/// members, then its container and the container's elements.
pub open spec fn reg_schema(st: BuildState, m: Model, s: usize) -> BuildState {
    let ns = m.namespace@;
    let st1 = reg_node(st, ns, "Schema"@, ns, Some((s, ElementKey::Schema)));
    reg_container(reg_elements(st1, m, s, m.elements@.len()), m, s)
}

pub open spec fn pass_nodes(st: BuildState, schemas: Seq<Model>, n: nat) -> BuildState
    decreases n,
{
    if n == 0 {
        st
    } else {
        reg_schema(pass_nodes(st, schemas, (n - 1) as nat), schemas[n - 1], (n - 1) as usize)
    }
}

// ---------------------------------------------------------------------------
// Second pass: edges and paths
// ---------------------------------------------------------------------------

/// The node of a structural property's type, if the type has one.
pub open spec fn resolved_type_id(regs: Seq<RegView>, s: usize, t: ResolvedType) -> Option<Seq<char>> {
    match t {
        ResolvedType::Complex(a) => lookup(regs, s, ElementKey::ComplexType(a)),
        ResolvedType::Enum(a) => lookup(regs, s, ElementKey::EnumType(a)),
        ResolvedType::TypeDefinition(a) => lookup(regs, s, ElementKey::TypeDefinition(a)),
        ResolvedType::Primitive(_) => None,
    }
}

/// The node of a term, parameter or return type, if the type has one.
pub open spec fn term_type_id(regs: Seq<RegView>, s: usize, t: TermType) -> Option<Seq<char>> {
    match t {
        TermType::Complex(a) => lookup(regs, s, ElementKey::ComplexType(a)),
        TermType::Enum(a) => lookup(regs, s, ElementKey::EnumType(a)),
        TermType::TypeDefinition(a) => lookup(regs, s, ElementKey::TypeDefinition(a)),
        TermType::Entity(a) => lookup(regs, s, ElementKey::EntityType(a)),
        TermType::Primitive(_) => None,
    }
}

pub open spec fn opt_seq(o: Option<Seq<char>>) -> Seq<Seq<char>> {
    match o {
        Some(x) => seq![x],
        None => Seq::empty(),
    }
}

/// A property segment threads the property's node, then its type's node.
pub open spec fn property_seg_nodes(regs: Seq<RegView>, m: Model, s: usize, r: MemberRef) -> Seq<
    Seq<char>,
> {
    match property_at(m, r) {
        Some(p) => match lookup(regs, s, ElementKey::Property(r)) {
            Some(id) => seq![id] + opt_seq(resolved_type_id(regs, s, p.ty)),
            None => Seq::empty(),
        },
        None => Seq::empty(),
    }
}

/// A navigation segment threads the navigation property's node, then its
/// target's node.
pub open spec fn nav_seg_nodes(regs: Seq<RegView>, m: Model, s: usize, r: MemberRef) -> Seq<
    Seq<char>,
> {
    match navigation_at(m, r) {
        Some(n) => match lookup(regs, s, ElementKey::NavigationProperty(r)) {
            Some(id) => seq![id] + opt_seq(lookup(regs, s, ElementKey::EntityType(n.target))),
            None => Seq::empty(),
        },
        None => Seq::empty(),
    }
}

/// The entity type of container element `i`, if it is an entity set (or a
/// singleton when `singleton`).
pub open spec fn element_target(m: Model, i: usize, singleton: bool) -> Option<usize> {
    match m.entity_container {
        Some(c) => if i < c.elements@.len() {
            match c.elements@[i as int] {
                EntityContainerElement::EntitySet(x) => if singleton {
                    None
                } else {
                    Some(x.target)
                },
                EntityContainerElement::Singleton(x) => if singleton {
                    Some(x.target)
                } else {
                    None
                },
                _ => None,
            }
        } else {
            None
        },
        None => None,
    }
}

pub open spec fn set_seg_nodes(regs: Seq<RegView>, m: Model, s: usize, i: usize, singleton: bool) -> Seq<
    Seq<char>,
> {
    match element_target(m, i, singleton) {
        Some(t) => match lookup(regs, s, ElementKey::ContainerElement(i)) {
            Some(id) => seq![id] + opt_seq(lookup(regs, s, ElementKey::EntityType(t))),
            None => Seq::empty(),
        },
        None => Seq::empty(),
    }
}

/// The nodes a binding-path segment threads; unresolved segments thread
/// none.
pub open spec fn binding_seg_nodes(
    regs: Seq<RegView>,
    m: Model,
    s: usize,
    seg: BindingPathSegment,
) -> Seq<Seq<char>> {
    match seg {
        BindingPathSegment::Property(r) => property_seg_nodes(regs, m, s, r),
        BindingPathSegment::NavigationProperty(r) => nav_seg_nodes(regs, m, s, r),
        BindingPathSegment::EntitySet(i) => set_seg_nodes(regs, m, s, i, false),
        BindingPathSegment::Singleton(i) => set_seg_nodes(regs, m, s, i, true),
        BindingPathSegment::EntityTypeCast(k) => opt_seq(lookup(regs, s, ElementKey::EntityType(k))),
        BindingPathSegment::ComplexTypeCast(k) => opt_seq(lookup(regs, s, ElementKey::ComplexType(k))),
        BindingPathSegment::EntityContainer => opt_seq(lookup(regs, s, ElementKey::Container)),
        BindingPathSegment::Unresolved(_) => Seq::empty(),
    }
}

pub open spec fn binding_nodes(
    regs: Seq<RegView>,
    m: Model,
    s: usize,
    segs: Seq<BindingPathSegment>,
    n: nat,
) -> Seq<Seq<char>>
    decreases n,
{
    if n == 0 {
        Seq::empty()
    } else {
        binding_nodes(regs, m, s, segs, (n - 1) as nat) + binding_seg_nodes(regs, m, s, segs[n - 1])
    }
}

pub open spec fn key_nodes(regs: Seq<RegView>, m: Model, s: usize, segs: Seq<KeyPathSegment>, n: nat) -> Seq<
    Seq<char>,
>
    decreases n,
{
    if n == 0 {
        Seq::empty()
    } else {
        key_nodes(regs, m, s, segs, (n - 1) as nat) + match segs[n - 1] {
            KeyPathSegment::Property(r) => property_seg_nodes(regs, m, s, r),
            KeyPathSegment::Unresolved(_) => Seq::empty(),
        }
    }
}

/// The first parameter with the given name.
pub open spec fn first_param(params: Seq<OperationParameter>, name: Seq<char>) -> Option<
    OperationParameter,
>
    decreases params.len(),
{
    if params.len() == 0 {
        None
    } else if params[0].name@ == name {
        Some(params[0])
    } else {
        first_param(params.drop_first(), name)
    }
}

/// The nodes an entity-set-path segment threads: the binding parameter's
/// entity type for the head, as for a binding path otherwise.
pub open spec fn esp_seg_nodes(
    regs: Seq<RegView>,
    m: Model,
    s: usize,
    params: Seq<OperationParameter>,
    seg: EntitySetPathSegment,
) -> Seq<Seq<char>> {
    match seg {
        EntitySetPathSegment::BindingParameter(name) => match first_param(params, name@) {
            Some(p) => match p.ty {
                TermType::Entity(e) => opt_seq(lookup(regs, s, ElementKey::EntityType(e))),
                _ => Seq::empty(),
            },
            None => Seq::empty(),
        },
        EntitySetPathSegment::NavigationProperty(r) => nav_seg_nodes(regs, m, s, r),
        EntitySetPathSegment::Property(r) => property_seg_nodes(regs, m, s, r),
        EntitySetPathSegment::Unresolved(_) => Seq::empty(),
    }
}

pub open spec fn esp_nodes(
    regs: Seq<RegView>,
    m: Model,
    s: usize,
    params: Seq<OperationParameter>,
    segs: Seq<EntitySetPathSegment>,
    n: nat,
) -> Seq<Seq<char>>
    decreases n,
{
    if n == 0 {
        Seq::empty()
    } else {
        esp_nodes(regs, m, s, params, segs, (n - 1) as nat) + esp_seg_nodes(regs, m, s, params, segs[n - 1])
    }
}

/// `Declares` edges from a type to its first `n` members (structural, or
/// navigation when `nav`), each followed by the member's type edge.
pub open spec fn member_edges(
    st: BuildState,
    m: Model,
    s: usize,
    type_id: Seq<char>,
    refs: Seq<MemberRef>,
    nav: bool,
    n: nat,
) -> BuildState
    decreases n,
{
    if n == 0 {
        st
    } else {
        let st1 = member_edges(st, m, s, type_id, refs, nav, (n - 1) as nat);
        let r = refs[n - 1];
        if nav {
            match lookup(st1.regs, s, ElementKey::NavigationProperty(r)) {
                Some(nid) => {
                    let st2 = add_edge(st1, type_id, nid, "Declares"@, "has"@);
                    match navigation_at(m, r) {
                        Some(x) => match lookup(st2.regs, s, ElementKey::EntityType(x.target)) {
                            Some(tid) => add_edge(st2, nid, tid, "NavigationTarget"@, "Type"@),
                            None => st2,
                        },
                        None => st2,
                    }
                },
                None => st1,
            }
        } else {
            match lookup(st1.regs, s, ElementKey::Property(r)) {
                Some(pid) => {
                    let st2 = add_edge(st1, type_id, pid, "Declares"@, "has"@);
                    match property_at(m, r) {
                        Some(x) => match resolved_type_id(st2.regs, s, x.ty) {
                            Some(tid) => add_edge(st2, pid, tid, "PropertyType"@, "Type"@),
                            None => st2,
                        },
                        None => st2,
                    }
                },
                None => st1,
            }
        }
    }
}

/// One path per entity key, `id/key/i`, from the entity through the key's
/// segments.
pub open spec fn key_paths(
    st: BuildState,
    m: Model,
    s: usize,
    entity_id: Seq<char>,
    keys: Seq<Vec<KeyPathSegment>>,
    n: nat,
) -> BuildState
    decreases n,
{
    if n == 0 {
        st
    } else {
        let st1 = key_paths(st, m, s, entity_id, keys, (n - 1) as nat);
        let key = keys[n - 1]@;
        add_path(
            st1,
            entity_id + "/key/"@ + decimal((n - 1) as nat),
            entity_id,
            "Key: "@ + spec_key_path_string(key, m),
            seq![entity_id] + key_nodes(st1.regs, m, s, key, key.len()),
        )
    }
}

/// One path per navigation property with a partner, `nav/partner`, from the
/// navigation's target through the partner path.
pub open spec fn partner_paths(st: BuildState, m: Model, s: usize, navs: Seq<MemberRef>, n: nat) -> BuildState
    decreases n,
{
    if n == 0 {
        st
    } else {
        let st1 = partner_paths(st, m, s, navs, (n - 1) as nat);
        let r = navs[n - 1];
        match navigation_at(m, r) {
            Some(x) => match x.partner {
                Some(p) => match lookup(st1.regs, s, ElementKey::NavigationProperty(r)) {
                    Some(nav_id) => match lookup(st1.regs, s, ElementKey::EntityType(x.target)) {
                        Some(anchor) => add_path(
                            st1,
                            nav_id + "/partner"@,
                            nav_id,
                            "Partner: "@ + spec_binding_path_string(p@, m),
                            seq![anchor] + binding_nodes(st1.regs, m, s, p@, p@.len()),
                        ),
                        None => st1,
                    },
                    None => st1,
                },
                None => st1,
            },
            None => st1,
        }
    }
}

/// `Declares` edges to the parameters (by their `owner/name` ids) with
/// their type edges.
pub open spec fn param_edges(
    st: BuildState,
    s: usize,
    owner: Seq<char>,
    params: Seq<OperationParameter>,
    n: nat,
) -> BuildState
    decreases n,
{
    if n == 0 {
        st
    } else {
        let st1 = param_edges(st, s, owner, params, (n - 1) as nat);
        let p = params[n - 1];
        let pid = child(owner, p.name@);
        let st2 = add_edge(st1, owner, pid, "Declares"@, "has"@);
        match term_type_id(st2.regs, s, p.ty) {
            Some(tid) => add_edge(st2, pid, tid, "ParameterType"@, "Type"@),
            None => st2,
        }
    }
}

pub open spec fn return_edge(st: BuildState, s: usize, owner: Seq<char>, ret: Option<OperationReturnType>) -> BuildState {
    match ret {
        Some(r) => match term_type_id(st.regs, s, r.ty) {
            Some(tid) => add_edge(st, owner, tid, "ReturnType"@, "ReturnType"@),
            None => st,
        },
        None => st,
    }
}

pub open spec fn esp_path(
    st: BuildState,
    m: Model,
    s: usize,
    owner: Seq<char>,
    esp: Option<Vec<EntitySetPathSegment>>,
    params: Seq<OperationParameter>,
) -> BuildState {
    match esp {
        Some(v) => add_path(
            st,
            owner + "/entitysetpath"@,
            owner,
            "EntitySetPath: "@ + spec_entity_set_path_string(v@, m),
            esp_nodes(st.regs, m, s, params, v@, v@.len()),
        ),
        None => st,
    }
}

pub open spec fn operation_edges(
    st: BuildState,
    m: Model,
    s: usize,
    owner: Seq<char>,
    params: Seq<OperationParameter>,
    ret: Option<OperationReturnType>,
    esp: Option<Vec<EntitySetPathSegment>>,
) -> BuildState {
    esp_path(return_edge(param_edges(st, s, owner, params, params.len()), s, owner, ret), m, s, owner, esp, params)
}

pub open spec fn enum_member_edges(st: BuildState, s: usize, k: usize, id: Seq<char>, n: nat) -> BuildState
    decreases n,
{
    if n == 0 {
        st
    } else {
        let st1 = enum_member_edges(st, s, k, id, (n - 1) as nat);
        match lookup(st1.regs, s, ElementKey::EnumMember(k, (n - 1) as usize)) {
            Some(mid) => add_edge(st1, id, mid, "Declares"@, "has"@),
            None => st1,
        }
    }
}

/// The edges and paths of one schema element, after its `Contains` edge
/// from the schema.
pub open spec fn element_edges(st: BuildState, m: Model, s: usize, schema_id: Seq<char>, el: SchemaElement) -> BuildState {
    match el {
        SchemaElement::EntityType(k) => if k < m.entity_types@.len() {
            let x = m.entity_types@[k as int];
            match lookup(st.regs, s, ElementKey::EntityType(k)) {
                Some(id) => {
                    let st1 = add_edge(st, schema_id, id, "Contains"@, "has"@);
                    let st2 = member_edges(st1, m, s, id, x.properties@, false, x.properties@.len());
                    let st3 = member_edges(
                        st2,
                        m,
                        s,
                        id,
                        x.navigation_properties@,
                        true,
                        x.navigation_properties@.len(),
                    );
                    let st4 = key_paths(st3, m, s, id, x.keys@, x.keys@.len());
                    partner_paths(st4, m, s, x.navigation_properties@, x.navigation_properties@.len())
                },
                None => st,
            }
        } else {
            st
        },
        SchemaElement::ComplexType(k) => if k < m.complex_types@.len() {
            let x = m.complex_types@[k as int];
            match lookup(st.regs, s, ElementKey::ComplexType(k)) {
                Some(id) => {
                    let st1 = add_edge(st, schema_id, id, "Contains"@, "has"@);
                    let st2 = member_edges(st1, m, s, id, x.properties@, false, x.properties@.len());
                    let st3 = member_edges(
                        st2,
                        m,
                        s,
                        id,
                        x.navigation_properties@,
                        true,
                        x.navigation_properties@.len(),
                    );
                    partner_paths(st3, m, s, x.navigation_properties@, x.navigation_properties@.len())
                },
                None => st,
            }
        } else {
            st
        },
        SchemaElement::EnumType(k) => if k < m.enum_types@.len() {
            match lookup(st.regs, s, ElementKey::EnumType(k)) {
                Some(id) => enum_member_edges(
                    add_edge(st, schema_id, id, "Contains"@, "has"@),
                    s,
                    k,
                    id,
                    m.enum_types@[k as int].members@.len(),
                ),
                None => st,
            }
        } else {
            st
        },
        SchemaElement::TypeDefinition(k) => match lookup(st.regs, s, ElementKey::TypeDefinition(k)) {
            Some(id) => add_edge(st, schema_id, id, "Contains"@, "has"@),
            None => st,
        },
        SchemaElement::Term(k) => if k < m.terms@.len() {
            match lookup(st.regs, s, ElementKey::Term(k)) {
                Some(id) => {
                    let st1 = add_edge(st, schema_id, id, "Contains"@, "has"@);
                    match m.terms@[k as int].ty {
                        Some(tt) => match term_type_id(st1.regs, s, tt) {
                            Some(tid) => add_edge(st1, id, tid, "TermType"@, "Type"@),
                            None => st1,
                        },
                        None => st1,
                    }
                },
                None => st,
            }
        } else {
            st
        },
        SchemaElement::Function(k) => if k < m.functions@.len() {
            let x = m.functions@[k as int];
            match lookup(st.regs, s, ElementKey::Function(k)) {
                Some(id) => operation_edges(
                    add_edge(st, schema_id, id, "Contains"@, "has"@),
                    m,
                    s,
                    id,
                    x.parameters@,
                    x.return_type,
                    x.entity_set_path,
                ),
                None => st,
            }
        } else {
            st
        },
        SchemaElement::Action(k) => if k < m.actions@.len() {
            let x = m.actions@[k as int];
            match lookup(st.regs, s, ElementKey::Action(k)) {
                Some(id) => operation_edges(
                    add_edge(st, schema_id, id, "Contains"@, "has"@),
                    m,
                    s,
                    id,
                    x.parameters@,
                    x.return_type,
                    x.entity_set_path,
                ),
                None => st,
            }
        } else {
            st
        },
    }
}

pub open spec fn elements_edges(st: BuildState, m: Model, s: usize, schema_id: Seq<char>, n: nat) -> BuildState
    decreases n,
{
    if n == 0 {
        st
    } else {
        element_edges(elements_edges(st, m, s, schema_id, (n - 1) as nat), m, s, schema_id, m.elements@[n - 1])
    }
}

/// Per binding `i` of an entity set or singleton: `owner/binding/i/path`
/// from the bound entity type through the binding path, and
/// `owner/binding/i/target` from the container through the target.
pub open spec fn binding_paths(
    st: BuildState,
    m: Model,
    s: usize,
    owner: Seq<char>,
    bound: usize,
    bindings: Seq<NavigationPropertyBinding>,
    cid: Seq<char>,
    n: nat,
) -> BuildState
    decreases n,
{
    if n == 0 {
        st
    } else {
        let st1 = binding_paths(st, m, s, owner, bound, bindings, cid, (n - 1) as nat);
        let b = bindings[n - 1];
        let i = decimal((n - 1) as nat);
        let st2 = match lookup(st1.regs, s, ElementKey::EntityType(bound)) {
            Some(anchor) => add_path(
                st1,
                owner + "/binding/"@ + i + "/path"@,
                owner,
                "Binding path: "@ + spec_binding_path_string(b.path@, m),
                seq![anchor] + binding_nodes(st1.regs, m, s, b.path@, b.path@.len()),
            ),
            None => st1,
        };
        add_path(
            st2,
            owner + "/binding/"@ + i + "/target"@,
            owner,
            "Binding target: "@ + spec_binding_path_string(b.target@, m),
            seq![cid] + binding_nodes(st2.regs, m, s, b.target@, b.target@.len()),
        )
    }
}

pub open spec fn import_path(
    st: BuildState,
    m: Model,
    s: usize,
    import_id: Seq<char>,
    es: Option<Vec<BindingPathSegment>>,
    cid: Seq<char>,
) -> BuildState {
    match es {
        Some(v) => add_path(
            st,
            import_id + "/entityset"@,
            import_id,
            "EntitySet: "@ + spec_binding_path_string(v@, m),
            seq![cid] + binding_nodes(st.regs, m, s, v@, v@.len()),
        ),
        None => st,
    }
}

pub open spec fn container_element_edges(
    st: BuildState,
    m: Model,
    s: usize,
    cid: Seq<char>,
    els: Seq<EntityContainerElement>,
    n: nat,
) -> BuildState
    decreases n,
{
    if n == 0 {
        st
    } else {
        let st1 = container_element_edges(st, m, s, cid, els, (n - 1) as nat);
        match lookup(st1.regs, s, ElementKey::ContainerElement((n - 1) as usize)) {
            Some(id) => {
                let st2 = add_edge(st1, cid, id, "Contains"@, "has"@);
                match els[n - 1] {
                    EntityContainerElement::EntitySet(x) => {
                        let st3 = match lookup(st2.regs, s, ElementKey::EntityType(x.target)) {
                            Some(tid) => add_edge(st2, id, tid, "EntityType"@, "EntityType"@),
                            None => st2,
                        };
                        binding_paths(
                            st3,
                            m,
                            s,
                            id,
                            x.target,
                            x.navigation_property_bindings@,
                            cid,
                            x.navigation_property_bindings@.len(),
                        )
                    },
                    EntityContainerElement::Singleton(x) => {
                        let st3 = match lookup(st2.regs, s, ElementKey::EntityType(x.target)) {
                            Some(tid) => add_edge(st2, id, tid, "SingletonType"@, "Type"@),
                            None => st2,
                        };
                        binding_paths(
                            st3,
                            m,
                            s,
                            id,
                            x.target,
                            x.navigation_property_bindings@,
                            cid,
                            x.navigation_property_bindings@.len(),
                        )
                    },
                    EntityContainerElement::FunctionImport(x) => import_path(st2, m, s, id, x.entity_set, cid),
                    EntityContainerElement::ActionImport(x) => import_path(st2, m, s, id, x.entity_set, cid),
                }
            },
            None => st1,
        }
    }
}

pub open spec fn container_edges(st: BuildState, m: Model, s: usize, schema_id: Seq<char>) -> BuildState {
    match m.entity_container {
        Some(c) => match lookup(st.regs, s, ElementKey::Container) {
            Some(cid) => container_element_edges(
                add_edge(st, schema_id, cid, "Contains"@, "has"@),
                m,
                s,
                cid,
                c.elements@,
                c.elements@.len(),
            ),
            None => st,
        },
        None => st,
    }
}

/// The edges and paths of schema `s`: its elements' in order, then its
/// container's.
pub open spec fn schema_edges(st: BuildState, m: Model, s: usize) -> BuildState {
    match lookup(st.regs, s, ElementKey::Schema) {
        Some(sid) => container_edges(elements_edges(st, m, s, sid, m.elements@.len()), m, s, sid),
        None => st,
    }
}

pub open spec fn pass_edges(st: BuildState, schemas: Seq<Model>, n: nat) -> BuildState
    decreases n,
{
    if n == 0 {
        st
    } else {
        schema_edges(pass_edges(st, schemas, (n - 1) as nat), schemas[n - 1], (n - 1) as usize)
    }
}

pub open spec fn empty_state() -> BuildState {
    BuildState { nodes: Seq::empty(), edges: Seq::empty(), paths: Seq::empty(), regs: Seq::empty() }
}

/// The graph of a document model: the nodes of all schemas, then the edges
/// and paths of all schemas.
pub open spec fn graph_of(doc: DocumentModel) -> GraphView {
    let schemas = doc.schemas@;
    let st = pass_edges(pass_nodes(empty_state(), schemas, schemas.len()), schemas, schemas.len());
    GraphView { nodes: st.nodes, edges: st.edges, paths: st.paths }
}

pub open spec fn edges_wf(edges: Seq<EdgeView>) -> bool {
    &&& distinct_ids(edge_ids(edges))
    &&& forall|i: int|
        0 <= i < edges.len() ==> #[trigger] edges[i].id == edge_id(
            edges[i].source,
            edges[i].target,
            edges[i].kind,
        )
}

pub open spec fn path_wf(p: PathView) -> bool {
    &&& p.segments.len() >= 2
    &&& forall|k: int| 0 <= k < p.segments.len() - 1 ==> #[trigger] p.segments[k].node != p.segments[k + 1].node
    &&& forall|k: int| 0 <= k < p.segments.len() ==> #[trigger] p.segments[k].order == ((k + 1) % 4294967296) as u32
}

pub open spec fn paths_wf(paths: Seq<PathView>) -> bool {
    forall|i: int| 0 <= i < paths.len() ==> path_wf(#[trigger] paths[i])
}

/// What adding edges and paths keeps: the nodes, the registrations, and the
/// well-formedness of edges and of paths.
pub open spec fn keeps(a: BuildState, b: BuildState) -> bool {
    &&& b.nodes == a.nodes
    &&& b.regs == a.regs
    &&& edges_wf(a.edges) ==> edges_wf(b.edges)
    &&& paths_wf(a.paths) ==> paths_wf(b.paths)
}

/// What adding nodes keeps: the edges and the paths.
pub open spec fn same_links(a: BuildState, b: BuildState) -> bool {
    b.edges == a.edges && b.paths == a.paths
}

pub open spec fn opt_view(o: Option<String>) -> Option<Seq<char>> {
    match o {
        Some(x) => Some(x@),
        None => None,
    }
}

// ---------------------------------------------------------------------------
// Lemmas on ids
// ---------------------------------------------------------------------------

/// At most `used.len()` of the ids `base~2`, `base~3`, ... are taken.
proof fn lemma_taken_bound(used: Seq<Seq<char>>, base: Seq<char>, n: nat)
    requires
        2 <= n,
        taken_below(used, base, n),
    ensures
        n - 2 <= used.len(),
{
    let ks = set_int_range(2, n as int);
    let f = |k: int| suffixed(base, k as nat);
    lemma_int_range(2, n as int);
    reveal_strlit("~");
    assert forall|a: int, b: int| ks.contains(a) && ks.contains(b) && #[trigger] f(a) == #[trigger] f(b) implies a == b by {
        let la = base.len() + 1;
        assert(suffixed(base, a as nat).skip(la as int) =~= decimal(a as nat));
        assert(suffixed(base, b as nat).skip(la as int) =~= decimal(b as nat));
        lemma_decimal_injective(a as nat, b as nat);
    }
    lemma_map_size(ks, ks.map(f), f);
    assert forall|x: Seq<char>| ks.map(f).contains(x) implies used.to_set().contains(x) by {
        let k = choose|k: int| ks.contains(k) && f(k) == x;
        assert(used.contains(suffixed(base, k as nat)));
    }
    lemma_len_subset(ks.map(f), used.to_set());
    used.lemma_cardinality_of_set();
}

/// A path never visits one node twice in a row.
proof fn lemma_dedup_no_repeat(ns: Seq<Seq<char>>)
    ensures
        forall|k: int|
            0 <= k < dedup_adjacent(ns).len() - 1 ==> #[trigger] dedup_adjacent(ns)[k]
                != dedup_adjacent(ns)[k + 1],
    decreases ns.len(),
{
    if ns.len() > 0 {
        lemma_dedup_no_repeat(ns.drop_last());
        let d = dedup_adjacent(ns.drop_last());
        if !(d.len() > 0 && d.last() == ns.last()) {
            let e = d.push(ns.last());
            assert(dedup_adjacent(ns) == e);
            assert forall|k: int| 0 <= k < e.len() - 1 implies #[trigger] e[k] != e[k + 1] by {
                if k < d.len() - 1 {
                    assert(e[k] == d[k] && e[k + 1] == d[k + 1]);
                } else {
                    assert(e[k] == d.last());
                }
            }
        }
    }
}

/// The least free suffix is the one the loop stops at.
proof fn lemma_fresh_suffix(used: Seq<Seq<char>>, base: Seq<char>, n: nat)
    requires
        used.contains(base),
        2 <= n,
        !used.contains(suffixed(base, n)),
        taken_below(used, base, n),
    ensures
        fresh_id(used, base) == suffixed(base, n),
{
    let c = choose|n: nat|
        2 <= n && !used.contains(#[trigger] suffixed(base, n)) && taken_below(used, base, n);
    assert(2 <= c && !used.contains(suffixed(base, c)) && taken_below(used, base, c));
    if c < n {
        assert(used.contains(suffixed(base, c)));
    }
    if n < c {
        assert(used.contains(suffixed(base, n)));
    }
}

// ---------------------------------------------------------------------------
// The builder
// ---------------------------------------------------------------------------

struct Registration {
    schema: usize,
    key: ElementKey,
    id: String,
}

struct Builder {
    nodes: Vec<Node>,
    edges: Vec<Edge>,
    paths: Vec<Path>,
    regs: Vec<Registration>,
}

spec fn reg_views(v: Seq<Registration>) -> Seq<RegView> {
    v.map_values(|r: Registration| RegView { schema: r.schema, key: r.key, id: r.id@ })
}

impl Builder {
    spec fn state(&self) -> BuildState {
        BuildState {
            nodes: node_views(self.nodes@),
            edges: edge_views(self.edges@),
            paths: path_views(self.paths@),
            regs: reg_views(self.regs@),
        }
    }

    fn new() -> (b: Self)
        ensures
            b.state() == (BuildState {
                nodes: Seq::empty(),
                edges: Seq::empty(),
                paths: Seq::empty(),
                regs: Seq::empty(),
            }),
    {
        let b = Builder { nodes: Vec::new(), edges: Vec::new(), paths: Vec::new(), regs: Vec::new() };
        assert(b.state().nodes =~= Seq::<NodeView>::empty());
        assert(b.state().edges =~= Seq::<EdgeView>::empty());
        assert(b.state().paths =~= Seq::<PathView>::empty());
        assert(b.state().regs =~= Seq::<RegView>::empty());
        b
    }

    fn has_node_id(&self, id: &str) -> (r: bool)
        ensures
            r == node_ids(self.state().nodes).contains(id@),
    {
        let ghost ids = node_ids(self.state().nodes);
        let mut i: usize = 0;
        while i < self.nodes.len()
            invariant
                i <= self.nodes@.len(),
                ids == node_ids(self.state().nodes),
                forall|j: int| 0 <= j < i ==> ids[j] != id@,
            decreases self.nodes.len() - i,
        {
            if str_eq(self.nodes[i].id.as_str(), id) {
                assert(ids[i as int] == id@);
                return true;
            }
            i = i + 1;
        }
        assert(!ids.contains(id@)) by {
            if ids.contains(id@) {
                let j = choose|j: int| 0 <= j < ids.len() && ids[j] == id@;
                assert(ids[j] != id@);
            }
        }
        false
    }

    fn fresh_id(&self, base: String) -> (r: String)
        ensures
            r@ == fresh_id(node_ids(self.state().nodes), base@),
            !node_ids(self.state().nodes).contains(r@),
    {
        let ghost used = node_ids(self.state().nodes);
        if !self.has_node_id(base.as_str()) {
            return base;
        }
        let mut n: u128 = 2;
        loop
            invariant
                used == node_ids(self.state().nodes),
                used.len() == self.nodes.len(),
                used.contains(base@),
                2 <= n <= used.len() + 2,
                taken_below(used, base@, n as nat),
            decreases used.len() + 2 - n,
        {
            let cand = concat3(base.as_str(), "~", to_decimal(n).as_str());
            proof {
                reveal_strlit("~");
            }
            assert(cand@ == suffixed(base@, n as nat));
            if !self.has_node_id(cand.as_str()) {
                proof {
                    lemma_fresh_suffix(used, base@, n as nat);
                }
                return cand;
            }
            proof {
                assert(taken_below(used, base@, (n + 1) as nat)) by {
                    assert forall|k: nat| 2 <= k < n + 1 implies used.contains(#[trigger] suffixed(base@, k)) by {
                        if k < n {
                            assert(taken_below(used, base@, n as nat));
                        }
                    }
                }
                lemma_taken_bound(used, base@, (n + 1) as nat);
            }
            n = n + 1;
        }
    }

    /// Adds a node asking for id `base`; returns the id it got.
    fn node(&mut self, base: String, kind: &str, label: &str, key: Option<(usize, ElementKey)>) -> (id: String)
        ensures
            final(self).state() == reg_node(old(self).state(), base@, kind@, label@, key),
            id@ == fresh_id(node_ids(old(self).state().nodes), base@),
            distinct_ids(node_ids(old(self).state().nodes)) ==> distinct_ids(
                node_ids(final(self).state().nodes),
            ),
            same_links(old(self).state(), final(self).state()),
    {
        let id = self.fresh_id(base);
        let ghost st = self.state();
        let node = Node { id: owned(id.as_str()), kind: owned(kind), label: owned(label) };
        self.nodes.push(node);
        match key {
            Some(k) => {
                self.regs.push(Registration { schema: k.0, key: k.1, id: owned(id.as_str()) });
            },
            None => {},
        }
        proof {
            let want = reg_node(st, base@, kind@, label@, key);
            assert(self.state().nodes =~= want.nodes);
            assert(self.state().regs =~= want.regs);
            let old_ids = node_ids(st.nodes);
            assert(node_ids(self.state().nodes) =~= old_ids.push(id@));
            if distinct_ids(old_ids) {
                assert forall|i: int, j: int| 0 <= i < j < old_ids.len() + 1 implies
                    #[trigger] old_ids.push(id@)[i] != #[trigger] old_ids.push(id@)[j] by {
                    if j == old_ids.len() {
                        assert(old_ids.contains(old_ids[i]));
                    }
                }
            }
        }
        id
    }

    /// The id of the node registered last under element `k` of schema `s`.
    fn lookup(&self, s: usize, k: ElementKey) -> (r: Option<String>)
        ensures
            opt_view(r) == lookup(self.state().regs, s, k),
    {
        let ghost regs = self.state().regs;
        let mut i: usize = self.regs.len();
        assert(regs.take(i as int) =~= regs);
        while i > 0
            invariant
                i <= self.regs@.len(),
                regs == self.state().regs,
                lookup(regs, s, k) == lookup(regs.take(i as int), s, k),
            decreases i,
        {
            let r = &self.regs[i - 1];
            proof {
                assert(regs.take(i as int).drop_last() =~= regs.take(i - 1));
            }
            if r.schema == s && r.key == k {
                return Some(owned(r.id.as_str()));
            }
            i = i - 1;
        }
        None
    }

    /// Adds the edge `source->target:kind` unless one has that id.
    fn edge(&mut self, source: &str, target: &str, kind: &str, label: &str)
        ensures
            final(self).state() == add_edge(old(self).state(), source@, target@, kind@, label@),
            keeps(old(self).state(), final(self).state()),
    {
        let a = concat3(source, "->", target);
        let id = concat3(a.as_str(), ":", kind);
        proof {
            reveal_strlit("->");
            reveal_strlit(":");
        }
        assert(id@ == edge_id(source@, target@, kind@));
        let ghost ids = edge_ids(self.state().edges);
        let mut i: usize = 0;
        while i < self.edges.len()
            invariant
                i <= self.edges@.len(),
                ids == edge_ids(self.state().edges),
                id@ == edge_id(source@, target@, kind@),
                forall|j: int| 0 <= j < i ==> ids[j] != id@,
            decreases self.edges.len() - i,
        {
            if str_eq(self.edges[i].id.as_str(), id.as_str()) {
                assert(ids[i as int] == id@);
                assert(ids.contains(id@));
                return;
            }
            i = i + 1;
        }
        assert(!ids.contains(id@)) by {
            if ids.contains(id@) {
                let j = choose|j: int| 0 <= j < ids.len() && ids[j] == id@;
                assert(ids[j] != id@);
            }
        }
        let ghost st = self.state();
        let ghost idv = id@;
        self.edges.push(
            Edge {
                id,
                source: owned(source),
                target: owned(target),
                kind: owned(kind),
                label: owned(label),
            },
        );
        assert(self.state().edges =~= add_edge(st, source@, target@, kind@, label@).edges);
        proof {
            let e = self.state().edges;
            assert(edge_ids(e) =~= ids.push(idv));
            if edges_wf(st.edges) {
                assert forall|i: int, j: int| 0 <= i < j < ids.len() + 1 implies
                    #[trigger] ids.push(idv)[i] != #[trigger] ids.push(idv)[j] by {
                    if j == ids.len() {
                        assert(ids.contains(ids[i]));
                    }
                }
                assert forall|i: int| 0 <= i < e.len() implies #[trigger] e[i].id == edge_id(
                    e[i].source,
                    e[i].target,
                    e[i].kind,
                ) by {
                    if i < st.edges.len() {
                        assert(e[i] == st.edges[i]);
                    }
                }
            }
        }
    }

    /// Adds a path through `nodes` if, adjacent repeats dropped, it visits
    /// at least two nodes.
    fn push_path(&mut self, id: String, owner: &str, label: String, nodes: Vec<String>)
        ensures
            final(self).state() == add_path(old(self).state(), id@, owner@, label@, strs(nodes@)),
            keeps(old(self).state(), final(self).state()),
    {
        let ghost ns = strs(nodes@);
        let mut deduped: Vec<String> = Vec::new();
        let mut i: usize = 0;
        while i < nodes.len()
            invariant
                i <= nodes@.len(),
                ns == strs(nodes@),
                strs(deduped@) == dedup_adjacent(ns.take(i as int)),
            decreases nodes.len() - i,
        {
            proof {
                assert(ns.take(i + 1).drop_last() =~= ns.take(i as int));
            }
            let n = &nodes[i];
            let keep = deduped.len() == 0 || !str_eq(deduped[deduped.len() - 1].as_str(), n.as_str());
            if keep {
                let ghost d0 = deduped@;
                deduped.push(owned(n.as_str()));
                assert(strs(deduped@) =~= strs(d0).push(n@));
            }
            i = i + 1;
        }
        assert(ns.take(nodes.len() as int) =~= ns);
        if deduped.len() < 2 {
            return;
        }
        let ghost d = strs(deduped@);
        let mut segments: Vec<Segment> = Vec::new();
        let mut order: u32 = 1;
        let mut k: usize = 0;
        while k < deduped.len()
            invariant
                k <= deduped@.len(),
                d == strs(deduped@),
                order as int == (k + 1) % 4294967296,
                segments@.map_values(|s: Segment| s@) == numbered(d).take(k as int),
            decreases deduped.len() - k,
        {
            let ghost s0 = segments@;
            let seg = Segment { node: owned(deduped[k].as_str()), order };
            assert(seg@ == numbered(d)[k as int]);
            segments.push(seg);
            proof {
                assert(segments@.map_values(|s: Segment| s@) =~= s0.map_values(|s: Segment| s@).push(seg@));
                assert(numbered(d).take(k + 1) =~= numbered(d).take(k as int).push(numbered(d)[k as int]));
            }
            order = if order == 4294967295 {
                0
            } else {
                order + 1
            };
            k = k + 1;
        }
        assert(numbered(d).take(k as int) =~= numbered(d));
        let ghost st = self.state();
        let ghost idv = id@;
        let ghost lv = label@;
        self.paths.push(Path { id, owner: owned(owner), label, segments });
        assert(self.state().paths =~= add_path(st, idv, owner@, lv, ns).paths);
        proof {
            let ps = self.state().paths;
            lemma_dedup_no_repeat(ns);
            let p = ps.last();
            assert(p.segments == numbered(d));
            assert forall|k: int| 0 <= k < p.segments.len() - 1 implies #[trigger] p.segments[k].node
                != p.segments[k + 1].node by {
                assert(p.segments[k].node == d[k]);
                assert(p.segments[k + 1].node == d[k + 1]);
            }
            assert(path_wf(p));
            if paths_wf(st.paths) {
                assert forall|i: int| 0 <= i < ps.len() implies path_wf(#[trigger] ps[i]) by {
                    if i < st.paths.len() {
                        assert(ps[i] == st.paths[i]);
                    }
                }
            }
        }
    }

    // ---- First pass: nodes -------------------------------------------------

    fn member_nodes(&mut self, model: &Model, s: usize, owner: &str, refs: &Vec<MemberRef>, nav: bool)
        ensures
            final(self).state() == reg_members(old(self).state(), *model, s, owner@, refs@, nav, refs@.len()),
            distinct_ids(node_ids(old(self).state().nodes)) ==> distinct_ids(
                node_ids(final(self).state().nodes),
            ),
            same_links(old(self).state(), final(self).state()),
    {
        let ghost st0 = self.state();
        let mut i: usize = 0;
        while i < refs.len()
            invariant
                i <= refs@.len(),
                self.state() == reg_members(st0, *model, s, owner@, refs@, nav, i as nat),
                distinct_ids(node_ids(st0.nodes)) ==> distinct_ids(node_ids(self.state().nodes)),
                same_links(st0, self.state()),
            decreases refs.len() - i,
        {
            let r = refs[i];
            if nav {
                match model.navigation(&r) {
                    Some(x) => {
                        self.node(
                            concat3(owner, "/", x.name.as_str()),
                            "NavigationProperty",
                            x.name.as_str(),
                            Some((s, ElementKey::NavigationProperty(r))),
                        );
                    },
                    None => {},
                }
            } else {
                match model.property(&r) {
                    Some(x) => {
                        self.node(
                            concat3(owner, "/", x.name.as_str()),
                            "Property",
                            x.name.as_str(),
                            Some((s, ElementKey::Property(r))),
                        );
                    },
                    None => {},
                }
            }
            i = i + 1;
        }
    }

    fn structured_nodes(
        &mut self,
        model: &Model,
        s: usize,
        kind: &str,
        name: &str,
        key: ElementKey,
        props: &Vec<MemberRef>,
        navs: &Vec<MemberRef>,
    )
        ensures
            final(self).state() == reg_structured(
                old(self).state(),
                *model,
                s,
                kind@,
                name@,
                key,
                props@,
                navs@,
            ),
            distinct_ids(node_ids(old(self).state().nodes)) ==> distinct_ids(
                node_ids(final(self).state().nodes),
            ),
            same_links(old(self).state(), final(self).state()),
    {
        let id = self.node(concat3(model.namespace.as_str(), ".", name), kind, name, Some((s, key)));
        self.member_nodes(model, s, id.as_str(), props, false);
        self.member_nodes(model, s, id.as_str(), navs, true);
    }

    fn enum_nodes(&mut self, model: &Model, s: usize, k: usize)
        requires
            k < model.enum_types@.len(),
        ensures
            final(self).state() == reg_element(old(self).state(), *model, s, SchemaElement::EnumType(k)),
            distinct_ids(node_ids(old(self).state().nodes)) ==> distinct_ids(
                node_ids(final(self).state().nodes),
            ),
            same_links(old(self).state(), final(self).state()),
    {
        let x = &model.enum_types[k];
        let id = self.node(
            concat3(model.namespace.as_str(), ".", x.name.as_str()),
            "EnumType",
            x.name.as_str(),
            Some((s, ElementKey::EnumType(k))),
        );
        let ghost st1 = self.state();
        let mut j: usize = 0;
        while j < x.members.len()
            invariant
                j <= x.members@.len(),
                self.state() == reg_enum_members(st1, s, k, id@, x.members@, j as nat),
                distinct_ids(node_ids(st1.nodes)) ==> distinct_ids(node_ids(self.state().nodes)),
                same_links(st1, self.state()),
            decreases x.members.len() - j,
        {
            let mname = x.members[j].name.as_str();
            self.node(
                concat3(id.as_str(), "/", mname),
                "EnumMember",
                mname,
                Some((s, ElementKey::EnumMember(k, j))),
            );
            j = j + 1;
        }
    }

    fn operation_nodes(
        &mut self,
        model: &Model,
        s: usize,
        kind: &str,
        name: &str,
        key: ElementKey,
        params: &Vec<OperationParameter>,
    )
        ensures
            final(self).state() == reg_operation(old(self).state(), *model, s, kind@, name@, key, params@),
            distinct_ids(node_ids(old(self).state().nodes)) ==> distinct_ids(
                node_ids(final(self).state().nodes),
            ),
            same_links(old(self).state(), final(self).state()),
    {
        let id = self.node(concat3(model.namespace.as_str(), ".", name), kind, name, Some((s, key)));
        let ghost st1 = self.state();
        let mut j: usize = 0;
        while j < params.len()
            invariant
                j <= params@.len(),
                self.state() == reg_params(st1, id@, params@, j as nat),
                distinct_ids(node_ids(st1.nodes)) ==> distinct_ids(node_ids(self.state().nodes)),
                same_links(st1, self.state()),
            decreases params.len() - j,
        {
            let pname = params[j].name.as_str();
            self.node(concat3(id.as_str(), "/", pname), "Parameter", pname, None);
            j = j + 1;
        }
    }

    fn element_nodes(&mut self, model: &Model, s: usize, el: SchemaElement)
        ensures
            final(self).state() == reg_element(old(self).state(), *model, s, el),
            distinct_ids(node_ids(old(self).state().nodes)) ==> distinct_ids(
                node_ids(final(self).state().nodes),
            ),
            same_links(old(self).state(), final(self).state()),
    {
        let ns = model.namespace.as_str();
        match el {
            SchemaElement::EntityType(k) => {
                if k < model.entity_types.len() {
                    let x = &model.entity_types[k];
                    self.structured_nodes(
                        model,
                        s,
                        "EntityType",
                        x.name.as_str(),
                        ElementKey::EntityType(k),
                        &x.properties,
                        &x.navigation_properties,
                    );
                }
            },
            SchemaElement::ComplexType(k) => {
                if k < model.complex_types.len() {
                    let x = &model.complex_types[k];
                    self.structured_nodes(
                        model,
                        s,
                        "ComplexType",
                        x.name.as_str(),
                        ElementKey::ComplexType(k),
                        &x.properties,
                        &x.navigation_properties,
                    );
                }
            },
            SchemaElement::EnumType(k) => {
                if k < model.enum_types.len() {
                    self.enum_nodes(model, s, k);
                }
            },
            SchemaElement::TypeDefinition(k) => {
                if k < model.type_definitions.len() {
                    let x = &model.type_definitions[k];
                    self.node(
                        concat3(ns, ".", x.name.as_str()),
                        "TypeDefinition",
                        x.name.as_str(),
                        Some((s, ElementKey::TypeDefinition(k))),
                    );
                }
            },
            SchemaElement::Term(k) => {
                if k < model.terms.len() {
                    let x = &model.terms[k];
                    self.node(
                        concat3(ns, ".", x.name.as_str()),
                        "Term",
                        x.name.as_str(),
                        Some((s, ElementKey::Term(k))),
                    );
                }
            },
            SchemaElement::Function(k) => {
                if k < model.functions.len() {
                    let x = &model.functions[k];
                    self.operation_nodes(
                        model,
                        s,
                        "Function",
                        x.name.as_str(),
                        ElementKey::Function(k),
                        &x.parameters,
                    );
                }
            },
            SchemaElement::Action(k) => {
                if k < model.actions.len() {
                    let x = &model.actions[k];
                    self.operation_nodes(
                        model,
                        s,
                        "Action",
                        x.name.as_str(),
                        ElementKey::Action(k),
                        &x.parameters,
                    );
                }
            },
        }
    }

    fn container_nodes(&mut self, model: &Model, s: usize)
        ensures
            final(self).state() == reg_container(old(self).state(), *model, s),
            distinct_ids(node_ids(old(self).state().nodes)) ==> distinct_ids(
                node_ids(final(self).state().nodes),
            ),
            same_links(old(self).state(), final(self).state()),
    {
        let c = match &model.entity_container {
            Some(c) => c,
            None => {
                return;
            },
        };
        let cid = self.node(
            concat3(model.namespace.as_str(), ".", c.name.as_str()),
            "EntityContainer",
            c.name.as_str(),
            Some((s, ElementKey::Container)),
        );
        let ghost st1 = self.state();
        let mut i: usize = 0;
        while i < c.elements.len()
            invariant
                model.entity_container == Some(*c),
                i <= c.elements@.len(),
                self.state() == reg_container_elements(st1, s, cid@, c.elements@, i as nat),
                distinct_ids(node_ids(st1.nodes)) ==> distinct_ids(node_ids(self.state().nodes)),
                same_links(st1, self.state()),
            decreases c.elements.len() - i,
        {
            let (kind, name) = match &c.elements[i] {
                EntityContainerElement::EntitySet(x) => ("EntitySet", x.name.as_str()),
                EntityContainerElement::Singleton(x) => ("Singleton", x.name.as_str()),
                EntityContainerElement::FunctionImport(x) => ("FunctionImport", x.name.as_str()),
                EntityContainerElement::ActionImport(x) => ("ActionImport", x.name.as_str()),
            };
            assert(kind@ == container_element_kind(c.elements@[i as int]));
            self.node(concat3(cid.as_str(), "/", name), kind, name, Some((s, ElementKey::ContainerElement(i))));
            i = i + 1;
        }
    }

    fn collect_nodes(&mut self, model: &Model, s: usize)
        ensures
            final(self).state() == reg_schema(old(self).state(), *model, s),
            distinct_ids(node_ids(old(self).state().nodes)) ==> distinct_ids(
                node_ids(final(self).state().nodes),
            ),
            same_links(old(self).state(), final(self).state()),
    {
        let ns = model.namespace.as_str();
        self.node(owned(ns), "Schema", ns, Some((s, ElementKey::Schema)));
        let ghost st1 = self.state();
        let mut i: usize = 0;
        while i < model.elements.len()
            invariant
                i <= model.elements@.len(),
                self.state() == reg_elements(st1, *model, s, i as nat),
                distinct_ids(node_ids(st1.nodes)) ==> distinct_ids(node_ids(self.state().nodes)),
                same_links(st1, self.state()),
            decreases model.elements.len() - i,
        {
            self.element_nodes(model, s, model.elements[i]);
            i = i + 1;
        }
        self.container_nodes(model, s);
    }

    // ---- Second pass: node lookups for types and segments ------------------

    fn resolved_type_id(&self, s: usize, t: ResolvedType) -> (r: Option<String>)
        ensures
            opt_view(r) == resolved_type_id(self.state().regs, s, t),
    {
        match t {
            ResolvedType::Complex(a) => self.lookup(s, ElementKey::ComplexType(a)),
            ResolvedType::Enum(a) => self.lookup(s, ElementKey::EnumType(a)),
            ResolvedType::TypeDefinition(a) => self.lookup(s, ElementKey::TypeDefinition(a)),
            ResolvedType::Primitive(_) => None,
        }
    }

    fn term_type_id(&self, s: usize, t: TermType) -> (r: Option<String>)
        ensures
            opt_view(r) == term_type_id(self.state().regs, s, t),
    {
        match t {
            TermType::Complex(a) => self.lookup(s, ElementKey::ComplexType(a)),
            TermType::Enum(a) => self.lookup(s, ElementKey::EnumType(a)),
            TermType::TypeDefinition(a) => self.lookup(s, ElementKey::TypeDefinition(a)),
            TermType::Entity(a) => self.lookup(s, ElementKey::EntityType(a)),
            TermType::Primitive(_) => None,
        }
    }

    /// `[id]` followed by the id in `more`, if any.
    fn id_then(id: String, more: Option<String>) -> (r: Vec<String>)
        ensures
            strs(r@) == seq![id@] + opt_seq(opt_view(more)),
    {
        let mut v: Vec<String> = Vec::new();
        v.push(id);
        match more {
            Some(t) => {
                v.push(t);
            },
            None => {},
        }
        assert(strs(v@) =~= seq![v@[0]@] + opt_seq(opt_view(more)));
        v
    }

    fn opt_vec(o: Option<String>) -> (r: Vec<String>)
        ensures
            strs(r@) == opt_seq(opt_view(o)),
    {
        let mut v: Vec<String> = Vec::new();
        match o {
            Some(x) => {
                v.push(x);
            },
            None => {},
        }
        assert(strs(v@) =~= opt_seq(opt_view(o)));
        v
    }

    fn property_seg_nodes(&self, model: &Model, s: usize, r: MemberRef) -> (v: Vec<String>)
        ensures
            strs(v@) == property_seg_nodes(self.state().regs, *model, s, r),
    {
        match model.property(&r) {
            Some(p) => match self.lookup(s, ElementKey::Property(r)) {
                Some(id) => Self::id_then(id, self.resolved_type_id(s, p.ty)),
                None => Vec::new(),
            },
            None => Vec::new(),
        }
    }

    fn nav_seg_nodes(&self, model: &Model, s: usize, r: MemberRef) -> (v: Vec<String>)
        ensures
            strs(v@) == nav_seg_nodes(self.state().regs, *model, s, r),
    {
        match model.navigation(&r) {
            Some(n) => match self.lookup(s, ElementKey::NavigationProperty(r)) {
                Some(id) => Self::id_then(id, self.lookup(s, ElementKey::EntityType(n.target))),
                None => Vec::new(),
            },
            None => Vec::new(),
        }
    }

    fn set_seg_nodes(&self, model: &Model, s: usize, i: usize, singleton: bool) -> (v: Vec<String>)
        ensures
            strs(v@) == set_seg_nodes(self.state().regs, *model, s, i, singleton),
    {
        let target = match &model.entity_container {
            Some(c) => {
                if i < c.elements.len() {
                    match &c.elements[i] {
                        EntityContainerElement::EntitySet(x) => if singleton {
                            None
                        } else {
                            Some(x.target)
                        },
                        EntityContainerElement::Singleton(x) => if singleton {
                            Some(x.target)
                        } else {
                            None
                        },
                        _ => None,
                    }
                } else {
                    None
                }
            },
            None => None,
        };
        assert(target == element_target(*model, i, singleton));
        match target {
            Some(t) => match self.lookup(s, ElementKey::ContainerElement(i)) {
                Some(id) => Self::id_then(id, self.lookup(s, ElementKey::EntityType(t))),
                None => Vec::new(),
            },
            None => Vec::new(),
        }
    }

    fn binding_seg_nodes(&self, model: &Model, s: usize, seg: &BindingPathSegment) -> (v: Vec<String>)
        ensures
            strs(v@) == binding_seg_nodes(self.state().regs, *model, s, *seg),
    {
        match seg {
            BindingPathSegment::Property(r) => self.property_seg_nodes(model, s, *r),
            BindingPathSegment::NavigationProperty(r) => self.nav_seg_nodes(model, s, *r),
            BindingPathSegment::EntitySet(i) => self.set_seg_nodes(model, s, *i, false),
            BindingPathSegment::Singleton(i) => self.set_seg_nodes(model, s, *i, true),
            BindingPathSegment::EntityTypeCast(k) => Self::opt_vec(self.lookup(s, ElementKey::EntityType(*k))),
            BindingPathSegment::ComplexTypeCast(k) => Self::opt_vec(self.lookup(s, ElementKey::ComplexType(*k))),
            BindingPathSegment::EntityContainer => Self::opt_vec(self.lookup(s, ElementKey::Container)),
            BindingPathSegment::Unresolved(_) => Vec::new(),
        }
    }

    fn binding_nodes(&self, model: &Model, s: usize, segs: &Vec<BindingPathSegment>) -> (v: Vec<String>)
        ensures
            strs(v@) == binding_nodes(self.state().regs, *model, s, segs@, segs@.len()),
    {
        let mut out: Vec<String> = Vec::new();
        let mut i: usize = 0;
        while i < segs.len()
            invariant
                i <= segs@.len(),
                strs(out@) == binding_nodes(self.state().regs, *model, s, segs@, i as nat),
            decreases segs.len() - i,
        {
            let ghost o = out@;
            let mut more = self.binding_seg_nodes(model, s, &segs[i]);
            let ghost mv = more@;
            out.append(&mut more);
            proof {
                crate::text::lemma_strs_add(o, mv);
            }
            i = i + 1;
        }
        out
    }

    fn key_nodes(&self, model: &Model, s: usize, segs: &Vec<KeyPathSegment>) -> (v: Vec<String>)
        ensures
            strs(v@) == key_nodes(self.state().regs, *model, s, segs@, segs@.len()),
    {
        let mut out: Vec<String> = Vec::new();
        let mut i: usize = 0;
        while i < segs.len()
            invariant
                i <= segs@.len(),
                strs(out@) == key_nodes(self.state().regs, *model, s, segs@, i as nat),
            decreases segs.len() - i,
        {
            let ghost o = out@;
            let mut more = match &segs[i] {
                KeyPathSegment::Property(r) => self.property_seg_nodes(model, s, *r),
                KeyPathSegment::Unresolved(_) => Vec::new(),
            };
            let ghost mv = more@;
            out.append(&mut more);
            proof {
                crate::text::lemma_strs_add(o, mv);
                assert(strs(Seq::<String>::empty()) =~= Seq::<Seq<char>>::empty());
            }
            i = i + 1;
        }
        out
    }

    fn first_param<'a>(params: &'a Vec<OperationParameter>, name: &str) -> (r: Option<&'a OperationParameter>)
        ensures
            match r {
                Some(p) => first_param(params@, name@) == Some(*p),
                None => first_param(params@, name@) is None,
            },
    {
        let mut i: usize = 0;
        assert(params@.skip(0) =~= params@);
        while i < params.len()
            invariant
                i <= params@.len(),
                first_param(params@, name@) == first_param(params@.skip(i as int), name@),
            decreases params.len() - i,
        {
            assert(params@.skip(i as int)[0] == params@[i as int]);
            assert(params@.skip(i as int).drop_first() =~= params@.skip(i + 1));
            if str_eq(params[i].name.as_str(), name) {
                return Some(&params[i]);
            }
            i = i + 1;
        }
        assert(params@.skip(i as int).len() == 0);
        None
    }

    fn esp_nodes(
        &self,
        model: &Model,
        s: usize,
        params: &Vec<OperationParameter>,
        segs: &Vec<EntitySetPathSegment>,
    ) -> (v: Vec<String>)
        ensures
            strs(v@) == esp_nodes(self.state().regs, *model, s, params@, segs@, segs@.len()),
    {
        let mut out: Vec<String> = Vec::new();
        let mut i: usize = 0;
        while i < segs.len()
            invariant
                i <= segs@.len(),
                strs(out@) == esp_nodes(self.state().regs, *model, s, params@, segs@, i as nat),
            decreases segs.len() - i,
        {
            let ghost o = out@;
            let mut more = match &segs[i] {
                EntitySetPathSegment::BindingParameter(name) => {
                    match Self::first_param(params, name.as_str()) {
                        Some(p) => match p.ty {
                            TermType::Entity(e) => Self::opt_vec(self.lookup(s, ElementKey::EntityType(e))),
                            _ => Vec::new(),
                        },
                        None => Vec::new(),
                    }
                },
                EntitySetPathSegment::NavigationProperty(r) => self.nav_seg_nodes(model, s, *r),
                EntitySetPathSegment::Property(r) => self.property_seg_nodes(model, s, *r),
                EntitySetPathSegment::Unresolved(_) => Vec::new(),
            };
            let ghost mv = more@;
            out.append(&mut more);
            proof {
                crate::text::lemma_strs_add(o, mv);
                assert(strs(Seq::<String>::empty()) =~= Seq::<Seq<char>>::empty());
            }
            i = i + 1;
        }
        out
    }

    /// `[first]` followed by `rest`.
    fn lead(first: &str, rest: Vec<String>) -> (r: Vec<String>)
        ensures
            strs(r@) == seq![first@] + strs(rest@),
    {
        let mut v: Vec<String> = Vec::new();
        v.push(owned(first));
        let mut rest = rest;
        let ghost v0 = v@;
        let ghost rv = rest@;
        v.append(&mut rest);
        proof {
            crate::text::lemma_strs_add(v0, rv);
            assert(strs(v0) =~= seq![first@]);
        }
        v
    }

    // ---- Second pass: edges and paths --------------------------------------

    fn member_edges(&mut self, model: &Model, s: usize, type_id: &str, refs: &Vec<MemberRef>, nav: bool)
        ensures
            final(self).state() == member_edges(old(self).state(), *model, s, type_id@, refs@, nav, refs@.len()),
            keeps(old(self).state(), final(self).state()),
    {
        let ghost st0 = self.state();
        let mut i: usize = 0;
        while i < refs.len()
            invariant
                i <= refs@.len(),
                self.state() == member_edges(st0, *model, s, type_id@, refs@, nav, i as nat),
                keeps(st0, self.state()),
            decreases refs.len() - i,
        {
            let r = refs[i];
            if nav {
                match self.lookup(s, ElementKey::NavigationProperty(r)) {
                    Some(nid) => {
                        self.edge(type_id, nid.as_str(), "Declares", "has");
                        match model.navigation(&r) {
                            Some(x) => match self.lookup(s, ElementKey::EntityType(x.target)) {
                                Some(tid) => {
                                    self.edge(nid.as_str(), tid.as_str(), "NavigationTarget", "Type");
                                },
                                None => {},
                            },
                            None => {},
                        }
                    },
                    None => {},
                }
            } else {
                match self.lookup(s, ElementKey::Property(r)) {
                    Some(pid) => {
                        self.edge(type_id, pid.as_str(), "Declares", "has");
                        match model.property(&r) {
                            Some(x) => match self.resolved_type_id(s, x.ty) {
                                Some(tid) => {
                                    self.edge(pid.as_str(), tid.as_str(), "PropertyType", "Type");
                                },
                                None => {},
                            },
                            None => {},
                        }
                    },
                    None => {},
                }
            }
            i = i + 1;
        }
    }

    fn key_paths(&mut self, model: &Model, s: usize, entity_id: &str, keys: &Vec<Vec<KeyPathSegment>>)
        ensures
            final(self).state() == key_paths(old(self).state(), *model, s, entity_id@, keys@, keys@.len()),
            keeps(old(self).state(), final(self).state()),
    {
        let ghost st0 = self.state();
        let mut i: usize = 0;
        while i < keys.len()
            invariant
                i <= keys@.len(),
                self.state() == key_paths(st0, *model, s, entity_id@, keys@, i as nat),
                keeps(st0, self.state()),
            decreases keys.len() - i,
        {
            let key = &keys[i];
            let id = concat3(entity_id, "/key/", to_decimal(i as u128).as_str());
            let label = concat("Key: ", key_path_to_string(key, model).as_str());
            let nodes = Self::lead(entity_id, self.key_nodes(model, s, key));
            self.push_path(id, entity_id, label, nodes);
            i = i + 1;
        }
    }

    fn partner_paths(&mut self, model: &Model, s: usize, navs: &Vec<MemberRef>)
        ensures
            final(self).state() == partner_paths(old(self).state(), *model, s, navs@, navs@.len()),
            keeps(old(self).state(), final(self).state()),
    {
        let ghost st0 = self.state();
        let mut i: usize = 0;
        while i < navs.len()
            invariant
                i <= navs@.len(),
                self.state() == partner_paths(st0, *model, s, navs@, i as nat),
                keeps(st0, self.state()),
            decreases navs.len() - i,
        {
            let r = navs[i];
            match model.navigation(&r) {
                Some(x) => match &x.partner {
                    Some(p) => match self.lookup(s, ElementKey::NavigationProperty(r)) {
                        Some(nav_id) => match self.lookup(s, ElementKey::EntityType(x.target)) {
                            Some(anchor) => {
                                let id = concat(nav_id.as_str(), "/partner");
                                let label = concat("Partner: ", binding_path_to_string(p, model).as_str());
                                let nodes = Self::lead(anchor.as_str(), self.binding_nodes(model, s, p));
                                self.push_path(id, nav_id.as_str(), label, nodes);
                            },
                            None => {},
                        },
                        None => {},
                    },
                    None => {},
                },
                None => {},
            }
            i = i + 1;
        }
    }

    fn operation_edges(
        &mut self,
        model: &Model,
        s: usize,
        owner: &str,
        params: &Vec<OperationParameter>,
        ret: &Option<OperationReturnType>,
        esp: &Option<Vec<EntitySetPathSegment>>,
    )
        ensures
            final(self).state() == operation_edges(old(self).state(), *model, s, owner@, params@, *ret, *esp),
            keeps(old(self).state(), final(self).state()),
    {
        let ghost st0 = self.state();
        let mut i: usize = 0;
        while i < params.len()
            invariant
                i <= params@.len(),
                self.state() == param_edges(st0, s, owner@, params@, i as nat),
                keeps(st0, self.state()),
            decreases params.len() - i,
        {
            let p = &params[i];
            let pid = concat3(owner, "/", p.name.as_str());
            self.edge(owner, pid.as_str(), "Declares", "has");
            match self.term_type_id(s, p.ty) {
                Some(tid) => {
                    self.edge(pid.as_str(), tid.as_str(), "ParameterType", "Type");
                },
                None => {},
            }
            i = i + 1;
        }
        match ret {
            Some(r) => match self.term_type_id(s, r.ty) {
                Some(tid) => {
                    self.edge(owner, tid.as_str(), "ReturnType", "ReturnType");
                },
                None => {},
            },
            None => {},
        }
        match esp {
            Some(v) => {
                let id = concat(owner, "/entitysetpath");
                let label = concat("EntitySetPath: ", entity_set_path_to_string(v, model).as_str());
                let nodes = self.esp_nodes(model, s, params, v);
                self.push_path(id, owner, label, nodes);
            },
            None => {},
        }
    }

    fn element_edges(&mut self, model: &Model, s: usize, schema_id: &str, el: SchemaElement)
        ensures
            final(self).state() == element_edges(old(self).state(), *model, s, schema_id@, el),
            keeps(old(self).state(), final(self).state()),
    {
        match el {
            SchemaElement::EntityType(k) => {
                if k < model.entity_types.len() {
                    let x = &model.entity_types[k];
                    match self.lookup(s, ElementKey::EntityType(k)) {
                        Some(id) => {
                            self.edge(schema_id, id.as_str(), "Contains", "has");
                            self.member_edges(model, s, id.as_str(), &x.properties, false);
                            self.member_edges(model, s, id.as_str(), &x.navigation_properties, true);
                            self.key_paths(model, s, id.as_str(), &x.keys);
                            self.partner_paths(model, s, &x.navigation_properties);
                        },
                        None => {},
                    }
                }
            },
            SchemaElement::ComplexType(k) => {
                if k < model.complex_types.len() {
                    let x = &model.complex_types[k];
                    match self.lookup(s, ElementKey::ComplexType(k)) {
                        Some(id) => {
                            self.edge(schema_id, id.as_str(), "Contains", "has");
                            self.member_edges(model, s, id.as_str(), &x.properties, false);
                            self.member_edges(model, s, id.as_str(), &x.navigation_properties, true);
                            self.partner_paths(model, s, &x.navigation_properties);
                        },
                        None => {},
                    }
                }
            },
            SchemaElement::EnumType(k) => {
                if k < model.enum_types.len() {
                    match self.lookup(s, ElementKey::EnumType(k)) {
                        Some(id) => {
                            self.edge(schema_id, id.as_str(), "Contains", "has");
                            let n = model.enum_types[k].members.len();
                            let ghost st1 = self.state();
                            let mut j: usize = 0;
                            while j < n
                                invariant
                                    j <= n,
                                    self.state() == enum_member_edges(st1, s, k, id@, j as nat),
                                    keeps(st1, self.state()),
                                decreases n - j,
                            {
                                match self.lookup(s, ElementKey::EnumMember(k, j)) {
                                    Some(mid) => {
                                        self.edge(id.as_str(), mid.as_str(), "Declares", "has");
                                    },
                                    None => {},
                                }
                                j = j + 1;
                            }
                        },
                        None => {},
                    }
                }
            },
            SchemaElement::TypeDefinition(k) => {
                match self.lookup(s, ElementKey::TypeDefinition(k)) {
                    Some(id) => {
                        self.edge(schema_id, id.as_str(), "Contains", "has");
                    },
                    None => {},
                }
            },
            SchemaElement::Term(k) => {
                if k < model.terms.len() {
                    match self.lookup(s, ElementKey::Term(k)) {
                        Some(id) => {
                            self.edge(schema_id, id.as_str(), "Contains", "has");
                            match model.terms[k].ty() {
                                Some(tt) => match self.term_type_id(s, *tt) {
                                    Some(tid) => {
                                        self.edge(id.as_str(), tid.as_str(), "TermType", "Type");
                                    },
                                    None => {},
                                },
                                None => {},
                            }
                        },
                        None => {},
                    }
                }
            },
            SchemaElement::Function(k) => {
                if k < model.functions.len() {
                    let x = &model.functions[k];
                    match self.lookup(s, ElementKey::Function(k)) {
                        Some(id) => {
                            self.edge(schema_id, id.as_str(), "Contains", "has");
                            self.operation_edges(
                                model,
                                s,
                                id.as_str(),
                                &x.parameters,
                                &x.return_type,
                                &x.entity_set_path,
                            );
                        },
                        None => {},
                    }
                }
            },
            SchemaElement::Action(k) => {
                if k < model.actions.len() {
                    let x = &model.actions[k];
                    match self.lookup(s, ElementKey::Action(k)) {
                        Some(id) => {
                            self.edge(schema_id, id.as_str(), "Contains", "has");
                            self.operation_edges(
                                model,
                                s,
                                id.as_str(),
                                &x.parameters,
                                &x.return_type,
                                &x.entity_set_path,
                            );
                        },
                        None => {},
                    }
                }
            },
        }
    }

    fn binding_paths(
        &mut self,
        model: &Model,
        s: usize,
        owner: &str,
        bound: usize,
        bindings: &Vec<NavigationPropertyBinding>,
        cid: &str,
    )
        ensures
            final(self).state() == binding_paths(
                old(self).state(),
                *model,
                s,
                owner@,
                bound,
                bindings@,
                cid@,
                bindings@.len(),
            ),
            keeps(old(self).state(), final(self).state()),
    {
        let ghost st0 = self.state();
        let mut i: usize = 0;
        while i < bindings.len()
            invariant
                i <= bindings@.len(),
                self.state() == binding_paths(st0, *model, s, owner@, bound, bindings@, cid@, i as nat),
                keeps(st0, self.state()),
            decreases bindings.len() - i,
        {
            let b = &bindings[i];
            let num = to_decimal(i as u128);
            let stem = concat3(owner, "/binding/", num.as_str());
            match self.lookup(s, ElementKey::EntityType(bound)) {
                Some(anchor) => {
                    let id = concat(stem.as_str(), "/path");
                    let label = concat("Binding path: ", binding_path_to_string(&b.path, model).as_str());
                    let nodes = Self::lead(anchor.as_str(), self.binding_nodes(model, s, &b.path));
                    self.push_path(id, owner, label, nodes);
                },
                None => {},
            }
            let id = concat(stem.as_str(), "/target");
            let label = concat("Binding target: ", binding_path_to_string(&b.target, model).as_str());
            let nodes = Self::lead(cid, self.binding_nodes(model, s, &b.target));
            self.push_path(id, owner, label, nodes);
            i = i + 1;
        }
    }

    fn import_path(
        &mut self,
        model: &Model,
        s: usize,
        import_id: &str,
        es: &Option<Vec<BindingPathSegment>>,
        cid: &str,
    )
        ensures
            final(self).state() == import_path(old(self).state(), *model, s, import_id@, *es, cid@),
            keeps(old(self).state(), final(self).state()),
    {
        match es {
            Some(v) => {
                let id = concat(import_id, "/entityset");
                let label = concat("EntitySet: ", binding_path_to_string(v, model).as_str());
                let nodes = Self::lead(cid, self.binding_nodes(model, s, v));
                self.push_path(id, import_id, label, nodes);
            },
            None => {},
        }
    }

    fn container_edges(&mut self, model: &Model, s: usize, schema_id: &str)
        ensures
            final(self).state() == container_edges(old(self).state(), *model, s, schema_id@),
            keeps(old(self).state(), final(self).state()),
    {
        let c = match &model.entity_container {
            Some(c) => c,
            None => {
                return;
            },
        };
        let cid = match self.lookup(s, ElementKey::Container) {
            Some(cid) => cid,
            None => {
                return;
            },
        };
        self.edge(schema_id, cid.as_str(), "Contains", "has");
        let ghost st1 = self.state();
        let mut i: usize = 0;
        while i < c.elements.len()
            invariant
                i <= c.elements@.len(),
                self.state() == container_element_edges(st1, *model, s, cid@, c.elements@, i as nat),
                keeps(st1, self.state()),
            decreases c.elements.len() - i,
        {
            match self.lookup(s, ElementKey::ContainerElement(i)) {
                Some(id) => {
                    self.edge(cid.as_str(), id.as_str(), "Contains", "has");
                    match &c.elements[i] {
                        EntityContainerElement::EntitySet(x) => {
                            match self.lookup(s, ElementKey::EntityType(x.target)) {
                                Some(tid) => {
                                    self.edge(id.as_str(), tid.as_str(), "EntityType", "EntityType");
                                },
                                None => {},
                            }
                            self.binding_paths(
                                model,
                                s,
                                id.as_str(),
                                x.target,
                                &x.navigation_property_bindings,
                                cid.as_str(),
                            );
                        },
                        EntityContainerElement::Singleton(x) => {
                            match self.lookup(s, ElementKey::EntityType(x.target)) {
                                Some(tid) => {
                                    self.edge(id.as_str(), tid.as_str(), "SingletonType", "Type");
                                },
                                None => {},
                            }
                            self.binding_paths(
                                model,
                                s,
                                id.as_str(),
                                x.target,
                                &x.navigation_property_bindings,
                                cid.as_str(),
                            );
                        },
                        EntityContainerElement::FunctionImport(x) => {
                            self.import_path(model, s, id.as_str(), &x.entity_set, cid.as_str());
                        },
                        EntityContainerElement::ActionImport(x) => {
                            self.import_path(model, s, id.as_str(), &x.entity_set, cid.as_str());
                        },
                    }
                },
                None => {},
            }
            i = i + 1;
        }
    }

    fn schema_edges(&mut self, model: &Model, s: usize)
        ensures
            final(self).state() == schema_edges(old(self).state(), *model, s),
            keeps(old(self).state(), final(self).state()),
    {
        let sid = match self.lookup(s, ElementKey::Schema) {
            Some(sid) => sid,
            None => {
                return;
            },
        };
        let ghost st0 = self.state();
        let mut i: usize = 0;
        while i < model.elements.len()
            invariant
                i <= model.elements@.len(),
                self.state() == elements_edges(st0, *model, s, sid@, i as nat),
                keeps(st0, self.state()),
            decreases model.elements.len() - i,
        {
            self.element_edges(model, s, sid.as_str(), model.elements[i]);
            i = i + 1;
        }
        self.container_edges(model, s, sid.as_str());
    }
}

/// Builds the semantic graph of a resolved document model: a node per
/// element, an edge per reference, a path per resolved path. Node ids are
/// unique, every edge's id is `source->target:kind` and unique, and every
/// path visits at least two nodes, never one twice in a row, numbering its
/// segments from 1.
pub fn build_graph(model: &DocumentModel) -> (g: Graph)
    ensures
        g@ == graph_of(*model),
        distinct_ids(node_ids(g@.nodes)),
        edges_wf(g@.edges),
        paths_wf(g@.paths),
{
    let mut b = Builder::new();
    let ghost schemas = model.schemas@;
    let mut i: usize = 0;
    while i < model.schemas.len()
        invariant
            schemas == model.schemas@,
            i <= schemas.len(),
            b.state() == pass_nodes(empty_state(), schemas, i as nat),
            distinct_ids(node_ids(b.state().nodes)),
            same_links(empty_state(), b.state()),
        decreases model.schemas.len() - i,
    {
        b.collect_nodes(&model.schemas[i], i);
        i = i + 1;
    }
    let ghost st1 = b.state();
    let mut i: usize = 0;
    while i < model.schemas.len()
        invariant
            schemas == model.schemas@,
            i <= schemas.len(),
            b.state() == pass_edges(st1, schemas, i as nat),
            keeps(st1, b.state()),
            distinct_ids(node_ids(st1.nodes)),
            edges_wf(st1.edges),
            paths_wf(st1.paths),
        decreases model.schemas.len() - i,
    {
        b.schema_edges(&model.schemas[i], i);
        i = i + 1;
    }
    let g = Graph { nodes: b.nodes, edges: b.edges, paths: b.paths };
    g
}

} // verus!
