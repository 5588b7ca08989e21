//! Semantic model: a resolved schema in which every reference names the
//! element it points at.
//!
//! Elements live in arenas owned by their [`Model`]; a reference is the index
//! of its element in the arena of its kind. A structural or navigation
//! property is referred to by a [`MemberRef`]: the type that declares it and
//! its position among that type's declared members. The members a derived
//! type inherits are referred to by the very references of its base type.

use vstd::prelude::*;

use crate::text::{join, owned, join_slash, strs};

verus! {

#[derive(Debug, Clone, Copy, PartialEq, Eq, Structural, Hash)]
pub enum PrimitiveType {
    Binary,
    Byte,
    Date,
    DateTimeOffset,
    Decimal,
    Double,
    Duration,
    Guid,
    Int16,
    Int64,
    SByte,
    Single,
    String,
    TimeOfDay,
    Int32,
    Boolean,
}

/// Type of a structural property. The index is into
/// [`Model::enum_types`], [`Model::complex_types`] or
/// [`Model::type_definitions`].
#[derive(Debug, Clone, Copy, PartialEq, Eq, Structural)]
pub enum ResolvedType {
    Primitive(PrimitiveType),
    Enum(usize),
    Complex(usize),
    TypeDefinition(usize),
}

/// Type of a term, parameter or return type.
#[derive(Debug, Clone, Copy, PartialEq, Eq, Structural)]
pub enum TermType {
    Primitive(PrimitiveType),
    TypeDefinition(usize),
    Enum(usize),
    Complex(usize),
    Entity(usize),
}

#[derive(Debug)]
pub struct DocumentModel {
    pub version: String,
    pub references: Vec<Reference>,
    pub schemas: Vec<Model>,
}

#[derive(Debug)]
pub struct Reference {
    pub uri: String,
    pub includes: Vec<Include>,
    pub include_annotations: Vec<IncludeAnnotations>,
}

#[derive(Debug)]
pub struct Include {
    pub namespace: String,
    pub alias: Option<String>,
}

#[derive(Debug)]
pub struct IncludeAnnotations {
    pub term_namespace: String,
    pub target_namespace: Option<String>,
    pub qualifier: Option<String>,
}

/// One resolved schema.
#[derive(Debug)]
pub struct Model {
    pub namespace: String,
    pub alias: Option<String>,
    /// The schema's elements in document order (entity containers aside).
    pub elements: Vec<SchemaElement>,
    pub entity_container: Option<EntityContainer>,
    pub entity_types: Vec<EntityType>,
    pub complex_types: Vec<ComplexType>,
    pub enum_types: Vec<EnumType>,
    pub type_definitions: Vec<TypeDefinition>,
    pub terms: Vec<Term>,
    pub functions: Vec<Function>,
    pub actions: Vec<Action>,
}

/// An entity or complex type of a model.
#[derive(Debug, Clone, Copy, PartialEq, Eq, Structural)]
pub enum StructuredTypeRef {
    Entity(usize),
    Complex(usize),
}

/// A member of a structured type: the type that declares it and its position
/// among that type's declared properties (or navigation properties).
#[derive(Debug, Clone, Copy, PartialEq, Eq, Structural)]
pub struct MemberRef {
    pub owner: StructuredTypeRef,
    pub index: usize,
}

/// A schema element; the index is into the arena of its kind.
#[derive(Debug, Clone, Copy, PartialEq, Eq, Structural)]
pub enum SchemaElement {
    EntityType(usize),
    ComplexType(usize),
    EnumType(usize),
    TypeDefinition(usize),
    Term(usize),
    Function(usize),
    Action(usize),
}

/// Entity type. `declared_*` hold the members the type itself declares;
/// `properties` and `navigation_properties` refer to its effective members,
/// inherited ones first.
#[derive(Debug)]
pub struct EntityType {
    pub name: String,
    pub is_abstract: bool,
    /// Effective key paths (own or inherited), each a resolved path of
    /// [`KeyPathSegment`]s.
    pub keys: Vec<Vec<KeyPathSegment>>,
    pub declared_properties: Vec<Property>,
    pub declared_navigation_properties: Vec<NavigationProperty>,
    pub properties: Vec<MemberRef>,
    pub navigation_properties: Vec<MemberRef>,
}

impl EntityType {
    pub fn keys(&self) -> (r: &Vec<Vec<KeyPathSegment>>)
        ensures
            r == &self.keys,
    {
        &self.keys
    }

    pub fn properties(&self) -> (r: &Vec<MemberRef>)
        ensures
            r == &self.properties,
    {
        &self.properties
    }

    pub fn navigation_properties(&self) -> (r: &Vec<MemberRef>)
        ensures
            r == &self.navigation_properties,
    {
        &self.navigation_properties
    }
}

/// Complex type; members as for [`EntityType`].
#[derive(Debug)]
pub struct ComplexType {
    pub name: String,
    pub is_abstract: bool,
    pub declared_properties: Vec<Property>,
    pub declared_navigation_properties: Vec<NavigationProperty>,
    pub properties: Vec<MemberRef>,
    pub navigation_properties: Vec<MemberRef>,
}

impl ComplexType {
    pub fn properties(&self) -> (r: &Vec<MemberRef>)
        ensures
            r == &self.properties,
    {
        &self.properties
    }

    pub fn navigation_properties(&self) -> (r: &Vec<MemberRef>)
        ensures
            r == &self.navigation_properties,
    {
        &self.navigation_properties
    }
}

#[derive(Debug)]
pub struct EnumType {
    pub name: String,
    pub members: Vec<EnumMember>,
}

#[derive(Debug)]
pub struct EnumMember {
    pub name: String,
    pub value: Option<i64>,
}

#[derive(Debug)]
pub struct TypeDefinition {
    pub name: String,
    pub underlying_type: PrimitiveType,
}

/// A term; `base_term` is an index into [`Model::terms`].
#[derive(Debug)]
pub struct Term {
    pub name: String,
    pub is_collection: bool,
    pub ty: Option<TermType>,
    pub base_term: Option<usize>,
}

impl Term {
    pub fn ty(&self) -> (r: Option<&TermType>)
        ensures
            r == match self.ty {
                Some(t) => Some(&t),
                None => None::<&TermType>,
            },
    {
        self.ty.as_ref()
    }
}

#[derive(Debug)]
pub struct Function {
    pub name: String,
    pub is_bound: bool,
    pub is_composable: bool,
    /// Resolved against the binding parameter's type; the head names the
    /// binding parameter (see [`EntitySetPathSegment`]).
    pub entity_set_path: Option<Vec<EntitySetPathSegment>>,
    pub parameters: Vec<OperationParameter>,
    pub return_type: Option<OperationReturnType>,
}

#[derive(Debug)]
pub struct Action {
    pub name: String,
    pub is_bound: bool,
    /// See [`Function::entity_set_path`].
    pub entity_set_path: Option<Vec<EntitySetPathSegment>>,
    pub parameters: Vec<OperationParameter>,
    pub return_type: Option<OperationReturnType>,
}

#[derive(Debug)]
pub struct OperationParameter {
    pub name: String,
    pub ty: TermType,
    pub is_collection: bool,
}

#[derive(Debug)]
pub struct OperationReturnType {
    pub ty: TermType,
    pub is_collection: bool,
}

#[derive(Debug)]
pub struct Property {
    pub name: String,
    pub ty: ResolvedType,
    pub is_collection: bool,
}

/// A navigation property; `target` is an index into [`Model::entity_types`].
#[derive(Debug)]
pub struct NavigationProperty {
    pub name: String,
    pub target: usize,
    pub is_collection: bool,
    /// Resolved `Partner` path against the target entity type; `None` when no
    /// partner is declared.
    pub partner: Option<Vec<BindingPathSegment>>,
    pub contains_target: Option<bool>,
    pub on_delete: Option<OnDeleteAction>,
    pub referential_constraints: Vec<ReferentialConstraint>,
}

impl NavigationProperty {
    pub fn partner(&self) -> (r: Option<&Vec<BindingPathSegment>>)
        ensures
            r == match self.partner {
                Some(p) => Some(&p),
                None => None::<&Vec<BindingPathSegment>>,
            },
    {
        self.partner.as_ref()
    }
}

#[derive(Debug, Clone, Copy, PartialEq, Eq, Structural)]
pub enum OnDeleteAction {
    Cascade,
    /// The CSDL action spelled `None`.
    NoAction,
    SetNull,
    SetDefault,
}

impl OnDeleteAction {
    pub open spec fn spec_as_str(self) -> Seq<char> {
        match self {
            OnDeleteAction::Cascade => "Cascade"@,
            OnDeleteAction::NoAction => "None"@,
            OnDeleteAction::SetNull => "SetNull"@,
            OnDeleteAction::SetDefault => "SetDefault"@,
        }
    }

    pub fn as_str(self) -> (r: &'static str)
        ensures
            r@ == self.spec_as_str(),
    {
        match self {
            Self::Cascade => "Cascade",
            Self::NoAction => "None",
            Self::SetNull => "SetNull",
            Self::SetDefault => "SetDefault",
        }
    }
}

#[derive(Debug)]
pub struct ReferentialConstraint {
    pub property: String,
    pub referenced_property: String,
}

#[derive(Debug)]
pub struct EntityContainer {
    pub name: String,
    pub elements: Vec<EntityContainerElement>,
}

#[derive(Debug)]
pub enum EntityContainerElement {
    EntitySet(EntitySet),
    Singleton(Singleton),
    FunctionImport(FunctionImport),
    ActionImport(ActionImport),
}

/// An entity set; `target` is an index into [`Model::entity_types`].
#[derive(Debug)]
pub struct EntitySet {
    pub name: String,
    pub target: usize,
    pub navigation_property_bindings: Vec<NavigationPropertyBinding>,
}

impl EntitySet {
    pub fn navigation_property_bindings(&self) -> (r: &Vec<NavigationPropertyBinding>)
        ensures
            r == &self.navigation_property_bindings,
    {
        &self.navigation_property_bindings
    }
}

/// A singleton; `target` is an index into [`Model::entity_types`].
#[derive(Debug)]
pub struct Singleton {
    pub name: String,
    pub target: usize,
    pub navigation_property_bindings: Vec<NavigationPropertyBinding>,
}

impl Singleton {
    pub fn navigation_property_bindings(&self) -> (r: &Vec<NavigationPropertyBinding>)
        ensures
            r == &self.navigation_property_bindings,
    {
        &self.navigation_property_bindings
    }
}

#[derive(Debug)]
pub struct FunctionImport {
    pub name: String,
    pub function: String,
    /// Resolved against the container; ends at an entity set or singleton.
    pub entity_set: Option<Vec<BindingPathSegment>>,
}

#[derive(Debug)]
pub struct ActionImport {
    pub name: String,
    pub action: String,
    /// See [`FunctionImport::entity_set`].
    pub entity_set: Option<Vec<BindingPathSegment>>,
}

/// A resolved navigation property binding: the `path` to the bound navigation
/// property and the `target` entity set or singleton, both as resolved
/// reference paths.
#[derive(Debug)]
pub struct NavigationPropertyBinding {
    /// Resolves against the bound entity type; ends at a navigation property.
    pub path: Vec<BindingPathSegment>,
    /// Resolves against the container; starts at an entity set or singleton.
    pub target: Vec<BindingPathSegment>,
}

/// One segment of a resolved binding `path` or `target`, of a partner path, or
/// of an import's entity set.
#[derive(Debug, Clone, PartialEq, Eq)]
pub enum BindingPathSegment {
    /// A structural property.
    Property(MemberRef),
    /// A navigation property.
    NavigationProperty(MemberRef),
    /// A type-cast to a derived entity type (reserved; not produced by the
    /// resolver).
    EntityTypeCast(usize),
    /// A type-cast to a derived complex type (reserved; not produced by the
    /// resolver).
    ComplexTypeCast(usize),
    /// An entity set (index into the container's elements).
    EntitySet(usize),
    /// A singleton (index into the container's elements).
    Singleton(usize),
    /// The model's entity container (reserved; not produced by the resolver).
    EntityContainer,
    /// An authored segment name that did not resolve against the model.
    Unresolved(String),
}

/// One segment of a resolved entity key path.
#[derive(Debug, Clone, PartialEq, Eq)]
pub enum KeyPathSegment {
    /// A structural property.
    Property(MemberRef),
    Unresolved(String),
}

/// One segment of a resolved operation `EntitySetPath`.
#[derive(Debug, Clone, PartialEq, Eq)]
pub enum EntitySetPathSegment {
    /// The binding-parameter head of the path.
    BindingParameter(String),
    NavigationProperty(MemberRef),
    Property(MemberRef),
    Unresolved(String),
}

// ---------------------------------------------------------------------------
// Names of referenced elements
// ---------------------------------------------------------------------------

/// The structural property a reference names, if it names one of `m`.
pub open spec fn property_at(m: Model, r: MemberRef) -> Option<Property> {
    match r.owner {
        StructuredTypeRef::Entity(k) => if k < m.entity_types@.len() && r.index
            < m.entity_types@[k as int].declared_properties@.len() {
            Some(m.entity_types@[k as int].declared_properties@[r.index as int])
        } else {
            None
        },
        StructuredTypeRef::Complex(k) => if k < m.complex_types@.len() && r.index
            < m.complex_types@[k as int].declared_properties@.len() {
            Some(m.complex_types@[k as int].declared_properties@[r.index as int])
        } else {
            None
        },
    }
}

/// The navigation property a reference names, if it names one of `m`.
pub open spec fn navigation_at(m: Model, r: MemberRef) -> Option<NavigationProperty> {
    match r.owner {
        StructuredTypeRef::Entity(k) => if k < m.entity_types@.len() && r.index
            < m.entity_types@[k as int].declared_navigation_properties@.len() {
            Some(m.entity_types@[k as int].declared_navigation_properties@[r.index as int])
        } else {
            None
        },
        StructuredTypeRef::Complex(k) => if k < m.complex_types@.len() && r.index
            < m.complex_types@[k as int].declared_navigation_properties@.len() {
            Some(m.complex_types@[k as int].declared_navigation_properties@[r.index as int])
        } else {
            None
        },
    }
}

pub open spec fn property_name(m: Model, r: MemberRef) -> Option<Seq<char>> {
    match property_at(m, r) {
        Some(p) => Some(p.name@),
        None => None,
    }
}

pub open spec fn navigation_name(m: Model, r: MemberRef) -> Option<Seq<char>> {
    match navigation_at(m, r) {
        Some(n) => Some(n.name@),
        None => None,
    }
}

impl Model {
    /// The structural property `r` refers to.
    pub fn property(&self, r: &MemberRef) -> (p: Option<&Property>)
        ensures
            match property_at(*self, *r) {
                Some(q) => p == Some(&q),
                None => p is None,
            },
    {
        match r.owner {
            StructuredTypeRef::Entity(k) => {
                if k < self.entity_types.len() && r.index
                    < self.entity_types[k].declared_properties.len() {
                    Some(&self.entity_types[k].declared_properties[r.index])
                } else {
                    None
                }
            },
            StructuredTypeRef::Complex(k) => {
                if k < self.complex_types.len() && r.index
                    < self.complex_types[k].declared_properties.len() {
                    Some(&self.complex_types[k].declared_properties[r.index])
                } else {
                    None
                }
            },
        }
    }

    /// The navigation property `r` refers to.
    pub fn navigation(&self, r: &MemberRef) -> (n: Option<&NavigationProperty>)
        ensures
            match navigation_at(*self, *r) {
                Some(q) => n == Some(&q),
                None => n is None,
            },
    {
        match r.owner {
            StructuredTypeRef::Entity(k) => {
                if k < self.entity_types.len() && r.index
                    < self.entity_types[k].declared_navigation_properties.len() {
                    Some(&self.entity_types[k].declared_navigation_properties[r.index])
                } else {
                    None
                }
            },
            StructuredTypeRef::Complex(k) => {
                if k < self.complex_types.len() && r.index
                    < self.complex_types[k].declared_navigation_properties.len() {
                    Some(&self.complex_types[k].declared_navigation_properties[r.index])
                } else {
                    None
                }
            },
        }
    }
}

pub open spec fn entity_type_name(m: Model, id: usize) -> Option<Seq<char>> {
    if id < m.entity_types@.len() {
        Some(m.entity_types@[id as int].name@)
    } else {
        None
    }
}

pub open spec fn complex_type_name(m: Model, id: usize) -> Option<Seq<char>> {
    if id < m.complex_types@.len() {
        Some(m.complex_types@[id as int].name@)
    } else {
        None
    }
}

/// Name of the entity set at container element `id`, if that element is one.
pub open spec fn entity_set_name(m: Model, id: usize) -> Option<Seq<char>> {
    match m.entity_container {
        Some(c) => if id < c.elements@.len() {
            match c.elements@[id as int] {
                EntityContainerElement::EntitySet(s) => Some(s.name@),
                _ => None,
            }
        } else {
            None
        },
        None => None,
    }
}

pub open spec fn singleton_name(m: Model, id: usize) -> Option<Seq<char>> {
    match m.entity_container {
        Some(c) => if id < c.elements@.len() {
            match c.elements@[id as int] {
                EntityContainerElement::Singleton(s) => Some(s.name@),
                _ => None,
            }
        } else {
            None
        },
        None => None,
    }
}

pub open spec fn name_or(n: Option<Seq<char>>, dangling: Seq<char>) -> Seq<char> {
    match n {
        Some(x) => x,
        None => dangling,
    }
}

impl BindingPathSegment {
    /// The name a segment displays: the referenced element's name, the
    /// authored name of an unresolved segment, or a `<dangling-...>` marker
    /// for a reference that names no element of `m`.
    pub open spec fn spec_display_name(self, m: Model) -> Seq<char> {
        match self {
            BindingPathSegment::Property(id) => name_or(property_name(m, id), "<dangling-property>"@),
            BindingPathSegment::NavigationProperty(id) => name_or(
                navigation_name(m, id),
                "<dangling-navigation>"@,
            ),
            BindingPathSegment::EntityTypeCast(id) => name_or(
                entity_type_name(m, id),
                "<dangling-entity-type>"@,
            ),
            BindingPathSegment::ComplexTypeCast(id) => name_or(
                complex_type_name(m, id),
                "<dangling-complex-type>"@,
            ),
            BindingPathSegment::EntitySet(id) => name_or(entity_set_name(m, id), "<dangling-entity-set>"@),
            BindingPathSegment::Singleton(id) => name_or(singleton_name(m, id), "<dangling-singleton>"@),
            BindingPathSegment::EntityContainer => match m.entity_container {
                Some(c) => c.name@,
                None => "<dangling-container>"@,
            },
            BindingPathSegment::Unresolved(name) => name@,
        }
    }

    pub fn display_name(&self, model: &Model) -> (r: String)
        ensures
            r@ == self.spec_display_name(*model),
    {
        match self {
            BindingPathSegment::Property(id) => {
                match model.property(id) {
                    Some(p) => owned(p.name.as_str()),
                    None => owned("<dangling-property>"),
                }
            },
            BindingPathSegment::NavigationProperty(id) => {
                match model.navigation(id) {
                    Some(n) => owned(n.name.as_str()),
                    None => owned("<dangling-navigation>"),
                }
            },
            BindingPathSegment::EntityTypeCast(id) => {
                if *id < model.entity_types.len() {
                    owned(model.entity_types[*id].name.as_str())
                } else {
                    owned("<dangling-entity-type>")
                }
            },
            BindingPathSegment::ComplexTypeCast(id) => {
                if *id < model.complex_types.len() {
                    owned(model.complex_types[*id].name.as_str())
                } else {
                    owned("<dangling-complex-type>")
                }
            },
            BindingPathSegment::EntitySet(id) => {
                match container_set_name(model, *id) {
                    Some(n) => n,
                    None => owned("<dangling-entity-set>"),
                }
            },
            BindingPathSegment::Singleton(id) => {
                match container_singleton_name(model, *id) {
                    Some(n) => n,
                    None => owned("<dangling-singleton>"),
                }
            },
            BindingPathSegment::EntityContainer => {
                match &model.entity_container {
                    Some(c) => owned(c.name.as_str()),
                    None => owned("<dangling-container>"),
                }
            },
            BindingPathSegment::Unresolved(name) => owned(name.as_str()),
        }
    }
}

fn container_set_name(model: &Model, id: usize) -> (r: Option<String>)
    ensures
        match r {
            Some(n) => entity_set_name(*model, id) == Some(n@),
            None => entity_set_name(*model, id) is None,
        },
{
    match &model.entity_container {
        Some(c) => {
            if id < c.elements.len() {
                match &c.elements[id] {
                    EntityContainerElement::EntitySet(s) => Some(owned(s.name.as_str())),
                    _ => None,
                }
            } else {
                None
            }
        },
        None => None,
    }
}

fn container_singleton_name(model: &Model, id: usize) -> (r: Option<String>)
    ensures
        match r {
            Some(n) => singleton_name(*model, id) == Some(n@),
            None => singleton_name(*model, id) is None,
        },
{
    match &model.entity_container {
        Some(c) => {
            if id < c.elements.len() {
                match &c.elements[id] {
                    EntityContainerElement::Singleton(s) => Some(owned(s.name.as_str())),
                    _ => None,
                }
            } else {
                None
            }
        },
        None => None,
    }
}

/// A resolved binding path rendered as `Segment/Segment`.
pub open spec fn spec_binding_path_string(path: Seq<BindingPathSegment>, m: Model) -> Seq<char> {
    join(path.map_values(|s: BindingPathSegment| s.spec_display_name(m)), "/"@)
}

/// A path rendered segment by segment, `/` between segments.
fn render_path<T>(
    path: &Vec<T>,
    name_of: impl Fn(&T) -> String,
    Ghost(f): Ghost<spec_fn(T) -> Seq<char>>,
) -> (r: String)
    requires
        forall|s: &T| #[trigger] name_of.requires((s,)),
        forall|s: &T, n: String| name_of.ensures((s,), n) ==> n@ == f(*s),
    ensures
        r@ == join(path@.map_values(f), "/"@),
{
    let mut names: Vec<String> = Vec::new();
    let mut i: usize = 0;
    while i < path.len()
        invariant
            i <= path@.len(),
            names@.len() == i,
            strs(names@) == path@.take(i as int).map_values(f),
            forall|s: &T| #[trigger] name_of.requires((s,)),
            forall|s: &T, n: String| name_of.ensures((s,), n) ==> n@ == f(*s),
        decreases path.len() - i,
    {
        let n = name_of(&path[i]);
        let ghost nv = n@;
        let ghost old_names = names@;
        names.push(n);
        proof {
            assert forall|j: int| 0 <= j < i + 1 implies #[trigger] strs(names@)[j] == path@.take(i + 1).map_values(f)[j] by {
                if j < i {
                    assert(strs(old_names)[j] == path@.take(i as int).map_values(f)[j]);
                    assert(names@[j] == old_names[j]);
                } else {
                    assert(names@[j]@ == nv);
                }
            }
            assert(strs(names@) =~= path@.take(i + 1).map_values(f));
        }
        i = i + 1;
    }
    proof {
        assert(path@.take(path@.len() as int) =~= path@);
        reveal_strlit("/");
        assert(seq!['/'] =~= "/"@);
    }
    join_slash(&names)
}

fn binding_path_segments_to_string(path: &Vec<BindingPathSegment>, model: &Model) -> (r: String)
    ensures
        r@ == spec_binding_path_string(path@, *model),
{
    let name_of = |s: &BindingPathSegment| -> (n: String)
        ensures
            n@ == s.spec_display_name(*model),
    {
        s.display_name(model)
    };
    render_path(path, name_of, Ghost(|s: BindingPathSegment| s.spec_display_name(*model)))
}

/// Render a resolved binding path (or partner path) back to its
/// `Segment/Segment` string form.
pub fn binding_path_to_string(path: &Vec<BindingPathSegment>, model: &Model) -> (r: String)
    ensures
        r@ == spec_binding_path_string(path@, *model),
{
    binding_path_segments_to_string(path, model)
}

impl NavigationPropertyBinding {
    pub fn path_string(&self, model: &Model) -> (r: String)
        ensures
            r@ == spec_binding_path_string(self.path@, *model),
    {
        binding_path_segments_to_string(&self.path, model)
    }

    pub fn target_string(&self, model: &Model) -> (r: String)
        ensures
            r@ == spec_binding_path_string(self.target@, *model),
    {
        binding_path_segments_to_string(&self.target, model)
    }
}

impl FunctionImport {
    pub fn entity_set_string(&self, model: &Model) -> (r: Option<String>)
        ensures
            match self.entity_set {
                Some(p) => r is Some && r->0@ == spec_binding_path_string(p@, *model),
                None => r is None,
            },
    {
        match &self.entity_set {
            Some(p) => Some(binding_path_segments_to_string(p, model)),
            None => None,
        }
    }
}

impl ActionImport {
    pub fn entity_set_string(&self, model: &Model) -> (r: Option<String>)
        ensures
            match self.entity_set {
                Some(p) => r is Some && r->0@ == spec_binding_path_string(p@, *model),
                None => r is None,
            },
    {
        match &self.entity_set {
            Some(p) => Some(binding_path_segments_to_string(p, model)),
            None => None,
        }
    }
}

impl KeyPathSegment {
    pub open spec fn spec_display_name(self, m: Model) -> Seq<char> {
        match self {
            KeyPathSegment::Property(id) => name_or(property_name(m, id), "<dangling-property>"@),
            KeyPathSegment::Unresolved(name) => name@,
        }
    }

    pub fn display_name(&self, model: &Model) -> (r: String)
        ensures
            r@ == self.spec_display_name(*model),
    {
        match self {
            KeyPathSegment::Property(id) => {
                match model.property(id) {
                    Some(p) => owned(p.name.as_str()),
                    None => owned("<dangling-property>"),
                }
            },
            KeyPathSegment::Unresolved(name) => owned(name.as_str()),
        }
    }
}

pub open spec fn spec_key_path_string(path: Seq<KeyPathSegment>, m: Model) -> Seq<char> {
    join(path.map_values(|s: KeyPathSegment| s.spec_display_name(m)), "/"@)
}

/// Render a resolved key path back to its `Segment/Segment` string form.
pub fn key_path_to_string(path: &Vec<KeyPathSegment>, model: &Model) -> (r: String)
    ensures
        r@ == spec_key_path_string(path@, *model),
{
    let name_of = |s: &KeyPathSegment| -> (n: String)
        ensures
            n@ == s.spec_display_name(*model),
    {
        s.display_name(model)
    };
    render_path(path, name_of, Ghost(|s: KeyPathSegment| s.spec_display_name(*model)))
}

impl EntitySetPathSegment {
    pub open spec fn spec_display_name(self, m: Model) -> Seq<char> {
        match self {
            EntitySetPathSegment::BindingParameter(name) => name@,
            EntitySetPathSegment::NavigationProperty(id) => name_or(
                navigation_name(m, id),
                "<dangling-navigation>"@,
            ),
            EntitySetPathSegment::Property(id) => name_or(property_name(m, id), "<dangling-property>"@),
            EntitySetPathSegment::Unresolved(name) => name@,
        }
    }

    pub fn display_name(&self, model: &Model) -> (r: String)
        ensures
            r@ == self.spec_display_name(*model),
    {
        match self {
            EntitySetPathSegment::BindingParameter(name) => owned(name.as_str()),
            EntitySetPathSegment::NavigationProperty(id) => {
                match model.navigation(id) {
                    Some(n) => owned(n.name.as_str()),
                    None => owned("<dangling-navigation>"),
                }
            },
            EntitySetPathSegment::Property(id) => {
                match model.property(id) {
                    Some(p) => owned(p.name.as_str()),
                    None => owned("<dangling-property>"),
                }
            },
            EntitySetPathSegment::Unresolved(name) => owned(name.as_str()),
        }
    }
}

pub open spec fn spec_entity_set_path_string(path: Seq<EntitySetPathSegment>, m: Model) -> Seq<
    char,
> {
    join(path.map_values(|s: EntitySetPathSegment| s.spec_display_name(m)), "/"@)
}

/// Render a resolved entity-set path back to its `Segment/Segment` string
/// form.
pub fn entity_set_path_to_string(path: &Vec<EntitySetPathSegment>, model: &Model) -> (r: String)
    ensures
        r@ == spec_entity_set_path_string(path@, *model),
{
    let name_of = |s: &EntitySetPathSegment| -> (n: String)
        ensures
            n@ == s.spec_display_name(*model),
    {
        s.display_name(model)
    };
    render_path(path, name_of, Ghost(|s: EntitySetPathSegment| s.spec_display_name(*model)))
}


// ---------------------------------------------------------------------------
// Segments as values
// ---------------------------------------------------------------------------

/// A [`BindingPathSegment`] with its authored name as a character sequence.
pub enum SegmentView {
    Property(MemberRef),
    NavigationProperty(MemberRef),
    EntityTypeCast(usize),
    ComplexTypeCast(usize),
    EntitySet(usize),
    Singleton(usize),
    EntityContainer,
    Unresolved(Seq<char>),
}

impl View for BindingPathSegment {
    type V = SegmentView;

    open spec fn view(&self) -> SegmentView {
        match self {
            BindingPathSegment::Property(r) => SegmentView::Property(*r),
            BindingPathSegment::NavigationProperty(r) => SegmentView::NavigationProperty(*r),
            BindingPathSegment::EntityTypeCast(i) => SegmentView::EntityTypeCast(*i),
            BindingPathSegment::ComplexTypeCast(i) => SegmentView::ComplexTypeCast(*i),
            BindingPathSegment::EntitySet(i) => SegmentView::EntitySet(*i),
            BindingPathSegment::Singleton(i) => SegmentView::Singleton(*i),
            BindingPathSegment::EntityContainer => SegmentView::EntityContainer,
            BindingPathSegment::Unresolved(n) => SegmentView::Unresolved(n@),
        }
    }
}

/// A [`KeyPathSegment`] as a value.
pub enum KeySegmentView {
    Property(MemberRef),
    Unresolved(Seq<char>),
}

impl View for KeyPathSegment {
    type V = KeySegmentView;

    open spec fn view(&self) -> KeySegmentView {
        match self {
            KeyPathSegment::Property(r) => KeySegmentView::Property(*r),
            KeyPathSegment::Unresolved(n) => KeySegmentView::Unresolved(n@),
        }
    }
}

/// An [`EntitySetPathSegment`] as a value.
pub enum EntitySetSegmentView {
    BindingParameter(Seq<char>),
    NavigationProperty(MemberRef),
    Property(MemberRef),
    Unresolved(Seq<char>),
}

impl View for EntitySetPathSegment {
    type V = EntitySetSegmentView;

    open spec fn view(&self) -> EntitySetSegmentView {
        match self {
            EntitySetPathSegment::BindingParameter(n) => EntitySetSegmentView::BindingParameter(n@),
            EntitySetPathSegment::NavigationProperty(r) => EntitySetSegmentView::NavigationProperty(*r),
            EntitySetPathSegment::Property(r) => EntitySetSegmentView::Property(*r),
            EntitySetPathSegment::Unresolved(n) => EntitySetSegmentView::Unresolved(n@),
        }
    }
}

pub open spec fn segment_views(v: Seq<BindingPathSegment>) -> Seq<SegmentView> {
    v.map_values(|x: BindingPathSegment| x@)
}

pub open spec fn key_segment_views(v: Seq<KeyPathSegment>) -> Seq<KeySegmentView> {
    v.map_values(|x: KeyPathSegment| x@)
}

pub open spec fn entity_set_segment_views(v: Seq<EntitySetPathSegment>) -> Seq<EntitySetSegmentView> {
    v.map_values(|x: EntitySetPathSegment| x@)
}

} // verus!
