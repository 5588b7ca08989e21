//! Syntactic CSDL model: what a CSDL document says, before any reference is
//! resolved.

use vstd::prelude::*;

use crate::expr::CsdlAnnotationExpression;
use crate::text::{decimal, spec_parse_u64, str_eq, owned, parse_u64, to_decimal, lemma_parse_decimal_u64};

verus! {

#[derive(Debug, PartialEq)]
pub struct CsdlDocument {
    pub edmx: Option<Edmx>,
}

#[derive(Debug, PartialEq)]
pub struct Edmx {
    pub version: Option<String>,
    pub references: Vec<Reference>,
    pub schemas: Vec<Schema>,
}

#[derive(Debug, PartialEq)]
pub struct Reference {
    pub uri: String,
    pub includes: Vec<Include>,
    pub include_annotations: Vec<IncludeAnnotations>,
}

#[derive(Debug, PartialEq)]
pub struct IncludeAnnotations {
    pub term_namespace: String,
    pub qualifier: Option<String>,
    pub target_namespace: Option<String>,
}

#[derive(Debug, PartialEq)]
pub struct Include {
    pub namespace: String,
    pub alias: Option<String>,
    pub annotations: Vec<Annotation>,
}

#[derive(Debug, PartialEq)]
pub struct Schema {
    pub namespace: String,
    pub alias: Option<String>,
    pub elements: Vec<SchemaElement>,
    pub annotations: Vec<Annotation>,
}

#[derive(Debug, PartialEq)]
pub enum SchemaElement {
    EntityType(EntityType),
    ComplexType(ComplexType),
    EnumType(EnumType),
    TypeDefinition(TypeDefinition),
    Term(Term),
    Function(Function),
    Action(Action),
    EntityContainer(EntityContainer),
}

#[derive(Debug, PartialEq)]
pub struct TypeDefinition {
    pub name: String,
    pub underlying_type: String,
    pub max_length: Option<MaxLengthFacet>,
    pub precision: Option<String>,
    pub scale: Option<ScaleFacet>,
    pub srid: Option<SridFacet>,
    pub unicode: Option<bool>,
    pub annotations: Vec<Annotation>,
}

#[derive(Debug, PartialEq)]
pub struct Term {
    pub name: String,
    pub type_ref: Option<String>,
    pub is_collection: bool,
    pub base_term: Option<String>,
    pub default_value: Option<String>,
    pub applies_to: Vec<String>,
    pub nullable: Option<bool>,
    pub max_length: Option<MaxLengthFacet>,
    pub precision: Option<String>,
    pub scale: Option<ScaleFacet>,
    pub srid: Option<SridFacet>,
    pub unicode: Option<bool>,
    pub annotations: Vec<Annotation>,
}

#[derive(Debug, PartialEq)]
pub struct Action {
    pub name: String,
    pub is_bound: Option<bool>,
    pub entity_set_path: Option<String>,
    pub parameters: Vec<Parameter>,
    pub return_type: Option<ReturnType>,
    pub annotations: Vec<Annotation>,
}

#[derive(Debug, PartialEq)]
pub struct EnumType {
    pub name: String,
    pub underlying_type: Option<String>,
    pub is_flags: Option<bool>,
    pub members: Vec<EnumMember>,
    pub annotations: Vec<Annotation>,
}

#[derive(Debug, PartialEq)]
pub struct EnumMember {
    pub name: String,
    pub value: Option<i64>,
    pub annotations: Vec<Annotation>,
}

#[derive(Debug, PartialEq)]
pub struct EntityType {
    pub name: String,
    pub base_type: Option<String>,
    pub abstract_: Option<bool>,
    pub open_type: Option<bool>,
    pub has_stream: Option<bool>,
    pub key: Option<Key>,
    pub properties: Vec<Property>,
    pub navigation_properties: Vec<NavigationProperty>,
    pub annotations: Vec<Annotation>,
}

#[derive(Debug, PartialEq)]
pub struct ComplexType {
    pub name: String,
    pub base_type: Option<String>,
    pub abstract_: Option<bool>,
    pub open_type: Option<bool>,
    pub properties: Vec<Property>,
    pub navigation_properties: Vec<NavigationProperty>,
    pub annotations: Vec<Annotation>,
}

#[derive(Debug, PartialEq)]
pub struct Key {
    pub property_refs: Vec<PropertyRef>,
}

#[derive(Debug, PartialEq)]
pub struct PropertyRef {
    pub name: String,
}

#[derive(Debug, PartialEq)]
pub struct Property {
    pub name: String,
    pub type_ref: Option<String>,
    pub is_collection: bool,
    pub nullable: Option<bool>,
    pub max_length: Option<MaxLengthFacet>,
    pub precision: Option<String>,
    pub scale: Option<ScaleFacet>,
    pub srid: Option<SridFacet>,
    pub unicode: Option<bool>,
    pub default_value: Option<String>,
    pub annotations: Vec<Annotation>,
}

#[derive(Debug, PartialEq)]
pub struct NavigationProperty {
    pub name: String,
    pub type_ref: Option<String>,
    pub is_collection: bool,
    pub nullable: Option<bool>,
    pub partner: Option<String>,
    pub contains_target: Option<bool>,
    pub on_delete: Option<OnDeleteAction>,
    pub referential_constraints: Vec<ReferentialConstraint>,
    pub annotations: Vec<Annotation>,
}

#[derive(Debug, Clone, Copy, PartialEq, Eq, Structural)]
pub enum OnDeleteAction {
    Cascade,
    /// The CSDL action spelled `None`.
    NoAction,
    SetNull,
    SetDefault,
}


#[derive(Debug, PartialEq)]
pub struct ReferentialConstraint {
    pub property: String,
    pub referenced_property: String,
    pub annotations: Vec<Annotation>,
}

#[derive(Debug, PartialEq)]
pub struct Function {
    pub name: String,
    pub is_bound: Option<bool>,
    pub is_composable: Option<bool>,
    pub entity_set_path: Option<String>,
    pub parameters: Vec<Parameter>,
    pub return_type: Option<ReturnType>,
    pub annotations: Vec<Annotation>,
}

#[derive(Debug, PartialEq)]
pub struct Parameter {
    pub name: String,
    pub type_ref: Option<String>,
    pub is_collection: bool,
    pub nullable: Option<bool>,
    pub max_length: Option<MaxLengthFacet>,
    pub precision: Option<String>,
    pub scale: Option<ScaleFacet>,
    pub srid: Option<SridFacet>,
    pub unicode: Option<bool>,
    pub default_value: Option<String>,
    pub annotations: Vec<Annotation>,
}

#[derive(Debug, PartialEq)]
pub struct ReturnType {
    pub type_ref: Option<String>,
    pub is_collection: bool,
    pub nullable: Option<bool>,
    pub max_length: Option<MaxLengthFacet>,
    pub precision: Option<String>,
    pub scale: Option<ScaleFacet>,
    pub srid: Option<SridFacet>,
    pub unicode: Option<bool>,
    pub annotations: Vec<Annotation>,
}

#[derive(Debug, Clone, Copy, PartialEq, Eq, Structural)]
pub enum MaxLengthFacet {
    Number(u64),
    Max,
}


#[derive(Debug, Clone, Copy, PartialEq, Eq, Structural)]
pub enum ScaleFacet {
    Number(u64),
    Variable,
}


#[derive(Debug, Clone, Copy, PartialEq, Eq, Structural)]
pub enum SridFacet {
    Number(u64),
    Variable,
}


#[derive(Debug, PartialEq)]
pub struct EntityContainer {
    pub name: String,
    pub extends: Option<String>,
    pub entity_sets: Vec<EntitySet>,
    pub singletons: Vec<Singleton>,
    pub function_imports: Vec<FunctionImport>,
    pub action_imports: Vec<ActionImport>,
    pub annotations: Vec<Annotation>,
}

#[derive(Debug, PartialEq)]
pub struct ActionImport {
    pub name: String,
    pub action: Option<String>,
    pub entity_set: Option<String>,
    pub include_in_service_document: Option<bool>,
    pub annotations: Vec<Annotation>,
}

#[derive(Debug, PartialEq)]
pub struct EntitySet {
    pub name: String,
    pub entity_type: Option<String>,
    pub include_in_service_document: Option<bool>,
    pub navigation_property_bindings: Vec<NavigationPropertyBinding>,
    pub annotations: Vec<Annotation>,
}

#[derive(Debug, PartialEq)]
pub struct Singleton {
    pub name: String,
    pub type_ref: Option<String>,
    pub include_in_service_document: Option<bool>,
    pub navigation_property_bindings: Vec<NavigationPropertyBinding>,
    pub annotations: Vec<Annotation>,
}

#[derive(Debug, PartialEq)]
pub struct FunctionImport {
    pub name: String,
    pub entity_set: Option<String>,
    pub function: Option<String>,
    pub include_in_service_document: Option<bool>,
    pub annotations: Vec<Annotation>,
}

#[derive(Debug, PartialEq)]
pub struct NavigationPropertyBinding {
    pub path: String,
    pub target: String,
}

#[derive(Debug, PartialEq)]
pub struct Annotation {
    pub term: String,
    pub qualifier: Option<String>,
    pub target: Option<String>,
    pub expression: Option<CsdlAnnotationExpression>,
}


impl OnDeleteAction {
    /// The action a CSDL `OnDelete/@Action` value names, if it names one.
    pub open spec fn spec_parse(raw: Seq<char>) -> Option<OnDeleteAction> {
        if raw == "Cascade"@ {
            Some(OnDeleteAction::Cascade)
        } else if raw == "None"@ {
            Some(OnDeleteAction::NoAction)
        } else if raw == "SetNull"@ {
            Some(OnDeleteAction::SetNull)
        } else if raw == "SetDefault"@ {
            Some(OnDeleteAction::SetDefault)
        } else {
            None
        }
    }

    pub open spec fn spec_as_str(self) -> Seq<char> {
        match self {
            OnDeleteAction::Cascade => "Cascade"@,
            OnDeleteAction::NoAction => "None"@,
            OnDeleteAction::SetNull => "SetNull"@,
            OnDeleteAction::SetDefault => "SetDefault"@,
        }
    }

    pub fn parse(raw: &str) -> (r: Option<Self>)
        ensures
            r == Self::spec_parse(raw@),
    {
        if str_eq(raw, "Cascade") {
            Some(Self::Cascade)
        } else if str_eq(raw, "None") {
            Some(Self::NoAction)
        } else if str_eq(raw, "SetNull") {
            Some(Self::SetNull)
        } else if str_eq(raw, "SetDefault") {
            Some(Self::SetDefault)
        } else {
            None
        }
    }

    pub fn as_str(self) -> (r: &'static str)
        ensures
            r@ == self.spec_as_str(),
    {
        match self {
            Self::Cascade => "Cascade",
            Self::NoAction => "None",
            Self::SetNull => "SetNull",
            Self::SetDefault => "SetDefault",
        }
    }
}

/// Each `OnDelete` action is named by its own CSDL name (`None` for
/// [`OnDeleteAction::NoAction`]): parsing that name gives the action, the
/// action prints as that name, and no other name parses.
pub proof fn lemma_on_delete_names()
    ensures
        OnDeleteAction::spec_parse("Cascade"@) == Some(OnDeleteAction::Cascade),
        OnDeleteAction::spec_parse("None"@) == Some(OnDeleteAction::NoAction),
        OnDeleteAction::spec_parse("SetNull"@) == Some(OnDeleteAction::SetNull),
        OnDeleteAction::spec_parse("SetDefault"@) == Some(OnDeleteAction::SetDefault),
        OnDeleteAction::Cascade.spec_as_str() == "Cascade"@,
        OnDeleteAction::NoAction.spec_as_str() == "None"@,
        OnDeleteAction::SetNull.spec_as_str() == "SetNull"@,
        OnDeleteAction::SetDefault.spec_as_str() == "SetDefault"@,
        forall|raw: Seq<char>| #[trigger] OnDeleteAction::spec_parse(raw) matches Some(a) ==> raw == a.spec_as_str(),
{
    reveal_strlit("Cascade");
    reveal_strlit("None");
    reveal_strlit("SetNull");
    reveal_strlit("SetDefault");
    assert("None"@.len() != "Cascade"@.len());
    assert("SetNull"@[0] != "Cascade"@[0]);
    assert("SetNull"@.len() != "None"@.len());
    assert("SetDefault"@.len() != "Cascade"@.len());
    assert("SetDefault"@.len() != "None"@.len());
    assert("SetDefault"@.len() != "SetNull"@.len());
}

/// Parsing the name of an `OnDelete` action gives the action back.
pub proof fn lemma_on_delete_round_trip(action: OnDeleteAction)
    ensures
        OnDeleteAction::spec_parse(action.spec_as_str()) == Some(action),
{
    reveal_strlit("Cascade");
    reveal_strlit("None");
    reveal_strlit("SetNull");
    reveal_strlit("SetDefault");
    assert("None"@ != "Cascade"@) by {
        assert("None"@.len() != "Cascade"@.len());
    }
    assert("SetNull"@ != "Cascade"@) by {
        assert("SetNull"@[0] != "Cascade"@[0]);
    }
    assert("SetNull"@ != "None"@) by {
        assert("SetNull"@.len() != "None"@.len());
    }
    assert("SetDefault"@ != "Cascade"@) by {
        assert("SetDefault"@.len() != "Cascade"@.len());
    }
    assert("SetDefault"@ != "None"@) by {
        assert("SetDefault"@.len() != "None"@.len());
    }
    assert("SetDefault"@ != "SetNull"@) by {
        assert("SetDefault"@.len() != "SetNull"@.len());
    }
}

impl MaxLengthFacet {
    /// `max`, or a `u64` as `u64::from_str` reads it.
    pub open spec fn spec_parse(raw: Seq<char>) -> Option<MaxLengthFacet> {
        if raw == "max"@ {
            Some(MaxLengthFacet::Max)
        } else {
            match spec_parse_u64(raw) {
                Some(v) => Some(MaxLengthFacet::Number(v)),
                None => None,
            }
        }
    }

    pub open spec fn spec_as_str(self) -> Seq<char> {
        match self {
            MaxLengthFacet::Number(v) => decimal(v as nat),
            MaxLengthFacet::Max => "max"@,
        }
    }

    pub fn parse(raw: &str) -> (r: Option<Self>)
        ensures
            r == Self::spec_parse(raw@),
    {
        if str_eq(raw, "max") {
            return Some(Self::Max);
        }
        match parse_u64(raw) {
            Some(v) => Some(Self::Number(v)),
            None => None,
        }
    }

    pub fn as_str(self) -> (r: String)
        ensures
            r@ == self.spec_as_str(),
    {
        match self {
            Self::Number(value) => to_decimal(value as u128),
            Self::Max => owned("max"),
        }
    }
}

/// Parsing the spelling of a `MaxLength` facet gives the facet back.
pub proof fn lemma_max_length_round_trip(facet: MaxLengthFacet)
    ensures
        MaxLengthFacet::spec_parse(facet.spec_as_str()) == Some(facet),
{
    reveal_strlit("max");
    if let MaxLengthFacet::Number(v) = facet {
        lemma_parse_decimal_u64(v);
        crate::text::lemma_decimal_head_is_digit(v as nat);
        assert(decimal(v as nat) != "max"@);
    }
}

impl ScaleFacet {
    /// `variable`, or a `u64` as `u64::from_str` reads it.
    pub open spec fn spec_parse(raw: Seq<char>) -> Option<ScaleFacet> {
        if raw == "variable"@ {
            Some(ScaleFacet::Variable)
        } else {
            match spec_parse_u64(raw) {
                Some(v) => Some(ScaleFacet::Number(v)),
                None => None,
            }
        }
    }

    pub open spec fn spec_as_str(self) -> Seq<char> {
        match self {
            ScaleFacet::Number(v) => decimal(v as nat),
            ScaleFacet::Variable => "variable"@,
        }
    }

    pub fn parse(raw: &str) -> (r: Option<Self>)
        ensures
            r == Self::spec_parse(raw@),
    {
        if str_eq(raw, "variable") {
            return Some(Self::Variable);
        }
        match parse_u64(raw) {
            Some(v) => Some(Self::Number(v)),
            None => None,
        }
    }

    pub fn as_str(self) -> (r: String)
        ensures
            r@ == self.spec_as_str(),
    {
        match self {
            Self::Number(value) => to_decimal(value as u128),
            Self::Variable => owned("variable"),
        }
    }
}

/// Parsing the spelling of a `Scale` facet gives the facet back.
pub proof fn lemma_scale_round_trip(facet: ScaleFacet)
    ensures
        ScaleFacet::spec_parse(facet.spec_as_str()) == Some(facet),
{
    reveal_strlit("variable");
    if let ScaleFacet::Number(v) = facet {
        lemma_parse_decimal_u64(v);
        crate::text::lemma_decimal_head_is_digit(v as nat);
        assert(decimal(v as nat) != "variable"@);
    }
}

impl SridFacet {
    /// `variable`, or a `u64` as `u64::from_str` reads it.
    pub open spec fn spec_parse(raw: Seq<char>) -> Option<SridFacet> {
        if raw == "variable"@ {
            Some(SridFacet::Variable)
        } else {
            match spec_parse_u64(raw) {
                Some(v) => Some(SridFacet::Number(v)),
                None => None,
            }
        }
    }

    pub open spec fn spec_as_str(self) -> Seq<char> {
        match self {
            SridFacet::Number(v) => decimal(v as nat),
            SridFacet::Variable => "variable"@,
        }
    }

    pub fn parse(raw: &str) -> (r: Option<Self>)
        ensures
            r == Self::spec_parse(raw@),
    {
        if str_eq(raw, "variable") {
            return Some(Self::Variable);
        }
        match parse_u64(raw) {
            Some(v) => Some(Self::Number(v)),
            None => None,
        }
    }

    pub fn as_str(self) -> (r: String)
        ensures
            r@ == self.spec_as_str(),
    {
        match self {
            Self::Number(value) => to_decimal(value as u128),
            Self::Variable => owned("variable"),
        }
    }
}

/// Parsing the spelling of an `SRID` facet gives the facet back.
pub proof fn lemma_srid_round_trip(facet: SridFacet)
    ensures
        SridFacet::spec_parse(facet.spec_as_str()) == Some(facet),
{
    reveal_strlit("variable");
    if let SridFacet::Number(v) = facet {
        lemma_parse_decimal_u64(v);
        crate::text::lemma_decimal_head_is_digit(v as nat);
        assert(decimal(v as nat) != "variable"@);
    }
}

} // verus!
