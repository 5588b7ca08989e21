//! CSDL annotation expressions (CSDL 14.4 and 14.5), as the readers produce
//! them.

use vstd::prelude::*;

use crate::csdl::Annotation;

verus! {

/// Binary operators of the logical and comparison expressions.
#[derive(Debug, Clone, Copy, PartialEq, Eq, Structural)]
pub enum BinaryOperator {
    And,
    Or,
    Eq,
    Ne,
    Gt,
    Ge,
    Lt,
    Le,
}

/// One annotation expression.
///
/// `Float` holds the literal as it was written: this library does no
/// floating-point arithmetic, so the text is kept and a caller that wants the
/// number parses it.
#[derive(Debug, PartialEq)]
pub enum CsdlAnnotationExpression {
    Binary(Vec<u8>),
    Bool(bool),
    Date(String),
    DateTimeOffset(String),
    Decimal(String),
    Duration(String),
    EnumMember(String),
    Float(String),
    Guid(String),
    Int(i64),
    String(String),
    TimeOfDay(String),
    Path(String),
    PropertyPath(String),
    NavigationPropertyPath(String),
    AnnotationPath(String),
    LabeledElementReference(String),
    Not(Box<CsdlAnnotationExpression>),
    BinaryExpression {
        op: BinaryOperator,
        lhs: Box<CsdlAnnotationExpression>,
        rhs: Box<CsdlAnnotationExpression>,
    },
    If {
        test: Box<CsdlAnnotationExpression>,
        then_: Box<CsdlAnnotationExpression>,
        else_: Option<Box<CsdlAnnotationExpression>>,
    },
    Apply {
        function: String,
        args: Vec<CsdlAnnotationExpression>,
    },
    Cast {
        type_: String,
        expr: Box<CsdlAnnotationExpression>,
    },
    IsOf {
        type_: String,
        expr: Box<CsdlAnnotationExpression>,
    },
    LabeledElement {
        name: String,
        expr: Box<CsdlAnnotationExpression>,
    },
    UrlRef(Box<CsdlAnnotationExpression>),
    Collection(Vec<CsdlAnnotationExpression>),
    Record {
        type_: Option<String>,
        properties: Vec<PropertyValue>,
        annotations: Vec<Annotation>,
    },
    Null,
}

/// One `PropertyValue` of a record expression.
#[derive(Debug, PartialEq)]
pub struct PropertyValue {
    pub property: String,
    pub value: Option<CsdlAnnotationExpression>,
    pub annotations: Vec<Annotation>,
}

/// An annotation expression as a mathematical value.
pub enum ExprView {
    Binary(Seq<u8>),
    Bool(bool),
    Date(Seq<char>),
    DateTimeOffset(Seq<char>),
    Decimal(Seq<char>),
    Duration(Seq<char>),
    EnumMember(Seq<char>),
    Float(Seq<char>),
    Guid(Seq<char>),
    Int(i64),
    String(Seq<char>),
    TimeOfDay(Seq<char>),
    Path(Seq<char>),
    PropertyPath(Seq<char>),
    NavigationPropertyPath(Seq<char>),
    AnnotationPath(Seq<char>),
    LabeledElementReference(Seq<char>),
    Not(Box<ExprView>),
    BinaryExpression { op: BinaryOperator, lhs: Box<ExprView>, rhs: Box<ExprView> },
    If { test: Box<ExprView>, then_: Box<ExprView>, else_: Option<Box<ExprView>> },
    Apply { function: Seq<char>, args: Seq<ExprView> },
    Cast { type_: Seq<char>, expr: Box<ExprView> },
    IsOf { type_: Seq<char>, expr: Box<ExprView> },
    LabeledElement { name: Seq<char>, expr: Box<ExprView> },
    UrlRef(Box<ExprView>),
    Collection(Seq<ExprView>),
    Record {
        type_: Option<Seq<char>>,
        properties: Seq<PropertyValueView>,
        annotations: Seq<AnnotationView>,
    },
    Null,
}

/// A [`PropertyValue`] as a mathematical value.
pub struct PropertyValueView {
    pub property: Seq<char>,
    pub value: Option<ExprView>,
    pub annotations: Seq<AnnotationView>,
}

/// An [`Annotation`] as a mathematical value.
pub struct AnnotationView {
    pub term: Seq<char>,
    pub qualifier: Option<Seq<char>>,
    pub target: Option<Seq<char>>,
    pub expression: Option<ExprView>,
}

pub open spec fn opt_chars(o: Option<String>) -> Option<Seq<char>> {
    match o {
        Some(s) => Some(s@),
        None => None,
    }
}

pub open spec fn expr_view(e: CsdlAnnotationExpression) -> ExprView
    decreases e,
{
    match e {
        CsdlAnnotationExpression::Binary(v) => ExprView::Binary(v@),
        CsdlAnnotationExpression::Bool(v) => ExprView::Bool(v),
        CsdlAnnotationExpression::Date(v) => ExprView::Date(v@),
        CsdlAnnotationExpression::DateTimeOffset(v) => ExprView::DateTimeOffset(v@),
        CsdlAnnotationExpression::Decimal(v) => ExprView::Decimal(v@),
        CsdlAnnotationExpression::Duration(v) => ExprView::Duration(v@),
        CsdlAnnotationExpression::EnumMember(v) => ExprView::EnumMember(v@),
        CsdlAnnotationExpression::Float(v) => ExprView::Float(v@),
        CsdlAnnotationExpression::Guid(v) => ExprView::Guid(v@),
        CsdlAnnotationExpression::Int(v) => ExprView::Int(v),
        CsdlAnnotationExpression::String(v) => ExprView::String(v@),
        CsdlAnnotationExpression::TimeOfDay(v) => ExprView::TimeOfDay(v@),
        CsdlAnnotationExpression::Path(v) => ExprView::Path(v@),
        CsdlAnnotationExpression::PropertyPath(v) => ExprView::PropertyPath(v@),
        CsdlAnnotationExpression::NavigationPropertyPath(v) => ExprView::NavigationPropertyPath(v@),
        CsdlAnnotationExpression::AnnotationPath(v) => ExprView::AnnotationPath(v@),
        CsdlAnnotationExpression::LabeledElementReference(v) => ExprView::LabeledElementReference(v@),
        CsdlAnnotationExpression::Not(x) => ExprView::Not(Box::new(expr_view(*x))),
        CsdlAnnotationExpression::BinaryExpression { op, lhs, rhs } => ExprView::BinaryExpression {
            op,
            lhs: Box::new(expr_view(*lhs)),
            rhs: Box::new(expr_view(*rhs)),
        },
        CsdlAnnotationExpression::If { test, then_, else_ } => ExprView::If {
            test: Box::new(expr_view(*test)),
            then_: Box::new(expr_view(*then_)),
            else_: match else_ {
                Some(x) => Some(Box::new(expr_view(*x))),
                None => None,
            },
        },
        CsdlAnnotationExpression::Apply { function, args } => ExprView::Apply {
            function: function@,
            args: expr_views(args@),
        },
        CsdlAnnotationExpression::Cast { type_, expr } => ExprView::Cast {
            type_: type_@,
            expr: Box::new(expr_view(*expr)),
        },
        CsdlAnnotationExpression::IsOf { type_, expr } => ExprView::IsOf {
            type_: type_@,
            expr: Box::new(expr_view(*expr)),
        },
        CsdlAnnotationExpression::LabeledElement { name, expr } => ExprView::LabeledElement {
            name: name@,
            expr: Box::new(expr_view(*expr)),
        },
        CsdlAnnotationExpression::UrlRef(x) => ExprView::UrlRef(Box::new(expr_view(*x))),
        CsdlAnnotationExpression::Collection(items) => ExprView::Collection(expr_views(items@)),
        CsdlAnnotationExpression::Record { type_, properties, annotations } => ExprView::Record {
            type_: opt_chars(type_),
            properties: property_value_views(properties@),
            annotations: annotation_views(annotations@),
        },
        CsdlAnnotationExpression::Null => ExprView::Null,
    }
}

pub open spec fn expr_views(s: Seq<CsdlAnnotationExpression>) -> Seq<ExprView>
    decreases s,
{
    if s.len() == 0 {
        Seq::empty()
    } else {
        expr_views(s.subrange(0, s.len() - 1)).push(expr_view(s[s.len() - 1]))
    }
}

pub open spec fn annotation_view(a: Annotation) -> AnnotationView
    decreases a,
{
    AnnotationView {
        term: a.term@,
        qualifier: opt_chars(a.qualifier),
        target: opt_chars(a.target),
        expression: match a.expression {
            Some(e) => Some(expr_view(e)),
            None => None,
        },
    }
}

pub open spec fn annotation_views(s: Seq<Annotation>) -> Seq<AnnotationView>
    decreases s,
{
    if s.len() == 0 {
        Seq::empty()
    } else {
        annotation_views(s.subrange(0, s.len() - 1)).push(annotation_view(s[s.len() - 1]))
    }
}

pub open spec fn property_value_view(p: PropertyValue) -> PropertyValueView
    decreases p,
{
    PropertyValueView {
        property: p.property@,
        value: match p.value {
            Some(e) => Some(expr_view(e)),
            None => None,
        },
        annotations: annotation_views(p.annotations@),
    }
}

pub open spec fn property_value_views(s: Seq<PropertyValue>) -> Seq<PropertyValueView>
    decreases s,
{
    if s.len() == 0 {
        Seq::empty()
    } else {
        property_value_views(s.subrange(0, s.len() - 1)).push(property_value_view(s[s.len() - 1]))
    }
}

pub proof fn lemma_expr_views_push(s: Seq<CsdlAnnotationExpression>, x: CsdlAnnotationExpression)
    ensures
        expr_views(s.push(x)) == expr_views(s).push(expr_view(x)),
{
    assert(s.push(x).subrange(0, s.len() as int) =~= s);
}

pub proof fn lemma_annotation_views_push(s: Seq<Annotation>, x: Annotation)
    ensures
        annotation_views(s.push(x)) == annotation_views(s).push(annotation_view(x)),
{
    assert(s.push(x).subrange(0, s.len() as int) =~= s);
}

pub proof fn lemma_property_value_views_push(s: Seq<PropertyValue>, x: PropertyValue)
    ensures
        property_value_views(s.push(x)) == property_value_views(s).push(property_value_view(x)),
{
    assert(s.push(x).subrange(0, s.len() as int) =~= s);
}

pub proof fn lemma_property_value_views(s: Seq<PropertyValue>)
    ensures
        property_value_views(s).len() == s.len(),
        forall|i: int| 0 <= i < s.len() ==> #[trigger] property_value_views(s)[i] == property_value_view(s[i]),
    decreases s.len(),
{
    if s.len() > 0 {
        lemma_property_value_views(s.subrange(0, s.len() - 1));
        assert forall|i: int| 0 <= i < s.len() implies #[trigger] property_value_views(s)[i] == property_value_view(s[i]) by {
            if i < s.len() - 1 {
                assert(s.subrange(0, s.len() - 1)[i] == s[i]);
            }
        }
    }
}

pub proof fn lemma_expr_views(s: Seq<CsdlAnnotationExpression>)
    ensures
        expr_views(s).len() == s.len(),
        forall|i: int| 0 <= i < s.len() ==> #[trigger] expr_views(s)[i] == expr_view(s[i]),
    decreases s.len(),
{
    if s.len() > 0 {
        lemma_expr_views(s.subrange(0, s.len() - 1));
        assert forall|i: int| 0 <= i < s.len() implies #[trigger] expr_views(s)[i] == expr_view(s[i]) by {
            if i < s.len() - 1 {
                assert(s.subrange(0, s.len() - 1)[i] == s[i]);
            }
        }
    }
}

} // verus!
