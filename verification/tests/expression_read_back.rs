use csdl_edm::csdl::Annotation;
use csdl_edm::csdl_json_reader::json_to_expr;
use csdl_edm::expr::{BinaryOperator, CsdlAnnotationExpression, PropertyValue};
use csdl_edm::serialization::expr_to_json;

fn s(text: &str) -> String {
    text.to_string()
}

fn read_back(e: &CsdlAnnotationExpression) -> CsdlAnnotationExpression {
    json_to_expr(&expr_to_json(e)).expect("written expression reads back")
}

fn annotation(term: &str, qualifier: Option<&str>, target: Option<&str>, e: CsdlAnnotationExpression) -> Annotation {
    Annotation {
        term: s(term),
        qualifier: qualifier.map(s),
        target: target.map(s),
        expression: Some(e),
    }
}

#[test]
fn constants_and_paths_read_back() {
    let cases = vec![
        CsdlAnnotationExpression::Bool(false),
        CsdlAnnotationExpression::Int(-42),
        CsdlAnnotationExpression::Int(i64::MAX),
        CsdlAnnotationExpression::Float(s("2.5")),
        CsdlAnnotationExpression::String(s("plain")),
        CsdlAnnotationExpression::Null,
        CsdlAnnotationExpression::Path(s("Address/City")),
        CsdlAnnotationExpression::PropertyPath(s("Name")),
        CsdlAnnotationExpression::NavigationPropertyPath(s("Orders")),
        CsdlAnnotationExpression::AnnotationPath(s("@UI.LineItem")),
    ];
    for e in &cases {
        assert_eq!(&read_back(e), e);
    }
}

#[test]
fn dynamic_expressions_read_back() {
    let e = CsdlAnnotationExpression::If {
        test: Box::new(CsdlAnnotationExpression::BinaryExpression {
            op: BinaryOperator::Le,
            lhs: Box::new(CsdlAnnotationExpression::Path(s("Price"))),
            rhs: Box::new(CsdlAnnotationExpression::Int(10)),
        }),
        then_: Box::new(CsdlAnnotationExpression::Not(Box::new(CsdlAnnotationExpression::Bool(true)))),
        else_: Some(Box::new(CsdlAnnotationExpression::Apply {
            function: s("odata.concat"),
            args: vec![
                CsdlAnnotationExpression::String(s("a")),
                CsdlAnnotationExpression::Cast {
                    type_: s("Edm.String"),
                    expr: Box::new(CsdlAnnotationExpression::Int(3)),
                },
            ],
        })),
    };
    assert_eq!(read_back(&e), e);
    let e = CsdlAnnotationExpression::Collection(vec![
        CsdlAnnotationExpression::IsOf {
            type_: s("Edm.Int32"),
            expr: Box::new(CsdlAnnotationExpression::Path(s("Id"))),
        },
        CsdlAnnotationExpression::LabeledElement {
            name: s("Label"),
            expr: Box::new(CsdlAnnotationExpression::UrlRef(Box::new(CsdlAnnotationExpression::String(s(
                "http://example.org",
            ))))),
        },
    ]);
    assert_eq!(read_back(&e), e);
}

#[test]
fn record_with_annotations_reads_back() {
    let e = CsdlAnnotationExpression::Record {
        type_: Some(s("Self.Person")),
        properties: vec![
            PropertyValue {
                property: s("Name"),
                value: Some(CsdlAnnotationExpression::String(s("Ada"))),
                annotations: vec![
                    annotation("Core.Description", None, None, CsdlAnnotationExpression::String(s("given"))),
                    annotation("UI.Hidden", Some("Phone"), None, CsdlAnnotationExpression::Bool(true)),
                ],
            },
            PropertyValue {
                property: s("Age"),
                value: Some(CsdlAnnotationExpression::Int(36)),
                annotations: vec![],
            },
        ],
        annotations: vec![
            annotation("Core.Revision", None, None, CsdlAnnotationExpression::Int(2)),
            annotation("Core.Note", Some("Short"), Some("Missing"), CsdlAnnotationExpression::Null),
        ],
    };
    assert_eq!(read_back(&e), e);
}

#[test]
fn typed_constants_come_back_as_strings() {
    let e = CsdlAnnotationExpression::Date(s("2024-01-31"));
    assert_eq!(read_back(&e), CsdlAnnotationExpression::String(s("2024-01-31")));
    let e = CsdlAnnotationExpression::EnumMember(s("Color/Red"));
    assert_eq!(read_back(&e), CsdlAnnotationExpression::String(s("Color/Red")));
}

#[test]
fn record_annotation_without_expression_reads_back_as_true() {
    let e = CsdlAnnotationExpression::Record {
        type_: None,
        properties: vec![],
        annotations: vec![Annotation {
            term: s("Core.Computed"),
            qualifier: None,
            target: None,
            expression: None,
        }],
    };
    let expected = CsdlAnnotationExpression::Record {
        type_: None,
        properties: vec![],
        annotations: vec![annotation("Core.Computed", None, None, CsdlAnnotationExpression::Bool(true))],
    };
    assert_eq!(read_back(&e), expected);
}
