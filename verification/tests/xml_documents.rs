//! Reading CSDL XML documents: syntax units, annotation expressions, facets
//! and the errors of each stage.

use csdl_edm::csdl::{MaxLengthFacet, OnDeleteAction, SchemaElement, ScaleFacet};
use csdl_edm::csdl_xml_reader::{read_units, SyntaxUnit};
use csdl_edm::expr::{BinaryOperator, CsdlAnnotationExpression};
use csdl_edm::parser::{from_units, from_xml_reader};
use csdl_edm::ReadError;
use csdl_edm::serialization::xml::XmlOut;
use csdl_edm::serialization::xml_text::xml_text;

fn doc(schema_body: &str) -> String {
    format!(
        r#"<?xml version="1.0" encoding="UTF-8"?>
<edmx:Edmx xmlns:edmx="http://docs.oasis-open.org/odata/ns/edmx" Version="4.0">
  <edmx:DataServices>
    <Schema Namespace="Demo" xmlns="http://docs.oasis-open.org/odata/ns/edm">
{schema_body}
    </Schema>
  </edmx:DataServices>
</edmx:Edmx>"#
    )
}

fn message(r: Result<csdl_edm::CsdlDocument, ReadError>) -> String {
    match r {
        Err(ReadError::Csdl(m)) => m,
        other => panic!("expected a CSDL error, got {other:?}"),
    }
}

fn start(name: &str, attrs: &[(&str, &str)]) -> SyntaxUnit {
    SyntaxUnit::StartElement {
        name: name.to_string(),
        attributes: attrs.iter().map(|(k, v)| (k.to_string(), v.to_string())).collect(),
    }
}

fn end(name: &str) -> SyntaxUnit {
    SyntaxUnit::EndElement { name: name.to_string() }
}

#[test]
fn units_of_a_self_closing_annotation_take_its_inline_value() {
    let units = read_units(br#"<Term Name="T"><Annotation Term="Core.Description" String="hi" Qualifier="q"/></Term>"#)
        .expect("units");
    assert_eq!(
        units,
        vec![
            start("Term", &[("Name", "T")]),
            start("Annotation", &[("Term", "Core.Description"), ("Qualifier", "q")]),
            SyntaxUnit::AnnotationExpression(CsdlAnnotationExpression::String("hi".to_string())),
            end("Annotation"),
            end("Term"),
        ]
    );
}

#[test]
fn annotation_without_expression_stands_for_true() {
    let units = read_units(br#"<Annotation Term="Core.Computed"/>"#).expect("units");
    assert_eq!(units[1], SyntaxUnit::AnnotationExpression(CsdlAnnotationExpression::Bool(true)));
}

#[test]
fn nested_expression_elements_are_read() {
    let units = read_units(
        br#"<Annotation Term="T"><And><Path>A/B</Path><Not><Bool>TRUE</Bool></Not></And></Annotation>"#,
    )
    .expect("units");
    assert_eq!(
        units[1],
        SyntaxUnit::AnnotationExpression(CsdlAnnotationExpression::BinaryExpression {
            op: BinaryOperator::And,
            lhs: Box::new(CsdlAnnotationExpression::Path("A/B".to_string())),
            rhs: Box::new(CsdlAnnotationExpression::Not(Box::new(CsdlAnnotationExpression::Bool(true)))),
        })
    );
}

#[test]
fn text_of_an_expression_is_unescaped() {
    let units = read_units(br#"<Annotation Term="T"><String>a &amp; b</String></Annotation>"#).expect("units");
    assert_eq!(units[1], SyntaxUnit::AnnotationExpression(CsdlAnnotationExpression::String("a & b".to_string())));
}

#[test]
fn binary_operator_needs_two_operands() {
    match read_units(br#"<Annotation Term="T"><Or><Bool>true</Bool></Or></Annotation>"#) {
        Err(ReadError::Csdl(m)) => assert_eq!(m, "<Or> expects 2 children, got 1"),
        other => panic!("unexpected {other:?}"),
    }
}

#[test]
fn unknown_expression_element_is_located() {
    match read_units(b"<Annotation Term=\"T\">\n<Frob/></Annotation>") {
        Ok(_) => {}
        other => panic!("an empty unknown element reads as null: {other:?}"),
    }
    match read_units(b"<Annotation Term=\"T\">\n<Frob></Frob></Annotation>") {
        Err(ReadError::Csdl(m)) => {
            assert!(m.starts_with("at line 2, column "), "{m}");
            assert!(m.ends_with(": unknown expression element <Frob>"), "{m}");
        }
        other => panic!("unexpected {other:?}"),
    }
}

#[test]
fn mismatched_end_tag_is_reported_by_assembly() {
    let units = vec![start("Edmx", &[]), start("Schema", &[]), end("Edmx")];
    assert_eq!(message(from_units(units)), "mismatched closing tag: expected </Schema> but got </Edmx>");
    assert_eq!(message(from_units(vec![end("Edmx")])), "end element </Edmx> without matching start");
    assert_eq!(
        message(from_units(vec![start("Edmx", &[])])),
        "document ended before all start elements were closed"
    );
    assert_eq!(
        message(from_units(vec![SyntaxUnit::AnnotationExpression(CsdlAnnotationExpression::Null)])),
        "annotation expression outside any element"
    );
}

#[test]
fn units_without_edmx_make_an_empty_document() {
    let d = from_units(vec![start("Other", &[]), end("Other")]).expect("document");
    assert!(d.edmx.is_none());
}

#[test]
fn facets_are_read_and_bad_ones_rejected() {
    let d = from_xml_reader(
        doc(r#"<ComplexType Name="C"><Property Name="P" Type="Edm.Decimal" MaxLength="max" Scale="variable"/></ComplexType>"#)
            .as_bytes(),
    )
    .expect("parse");
    let schema = &d.edmx.as_ref().unwrap().schemas[0];
    match &schema.elements[0] {
        SchemaElement::ComplexType(c) => {
            assert_eq!(c.properties[0].max_length, Some(MaxLengthFacet::Max));
            assert_eq!(c.properties[0].scale, Some(ScaleFacet::Variable));
        }
        other => panic!("unexpected {other:?}"),
    }
    assert_eq!(
        message(from_xml_reader(
            doc(r#"<ComplexType Name="C"><Property Name="P" Type="Edm.String" MaxLength="-3"/></ComplexType>"#).as_bytes()
        )),
        "unsupported MaxLength value: -3"
    );
    assert_eq!(
        message(from_xml_reader(
            doc(r#"<TypeDefinition Name="T" UnderlyingType="Edm.Decimal" Scale="wide"/>"#).as_bytes()
        )),
        "unsupported Scale value: wide"
    );
}

#[test]
fn on_delete_action_is_read_and_unknown_one_rejected() {
    let d = from_xml_reader(
        doc(r#"<EntityType Name="E"><NavigationProperty Name="N" Type="Demo.E"><OnDelete Action="Cascade"/></NavigationProperty></EntityType>"#)
            .as_bytes(),
    )
    .expect("parse");
    match &d.edmx.as_ref().unwrap().schemas[0].elements[0] {
        SchemaElement::EntityType(e) => assert_eq!(e.navigation_properties[0].on_delete, Some(OnDeleteAction::Cascade)),
        other => panic!("unexpected {other:?}"),
    }
    assert_eq!(
        message(from_xml_reader(
            doc(r#"<EntityType Name="E"><NavigationProperty Name="N" Type="Demo.E"><OnDelete Action="Explode"/></NavigationProperty></EntityType>"#)
                .as_bytes()
        )),
        "unsupported OnDelete Action value: Explode"
    );
}

#[test]
fn collection_type_is_split() {
    let d = from_xml_reader(
        doc(r#"<ComplexType Name="C"><Property Name="P" Type="Collection(Edm.String)"/></ComplexType>"#).as_bytes(),
    )
    .expect("parse");
    match &d.edmx.as_ref().unwrap().schemas[0].elements[0] {
        SchemaElement::ComplexType(c) => {
            assert_eq!(c.properties[0].type_ref.as_deref(), Some("Edm.String"));
            assert!(c.properties[0].is_collection);
        }
        other => panic!("unexpected {other:?}"),
    }
}

#[test]
fn units_spelling_a_tree_assemble_into_that_tree() {
    let units = vec![
        start("Edmx", &[("Version", "4.01")]),
        start("DataServices", &[]),
        start("Schema", &[("Namespace", "First")]),
        start("EntityType", &[("Name", "Item")]),
        end("EntityType"),
        start("Annotation", &[("Term", "Core.Description")]),
        SyntaxUnit::AnnotationExpression(CsdlAnnotationExpression::String("text".to_string())),
        end("Annotation"),
        end("Schema"),
        start("Schema", &[("Namespace", "Second")]),
        end("Schema"),
        end("DataServices"),
        end("Edmx"),
    ];
    let document = from_units(units).expect("document");
    let edmx = document.edmx.expect("edmx");
    assert_eq!(edmx.version.as_deref(), Some("4.01"));
    assert_eq!(edmx.schemas.len(), 2);
    assert_eq!(edmx.schemas[0].namespace, "First");
    assert_eq!(edmx.schemas[1].namespace, "Second");
    assert_eq!(edmx.schemas[0].elements.len(), 1);
    assert!(matches!(&edmx.schemas[0].elements[0], SchemaElement::EntityType(e) if e.name == "Item"));
    assert_eq!(edmx.schemas[0].annotations.len(), 1);
    assert_eq!(
        edmx.schemas[0].annotations[0].expression,
        Some(CsdlAnnotationExpression::String("text".to_string()))
    );
}

fn pairs(p: &[(&str, &str)]) -> Vec<(String, String)> {
    p.iter().map(|(k, v)| (k.to_string(), v.to_string())).collect()
}

#[test]
fn xml_text_indents_by_four_spaces_and_escapes() {
    let events = vec![
        XmlOut::Decl,
        XmlOut::Start { name: "Edmx".to_string(), attributes: pairs(&[("Version", "4.0")]) },
        XmlOut::Empty { name: "Schema".to_string(), attributes: pairs(&[("Namespace", "A&B")]) },
        XmlOut::Start { name: "String".to_string(), attributes: vec![] },
        XmlOut::Text("a<b".to_string()),
        XmlOut::End { name: "String".to_string() },
        XmlOut::End { name: "Edmx".to_string() },
    ];
    let text = xml_text(&events);
    assert_eq!(
        String::from_utf8(text).unwrap(),
        "<?xml version=\"1.0\" encoding=\"UTF-8\"?>\n<Edmx Version=\"4.0\">\n    <Schema Namespace=\"A&amp;B\"/>\n    <String>a&lt;b</String>\n</Edmx>"
    );
}

#[test]
fn xml_text_of_no_events_is_empty() {
    assert_eq!(xml_text(&vec![]), Vec::<u8>::new());
}
