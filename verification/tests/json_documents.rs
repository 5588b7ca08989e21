//! Reading CSDL JSON documents and writing documents as JSON and XML.

use csdl_edm::csdl_json_reader::{json_to_expr, JsonCsdlReader};
use csdl_edm::csdl_xml_reader::SyntaxUnit;
use csdl_edm::expr::{BinaryOperator, CsdlAnnotationExpression};
use csdl_edm::json::{JsonNumber, JsonValue};
use csdl_edm::parser::{from_json_value, from_xml_reader};
use csdl_edm::serialization::{format_for_extension, str_lt};
use csdl_edm::serialization::xml::{xml_events, XmlOut};
use csdl_edm::{CsdlDocument, CsdlFormat, ReadError};
use csdl_edm::csdl::{Annotation, Edmx, Schema};

fn s(x: &str) -> JsonValue {
    JsonValue::String(x.to_string())
}

fn n(x: u64) -> JsonValue {
    JsonValue::Number(JsonNumber::PosInt(x))
}

fn b(x: bool) -> JsonValue {
    JsonValue::Bool(x)
}

fn obj(members: Vec<(&str, JsonValue)>) -> JsonValue {
    JsonValue::Object(members.into_iter().map(|(k, v)| (k.to_string(), v)).collect())
}

fn arr(items: Vec<JsonValue>) -> JsonValue {
    JsonValue::Array(items)
}

fn start(name: &str, attrs: &[(&str, &str)]) -> SyntaxUnit {
    SyntaxUnit::StartElement {
        name: name.to_string(),
        attributes: attrs.iter().map(|(k, v)| (k.to_string(), v.to_string())).collect(),
    }
}

fn end(name: &str) -> SyntaxUnit {
    SyntaxUnit::EndElement { name: name.to_string() }
}

fn csdl_message(r: Result<Vec<SyntaxUnit>, ReadError>) -> String {
    match r {
        Err(ReadError::Csdl(m)) => m,
        other => panic!("expected a CSDL error, got {other:?}"),
    }
}

const SMALL: &str = r#"<?xml version="1.0" encoding="UTF-8"?>
<edmx:Edmx xmlns:edmx="http://docs.oasis-open.org/odata/ns/edmx" Version="4.0">
  <edmx:DataServices>
    <Schema Namespace="Demo" Alias="D" xmlns="http://docs.oasis-open.org/odata/ns/edm">
      <EntityType Name="Customer">
        <Key><PropertyRef Name="Id" /></Key>
        <Property Name="Id" Type="Edm.Int32" Nullable="false" />
        <Property Name="Name" Type="Edm.String" MaxLength="40" />
      </EntityType>
      <EntityContainer Name="Svc">
        <EntitySet Name="Customers" EntityType="Demo.Customer" />
      </EntityContainer>
    </Schema>
  </edmx:DataServices>
</edmx:Edmx>"#;

fn small_json() -> JsonValue {
    obj(vec![
        ("$Version", s("4.0")),
        (
            "Demo",
            obj(vec![
                ("$Alias", s("D")),
                (
                    "Customer",
                    obj(vec![
                        ("$Kind", s("EntityType")),
                        ("$Key", arr(vec![s("Id")])),
                        ("Id", obj(vec![("$Type", s("Edm.Int32")), ("$Nullable", b(false))])),
                        ("Name", obj(vec![("$MaxLength", n(40))])),
                    ]),
                ),
                (
                    "Svc",
                    obj(vec![
                        ("$Kind", s("EntityContainer")),
                        ("Customers", obj(vec![("$Collection", b(true)), ("$Type", s("Demo.Customer"))])),
                    ]),
                ),
            ]),
        ),
        ("$EntityContainer", s("Demo.Svc")),
    ])
}

#[test]
fn xml_document_written_as_json() {
    let doc = from_xml_reader(SMALL.as_bytes()).expect("parse");
    assert_eq!(doc.to_json_value(), small_json());
}

#[test]
fn empty_document_written_as_json_is_a_version() {
    let doc = CsdlDocument { edmx: None };
    assert_eq!(doc.to_json_value(), obj(vec![("$Version", s("4.01"))]));
}

#[test]
fn json_document_reads_as_its_xml_twin() {
    let from_xml = from_xml_reader(SMALL.as_bytes()).expect("parse xml");
    let from_json = from_json_value(small_json()).expect("parse json");
    assert_eq!(from_json.to_json_value(), from_xml.to_json_value());
}

#[test]
fn json_roundtrip_is_idempotent() {
    let doc = from_xml_reader(SMALL.as_bytes()).expect("parse");
    let first = from_json_value(doc.to_json_value()).expect("first");
    let second = from_json_value(first.to_json_value()).expect("second");
    assert_eq!(first, second);
}

#[test]
fn json_written_again_after_reading_is_unchanged() {
    let doc = from_xml_reader(SMALL.as_bytes()).expect("parse");
    let first = from_json_value(doc.to_json_value()).expect("first");
    assert_eq!(first.to_json_value(), doc.to_json_value());
    assert_eq!(xml_events(&first), xml_events(&from_json_value(first.to_json_value()).expect("second")));
}

#[test]
fn json_units_of_an_entity_type() {
    let value = obj(vec![
        ("$Version", s("4.01")),
        (
            "NS",
            obj(vec![(
                "E",
                obj(vec![
                    ("$Kind", s("EntityType")),
                    ("$Key", arr(vec![s("Id"), n(3)])),
                    ("Id", obj(vec![("$Type", s("Edm.Int32")), ("$Nullable", b(false))])),
                ]),
            )]),
        ),
    ]);
    let units = JsonCsdlReader::new(value).into_units().expect("units");
    assert_eq!(
        units,
        vec![
            start("Edmx", &[("Version", "4.01")]),
            start("Schema", &[("Namespace", "NS")]),
            start("EntityType", &[("Name", "E")]),
            start("Key", &[]),
            start("PropertyRef", &[("Name", "Id")]),
            end("PropertyRef"),
            end("Key"),
            start("Property", &[("Name", "Id"), ("Type", "Edm.Int32"), ("Nullable", "false")]),
            end("Property"),
            end("EntityType"),
            end("Schema"),
            end("Edmx"),
        ]
    );
}

#[test]
fn json_version_defaults_to_4_01() {
    let units = JsonCsdlReader::new(obj(vec![])).into_units().expect("units");
    assert_eq!(units, vec![start("Edmx", &[("Version", "4.01")]), end("Edmx")]);
}

#[test]
fn json_enum_members_take_integer_or_numeric_string_values() {
    let value = obj(vec![(
        "NS",
        obj(vec![(
            "C",
            obj(vec![
                ("$Kind", s("EnumType")),
                ("$IsFlags", b(true)),
                ("Red", n(1)),
                ("Big", s("9223372036854775807")),
                ("Odd", b(true)),
                ("Red@Core.Description", s("warm")),
            ]),
        )]),
    )]);
    let units = JsonCsdlReader::new(value).into_units().expect("units");
    assert_eq!(
        units,
        vec![
            start("Edmx", &[("Version", "4.01")]),
            start("Schema", &[("Namespace", "NS")]),
            start("EnumType", &[("Name", "C"), ("IsFlags", "true")]),
            start("Member", &[("Name", "Red"), ("Value", "1")]),
            end("Member"),
            start("Member", &[("Name", "Big"), ("Value", "9223372036854775807")]),
            end("Member"),
            start("Member", &[("Name", "Odd")]),
            end("Member"),
            start("Annotation", &[("Term", "Core.Description"), ("Target", "Red")]),
            SyntaxUnit::AnnotationExpression(CsdlAnnotationExpression::String("warm".to_string())),
            end("Annotation"),
            end("EnumType"),
            end("Schema"),
            end("Edmx"),
        ]
    );
}

#[test]
fn json_container_children_and_bindings() {
    let value = obj(vec![(
        "NS",
        obj(vec![(
            "Svc",
            obj(vec![
                ("$Kind", s("EntityContainer")),
                (
                    "People",
                    obj(vec![
                        ("$Collection", b(true)),
                        ("$Type", s("NS.Person")),
                        ("$NavigationPropertyBinding", obj(vec![("Friends", s("People"))])),
                    ]),
                ),
                ("Me", obj(vec![("$Type", s("NS.Person"))])),
                ("Top", obj(vec![("$Function", s("NS.Top")), ("$EntitySet", s("People"))])),
                ("Reset", obj(vec![("$Action", s("NS.Reset")), ("$IncludeInServiceDocument", b(false))])),
            ]),
        )]),
    )]);
    let units = JsonCsdlReader::new(value).into_units().expect("units");
    assert_eq!(
        units,
        vec![
            start("Edmx", &[("Version", "4.01")]),
            start("Schema", &[("Namespace", "NS")]),
            start("EntityContainer", &[("Name", "Svc")]),
            start("EntitySet", &[("Name", "People"), ("EntityType", "NS.Person")]),
            start("NavigationPropertyBinding", &[("Path", "Friends"), ("Target", "People")]),
            end("NavigationPropertyBinding"),
            end("EntitySet"),
            start("Singleton", &[("Name", "Me"), ("Type", "NS.Person")]),
            end("Singleton"),
            start("FunctionImport", &[("Name", "Top"), ("Function", "NS.Top"), ("EntitySet", "People")]),
            end("FunctionImport"),
            start("ActionImport", &[("Name", "Reset"), ("Action", "NS.Reset"), ("IncludeInServiceDocument", "false")]),
            end("ActionImport"),
            end("EntityContainer"),
            end("Schema"),
            end("Edmx"),
        ]
    );
}

#[test]
fn json_function_overloads_parameters_and_return_type() {
    let value = obj(vec![(
        "NS",
        obj(vec![(
            "f",
            arr(vec![obj(vec![
                ("$Kind", s("Function")),
                ("$IsBound", b(true)),
                ("$IsComposable", b(false)),
                ("$Parameter", arr(vec![obj(vec![("$Name", s("x")), ("$Type", s("Edm.Int32")), ("$Collection", b(true))])])),
                ("$ReturnType", obj(vec![("$Type", s("Edm.String")), ("$MaxLength", n(10))])),
            ])]),
        )]),
    )]);
    let units = JsonCsdlReader::new(value).into_units().expect("units");
    assert_eq!(
        units,
        vec![
            start("Edmx", &[("Version", "4.01")]),
            start("Schema", &[("Namespace", "NS")]),
            start("Function", &[("Name", "f"), ("IsBound", "true"), ("IsComposable", "false")]),
            start("Parameter", &[("Name", "x"), ("Type", "Edm.Int32"), ("Collection", "true")]),
            end("Parameter"),
            start("ReturnType", &[("Type", "Edm.String"), ("MaxLength", "10")]),
            end("ReturnType"),
            end("Function"),
            end("Schema"),
            end("Edmx"),
        ]
    );
}

#[test]
fn json_term_applies_to_joins_strings() {
    let value = obj(vec![(
        "NS",
        obj(vec![(
            "T",
            obj(vec![("$Kind", s("Term")), ("$AppliesTo", arr(vec![s("EntityType"), n(1), s("Property")]))]),
        )]),
    )]);
    let units = JsonCsdlReader::new(value).into_units().expect("units");
    assert_eq!(units[2], start("Term", &[("Name", "T"), ("AppliesTo", "EntityType Property")]));
}

#[test]
fn json_references_with_includes() {
    let value = obj(vec![(
        "$Reference",
        obj(vec![(
            "http://x/$metadata",
            obj(vec![
                ("$Include", arr(vec![obj(vec![("$Namespace", s("Org.Core")), ("$Alias", s("Core"))])])),
                ("$IncludeAnnotations", arr(vec![obj(vec![("$TermNamespace", s("Org.Core")), ("$Qualifier", s("q"))])])),
            ]),
        )]),
    )]);
    let units = JsonCsdlReader::new(value).into_units().expect("units");
    assert_eq!(
        units,
        vec![
            start("Edmx", &[("Version", "4.01")]),
            start("Reference", &[("Uri", "http://x/$metadata")]),
            start("Include", &[("Namespace", "Org.Core"), ("Alias", "Core")]),
            end("Include"),
            start("IncludeAnnotations", &[("TermNamespace", "Org.Core"), ("Qualifier", "q")]),
            end("IncludeAnnotations"),
            end("Reference"),
            end("Edmx"),
        ]
    );
}

#[test]
fn json_reader_errors_name_the_place() {
    assert_eq!(csdl_message(JsonCsdlReader::new(arr(vec![])).into_units()), "expected object at document root");
    assert_eq!(
        csdl_message(JsonCsdlReader::new(obj(vec![("$Reference", arr(vec![]))])).into_units()),
        "expected object at $Reference"
    );
    assert_eq!(
        csdl_message(JsonCsdlReader::new(obj(vec![("$Reference", obj(vec![("u", n(1))]))])).into_units()),
        "expected object at u"
    );
    assert_eq!(
        csdl_message(
            JsonCsdlReader::new(obj(vec![("$Reference", obj(vec![("u", obj(vec![("$Include", n(5))]))]))])).into_units()
        ),
        "$Include must be an array"
    );
    assert_eq!(
        csdl_message(
            JsonCsdlReader::new(obj(vec![("$Reference", obj(vec![("u", obj(vec![("$IncludeAnnotations", n(5))]))]))]))
                .into_units()
        ),
        "$IncludeAnnotations must be an array"
    );
    assert_eq!(
        csdl_message(
            JsonCsdlReader::new(obj(vec![("$Reference", obj(vec![("u", obj(vec![("$Include", arr(vec![n(5)]))]))]))]))
                .into_units()
        ),
        "expected object at $Include[i]"
    );
    assert_eq!(csdl_message(JsonCsdlReader::new(obj(vec![("NS", n(5))])).into_units()), "expected object at NS");
    assert_eq!(
        csdl_message(JsonCsdlReader::new(obj(vec![("NS", obj(vec![("f", arr(vec![n(1)]))]))])).into_units()),
        "expected object at f"
    );
    assert_eq!(
        csdl_message(
            JsonCsdlReader::new(obj(vec![(
                "NS",
                obj(vec![("f", arr(vec![obj(vec![("$Kind", s("Action")), ("$Parameter", arr(vec![n(3)]))])]))]),
            )]))
            .into_units()
        ),
        "expected object at $Parameter[i]"
    );
}

#[test]
fn json_document_errors_reach_the_parser() {
    match from_json_value(s("x")) {
        Err(ReadError::Csdl(m)) => assert_eq!(m, "expected object at document root"),
        other => panic!("unexpected {other:?}"),
    }
}

#[test]
fn json_binary_expression() {
    let e = json_to_expr(&obj(vec![("$And", arr(vec![obj(vec![("$Path", s("A"))]), b(true)]))])).expect("expr");
    assert_eq!(
        e,
        CsdlAnnotationExpression::BinaryExpression {
            op: BinaryOperator::And,
            lhs: Box::new(CsdlAnnotationExpression::Path("A".to_string())),
            rhs: Box::new(CsdlAnnotationExpression::Bool(true)),
        }
    );
}

#[test]
fn json_expression_errors() {
    let msg = |v: JsonValue| match json_to_expr(&v) {
        Err(ReadError::Csdl(m)) => m,
        other => panic!("unexpected {other:?}"),
    };
    assert_eq!(msg(obj(vec![("$Or", arr(vec![b(true)]))])), "$Or expects [lhs, rhs]");
    assert_eq!(msg(obj(vec![("$If", n(1))])), "$If expects [test, then] or [test, then, else]");
    assert_eq!(msg(obj(vec![("$Apply", n(1))])), "$Apply expects an array of arguments");
    assert_eq!(msg(obj(vec![("$Frob", n(1))])), "unknown JSON annotation-expression discriminator $Frob");
}

#[test]
fn json_large_integer_becomes_float_text() {
    let e = json_to_expr(&n(u64::MAX)).expect("expr");
    assert_eq!(e, CsdlAnnotationExpression::Float("18446744073709551615".to_string()));
    let e = json_to_expr(&JsonValue::Number(JsonNumber::NegInt(-5))).expect("expr");
    assert_eq!(e, CsdlAnnotationExpression::Int(-5));
}

#[test]
fn json_record_attaches_property_annotations() {
    let e = json_to_expr(&obj(vec![
        ("$Type", s("NS.R")),
        ("A", n(1)),
        ("A@Core.Description", s("first")),
        ("B@Core.Description", s("orphan")),
        ("@Core.Note", s("own")),
    ]))
    .expect("expr");
    match e {
        CsdlAnnotationExpression::Record { type_, properties, annotations } => {
            assert_eq!(type_.as_deref(), Some("NS.R"));
            assert_eq!(properties.len(), 1);
            assert_eq!(properties[0].property, "A");
            assert_eq!(properties[0].annotations.len(), 1);
            assert_eq!(properties[0].annotations[0].term, "Core.Description");
            assert_eq!(annotations.len(), 2);
            assert_eq!(annotations[0].term, "Core.Note");
            assert_eq!(annotations[0].target, None);
            assert_eq!(annotations[1].target.as_deref(), Some("B"));
        }
        other => panic!("unexpected {other:?}"),
    }
}

#[test]
fn xml_events_of_an_empty_document() {
    let doc = CsdlDocument { edmx: None };
    let attrs = |v: &[(&str, &str)]| v.iter().map(|(k, x)| (k.to_string(), x.to_string())).collect::<Vec<_>>();
    assert_eq!(
        xml_events(&doc),
        vec![
            XmlOut::Decl,
            XmlOut::Start {
                name: "edmx:Edmx".to_string(),
                attributes: attrs(&[
                    ("xmlns:edmx", "http://docs.oasis-open.org/odata/ns/edmx"),
                    ("xmlns", "http://docs.oasis-open.org/odata/ns/edm"),
                    ("Version", "4.01"),
                ]),
            },
            XmlOut::Empty { name: "edmx:DataServices".to_string(), attributes: vec![] },
            XmlOut::End { name: "edmx:Edmx".to_string() },
        ]
    );
}

#[test]
fn strings_order_by_characters() {
    assert!(str_lt("a", "b"));
    assert!(str_lt("a", "ab"));
    assert!(!str_lt("ab", "a"));
    assert!(!str_lt("a", "a"));
    assert!(str_lt("Z", "a"));
}

#[test]
fn file_extension_names_the_format() {
    assert_eq!(format_for_extension("xml"), Some(CsdlFormat::Xml));
    assert_eq!(format_for_extension("XmL"), Some(CsdlFormat::Xml));
    assert_eq!(format_for_extension("JSON"), Some(CsdlFormat::Json));
    assert_eq!(format_for_extension("jsonl"), None);
    assert_eq!(format_for_extension("txt"), None);
    assert_eq!(format_for_extension(""), None);
}

#[test]
fn json_text_is_parsed_before_reading() {
    let text = br#"{"$Version": "4.01", "NS": {"E": {"$Kind": "EntityType", "Id": {}}}}"#;
    let doc = csdl_edm::parser::from_json_bytes(text).expect("document");
    let edmx = doc.edmx.expect("edmx");
    assert_eq!(edmx.version.as_deref(), Some("4.01"));
    assert_eq!(edmx.schemas.len(), 1);
    assert_eq!(edmx.schemas[0].namespace, "NS");
    assert_eq!(edmx.schemas[0].elements.len(), 1);
}

#[test]
fn json_text_that_is_not_json_is_a_syntax_error() {
    let r = csdl_edm::parser::from_json_bytes(b"{\"$Version\": ");
    assert!(matches!(r, Err(csdl_edm::parser::JsonReadError::Syntax(_))));
}

#[test]
fn json_text_that_is_not_csdl_is_a_csdl_error() {
    let r = csdl_edm::parser::from_json_bytes(b"[1, 2]");
    assert!(matches!(r, Err(csdl_edm::parser::JsonReadError::Csdl(_))), "{r:?}");
}

fn annotation(term: &str, qualifier: Option<&str>, target: Option<&str>, e: CsdlAnnotationExpression) -> Annotation {
    Annotation {
        term: term.to_string(),
        qualifier: qualifier.map(|q| q.to_string()),
        target: target.map(|t| t.to_string()),
        expression: Some(e),
    }
}

#[test]
fn json_document_of_schema_annotations_reads_back_as_written() {
    let doc = CsdlDocument {
        edmx: Some(Edmx {
            version: Some("4.01".to_string()),
            references: vec![],
            schemas: vec![
                Schema {
                    namespace: "Sales".to_string(),
                    alias: Some("S".to_string()),
                    elements: vec![],
                    annotations: vec![
                        annotation("Core.Description", None, None, CsdlAnnotationExpression::String("orders".to_string())),
                        annotation("Core.Size", Some("Tablet"), None, CsdlAnnotationExpression::Int(7)),
                        annotation("Core.Flag", None, Some("Customer"), CsdlAnnotationExpression::Bool(true)),
                    ],
                },
                Schema {
                    namespace: "Inventory".to_string(),
                    alias: None,
                    elements: vec![],
                    annotations: vec![annotation(
                        "Core.Link",
                        None,
                        None,
                        CsdlAnnotationExpression::Path("Items/Name".to_string()),
                    )],
                },
            ],
        }),
    };
    let read = from_json_value(doc.to_json_value()).expect("read back");
    assert_eq!(read, doc);
    assert_eq!(read.to_json_value(), doc.to_json_value());
}
