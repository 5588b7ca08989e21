//! The semantic graph of a resolved model and the resource paths its entity
//! container spawns.

use csdl_edm::edm::DocumentModel;
use csdl_edm::graph::build_graph;
use csdl_edm::parser::from_xml_reader;
use csdl_edm::path_expansion::{PathExpander, SpawnedPath};
use csdl_edm::resolver::Resolver;

fn resolve(schema_body: &str) -> DocumentModel {
    let csdl = format!(
        r#"<?xml version="1.0" encoding="UTF-8"?>
<edmx:Edmx xmlns:edmx="http://docs.oasis-open.org/odata/ns/edmx" Version="4.0">
  <edmx:DataServices>
    <Schema Namespace="Demo" xmlns="http://docs.oasis-open.org/odata/ns/edm">
{schema_body}
    </Schema>
  </edmx:DataServices>
</edmx:Edmx>"#
    );
    let document = from_xml_reader(csdl.as_bytes()).expect("parse");
    Resolver::resolve_document(document.edmx.expect("edmx")).expect("resolve")
}

const SHOP: &str = r#"
      <EnumType Name="Color">
        <Member Name="Red" Value="1" />
        <Member Name="Blue" Value="2" />
      </EnumType>
      <ComplexType Name="Address">
        <Property Name="Street" Type="Edm.String" />
      </ComplexType>
      <EntityType Name="Customer">
        <Key><PropertyRef Name="Id" /></Key>
        <Property Name="Id" Type="Edm.Int32" Nullable="false" />
        <Property Name="Home" Type="Demo.Address" />
        <NavigationProperty Name="Orders" Type="Collection(Demo.Order)" Partner="Customer" />
      </EntityType>
      <EntityType Name="Order">
        <Key><PropertyRef Name="Id" /></Key>
        <Property Name="Id" Type="Edm.Int32" Nullable="false" />
        <NavigationProperty Name="Customer" Type="Demo.Customer" Partner="Orders" />
      </EntityType>
      <EntityContainer Name="Svc">
        <EntitySet Name="Customers" EntityType="Demo.Customer">
          <NavigationPropertyBinding Path="Orders" Target="Orders" />
        </EntitySet>
        <EntitySet Name="Orders" EntityType="Demo.Order" />
        <Singleton Name="Me" Type="Demo.Customer" />
      </EntityContainer>"#;

#[test]
fn graph_nodes_follow_document_order() {
    let doc = resolve(SHOP);
    let graph = build_graph(&doc);
    let nodes: Vec<(&str, &str, &str)> = graph
        .nodes
        .iter()
        .map(|n| (n.id.as_str(), n.kind.as_str(), n.label.as_str()))
        .collect();
    assert_eq!(
        nodes,
        vec![
            ("Demo", "Schema", "Demo"),
            ("Demo.Color", "EnumType", "Color"),
            ("Demo.Color/Red", "EnumMember", "Red"),
            ("Demo.Color/Blue", "EnumMember", "Blue"),
            ("Demo.Address", "ComplexType", "Address"),
            ("Demo.Address/Street", "Property", "Street"),
            ("Demo.Customer", "EntityType", "Customer"),
            ("Demo.Customer/Id", "Property", "Id"),
            ("Demo.Customer/Home", "Property", "Home"),
            ("Demo.Customer/Orders", "NavigationProperty", "Orders"),
            ("Demo.Order", "EntityType", "Order"),
            ("Demo.Order/Id", "Property", "Id"),
            ("Demo.Order/Customer", "NavigationProperty", "Customer"),
            ("Demo.Svc", "EntityContainer", "Svc"),
            ("Demo.Svc/Customers", "EntitySet", "Customers"),
            ("Demo.Svc/Orders", "EntitySet", "Orders"),
            ("Demo.Svc/Me", "Singleton", "Me"),
        ]
    );
}

#[test]
fn graph_edges_follow_references() {
    let doc = resolve(SHOP);
    let graph = build_graph(&doc);
    let edges: Vec<&str> = graph.edges.iter().map(|e| e.id.as_str()).collect();
    assert_eq!(
        edges,
        vec![
            "Demo->Demo.Color:Contains",
            "Demo.Color->Demo.Color/Red:Declares",
            "Demo.Color->Demo.Color/Blue:Declares",
            "Demo->Demo.Address:Contains",
            "Demo.Address->Demo.Address/Street:Declares",
            "Demo->Demo.Customer:Contains",
            "Demo.Customer->Demo.Customer/Id:Declares",
            "Demo.Customer->Demo.Customer/Home:Declares",
            "Demo.Customer/Home->Demo.Address:PropertyType",
            "Demo.Customer->Demo.Customer/Orders:Declares",
            "Demo.Customer/Orders->Demo.Order:NavigationTarget",
            "Demo->Demo.Order:Contains",
            "Demo.Order->Demo.Order/Id:Declares",
            "Demo.Order->Demo.Order/Customer:Declares",
            "Demo.Order/Customer->Demo.Customer:NavigationTarget",
            "Demo->Demo.Svc:Contains",
            "Demo.Svc->Demo.Svc/Customers:Contains",
            "Demo.Svc/Customers->Demo.Customer:EntityType",
            "Demo.Svc->Demo.Svc/Orders:Contains",
            "Demo.Svc/Orders->Demo.Order:EntityType",
            "Demo.Svc->Demo.Svc/Me:Contains",
            "Demo.Svc/Me->Demo.Customer:SingletonType",
        ]
    );
    let home = graph
        .edges
        .iter()
        .find(|e| e.id == "Demo.Customer/Home->Demo.Address:PropertyType")
        .expect("type edge");
    assert_eq!(home.source, "Demo.Customer/Home");
    assert_eq!(home.target, "Demo.Address");
    assert_eq!(home.kind, "PropertyType");
    assert_eq!(home.label, "Type");
}

#[test]
fn graph_paths_thread_resolved_segments() {
    let doc = resolve(SHOP);
    let graph = build_graph(&doc);
    let paths: Vec<(&str, &str, &str, Vec<(&str, u32)>)> = graph
        .paths
        .iter()
        .map(|p| {
            (
                p.id.as_str(),
                p.owner.as_str(),
                p.label.as_str(),
                p.segments.iter().map(|s| (s.node.as_str(), s.order)).collect(),
            )
        })
        .collect();
    assert_eq!(
        paths,
        vec![
            (
                "Demo.Customer/key/0",
                "Demo.Customer",
                "Key: Id",
                vec![("Demo.Customer", 1), ("Demo.Customer/Id", 2)],
            ),
            (
                "Demo.Customer/Orders/partner",
                "Demo.Customer/Orders",
                "Partner: Customer",
                vec![("Demo.Order", 1), ("Demo.Order/Customer", 2), ("Demo.Customer", 3)],
            ),
            (
                "Demo.Order/key/0",
                "Demo.Order",
                "Key: Id",
                vec![("Demo.Order", 1), ("Demo.Order/Id", 2)],
            ),
            (
                "Demo.Order/Customer/partner",
                "Demo.Order/Customer",
                "Partner: Orders",
                vec![("Demo.Customer", 1), ("Demo.Customer/Orders", 2), ("Demo.Order", 3)],
            ),
            (
                "Demo.Svc/Customers/binding/0/path",
                "Demo.Svc/Customers",
                "Binding path: Orders",
                vec![("Demo.Customer", 1), ("Demo.Customer/Orders", 2), ("Demo.Order", 3)],
            ),
            (
                "Demo.Svc/Customers/binding/0/target",
                "Demo.Svc/Customers",
                "Binding target: Orders",
                vec![("Demo.Svc", 1), ("Demo.Svc/Orders", 2), ("Demo.Order", 3)],
            ),
        ]
    );
}

#[test]
fn graph_node_ids_are_made_unique() {
    let doc = resolve(
        r#"
      <EntityType Name="Thing">
        <Key><PropertyRef Name="Id" /></Key>
        <Property Name="Id" Type="Edm.Int32" Nullable="false" />
        <Property Name="Id" Type="Edm.String" />
      </EntityType>"#,
    );
    let graph = build_graph(&doc);
    let ids: Vec<&str> = graph.nodes.iter().map(|n| n.id.as_str()).collect();
    assert_eq!(ids, vec!["Demo", "Demo.Thing", "Demo.Thing/Id", "Demo.Thing/Id~2"]);
}

#[test]
fn graph_of_empty_document_is_empty() {
    let doc = DocumentModel { version: "4.01".to_owned(), references: vec![], schemas: vec![] };
    let graph = build_graph(&doc);
    assert!(graph.nodes.is_empty());
    assert!(graph.edges.is_empty());
    assert!(graph.paths.is_empty());
}

fn spawned(paths: &[SpawnedPath]) -> Vec<(String, usize, bool)> {
    paths
        .iter()
        .map(|p| (p.segments.join("/"), p.terminal_type, p.is_collection))
        .collect()
}

#[test]
fn expansion_adds_keys_below_the_bound() {
    let doc = resolve(SHOP);
    let model = &doc.schemas[0];
    let customer = model.entity_types.iter().position(|e| e.name == "Customer").unwrap();
    let order = model.entity_types.iter().position(|e| e.name == "Order").unwrap();
    let paths = PathExpander::new(3).collect_paths(model);
    let expected: Vec<(String, usize, bool)> = vec![
        ("Customers", customer, true),
        ("Customers/{Id}", customer, false),
        ("Customers/{Id}/Orders/{Id}", order, false),
        ("Customers/{Id}/Orders/{Id}/Customer", customer, false),
        ("Customers/{Id}/Orders/{Id}/Customer/Orders", order, true),
        ("Orders", order, true),
        ("Orders/{Id}", order, false),
        ("Orders/{Id}/Customer", customer, false),
        ("Orders/{Id}/Customer/Orders/{Id}", order, false),
        ("Orders/{Id}/Customer/Orders/{Id}/Customer", customer, false),
        ("Orders/{Id}/Customer/Orders/{Id}/Customer/Orders", order, true),
        ("Me", customer, false),
        ("Me/Orders/{Id}", order, false),
        ("Me/Orders/{Id}/Customer", customer, false),
        ("Me/Orders/{Id}/Customer/Orders/{Id}", order, false),
        ("Me/Orders/{Id}/Customer/Orders/{Id}/Customer", customer, false),
        ("Me/Orders/{Id}/Customer/Orders/{Id}/Customer/Orders", order, true),
    ]
    .into_iter()
    .map(|(s, t, c)| (s.to_owned(), t, c))
    .collect();
    assert_eq!(spawned(&paths), expected);
}

#[test]
fn expansion_with_bound_one_adds_no_key() {
    let doc = resolve(SHOP);
    let model = &doc.schemas[0];
    let customer = model.entity_types.iter().position(|e| e.name == "Customer").unwrap();
    let order = model.entity_types.iter().position(|e| e.name == "Order").unwrap();
    let paths = PathExpander::new(1).collect_paths(model);
    assert_eq!(
        spawned(&paths),
        vec![
            ("Customers".to_owned(), customer, true),
            ("Orders".to_owned(), order, true),
            ("Me".to_owned(), customer, false),
            ("Me/Orders".to_owned(), order, true),
        ]
    );
}

#[test]
fn expansion_without_container_is_empty() {
    let doc = resolve(
        r#"
      <EntityType Name="Thing">
        <Key><PropertyRef Name="Id" /></Key>
        <Property Name="Id" Type="Edm.Int32" Nullable="false" />
      </EntityType>"#,
    );
    assert!(PathExpander::new(3).collect_paths(&doc.schemas[0]).is_empty());
}

#[test]
fn expansion_within_enough_levels_gives_the_paths() {
    let doc = resolve(SHOP);
    let model = &doc.schemas[0];
    let all = PathExpander::new(3).collect_paths(model);
    let within = PathExpander::new(3).collect_paths_within(model, 10).expect("fits in ten levels");
    assert_eq!(spawned(&within), spawned(&all));
    assert!(PathExpander::new(3).collect_paths_within(model, 0).is_none());
}

#[test]
fn expansion_along_a_single_valued_cycle_does_not_end() {
    let doc = resolve(
        r#"
      <EntityType Name="Employee">
        <Key><PropertyRef Name="Id" /></Key>
        <Property Name="Id" Type="Edm.Int32" Nullable="false" />
        <NavigationProperty Name="Manager" Type="Demo.Employee" />
      </EntityType>
      <EntityContainer Name="C">
        <Singleton Name="Boss" Type="Demo.Employee" />
      </EntityContainer>"#,
    );
    assert!(PathExpander::new(3).collect_paths_within(&doc.schemas[0], 50).is_none());
}
