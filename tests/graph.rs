use petgraph::graph::{DiGraph, NodeIndex};
use warnet_graph::commands::{version_or_default, DEFAULT_VERSION};
use warnet_graph::document::{add_custom_attributes, attribute_schema, find_graph, XmlElement, XmlNode};
use warnet_graph::serialize::convert_to_graphml;
use warnet_graph::topology::create_graph;
use warnet_graph::validate::{validate_schema, SchemaError};
use xmltree::{Element, XMLNode};

static GRAPHML_FILE: &str = r#"<?xml version='1.0' encoding='utf-8'?>
<graphml xmlns="http://graphml.graphdrawing.org/xmlns" xmlns:xsi="http://www.w3.org/2001/XMLSchema-instance"
xsi:schemaLocation="http://graphml.graphdrawing.org/xmlns http://graphml.graphdrawing.org/xmlns/1.0/graphml.xsd">
  <key id="image" for="node" attr.name="image" attr.type="string" />
  <key id="collect_logs" for="node" attr.name="collect_logs" attr.type="boolean" />
  <key id="exporter" for="node" attr.name="exporter" attr.type="boolean" />
  <key id="build_args" for="node" attr.name="build_args" attr.type="string" />
  <key id="tc_netem" for="node" attr.name="tc_netem" attr.type="string" />
  <key id="bitcoin_config" for="node" attr.name="bitcoin_config" attr.type="string" />
  <key id="version" for="node" attr.name="version" attr.type="string" />
  <graph edgedefault="directed">
    <node id="0">
      <data key="version">26.0</data>
      <data key="bitcoin_config" />
      <data key="tc_netem"></data>
      <data key="build_args" />
      <data key="exporter">False</data>
      <data key="collect_logs">False</data>
    </node>
    <node id="1">
      <data key="image">bitcoindevproject/bitcoin:26.0</data>
      <data key="bitcoin_config" />
      <data key="tc_netem" />
      <data key="build_args" />
      <data key="exporter">False</data>
      <data key="collect_logs">False</data>
    </node>
    <node id="2">
      <data key="version">26.0</data>
      <data key="bitcoin_config" />
      <data key="tc_netem" />
      <data key="build_args" />
      <data key="exporter">False</data>
      <data key="collect_logs">False</data>
    </node>
    <node id="3">
      <data key="version">26.0</data>
      <data key="bitcoin_config" />
      <data key="tc_netem" />
      <data key="build_args" />
      <data key="exporter">False</data>
      <data key="collect_logs">False</data>
    </node>
    <node id="4">
      <data key="version">26.0</data>
      <data key="bitcoin_config" />
      <data key="tc_netem" />
      <data key="build_args" />
      <data key="exporter">False</data>
      <data key="collect_logs">False</data>
    </node>
    <edge source="0" target="1" id="0" />
    <edge source="0" target="2" id="0" />
    <edge source="0" target="3" id="0" />
    <edge source="1" target="2" id="0" />
    <edge source="1" target="3" id="0" />
    <edge source="1" target="4" id="0" />
    <edge source="2" target="3" id="0" />
    <edge source="2" target="4" id="0" />
    <edge source="3" target="4" id="0" />
    <edge source="4" target="0" id="0" />
  </graph>
</graphml>
"#;

fn from_xmltree(e: Element) -> XmlElement {
    let attributes: Vec<(String, String)> = e.attributes.into_iter().collect();
    XmlElement {
        prefix: e.prefix,
        namespace: e.namespace,
        namespaces: e.namespaces.map(|ns| ns.0.into_iter().collect()),
        name: e.name,
        attributes,
        children: e
            .children
            .into_iter()
            .map(|c| match c {
                XMLNode::Element(x) => XmlNode::Element(from_xmltree(x)),
                XMLNode::Text(t) => XmlNode::Text(t),
                XMLNode::CData(t) => XmlNode::CData(t),
                XMLNode::Comment(t) => XmlNode::Comment(t),
                XMLNode::ProcessingInstruction(a, b) => XmlNode::ProcessingInstruction(a, b),
            })
            .collect(),
    }
}

fn parse(bytes: &[u8]) -> XmlElement {
    from_xmltree(Element::parse(bytes).unwrap())
}

fn elements<'a>(e: &'a XmlElement, tag: &str) -> Vec<&'a XmlElement> {
    e.children
        .iter()
        .filter_map(|c| match c {
            XmlNode::Element(x) if x.name == tag => Some(x),
            _ => None,
        })
        .collect()
}

fn attr<'a>(e: &'a XmlElement, key: &str) -> Option<&'a str> {
    e.attributes.iter().find(|(k, _)| k == key).map(|(_, v)| v.as_str())
}

fn text(e: &XmlElement) -> String {
    e.children
        .iter()
        .filter_map(|c| match c {
            XmlNode::Text(t) => Some(t.clone()),
            _ => None,
        })
        .collect()
}

fn document(number: usize, version: &str, conf: &str) -> (DiGraph<(), ()>, XmlElement) {
    let g = create_graph(number);
    let bytes = convert_to_graphml(&g).unwrap();
    let doc = add_custom_attributes(parse(&bytes), version, conf);
    (g, doc)
}

fn graph_of(doc: &XmlElement) -> &XmlElement {
    let i = find_graph(&doc.children).unwrap();
    match &doc.children[i] {
        XmlNode::Element(g) => g,
        _ => unreachable!(),
    }
}

fn out_degree(g: &DiGraph<(), ()>, u: usize) -> usize {
    g.neighbors(NodeIndex::new(u)).count()
}

fn check_simple(g: &DiGraph<(), ()>) {
    let mut seen = std::collections::HashSet::new();
    for e in g.raw_edges() {
        assert_ne!(e.source(), e.target());
        assert!(seen.insert((e.source(), e.target())));
    }
}

#[test]
fn validate_graphml() {
    let doc = parse(GRAPHML_FILE.as_bytes());
    let schema_is_valid = match validate_schema(&doc) {
        Ok(_) => true,
        Err(e) => {
            println!("{:?}", e);
            false
        }
    };
    assert!(schema_is_valid);
}

#[test]
fn create_zero_has_keys_and_no_nodes() {
    let (g, doc) = document(0, "26.0", "");
    assert_eq!(g.node_count(), 0);
    assert_eq!(g.edge_count(), 0);
    assert_eq!(elements(&doc, "key").len(), 7);
    let graph = graph_of(&doc);
    assert_eq!(elements(graph, "node").len(), 0);
    assert_eq!(elements(graph, "edge").len(), 0);
}

#[test]
fn create_one_has_no_self_loop() {
    let g = create_graph(1);
    assert_eq!(g.node_count(), 1);
    assert_eq!(g.edge_count(), 0);
}

#[test]
fn create_two_is_a_two_cycle() {
    let g = create_graph(2);
    assert_eq!(g.edge_count(), 2);
    assert!(g.contains_edge(NodeIndex::new(0), NodeIndex::new(1)));
    assert!(g.contains_edge(NodeIndex::new(1), NodeIndex::new(0)));
}

#[test]
fn create_five_with_version() {
    let (g, doc) = document(5, "27.0", "");
    assert_eq!(g.node_count(), 5);
    assert_eq!(g.edge_count(), 20);
    for u in 0..5 {
        assert_eq!(out_degree(&g, u), 4);
        assert!(g.contains_edge(NodeIndex::new(u), NodeIndex::new((u + 1) % 5)));
    }
    check_simple(&g);
    let nodes = elements(graph_of(&doc), "node");
    assert_eq!(nodes.len(), 5);
    for n in nodes {
        let data = elements(n, "data");
        assert_eq!(attr(data[0], "key"), Some("version"));
        assert_eq!(text(data[0]), "27.0");
    }
}

#[test]
fn create_nine_reaches_seven_extra_edges() {
    let g = create_graph(9);
    assert_eq!(g.edge_count(), 72);
    for u in 0..9 {
        assert_eq!(out_degree(&g, u), 8);
    }
    check_simple(&g);
}

#[test]
fn large_graph_is_simple_bounded_and_strongly_connected() {
    let g = create_graph(40);
    assert_eq!(g.node_count(), 40);
    check_simple(&g);
    for u in 0..40 {
        assert_eq!(out_degree(&g, u), 8);
    }
    assert_eq!(petgraph::algo::kosaraju_scc(&g).len(), 1);
}

#[test]
fn every_node_carries_the_schema_in_order() {
    let (_, doc) = document(6, "26.0", "[main]\nkey=value\n");
    let names: Vec<String> = attribute_schema().into_iter().map(|(n, _)| n).collect();
    let expected = ["26.0", "[main]\nkey=value\n", "", "", "false", "false", ""];
    for n in elements(graph_of(&doc), "node") {
        let data = elements(n, "data");
        assert_eq!(data.len(), 7);
        for k in 0..7 {
            assert_eq!(attr(data[k], "key"), Some(names[k].as_str()));
            assert_eq!(text(data[k]), expected[k]);
        }
    }
}

#[test]
fn key_declarations_follow_the_schema() {
    let (_, doc) = document(3, "26.0", "");
    let keys = elements(&doc, "key");
    let types = ["string", "string", "string", "string", "boolean", "boolean", "string"];
    let names = ["version", "bitcoin_config", "tc_netem", "build_args", "exporter", "collect_logs", "image"];
    for k in 0..7 {
        assert_eq!(attr(keys[k], "id"), Some(names[k]));
        assert_eq!(attr(keys[k], "attr.name"), Some(names[k]));
        assert_eq!(attr(keys[k], "attr.type"), Some(types[k]));
        assert_eq!(attr(keys[k], "for"), Some("node"));
    }
}

#[test]
fn round_trip_validates() {
    for n in [0usize, 1, 5, 50] {
        let (_, doc) = document(n, "26.0", "");
        assert_eq!(validate_schema(&doc), Ok(()));
    }
}

#[test]
fn reannotation_doubles_data_children() {
    let (_, doc) = document(4, "26.0", "");
    let twice = add_custom_attributes(doc, "26.0", "");
    assert_eq!(elements(&twice, "key").len(), 14);
    for n in elements(graph_of(&twice), "node") {
        assert_eq!(elements(n, "data").len(), 14);
    }
}

#[test]
fn missing_graph_fails_validation() {
    let mut doc = parse(GRAPHML_FILE.as_bytes());
    doc.children.retain(|c| !matches!(c, XmlNode::Element(e) if e.name == "graph"));
    assert_eq!(validate_schema(&doc), Err(SchemaError::MissingGraph));
}

#[test]
fn missing_key_fails_validation() {
    let mut doc = parse(GRAPHML_FILE.as_bytes());
    doc.children.retain(|c| match c {
        XmlNode::Element(e) => attr(e, "id") != Some("tc_netem"),
        _ => true,
    });
    assert_eq!(validate_schema(&doc), Err(SchemaError::MissingKey("tc_netem".to_string())));
}

#[test]
fn node_without_data_fails_validation() {
    let text = GRAPHML_FILE.replace("<edge source=\"0\" target=\"1\" id=\"0\" />", "<node id=\"5\" />");
    let doc = parse(text.as_bytes());
    assert_eq!(validate_schema(&doc), Err(SchemaError::MissingNodeData));
}

#[test]
fn data_with_other_keys_still_validates() {
    let text = GRAPHML_FILE.replace("<data key=\"tc_netem\"></data>", "<data key=\"color\">red</data>");
    let doc = parse(text.as_bytes());
    assert_eq!(validate_schema(&doc), Ok(()));
}

#[test]
fn unannotated_graph_fails_validation() {
    let g = create_graph(3);
    let doc = parse(&convert_to_graphml(&g).unwrap());
    assert_eq!(validate_schema(&doc), Err(SchemaError::MissingKey("version".to_string())));
}

#[test]
fn bare_root_without_graph_only_gains_keys() {
    let root = XmlElement {
        prefix: None,
        namespace: None,
        namespaces: None,
        name: "graphml".to_string(),
        attributes: vec![],
        children: vec![XmlNode::Text("x".to_string())],
    };
    let out = add_custom_attributes(root, "26.0", "");
    assert_eq!(out.children.len(), 8);
    assert_eq!(out.children[0], XmlNode::Text("x".to_string()));
    assert_eq!(validate_schema(&out), Err(SchemaError::MissingGraph));
}

#[test]
fn graphml_text_lists_nodes_and_edges() {
    let g = create_graph(3);
    let bytes = convert_to_graphml(&g).unwrap();
    let text = String::from_utf8(bytes).unwrap();
    assert!(text.contains("<graph edgedefault=\"directed\">"));
    assert!(text.contains("<node id=\"n2\""));
    assert!(text.contains("source=\"n2\" target=\"n0\""));
    assert_eq!(text.matches("<edge ").count(), 3 + 3);
}

#[test]
fn version_defaults_to_26() {
    assert_eq!(version_or_default(&None), "26.0");
    assert_eq!(DEFAULT_VERSION, "26.0");
    assert_eq!(version_or_default(&Some("27.0".to_string())), "27.0");
}
