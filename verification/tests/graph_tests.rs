use oas_sync::graph::{DepsDirection, GraphBuilder};
use oas_sync::parser::OpenApiParser;

fn s(text: &str) -> String {
    String::from(text)
}

const GRAPH_DOC: &str = r##"{
  "openapi": "3.0.0",
  "info": {"title": "G", "version": "1"},
  "paths": {
    "/orders": {
      "get": {
        "responses": {
          "200": {
            "description": "ok",
            "content": {"application/json": {"schema": {"$ref": "#/components/schemas/B"}}}
          }
        }
      }
    }
  },
  "components": {
    "schemas": {
      "A": {"type": "string"},
      "B": {"type": "object", "properties": {"a": {"$ref": "#/components/schemas/A"}}},
      "Lonely": {"type": "integer"}
    }
  }
}"##;

#[test]
fn downstream_includes_transitive_dependents() {
    let spec = OpenApiParser::parse_content(GRAPH_DOC, "memory").expect("parse");
    let graph = GraphBuilder::build(&spec);
    let down = graph.query("A", DepsDirection::Downstream);
    assert!(down.contains(&s("B")), "the direct referrer is downstream");
    assert!(down.contains(&s("GET /orders")), "the endpoint through B is downstream");
    assert!(!down.contains(&s("A")), "the anchor itself is excluded");
    assert!(!down.contains(&s("Lonely")));
}

#[test]
fn upstream_follows_outgoing_references() {
    let spec = OpenApiParser::parse_content(GRAPH_DOC, "memory").expect("parse");
    let graph = GraphBuilder::build(&spec);
    let up = graph.query("GET /orders", DepsDirection::Upstream);
    assert_eq!(up, vec![s("A"), s("B")]);
    let up_b = graph.query("B", DepsDirection::Upstream);
    assert_eq!(up_b, vec![s("A")]);
}

#[test]
fn both_directions_union_without_the_anchor() {
    let spec = OpenApiParser::parse_content(GRAPH_DOC, "memory").expect("parse");
    let graph = GraphBuilder::build(&spec);
    let both = graph.query("B", DepsDirection::Both);
    assert_eq!(both, vec![s("A"), s("GET /orders")]);
}

#[test]
fn unknown_anchor_has_no_impact_set() {
    let spec = OpenApiParser::parse_content(GRAPH_DOC, "memory").expect("parse");
    let graph = GraphBuilder::build(&spec);
    assert!(graph.query("Nothing", DepsDirection::Both).is_empty());
}

#[test]
fn stats_count_nodes_edges_and_orphans() {
    let spec = OpenApiParser::parse_content(GRAPH_DOC, "memory").expect("parse");
    let graph = GraphBuilder::build(&spec);
    let st = graph.stats();
    // nodes: A, B, Lonely, GET /orders
    assert_eq!(st.node_count, 4);
    // edges: B -> A and GET /orders -> B
    assert_eq!(st.edge_count, 2);
    assert_eq!(st.orphan_count, 1);
}

const CYCLE_DOC: &str = r##"{
  "swagger": "2.0",
  "info": {"title": "C", "version": "1"},
  "paths": {},
  "definitions": {
    "Ping": {"type": "object", "properties": {"pong": {"$ref": "#/definitions/Pong"}}},
    "Pong": {"type": "object", "properties": {"ping": {"$ref": "#/definitions/Ping"}}}
  }
}"##;

#[test]
fn cyclic_references_terminate() {
    let spec = OpenApiParser::parse_content(CYCLE_DOC, "memory").expect("parse");
    let graph = GraphBuilder::build(&spec);
    assert_eq!(graph.query("Ping", DepsDirection::Upstream), vec![s("Pong")]);
    assert_eq!(graph.query("Ping", DepsDirection::Downstream), vec![s("Pong")]);
    assert_eq!(graph.query("Pong", DepsDirection::Both), vec![s("Ping")]);
}
