use oas_sync::parser::OpenApiParser;
use oas_sync::tools::{render_parse_error, render_parse_output, ParseFormat, ParseInput};

fn s(text: &str) -> String {
    String::from(text)
}

fn input(format: ParseFormat) -> ParseInput {
    ParseInput {
        source: s("memory"),
        format,
        project_dir: None,
        use_cache: false,
        ttl_seconds: None,
        limit: None,
        offset: 0,
        tag: None,
        path_prefix: None,
    }
}

const DOC: &str = r##"{
  "swagger": "2.0",
  "info": {"title": "Tooling", "version": "3"},
  "paths": {
    "/a": {"get": {"tags": ["alpha"], "responses": {}}},
    "/b": {"get": {"tags": ["beta"], "responses": {}}},
    "/b/c": {"post": {"tags": ["Beta"], "responses": {}}}
  },
  "definitions": {
    "One": {"type": "string"},
    "Two": {"type": "integer"}
  }
}"##;

#[test]
fn summary_reports_metadata_and_stats() {
    let spec = OpenApiParser::parse_content(DOC, "memory").expect("parse");
    let out = render_parse_output(&spec, &input(ParseFormat::Summary));
    assert!(out.success);
    let meta = out.metadata.expect("metadata");
    assert_eq!(meta.title, s("Tooling"));
    assert_eq!(meta.endpoint_count, 3);
    let st = out.graph_stats.expect("stats");
    assert_eq!(st.node_count, 5);
    assert!(out.endpoints.is_none() && out.schemas.is_none());
}

#[test]
fn endpoint_keys_respect_the_tag_filter() {
    let spec = OpenApiParser::parse_content(DOC, "memory").expect("parse");
    let mut req = input(ParseFormat::EndpointsList);
    req.tag = Some(s("BETA"));
    let out = render_parse_output(&spec, &req);
    let keys = out.endpoint_keys.expect("keys");
    assert_eq!(keys.len(), 2);
    assert!(keys.contains(&s("GET /b")));
    assert!(keys.contains(&s("POST /b/c")));
}

#[test]
fn endpoint_page_respects_the_path_prefix_and_limit() {
    let spec = OpenApiParser::parse_content(DOC, "memory").expect("parse");
    let mut req = input(ParseFormat::Endpoints);
    req.path_prefix = Some(s("/b"));
    req.limit = Some(1);
    let out = render_parse_output(&spec, &req);
    let eps = out.endpoints.expect("endpoints");
    assert_eq!(eps.len(), 1);
    let pi = out.pagination.expect("pagination");
    assert_eq!(pi.total, 2);
    assert!(pi.has_more);
}

#[test]
fn schema_list_and_page() {
    let spec = OpenApiParser::parse_content(DOC, "memory").expect("parse");
    let out = render_parse_output(&spec, &input(ParseFormat::SchemasList));
    let names = out.schema_names.expect("names");
    assert_eq!(names.len(), 2);
    assert!(names.contains(&s("One")) && names.contains(&s("Two")));

    let mut req = input(ParseFormat::Schemas);
    req.offset = 1;
    let out = render_parse_output(&spec, &req);
    let page = out.schemas.expect("schemas");
    assert_eq!(page.len(), 1);
    let pi = out.pagination.expect("pagination");
    assert_eq!(pi.total, 2);
    assert!(!pi.has_more);
}

#[test]
fn full_format_carries_both_lists() {
    let spec = OpenApiParser::parse_content(DOC, "memory").expect("parse");
    let out = render_parse_output(&spec, &input(ParseFormat::Full));
    assert_eq!(out.endpoints.expect("endpoints").len(), 3);
    assert_eq!(out.schemas.expect("schemas").len(), 2);
}

#[test]
fn failures_render_their_message() {
    let err = OpenApiParser::parse_content("{oops", "memory").unwrap_err();
    let out = render_parse_error(&err);
    assert!(!out.success);
    assert!(out.error.expect("message").starts_with("invalid json: "));
}
