use oas_sync::json::JsonValue;
use oas_sync::model::{HttpMethod, OpenApiVersion, ParameterLocation};
use oas_sync::parser::OpenApiParser;
use sha2::Digest;

fn s(text: &str) -> String {
    String::from(text)
}

fn obj(fields: Vec<(&str, JsonValue)>) -> JsonValue {
    JsonValue::Obj(fields.into_iter().map(|(k, v)| (s(k), v)).collect())
}

fn jstr(text: &str) -> JsonValue {
    JsonValue::Str(s(text))
}

fn jref(target: &str) -> JsonValue {
    obj(vec![("$ref", jstr(target))])
}

#[test]
fn test_extract_refs() {
    let json = obj(vec![
        ("schema", jref("#/components/schemas/User")),
        ("items", jref("#/components/schemas/Post")),
    ]);
    let (refs, _hash) = oas_sync::digest::extract_refs_and_hash(&json);
    assert!(refs.contains(&s("User")));
    assert!(refs.contains(&s("Post")));
}

#[test]
fn test_extract_refs_and_hash() {
    let json = obj(vec![("schema", jref("#/components/schemas/User"))]);
    let (refs, hash) = oas_sync::digest::extract_refs_and_hash(&json);
    assert!(refs.contains(&s("User")));
    assert!(!hash.is_empty());
    assert_eq!(hash.len(), 16);
}

#[test]
fn hash_ignores_object_key_order() {
    let a = obj(vec![("x", jstr("1")), ("y", jstr("2")), ("z", obj(vec![("p", jstr("q"))]))]);
    let b = obj(vec![("z", obj(vec![("p", jstr("q"))])), ("y", jstr("2")), ("x", jstr("1"))]);
    assert_eq!(oas_sync::digest::compute_hash(&a), oas_sync::digest::compute_hash(&b));
}

#[test]
fn hash_depends_on_array_order() {
    let a = obj(vec![("items", JsonValue::Arr(vec![jstr("one"), jstr("two")]))]);
    let b = obj(vec![("items", JsonValue::Arr(vec![jstr("two"), jstr("one")]))]);
    assert_ne!(oas_sync::digest::compute_hash(&a), oas_sync::digest::compute_hash(&b));
}

#[test]
fn hash_depends_on_values_and_keys() {
    let a = obj(vec![("x", jstr("1"))]);
    let b = obj(vec![("x", jstr("2"))]);
    let c = obj(vec![("y", jstr("1"))]);
    assert_ne!(oas_sync::digest::compute_hash(&a), oas_sync::digest::compute_hash(&b));
    assert_ne!(oas_sync::digest::compute_hash(&a), oas_sync::digest::compute_hash(&c));
}

#[test]
fn hash_matches_independent_digest() {
    // The canonical stream of {"a":null} is the bytes of `{a:null}`; the
    // digest is the first eight bytes of its hash, in hexadecimal. Computed
    // here independently of the library's wrappers.
    let v = obj(vec![("a", JsonValue::Null)]);
    let mut hasher = sha2::Sha256::new();
    hasher.update(b"{a:null}");
    let full = hasher.finalize();
    let expected = hex::encode(&full[..8]);
    assert_eq!(oas_sync::digest::compute_hash(&v), expected);
}

#[test]
fn refs_complete_at_depth() {
    let json = obj(vec![
        ("top", jref("#/definitions/Zeta")),
        (
            "allOf",
            JsonValue::Arr(vec![
                jref("#/definitions/Alpha"),
                obj(vec![(
                    "parameters",
                    JsonValue::Arr(vec![obj(vec![("schema", jref("#/definitions/Mid"))])]),
                )]),
            ]),
        ),
        ("dup", jref("#/definitions/Alpha")),
    ]);
    let (refs, _hash) = oas_sync::digest::extract_refs_and_hash(&json);
    assert_eq!(refs, vec![s("Alpha"), s("Mid"), s("Zeta")]);
}

#[test]
fn detect_version_classifies() {
    let legacy = obj(vec![("swagger", jstr("2.0"))]);
    assert_eq!(OpenApiParser::detect_version(&legacy), Ok(OpenApiVersion::Swagger2));

    let modern = obj(vec![("openapi", jstr("3.0.1"))]);
    assert_eq!(OpenApiParser::detect_version(&modern), Ok(OpenApiVersion::OpenApi30));

    let newer = obj(vec![("openapi", jstr("3.1.0"))]);
    assert_eq!(OpenApiParser::detect_version(&newer), Ok(OpenApiVersion::OpenApi31));

    let unsupported = obj(vec![("openapi", jstr("4.0.0"))]);
    match OpenApiParser::detect_version(&unsupported) {
        Err(oas_sync::errors::OasError::UnsupportedVersion(v)) => assert_eq!(v, s("4.0.0")),
        other => panic!("expected an unsupported-version error, got {:?}", other),
    }

    let neither = obj(vec![("info", obj(vec![]))]);
    match OpenApiParser::detect_version(&neither) {
        Err(oas_sync::errors::OasError::InvalidOpenApi(_)) => {}
        other => panic!("expected a missing-field error, got {:?}", other),
    }
}

#[test]
fn parse_http_method_is_case_insensitive() {
    assert_eq!(OpenApiParser::parse_http_method("get"), Some(HttpMethod::Get));
    assert_eq!(OpenApiParser::parse_http_method("GET"), Some(HttpMethod::Get));
    assert_eq!(OpenApiParser::parse_http_method("PaTcH"), Some(HttpMethod::Patch));
    assert_eq!(OpenApiParser::parse_http_method("trace"), Some(HttpMethod::Trace));
    assert_eq!(OpenApiParser::parse_http_method("options"), Some(HttpMethod::Options));
    assert_eq!(OpenApiParser::parse_http_method("parameters"), None);
}

const LEGACY_DOC: &str = r##"{
  "swagger": "2.0",
  "info": {"title": "Pet Store", "version": "1.2.3"},
  "paths": {
    "/users": {
      "post": {
        "operationId": "createUser",
        "tags": ["users"],
        "consumes": ["application/json"],
        "parameters": [
          {"name": "verbose", "in": "query", "type": "string"},
          {"name": "id", "in": "path"},
          {"name": "payload", "in": "body", "required": true,
           "schema": {"$ref": "#/definitions/User"}}
        ],
        "responses": {
          "200": {"description": "ok", "schema": {"$ref": "#/definitions/User"}}
        }
      }
    }
  },
  "definitions": {
    "User": {"type": "object", "properties": {"name": {"type": "string"}}}
  }
}"##;

#[test]
fn legacy_body_parameter_is_hoisted() {
    let spec = OpenApiParser::parse_content(LEGACY_DOC, "memory").expect("should parse");
    assert_eq!(spec.metadata.title, s("Pet Store"));
    assert_eq!(spec.metadata.version, s("1.2.3"));
    assert_eq!(spec.metadata.openapi_version, OpenApiVersion::Swagger2);
    assert_eq!(spec.endpoints.len(), 1);
    let e = &spec.endpoints[0];
    assert_eq!(e.key(), s("POST /users"));
    assert!(e.schema_refs.contains(&s("User")));
    let body = e.request_body.as_ref().expect("body parameter should be hoisted");
    assert_eq!(body.schema_ref, Some(s("User")));
    assert!(body.required);
    assert_eq!(body.content_types, vec![s("application/json")]);
    // the body parameter itself is not among the plain parameters
    assert_eq!(e.parameters.len(), 2);
    assert_eq!(e.parameters[0].location, ParameterLocation::Query);
    assert!(!e.parameters[0].required);
    // a path parameter is required unless stated otherwise
    assert_eq!(e.parameters[1].location, ParameterLocation::Path);
    assert!(e.parameters[1].required);
}

const MODERN_DOC: &str = r##"{
  "openapi": "3.0.0",
  "info": {"title": "Modern", "version": "2.0.0", "description": "an api"},
  "paths": {
    "/pets": {
      "get": {
        "tags": ["pets", "read"],
        "responses": {
          "200": {
            "description": "ok",
            "content": {
              "application/json": {"schema": {"$ref": "#/components/schemas/Pet"}}
            }
          }
        }
      },
      "put": {
        "tags": ["pets"],
        "requestBody": {
          "required": true,
          "content": {
            "application/json": {"schema": {"$ref": "#/components/schemas/Pet"}}
          }
        },
        "responses": {"204": {"description": "done"}}
      }
    }
  },
  "components": {
    "schemas": {
      "Pet": {"type": "object", "properties": {"tag": {"$ref": "#/components/schemas/Tag"}},
              "required": ["tag"]},
      "Tag": {"type": "string"}
    }
  }
}"##;

#[test]
fn modern_document_normalizes() {
    let spec = OpenApiParser::parse_content(MODERN_DOC, "memory").expect("should parse");
    assert_eq!(spec.metadata.openapi_version, OpenApiVersion::OpenApi30);
    assert_eq!(spec.metadata.description, Some(s("an api")));
    assert_eq!(spec.endpoints.len(), 2);
    assert_eq!(spec.schemas.len(), 2);
    assert_eq!(spec.metadata.endpoint_count, 2);
    assert_eq!(spec.metadata.schema_count, 2);
    // tags are deduplicated and sorted
    assert_eq!(spec.tags, vec![s("pets"), s("read")]);
    assert_eq!(spec.metadata.tag_count, 2);
    let put = spec.endpoints.iter().find(|e| e.key() == "PUT /pets").expect("put endpoint");
    let body = put.request_body.as_ref().expect("request body");
    assert_eq!(body.schema_ref, Some(s("Pet")));
    let pet = spec.schemas.iter().find(|x| x.name == "Pet").expect("pet schema");
    assert_eq!(pet.refs, vec![s("Tag")]);
}

#[test]
fn yaml_document_parses() {
    let text = "swagger: '2.0'\ninfo:\n  title: From Yaml\n  version: '0.1'\npaths: {}\n";
    let spec = OpenApiParser::parse_content(text, "memory").expect("yaml should parse");
    assert_eq!(spec.metadata.title, s("From Yaml"));
    assert_eq!(spec.endpoints.len(), 0);
}

#[test]
fn defaults_apply_when_info_is_sparse() {
    let spec = OpenApiParser::parse_content(
        r##"{"swagger": "2.0", "info": {}}"##,
        "memory",
    )
    .expect("should parse");
    assert_eq!(spec.metadata.title, s("Unknown API"));
    assert_eq!(spec.metadata.version, s("0.0.0"));
    assert_eq!(spec.metadata.description, None);
}

#[test]
fn missing_info_is_an_error() {
    match OpenApiParser::parse_content(r##"{"swagger": "2.0"}"##, "memory") {
        Err(oas_sync::errors::OasError::InvalidOpenApi(m)) => {
            assert_eq!(m, s("Missing 'info' field"))
        }
        other => panic!("expected a missing-field error, got {:?}", other),
    }
}

#[test]
fn malformed_text_is_an_error() {
    match OpenApiParser::parse_content("{not json", "memory") {
        Err(oas_sync::errors::OasError::InvalidJson(_)) => {}
        other => panic!("expected an invalid-json error, got {:?}", other),
    }
    match OpenApiParser::parse_content(":\n  - [unclosed", "memory") {
        Err(oas_sync::errors::OasError::InvalidYaml(_)) => {}
        other => panic!("expected an invalid-yaml error, got {:?}", other),
    }
}

#[test]
fn parse_is_deterministic() {
    let a = OpenApiParser::parse_content(MODERN_DOC, "memory").expect("parse");
    let b = OpenApiParser::parse_content(MODERN_DOC, "memory").expect("parse");
    assert_eq!(a, b);
    assert_eq!(a.spec_hash, b.spec_hash);
}

#[test]
fn path_traversal_is_rejected() {
    match OpenApiParser::validate_local_path("../secrets.yaml") {
        Err(oas_sync::errors::OasError::PathTraversal(p)) => {
            assert_eq!(p, s("../secrets.yaml"))
        }
        other => panic!("expected a path-traversal error, got {:?}", other),
    }
    assert!(OpenApiParser::validate_local_path("specs/api.yaml").is_ok());
    assert!(OpenApiParser::validate_local_path("a/..hidden/b").is_err());
}

#[test]
fn duplicate_path_item_keys_keep_the_last_write() {
    // two methods under one path item produce two distinct endpoints
    let spec = OpenApiParser::parse_content(
        r##"{"swagger": "2.0", "info": {"title": "t", "version": "1"},
            "paths": {"/a": {"get": {"responses": {}}, "delete": {"responses": {}}}}}"##,
        "memory",
    )
    .expect("parse");
    let mut keys: Vec<String> = spec.endpoints.iter().map(|e| e.key()).collect();
    keys.sort();
    assert_eq!(keys, vec![s("DELETE /a"), s("GET /a")]);
}
