use oas_sync::cache::{
    CacheDecision, CacheManager, Freshness, HttpHeaders, InvalidReason, RemoteProbe,
    DEFAULT_TTL_SECONDS,
};
use oas_sync::parser::OpenApiParser;
use oas_sync::record::CACHE_SCHEMA_VERSION;

fn s(text: &str) -> String {
    String::from(text)
}

const DOC: &str = r##"{
  "swagger": "2.0",
  "info": {"title": "Cached", "version": "1.0"},
  "paths": {"/a": {"get": {"responses": {"200": {"description": "ok"}}}}},
  "definitions": {"User": {"type": "object", "properties": {"n": {"type": "string"}}}}
}"##;

fn fresh_record(source: &str, ttl: Option<u64>) -> oas_sync::record::OasCache {
    let spec = OpenApiParser::parse_content(DOC, source).expect("parse");
    let (_now, stamp) = oas_sync::cache::current_time();
    CacheManager::create_cache(spec, source, ttl, None, Some(s("2024-01-01T00:00:00+00:00")), stamp)
}

#[test]
fn record_fields_are_captured() {
    let headers = HttpHeaders { etag: Some(s("abc")), last_modified: Some(s("yesterday")) };
    let spec = OpenApiParser::parse_content(DOC, "http://x/spec.json").expect("parse");
    let expected_hash = spec.spec_hash.clone();
    let (_, stamp) = oas_sync::cache::current_time();
    let rec = CacheManager::create_cache(
        spec,
        "http://x/spec.json",
        Some(77),
        Some(&headers),
        None,
        stamp,
    );
    assert_eq!(rec.version, s("1.0.0"));
    assert_eq!(rec.schema_version, CACHE_SCHEMA_VERSION);
    assert_eq!(rec.source, s("http://x/spec.json"));
    assert_eq!(rec.ttl_seconds, 77);
    assert_eq!(rec.spec_hash, expected_hash);
    assert_eq!(rec.http_cache.etag, Some(s("abc")));
    assert_eq!(rec.http_cache.last_modified, Some(s("yesterday")));
    assert_eq!(rec.meta.title, Some(s("Cached")));
    assert_eq!(rec.meta.endpoint_count, 1);
    assert_eq!(rec.meta.schema_count, 1);
    assert!(rec.parsed_spec.is_some());
}

#[test]
fn default_ttl_applies() {
    let rec = fresh_record("specs/a.json", None);
    assert_eq!(rec.ttl_seconds, DEFAULT_TTL_SECONDS);
}

#[test]
fn record_text_round_trips() {
    let rec = fresh_record("specs/a.json", Some(123));
    let text = CacheManager::encode_record_text(&rec);
    let back = CacheManager::decode_record_text(&text).expect("decode");
    assert_eq!(back, rec);
}

#[test]
fn corrupted_text_fails_to_decode() {
    assert!(CacheManager::decode_record_text("{").is_none());
    assert!(CacheManager::decode_record_text(r##"{"version": "1.0.0"}"##).is_none());
    assert!(CacheManager::decode_record_text(r##"[1, 2]"##).is_none());
}

#[test]
fn ttl_expiry_invalidates_even_unchanged_content() {
    let mut rec = fresh_record("specs/a.json", Some(10));
    // push the fetch instant far into the past
    rec.last_fetch = s("2000-01-01T00:00:00+00:00");
    let (now, _) = oas_sync::cache::current_time();
    let fresh = Freshness::Local { current_mtime: rec.local_cache.mtime.clone() };
    match CacheManager::evaluate(rec, "specs/a.json", &fresh, now) {
        CacheDecision::Refetch(InvalidReason::Expired) => {}
        other => panic!("expected expiry, got {:?}", other),
    }
}

#[test]
fn unreadable_timestamp_counts_as_expired() {
    let mut rec = fresh_record("specs/a.json", Some(10));
    rec.last_fetch = s("not a timestamp");
    let (now, _) = oas_sync::cache::current_time();
    assert!(CacheManager::is_expired_at(&rec, now));
}

#[test]
fn schema_version_mismatch_wins_over_valid_ttl() {
    let mut rec = fresh_record("specs/a.json", Some(1000000));
    rec.schema_version = 999;
    let (now, _) = oas_sync::cache::current_time();
    let fresh = Freshness::Local { current_mtime: rec.local_cache.mtime.clone() };
    match CacheManager::evaluate(rec, "specs/a.json", &fresh, now) {
        CacheDecision::Refetch(InvalidReason::SchemaVersionMismatch) => {}
        other => panic!("expected a schema-version refetch, got {:?}", other),
    }
}

#[test]
fn source_mismatch_invalidates() {
    let rec = fresh_record("specs/a.json", Some(1000));
    let (now, _) = oas_sync::cache::current_time();
    let fresh = Freshness::Local { current_mtime: rec.local_cache.mtime.clone() };
    match CacheManager::evaluate(rec, "specs/other.json", &fresh, now) {
        CacheDecision::Refetch(InvalidReason::SourceMismatch) => {}
        other => panic!("expected a source refetch, got {:?}", other),
    }
}

#[test]
fn changed_mtime_invalidates() {
    let rec = fresh_record("specs/a.json", Some(1000));
    let (now, _) = oas_sync::cache::current_time();
    let fresh = Freshness::Local { current_mtime: Some(s("2025-06-01T00:00:00+00:00")) };
    match CacheManager::evaluate(rec, "specs/a.json", &fresh, now) {
        CacheDecision::Refetch(InvalidReason::ValidatorChanged) => {}
        other => panic!("expected a validator refetch, got {:?}", other),
    }
}

#[test]
fn corrupted_hash_forces_fresh_fetch_and_recovery() {
    let mut rec = fresh_record("specs/a.json", Some(1000));
    rec.spec_hash = s("corrupted_hash00");
    let (now, _) = oas_sync::cache::current_time();
    let fresh = Freshness::Local { current_mtime: rec.local_cache.mtime.clone() };
    match CacheManager::evaluate(rec, "specs/a.json", &fresh, now) {
        CacheDecision::Refetch(InvalidReason::HashMismatch) => {}
        other => panic!("expected a hash refetch, got {:?}", other),
    }
    // the fresh path then writes a record whose hash matches its model
    let rec2 = fresh_record("specs/a.json", Some(1000));
    let embedded = rec2.parsed_spec.as_ref().expect("embedded model");
    assert_eq!(rec2.spec_hash, embedded.spec_hash);
}

#[test]
fn unchanged_local_record_is_reused_without_reparsing() {
    let first = OpenApiParser::parse_content(DOC, "specs/a.json").expect("parse");
    let rec = fresh_record("specs/a.json", Some(100000));
    let (now, _) = oas_sync::cache::current_time();
    let fresh = Freshness::Local { current_mtime: rec.local_cache.mtime.clone() };
    match CacheManager::evaluate(rec, "specs/a.json", &fresh, now) {
        CacheDecision::Reuse(spec) => {
            assert_eq!(spec, first);
        }
        other => panic!("expected reuse, got {:?}", other),
    }
}

#[test]
fn remote_etag_governs_freshness() {
    let spec = OpenApiParser::parse_content(DOC, "http://x/s.json").expect("parse");
    let headers = HttpHeaders { etag: Some(s("v1")), last_modified: None };
    let (now, stamp) = oas_sync::cache::current_time();
    let rec = CacheManager::create_cache(
        spec,
        "http://x/s.json",
        Some(1000),
        Some(&headers),
        None,
        stamp,
    );
    assert!(CacheManager::probe_needed(&rec, "http://x/s.json", now));

    let same = Freshness::Remote {
        probe: Some(RemoteProbe::Headers { etag: Some(s("v1")), last_modified: None }),
    };
    match CacheManager::evaluate(rec, "http://x/s.json", &same, now) {
        CacheDecision::Reuse(_) => {}
        other => panic!("expected reuse on matching validator, got {:?}", other),
    }

    let rec2 = {
        let spec = OpenApiParser::parse_content(DOC, "http://x/s.json").expect("parse");
        let headers = HttpHeaders { etag: Some(s("v1")), last_modified: None };
        let (_n2, stamp) = oas_sync::cache::current_time();
        CacheManager::create_cache(spec, "http://x/s.json", Some(1000), Some(&headers), None, stamp)
    };
    let changed = Freshness::Remote {
        probe: Some(RemoteProbe::Headers { etag: Some(s("v2")), last_modified: None }),
    };
    match CacheManager::evaluate(rec2, "http://x/s.json", &changed, now) {
        CacheDecision::Refetch(InvalidReason::ValidatorChanged) => {}
        other => panic!("expected refetch on changed validator, got {:?}", other),
    }
}

#[test]
fn revalidation_failure_fails_open_within_ttl() {
    let spec = OpenApiParser::parse_content(DOC, "http://x/s.json").expect("parse");
    let (now, stamp) = oas_sync::cache::current_time();
    let rec = CacheManager::create_cache(spec, "http://x/s.json", Some(1000), None, None, stamp);
    let fresh = Freshness::Remote { probe: Some(RemoteProbe::NetworkError) };
    match CacheManager::evaluate(rec, "http://x/s.json", &fresh, now) {
        CacheDecision::Reuse(_) => {}
        other => panic!("expected fail-open reuse, got {:?}", other),
    }
}

#[test]
fn absent_validators_fall_back_to_ttl() {
    let spec = OpenApiParser::parse_content(DOC, "http://x/s.json").expect("parse");
    let (now, stamp) = oas_sync::cache::current_time();
    let rec = CacheManager::create_cache(spec, "http://x/s.json", Some(1000), None, None, stamp);
    let fresh = Freshness::Remote {
        probe: Some(RemoteProbe::Headers { etag: None, last_modified: None }),
    };
    match CacheManager::evaluate(rec, "http://x/s.json", &fresh, now) {
        CacheDecision::Reuse(_) => {}
        other => panic!("expected ttl-only reuse, got {:?}", other),
    }
}

#[test]
fn rfc3339_reading_matches_the_epoch() {
    assert_eq!(oas_sync::cache::parse_rfc3339_secs("1970-01-01T00:00:10+00:00"), Some(10));
    assert_eq!(oas_sync::cache::parse_rfc3339_secs("1970-01-01T01:00:00+01:00"), Some(0));
    assert_eq!(oas_sync::cache::parse_rfc3339_secs("nonsense"), None);
}

#[test]
fn current_time_renders_its_own_instant() {
    let (now, stamp) = oas_sync::cache::current_time();
    assert_eq!(oas_sync::cache::parse_rfc3339_secs(&stamp), Some(now));
}

#[test]
fn manager_paths_join_the_project_directory() {
    let m = CacheManager::new("proj");
    assert_eq!(m.cache_path(), s("proj/.openapi-sync.cache.json"));
    assert_eq!(m.state_path(), s("proj/.openapi-sync.state.json"));
    assert_eq!(m.temp_path(), s("proj/.openapi-sync.cache.json.tmp"));
}

#[test]
fn error_messages_identify_their_kind() {
    let e = oas_sync::errors::OasError::FileNotFound(s("x.yaml"));
    assert_eq!(e.message(), s("file not found: x.yaml"));
    let e = oas_sync::errors::OasError::HttpError { status: 404, message: s("Not Found") };
    assert_eq!(e.message(), s("http error 404: Not Found"));
    let e = oas_sync::errors::OasError::CacheNotFound;
    assert_eq!(e.message(), s("cache record not found"));
    let e = oas_sync::errors::OasError::PermissionDenied(s("p"));
    assert_eq!(e.message(), s("permission denied: p"));
    let e = oas_sync::errors::OasError::PathTraversal(s(".."));
    assert_eq!(e.message(), s("path traversal attempt: .."));
    let e = oas_sync::errors::OasError::ReadError(s("r"));
    assert_eq!(e.message(), s("read failed: r"));
    let e = oas_sync::errors::OasError::ConnectionFailed(s("c"));
    assert_eq!(e.message(), s("connection failed: c"));
    let e = oas_sync::errors::OasError::CacheCorrupted(s("bad"));
    assert_eq!(e.message(), s("cache record corrupted: bad"));
    let e = oas_sync::errors::OasError::CacheWriteFailed(s("w"));
    assert_eq!(e.message(), s("cache write failed: w"));
    let e = oas_sync::errors::OasError::UnsupportedVersion(s("9"));
    assert_eq!(e.message(), s("unsupported version: 9"));
}

#[test]
fn serializer_output_reparses_with_an_independent_reader() {
    let rec = fresh_record("specs/a.json", Some(5));
    let text = CacheManager::encode_record_text(&rec);
    // an independent JSON reader accepts the serializer's output
    let v: serde_json::Value = serde_json::from_str(&text).expect("well-formed JSON");
    assert_eq!(v.get("version").and_then(|x| x.as_str()), Some("1.0.0"));
    assert_eq!(v.get("ttl_seconds").and_then(|x| x.as_u64()), Some(5));
    assert!(v.get("content_hash").is_some());
    assert!(v.get("parsed_spec").is_some());
}

#[test]
fn escaped_strings_survive_the_text_round_trip() {
    let mut rec = fresh_record("specs/a.json", Some(5));
    rec.source = s("weird \"quoted\"\\path\nwith\tcontrols");
    let text = CacheManager::encode_record_text(&rec);
    let back = CacheManager::decode_record_text(&text).expect("decode");
    assert_eq!(back.source, rec.source);
}
