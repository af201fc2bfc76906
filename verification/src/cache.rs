//! The cache manager's decision core.
//!
//! Every fetch-vs-reuse decision is a pure function here: the layered
//! validity cascade (schema compatibility, source identity, freshness by
//! time-to-live and validators, embedded-model integrity) runs over a loaded
//! record and the evidence the caller gathered, and short-circuits to a
//! fresh fetch at the first failing stage, carrying the stage as its reason.
//! Reading the clock, the disk and the network stays outside; whatever they
//! answer is handed in as a plain value.

use vstd::prelude::*;

use crate::json::{json_doc_of, json_text};
use crate::model::ParsedSpec;
use crate::record::{
    dec_record, enc_record, CachedMeta, HttpCacheInfo, LocalCacheInfo, OasCache, OasCacheV,
    CACHE_SCHEMA_VERSION,
};
use crate::text::str_eq;

verus! {

/// Default time-to-live: one day. Described documents rarely change faster.
pub const DEFAULT_TTL_SECONDS: u64 = 86400;

/// Remote validators extracted from a fetch response.
#[derive(Debug, Clone, PartialEq)]
pub struct HttpHeaders {
    pub etag: Option<String>,
    pub last_modified: Option<String>,
}

/// The outcome of a lightweight revalidation request.
#[derive(Debug, Clone, PartialEq)]
pub enum RemoteProbe {
    /// The request failed at the network layer.
    NetworkError,
    /// The far end answered; these are the validator headers it sent.
    Headers { etag: Option<String>, last_modified: Option<String> },
}

/// The freshness evidence the caller gathered for the record's source.
#[derive(Debug, Clone, PartialEq)]
pub enum Freshness {
    /// A local file's current modification time, if it could be read.
    Local { current_mtime: Option<String> },
    /// A remote probe's outcome; `None` when no request could be made.
    Remote { probe: Option<RemoteProbe> },
}

/// The stage at which a record was rejected.
#[derive(Debug, Clone, Copy, PartialEq, Eq, Structural)]
pub enum InvalidReason {
    /// The record was written by a different model shape.
    SchemaVersionMismatch,
    /// The record belongs to another origin.
    SourceMismatch,
    /// The record's age exceeds its time-to-live.
    Expired,
    /// A validator shows the source changed.
    ValidatorChanged,
    /// The record carries no embedded model.
    NoEmbeddedSpec,
    /// The embedded model's hash does not match the record's.
    HashMismatch,
}

/// What to do with a loaded record.
#[derive(Debug)]
pub enum CacheDecision {
    /// Reuse the embedded model with zero re-parsing.
    Reuse(ParsedSpec),
    /// Fetch fresh, for the given reason.
    Refetch(InvalidReason),
}

/// What a timestamp text denotes, in seconds since the epoch.
pub uninterp spec fn rfc3339_secs_of(s: Seq<char>) -> Option<i64>;

/// Relies on chrono::DateTime::parse_from_rfc3339 and timestamp: the
/// denoted instant is a function of the text alone; unreadable text parses
/// to nothing.
#[verifier::external_body]
pub fn parse_rfc3339_secs(s: &str) -> (r: Option<i64>)
    ensures
        r == rfc3339_secs_of(s@),
{
    match chrono::DateTime::parse_from_rfc3339(s) {
        Ok(dt) => Some(dt.with_timezone(&chrono::Utc).timestamp()),
        Err(_) => None,
    }
}

/// Relies on chrono::Utc::now and to_rfc3339: the clock renders a timestamp
/// that reads back as the seconds it returns.
#[verifier::external_body]
pub fn current_time() -> (r: (i64, String))
    ensures
        rfc3339_secs_of(r.1@) == Some(r.0),
{
    let now = chrono::Utc::now();
    (now.timestamp(), now.to_rfc3339())
}

/// Whether a source names a network location.
pub open spec fn spec_is_remote(source: Seq<char>) -> bool {
    "http://"@.is_prefix_of(source) || "https://"@.is_prefix_of(source)
}

pub fn is_remote_source(source: &str) -> (r: bool)
    ensures
        r == spec_is_remote(source@),
{
    crate::text::starts_with(source, "http://") || crate::text::starts_with(source, "https://")
}

/// A record is expired when its recorded fetch instant lies further back
/// than its time-to-live, or when that instant cannot be read at all.
pub open spec fn spec_expired(c: OasCacheV, now: i64) -> bool {
    match rfc3339_secs_of(c.last_fetch) {
        Some(t) => now - t > c.ttl_seconds,
        None => true,
    }
}

/// Whether a local record is still fresh: within its time-to-live and with
/// the file's modification time unchanged.
pub open spec fn spec_check_local(c: OasCacheV, current_mtime: Option<Seq<char>>, now: i64) -> bool {
    if spec_expired(c, now) {
        false
    } else {
        match (current_mtime, c.local_cache.mtime) {
            (Some(m), Some(cm)) => m == cm,
            _ => false,
        }
    }
}

/// Whether a remote record is still fresh: within its time-to-live, and the
/// probe either failed at the network layer (the cache is trusted until the
/// time-to-live runs out), or its validators match the stored ones, or it
/// carried no usable validator pair at all.
pub open spec fn spec_check_remote(c: OasCacheV, probe: Option<RemoteProbe>, now: i64) -> bool {
    if spec_expired(c, now) {
        false
    } else {
        match probe {
            None => false,
            Some(RemoteProbe::NetworkError) => true,
            Some(RemoteProbe::Headers { etag, last_modified }) => match (etag, c.http_cache.etag) {
                (Some(e), Some(ce)) => e@ == ce,
                _ => match (last_modified, c.http_cache.last_modified) {
                    (Some(l), Some(cl)) => l@ == cl,
                    _ => true,
                },
            },
        }
    }
}

/// View of freshness evidence against a record.
pub open spec fn spec_freshness_ok(c: OasCacheV, fresh: Freshness, now: i64) -> bool {
    match fresh {
        Freshness::Local { current_mtime } => spec_check_local(
            c,
            crate::model::opt_view(current_mtime),
            now,
        ),
        Freshness::Remote { probe } => spec_check_remote(c, probe, now),
    }
}

/// The validity cascade over a loaded record: the first failing stage, or
/// nothing when the embedded model may be reused as it stands.
pub open spec fn spec_validity(c: OasCacheV, source: Seq<char>, fresh: Freshness, now: i64)
    -> Option<InvalidReason> {
    if c.schema_version != CACHE_SCHEMA_VERSION {
        Some(InvalidReason::SchemaVersionMismatch)
    } else if c.source != source {
        Some(InvalidReason::SourceMismatch)
    } else if spec_expired(c, now) {
        Some(InvalidReason::Expired)
    } else if !spec_freshness_ok(c, fresh, now) {
        Some(InvalidReason::ValidatorChanged)
    } else {
        match c.parsed_spec {
            None => Some(InvalidReason::NoEmbeddedSpec),
            Some(s) => if s.spec_hash != c.spec_hash {
                Some(InvalidReason::HashMismatch)
            } else {
                None
            },
        }
    }
}

/// A schema-version mismatch wins over every later stage: the record is
/// rejected for that reason even when its time-to-live has not elapsed.
pub proof fn lemma_cascade_schema_version_first(
    c: OasCacheV,
    source: Seq<char>,
    fresh: Freshness,
    now: i64,
)
    requires
        c.schema_version != CACHE_SCHEMA_VERSION,
    ensures
        spec_validity(c, source, fresh, now) == Some(InvalidReason::SchemaVersionMismatch),
{
}

/// An embedded model whose own hash differs from the record's is never
/// reused, whatever the validators said.
pub proof fn lemma_cascade_hash_guard(c: OasCacheV, source: Seq<char>, fresh: Freshness, now: i64)
    requires
        c.parsed_spec matches Some(s) && s.spec_hash != c.spec_hash,
    ensures
        spec_validity(c, source, fresh, now) is Some,
{
}

/// A record older than its time-to-live is never reused, even when the
/// source content is unchanged byte for byte.
pub proof fn lemma_ttl_expiry(c: OasCacheV, source: Seq<char>, fresh: Freshness, now: i64)
    requires
        spec_expired(c, now),
    ensures
        spec_validity(c, source, fresh, now) is Some,
{
}

/// The manager that owns the persisted record's location and the
/// fetch-vs-reuse decision.
pub struct CacheManager {
    project_dir: String,
}

impl CacheManager {
    /// The directory this manager persists under.
    pub closed spec fn dir(&self) -> Seq<char> {
        self.project_dir@
    }

    /// A manager rooted at a project directory.
    pub fn new(project_dir: &str) -> (r: Self)
        ensures
            r.dir() == project_dir@,
    {
        let mut d = String::new();
        d.append(project_dir);
        CacheManager { project_dir: d }
    }

    /// The canonical record path under the project directory.
    pub fn cache_path(&self) -> (r: String)
        ensures
            r@ == self.dir() + "/.openapi-sync.cache.json"@,
    {
        let mut p = self.project_dir.clone();
        p.append("/.openapi-sync.cache.json");
        p
    }

    /// The state-file path under the project directory.
    pub fn state_path(&self) -> (r: String)
        ensures
            r@ == self.dir() + "/.openapi-sync.state.json"@,
    {
        let mut p = self.project_dir.clone();
        p.append("/.openapi-sync.state.json");
        p
    }

    /// The temporary path the record is written to before the atomic rename.
    pub fn temp_path(&self) -> (r: String)
        ensures
            r@ == self.dir() + "/.openapi-sync.cache.json"@ + ".tmp"@,
    {
        let mut p = self.cache_path();
        p.append(".tmp");
        p
    }

    /// Whether a record's age exceeds its time-to-live at a given instant.
    pub fn is_expired_at(cache: &OasCache, now: i64) -> (r: bool)
        ensures
            r == spec_expired(cache@, now),
    {
        match parse_rfc3339_secs(cache.last_fetch.as_str()) {
            Some(t) => {
                let elapsed: i128 = (now as i128) - (t as i128);
                elapsed > cache.ttl_seconds as i128
            },
            None => true,
        }
    }

    /// Whether a record is expired on the running clock.
    pub fn is_cache_expired(&self, cache: &OasCache) -> (r: bool)
        ensures
            exists|now: i64| r == spec_expired(cache@, now),
    {
        let (now, _stamp) = current_time();
        let e = Self::is_expired_at(cache, now);
        proof {
            assert(e == spec_expired(cache@, now));
        }
        e
    }

    /// The local freshness stage, over the file's current modification time.
    pub fn check_local_cache(cache: &OasCache, current_mtime: Option<&String>, now: i64) -> (r:
        bool)
        ensures
            r == spec_check_local(
                cache@,
                match current_mtime {
                    Some(m) => Some(m@),
                    None => None,
                },
                now,
            ),
    {
        if Self::is_expired_at(cache, now) {
            return false;
        }
        match (current_mtime, &cache.local_cache.mtime) {
            (Some(m), Some(cm)) => str_eq(m.as_str(), cm.as_str()),
            _ => false,
        }
    }

    /// The remote freshness stage, over a probe's outcome.
    pub fn check_remote_cache(cache: &OasCache, probe: Option<&RemoteProbe>, now: i64) -> (r: bool)
        ensures
            r == spec_check_remote(
                cache@,
                match probe {
                    Some(p) => Some(*p),
                    None => None,
                },
                now,
            ),
    {
        if Self::is_expired_at(cache, now) {
            return false;
        }
        match probe {
            None => false,
            Some(RemoteProbe::NetworkError) => true,
            Some(RemoteProbe::Headers { etag, last_modified }) => {
                match (etag, &cache.http_cache.etag) {
                    (Some(e), Some(ce)) => str_eq(e.as_str(), ce.as_str()),
                    _ => {
                        match (last_modified, &cache.http_cache.last_modified) {
                            (Some(l), Some(cl)) => str_eq(l.as_str(), cl.as_str()),
                            _ => true,
                        }
                    },
                }
            },
        }
    }

    /// Whether a revalidation probe is worth making: only for an unexpired,
    /// compatible record of the same remote source.
    pub fn probe_needed(cache: &OasCache, source: &str, now: i64) -> (r: bool)
        ensures
            r == (cache@.schema_version == CACHE_SCHEMA_VERSION && cache@.source == source@
                && spec_is_remote(source@) && !spec_expired(cache@, now)),
    {
        cache.schema_version == CACHE_SCHEMA_VERSION && str_eq(
            cache.source.as_str(),
            source,
        ) && is_remote_source(source) && !Self::is_expired_at(cache, now)
    }

    /// Runs the whole cascade over a loaded record and the gathered
    /// evidence, handing the embedded model out on success.
    pub fn evaluate(cache: OasCache, source: &str, fresh: &Freshness, now: i64) -> (r:
        CacheDecision)
        ensures
            match r {
                CacheDecision::Reuse(spec) => spec_validity(cache@, source@, *fresh, now) is None
                    && cache@.parsed_spec == Some(spec@),
                CacheDecision::Refetch(reason) => spec_validity(cache@, source@, *fresh, now)
                    == Some(reason),
            },
    {
        if cache.schema_version != CACHE_SCHEMA_VERSION {
            return CacheDecision::Refetch(InvalidReason::SchemaVersionMismatch);
        }
        if !str_eq(cache.source.as_str(), source) {
            return CacheDecision::Refetch(InvalidReason::SourceMismatch);
        }
        if Self::is_expired_at(&cache, now) {
            return CacheDecision::Refetch(InvalidReason::Expired);
        }
        let fresh_ok = match fresh {
            Freshness::Local { current_mtime } => Self::check_local_cache(
                &cache,
                current_mtime.as_ref(),
                now,
            ),
            Freshness::Remote { probe } => Self::check_remote_cache(&cache, probe.as_ref(), now),
        };
        if !fresh_ok {
            return CacheDecision::Refetch(InvalidReason::ValidatorChanged);
        }
        let spec_hash_ok = match &cache.parsed_spec {
            Some(sp) => str_eq(sp.spec_hash.as_str(), cache.spec_hash.as_str()),
            None => false,
        };
        match cache.parsed_spec {
            None => CacheDecision::Refetch(InvalidReason::NoEmbeddedSpec),
            Some(spec) => {
                if spec_hash_ok {
                    CacheDecision::Reuse(spec)
                } else {
                    CacheDecision::Refetch(InvalidReason::HashMismatch)
                }
            },
        }
    }

    /// Builds the record for a freshly normalized model: current validators
    /// captured, the model embedded, the default time-to-live unless
    /// overridden.
    pub fn create_cache(
        spec: ParsedSpec,
        source: &str,
        ttl_seconds: Option<u64>,
        http_headers: Option<&HttpHeaders>,
        local_mtime: Option<String>,
        now_rfc3339: String,
    ) -> (r: OasCache)
        ensures
            r@.version == "1.0.0"@,
            r@.schema_version == CACHE_SCHEMA_VERSION,
            r@.last_fetch == now_rfc3339@,
            r@.spec_hash == spec@.spec_hash,
            r@.source == source@,
            r@.ttl_seconds == (match ttl_seconds {
                Some(t) => t,
                None => DEFAULT_TTL_SECONDS,
            }),
            r@.http_cache.etag == (match http_headers {
                Some(h) => crate::model::opt_view(h.etag),
                None => None,
            }),
            r@.http_cache.last_modified == (match http_headers {
                Some(h) => crate::model::opt_view(h.last_modified),
                None => None,
            }),
            r@.local_cache.mtime == crate::model::opt_view(local_mtime),
            r@.meta.title == Some(spec@.metadata.title),
            r@.meta.version == Some(spec@.metadata.version),
            r@.meta.openapi_version == Some(spec@.metadata.openapi_version.label_of()),
            r@.meta.endpoint_count == spec@.metadata.endpoint_count,
            r@.meta.schema_count == spec@.metadata.schema_count,
            r@.parsed_spec == Some(spec@),
    {
        let mut version = String::new();
        version.append("1.0.0");
        let ttl = match ttl_seconds {
            Some(t) => t,
            None => DEFAULT_TTL_SECONDS,
        };
        let http_cache = match http_headers {
            Some(h) => HttpCacheInfo {
                etag: match &h.etag {
                    Some(e) => Some(e.clone()),
                    None => None,
                },
                last_modified: match &h.last_modified {
                    Some(l) => Some(l.clone()),
                    None => None,
                },
            },
            None => HttpCacheInfo { etag: None, last_modified: None },
        };
        let mut dialect = String::new();
        dialect.append(spec.metadata.openapi_version.label());
        let meta = CachedMeta {
            title: Some(spec.metadata.title.clone()),
            version: Some(spec.metadata.version.clone()),
            openapi_version: Some(dialect),
            endpoint_count: spec.metadata.endpoint_count,
            schema_count: spec.metadata.schema_count,
        };
        let spec_hash = spec.spec_hash.clone();
        OasCache {
            version,
            schema_version: CACHE_SCHEMA_VERSION,
            last_fetch: now_rfc3339,
            spec_hash,
            source: {
                let mut s = String::new();
                s.append(source);
                s
            },
            ttl_seconds: ttl,
            http_cache,
            local_cache: LocalCacheInfo { mtime: local_mtime },
            meta,
            parsed_spec: Some(spec),
        }
    }

    /// Renders a record as the persisted JSON text.
    pub fn encode_record_text(cache: &OasCache) -> (r: String)
        ensures
            r@ == json_text(enc_record(cache@)),
    {
        let j = crate::record::record_to_json(cache);
        j.to_text()
    }

    /// Reads persisted JSON text back into a record; `None` when the text
    /// does not decode to a record-shaped document.
    pub fn decode_record_text(text: &str) -> (r: Option<OasCache>)
        ensures
            match r {
                Some(c) => json_doc_of(text@) matches Some(d) && dec_record(d) == Some(c@),
                None => match json_doc_of(text@) {
                    Some(d) => dec_record(d) is None,
                    None => true,
                },
            },
    {
        let val = match crate::json::serde_parse_json(text) {
            Ok(v) => v,
            Err(_) => {
                return None;
            },
        };
        let j = crate::json::value_to_json(&val);
        crate::record::record_from_json(&j)
    }
}

} // verus!
