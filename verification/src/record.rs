//! The persisted cache record and its document codec.
//!
//! A record is written as a JSON document and read back from one. Both
//! directions are defined here over the library's own document values, and
//! reading back what was written is proved to restore the record — embedded
//! model included — field for field.

use vstd::prelude::*;

use crate::json::{fields_get, obj_get, JsonVal, JsonValue};
use crate::model::{
    Endpoint, EndpointV, HttpMethod, OpenApiVersion, Parameter, ParameterLocation, ParameterV,
    ParsedSpec, ParsedSpecV, RequestBody, RequestBodyV, Response, ResponseV, Schema, SchemaType,
    SchemaTypeV, SchemaV, SpecMetadata, SpecMetadataV,
};
use crate::text::{dec_of, parse_u64_of, str_eq};

verus! {

/// The record format version written to disk.
pub open spec fn record_format_version() -> Seq<char> {
    "1.0.0"@
}

/// The running model's schema version: bumped whenever the shape of the
/// unified model changes, so older embedded models are never trusted.
pub const CACHE_SCHEMA_VERSION: u64 = 1;

/// View of the remote validators.
pub struct HttpCacheInfoV {
    pub etag: Option<Seq<char>>,
    pub last_modified: Option<Seq<char>>,
}

/// Remote validators captured from a fetch.
#[derive(Debug, Clone, PartialEq)]
pub struct HttpCacheInfo {
    pub etag: Option<String>,
    pub last_modified: Option<String>,
}

impl View for HttpCacheInfo {
    type V = HttpCacheInfoV;

    open spec fn view(&self) -> HttpCacheInfoV {
        HttpCacheInfoV {
            etag: crate::model::opt_view(self.etag),
            last_modified: crate::model::opt_view(self.last_modified),
        }
    }
}

/// View of the local validator.
pub struct LocalCacheInfoV {
    pub mtime: Option<Seq<char>>,
}

/// The local validator: the source file's modification time.
#[derive(Debug, Clone, PartialEq)]
pub struct LocalCacheInfo {
    pub mtime: Option<String>,
}

impl View for LocalCacheInfo {
    type V = LocalCacheInfoV;

    open spec fn view(&self) -> LocalCacheInfoV {
        LocalCacheInfoV { mtime: crate::model::opt_view(self.mtime) }
    }
}

/// View of the denormalized metadata summary.
pub struct CachedMetaV {
    pub title: Option<Seq<char>>,
    pub version: Option<Seq<char>>,
    pub openapi_version: Option<Seq<char>>,
    pub endpoint_count: int,
    pub schema_count: int,
}

/// A small denormalized summary of the cached model.
#[derive(Debug, Clone, PartialEq)]
pub struct CachedMeta {
    pub title: Option<String>,
    pub version: Option<String>,
    pub openapi_version: Option<String>,
    pub endpoint_count: usize,
    pub schema_count: usize,
}

impl View for CachedMeta {
    type V = CachedMetaV;

    open spec fn view(&self) -> CachedMetaV {
        CachedMetaV {
            title: crate::model::opt_view(self.title),
            version: crate::model::opt_view(self.version),
            openapi_version: crate::model::opt_view(self.openapi_version),
            endpoint_count: self.endpoint_count as int,
            schema_count: self.schema_count as int,
        }
    }
}

/// View of a persisted record.
pub struct OasCacheV {
    pub version: Seq<char>,
    pub schema_version: u64,
    pub last_fetch: Seq<char>,
    pub spec_hash: Seq<char>,
    pub source: Seq<char>,
    pub ttl_seconds: u64,
    pub http_cache: HttpCacheInfoV,
    pub local_cache: LocalCacheInfoV,
    pub meta: CachedMetaV,
    pub parsed_spec: Option<ParsedSpecV>,
}

/// The persisted cache record: the sole durable state. It carries the
/// format and schema versions, the fetch timestamp and hash, the origin,
/// the freshness validators, a metadata summary, and optionally the full
/// normalized model for zero-reparse reuse.
#[derive(Debug, PartialEq)]
pub struct OasCache {
    pub version: String,
    pub schema_version: u64,
    pub last_fetch: String,
    pub spec_hash: String,
    pub source: String,
    pub ttl_seconds: u64,
    pub http_cache: HttpCacheInfo,
    pub local_cache: LocalCacheInfo,
    pub meta: CachedMeta,
    pub parsed_spec: Option<ParsedSpec>,
}

impl View for OasCache {
    type V = OasCacheV;

    open spec fn view(&self) -> OasCacheV {
        OasCacheV {
            version: self.version@,
            schema_version: self.schema_version,
            last_fetch: self.last_fetch@,
            spec_hash: self.spec_hash@,
            source: self.source@,
            ttl_seconds: self.ttl_seconds,
            http_cache: self.http_cache@,
            local_cache: self.local_cache@,
            meta: self.meta@,
            parsed_spec: match self.parsed_spec {
                Some(s) => Some(s@),
                None => None,
            },
        }
    }
}

/// An optional string as a nullable document value.
pub open spec fn enc_opt_str(o: Option<Seq<char>>) -> JsonVal {
    match o {
        Some(s) => JsonVal::Str(s),
        None => JsonVal::Null,
    }
}

pub open spec fn dec_opt_str(v: JsonVal) -> Option<Option<Seq<char>>> {
    match v {
        JsonVal::Str(s) => Some(Some(s)),
        JsonVal::Null => Some(None),
        _ => None,
    }
}

/// A number as its canonical decimal text.
pub open spec fn enc_u64(n: u64) -> JsonVal {
    JsonVal::Num(dec_of(n as nat))
}

pub open spec fn dec_u64(v: JsonVal) -> Option<u64> {
    match v {
        JsonVal::Num(t) => parse_u64_of(t),
        _ => None,
    }
}

/// A string list as an array of strings.
pub open spec fn enc_str_list(ss: Seq<Seq<char>>) -> JsonVal {
    JsonVal::Arr(ss.map_values(|s: Seq<char>| JsonVal::Str(s)))
}

pub open spec fn dec_str_list(v: JsonVal) -> Option<Seq<Seq<char>>> {
    match v {
        JsonVal::Arr(items) => dec_str_items(items),
        _ => None,
    }
}

pub open spec fn dec_str_items(items: Seq<JsonVal>) -> Option<Seq<Seq<char>>>
    decreases items.len(),
{
    if items.len() == 0 {
        Some(Seq::empty())
    } else {
        match (items[0], dec_str_items(items.drop_first())) {
            (JsonVal::Str(s), Some(rest)) => Some(seq![s] + rest),
            _ => None,
        }
    }
}

proof fn lemma_str_list_round_trip(ss: Seq<Seq<char>>)
    ensures
        dec_str_items(ss.map_values(|s: Seq<char>| JsonVal::Str(s))) == Some(ss),
    decreases ss.len(),
{
    let m = ss.map_values(|s: Seq<char>| JsonVal::Str(s));
    if ss.len() == 0 {
        assert(dec_str_items(m) == Some(Seq::<Seq<char>>::empty()));
        assert(ss =~= Seq::<Seq<char>>::empty());
    } else {
        lemma_str_list_round_trip(ss.drop_first());
        assert(m.drop_first() =~= ss.drop_first().map_values(|s: Seq<char>| JsonVal::Str(s)));
        assert(m[0] == JsonVal::Str(ss[0]));
        assert(seq![ss[0]] + ss.drop_first() =~= ss);
    }
}

/// Builds an owned key.
fn skey(s: &'static str) -> (r: String)
    ensures
        r@ == s@,
{
    let mut k = String::new();
    k.append(s);
    k
}

/// Encodes an optional string.
fn opt_str_to_json(o: &Option<String>) -> (r: JsonValue)
    ensures
        r@ == enc_opt_str(crate::model::opt_view(*o)),
{
    match o {
        Some(s) => JsonValue::Str(s.clone()),
        None => JsonValue::Null,
    }
}

/// Decodes an optional string.
fn opt_str_from_json(v: &JsonValue) -> (r: Option<Option<String>>)
    ensures
        match r {
            Some(o) => dec_opt_str(v@) == Some(crate::model::opt_view(o)),
            None => dec_opt_str(v@) is None,
        },
{
    match v {
        JsonValue::Str(s) => Some(Some(s.clone())),
        JsonValue::Null => Some(None),
        _ => None,
    }
}

/// Encodes a number.
fn u64_to_json(n: u64) -> (r: JsonValue)
    ensures
        r@ == enc_u64(n),
{
    JsonValue::Num(crate::text::u64_to_dec(n))
}

/// Decodes a number.
fn u64_from_json(v: &JsonValue) -> (r: Option<u64>)
    ensures
        r == dec_u64(v@),
{
    match v {
        JsonValue::Num(t) => crate::text::parse_u64_dec(t.as_str()),
        _ => None,
    }
}

/// Encodes a string list.
fn str_list_to_json(ss: &Vec<String>) -> (r: JsonValue)
    ensures
        r@ == enc_str_list(crate::model::strs_view(ss@)),
{
    let mut items: Vec<JsonValue> = Vec::new();
    let n = ss.len();
    let mut i: usize = 0;
    while i < n
        invariant
            0 <= i <= n,
            n == ss@.len(),
            JsonValue::views_of(items@) == crate::model::strs_view(ss@).take(i as int).map_values(
                |s: Seq<char>| JsonVal::Str(s),
            ),
        decreases n - i,
    {
        let ghost before = items@;
        items.push(JsonValue::Str(ss[i].clone()));
        proof {
            crate::json::lemma_views_of_index(before);
            crate::json::lemma_views_of_index(items@);
            let sv = crate::model::strs_view(ss@);
            assert forall|k: int|
                0 <= k < items@.len() implies JsonValue::views_of(items@)[k] == sv.take(
                i + 1,
            ).map_values(|s: Seq<char>| JsonVal::Str(s))[k] by {
                if k < before.len() {
                    assert(items@[k] == before[k]);
                    assert(JsonValue::views_of(before)[k] == before[k].view_rec());
                } else {
                    assert(items@[k].view_rec() == JsonVal::Str(ss@[i as int]@));
                    assert(sv.take(i + 1)[k] == sv[i as int]);
                    assert(sv[i as int] == ss@[i as int]@);
                }
            }
            assert(JsonValue::views_of(items@) =~= sv.take(i + 1).map_values(
                |s: Seq<char>| JsonVal::Str(s),
            ));
        }
        i += 1;
    }
    proof {
        assert(crate::model::strs_view(ss@).take(n as int) =~= crate::model::strs_view(ss@));
    }
    JsonValue::Arr(items)
}

/// Decodes a string list.
fn str_list_from_json(v: &JsonValue) -> (r: Option<Vec<String>>)
    ensures
        match r {
            Some(ss) => dec_str_list(v@) == Some(crate::model::strs_view(ss@)),
            None => dec_str_list(v@) is None,
        },
{
    let items = match v.as_array() {
        Some(items) => items,
        None => {
            return None;
        },
    };
    proof {
        crate::json::lemma_views_of_index(items@);
    }
    let ghost iv = JsonValue::views_of(items@);
    let mut out: Vec<String> = Vec::new();
    let n = items.len();
    let mut i: usize = 0;
    proof {
        assert(iv.skip(0) =~= iv);
    }
    while i < n
        invariant
            0 <= i <= n,
            n == items@.len(),
            iv == JsonValue::views_of(items@),
            iv.len() == n,
            v@ == JsonVal::Arr(iv),
            forall|k: int| 0 <= k < n ==> iv[k] == #[trigger] items@[k].view_rec(),
            dec_str_items(iv) == (match dec_str_items(iv.skip(i as int)) {
                Some(rest) => Some(crate::model::strs_view(out@) + rest),
                None => None::<Seq<Seq<char>>>,
            }),
        decreases n - i,
    {
        let s = match items[i].as_str_value() {
            Some(s) => s.clone(),
            None => {
                proof {
                    assert(iv.skip(i as int)[0] == iv[i as int]);
                    assert(dec_str_items(iv.skip(i as int)) is None);
                }
                return None;
            },
        };
        let ghost before = crate::model::strs_view(out@);
        out.push(s);
        proof {
            assert(crate::model::strs_view(out@) =~= before.push(iv[i as int]->Str_0));
            assert(iv.skip(i as int)[0] == iv[i as int]);
            assert(iv.skip(i as int).drop_first() =~= iv.skip(i + 1));
            assert(dec_str_items(iv.skip(i as int)) == (match dec_str_items(iv.skip(i + 1)) {
                Some(rest) => Some(seq![iv[i as int]->Str_0] + rest),
                None => None::<Seq<Seq<char>>>,
            }));
            if dec_str_items(iv.skip(i + 1)) is Some {
                assert(before + (seq![iv[i as int]->Str_0] + dec_str_items(iv.skip(i + 1))->0)
                    =~= crate::model::strs_view(out@) + dec_str_items(iv.skip(i + 1))->0);
            }
        }
        i += 1;
    }
    proof {
        assert(iv.skip(n as int) =~= Seq::<JsonVal>::empty());
        assert(dec_str_items(Seq::<JsonVal>::empty()) == Some(Seq::<Seq<char>>::empty()));
        assert(crate::model::strs_view(out@) + Seq::<Seq<char>>::empty() =~= crate::model::strs_view(
            out@,
        ));
    }
    Some(out)
}

/// The document field list an executable object builder produces.
pub open spec fn fv(fields: Seq<(String, JsonValue)>) -> Seq<(Seq<char>, JsonVal)> {
    JsonValue::field_views_of(fields)
}

/// A parameter location as its label.
pub open spec fn enc_location(l: ParameterLocation) -> Seq<char> {
    match l {
        ParameterLocation::Path => "path"@,
        ParameterLocation::Query => "query"@,
        ParameterLocation::Header => "header"@,
        ParameterLocation::Cookie => "cookie"@,
    }
}

pub open spec fn dec_location(s: Seq<char>) -> Option<ParameterLocation> {
    if s == "path"@ {
        Some(ParameterLocation::Path)
    } else if s == "query"@ {
        Some(ParameterLocation::Query)
    } else if s == "header"@ {
        Some(ParameterLocation::Header)
    } else if s == "cookie"@ {
        Some(ParameterLocation::Cookie)
    } else {
        None
    }
}

proof fn lemma_location_round_trip(l: ParameterLocation)
    ensures
        dec_location(enc_location(l)) == Some(l),
{
    reveal_strlit("path");
    reveal_strlit("query");
    reveal_strlit("header");
    reveal_strlit("cookie");
    assert("path"@.len() == 4);
    assert("query"@.len() == 5);
    assert("header"@.len() == 6);
    assert("cookie"@.len() == 6);
    assert("header"@[0] == 'h');
    assert("cookie"@[0] == 'c');
}

fn location_label(l: ParameterLocation) -> (r: &'static str)
    ensures
        r@ == enc_location(l),
{
    match l {
        ParameterLocation::Path => "path",
        ParameterLocation::Query => "query",
        ParameterLocation::Header => "header",
        ParameterLocation::Cookie => "cookie",
    }
}

fn location_from_label(s: &str) -> (r: Option<ParameterLocation>)
    ensures
        r == dec_location(s@),
{
    if str_eq(s, "path") {
        Some(ParameterLocation::Path)
    } else if str_eq(s, "query") {
        Some(ParameterLocation::Query)
    } else if str_eq(s, "header") {
        Some(ParameterLocation::Header)
    } else if str_eq(s, "cookie") {
        Some(ParameterLocation::Cookie)
    } else {
        None
    }
}

/// An HTTP method as its upper-case name.
pub open spec fn dec_method(s: Seq<char>) -> Option<HttpMethod> {
    if s == "GET"@ {
        Some(HttpMethod::Get)
    } else if s == "POST"@ {
        Some(HttpMethod::Post)
    } else if s == "PUT"@ {
        Some(HttpMethod::Put)
    } else if s == "PATCH"@ {
        Some(HttpMethod::Patch)
    } else if s == "DELETE"@ {
        Some(HttpMethod::Delete)
    } else if s == "HEAD"@ {
        Some(HttpMethod::Head)
    } else if s == "OPTIONS"@ {
        Some(HttpMethod::Options)
    } else if s == "TRACE"@ {
        Some(HttpMethod::Trace)
    } else {
        None
    }
}

proof fn lemma_method_round_trip(m: HttpMethod)
    ensures
        dec_method(m.name_of()) == Some(m),
{
    reveal_strlit("GET");
    reveal_strlit("POST");
    reveal_strlit("PUT");
    reveal_strlit("PATCH");
    reveal_strlit("DELETE");
    reveal_strlit("HEAD");
    reveal_strlit("TRACE");
    reveal_strlit("OPTIONS");
    assert("GET"@.len() == 3);
    assert("POST"@.len() == 4);
    assert("PUT"@.len() == 3);
    assert("PATCH"@.len() == 5);
    assert("DELETE"@.len() == 6);
    assert("HEAD"@.len() == 4);
    assert("OPTIONS"@.len() == 7);
    assert("TRACE"@.len() == 5);
    assert("GET"@[0] == 'G');
    assert("PUT"@[0] == 'P');
    assert("POST"@[0] == 'P');
    assert("HEAD"@[0] == 'H');
    assert("POST"@[1] == 'O');
    assert("PATCH"@[1] == 'A');
    assert("TRACE"@[1] == 'R');
}

fn method_from_label(s: &str) -> (r: Option<HttpMethod>)
    ensures
        r == dec_method(s@),
{
    if str_eq(s, "GET") {
        Some(HttpMethod::Get)
    } else if str_eq(s, "POST") {
        Some(HttpMethod::Post)
    } else if str_eq(s, "PUT") {
        Some(HttpMethod::Put)
    } else if str_eq(s, "PATCH") {
        Some(HttpMethod::Patch)
    } else if str_eq(s, "DELETE") {
        Some(HttpMethod::Delete)
    } else if str_eq(s, "HEAD") {
        Some(HttpMethod::Head)
    } else if str_eq(s, "OPTIONS") {
        Some(HttpMethod::Options)
    } else if str_eq(s, "TRACE") {
        Some(HttpMethod::Trace)
    } else {
        None
    }
}

/// A parameter as a keyed document object.
pub open spec fn enc_parameter(p: ParameterV) -> JsonVal {
    JsonVal::Obj(
        seq![
            ("name"@, JsonVal::Str(p.name)),
            ("location"@, JsonVal::Str(enc_location(p.location))),
            ("required"@, JsonVal::Bool(p.required)),
            ("description"@, enc_opt_str(p.description)),
            ("schema_ref"@, enc_opt_str(p.schema_ref)),
            ("schema_type"@, enc_opt_str(p.schema_type)),
        ],
    )
}

pub open spec fn dec_parameter(j: JsonVal) -> Option<ParameterV> {
    match (
        crate::json::obj_get_str(j, "name"@),
        crate::json::obj_get_str(j, "location"@),
        crate::json::obj_get_bool(j, "required"@),
        obj_get(j, "description"@),
        obj_get(j, "schema_ref"@),
        obj_get(j, "schema_type"@),
    ) {
        (Some(name), Some(loc), Some(required), Some(d), Some(sr), Some(st)) => {
            match (dec_location(loc), dec_opt_str(d), dec_opt_str(sr), dec_opt_str(st)) {
                (Some(location), Some(description), Some(schema_ref), Some(schema_type)) => Some(
                    ParameterV { name, location, required, description, schema_ref, schema_type },
                ),
                _ => None,
            }
        },
        _ => None,
    }
}

proof fn lemma_parameter_round_trip(p: ParameterV)
    ensures
        dec_parameter(enc_parameter(p)) == Some(p),
{
    reveal_strlit("name");
    reveal_strlit("location");
    reveal_strlit("required");
    reveal_strlit("description");
    reveal_strlit("schema_ref");
    reveal_strlit("schema_type");
    assert("name"@.len() == 4);
    assert("location"@.len() == 8);
    assert("required"@.len() == 8);
    assert("description"@.len() == 11);
    assert("schema_ref"@.len() == 10);
    assert("schema_type"@.len() == 11);
    assert("location"@[0] == 'l');
    assert("required"@[0] == 'r');
    assert("schema_type"@[7] == 't');
    assert("description"@[0] == 'd');
    lemma_location_round_trip(p.location);
    assert(dec_parameter(enc_parameter(p)) =~= Some(p)) by {
        reveal_with_fuel(fields_get, 8);
    }
}

fn parameter_to_json(p: &Parameter) -> (r: JsonValue)
    ensures
        r@ == enc_parameter(p@),
{
    let mut fields: Vec<(String, JsonValue)> = Vec::new();
    fields.push((skey("name"), JsonValue::Str(p.name.clone())));
    fields.push((skey("location"), JsonValue::Str(skey(location_label(p.location)))));
    fields.push((skey("required"), JsonValue::Bool(p.required)));
    fields.push((skey("description"), opt_str_to_json(&p.description)));
    fields.push((skey("schema_ref"), opt_str_to_json(&p.schema_ref)));
    fields.push((skey("schema_type"), opt_str_to_json(&p.schema_type)));
    proof {
        crate::json::lemma_field_views_of_index(fields@);
        assert(fields@.len() == 6);
        assert(fields@[0].0@ == "name"@ && fields@[0].1.view_rec() == JsonVal::Str(p@.name));
        assert(fields@[1].0@ == "location"@ && fields@[1].1.view_rec() == JsonVal::Str(
            enc_location(p@.location),
        ));
        assert(fields@[2].0@ == "required"@ && fields@[2].1.view_rec() == JsonVal::Bool(
            p@.required,
        ));
        assert(fields@[3].0@ == "description"@ && fields@[3].1.view_rec() == enc_opt_str(
            p@.description,
        ));
        assert(fields@[4].0@ == "schema_ref"@ && fields@[4].1.view_rec() == enc_opt_str(
            p@.schema_ref,
        ));
        assert(fields@[5].0@ == "schema_type"@ && fields@[5].1.view_rec() == enc_opt_str(
            p@.schema_type,
        ));
        assert(fv(fields@) =~= enc_parameter(p@)->Obj_0);
    }
    JsonValue::Obj(fields)
}

fn parameter_from_json(j: &JsonValue) -> (r: Option<Parameter>)
    ensures
        match r {
            Some(p) => dec_parameter(j@) == Some(p@),
            None => dec_parameter(j@) is None,
        },
{
    let name = match j.get_str("name") {
        Some(s) => s.clone(),
        None => {
            return None;
        },
    };
    let location = match j.get_str("location") {
        Some(s) => match location_from_label(s.as_str()) {
            Some(l) => l,
            None => {
                return None;
            },
        },
        None => {
            return None;
        },
    };
    let required = match j.get_bool("required") {
        Some(b) => b,
        None => {
            return None;
        },
    };
    let description = match j.get("description") {
        Some(m) => match opt_str_from_json(m) {
            Some(o) => o,
            None => {
                return None;
            },
        },
        None => {
            return None;
        },
    };
    let schema_ref = match j.get("schema_ref") {
        Some(m) => match opt_str_from_json(m) {
            Some(o) => o,
            None => {
                return None;
            },
        },
        None => {
            return None;
        },
    };
    let schema_type = match j.get("schema_type") {
        Some(m) => match opt_str_from_json(m) {
            Some(o) => o,
            None => {
                return None;
            },
        },
        None => {
            return None;
        },
    };
    Some(Parameter { name, location, required, description, schema_ref, schema_type })
}

/// A request body as a keyed document object.
pub open spec fn enc_body(b: RequestBodyV) -> JsonVal {
    JsonVal::Obj(
        seq![
            ("required"@, JsonVal::Bool(b.required)),
            ("description"@, enc_opt_str(b.description)),
            ("content_types"@, enc_str_list(b.content_types)),
            ("schema_ref"@, enc_opt_str(b.schema_ref)),
        ],
    )
}

pub open spec fn dec_body(j: JsonVal) -> Option<RequestBodyV> {
    match (
        crate::json::obj_get_bool(j, "required"@),
        obj_get(j, "description"@),
        obj_get(j, "content_types"@),
        obj_get(j, "schema_ref"@),
    ) {
        (Some(required), Some(d), Some(ct), Some(sr)) => {
            match (dec_opt_str(d), dec_str_list(ct), dec_opt_str(sr)) {
                (Some(description), Some(content_types), Some(schema_ref)) => Some(
                    RequestBodyV { required, description, content_types, schema_ref },
                ),
                _ => None,
            }
        },
        _ => None,
    }
}

proof fn lemma_body_round_trip(b: RequestBodyV)
    ensures
        dec_body(enc_body(b)) == Some(b),
{
    reveal_strlit("required");
    reveal_strlit("description");
    reveal_strlit("content_types");
    reveal_strlit("schema_ref");
    assert("required"@.len() == 8);
    assert("description"@.len() == 11);
    assert("content_types"@.len() == 13);
    assert("schema_ref"@.len() == 10);
    lemma_str_list_round_trip(b.content_types);
    assert(dec_body(enc_body(b)) =~= Some(b)) by {
        reveal_with_fuel(fields_get, 6);
    }
}

fn body_to_json(b: &RequestBody) -> (r: JsonValue)
    ensures
        r@ == enc_body(b@),
{
    let mut fields: Vec<(String, JsonValue)> = Vec::new();
    fields.push((skey("required"), JsonValue::Bool(b.required)));
    fields.push((skey("description"), opt_str_to_json(&b.description)));
    fields.push((skey("content_types"), str_list_to_json(&b.content_types)));
    fields.push((skey("schema_ref"), opt_str_to_json(&b.schema_ref)));
    proof {
        crate::json::lemma_field_views_of_index(fields@);
        assert(fields@.len() == 4);
        assert(fields@[0].0@ == "required"@ && fields@[0].1.view_rec() == JsonVal::Bool(
            b@.required,
        ));
        assert(fields@[1].0@ == "description"@ && fields@[1].1.view_rec() == enc_opt_str(
            b@.description,
        ));
        assert(fields@[2].0@ == "content_types"@ && fields@[2].1.view_rec() == enc_str_list(
            b@.content_types,
        ));
        assert(fields@[3].0@ == "schema_ref"@ && fields@[3].1.view_rec() == enc_opt_str(
            b@.schema_ref,
        ));
        assert(fv(fields@) =~= enc_body(b@)->Obj_0);
    }
    JsonValue::Obj(fields)
}

fn body_from_json(j: &JsonValue) -> (r: Option<RequestBody>)
    ensures
        match r {
            Some(b) => dec_body(j@) == Some(b@),
            None => dec_body(j@) is None,
        },
{
    let required = match j.get_bool("required") {
        Some(b) => b,
        None => {
            return None;
        },
    };
    let description = match j.get("description") {
        Some(m) => match opt_str_from_json(m) {
            Some(o) => o,
            None => {
                return None;
            },
        },
        None => {
            return None;
        },
    };
    let content_types = match j.get("content_types") {
        Some(m) => match str_list_from_json(m) {
            Some(l) => l,
            None => {
                return None;
            },
        },
        None => {
            return None;
        },
    };
    let schema_ref = match j.get("schema_ref") {
        Some(m) => match opt_str_from_json(m) {
            Some(o) => o,
            None => {
                return None;
            },
        },
        None => {
            return None;
        },
    };
    Some(RequestBody { required, description, content_types, schema_ref })
}

/// A response as a keyed document object.
pub open spec fn enc_response(x: ResponseV) -> JsonVal {
    JsonVal::Obj(
        seq![
            ("status_code"@, JsonVal::Str(x.status_code)),
            ("description"@, enc_opt_str(x.description)),
            ("content_types"@, enc_str_list(x.content_types)),
            ("schema_ref"@, enc_opt_str(x.schema_ref)),
        ],
    )
}

pub open spec fn dec_response(j: JsonVal) -> Option<ResponseV> {
    match (
        crate::json::obj_get_str(j, "status_code"@),
        obj_get(j, "description"@),
        obj_get(j, "content_types"@),
        obj_get(j, "schema_ref"@),
    ) {
        (Some(status_code), Some(d), Some(ct), Some(sr)) => {
            match (dec_opt_str(d), dec_str_list(ct), dec_opt_str(sr)) {
                (Some(description), Some(content_types), Some(schema_ref)) => Some(
                    ResponseV { status_code, description, content_types, schema_ref },
                ),
                _ => None,
            }
        },
        _ => None,
    }
}

proof fn lemma_response_round_trip(x: ResponseV)
    ensures
        dec_response(enc_response(x)) == Some(x),
{
    reveal_strlit("status_code");
    reveal_strlit("description");
    reveal_strlit("content_types");
    reveal_strlit("schema_ref");
    assert("status_code"@.len() == 11);
    assert("description"@.len() == 11);
    assert("content_types"@.len() == 13);
    assert("schema_ref"@.len() == 10);
    assert("status_code"@[0] == 's');
    assert("description"@[0] == 'd');
    lemma_str_list_round_trip(x.content_types);
    assert(dec_response(enc_response(x)) =~= Some(x)) by {
        reveal_with_fuel(fields_get, 6);
    }
}

fn response_to_json(x: &Response) -> (r: JsonValue)
    ensures
        r@ == enc_response(x@),
{
    let mut fields: Vec<(String, JsonValue)> = Vec::new();
    fields.push((skey("status_code"), JsonValue::Str(x.status_code.clone())));
    fields.push((skey("description"), opt_str_to_json(&x.description)));
    fields.push((skey("content_types"), str_list_to_json(&x.content_types)));
    fields.push((skey("schema_ref"), opt_str_to_json(&x.schema_ref)));
    proof {
        crate::json::lemma_field_views_of_index(fields@);
        assert(fields@.len() == 4);
        assert(fields@[0].0@ == "status_code"@ && fields@[0].1.view_rec() == JsonVal::Str(
            x@.status_code,
        ));
        assert(fields@[1].0@ == "description"@ && fields@[1].1.view_rec() == enc_opt_str(
            x@.description,
        ));
        assert(fields@[2].0@ == "content_types"@ && fields@[2].1.view_rec() == enc_str_list(
            x@.content_types,
        ));
        assert(fields@[3].0@ == "schema_ref"@ && fields@[3].1.view_rec() == enc_opt_str(
            x@.schema_ref,
        ));
        assert(fv(fields@) =~= enc_response(x@)->Obj_0);
    }
    JsonValue::Obj(fields)
}

fn response_from_json(j: &JsonValue) -> (r: Option<Response>)
    ensures
        match r {
            Some(x) => dec_response(j@) == Some(x@),
            None => dec_response(j@) is None,
        },
{
    let status_code = match j.get_str("status_code") {
        Some(s) => s.clone(),
        None => {
            return None;
        },
    };
    let description = match j.get("description") {
        Some(m) => match opt_str_from_json(m) {
            Some(o) => o,
            None => {
                return None;
            },
        },
        None => {
            return None;
        },
    };
    let content_types = match j.get("content_types") {
        Some(m) => match str_list_from_json(m) {
            Some(l) => l,
            None => {
                return None;
            },
        },
        None => {
            return None;
        },
    };
    let schema_ref = match j.get("schema_ref") {
        Some(m) => match opt_str_from_json(m) {
            Some(o) => o,
            None => {
                return None;
            },
        },
        None => {
            return None;
        },
    };
    Some(Response { status_code, description, content_types, schema_ref })
}

/// A schema shape as a kind-tagged document object.
pub open spec fn enc_schema_type(t: SchemaTypeV) -> JsonVal
    decreases t, 1int,
{
    match t {
        SchemaTypeV::Ref { reference } => JsonVal::Obj(
            seq![("kind"@, JsonVal::Str("ref"@)), ("reference"@, JsonVal::Str(reference))],
        ),
        SchemaTypeV::OneOf { variants } => JsonVal::Obj(
            seq![
                ("kind"@, JsonVal::Str("one_of"@)),
                ("variants"@, JsonVal::Arr(enc_st_list(variants))),
            ],
        ),
        SchemaTypeV::AnyOf { variants } => JsonVal::Obj(
            seq![
                ("kind"@, JsonVal::Str("any_of"@)),
                ("variants"@, JsonVal::Arr(enc_st_list(variants))),
            ],
        ),
        SchemaTypeV::AllOf { variants } => JsonVal::Obj(
            seq![
                ("kind"@, JsonVal::Str("all_of"@)),
                ("variants"@, JsonVal::Arr(enc_st_list(variants))),
            ],
        ),
        SchemaTypeV::Text { format, enum_values } => JsonVal::Obj(
            seq![
                ("kind"@, JsonVal::Str("string"@)),
                ("format"@, enc_opt_str(format)),
                (
                    "enum_values"@,
                    match enum_values {
                        Some(vs) => enc_str_list(vs),
                        None => JsonVal::Null,
                    },
                ),
            ],
        ),
        SchemaTypeV::Number { format } => JsonVal::Obj(
            seq![("kind"@, JsonVal::Str("number"@)), ("format"@, enc_opt_str(format))],
        ),
        SchemaTypeV::Integer { format } => JsonVal::Obj(
            seq![("kind"@, JsonVal::Str("integer"@)), ("format"@, enc_opt_str(format))],
        ),
        SchemaTypeV::Boolean => JsonVal::Obj(seq![("kind"@, JsonVal::Str("boolean"@))]),
        SchemaTypeV::Array { items } => JsonVal::Obj(
            seq![("kind"@, JsonVal::Str("array"@)), ("items"@, enc_schema_type(*items))],
        ),
        SchemaTypeV::Object { properties, required } => JsonVal::Obj(
            seq![
                ("kind"@, JsonVal::Str("object"@)),
                ("properties"@, JsonVal::Obj(enc_st_props(properties))),
                ("required"@, enc_str_list(required)),
            ],
        ),
        SchemaTypeV::Unknown => JsonVal::Obj(seq![("kind"@, JsonVal::Str("unknown"@))]),
    }
}

pub open spec fn enc_st_list(ts: Seq<SchemaTypeV>) -> Seq<JsonVal>
    decreases ts, 2int,
{
    if ts.len() == 0 {
        Seq::empty()
    } else {
        seq![enc_schema_type(ts[0])] + enc_st_list(ts.drop_first())
    }
}

pub open spec fn enc_st_props(ps: Seq<(Seq<char>, SchemaTypeV)>) -> Seq<(Seq<char>, JsonVal)>
    decreases ps, 2int,
{
    if ps.len() == 0 {
        Seq::empty()
    } else {
        seq![(ps[0].0, enc_schema_type(ps[0].1))] + enc_st_props(ps.drop_first())
    }
}

/// Reads a kind-tagged shape back.
pub open spec fn dec_schema_type(j: JsonVal) -> Option<SchemaTypeV>
    decreases j, 1int,
{
    match crate::json::obj_get_str(j, "kind"@) {
        Some(kind) => if kind == "ref"@ {
            match crate::json::obj_get_str(j, "reference"@) {
                Some(reference) => Some(SchemaTypeV::Ref { reference }),
                None => None,
            }
        } else if kind == "one_of"@ || kind == "any_of"@ || kind == "all_of"@ {
            match obj_get(j, "variants"@) {
                Some(JsonVal::Arr(items)) => {
                    proof {
                        crate::json::lemma_obj_get_decreases(j, "variants"@);
                        let m = obj_get(j, "variants"@)->0;
                        assert(decreases_to!(m => m->Arr_0));
                    }
                    match dec_st_list(items) {
                        Some(variants) => if kind == "one_of"@ {
                            Some(SchemaTypeV::OneOf { variants })
                        } else if kind == "any_of"@ {
                            Some(SchemaTypeV::AnyOf { variants })
                        } else {
                            Some(SchemaTypeV::AllOf { variants })
                        },
                        None => None,
                    }
                },
                _ => None,
            }
        } else if kind == "string"@ {
            match (obj_get(j, "format"@), obj_get(j, "enum_values"@)) {
                (Some(f), Some(ev)) => match (
                    dec_opt_str(f),
                    match ev {
                        JsonVal::Null => Some(None),
                        _ => match dec_str_list(ev) {
                            Some(vs) => Some(Some(vs)),
                            None => None,
                        },
                    },
                ) {
                    (Some(format), Some(enum_values)) => Some(
                        SchemaTypeV::Text { format, enum_values },
                    ),
                    _ => None,
                },
                _ => None,
            }
        } else if kind == "number"@ {
            match obj_get(j, "format"@) {
                Some(f) => match dec_opt_str(f) {
                    Some(format) => Some(SchemaTypeV::Number { format }),
                    None => None,
                },
                None => None,
            }
        } else if kind == "integer"@ {
            match obj_get(j, "format"@) {
                Some(f) => match dec_opt_str(f) {
                    Some(format) => Some(SchemaTypeV::Integer { format }),
                    None => None,
                },
                None => None,
            }
        } else if kind == "boolean"@ {
            Some(SchemaTypeV::Boolean)
        } else if kind == "array"@ {
            match obj_get(j, "items"@) {
                Some(inner) => {
                    proof {
                        crate::json::lemma_obj_get_decreases(j, "items"@);
                    }
                    match dec_schema_type(inner) {
                        Some(t) => Some(SchemaTypeV::Array { items: Box::new(t) }),
                        None => None,
                    }
                },
                None => None,
            }
        } else if kind == "object"@ {
            match (obj_get(j, "properties"@), obj_get(j, "required"@)) {
                (Some(JsonVal::Obj(pf)), Some(rq)) => {
                    proof {
                        crate::json::lemma_obj_get_decreases(j, "properties"@);
                        let m = obj_get(j, "properties"@)->0;
                        assert(decreases_to!(m => m->Obj_0));
                    }
                    match (dec_st_props(pf), dec_str_list(rq)) {
                        (Some(properties), Some(required)) => Some(
                            SchemaTypeV::Object { properties, required },
                        ),
                        _ => None,
                    }
                },
                _ => None,
            }
        } else if kind == "unknown"@ {
            Some(SchemaTypeV::Unknown)
        } else {
            None
        },
        None => None,
    }
}

pub open spec fn dec_st_list(items: Seq<JsonVal>) -> Option<Seq<SchemaTypeV>>
    decreases items, 2int,
{
    if items.len() == 0 {
        Some(Seq::empty())
    } else {
        match (dec_schema_type(items[0]), dec_st_list(items.drop_first())) {
            (Some(t), Some(rest)) => Some(seq![t] + rest),
            _ => None,
        }
    }
}

pub open spec fn dec_st_props(pf: Seq<(Seq<char>, JsonVal)>) -> Option<
    Seq<(Seq<char>, SchemaTypeV)>,
>
    decreases pf, 2int,
{
    if pf.len() == 0 {
        Some(Seq::empty())
    } else {
        match (dec_schema_type(pf[0].1), dec_st_props(pf.drop_first())) {
            (Some(t), Some(rest)) => Some(seq![(pf[0].0, t)] + rest),
            _ => None,
        }
    }
}

/// The kind tags are pairwise distinct.
proof fn lemma_kind_tags_distinct()
    ensures
        "ref"@ != "one_of"@,
        "one_of"@ != "any_of"@,
        "one_of"@ != "all_of"@,
        "one_of"@ != "string"@,
        "one_of"@ != "number"@,
        "one_of"@ != "object"@,
        "any_of"@ != "all_of"@,
        "any_of"@ != "string"@,
        "any_of"@ != "number"@,
        "any_of"@ != "object"@,
        "all_of"@ != "string"@,
        "all_of"@ != "number"@,
        "all_of"@ != "object"@,
        "string"@ != "number"@,
        "string"@ != "object"@,
        "number"@ != "object"@,
        "integer"@ != "boolean"@,
        "integer"@ != "unknown"@,
        "boolean"@ != "unknown"@,
        "ref"@.len() == 3,
        "array"@.len() == 5,
        "one_of"@.len() == 6,
        "any_of"@.len() == 6,
        "all_of"@.len() == 6,
        "string"@.len() == 6,
        "number"@.len() == 6,
        "object"@.len() == 6,
        "integer"@.len() == 7,
        "boolean"@.len() == 7,
        "unknown"@.len() == 7,
        "kind"@ != "reference"@,
        "kind"@ != "variants"@,
        "kind"@ != "format"@,
        "kind"@ != "enum_values"@,
        "kind"@ != "items"@,
        "kind"@ != "properties"@,
        "kind"@ != "required"@,
        "format"@ != "enum_values"@,
        "properties"@ != "required"@,
{
    reveal_strlit("ref");
    reveal_strlit("one_of");
    reveal_strlit("any_of");
    reveal_strlit("all_of");
    reveal_strlit("string");
    reveal_strlit("number");
    reveal_strlit("object");
    reveal_strlit("integer");
    reveal_strlit("boolean");
    reveal_strlit("unknown");
    reveal_strlit("array");
    reveal_strlit("kind");
    reveal_strlit("reference");
    reveal_strlit("variants");
    reveal_strlit("format");
    reveal_strlit("enum_values");
    reveal_strlit("items");
    reveal_strlit("properties");
    reveal_strlit("required");
    assert("one_of"@[0] == 'o' && "any_of"@[0] == 'a' && "all_of"@[0] == 'a');
    assert("string"@[0] == 's' && "number"@[0] == 'n' && "object"@[0] == 'o');
    assert("one_of"@[1] == 'n' && "object"@[1] == 'b');
    assert("any_of"@[1] == 'n' && "all_of"@[1] == 'l');
    assert("integer"@[0] == 'i' && "boolean"@[0] == 'b' && "unknown"@[0] == 'u');
    assert("kind"@.len() == 4 && "items"@.len() == 5 && "format"@.len() == 6);
    assert("kind"@[0] == 'k' && "items"@[0] == 'i' && "format"@[0] == 'f');
    assert("reference"@.len() == 9 && "variants"@.len() == 8 && "enum_values"@.len() == 11);
    assert("properties"@.len() == 10 && "required"@.len() == 8);
    assert("variants"@[0] == 'v' && "required"@[0] == 'r');
}

/// Reading a written shape back restores it.
pub proof fn lemma_schema_type_round_trip(t: SchemaTypeV)
    ensures
        dec_schema_type(enc_schema_type(t)) == Some(t),
    decreases t, 1int,
{
    reveal_strlit("kind");
    reveal_strlit("reference");
    reveal_strlit("variants");
    reveal_strlit("format");
    reveal_strlit("enum_values");
    reveal_strlit("items");
    reveal_strlit("properties");
    reveal_strlit("required");
    reveal_strlit("ref");
    reveal_strlit("one_of");
    reveal_strlit("any_of");
    reveal_strlit("all_of");
    reveal_strlit("string");
    reveal_strlit("number");
    reveal_strlit("integer");
    reveal_strlit("boolean");
    reveal_strlit("array");
    reveal_strlit("object");
    reveal_strlit("unknown");
    lemma_kind_tags_distinct();
    match t {
        SchemaTypeV::Ref { reference } => {
            assert(dec_schema_type(enc_schema_type(t)) =~= Some(t)) by {
                reveal_with_fuel(fields_get, 4);
            }
        },
        SchemaTypeV::OneOf { variants } => {
            proof_st_list(variants, t);
        },
        SchemaTypeV::AnyOf { variants } => {
            proof_st_list(variants, t);
        },
        SchemaTypeV::AllOf { variants } => {
            proof_st_list(variants, t);
        },
        SchemaTypeV::Text { format, enum_values } => {
            match enum_values {
                Some(vs) => {
                    lemma_str_list_round_trip(vs);
                },
                None => {},
            }
            let j = enc_schema_type(t);
            assert(obj_get(j, "kind"@) == Some(JsonVal::Str("string"@))) by {
                reveal_with_fuel(fields_get, 5);
            }
            assert(obj_get(j, "format"@) == Some(enc_opt_str(format))) by {
                reveal_with_fuel(fields_get, 5);
            }
            assert(obj_get(j, "enum_values"@) == Some(
                match enum_values {
                    Some(vs) => enc_str_list(vs),
                    None => JsonVal::Null,
                },
            )) by {
                reveal_with_fuel(fields_get, 5);
            }
            assert(dec_schema_type(enc_schema_type(t)) =~= Some(t));
        },
        SchemaTypeV::Number { format } => {
            assert(dec_schema_type(enc_schema_type(t)) =~= Some(t)) by {
                reveal_with_fuel(fields_get, 4);
            }
        },
        SchemaTypeV::Integer { format } => {
            assert(dec_schema_type(enc_schema_type(t)) =~= Some(t)) by {
                reveal_with_fuel(fields_get, 4);
            }
        },
        SchemaTypeV::Boolean => {
            assert(dec_schema_type(enc_schema_type(t)) =~= Some(t)) by {
                reveal_with_fuel(fields_get, 3);
            }
        },
        SchemaTypeV::Array { items } => {
            assert(decreases_to!(t => t->Array_items));
            lemma_schema_type_round_trip(*items);
            assert(dec_schema_type(enc_schema_type(t)) =~= Some(t)) by {
                reveal_with_fuel(fields_get, 4);
            }
        },
        SchemaTypeV::Object { properties, required } => {
            assert(decreases_to!(t => t->Object_properties));
            assert(t->Object_properties == properties);
            lemma_st_props_round_trip(properties);
            lemma_str_list_round_trip(required);
            assert(dec_schema_type(enc_schema_type(t)) =~= Some(t)) by {
                reveal_with_fuel(fields_get, 5);
            }
        },
        SchemaTypeV::Unknown => {
            assert(dec_schema_type(enc_schema_type(t)) =~= Some(t)) by {
                reveal_with_fuel(fields_get, 3);
            }
        },
    }
}

/// Helper for the variant-list cases.
proof fn proof_st_list(variants: Seq<SchemaTypeV>, t: SchemaTypeV)
    requires
        t == (SchemaTypeV::OneOf { variants }) || t == (SchemaTypeV::AnyOf { variants }) || t == (
        SchemaTypeV::AllOf { variants }),
    ensures
        dec_schema_type(enc_schema_type(t)) == Some(t),
    decreases t, 0int,
{
    reveal_strlit("kind");
    reveal_strlit("variants");
    reveal_strlit("ref");
    reveal_strlit("one_of");
    reveal_strlit("any_of");
    reveal_strlit("all_of");
    lemma_kind_tags_distinct();
    assert(decreases_to!(t => variants)) by {
        if t is OneOf {
            assert(decreases_to!(t => t->OneOf_variants));
        } else if t is AnyOf {
            assert(decreases_to!(t => t->AnyOf_variants));
        } else {
            assert(decreases_to!(t => t->AllOf_variants));
        }
    }
    lemma_st_list_round_trip(variants);
    assert(dec_schema_type(enc_schema_type(t)) =~= Some(t)) by {
        reveal_with_fuel(fields_get, 4);
    }
}

proof fn lemma_st_list_round_trip(ts: Seq<SchemaTypeV>)
    ensures
        dec_st_list(enc_st_list(ts)) == Some(ts),
    decreases ts, 2int,
{
    if ts.len() > 0 {
        assert(decreases_to!(ts => ts[0]));
        lemma_schema_type_round_trip(ts[0]);
        lemma_st_list_round_trip(ts.drop_first());
        assert(enc_st_list(ts)[0] == enc_schema_type(ts[0]));
        assert(enc_st_list(ts).drop_first() =~= enc_st_list(ts.drop_first()));
        assert(seq![ts[0]] + ts.drop_first() =~= ts);
    }
}

proof fn lemma_st_props_round_trip(ps: Seq<(Seq<char>, SchemaTypeV)>)
    ensures
        dec_st_props(enc_st_props(ps)) == Some(ps),
    decreases ps, 2int,
{
    if ps.len() > 0 {
        assert(decreases_to!(ps => ps[0]));
        assert(decreases_to!(ps[0] => ps[0].1));
        lemma_schema_type_round_trip(ps[0].1);
        lemma_st_props_round_trip(ps.drop_first());
        assert(enc_st_props(ps)[0] == (ps[0].0, enc_schema_type(ps[0].1)));
        assert(enc_st_props(ps).drop_first() =~= enc_st_props(ps.drop_first()));
        assert(seq![ps[0]] + ps.drop_first() =~= ps);
    }
}

/// Writes a shape as a document value.
fn schema_type_to_json(t: &SchemaType) -> (r: JsonValue)
    ensures
        r@ == enc_schema_type(t@),
    decreases *t, 1int,
{
    match t {
        SchemaType::Ref { reference } => {
            let mut fields: Vec<(String, JsonValue)> = Vec::new();
            fields.push((skey("kind"), JsonValue::Str(skey("ref"))));
            fields.push((skey("reference"), JsonValue::Str(reference.clone())));
            proof {
                crate::json::lemma_field_views_of_index(fields@);
                assert(fields@.len() == 2);
                assert(fields@[0].0@ == "kind"@ && fields@[0].1.view_rec() == JsonVal::Str(
                    "ref"@,
                ));
                assert(fields@[1].0@ == "reference"@ && fields@[1].1.view_rec() == JsonVal::Str(
                    reference@,
                ));
                assert(fv(fields@) =~= enc_schema_type(t@)->Obj_0);
            }
            JsonValue::Obj(fields)
        },
        SchemaType::OneOf { variants } => {
            proof {
                assert(decreases_to!(*t => (*t)->OneOf_variants));
                assert((*t)->OneOf_variants == *variants);
            }
            let vs = st_list_to_json(variants);
            variant_obj("one_of", vs, Ghost(enc_schema_type(t@)))
        },
        SchemaType::AnyOf { variants } => {
            proof {
                assert(decreases_to!(*t => (*t)->AnyOf_variants));
                assert((*t)->AnyOf_variants == *variants);
            }
            let vs = st_list_to_json(variants);
            variant_obj("any_of", vs, Ghost(enc_schema_type(t@)))
        },
        SchemaType::AllOf { variants } => {
            proof {
                assert(decreases_to!(*t => (*t)->AllOf_variants));
                assert((*t)->AllOf_variants == *variants);
            }
            let vs = st_list_to_json(variants);
            variant_obj("all_of", vs, Ghost(enc_schema_type(t@)))
        },
        SchemaType::Text { format, enum_values } => {
            let mut fields: Vec<(String, JsonValue)> = Vec::new();
            fields.push((skey("kind"), JsonValue::Str(skey("string"))));
            fields.push((skey("format"), opt_str_to_json(format)));
            let ev = match enum_values {
                Some(vs) => str_list_to_json(vs),
                None => JsonValue::Null,
            };
            fields.push((skey("enum_values"), ev));
            proof {
                crate::json::lemma_field_views_of_index(fields@);
                assert(fields@.len() == 3);
                assert(fields@[0].0@ == "kind"@ && fields@[0].1.view_rec() == JsonVal::Str(
                    "string"@,
                ));
                assert(fields@[1].0@ == "format"@ && fields@[1].1.view_rec() == enc_opt_str(
                    crate::model::opt_view(*format),
                ));
                assert(fields@[2].0@ == "enum_values"@);
                assert(fv(fields@) =~= enc_schema_type(t@)->Obj_0);
            }
            JsonValue::Obj(fields)
        },
        SchemaType::Number { format } => {
            let mut fields: Vec<(String, JsonValue)> = Vec::new();
            fields.push((skey("kind"), JsonValue::Str(skey("number"))));
            fields.push((skey("format"), opt_str_to_json(format)));
            proof {
                crate::json::lemma_field_views_of_index(fields@);
                assert(fields@.len() == 2);
                assert(fields@[0].0@ == "kind"@ && fields@[0].1.view_rec() == JsonVal::Str(
                    "number"@,
                ));
                assert(fields@[1].0@ == "format"@ && fields@[1].1.view_rec() == enc_opt_str(
                    crate::model::opt_view(*format),
                ));
                assert(fv(fields@) =~= enc_schema_type(t@)->Obj_0);
            }
            JsonValue::Obj(fields)
        },
        SchemaType::Integer { format } => {
            let mut fields: Vec<(String, JsonValue)> = Vec::new();
            fields.push((skey("kind"), JsonValue::Str(skey("integer"))));
            fields.push((skey("format"), opt_str_to_json(format)));
            proof {
                crate::json::lemma_field_views_of_index(fields@);
                assert(fields@.len() == 2);
                assert(fields@[0].0@ == "kind"@ && fields@[0].1.view_rec() == JsonVal::Str(
                    "integer"@,
                ));
                assert(fields@[1].0@ == "format"@ && fields@[1].1.view_rec() == enc_opt_str(
                    crate::model::opt_view(*format),
                ));
                assert(fv(fields@) =~= enc_schema_type(t@)->Obj_0);
            }
            JsonValue::Obj(fields)
        },
        SchemaType::Boolean => {
            let mut fields: Vec<(String, JsonValue)> = Vec::new();
            fields.push((skey("kind"), JsonValue::Str(skey("boolean"))));
            proof {
                crate::json::lemma_field_views_of_index(fields@);
                assert(fields@.len() == 1);
                assert(fields@[0].0@ == "kind"@ && fields@[0].1.view_rec() == JsonVal::Str(
                    "boolean"@,
                ));
                assert(fv(fields@) =~= enc_schema_type(t@)->Obj_0);
            }
            JsonValue::Obj(fields)
        },
        SchemaType::Array { items } => {
            proof {
                assert(decreases_to!(*t => (*t)->Array_items));
            }
            let inner = schema_type_to_json(items);
            let mut fields: Vec<(String, JsonValue)> = Vec::new();
            fields.push((skey("kind"), JsonValue::Str(skey("array"))));
            fields.push((skey("items"), inner));
            proof {
                crate::json::lemma_field_views_of_index(fields@);
                assert(fields@.len() == 2);
                assert(fields@[0].0@ == "kind"@ && fields@[0].1.view_rec() == JsonVal::Str(
                    "array"@,
                ));
                assert(fields@[1].0@ == "items"@ && fields@[1].1.view_rec() == enc_schema_type(
                    *(t@->Array_items),
                ));
                assert(fv(fields@) =~= enc_schema_type(t@)->Obj_0);
            }
            JsonValue::Obj(fields)
        },
        SchemaType::Object { properties, required } => {
            proof {
                assert(decreases_to!(*t => (*t)->Object_properties));
                assert((*t)->Object_properties == *properties);
            }
            let props = st_props_to_json(properties);
            let mut fields: Vec<(String, JsonValue)> = Vec::new();
            fields.push((skey("kind"), JsonValue::Str(skey("object"))));
            fields.push((skey("properties"), JsonValue::Obj(props)));
            fields.push((skey("required"), str_list_to_json(required)));
            proof {
                crate::json::lemma_field_views_of_index(fields@);
                assert(fields@.len() == 3);
                assert(fields@[0].0@ == "kind"@ && fields@[0].1.view_rec() == JsonVal::Str(
                    "object"@,
                ));
                assert(fields@[1].0@ == "properties"@);
                assert(fields@[2].0@ == "required"@ && fields@[2].1.view_rec() == enc_str_list(
                    crate::model::strs_view(required@),
                ));
                assert(fv(fields@) =~= enc_schema_type(t@)->Obj_0);
            }
            JsonValue::Obj(fields)
        },
        SchemaType::Unknown => {
            let mut fields: Vec<(String, JsonValue)> = Vec::new();
            fields.push((skey("kind"), JsonValue::Str(skey("unknown"))));
            proof {
                crate::json::lemma_field_views_of_index(fields@);
                assert(fields@.len() == 1);
                assert(fields@[0].0@ == "kind"@ && fields@[0].1.view_rec() == JsonVal::Str(
                    "unknown"@,
                ));
                assert(fv(fields@) =~= enc_schema_type(t@)->Obj_0);
            }
            JsonValue::Obj(fields)
        },
    }
}

/// Builds a two-field variant-list object.
fn variant_obj(tag: &'static str, vs: Vec<JsonValue>, target: Ghost<JsonVal>) -> (r: JsonValue)
    requires
        target@ matches JsonVal::Obj(fs) && fs =~= seq![
            ("kind"@, JsonVal::Str(tag@)),
            ("variants"@, JsonVal::Arr(JsonValue::views_of(vs@))),
        ],
    ensures
        r@ == target@,
{
    let mut fields: Vec<(String, JsonValue)> = Vec::new();
    fields.push((skey("kind"), JsonValue::Str(skey(tag))));
    fields.push((skey("variants"), JsonValue::Arr(vs)));
    proof {
        crate::json::lemma_field_views_of_index(fields@);
        assert(fields@.len() == 2);
        assert(fields@[0].0@ == "kind"@ && fields@[0].1.view_rec() == JsonVal::Str(tag@));
        assert(fields@[1].0@ == "variants"@);
        assert(fv(fields@) =~= target@->Obj_0);
    }
    JsonValue::Obj(fields)
}

/// Writes each shape of a list.
fn st_list_to_json(ts: &Vec<SchemaType>) -> (r: Vec<JsonValue>)
    ensures
        JsonValue::views_of(r@) == enc_st_list(SchemaType::views_of(ts@)),
    decreases *ts, 2int,
{
    proof {
        crate::model::lemma_st_views_of_index(ts@);
    }
    let ghost tv = SchemaType::views_of(ts@);
    let mut out: Vec<JsonValue> = Vec::new();
    let n = ts.len();
    let mut i: usize = 0;
    proof {
        assert(tv.take(0) =~= Seq::<SchemaTypeV>::empty());
        assert(JsonValue::views_of(out@) =~= enc_st_list(tv.take(0)));
    }
    while i < n
        invariant
            0 <= i <= n,
            n == ts@.len(),
            tv == SchemaType::views_of(ts@),
            tv.len() == n,
            forall|k: int| 0 <= k < n ==> tv[k] == #[trigger] ts@[k].view_rec(),
            JsonValue::views_of(out@) == enc_st_list(tv.take(i as int)),
        decreases n - i,
    {
        proof {
            assert(decreases_to!(*ts => ts@));
            assert(decreases_to!(ts@ => ts@[i as int]));
            assert(decreases_to!(*ts, 2int => ts@[i as int], 1int));
        }
        let jv = schema_type_to_json(&ts[i]);
        let ghost before = out@;
        out.push(jv);
        proof {
            crate::json::lemma_views_of_index(before);
            crate::json::lemma_views_of_index(out@);
            assert forall|k: int|
                0 <= k < out@.len() implies JsonValue::views_of(out@)[k] == JsonValue::views_of(
                before,
            ).push(enc_schema_type(tv[i as int]))[k] by {
                if k < before.len() {
                    assert(out@[k] == before[k]);
                } else {
                    assert(out@[k].view_rec() == enc_schema_type(tv[i as int]));
                }
            }
            assert(JsonValue::views_of(out@) =~= JsonValue::views_of(before).push(
                enc_schema_type(tv[i as int]),
            ));
            assert(tv.take(i + 1) =~= tv.take(i as int).push(tv[i as int]));
            lemma_enc_st_list_push(tv.take(i as int), tv[i as int]);
        }
        i += 1;
    }
    proof {
        assert(tv.take(n as int) =~= tv);
    }
    out
}

proof fn lemma_enc_st_list_push(ts: Seq<SchemaTypeV>, t: SchemaTypeV)
    ensures
        enc_st_list(ts.push(t)) =~= enc_st_list(ts).push(enc_schema_type(t)),
    decreases ts.len(),
{
    if ts.len() == 0 {
        assert(ts.push(t)[0] == t);
        assert(ts.push(t).drop_first() =~= Seq::<SchemaTypeV>::empty());
        assert(enc_st_list(Seq::<SchemaTypeV>::empty()) =~= Seq::<JsonVal>::empty());
    } else {
        lemma_enc_st_list_push(ts.drop_first(), t);
        assert(ts.push(t)[0] == ts[0]);
        assert(ts.push(t).drop_first() =~= ts.drop_first().push(t));
        assert(seq![enc_schema_type(ts[0])] + enc_st_list(ts.drop_first()).push(
            enc_schema_type(t),
        ) =~= (seq![enc_schema_type(ts[0])] + enc_st_list(ts.drop_first())).push(
            enc_schema_type(t),
        ));
    }
}

proof fn lemma_enc_st_props_push(ps: Seq<(Seq<char>, SchemaTypeV)>, p: (Seq<char>, SchemaTypeV))
    ensures
        enc_st_props(ps.push(p)) =~= enc_st_props(ps).push((p.0, enc_schema_type(p.1))),
    decreases ps.len(),
{
    if ps.len() == 0 {
        assert(ps.push(p)[0] == p);
        assert(ps.push(p).drop_first() =~= Seq::<(Seq<char>, SchemaTypeV)>::empty());
        assert(enc_st_props(Seq::<(Seq<char>, SchemaTypeV)>::empty())
            =~= Seq::<(Seq<char>, JsonVal)>::empty());
    } else {
        lemma_enc_st_props_push(ps.drop_first(), p);
        assert(ps.push(p)[0] == ps[0]);
        assert(ps.push(p).drop_first() =~= ps.drop_first().push(p));
        assert(seq![(ps[0].0, enc_schema_type(ps[0].1))] + enc_st_props(ps.drop_first()).push(
            (p.0, enc_schema_type(p.1)),
        ) =~= (seq![(ps[0].0, enc_schema_type(ps[0].1))] + enc_st_props(ps.drop_first())).push(
            (p.0, enc_schema_type(p.1)),
        ));
    }
}

/// Writes each property of an object shape.
fn st_props_to_json(ps: &Vec<(String, SchemaType)>) -> (r: Vec<(String, JsonValue)>)
    ensures
        fv(r@) == enc_st_props(SchemaType::prop_views_of(ps@)),
    decreases *ps, 2int,
{
    proof {
        crate::model::lemma_prop_views_of_index(ps@);
    }
    let ghost pv = SchemaType::prop_views_of(ps@);
    let mut out: Vec<(String, JsonValue)> = Vec::new();
    let n = ps.len();
    let mut i: usize = 0;
    proof {
        assert(pv.take(0) =~= Seq::<(Seq<char>, SchemaTypeV)>::empty());
        assert(fv(out@) =~= enc_st_props(pv.take(0)));
    }
    while i < n
        invariant
            0 <= i <= n,
            n == ps@.len(),
            pv == SchemaType::prop_views_of(ps@),
            pv.len() == n,
            forall|k: int|
                0 <= k < n ==> pv[k] == (#[trigger] ps@[k].0@, ps@[k].1.view_rec()),
            fv(out@) == enc_st_props(pv.take(i as int)),
        decreases n - i,
    {
        proof {
            assert(decreases_to!(*ps => ps@));
            assert(decreases_to!(ps@ => ps@[i as int]));
            assert(decreases_to!(ps@[i as int] => ps@[i as int].1));
            assert(decreases_to!(*ps, 2int => ps@[i as int].1, 1int));
        }
        let jv = schema_type_to_json(&ps[i].1);
        let key = ps[i].0.clone();
        let ghost before = out@;
        out.push((key, jv));
        proof {
            crate::json::lemma_field_views_of_index(before);
            crate::json::lemma_field_views_of_index(out@);
            assert forall|k: int|
                0 <= k < out@.len() implies fv(out@)[k] == fv(before).push(
                (pv[i as int].0, enc_schema_type(pv[i as int].1)),
            )[k] by {
                assert(fv(out@)[k] == (out@[k].0@, out@[k].1.view_rec()));
                if k < before.len() {
                    assert(out@[k] == before[k]);
                    assert(fv(before)[k] == (before[k].0@, before[k].1.view_rec()));
                } else {
                    assert(pv[i as int] == (ps@[i as int].0@, ps@[i as int].1.view_rec()));
                    assert(out@[k].0@ == pv[i as int].0);
                    assert(out@[k].1.view_rec() == enc_schema_type(pv[i as int].1));
                }
            }
            assert(fv(out@) =~= fv(before).push(
                (pv[i as int].0, enc_schema_type(pv[i as int].1)),
            ));
            assert(pv.take(i + 1) =~= pv.take(i as int).push(pv[i as int]));
            lemma_enc_st_props_push(pv.take(i as int), pv[i as int]);
        }
        i += 1;
    }
    proof {
        assert(pv.take(n as int) =~= pv);
    }
    out
}

/// Reads a shape back from a document value.
fn schema_type_from_json(j: &JsonValue) -> (r: Option<SchemaType>)
    ensures
        match r {
            Some(t) => dec_schema_type(j@) == Some(t@),
            None => dec_schema_type(j@) is None,
        },
    decreases *j, 1int,
{
    let kind = match j.get_str("kind") {
        Some(k) => k.clone(),
        None => {
            return None;
        },
    };
    if str_eq(kind.as_str(), "ref") {
        match j.get_str("reference") {
            Some(reference) => Some(SchemaType::Ref { reference: reference.clone() }),
            None => None,
        }
    } else if str_eq(kind.as_str(), "one_of") || str_eq(kind.as_str(), "any_of") || str_eq(
        kind.as_str(),
        "all_of",
    ) {
        let m = match j.get("variants") {
            Some(m) => m,
            None => {
                return None;
            },
        };
        let items = match m.as_array() {
            Some(items) => items,
            None => {
                return None;
            },
        };
        proof {
            assert(decreases_to!(*j, 1int => *items, 2int));
        }
        let variants = match st_list_from_json(items) {
            Some(vs) => vs,
            None => {
                return None;
            },
        };
        if str_eq(kind.as_str(), "one_of") {
            Some(SchemaType::OneOf { variants })
        } else if str_eq(kind.as_str(), "any_of") {
            Some(SchemaType::AnyOf { variants })
        } else {
            Some(SchemaType::AllOf { variants })
        }
    } else if str_eq(kind.as_str(), "string") {
        let format = match j.get("format") {
            Some(m) => match opt_str_from_json(m) {
                Some(o) => o,
                None => {
                    return None;
                },
            },
            None => {
                return None;
            },
        };
        let ev = match j.get("enum_values") {
            Some(m) => m,
            None => {
                return None;
            },
        };
        let enum_values = match ev {
            JsonValue::Null => None,
            _ => {
                match str_list_from_json(ev) {
                    Some(vs) => Some(vs),
                    None => {
                        return None;
                    },
                }
            },
        };
        proof {
            if !(ev@ is Null) {
                assert(dec_schema_type(j@) is Some);
            }
        }
        Some(SchemaType::Text { format, enum_values })
    } else if str_eq(kind.as_str(), "number") {
        match j.get("format") {
            Some(m) => match opt_str_from_json(m) {
                Some(format) => Some(SchemaType::Number { format }),
                None => None,
            },
            None => None,
        }
    } else if str_eq(kind.as_str(), "integer") {
        match j.get("format") {
            Some(m) => match opt_str_from_json(m) {
                Some(format) => Some(SchemaType::Integer { format }),
                None => None,
            },
            None => None,
        }
    } else if str_eq(kind.as_str(), "boolean") {
        Some(SchemaType::Boolean)
    } else if str_eq(kind.as_str(), "array") {
        match j.get("items") {
            Some(inner) => {
                proof {
                    assert(decreases_to!(*j, 1int => *inner, 1int));
                }
                match schema_type_from_json(inner) {
                    Some(t) => Some(SchemaType::Array { items: Box::new(t) }),
                    None => None,
                }
            },
            None => None,
        }
    } else if str_eq(kind.as_str(), "object") {
        let m = match j.get("properties") {
            Some(m) => m,
            None => {
                return None;
            },
        };
        let pf = match m.as_object() {
            Some(pf) => pf,
            None => {
                return None;
            },
        };
        proof {
            assert(decreases_to!(*j, 1int => *pf, 2int));
        }
        let properties = match st_props_from_json(pf) {
            Some(ps) => ps,
            None => {
                return None;
            },
        };
        let required = match j.get("required") {
            Some(m2) => match str_list_from_json(m2) {
                Some(l) => l,
                None => {
                    return None;
                },
            },
            None => {
                return None;
            },
        };
        Some(SchemaType::Object { properties, required })
    } else if str_eq(kind.as_str(), "unknown") {
        Some(SchemaType::Unknown)
    } else {
        None
    }
}

/// Reads each shape of a list back.
fn st_list_from_json(items: &Vec<JsonValue>) -> (r: Option<Vec<SchemaType>>)
    ensures
        match r {
            Some(ts) => dec_st_list(JsonValue::views_of(items@)) == Some(
                SchemaType::views_of(ts@),
            ),
            None => dec_st_list(JsonValue::views_of(items@)) is None,
        },
    decreases *items, 2int,
{
    proof {
        crate::json::lemma_views_of_index(items@);
    }
    let ghost iv = JsonValue::views_of(items@);
    let mut out: Vec<SchemaType> = Vec::new();
    let n = items.len();
    let mut i: usize = 0;
    proof {
        assert(iv.skip(0) =~= iv);
        crate::model::lemma_st_views_of_index(out@);
    }
    while i < n
        invariant
            0 <= i <= n,
            n == items@.len(),
            iv == JsonValue::views_of(items@),
            iv.len() == n,
            forall|k: int| 0 <= k < n ==> iv[k] == #[trigger] items@[k].view_rec(),
            decreases_to!(*items => items@),
            dec_st_list(iv) == (match dec_st_list(iv.skip(i as int)) {
                Some(rest) => Some(SchemaType::views_of(out@) + rest),
                None => None::<Seq<SchemaTypeV>>,
            }),
        decreases n - i,
    {
        proof {
            assert(decreases_to!(items@ => items@[i as int]));
            assert(decreases_to!(*items, 2int => items@[i as int], 1int));
            assert(iv.skip(i as int)[0] == iv[i as int]);
            assert(iv.skip(i as int).drop_first() =~= iv.skip(i + 1));
        }
        let t = match schema_type_from_json(&items[i]) {
            Some(t) => t,
            None => {
                return None;
            },
        };
        let ghost before = out@;
        out.push(t);
        proof {
            crate::model::lemma_st_views_of_index(before);
            crate::model::lemma_st_views_of_index(out@);
            assert forall|k: int|
                0 <= k < out@.len() implies SchemaType::views_of(out@)[k]
                == SchemaType::views_of(before).push(t.view_rec())[k] by {
                assert(SchemaType::views_of(out@)[k] == out@[k].view_rec());
                if k < before.len() {
                    assert(out@[k] == before[k]);
                    assert(SchemaType::views_of(before)[k] == before[k].view_rec());
                } else {
                    assert(out@[k] == t);
                }
            }
            assert(SchemaType::views_of(out@) =~= SchemaType::views_of(before).push(
                t.view_rec(),
            ));
            if dec_st_list(iv.skip(i + 1)) is Some {
                assert(SchemaType::views_of(before) + (seq![t.view_rec()] + dec_st_list(
                    iv.skip(i + 1),
                )->0) =~= SchemaType::views_of(out@) + dec_st_list(iv.skip(i + 1))->0);
            }
        }
        i += 1;
    }
    proof {
        assert(iv.skip(n as int) =~= Seq::<JsonVal>::empty());
        assert(dec_st_list(Seq::<JsonVal>::empty()) == Some(Seq::<SchemaTypeV>::empty()));
        assert(SchemaType::views_of(out@) + Seq::<SchemaTypeV>::empty() =~= SchemaType::views_of(
            out@,
        ));
    }
    Some(out)
}

/// Reads each property of an object shape back.
fn st_props_from_json(pf: &Vec<(String, JsonValue)>) -> (r: Option<Vec<(String, SchemaType)>>)
    ensures
        match r {
            Some(ps) => dec_st_props(JsonValue::field_views_of(pf@)) == Some(
                SchemaType::prop_views_of(ps@),
            ),
            None => dec_st_props(JsonValue::field_views_of(pf@)) is None,
        },
    decreases *pf, 2int,
{
    proof {
        crate::json::lemma_field_views_of_index(pf@);
    }
    let ghost fvs = JsonValue::field_views_of(pf@);
    let mut out: Vec<(String, SchemaType)> = Vec::new();
    let n = pf.len();
    let mut i: usize = 0;
    proof {
        assert(fvs.skip(0) =~= fvs);
        crate::model::lemma_prop_views_of_index(out@);
    }
    while i < n
        invariant
            0 <= i <= n,
            n == pf@.len(),
            fvs == JsonValue::field_views_of(pf@),
            fvs.len() == n,
            forall|k: int| 0 <= k < n ==> fvs[k] == (#[trigger] pf@[k].0@, pf@[k].1.view_rec()),
            decreases_to!(*pf => pf@),
            dec_st_props(fvs) == (match dec_st_props(fvs.skip(i as int)) {
                Some(rest) => Some(SchemaType::prop_views_of(out@) + rest),
                None => None::<Seq<(Seq<char>, SchemaTypeV)>>,
            }),
        decreases n - i,
    {
        proof {
            assert(decreases_to!(pf@ => pf@[i as int]));
            assert(decreases_to!(pf@[i as int] => pf@[i as int].1));
            assert(decreases_to!(*pf, 2int => pf@[i as int].1, 1int));
            assert(fvs.skip(i as int)[0] == fvs[i as int]);
            assert(fvs.skip(i as int).drop_first() =~= fvs.skip(i + 1));
            assert(fvs[i as int] == (pf@[i as int].0@, pf@[i as int].1.view_rec()));
        }
        let t = match schema_type_from_json(&pf[i].1) {
            Some(t) => t,
            None => {
                return None;
            },
        };
        let key = pf[i].0.clone();
        let ghost before = out@;
        out.push((key, t));
        proof {
            crate::model::lemma_prop_views_of_index(before);
            crate::model::lemma_prop_views_of_index(out@);
            assert forall|k: int|
                0 <= k < out@.len() implies SchemaType::prop_views_of(out@)[k]
                == SchemaType::prop_views_of(before).push((fvs[i as int].0, t.view_rec()))[k] by {
                assert(SchemaType::prop_views_of(out@)[k] == (out@[k].0@, out@[k].1.view_rec()));
                if k < before.len() {
                    assert(out@[k] == before[k]);
                    assert(SchemaType::prop_views_of(before)[k] == (
                        before[k].0@,
                        before[k].1.view_rec(),
                    ));
                } else {
                    assert(out@[k].0@ == fvs[i as int].0);
                    assert(out@[k].1 == t);
                }
            }
            assert(SchemaType::prop_views_of(out@) =~= SchemaType::prop_views_of(before).push(
                (fvs[i as int].0, t.view_rec()),
            ));
            if dec_st_props(fvs.skip(i + 1)) is Some {
                assert(SchemaType::prop_views_of(before) + (seq![(fvs[i as int].0, t.view_rec())]
                    + dec_st_props(fvs.skip(i + 1))->0) =~= SchemaType::prop_views_of(out@)
                    + dec_st_props(fvs.skip(i + 1))->0);
            }
        }
        i += 1;
    }
    proof {
        assert(fvs.skip(n as int) =~= Seq::<(Seq<char>, JsonVal)>::empty());
        assert(dec_st_props(Seq::<(Seq<char>, JsonVal)>::empty()) == Some(
            Seq::<(Seq<char>, SchemaTypeV)>::empty(),
        ));
        assert(SchemaType::prop_views_of(out@) + Seq::<(Seq<char>, SchemaTypeV)>::empty()
            =~= SchemaType::prop_views_of(out@));
    }
    Some(out)
}

/// Generic spec shapes for lists of encoded items.
pub open spec fn enc_params(ps: Seq<ParameterV>) -> Seq<JsonVal>
    decreases ps.len(),
{
    if ps.len() == 0 {
        Seq::empty()
    } else {
        seq![enc_parameter(ps[0])] + enc_params(ps.drop_first())
    }
}

pub open spec fn dec_params(items: Seq<JsonVal>) -> Option<Seq<ParameterV>>
    decreases items.len(),
{
    if items.len() == 0 {
        Some(Seq::empty())
    } else {
        match (dec_parameter(items[0]), dec_params(items.drop_first())) {
            (Some(p), Some(rest)) => Some(seq![p] + rest),
            _ => None,
        }
    }
}

pub open spec fn enc_resps(rs: Seq<ResponseV>) -> Seq<JsonVal>
    decreases rs.len(),
{
    if rs.len() == 0 {
        Seq::empty()
    } else {
        seq![enc_response(rs[0])] + enc_resps(rs.drop_first())
    }
}

pub open spec fn dec_resps(items: Seq<JsonVal>) -> Option<Seq<ResponseV>>
    decreases items.len(),
{
    if items.len() == 0 {
        Some(Seq::empty())
    } else {
        match (dec_response(items[0]), dec_resps(items.drop_first())) {
            (Some(p), Some(rest)) => Some(seq![p] + rest),
            _ => None,
        }
    }
}

proof fn lemma_params_round_trip(ps: Seq<ParameterV>)
    ensures
        dec_params(enc_params(ps)) == Some(ps),
    decreases ps.len(),
{
    if ps.len() > 0 {
        lemma_parameter_round_trip(ps[0]);
        lemma_params_round_trip(ps.drop_first());
        assert(enc_params(ps)[0] == enc_parameter(ps[0]));
        assert(enc_params(ps).drop_first() =~= enc_params(ps.drop_first()));
        assert(seq![ps[0]] + ps.drop_first() =~= ps);
    }
}

proof fn lemma_resps_round_trip(rs: Seq<ResponseV>)
    ensures
        dec_resps(enc_resps(rs)) == Some(rs),
    decreases rs.len(),
{
    if rs.len() > 0 {
        lemma_response_round_trip(rs[0]);
        lemma_resps_round_trip(rs.drop_first());
        assert(enc_resps(rs)[0] == enc_response(rs[0]));
        assert(enc_resps(rs).drop_first() =~= enc_resps(rs.drop_first()));
        assert(seq![rs[0]] + rs.drop_first() =~= rs);
    }
}

/// An endpoint as a keyed document object.
pub open spec fn enc_endpoint(e: EndpointV) -> JsonVal {
    JsonVal::Obj(
        seq![
            ("path"@, JsonVal::Str(e.path)),
            ("method"@, JsonVal::Str(e.method.name_of())),
            ("operation_id"@, enc_opt_str(e.operation_id)),
            ("summary"@, enc_opt_str(e.summary)),
            ("description"@, enc_opt_str(e.description)),
            ("tags"@, enc_str_list(e.tags)),
            ("parameters"@, JsonVal::Arr(enc_params(e.parameters))),
            (
                "request_body"@,
                match e.request_body {
                    Some(b) => enc_body(b),
                    None => JsonVal::Null,
                },
            ),
            ("responses"@, JsonVal::Arr(enc_resps(e.responses))),
            ("deprecated"@, JsonVal::Bool(e.deprecated)),
            ("content_hash"@, JsonVal::Str(e.hash)),
            ("schema_refs"@, enc_str_list(e.schema_refs)),
        ],
    )
}

pub open spec fn dec_endpoint(j: JsonVal) -> Option<EndpointV> {
    match (
        crate::json::obj_get_str(j, "path"@),
        crate::json::obj_get_str(j, "method"@),
        obj_get(j, "operation_id"@),
        obj_get(j, "summary"@),
        obj_get(j, "description"@),
        obj_get(j, "tags"@),
        obj_get(j, "parameters"@),
        obj_get(j, "request_body"@),
        obj_get(j, "responses"@),
        crate::json::obj_get_bool(j, "deprecated"@),
        crate::json::obj_get_str(j, "content_hash"@),
        obj_get(j, "schema_refs"@),
    ) {
        (
            Some(path),
            Some(mname),
            Some(oid),
            Some(sm),
            Some(d),
            Some(tg),
            Some(JsonVal::Arr(pitems)),
            Some(rb),
            Some(JsonVal::Arr(ritems)),
            Some(deprecated),
            Some(hash),
            Some(sr),
        ) => {
            match (
                dec_method(mname),
                dec_opt_str(oid),
                dec_opt_str(sm),
                dec_opt_str(d),
                dec_str_list(tg),
                dec_params(pitems),
                match rb {
                    JsonVal::Null => Some(None),
                    _ => match dec_body(rb) {
                        Some(b) => Some(Some(b)),
                        None => None,
                    },
                },
                dec_resps(ritems),
                dec_str_list(sr),
            ) {
                (
                    Some(method),
                    Some(operation_id),
                    Some(summary),
                    Some(description),
                    Some(tags),
                    Some(parameters),
                    Some(request_body),
                    Some(responses),
                    Some(schema_refs),
                ) => Some(
                    EndpointV {
                        path,
                        method,
                        operation_id,
                        summary,
                        description,
                        tags,
                        parameters,
                        request_body,
                        responses,
                        deprecated,
                        hash,
                        schema_refs,
                    },
                ),
                _ => None,
            }
        },
        _ => None,
    }
}

proof fn lemma_endpoint_keys_distinct()
    ensures
        "path"@.len() == 4,
        "method"@.len() == 6,
        "operation_id"@.len() == 12,
        "summary"@.len() == 7,
        "description"@.len() == 11,
        "tags"@.len() == 4,
        "parameters"@.len() == 10,
        "request_body"@.len() == 12,
        "responses"@.len() == 9,
        "deprecated"@.len() == 10,
        "content_hash"@.len() == 12,
        "schema_refs"@.len() == 11,
        "path"@ != "tags"@,
        "operation_id"@ != "request_body"@,
        "operation_id"@ != "content_hash"@,
        "request_body"@ != "content_hash"@,
        "parameters"@ != "deprecated"@,
        "description"@ != "schema_refs"@,
{
    reveal_strlit("path");
    reveal_strlit("method");
    reveal_strlit("operation_id");
    reveal_strlit("summary");
    reveal_strlit("description");
    reveal_strlit("tags");
    reveal_strlit("parameters");
    reveal_strlit("request_body");
    reveal_strlit("responses");
    reveal_strlit("deprecated");
    reveal_strlit("content_hash");
    reveal_strlit("schema_refs");
    assert("path"@[0] == 'p' && "tags"@[0] == 't');
    assert("operation_id"@[0] == 'o' && "request_body"@[0] == 'r' && "content_hash"@[0] == 'c');
    assert("parameters"@[0] == 'p' && "deprecated"@[0] == 'd');
    assert("description"@[0] == 'd' && "schema_refs"@[0] == 's');
}

proof fn lemma_ep_lookup_a(e: EndpointV)
    ensures
        crate::json::obj_get_str(enc_endpoint(e), "path"@) == Some(e.path),
        crate::json::obj_get_str(enc_endpoint(e), "method"@) == Some(e.method.name_of()),
        obj_get(enc_endpoint(e), "operation_id"@) == Some(enc_opt_str(e.operation_id)),
        obj_get(enc_endpoint(e), "summary"@) == Some(enc_opt_str(e.summary)),
{
    lemma_endpoint_keys_distinct();
    assert(crate::json::obj_get_str(enc_endpoint(e), "path"@) == Some(e.path)) by {
        reveal_with_fuel(fields_get, 3);
    }
    assert(crate::json::obj_get_str(enc_endpoint(e), "method"@) == Some(e.method.name_of())) by {
        reveal_with_fuel(fields_get, 4);
    }
    assert(obj_get(enc_endpoint(e), "operation_id"@) == Some(enc_opt_str(e.operation_id))) by {
        reveal_with_fuel(fields_get, 5);
    }
    assert(obj_get(enc_endpoint(e), "summary"@) == Some(enc_opt_str(e.summary))) by {
        reveal_with_fuel(fields_get, 6);
    }
}

proof fn lemma_ep_lookup_b(e: EndpointV)
    ensures
        obj_get(enc_endpoint(e), "description"@) == Some(enc_opt_str(e.description)),
        obj_get(enc_endpoint(e), "tags"@) == Some(enc_str_list(e.tags)),
        obj_get(enc_endpoint(e), "parameters"@) == Some(JsonVal::Arr(enc_params(e.parameters))),
        obj_get(enc_endpoint(e), "request_body"@) == Some(
            match e.request_body {
                Some(b) => enc_body(b),
                None => JsonVal::Null,
            },
        ),
{
    lemma_endpoint_keys_distinct();
    assert(obj_get(enc_endpoint(e), "description"@) == Some(enc_opt_str(e.description))) by {
        reveal_with_fuel(fields_get, 7);
    }
    assert(obj_get(enc_endpoint(e), "tags"@) == Some(enc_str_list(e.tags))) by {
        reveal_with_fuel(fields_get, 8);
    }
    assert(obj_get(enc_endpoint(e), "parameters"@) == Some(
        JsonVal::Arr(enc_params(e.parameters)),
    )) by {
        reveal_with_fuel(fields_get, 9);
    }
    assert(obj_get(enc_endpoint(e), "request_body"@) == Some(
        match e.request_body {
            Some(b) => enc_body(b),
            None => JsonVal::Null,
        },
    )) by {
        reveal_with_fuel(fields_get, 10);
    }
}

proof fn lemma_ep_lookup_c(e: EndpointV)
    ensures
        obj_get(enc_endpoint(e), "responses"@) == Some(JsonVal::Arr(enc_resps(e.responses))),
        crate::json::obj_get_bool(enc_endpoint(e), "deprecated"@) == Some(e.deprecated),
        crate::json::obj_get_str(enc_endpoint(e), "content_hash"@) == Some(e.hash),
        obj_get(enc_endpoint(e), "schema_refs"@) == Some(enc_str_list(e.schema_refs)),
{
    lemma_endpoint_keys_distinct();
    assert(obj_get(enc_endpoint(e), "responses"@) == Some(
        JsonVal::Arr(enc_resps(e.responses)),
    )) by {
        reveal_with_fuel(fields_get, 11);
    }
    assert(crate::json::obj_get_bool(enc_endpoint(e), "deprecated"@) == Some(e.deprecated)) by {
        reveal_with_fuel(fields_get, 12);
    }
    assert(crate::json::obj_get_str(enc_endpoint(e), "content_hash"@) == Some(e.hash)) by {
        reveal_with_fuel(fields_get, 13);
    }
    assert(obj_get(enc_endpoint(e), "schema_refs"@) == Some(enc_str_list(e.schema_refs))) by {
        reveal_with_fuel(fields_get, 14);
    }
}

proof fn lemma_endpoint_round_trip(e: EndpointV)
    ensures
        dec_endpoint(enc_endpoint(e)) == Some(e),
{
    lemma_ep_lookup_a(e);
    lemma_ep_lookup_b(e);
    lemma_ep_lookup_c(e);
    lemma_method_round_trip(e.method);
    lemma_str_list_round_trip(e.tags);
    lemma_str_list_round_trip(e.schema_refs);
    lemma_params_round_trip(e.parameters);
    lemma_resps_round_trip(e.responses);
    match e.request_body {
        Some(b) => {
            lemma_body_round_trip(b);
        },
        None => {},
    }
    assert(dec_endpoint(enc_endpoint(e)) =~= Some(e));
}

/// A named schema as a keyed document object.
pub open spec fn enc_schema(x: SchemaV) -> JsonVal {
    JsonVal::Obj(
        seq![
            ("name"@, JsonVal::Str(x.name)),
            ("schema_type"@, enc_schema_type(x.schema_type)),
            ("description"@, enc_opt_str(x.description)),
            ("refs"@, enc_str_list(x.refs)),
            ("content_hash"@, JsonVal::Str(x.hash)),
        ],
    )
}

pub open spec fn dec_schema(j: JsonVal) -> Option<SchemaV> {
    match (
        crate::json::obj_get_str(j, "name"@),
        obj_get(j, "schema_type"@),
        obj_get(j, "description"@),
        obj_get(j, "refs"@),
        crate::json::obj_get_str(j, "content_hash"@),
    ) {
        (Some(name), Some(st), Some(d), Some(rf), Some(hash)) => {
            match (dec_schema_type(st), dec_opt_str(d), dec_str_list(rf)) {
                (Some(schema_type), Some(description), Some(refs)) => Some(
                    SchemaV { name, schema_type, description, refs, hash },
                ),
                _ => None,
            }
        },
        _ => None,
    }
}

proof fn lemma_schema_round_trip(x: SchemaV)
    ensures
        dec_schema(enc_schema(x)) == Some(x),
{
    reveal_strlit("name");
    reveal_strlit("schema_type");
    reveal_strlit("description");
    reveal_strlit("refs");
    reveal_strlit("content_hash");
    assert("name"@.len() == 4 && "schema_type"@.len() == 11 && "description"@.len() == 11);
    assert("refs"@.len() == 4 && "content_hash"@.len() == 12);
    assert("schema_type"@[0] == 's' && "description"@[0] == 'd');
    assert("name"@[0] == 'n' && "refs"@[0] == 'r');
    lemma_schema_type_round_trip(x.schema_type);
    lemma_str_list_round_trip(x.refs);
    assert(dec_schema(enc_schema(x)) =~= Some(x)) by {
        reveal_with_fuel(fields_get, 7);
    }
}

pub open spec fn enc_endpoints(es: Seq<EndpointV>) -> Seq<JsonVal>
    decreases es.len(),
{
    if es.len() == 0 {
        Seq::empty()
    } else {
        seq![enc_endpoint(es[0])] + enc_endpoints(es.drop_first())
    }
}

pub open spec fn dec_endpoints(items: Seq<JsonVal>) -> Option<Seq<EndpointV>>
    decreases items.len(),
{
    if items.len() == 0 {
        Some(Seq::empty())
    } else {
        match (dec_endpoint(items[0]), dec_endpoints(items.drop_first())) {
            (Some(p), Some(rest)) => Some(seq![p] + rest),
            _ => None,
        }
    }
}

pub open spec fn enc_schemas(xs: Seq<SchemaV>) -> Seq<JsonVal>
    decreases xs.len(),
{
    if xs.len() == 0 {
        Seq::empty()
    } else {
        seq![enc_schema(xs[0])] + enc_schemas(xs.drop_first())
    }
}

pub open spec fn dec_schemas(items: Seq<JsonVal>) -> Option<Seq<SchemaV>>
    decreases items.len(),
{
    if items.len() == 0 {
        Some(Seq::empty())
    } else {
        match (dec_schema(items[0]), dec_schemas(items.drop_first())) {
            (Some(p), Some(rest)) => Some(seq![p] + rest),
            _ => None,
        }
    }
}

proof fn lemma_endpoints_round_trip(es: Seq<EndpointV>)
    ensures
        dec_endpoints(enc_endpoints(es)) == Some(es),
    decreases es.len(),
{
    if es.len() > 0 {
        lemma_endpoint_round_trip(es[0]);
        lemma_endpoints_round_trip(es.drop_first());
        assert(enc_endpoints(es)[0] == enc_endpoint(es[0]));
        assert(enc_endpoints(es).drop_first() =~= enc_endpoints(es.drop_first()));
        assert(seq![es[0]] + es.drop_first() =~= es);
    }
}

proof fn lemma_schemas_round_trip(xs: Seq<SchemaV>)
    ensures
        dec_schemas(enc_schemas(xs)) == Some(xs),
    decreases xs.len(),
{
    if xs.len() > 0 {
        lemma_schema_round_trip(xs[0]);
        lemma_schemas_round_trip(xs.drop_first());
        assert(enc_schemas(xs)[0] == enc_schema(xs[0]));
        assert(enc_schemas(xs).drop_first() =~= enc_schemas(xs.drop_first()));
        assert(seq![xs[0]] + xs.drop_first() =~= xs);
    }
}

/// Whether the counts of a metadata view fit the machine.
pub open spec fn metadata_counts_ok(m: SpecMetadataV) -> bool {
    0 <= m.endpoint_count <= usize::MAX && 0 <= m.schema_count <= usize::MAX && 0 <= m.tag_count
        <= usize::MAX
}

/// Document metadata as a keyed document object.
pub open spec fn enc_metadata(m: SpecMetadataV) -> JsonVal {
    JsonVal::Obj(
        seq![
            ("title"@, JsonVal::Str(m.title)),
            ("version"@, JsonVal::Str(m.version)),
            ("description"@, enc_opt_str(m.description)),
            ("dialect"@, JsonVal::Str(m.openapi_version.label_of())),
            ("endpoint_count"@, JsonVal::Num(dec_of(m.endpoint_count as nat))),
            ("schema_count"@, JsonVal::Num(dec_of(m.schema_count as nat))),
            ("tag_count"@, JsonVal::Num(dec_of(m.tag_count as nat))),
        ],
    )
}

pub open spec fn dec_metadata(j: JsonVal) -> Option<SpecMetadataV> {
    match (
        crate::json::obj_get_str(j, "title"@),
        crate::json::obj_get_str(j, "version"@),
        obj_get(j, "description"@),
        crate::json::obj_get_str(j, "dialect"@),
        obj_get(j, "endpoint_count"@),
        obj_get(j, "schema_count"@),
        obj_get(j, "tag_count"@),
    ) {
        (Some(title), Some(version), Some(d), Some(dia), Some(ec), Some(sc), Some(tc)) => {
            match (
                dec_opt_str(d),
                OpenApiVersion::spec_from_label(dia),
                dec_u64(ec),
                dec_u64(sc),
                dec_u64(tc),
            ) {
                (Some(description), Some(openapi_version), Some(e), Some(c), Some(t)) => if e
                    <= usize::MAX && c <= usize::MAX && t <= usize::MAX {
                    Some(
                        SpecMetadataV {
                            title,
                            version,
                            description,
                            openapi_version,
                            endpoint_count: e as int,
                            schema_count: c as int,
                            tag_count: t as int,
                        },
                    )
                } else {
                    None
                },
                _ => None,
            }
        },
        _ => None,
    }
}

proof fn lemma_metadata_round_trip(m: SpecMetadataV)
    requires
        metadata_counts_ok(m),
    ensures
        dec_metadata(enc_metadata(m)) == Some(m),
{
    reveal_strlit("title");
    reveal_strlit("version");
    reveal_strlit("description");
    reveal_strlit("dialect");
    reveal_strlit("endpoint_count");
    reveal_strlit("schema_count");
    reveal_strlit("tag_count");
    assert("title"@.len() == 5 && "version"@.len() == 7 && "description"@.len() == 11);
    assert("dialect"@.len() == 7 && "endpoint_count"@.len() == 14 && "schema_count"@.len() == 12);
    assert("tag_count"@.len() == 9);
    assert("version"@[0] == 'v' && "dialect"@[0] == 'd');
    m.openapi_version.lemma_label_round_trip();
    crate::text::lemma_dec_round_trip(m.endpoint_count as nat);
    crate::text::lemma_dec_round_trip(m.schema_count as nat);
    crate::text::lemma_dec_round_trip(m.tag_count as nat);
    assert(dec_metadata(enc_metadata(m)) =~= Some(m)) by {
        reveal_with_fuel(fields_get, 9);
    }
}

/// Whether every count below a model view fits the machine.
pub open spec fn spec_counts_ok(s: ParsedSpecV) -> bool {
    metadata_counts_ok(s.metadata)
}

/// A normalized model as a keyed document object.
pub open spec fn enc_spec(s: ParsedSpecV) -> JsonVal {
    JsonVal::Obj(
        seq![
            ("metadata"@, enc_metadata(s.metadata)),
            ("endpoints"@, JsonVal::Arr(enc_endpoints(s.endpoints))),
            ("schemas"@, JsonVal::Arr(enc_schemas(s.schemas))),
            ("tags"@, enc_str_list(s.tags)),
            ("content_hash"@, JsonVal::Str(s.spec_hash)),
            ("source"@, JsonVal::Str(s.source)),
        ],
    )
}

pub open spec fn dec_spec(j: JsonVal) -> Option<ParsedSpecV> {
    match (
        obj_get(j, "metadata"@),
        obj_get(j, "endpoints"@),
        obj_get(j, "schemas"@),
        obj_get(j, "tags"@),
        crate::json::obj_get_str(j, "content_hash"@),
        crate::json::obj_get_str(j, "source"@),
    ) {
        (
            Some(md),
            Some(JsonVal::Arr(eitems)),
            Some(JsonVal::Arr(sitems)),
            Some(tg),
            Some(spec_hash),
            Some(source),
        ) => {
            match (dec_metadata(md), dec_endpoints(eitems), dec_schemas(sitems), dec_str_list(tg)) {
                (Some(metadata), Some(endpoints), Some(schemas), Some(tags)) => Some(
                    ParsedSpecV { metadata, endpoints, schemas, tags, spec_hash, source },
                ),
                _ => None,
            }
        },
        _ => None,
    }
}

proof fn lemma_spec_round_trip(s: ParsedSpecV)
    requires
        spec_counts_ok(s),
    ensures
        dec_spec(enc_spec(s)) == Some(s),
{
    reveal_strlit("metadata");
    reveal_strlit("endpoints");
    reveal_strlit("schemas");
    reveal_strlit("tags");
    reveal_strlit("content_hash");
    reveal_strlit("source");
    assert("metadata"@.len() == 8 && "endpoints"@.len() == 9 && "schemas"@.len() == 7);
    assert("tags"@.len() == 4 && "content_hash"@.len() == 12 && "source"@.len() == 6);
    assert("metadata"@[0] == 'm' && "endpoints"@[0] == 'e' && "schemas"@[0] == 's');
    assert("source"@[0] == 's' && "schemas"@[1] == 'c' && "source"@[1] == 'o');
    lemma_metadata_round_trip(s.metadata);
    lemma_endpoints_round_trip(s.endpoints);
    lemma_schemas_round_trip(s.schemas);
    lemma_str_list_round_trip(s.tags);
    assert(dec_spec(enc_spec(s)) =~= Some(s)) by {
        reveal_with_fuel(fields_get, 8);
    }
}

/// Whether every count below a record view fits the machine.
pub open spec fn record_counts_ok(c: OasCacheV) -> bool {
    &&& 0 <= c.meta.endpoint_count <= usize::MAX
    &&& 0 <= c.meta.schema_count <= usize::MAX
    &&& match c.parsed_spec {
        Some(s) => spec_counts_ok(s),
        None => true,
    }
}

/// A whole record as a keyed document object: the persisted file format.
pub open spec fn enc_record(c: OasCacheV) -> JsonVal {
    JsonVal::Obj(
        seq![
            ("version"@, JsonVal::Str(c.version)),
            ("schema_version"@, enc_u64(c.schema_version)),
            ("last_fetch"@, JsonVal::Str(c.last_fetch)),
            ("content_hash"@, JsonVal::Str(c.spec_hash)),
            ("source"@, JsonVal::Str(c.source)),
            ("ttl_seconds"@, enc_u64(c.ttl_seconds)),
            (
                "http_cache"@,
                JsonVal::Obj(
                    seq![
                        ("etag"@, enc_opt_str(c.http_cache.etag)),
                        ("last_modified"@, enc_opt_str(c.http_cache.last_modified)),
                    ],
                ),
            ),
            ("local_cache"@, JsonVal::Obj(seq![("mtime"@, enc_opt_str(c.local_cache.mtime))])),
            (
                "meta"@,
                JsonVal::Obj(
                    seq![
                        ("title"@, enc_opt_str(c.meta.title)),
                        ("version"@, enc_opt_str(c.meta.version)),
                        ("dialect"@, enc_opt_str(c.meta.openapi_version)),
                        ("endpoint_count"@, JsonVal::Num(dec_of(c.meta.endpoint_count as nat))),
                        ("schema_count"@, JsonVal::Num(dec_of(c.meta.schema_count as nat))),
                    ],
                ),
            ),
            (
                "parsed_spec"@,
                match c.parsed_spec {
                    Some(s) => enc_spec(s),
                    None => JsonVal::Null,
                },
            ),
        ],
    )
}

pub open spec fn dec_record(j: JsonVal) -> Option<OasCacheV> {
    match (
        crate::json::obj_get_str(j, "version"@),
        obj_get(j, "schema_version"@),
        crate::json::obj_get_str(j, "last_fetch"@),
        crate::json::obj_get_str(j, "content_hash"@),
        crate::json::obj_get_str(j, "source"@),
        obj_get(j, "ttl_seconds"@),
        obj_get(j, "http_cache"@),
        obj_get(j, "local_cache"@),
        obj_get(j, "meta"@),
        obj_get(j, "parsed_spec"@),
    ) {
        (
            Some(version),
            Some(sv),
            Some(last_fetch),
            Some(spec_hash),
            Some(source),
            Some(ttl),
            Some(hc),
            Some(lc),
            Some(mt),
            Some(ps),
        ) => {
            match (
                dec_u64(sv),
                dec_u64(ttl),
                dec_http_cache(hc),
                dec_local_cache(lc),
                dec_cached_meta(mt),
                match ps {
                    JsonVal::Null => Some(None),
                    _ => match dec_spec(ps) {
                        Some(s) => Some(Some(s)),
                        None => None,
                    },
                },
            ) {
                (
                    Some(schema_version),
                    Some(ttl_seconds),
                    Some(http_cache),
                    Some(local_cache),
                    Some(meta),
                    Some(parsed_spec),
                ) => Some(
                    OasCacheV {
                        version,
                        schema_version,
                        last_fetch,
                        spec_hash,
                        source,
                        ttl_seconds,
                        http_cache,
                        local_cache,
                        meta,
                        parsed_spec,
                    },
                ),
                _ => None,
            }
        },
        _ => None,
    }
}

pub open spec fn dec_http_cache(v: JsonVal) -> Option<HttpCacheInfoV> {
    match (obj_get(v, "etag"@), obj_get(v, "last_modified"@)) {
        (Some(e), Some(l)) => match (dec_opt_str(e), dec_opt_str(l)) {
            (Some(etag), Some(last_modified)) => Some(HttpCacheInfoV { etag, last_modified }),
            _ => None,
        },
        _ => None,
    }
}

pub open spec fn dec_local_cache(v: JsonVal) -> Option<LocalCacheInfoV> {
    match obj_get(v, "mtime"@) {
        Some(m) => match dec_opt_str(m) {
            Some(mtime) => Some(LocalCacheInfoV { mtime }),
            None => None,
        },
        None => None,
    }
}

pub open spec fn dec_cached_meta(v: JsonVal) -> Option<CachedMetaV> {
    match (
        obj_get(v, "title"@),
        obj_get(v, "version"@),
        obj_get(v, "dialect"@),
        obj_get(v, "endpoint_count"@),
        obj_get(v, "schema_count"@),
    ) {
        (Some(t), Some(vv), Some(dd), Some(ec), Some(sc)) => {
            match (dec_opt_str(t), dec_opt_str(vv), dec_opt_str(dd), dec_u64(ec), dec_u64(sc)) {
                (Some(title), Some(version), Some(openapi_version), Some(e), Some(c)) => if e
                    <= usize::MAX && c <= usize::MAX {
                    Some(
                        CachedMetaV {
                            title,
                            version,
                            openapi_version,
                            endpoint_count: e as int,
                            schema_count: c as int,
                        },
                    )
                } else {
                    None
                },
                _ => None,
            }
        },
        _ => None,
    }
}

proof fn lemma_record_keys_distinct()
    ensures
        "version"@.len() == 7,
        "schema_version"@.len() == 14,
        "last_fetch"@.len() == 10,
        "content_hash"@.len() == 12,
        "source"@.len() == 6,
        "ttl_seconds"@.len() == 11,
        "http_cache"@.len() == 10,
        "local_cache"@.len() == 11,
        "meta"@.len() == 4,
        "parsed_spec"@.len() == 11,
        "last_fetch"@ != "http_cache"@,
        "ttl_seconds"@ != "local_cache"@,
        "ttl_seconds"@ != "parsed_spec"@,
        "local_cache"@ != "parsed_spec"@,
        "etag"@.len() == 4,
        "last_modified"@.len() == 13,
        "mtime"@.len() == 5,
        "title"@.len() == 5,
        "dialect"@.len() == 7,
        "endpoint_count"@.len() == 14,
        "schema_count"@.len() == 12,
        "version"@ != "dialect"@,
        "mtime"@ != "title"@,
{
    reveal_strlit("version");
    reveal_strlit("schema_version");
    reveal_strlit("last_fetch");
    reveal_strlit("content_hash");
    reveal_strlit("source");
    reveal_strlit("ttl_seconds");
    reveal_strlit("http_cache");
    reveal_strlit("local_cache");
    reveal_strlit("meta");
    reveal_strlit("parsed_spec");
    reveal_strlit("etag");
    reveal_strlit("last_modified");
    reveal_strlit("mtime");
    reveal_strlit("title");
    reveal_strlit("dialect");
    reveal_strlit("endpoint_count");
    reveal_strlit("schema_count");
    assert("last_fetch"@[0] == 'l' && "http_cache"@[0] == 'h');
    assert("ttl_seconds"@[0] == 't' && "local_cache"@[0] == 'l' && "parsed_spec"@[0] == 'p');
    assert("version"@[0] == 'v' && "dialect"@[0] == 'd');
    assert("mtime"@[0] == 'm' && "title"@[0] == 't');
}

proof fn lemma_rec_lookup_a(c: OasCacheV)
    ensures
        crate::json::obj_get_str(enc_record(c), "version"@) == Some(c.version),
        obj_get(enc_record(c), "schema_version"@) == Some(enc_u64(c.schema_version)),
        crate::json::obj_get_str(enc_record(c), "last_fetch"@) == Some(c.last_fetch),
        crate::json::obj_get_str(enc_record(c), "content_hash"@) == Some(c.spec_hash),
        crate::json::obj_get_str(enc_record(c), "source"@) == Some(c.source),
{
    lemma_record_keys_distinct();
    assert(crate::json::obj_get_str(enc_record(c), "version"@) == Some(c.version)) by {
        reveal_with_fuel(fields_get, 3);
    }
    assert(obj_get(enc_record(c), "schema_version"@) == Some(enc_u64(c.schema_version))) by {
        reveal_with_fuel(fields_get, 4);
    }
    assert(crate::json::obj_get_str(enc_record(c), "last_fetch"@) == Some(c.last_fetch)) by {
        reveal_with_fuel(fields_get, 5);
    }
    assert(crate::json::obj_get_str(enc_record(c), "content_hash"@) == Some(c.spec_hash)) by {
        reveal_with_fuel(fields_get, 6);
    }
    assert(crate::json::obj_get_str(enc_record(c), "source"@) == Some(c.source)) by {
        reveal_with_fuel(fields_get, 7);
    }
}

proof fn lemma_rec_lookup_b(c: OasCacheV)
    ensures
        obj_get(enc_record(c), "ttl_seconds"@) == Some(enc_u64(c.ttl_seconds)),
        obj_get(enc_record(c), "http_cache"@) == Some(
            JsonVal::Obj(
                seq![
                    ("etag"@, enc_opt_str(c.http_cache.etag)),
                    ("last_modified"@, enc_opt_str(c.http_cache.last_modified)),
                ],
            ),
        ),
        obj_get(enc_record(c), "local_cache"@) == Some(
            JsonVal::Obj(seq![("mtime"@, enc_opt_str(c.local_cache.mtime))]),
        ),
        obj_get(enc_record(c), "meta"@) == Some(
            JsonVal::Obj(
                seq![
                    ("title"@, enc_opt_str(c.meta.title)),
                    ("version"@, enc_opt_str(c.meta.version)),
                    ("dialect"@, enc_opt_str(c.meta.openapi_version)),
                    ("endpoint_count"@, JsonVal::Num(dec_of(c.meta.endpoint_count as nat))),
                    ("schema_count"@, JsonVal::Num(dec_of(c.meta.schema_count as nat))),
                ],
            ),
        ),
        obj_get(enc_record(c), "parsed_spec"@) == Some(
            match c.parsed_spec {
                Some(s) => enc_spec(s),
                None => JsonVal::Null,
            },
        ),
{
    lemma_record_keys_distinct();
    assert(obj_get(enc_record(c), "ttl_seconds"@) == Some(enc_u64(c.ttl_seconds))) by {
        reveal_with_fuel(fields_get, 8);
    }
    assert(obj_get(enc_record(c), "http_cache"@) is Some) by {
        reveal_with_fuel(fields_get, 9);
    }
    assert(obj_get(enc_record(c), "http_cache"@) == Some(enc_record(c)->Obj_0[6].1)) by {
        reveal_with_fuel(fields_get, 9);
    }
    assert(obj_get(enc_record(c), "local_cache"@) == Some(enc_record(c)->Obj_0[7].1)) by {
        reveal_with_fuel(fields_get, 10);
    }
    assert(obj_get(enc_record(c), "meta"@) == Some(enc_record(c)->Obj_0[8].1)) by {
        reveal_with_fuel(fields_get, 11);
    }
    assert(obj_get(enc_record(c), "parsed_spec"@) == Some(enc_record(c)->Obj_0[9].1)) by {
        reveal_with_fuel(fields_get, 12);
    }
}

/// Round trip: reading back a written record restores it, embedded model
/// included, field for field.
pub proof fn lemma_record_round_trip(c: OasCacheV)
    requires
        record_counts_ok(c),
    ensures
        dec_record(enc_record(c)) == Some(c),
{
    lemma_record_keys_distinct();
    lemma_rec_lookup_a(c);
    lemma_rec_lookup_b(c);
    crate::text::lemma_dec_round_trip(c.schema_version as nat);
    crate::text::lemma_dec_round_trip(c.ttl_seconds as nat);
    crate::text::lemma_dec_round_trip(c.meta.endpoint_count as nat);
    crate::text::lemma_dec_round_trip(c.meta.schema_count as nat);
    match c.parsed_spec {
        Some(s) => {
            lemma_spec_round_trip(s);
        },
        None => {},
    }
    assert(dec_http_cache(enc_record(c)->Obj_0[6].1) == Some(c.http_cache)) by {
        reveal_with_fuel(fields_get, 4);
    }
    assert(dec_local_cache(enc_record(c)->Obj_0[7].1) == Some(c.local_cache)) by {
        reveal_with_fuel(fields_get, 3);
    }
    assert(dec_cached_meta(enc_record(c)->Obj_0[8].1) == Some(c.meta)) by {
        reveal_with_fuel(fields_get, 7);
    }
    assert(dec_record(enc_record(c)) =~= Some(c));
}


/// Views of typed vectors, for the list codecs.
pub open spec fn param_views(s: Seq<Parameter>) -> Seq<ParameterV> {
    s.map_values(|p: Parameter| p@)
}

pub open spec fn resp_views(s: Seq<Response>) -> Seq<ResponseV> {
    s.map_values(|r: Response| r@)
}

pub open spec fn ep_views(s: Seq<Endpoint>) -> Seq<EndpointV> {
    s.map_values(|e: Endpoint| e@)
}

pub open spec fn sc_views(s: Seq<Schema>) -> Seq<SchemaV> {
    s.map_values(|x: Schema| x@)
}

/// Writes each item of a param list.
fn param_list_to_json(xs: &Vec<Parameter>) -> (r: Vec<JsonValue>)
    ensures
        JsonValue::views_of(r@) == enc_params(param_views(xs@)),
{
    let ghost xv = param_views(xs@);
    let mut out: Vec<JsonValue> = Vec::new();
    let n = xs.len();
    let mut i: usize = 0;
    proof {
        assert(xv.take(0) =~= Seq::<ParameterV>::empty());
        assert(JsonValue::views_of(out@) =~= enc_params(xv.take(0)));
    }
    while i < n
        invariant
            0 <= i <= n,
            n == xs@.len(),
            xv == param_views(xs@),
            xv.len() == n,
            forall|k: int| 0 <= k < n ==> xv[k] == (#[trigger] xs@[k])@,
            JsonValue::views_of(out@) == enc_params(xv.take(i as int)),
        decreases n - i,
    {
        let jv = parameter_to_json(&xs[i]);
        let ghost before = out@;
        out.push(jv);
        proof {
            crate::json::lemma_views_of_index(before);
            crate::json::lemma_views_of_index(out@);
            assert forall|k: int|
                0 <= k < out@.len() implies JsonValue::views_of(out@)[k] == JsonValue::views_of(
                before,
            ).push(enc_parameter(xv[i as int]))[k] by {
                assert(JsonValue::views_of(out@)[k] == out@[k].view_rec());
                if k < before.len() {
                    assert(out@[k] == before[k]);
                    assert(JsonValue::views_of(before)[k] == before[k].view_rec());
                } else {
                    assert(out@[k] == jv);
                }
            }
            assert(JsonValue::views_of(out@) =~= JsonValue::views_of(before).push(
                enc_parameter(xv[i as int]),
            ));
            assert(xv.take(i + 1) =~= xv.take(i as int).push(xv[i as int]));
            lemma_param_enc_push(xv.take(i as int), xv[i as int]);
        }
        i += 1;
    }
    proof {
        assert(xv.take(n as int) =~= xv);
    }
    out
}

proof fn lemma_param_enc_push(xs: Seq<ParameterV>, x: ParameterV)
    ensures
        enc_params(xs.push(x)) =~= enc_params(xs).push(enc_parameter(x)),
    decreases xs.len(),
{
    if xs.len() == 0 {
        assert(xs.push(x)[0] == x);
        assert(xs.push(x).drop_first() =~= Seq::<ParameterV>::empty());
        assert(enc_params(Seq::<ParameterV>::empty()) =~= Seq::<JsonVal>::empty());
    } else {
        lemma_param_enc_push(xs.drop_first(), x);
        assert(xs.push(x)[0] == xs[0]);
        assert(xs.push(x).drop_first() =~= xs.drop_first().push(x));
        assert(seq![enc_parameter(xs[0])] + enc_params(xs.drop_first()).push(enc_parameter(x)) =~= (
        seq![enc_parameter(xs[0])] + enc_params(xs.drop_first())).push(enc_parameter(x)));
    }
}

/// Reads each item of a param list back.
fn param_list_from_json(items: &Vec<JsonValue>) -> (r: Option<Vec<Parameter>>)
    ensures
        match r {
            Some(xs) => dec_params(JsonValue::views_of(items@)) == Some(param_views(xs@)),
            None => dec_params(JsonValue::views_of(items@)) is None,
        },
{
    proof {
        crate::json::lemma_views_of_index(items@);
    }
    let ghost iv = JsonValue::views_of(items@);
    let mut out: Vec<Parameter> = Vec::new();
    let n = items.len();
    let mut i: usize = 0;
    proof {
        assert(iv.skip(0) =~= iv);
    }
    while i < n
        invariant
            0 <= i <= n,
            n == items@.len(),
            iv == JsonValue::views_of(items@),
            iv.len() == n,
            forall|k: int| 0 <= k < n ==> iv[k] == #[trigger] items@[k].view_rec(),
            dec_params(iv) == (match dec_params(iv.skip(i as int)) {
                Some(rest) => Some(param_views(out@) + rest),
                None => None::<Seq<ParameterV>>,
            }),
        decreases n - i,
    {
        proof {
            assert(iv.skip(i as int)[0] == iv[i as int]);
            assert(iv.skip(i as int).drop_first() =~= iv.skip(i + 1));
        }
        let x = match parameter_from_json(&items[i]) {
            Some(x) => x,
            None => {
                return None;
            },
        };
        let ghost xv2 = x@;
        let ghost before = out@;
        out.push(x);
        proof {
            assert(param_views(out@) =~= param_views(before).push(xv2));
            if dec_params(iv.skip(i + 1)) is Some {
                assert(param_views(before) + (seq![xv2] + dec_params(iv.skip(i + 1))->0)
                    =~= param_views(out@) + dec_params(iv.skip(i + 1))->0);
            }
        }
        i += 1;
    }
    proof {
        assert(iv.skip(n as int) =~= Seq::<JsonVal>::empty());
        assert(dec_params(Seq::<JsonVal>::empty()) == Some(Seq::<ParameterV>::empty()));
        assert(param_views(out@) + Seq::<ParameterV>::empty() =~= param_views(out@));
    }
    Some(out)
}


/// Writes each item of a resp list.
fn resp_list_to_json(xs: &Vec<Response>) -> (r: Vec<JsonValue>)
    ensures
        JsonValue::views_of(r@) == enc_resps(resp_views(xs@)),
{
    let ghost xv = resp_views(xs@);
    let mut out: Vec<JsonValue> = Vec::new();
    let n = xs.len();
    let mut i: usize = 0;
    proof {
        assert(xv.take(0) =~= Seq::<ResponseV>::empty());
        assert(JsonValue::views_of(out@) =~= enc_resps(xv.take(0)));
    }
    while i < n
        invariant
            0 <= i <= n,
            n == xs@.len(),
            xv == resp_views(xs@),
            xv.len() == n,
            forall|k: int| 0 <= k < n ==> xv[k] == (#[trigger] xs@[k])@,
            JsonValue::views_of(out@) == enc_resps(xv.take(i as int)),
        decreases n - i,
    {
        let jv = response_to_json(&xs[i]);
        let ghost before = out@;
        out.push(jv);
        proof {
            crate::json::lemma_views_of_index(before);
            crate::json::lemma_views_of_index(out@);
            assert forall|k: int|
                0 <= k < out@.len() implies JsonValue::views_of(out@)[k] == JsonValue::views_of(
                before,
            ).push(enc_response(xv[i as int]))[k] by {
                assert(JsonValue::views_of(out@)[k] == out@[k].view_rec());
                if k < before.len() {
                    assert(out@[k] == before[k]);
                    assert(JsonValue::views_of(before)[k] == before[k].view_rec());
                } else {
                    assert(out@[k] == jv);
                }
            }
            assert(JsonValue::views_of(out@) =~= JsonValue::views_of(before).push(
                enc_response(xv[i as int]),
            ));
            assert(xv.take(i + 1) =~= xv.take(i as int).push(xv[i as int]));
            lemma_resp_enc_push(xv.take(i as int), xv[i as int]);
        }
        i += 1;
    }
    proof {
        assert(xv.take(n as int) =~= xv);
    }
    out
}

proof fn lemma_resp_enc_push(xs: Seq<ResponseV>, x: ResponseV)
    ensures
        enc_resps(xs.push(x)) =~= enc_resps(xs).push(enc_response(x)),
    decreases xs.len(),
{
    if xs.len() == 0 {
        assert(xs.push(x)[0] == x);
        assert(xs.push(x).drop_first() =~= Seq::<ResponseV>::empty());
        assert(enc_resps(Seq::<ResponseV>::empty()) =~= Seq::<JsonVal>::empty());
    } else {
        lemma_resp_enc_push(xs.drop_first(), x);
        assert(xs.push(x)[0] == xs[0]);
        assert(xs.push(x).drop_first() =~= xs.drop_first().push(x));
        assert(seq![enc_response(xs[0])] + enc_resps(xs.drop_first()).push(enc_response(x)) =~= (
        seq![enc_response(xs[0])] + enc_resps(xs.drop_first())).push(enc_response(x)));
    }
}

/// Reads each item of a resp list back.
fn resp_list_from_json(items: &Vec<JsonValue>) -> (r: Option<Vec<Response>>)
    ensures
        match r {
            Some(xs) => dec_resps(JsonValue::views_of(items@)) == Some(resp_views(xs@)),
            None => dec_resps(JsonValue::views_of(items@)) is None,
        },
{
    proof {
        crate::json::lemma_views_of_index(items@);
    }
    let ghost iv = JsonValue::views_of(items@);
    let mut out: Vec<Response> = Vec::new();
    let n = items.len();
    let mut i: usize = 0;
    proof {
        assert(iv.skip(0) =~= iv);
    }
    while i < n
        invariant
            0 <= i <= n,
            n == items@.len(),
            iv == JsonValue::views_of(items@),
            iv.len() == n,
            forall|k: int| 0 <= k < n ==> iv[k] == #[trigger] items@[k].view_rec(),
            dec_resps(iv) == (match dec_resps(iv.skip(i as int)) {
                Some(rest) => Some(resp_views(out@) + rest),
                None => None::<Seq<ResponseV>>,
            }),
        decreases n - i,
    {
        proof {
            assert(iv.skip(i as int)[0] == iv[i as int]);
            assert(iv.skip(i as int).drop_first() =~= iv.skip(i + 1));
        }
        let x = match response_from_json(&items[i]) {
            Some(x) => x,
            None => {
                return None;
            },
        };
        let ghost xv2 = x@;
        let ghost before = out@;
        out.push(x);
        proof {
            assert(resp_views(out@) =~= resp_views(before).push(xv2));
            if dec_resps(iv.skip(i + 1)) is Some {
                assert(resp_views(before) + (seq![xv2] + dec_resps(iv.skip(i + 1))->0)
                    =~= resp_views(out@) + dec_resps(iv.skip(i + 1))->0);
            }
        }
        i += 1;
    }
    proof {
        assert(iv.skip(n as int) =~= Seq::<JsonVal>::empty());
        assert(dec_resps(Seq::<JsonVal>::empty()) == Some(Seq::<ResponseV>::empty()));
        assert(resp_views(out@) + Seq::<ResponseV>::empty() =~= resp_views(out@));
    }
    Some(out)
}


/// Writes each item of a endpoint list.
fn endpoint_list_to_json(xs: &Vec<Endpoint>) -> (r: Vec<JsonValue>)
    ensures
        JsonValue::views_of(r@) == enc_endpoints(ep_views(xs@)),
{
    let ghost xv = ep_views(xs@);
    let mut out: Vec<JsonValue> = Vec::new();
    let n = xs.len();
    let mut i: usize = 0;
    proof {
        assert(xv.take(0) =~= Seq::<EndpointV>::empty());
        assert(JsonValue::views_of(out@) =~= enc_endpoints(xv.take(0)));
    }
    while i < n
        invariant
            0 <= i <= n,
            n == xs@.len(),
            xv == ep_views(xs@),
            xv.len() == n,
            forall|k: int| 0 <= k < n ==> xv[k] == (#[trigger] xs@[k])@,
            JsonValue::views_of(out@) == enc_endpoints(xv.take(i as int)),
        decreases n - i,
    {
        let jv = endpoint_to_json(&xs[i]);
        let ghost before = out@;
        out.push(jv);
        proof {
            crate::json::lemma_views_of_index(before);
            crate::json::lemma_views_of_index(out@);
            assert forall|k: int|
                0 <= k < out@.len() implies JsonValue::views_of(out@)[k] == JsonValue::views_of(
                before,
            ).push(enc_endpoint(xv[i as int]))[k] by {
                assert(JsonValue::views_of(out@)[k] == out@[k].view_rec());
                if k < before.len() {
                    assert(out@[k] == before[k]);
                    assert(JsonValue::views_of(before)[k] == before[k].view_rec());
                } else {
                    assert(out@[k] == jv);
                }
            }
            assert(JsonValue::views_of(out@) =~= JsonValue::views_of(before).push(
                enc_endpoint(xv[i as int]),
            ));
            assert(xv.take(i + 1) =~= xv.take(i as int).push(xv[i as int]));
            lemma_endpoint_enc_push(xv.take(i as int), xv[i as int]);
        }
        i += 1;
    }
    proof {
        assert(xv.take(n as int) =~= xv);
    }
    out
}

proof fn lemma_endpoint_enc_push(xs: Seq<EndpointV>, x: EndpointV)
    ensures
        enc_endpoints(xs.push(x)) =~= enc_endpoints(xs).push(enc_endpoint(x)),
    decreases xs.len(),
{
    if xs.len() == 0 {
        assert(xs.push(x)[0] == x);
        assert(xs.push(x).drop_first() =~= Seq::<EndpointV>::empty());
        assert(enc_endpoints(Seq::<EndpointV>::empty()) =~= Seq::<JsonVal>::empty());
    } else {
        lemma_endpoint_enc_push(xs.drop_first(), x);
        assert(xs.push(x)[0] == xs[0]);
        assert(xs.push(x).drop_first() =~= xs.drop_first().push(x));
        assert(seq![enc_endpoint(xs[0])] + enc_endpoints(xs.drop_first()).push(enc_endpoint(x)) =~= (
        seq![enc_endpoint(xs[0])] + enc_endpoints(xs.drop_first())).push(enc_endpoint(x)));
    }
}

/// Reads each item of a endpoint list back.
fn endpoint_list_from_json(items: &Vec<JsonValue>) -> (r: Option<Vec<Endpoint>>)
    ensures
        match r {
            Some(xs) => dec_endpoints(JsonValue::views_of(items@)) == Some(ep_views(xs@)),
            None => dec_endpoints(JsonValue::views_of(items@)) is None,
        },
{
    proof {
        crate::json::lemma_views_of_index(items@);
    }
    let ghost iv = JsonValue::views_of(items@);
    let mut out: Vec<Endpoint> = Vec::new();
    let n = items.len();
    let mut i: usize = 0;
    proof {
        assert(iv.skip(0) =~= iv);
    }
    while i < n
        invariant
            0 <= i <= n,
            n == items@.len(),
            iv == JsonValue::views_of(items@),
            iv.len() == n,
            forall|k: int| 0 <= k < n ==> iv[k] == #[trigger] items@[k].view_rec(),
            dec_endpoints(iv) == (match dec_endpoints(iv.skip(i as int)) {
                Some(rest) => Some(ep_views(out@) + rest),
                None => None::<Seq<EndpointV>>,
            }),
        decreases n - i,
    {
        proof {
            assert(iv.skip(i as int)[0] == iv[i as int]);
            assert(iv.skip(i as int).drop_first() =~= iv.skip(i + 1));
        }
        let x = match endpoint_from_json(&items[i]) {
            Some(x) => x,
            None => {
                return None;
            },
        };
        let ghost xv2 = x@;
        let ghost before = out@;
        out.push(x);
        proof {
            assert(ep_views(out@) =~= ep_views(before).push(xv2));
            if dec_endpoints(iv.skip(i + 1)) is Some {
                assert(ep_views(before) + (seq![xv2] + dec_endpoints(iv.skip(i + 1))->0)
                    =~= ep_views(out@) + dec_endpoints(iv.skip(i + 1))->0);
            }
        }
        i += 1;
    }
    proof {
        assert(iv.skip(n as int) =~= Seq::<JsonVal>::empty());
        assert(dec_endpoints(Seq::<JsonVal>::empty()) == Some(Seq::<EndpointV>::empty()));
        assert(ep_views(out@) + Seq::<EndpointV>::empty() =~= ep_views(out@));
    }
    Some(out)
}


/// Writes each item of a schema list.
fn schema_list_to_json(xs: &Vec<Schema>) -> (r: Vec<JsonValue>)
    ensures
        JsonValue::views_of(r@) == enc_schemas(sc_views(xs@)),
{
    let ghost xv = sc_views(xs@);
    let mut out: Vec<JsonValue> = Vec::new();
    let n = xs.len();
    let mut i: usize = 0;
    proof {
        assert(xv.take(0) =~= Seq::<SchemaV>::empty());
        assert(JsonValue::views_of(out@) =~= enc_schemas(xv.take(0)));
    }
    while i < n
        invariant
            0 <= i <= n,
            n == xs@.len(),
            xv == sc_views(xs@),
            xv.len() == n,
            forall|k: int| 0 <= k < n ==> xv[k] == (#[trigger] xs@[k])@,
            JsonValue::views_of(out@) == enc_schemas(xv.take(i as int)),
        decreases n - i,
    {
        let jv = schema_to_json(&xs[i]);
        let ghost before = out@;
        out.push(jv);
        proof {
            crate::json::lemma_views_of_index(before);
            crate::json::lemma_views_of_index(out@);
            assert forall|k: int|
                0 <= k < out@.len() implies JsonValue::views_of(out@)[k] == JsonValue::views_of(
                before,
            ).push(enc_schema(xv[i as int]))[k] by {
                assert(JsonValue::views_of(out@)[k] == out@[k].view_rec());
                if k < before.len() {
                    assert(out@[k] == before[k]);
                    assert(JsonValue::views_of(before)[k] == before[k].view_rec());
                } else {
                    assert(out@[k] == jv);
                }
            }
            assert(JsonValue::views_of(out@) =~= JsonValue::views_of(before).push(
                enc_schema(xv[i as int]),
            ));
            assert(xv.take(i + 1) =~= xv.take(i as int).push(xv[i as int]));
            lemma_schema_enc_push(xv.take(i as int), xv[i as int]);
        }
        i += 1;
    }
    proof {
        assert(xv.take(n as int) =~= xv);
    }
    out
}

proof fn lemma_schema_enc_push(xs: Seq<SchemaV>, x: SchemaV)
    ensures
        enc_schemas(xs.push(x)) =~= enc_schemas(xs).push(enc_schema(x)),
    decreases xs.len(),
{
    if xs.len() == 0 {
        assert(xs.push(x)[0] == x);
        assert(xs.push(x).drop_first() =~= Seq::<SchemaV>::empty());
        assert(enc_schemas(Seq::<SchemaV>::empty()) =~= Seq::<JsonVal>::empty());
    } else {
        lemma_schema_enc_push(xs.drop_first(), x);
        assert(xs.push(x)[0] == xs[0]);
        assert(xs.push(x).drop_first() =~= xs.drop_first().push(x));
        assert(seq![enc_schema(xs[0])] + enc_schemas(xs.drop_first()).push(enc_schema(x)) =~= (
        seq![enc_schema(xs[0])] + enc_schemas(xs.drop_first())).push(enc_schema(x)));
    }
}

/// Reads each item of a schema list back.
fn schema_list_from_json(items: &Vec<JsonValue>) -> (r: Option<Vec<Schema>>)
    ensures
        match r {
            Some(xs) => dec_schemas(JsonValue::views_of(items@)) == Some(sc_views(xs@)),
            None => dec_schemas(JsonValue::views_of(items@)) is None,
        },
{
    proof {
        crate::json::lemma_views_of_index(items@);
    }
    let ghost iv = JsonValue::views_of(items@);
    let mut out: Vec<Schema> = Vec::new();
    let n = items.len();
    let mut i: usize = 0;
    proof {
        assert(iv.skip(0) =~= iv);
    }
    while i < n
        invariant
            0 <= i <= n,
            n == items@.len(),
            iv == JsonValue::views_of(items@),
            iv.len() == n,
            forall|k: int| 0 <= k < n ==> iv[k] == #[trigger] items@[k].view_rec(),
            dec_schemas(iv) == (match dec_schemas(iv.skip(i as int)) {
                Some(rest) => Some(sc_views(out@) + rest),
                None => None::<Seq<SchemaV>>,
            }),
        decreases n - i,
    {
        proof {
            assert(iv.skip(i as int)[0] == iv[i as int]);
            assert(iv.skip(i as int).drop_first() =~= iv.skip(i + 1));
        }
        let x = match schema_from_json(&items[i]) {
            Some(x) => x,
            None => {
                return None;
            },
        };
        let ghost xv2 = x@;
        let ghost before = out@;
        out.push(x);
        proof {
            assert(sc_views(out@) =~= sc_views(before).push(xv2));
            if dec_schemas(iv.skip(i + 1)) is Some {
                assert(sc_views(before) + (seq![xv2] + dec_schemas(iv.skip(i + 1))->0)
                    =~= sc_views(out@) + dec_schemas(iv.skip(i + 1))->0);
            }
        }
        i += 1;
    }
    proof {
        assert(iv.skip(n as int) =~= Seq::<JsonVal>::empty());
        assert(dec_schemas(Seq::<JsonVal>::empty()) == Some(Seq::<SchemaV>::empty()));
        assert(sc_views(out@) + Seq::<SchemaV>::empty() =~= sc_views(out@));
    }
    Some(out)
}

/// Writes one endpoint.
fn endpoint_to_json(e: &Endpoint) -> (r: JsonValue)
    ensures
        r@ == enc_endpoint(e@),
{
    let mut fields: Vec<(String, JsonValue)> = Vec::new();
    fields.push((skey("path"), JsonValue::Str(e.path.clone())));
    fields.push((skey("method"), JsonValue::Str(skey(e.method.name()))));
    fields.push((skey("operation_id"), opt_str_to_json(&e.operation_id)));
    fields.push((skey("summary"), opt_str_to_json(&e.summary)));
    fields.push((skey("description"), opt_str_to_json(&e.description)));
    fields.push((skey("tags"), str_list_to_json(&e.tags)));
    fields.push((skey("parameters"), JsonValue::Arr(param_list_to_json(&e.parameters))));
    let body = match &e.request_body {
        Some(b) => body_to_json(b),
        None => JsonValue::Null,
    };
    fields.push((skey("request_body"), body));
    fields.push((skey("responses"), JsonValue::Arr(resp_list_to_json(&e.responses))));
    fields.push((skey("deprecated"), JsonValue::Bool(e.deprecated)));
    fields.push((skey("content_hash"), JsonValue::Str(e.hash.clone())));
    fields.push((skey("schema_refs"), str_list_to_json(&e.schema_refs)));
    proof {
        crate::json::lemma_field_views_of_index(fields@);
        assert(fields@.len() == 12);
        assert(fields@[0].0@ == "path"@ && fields@[0].1.view_rec() == JsonVal::Str(e@.path));
        assert(fields@[1].0@ == "method"@ && fields@[1].1.view_rec() == JsonVal::Str(
            e@.method.name_of(),
        ));
        assert(fields@[2].0@ == "operation_id"@ && fields@[2].1.view_rec() == enc_opt_str(
            e@.operation_id,
        ));
        assert(fields@[3].0@ == "summary"@ && fields@[3].1.view_rec() == enc_opt_str(e@.summary));
        assert(fields@[4].0@ == "description"@ && fields@[4].1.view_rec() == enc_opt_str(
            e@.description,
        ));
        assert(fields@[5].0@ == "tags"@ && fields@[5].1.view_rec() == enc_str_list(e@.tags));
        assert(fields@[6].0@ == "parameters"@ && fields@[6].1.view_rec() == JsonVal::Arr(
            enc_params(e@.parameters),
        ));
        assert(fields@[7].0@ == "request_body"@ && fields@[7].1.view_rec() == (
        match e@.request_body {
            Some(b) => enc_body(b),
            None => JsonVal::Null,
        }));
        assert(fields@[8].0@ == "responses"@ && fields@[8].1.view_rec() == JsonVal::Arr(
            enc_resps(e@.responses),
        ));
        assert(fields@[9].0@ == "deprecated"@ && fields@[9].1.view_rec() == JsonVal::Bool(
            e@.deprecated,
        ));
        assert(fields@[10].0@ == "content_hash"@ && fields@[10].1.view_rec() == JsonVal::Str(
            e@.hash,
        ));
        assert(fields@[11].0@ == "schema_refs"@ && fields@[11].1.view_rec() == enc_str_list(
            e@.schema_refs,
        ));
        assert(fv(fields@) =~= enc_endpoint(e@)->Obj_0);
    }
    JsonValue::Obj(fields)
}

/// Reads one endpoint back.
#[verifier::rlimit(50)]
fn endpoint_from_json(j: &JsonValue) -> (r: Option<Endpoint>)
    ensures
        match r {
            Some(e) => dec_endpoint(j@) == Some(e@),
            None => dec_endpoint(j@) is None,
        },
{
    let path = match j.get_str("path") {
        Some(s) => s.clone(),
        None => {
            return None;
        },
    };
    let method = match j.get_str("method") {
        Some(s) => match method_from_label(s.as_str()) {
            Some(m) => m,
            None => {
                return None;
            },
        },
        None => {
            return None;
        },
    };
    let operation_id = match j.get("operation_id") {
        Some(m) => match opt_str_from_json(m) {
            Some(o) => o,
            None => {
                return None;
            },
        },
        None => {
            return None;
        },
    };
    let summary = match j.get("summary") {
        Some(m) => match opt_str_from_json(m) {
            Some(o) => o,
            None => {
                return None;
            },
        },
        None => {
            return None;
        },
    };
    let description = match j.get("description") {
        Some(m) => match opt_str_from_json(m) {
            Some(o) => o,
            None => {
                return None;
            },
        },
        None => {
            return None;
        },
    };
    let tags = match j.get("tags") {
        Some(m) => match str_list_from_json(m) {
            Some(l) => l,
            None => {
                return None;
            },
        },
        None => {
            return None;
        },
    };
    let parameters = match j.get("parameters") {
        Some(m) => match m.as_array() {
            Some(items) => match param_list_from_json(items) {
                Some(l) => l,
                None => {
                    return None;
                },
            },
            None => {
                return None;
            },
        },
        None => {
            return None;
        },
    };
    let request_body = match j.get("request_body") {
        Some(m) => match m {
            JsonValue::Null => None,
            _ => {
                match body_from_json(m) {
                    Some(b) => Some(b),
                    None => {
                        return None;
                    },
                }
            },
        },
        None => {
            return None;
        },
    };
    let responses = match j.get("responses") {
        Some(m) => match m.as_array() {
            Some(items) => match resp_list_from_json(items) {
                Some(l) => l,
                None => {
                    return None;
                },
            },
            None => {
                return None;
            },
        },
        None => {
            return None;
        },
    };
    let deprecated = match j.get_bool("deprecated") {
        Some(b) => b,
        None => {
            return None;
        },
    };
    let hash = match j.get_str("content_hash") {
        Some(s) => s.clone(),
        None => {
            return None;
        },
    };
    let schema_refs = match j.get("schema_refs") {
        Some(m) => match str_list_from_json(m) {
            Some(l) => l,
            None => {
                return None;
            },
        },
        None => {
            return None;
        },
    };
    let e = Endpoint {
        path,
        method,
        operation_id,
        summary,
        description,
        tags,
        parameters,
        request_body,
        responses,
        deprecated,
        hash,
        schema_refs,
    };
    proof {
        assert(dec_endpoint(j@) =~= Some(e@));
    }
    Some(e)
}

/// Writes one named schema.
fn schema_to_json(x: &Schema) -> (r: JsonValue)
    ensures
        r@ == enc_schema(x@),
{
    let mut fields: Vec<(String, JsonValue)> = Vec::new();
    fields.push((skey("name"), JsonValue::Str(x.name.clone())));
    fields.push((skey("schema_type"), schema_type_to_json(&x.schema_type)));
    fields.push((skey("description"), opt_str_to_json(&x.description)));
    fields.push((skey("refs"), str_list_to_json(&x.refs)));
    fields.push((skey("content_hash"), JsonValue::Str(x.hash.clone())));
    proof {
        crate::json::lemma_field_views_of_index(fields@);
        assert(fields@.len() == 5);
        assert(fields@[0].0@ == "name"@ && fields@[0].1.view_rec() == JsonVal::Str(x@.name));
        assert(fields@[1].0@ == "schema_type"@ && fields@[1].1.view_rec() == enc_schema_type(
            x@.schema_type,
        ));
        assert(fields@[2].0@ == "description"@ && fields@[2].1.view_rec() == enc_opt_str(
            x@.description,
        ));
        assert(fields@[3].0@ == "refs"@ && fields@[3].1.view_rec() == enc_str_list(x@.refs));
        assert(fields@[4].0@ == "content_hash"@ && fields@[4].1.view_rec() == JsonVal::Str(
            x@.hash,
        ));
        assert(fv(fields@) =~= enc_schema(x@)->Obj_0);
    }
    JsonValue::Obj(fields)
}

/// Reads one named schema back.
fn schema_from_json(j: &JsonValue) -> (r: Option<Schema>)
    ensures
        match r {
            Some(x) => dec_schema(j@) == Some(x@),
            None => dec_schema(j@) is None,
        },
{
    let name = match j.get_str("name") {
        Some(s) => s.clone(),
        None => {
            return None;
        },
    };
    let schema_type = match j.get("schema_type") {
        Some(m) => match schema_type_from_json(m) {
            Some(t) => t,
            None => {
                return None;
            },
        },
        None => {
            return None;
        },
    };
    let description = match j.get("description") {
        Some(m) => match opt_str_from_json(m) {
            Some(o) => o,
            None => {
                return None;
            },
        },
        None => {
            return None;
        },
    };
    let refs = match j.get("refs") {
        Some(m) => match str_list_from_json(m) {
            Some(l) => l,
            None => {
                return None;
            },
        },
        None => {
            return None;
        },
    };
    let hash = match j.get_str("content_hash") {
        Some(s) => s.clone(),
        None => {
            return None;
        },
    };
    Some(Schema { name, schema_type, description, refs, hash })
}

/// Writes the document metadata.
fn metadata_to_json(m: &SpecMetadata) -> (r: JsonValue)
    ensures
        r@ == enc_metadata(m@),
{
    let mut fields: Vec<(String, JsonValue)> = Vec::new();
    fields.push((skey("title"), JsonValue::Str(m.title.clone())));
    fields.push((skey("version"), JsonValue::Str(m.version.clone())));
    fields.push((skey("description"), opt_str_to_json(&m.description)));
    fields.push((skey("dialect"), JsonValue::Str(skey(m.openapi_version.label()))));
    fields.push((skey("endpoint_count"), u64_to_json(m.endpoint_count as u64)));
    fields.push((skey("schema_count"), u64_to_json(m.schema_count as u64)));
    fields.push((skey("tag_count"), u64_to_json(m.tag_count as u64)));
    proof {
        crate::json::lemma_field_views_of_index(fields@);
        assert(fields@.len() == 7);
        assert(fields@[0].0@ == "title"@ && fields@[0].1.view_rec() == JsonVal::Str(m@.title));
        assert(fields@[1].0@ == "version"@ && fields@[1].1.view_rec() == JsonVal::Str(
            m@.version,
        ));
        assert(fields@[2].0@ == "description"@ && fields@[2].1.view_rec() == enc_opt_str(
            m@.description,
        ));
        assert(fields@[3].0@ == "dialect"@ && fields@[3].1.view_rec() == JsonVal::Str(
            m@.openapi_version.label_of(),
        ));
        assert(fields@[4].0@ == "endpoint_count"@ && fields@[4].1.view_rec() == JsonVal::Num(
            dec_of(m@.endpoint_count as nat),
        ));
        assert(fields@[5].0@ == "schema_count"@ && fields@[5].1.view_rec() == JsonVal::Num(
            dec_of(m@.schema_count as nat),
        ));
        assert(fields@[6].0@ == "tag_count"@ && fields@[6].1.view_rec() == JsonVal::Num(
            dec_of(m@.tag_count as nat),
        ));
        assert(fv(fields@) =~= enc_metadata(m@)->Obj_0);
    }
    JsonValue::Obj(fields)
}

/// Reads the document metadata back.
fn metadata_from_json(j: &JsonValue) -> (r: Option<SpecMetadata>)
    ensures
        match r {
            Some(m) => dec_metadata(j@) == Some(m@),
            None => dec_metadata(j@) is None,
        },
{
    let title = match j.get_str("title") {
        Some(s) => s.clone(),
        None => {
            return None;
        },
    };
    let version = match j.get_str("version") {
        Some(s) => s.clone(),
        None => {
            return None;
        },
    };
    let description = match j.get("description") {
        Some(m) => match opt_str_from_json(m) {
            Some(o) => o,
            None => {
                return None;
            },
        },
        None => {
            return None;
        },
    };
    let openapi_version = match j.get_str("dialect") {
        Some(s) => match OpenApiVersion::from_label(s.as_str()) {
            Some(v) => v,
            None => {
                return None;
            },
        },
        None => {
            return None;
        },
    };
    let endpoint_count = match j.get("endpoint_count") {
        Some(m) => match u64_from_json(m) {
            Some(n) => if n <= usize::MAX as u64 {
                n as usize
            } else {
                return None;
            },
            None => {
                return None;
            },
        },
        None => {
            return None;
        },
    };
    let schema_count = match j.get("schema_count") {
        Some(m) => match u64_from_json(m) {
            Some(n) => if n <= usize::MAX as u64 {
                n as usize
            } else {
                return None;
            },
            None => {
                return None;
            },
        },
        None => {
            return None;
        },
    };
    let tag_count = match j.get("tag_count") {
        Some(m) => match u64_from_json(m) {
            Some(n) => if n <= usize::MAX as u64 {
                n as usize
            } else {
                return None;
            },
            None => {
                return None;
            },
        },
        None => {
            return None;
        },
    };
    Some(
        SpecMetadata {
            title,
            version,
            description,
            openapi_version,
            endpoint_count,
            schema_count,
            tag_count,
        },
    )
}

/// Writes a normalized model.
pub fn spec_to_json(s: &ParsedSpec) -> (r: JsonValue)
    ensures
        r@ == enc_spec(s@),
{
    let mut fields: Vec<(String, JsonValue)> = Vec::new();
    fields.push((skey("metadata"), metadata_to_json(&s.metadata)));
    fields.push((skey("endpoints"), JsonValue::Arr(endpoint_list_to_json(&s.endpoints))));
    fields.push((skey("schemas"), JsonValue::Arr(schema_list_to_json(&s.schemas))));
    fields.push((skey("tags"), str_list_to_json(&s.tags)));
    fields.push((skey("content_hash"), JsonValue::Str(s.spec_hash.clone())));
    fields.push((skey("source"), JsonValue::Str(s.source.clone())));
    proof {
        crate::json::lemma_field_views_of_index(fields@);
        assert(fields@.len() == 6);
        assert(fields@[0].0@ == "metadata"@ && fields@[0].1.view_rec() == enc_metadata(
            s@.metadata,
        ));
        assert(fields@[1].0@ == "endpoints"@ && fields@[1].1.view_rec() == JsonVal::Arr(
            enc_endpoints(s@.endpoints),
        ));
        assert(fields@[2].0@ == "schemas"@ && fields@[2].1.view_rec() == JsonVal::Arr(
            enc_schemas(s@.schemas),
        ));
        assert(fields@[3].0@ == "tags"@ && fields@[3].1.view_rec() == enc_str_list(s@.tags));
        assert(fields@[4].0@ == "content_hash"@ && fields@[4].1.view_rec() == JsonVal::Str(
            s@.spec_hash,
        ));
        assert(fields@[5].0@ == "source"@ && fields@[5].1.view_rec() == JsonVal::Str(s@.source));
        assert(fv(fields@) =~= enc_spec(s@)->Obj_0);
    }
    JsonValue::Obj(fields)
}

/// Reads a normalized model back.
pub fn spec_from_json(j: &JsonValue) -> (r: Option<ParsedSpec>)
    ensures
        match r {
            Some(s) => dec_spec(j@) == Some(s@),
            None => dec_spec(j@) is None,
        },
{
    let metadata = match j.get("metadata") {
        Some(m) => match metadata_from_json(m) {
            Some(md) => md,
            None => {
                return None;
            },
        },
        None => {
            return None;
        },
    };
    let endpoints = match j.get("endpoints") {
        Some(m) => match m.as_array() {
            Some(items) => match endpoint_list_from_json(items) {
                Some(l) => l,
                None => {
                    return None;
                },
            },
            None => {
                return None;
            },
        },
        None => {
            return None;
        },
    };
    let schemas = match j.get("schemas") {
        Some(m) => match m.as_array() {
            Some(items) => match schema_list_from_json(items) {
                Some(l) => l,
                None => {
                    return None;
                },
            },
            None => {
                return None;
            },
        },
        None => {
            return None;
        },
    };
    let tags = match j.get("tags") {
        Some(m) => match str_list_from_json(m) {
            Some(l) => l,
            None => {
                return None;
            },
        },
        None => {
            return None;
        },
    };
    let spec_hash = match j.get_str("content_hash") {
        Some(s) => s.clone(),
        None => {
            return None;
        },
    };
    let source = match j.get_str("source") {
        Some(s) => s.clone(),
        None => {
            return None;
        },
    };
    Some(ParsedSpec { metadata, endpoints, schemas, tags, spec_hash, source })
}

/// Writes a whole record as a document value.
pub fn record_to_json(c: &OasCache) -> (r: JsonValue)
    ensures
        r@ == enc_record(c@),
{
    let mut hc: Vec<(String, JsonValue)> = Vec::new();
    hc.push((skey("etag"), opt_str_to_json(&c.http_cache.etag)));
    hc.push((skey("last_modified"), opt_str_to_json(&c.http_cache.last_modified)));
    proof {
        crate::json::lemma_field_views_of_index(hc@);
        assert(hc@.len() == 2);
        assert(hc@[0].0@ == "etag"@ && hc@[0].1.view_rec() == enc_opt_str(c@.http_cache.etag));
        assert(hc@[1].0@ == "last_modified"@ && hc@[1].1.view_rec() == enc_opt_str(
            c@.http_cache.last_modified,
        ));
        assert(fv(hc@) =~= seq![
            ("etag"@, enc_opt_str(c@.http_cache.etag)),
            ("last_modified"@, enc_opt_str(c@.http_cache.last_modified)),
        ]);
    }
    let mut lc: Vec<(String, JsonValue)> = Vec::new();
    lc.push((skey("mtime"), opt_str_to_json(&c.local_cache.mtime)));
    proof {
        crate::json::lemma_field_views_of_index(lc@);
        assert(lc@.len() == 1);
        assert(lc@[0].0@ == "mtime"@ && lc@[0].1.view_rec() == enc_opt_str(c@.local_cache.mtime));
        assert(fv(lc@) =~= seq![("mtime"@, enc_opt_str(c@.local_cache.mtime))]);
    }
    let mut mt: Vec<(String, JsonValue)> = Vec::new();
    mt.push((skey("title"), opt_str_to_json(&c.meta.title)));
    mt.push((skey("version"), opt_str_to_json(&c.meta.version)));
    mt.push((skey("dialect"), opt_str_to_json(&c.meta.openapi_version)));
    mt.push((skey("endpoint_count"), u64_to_json(c.meta.endpoint_count as u64)));
    mt.push((skey("schema_count"), u64_to_json(c.meta.schema_count as u64)));
    proof {
        crate::json::lemma_field_views_of_index(mt@);
        assert(mt@.len() == 5);
        assert(mt@[0].0@ == "title"@ && mt@[0].1.view_rec() == enc_opt_str(c@.meta.title));
        assert(mt@[1].0@ == "version"@ && mt@[1].1.view_rec() == enc_opt_str(c@.meta.version));
        assert(mt@[2].0@ == "dialect"@ && mt@[2].1.view_rec() == enc_opt_str(
            c@.meta.openapi_version,
        ));
        assert(mt@[3].0@ == "endpoint_count"@ && mt@[3].1.view_rec() == JsonVal::Num(
            dec_of(c@.meta.endpoint_count as nat),
        ));
        assert(mt@[4].0@ == "schema_count"@ && mt@[4].1.view_rec() == JsonVal::Num(
            dec_of(c@.meta.schema_count as nat),
        ));
        assert(fv(mt@) =~= seq![
            ("title"@, enc_opt_str(c@.meta.title)),
            ("version"@, enc_opt_str(c@.meta.version)),
            ("dialect"@, enc_opt_str(c@.meta.openapi_version)),
            ("endpoint_count"@, JsonVal::Num(dec_of(c@.meta.endpoint_count as nat))),
            ("schema_count"@, JsonVal::Num(dec_of(c@.meta.schema_count as nat))),
        ]);
    }
    let ps = match &c.parsed_spec {
        Some(sp) => spec_to_json(sp),
        None => JsonValue::Null,
    };
    let mut fields: Vec<(String, JsonValue)> = Vec::new();
    fields.push((skey("version"), JsonValue::Str(c.version.clone())));
    fields.push((skey("schema_version"), u64_to_json(c.schema_version)));
    fields.push((skey("last_fetch"), JsonValue::Str(c.last_fetch.clone())));
    fields.push((skey("content_hash"), JsonValue::Str(c.spec_hash.clone())));
    fields.push((skey("source"), JsonValue::Str(c.source.clone())));
    fields.push((skey("ttl_seconds"), u64_to_json(c.ttl_seconds)));
    fields.push((skey("http_cache"), JsonValue::Obj(hc)));
    fields.push((skey("local_cache"), JsonValue::Obj(lc)));
    fields.push((skey("meta"), JsonValue::Obj(mt)));
    fields.push((skey("parsed_spec"), ps));
    proof {
        crate::json::lemma_field_views_of_index(fields@);
        assert(fields@.len() == 10);
        assert(fields@[0].0@ == "version"@ && fields@[0].1.view_rec() == JsonVal::Str(
            c@.version,
        ));
        assert(fields@[1].0@ == "schema_version"@ && fields@[1].1.view_rec() == enc_u64(
            c@.schema_version,
        ));
        assert(fields@[2].0@ == "last_fetch"@ && fields@[2].1.view_rec() == JsonVal::Str(
            c@.last_fetch,
        ));
        assert(fields@[3].0@ == "content_hash"@ && fields@[3].1.view_rec() == JsonVal::Str(
            c@.spec_hash,
        ));
        assert(fields@[4].0@ == "source"@ && fields@[4].1.view_rec() == JsonVal::Str(c@.source));
        assert(fields@[5].0@ == "ttl_seconds"@ && fields@[5].1.view_rec() == enc_u64(
            c@.ttl_seconds,
        ));
        assert(fields@[6].0@ == "http_cache"@ && fields@[6].1.view_rec()
            == enc_record(c@)->Obj_0[6].1);
        assert(fields@[7].0@ == "local_cache"@ && fields@[7].1.view_rec()
            == enc_record(c@)->Obj_0[7].1);
        assert(fields@[8].0@ == "meta"@ && fields@[8].1.view_rec() == enc_record(c@)->Obj_0[8].1);
        assert(fields@[9].0@ == "parsed_spec"@ && fields@[9].1.view_rec() == enc_record(
            c@,
        )->Obj_0[9].1);
        assert(fv(fields@) =~= enc_record(c@)->Obj_0);
    }
    JsonValue::Obj(fields)
}

/// Reads a whole record back from a document value.
#[verifier::rlimit(50)]
pub fn record_from_json(j: &JsonValue) -> (r: Option<OasCache>)
    ensures
        match r {
            Some(c) => dec_record(j@) == Some(c@),
            None => dec_record(j@) is None,
        },
{
    let version = match j.get_str("version") {
        Some(s) => s.clone(),
        None => {
            return None;
        },
    };
    let schema_version = match j.get("schema_version") {
        Some(m) => match u64_from_json(m) {
            Some(n) => n,
            None => {
                return None;
            },
        },
        None => {
            return None;
        },
    };
    let last_fetch = match j.get_str("last_fetch") {
        Some(s) => s.clone(),
        None => {
            return None;
        },
    };
    let spec_hash = match j.get_str("content_hash") {
        Some(s) => s.clone(),
        None => {
            return None;
        },
    };
    let source = match j.get_str("source") {
        Some(s) => s.clone(),
        None => {
            return None;
        },
    };
    let ttl_seconds = match j.get("ttl_seconds") {
        Some(m) => match u64_from_json(m) {
            Some(n) => n,
            None => {
                return None;
            },
        },
        None => {
            return None;
        },
    };
    let http_cache = match j.get("http_cache") {
        Some(h) => {
            let etag = match h.get("etag") {
                Some(m) => match opt_str_from_json(m) {
                    Some(o) => o,
                    None => {
                        return None;
                    },
                },
                None => {
                    return None;
                },
            };
            let last_modified = match h.get("last_modified") {
                Some(m) => match opt_str_from_json(m) {
                    Some(o) => o,
                    None => {
                        return None;
                    },
                },
                None => {
                    return None;
                },
            };
            HttpCacheInfo { etag, last_modified }
        },
        None => {
            return None;
        },
    };
    let local_cache = match j.get("local_cache") {
        Some(l) => {
            let mtime = match l.get("mtime") {
                Some(m) => match opt_str_from_json(m) {
                    Some(o) => o,
                    None => {
                        return None;
                    },
                },
                None => {
                    return None;
                },
            };
            LocalCacheInfo { mtime }
        },
        None => {
            return None;
        },
    };
    let meta = match j.get("meta") {
        Some(mv) => {
            let title = match mv.get("title") {
                Some(m) => match opt_str_from_json(m) {
                    Some(o) => o,
                    None => {
                        return None;
                    },
                },
                None => {
                    return None;
                },
            };
            let mversion = match mv.get("version") {
                Some(m) => match opt_str_from_json(m) {
                    Some(o) => o,
                    None => {
                        return None;
                    },
                },
                None => {
                    return None;
                },
            };
            let dialect = match mv.get("dialect") {
                Some(m) => match opt_str_from_json(m) {
                    Some(o) => o,
                    None => {
                        return None;
                    },
                },
                None => {
                    return None;
                },
            };
            let endpoint_count = match mv.get("endpoint_count") {
                Some(m) => match u64_from_json(m) {
                    Some(n) => if n <= usize::MAX as u64 {
                        n as usize
                    } else {
                        return None;
                    },
                    None => {
                        return None;
                    },
                },
                None => {
                    return None;
                },
            };
            let schema_count = match mv.get("schema_count") {
                Some(m) => match u64_from_json(m) {
                    Some(n) => if n <= usize::MAX as u64 {
                        n as usize
                    } else {
                        return None;
                    },
                    None => {
                        return None;
                    },
                },
                None => {
                    return None;
                },
            };
            CachedMeta {
                title,
                version: mversion,
                openapi_version: dialect,
                endpoint_count,
                schema_count,
            }
        },
        None => {
            return None;
        },
    };
    let parsed_spec = match j.get("parsed_spec") {
        Some(m) => match m {
            JsonValue::Null => None,
            _ => {
                match spec_from_json(m) {
                    Some(sp) => Some(sp),
                    None => {
                        return None;
                    },
                }
            },
        },
        None => {
            return None;
        },
    };
    let c = OasCache {
        version,
        schema_version,
        last_fetch,
        spec_hash,
        source,
        ttl_seconds,
        http_cache,
        local_cache,
        meta,
        parsed_spec,
    };
    proof {
        assert(dec_record(j@) =~= Some(c@));
    }
    Some(c)
}

} // verus!
