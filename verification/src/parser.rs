//! The dialect-normalizing parser: raw document text in, unified model out.
//!
//! The two dialects are recognized by their version fields, their operations
//! and schema definitions are extracted into one keyed model, and every
//! endpoint and schema carries the `$ref` targets beneath it together with a
//! structural content digest, both computed in a single traversal.

use vstd::prelude::*;
use vstd::string::StrSliceExecFns;

use rayon::iter::{IntoParallelRefIterator, ParallelIterator};

use crate::digest::{digest_of, ref_set};
use crate::errors::{OasError, OasResult};
use crate::json::{obj_get, obj_get_bool, obj_get_str, JsonVal, JsonValue};
use crate::model::{
    HttpMethod, OpenApiVersion, Parameter, ParameterLocation, ParameterV, ParsedSpec,
};
use crate::text::{chars_lt, starts_with, str_eq, strip_all, strip_occurrences};

verus! {

/// Which version the document declares: a top-level `swagger: 2.x` selects
/// the legacy dialect; a top-level `openapi: 3.0.x` or `3.1.x` selects the
/// modern one; any other `openapi` value is unsupported, and a document with
/// neither field cannot be classified.
pub open spec fn spec_detect_version(v: JsonVal) -> Result<OpenApiVersion, OasError> {
    if spec_is_swagger2(v) {
        Ok(OpenApiVersion::Swagger2)
    } else {
        match obj_get_str(v, "openapi"@) {
            Some(s) => if "3.0"@.is_prefix_of(s) {
                Ok(OpenApiVersion::OpenApi30)
            } else if "3.1"@.is_prefix_of(s) {
                Ok(OpenApiVersion::OpenApi31)
            } else {
                Err(OasError::UnsupportedVersion(arbitrary()))
            },
            None => Err(OasError::InvalidOpenApi(arbitrary())),
        }
    }
}

pub open spec fn spec_is_swagger2(v: JsonVal) -> bool {
    match obj_get_str(v, "swagger"@) {
        Some(s) => "2."@.is_prefix_of(s),
        None => false,
    }
}

impl OpenApiParser {
    /// Detects the declared dialect version.
    pub fn detect_version(v: &JsonValue) -> (r: Result<OpenApiVersion, OasError>)
        ensures
            match r {
                Ok(ver) => spec_detect_version(v@) == Ok::<OpenApiVersion, OasError>(ver),
                Err(e) => spec_detect_version(v@) is Err && match e {
                    OasError::UnsupportedVersion(s) => obj_get_str(v@, "openapi"@) == Some(s@),
                    OasError::InvalidOpenApi(_) => obj_get_str(v@, "openapi"@) is None,
                    _ => false,
                },
            },
    {
        match v.get_str("swagger") {
            Some(s) => {
                if starts_with(s.as_str(), "2.") {
                    return Ok(OpenApiVersion::Swagger2);
                }
            },
            None => {},
        }
        match v.get_str("openapi") {
            Some(s) => {
                if starts_with(s.as_str(), "3.0") {
                    Ok(OpenApiVersion::OpenApi30)
                } else if starts_with(s.as_str(), "3.1") {
                    Ok(OpenApiVersion::OpenApi31)
                } else {
                    Err(OasError::UnsupportedVersion(s.clone()))
                }
            },
            None => {
                let mut msg = String::new();
                msg.append("Missing 'openapi' or 'swagger' field");
                Err(OasError::InvalidOpenApi(msg))
            },
        }
    }
}

/// The service that turns raw document text into the unified model.
pub struct OpenApiParser;

/// ASCII lower-casing of one character.
pub open spec fn lower_char(c: char) -> char {
    if 'A' <= c && c <= 'Z' {
        (c as u32 + 32) as char
    } else {
        c
    }
}

/// ASCII lower-casing of a character sequence.
pub open spec fn lower_ascii(s: Seq<char>) -> Seq<char> {
    s.map_values(|c: char| lower_char(c))
}

/// Case-insensitive comparison against an already-lower-case name.
fn eq_ignore_case(s: &str, lower: &str) -> (r: bool)
    ensures
        r == (lower_ascii(s@) == lower@),
{
    let slen = s.unicode_len();
    let llen = lower.unicode_len();
    if slen != llen {
        return false;
    }
    let mut i: usize = 0;
    while i < slen
        invariant
            0 <= i <= slen,
            slen == s@.len(),
            slen == lower@.len(),
            forall|j: int| 0 <= j < i ==> lower_char(s@[j]) == lower@[j],
        decreases slen - i,
    {
        let c = s.get_char(i);
        let l = lower.get_char(i);
        let folded: u32 = if 'A' <= c && c <= 'Z' {
            c as u32 + 32
        } else {
            c as u32
        };
        if folded != l as u32 {
            proof {
                assert(lower_char(s@[i as int]) != lower@[i as int]);
                assert(lower_ascii(s@)[i as int] == lower_char(s@[i as int]));
            }
            return false;
        }
        proof {
            assert(lower_char(s@[i as int]) == lower@[i as int]);
        }
        i += 1;
    }
    proof {
        assert(lower_ascii(s@) =~= lower@);
    }
    true
}

/// The method an operation key names, read case-insensitively; `None` for
/// any key outside the fixed method set.
pub open spec fn spec_parse_method(s: Seq<char>) -> Option<HttpMethod> {
    let l = lower_ascii(s);
    if l == "get"@ {
        Some(HttpMethod::Get)
    } else if l == "post"@ {
        Some(HttpMethod::Post)
    } else if l == "put"@ {
        Some(HttpMethod::Put)
    } else if l == "patch"@ {
        Some(HttpMethod::Patch)
    } else if l == "delete"@ {
        Some(HttpMethod::Delete)
    } else if l == "head"@ {
        Some(HttpMethod::Head)
    } else if l == "options"@ {
        Some(HttpMethod::Options)
    } else if l == "trace"@ {
        Some(HttpMethod::Trace)
    } else {
        None
    }
}

impl OpenApiParser {
    /// Reads an HTTP method name, case-insensitively.
    pub fn parse_http_method(method: &str) -> (r: Option<HttpMethod>)
        ensures
            r == spec_parse_method(method@),
    {
        if eq_ignore_case(method, "get") {
            Some(HttpMethod::Get)
        } else if eq_ignore_case(method, "post") {
            Some(HttpMethod::Post)
        } else if eq_ignore_case(method, "put") {
            Some(HttpMethod::Put)
        } else if eq_ignore_case(method, "patch") {
            Some(HttpMethod::Patch)
        } else if eq_ignore_case(method, "delete") {
            Some(HttpMethod::Delete)
        } else if eq_ignore_case(method, "head") {
            Some(HttpMethod::Head)
        } else if eq_ignore_case(method, "options") {
            Some(HttpMethod::Options)
        } else if eq_ignore_case(method, "trace") {
            Some(HttpMethod::Trace)
        } else {
            None
        }
    }
}

/// The strings among a sequence of values, in order; other values are
/// passed over.
pub open spec fn spec_str_items(items: Seq<JsonVal>) -> Seq<Seq<char>>
    decreases items.len(),
{
    if items.len() == 0 {
        Seq::empty()
    } else {
        let rest = spec_str_items(items.drop_first());
        match items[0] {
            JsonVal::Str(s) => seq![s] + rest,
            _ => rest,
        }
    }
}

proof fn lemma_spec_str_items_push(items: Seq<JsonVal>, v: JsonVal)
    ensures
        spec_str_items(items.push(v)) =~= spec_str_items(items) + (match v {
            JsonVal::Str(s) => seq![s],
            _ => Seq::empty(),
        }),
    decreases items.len(),
{
    if items.len() == 0 {
        assert(items.push(v)[0] == v);
        assert(items.push(v).drop_first() =~= Seq::<JsonVal>::empty());
        assert(spec_str_items(Seq::<JsonVal>::empty()) =~= Seq::<Seq<char>>::empty());
    } else {
        lemma_spec_str_items_push(items.drop_first(), v);
        assert(items.push(v)[0] == items[0]);
        assert(items.push(v).drop_first() =~= items.drop_first().push(v));
    }
}

/// Collects the strings of an array value.
fn str_items(items: &Vec<JsonValue>) -> (r: Vec<String>)
    ensures
        crate::model::strs_view(r@) == spec_str_items(JsonValue::views_of(items@)),
{
    proof {
        crate::json::lemma_views_of_index(items@);
    }
    let ghost iv = JsonValue::views_of(items@);
    let mut out: Vec<String> = Vec::new();
    let n = items.len();
    let mut i: usize = 0;
    proof {
        assert(iv.take(0) =~= Seq::<JsonVal>::empty());
        assert(crate::model::strs_view(out@) =~= spec_str_items(iv.take(0)));
    }
    while i < n
        invariant
            0 <= i <= n,
            n == items@.len(),
            iv == JsonValue::views_of(items@),
            iv.len() == n,
            forall|k: int| 0 <= k < n ==> iv[k] == #[trigger] items@[k].view_rec(),
            crate::model::strs_view(out@) == spec_str_items(iv.take(i as int)),
        decreases n - i,
    {
        match items[i].as_str_value() {
            Some(s) => {
                let ghost before = out@;
                out.push(s.clone());
                proof {
                    assert(crate::model::strs_view(out@) =~= crate::model::strs_view(before).push(
                        s@,
                    ));
                }
            },
            None => {},
        }
        proof {
            assert(iv.take(i + 1) =~= iv.take(i as int).push(iv[i as int]));
            lemma_spec_str_items_push(iv.take(i as int), iv[i as int]);
            assert(crate::model::strs_view(out@) =~= spec_str_items(iv.take(i + 1)));
        }
        i += 1;
    }
    proof {
        assert(iv.take(n as int) =~= iv);
    }
    out
}

/// The string items of an array-valued member, or empty when the member is
/// absent or not an array.
pub open spec fn spec_str_list(v: JsonVal, key: Seq<char>) -> Seq<Seq<char>> {
    match obj_get(v, key) {
        Some(JsonVal::Arr(items)) => spec_str_items(items),
        _ => Seq::empty(),
    }
}

/// Collects the string items of an array-valued member.
fn str_list(v: &JsonValue, key: &str) -> (r: Vec<String>)
    ensures
        crate::model::strs_view(r@) == spec_str_list(v@, key@),
{
    match v.get(key) {
        Some(m) => match m.as_array() {
            Some(items) => str_items(items),
            None => Vec::new(),
        },
        None => Vec::new(),
    }
}

/// A string member read with a default.
pub open spec fn spec_str_or(v: JsonVal, key: Seq<char>, default: Seq<char>) -> Seq<char> {
    match obj_get_str(v, key) {
        Some(s) => s,
        None => default,
    }
}

/// Reads a string member, falling back to a default.
fn get_str_or(v: &JsonValue, key: &str, default: &str) -> (r: String)
    ensures
        r@ == spec_str_or(v@, key@, default@),
{
    match v.get_str(key) {
        Some(s) => s.clone(),
        None => {
            let mut out = String::new();
            out.append(default);
            out
        },
    }
}

/// Reads an optional string member, cloning it out.
fn get_str_opt(v: &JsonValue, key: &str) -> (r: Option<String>)
    ensures
        crate::model::opt_view(r) == obj_get_str(v@, key@),
{
    match v.get_str(key) {
        Some(s) => Some(s.clone()),
        None => None,
    }
}

/// A boolean member read with a default.
pub open spec fn spec_bool_or(v: JsonVal, key: Seq<char>, default: bool) -> bool {
    match obj_get_bool(v, key) {
        Some(b) => b,
        None => default,
    }
}

/// Reads a boolean member, falling back to a default.
fn get_bool_or(v: &JsonValue, key: &str, default: bool) -> (r: bool)
    ensures
        r == spec_bool_or(v@, key@, default),
{
    match v.get_bool(key) {
        Some(b) => b,
        None => default,
    }
}

/// The resolved shape of a schema value. A `$ref` member wins; then the
/// variant-list combinators; then the declared primitive type; an object is
/// also inferred from a mere `properties` member; anything else is unknown.
pub open spec fn spec_schema_type(v: JsonVal) -> crate::model::SchemaTypeV
    decreases v, 2int,
{
    match obj_get_str(v, "$ref"@) {
        Some(r) => crate::model::SchemaTypeV::Ref { reference: crate::digest::clean_ref(r) },
        None => match obj_get(v, "oneOf"@) {
            Some(JsonVal::Arr(items)) => {
                proof {
                    crate::json::lemma_obj_get_decreases(v, "oneOf"@);
                    let m = obj_get(v, "oneOf"@)->0;
                    assert(decreases_to!(m => m->Arr_0));
                }
                crate::model::SchemaTypeV::OneOf { variants: spec_schema_types(items) }
            },
            _ => match obj_get(v, "anyOf"@) {
                Some(JsonVal::Arr(items)) => {
                    proof {
                        crate::json::lemma_obj_get_decreases(v, "anyOf"@);
                        let m = obj_get(v, "anyOf"@)->0;
                        assert(decreases_to!(m => m->Arr_0));
                    }
                    crate::model::SchemaTypeV::AnyOf { variants: spec_schema_types(items) }
                },
                _ => match obj_get(v, "allOf"@) {
                    Some(JsonVal::Arr(items)) => {
                        proof {
                            crate::json::lemma_obj_get_decreases(v, "allOf"@);
                            let m = obj_get(v, "allOf"@)->0;
                            assert(decreases_to!(m => m->Arr_0));
                        }
                        crate::model::SchemaTypeV::AllOf { variants: spec_schema_types(items) }
                    },
                    _ => spec_primitive_type(v),
                },
            },
        },
    }
}

/// Resolution once the reference and combinator forms are ruled out.
pub open spec fn spec_primitive_type(v: JsonVal) -> crate::model::SchemaTypeV
    decreases v, 1int,
{
    match obj_get_str(v, "type"@) {
        Some(t) => if t == "string"@ {
            crate::model::SchemaTypeV::Text {
                format: obj_get_str(v, "format"@),
                enum_values: match obj_get(v, "enum"@) {
                    Some(JsonVal::Arr(es)) => Some(spec_str_items(es)),
                    _ => None,
                },
            }
        } else if t == "number"@ {
            crate::model::SchemaTypeV::Number { format: obj_get_str(v, "format"@) }
        } else if t == "integer"@ {
            crate::model::SchemaTypeV::Integer { format: obj_get_str(v, "format"@) }
        } else if t == "boolean"@ {
            crate::model::SchemaTypeV::Boolean
        } else if t == "array"@ {
            crate::model::SchemaTypeV::Array {
                items: Box::new(
                    match obj_get(v, "items"@) {
                        Some(it) => {
                            proof {
                                crate::json::lemma_obj_get_decreases(v, "items"@);
                            }
                            spec_schema_type(it)
                        },
                        None => crate::model::SchemaTypeV::Unknown,
                    },
                ),
            }
        } else if t == "object"@ && obj_get(v, "properties"@) is Some {
            spec_object_type(v)
        } else {
            crate::model::SchemaTypeV::Unknown
        },
        None => if obj_get(v, "properties"@) is Some {
            spec_object_type(v)
        } else {
            crate::model::SchemaTypeV::Unknown
        },
    }
}

/// The object shape: its resolved properties and its required-name list.
pub open spec fn spec_object_type(v: JsonVal) -> crate::model::SchemaTypeV
    decreases v, 0int, 
    when obj_get(v, "properties"@) is Some
{
    crate::model::SchemaTypeV::Object {
        properties: match obj_get(v, "properties"@) {
            Some(JsonVal::Obj(pf)) => {
                proof {
                    crate::json::lemma_obj_get_decreases(v, "properties"@);
                    let m = obj_get(v, "properties"@)->0;
                    assert(decreases_to!(m => m->Obj_0));
                }
                spec_schema_props(pf)
            },
            _ => Seq::empty(),
        },
        required: spec_str_list(v, "required"@),
    }
}

/// Shapes of a sequence of schema values, in order.
pub open spec fn spec_schema_types(items: Seq<JsonVal>) -> Seq<crate::model::SchemaTypeV>
    decreases items, 3int,
{
    if items.len() == 0 {
        Seq::empty()
    } else {
        seq![spec_schema_type(items[0])] + spec_schema_types(items.drop_first())
    }
}

/// Shapes of an object's property fields, keyed, in order.
pub open spec fn spec_schema_props(pf: Seq<(Seq<char>, JsonVal)>) -> Seq<
    (Seq<char>, crate::model::SchemaTypeV),
>
    decreases pf, 3int,
{
    if pf.len() == 0 {
        Seq::empty()
    } else {
        seq![(pf[0].0, spec_schema_type(pf[0].1))] + spec_schema_props(pf.drop_first())
    }
}

proof fn lemma_spec_schema_types_push(items: Seq<JsonVal>, v: JsonVal)
    ensures
        spec_schema_types(items.push(v)) =~= spec_schema_types(items).push(spec_schema_type(v)),
    decreases items.len(),
{
    if items.len() == 0 {
        assert(items.push(v)[0] == v);
        assert(items.push(v).drop_first() =~= Seq::<JsonVal>::empty());
        assert(spec_schema_types(Seq::<JsonVal>::empty())
            =~= Seq::<crate::model::SchemaTypeV>::empty());
    } else {
        lemma_spec_schema_types_push(items.drop_first(), v);
        assert(items.push(v)[0] == items[0]);
        assert(items.push(v).drop_first() =~= items.drop_first().push(v));
        assert(seq![spec_schema_type(items[0])] + spec_schema_types(items.drop_first()).push(
            spec_schema_type(v),
        ) =~= (seq![spec_schema_type(items[0])] + spec_schema_types(items.drop_first())).push(
            spec_schema_type(v),
        ));
    }
}

proof fn lemma_spec_schema_props_push(pf: Seq<(Seq<char>, JsonVal)>, f: (Seq<char>, JsonVal))
    ensures
        spec_schema_props(pf.push(f)) =~= spec_schema_props(pf).push(
            (f.0, spec_schema_type(f.1)),
        ),
    decreases pf.len(),
{
    if pf.len() == 0 {
        assert(pf.push(f)[0] == f);
        assert(pf.push(f).drop_first() =~= Seq::<(Seq<char>, JsonVal)>::empty());
        assert(spec_schema_props(Seq::<(Seq<char>, JsonVal)>::empty())
            =~= Seq::<(Seq<char>, crate::model::SchemaTypeV)>::empty());
    } else {
        lemma_spec_schema_props_push(pf.drop_first(), f);
        assert(pf.push(f)[0] == pf[0]);
        assert(pf.push(f).drop_first() =~= pf.drop_first().push(f));
        assert(seq![(pf[0].0, spec_schema_type(pf[0].1))] + spec_schema_props(
            pf.drop_first(),
        ).push((f.0, spec_schema_type(f.1))) =~= (seq![(pf[0].0, spec_schema_type(pf[0].1))]
            + spec_schema_props(pf.drop_first())).push((f.0, spec_schema_type(f.1))));
    }
}

/// Resolves each member of a schema array.
fn parse_schema_list(items: &Vec<JsonValue>) -> (r: Vec<crate::model::SchemaType>)
    ensures
        crate::model::SchemaType::views_of(r@) == spec_schema_types(JsonValue::views_of(items@)),
    decreases *items, 5int,
{
    proof {
        crate::json::lemma_views_of_index(items@);
    }
    let ghost iv = JsonValue::views_of(items@);
    let mut out: Vec<crate::model::SchemaType> = Vec::new();
    let n = items.len();
    let mut i: usize = 0;
    proof {
        crate::model::lemma_st_views_of_index(out@);
        assert(iv.take(0) =~= Seq::<JsonVal>::empty());
        assert(crate::model::SchemaType::views_of(out@)
            =~= Seq::<crate::model::SchemaTypeV>::empty());
        assert(crate::model::SchemaType::views_of(out@) =~= spec_schema_types(iv.take(0)));
    }
    while i < n
        invariant
            0 <= i <= n,
            n == items@.len(),
            iv == JsonValue::views_of(items@),
            iv.len() == n,
            forall|k: int| 0 <= k < n ==> iv[k] == #[trigger] items@[k].view_rec(),
            crate::model::SchemaType::views_of(out@) == spec_schema_types(iv.take(i as int)),
        decreases n - i,
    {
        proof {
            assert(decreases_to!(*items => items@));
            assert(decreases_to!(items@ => items@[i as int]));
            assert(decreases_to!(*items, 5int => items@[i as int], 4int));
        }
        let st = OpenApiParser::parse_schema_type(&items[i]);
        let ghost before = out@;
        out.push(st);
        proof {
            crate::model::lemma_st_views_of_index(before);
            crate::model::lemma_st_views_of_index(out@);
            assert(out@ == before.push(st));
            assert(out@.len() == before.len() + 1);
            assert(crate::model::SchemaType::views_of(out@).len() == out@.len());
            assert(crate::model::SchemaType::views_of(before).len() == before.len());
            assert forall|k: int|
                0 <= k < out@.len() implies crate::model::SchemaType::views_of(out@)[k]
                == crate::model::SchemaType::views_of(before).push(st.view_rec())[k] by {
                assert(crate::model::SchemaType::views_of(out@)[k] == out@[k].view_rec());
                if k < before.len() {
                    assert(out@[k] == before[k]);
                    assert(crate::model::SchemaType::views_of(before)[k] == before[k].view_rec());
                    assert(crate::model::SchemaType::views_of(before).push(st.view_rec())[k]
                        == crate::model::SchemaType::views_of(before)[k]);
                } else {
                    assert(out@[k] == st);
                    assert(crate::model::SchemaType::views_of(before).push(st.view_rec())[k]
                        == st.view_rec());
                }
            }
            assert(crate::model::SchemaType::views_of(out@)
                =~= crate::model::SchemaType::views_of(before).push(st.view_rec()));
            assert(iv.take(i + 1) =~= iv.take(i as int).push(iv[i as int]));
            lemma_spec_schema_types_push(iv.take(i as int), iv[i as int]);
        }
        i += 1;
    }
    proof {
        assert(iv.take(n as int) =~= iv);
    }
    out
}

impl OpenApiParser {
    /// Resolves the shape of one schema value.
    pub fn parse_schema_type(v: &JsonValue) -> (r: crate::model::SchemaType)
        ensures
            r@ == spec_schema_type(v@),
        decreases *v, 4int,
    {
        match v.get_str("$ref") {
            Some(rs) => {
                return crate::model::SchemaType::Ref {
                    reference: crate::digest::clean_ref_exec(rs.as_str()),
                };
            },
            None => {},
        }
        match v.get("oneOf") {
            Some(m) => match m.as_array() {
                Some(items) => {
                    proof {
                        assert(decreases_to!(*v, 4int => *items, 5int));
                    }
                    return crate::model::SchemaType::OneOf { variants: parse_schema_list(items) };
                },
                None => {},
            },
            None => {},
        }
        match v.get("anyOf") {
            Some(m) => match m.as_array() {
                Some(items) => {
                    proof {
                        assert(decreases_to!(*v, 4int => *items, 5int));
                    }
                    return crate::model::SchemaType::AnyOf { variants: parse_schema_list(items) };
                },
                None => {},
            },
            None => {},
        }
        match v.get("allOf") {
            Some(m) => match m.as_array() {
                Some(items) => {
                    proof {
                        assert(decreases_to!(*v, 4int => *items, 5int));
                    }
                    return crate::model::SchemaType::AllOf { variants: parse_schema_list(items) };
                },
                None => {},
            },
            None => {},
        }
        Self::parse_primitive_type(v)
    }

    /// Resolves a shape once reference and combinator forms are ruled out.
    fn parse_primitive_type(v: &JsonValue) -> (r: crate::model::SchemaType)
        ensures
            r@ == spec_primitive_type(v@),
        decreases *v, 3int,
    {
        let type_str = v.get_str("type");
        match type_str {
            Some(t) => {
                if str_eq(t.as_str(), "string") {
                    let enum_values = match v.get("enum") {
                        Some(m) => match m.as_array() {
                            Some(es) => Some(str_items(es)),
                            None => None,
                        },
                        None => None,
                    };
                    crate::model::SchemaType::Text { format: get_str_opt(v, "format"), enum_values }
                } else if str_eq(t.as_str(), "number") {
                    crate::model::SchemaType::Number { format: get_str_opt(v, "format") }
                } else if str_eq(t.as_str(), "integer") {
                    crate::model::SchemaType::Integer { format: get_str_opt(v, "format") }
                } else if str_eq(t.as_str(), "boolean") {
                    crate::model::SchemaType::Boolean
                } else if str_eq(t.as_str(), "array") {
                    let inner = match v.get("items") {
                        Some(it) => {
                            proof {
                                assert(decreases_to!(*v, 3int => *it, 4int));
                            }
                            Self::parse_schema_type(it)
                        },
                        None => crate::model::SchemaType::Unknown,
                    };
                    crate::model::SchemaType::Array { items: Box::new(inner) }
                } else if str_eq(t.as_str(), "object") {
                    match v.get("properties") {
                        Some(_) => Self::parse_object_type(v),
                        None => crate::model::SchemaType::Unknown,
                    }
                } else {
                    crate::model::SchemaType::Unknown
                }
            },
            None => {
                match v.get("properties") {
                    Some(_) => Self::parse_object_type(v),
                    None => crate::model::SchemaType::Unknown,
                }
            },
        }
    }

    /// Resolves the object shape.
    fn parse_object_type(v: &JsonValue) -> (r: crate::model::SchemaType)
        requires
            obj_get(v@, "properties"@) is Some,
        ensures
            r@ == spec_object_type(v@),
        decreases *v, 2int,
    {
        let properties = match v.get("properties") {
            Some(m) => match m.as_object() {
                Some(pf) => {
                    proof {
                        assert(decreases_to!(*v => *pf));
                    }
                    Self::parse_props(v, m, pf)
                },
                None => Vec::new(),
            },
            None => Vec::new(),
        };
        let required = str_list(v, "required");
        proof {
            assert(crate::model::SchemaType::prop_views_of(
                Seq::<(String, crate::model::SchemaType)>::empty(),
            ) =~= Seq::<(Seq<char>, crate::model::SchemaTypeV)>::empty());
        }
        crate::model::SchemaType::Object { properties, required }
    }

    /// Resolves each property of an object shape.
    fn parse_props(
        v: &JsonValue,
        m: &JsonValue,
        pf: &Vec<(String, JsonValue)>,
    ) -> (r: Vec<(String, crate::model::SchemaType)>)
        requires
            decreases_to!(*v => *pf),
            m@ == JsonVal::Obj(JsonValue::field_views_of(pf@)),
        ensures
            crate::model::SchemaType::prop_views_of(r@) == spec_schema_props(
                JsonValue::field_views_of(pf@),
            ),
        decreases *v, 1int,
    {
        proof {
            crate::json::lemma_field_views_of_index(pf@);
        }
        let ghost fv = JsonValue::field_views_of(pf@);
        let mut out: Vec<(String, crate::model::SchemaType)> = Vec::new();
        let n = pf.len();
        let mut i: usize = 0;
        proof {
            crate::model::lemma_prop_views_of_index(out@);
            assert(fv.take(0) =~= Seq::<(Seq<char>, JsonVal)>::empty());
            assert(crate::model::SchemaType::prop_views_of(out@) =~= spec_schema_props(fv.take(0)));
        }
        while i < n
            invariant
                0 <= i <= n,
                n == pf@.len(),
                decreases_to!(*v => *pf),
                fv == JsonValue::field_views_of(pf@),
                fv.len() == n,
                forall|k: int|
                    0 <= k < n ==> fv[k] == (#[trigger] pf@[k].0@, pf@[k].1.view_rec()),
                crate::model::SchemaType::prop_views_of(out@) == spec_schema_props(
                    fv.take(i as int),
                ),
            decreases n - i,
        {
            proof {
                assert(decreases_to!(*pf => pf@));
                assert(decreases_to!(pf@ => pf@[i as int]));
                assert(decreases_to!(pf@[i as int] => pf@[i as int].1));
                assert(decreases_to!(*v, 1int => pf@[i as int].1, 4int));
            }
            let st = Self::parse_schema_type(&pf[i].1);
            let key = pf[i].0.clone();
            let ghost before = out@;
            out.push((key, st));
            proof {
                crate::model::lemma_prop_views_of_index(before);
                crate::model::lemma_prop_views_of_index(out@);
                assert(out@.len() == before.len() + 1);
                assert(crate::model::SchemaType::prop_views_of(out@).len() == out@.len());
                assert(crate::model::SchemaType::prop_views_of(before).len() == before.len());
                assert forall|k: int|
                    0 <= k < out@.len() implies crate::model::SchemaType::prop_views_of(out@)[k]
                    == crate::model::SchemaType::prop_views_of(before).push(
                    (pf@[i as int].0@, st.view_rec()),
                )[k] by {
                    assert(crate::model::SchemaType::prop_views_of(out@)[k] == (
                        out@[k].0@,
                        out@[k].1.view_rec(),
                    ));
                    if k < before.len() {
                        assert(out@[k] == before[k]);
                        assert(crate::model::SchemaType::prop_views_of(before)[k] == (
                            before[k].0@,
                            before[k].1.view_rec(),
                        ));
                        assert(crate::model::SchemaType::prop_views_of(before).push(
                            (pf@[i as int].0@, st.view_rec()),
                        )[k] == crate::model::SchemaType::prop_views_of(before)[k]);
                    } else {
                        assert(out@[k].0@ == pf@[i as int].0@);
                        assert(out@[k].1 == st);
                        assert(crate::model::SchemaType::prop_views_of(before).push(
                            (pf@[i as int].0@, st.view_rec()),
                        )[k] == (pf@[i as int].0@, st.view_rec()));
                    }
                }
                assert(crate::model::SchemaType::prop_views_of(out@)
                    =~= crate::model::SchemaType::prop_views_of(before).push(
                    (pf@[i as int].0@, st.view_rec()),
                ));
                assert(fv.take(i + 1) =~= fv.take(i as int).push(fv[i as int]));
                lemma_spec_schema_props_push(fv.take(i as int), fv[i as int]);
            }
            i += 1;
        }
        proof {
            assert(fv.take(n as int) =~= fv);
        }
        out
    }
}

/// One legacy-dialect parameter: body parameters are hoisted elsewhere, the
/// three plain locations map directly, anything else is passed over. A path
/// parameter is required unless the document says otherwise; other locations
/// default to optional.
pub open spec fn spec_swagger2_param(p: JsonVal) -> Option<ParameterV> {
    let in_val = spec_str_or(p, "in"@, ""@);
    if in_val == "body"@ {
        None
    } else {
        let location = if in_val == "path"@ {
            Some(ParameterLocation::Path)
        } else if in_val == "query"@ {
            Some(ParameterLocation::Query)
        } else if in_val == "header"@ {
            Some(ParameterLocation::Header)
        } else {
            None
        };
        match location {
            Some(loc) => Some(
                ParameterV {
                    name: spec_str_or(p, "name"@, ""@),
                    location: loc,
                    required: spec_bool_or(p, "required"@, loc == ParameterLocation::Path),
                    description: obj_get_str(p, "description"@),
                    schema_ref: None,
                    schema_type: obj_get_str(p, "type"@),
                },
            ),
            None => None,
        }
    }
}

/// One modern-dialect parameter: all four locations map directly; the
/// referenced schema and inline type come from the parameter's `schema`.
pub open spec fn spec_openapi3_param(p: JsonVal) -> Option<ParameterV> {
    let in_val = spec_str_or(p, "in"@, ""@);
    let location = if in_val == "path"@ {
        Some(ParameterLocation::Path)
    } else if in_val == "query"@ {
        Some(ParameterLocation::Query)
    } else if in_val == "header"@ {
        Some(ParameterLocation::Header)
    } else if in_val == "cookie"@ {
        Some(ParameterLocation::Cookie)
    } else {
        None
    };
    match location {
        Some(loc) => Some(
            ParameterV {
                name: spec_str_or(p, "name"@, ""@),
                location: loc,
                required: spec_bool_or(p, "required"@, loc == ParameterLocation::Path),
                description: obj_get_str(p, "description"@),
                schema_ref: spec_param_schema_ref(p),
                schema_type: spec_param_schema_type(p),
            },
        ),
        None => None,
    }
}

/// The `$ref` of a parameter's schema, cleaned of the modern prefix.
pub open spec fn spec_param_schema_ref(p: JsonVal) -> Option<Seq<char>> {
    match obj_get(p, "schema"@) {
        Some(sv) => match obj_get_str(sv, "$ref"@) {
            Some(r) => Some(strip_occurrences(r, "#/components/schemas/"@)),
            None => None,
        },
        None => None,
    }
}

/// The inline `type` of a parameter's schema.
pub open spec fn spec_param_schema_type(p: JsonVal) -> Option<Seq<char>> {
    match obj_get(p, "schema"@) {
        Some(sv) => obj_get_str(sv, "type"@),
        None => None,
    }
}

/// The parameters an item sequence maps to, in order.
pub open spec fn spec_params_list(items: Seq<JsonVal>, legacy: bool) -> Seq<ParameterV>
    decreases items.len(),
{
    if items.len() == 0 {
        Seq::empty()
    } else {
        let rest = spec_params_list(items.drop_first(), legacy);
        let head = if legacy {
            spec_swagger2_param(items[0])
        } else {
            spec_openapi3_param(items[0])
        };
        match head {
            Some(pv) => seq![pv] + rest,
            None => rest,
        }
    }
}

/// The parameter list of an operation.
pub open spec fn spec_params(op: JsonVal, legacy: bool) -> Seq<ParameterV> {
    match obj_get(op, "parameters"@) {
        Some(JsonVal::Arr(items)) => spec_params_list(items, legacy),
        _ => Seq::empty(),
    }
}

/// A media-type list member read with the one default entry.
pub open spec fn spec_media_list(op: JsonVal, key: Seq<char>) -> Seq<Seq<char>> {
    match obj_get(op, key) {
        Some(JsonVal::Arr(items)) => spec_str_items(items),
        _ => seq!["application/json"@],
    }
}

/// The `$ref` of a value's `schema` member, cleaned of the legacy prefix.
pub open spec fn spec_legacy_schema_ref(v: JsonVal) -> Option<Seq<char>> {
    match obj_get(v, "schema"@) {
        Some(sv) => match obj_get_str(sv, "$ref"@) {
            Some(r) => Some(strip_occurrences(r, "#/definitions/"@)),
            None => None,
        },
        None => None,
    }
}

/// The legacy request body: the first `body`-location parameter, hoisted,
/// with the operation's `consumes` list as its content types.
pub open spec fn spec_swagger2_body(op: JsonVal) -> Option<crate::model::RequestBodyV> {
    match obj_get(op, "parameters"@) {
        Some(JsonVal::Arr(items)) => spec_swagger2_body_scan(items, op),
        _ => None,
    }
}

pub open spec fn spec_swagger2_body_scan(items: Seq<JsonVal>, op: JsonVal) -> Option<
    crate::model::RequestBodyV,
>
    decreases items.len(),
{
    if items.len() == 0 {
        None
    } else if obj_get_str(items[0], "in"@) == Some("body"@) {
        Some(
            crate::model::RequestBodyV {
                required: spec_bool_or(items[0], "required"@, false),
                description: obj_get_str(items[0], "description"@),
                content_types: spec_media_list(op, "consumes"@),
                schema_ref: spec_legacy_schema_ref(items[0]),
            },
        )
    } else {
        spec_swagger2_body_scan(items.drop_first(), op)
    }
}

/// The keys of an object's fields, in order.
pub open spec fn spec_field_keys(fs: Seq<(Seq<char>, JsonVal)>) -> Seq<Seq<char>> {
    fs.map_values(|f: (Seq<char>, JsonVal)| f.0)
}

/// The schema reference of a modern content map: the first entry whose
/// `schema` carries a `$ref`, cleaned of the modern prefix.
pub open spec fn spec_content_schema_ref(fs: Seq<(Seq<char>, JsonVal)>) -> Option<Seq<char>>
    decreases fs.len(),
{
    if fs.len() == 0 {
        None
    } else {
        match spec_content_entry_ref(fs[0]) {
            Some(r) => Some(r),
            None => spec_content_schema_ref(fs.drop_first()),
        }
    }
}

/// The cleaned `$ref` one content entry carries, if any.
pub open spec fn spec_content_entry_ref(f: (Seq<char>, JsonVal)) -> Option<Seq<char>> {
    match obj_get(f.1, "schema"@) {
        Some(sv) => match obj_get_str(sv, "$ref"@) {
            Some(r) => Some(strip_occurrences(r, "#/components/schemas/"@)),
            None => None,
        },
        None => None,
    }
}

/// The modern request body, read from the operation's `requestBody` and its
/// native content map.
pub open spec fn spec_openapi3_body(op: JsonVal) -> Option<crate::model::RequestBodyV> {
    match obj_get(op, "requestBody"@) {
        Some(b) => match obj_get(b, "content"@) {
            Some(JsonVal::Obj(cf)) => Some(
                crate::model::RequestBodyV {
                    required: spec_bool_or(b, "required"@, false),
                    description: obj_get_str(b, "description"@),
                    content_types: spec_field_keys(cf),
                    schema_ref: spec_content_schema_ref(cf),
                },
            ),
            _ => None,
        },
        None => None,
    }
}

/// One legacy response: the operation's `produces` list serves as its
/// content types.
pub open spec fn spec_swagger2_response(status: Seq<char>, r: JsonVal, op: JsonVal)
    -> crate::model::ResponseV {
    crate::model::ResponseV {
        status_code: status,
        description: obj_get_str(r, "description"@),
        content_types: spec_media_list(op, "produces"@),
        schema_ref: spec_legacy_schema_ref(r),
    }
}

/// One modern response, with its native content map.
pub open spec fn spec_openapi3_response(status: Seq<char>, r: JsonVal)
    -> crate::model::ResponseV {
    match obj_get(r, "content"@) {
        Some(JsonVal::Obj(cf)) => crate::model::ResponseV {
            status_code: status,
            description: obj_get_str(r, "description"@),
            content_types: spec_field_keys(cf),
            schema_ref: spec_content_schema_ref(cf),
        },
        _ => crate::model::ResponseV {
            status_code: status,
            description: obj_get_str(r, "description"@),
            content_types: Seq::empty(),
            schema_ref: None,
        },
    }
}

/// The responses of an operation, one per status-code field, in order.
pub open spec fn spec_responses_fields(fs: Seq<(Seq<char>, JsonVal)>, op: JsonVal, legacy: bool)
    -> Seq<crate::model::ResponseV>
    decreases fs.len(),
{
    if fs.len() == 0 {
        Seq::empty()
    } else {
        let head = if legacy {
            spec_swagger2_response(fs[0].0, fs[0].1, op)
        } else {
            spec_openapi3_response(fs[0].0, fs[0].1)
        };
        seq![head] + spec_responses_fields(fs.drop_first(), op, legacy)
    }
}

/// The response list of an operation.
pub open spec fn spec_responses(op: JsonVal, legacy: bool) -> Seq<crate::model::ResponseV> {
    match obj_get(op, "responses"@) {
        Some(JsonVal::Obj(fs)) => spec_responses_fields(fs, op, legacy),
        _ => Seq::empty(),
    }
}

/// Views of a parameter vector.
pub open spec fn params_view(s: Seq<Parameter>) -> Seq<ParameterV> {
    s.map_values(|p: Parameter| p@)
}

/// Views of a response vector.
pub open spec fn resps_view(s: Seq<crate::model::Response>) -> Seq<crate::model::ResponseV> {
    s.map_values(|r: crate::model::Response| r@)
}

proof fn lemma_params_list_push(items: Seq<JsonVal>, v: JsonVal, legacy: bool)
    ensures
        spec_params_list(items.push(v), legacy) =~= spec_params_list(items, legacy) + (match (
        if legacy {
            spec_swagger2_param(v)
        } else {
            spec_openapi3_param(v)
        }) {
            Some(pv) => seq![pv],
            None => Seq::<ParameterV>::empty(),
        }),
    decreases items.len(),
{
    if items.len() == 0 {
        assert(items.push(v)[0] == v);
        assert(items.push(v).drop_first() =~= Seq::<JsonVal>::empty());
        assert(spec_params_list(Seq::<JsonVal>::empty(), legacy) =~= Seq::<ParameterV>::empty());
    } else {
        lemma_params_list_push(items.drop_first(), v, legacy);
        assert(items.push(v)[0] == items[0]);
        assert(items.push(v).drop_first() =~= items.drop_first().push(v));
    }
}

proof fn lemma_responses_fields_push(
    fs: Seq<(Seq<char>, JsonVal)>,
    f: (Seq<char>, JsonVal),
    op: JsonVal,
    legacy: bool,
)
    ensures
        spec_responses_fields(fs.push(f), op, legacy) =~= spec_responses_fields(fs, op, legacy)
            + seq![
            if legacy {
                spec_swagger2_response(f.0, f.1, op)
            } else {
                spec_openapi3_response(f.0, f.1)
            },
        ],
    decreases fs.len(),
{
    if fs.len() == 0 {
        assert(fs.push(f)[0] == f);
        assert(fs.push(f).drop_first() =~= Seq::<(Seq<char>, JsonVal)>::empty());
        assert(spec_responses_fields(Seq::<(Seq<char>, JsonVal)>::empty(), op, legacy)
            =~= Seq::<crate::model::ResponseV>::empty());
    } else {
        lemma_responses_fields_push(fs.drop_first(), f, op, legacy);
        assert(fs.push(f)[0] == fs[0]);
        assert(fs.push(f).drop_first() =~= fs.drop_first().push(f));
    }
}

proof fn lemma_body_scan_from(items: Seq<JsonVal>, op: JsonVal, i: int)
    requires
        0 <= i <= items.len(),
        forall|j: int| 0 <= j < i ==> obj_get_str(#[trigger] items[j], "in"@) != Some("body"@),
    ensures
        spec_swagger2_body_scan(items, op) == spec_swagger2_body_scan(items.skip(i), op),
    decreases i,
{
    if i == 0 {
        assert(items.skip(0) =~= items);
    } else {
        lemma_body_scan_from(items.drop_first(), op, i - 1);
        assert(items.drop_first().skip(i - 1) =~= items.skip(i));
    }
}

proof fn lemma_content_scan_from(fs: Seq<(Seq<char>, JsonVal)>, i: int)
    requires
        0 <= i <= fs.len(),
        forall|j: int| 0 <= j < i ==> spec_content_entry_ref(#[trigger] fs[j]) is None,
    ensures
        spec_content_schema_ref(fs) == spec_content_schema_ref(fs.skip(i)),
    decreases i,
{
    if i == 0 {
        assert(fs.skip(0) =~= fs);
    } else {
        lemma_content_scan_from(fs.drop_first(), i - 1);
        assert(fs.drop_first().skip(i - 1) =~= fs.skip(i));
    }
}

/// Reads the cleaned `$ref` below a value's `schema` member.
fn schema_ref_of(v: &JsonValue, legacy: bool) -> (r: Option<String>)
    ensures
        crate::model::opt_view(r) == (if legacy {
            spec_legacy_schema_ref(v@)
        } else {
            spec_param_schema_ref(v@)
        }),
{
    match v.get("schema") {
        Some(sv) => match sv.get_str("$ref") {
            Some(rs) => {
                if legacy {
                    Some(strip_all(rs.as_str(), "#/definitions/"))
                } else {
                    Some(strip_all(rs.as_str(), "#/components/schemas/"))
                }
            },
            None => None,
        },
        None => None,
    }
}

/// Builds one parameter from its document value, by dialect.
fn param_of(p: &JsonValue, legacy: bool) -> (r: Option<Parameter>)
    ensures
        crate::model::opt_view_param(r) == (if legacy {
            spec_swagger2_param(p@)
        } else {
            spec_openapi3_param(p@)
        }),
{
    let in_val = get_str_or(p, "in", "");
    if legacy && str_eq(in_val.as_str(), "body") {
        return None;
    }
    let location = if str_eq(in_val.as_str(), "path") {
        Some(ParameterLocation::Path)
    } else if str_eq(in_val.as_str(), "query") {
        Some(ParameterLocation::Query)
    } else if str_eq(in_val.as_str(), "header") {
        Some(ParameterLocation::Header)
    } else if !legacy && str_eq(in_val.as_str(), "cookie") {
        Some(ParameterLocation::Cookie)
    } else {
        None
    };
    match location {
        Some(loc) => {
            let required = get_bool_or(p, "required", matches!(loc, ParameterLocation::Path));
            let schema_ref = if legacy {
                None
            } else {
                schema_ref_of(p, false)
            };
            let schema_type = if legacy {
                get_str_opt(p, "type")
            } else {
                match p.get("schema") {
                    Some(sv) => get_str_opt(sv, "type"),
                    None => None,
                }
            };
            Some(
                Parameter {
                    name: get_str_or(p, "name", ""),
                    location: loc,
                    required,
                    description: get_str_opt(p, "description"),
                    schema_ref,
                    schema_type,
                },
            )
        },
        None => None,
    }
}

/// Collects the parameters of an operation, by dialect.
fn parse_parameters(op: &JsonValue, legacy: bool) -> (r: Vec<Parameter>)
    ensures
        params_view(r@) == spec_params(op@, legacy),
{
    let items = match op.get("parameters") {
        Some(m) => match m.as_array() {
            Some(items) => items,
            None => {
                let r: Vec<Parameter> = Vec::new();
                proof {
                    assert(params_view(r@) =~= Seq::<ParameterV>::empty());
                }
                return r;
            },
        },
        None => {
            let r: Vec<Parameter> = Vec::new();
            proof {
                assert(params_view(r@) =~= Seq::<ParameterV>::empty());
            }
            return r;
        },
    };
    proof {
        crate::json::lemma_views_of_index(items@);
    }
    let ghost iv = JsonValue::views_of(items@);
    let mut out: Vec<Parameter> = Vec::new();
    let n = items.len();
    let mut i: usize = 0;
    proof {
        assert(iv.take(0) =~= Seq::<JsonVal>::empty());
        assert(params_view(out@) =~= spec_params_list(iv.take(0), legacy));
    }
    while i < n
        invariant
            0 <= i <= n,
            n == items@.len(),
            iv == JsonValue::views_of(items@),
            iv.len() == n,
            forall|k: int| 0 <= k < n ==> iv[k] == #[trigger] items@[k].view_rec(),
            params_view(out@) == spec_params_list(iv.take(i as int), legacy),
        decreases n - i,
    {
        let ghost before = out@;
        match param_of(&items[i], legacy) {
            Some(pm) => {
                let ghost pv = pm@;
                out.push(pm);
                proof {
                    assert(params_view(out@) =~= params_view(before).push(pv));
                }
            },
            None => {},
        }
        proof {
            assert(iv.take(i + 1) =~= iv.take(i as int).push(iv[i as int]));
            lemma_params_list_push(iv.take(i as int), iv[i as int], legacy);
            assert(params_view(out@) =~= spec_params_list(iv.take(i + 1), legacy));
        }
        i += 1;
    }
    proof {
        assert(iv.take(n as int) =~= iv);
    }
    out
}

/// Reads a media-type list, with the JSON media type as the one default.
fn parse_media_list(op: &JsonValue, key: &str) -> (r: Vec<String>)
    ensures
        crate::model::strs_view(r@) == spec_media_list(op@, key@),
{
    match op.get(key) {
        Some(m) => match m.as_array() {
            Some(items) => {
                return str_items(items);
            },
            None => {},
        },
        None => {},
    }
    let mut out: Vec<String> = Vec::new();
    let mut s = String::new();
    s.append("application/json");
    out.push(s);
    proof {
        assert(crate::model::strs_view(out@) =~= seq!["application/json"@]);
    }
    out
}

/// Hoists the legacy request body from the first `body`-location parameter.
fn parse_swagger2_body(op: &JsonValue) -> (r: Option<crate::model::RequestBody>)
    ensures
        crate::model::opt_view_body(r) == spec_swagger2_body(op@),
{
    let items = match op.get("parameters") {
        Some(m) => match m.as_array() {
            Some(items) => items,
            None => {
                return None;
            },
        },
        None => {
            return None;
        },
    };
    proof {
        crate::json::lemma_views_of_index(items@);
    }
    let ghost iv = JsonValue::views_of(items@);
    let n = items.len();
    let mut i: usize = 0;
    while i < n
        invariant
            0 <= i <= n,
            n == items@.len(),
            iv == JsonValue::views_of(items@),
            iv.len() == n,
            obj_get(op@, "parameters"@) == Some(JsonVal::Arr(iv)),
            forall|k: int| 0 <= k < n ==> iv[k] == #[trigger] items@[k].view_rec(),
            forall|j: int| 0 <= j < i ==> obj_get_str(#[trigger] iv[j], "in"@) != Some("body"@),
        decreases n - i,
    {
        let is_body = match items[i].get_str("in") {
            Some(s) => str_eq(s.as_str(), "body"),
            None => false,
        };
        if is_body {
            proof {
                lemma_body_scan_from(iv, op@, i as int);
                assert(iv.skip(i as int)[0] == iv[i as int]);
                assert(iv.skip(i as int).len() > 0);
            }
            let body = crate::model::RequestBody {
                required: get_bool_or(&items[i], "required", false),
                description: get_str_opt(&items[i], "description"),
                content_types: parse_media_list(op, "consumes"),
                schema_ref: schema_ref_of(&items[i], true),
            };
            return Some(body);
        }
        i += 1;
    }
    proof {
        lemma_body_scan_from(iv, op@, n as int);
        assert(iv.skip(n as int) =~= Seq::<JsonVal>::empty());
    }
    None
}

/// Reads the modern request body from the operation's `requestBody`.
fn parse_openapi3_body(op: &JsonValue) -> (r: Option<crate::model::RequestBody>)
    ensures
        crate::model::opt_view_body(r) == spec_openapi3_body(op@),
{
    let b = match op.get("requestBody") {
        Some(b) => b,
        None => {
            return None;
        },
    };
    let cf = match b.get("content") {
        Some(m) => match m.as_object() {
            Some(cf) => cf,
            None => {
                return None;
            },
        },
        None => {
            return None;
        },
    };
    let body = crate::model::RequestBody {
        required: get_bool_or(b, "required", false),
        description: get_str_opt(b, "description"),
        content_types: field_keys(cf),
        schema_ref: content_schema_ref(cf),
    };
    Some(body)
}

/// Collects the keys of a content map.
fn field_keys(cf: &Vec<(String, JsonValue)>) -> (r: Vec<String>)
    ensures
        crate::model::strs_view(r@) == spec_field_keys(JsonValue::field_views_of(cf@)),
{
    proof {
        crate::json::lemma_field_views_of_index(cf@);
    }
    let ghost fv = JsonValue::field_views_of(cf@);
    let mut out: Vec<String> = Vec::new();
    let n = cf.len();
    let mut i: usize = 0;
    while i < n
        invariant
            0 <= i <= n,
            n == cf@.len(),
            fv == JsonValue::field_views_of(cf@),
            fv.len() == n,
            forall|k: int| 0 <= k < n ==> fv[k] == (#[trigger] cf@[k].0@, cf@[k].1.view_rec()),
            crate::model::strs_view(out@) == spec_field_keys(fv.take(i as int)),
        decreases n - i,
    {
        let ghost before = out@;
        out.push(cf[i].0.clone());
        proof {
            assert(crate::model::strs_view(out@) =~= crate::model::strs_view(before).push(
                cf@[i as int].0@,
            ));
            assert(fv.take(i + 1) =~= fv.take(i as int).push(fv[i as int]));
            assert(crate::model::strs_view(out@) =~= spec_field_keys(fv.take(i + 1)));
        }
        i += 1;
    }
    proof {
        assert(fv.take(n as int) =~= fv);
    }
    out
}

/// Finds the first content entry that carries a schema reference.
fn content_schema_ref(cf: &Vec<(String, JsonValue)>) -> (r: Option<String>)
    ensures
        crate::model::opt_view(r) == spec_content_schema_ref(JsonValue::field_views_of(cf@)),
{
    proof {
        crate::json::lemma_field_views_of_index(cf@);
    }
    let ghost fv = JsonValue::field_views_of(cf@);
    let n = cf.len();
    let mut i: usize = 0;
    while i < n
        invariant
            0 <= i <= n,
            n == cf@.len(),
            fv == JsonValue::field_views_of(cf@),
            fv.len() == n,
            forall|k: int| 0 <= k < n ==> fv[k] == (#[trigger] cf@[k].0@, cf@[k].1.view_rec()),
            forall|j: int| 0 <= j < i ==> spec_content_entry_ref(#[trigger] fv[j]) is None,
        decreases n - i,
    {
        proof {
            assert(fv[i as int] == (cf@[i as int].0@, cf@[i as int].1.view_rec()));
        }
        match schema_ref_of(&cf[i].1, false) {
            Some(found) => {
                proof {
                    lemma_content_scan_from(fv, i as int);
                    assert(fv.skip(i as int)[0] == fv[i as int]);
                    assert(spec_content_entry_ref(fv[i as int]) == spec_param_schema_ref(
                        cf@[i as int].1.view_rec(),
                    ));
                }
                return Some(found);
            },
            None => {
                proof {
                    assert(spec_content_entry_ref(fv[i as int]) == spec_param_schema_ref(
                        cf@[i as int].1.view_rec(),
                    ));
                }
            },
        }
        i += 1;
    }
    proof {
        lemma_content_scan_from(fv, n as int);
        assert(fv.skip(n as int) =~= Seq::<(Seq<char>, JsonVal)>::empty());
    }
    None
}

/// Collects the responses of an operation, by dialect.
fn parse_responses(op: &JsonValue, legacy: bool) -> (r: Vec<crate::model::Response>)
    ensures
        resps_view(r@) == spec_responses(op@, legacy),
{
    let fs = match op.get("responses") {
        Some(m) => match m.as_object() {
            Some(fs) => fs,
            None => {
                let r: Vec<crate::model::Response> = Vec::new();
                proof {
                    assert(resps_view(r@) =~= Seq::<crate::model::ResponseV>::empty());
                }
                return r;
            },
        },
        None => {
            let r: Vec<crate::model::Response> = Vec::new();
            proof {
                assert(resps_view(r@) =~= Seq::<crate::model::ResponseV>::empty());
            }
            return r;
        },
    };
    proof {
        crate::json::lemma_field_views_of_index(fs@);
    }
    let ghost fv = JsonValue::field_views_of(fs@);
    let mut out: Vec<crate::model::Response> = Vec::new();
    let n = fs.len();
    let mut i: usize = 0;
    proof {
        assert(fv.take(0) =~= Seq::<(Seq<char>, JsonVal)>::empty());
        assert(resps_view(out@) =~= spec_responses_fields(fv.take(0), op@, legacy));
    }
    while i < n
        invariant
            0 <= i <= n,
            n == fs@.len(),
            fv == JsonValue::field_views_of(fs@),
            fv.len() == n,
            forall|k: int| 0 <= k < n ==> fv[k] == (#[trigger] fs@[k].0@, fs@[k].1.view_rec()),
            resps_view(out@) == spec_responses_fields(fv.take(i as int), op@, legacy),
        decreases n - i,
    {
        let resp = if legacy {
            crate::model::Response {
                status_code: fs[i].0.clone(),
                description: get_str_opt(&fs[i].1, "description"),
                content_types: parse_media_list(op, "produces"),
                schema_ref: schema_ref_of(&fs[i].1, true),
            }
        } else {
            match fs[i].1.get("content") {
                Some(m) => match m.as_object() {
                    Some(cf) => crate::model::Response {
                        status_code: fs[i].0.clone(),
                        description: get_str_opt(&fs[i].1, "description"),
                        content_types: field_keys(cf),
                        schema_ref: content_schema_ref(cf),
                    },
                    None => crate::model::Response {
                        status_code: fs[i].0.clone(),
                        description: get_str_opt(&fs[i].1, "description"),
                        content_types: Vec::new(),
                        schema_ref: None,
                    },
                },
                None => crate::model::Response {
                    status_code: fs[i].0.clone(),
                    description: get_str_opt(&fs[i].1, "description"),
                    content_types: Vec::new(),
                    schema_ref: None,
                },
            }
        };
        let ghost rv = resp@;
        let ghost before = out@;
        proof {
            if legacy {
                assert(rv == spec_swagger2_response(fv[i as int].0, fv[i as int].1, op@));
            } else {
                assert(crate::model::strs_view(Seq::<String>::empty()) =~= Seq::<Seq<char>>::empty());
                assert(rv == spec_openapi3_response(fv[i as int].0, fv[i as int].1));
            }
        }
        out.push(resp);
        proof {
            assert(resps_view(out@) =~= resps_view(before).push(rv));
            assert(fv.take(i + 1) =~= fv.take(i as int).push(fv[i as int]));
            lemma_responses_fields_push(fv.take(i as int), fv[i as int], op@, legacy);
            assert(resps_view(out@) =~= spec_responses_fields(fv.take(i + 1), op@, legacy));
        }
        i += 1;
    }
    proof {
        assert(fv.take(n as int) =~= fv);
    }
    out
}

/// What makes `e` the normalized endpoint of one operation: every scalar
/// field read as the dialect prescribes, the digest of the whole operation
/// value, and the cleaned reference targets beneath it, sorted.
pub open spec fn is_endpoint_of(
    e: crate::model::EndpointV,
    path: Seq<char>,
    method: HttpMethod,
    op: JsonVal,
    legacy: bool,
) -> bool {
    &&& e.path == path
    &&& e.method == method
    &&& e.operation_id == obj_get_str(op, "operationId"@)
    &&& e.summary == obj_get_str(op, "summary"@)
    &&& e.description == obj_get_str(op, "description"@)
    &&& e.tags == spec_str_list(op, "tags"@)
    &&& e.parameters == spec_params(op, legacy)
    &&& e.request_body == (if legacy {
        spec_swagger2_body(op)
    } else {
        spec_openapi3_body(op)
    })
    &&& e.responses == spec_responses(op, legacy)
    &&& e.deprecated == spec_bool_or(op, "deprecated"@, false)
    &&& e.hash == digest_of(op)
    &&& e.schema_refs.to_set() == ref_set(op)
    &&& forall|i: int, j: int|
        0 <= i < j < e.schema_refs.len() ==> chars_lt(
            #[trigger] e.schema_refs[i],
            #[trigger] e.schema_refs[j],
        )
}

/// The endpoint an operation normalizes to. `is_endpoint_of` pins every
/// field, so this value is unique.
pub open spec fn endpoint_of(path: Seq<char>, method: HttpMethod, op: JsonVal, legacy: bool)
    -> crate::model::EndpointV {
    choose|e: crate::model::EndpointV| is_endpoint_of(e, path, method, op, legacy)
}

/// Two endpoints of the same operation are equal.
pub proof fn lemma_endpoint_of_unique(
    e: crate::model::EndpointV,
    path: Seq<char>,
    method: HttpMethod,
    op: JsonVal,
    legacy: bool,
)
    requires
        is_endpoint_of(e, path, method, op, legacy),
    ensures
        e == endpoint_of(path, method, op, legacy),
{
    let w = endpoint_of(path, method, op, legacy);
    assert(is_endpoint_of(w, path, method, op, legacy));
    crate::text::lemma_strictly_sorted_set_unique(e.schema_refs, w.schema_refs);
    assert(e =~= w);
}

/// What makes `s` the normalized schema of one named definition.
pub open spec fn is_schema_of(s: crate::model::SchemaV, name: Seq<char>, def: JsonVal) -> bool {
    &&& s.name == name
    &&& s.schema_type == spec_schema_type(def)
    &&& s.description == obj_get_str(def, "description"@)
    &&& s.hash == digest_of(def)
    &&& s.refs.to_set() == ref_set(def)
    &&& forall|i: int, j: int|
        0 <= i < j < s.refs.len() ==> chars_lt(#[trigger] s.refs[i], #[trigger] s.refs[j])
}

/// The schema a named definition normalizes to; unique for the same reason.
pub open spec fn schema_of(name: Seq<char>, def: JsonVal) -> crate::model::SchemaV {
    choose|s: crate::model::SchemaV| is_schema_of(s, name, def)
}

pub proof fn lemma_schema_of_unique(s: crate::model::SchemaV, name: Seq<char>, def: JsonVal)
    requires
        is_schema_of(s, name, def),
    ensures
        s == schema_of(name, def),
{
    let w = schema_of(name, def);
    assert(is_schema_of(w, name, def));
    crate::text::lemma_strictly_sorted_set_unique(s.refs, w.refs);
    assert(s =~= w);
}

impl OpenApiParser {
    /// Normalizes one operation.
    fn parse_operation(path: &String, method: HttpMethod, op: &JsonValue, legacy: bool) -> (r:
        crate::model::Endpoint)
        ensures
            is_endpoint_of(r@, path@, method, op@, legacy),
    {
        let (schema_refs, hash) = crate::digest::extract_refs_and_hash(op);
        let request_body = if legacy {
            parse_swagger2_body(op)
        } else {
            parse_openapi3_body(op)
        };
        let e = crate::model::Endpoint {
            path: path.clone(),
            method,
            operation_id: get_str_opt(op, "operationId"),
            summary: get_str_opt(op, "summary"),
            description: get_str_opt(op, "description"),
            tags: str_list(op, "tags"),
            parameters: parse_parameters(op, legacy),
            request_body,
            responses: parse_responses(op, legacy),
            deprecated: get_bool_or(op, "deprecated", false),
            hash,
            schema_refs,
        };
        proof {
            assert(e@.schema_refs =~= crate::digest::str_views(e.schema_refs@));
            assert forall|i: int, j: int|
                0 <= i < j < e@.schema_refs.len() implies chars_lt(
                #[trigger] e@.schema_refs[i],
                #[trigger] e@.schema_refs[j],
            ) by {
                assert(e@.schema_refs[i] == e.schema_refs@[i]@);
                assert(e@.schema_refs[j] == e.schema_refs@[j]@);
            }
        }
        e
    }

    /// Normalizes one named schema definition.
    fn parse_schema_def(name: &String, def: &JsonValue) -> (r: crate::model::Schema)
        ensures
            is_schema_of(r@, name@, def@),
    {
        let (refs, hash) = crate::digest::extract_refs_and_hash(def);
        let s = crate::model::Schema {
            name: name.clone(),
            schema_type: Self::parse_schema_type(def),
            description: get_str_opt(def, "description"),
            refs,
            hash,
        };
        proof {
            assert(s@.refs =~= crate::digest::str_views(s.refs@));
            assert forall|i: int, j: int|
                0 <= i < j < s@.refs.len() implies chars_lt(
                #[trigger] s@.refs[i],
                #[trigger] s@.refs[j],
            ) by {
                assert(s@.refs[i] == s.refs@[i]@);
                assert(s@.refs[j] == s.refs@[j]@);
            }
        }
        s
    }
}

/// Relies on rayon's parallel iterator: mapping a verified per-operation
/// normalizer over the collected operations, in parallel, yields the same
/// list the sequential map would, in order.
#[verifier::external_body]
fn par_parse_operations<'a>(
    ops: &Vec<(&'a String, HttpMethod, &'a JsonValue)>,
    legacy: bool,
) -> (r: Vec<crate::model::Endpoint>)
    ensures
        r@.len() == ops@.len(),
        forall|i: int|
            0 <= i < ops@.len() ==> is_endpoint_of(
                (#[trigger] r@[i])@,
                ops@[i].0@,
                ops@[i].1,
                ops@[i].2@,
                legacy,
            ),
{
    ops.par_iter().map(|(p, m, o)| OpenApiParser::parse_operation(p, *m, o, legacy)).collect()
}

/// Relies on rayon's parallel iterator, as above, for schema definitions.
#[verifier::external_body]
fn par_parse_schemas<'a>(defs: &Vec<(&'a String, &'a JsonValue)>) -> (r: Vec<
    crate::model::Schema,
>)
    ensures
        r@.len() == defs@.len(),
        forall|i: int|
            0 <= i < defs@.len() ==> is_schema_of((#[trigger] r@[i])@, defs@[i].0@, defs@[i].1@),
{
    defs.par_iter().map(|(n, d)| OpenApiParser::parse_schema_def(n, d)).collect()
}

/// Views of collected operation triples.
pub open spec fn ops_views(s: Seq<(&String, HttpMethod, &JsonValue)>) -> Seq<
    (Seq<char>, HttpMethod, JsonVal),
> {
    s.map_values(|t: (&String, HttpMethod, &JsonValue)| (t.0@, t.1, t.2@))
}

/// The flattened operations of a document: one triple per recognized HTTP
/// method per path item, in document order.
pub open spec fn spec_operations(v: JsonVal) -> Seq<(Seq<char>, HttpMethod, JsonVal)> {
    match obj_get(v, "paths"@) {
        Some(JsonVal::Obj(pf)) => spec_ops_paths(pf),
        _ => Seq::empty(),
    }
}

pub open spec fn spec_ops_paths(pf: Seq<(Seq<char>, JsonVal)>) -> Seq<
    (Seq<char>, HttpMethod, JsonVal),
>
    decreases pf.len(),
{
    if pf.len() == 0 {
        Seq::empty()
    } else {
        spec_ops_item(pf[0]) + spec_ops_paths(pf.drop_first())
    }
}

pub open spec fn spec_ops_item(f: (Seq<char>, JsonVal)) -> Seq<(Seq<char>, HttpMethod, JsonVal)> {
    match f.1 {
        JsonVal::Obj(mf) => spec_ops_methods(f.0, mf),
        _ => Seq::empty(),
    }
}

pub open spec fn spec_ops_methods(path: Seq<char>, mf: Seq<(Seq<char>, JsonVal)>) -> Seq<
    (Seq<char>, HttpMethod, JsonVal),
>
    decreases mf.len(),
{
    if mf.len() == 0 {
        Seq::empty()
    } else {
        (match spec_parse_method(mf[0].0) {
            Some(m) => seq![(path, m, mf[0].1)],
            None => Seq::<(Seq<char>, HttpMethod, JsonVal)>::empty(),
        }) + spec_ops_methods(path, mf.drop_first())
    }
}

proof fn lemma_ops_paths_push(pf: Seq<(Seq<char>, JsonVal)>, f: (Seq<char>, JsonVal))
    ensures
        spec_ops_paths(pf.push(f)) =~= spec_ops_paths(pf) + spec_ops_item(f),
    decreases pf.len(),
{
    if pf.len() == 0 {
        assert(pf.push(f)[0] == f);
        assert(pf.push(f).drop_first() =~= Seq::<(Seq<char>, JsonVal)>::empty());
        assert(spec_ops_paths(Seq::<(Seq<char>, JsonVal)>::empty())
            =~= Seq::<(Seq<char>, HttpMethod, JsonVal)>::empty());
    } else {
        lemma_ops_paths_push(pf.drop_first(), f);
        assert(pf.push(f)[0] == pf[0]);
        assert(pf.push(f).drop_first() =~= pf.drop_first().push(f));
        assert(spec_ops_item(pf[0]) + (spec_ops_paths(pf.drop_first()) + spec_ops_item(f)) =~= (
        spec_ops_item(pf[0]) + spec_ops_paths(pf.drop_first())) + spec_ops_item(f));
    }
}

proof fn lemma_ops_methods_push(path: Seq<char>, mf: Seq<(Seq<char>, JsonVal)>, f: (Seq<char>, JsonVal))
    ensures
        spec_ops_methods(path, mf.push(f)) =~= spec_ops_methods(path, mf) + (match spec_parse_method(
            f.0,
        ) {
            Some(m) => seq![(path, m, f.1)],
            None => Seq::<(Seq<char>, HttpMethod, JsonVal)>::empty(),
        }),
    decreases mf.len(),
{
    if mf.len() == 0 {
        assert(mf.push(f)[0] == f);
        assert(mf.push(f).drop_first() =~= Seq::<(Seq<char>, JsonVal)>::empty());
        assert(spec_ops_methods(path, Seq::<(Seq<char>, JsonVal)>::empty())
            =~= Seq::<(Seq<char>, HttpMethod, JsonVal)>::empty());
    } else {
        lemma_ops_methods_push(path, mf.drop_first(), f);
        assert(mf.push(f)[0] == mf[0]);
        assert(mf.push(f).drop_first() =~= mf.drop_first().push(f));
        let head = match spec_parse_method(mf[0].0) {
            Some(m) => seq![(path, m, mf[0].1)],
            None => Seq::<(Seq<char>, HttpMethod, JsonVal)>::empty(),
        };
        let tailf = match spec_parse_method(f.0) {
            Some(m) => seq![(path, m, f.1)],
            None => Seq::<(Seq<char>, HttpMethod, JsonVal)>::empty(),
        };
        assert(head + (spec_ops_methods(path, mf.drop_first()) + tailf) =~= (head
            + spec_ops_methods(path, mf.drop_first())) + tailf);
    }
}

/// Flattens the operations of a document, in document order.
fn collect_operations<'a>(v: &'a JsonValue) -> (r: Vec<(&'a String, HttpMethod, &'a JsonValue)>)
    ensures
        ops_views(r@) == spec_operations(v@),
{
    let mut out: Vec<(&'a String, HttpMethod, &'a JsonValue)> = Vec::new();
    let pf = match v.get("paths") {
        Some(m) => match m.as_object() {
            Some(pf) => pf,
            None => {
                proof {
                    assert(ops_views(out@) =~= Seq::<(Seq<char>, HttpMethod, JsonVal)>::empty());
                }
                return out;
            },
        },
        None => {
            proof {
                assert(ops_views(out@) =~= Seq::<(Seq<char>, HttpMethod, JsonVal)>::empty());
            }
            return out;
        },
    };
    proof {
        crate::json::lemma_field_views_of_index(pf@);
    }
    let ghost pfv = JsonValue::field_views_of(pf@);
    let n = pf.len();
    let mut i: usize = 0;
    proof {
        assert(pfv.take(0) =~= Seq::<(Seq<char>, JsonVal)>::empty());
        assert(ops_views(out@) =~= spec_ops_paths(pfv.take(0)));
    }
    while i < n
        invariant
            0 <= i <= n,
            n == pf@.len(),
            pfv == JsonValue::field_views_of(pf@),
            pfv.len() == n,
            forall|k: int| 0 <= k < n ==> pfv[k] == (#[trigger] pf@[k].0@, pf@[k].1.view_rec()),
            ops_views(out@) == spec_ops_paths(pfv.take(i as int)),
        decreases n - i,
    {
        let ghost at_path = ops_views(out@);
        match pf[i].1.as_object() {
            Some(mf) => {
                proof {
                    crate::json::lemma_field_views_of_index(mf@);
                }
                let ghost mfv = JsonValue::field_views_of(mf@);
                let m = mf.len();
                let mut j: usize = 0;
                proof {
                    assert(mfv.take(0) =~= Seq::<(Seq<char>, JsonVal)>::empty());
                    assert(spec_ops_methods(pfv[i as int].0, mfv.take(0))
                        =~= Seq::<(Seq<char>, HttpMethod, JsonVal)>::empty());
                    assert(ops_views(out@) =~= at_path + spec_ops_methods(
                        pfv[i as int].0,
                        mfv.take(0),
                    ));
                }
                while j < m
                    invariant
                        0 <= j <= m,
                        0 <= i < n,
                        m == mf@.len(),
                        n == pf@.len(),
                        pfv == JsonValue::field_views_of(pf@),
                        pfv.len() == n,
                        forall|k: int|
                            0 <= k < n ==> pfv[k] == (#[trigger] pf@[k].0@, pf@[k].1.view_rec()),
                        mfv == JsonValue::field_views_of(mf@),
                        mfv.len() == m,
                        forall|k: int|
                            0 <= k < m ==> mfv[k] == (#[trigger] mf@[k].0@, mf@[k].1.view_rec()),
                        at_path == spec_ops_paths(pfv.take(i as int)),
                        pf@[i as int].0@ == pfv[i as int].0,
                        ops_views(out@) == at_path + spec_ops_methods(
                            pfv[i as int].0,
                            mfv.take(j as int),
                        ),
                    decreases m - j,
                {
                    let ghost before = ops_views(out@);
                    match OpenApiParser::parse_http_method(mf[j].0.as_str()) {
                        Some(meth) => {
                            out.push((&pf[i].0, meth, &mf[j].1));
                            proof {
                                assert(ops_views(out@) =~= before.push(
                                    (pfv[i as int].0, meth, mfv[j as int].1),
                                ));
                            }
                        },
                        None => {},
                    }
                    proof {
                        assert(mfv.take(j + 1) =~= mfv.take(j as int).push(mfv[j as int]));
                        lemma_ops_methods_push(pfv[i as int].0, mfv.take(j as int), mfv[j as int]);
                        assert(ops_views(out@) =~= at_path + spec_ops_methods(
                            pfv[i as int].0,
                            mfv.take(j + 1),
                        ));
                    }
                    j += 1;
                }
                proof {
                    assert(mfv.take(m as int) =~= mfv);
                    assert(pfv[i as int] == (pf@[i as int].0@, pf@[i as int].1.view_rec()));
                    assert(pfv[i as int].1 == JsonVal::Obj(mfv));
                    assert(spec_ops_item(pfv[i as int]) == spec_ops_methods(pfv[i as int].0, mfv));
                }
            },
            None => {
                proof {
                    assert(pfv[i as int] == (pf@[i as int].0@, pf@[i as int].1.view_rec()));
                    assert(spec_ops_item(pfv[i as int])
                        =~= Seq::<(Seq<char>, HttpMethod, JsonVal)>::empty());
                    assert(ops_views(out@) =~= at_path + spec_ops_item(pfv[i as int]));
                }
            },
        }
        proof {
            assert(pfv.take(i + 1) =~= pfv.take(i as int).push(pfv[i as int]));
            lemma_ops_paths_push(pfv.take(i as int), pfv[i as int]);
            assert(ops_views(out@) =~= spec_ops_paths(pfv.take(i + 1)));
        }
        i += 1;
    }
    proof {
        assert(pfv.take(n as int) =~= pfv);
    }
    out
}

/// The named schema definitions of a document: under `definitions` in the
/// legacy dialect, under `components.schemas` in the modern one.
pub open spec fn spec_schema_defs(v: JsonVal, legacy: bool) -> Seq<(Seq<char>, JsonVal)> {
    if legacy {
        match obj_get(v, "definitions"@) {
            Some(JsonVal::Obj(df)) => df,
            _ => Seq::empty(),
        }
    } else {
        match obj_get(v, "components"@) {
            Some(c) => match obj_get(c, "schemas"@) {
                Some(JsonVal::Obj(df)) => df,
                _ => Seq::empty(),
            },
            None => Seq::empty(),
        }
    }
}

/// Views of collected definition pairs.
pub open spec fn defs_views(s: Seq<(&String, &JsonValue)>) -> Seq<(Seq<char>, JsonVal)> {
    s.map_values(|t: (&String, &JsonValue)| (t.0@, t.1@))
}

/// Collects the named schema definitions of a document.
fn collect_schema_defs<'a>(v: &'a JsonValue, legacy: bool) -> (r: Vec<(&'a String, &'a JsonValue)>)
    ensures
        defs_views(r@) == spec_schema_defs(v@, legacy),
{
    let mut out: Vec<(&'a String, &'a JsonValue)> = Vec::new();
    let holder = if legacy {
        v.get("definitions")
    } else {
        match v.get("components") {
            Some(c) => c.get("schemas"),
            None => None,
        }
    };
    let df = match holder {
        Some(m) => match m.as_object() {
            Some(df) => df,
            None => {
                proof {
                    assert(defs_views(out@) =~= Seq::<(Seq<char>, JsonVal)>::empty());
                }
                return out;
            },
        },
        None => {
            proof {
                assert(defs_views(out@) =~= Seq::<(Seq<char>, JsonVal)>::empty());
            }
            return out;
        },
    };
    proof {
        crate::json::lemma_field_views_of_index(df@);
    }
    let ghost dfv = JsonValue::field_views_of(df@);
    let n = df.len();
    let mut i: usize = 0;
    proof {
        assert(dfv.take(0) =~= Seq::<(Seq<char>, JsonVal)>::empty());
        assert(defs_views(out@) =~= dfv.take(0));
    }
    while i < n
        invariant
            0 <= i <= n,
            n == df@.len(),
            dfv == JsonValue::field_views_of(df@),
            dfv.len() == n,
            forall|k: int| 0 <= k < n ==> dfv[k] == (#[trigger] df@[k].0@, df@[k].1.view_rec()),
            defs_views(out@) == dfv.take(i as int),
        decreases n - i,
    {
        let ghost before = defs_views(out@);
        out.push((&df[i].0, &df[i].1));
        proof {
            assert(defs_views(out@) =~= before.push(dfv[i as int]));
            assert(dfv.take(i + 1) =~= dfv.take(i as int).push(dfv[i as int]));
        }
        i += 1;
    }
    proof {
        assert(dfv.take(n as int) =~= dfv);
    }
    out
}

/// Views of an endpoint vector.
pub open spec fn eps_view(s: Seq<crate::model::Endpoint>) -> Seq<crate::model::EndpointV> {
    s.map_values(|e: crate::model::Endpoint| e@)
}

/// Views of a schema vector.
pub open spec fn schemas_view(s: Seq<crate::model::Schema>) -> Seq<crate::model::SchemaV> {
    s.map_values(|x: crate::model::Schema| x@)
}

/// The index of the first endpoint with the given key, or -1.
pub open spec fn ep_find(acc: Seq<crate::model::EndpointV>, k: Seq<char>) -> int
    decreases acc.len(),
{
    if acc.len() == 0 {
        -1
    } else if acc[0].key_of() == k {
        0
    } else {
        let r = ep_find(acc.drop_first(), k);
        if r == -1 {
            -1
        } else {
            r + 1
        }
    }
}

/// Merging one endpoint into a keyed accumulator: an existing key is
/// overwritten in place, a new key is appended.
pub open spec fn ep_merge_one(
    acc: Seq<crate::model::EndpointV>,
    e: crate::model::EndpointV,
) -> Seq<crate::model::EndpointV> {
    let i = ep_find(acc, e.key_of());
    if i >= 0 {
        acc.update(i, e)
    } else {
        acc.push(e)
    }
}

/// The keyed merge of an endpoint run, processed left to right.
pub open spec fn ep_merge(es: Seq<crate::model::EndpointV>) -> Seq<crate::model::EndpointV>
    decreases es.len(),
{
    if es.len() == 0 {
        Seq::empty()
    } else {
        ep_merge_one(ep_merge(es.drop_last()), es.last())
    }
}

proof fn lemma_ep_find_ensures(acc: Seq<crate::model::EndpointV>, k: Seq<char>)
    ensures
        ep_find(acc, k) == -1 ==> forall|j: int|
            0 <= j < acc.len() ==> (#[trigger] acc[j]).key_of() != k,
        ep_find(acc, k) != -1 ==> 0 <= ep_find(acc, k) < acc.len() && acc[ep_find(
            acc,
            k,
        )].key_of() == k && forall|j: int|
            0 <= j < ep_find(acc, k) ==> (#[trigger] acc[j]).key_of() != k,
    decreases acc.len(),
{
    if acc.len() > 0 && acc[0].key_of() != k {
        lemma_ep_find_ensures(acc.drop_first(), k);
        assert forall|j: int|
            0 <= j < acc.len() && ep_find(acc, k) == -1 implies (#[trigger] acc[j]).key_of()
            != k by {
            if j > 0 {
                assert(acc.drop_first()[j - 1] == acc[j]);
            }
        }
        if ep_find(acc, k) != -1 {
            assert(acc[ep_find(acc, k)] == acc.drop_first()[ep_find(acc.drop_first(), k)]);
            assert forall|j: int| 0 <= j < ep_find(acc, k) implies (#[trigger] acc[j]).key_of()
                != k by {
                if j > 0 {
                    assert(acc.drop_first()[j - 1] == acc[j]);
                }
            }
        }
    }
}

/// The keyed merge keeps endpoint keys unique.
pub proof fn lemma_ep_merge_unique(es: Seq<crate::model::EndpointV>)
    ensures
        forall|i: int, j: int|
            0 <= i < j < ep_merge(es).len() ==> (#[trigger] ep_merge(es)[i]).key_of() != (
            #[trigger] ep_merge(es)[j]).key_of(),
    decreases es.len(),
{
    if es.len() > 0 {
        lemma_ep_merge_unique(es.drop_last());
        let acc = ep_merge(es.drop_last());
        let e = es.last();
        lemma_ep_find_ensures(acc, e.key_of());
        let f = ep_find(acc, e.key_of());
        assert forall|i: int, j: int|
            0 <= i < j < ep_merge(es).len() implies (#[trigger] ep_merge(es)[i]).key_of() != (
        #[trigger] ep_merge(es)[j]).key_of() by {
            if f >= 0 {
                assert(ep_merge(es) == acc.update(f, e));
                assert(acc[f].key_of() == e.key_of());
                if i == f {
                    assert(ep_merge(es)[j] == acc[j]);
                } else if j == f {
                    assert(ep_merge(es)[i] == acc[i]);
                } else {
                    assert(ep_merge(es)[i] == acc[i] && ep_merge(es)[j] == acc[j]);
                }
            } else {
                assert(ep_merge(es) == acc.push(e));
                if j == acc.len() {
                    assert(ep_merge(es)[i] == acc[i]);
                    assert(ep_merge(es)[j] == e);
                } else {
                    assert(ep_merge(es)[i] == acc[i] && ep_merge(es)[j] == acc[j]);
                }
            }
        }
    }
}

/// The index of the first schema with the given name, or -1.
pub open spec fn sc_find(acc: Seq<crate::model::SchemaV>, k: Seq<char>) -> int
    decreases acc.len(),
{
    if acc.len() == 0 {
        -1
    } else if acc[0].name == k {
        0
    } else {
        let r = sc_find(acc.drop_first(), k);
        if r == -1 {
            -1
        } else {
            r + 1
        }
    }
}

/// Merging one schema into a name-keyed accumulator.
pub open spec fn sc_merge_one(
    acc: Seq<crate::model::SchemaV>,
    e: crate::model::SchemaV,
) -> Seq<crate::model::SchemaV> {
    let i = sc_find(acc, e.name);
    if i >= 0 {
        acc.update(i, e)
    } else {
        acc.push(e)
    }
}

/// The name-keyed merge of a schema run, processed left to right.
pub open spec fn sc_merge(es: Seq<crate::model::SchemaV>) -> Seq<crate::model::SchemaV>
    decreases es.len(),
{
    if es.len() == 0 {
        Seq::empty()
    } else {
        sc_merge_one(sc_merge(es.drop_last()), es.last())
    }
}

proof fn lemma_sc_find_ensures(acc: Seq<crate::model::SchemaV>, k: Seq<char>)
    ensures
        sc_find(acc, k) == -1 ==> forall|j: int|
            0 <= j < acc.len() ==> (#[trigger] acc[j]).name != k,
        sc_find(acc, k) != -1 ==> 0 <= sc_find(acc, k) < acc.len() && acc[sc_find(acc, k)].name
            == k && forall|j: int| 0 <= j < sc_find(acc, k) ==> (#[trigger] acc[j]).name != k,
    decreases acc.len(),
{
    if acc.len() > 0 && acc[0].name != k {
        lemma_sc_find_ensures(acc.drop_first(), k);
        assert forall|j: int|
            0 <= j < acc.len() && sc_find(acc, k) == -1 implies (#[trigger] acc[j]).name != k by {
            if j > 0 {
                assert(acc.drop_first()[j - 1] == acc[j]);
            }
        }
        if sc_find(acc, k) != -1 {
            assert(acc[sc_find(acc, k)] == acc.drop_first()[sc_find(acc.drop_first(), k)]);
            assert forall|j: int| 0 <= j < sc_find(acc, k) implies (#[trigger] acc[j]).name
                != k by {
                if j > 0 {
                    assert(acc.drop_first()[j - 1] == acc[j]);
                }
            }
        }
    }
}

/// The name-keyed merge keeps schema names unique.
pub proof fn lemma_sc_merge_unique(es: Seq<crate::model::SchemaV>)
    ensures
        forall|i: int, j: int|
            0 <= i < j < sc_merge(es).len() ==> (#[trigger] sc_merge(es)[i]).name != (
            #[trigger] sc_merge(es)[j]).name,
    decreases es.len(),
{
    if es.len() > 0 {
        lemma_sc_merge_unique(es.drop_last());
        let acc = sc_merge(es.drop_last());
        let e = es.last();
        lemma_sc_find_ensures(acc, e.name);
        let f = sc_find(acc, e.name);
        assert forall|i: int, j: int|
            0 <= i < j < sc_merge(es).len() implies (#[trigger] sc_merge(es)[i]).name != (
        #[trigger] sc_merge(es)[j]).name by {
            if f >= 0 {
                assert(sc_merge(es) == acc.update(f, e));
                assert(acc[f].name == e.name);
                if i == f {
                    assert(sc_merge(es)[j] == acc[j]);
                } else if j == f {
                    assert(sc_merge(es)[i] == acc[i]);
                } else {
                    assert(sc_merge(es)[i] == acc[i] && sc_merge(es)[j] == acc[j]);
                }
            } else {
                assert(sc_merge(es) == acc.push(e));
                if j == acc.len() {
                    assert(sc_merge(es)[i] == acc[i]);
                    assert(sc_merge(es)[j] == e);
                } else {
                    assert(sc_merge(es)[i] == acc[i] && sc_merge(es)[j] == acc[j]);
                }
            }
        }
    }
}

proof fn lemma_ep_find_prefix(acc: Seq<crate::model::EndpointV>, k: Seq<char>, p: int)
    requires
        0 <= p <= acc.len(),
        forall|j: int| 0 <= j < p ==> (#[trigger] acc[j]).key_of() != k,
    ensures
        p < acc.len() && acc[p].key_of() == k ==> ep_find(acc, k) == p,
        p == acc.len() ==> ep_find(acc, k) == -1,
    decreases p, acc.len(),
{
    if acc.len() == 0 {
    } else if p == 0 {
        if acc[0].key_of() != k {
        }
    } else {
        assert(acc[0].key_of() != k);
        assert forall|j: int|
            0 <= j < p - 1 implies (#[trigger] acc.drop_first()[j]).key_of() != k by {
            assert(acc.drop_first()[j] == acc[j + 1]);
        }
        lemma_ep_find_prefix(acc.drop_first(), k, p - 1);
        if p < acc.len() {
            assert(acc.drop_first()[p - 1] == acc[p]);
        }
    }
}

proof fn lemma_sc_find_prefix(acc: Seq<crate::model::SchemaV>, k: Seq<char>, p: int)
    requires
        0 <= p <= acc.len(),
        forall|j: int| 0 <= j < p ==> (#[trigger] acc[j]).name != k,
    ensures
        p < acc.len() && acc[p].name == k ==> sc_find(acc, k) == p,
        p == acc.len() ==> sc_find(acc, k) == -1,
    decreases p, acc.len(),
{
    if acc.len() == 0 {
    } else if p == 0 {
    } else {
        assert(acc[0].name != k);
        assert forall|j: int| 0 <= j < p - 1 implies (#[trigger] acc.drop_first()[j]).name
            != k by {
            assert(acc.drop_first()[j] == acc[j + 1]);
        }
        lemma_sc_find_prefix(acc.drop_first(), k, p - 1);
        if p < acc.len() {
            assert(acc.drop_first()[p - 1] == acc[p]);
        }
    }
}

/// Merges normalized endpoints into the keyed map order: later operations
/// with an already-seen key overwrite in place, new keys append.
fn merge_endpoints(eps: Vec<crate::model::Endpoint>) -> (r: Vec<crate::model::Endpoint>)
    ensures
        eps_view(r@) == ep_merge(eps_view(eps@)),
{
    let ghost input = eps_view(eps@);
    let mut rem = eps;
    let mut out: Vec<crate::model::Endpoint> = Vec::new();
    let ghost mut k: int = 0;
    proof {
        assert(input.take(0) =~= Seq::<crate::model::EndpointV>::empty());
        assert(eps_view(out@) =~= ep_merge(input.take(0)));
        assert(eps_view(rem@) =~= input.skip(0));
    }
    while rem.len() > 0
        invariant
            0 <= k <= input.len(),
            eps_view(rem@) == input.skip(k),
            eps_view(out@) == ep_merge(input.take(k)),
            rem@.len() == input.len() - k,
        decreases rem@.len(),
    {
        let e = rem.remove(0);
        let ghost ev = e@;
        proof {
            assert(input.skip(k)[0] == input[k]);
            assert(ev == input[k]);
            assert(eps_view(rem@) =~= input.skip(k).remove(0));
            assert(input.skip(k).remove(0) =~= input.skip(k + 1));
        }
        let key = e.key();
        let n = out.len();
        let mut p: usize = 0;
        let mut found: bool = false;
        while p < n && !found
            invariant
                0 <= p <= n,
                n == out@.len(),
                found ==> p < n && eps_view(out@)[p as int].key_of() == key@,
                forall|j: int| 0 <= j < p ==> (#[trigger] eps_view(out@)[j]).key_of() != key@,
            decreases n - p + (if found { 0int } else { 1int }),
        {
            let ok = out[p].key();
            if str_eq(ok.as_str(), key.as_str()) {
                proof {
                    assert(eps_view(out@)[p as int] == out@[p as int]@);
                }
                found = true;
            } else {
                proof {
                    assert(eps_view(out@)[p as int] == out@[p as int]@);
                }
                p += 1;
            }
        }
        let ghost before = eps_view(out@);
        if found {
            proof {
                lemma_ep_find_prefix(before, key@, p as int);
                assert(ep_find(before, ev.key_of()) == p as int);
            }
            out.remove(p);
            out.insert(p, e);
            proof {
                assert(eps_view(out@) =~= before.update(p as int, ev)) by {
                    before.remove_ensures(p as int);
                    before.remove(p as int).insert_ensures(p as int, ev);
                }
            }
        } else {
            proof {
                lemma_ep_find_prefix(before, key@, n as int);
                assert(ep_find(before, ev.key_of()) == -1);
            }
            out.push(e);
            proof {
                assert(eps_view(out@) =~= before.push(ev));
            }
        }
        proof {
            assert(input.take(k + 1) =~= input.take(k).push(input[k]));
            assert(input.take(k + 1).drop_last() =~= input.take(k));
            assert(input.take(k + 1).last() == input[k]);
            assert(ep_merge(input.take(k + 1)) == ep_merge_one(ep_merge(input.take(k)), ev));
            assert(eps_view(out@) =~= ep_merge(input.take(k + 1)));
            k = k + 1;
        }
    }
    proof {
        assert(input.take(k) =~= input);
    }
    out
}

/// Merges normalized schemas into the name-keyed map order.
fn merge_schemas(scs: Vec<crate::model::Schema>) -> (r: Vec<crate::model::Schema>)
    ensures
        schemas_view(r@) == sc_merge(schemas_view(scs@)),
{
    let ghost input = schemas_view(scs@);
    let mut rem = scs;
    let mut out: Vec<crate::model::Schema> = Vec::new();
    let ghost mut k: int = 0;
    proof {
        assert(input.take(0) =~= Seq::<crate::model::SchemaV>::empty());
        assert(schemas_view(out@) =~= sc_merge(input.take(0)));
        assert(schemas_view(rem@) =~= input.skip(0));
    }
    while rem.len() > 0
        invariant
            0 <= k <= input.len(),
            schemas_view(rem@) == input.skip(k),
            schemas_view(out@) == sc_merge(input.take(k)),
            rem@.len() == input.len() - k,
        decreases rem@.len(),
    {
        let e = rem.remove(0);
        let ghost ev = e@;
        proof {
            assert(input.skip(k)[0] == input[k]);
            assert(ev == input[k]);
            assert(schemas_view(rem@) =~= input.skip(k).remove(0));
            assert(input.skip(k).remove(0) =~= input.skip(k + 1));
        }
        let n = out.len();
        let mut p: usize = 0;
        let mut found: bool = false;
        while p < n && !found
            invariant
                0 <= p <= n,
                n == out@.len(),
                found ==> p < n && schemas_view(out@)[p as int].name == e.name@,
                forall|j: int| 0 <= j < p ==> (#[trigger] schemas_view(out@)[j]).name != e.name@,
        decreases n - p + (if found { 0int } else { 1int }),
        {
            if str_eq(out[p].name.as_str(), e.name.as_str()) {
                proof {
                    assert(schemas_view(out@)[p as int] == out@[p as int]@);
                }
                found = true;
            } else {
                proof {
                    assert(schemas_view(out@)[p as int] == out@[p as int]@);
                }
                p += 1;
            }
        }
        let ghost before = schemas_view(out@);
        if found {
            proof {
                lemma_sc_find_prefix(before, e.name@, p as int);
                assert(sc_find(before, ev.name) == p as int);
            }
            out.remove(p);
            out.insert(p, e);
            proof {
                assert(schemas_view(out@) =~= before.update(p as int, ev)) by {
                    before.remove_ensures(p as int);
                    before.remove(p as int).insert_ensures(p as int, ev);
                }
            }
        } else {
            proof {
                lemma_sc_find_prefix(before, e.name@, n as int);
                assert(sc_find(before, ev.name) == -1);
            }
            out.push(e);
            proof {
                assert(schemas_view(out@) =~= before.push(ev));
            }
        }
        proof {
            assert(input.take(k + 1) =~= input.take(k).push(input[k]));
            assert(input.take(k + 1).drop_last() =~= input.take(k));
            assert(input.take(k + 1).last() == input[k]);
            assert(sc_merge(input.take(k + 1)) == sc_merge_one(sc_merge(input.take(k)), ev));
            assert(schemas_view(out@) =~= sc_merge(input.take(k + 1)));
            k = k + 1;
        }
    }
    proof {
        assert(input.take(k) =~= input);
    }
    out
}

/// The union of the tag sets of a run of endpoints.
pub open spec fn tags_union(eps: Seq<crate::model::EndpointV>) -> Set<Seq<char>>
    decreases eps.len(),
{
    if eps.len() == 0 {
        Set::empty()
    } else {
        eps[0].tags.to_set().union(tags_union(eps.drop_first()))
    }
}

proof fn lemma_tags_union_push(eps: Seq<crate::model::EndpointV>, e: crate::model::EndpointV)
    ensures
        tags_union(eps.push(e)) =~= tags_union(eps).union(e.tags.to_set()),
    decreases eps.len(),
{
    if eps.len() == 0 {
        assert(eps.push(e)[0] == e);
        assert(eps.push(e).drop_first() =~= Seq::<crate::model::EndpointV>::empty());
        assert(tags_union(Seq::<crate::model::EndpointV>::empty()) =~= Set::<Seq<char>>::empty());
    } else {
        lemma_tags_union_push(eps.drop_first(), e);
        assert(eps.push(e)[0] == eps[0]);
        assert(eps.push(e).drop_first() =~= eps.drop_first().push(e));
    }
}

/// Gathers the deduplicated, sorted union of the endpoints' tags.
fn collect_tags(eps: &Vec<crate::model::Endpoint>) -> (r: Vec<String>)
    ensures
        crate::model::strs_view(r@).to_set() == tags_union(eps_view(eps@)),
        forall|i: int, j: int|
            0 <= i < j < r@.len() ==> chars_lt((#[trigger] r@[i])@, (#[trigger] r@[j])@),
{
    let mut acc: Vec<String> = Vec::new();
    let n = eps.len();
    let mut i: usize = 0;
    proof {
        assert(eps_view(eps@).take(0) =~= Seq::<crate::model::EndpointV>::empty());
        assert(crate::model::strs_view(acc@).to_set() =~= tags_union(eps_view(eps@).take(0)));
    }
    while i < n
        invariant
            0 <= i <= n,
            n == eps@.len(),
            crate::model::strs_view(acc@).to_set() == tags_union(eps_view(eps@).take(i as int)),
        decreases n - i,
    {
        let ghost ev = eps_view(eps@)[i as int];
        proof {
            assert(ev == eps@[i as int]@);
        }
        let tags = &eps[i].tags;
        let m = tags.len();
        let mut j: usize = 0;
        proof {
            assert(ev.tags =~= crate::model::strs_view(tags@));
            assert(ev.tags.take(0) =~= Seq::<Seq<char>>::empty());
            assert(ev.tags.take(0).to_set() =~= Set::<Seq<char>>::empty());
            assert(crate::model::strs_view(acc@).to_set() =~= tags_union(
                eps_view(eps@).take(i as int),
            ).union(ev.tags.take(0).to_set()));
        }
        while j < m
            invariant
                0 <= j <= m,
                0 <= i < n,
                n == eps@.len(),
                m == tags@.len(),
                tags@ == eps@[i as int].tags@,
                ev == eps_view(eps@)[i as int],
                ev.tags == crate::model::strs_view(tags@),
                crate::model::strs_view(acc@).to_set() == tags_union(
                    eps_view(eps@).take(i as int),
                ).union(ev.tags.take(j as int).to_set()),
            decreases m - j,
        {
            let ghost before = crate::model::strs_view(acc@);
            acc.push(tags[j].clone());
            proof {
                assert(crate::model::strs_view(acc@) =~= before.push(tags@[j as int]@));
                crate::digest::lemma_push_to_set(before, tags@[j as int]@);
                assert(ev.tags[j as int] == tags@[j as int]@);
                assert(ev.tags.take(j + 1) =~= ev.tags.take(j as int).push(ev.tags[j as int]));
                crate::digest::lemma_push_to_set(ev.tags.take(j as int), ev.tags[j as int]);
                assert(crate::model::strs_view(acc@).to_set() =~= tags_union(
                    eps_view(eps@).take(i as int),
                ).union(ev.tags.take(j + 1).to_set()));
            }
            j += 1;
        }
        proof {
            assert(ev.tags.take(m as int) =~= ev.tags);
            assert(eps_view(eps@).take(i + 1) =~= eps_view(eps@).take(i as int).push(ev));
            lemma_tags_union_push(eps_view(eps@).take(i as int), ev);
            assert(crate::model::strs_view(acc@).to_set() =~= tags_union(
                eps_view(eps@).take(i + 1),
            ));
        }
        i += 1;
    }
    proof {
        assert(eps_view(eps@).take(n as int) =~= eps_view(eps@));
    }
    crate::digest::sort_dedup_strings(&mut acc);
    acc
}

/// The endpoint map a document normalizes to: every operation normalized,
/// merged by key in document order.
pub open spec fn endpoints_model(v: JsonVal, legacy: bool) -> Seq<crate::model::EndpointV> {
    ep_merge(
        spec_operations(v).map_values(
            |t: (Seq<char>, HttpMethod, JsonVal)| endpoint_of(t.0, t.1, t.2, legacy),
        ),
    )
}

/// The schema map a document normalizes to.
pub open spec fn schemas_model(v: JsonVal, legacy: bool) -> Seq<crate::model::SchemaV> {
    sc_merge(
        spec_schema_defs(v, legacy).map_values(|f: (Seq<char>, JsonVal)| schema_of(f.0, f.1)),
    )
}

/// A metadata string read from the `info` block with a default.
pub open spec fn spec_info_str(v: JsonVal, key: Seq<char>, default: Seq<char>) -> Seq<char> {
    match obj_get(v, "info"@) {
        Some(info) => spec_str_or(info, key, default),
        None => default,
    }
}

/// The optional metadata description.
pub open spec fn spec_info_desc(v: JsonVal) -> Option<Seq<char>> {
    match obj_get(v, "info"@) {
        Some(info) => obj_get_str(info, "description"@),
        None => None,
    }
}

/// What makes `s` the normalized model of document `v` fetched from
/// `source` under the given dialect: well-formedness, the defaulted
/// metadata, the keyed endpoint and schema maps, the tag union, and the
/// whole-document digest.
pub open spec fn is_normalized_spec(
    s: crate::model::ParsedSpecV,
    v: JsonVal,
    source: Seq<char>,
    ver: OpenApiVersion,
) -> bool {
    let legacy = ver is Swagger2;
    &&& s.wf()
    &&& s.metadata.title == spec_info_str(v, "title"@, "Unknown API"@)
    &&& s.metadata.version == spec_info_str(v, "version"@, "0.0.0"@)
    &&& s.metadata.description == spec_info_desc(v)
    &&& s.metadata.openapi_version == ver
    &&& s.endpoints == endpoints_model(v, legacy)
    &&& s.schemas == schemas_model(v, legacy)
    &&& s.tags.to_set() == tags_union(s.endpoints)
    &&& s.spec_hash == digest_of(v)
    &&& s.source == source
}

impl OpenApiParser {
    /// Normalizes a decoded document under an already-detected dialect.
    /// Fails exactly when the document has no `info` block.
    pub fn parse_document(v: &JsonValue, source: &str, ver: OpenApiVersion) -> (r: OasResult<
        ParsedSpec,
    >)
        ensures
            match r {
                Ok(s) => obj_get(v@, "info"@) is Some && is_normalized_spec(s@, v@, source@, ver),
                Err(e) => obj_get(v@, "info"@) is None && (e matches OasError::InvalidOpenApi(m)
                    && m@ == "Missing 'info' field"@),
            },
    {
        let legacy = matches!(ver, OpenApiVersion::Swagger2);
        let info = match v.get("info") {
            Some(info) => info,
            None => {
                let mut msg = String::new();
                msg.append("Missing 'info' field");
                return Err(OasError::InvalidOpenApi(msg));
            },
        };
        let title = get_str_or(info, "title", "Unknown API");
        let version = get_str_or(info, "version", "0.0.0");
        let description = get_str_opt(info, "description");

        let ops = collect_operations(v);
        let raw_eps = par_parse_operations(&ops, legacy);
        proof {
            let sov = spec_operations(v@);
            let mapped = sov.map_values(
                |t: (Seq<char>, HttpMethod, JsonVal)| endpoint_of(t.0, t.1, t.2, legacy),
            );
            assert(ops_views(ops@).len() == sov.len());
            assert forall|x: int| 0 <= x < sov.len() implies eps_view(raw_eps@)[x] == mapped[x] by {
                assert(ops_views(ops@)[x] == (ops@[x].0@, ops@[x].1, ops@[x].2@));
                assert(is_endpoint_of(raw_eps@[x]@, ops@[x].0@, ops@[x].1, ops@[x].2@, legacy));
                assert(sov[x] == (ops@[x].0@, ops@[x].1, ops@[x].2@));
                lemma_endpoint_of_unique(
                    raw_eps@[x]@,
                    ops@[x].0@,
                    ops@[x].1,
                    ops@[x].2@,
                    legacy,
                );
                assert(eps_view(raw_eps@)[x] == raw_eps@[x]@);
            }
            assert(eps_view(raw_eps@) =~= mapped);
        }
        let endpoints = merge_endpoints(raw_eps);

        let defs = collect_schema_defs(v, legacy);
        let raw_scs = par_parse_schemas(&defs);
        proof {
            let sdv = spec_schema_defs(v@, legacy);
            let mapped = sdv.map_values(|f: (Seq<char>, JsonVal)| schema_of(f.0, f.1));
            assert(defs_views(defs@).len() == sdv.len());
            assert forall|x: int|
                0 <= x < sdv.len() implies schemas_view(raw_scs@)[x] == mapped[x] by {
                assert(defs_views(defs@)[x] == (defs@[x].0@, defs@[x].1@));
                assert(is_schema_of(raw_scs@[x]@, defs@[x].0@, defs@[x].1@));
                assert(sdv[x] == (defs@[x].0@, defs@[x].1@));
                lemma_schema_of_unique(raw_scs@[x]@, defs@[x].0@, defs@[x].1@);
                assert(schemas_view(raw_scs@)[x] == raw_scs@[x]@);
            }
            assert(schemas_view(raw_scs@) =~= mapped);
        }
        let schemas = merge_schemas(raw_scs);

        let tags = collect_tags(&endpoints);
        let spec_hash = crate::digest::compute_hash(v);
        let mut src = String::new();
        src.append(source);

        let endpoint_count = endpoints.len();
        let schema_count = schemas.len();
        let tag_count = tags.len();
        let out = ParsedSpec {
            metadata: crate::model::SpecMetadata {
                title,
                version,
                description,
                openapi_version: ver,
                endpoint_count,
                schema_count,
                tag_count,
            },
            endpoints,
            schemas,
            tags,
            spec_hash,
            source: src,
        };
        proof {
            let sv = out@;
            assert(sv.endpoints =~= endpoints_model(v@, legacy));
            assert(sv.schemas =~= schemas_model(v@, legacy));
            lemma_ep_merge_unique(
                spec_operations(v@).map_values(
                    |t: (Seq<char>, HttpMethod, JsonVal)| endpoint_of(t.0, t.1, t.2, legacy),
                ),
            );
            lemma_sc_merge_unique(
                spec_schema_defs(v@, legacy).map_values(
                    |f: (Seq<char>, JsonVal)| schema_of(f.0, f.1),
                ),
            );
            assert forall|i: int, j: int|
                0 <= i < j < sv.tags.len() implies chars_lt(
                #[trigger] sv.tags[i],
                #[trigger] sv.tags[j],
            ) by {
                assert(sv.tags[i] == out.tags@[i]@);
                assert(sv.tags[j] == out.tags@[j]@);
            }
            assert(sv.wf());
        }
        Ok(out)
    }
}

/// Whether a raw text looks like JSON: its first character past blank
/// space is an opening brace. (Blank space here is the ASCII kind.)
pub open spec fn spec_probably_json(s: Seq<char>) -> bool
    decreases s.len(),
{
    if s.len() == 0 {
        false
    } else if s[0] == ' ' || s[0] == '\t' || s[0] == '\n' || s[0] == '\r' {
        spec_probably_json(s.drop_first())
    } else {
        s[0] == '{'
    }
}

/// Tests whether a raw text looks like JSON rather than YAML.
fn probably_json(s: &str) -> (r: bool)
    ensures
        r == spec_probably_json(s@),
{
    let n = s.unicode_len();
    let mut i: usize = 0;
    proof {
        assert(s@.skip(0) =~= s@);
    }
    while i < n
        invariant
            0 <= i <= n,
            n == s@.len(),
            spec_probably_json(s@) == spec_probably_json(s@.skip(i as int)),
        decreases n - i,
    {
        let c = s.get_char(i);
        proof {
            assert(s@.skip(i as int)[0] == c);
            assert(s@.skip(i as int).drop_first() =~= s@.skip(i + 1));
        }
        if c == ' ' || c == '\t' || c == '\n' || c == '\r' {
            i += 1;
        } else {
            return c == '{';
        }
    }
    proof {
        assert(s@.skip(n as int) =~= Seq::<char>::empty());
    }
    false
}

/// The document a raw text decodes to: read as JSON when it looks like
/// JSON, as YAML otherwise.
pub open spec fn doc_of_text(text: Seq<char>) -> Option<JsonVal> {
    if spec_probably_json(text) {
        crate::json::json_doc_of(text)
    } else {
        crate::json::yaml_doc_of(text)
    }
}

impl OpenApiParser {
    /// Normalizes raw document text fetched from `source`: decode, classify
    /// the dialect, extract. Fails exactly on undecodable text, an
    /// unclassifiable or unsupported dialect, or a missing `info` block.
    pub fn parse_content(content: &str, source: &str) -> (r: OasResult<ParsedSpec>)
        ensures
            match r {
                Ok(s) => (doc_of_text(content@) matches Some(d) && spec_detect_version(d)
                    matches Ok(ver) && obj_get(d, "info"@) is Some && is_normalized_spec(
                    s@,
                    d,
                    source@,
                    ver,
                )),
                Err(e) => match doc_of_text(content@) {
                    None => if spec_probably_json(content@) {
                        e is InvalidJson
                    } else {
                        e is InvalidYaml
                    },
                    Some(d) => (spec_detect_version(d) is Err && match e {
                        OasError::UnsupportedVersion(s2) => obj_get_str(d, "openapi"@) == Some(
                            s2@,
                        ),
                        OasError::InvalidOpenApi(_) => obj_get_str(d, "openapi"@) is None
                            && !spec_is_swagger2(d),
                        _ => false,
                    }) || (spec_detect_version(d) is Ok && obj_get(d, "info"@) is None && (
                    e matches OasError::InvalidOpenApi(m) && m@ == "Missing 'info' field"@)),
                },
            },
    {
        let json_like = probably_json(content);
        let parsed = if json_like {
            crate::json::serde_parse_json(content)
        } else {
            crate::json::serde_parse_yaml(content)
        };
        let val = match parsed {
            Ok(val) => val,
            Err(msg) => {
                if json_like {
                    return Err(OasError::InvalidJson(msg));
                } else {
                    return Err(OasError::InvalidYaml(msg));
                }
            },
        };
        let doc = crate::json::value_to_json(&val);
        let ver = match Self::detect_version(&doc) {
            Ok(ver) => ver,
            Err(e) => {
                return Err(e);
            },
        };
        Self::parse_document(&doc, source, ver)
    }
}

impl OpenApiParser {
    /// Rejects a local source path that holds a parent-directory segment,
    /// before anything touches the file system. Callers apply it to the
    /// given path and again to its canonical form.
    pub fn validate_local_path(path: &str) -> (r: Result<(), OasError>)
        ensures
            match r {
                Ok(()) => !crate::text::has_substring(path@, ".."@),
                Err(e) => crate::text::has_substring(path@, ".."@) && (
                e matches OasError::PathTraversal(p) && p@ == path@),
            },
    {
        if crate::text::contains_str(path, "..") {
            let mut p = String::new();
            p.append(path);
            Err(OasError::PathTraversal(p))
        } else {
            Ok(())
        }
    }
}

} // verus!
