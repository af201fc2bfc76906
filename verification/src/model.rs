//! The unified in-memory model that both document dialects normalize into.

use vstd::prelude::*;

use crate::text::chars_lt;

verus! {

/// The two supported dialects, the modern one in both covered minor lines.
#[derive(Debug, Clone, Copy, PartialEq, Eq, Structural)]
pub enum OpenApiVersion {
    Swagger2,
    OpenApi30,
    OpenApi31,
}

impl OpenApiVersion {
    /// The dialect-version label used in persisted records.
    pub open spec fn label_of(self) -> Seq<char> {
        match self {
            OpenApiVersion::Swagger2 => "swagger2"@,
            OpenApiVersion::OpenApi30 => "openapi30"@,
            OpenApiVersion::OpenApi31 => "openapi31"@,
        }
    }

    /// Renders the dialect-version label.
    pub fn label(&self) -> (r: &'static str)
        ensures
            r@ == self.label_of(),
    {
        match self {
            OpenApiVersion::Swagger2 => "swagger2",
            OpenApiVersion::OpenApi30 => "openapi30",
            OpenApiVersion::OpenApi31 => "openapi31",
        }
    }

    /// Reads a dialect-version label back.
    pub fn from_label(s: &str) -> (r: Option<OpenApiVersion>)
        ensures
            r == Self::spec_from_label(s@),
    {
        if crate::text::str_eq(s, "swagger2") {
            Some(OpenApiVersion::Swagger2)
        } else if crate::text::str_eq(s, "openapi30") {
            Some(OpenApiVersion::OpenApi30)
        } else if crate::text::str_eq(s, "openapi31") {
            Some(OpenApiVersion::OpenApi31)
        } else {
            None
        }
    }

    pub open spec fn spec_from_label(s: Seq<char>) -> Option<OpenApiVersion> {
        if s == "swagger2"@ {
            Some(OpenApiVersion::Swagger2)
        } else if s == "openapi30"@ {
            Some(OpenApiVersion::OpenApi30)
        } else if s == "openapi31"@ {
            Some(OpenApiVersion::OpenApi31)
        } else {
            None
        }
    }

    /// The label round-trips through its reader.
    pub proof fn lemma_label_round_trip(self)
        ensures
            Self::spec_from_label(self.label_of()) == Some(self),
    {
        reveal_strlit("swagger2");
        reveal_strlit("openapi30");
        reveal_strlit("openapi31");
        assert("swagger2"@.len() == 8);
        assert("openapi30"@.len() == 9);
        assert("openapi30"@[7] == '3');
        assert("openapi31"@[7] == '3');
        assert("openapi30"@[8] == '0');
        assert("openapi31"@[8] == '1');
    }
}

/// The fixed set of HTTP methods an operation can carry.
#[derive(Debug, Clone, Copy, PartialEq, Eq, Structural)]
pub enum HttpMethod {
    Get,
    Post,
    Put,
    Patch,
    Delete,
    Head,
    Options,
    Trace,
}

impl HttpMethod {
    /// The upper-case method name.
    pub open spec fn name_of(self) -> Seq<char> {
        match self {
            HttpMethod::Get => "GET"@,
            HttpMethod::Post => "POST"@,
            HttpMethod::Put => "PUT"@,
            HttpMethod::Patch => "PATCH"@,
            HttpMethod::Delete => "DELETE"@,
            HttpMethod::Head => "HEAD"@,
            HttpMethod::Options => "OPTIONS"@,
            HttpMethod::Trace => "TRACE"@,
        }
    }

    /// Renders the upper-case method name.
    pub fn name(&self) -> (r: &'static str)
        ensures
            r@ == self.name_of(),
    {
        match self {
            HttpMethod::Get => "GET",
            HttpMethod::Post => "POST",
            HttpMethod::Put => "PUT",
            HttpMethod::Patch => "PATCH",
            HttpMethod::Delete => "DELETE",
            HttpMethod::Head => "HEAD",
            HttpMethod::Options => "OPTIONS",
            HttpMethod::Trace => "TRACE",
        }
    }
}

/// Where a parameter is carried.
#[derive(Debug, Clone, Copy, PartialEq, Eq, Structural)]
pub enum ParameterLocation {
    Path,
    Query,
    Header,
    Cookie,
}

/// View of a parameter.
pub struct ParameterV {
    pub name: Seq<char>,
    pub location: ParameterLocation,
    pub required: bool,
    pub description: Option<Seq<char>>,
    pub schema_ref: Option<Seq<char>>,
    pub schema_type: Option<Seq<char>>,
}

/// An operation parameter outside the request body.
#[derive(Debug, Clone, PartialEq)]
pub struct Parameter {
    pub name: String,
    pub location: ParameterLocation,
    pub required: bool,
    pub description: Option<String>,
    pub schema_ref: Option<String>,
    pub schema_type: Option<String>,
}

/// View of an optional string.
pub open spec fn opt_view(o: Option<String>) -> Option<Seq<char>> {
    match o {
        Some(s) => Some(s@),
        None => None,
    }
}

/// View of an optional parameter.
pub open spec fn opt_view_param(o: Option<Parameter>) -> Option<ParameterV> {
    match o {
        Some(p) => Some(p@),
        None => None,
    }
}

/// View of an optional request body.
pub open spec fn opt_view_body(o: Option<RequestBody>) -> Option<RequestBodyV> {
    match o {
        Some(b) => Some(b@),
        None => None,
    }
}

/// Views of a string vector.
pub open spec fn strs_view(v: Seq<String>) -> Seq<Seq<char>> {
    v.map_values(|s: String| s@)
}

impl View for Parameter {
    type V = ParameterV;

    open spec fn view(&self) -> ParameterV {
        ParameterV {
            name: self.name@,
            location: self.location,
            required: self.required,
            description: opt_view(self.description),
            schema_ref: opt_view(self.schema_ref),
            schema_type: opt_view(self.schema_type),
        }
    }
}

/// View of a schema shape.
pub enum SchemaTypeV {
    Ref { reference: Seq<char> },
    OneOf { variants: Seq<SchemaTypeV> },
    AnyOf { variants: Seq<SchemaTypeV> },
    AllOf { variants: Seq<SchemaTypeV> },
    Text { format: Option<Seq<char>>, enum_values: Option<Seq<Seq<char>>> },
    Number { format: Option<Seq<char>> },
    Integer { format: Option<Seq<char>> },
    Boolean,
    Array { items: Box<SchemaTypeV> },
    Object { properties: Seq<(Seq<char>, SchemaTypeV)>, required: Seq<Seq<char>> },
    Unknown,
}

/// The closed set of mutually exclusive schema shapes.
#[derive(Debug, PartialEq)]
pub enum SchemaType {
    /// A reference to another named schema.
    Ref { reference: String },
    OneOf { variants: Vec<SchemaType> },
    AnyOf { variants: Vec<SchemaType> },
    AllOf { variants: Vec<SchemaType> },
    /// The string primitive.
    Text { format: Option<String>, enum_values: Option<Vec<String>> },
    Number { format: Option<String> },
    Integer { format: Option<String> },
    Boolean,
    Array { items: Box<SchemaType> },
    Object { properties: Vec<(String, SchemaType)>, required: Vec<String> },
    Unknown,
}

impl SchemaType {
    pub open spec fn view_rec(self) -> SchemaTypeV
        decreases self,
    {
        match self {
            SchemaType::Ref { reference } => SchemaTypeV::Ref { reference: reference@ },
            SchemaType::OneOf { variants } => SchemaTypeV::OneOf {
                variants: Self::views_of(variants@),
            },
            SchemaType::AnyOf { variants } => SchemaTypeV::AnyOf {
                variants: Self::views_of(variants@),
            },
            SchemaType::AllOf { variants } => SchemaTypeV::AllOf {
                variants: Self::views_of(variants@),
            },
            SchemaType::Text { format, enum_values } => SchemaTypeV::Text {
                format: opt_view(format),
                enum_values: match enum_values {
                    Some(vs) => Some(strs_view(vs@)),
                    None => None,
                },
            },
            SchemaType::Number { format } => SchemaTypeV::Number { format: opt_view(format) },
            SchemaType::Integer { format } => SchemaTypeV::Integer { format: opt_view(format) },
            SchemaType::Boolean => SchemaTypeV::Boolean,
            SchemaType::Array { items } => SchemaTypeV::Array {
                items: Box::new((*items).view_rec()),
            },
            SchemaType::Object { properties, required } => SchemaTypeV::Object {
                properties: Self::prop_views_of(properties@),
                required: strs_view(required@),
            },
            SchemaType::Unknown => SchemaTypeV::Unknown,
        }
    }

    pub open spec fn views_of(s: Seq<SchemaType>) -> Seq<SchemaTypeV>
        decreases s,
    {
        if s.len() == 0 {
            Seq::empty()
        } else {
            seq![s[0].view_rec()] + Self::views_of(s.drop_first())
        }
    }

    pub open spec fn prop_views_of(s: Seq<(String, SchemaType)>) -> Seq<(Seq<char>, SchemaTypeV)>
        decreases s,
    {
        if s.len() == 0 {
            Seq::empty()
        } else {
            seq![(s[0].0@, s[0].1.view_rec())] + Self::prop_views_of(s.drop_first())
        }
    }
}

/// Length of and membership in the views of a shape sequence.
pub proof fn lemma_st_views_of_index(s: Seq<SchemaType>)
    ensures
        SchemaType::views_of(s).len() == s.len(),
        forall|i: int|
            0 <= i < s.len() ==> SchemaType::views_of(s)[i] == #[trigger] s[i].view_rec(),
    decreases s.len(),
{
    if s.len() > 0 {
        lemma_st_views_of_index(s.drop_first());
        assert forall|i: int|
            0 <= i < s.len() implies SchemaType::views_of(s)[i] == #[trigger] s[i].view_rec() by {
            if i > 0 {
                assert(s.drop_first()[i - 1] == s[i]);
                assert(SchemaType::views_of(s)[i] == SchemaType::views_of(s.drop_first())[i - 1]);
            }
        }
    }
}

/// Length of and membership in the views of a property sequence.
pub proof fn lemma_prop_views_of_index(s: Seq<(String, SchemaType)>)
    ensures
        SchemaType::prop_views_of(s).len() == s.len(),
        forall|i: int|
            0 <= i < s.len() ==> SchemaType::prop_views_of(s)[i] == (
            #[trigger] s[i].0@,
            s[i].1.view_rec(),
            ),
    decreases s.len(),
{
    if s.len() > 0 {
        lemma_prop_views_of_index(s.drop_first());
        assert forall|i: int|
            0 <= i < s.len() implies SchemaType::prop_views_of(s)[i] == (
            #[trigger] s[i].0@,
            s[i].1.view_rec(),
        ) by {
            if i > 0 {
                assert(s.drop_first()[i - 1] == s[i]);
                assert(SchemaType::prop_views_of(s)[i] == SchemaType::prop_views_of(
                    s.drop_first(),
                )[i - 1]);
            }
        }
    }
}

impl View for SchemaType {
    type V = SchemaTypeV;

    open spec fn view(&self) -> SchemaTypeV {
        self.view_rec()
    }
}

/// View of a request body.
pub struct RequestBodyV {
    pub required: bool,
    pub description: Option<Seq<char>>,
    pub content_types: Seq<Seq<char>>,
    pub schema_ref: Option<Seq<char>>,
}

/// The request body of an operation.
#[derive(Debug, Clone, PartialEq)]
pub struct RequestBody {
    pub required: bool,
    pub description: Option<String>,
    pub content_types: Vec<String>,
    pub schema_ref: Option<String>,
}

impl View for RequestBody {
    type V = RequestBodyV;

    open spec fn view(&self) -> RequestBodyV {
        RequestBodyV {
            required: self.required,
            description: opt_view(self.description),
            content_types: strs_view(self.content_types@),
            schema_ref: opt_view(self.schema_ref),
        }
    }
}

/// View of a response.
pub struct ResponseV {
    pub status_code: Seq<char>,
    pub description: Option<Seq<char>>,
    pub content_types: Seq<Seq<char>>,
    pub schema_ref: Option<Seq<char>>,
}

/// One response of an operation, keyed by its status code.
#[derive(Debug, Clone, PartialEq)]
pub struct Response {
    pub status_code: String,
    pub description: Option<String>,
    pub content_types: Vec<String>,
    pub schema_ref: Option<String>,
}

impl View for Response {
    type V = ResponseV;

    open spec fn view(&self) -> ResponseV {
        ResponseV {
            status_code: self.status_code@,
            description: opt_view(self.description),
            content_types: strs_view(self.content_types@),
            schema_ref: opt_view(self.schema_ref),
        }
    }
}

/// View of an endpoint.
pub struct EndpointV {
    pub path: Seq<char>,
    pub method: HttpMethod,
    pub operation_id: Option<Seq<char>>,
    pub summary: Option<Seq<char>>,
    pub description: Option<Seq<char>>,
    pub tags: Seq<Seq<char>>,
    pub parameters: Seq<ParameterV>,
    pub request_body: Option<RequestBodyV>,
    pub responses: Seq<ResponseV>,
    pub deprecated: bool,
    pub hash: Seq<char>,
    pub schema_refs: Seq<Seq<char>>,
}

impl EndpointV {
    /// The key an endpoint is stored under: method name, a space, the path.
    pub open spec fn key_of(self) -> Seq<char> {
        self.method.name_of() + " "@ + self.path
    }
}

/// One operation of the described API.
#[derive(Debug, Clone, PartialEq)]
pub struct Endpoint {
    pub path: String,
    pub method: HttpMethod,
    pub operation_id: Option<String>,
    pub summary: Option<String>,
    pub description: Option<String>,
    pub tags: Vec<String>,
    pub parameters: Vec<Parameter>,
    pub request_body: Option<RequestBody>,
    pub responses: Vec<Response>,
    pub deprecated: bool,
    pub hash: String,
    pub schema_refs: Vec<String>,
}

impl View for Endpoint {
    type V = EndpointV;

    open spec fn view(&self) -> EndpointV {
        EndpointV {
            path: self.path@,
            method: self.method,
            operation_id: opt_view(self.operation_id),
            summary: opt_view(self.summary),
            description: opt_view(self.description),
            tags: strs_view(self.tags@),
            parameters: self.parameters@.map_values(|p: Parameter| p@),
            request_body: match self.request_body {
                Some(b) => Some(b@),
                None => None,
            },
            responses: self.responses@.map_values(|r: Response| r@),
            deprecated: self.deprecated,
            hash: self.hash@,
            schema_refs: strs_view(self.schema_refs@),
        }
    }
}

impl Endpoint {
    /// The key this endpoint is stored under.
    pub fn key(&self) -> (r: String)
        ensures
            r@ == self@.key_of(),
    {
        let mut out = String::new();
        out.append(self.method.name());
        out.append(" ");
        out.append(self.path.as_str());
        out
    }
}

/// View of a named schema.
pub struct SchemaV {
    pub name: Seq<char>,
    pub schema_type: SchemaTypeV,
    pub description: Option<Seq<char>>,
    pub refs: Seq<Seq<char>>,
    pub hash: Seq<char>,
}

/// One named schema definition.
#[derive(Debug, PartialEq)]
pub struct Schema {
    pub name: String,
    pub schema_type: SchemaType,
    pub description: Option<String>,
    pub refs: Vec<String>,
    pub hash: String,
}

impl View for Schema {
    type V = SchemaV;

    open spec fn view(&self) -> SchemaV {
        SchemaV {
            name: self.name@,
            schema_type: self.schema_type@,
            description: opt_view(self.description),
            refs: strs_view(self.refs@),
            hash: self.hash@,
        }
    }
}

/// View of the document-level metadata.
pub struct SpecMetadataV {
    pub title: Seq<char>,
    pub version: Seq<char>,
    pub description: Option<Seq<char>>,
    pub openapi_version: OpenApiVersion,
    pub endpoint_count: int,
    pub schema_count: int,
    pub tag_count: int,
}

/// Document-level metadata with summary counts.
#[derive(Debug, Clone, PartialEq)]
pub struct SpecMetadata {
    pub title: String,
    pub version: String,
    pub description: Option<String>,
    pub openapi_version: OpenApiVersion,
    pub endpoint_count: usize,
    pub schema_count: usize,
    pub tag_count: usize,
}

impl View for SpecMetadata {
    type V = SpecMetadataV;

    open spec fn view(&self) -> SpecMetadataV {
        SpecMetadataV {
            title: self.title@,
            version: self.version@,
            description: opt_view(self.description),
            openapi_version: self.openapi_version,
            endpoint_count: self.endpoint_count as int,
            schema_count: self.schema_count as int,
            tag_count: self.tag_count as int,
        }
    }
}

/// View of a normalized document.
pub struct ParsedSpecV {
    pub metadata: SpecMetadataV,
    pub endpoints: Seq<EndpointV>,
    pub schemas: Seq<SchemaV>,
    pub tags: Seq<Seq<char>>,
    pub spec_hash: Seq<char>,
    pub source: Seq<char>,
}

impl ParsedSpecV {
    /// Well-formedness: endpoint keys and schema names are unique, the tags
    /// are strictly sorted (hence deduplicated), and the counts match.
    pub open spec fn wf(self) -> bool {
        &&& forall|i: int, j: int|
            0 <= i < j < self.endpoints.len() ==> (#[trigger] self.endpoints[i]).key_of() != (
            #[trigger] self.endpoints[j]).key_of()
        &&& forall|i: int, j: int|
            0 <= i < j < self.schemas.len() ==> (#[trigger] self.schemas[i]).name != (
            #[trigger] self.schemas[j]).name
        &&& forall|i: int, j: int|
            0 <= i < j < self.tags.len() ==> chars_lt(#[trigger] self.tags[i], #[trigger] self.tags[j])
        &&& self.metadata.endpoint_count == self.endpoints.len()
        &&& self.metadata.schema_count == self.schemas.len()
        &&& self.metadata.tag_count == self.tags.len()
    }
}

/// A normalized document: the unified model both dialects map into.
/// Endpoints are keyed by method and path, schemas by name; both key sets
/// are unique, and the tag list is the deduplicated, sorted union of the
/// endpoints' tags.
#[derive(Debug, PartialEq)]
pub struct ParsedSpec {
    pub metadata: SpecMetadata,
    pub endpoints: Vec<Endpoint>,
    pub schemas: Vec<Schema>,
    pub tags: Vec<String>,
    pub spec_hash: String,
    pub source: String,
}

impl View for ParsedSpec {
    type V = ParsedSpecV;

    open spec fn view(&self) -> ParsedSpecV {
        ParsedSpecV {
            metadata: self.metadata@,
            endpoints: self.endpoints@.map_values(|e: Endpoint| e@),
            schemas: self.schemas@.map_values(|s: Schema| s@),
            tags: strs_view(self.tags@),
            spec_hash: self.spec_hash@,
            source: self.source@,
        }
    }
}

} // verus!
