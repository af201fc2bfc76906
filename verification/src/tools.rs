//! The request/response shapes of the parse tool, and the pure rendering
//! step that filters, paginates and summarizes a normalized model.

use vstd::prelude::*;

use crate::graph::{GraphBuilder, GraphStats};
use crate::model::{Endpoint, EndpointV, ParsedSpec, Schema, SchemaV, SpecMetadata};
use crate::parser::lower_ascii;

verus! {

/// A request for a model, with presentation options.
#[derive(Debug, Clone, PartialEq)]
pub struct ParseInput {
    /// Network location or file path of the document.
    pub source: String,
    /// Output shape.
    pub format: ParseFormat,
    /// Project directory for caching.
    pub project_dir: Option<String>,
    /// Whether to use the cache.
    pub use_cache: bool,
    /// Cache time-to-live override, in seconds.
    pub ttl_seconds: Option<u64>,
    /// Page size for paginated shapes.
    pub limit: Option<usize>,
    /// Page start for paginated shapes.
    pub offset: usize,
    /// Keep only endpoints carrying this tag.
    pub tag: Option<String>,
    /// Keep only endpoints whose path starts with this prefix.
    pub path_prefix: Option<String>,
}

/// The output shapes of the parse tool.
#[derive(Debug, Clone, Copy, PartialEq, Eq, Structural, Default)]
pub enum ParseFormat {
    /// Metadata and graph stats only.
    #[default]
    Summary,
    /// Endpoint keys only.
    EndpointsList,
    /// Schema names only.
    SchemasList,
    /// Endpoint details, paginated.
    Endpoints,
    /// Schema details, paginated.
    Schemas,
    /// Both detail lists, paginated.
    Full,
}

/// The parse tool's answer.
#[derive(Debug)]
pub struct ParseOutput {
    pub success: bool,
    pub metadata: Option<SpecMetadata>,
    pub endpoints: Option<Vec<EndpointSummary>>,
    pub endpoint_keys: Option<Vec<String>>,
    pub schemas: Option<Vec<SchemaSummary>>,
    pub schema_names: Option<Vec<String>>,
    pub graph_stats: Option<GraphStats>,
    pub pagination: Option<PaginationInfo>,
    pub error: Option<String>,
}

/// Where a page sits within the filtered whole.
#[derive(Debug, Clone, Copy, PartialEq, Eq, Structural)]
pub struct PaginationInfo {
    pub total: usize,
    pub offset: usize,
    pub limit: usize,
    pub has_more: bool,
}

/// A compact rendering of one endpoint.
#[derive(Debug, Clone, PartialEq)]
pub struct EndpointSummary {
    pub key: String,
    pub path: String,
    pub method: String,
    pub operation_id: Option<String>,
    pub tags: Vec<String>,
    pub deprecated: bool,
    pub schema_refs: Vec<String>,
}

/// A compact rendering of one schema.
#[derive(Debug, Clone, PartialEq)]
pub struct SchemaSummary {
    pub name: String,
    pub refs: Vec<String>,
    pub description: Option<String>,
}

/// Whether an endpoint passes the request's filters: the tag compared
/// without regard to ASCII case, the path by prefix.
pub open spec fn ep_included(e: EndpointV, tag: Option<Seq<char>>, prefix: Option<Seq<char>>)
    -> bool {
    &&& match tag {
        Some(t) => exists|i: int|
            0 <= i < e.tags.len() && lower_ascii(#[trigger] e.tags[i]) == lower_ascii(t),
        None => true,
    }
    &&& match prefix {
        Some(p) => p.is_prefix_of(e.path),
        None => true,
    }
}

/// The endpoints that pass the filters, in order.
pub open spec fn filtered_eps(
    eps: Seq<EndpointV>,
    tag: Option<Seq<char>>,
    prefix: Option<Seq<char>>,
) -> Seq<EndpointV>
    decreases eps.len(),
{
    if eps.len() == 0 {
        Seq::empty()
    } else {
        (if ep_included(eps[0], tag, prefix) {
            seq![eps[0]]
        } else {
            Seq::<EndpointV>::empty()
        }) + filtered_eps(eps.drop_first(), tag, prefix)
    }
}

/// A summary faithfully renders an endpoint.
pub open spec fn is_ep_summary(s: EndpointSummary, e: EndpointV) -> bool {
    &&& s.key@ == e.key_of()
    &&& s.path@ == e.path
    &&& s.method@ == e.method.name_of()
    &&& crate::model::opt_view(s.operation_id) == e.operation_id
    &&& crate::model::strs_view(s.tags@) == e.tags
    &&& s.deprecated == e.deprecated
    &&& crate::model::strs_view(s.schema_refs@) == e.schema_refs
}

/// A summary faithfully renders a schema.
pub open spec fn is_sc_summary(s: SchemaSummary, x: SchemaV) -> bool {
    &&& s.name@ == x.name
    &&& crate::model::strs_view(s.refs@) == x.refs
    &&& crate::model::opt_view(s.description) == x.description
}

proof fn lemma_filtered_push(
    eps: Seq<EndpointV>,
    e: EndpointV,
    tag: Option<Seq<char>>,
    prefix: Option<Seq<char>>,
)
    ensures
        filtered_eps(eps.push(e), tag, prefix) =~= filtered_eps(eps, tag, prefix) + (
        if ep_included(e, tag, prefix) {
            seq![e]
        } else {
            Seq::<EndpointV>::empty()
        }),
    decreases eps.len(),
{
    if eps.len() == 0 {
        assert(eps.push(e)[0] == e);
        assert(eps.push(e).drop_first() =~= Seq::<EndpointV>::empty());
        assert(filtered_eps(Seq::<EndpointV>::empty(), tag, prefix) =~= Seq::<EndpointV>::empty());
    } else {
        lemma_filtered_push(eps.drop_first(), e, tag, prefix);
        assert(eps.push(e)[0] == eps[0]);
        assert(eps.push(e).drop_first() =~= eps.drop_first().push(e));
        let head = if ep_included(eps[0], tag, prefix) {
            seq![eps[0]]
        } else {
            Seq::<EndpointV>::empty()
        };
        let tailf = if ep_included(e, tag, prefix) {
            seq![e]
        } else {
            Seq::<EndpointV>::empty()
        };
        assert(head + (filtered_eps(eps.drop_first(), tag, prefix) + tailf) =~= (head
            + filtered_eps(eps.drop_first(), tag, prefix)) + tailf);
    }
}

/// Case-insensitive ASCII comparison of two owned strings.
fn eq_tag(a: &String, b: &String) -> (r: bool)
    ensures
        r == (lower_ascii(a@) == lower_ascii(b@)),
{
    let alen = a.as_str().unicode_len();
    let blen = b.as_str().unicode_len();
    if alen != blen {
        proof {
            assert(lower_ascii(a@).len() == a@.len());
            assert(lower_ascii(b@).len() == b@.len());
        }
        return false;
    }
    let mut i: usize = 0;
    while i < alen
        invariant
            0 <= i <= alen,
            alen == a@.len(),
            alen == b@.len(),
            forall|j: int|
                0 <= j < i ==> crate::parser::lower_char(a@[j]) == crate::parser::lower_char(
                    b@[j],
                ),
        decreases alen - i,
    {
        let ca = a.as_str().get_char(i);
        let cb = b.as_str().get_char(i);
        let fa: u32 = if 'A' <= ca && ca <= 'Z' {
            ca as u32 + 32
        } else {
            ca as u32
        };
        let fb: u32 = if 'A' <= cb && cb <= 'Z' {
            cb as u32 + 32
        } else {
            cb as u32
        };
        if fa != fb {
            proof {
                assert(crate::parser::lower_char(a@[i as int]) != crate::parser::lower_char(
                    b@[i as int],
                ));
                assert(lower_ascii(a@)[i as int] == crate::parser::lower_char(a@[i as int]));
                assert(lower_ascii(b@)[i as int] == crate::parser::lower_char(b@[i as int]));
            }
            return false;
        }
        proof {
            assert(crate::parser::lower_char(a@[i as int]) == crate::parser::lower_char(
                b@[i as int],
            ));
        }
        i += 1;
    }
    proof {
        assert(lower_ascii(a@) =~= lower_ascii(b@));
    }
    true
}

/// Whether an endpoint passes the request's filters.
fn ep_passes(e: &Endpoint, tag: Option<&String>, prefix: Option<&String>) -> (r: bool)
    ensures
        r == ep_included(
            e@,
            match tag {
                Some(t) => Some(t@),
                None => None,
            },
            match prefix {
                Some(p) => Some(p@),
                None => None,
            },
        ),
{
    let tag_ok = match tag {
        Some(t) => {
            let m = e.tags.len();
            let mut j: usize = 0;
            let mut hit = false;
            while j < m && !hit
                invariant
                    0 <= j <= m,
                    m == e.tags@.len(),
                    hit ==> j < m && lower_ascii(e@.tags[j as int]) == lower_ascii(t@),
                    !hit ==> forall|x: int|
                        0 <= x < j ==> lower_ascii(#[trigger] e@.tags[x]) != lower_ascii(t@),
                decreases m - j + (if hit {
                    0int
                } else {
                    1int
                }),
            {
                proof {
                    assert(e@.tags[j as int] == e.tags@[j as int]@);
                }
                if eq_tag(&e.tags[j], t) {
                    hit = true;
                } else {
                    j += 1;
                }
            }
            hit
        },
        None => true,
    };
    if !tag_ok {
        return false;
    }
    match prefix {
        Some(p) => crate::text::starts_with(e.path.as_str(), p.as_str()),
        None => true,
    }
}

/// The page bounds: skip `offset` entries, then take at most `limit`.
pub open spec fn page_of<A>(s: Seq<A>, offset: int, limit: int) -> Seq<A> {
    if offset >= s.len() {
        Seq::empty()
    } else if offset + limit >= s.len() {
        s.skip(offset)
    } else {
        s.skip(offset).take(limit)
    }
}

/// While the page has room, a new filtered element lands at its end.
proof fn lemma_page_grow<A>(s: Seq<A>, e: A, offset: int, limit: int)
    requires
        0 <= offset,
        0 < limit,
        s.len() >= offset,
        s.len() - offset < limit,
    ensures
        page_of(s.push(e), offset, limit) =~= page_of(s, offset, limit).push(e),
{
    let sp = s.push(e);
    assert(sp.len() == s.len() + 1);
    if offset >= s.len() {
        assert(offset == s.len());
        assert(page_of(s, offset, limit) =~= Seq::<A>::empty());
        assert(sp.skip(offset) =~= seq![e]);
        assert(Seq::<A>::empty().push(e) =~= seq![e]);
    } else {
        assert(offset + limit >= s.len() + 1);
        assert(page_of(sp, offset, limit) =~= sp.skip(offset));
        assert(page_of(s, offset, limit) =~= s.skip(offset));
        assert(sp.skip(offset) =~= s.skip(offset).push(e));
    }
}

/// Once the page is full or not yet reached, growth leaves it unchanged.
proof fn lemma_page_same<A>(s: Seq<A>, e: A, offset: int, limit: int)
    requires
        0 <= offset,
        0 <= limit,
        s.len() < offset || s.len() - offset >= limit,
    ensures
        page_of(s.push(e), offset, limit) =~= page_of(s, offset, limit),
{
    let sp = s.push(e);
    if s.len() < offset {
        assert(page_of(s, offset, limit) =~= Seq::<A>::empty());
        if offset >= sp.len() {
        } else {
            assert(offset == s.len());
            assert(false);
        }
    } else {
        assert(page_of(s, offset, limit) =~= s.skip(offset).take(limit)) by {
            if offset + limit >= s.len() {
                assert(s.len() - offset == limit);
                assert(s.skip(offset).take(limit) =~= s.skip(offset));
            }
        }
        assert(offset + limit <= s.len());
        assert(offset + limit < sp.len());
        assert(page_of(sp, offset, limit) =~= sp.skip(offset).take(limit));
        assert(sp.skip(offset).take(limit) =~= s.skip(offset).take(limit));
    }
}

/// Cloning a string vector keeps its views.
fn clone_strings(v: &Vec<String>) -> (r: Vec<String>)
    ensures
        crate::model::strs_view(r@) == crate::model::strs_view(v@),
{
    let mut out: Vec<String> = Vec::new();
    let n = v.len();
    let mut i: usize = 0;
    proof {
        assert(crate::model::strs_view(out@) =~= crate::model::strs_view(v@).take(0));
    }
    while i < n
        invariant
            0 <= i <= n,
            n == v@.len(),
            crate::model::strs_view(out@) == crate::model::strs_view(v@).take(i as int),
        decreases n - i,
    {
        let ghost before = crate::model::strs_view(out@);
        out.push(v[i].clone());
        proof {
            assert(crate::model::strs_view(out@) =~= before.push(v@[i as int]@));
            assert(crate::model::strs_view(v@).take(i + 1) =~= crate::model::strs_view(v@).take(
                i as int,
            ).push(crate::model::strs_view(v@)[i as int]));
        }
        i += 1;
    }
    proof {
        assert(crate::model::strs_view(v@).take(n as int) =~= crate::model::strs_view(v@));
    }
    out
}

/// Renders one endpoint compactly.
fn summarize_endpoint(e: &Endpoint) -> (r: EndpointSummary)
    ensures
        is_ep_summary(r, e@),
{
    EndpointSummary {
        key: e.key(),
        path: e.path.clone(),
        method: {
            let mut ms = String::new();
            ms.append(e.method.name());
            ms
        },
        operation_id: match &e.operation_id {
            Some(o) => Some(o.clone()),
            None => None,
        },
        tags: clone_strings(&e.tags),
        deprecated: e.deprecated,
        schema_refs: clone_strings(&e.schema_refs),
    }
}

/// Renders one schema compactly.
fn summarize_schema(x: &Schema) -> (r: SchemaSummary)
    ensures
        is_sc_summary(r, x@),
{
    SchemaSummary {
        name: x.name.clone(),
        refs: clone_strings(&x.refs),
        description: match &x.description {
            Some(d) => Some(d.clone()),
            None => None,
        },
    }
}

/// Filters, pages and summarizes the endpoints of a model. Returns the
/// page and the filtered total.
fn endpoint_page(
    spec: &ParsedSpec,
    tag: Option<&String>,
    prefix: Option<&String>,
    offset: usize,
    limit: usize,
) -> (r: (Vec<EndpointSummary>, usize))
    requires
        limit > 0,
    ensures
        ({
            let flt = filtered_eps(
                spec@.endpoints,
                match tag {
                    Some(t) => Some(t@),
                    None => None,
                },
                match prefix {
                    Some(p) => Some(p@),
                    None => None,
                },
            );
            let pg = page_of(flt, offset as int, limit as int);
            &&& r.1 == flt.len()
            &&& r.0@.len() == pg.len()
            &&& forall|j: int| 0 <= j < pg.len() ==> is_ep_summary(#[trigger] r.0@[j], pg[j])
        }),
{
    let ghost tv = match tag {
        Some(t) => Some(t@),
        None => None,
    };
    let ghost pv = match prefix {
        Some(p) => Some(p@),
        None => None,
    };
    let n = spec.endpoints.len();
    let mut i: usize = 0;
    let mut seen: usize = 0;
    let mut out: Vec<EndpointSummary> = Vec::new();
    proof {
        assert(spec@.endpoints.take(0) =~= Seq::<EndpointV>::empty());
        assert(filtered_eps(spec@.endpoints.take(0), tv, pv) =~= Seq::<EndpointV>::empty());
    }
    while i < n
        invariant
            0 <= i <= n,
            n == spec.endpoints@.len(),
            spec@.endpoints.len() == n,
            limit > 0,
            tv == (match tag {
                Some(t) => Some(t@),
                None => None,
            }),
            pv == (match prefix {
                Some(p) => Some(p@),
                None => None,
            }),
            seen == filtered_eps(spec@.endpoints.take(i as int), tv, pv).len(),
            seen <= i,
            out@.len() == page_of(
                filtered_eps(spec@.endpoints.take(i as int), tv, pv),
                offset as int,
                limit as int,
            ).len(),
            forall|j: int|
                0 <= j < out@.len() ==> is_ep_summary(
                    #[trigger] out@[j],
                    page_of(
                        filtered_eps(spec@.endpoints.take(i as int), tv, pv),
                        offset as int,
                        limit as int,
                    )[j],
                ),
        decreases n - i,
    {
        let ghost flt_before = filtered_eps(spec@.endpoints.take(i as int), tv, pv);
        let ghost ev = spec@.endpoints[i as int];
        proof {
            assert(spec@.endpoints.take(i + 1) =~= spec@.endpoints.take(i as int).push(ev));
            lemma_filtered_push(spec@.endpoints.take(i as int), ev, tv, pv);
            assert(ev == spec.endpoints@[i as int]@);
        }
        if ep_passes(&spec.endpoints[i], tag, prefix) {
            let ghost flt_after = filtered_eps(spec@.endpoints.take(i + 1), tv, pv);
            proof {
                assert(flt_after =~= flt_before.push(ev));
            }
            if seen >= offset && seen - offset < limit {
                let sm = summarize_endpoint(&spec.endpoints[i]);
                let ghost outv_before = out@;
                out.push(sm);
                proof {
                    lemma_page_grow(flt_before, ev, offset as int, limit as int);
                    assert forall|j: int|
                        0 <= j < out@.len() implies is_ep_summary(
                        #[trigger] out@[j],
                        page_of(flt_after, offset as int, limit as int)[j],
                    ) by {
                        if j < outv_before.len() {
                            assert(out@[j] == outv_before[j]);
                            assert(page_of(flt_after, offset as int, limit as int)[j] == page_of(
                                flt_before,
                                offset as int,
                                limit as int,
                            )[j]);
                        } else {
                            assert(out@[j] == sm);
                            assert(page_of(flt_after, offset as int, limit as int)[j] == ev);
                        }
                    }
                }
            } else {
                proof {
                    lemma_page_same(flt_before, ev, offset as int, limit as int);
                }
            }
            seen += 1;
        }
        i += 1;
    }
    proof {
        assert(spec@.endpoints.take(n as int) =~= spec@.endpoints);
    }
    (out, seen)
}

/// Pages and summarizes the schemas of a model; schemas are not filtered.
fn schema_page(spec: &ParsedSpec, offset: usize, limit: usize) -> (r: (Vec<SchemaSummary>, usize))
    requires
        limit > 0,
    ensures
        ({
            let pg = page_of(spec@.schemas, offset as int, limit as int);
            &&& r.1 == spec@.schemas.len()
            &&& r.0@.len() == pg.len()
            &&& forall|j: int| 0 <= j < pg.len() ==> is_sc_summary(#[trigger] r.0@[j], pg[j])
        }),
{
    let n = spec.schemas.len();
    let mut i: usize = 0;
    let mut out: Vec<SchemaSummary> = Vec::new();
    proof {
        assert(spec@.schemas.take(0) =~= Seq::<SchemaV>::empty());
    }
    while i < n
        invariant
            0 <= i <= n,
            n == spec.schemas@.len(),
            spec@.schemas.len() == n,
            limit > 0,
            out@.len() == page_of(spec@.schemas.take(i as int), offset as int, limit as int).len(),
            forall|j: int|
                0 <= j < out@.len() ==> is_sc_summary(
                    #[trigger] out@[j],
                    page_of(spec@.schemas.take(i as int), offset as int, limit as int)[j],
                ),
        decreases n - i,
    {
        let ghost before_seq = spec@.schemas.take(i as int);
        let ghost xv = spec@.schemas[i as int];
        proof {
            assert(spec@.schemas.take(i + 1) =~= before_seq.push(xv));
            assert(xv == spec.schemas@[i as int]@);
        }
        if i >= offset && i - offset < limit {
            let sm = summarize_schema(&spec.schemas[i]);
            let ghost outv_before = out@;
            out.push(sm);
            proof {
                assert(before_seq.len() == i);
                lemma_page_grow(before_seq, xv, offset as int, limit as int);
                assert forall|j: int|
                    0 <= j < out@.len() implies is_sc_summary(
                    #[trigger] out@[j],
                    page_of(before_seq.push(xv), offset as int, limit as int)[j],
                ) by {
                    if j < outv_before.len() {
                        assert(out@[j] == outv_before[j]);
                        assert(page_of(before_seq.push(xv), offset as int, limit as int)[j]
                            == page_of(before_seq, offset as int, limit as int)[j]);
                    } else {
                        assert(out@[j] == sm);
                        assert(page_of(before_seq.push(xv), offset as int, limit as int)[j] == xv);
                    }
                }
            }
        } else {
            proof {
                assert(before_seq.len() == i);
                lemma_page_same(before_seq, xv, offset as int, limit as int);
            }
        }
        i += 1;
    }
    proof {
        assert(spec@.schemas.take(n as int) =~= spec@.schemas);
    }
    (out, n)
}

/// The endpoint keys of a filtered model, in order.
fn endpoint_keys_of(spec: &ParsedSpec, tag: Option<&String>, prefix: Option<&String>) -> (r: Vec<
    String,
>)
    ensures
        ({
            let flt = filtered_eps(
                spec@.endpoints,
                match tag {
                    Some(t) => Some(t@),
                    None => None,
                },
                match prefix {
                    Some(p) => Some(p@),
                    None => None,
                },
            );
            &&& r@.len() == flt.len()
            &&& forall|j: int| 0 <= j < flt.len() ==> (#[trigger] r@[j])@ == flt[j].key_of()
        }),
{
    let ghost tv = match tag {
        Some(t) => Some(t@),
        None => None,
    };
    let ghost pv = match prefix {
        Some(p) => Some(p@),
        None => None,
    };
    let n = spec.endpoints.len();
    let mut i: usize = 0;
    let mut out: Vec<String> = Vec::new();
    proof {
        assert(spec@.endpoints.take(0) =~= Seq::<EndpointV>::empty());
    }
    while i < n
        invariant
            0 <= i <= n,
            n == spec.endpoints@.len(),
            spec@.endpoints.len() == n,
            tv == (match tag {
                Some(t) => Some(t@),
                None => None,
            }),
            pv == (match prefix {
                Some(p) => Some(p@),
                None => None,
            }),
            out@.len() == filtered_eps(spec@.endpoints.take(i as int), tv, pv).len(),
            forall|j: int|
                0 <= j < out@.len() ==> (#[trigger] out@[j])@ == filtered_eps(
                    spec@.endpoints.take(i as int),
                    tv,
                    pv,
                )[j].key_of(),
        decreases n - i,
    {
        let ghost ev = spec@.endpoints[i as int];
        proof {
            assert(spec@.endpoints.take(i + 1) =~= spec@.endpoints.take(i as int).push(ev));
            lemma_filtered_push(spec@.endpoints.take(i as int), ev, tv, pv);
            assert(ev == spec.endpoints@[i as int]@);
        }
        if ep_passes(&spec.endpoints[i], tag, prefix) {
            out.push(spec.endpoints[i].key());
        }
        i += 1;
    }
    proof {
        assert(spec@.endpoints.take(n as int) =~= spec@.endpoints);
    }
    out
}

/// The schema names of a model, in order.
fn schema_names_of(spec: &ParsedSpec) -> (r: Vec<String>)
    ensures
        r@.len() == spec@.schemas.len(),
        forall|j: int| 0 <= j < r@.len() ==> (#[trigger] r@[j])@ == spec@.schemas[j].name,
{
    let n = spec.schemas.len();
    let mut i: usize = 0;
    let mut out: Vec<String> = Vec::new();
    while i < n
        invariant
            0 <= i <= n,
            n == spec.schemas@.len(),
            spec@.schemas.len() == n,
            out@.len() == i,
            forall|j: int| 0 <= j < i ==> (#[trigger] out@[j])@ == spec@.schemas[j].name,
        decreases n - i,
    {
        proof {
            assert(spec@.schemas[i as int] == spec.schemas@[i as int]@);
        }
        out.push(spec.schemas[i].name.clone());
        i += 1;
    }
    out
}

/// Copies the metadata, field for field.
fn copy_metadata(m: &SpecMetadata) -> (r: SpecMetadata)
    ensures
        r@ == m@,
{
    SpecMetadata {
        title: m.title.clone(),
        version: m.version.clone(),
        description: match &m.description {
            Some(d) => Some(d.clone()),
            None => None,
        },
        openapi_version: m.openapi_version,
        endpoint_count: m.endpoint_count,
        schema_count: m.schema_count,
        tag_count: m.tag_count,
    }
}

/// Renders a resolved model in the requested shape: metadata and graph
/// stats always; keys, names or paginated summaries per the format; the
/// endpoint lists filtered by tag and path prefix. The page size defaults
/// to fifty.
pub fn render_parse_output(spec: &ParsedSpec, input: &ParseInput) -> (r: ParseOutput)
    ensures
        r.success,
        r.error is None,
        r.metadata matches Some(m) && m@ == spec@.metadata,
        r.graph_stats matches Some(st) && st.node_count == crate::graph::nodes_model(spec@).len()
            && st.edge_count == crate::graph::edges_model(spec@).len(),
        ({
            let flt = filtered_eps(
                spec@.endpoints,
                crate::model::opt_view(input.tag),
                crate::model::opt_view(input.path_prefix),
            );
            let limit = (match input.limit {
                Some(l) => l as int,
                None => 50,
            });
            match input.format {
                ParseFormat::Summary => r.endpoints is None && r.endpoint_keys is None && r.schemas
                    is None && r.schema_names is None && r.pagination is None,
                ParseFormat::EndpointsList => r.endpoint_keys matches Some(ks) && ks@.len()
                    == flt.len() && (forall|j: int|
                    0 <= j < flt.len() ==> (#[trigger] ks@[j])@ == flt[j].key_of()),
                ParseFormat::SchemasList => r.schema_names matches Some(ns) && ns@.len()
                    == spec@.schemas.len() && (forall|j: int|
                    0 <= j < ns@.len() ==> (#[trigger] ns@[j])@ == spec@.schemas[j].name),
                ParseFormat::Endpoints => limit > 0 ==> (r.endpoints matches Some(es) && ({
                    let pg = page_of(flt, input.offset as int, limit);
                    es@.len() == pg.len() && (forall|j: int|
                        0 <= j < pg.len() ==> is_ep_summary(#[trigger] es@[j], pg[j]))
                }) && (r.pagination matches Some(pi) && pi.total == flt.len() && pi.offset
                    == input.offset)),
                ParseFormat::Schemas => limit > 0 ==> (r.schemas matches Some(xs) && ({
                    let pg = page_of(spec@.schemas, input.offset as int, limit);
                    xs@.len() == pg.len() && (forall|j: int|
                        0 <= j < pg.len() ==> is_sc_summary(#[trigger] xs@[j], pg[j]))
                }) && (r.pagination matches Some(pi) && pi.total == spec@.schemas.len()
                    && pi.offset == input.offset)),
                ParseFormat::Full => limit > 0 ==> (r.endpoints matches Some(es) && ({
                    let pg = page_of(flt, input.offset as int, limit);
                    es@.len() == pg.len() && (forall|j: int|
                        0 <= j < pg.len() ==> is_ep_summary(#[trigger] es@[j], pg[j]))
                }) && (r.schemas matches Some(xs) && ({
                    let pg = page_of(spec@.schemas, input.offset as int, limit);
                    xs@.len() == pg.len() && (forall|j: int|
                        0 <= j < pg.len() ==> is_sc_summary(#[trigger] xs@[j], pg[j]))
                }))),
            }
        }),
{
    let graph = GraphBuilder::build(spec);
    let stats = graph.stats();
    let metadata = copy_metadata(&spec.metadata);
    let limit = match input.limit {
        Some(l) => l,
        None => 50,
    };
    let offset = input.offset;
    let tag = input.tag.as_ref();
    let prefix = input.path_prefix.as_ref();
    match input.format {
        ParseFormat::Summary => ParseOutput {
            success: true,
            metadata: Some(metadata),
            endpoints: None,
            endpoint_keys: None,
            schemas: None,
            schema_names: None,
            graph_stats: Some(stats),
            pagination: None,
            error: None,
        },
        ParseFormat::EndpointsList => {
            let keys = endpoint_keys_of(spec, tag, prefix);
            ParseOutput {
                success: true,
                metadata: Some(metadata),
                endpoints: None,
                endpoint_keys: Some(keys),
                schemas: None,
                schema_names: None,
                graph_stats: Some(stats),
                pagination: None,
                error: None,
            }
        },
        ParseFormat::SchemasList => {
            let names = schema_names_of(spec);
            ParseOutput {
                success: true,
                metadata: Some(metadata),
                endpoints: None,
                endpoint_keys: None,
                schemas: None,
                schema_names: Some(names),
                graph_stats: Some(stats),
                pagination: None,
                error: None,
            }
        },
        ParseFormat::Endpoints => {
            if limit == 0 {
                return ParseOutput {
                    success: true,
                    metadata: Some(metadata),
                    endpoints: Some(Vec::new()),
                    endpoint_keys: None,
                    schemas: None,
                    schema_names: None,
                    graph_stats: Some(stats),
                    pagination: None,
                    error: None,
                };
            }
            let (page, total) = endpoint_page(spec, tag, prefix, offset, limit);
            let has_more = offset < total && total - offset > limit;
            ParseOutput {
                success: true,
                metadata: Some(metadata),
                endpoints: Some(page),
                endpoint_keys: None,
                schemas: None,
                schema_names: None,
                graph_stats: Some(stats),
                pagination: Some(PaginationInfo { total, offset, limit, has_more }),
                error: None,
            }
        },
        ParseFormat::Schemas => {
            if limit == 0 {
                return ParseOutput {
                    success: true,
                    metadata: Some(metadata),
                    endpoints: None,
                    endpoint_keys: None,
                    schemas: Some(Vec::new()),
                    schema_names: None,
                    graph_stats: Some(stats),
                    pagination: None,
                    error: None,
                };
            }
            let (page, total) = schema_page(spec, offset, limit);
            let has_more = offset < total && total - offset > limit;
            ParseOutput {
                success: true,
                metadata: Some(metadata),
                endpoints: None,
                endpoint_keys: None,
                schemas: Some(page),
                schema_names: None,
                graph_stats: Some(stats),
                pagination: Some(PaginationInfo { total, offset, limit, has_more }),
                error: None,
            }
        },
        ParseFormat::Full => {
            if limit == 0 {
                return ParseOutput {
                    success: true,
                    metadata: Some(metadata),
                    endpoints: Some(Vec::new()),
                    endpoint_keys: None,
                    schemas: Some(Vec::new()),
                    schema_names: None,
                    graph_stats: Some(stats),
                    pagination: None,
                    error: None,
                };
            }
            let (epage, etotal) = endpoint_page(spec, tag, prefix, offset, limit);
            let (spage, stotal) = schema_page(spec, offset, limit);
            let total = if etotal > stotal {
                etotal
            } else {
                stotal
            };
            let has_more = (offset < etotal && etotal - offset > limit) || (offset < stotal
                && stotal - offset > limit);
            ParseOutput {
                success: true,
                metadata: Some(metadata),
                endpoints: Some(epage),
                endpoint_keys: None,
                schemas: Some(spage),
                schema_names: None,
                graph_stats: Some(stats),
                pagination: Some(PaginationInfo { total, offset, limit, has_more }),
                error: None,
            }
        },
    }
}

/// The failure answer of the parse tool.
pub fn render_parse_error(e: &crate::errors::OasError) -> (r: ParseOutput)
    ensures
        !r.success,
        r.error matches Some(m) && m@ == e.message_of(),
        r.metadata is None,
{
    ParseOutput {
        success: false,
        metadata: None,
        endpoints: None,
        endpoint_keys: None,
        schemas: None,
        schema_names: None,
        graph_stats: None,
        pagination: None,
        error: Some(e.message()),
    }
}

} // verus!
