//! The dependency graph over a normalized model.
//!
//! Nodes are the schema names and endpoint keys; edges run from each schema
//! to the schemas it references and from each endpoint to the schemas its
//! operation touches. Queries answer direction-scoped reachability — what a
//! node depends on, and what depends on it — and stay correct and
//! terminating on cyclic reference sets by tracking visited nodes.

use vstd::prelude::*;

use crate::model::{ParsedSpec, ParsedSpecV};
use crate::text::{chars_lt, str_eq};

verus! {

/// The direction of an impact query.
#[derive(Debug, Clone, Copy, PartialEq, Eq, Structural)]
pub enum DepsDirection {
    /// What the anchor depends on: follow edges forward.
    Upstream,
    /// What depends on the anchor: follow edges backward.
    Downstream,
    /// Both closures, without the anchor itself.
    Both,
}

/// Graph-wide summary counts.
#[derive(Debug, Clone, Copy, PartialEq, Eq, Structural)]
pub struct GraphStats {
    pub node_count: usize,
    pub edge_count: usize,
    pub orphan_count: usize,
}

/// A built dependency graph: named nodes and index edges.
#[derive(Debug)]
pub struct Graph {
    pub nodes: Vec<String>,
    pub edges: Vec<(usize, usize)>,
}

/// Structural soundness: unique node names, edges within range.
pub open spec fn graph_wf(g: Graph) -> bool {
    &&& forall|i: int, j: int|
        0 <= i < j < g.nodes@.len() ==> (#[trigger] g.nodes@[i])@ != (#[trigger] g.nodes@[j])@
    &&& forall|k: int|
        0 <= k < g.edges@.len() ==> (#[trigger] g.edges@[k]).0 < g.nodes@.len()
            && g.edges@[k].1 < g.nodes@.len()
}

/// The index of a name among the nodes, or -1.
pub open spec fn node_index(nodes: Seq<Seq<char>>, name: Seq<char>) -> int
    decreases nodes.len(),
{
    if nodes.len() == 0 {
        -1
    } else if nodes[0] == name {
        0
    } else {
        let r = node_index(nodes.drop_first(), name);
        if r == -1 {
            -1
        } else {
            r + 1
        }
    }
}

/// Appends a name unless it is already present.
pub open spec fn add_unique(acc: Seq<Seq<char>>, x: Seq<char>) -> Seq<Seq<char>> {
    if node_index(acc, x) >= 0 {
        acc
    } else {
        acc.push(x)
    }
}

/// The node list of a model: schema names, then endpoint keys, first
/// occurrence kept.
pub open spec fn nodes_model(s: ParsedSpecV) -> Seq<Seq<char>> {
    fold_names(
        s.schemas.map_values(|x: crate::model::SchemaV| x.name) + s.endpoints.map_values(
            |e: crate::model::EndpointV| e.key_of(),
        ),
    )
}

pub open spec fn fold_names(names: Seq<Seq<char>>) -> Seq<Seq<char>>
    decreases names.len(),
{
    if names.len() == 0 {
        Seq::empty()
    } else {
        add_unique(fold_names(names.drop_last()), names.last())
    }
}

/// The edges one reference list contributes from a source index.
pub open spec fn refs_edges(si: int, refs: Seq<Seq<char>>, nodes: Seq<Seq<char>>) -> Seq<
    (int, int),
>
    decreases refs.len(),
{
    if refs.len() == 0 {
        Seq::empty()
    } else {
        (if node_index(nodes, refs[0]) >= 0 {
            seq![(si, node_index(nodes, refs[0]))]
        } else {
            Seq::<(int, int)>::empty()
        }) + refs_edges(si, refs.drop_first(), nodes)
    }
}

/// The edges all schemas contribute.
pub open spec fn schema_edges(schemas: Seq<crate::model::SchemaV>, nodes: Seq<Seq<char>>) -> Seq<
    (int, int),
>
    decreases schemas.len(),
{
    if schemas.len() == 0 {
        Seq::empty()
    } else {
        refs_edges(node_index(nodes, schemas[0].name), schemas[0].refs, nodes) + schema_edges(
            schemas.drop_first(),
            nodes,
        )
    }
}

/// The edges all endpoints contribute.
pub open spec fn endpoint_edges(eps: Seq<crate::model::EndpointV>, nodes: Seq<Seq<char>>) -> Seq<
    (int, int),
>
    decreases eps.len(),
{
    if eps.len() == 0 {
        Seq::empty()
    } else {
        refs_edges(node_index(nodes, eps[0].key_of()), eps[0].schema_refs, nodes) + endpoint_edges(
            eps.drop_first(),
            nodes,
        )
    }
}

/// The full edge list of a model over its node list.
pub open spec fn edges_model(s: ParsedSpecV) -> Seq<(int, int)> {
    schema_edges(s.schemas, nodes_model(s)) + endpoint_edges(s.endpoints, nodes_model(s))
}

/// View of the index edges.
pub open spec fn edge_views(es: Seq<(usize, usize)>) -> Seq<(int, int)> {
    es.map_values(|e: (usize, usize)| (e.0 as int, e.1 as int))
}

/// A path through the edge list, one hop per step.
pub open spec fn is_path(edges: Seq<(int, int)>, p: Seq<int>) -> bool {
    &&& p.len() >= 1
    &&& forall|i: int| 0 <= i < p.len() - 1 ==> #[trigger] has_edge(edges, p[i], p[i + 1])
}

/// Some edge runs from `a` to `b`.
pub open spec fn has_edge(edges: Seq<(int, int)>, a: int, b: int) -> bool {
    exists|k: int| 0 <= k < edges.len() && #[trigger] edges[k] == (a, b)
}

/// Reachability along the edges; every node reaches itself.
pub open spec fn reaches(edges: Seq<(int, int)>, a: int, b: int) -> bool {
    exists|p: Seq<int>| is_path(edges, p) && p.first() == a && p.last() == b
}

/// One edge is a two-step path.
pub proof fn lemma_reach_step(edges: Seq<(int, int)>, k: int)
    requires
        0 <= k < edges.len(),
    ensures
        reaches(edges, edges[k].0, edges[k].1),
{
    let p = seq![edges[k].0, edges[k].1];
    assert(is_path(edges, p)) by {
        assert forall|i: int| 0 <= i < p.len() - 1 implies #[trigger] has_edge(
            edges,
            p[i],
            p[i + 1],
        ) by {
            assert(edges[k] == (p[0], p[1]));
        }
    }
    assert(p.first() == edges[k].0 && p.last() == edges[k].1);
}

/// Each node reaches itself.
pub proof fn lemma_reach_self(edges: Seq<(int, int)>, a: int)
    ensures
        reaches(edges, a, a),
{
    let p = seq![a];
    assert(is_path(edges, p));
    assert(p.first() == a && p.last() == a);
}

/// Downstream impact is transitive: joining a path to `b` with a path from
/// `b` reaches the far end.
pub proof fn lemma_reach_trans(edges: Seq<(int, int)>, a: int, b: int, c: int)
    requires
        reaches(edges, a, b),
        reaches(edges, b, c),
    ensures
        reaches(edges, a, c),
{
    let p1 = choose|p: Seq<int>| is_path(edges, p) && p.first() == a && p.last() == b;
    let p2 = choose|p: Seq<int>| is_path(edges, p) && p.first() == b && p.last() == c;
    let p = p1 + p2.drop_first();
    assert(p.first() == a);
    assert(p.last() == c) by {
        if p2.len() == 1 {
            assert(p =~= p1);
        } else {
            assert(p.last() == p2.drop_first().last());
            assert(p2.drop_first().last() == p2.last());
        }
    }
    assert(is_path(edges, p)) by {
        assert forall|i: int| 0 <= i < p.len() - 1 implies #[trigger] has_edge(
            edges,
            p[i],
            p[i + 1],
        ) by {
            if i < p1.len() - 1 {
                assert(p[i] == p1[i] && p[i + 1] == p1[i + 1]);
                assert(has_edge(edges, p1[i], p1[i + 1]));
            } else if i == p1.len() - 1 {
                assert(p2.len() >= 2);
                assert(p[i] == p1.last());
                assert(p1.last() == p2.first());
                assert(p[i + 1] == p2.drop_first()[0]);
                assert(p2.drop_first()[0] == p2[1]);
                assert(p2.first() == p2[0]);
                assert(has_edge(edges, p2[0], p2[1]));
            } else {
                let j = i - p1.len();
                assert(p[i] == p2.drop_first()[j]);
                assert(p[i + 1] == p2.drop_first()[j + 1]);
                assert(p2.drop_first()[j] == p2[j + 1]);
                assert(p2.drop_first()[j + 1] == p2[j + 2]);
                assert(has_edge(edges, p2[j + 1], p2[j + 2]));
            }
        }
    }
}

proof fn lemma_node_index_prefix(nodes: Seq<Seq<char>>, name: Seq<char>, p: int)
    requires
        0 <= p <= nodes.len(),
        forall|j: int| 0 <= j < p ==> (#[trigger] nodes[j]) != name,
    ensures
        p < nodes.len() && nodes[p] == name ==> node_index(nodes, name) == p,
        p == nodes.len() ==> node_index(nodes, name) == -1,
    decreases p, nodes.len(),
{
    if nodes.len() == 0 {
    } else if p == 0 {
    } else {
        assert(nodes[0] != name);
        assert forall|j: int| 0 <= j < p - 1 implies (#[trigger] nodes.drop_first()[j])
            != name by {
            assert(nodes.drop_first()[j] == nodes[j + 1]);
        }
        lemma_node_index_prefix(nodes.drop_first(), name, p - 1);
        if p < nodes.len() {
            assert(nodes.drop_first()[p - 1] == nodes[p]);
        }
    }
}

/// Characterization of the index of a name.
pub proof fn lemma_node_index_ensures(nodes: Seq<Seq<char>>, name: Seq<char>)
    ensures
        node_index(nodes, name) == -1 ==> forall|j: int|
            0 <= j < nodes.len() ==> (#[trigger] nodes[j]) != name,
        node_index(nodes, name) != -1 ==> 0 <= node_index(nodes, name) < nodes.len() && nodes[
            node_index(nodes, name)] == name,
    decreases nodes.len(),
{
    if nodes.len() > 0 && nodes[0] != name {
        lemma_node_index_ensures(nodes.drop_first(), name);
        if node_index(nodes, name) == -1 {
            assert forall|j: int| 0 <= j < nodes.len() implies (#[trigger] nodes[j]) != name by {
                if j > 0 {
                    assert(nodes.drop_first()[j - 1] == nodes[j]);
                }
            }
        } else {
            assert(nodes.drop_first()[node_index(nodes.drop_first(), name)] == nodes[node_index(
                nodes,
                name,
            )]);
        }
    }
}

/// Finds a name among the nodes.
fn find_node(nodes: &Vec<String>, name: &str) -> (r: Option<usize>)
    ensures
        match r {
            Some(i) => i < nodes@.len() && node_index(crate::digest::str_views(nodes@), name@)
                == i,
            None => node_index(crate::digest::str_views(nodes@), name@) == -1,
        },
{
    let ghost nv = crate::digest::str_views(nodes@);
    let n = nodes.len();
    let mut i: usize = 0;
    while i < n
        invariant
            0 <= i <= n,
            n == nodes@.len(),
            nv == crate::digest::str_views(nodes@),
            nv.len() == n,
            forall|j: int| 0 <= j < i ==> (#[trigger] nv[j]) != name@,
        decreases n - i,
    {
        proof {
            assert(nv[i as int] == nodes@[i as int]@);
        }
        if str_eq(nodes[i].as_str(), name) {
            proof {
                lemma_node_index_prefix(nv, name@, i as int);
            }
            return Some(i);
        }
        i += 1;
    }
    proof {
        lemma_node_index_prefix(nv, name@, n as int);
    }
    None
}

/// Pushes a name unless present.
fn push_unique(nodes: &mut Vec<String>, name: &String)
    ensures
        crate::digest::str_views(final(nodes)@) == add_unique(
            crate::digest::str_views(old(nodes)@),
            name@,
        ),
{
    match find_node(nodes, name.as_str()) {
        Some(_) => {},
        None => {
            let ghost before = crate::digest::str_views(nodes@);
            nodes.push(name.clone());
            proof {
                assert(crate::digest::str_views(nodes@) =~= before.push(name@));
            }
        },
    }
}

/// The service that builds a graph from a normalized model.
pub struct GraphBuilder;

impl GraphBuilder {
    /// Builds the graph: one node per schema name and endpoint key, one
    /// edge per resolvable reference.
    pub fn build(spec: &ParsedSpec) -> (g: Graph)
        ensures
            crate::digest::str_views(g.nodes@) == nodes_model(spec@),
            edge_views(g.edges@) == edges_model(spec@),
            g.edges@.len() == edges_model(spec@).len(),
    {
        let ghost sv = spec@;
        let mut nodes: Vec<String> = Vec::new();
        let ghost all_names = sv.schemas.map_values(|x: crate::model::SchemaV| x.name)
            + sv.endpoints.map_values(|e: crate::model::EndpointV| e.key_of());
        let ns = spec.schemas.len();
        let mut i: usize = 0;
        proof {
            assert(all_names.take(0) =~= Seq::<Seq<char>>::empty());
            assert(crate::digest::str_views(nodes@) =~= fold_names(all_names.take(0)));
        }
        while i < ns
            invariant
                0 <= i <= ns,
                ns == spec.schemas@.len(),
                sv == spec@,
                all_names == sv.schemas.map_values(|x: crate::model::SchemaV| x.name)
                    + sv.endpoints.map_values(|e: crate::model::EndpointV| e.key_of()),
                all_names.len() == sv.schemas.len() + sv.endpoints.len(),
                crate::digest::str_views(nodes@) == fold_names(all_names.take(i as int)),
            decreases ns - i,
        {
            push_unique(&mut nodes, &spec.schemas[i].name);
            proof {
                assert(all_names[i as int] == sv.schemas[i as int].name);
                assert(sv.schemas[i as int] == spec.schemas@[i as int]@);
                assert(all_names.take(i + 1) =~= all_names.take(i as int).push(
                    all_names[i as int],
                ));
                assert(all_names.take(i + 1).drop_last() =~= all_names.take(i as int));
            }
            i += 1;
        }
        let ne = spec.endpoints.len();
        let mut j: usize = 0;
        while j < ne
            invariant
                0 <= j <= ne,
                ne == spec.endpoints@.len(),
                ns == spec.schemas@.len(),
                sv == spec@,
                all_names == sv.schemas.map_values(|x: crate::model::SchemaV| x.name)
                    + sv.endpoints.map_values(|e: crate::model::EndpointV| e.key_of()),
                all_names.len() == sv.schemas.len() + sv.endpoints.len(),
                crate::digest::str_views(nodes@) == fold_names(all_names.take(ns + j)),
            decreases ne - j,
        {
            let key = spec.endpoints[j].key();
            push_unique(&mut nodes, &key);
            proof {
                assert(all_names[ns + j] == sv.endpoints[j as int].key_of());
                assert(sv.endpoints[j as int] == spec.endpoints@[j as int]@);
                assert(key@ == sv.endpoints[j as int].key_of());
                assert(all_names.take(ns + j + 1) =~= all_names.take(ns + j).push(
                    all_names[ns + j],
                ));
                assert(all_names.take(ns + j + 1).drop_last() =~= all_names.take(ns + j));
            }
            j += 1;
        }
        proof {
            assert(all_names.take(ns + ne) =~= all_names);
        }
        let ghost nv = nodes_model(sv);
        let mut edges: Vec<(usize, usize)> = Vec::new();
        let mut i2: usize = 0;
        proof {
            assert(crate::digest::str_views(nodes@) == nv);
            assert(sv.schemas.take(0) =~= Seq::<crate::model::SchemaV>::empty());
            assert(edge_views(edges@) =~= schema_edges(sv.schemas.take(0), nv));
        }
        while i2 < ns
            invariant
                0 <= i2 <= ns,
                ns == spec.schemas@.len(),
                sv == spec@,
                crate::digest::str_views(nodes@) == nv,
                nv == nodes_model(sv),
                edge_views(edges@) == schema_edges(sv.schemas.take(i2 as int), nv),
            decreases ns - i2,
        {
            let si = match find_node(&nodes, spec.schemas[i2].name.as_str()) {
                Some(si) => si,
                None => {
                    proof {
                        assert(false) by {
                            lemma_schema_name_is_node(sv, i2 as int);
                        }
                    }
                    0
                },
            };
            add_ref_edges(&mut edges, si, &spec.schemas[i2].refs, &nodes);
            proof {
                assert(sv.schemas[i2 as int] == spec.schemas@[i2 as int]@);
                assert(sv.schemas.take(i2 + 1) =~= sv.schemas.take(i2 as int).push(
                    sv.schemas[i2 as int],
                ));
                lemma_schema_edges_push(sv.schemas.take(i2 as int), sv.schemas[i2 as int], nv);
                assert(node_index(nv, sv.schemas[i2 as int].name) == si);
                assert(crate::digest::str_views(spec.schemas@[i2 as int].refs@)
                    =~= sv.schemas[i2 as int].refs);
            }
            i2 += 1;
        }
        let mut j2: usize = 0;
        proof {
            assert(sv.schemas.take(ns as int) =~= sv.schemas);
            assert(sv.endpoints.take(0) =~= Seq::<crate::model::EndpointV>::empty());
            assert(edge_views(edges@) =~= schema_edges(sv.schemas, nv) + endpoint_edges(
                sv.endpoints.take(0),
                nv,
            ));
        }
        while j2 < ne
            invariant
                0 <= j2 <= ne,
                ne == spec.endpoints@.len(),
                sv == spec@,
                crate::digest::str_views(nodes@) == nv,
                nv == nodes_model(sv),
                edge_views(edges@) == schema_edges(sv.schemas, nv) + endpoint_edges(
                    sv.endpoints.take(j2 as int),
                    nv,
                ),
            decreases ne - j2,
        {
            let key = spec.endpoints[j2].key();
            let si = match find_node(&nodes, key.as_str()) {
                Some(si) => si,
                None => {
                    proof {
                        assert(false) by {
                            lemma_endpoint_key_is_node(sv, j2 as int);
                        }
                    }
                    0
                },
            };
            add_ref_edges(&mut edges, si, &spec.endpoints[j2].schema_refs, &nodes);
            proof {
                assert(sv.endpoints[j2 as int] == spec.endpoints@[j2 as int]@);
                assert(sv.endpoints.take(j2 + 1) =~= sv.endpoints.take(j2 as int).push(
                    sv.endpoints[j2 as int],
                ));
                lemma_endpoint_edges_push(sv.endpoints.take(j2 as int), sv.endpoints[j2 as int], nv);
                assert(node_index(nv, sv.endpoints[j2 as int].key_of()) == si);
                assert(crate::digest::str_views(spec.endpoints@[j2 as int].schema_refs@)
                    =~= sv.endpoints[j2 as int].schema_refs);
            }
            j2 += 1;
        }
        proof {
            assert(sv.endpoints.take(ne as int) =~= sv.endpoints);
        }
        Graph { nodes, edges }
    }
}

proof fn lemma_schema_edges_push(
    schemas: Seq<crate::model::SchemaV>,
    x: crate::model::SchemaV,
    nodes: Seq<Seq<char>>,
)
    ensures
        schema_edges(schemas.push(x), nodes) =~= schema_edges(schemas, nodes) + refs_edges(
            node_index(nodes, x.name),
            x.refs,
            nodes,
        ),
    decreases schemas.len(),
{
    if schemas.len() == 0 {
        assert(schemas.push(x)[0] == x);
        assert(schemas.push(x).drop_first() =~= Seq::<crate::model::SchemaV>::empty());
        assert(schema_edges(Seq::<crate::model::SchemaV>::empty(), nodes)
            =~= Seq::<(int, int)>::empty());
    } else {
        lemma_schema_edges_push(schemas.drop_first(), x, nodes);
        assert(schemas.push(x)[0] == schemas[0]);
        assert(schemas.push(x).drop_first() =~= schemas.drop_first().push(x));
        let head = refs_edges(node_index(nodes, schemas[0].name), schemas[0].refs, nodes);
        let xe = refs_edges(node_index(nodes, x.name), x.refs, nodes);
        assert(head + (schema_edges(schemas.drop_first(), nodes) + xe) =~= (head + schema_edges(
            schemas.drop_first(),
            nodes,
        )) + xe);
    }
}

proof fn lemma_endpoint_edges_push(
    eps: Seq<crate::model::EndpointV>,
    x: crate::model::EndpointV,
    nodes: Seq<Seq<char>>,
)
    ensures
        endpoint_edges(eps.push(x), nodes) =~= endpoint_edges(eps, nodes) + refs_edges(
            node_index(nodes, x.key_of()),
            x.schema_refs,
            nodes,
        ),
    decreases eps.len(),
{
    if eps.len() == 0 {
        assert(eps.push(x)[0] == x);
        assert(eps.push(x).drop_first() =~= Seq::<crate::model::EndpointV>::empty());
        assert(endpoint_edges(Seq::<crate::model::EndpointV>::empty(), nodes)
            =~= Seq::<(int, int)>::empty());
    } else {
        lemma_endpoint_edges_push(eps.drop_first(), x, nodes);
        assert(eps.push(x)[0] == eps[0]);
        assert(eps.push(x).drop_first() =~= eps.drop_first().push(x));
        let head = refs_edges(node_index(nodes, eps[0].key_of()), eps[0].schema_refs, nodes);
        let xe = refs_edges(node_index(nodes, x.key_of()), x.schema_refs, nodes);
        assert(head + (endpoint_edges(eps.drop_first(), nodes) + xe) =~= (head + endpoint_edges(
            eps.drop_first(),
            nodes,
        )) + xe);
    }
}

/// Every folded name is present among the nodes.
proof fn lemma_fold_names_contains(names: Seq<Seq<char>>, i: int)
    requires
        0 <= i < names.len(),
    ensures
        node_index(fold_names(names), names[i]) >= 0,
    decreases names.len(),
{
    let acc = fold_names(names.drop_last());
    if i == names.len() - 1 {
        lemma_node_index_ensures(acc, names.last());
        if node_index(acc, names.last()) >= 0 {
            assert(fold_names(names) == acc);
            assert(names[i] == names.last());
        } else {
            assert(fold_names(names) == acc.push(names.last()));
            assert(acc.push(names.last())[acc.len() as int] == names.last());
            lemma_node_index_present(acc.push(names.last()), acc.len() as int);
        }
    } else {
        lemma_fold_names_contains(names.drop_last(), i);
        assert(names.drop_last()[i] == names[i]);
        lemma_node_index_ensures(acc, names[i]);
        let k = node_index(acc, names[i]);
        assert(acc[k] == names[i]);
        if node_index(acc, names.last()) >= 0 {
            assert(fold_names(names) == acc);
            lemma_node_index_present(acc, k);
        } else {
            assert(fold_names(names) == acc.push(names.last()));
            assert(acc.push(names.last())[k] == names[i]);
            lemma_node_index_present(acc.push(names.last()), k);
        }
    }
}

/// A present entry has a non-negative index.
proof fn lemma_node_index_present(nodes: Seq<Seq<char>>, i: int)
    requires
        0 <= i < nodes.len(),
    ensures
        node_index(nodes, nodes[i]) >= 0,
    decreases i,
{
    if nodes.len() > 0 {
        if nodes[0] == nodes[i] {
        } else {
            assert(i > 0);
            assert(nodes.drop_first()[i - 1] == nodes[i]);
            lemma_node_index_present(nodes.drop_first(), i - 1);
        }
    }
}

proof fn lemma_schema_name_is_node(sv: ParsedSpecV, i: int)
    requires
        0 <= i < sv.schemas.len(),
    ensures
        node_index(nodes_model(sv), sv.schemas[i].name) >= 0,
{
    let all_names = sv.schemas.map_values(|x: crate::model::SchemaV| x.name)
        + sv.endpoints.map_values(|e: crate::model::EndpointV| e.key_of());
    assert(all_names[i] == sv.schemas[i].name);
    lemma_fold_names_contains(all_names, i);
}

proof fn lemma_endpoint_key_is_node(sv: ParsedSpecV, j: int)
    requires
        0 <= j < sv.endpoints.len(),
    ensures
        node_index(nodes_model(sv), sv.endpoints[j].key_of()) >= 0,
{
    let all_names = sv.schemas.map_values(|x: crate::model::SchemaV| x.name)
        + sv.endpoints.map_values(|e: crate::model::EndpointV| e.key_of());
    assert(all_names[sv.schemas.len() + j] == sv.endpoints[j].key_of());
    lemma_fold_names_contains(all_names, sv.schemas.len() + j);
}

/// Adds one edge per resolvable reference from a source index.
fn add_ref_edges(edges: &mut Vec<(usize, usize)>, si: usize, refs: &Vec<String>, nodes: &Vec<
    String,
>)
    ensures
        edge_views(final(edges)@) == edge_views(old(edges)@) + refs_edges(
            si as int,
            crate::digest::str_views(refs@),
            crate::digest::str_views(nodes@),
        ),
{
    let ghost rv = crate::digest::str_views(refs@);
    let ghost nv = crate::digest::str_views(nodes@);
    let n = refs.len();
    let mut i: usize = 0;
    proof {
        assert(rv.take(0) =~= Seq::<Seq<char>>::empty());
        assert(refs_edges(si as int, rv.take(0), nv) =~= Seq::<(int, int)>::empty());
        assert(edge_views(edges@) =~= edge_views(old(edges)@) + refs_edges(
            si as int,
            rv.take(0),
            nv,
        ));
    }
    while i < n
        invariant
            0 <= i <= n,
            n == refs@.len(),
            rv == crate::digest::str_views(refs@),
            nv == crate::digest::str_views(nodes@),
            rv.len() == n,
            edge_views(edges@) == edge_views(old(edges)@) + refs_edges(
                si as int,
                rv.take(i as int),
                nv,
            ),
        decreases n - i,
    {
        proof {
            assert(rv[i as int] == refs@[i as int]@);
        }
        match find_node(nodes, refs[i].as_str()) {
            Some(ti) => {
                let ghost before = edge_views(edges@);
                edges.push((si, ti));
                proof {
                    assert(edge_views(edges@) =~= before.push((si as int, ti as int)));
                }
            },
            None => {},
        }
        proof {
            assert(rv.take(i + 1) =~= rv.take(i as int).push(rv[i as int]));
            lemma_refs_edges_push(si as int, rv.take(i as int), rv[i as int], nv);
        }
        i += 1;
    }
    proof {
        assert(rv.take(n as int) =~= rv);
    }
}

proof fn lemma_refs_edges_push(si: int, refs: Seq<Seq<char>>, x: Seq<char>, nodes: Seq<Seq<char>>)
    ensures
        refs_edges(si, refs.push(x), nodes) =~= refs_edges(si, refs, nodes) + (if node_index(
            nodes,
            x,
        ) >= 0 {
            seq![(si, node_index(nodes, x))]
        } else {
            Seq::<(int, int)>::empty()
        }),
    decreases refs.len(),
{
    if refs.len() == 0 {
        assert(refs.push(x)[0] == x);
        assert(refs.push(x).drop_first() =~= Seq::<Seq<char>>::empty());
        assert(refs_edges(si, Seq::<Seq<char>>::empty(), nodes) =~= Seq::<(int, int)>::empty());
    } else {
        lemma_refs_edges_push(si, refs.drop_first(), x, nodes);
        assert(refs.push(x)[0] == refs[0]);
        assert(refs.push(x).drop_first() =~= refs.drop_first().push(x));
        let head = if node_index(nodes, refs[0]) >= 0 {
            seq![(si, node_index(nodes, refs[0]))]
        } else {
            Seq::<(int, int)>::empty()
        };
        let xe = if node_index(nodes, x) >= 0 {
            seq![(si, node_index(nodes, x))]
        } else {
            Seq::<(int, int)>::empty()
        };
        assert(head + (refs_edges(si, refs.drop_first(), nodes) + xe) =~= (head + refs_edges(
            si,
            refs.drop_first(),
            nodes,
        )) + xe);
    }
}

/// The reversed edge list, for downstream queries.
pub open spec fn rev_edges(es: Seq<(int, int)>) -> Seq<(int, int)> {
    es.map_values(|e: (int, int)| (e.1, e.0))
}

/// How many entries are still false.
pub open spec fn count_false(s: Seq<bool>) -> nat
    decreases s.len(),
{
    if s.len() == 0 {
        0
    } else {
        (if s[0] {
            0nat
        } else {
            1nat
        }) + count_false(s.drop_first())
    }
}

proof fn lemma_count_false_update(s: Seq<bool>, i: int)
    requires
        0 <= i < s.len(),
        !s[i],
    ensures
        count_false(s.update(i, true)) < count_false(s),
    decreases s.len(),
{
    if i == 0 {
        assert(s.update(0, true)[0] == true);
        assert(s.update(0, true).drop_first() =~= s.drop_first());
    } else {
        assert(s.drop_first()[i - 1] == s[i]);
        lemma_count_false_update(s.drop_first(), i - 1);
        assert(s.update(i, true)[0] == s[0]);
        assert(s.update(i, true).drop_first() =~= s.drop_first().update(i - 1, true));
    }
}

/// Edges stay within a node count.
pub open spec fn edges_in_range(es: Seq<(int, int)>, n: int) -> bool {
    forall|k: int| 0 <= k < es.len() ==> 0 <= (#[trigger] es[k]).0 < n && 0 <= es[k].1 < n
}

/// Visited entries closed under the edges, except sources still queued.
pub open spec fn closed_except(es: Seq<(int, int)>, vis: Seq<bool>, queue: Seq<usize>) -> bool {
    forall|k: int|
        0 <= k < es.len() && vis[(#[trigger] es[k]).0] && !queue.contains(es[k].0 as usize)
            ==> vis[es[k].1]
}

/// A visited start and closed visited set cover every reachable node.
proof fn lemma_closed_path(es: Seq<(int, int)>, vis: Seq<bool>, p: Seq<int>)
    requires
        is_path(es, p),
        edges_in_range(es, vis.len() as int),
        0 <= p.first() < vis.len(),
        vis[p.first()],
        closed_except(es, vis, Seq::empty()),
    ensures
        0 <= p.last() < vis.len(),
        vis[p.last()],
    decreases p.len(),
{
    if p.len() == 1 {
    } else {
        let q = p.drop_last();
        assert(is_path(es, q)) by {
            assert forall|i: int| 0 <= i < q.len() - 1 implies #[trigger] has_edge(
                es,
                q[i],
                q[i + 1],
            ) by {
                assert(q[i] == p[i] && q[i + 1] == p[i + 1]);
                assert(has_edge(es, p[i], p[i + 1]));
            }
        }
        assert(q.first() == p.first());
        lemma_closed_path(es, vis, q);
        let ghost i0 = p.len() - 2;
        assert(has_edge(es, p[i0], p[i0 + 1]));
        assert(has_edge(es, p[p.len() - 2], p[p.len() - 1]));
        let k = choose|k: int|
            0 <= k < es.len() && #[trigger] es[k] == (p[p.len() - 2], p[p.len() - 1]);
        assert(q.last() == p[p.len() - 2]);
        assert(vis[es[k].0]);
        assert(!Seq::<usize>::empty().contains(es[k].0 as usize));
        assert(vis[es[k].1]);
    }
}

/// Membership after a push.
proof fn lemma_push_contains<A>(s: Seq<A>, x: A)
    ensures
        forall|u: A| #[trigger] s.push(x).contains(u) <==> s.contains(u) || u == x,
{
    assert forall|u: A| #[trigger] s.push(x).contains(u) <==> s.contains(u) || u == x by {
        if s.push(x).contains(u) {
            let i = choose|i: int| 0 <= i < s.push(x).len() && s.push(x)[i] == u;
            if i < s.len() {
                assert(s[i] == u);
            }
        }
        if s.contains(u) {
            let i = choose|i: int| 0 <= i < s.len() && s[i] == u;
            assert(s.push(x)[i] == u);
        }
        if u == x {
            assert(s.push(x)[s.len() as int] == u);
        }
    }
}

/// Writes one entry of a flag vector.
fn set_flag(v: &mut Vec<bool>, i: usize, b: bool)
    requires
        i < old(v)@.len(),
    ensures
        final(v)@ == old(v)@.update(i as int, b),
{
    v.remove(i);
    v.insert(i, b);
    proof {
        assert(old(v)@.remove(i as int).insert(i as int, b) =~= old(v)@.update(i as int, b)) by {
            old(v)@.remove_ensures(i as int);
            old(v)@.remove(i as int).insert_ensures(i as int, b);
        }
    }
}

/// The visited set of a breadth-style walk from `start` along the oriented
/// edges: exactly the nodes `start` reaches.
fn closure(n_nodes: usize, edges: &Vec<(usize, usize)>, start: usize, reversed: bool) -> (vis: Vec<
    bool,
>)
    requires
        start < n_nodes,
        forall|k: int|
            0 <= k < edges@.len() ==> (#[trigger] edges@[k]).0 < n_nodes && edges@[k].1 < n_nodes,
    ensures
        vis@.len() == n_nodes,
        forall|v: int|
            0 <= v < n_nodes ==> ((#[trigger] vis@[v]) <==> reaches(
                if reversed {
                    rev_edges(edge_views(edges@))
                } else {
                    edge_views(edges@)
                },
                start as int,
                v,
            )),
{
    let ghost es = if reversed {
        rev_edges(edge_views(edges@))
    } else {
        edge_views(edges@)
    };
    proof {
        assert(edges_in_range(es, n_nodes as int));
    }
    let mut vis: Vec<bool> = Vec::new();
    let mut i: usize = 0;
    while i < n_nodes
        invariant
            0 <= i <= n_nodes,
            vis@.len() == i,
            forall|v: int| 0 <= v < i ==> !(#[trigger] vis@[v]),
        decreases n_nodes - i,
    {
        vis.push(false);
        i += 1;
    }
    set_flag(&mut vis, start, true);
    let mut queue: Vec<usize> = Vec::new();
    queue.push(start);
    proof {
        lemma_reach_self(es, start as int);
        assert(forall|v: int|
            0 <= v < n_nodes && #[trigger] vis@[v] ==> reaches(es, start as int, v));
        assert(queue@[0] == start);
        assert(queue@.contains(start));
        assert forall|k: int|
            0 <= k < es.len() && vis@[(#[trigger] es[k]).0] && !queue@.contains(
                es[k].0 as usize,
            ) implies vis@[es[k].1] by {
            assert(es[k].0 == start as int || !vis@[es[k].0]);
            if es[k].0 == start as int {
                assert(queue@[0] == start);
            }
        }
    }
    while queue.len() > 0
        invariant
            es == (if reversed {
                rev_edges(edge_views(edges@))
            } else {
                edge_views(edges@)
            }),
            es.len() == edges@.len(),
            vis@.len() == n_nodes,
            edges_in_range(es, n_nodes as int),
            start < n_nodes,
            vis@[start as int],
            forall|x: int| 0 <= x < queue@.len() ==> (#[trigger] queue@[x]) < n_nodes && vis@[
                queue@[x] as int],
            forall|v: int| 0 <= v < n_nodes && #[trigger] vis@[v] ==> reaches(es, start as int, v),
            closed_except(es, vis@, queue@),
        decreases count_false(vis@), queue@.len(),
    {
        let ghost cf0 = count_false(vis@);
        let ghost q0 = queue@;
        let v = queue.pop().unwrap();
        let ghost q_after = queue@;
        proof {
            assert(q0.drop_last() =~= q_after);
            assert(q0 =~= q_after.push(v));
            lemma_push_contains(q_after, v);
            assert forall|k2: int|
                0 <= k2 < es.len() && vis@[(#[trigger] es[k2]).0] && !queue@.contains(
                    es[k2].0 as usize,
                ) && (es[k2].0 != v as int || k2 < 0) implies vis@[es[k2].1] by {
                assert(es[k2].0 != v as int);
                assert(0 <= es[k2].0 < n_nodes);
                assert(!q0.contains(es[k2].0 as usize));
            }
        }
        let ne = edges.len();
        let mut k: usize = 0;
        while k < ne
            invariant
                0 <= k <= ne,
                ne == edges@.len(),
                es == (if reversed {
                    rev_edges(edge_views(edges@))
                } else {
                    edge_views(edges@)
                }),
                es.len() == ne,
                vis@.len() == n_nodes,
                edges_in_range(es, n_nodes as int),
                start < n_nodes,
                v < n_nodes,
                vis@[start as int],
                vis@[v as int],
                forall|x: int|
                    0 <= x < queue@.len() ==> (#[trigger] queue@[x]) < n_nodes && vis@[
                    queue@[x] as int],
                forall|x: int|
                    0 <= x < n_nodes && #[trigger] vis@[x] ==> reaches(es, start as int, x),
                forall|k2: int|
                    0 <= k2 < es.len() && vis@[(#[trigger] es[k2]).0] && !queue@.contains(
                        es[k2].0 as usize,
                    ) && (es[k2].0 != v as int || k2 < k) ==> vis@[es[k2].1],
                count_false(vis@) < cf0 || (count_false(vis@) == cf0 && queue@ == q_after),
            decreases ne - k,
        {
            let (ea, eb) = if reversed {
                (edges[k].1, edges[k].0)
            } else {
                (edges[k].0, edges[k].1)
            };
            proof {
                assert(edge_views(edges@)[k as int] == (
                    edges@[k as int].0 as int,
                    edges@[k as int].1 as int,
                ));
                assert(es[k as int] == (ea as int, eb as int));
            }
            if ea == v {
                let seen = vis[eb];
                if !seen {
                    let ghost vis_before = vis@;
                    let ghost queue_before = queue@;
                    set_flag(&mut vis, eb, true);
                    queue.push(eb);
                    proof {
                        lemma_count_false_update(vis_before, eb as int);
                        lemma_reach_step(es, k as int);
                        lemma_reach_trans(es, start as int, v as int, eb as int);
                        lemma_push_contains(queue_before, eb);
                        assert(queue@.contains(eb)) by {
                            assert(queue@[queue@.len() - 1] == eb);
                        }
                        assert forall|x: int|
                            0 <= x < queue@.len() implies (#[trigger] queue@[x]) < n_nodes && vis@[
                            queue@[x] as int] by {
                            if x < queue@.len() - 1 {
                                assert(queue@[x] == queue_before[x]);
                            }
                        }
                        assert forall|k2: int|
                            0 <= k2 < es.len() && vis@[(#[trigger] es[k2]).0] && !queue@.contains(
                                es[k2].0 as usize,
                            ) && (es[k2].0 != v as int || k2 < k + 1) implies vis@[es[k2].1] by {
                            assert(0 <= es[k2].0 < n_nodes && 0 <= es[k2].1 < n_nodes);
                            if k2 == k {
                                assert(vis@[es[k2].1]);
                            } else {
                                assert(!queue_before.contains(es[k2].0 as usize));
                                if es[k2].0 == eb as int {
                                    assert(queue@.contains(eb));
                                } else {
                                    assert(vis_before[es[k2].0] == vis@[es[k2].0]);
                                    assert(vis_before[es[k2].1] == vis@[es[k2].1] || es[k2].1
                                        == eb as int);
                                }
                            }
                        }
                    }
                }
            }
            proof {
                assert forall|k2: int|
                    0 <= k2 < es.len() && vis@[(#[trigger] es[k2]).0] && !queue@.contains(
                        es[k2].0 as usize,
                    ) && (es[k2].0 != v as int || k2 < k + 1) implies vis@[es[k2].1] by {
                    if k2 == k {
                        assert(es[k2] == (ea as int, eb as int));
                        if es[k2].0 == v as int {
                            assert(vis@[eb as int]);
                        }
                    }
                }
            }
            k += 1;
        }
        proof {
            assert(closed_except(es, vis@, queue@)) by {
                assert forall|k2: int|
                    0 <= k2 < es.len() && vis@[(#[trigger] es[k2]).0] && !queue@.contains(
                        es[k2].0 as usize,
                    ) implies vis@[es[k2].1] by {
                    assert(es[k2].0 != v as int || k2 < ne);
                }
            }
        }
    }
    proof {
        assert forall|x: int|
            0 <= x < n_nodes && reaches(es, start as int, x) implies #[trigger] vis@[x] by {
            let p = choose|p: Seq<int>|
                is_path(es, p) && p.first() == start as int && p.last() == x;
            assert(queue@ =~= Seq::<usize>::empty());
            lemma_closed_path(es, vis@, p);
        }
    }
    vis
}

impl Graph {
    /// The direction-scoped impact set of an anchor: every other node the
    /// anchor reaches (upstream), that reaches the anchor (downstream), or
    /// either (both), as a sorted list of names. An anchor outside the graph
    /// has an empty impact set.
    pub fn query(&self, anchor: &str, direction: DepsDirection) -> (r: Vec<String>)
        requires
            graph_wf(*self),
        ensures
            forall|i: int, j: int|
                0 <= i < j < r@.len() ==> chars_lt((#[trigger] r@[i])@, (#[trigger] r@[j])@),
            ({
                let ai = node_index(crate::digest::str_views(self.nodes@), anchor@);
                if ai == -1 {
                    r@.len() == 0
                } else {
                    forall|i: int|
                    0 <= i < self.nodes@.len() ==> (crate::digest::str_views(r@).to_set().contains(
                        (#[trigger] self.nodes@[i])@,
                    ) <==> i != ai && (match direction {
                        DepsDirection::Upstream => reaches(edge_views(self.edges@), ai, i),
                        DepsDirection::Downstream => reaches(
                            rev_edges(edge_views(self.edges@)),
                            ai,
                            i,
                        ),
                        DepsDirection::Both => reaches(edge_views(self.edges@), ai, i) || reaches(
                            rev_edges(edge_views(self.edges@)),
                            ai,
                            i,
                        ),
                    }))
                }
            }),
    {
        let ghost nv = crate::digest::str_views(self.nodes@);
        let ai = match find_node(&self.nodes, anchor) {
            Some(ai) => ai,
            None => {
                let r: Vec<String> = Vec::new();
                return r;
            },
        };
        let n = self.nodes.len();
        let forward = matches!(direction, DepsDirection::Upstream) || matches!(
            direction,
            DepsDirection::Both,
        );
        let backward = matches!(direction, DepsDirection::Downstream) || matches!(
            direction,
            DepsDirection::Both,
        );
        let vis_f = if forward {
            Some(closure(n, &self.edges, ai, false))
        } else {
            None
        };
        let vis_b = if backward {
            Some(closure(n, &self.edges, ai, true))
        } else {
            None
        };
        let mut out: Vec<String> = Vec::new();
        let mut i: usize = 0;
        proof {
            assert(crate::digest::str_views(out@).to_set() =~= Set::<Seq<char>>::empty());
        }
        while i < n
            invariant
                0 <= i <= n,
                n == self.nodes@.len(),
                nv == crate::digest::str_views(self.nodes@),
                nv.len() == n,
                graph_wf(*self),
                ai < n,
                forward == (direction is Upstream || direction is Both),
                backward == (direction is Downstream || direction is Both),
                match vis_f {
                    Some(vf) => forward && vf@.len() == n && (forall|x: int|
                        0 <= x < n ==> ((#[trigger] vf@[x]) <==> reaches(
                            edge_views(self.edges@),
                            ai as int,
                            x,
                        ))),
                    None => !forward,
                },
                match vis_b {
                    Some(vb) => backward && vb@.len() == n && (forall|x: int|
                        0 <= x < n ==> ((#[trigger] vb@[x]) <==> reaches(
                            rev_edges(edge_views(self.edges@)),
                            ai as int,
                            x,
                        ))),
                    None => !backward,
                },
                forall|x: Seq<char>|
                    crate::digest::str_views(out@).to_set().contains(x) <==> exists|v: int|
                        0 <= v < i && #[trigger] nv[v] == x && v != ai && (match direction {
                            DepsDirection::Upstream => reaches(
                                edge_views(self.edges@),
                                ai as int,
                                v,
                            ),
                            DepsDirection::Downstream => reaches(
                                rev_edges(edge_views(self.edges@)),
                                ai as int,
                                v,
                            ),
                            DepsDirection::Both => reaches(edge_views(self.edges@), ai as int, v)
                                || reaches(rev_edges(edge_views(self.edges@)), ai as int, v),
                        }),
            decreases n - i,
        {
            let mut hit = false;
            match &vis_f {
                Some(vf) => {
                    if vf[i] {
                        hit = true;
                    }
                },
                None => {},
            }
            match &vis_b {
                Some(vb) => {
                    if vb[i] {
                        hit = true;
                    }
                },
                None => {},
            }
            if hit && i != ai {
                let ghost before = crate::digest::str_views(out@);
                out.push(self.nodes[i].clone());
                proof {
                    assert(crate::digest::str_views(out@) =~= before.push(nv[i as int]));
                    crate::digest::lemma_push_to_set(before, nv[i as int]);
                }
            }
            i += 1;
        }
        crate::digest::sort_dedup_strings(&mut out);
        proof {
            assert forall|i2: int|
                0 <= i2 < self.nodes@.len() implies (crate::digest::str_views(
                out@,
            ).to_set().contains((#[trigger] self.nodes@[i2])@) <==> i2 != ai && (match direction {
                DepsDirection::Upstream => reaches(edge_views(self.edges@), ai as int, i2),
                DepsDirection::Downstream => reaches(rev_edges(edge_views(self.edges@)), ai as int, i2),
                DepsDirection::Both => reaches(edge_views(self.edges@), ai as int, i2) || reaches(
                    rev_edges(edge_views(self.edges@)),
                    ai as int,
                    i2,
                ),
            })) by {
                assert(nv[i2] == self.nodes@[i2]@);
                if crate::digest::str_views(out@).to_set().contains(nv[i2]) {
                    let v = choose|v: int|
                        0 <= v < n && #[trigger] nv[v] == nv[i2] && v != ai && (match direction {
                            DepsDirection::Upstream => reaches(
                                edge_views(self.edges@),
                                ai as int,
                                v,
                            ),
                            DepsDirection::Downstream => reaches(
                                rev_edges(edge_views(self.edges@)),
                                ai as int,
                                v,
                            ),
                            DepsDirection::Both => reaches(edge_views(self.edges@), ai as int, v)
                                || reaches(rev_edges(edge_views(self.edges@)), ai as int, v),
                        });
                    assert(v == i2);
                }
            }
            lemma_node_index_ensures(nv, anchor@);
        }
        out
    }

    /// Graph-wide counts: nodes, edges, and nodes touched by no edge.
    pub fn stats(&self) -> (r: GraphStats)
        ensures
            r.node_count == self.nodes@.len(),
            r.edge_count == self.edges@.len(),
            r.orphan_count == orphans_below(edge_views(self.edges@), self.nodes@.len() as int),
    {
        let n = self.nodes.len();
        let ghost es = edge_views(self.edges@);
        let mut orphans: usize = 0;
        let mut i: usize = 0;
        while i < n
            invariant
                0 <= i <= n,
                n == self.nodes@.len(),
                es == edge_views(self.edges@),
                orphans == orphans_below(es, i as int),
                orphans <= i,
            decreases n - i,
        {
            let m = self.edges.len();
            let mut k: usize = 0;
            let mut touched = false;
            while k < m
                invariant
                    0 <= k <= m,
                    m == self.edges@.len(),
                    es == edge_views(self.edges@),
                    es.len() == m,
                    touched == !(forall|k2: int|
                        0 <= k2 < k ==> (#[trigger] es[k2]).0 != i as int && es[k2].1 != i as int),
                decreases m - k,
            {
                proof {
                    assert(es[k as int] == (
                        self.edges@[k as int].0 as int,
                        self.edges@[k as int].1 as int,
                    ));
                }
                if self.edges[k].0 == i || self.edges[k].1 == i {
                    touched = true;
                }
                k += 1;
            }
            if !touched {
                orphans += 1;
            }
            proof {
                assert(is_orphan(es, i as int) == !touched);
            }
            i += 1;
        }
        GraphStats { node_count: n, edge_count: self.edges.len(), orphan_count: orphans }
    }
}

/// A node no edge touches.
pub open spec fn is_orphan(es: Seq<(int, int)>, v: int) -> bool {
    forall|k: int| 0 <= k < es.len() ==> (#[trigger] es[k]).0 != v && es[k].1 != v
}

/// How many orphans lie below an index bound.
pub open spec fn orphans_below(es: Seq<(int, int)>, n: int) -> int
    decreases n,
{
    if n <= 0 {
        0
    } else {
        orphans_below(es, n - 1) + (if is_orphan(es, n - 1) {
            1int
        } else {
            0int
        })
    }
}

/// Downstream transitivity: when schema `a` is referenced by `b` and `b`
/// by `e`, both `b` and `e` lie downstream of `a` — they are reached from
/// `a` along the reversed edges.
pub proof fn lemma_downstream_transitivity(es: Seq<(int, int)>, a: int, b: int, e: int)
    requires
        has_edge(es, b, a),
        has_edge(es, e, b),
    ensures
        reaches(rev_edges(es), a, b),
        reaches(rev_edges(es), a, e),
{
    let r = rev_edges(es);
    let k1 = choose|k: int| 0 <= k < es.len() && #[trigger] es[k] == (b, a);
    let k2 = choose|k: int| 0 <= k < es.len() && #[trigger] es[k] == (e, b);
    assert(r[k1] == (a, b));
    assert(r[k2] == (b, e));
    lemma_reach_step(r, k1);
    lemma_reach_step(r, k2);
    lemma_reach_trans(r, a, b, e);
}

} // verus!
