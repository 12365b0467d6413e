//! The trust network: an immutable snapshot of the certification graph
//! plus a root set, supporting quantified trust queries and full graph
//! dumps for visualization.
//!
//! `authenticate` runs a depth- and amount-bounded search from each root
//! toward the target identity.  Independent paths (sharing no
//! intermediate fingerprint) sum their per-path trust, capped at
//! `FULLY_TRUSTED`; the search stops early once the required amount is
//! met.  `dump_all` ignores the roots and renders every certification in
//! the snapshot.

use vstd::prelude::*;

use crate::cert::{Certificate, CertificateV};
use crate::store::{cert_with_fpr, fpr_index, has_fpr, store_wf, MutStore};
use crate::InternalErr;

verus! {

/// Canonical amount of a fully trusted certification.
pub const FULLY_TRUSTED: usize = 120;

/// Canonical amount of a partially trusted certification.
pub const PARTIALLY_TRUSTED: usize = 60;

/// A rendered edge of the visualization graph.
#[derive(Debug)]
pub struct GraphEdge {
    pub src_id: String,
    pub dst_id: String,
    pub ranking: i64,
    pub edge_name: String,
}

/// Mathematical image of a `GraphEdge`.
#[verifier::ext_equal]
pub struct GraphEdgeV {
    pub src_id: Seq<char>,
    pub dst_id: Seq<char>,
    pub ranking: i64,
    pub edge_name: Seq<char>,
}

impl DeepView for GraphEdge {
    type V = GraphEdgeV;

    open spec fn deep_view(&self) -> GraphEdgeV {
        GraphEdgeV {
            src_id: self.src_id@,
            dst_id: self.dst_id@,
            ranking: self.ranking,
            edge_name: self.edge_name@,
        }
    }
}

/// A rendered vertex of the visualization graph.  `id` is the display
/// label (primary identity, falling back to the fingerprint), `tag` is
/// the fingerprint, `tags` the known identity labels.
#[derive(Debug)]
pub struct GraphVertex {
    pub id: String,
    pub tag: String,
    pub tags: Vec<String>,
    pub data: Option<Vec<u8>>,
}

/// Mathematical image of a `GraphVertex`.
#[verifier::ext_equal]
pub struct GraphVertexV {
    pub id: Seq<char>,
    pub tag: Seq<char>,
    pub tags: Seq<Seq<char>>,
    pub data: Option<Seq<u8>>,
}

impl DeepView for GraphVertex {
    type V = GraphVertexV;

    open spec fn deep_view(&self) -> GraphVertexV {
        GraphVertexV {
            id: self.id@,
            tag: self.tag@,
            tags: self.tags.deep_view(),
            data: self.data.deep_view(),
        }
    }
}

/// The exportable graph: the vertices and edges actually used, and the
/// aggregate trust that flowed to the target (0 for plain dumps).
#[derive(Debug)]
pub struct WotGraph {
    pub edges: Vec<GraphEdge>,
    pub vertices: Vec<GraphVertex>,
    pub trust: usize,
}

impl WotGraph {
    /// An empty graph carrying the given trust amount.
    pub fn new(trust: usize) -> (r: WotGraph)
        ensures
            r.edges.deep_view() == Seq::<GraphEdgeV>::empty(),
            r.vertices.deep_view() == Seq::<GraphVertexV>::empty(),
            r.trust == trust,
    {
        let r = WotGraph { edges: Vec::new(), vertices: Vec::new(), trust };
        proof {
            assert(r.edges.deep_view() =~= Seq::<GraphEdgeV>::empty());
            assert(r.vertices.deep_view() =~= Seq::<GraphVertexV>::empty());
        }
        r
    }
}

/// Whether the snapshot holds a certification `issuer -> target`.
pub open spec fn cert_edge(s: Seq<CertificateV>, issuer: Seq<char>, target: Seq<char>) -> bool {
    exists|i: int, j: int|
        0 <= i < s.len() && 0 <= j < s[i].certifications.len()
            && s[i].certifications[j].issuer == issuer && s[i].certifications[j].target == target
}

/// Whether the snapshot holds a certification `issuer -> target` with a
/// positive trust amount of at least `lo`.
pub open spec fn cert_edge_amount(
    s: Seq<CertificateV>,
    issuer: Seq<char>,
    target: Seq<char>,
    lo: u8,
) -> bool {
    exists|i: int, j: int|
        0 <= i < s.len() && 0 <= j < s[i].certifications.len()
            && s[i].certifications[j].issuer == issuer && s[i].certifications[j].target == target
            && s[i].certifications[j].amount >= lo && s[i].certifications[j].amount > 0
}

/// The display label of a fingerprint: the primary user identity of its
/// certificate, falling back to the fingerprint itself.
pub open spec fn label_of(s: Seq<CertificateV>, fpr: Seq<char>) -> Seq<char> {
    if has_fpr(s, fpr) && cert_with_fpr(s, fpr).user_ids.len() > 0 {
        cert_with_fpr(s, fpr).user_ids[0]
    } else {
        fpr
    }
}

/// Whether one rendered edge comes from a certification of the
/// snapshot, labelled with the display labels of its two endpoints.
pub open spec fn edge_from_snapshot(s: Seq<CertificateV>, e: GraphEdgeV) -> bool {
    exists|fi: Seq<char>, ft: Seq<char>|
        #[trigger] cert_edge(s, fi, ft) && e.src_id == label_of(s, fi) && e.dst_id == label_of(
            s,
            ft,
        )
}

/// Every edge of the graph comes from a certification of the snapshot,
/// rendered with the display labels of its two endpoints.
pub open spec fn edges_sound(s: Seq<CertificateV>, edges: Seq<GraphEdgeV>) -> bool {
    forall|k: int| 0 <= k < edges.len() ==> #[trigger] edge_from_snapshot(s, edges[k])
}

/// Every vertex of the graph is tagged with a fingerprint and labelled
/// with that fingerprint's display label.
pub open spec fn vertices_sound(s: Seq<CertificateV>, vs: Seq<GraphVertexV>) -> bool {
    forall|k: int| 0 <= k < vs.len() ==> vs[k].id == label_of(s, vs[k].tag)
}

/// Whether the graph holds a vertex tagged `fpr`.
pub open spec fn graph_has_vertex(vs: Seq<GraphVertexV>, fpr: Seq<char>) -> bool {
    exists|k: int| 0 <= k < vs.len() && vs[k].tag == fpr
}

/// Whether the graph holds an edge labelled with the display labels of
/// `fi` and `ft`.
pub open spec fn graph_has_edge(
    s: Seq<CertificateV>,
    edges: Seq<GraphEdgeV>,
    fi: Seq<char>,
    ft: Seq<char>,
) -> bool {
    exists|k: int|
        0 <= k < edges.len() && edges[k].src_id == label_of(s, fi) && edges[k].dst_id == label_of(
            s,
            ft,
        )
}

/// The trust-network interface: quantified authentication and full
/// graph dumps.  Contracts live on the implementing snapshot type.
pub trait CertNetworkTrait {
    fn authenticate(&self, remote: &str, trust: usize) -> Result<WotGraph, InternalErr>;

    fn dump_all(&self) -> Result<WotGraph, InternalErr>;
}

/// Whether the graph holds a vertex whose display label is `lbl`.
pub open spec fn graph_has_vertex_label(vs: Seq<GraphVertexV>, lbl: Seq<char>) -> bool {
    exists|k: int| 0 <= k < vs.len() && vs[k].id == lbl
}

/// The one vertex shape the graph builders produce for `fpr`: labelled
/// by its display label, tagged by the fingerprint, carrying its
/// identity labels only when asked to.
pub open spec fn vertex_spec(s: Seq<CertificateV>, fpr: Seq<char>, with_tags: bool) -> GraphVertexV {
    GraphVertexV {
        id: label_of(s, fpr),
        tag: fpr,
        tags: if with_tags && has_fpr(s, fpr) {
            cert_with_fpr(s, fpr).user_ids
        } else {
            Seq::empty()
        },
        data: None,
    }
}

/// The one edge shape the graph builders produce for `fi -> ft`.
pub open spec fn edge_spec(
    s: Seq<CertificateV>,
    fi: Seq<char>,
    ft: Seq<char>,
    ranking: i64,
) -> GraphEdgeV {
    GraphEdgeV {
        src_id: label_of(s, fi),
        dst_id: label_of(s, ft),
        ranking: ranking,
        edge_name: Seq::empty(),
    }
}

/// Whether a vertex's fingerprint is an endpoint of some certification
/// of the snapshot.
pub open spec fn vertex_from_snapshot(s: Seq<CertificateV>, v: GraphVertexV) -> bool {
    exists|fi: Seq<char>, ft: Seq<char>|
        #[trigger] cert_edge(s, fi, ft) && (v.tag == fi || v.tag == ft)
}

/// No two vertices share a fingerprint tag.
pub open spec fn vertices_tag_unique(vs: Seq<GraphVertexV>) -> bool {
    forall|k1: int, k2: int| 0 <= k1 < k2 < vs.len() ==> vs[k1].tag != vs[k2].tag
}

/// No two edges share a source/destination label pair.
pub open spec fn edges_label_unique(edges: Seq<GraphEdgeV>) -> bool {
    forall|k1: int, k2: int|
        0 <= k1 < k2 < edges.len() ==> !(edges[k1].src_id == edges[k2].src_id && edges[k1].dst_id
            == edges[k2].dst_id)
}

/// Every edge's two labels have vertices in the graph.
pub open spec fn edges_have_vertices(edges: Seq<GraphEdgeV>, vs: Seq<GraphVertexV>) -> bool {
    forall|k: int|
        0 <= k < edges.len() ==> graph_has_vertex_label(vs, (#[trigger] edges[k]).src_id)
            && graph_has_vertex_label(vs, edges[k].dst_id)
}

/// The network snapshot: a copy of the certificate set and the chosen
/// root fingerprints.  Built once per query; store mutations after the
/// snapshot are not observed.
pub struct StoreNetwork {
    pub certs: Vec<Certificate>,
    pub roots: Vec<String>,
}

impl StoreNetwork {
    /// The snapshotted certificate set.
    pub open spec fn view_certs(&self) -> Seq<CertificateV> {
        self.certs.deep_view()
    }

    /// The root fingerprints.
    pub open spec fn view_roots(&self) -> Seq<Seq<char>> {
        self.roots.deep_view()
    }

    /// Network invariant: the snapshot keeps fingerprints unique.
    pub open spec fn wf(&self) -> bool {
        store_wf(self.view_certs())
    }

    /// Snapshot a network scoped to the given roots.
    pub fn from_store(store: &MutStore, roots: Vec<String>) -> (r: StoreNetwork)
        requires
            store.wf(),
        ensures
            r.wf(),
            r.view_certs() == store.view_certs(),
            r.view_roots() == roots.deep_view(),
    {
        let r = StoreNetwork { certs: crate::cert::clone_vec_certificate(&store.certs), roots };
        r
    }

    /// Snapshot an unrooted network, legal only for graph dumps.
    pub fn from_store_unrooted(store: &MutStore) -> (r: StoreNetwork)
        requires
            store.wf(),
        ensures
            r.wf(),
            r.view_certs() == store.view_certs(),
            r.view_roots() == Seq::<Seq<char>>::empty(),
    {
        let roots: Vec<String> = Vec::new();
        proof {
            assert(roots.deep_view() =~= Seq::<Seq<char>>::empty());
        }
        StoreNetwork::from_store(store, roots)
    }
}

/// The display label of `fpr` in the snapshot: the primary user identity
/// of its certificate, or the fingerprint itself.
fn display_label(certs: &Vec<Certificate>, fpr: &String) -> (r: String)
    requires
        store_wf(certs.deep_view()),
    ensures
        r@ == label_of(certs.deep_view(), fpr@),
{
    let ghost s = certs.deep_view();
    match crate::store::find_cert(certs, fpr) {
        Some(i) => {
            proof {
                assert(s[i as int] == certs@[i as int].deep_view());
            }
            if certs[i].user_ids.len() > 0 {
                proof {
                    assert(s[i as int].user_ids[0] == certs@[i as int].user_ids@[0]@);
                }
                certs[i].user_ids[0].clone()
            } else {
                fpr.clone()
            }
        },
        None => fpr.clone(),
    }
}

/// Add a vertex for `fpr` unless one with that tag is already present.
/// When `with_tags` is set the vertex carries the identity labels of the
/// fingerprint's certificate.
#[verifier::loop_isolation(false)]
fn add_vertex(out: &mut WotGraph, certs: &Vec<Certificate>, fpr: &String, with_tags: bool)
    requires
        store_wf(certs.deep_view()),
    ensures
        graph_has_vertex(old(out).vertices.deep_view(), fpr@)
            ==> final(out).vertices == old(out).vertices,
        !graph_has_vertex(old(out).vertices.deep_view(), fpr@)
            ==> final(out).vertices.deep_view() == old(out).vertices.deep_view().push(
            vertex_spec(certs.deep_view(), fpr@, with_tags),
        ),
        graph_has_vertex(final(out).vertices.deep_view(), fpr@),
        forall|f: Seq<char>|
            graph_has_vertex(old(out).vertices.deep_view(), f) ==> graph_has_vertex(
                final(out).vertices.deep_view(),
                f,
            ),
        forall|l: Seq<char>|
            graph_has_vertex_label(old(out).vertices.deep_view(), l) ==> graph_has_vertex_label(
                final(out).vertices.deep_view(),
                l,
            ),
        final(out).edges == old(out).edges,
        final(out).trust == old(out).trust,
{
    let ghost s = certs.deep_view();
    let ghost vs0 = out.vertices.deep_view();
    let mut i: usize = 0;
    while i < out.vertices.len()
        invariant
            i <= out.vertices@.len(),
            vs0 == out.vertices.deep_view(),
            forall|j: int| 0 <= j < i ==> vs0[j].tag != fpr@,
        decreases out.vertices@.len() - i,
    {
        proof {
            assert(vs0[i as int] == out.vertices@[i as int].deep_view());
        }
        if out.vertices[i].tag.eq(fpr) {
            proof {
                assert(vs0[i as int].tag == fpr@);
                assert(graph_has_vertex(vs0, fpr@));
            }
            return ;
        }
        i += 1;
    }
    proof {
        assert(!graph_has_vertex(vs0, fpr@));
    }
    let label = display_label(certs, fpr);
    let tags: Vec<String> = if with_tags {
        match crate::store::find_cert(certs, fpr) {
            Some(ci) => crate::cert::clone_vec_string(&certs[ci].user_ids),
            None => Vec::new(),
        }
    } else {
        Vec::new()
    };
    proof {
        if !(with_tags && has_fpr(s, fpr@)) {
            assert(tags.deep_view() =~= Seq::<Seq<char>>::empty());
        } else {
            assert(s[fpr_index(s, fpr@)] == certs@[fpr_index(s, fpr@)].deep_view());
        }
        assert(tags.deep_view() == vertex_spec(s, fpr@, with_tags).tags);
    }
    let v = GraphVertex { id: label, tag: fpr.clone(), tags, data: None };
    out.vertices.push(v);
    proof {
        assert(out.vertices.deep_view() =~= vs0.push(vertex_spec(s, fpr@, with_tags)));
        assert(graph_has_vertex(out.vertices.deep_view(), fpr@)) by {
            assert(out.vertices.deep_view()[vs0.len() as int].tag == fpr@);
        }
        assert forall|f: Seq<char>|
            graph_has_vertex(vs0, f) implies graph_has_vertex(
            out.vertices.deep_view(),
            f,
        ) by {
            let k = choose|k: int| 0 <= k < vs0.len() && vs0[k].tag == f;
            assert(out.vertices.deep_view()[k].tag == f);
        }
        assert forall|l: Seq<char>|
            graph_has_vertex_label(vs0, l) implies graph_has_vertex_label(
            out.vertices.deep_view(),
            l,
        ) by {
            let k = choose|k: int| 0 <= k < vs0.len() && vs0[k].id == l;
            assert(out.vertices.deep_view()[k].id == l);
        }
    }
}

/// Add an edge from `fi` to `ft` labelled with their display labels,
/// unless one with the same label pair is already present.
#[verifier::loop_isolation(false)]
fn add_edge(out: &mut WotGraph, certs: &Vec<Certificate>, fi: &String, ft: &String, ranking: i64)
    requires
        store_wf(certs.deep_view()),
        cert_edge(certs.deep_view(), fi@, ft@),
    ensures
        graph_has_edge(certs.deep_view(), old(out).edges.deep_view(), fi@, ft@)
            ==> final(out).edges == old(out).edges,
        !graph_has_edge(certs.deep_view(), old(out).edges.deep_view(), fi@, ft@)
            ==> final(out).edges.deep_view() == old(out).edges.deep_view().push(
            edge_spec(certs.deep_view(), fi@, ft@, ranking),
        ),
        graph_has_edge(certs.deep_view(), final(out).edges.deep_view(), fi@, ft@),
        forall|a: Seq<char>, b: Seq<char>|
            graph_has_edge(certs.deep_view(), old(out).edges.deep_view(), a, b)
                ==> graph_has_edge(certs.deep_view(), final(out).edges.deep_view(), a, b),
        final(out).vertices == old(out).vertices,
        final(out).trust == old(out).trust,
{
    let ghost s = certs.deep_view();
    let ghost es0 = out.edges.deep_view();
    let src = display_label(certs, fi);
    let dst = display_label(certs, ft);
    let mut i: usize = 0;
    while i < out.edges.len()
        invariant
            i <= out.edges@.len(),
            es0 == out.edges.deep_view(),
            src@ == label_of(s, fi@),
            dst@ == label_of(s, ft@),
            forall|j: int| 0 <= j < i ==> !(es0[j].src_id == src@ && es0[j].dst_id == dst@),
        decreases out.edges@.len() - i,
    {
        proof {
            assert(es0[i as int] == out.edges@[i as int].deep_view());
        }
        if out.edges[i].src_id.eq(&src) && out.edges[i].dst_id.eq(&dst) {
            proof {
                assert(es0[i as int].src_id == label_of(s, fi@) && es0[i as int].dst_id
                    == label_of(s, ft@));
                assert(graph_has_edge(s, es0, fi@, ft@));
            }
            return ;
        }
        i += 1;
    }
    proof {
        assert(!graph_has_edge(s, es0, fi@, ft@));
    }
    let e = GraphEdge { src_id: src, dst_id: dst, ranking, edge_name: String::new() };
    out.edges.push(e);
    proof {
        let es1 = out.edges.deep_view();
        assert(es1 =~= es0.push(edge_spec(s, fi@, ft@, ranking)));
        assert(graph_has_edge(s, es1, fi@, ft@)) by {
            assert(es1[es0.len() as int].src_id == label_of(s, fi@));
        }
        assert forall|a: Seq<char>, b: Seq<char>|
            graph_has_edge(s, es0, a, b) implies graph_has_edge(s, es1, a, b) by {
            let k = choose|k: int|
                0 <= k < es0.len() && es0[k].src_id == label_of(s, a) && es0[k].dst_id
                    == label_of(s, b);
            assert(es1[k].src_id == label_of(s, a) && es1[k].dst_id == label_of(s, b));
        }
    }
}

/// A certification edge good for at least `lo` also serves any lower
/// demand.
pub proof fn lemma_cert_edge_amount_mono(
    s: Seq<CertificateV>,
    a: Seq<char>,
    b: Seq<char>,
    hi: u8,
    lo: u8,
)
    requires
        cert_edge_amount(s, a, b, hi),
        lo <= hi,
    ensures
        cert_edge_amount(s, a, b, lo),
{
    let (i, j) = choose|i: int, j: int|
        0 <= i < s.len() && 0 <= j < s[i].certifications.len() && s[i].certifications[j].issuer
            == a && s[i].certifications[j].target == b && s[i].certifications[j].amount >= hi
            && s[i].certifications[j].amount > 0;
    assert(0 <= i < s.len() && 0 <= j < s[i].certifications.len() && s[i].certifications[j].issuer
        == a && s[i].certifications[j].target == b && s[i].certifications[j].amount >= lo
        && s[i].certifications[j].amount > 0);
}

/// A delegation path from `from` to `to` whose every edge grants at
/// least `amt` trust, touching no fingerprint of `used` in between.
pub open spec fn valid_onward_path(
    s: Seq<CertificateV>,
    used: Seq<Seq<char>>,
    path: Seq<Seq<char>>,
    amt: u8,
    from: Seq<char>,
    to: Seq<char>,
) -> bool {
    &&& path.len() >= 2
    &&& path[0] == from
    &&& path.last() == to
    &&& amt > 0
    &&& forall|k: int|
        0 <= k < path.len() - 1 ==> cert_edge_amount(s, #[trigger] path[k], path[k + 1], amt)
    &&& forall|k: int| 0 < k < path.len() - 1 ==> !used.contains(#[trigger] path[k])
}

/// Depth-first search for a delegation path from `current` to `target`.
/// `budget` bounds how many further intermediate hops delegation allows,
/// `fuel` bounds recursion, and `visited` prevents revisiting a
/// fingerprint.  A returned path is valid; nothing is promised when the
/// search gives up.
#[verifier::loop_isolation(false)]
fn search_path(
    certs: &Vec<Certificate>,
    current: &String,
    target: &String,
    used: &Vec<String>,
    visited: &mut Vec<String>,
    budget: usize,
    fuel: usize,
) -> (r: Option<(Vec<String>, u8)>)
    requires
        store_wf(certs.deep_view()),
    ensures
        r matches Some(p) ==> valid_onward_path(
            certs.deep_view(),
            used.deep_view(),
            p.0.deep_view(),
            p.1,
            current@,
            target@,
        ),
    decreases fuel,
{
    let ghost s = certs.deep_view();
    if fuel == 0 {
        return None;
    }
    let mut i: usize = 0;
    while i < certs.len()
        invariant
            i <= certs@.len(),
        decreases certs@.len() - i,
    {
        let ghost ci = s[i as int];
        proof {
            assert(ci == certs@[i as int].deep_view());
        }
        let cert = &certs[i];
        let mut j: usize = 0;
        while j < cert.certifications.len()
            invariant
                j <= cert.certifications@.len(),
            decreases cert.certifications@.len() - j,
        {
            let edge = &cert.certifications[j];
            proof {
                assert(ci.certifications[j as int] == cert.certifications@[
                j as int].deep_view());
            }
            if edge.issuer.eq(current) && edge.amount > 0 {
                proof {
                    assert(cert_edge_amount(s, current@, edge.target@, edge.amount)) by {
                        assert(s[i as int].certifications[j as int].issuer == current@
                            && s[i as int].certifications[j as int].target == edge.target@
                            && s[i as int].certifications[j as int].amount >= edge.amount
                            && s[i as int].certifications[j as int].amount > 0);
                    }
                }
                if edge.target.eq(target) {
                    let mut path: Vec<String> = Vec::new();
                    path.push(current.clone());
                    path.push(target.clone());
                    proof {
                        assert(path.deep_view() =~= seq![current@, target@]);
                    }
                    return Some((path, edge.amount));
                } else if budget >= 1 && edge.depth >= 1 && !crate::cert::contains_string(
                    used,
                    &edge.target,
                ) && !crate::cert::contains_string(visited, &edge.target) {
                    visited.push(edge.target.clone());
                    let next_budget: usize = if (edge.depth - 1) as usize <= budget - 1 {
                        (edge.depth - 1) as usize
                    } else {
                        budget - 1
                    };
                    match search_path(certs, &edge.target, target, used, visited, next_budget,
                        fuel - 1) {
                        Some((rest, amt2)) => {
                            let amt = if edge.amount <= amt2 {
                                edge.amount
                            } else {
                                amt2
                            };
                            let ghost rdv = rest.deep_view();
                            let mut path = rest;
                            path.insert(0, current.clone());
                            proof {
                                let pd = path.deep_view();
                                assert(pd =~= rdv.insert(0, current@));
                                assert(valid_onward_path(s, used.deep_view(), rdv, amt2,
                                edge.target@, target@));
                                assert(pd[0] == current@);
                                assert(pd.last() == target@);
                                assert forall|k: int|
                                    0 <= k < pd.len() - 1 implies cert_edge_amount(
                                    s,
                                    #[trigger] pd[k],
                                    pd[k + 1],
                                    amt,
                                ) by {
                                    if k == 0 {
                                        assert(pd[1] == rdv[0]);
                                        assert(rdv[0] == edge.target@);
                                        lemma_cert_edge_amount_mono(s, current@, edge.target@,
                                        edge.amount, amt);
                                    } else {
                                        assert(pd[k] == rdv[k - 1]);
                                        assert(pd[k + 1] == rdv[k]);
                                        assert(cert_edge_amount(s, rdv[k - 1], rdv[k], amt2));
                                        lemma_cert_edge_amount_mono(s, rdv[k - 1], rdv[k], amt2,
                                        amt);
                                    }
                                }
                                assert forall|k: int|
                                    0 < k < pd.len() - 1 implies !used.deep_view().contains(
                                    #[trigger] pd[k],
                                ) by {
                                    assert(pd[k] == rdv[k - 1]);
                                    if k == 1 {
                                        assert(rdv[0] == edge.target@);
                                    }
                                }
                            }
                            return Some((path, amt));
                        },
                        None => {},
                    }
                }
            }
            j += 1;
        }
        i += 1;
    }
    None
}

/// An amount-carrying edge is in particular an edge.
pub proof fn lemma_cert_edge_amount_implies(
    s: Seq<CertificateV>,
    a: Seq<char>,
    b: Seq<char>,
    lo: u8,
)
    requires
        cert_edge_amount(s, a, b, lo),
    ensures
        cert_edge(s, a, b),
{
    let (i, j) = choose|i: int, j: int|
        0 <= i < s.len() && 0 <= j < s[i].certifications.len() && s[i].certifications[j].issuer
            == a && s[i].certifications[j].target == b && s[i].certifications[j].amount >= lo
            && s[i].certifications[j].amount > 0;
    assert(0 <= i < s.len() && 0 <= j < s[i].certifications.len() && s[i].certifications[j].issuer
        == a && s[i].certifications[j].target == b);
}

/// Whether `r` issues a positive certification on anyone.
pub open spec fn issues_positive(s: Seq<CertificateV>, r: Seq<char>) -> bool {
    exists|ft: Seq<char>| cert_edge_amount(s, r, ft, 1)
}

/// Whether `r` can contribute trust toward `target` on its own: it is
/// the target itself, or certifies it directly and positively.
pub open spec fn root_qualifies(s: Seq<CertificateV>, r: Seq<char>, target: Seq<char>) -> bool {
    r == target || cert_edge_amount(s, r, target, 1)
}

/// Whether some root is the target or issues a positive certification.
pub open spec fn some_root_contributes(
    s: Seq<CertificateV>,
    roots: Seq<Seq<char>>,
    target: Seq<char>,
) -> bool {
    exists|k: int|
        0 <= k < roots.len() && (#[trigger] roots[k] == target || issues_positive(s, roots[k]))
}

/// Whether some root can contribute on its own toward `target`.
pub open spec fn some_root_qualifies(
    s: Seq<CertificateV>,
    roots: Seq<Seq<char>>,
    target: Seq<char>,
) -> bool {
    exists|k: int| 0 <= k < roots.len() && root_qualifies(s, #[trigger] roots[k], target)
}

/// The numeric bound a scan result stands for: the found amount, or
/// below every amount when nothing was found.
pub open spec fn direct_bound(best: Option<u8>) -> int {
    match best {
        Some(a) => a as int,
        None => -1,
    }
}

/// The strongest direct certification `r -> t`: its amount is a true
/// positive certification amount, and no positive certification of that
/// pair exceeds it; nothing is returned exactly when no positive one
/// exists.
#[verifier::loop_isolation(false)]
fn best_direct(certs: &Vec<Certificate>, r: &String, t: &String) -> (res: Option<u8>)
    requires
        store_wf(certs.deep_view()),
    ensures
        res matches Some(a) ==> a > 0 && cert_edge_amount(certs.deep_view(), r@, t@, a),
        res is None ==> !cert_edge_amount(certs.deep_view(), r@, t@, 1),
        forall|x: int, y: int|
            0 <= x < certs.deep_view().len() && 0 <= y < certs.deep_view()[
            x].certifications.len() && (#[trigger] certs.deep_view()[x].certifications[
            y]).issuer == r@ && certs.deep_view()[x].certifications[y].target == t@
                && certs.deep_view()[x].certifications[y].amount > 0 ==> certs.deep_view()[
            x].certifications[y].amount <= direct_bound(res),
{
    let ghost s = certs.deep_view();
    let mut best: Option<u8> = None;
    let mut i: usize = 0;
    while i < certs.len()
        invariant
            i <= certs@.len(),
            best matches Some(a) ==> a > 0 && cert_edge_amount(s, r@, t@, a),
            forall|x: int, y: int|
                0 <= x < i && 0 <= y < s[x].certifications.len() && (
                #[trigger] s[x].certifications[y]).issuer == r@ && s[x].certifications[y].target
                    == t@ && s[x].certifications[y].amount > 0 ==> s[x].certifications[y].amount
                    <= direct_bound(best),
        decreases certs@.len() - i,
    {
        let ghost ci = s[i as int];
        proof {
            assert(ci == certs@[i as int].deep_view());
        }
        let cert = &certs[i];
        let mut j: usize = 0;
        while j < cert.certifications.len()
            invariant
                j <= cert.certifications@.len(),
                ci == s[i as int],
                best matches Some(a) ==> a > 0 && cert_edge_amount(s, r@, t@, a),
                forall|x: int, y: int|
                    0 <= x < i && 0 <= y < s[x].certifications.len() && (
                    #[trigger] s[x].certifications[y]).issuer == r@ && s[x].certifications[
                    y].target == t@ && s[x].certifications[y].amount > 0 ==> s[
                    x].certifications[y].amount <= direct_bound(best),
                forall|y: int|
                    0 <= y < j && (#[trigger] ci.certifications[y]).issuer == r@
                        && ci.certifications[y].target == t@ && ci.certifications[y].amount > 0
                        ==> ci.certifications[y].amount <= direct_bound(best),
            decreases cert.certifications@.len() - j,
        {
            let edge = &cert.certifications[j];
            proof {
                assert(ci.certifications[j as int] == cert.certifications@[
                j as int].deep_view());
            }
            if edge.issuer.eq(r) && edge.target.eq(t) && edge.amount > 0 {
                let better = match best {
                    Some(a) => edge.amount > a,
                    None => true,
                };
                if better {
                    proof {
                        assert(cert_edge_amount(s, r@, t@, edge.amount)) by {
                            assert(s[i as int].certifications[j as int].issuer == r@ && s[
                            i as int].certifications[j as int].target == t@ && s[
                            i as int].certifications[j as int].amount >= edge.amount && s[
                            i as int].certifications[j as int].amount > 0);
                        }
                    }
                    best = Some(edge.amount);
                }
            }
            j += 1;
        }
        i += 1;
    }
    proof {
        if best is None {
            if cert_edge_amount(s, r@, t@, 1) {
                let (x, y) = choose|x: int, y: int|
                    0 <= x < s.len() && 0 <= y < s[x].certifications.len() && s[
                    x].certifications[y].issuer == r@ && s[x].certifications[y].target == t@
                        && s[x].certifications[y].amount >= 1 && s[x].certifications[y].amount
                        > 0;
                assert(s[x].certifications[y].amount <= direct_bound(best));
            }
        }
    }
    best
}

/// The smaller of two mathematical integers.
pub open spec fn min_i(x: int, y: int) -> int {
    if x <= y {
        x
    } else {
        y
    }
}

/// Whether some root other than the target itself certifies the target
/// directly with at least `am` trust.
pub open spec fn some_root_certifies_at(
    s: Seq<CertificateV>,
    roots: Seq<Seq<char>>,
    target: Seq<char>,
    am: u8,
) -> bool {
    exists|k: int|
        0 <= k < roots.len() && roots[k] != target && #[trigger] cert_edge_amount(
            s,
            roots[k],
            target,
            am,
        )
}

/// A vertex of an authentication graph is either a root or an endpoint
/// of some certification of the snapshot.
pub open spec fn vertex_rooted_or_edge(
    s: Seq<CertificateV>,
    roots: Seq<Seq<char>>,
    v: GraphVertexV,
) -> bool {
    roots.contains(v.tag) || vertex_from_snapshot(s, v)
}

/// Both endpoints have vertices and the edge is present.
pub open spec fn graph_rendered(
    s: Seq<CertificateV>,
    g: WotGraph,
    fi: Seq<char>,
    ft: Seq<char>,
) -> bool {
    &&& graph_has_edge(s, g.edges.deep_view(), fi, ft)
    &&& graph_has_vertex(g.vertices.deep_view(), fi)
    &&& graph_has_vertex(g.vertices.deep_view(), ft)
}

/// Every certification held by the first `n` certificates of the
/// snapshot is rendered in the graph: its edge is present and both of
/// its endpoints have vertices.
pub open spec fn dump_complete_upto(s: Seq<CertificateV>, g: WotGraph, n: int) -> bool {
    forall|i: int, j: int|
        0 <= i < n && 0 <= j < s[i].certifications.len() ==> #[trigger] graph_rendered(
            s,
            g,
            s[i].certifications[j].issuer,
            s[i].certifications[j].target,
        )
}

/// Every certification of the snapshot is rendered in the graph.
pub open spec fn dump_complete(s: Seq<CertificateV>, g: WotGraph) -> bool {
    dump_complete_upto(s, g, s.len() as int)
}

impl StoreNetwork {
    /// Quantify the trust flowing from the roots to the identity of the
    /// certificate with fingerprint `remote`, and collect the vertices
    /// and edges used.
    ///
    /// Each root contributes one path: full trust for the target itself,
    /// the strongest direct certification when one exists, otherwise a
    /// depth-bounded delegation path avoiding fingerprints already used
    /// by earlier roots.  Contributions add up, capped at
    /// `FULLY_TRUSTED`, and the search stops once `trust` is met, so the
    /// returned amount is at least the smaller of the demanded amount,
    /// the best direct certification, and the cap.  The result is 0 when
    /// the target has no identity at all, and every vertex and edge of
    /// the graph comes from a root or a certification of the snapshot.
    #[verifier::loop_isolation(false)]
    #[verifier::rlimit(100)]
    pub fn authenticate(&self, remote: &str, trust: usize) -> (r: Result<WotGraph, InternalErr>)
        requires
            self.wf(),
        ensures
            match r {
                Ok(g) => {
                    &&& has_fpr(self.view_certs(), remote@)
                    &&& g.trust <= FULLY_TRUSTED
                    &&& edges_sound(self.view_certs(), g.edges.deep_view())
                    &&& vertices_sound(self.view_certs(), g.vertices.deep_view())
                    &&& (cert_with_fpr(self.view_certs(), remote@).user_ids.len() == 0
                        ==> g.trust == 0)
                    &&& (g.trust > 0 ==> some_root_contributes(
                        self.view_certs(),
                        self.view_roots(),
                        remote@,
                    ))
                    &&& (trust > 0 && cert_with_fpr(self.view_certs(), remote@).user_ids.len()
                        > 0 && some_root_qualifies(self.view_certs(), self.view_roots(), remote@)
                        ==> g.trust > 0)
                    &&& (trust > 0 && cert_with_fpr(self.view_certs(), remote@).user_ids.len()
                        > 0 && self.view_roots().contains(remote@) ==> g.trust as int >= min_i(
                        trust as int,
                        120,
                    ))
                    &&& (forall|am: u8|
                        trust > 0 && cert_with_fpr(self.view_certs(), remote@).user_ids.len()
                            > 0 && #[trigger] some_root_certifies_at(
                            self.view_certs(),
                            self.view_roots(),
                            remote@,
                            am,
                        ) ==> g.trust as int >= min_i(trust as int, min_i(am as int, 120)))
                    &&& (trust > 0 && cert_with_fpr(self.view_certs(), remote@).user_ids.len()
                        > 0 && self.view_roots().len() >= 1 && self.view_roots()[0] != remote@
                        && cert_edge_amount(self.view_certs(), self.view_roots()[0], remote@, 1)
                        ==> graph_has_edge(
                        self.view_certs(),
                        g.edges.deep_view(),
                        self.view_roots()[0],
                        remote@,
                    ))
                    &&& forall|k: int|
                        0 <= k < g.vertices.deep_view().len()
                            ==> #[trigger] g.vertices.deep_view()[k] == vertex_spec(
                            self.view_certs(),
                            g.vertices.deep_view()[k].tag,
                            false,
                        )
                    &&& forall|k: int|
                        0 <= k < g.vertices.deep_view().len() ==> #[trigger] vertex_rooted_or_edge(
                            self.view_certs(),
                            self.view_roots(),
                            g.vertices.deep_view()[k],
                        )
                    &&& vertices_tag_unique(g.vertices.deep_view())
                    &&& edges_label_unique(g.edges.deep_view())
                    &&& edges_have_vertices(g.edges.deep_view(), g.vertices.deep_view())
                },
                Err(e) => !has_fpr(self.view_certs(), remote@) && e matches InternalErr::NotFound(
                    _,
                ),
            },
    {
        let ghost s = self.view_certs();
        let ghost rootsv = self.view_roots();
        let target: String = remote.to_owned();
        let ti = match crate::store::find_cert(&self.certs, &target) {
            Some(i) => i,
            None => {
                return Err(InternalErr::NotFound("no certificate with this fingerprint"));
            },
        };
        proof {
            assert(has_fpr(s, remote@)) by {
                assert(s[ti as int].fingerprint == remote@);
            }
            assert(s[ti as int] == cert_with_fpr(s, remote@));
            assert(s[ti as int] == self.certs@[ti as int].deep_view());
        }
        if self.certs[ti].user_ids.len() == 0 {
            return Ok(WotGraph::new(0));
        }
        proof {
            assert(cert_with_fpr(s, remote@).user_ids.len() > 0);
        }
        let mut out = WotGraph::new(0);
        let mut used: Vec<String> = Vec::new();
        let mut total: usize = 0;
        let mut idx: usize = 0;
        while idx < self.roots.len() && total < FULLY_TRUSTED && total < trust
            invariant
                idx <= self.roots@.len(),
                total <= FULLY_TRUSTED,
                idx == 0 ==> total == 0,
                out.trust == 0,
                edges_sound(s, out.edges.deep_view()),
                vertices_sound(s, out.vertices.deep_view()),
                total > 0 ==> some_root_contributes(s, rootsv, remote@),
                forall|k: int|
                    0 <= k < idx && root_qualifies(s, #[trigger] rootsv[k], remote@) ==> total
                        > 0,
                forall|k: int| 0 <= k < idx && #[trigger] rootsv[k] == remote@ ==> total >= 120,
                forall|am: u8, k: int|
                    0 <= k < idx && rootsv[k] != remote@ && #[trigger] cert_edge_amount(
                        s,
                        rootsv[k],
                        remote@,
                        am,
                    ) ==> total as int >= min_i(am as int, 120),
                (idx > 0 && rootsv.len() >= 1 && rootsv[0] != remote@ && cert_edge_amount(
                    s,
                    rootsv[0],
                    remote@,
                    1,
                )) ==> graph_has_edge(s, out.edges.deep_view(), rootsv[0], remote@),
                forall|k: int|
                    0 <= k < out.vertices.deep_view().len() ==> #[trigger] out.vertices.deep_view()[
                    k] == vertex_spec(s, out.vertices.deep_view()[k].tag, false),
                forall|k: int|
                    0 <= k < out.vertices.deep_view().len() ==> #[trigger] vertex_rooted_or_edge(
                        s,
                        rootsv,
                        out.vertices.deep_view()[k],
                    ),
                vertices_tag_unique(out.vertices.deep_view()),
                edges_label_unique(out.edges.deep_view()),
                edges_have_vertices(out.edges.deep_view(), out.vertices.deep_view()),
            decreases self.roots@.len() - idx,
        {
            let ghost total0 = total;
            let root = &self.roots[idx];
            proof {
                assert(rootsv[idx as int] == self.roots@[idx as int]@);
                assert(rootsv.contains(rootsv[idx as int]));
            }
            let mut contribution: usize = 0;
            let ghost no_direct = false;
            if root.eq(&target) {
                add_vertex(&mut out, &self.certs, root, false);
                contribution = FULLY_TRUSTED;
            } else {
                match best_direct(&self.certs, root, &target) {
                    Some(a) => {
                        add_vertex(&mut out, &self.certs, root, false);
                        proof {
                            lemma_cert_edge_amount_implies(s, root@, target@, a);
                        }
                        add_vertex(&mut out, &self.certs, &target, false);
                        add_edge(&mut out, &self.certs, root, &target, a as i64);
                        contribution = a as usize;
                        proof {
                            lemma_cert_edge_amount_mono(s, root@, target@, a, 1);
                            assert(issues_positive(s, rootsv[idx as int]));
                        }
                    },
                    None => {
                        proof {
                            no_direct = true;
                        }
                        let mut visited: Vec<String> = Vec::new();
                        let fuel = self.certs.len();
                        match search_path(&self.certs, root, &target, &used, &mut visited, fuel,
                            fuel) {
                            Some((p, a)) => {
                                let ghost pv = p.deep_view();
                                let ghost es_path = out.edges.deep_view();
                                let mut k: usize = 0;
                                while k < p.len() - 1
                                    invariant
                                        k <= p@.len(),
                                        pv == p.deep_view(),
                                        pv.len() == p@.len(),
                                        pv.len() >= 2,
                                        a > 0,
                                        pv[0] == root@,
                                        forall|m: int|
                                            0 <= m < pv.len() - 1 ==> cert_edge_amount(
                                                s,
                                                #[trigger] pv[m],
                                                pv[m + 1],
                                                a,
                                            ),
                                        edges_sound(s, out.edges.deep_view()),
                                        vertices_sound(s, out.vertices.deep_view()),
                                        out.trust == 0,
                                        forall|a2: Seq<char>, b2: Seq<char>|
                                            graph_has_edge(s, es_path, a2, b2)
                                                ==> graph_has_edge(
                                                s,
                                                out.edges.deep_view(),
                                                a2,
                                                b2,
                                            ),
                                        forall|kk: int|
                                            0 <= kk < out.vertices.deep_view().len()
                                                ==> #[trigger] out.vertices.deep_view()[kk]
                                                == vertex_spec(
                                                s,
                                                out.vertices.deep_view()[kk].tag,
                                                false,
                                            ),
                                        forall|kk: int|
                                            0 <= kk < out.vertices.deep_view().len()
                                                ==> #[trigger] vertex_rooted_or_edge(
                                                s,
                                                rootsv,
                                                out.vertices.deep_view()[kk],
                                            ),
                                        vertices_tag_unique(out.vertices.deep_view()),
                                        edges_label_unique(out.edges.deep_view()),
                                        edges_have_vertices(
                                            out.edges.deep_view(),
                                            out.vertices.deep_view(),
                                        ),
                                    decreases p@.len() - k,
                                {
                                    let ghost g0 = out;
                                    proof {
                                        assert(pv[k as int] == p@[k as int]@);
                                        assert(pv[k + 1] == p@[k + 1]@);
                                        assert(cert_edge_amount(s, pv[k as int], pv[k + 1], a));
                                        lemma_cert_edge_amount_implies(s, pv[k as int],
                                        pv[k + 1], a);
                                    }
                                    add_vertex(&mut out, &self.certs, &p[k], false);
                                    add_vertex(&mut out, &self.certs, &p[k + 1], false);
                                    add_edge(&mut out, &self.certs, &p[k], &p[k + 1], a as i64);
                                    proof {
                                        assert forall|a2: Seq<char>, b2: Seq<char>|
                                            graph_has_edge(s, es_path, a2, b2)
                                                implies graph_has_edge(
                                            s,
                                            out.edges.deep_view(),
                                            a2,
                                            b2,
                                        ) by {
                                            assert(graph_has_edge(s, g0.edges.deep_view(), a2,
                                            b2));
                                        }
                                        assert forall|kk: int|
                                            0 <= kk < out.edges.deep_view().len()
                                                implies graph_has_vertex_label(
                                            out.vertices.deep_view(),
                                            (#[trigger] out.edges.deep_view()[kk]).src_id,
                                        ) && graph_has_vertex_label(
                                            out.vertices.deep_view(),
                                            out.edges.deep_view()[kk].dst_id,
                                        ) by {
                                            if kk < g0.edges.deep_view().len() {
                                                assert(out.edges.deep_view()[kk]
                                                    == g0.edges.deep_view()[kk]);
                                                assert(graph_has_vertex_label(
                                                    g0.vertices.deep_view(),
                                                    g0.edges.deep_view()[kk].src_id,
                                                ));
                                                assert(graph_has_vertex_label(
                                                    g0.vertices.deep_view(),
                                                    g0.edges.deep_view()[kk].dst_id,
                                                ));
                                            } else {
                                                assert(graph_has_vertex(
                                                    out.vertices.deep_view(),
                                                    pv[k as int],
                                                ));
                                                let ki = choose|ki: int|
                                                    0 <= ki < out.vertices.deep_view().len()
                                                        && out.vertices.deep_view()[ki].tag
                                                        == pv[k as int];
                                                assert(out.vertices.deep_view()[ki].id
                                                    == label_of(s, pv[k as int]));
                                                assert(graph_has_vertex(
                                                    out.vertices.deep_view(),
                                                    pv[k + 1],
                                                ));
                                                let kt = choose|kt: int|
                                                    0 <= kt < out.vertices.deep_view().len()
                                                        && out.vertices.deep_view()[kt].tag
                                                        == pv[k + 1];
                                                assert(out.vertices.deep_view()[kt].id
                                                    == label_of(s, pv[k + 1]));
                                            }
                                        }
                                    }
                                    if k + 2 < p.len() {
                                        used.push(p[k + 1].clone());
                                    }
                                    k += 1;
                                }
                                contribution = a as usize;
                                proof {
                                    assert(cert_edge_amount(s, pv[0], pv[1], a));
                                    assert(pv[0] == root@);
                                    lemma_cert_edge_amount_mono(s, root@, pv[1], a, 1);
                                    assert(issues_positive(s, rootsv[idx as int]));
                                }
                            },
                            None => {},
                        }
                    },
                }
            }
            proof {
                assert(contribution > 0 ==> (rootsv[idx as int] == remote@ || issues_positive(
                    s,
                    rootsv[idx as int],
                )));
                if root_qualifies(s, rootsv[idx as int], remote@) {
                    assert(contribution > 0);
                }
            }
            total = total + contribution;
            if total > FULLY_TRUSTED {
                total = FULLY_TRUSTED;
            }
            proof {
                assert(total0 > 0 ==> total > 0);
                assert(contribution > 0 ==> total > 0);
                assert(total >= total0);
                if total > 0 {
                    assert(some_root_contributes(s, rootsv, remote@)) by {
                        if total0 > 0 {
                        } else {
                            assert(contribution > 0);
                            assert(0 <= idx < rootsv.len() && (rootsv[idx as int] == remote@
                                || issues_positive(s, rootsv[idx as int])));
                        }
                    }
                }
                if rootsv[idx as int] == remote@ {
                    assert(contribution == 120);
                    assert(total >= 120);
                }
                assert forall|am: u8, k: int|
                    0 <= k < idx + 1 && rootsv[k] != remote@ && #[trigger] cert_edge_amount(
                        s,
                        rootsv[k],
                        remote@,
                        am,
                    ) implies total as int >= min_i(am as int, 120) by {
                    if k < idx {
                    } else {
                        assert(rootsv[idx as int] != remote@);
                        if no_direct {
                            let (x, y) = choose|x: int, y: int|
                                0 <= x < s.len() && 0 <= y < s[x].certifications.len() && s[
                                x].certifications[y].issuer == rootsv[idx as int] && s[
                                x].certifications[y].target == remote@ && s[x].certifications[
                                y].amount >= am && s[x].certifications[y].amount > 0;
                            assert(cert_edge_amount(s, rootsv[idx as int], remote@, 1)) by {
                                assert(s[x].certifications[y].amount >= 1);
                            }
                            assert(false);
                        } else {
                            let (x, y) = choose|x: int, y: int|
                                0 <= x < s.len() && 0 <= y < s[x].certifications.len() && s[
                                x].certifications[y].issuer == rootsv[idx as int] && s[
                                x].certifications[y].target == remote@ && s[x].certifications[
                                y].amount >= am && s[x].certifications[y].amount > 0;
                            assert(am as int <= contribution as int);
                            assert(total as int >= min_i(contribution as int, 120));
                        }
                    }
                }
            }
            idx += 1;
        }
        out.trust = total;
        proof {
            if trust > 0 && some_root_qualifies(s, rootsv, remote@) {
                if idx == self.roots@.len() {
                    let k = choose|k: int|
                        0 <= k < rootsv.len() && root_qualifies(s, #[trigger] rootsv[k], remote@);
                    assert(total > 0);
                } else {
                    assert(total >= FULLY_TRUSTED || total >= trust);
                }
            }
            if trust > 0 && rootsv.contains(remote@) {
                let k = choose|k: int| 0 <= k < rootsv.len() && rootsv[k] == remote@;
                assert(root_qualifies(s, rootsv[k], remote@));
                if idx == self.roots@.len() {
                    assert(total >= 120);
                } else {
                    assert(total >= FULLY_TRUSTED || total >= trust);
                }
            }
            assert forall|am: u8|
                trust > 0 && cert_with_fpr(s, remote@).user_ids.len() > 0
                    && #[trigger] some_root_certifies_at(s, rootsv, remote@, am)
                implies total as int >= min_i(trust as int, min_i(am as int, 120)) by {
                let k = choose|k: int|
                    0 <= k < rootsv.len() && rootsv[k] != remote@ && #[trigger] cert_edge_amount(
                        s,
                        rootsv[k],
                        remote@,
                        am,
                    );
                if idx == self.roots@.len() {
                    assert(total as int >= min_i(am as int, 120));
                } else {
                    assert(total >= FULLY_TRUSTED || total >= trust);
                }
            }
            if trust > 0 && rootsv.len() >= 1 && rootsv[0] != remote@ && cert_edge_amount(
                s,
                rootsv[0],
                remote@,
                1,
            ) {
                assert(idx > 0) by {
                    if idx == 0 {
                        assert(total == 0);
                        assert(!(idx < self.roots@.len() && total < FULLY_TRUSTED && total
                            < trust));
                    }
                }
            }
        }
        Ok(out)
    }

    /// Walk every certification of the snapshot, ignoring the root set,
    /// and render the full graph for visualization: one vertex per
    /// fingerprint that appears as an endpoint, carrying its identity
    /// labels, and one edge per distinct label pair, with ranking zero
    /// and an empty name.  The trust field of the result is unused and
    /// zero.
    #[verifier::loop_isolation(false)]
    #[verifier::rlimit(100)]
    pub fn dump_all(&self) -> (r: Result<WotGraph, InternalErr>)
        requires
            self.wf(),
        ensures
            r matches Ok(g) ==> {
                &&& g.trust == 0
                &&& edges_sound(self.view_certs(), g.edges.deep_view())
                &&& vertices_sound(self.view_certs(), g.vertices.deep_view())
                &&& dump_complete(self.view_certs(), g)
                &&& forall|k: int|
                    0 <= k < g.vertices.deep_view().len() ==> #[trigger] g.vertices.deep_view()[k]
                        == vertex_spec(self.view_certs(), g.vertices.deep_view()[k].tag, true)
                &&& forall|k: int|
                    0 <= k < g.vertices.deep_view().len() ==> #[trigger] vertex_from_snapshot(
                        self.view_certs(),
                        g.vertices.deep_view()[k],
                    )
                &&& vertices_tag_unique(g.vertices.deep_view())
                &&& forall|k: int|
                    0 <= k < g.edges.deep_view().len() ==> (#[trigger] g.edges.deep_view()[
                    k]).ranking == 0 && g.edges.deep_view()[k].edge_name == Seq::<char>::empty()
                &&& edges_label_unique(g.edges.deep_view())
                &&& edges_have_vertices(g.edges.deep_view(), g.vertices.deep_view())
            },
            r is Ok,
    {
        let ghost s = self.view_certs();
        let mut out = WotGraph::new(0);
        let mut i: usize = 0;
        while i < self.certs.len()
            invariant
                i <= self.certs@.len(),
                out.trust == 0,
                edges_sound(s, out.edges.deep_view()),
                vertices_sound(s, out.vertices.deep_view()),
                dump_complete_upto(s, out, i as int),
                forall|k: int|
                    0 <= k < out.vertices.deep_view().len() ==> #[trigger] out.vertices.deep_view()[
                    k] == vertex_spec(s, out.vertices.deep_view()[k].tag, true),
                forall|k: int|
                    0 <= k < out.vertices.deep_view().len() ==> #[trigger] vertex_from_snapshot(
                        s,
                        out.vertices.deep_view()[k],
                    ),
                vertices_tag_unique(out.vertices.deep_view()),
                forall|k: int|
                    0 <= k < out.edges.deep_view().len() ==> (#[trigger] out.edges.deep_view()[
                    k]).ranking == 0 && out.edges.deep_view()[k].edge_name
                        == Seq::<char>::empty(),
                edges_label_unique(out.edges.deep_view()),
                edges_have_vertices(out.edges.deep_view(), out.vertices.deep_view()),
            decreases self.certs@.len() - i,
        {
            let ghost ci = s[i as int];
            proof {
                assert(ci == self.certs@[i as int].deep_view());
            }
            let cert = &self.certs[i];
            let mut j: usize = 0;
            while j < cert.certifications.len()
                invariant
                    j <= cert.certifications@.len(),
                    out.trust == 0,
                    edges_sound(s, out.edges.deep_view()),
                    vertices_sound(s, out.vertices.deep_view()),
                    dump_complete_upto(s, out, i as int),
                    forall|b: int|
                        0 <= b < j ==> #[trigger] graph_rendered(
                            s,
                            out,
                            ci.certifications[b].issuer,
                            ci.certifications[b].target,
                        ),
                    forall|k: int|
                        0 <= k < out.vertices.deep_view().len()
                            ==> #[trigger] out.vertices.deep_view()[k] == vertex_spec(
                            s,
                            out.vertices.deep_view()[k].tag,
                            true,
                        ),
                    forall|k: int|
                        0 <= k < out.vertices.deep_view().len()
                            ==> #[trigger] vertex_from_snapshot(s, out.vertices.deep_view()[k]),
                    vertices_tag_unique(out.vertices.deep_view()),
                    forall|k: int|
                        0 <= k < out.edges.deep_view().len() ==> (
                        #[trigger] out.edges.deep_view()[k]).ranking == 0
                            && out.edges.deep_view()[k].edge_name == Seq::<char>::empty(),
                    edges_label_unique(out.edges.deep_view()),
                    edges_have_vertices(out.edges.deep_view(), out.vertices.deep_view()),
                decreases cert.certifications@.len() - j,
            {
                let ghost g0 = out;
                let edge = &cert.certifications[j];
                proof {
                    assert(ci.certifications[j as int] == cert.certifications@[
                    j as int].deep_view());
                    assert(cert_edge(s, edge.issuer@, edge.target@)) by {
                        assert(s[i as int].certifications[j as int].issuer == edge.issuer@
                            && s[i as int].certifications[j as int].target == edge.target@);
                    }
                }
                add_vertex(&mut out, &self.certs, &edge.issuer, true);
                add_vertex(&mut out, &self.certs, &edge.target, true);
                add_edge(&mut out, &self.certs, &edge.issuer, &edge.target, 0);
                proof {
                    assert forall|fi: Seq<char>, ft: Seq<char>|
                        graph_rendered(s, g0, fi, ft) implies graph_rendered(s, out, fi, ft) by {
                        assert(graph_has_edge(s, out.edges.deep_view(), fi, ft));
                        assert(graph_has_vertex(out.vertices.deep_view(), fi));
                        assert(graph_has_vertex(out.vertices.deep_view(), ft));
                    }
                    assert(graph_rendered(s, out, ci.certifications[j as int].issuer,
                    ci.certifications[j as int].target));
                    assert forall|k: int|
                        0 <= k < out.edges.deep_view().len() implies graph_has_vertex_label(
                        out.vertices.deep_view(),
                        (#[trigger] out.edges.deep_view()[k]).src_id,
                    ) && graph_has_vertex_label(
                        out.vertices.deep_view(),
                        out.edges.deep_view()[k].dst_id,
                    ) by {
                        if k < g0.edges.deep_view().len() {
                            assert(out.edges.deep_view()[k] == g0.edges.deep_view()[k]);
                            assert(graph_has_vertex_label(g0.vertices.deep_view(),
                            g0.edges.deep_view()[k].src_id));
                            assert(graph_has_vertex_label(g0.vertices.deep_view(),
                            g0.edges.deep_view()[k].dst_id));
                        } else {
                            assert(graph_has_vertex(out.vertices.deep_view(), edge.issuer@));
                            let ki = choose|ki: int|
                                0 <= ki < out.vertices.deep_view().len()
                                    && out.vertices.deep_view()[ki].tag == edge.issuer@;
                            assert(out.vertices.deep_view()[ki].id == label_of(s, edge.issuer@));
                            assert(graph_has_vertex(out.vertices.deep_view(), edge.target@));
                            let kt = choose|kt: int|
                                0 <= kt < out.vertices.deep_view().len()
                                    && out.vertices.deep_view()[kt].tag == edge.target@;
                            assert(out.vertices.deep_view()[kt].id == label_of(s, edge.target@));
                        }
                    }
                }
                j += 1;
            }
            i += 1;
        }
        Ok(out)
    }
}

impl CertNetworkTrait for StoreNetwork {
    fn authenticate(&self, remote: &str, trust: usize) -> Result<WotGraph, InternalErr> {
        if !network_wf_check(self) {
            return Err(InternalErr::Generic("network snapshot is malformed"));
        }
        StoreNetwork::authenticate(self, remote, trust)
    }

    fn dump_all(&self) -> Result<WotGraph, InternalErr> {
        if !network_wf_check(self) {
            return Err(InternalErr::Generic("network snapshot is malformed"));
        }
        StoreNetwork::dump_all(self)
    }
}

/// Check at run time that the snapshot keeps fingerprints unique, so
/// the trait entry points can serve callers that bring no proof.
fn network_wf_check(net: &StoreNetwork) -> (r: bool)
    ensures
        r == net.wf(),
{
    let ghost s = net.view_certs();
    let mut i: usize = 0;
    while i < net.certs.len()
        invariant
            i <= net.certs@.len(),
            s == net.view_certs(),
            forall|a: int, b: int| 0 <= a < b < i ==> s[a].fingerprint != s[b].fingerprint,
        decreases net.certs@.len() - i,
    {
        proof {
            assert(s[i as int] == net.certs@[i as int].deep_view());
        }
        let mut j: usize = 0;
        while j < i
            invariant
                j <= i < net.certs@.len(),
                s == net.view_certs(),
                forall|a: int, b: int| 0 <= a < b < i ==> s[a].fingerprint != s[b].fingerprint,
                forall|a: int| 0 <= a < j ==> s[a].fingerprint != s[i as int].fingerprint,
            decreases i - j,
        {
            proof {
                assert(s[j as int] == net.certs@[j as int].deep_view());
                assert(s[i as int] == net.certs@[i as int].deep_view());
            }
            if net.certs[j].fingerprint.eq(&net.certs[i].fingerprint) {
                proof {
                    assert(s[j as int].fingerprint == s[i as int].fingerprint);
                }
                return false;
            }
            j += 1;
        }
        i += 1;
    }
    proof {
        assert(crate::store::store_wf(s));
    }
    true
}

} // verus!
