//! The link graph: nodes for every note title and every ghost target,
//! one directed edge per forward link, edges to missing notes marked.
//!
//! The structure is built here and proved against its specification; the
//! surrounding application renders it (dot text, JSON, an interactive
//! page) through the `petgraph` and `serde_json` crates.

use vstd::prelude::*;
use vstd::string::StringExecFns;
use crate::queries::links_contain;
use crate::strutil::push_string;
use crate::zettel::{Zettel, ZettelView};

verus! {

/// One directed edge, by node positions; `dangling` marks an edge whose
/// target exists only as a link.
#[derive(Clone, Copy, PartialEq, Eq, Debug)]
pub struct Edge {
    pub from: usize,
    pub to: usize,
    pub dangling: bool,
}

/// The mathematical value of an edge.
#[verifier::ext_equal]
pub struct EdgeView {
    pub from: int,
    pub to: int,
    pub dangling: bool,
}

impl View for Edge {
    type V = EdgeView;

    open spec fn view(&self) -> EdgeView {
        EdgeView { from: self.from as int, to: self.to as int, dangling: self.dangling }
    }
}

impl DeepView for Edge {
    type V = EdgeView;

    open spec fn deep_view(&self) -> EdgeView {
        self.view()
    }
}

/// The graph as data: node labels in first-seen order, edges by node
/// position.
pub struct GraphData {
    pub nodes: Vec<String>,
    pub edges: Vec<Edge>,
}

/// The mathematical value of the graph.
#[verifier::ext_equal]
pub struct GraphSpec {
    pub nodes: Seq<Seq<char>>,
    pub edges: Seq<EdgeView>,
}

impl View for GraphData {
    type V = GraphSpec;

    open spec fn view(&self) -> GraphSpec {
        GraphSpec { nodes: self.nodes.deep_view(), edges: self.edges.deep_view() }
    }
}

/// The position of the first occurrence of `t` at or after `i`, or the
/// length when `t` does not occur there.
pub open spec fn find_idx(nodes: Seq<Seq<char>>, t: Seq<char>, i: int) -> int
    decreases nodes.len() - i when 0 <= i
{
    if i >= nodes.len() {
        nodes.len() as int
    } else if nodes[i] == t {
        i
    } else {
        find_idx(nodes, t, i + 1)
    }
}

/// The node list with `t` present: unchanged if already there, else
/// appended.
pub open spec fn add_node_spec(nodes: Seq<Seq<char>>, t: Seq<char>) -> Seq<Seq<char>> {
    if nodes.contains(t) {
        nodes
    } else {
        nodes.push(t)
    }
}

/// The graph after walking the owner's links from position `m` on: each
/// target becomes a node if it is new, and contributes one edge from the
/// owner, dangling when no note of the collection carries the target as
/// its title.
pub open spec fn build_links(
    g: GraphSpec,
    owner: int,
    links: Seq<Seq<char>>,
    m: int,
    titles: Seq<Seq<char>>,
) -> GraphSpec
    decreases links.len() - m when 0 <= m
{
    if m >= links.len() {
        g
    } else {
        let nodes1 = add_node_spec(g.nodes, links[m]);
        let tidx = find_idx(nodes1, links[m], 0);
        let g1 = GraphSpec {
            nodes: nodes1,
            edges: g.edges.push(
                EdgeView { from: owner, to: tidx, dangling: !titles.contains(links[m]) },
            ),
        };
        build_links(g1, owner, links, m + 1, titles)
    }
}

/// The graph after the first `k` notes.
pub open spec fn build_graph(zvs: Seq<ZettelView>, k: int, titles: Seq<Seq<char>>) -> GraphSpec
    decreases k when k >= 0
{
    if k <= 0 {
        GraphSpec { nodes: Seq::empty(), edges: Seq::empty() }
    } else {
        let g = build_graph(zvs, k - 1, titles);
        let nodes1 = add_node_spec(g.nodes, zvs[k - 1].title);
        let owner = find_idx(nodes1, zvs[k - 1].title, 0);
        build_links(
            GraphSpec { nodes: nodes1, edges: g.edges },
            owner,
            zvs[k - 1].links,
            0,
            titles,
        )
    }
}

/// The whole collection's graph.
pub open spec fn spec_graph(zvs: Seq<ZettelView>) -> GraphSpec {
    build_graph(zvs, zvs.len() as int, zvs.map_values(|zv: ZettelView| zv.title))
}

/// Finding stops at the end when nothing before the last position
/// matches and the last position does.
proof fn lemma_find_idx_last(s: Seq<Seq<char>>, t: Seq<char>, i: int)
    requires
        0 <= i < s.len(),
        forall|w: int| i <= w < s.len() - 1 ==> s[w] != t,
        s[s.len() - 1] == t,
    ensures
        find_idx(s, t, i) == s.len() - 1,
    decreases s.len() - i,
{
    if i < s.len() - 1 {
        lemma_find_idx_last(s, t, i + 1);
    }
}

/// Look `t` up among the nodes, adding it at the end when absent;
/// returns its (first) position.
fn add_node_get_idx(nodes: &mut Vec<String>, t: &String) -> (r: usize)
    ensures
        final(nodes).deep_view() == add_node_spec(old(nodes).deep_view(), t@),
        r == find_idx(final(nodes).deep_view(), t@, 0),
        r < final(nodes).deep_view().len(),
        final(nodes)@.len() <= old(nodes)@.len() + 1,
{
    let mut w: usize = 0;
    while w < nodes.len()
        invariant
            w <= nodes@.len(),
            nodes.deep_view().len() == nodes@.len(),
            nodes.deep_view() == old(nodes).deep_view(),
            forall|u: int| 0 <= u < w ==> #[trigger] nodes.deep_view()[u] != t@,
            find_idx(nodes.deep_view(), t@, 0) == find_idx(nodes.deep_view(), t@, w as int),
        decreases nodes@.len() - w,
    {
        proof {
            assert(nodes.deep_view()[w as int] == nodes@[w as int]@);
        }
        if nodes[w] == *t {
            proof {
                assert(nodes.deep_view().contains(t@)) by {
                    assert(nodes.deep_view()[w as int] == t@);
                }
                assert(add_node_spec(old(nodes).deep_view(), t@) == old(nodes).deep_view());
            }
            return w;
        }
        w = w + 1;
    }
    proof {
        if nodes.deep_view().contains(t@) {
            let u = choose|u: int|
                0 <= u < nodes.deep_view().len() && #[trigger] nodes.deep_view()[u] == t@;
            assert(false);
        }
    }
    let r = nodes.len();
    push_string(nodes, t.clone());
    proof {
        assert(nodes.deep_view() == add_node_spec(old(nodes).deep_view(), t@));
        lemma_find_idx_last(nodes.deep_view(), t@, 0);
    }
    r
}

/// Appends an edge, tracked at the level of edge views.
fn push_edge(v: &mut Vec<Edge>, e: Edge)
    ensures
        final(v).deep_view() == old(v).deep_view().push(e@),
        final(v)@.len() == old(v)@.len() + 1,
{
    let ghost dv0 = v.deep_view();
    let ghost ev = e@;
    v.push(e);
    proof {
        assert forall|k: int| 0 <= k < v.deep_view().len() implies v.deep_view()[k] == dv0.push(
            ev,
        )[k] by {
            assert(v.deep_view()[k] == v@[k]@);
            if k < dv0.len() {
                assert(v@[k] == old(v)@[k]);
                assert(dv0[k] == old(v)@[k]@);
            }
        }
        assert(v.deep_view() =~= dv0.push(ev));
    }
}

/// Turn a note collection into a directed graph: a node for every title
/// and every link target, an edge per forward link, edges to missing
/// notes marked dangling.
pub fn gen_graph(zs: &Vec<Zettel>) -> (g: GraphData)
    ensures
        g@ == spec_graph(zs.deep_view()),
{
    let ghost zvs = zs.deep_view();
    let ghost titlesv = zvs.map_values(|zv: ZettelView| zv.title);
    // the existing titles, for marking dangling edges
    let mut titles: Vec<String> = Vec::new();
    let mut k: usize = 0;
    proof {
        assert(titles.deep_view() =~= titlesv.subrange(0, 0));
    }
    while k < zs.len()
        invariant
            k <= zs@.len(),
            zvs == zs.deep_view(),
            titlesv == zvs.map_values(|zv: ZettelView| zv.title),
            zvs.len() == zs@.len(),
            titles.deep_view() == titlesv.subrange(0, k as int),
        decreases zs@.len() - k,
    {
        proof {
            assert(zs.deep_view()[k as int] == zs@[k as int]@);
        }
        push_string(&mut titles, zs[k].title.clone());
        k = k + 1;
        proof {
            assert(titles.deep_view() =~= titlesv.subrange(0, k as int));
        }
    }
    proof {
        assert(titlesv.subrange(0, titlesv.len() as int) =~= titlesv);
    }
    let mut nodes: Vec<String> = Vec::new();
    let mut edges: Vec<Edge> = Vec::new();
    let mut n: usize = 0;
    proof {
        assert(nodes.deep_view() =~= build_graph(zvs, 0, titlesv).nodes);
        assert(edges.deep_view() =~= build_graph(zvs, 0, titlesv).edges);
    }
    while n < zs.len()
        invariant
            n <= zs@.len(),
            zvs == zs.deep_view(),
            titlesv == zvs.map_values(|zv: ZettelView| zv.title),
            zvs.len() == zs@.len(),
            titles.deep_view() == titlesv,
            nodes.deep_view() == build_graph(zvs, n as int, titlesv).nodes,
            edges.deep_view() == build_graph(zvs, n as int, titlesv).edges,
        decreases zs@.len() - n,
    {
        proof {
            assert(zs.deep_view()[n as int] == zs@[n as int]@);
        }
        let owner = add_node_get_idx(&mut nodes, &zs[n].title);
        let ghost g_inner = GraphSpec { nodes: nodes.deep_view(), edges: edges.deep_view() };
        let row_links = &zs[n].links;
        let mut m: usize = 0;
        proof {
            assert(build_links(g_inner, owner as int, zvs[n as int].links, 0, titlesv)
                == build_graph(zvs, n as int + 1, titlesv));
        }
        while m < row_links.len()
            invariant
                m <= row_links@.len(),
                n < zvs.len(),
                zvs == zs.deep_view(),
                titlesv == zvs.map_values(|zv: ZettelView| zv.title),
                titles.deep_view() == titlesv,
                row_links.deep_view() == zvs[n as int].links,
                row_links@.len() == zvs[n as int].links.len(),
                build_links(
                    GraphSpec { nodes: nodes.deep_view(), edges: edges.deep_view() },
                    owner as int,
                    zvs[n as int].links,
                    m as int,
                    titlesv,
                ) == build_graph(zvs, n as int + 1, titlesv),
            decreases row_links@.len() - m,
        {
            proof {
                assert(row_links.deep_view()[m as int] == row_links@[m as int]@);
            }
            let target = &row_links[m];
            let tidx = add_node_get_idx(&mut nodes, target);
            let dangling = !links_contain(&titles, target);
            push_edge(&mut edges, Edge { from: owner, to: tidx, dangling });
            m = m + 1;
        }
        n = n + 1;
        proof {
            assert(zvs[n - 1].links.len() as int == row_links@.len() as int);
        }
    }
    let g = GraphData { nodes, edges };
    proof {
        assert(g@ =~= spec_graph(zs.deep_view()));
    }
    g
}

#[verifier::external_type_specification]
#[verifier::external_body]
pub struct ExDirected(petgraph::Directed);

#[verifier::external_type_specification]
#[verifier::external_body]
#[verifier::reject_recursive_types(N)]
#[verifier::reject_recursive_types(E)]
#[verifier::reject_recursive_types(Ty)]
#[verifier::reject_recursive_types(Ix)]
pub struct ExPetGraph<N, E, Ty, Ix>(petgraph::graph::Graph<N, E, Ty, Ix>);

/// The node labels a petgraph graph holds, in index order.
pub uninterp spec fn pg_nodes(g: petgraph::graph::Graph<String, String>) -> Seq<Seq<char>>;

/// The edges a petgraph graph holds, in insertion order: source index,
/// target index, and edge label.
pub uninterp spec fn pg_edges(g: petgraph::graph::Graph<String, String>) -> Seq<
    (int, int, Seq<char>),
>;

/// Relies on `petgraph::graph::Graph::new`: an empty directed graph.
#[verifier::external_body]
pub fn pg_new() -> (g: petgraph::graph::Graph<String, String>)
    ensures
        pg_nodes(g) == Seq::<Seq<char>>::empty(),
        pg_edges(g) == Seq::<(int, int, Seq<char>)>::empty(),
{
    petgraph::graph::Graph::new()
}

/// Relies on `Graph::add_node`: appends one node and returns its index,
/// the previous node count. The bound keeps the default `u32` node index
/// from running out, on which `add_node` panics.
#[verifier::external_body]
pub fn pg_add_node(g: &mut petgraph::graph::Graph<String, String>, label: String) -> (r: usize)
    requires
        pg_nodes(*old(g)).len() < 0xFFFF_FFFFusize,
    ensures
        pg_nodes(*final(g)) == pg_nodes(*old(g)).push(label@),
        pg_edges(*final(g)) == pg_edges(*old(g)),
        r == pg_nodes(*old(g)).len(),
{
    g.add_node(label).index()
}

/// Relies on `Graph::add_edge`: appends one edge between existing
/// nodes (it panics on an index out of bounds, hence the bounds here).
#[verifier::external_body]
pub fn pg_add_edge(g: &mut petgraph::graph::Graph<String, String>, a: usize, b: usize, label: String)
    requires
        a < pg_nodes(*old(g)).len(),
        b < pg_nodes(*old(g)).len(),
        pg_edges(*old(g)).len() < 0xFFFF_FFFFusize,
    ensures
        pg_nodes(*final(g)) == pg_nodes(*old(g)),
        pg_edges(*final(g)) == pg_edges(*old(g)).push((a as int, b as int, label@)),
{
    g.add_edge(
        petgraph::graph::NodeIndex::new(a),
        petgraph::graph::NodeIndex::new(b),
        label,
    );
}

/// The edge labels the renderers show: `ghost` on a dangling edge, the
/// empty label otherwise.
pub open spec fn spec_edge_label(e: EdgeView) -> Seq<char> {
    if e.dangling {
        "ghost"@
    } else {
        ""@
    }
}

/// The built graph handed to petgraph, edge by edge.
pub open spec fn pg_expected_edges(edges: Seq<EdgeView>) -> Seq<(int, int, Seq<char>)> {
    edges.map_values(|e: EdgeView| (e.from, e.to, spec_edge_label(e)))
}

/// Pour the verified graph structure into a petgraph graph, for the
/// renderers: same nodes in the same order, same edges with the
/// dangling mark as the edge label.
pub fn to_petgraph(gd: &GraphData) -> (g: petgraph::graph::Graph<String, String>)
    requires
        gd@.nodes.len() < 0xFFFF_FFFFusize,
        gd@.edges.len() < 0xFFFF_FFFFusize,
        forall|k: int|
            0 <= k < gd@.edges.len() ==> (#[trigger] gd@.edges[k]).from < gd@.nodes.len()
                && gd@.edges[k].to < gd@.nodes.len(),
    ensures
        pg_nodes(g) == gd@.nodes,
        pg_edges(g) == pg_expected_edges(gd@.edges),
{
    let mut g = pg_new();
    let mut k: usize = 0;
    proof {
        assert(pg_nodes(g) =~= gd@.nodes.subrange(0, 0));
    }
    while k < gd.nodes.len()
        invariant
            k <= gd.nodes@.len(),
            gd@.nodes.len() == gd.nodes@.len(),
            gd@.nodes.len() < 0xFFFF_FFFFusize,
            pg_nodes(g) == gd@.nodes.subrange(0, k as int),
            pg_edges(g) == Seq::<(int, int, Seq<char>)>::empty(),
        decreases gd.nodes@.len() - k,
    {
        proof {
            assert(gd@.nodes[k as int] == gd.nodes@[k as int]@);
        }
        let _ = pg_add_node(&mut g, gd.nodes[k].clone());
        k = k + 1;
        proof {
            assert(pg_nodes(g) =~= gd@.nodes.subrange(0, k as int));
        }
    }
    proof {
        assert(gd@.nodes.subrange(0, gd@.nodes.len() as int) =~= gd@.nodes);
    }
    let mut m: usize = 0;
    proof {
        assert(pg_edges(g) =~= pg_expected_edges(gd@.edges.subrange(0, 0)));
    }
    while m < gd.edges.len()
        invariant
            m <= gd.edges@.len(),
            gd@.edges.len() == gd.edges@.len(),
            gd@.edges.len() < 0xFFFF_FFFFusize,
            pg_nodes(g) == gd@.nodes,
            forall|w: int|
                0 <= w < gd@.edges.len() ==> (#[trigger] gd@.edges[w]).from < gd@.nodes.len()
                    && gd@.edges[w].to < gd@.nodes.len(),
            pg_edges(g) == pg_expected_edges(gd@.edges.subrange(0, m as int)),
        decreases gd.edges@.len() - m,
    {
        proof {
            assert(gd@.edges[m as int] == gd.edges@[m as int]@);
            assert(pg_edges(g).len() == m);
        }
        let e = gd.edges[m];
        let label = if e.dangling {
            String::from_str("ghost")
        } else {
            String::new()
        };
        proof {
            reveal_strlit("ghost");
            reveal_strlit("");
        }
        pg_add_edge(&mut g, e.from, e.to, label);
        m = m + 1;
        proof {
            assert(pg_edges(g) =~~= pg_expected_edges(gd@.edges.subrange(0, m as int)));
        }
    }
    proof {
        assert(gd@.edges.subrange(0, gd@.edges.len() as int) =~= gd@.edges);
    }
    g
}

} // verus!
