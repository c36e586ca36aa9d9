//! A simple undirected graph: node positions plus an edge list.
//!
//! Nodes are identified by their index in insertion order; an edge is an
//! unordered pair of distinct node indices, stored once.  Well-formedness
//! ([`UndirGraph::wf`]) says the graph is simple: every edge joins two
//! distinct in-range nodes and no unordered pair appears twice.

use crate::vec3::Vec3;
use vstd::prelude::*;

verus! {

/// Two stored edges name the same unordered node pair.
pub open spec fn same_edge(e1: (usize, usize), e2: (usize, usize)) -> bool {
    (e1.0 == e2.0 && e1.1 == e2.1) || (e1.0 == e2.1 && e1.1 == e2.0)
}

/// The edge list holds the unordered pair `{a, b}`.
pub open spec fn has_edge(edges: Seq<(usize, usize)>, a: int, b: int) -> bool {
    exists|k: int|
        0 <= k < edges.len() && ((#[trigger] edges[k]).0 == a && edges[k].1 == b || edges[k].0 == b
            && edges[k].1 == a)
}

/// Holding an unordered pair is symmetric in its endpoints.
pub proof fn lemma_has_edge_sym(edges: Seq<(usize, usize)>, a: int, b: int)
    requires
        has_edge(edges, a, b),
    ensures
        has_edge(edges, b, a),
{
    let k = choose|k: int|
        0 <= k < edges.len() && ((#[trigger] edges[k]).0 == a && edges[k].1 == b || edges[k].0
            == b && edges[k].1 == a);
    assert(0 <= k < edges.len() && (edges[k].0 == b && edges[k].1 == a || edges[k].0 == a
        && edges[k].1 == b));
}

/// Every edge joins two distinct nodes below `n`, and no unordered pair is
/// stored twice: the graph is simple.
pub open spec fn edges_wf(edges: Seq<(usize, usize)>, n: int) -> bool {
    &&& forall|k: int|
        0 <= k < edges.len() ==> (#[trigger] edges[k]).0 < n && edges[k].1 < n && edges[k].0
            != edges[k].1
    &&& forall|k1: int, k2: int|
        0 <= k1 < k2 < edges.len() ==> !same_edge(#[trigger] edges[k1], #[trigger] edges[k2])
}

/// An undirected graph over positioned nodes.
#[derive(Debug)]
pub struct UndirGraph {
    pub nodes: Vec<Vec3>,
    pub edges: Vec<(usize, usize)>,
}

impl UndirGraph {
    /// The graph is simple: every edge joins two distinct in-range nodes and
    /// no unordered pair is stored twice.
    pub open spec fn wf(self) -> bool {
        edges_wf(self.edges@, self.nodes@.len() as int)
    }

    /// An empty graph.
    pub fn new() -> (g: UndirGraph)
        ensures
            g.nodes@ == Seq::<Vec3>::empty(),
            g.edges@ == Seq::<(usize, usize)>::empty(),
            g.wf(),
    {
        let g = UndirGraph { nodes: Vec::new(), edges: Vec::new() };
        g
    }

    /// Number of nodes.
    pub fn node_count(&self) -> (n: usize)
        ensures
            n == self.nodes@.len(),
    {
        self.nodes.len()
    }

    /// Number of stored edges.
    pub fn edge_count(&self) -> (n: usize)
        ensures
            n == self.edges@.len(),
    {
        self.edges.len()
    }

    /// Append a node and return its index.
    pub fn add_node(&mut self, p: Vec3) -> (idx: usize)
        ensures
            final(self).nodes@ == old(self).nodes@.push(p),
            final(self).edges@ == old(self).edges@,
            idx == old(self).nodes@.len(),
            old(self).wf() ==> final(self).wf(),
    {
        let idx = self.nodes.len();
        self.nodes.push(p);
        idx
    }

    /// Whether the unordered pair `{a, b}` is already present.
    pub fn contains_edge(&self, a: usize, b: usize) -> (r: bool)
        ensures
            r == has_edge(self.edges@, a as int, b as int),
    {
        let mut k: usize = 0;
        while k < self.edges.len()
            invariant
                0 <= k <= self.edges@.len(),
                forall|j: int|
                    0 <= j < k ==> !((#[trigger] self.edges@[j]).0 == a && self.edges@[j].1 == b
                        || self.edges@[j].0 == b && self.edges@[j].1 == a),
            decreases self.edges@.len() - k,
        {
            let e = self.edges[k];
            if (e.0 == a && e.1 == b) || (e.0 == b && e.1 == a) {
                return true;
            }
            k = k + 1;
        }
        false
    }

    /// Insert the edge `{a, b}`; the pair must be new, distinct and in
    /// range, so a well-formed graph stays well-formed.
    pub fn add_edge(&mut self, a: usize, b: usize)
        requires
            a < old(self).nodes@.len(),
            b < old(self).nodes@.len(),
            a != b,
            !has_edge(old(self).edges@, a as int, b as int),
        ensures
            final(self).nodes@ == old(self).nodes@,
            final(self).edges@ == old(self).edges@.push((a, b)),
            old(self).wf() ==> final(self).wf(),
    {
        self.edges.push((a, b));
        proof {
            if old(self).wf() {
                let es = self.edges@;
                let n = self.nodes@.len() as int;
                assert forall|k1: int, k2: int| 0 <= k1 < k2 < es.len() implies !same_edge(
                    #[trigger] es[k1],
                    #[trigger] es[k2],
                ) by {
                    if k2 == es.len() - 1 {
                        assert(!has_edge(old(self).edges@, a as int, b as int));
                        assert(!(es[k1].0 == a && es[k1].1 == b || es[k1].0 == b && es[k1].1 == a));
                    }
                }
            }
        }
    }
}

/// Whether two graphs hold exactly the same node sequence and the same edge
/// sequence, in the same order; the strict equality used by the determinism
/// checks.
pub fn graph_eq(a: &UndirGraph, b: &UndirGraph) -> (r: bool)
    ensures
        r == (a.nodes@ == b.nodes@ && a.edges@ == b.edges@),
{
    if a.nodes.len() != b.nodes.len() || a.edges.len() != b.edges.len() {
        proof {
            if a.nodes@.len() != b.nodes@.len() {
                assert(a.nodes@ != b.nodes@);
            } else {
                assert(a.edges@ != b.edges@);
            }
        }
        return false;
    }
    let mut i: usize = 0;
    while i < a.nodes.len()
        invariant
            0 <= i <= a.nodes@.len(),
            a.nodes@.len() == b.nodes@.len(),
            a.edges@.len() == b.edges@.len(),
            forall|j: int| 0 <= j < i ==> a.nodes@[j] == b.nodes@[j],
        decreases a.nodes@.len() - i,
    {
        let pa = a.nodes[i];
        let pb = b.nodes[i];
        if !(pa.x == pb.x && pa.y == pb.y && pa.z == pb.z) {
            proof {
                assert(a.nodes@[i as int] != b.nodes@[i as int]);
                assert(a.nodes@ != b.nodes@);
            }
            return false;
        }
        i = i + 1;
    }
    let mut k: usize = 0;
    while k < a.edges.len()
        invariant
            0 <= k <= a.edges@.len(),
            a.nodes@.len() == b.nodes@.len(),
            a.edges@.len() == b.edges@.len(),
            forall|j: int| 0 <= j < a.nodes@.len() ==> a.nodes@[j] == b.nodes@[j],
            forall|j: int| 0 <= j < k ==> a.edges@[j] == b.edges@[j],
        decreases a.edges@.len() - k,
    {
        let ea = a.edges[k];
        let eb = b.edges[k];
        if !(ea.0 == eb.0 && ea.1 == eb.1) {
            proof {
                assert(a.edges@[k as int] != b.edges@[k as int]);
                assert(a.edges@ != b.edges@);
            }
            return false;
        }
        k = k + 1;
    }
    proof {
        assert(a.nodes@ =~= b.nodes@);
        assert(a.edges@ =~= b.edges@);
    }
    true
}

/// Edges shifted up by a node offset, as when a sub-graph is spliced onto
/// the end of a larger one.
pub open spec fn spec_translated_edges(edges: Seq<(usize, usize)>, off: int) -> Seq<
    (usize, usize),
> {
    edges.map(|k: int, e: (usize, usize)| (((e.0 + off) as usize), ((e.1 + off) as usize)))
}

/// The result of splicing each of the graphs `gs[i..]` in turn onto
/// `(nodes, edges)`: nodes are appended in order, and each sub-graph's edges
/// are renumbered by the node count that preceded it.
pub open spec fn spec_merge(
    nodes: Seq<Vec3>,
    edges: Seq<(usize, usize)>,
    gs: Seq<UndirGraph>,
    i: int,
) -> (Seq<Vec3>, Seq<(usize, usize)>)
    decreases gs.len() - i,
{
    if i < 0 || i >= gs.len() {
        (nodes, edges)
    } else {
        spec_merge(
            nodes + gs[i].nodes@,
            edges + spec_translated_edges(gs[i].edges@, nodes.len() as int),
            gs,
            i + 1,
        )
    }
}

/// Merge the undirected graphs `others` into `base`, in order, renumbering
/// each sub-graph's nodes onto the end of `base`'s node list and translating
/// its edges through that renumbering.  No edge is added or dropped beyond
/// the translation, and merging well-formed graphs into a well-formed base
/// keeps the result well-formed (in particular, simple).
#[verifier::loop_isolation(false)]
pub fn merge_undirected_graphs(base: &mut UndirGraph, others: &Vec<UndirGraph>)
    requires
        old(base).wf(),
        forall|i: int| 0 <= i < others@.len() ==> (#[trigger] others@[i]).wf(),
    ensures
        (final(base).nodes@, final(base).edges@) == spec_merge(
            old(base).nodes@,
            old(base).edges@,
            others@,
            0,
        ),
        final(base).wf(),
{
    let mut gi: usize = 0;
    while gi < others.len()
        invariant
            0 <= gi <= others@.len(),
            base.wf(),
            spec_merge(base.nodes@, base.edges@, others@, gi as int) == spec_merge(
                old(base).nodes@,
                old(base).edges@,
                others@,
                0,
            ),
        decreases others@.len() - gi,
    {
        let g = &others[gi];
        let off = base.nodes.len();
        let ghost nodes0 = base.nodes@;
        let ghost edges0 = base.edges@;
        let mut i: usize = 0;
        while i < g.nodes.len()
            invariant
                0 <= i <= g.nodes@.len(),
                base.nodes@ == nodes0 + g.nodes@.subrange(0, i as int),
                base.edges@ == edges0,
            decreases g.nodes@.len() - i,
        {
            let ghost before = base.nodes@;
            base.nodes.push(g.nodes[i]);
            proof {
                assert(base.nodes@ =~= nodes0 + g.nodes@.subrange(0, i as int + 1));
            }
            i = i + 1;
        }
        proof {
            assert(g.nodes@.subrange(0, g.nodes@.len() as int) =~= g.nodes@);
            assert(base.nodes@ == nodes0 + g.nodes@);
        }
        let total = base.nodes.len();
        proof {
            assert(total as int == off as int + g.nodes@.len());
        }
        let mut k: usize = 0;
        while k < g.edges.len()
            invariant
                0 <= k <= g.edges@.len(),
                base.nodes@ == nodes0 + g.nodes@,
                off == nodes0.len(),
                total as int == off as int + g.nodes@.len(),
                base.edges@ == edges0 + spec_translated_edges(
                    g.edges@.subrange(0, k as int),
                    off as int,
                ),
            decreases g.edges@.len() - k,
        {
            let e = g.edges[k];
            proof {
                assert((others@[gi as int]).wf());
                assert(e.0 < g.nodes@.len() && e.1 < g.nodes@.len());
            }
            base.edges.push((e.0 + off, e.1 + off));
            proof {
                assert(base.edges@ =~= edges0 + spec_translated_edges(
                    g.edges@.subrange(0, k as int + 1),
                    off as int,
                ));
            }
            k = k + 1;
        }
        proof {
            assert(g.edges@.subrange(0, g.edges@.len() as int) =~= g.edges@);
            assert(base.edges@ == edges0 + spec_translated_edges(g.edges@, off as int));
            let es = base.edges@;
            let n = base.nodes@.len() as int;
            let ts = spec_translated_edges(g.edges@, off as int);
            assert(total as int == off as int + g.nodes@.len());
            assert forall|j: int| 0 <= j < ts.len() implies (#[trigger] ts[j]).0 == g.edges@[j].0
                + off && ts[j].1 == g.edges@[j].1 + off && ts[j].0 < n && ts[j].1 < n && ts[j].0
                != ts[j].1 by {
                assert(g.edges@[j].0 < g.nodes@.len() && g.edges@[j].1 < g.nodes@.len()
                    && g.edges@[j].0 != g.edges@[j].1);
            }
            assert forall|j: int| 0 <= j < es.len() implies (#[trigger] es[j]).0 < n && es[j].1 < n
                && es[j].0 != es[j].1 by {
                if j < edges0.len() {
                    assert(es[j] == edges0[j]);
                } else {
                    assert(es[j] == ts[j - edges0.len()]);
                }
            }
            assert forall|k1: int, k2: int| 0 <= k1 < k2 < es.len() implies !same_edge(
                #[trigger] es[k1],
                #[trigger] es[k2],
            ) by {
                if k2 < edges0.len() {
                    assert(es[k1] == edges0[k1] && es[k2] == edges0[k2]);
                } else if k1 >= edges0.len() {
                    let j1 = k1 - edges0.len();
                    let j2 = k2 - edges0.len();
                    assert(es[k1] == ts[j1] && es[k2] == ts[j2]);
                    assert(!same_edge(g.edges@[j1], g.edges@[j2]));
                } else {
                    assert(es[k1] == edges0[k1] && es[k2] == ts[k2 - edges0.len()]);
                    assert(es[k1].0 < off && es[k1].1 < off);
                    assert(es[k2].0 >= off && es[k2].1 >= off);
                }
            }
            assert(base.wf());
        }
        gi = gi + 1;
    }
}

} // verus!
