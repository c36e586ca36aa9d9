//! Intra-cluster graph construction.
//!
//! Within each cluster, every point draws a neighbor count by weighted
//! choice (biased toward two), queries its nearest neighbors, and connects
//! to each of them unless that edge already exists.  Each cluster yields a
//! small simple graph over its own points; the per-cluster graphs are then
//! merged into one global graph by [`crate::graph::merge_undirected_graphs`].
//! A node never initiates more edges than the drawn count, which the
//! [`initiated_count`] bound below makes precise.

use crate::cluster::Cluster;
use crate::graph::{edges_wf, has_edge, merge_undirected_graphs, spec_merge, UndirGraph};
use crate::points::all_in_bounds;
use crate::rng::Rng;
use crate::vec3::Vec3;
use vstd::prelude::*;

verus! {

/// The weight of drawing neighbor count `d`: biased toward two neighbors,
/// rarely three, never more.
pub open spec fn spec_weight(d: int) -> int {
    if d == 1 {
        8
    } else if d == 2 {
        10
    } else if d == 3 {
        3
    } else {
        0
    }
}

/// Sum of the weights of the counts `1 ..= m`.
pub open spec fn spec_weight_total(m: int) -> int
    decreases m,
{
    if m <= 0 {
        0
    } else {
        spec_weight_total(m - 1) + spec_weight(m)
    }
}

/// The count a draw lands on: counts are laid side by side, each covering
/// its weight's worth of the draw range.
pub open spec fn spec_pick_weighted(draw: int, d: int, m: int) -> int
    decreases m - d,
{
    if d >= m {
        d
    } else if draw < spec_weight(d) {
        d
    } else {
        spec_pick_weighted(draw - spec_weight(d), d + 1, m)
    }
}

/// State and value of one weighted neighbor-count draw among `1 ..= m`.
pub open spec fn spec_draw_count(rng: Rng, m: int) -> (Rng, int) {
    let (r1, raw) = rng.spec_next();
    (r1, spec_pick_weighted((raw as int) % spec_weight_total(m), 1, m))
}

/// Draw a neighbor count between 1 and `m` by weighted choice.
pub fn draw_neighbor_count(rng: &mut Rng, m: usize) -> (c: usize)
    requires
        1 <= m <= 3,
    ensures
        (*final(rng), c as int) == spec_draw_count(*old(rng), m as int),
        1 <= c <= m,
{
    proof {
        reveal_with_fuel(spec_weight_total, 4);
        reveal_with_fuel(spec_pick_weighted, 4);
    }
    let total: u64 = if m == 1 {
        8
    } else if m == 2 {
        18
    } else {
        21
    };
    proof {
        assert(spec_weight_total(m as int) == total as int);
    }
    let raw = rng.next_u64();
    let draw = raw % total;
    if draw < 8 {
        1
    } else if draw < 18 {
        2
    } else {
        3
    }
}

/// Strict order on cluster points as neighbor candidates for `q`: nearer
/// first, ties to the lower index.
pub open spec fn spec_better(pts: Seq<Vec3>, q: Vec3, a: int, b: int) -> bool {
    let da = pts[a].spec_dist2(q);
    let db = pts[b].spec_dist2(q);
    da < db || (da == db && a < b)
}

/// The best candidate index not yet chosen, scanning from `j` with running
/// answer `best` (`-1` for none yet).
pub open spec fn spec_min_free_loop(
    pts: Seq<Vec3>,
    q: Vec3,
    chosen: Seq<usize>,
    j: int,
    best: int,
) -> int
    decreases pts.len() - j,
{
    if j < 0 || j >= pts.len() {
        best
    } else {
        let take = !chosen.contains(j as usize) && (best < 0 || spec_better(pts, q, j, best));
        spec_min_free_loop(pts, q, chosen, j + 1, if take {
            j
        } else {
            best
        })
    }
}

/// The chosen list after selecting up to `c` more nearest candidates.
pub open spec fn spec_k_nearest_rec(pts: Seq<Vec3>, q: Vec3, chosen: Seq<usize>, c: int) -> Seq<
    usize,
>
    decreases c,
{
    if c <= 0 {
        chosen
    } else {
        let m = spec_min_free_loop(pts, q, chosen, 0, -1);
        if m < 0 {
            chosen
        } else {
            spec_k_nearest_rec(pts, q, chosen.push(m as usize), c - 1)
        }
    }
}

/// The up-to-`c` nearest cluster points to `q`, nearest first, ties to the
/// lower index.
pub open spec fn spec_k_nearest(pts: Seq<Vec3>, q: Vec3, c: int) -> Seq<usize> {
    spec_k_nearest_rec(pts, q, Seq::empty(), c)
}

/// Scan for the best candidate not yet chosen; `usize::MAX` means none left.
#[verifier::loop_isolation(false)]
fn min_free(pts: &Vec<Vec3>, q: &Vec3, chosen: &Vec<usize>) -> (r: usize)
    requires
        all_in_bounds(pts@),
        q.in_bounds(),
        pts@.len() < usize::MAX,
    ensures
        r != usize::MAX ==> r as int == spec_min_free_loop(pts@, *q, chosen@, 0, -1) && r
            < pts@.len() && !chosen@.contains(r),
        r != usize::MAX ==> forall|j: int|
            0 <= j < pts@.len() && !chosen@.contains(j as usize) ==> !spec_better(
                pts@,
                *q,
                j,
                r as int,
            ),
        r == usize::MAX ==> spec_min_free_loop(pts@, *q, chosen@, 0, -1) == -1,
        r == usize::MAX ==> forall|j: int|
            0 <= j < pts@.len() ==> #[trigger] chosen@.contains(j as usize),
{
    let mut best: usize = usize::MAX;
    let mut j: usize = 0;
    while j < pts.len()
        invariant
            0 <= j <= pts@.len(),
            best != usize::MAX ==> best < j && !chosen@.contains(best),
            spec_min_free_loop(pts@, *q, chosen@, j as int, if best == usize::MAX {
                -1int
            } else {
                best as int
            }) == spec_min_free_loop(pts@, *q, chosen@, 0, -1),
            forall|j2: int|
                #![trigger chosen@.contains(j2 as usize)]
                0 <= j2 < j && !chosen@.contains(j2 as usize) ==> best != usize::MAX
                    && !spec_better(pts@, *q, j2, best as int),
        decreases pts@.len() - j,
    {
        let mut is_chosen = false;
        let mut t: usize = 0;
        while t < chosen.len()
            invariant
                0 <= t <= chosen@.len(),
                is_chosen == exists|u: int| 0 <= u < t && chosen@[u] == j,
            decreases chosen@.len() - t,
        {
            if chosen[t] == j {
                is_chosen = true;
            }
            t = t + 1;
        }
        proof {
            assert(is_chosen == chosen@.contains(j));
        }
        let take: bool;
        if is_chosen {
            take = false;
        } else if best == usize::MAX {
            take = true;
        } else {
            let da = pts[j].dist2(q);
            let db = pts[best].dist2(q);
            take = da < db || (da == db && j < best);
        }
        if take {
            proof {
                if best != usize::MAX {
                    assert forall|j2: int|
                        0 <= j2 < j && !chosen@.contains(j2 as usize) implies !spec_better(
                        pts@,
                        *q,
                        j2,
                        j as int,
                    ) by {
                        assert(!spec_better(pts@, *q, j2, best as int));
                        assert(spec_better(pts@, *q, j as int, best as int));
                    }
                }
            }
            best = j;
        }
        j = j + 1;
    }
    best
}

/// The up-to-`c` nearest cluster points to `q`: repeatedly select the best
/// remaining candidate.  The result is exact: its indices are distinct and
/// in range, they come nearest first, no point outside the result is nearer
/// than one inside it, and the result only falls short of `c` when it
/// already holds every point.
#[verifier::loop_isolation(false)]
pub fn k_nearest(pts: &Vec<Vec3>, q: &Vec3, c: usize) -> (r: Vec<usize>)
    requires
        all_in_bounds(pts@),
        q.in_bounds(),
        pts@.len() < usize::MAX,
    ensures
        r@ == spec_k_nearest(pts@, *q, c as int),
        forall|t: int| 0 <= t < r@.len() ==> (#[trigger] r@[t]) < pts@.len(),
        forall|t1: int, t2: int| 0 <= t1 < t2 < r@.len() ==> r@[t1] != r@[t2],
        r@.len() <= c,
        forall|t1: int, t2: int|
            0 <= t1 < t2 < r@.len() ==> !spec_better(pts@, *q, r@[t2] as int, r@[t1] as int),
        forall|t: int, u: int|
            #![trigger spec_better(pts@, *q, u, r@[t] as int)]
            0 <= t < r@.len() && 0 <= u < pts@.len() && !r@.contains(u as usize)
                ==> !spec_better(pts@, *q, u, r@[t] as int),
        r@.len() < c ==> forall|u: int|
            0 <= u < pts@.len() ==> #[trigger] r@.contains(u as usize),
{
    let mut chosen: Vec<usize> = Vec::new();
    let mut round: usize = 0;
    while round < c
        invariant
            0 <= round <= c,
            chosen@.len() == round,
            forall|t: int| 0 <= t < chosen@.len() ==> (#[trigger] chosen@[t]) < pts@.len(),
            forall|t1: int, t2: int|
                0 <= t1 < t2 < chosen@.len() ==> chosen@[t1] != chosen@[t2],
            spec_k_nearest_rec(pts@, *q, chosen@, c - round) == spec_k_nearest(pts@, *q, c as int),
            forall|t1: int, t2: int|
                0 <= t1 < t2 < chosen@.len() ==> !spec_better(
                    pts@,
                    *q,
                    chosen@[t2] as int,
                    chosen@[t1] as int,
                ),
            forall|t: int, u: int|
                #![trigger spec_better(pts@, *q, u, chosen@[t] as int)]
                0 <= t < chosen@.len() && 0 <= u < pts@.len() && !chosen@.contains(u as usize)
                    ==> !spec_better(pts@, *q, u, chosen@[t] as int),
        decreases c - round,
    {
        let m = min_free(pts, q, &chosen);
        if m == usize::MAX {
            proof {
                assert(spec_k_nearest_rec(pts@, *q, chosen@, c - round) == chosen@);
            }
            return chosen;
        }
        proof {
            assert forall|t1: int| 0 <= t1 < chosen@.len() implies chosen@[t1] != m by {
                if chosen@[t1] == m {
                    assert(chosen@.contains(m));
                }
            }
        }
        let ghost chosen0 = chosen@;
        chosen.push(m);
        proof {
            assert forall|u: usize| chosen0.contains(u) implies chosen@.contains(u) by {
                let ti = choose|ti: int| 0 <= ti < chosen0.len() && chosen0[ti] == u;
                assert(chosen@[ti] == u);
            }
            assert forall|t: int, u: int|
                0 <= t < chosen@.len() && 0 <= u < pts@.len() && !chosen@.contains(u as usize)
                    implies !spec_better(pts@, *q, u, chosen@[t] as int) by {
                assert(!chosen0.contains(u as usize));
                if t < chosen0.len() {
                    assert(chosen@[t] == chosen0[t]);
                } else {
                    assert(chosen@[t] == m);
                }
            }
            assert forall|t1: int, t2: int|
                0 <= t1 < t2 < chosen@.len() implies !spec_better(
                pts@,
                *q,
                chosen@[t2] as int,
                chosen@[t1] as int,
            ) by {
                if t2 == chosen@.len() - 1 {
                    assert(chosen@[t2] == m);
                    assert(chosen@[t1] == chosen0[t1]);
                    assert(!chosen0.contains(m));
                }
            }
        }
        round = round + 1;
    }
    chosen
}

/// How many stored edges a node initiated (appears as the first endpoint
/// of).
pub open spec fn initiated_count(edges: Seq<(usize, usize)>, v: int) -> int
    decreases edges.len(),
{
    if edges.len() == 0 {
        0
    } else {
        (if edges[0].0 as int == v {
            1int
        } else {
            0int
        }) + initiated_count(edges.drop_first(), v)
    }
}

/// Initiated counts add up over concatenation.
pub proof fn lemma_initiated_concat(e1: Seq<(usize, usize)>, e2: Seq<(usize, usize)>, v: int)
    ensures
        initiated_count(e1 + e2, v) == initiated_count(e1, v) + initiated_count(e2, v),
    decreases e1.len(),
{
    if e1.len() == 0 {
        assert(e1 + e2 =~= e2);
    } else {
        assert((e1 + e2).drop_first() =~= e1.drop_first() + e2);
        assert((e1 + e2)[0] == e1[0]);
        lemma_initiated_concat(e1.drop_first(), e2, v);
    }
}

/// The edge list after point `i` has offered edges to the neighbor
/// candidates `nbrs[t..]`: an edge is added when the candidate is another
/// node, the drawn count `cap` is not yet used up, and the pair is new.
pub open spec fn spec_add_nbrs(
    edges: Seq<(usize, usize)>,
    i: usize,
    nbrs: Seq<usize>,
    t: int,
    added: int,
    cap: int,
) -> Seq<(usize, usize)>
    decreases nbrs.len() - t,
{
    if t < 0 || t >= nbrs.len() {
        edges
    } else {
        let j = nbrs[t];
        if j != i && added < cap && !has_edge(edges, i as int, j as int) {
            spec_add_nbrs(edges.push((i, j)), i, nbrs, t + 1, added + 1, cap)
        } else {
            spec_add_nbrs(edges, i, nbrs, t + 1, added, cap)
        }
    }
}

/// Let node `i` offer edges to its neighbor candidates, up to `cap` of
/// them.  Only edges initiated by `i` are added, at most `cap`, and the
/// graph stays simple.
#[verifier::loop_isolation(false)]
pub fn connect_point(g: &mut UndirGraph, i: usize, nbrs: &Vec<usize>, cap: usize)
    requires
        old(g).wf(),
        i < old(g).nodes@.len(),
        forall|t: int| 0 <= t < nbrs@.len() ==> (#[trigger] nbrs@[t]) < old(g).nodes@.len(),
    ensures
        final(g).nodes@ == old(g).nodes@,
        final(g).edges@ == spec_add_nbrs(old(g).edges@, i, nbrs@, 0, 0, cap as int),
        final(g).wf(),
        forall|v: int|
            v != i as int ==> initiated_count(final(g).edges@, v) == initiated_count(
                old(g).edges@,
                v,
            ),
        initiated_count(final(g).edges@, i as int) <= initiated_count(old(g).edges@, i as int)
            + cap,
{
    let mut t: usize = 0;
    let mut added: usize = 0;
    while t < nbrs.len()
        invariant
            0 <= t <= nbrs@.len(),
            0 <= added <= cap,
            g.wf(),
            g.nodes@ == old(g).nodes@,
            spec_add_nbrs(g.edges@, i, nbrs@, t as int, added as int, cap as int)
                == spec_add_nbrs(old(g).edges@, i, nbrs@, 0, 0, cap as int),
            forall|v: int|
                v != i as int ==> initiated_count(g.edges@, v) == initiated_count(
                    old(g).edges@,
                    v,
                ),
            initiated_count(g.edges@, i as int) == initiated_count(old(g).edges@, i as int)
                + added,
        decreases nbrs@.len() - t,
    {
        let j = nbrs[t];
        if j != i && added < cap {
            let present = g.contains_edge(i, j);
            if !present {
                let ghost edges0 = g.edges@;
                g.add_edge(i, j);
                proof {
                    assert forall|v: int| true implies initiated_count(g.edges@, v)
                        == initiated_count(edges0, v) + if i as int == v {
                        1int
                    } else {
                        0int
                    } by {
                        lemma_initiated_push(edges0, (i, j), v);
                    }
                }
                added = added + 1;
            }
        }
        t = t + 1;
    }
}

/// The edge list and generator after every point of a cluster, from index
/// `i` on, has drawn a neighbor count and offered its edges.
pub open spec fn spec_cluster_edges(
    cpts: Seq<Vec3>,
    mcap: int,
    rng: Rng,
    i: int,
    edges: Seq<(usize, usize)>,
) -> (Seq<(usize, usize)>, Rng)
    decreases cpts.len() - i,
{
    if i < 0 || i >= cpts.len() {
        (edges, rng)
    } else {
        let (r1, cnt) = spec_draw_count(rng, mcap);
        let nbrs = spec_k_nearest(cpts, cpts[i], cnt + 1);
        let edges2 = spec_add_nbrs(edges, i as usize, nbrs, 0, 0, cnt);
        spec_cluster_edges(cpts, mcap, r1, i + 1, edges2)
    }
}

/// Only in-range nodes initiate edges in a well-formed edge list.
pub proof fn lemma_initiated_out_of_range(edges: Seq<(usize, usize)>, n: int, v: int)
    requires
        edges_wf(edges, n),
        v < 0 || v >= n,
    ensures
        initiated_count(edges, v) == 0,
    decreases edges.len(),
{
    if edges.len() > 0 {
        assert(edges[0].0 < n);
        assert forall|k: int|
            0 <= k < edges.drop_first().len() implies (#[trigger] edges.drop_first()[k]) == edges[
            k + 1] by {}
        assert(edges_wf(edges.drop_first(), n));
        lemma_initiated_out_of_range(edges.drop_first(), n, v);
    }
}

/// Build the graph of one cluster: one node per point, and each point
/// connected to a randomly drawn number of its nearest neighbors.  No node
/// initiates more than `mcap` edges, and the graph is simple.
#[verifier::loop_isolation(false)]
pub fn build_cluster_graph(cpts: &Vec<Vec3>, mcap: usize, rng: &mut Rng) -> (g: UndirGraph)
    requires
        all_in_bounds(cpts@),
        1 <= mcap <= 3,
        cpts@.len() < usize::MAX,
    ensures
        g.nodes@ == cpts@,
        ({
            let (ef, rf) = spec_cluster_edges(cpts@, mcap as int, *old(rng), 0, Seq::empty());
            &&& g.edges@ == ef
            &&& *final(rng) == rf
        }),
        g.wf(),
        forall|v: int| initiated_count(g.edges@, v) <= mcap as int,
{
    let mut g = UndirGraph::new();
    let mut i: usize = 0;
    while i < cpts.len()
        invariant
            0 <= i <= cpts@.len(),
            g.nodes@ == cpts@.subrange(0, i as int),
            g.edges@ == Seq::<(usize, usize)>::empty(),
            g.wf(),
        decreases cpts@.len() - i,
    {
        g.add_node(cpts[i]);
        proof {
            assert(g.nodes@ =~= cpts@.subrange(0, i as int + 1));
        }
        i = i + 1;
    }
    proof {
        assert(cpts@.subrange(0, cpts@.len() as int) =~= cpts@);
        assert forall|v: int| initiated_count(g.edges@, v) == 0 by {}
    }
    let mut i: usize = 0;
    while i < cpts.len()
        invariant
            0 <= i <= cpts@.len(),
            g.nodes@ == cpts@,
            g.wf(),
            spec_cluster_edges(cpts@, mcap as int, *rng, i as int, g.edges@)
                == spec_cluster_edges(cpts@, mcap as int, *old(rng), 0, Seq::empty()),
            forall|v: int| initiated_count(g.edges@, v) <= mcap as int,
            forall|v: int| i as int <= v ==> initiated_count(g.edges@, v) == 0,
        decreases cpts@.len() - i,
    {
        let ghost rng0 = *rng;
        let ghost edges0 = g.edges@;
        let cnt = draw_neighbor_count(rng, mcap);
        let q = cpts[i];
        let nbrs = k_nearest(cpts, &q, cnt + 1);
        connect_point(&mut g, i, &nbrs, cnt);
        i = i + 1;
    }
    g
}

/// The edge lists of the cluster graphs from cluster `c` on, and the
/// generator after building them all.
pub open spec fn spec_graphs_edges(cl: Seq<Seq<Vec3>>, mcap: int, rng: Rng, c: int) -> (
    Seq<Seq<(usize, usize)>>,
    Rng,
)
    decreases cl.len() - c,
{
    if c < 0 || c >= cl.len() {
        (Seq::empty(), rng)
    } else {
        let (e, r1) = spec_cluster_edges(cl[c], mcap, rng, 0, Seq::empty());
        let (rest, rf) = spec_graphs_edges(cl, mcap, r1, c + 1);
        (seq![e] + rest, rf)
    }
}

/// The merged graph, over cluster point lists and edge lists: nodes are the
/// clusters laid end to end, edges are each cluster's edges renumbered by
/// the node count before it.
pub open spec fn spec_merge_views(
    nodes: Seq<Vec3>,
    edges: Seq<(usize, usize)>,
    cl: Seq<Seq<Vec3>>,
    elists: Seq<Seq<(usize, usize)>>,
    i: int,
) -> (Seq<Vec3>, Seq<(usize, usize)>)
    decreases cl.len() - i,
{
    if i < 0 || i >= cl.len() {
        (nodes, edges)
    } else {
        spec_merge_views(
            nodes + cl[i],
            edges + crate::graph::spec_translated_edges(elists[i], nodes.len() as int),
            cl,
            elists,
            i + 1,
        )
    }
}

/// Merging graphs is merging their node and edge lists.
proof fn lemma_merge_correspond(
    nodes: Seq<Vec3>,
    edges: Seq<(usize, usize)>,
    gs: Seq<UndirGraph>,
    cl: Seq<Seq<Vec3>>,
    elists: Seq<Seq<(usize, usize)>>,
    i: int,
)
    requires
        cl.len() == gs.len(),
        elists.len() == gs.len(),
        forall|j: int|
            0 <= j < gs.len() ==> (#[trigger] gs[j]).nodes@ == cl[j] && gs[j].edges@ == elists[j],
    ensures
        spec_merge(nodes, edges, gs, i) == spec_merge_views(nodes, edges, cl, elists, i),
    decreases gs.len() - i,
{
    if 0 <= i < gs.len() {
        lemma_merge_correspond(
            nodes + gs[i].nodes@,
            edges + crate::graph::spec_translated_edges(gs[i].edges@, nodes.len() as int),
            gs,
            cl,
            elists,
            i + 1,
        );
    }
}

/// Total number of points in the cluster lists from `i` on.
pub open spec fn spec_views_total(cl: Seq<Seq<Vec3>>, i: int) -> int
    decreases cl.len() - i,
{
    if i < 0 || i >= cl.len() {
        0
    } else {
        cl[i].len() + spec_views_total(cl, i + 1)
    }
}

/// The point total is never negative.
proof fn lemma_views_total_nonneg(cl: Seq<Seq<Vec3>>, i: int)
    ensures
        spec_views_total(cl, i) >= 0,
    decreases cl.len() - i,
{
    if 0 <= i < cl.len() {
        lemma_views_total_nonneg(cl, i + 1);
    }
}

/// The merged node list lays the clusters end to end.
proof fn lemma_merge_views_len(
    nodes: Seq<Vec3>,
    edges: Seq<(usize, usize)>,
    cl: Seq<Seq<Vec3>>,
    elists: Seq<Seq<(usize, usize)>>,
    i: int,
)
    ensures
        spec_merge_views(nodes, edges, cl, elists, i).0.len() == nodes.len() + spec_views_total(
            cl,
            i,
        ),
    decreases cl.len() - i,
{
    if 0 <= i < cl.len() {
        lemma_merge_views_len(
            nodes + cl[i],
            edges + crate::graph::spec_translated_edges(elists[i], nodes.len() as int),
            cl,
            elists,
            i + 1,
        );
    }
}

/// Renumbering edges upward moves each initiator up by the offset.
proof fn lemma_initiated_translated(e: Seq<(usize, usize)>, off: int, n: int, v: int)
    requires
        edges_wf(e, n),
        0 <= off,
        off + n <= usize::MAX,
    ensures
        initiated_count(crate::graph::spec_translated_edges(e, off), v) == initiated_count(
            e,
            v - off,
        ),
    decreases e.len(),
{
    let t = crate::graph::spec_translated_edges(e, off);
    if e.len() == 0 {
        assert(t =~= Seq::<(usize, usize)>::empty());
    } else {
        assert(t[0] == (((e[0].0 + off) as usize), ((e[0].1 + off) as usize)));
        assert(e[0].0 < n && e[0].1 < n);
        assert(t[0].0 as int == e[0].0 + off);
        assert(t.drop_first() =~= crate::graph::spec_translated_edges(e.drop_first(), off));
        assert(edges_wf(e.drop_first(), n)) by {
            assert(forall|k: int|
                0 <= k < e.drop_first().len() ==> (#[trigger] e.drop_first()[k]) == e[k + 1]);
        }
        lemma_initiated_translated(e.drop_first(), off, n, v);
    }
}

/// Merging keeps every node's initiated-edge count within the per-cluster
/// bound: a node's initiated edges all come from its own cluster's graph.
proof fn lemma_merge_views_initiated(
    nodes: Seq<Vec3>,
    edges: Seq<(usize, usize)>,
    cl: Seq<Seq<Vec3>>,
    elists: Seq<Seq<(usize, usize)>>,
    i: int,
    m: int,
    v: int,
)
    requires
        elists.len() == cl.len(),
        nodes.len() + spec_views_total(cl, i) <= usize::MAX,
        forall|w: int| initiated_count(edges, w) <= m,
        forall|w: int| w >= nodes.len() ==> initiated_count(edges, w) == 0,
        0 <= m,
        forall|j: int|
            i <= j < cl.len() ==> edges_wf(#[trigger] elists[j], cl[j].len() as int),
        forall|j: int, w: int|
            i <= j < cl.len() ==> #[trigger] initiated_count(elists[j], w) <= m,
    ensures
        initiated_count(spec_merge_views(nodes, edges, cl, elists, i).1, v) <= m,
        v >= spec_merge_views(nodes, edges, cl, elists, i).0.len() ==> initiated_count(
            spec_merge_views(nodes, edges, cl, elists, i).1,
            v,
        ) == 0,
    decreases cl.len() - i,
{
    if i < 0 || i >= cl.len() {
        if v >= nodes.len() {
            assert(initiated_count(edges, v) == 0);
        }
    } else {
        let off = nodes.len() as int;
        let t = crate::graph::spec_translated_edges(elists[i], off);
        let nodes2 = nodes + cl[i];
        let edges2 = edges + t;
        assert(spec_views_total(cl, i) == cl[i].len() + spec_views_total(cl, i + 1));
        lemma_views_total_nonneg(cl, i + 1);
        assert forall|w: int| initiated_count(edges2, w) <= m && (w >= nodes2.len()
            ==> initiated_count(edges2, w) == 0) by {
            lemma_initiated_concat(edges, t, w);
            lemma_initiated_translated(elists[i], off, cl[i].len() as int, w);
            if w < off {
                lemma_initiated_out_of_range(elists[i], cl[i].len() as int, w - off);
            } else {
                assert(initiated_count(edges, w) == 0);
                if w >= nodes2.len() {
                    lemma_initiated_out_of_range(elists[i], cl[i].len() as int, w - off);
                }
            }
        }
        lemma_merge_views_initiated(nodes2, edges2, cl, elists, i + 1, m, v);
    }
}

/// Build one small graph per cluster and merge them all, in cluster order,
/// into one global graph with consistent node numbering.  The result is a
/// pure function of the cluster list, the cap and the generator; it is a
/// simple graph whose nodes are the clusters' points laid end to end, and no
/// node initiates more than `min(max_neighbor_count, 3)` edges.
#[verifier::loop_isolation(false)]
pub fn connect_clusters_internally(
    clusters: &Vec<Cluster>,
    max_neighbor_count: usize,
    rng: &mut Rng,
) -> (g: UndirGraph)
    requires
        max_neighbor_count >= 1,
        forall|t: int| 0 <= t < clusters@.len() ==> all_in_bounds((#[trigger] clusters@[t]).0@),
        forall|t: int|
            0 <= t < clusters@.len() ==> (#[trigger] clusters@[t]).0@.len() < usize::MAX,
        crate::cluster::spec_clusters_total(clusters@) <= usize::MAX,
    ensures
        ({
            let cl = clusters@.map(|t: int, c: Cluster| c.0@);
            let mcap = if max_neighbor_count > 3 {
                3int
            } else {
                max_neighbor_count as int
            };
            let (elists, rf) = spec_graphs_edges(cl, mcap, *old(rng), 0);
            &&& *final(rng) == rf
            &&& (g.nodes@, g.edges@) == spec_merge_views(
                Seq::<Vec3>::empty(),
                Seq::<(usize, usize)>::empty(),
                cl,
                elists,
                0,
            )
            &&& forall|v: int| initiated_count(g.edges@, v) <= mcap
        }),
        g.wf(),
        g.nodes@.len() == crate::cluster::spec_clusters_total(clusters@),
{
    let ghost cl = clusters@.map(|t: int, c: Cluster| c.0@);
    let ghost rng0 = *rng;
    let mcap: usize = if max_neighbor_count > 3 {
        3
    } else {
        max_neighbor_count
    };
    let ghost full = spec_graphs_edges(cl, mcap as int, rng0, 0);
    let mut graphs: Vec<UndirGraph> = Vec::new();
    let mut c: usize = 0;
    proof {
        lemma_graphs_edges_len(cl, mcap as int, rng0, 0);
        assert(full.0.subrange(0, cl.len() as int) =~= full.0);
    }
    while c < clusters.len()
        invariant
            0 <= c <= clusters@.len(),
            graphs@.len() == c as int,
            forall|j: int|
                0 <= j < c ==> (#[trigger] graphs@[j]).wf() && graphs@[j].nodes@ == cl[j]
                    && graphs@[j].edges@ == full.0[j],
            forall|j: int, w: int|
                0 <= j < c ==> #[trigger] initiated_count(graphs@[j].edges@, w) <= mcap as int,
            spec_graphs_edges(cl, mcap as int, *rng, c as int).1 == full.1,
            spec_graphs_edges(cl, mcap as int, *rng, c as int).0 == full.0.subrange(
                c as int,
                cl.len() as int,
            ),
        decreases clusters@.len() - c,
    {
        let ghost rng_c = *rng;
        let gc = build_cluster_graph(&clusters[c].0, mcap, rng);
        proof {
            let (e, r1) = spec_cluster_edges(cl[c as int], mcap as int, rng_c, 0, Seq::empty());
            let (rest, rf) = spec_graphs_edges(cl, mcap as int, r1, c as int + 1);
            assert(spec_graphs_edges(cl, mcap as int, rng_c, c as int) == (seq![e] + rest, rf));
            assert((seq![e] + rest)[0] == e);
            assert(full.0[c as int] == e);
            assert((seq![e] + rest).subrange(1, (seq![e] + rest).len() as int) =~= rest);
            assert(rest =~= full.0.subrange(c as int + 1, cl.len() as int));
        }
        graphs.push(gc);
        c = c + 1;
    }
    let mut sg = UndirGraph::new();
    merge_undirected_graphs(&mut sg, &graphs);
    proof {
        lemma_merge_correspond(
            Seq::<Vec3>::empty(),
            Seq::<(usize, usize)>::empty(),
            graphs@,
            cl,
            full.0,
            0,
        );
        lemma_views_total(clusters@, cl, 0);
        assert(clusters@.subrange(0, clusters@.len() as int) =~= clusters@);
        lemma_merge_views_len(Seq::<Vec3>::empty(), Seq::<(usize, usize)>::empty(), cl, full.0, 0);
        assert forall|j: int| 0 <= j < cl.len() implies edges_wf(
            #[trigger] full.0[j],
            cl[j].len() as int,
        ) by {
            assert(graphs@[j].wf());
        }
        assert forall|j: int, w: int| 0 <= j < cl.len() implies #[trigger] initiated_count(
            full.0[j],
            w,
        ) <= mcap as int by {
            assert(initiated_count(graphs@[j].edges@, w) <= mcap as int);
        }
        assert forall|v: int| initiated_count(sg.edges@, v) <= mcap as int by {
            lemma_merge_views_initiated(
                Seq::<Vec3>::empty(),
                Seq::<(usize, usize)>::empty(),
                cl,
                full.0,
                0,
                mcap as int,
                v,
            );
        }
    }
    sg
}

/// The edge-list list has one entry per cluster.
proof fn lemma_graphs_edges_len(cl: Seq<Seq<Vec3>>, mcap: int, rng: Rng, c: int)
    requires
        0 <= c <= cl.len(),
    ensures
        spec_graphs_edges(cl, mcap, rng, c).0.len() == cl.len() - c,
    decreases cl.len() - c,
{
    if c < cl.len() {
        let (e, r1) = spec_cluster_edges(cl[c], mcap, rng, 0, Seq::empty());
        lemma_graphs_edges_len(cl, mcap, r1, c + 1);
    }
}

/// The point total over cluster views matches the total over the clusters.
proof fn lemma_views_total(clusters: Seq<Cluster>, cl: Seq<Seq<Vec3>>, i: int)
    requires
        cl == clusters.map(|t: int, c: Cluster| c.0@),
        0 <= i <= clusters.len(),
    ensures
        spec_views_total(cl, i) == crate::cluster::spec_clusters_total(
            clusters.subrange(i, clusters.len() as int),
        ),
    decreases clusters.len() - i,
{
    let tail = clusters.subrange(i, clusters.len() as int);
    if i < clusters.len() {
        lemma_views_total(clusters, cl, i + 1);
        assert(tail.drop_first() =~= clusters.subrange(i + 1, clusters.len() as int));
        assert(tail[0] == clusters[i]);
        assert(cl[i] == clusters[i].0@);
    } else {
        assert(tail =~= Seq::<Cluster>::empty());
    }
}

/// Appending one edge raises only its initiator's count, by one.
pub proof fn lemma_initiated_push(edges: Seq<(usize, usize)>, e: (usize, usize), v: int)
    ensures
        initiated_count(edges.push(e), v) == initiated_count(edges, v) + if e.0 as int == v {
            1int
        } else {
            0int
        },
    decreases edges.len(),
{
    reveal_with_fuel(initiated_count, 3);
    if edges.len() == 0 {
        assert(edges.push(e)[0] == e);
        assert(edges.push(e).drop_first() =~= Seq::<(usize, usize)>::empty());
    } else {
        assert(edges.push(e)[0] == edges[0]);
        assert(edges.push(e).drop_first() =~= edges.drop_first().push(e));
        lemma_initiated_push(edges.drop_first(), e, v);
    }
}

} // verus!
