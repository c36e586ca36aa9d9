//! The constellation itself: the aggregate of a chord, a semitone offset,
//! the merged graph and its island partition.
//!
//! Generation is a pure function of the request and the generator value,
//! stated by [`spec_constellation`]: the same `(n, radius,
//! max_neighbor_count, seed)` give a bit-identical constellation on every
//! platform and build configuration.  The returned graph always has exactly
//! `n` nodes, is simple, and its islands hold every node exactly once.

use crate::chords::{Chord, CHORD_COUNT};
use crate::cluster::{
    cluster_voronoi, spec_centroids, spec_cluster_upto, spec_identity_pairs, spec_sort_pairs,
    Cluster,
};
use crate::connect::{
    connect_clusters_internally, initiated_count, spec_graphs_edges, spec_merge_views,
};
use crate::graph::{graph_eq, UndirGraph};
use crate::islands::{
    islands_closed, islands_of, islands_rooted, islands_view, occ_in, occ_islands, spec_islands,
};
use crate::points::{generate_points, spec_generate_points_poisson, INITIAL_MAX_ANGLE};
use crate::rng::Rng;
use crate::vec3::{Vec3, CMAX};
use vstd::arithmetic::div_mod::{lemma_div_nonincreasing, lemma_div_plus_one, lemma_div_pos_is_pos};
use vstd::prelude::*;

verus! {

/// A generated constellation: a chord and semitone offset for downstream
/// musical mapping, the merged undirected graph (node positions and edges),
/// and the graph's islands.  Read-only once generated.
#[derive(Debug)]
pub struct ConstellationGraph {
    pub chord: Chord,
    pub semitone_offset: i32,
    pub graph: UndirGraph,
    pub islands: Vec<Vec<usize>>,
}

/// The cluster point lists that clustering produces for the given points,
/// cluster count and generator, in final (sorted) order.
pub open spec fn spec_cluster_views(points: Seq<Vec3>, k: int, rng: Rng) -> Seq<Seq<Vec3>> {
    let cs = spec_centroids(points, rng, k);
    let sorted = spec_sort_pairs(spec_identity_pairs(cs), k);
    Seq::new(k as nat, |t: int| spec_cluster_upto(points, cs, sorted[t].0 as int, points.len() as int))
}

/// The constellation generated for a request, as a pure function of the
/// generator value: the chosen chord, the semitone offset, the graph's node
/// and edge lists, the island partition, and the generator state after
/// generation.
pub open spec fn spec_constellation(n: int, radius: i64, max_neighbor_count: int, rng: Rng) -> (
    Chord,
    int,
    Seq<Vec3>,
    Seq<(usize, usize)>,
    Seq<Seq<usize>>,
    Rng,
) {
    let (r1, chord_rng) = rng.spec_fork();
    let chord = Chord::spec_from_index(chord_rng.spec_next_below(CHORD_COUNT).1 as int);
    let (r2, sdraw) = r1.spec_next_below(23);
    let offset = sdraw as int - 11;
    if n == 0 {
        (chord, offset, Seq::empty(), Seq::empty(), Seq::empty(), r2)
    } else {
        let (pts, r3, relaxed) = spec_generate_points_poisson(
            n,
            radius,
            INITIAL_MAX_ANGLE as int,
            r2,
        );
        let (r4, voronoi_rng) = r3.spec_fork();
        let k = (n + 14) / 15;
        let cl = spec_cluster_views(pts, k, voronoi_rng);
        let mcap = if max_neighbor_count > 3 {
            3int
        } else {
            max_neighbor_count
        };
        let (elists, r5) = spec_graphs_edges(cl, mcap, r4, 0);
        let (nodes, edges) = spec_merge_views(
            Seq::<Vec3>::empty(),
            Seq::<(usize, usize)>::empty(),
            cl,
            elists,
            0,
        );
        (chord, offset, nodes, edges, spec_islands(edges, nodes.len() as int), r5)
    }
}

impl ConstellationGraph {
    /// Generate a constellation: draw the chord and semitone offset, sample
    /// `n` points over the sphere of the given fixed-point radius, cluster
    /// them, connect each cluster internally, merge, and split into islands.
    ///
    /// The result is a pure function of the arguments (see
    /// [`spec_constellation`]); on top of that, the graph has exactly `n`
    /// nodes, it is simple, every node lies in exactly one island, no island
    /// is empty, and no node initiates more than
    /// `min(max_neighbor_count, 3)` edges.
    #[verifier::loop_isolation(false)]
    pub fn new(n: usize, radius: i64, max_neighbor_count: usize, rng: &mut Rng) -> (c:
        ConstellationGraph)
        requires
            0 < radius <= CMAX,
            max_neighbor_count >= 1,
            n < usize::MAX,
        ensures
            ({
                let (chord, offset, nodes, edges, islands, rf) = spec_constellation(
                    n as int,
                    radius,
                    max_neighbor_count as int,
                    *old(rng),
                );
                &&& c.chord == chord
                &&& c.semitone_offset as int == offset
                &&& c.graph.nodes@ == nodes
                &&& c.graph.edges@ == edges
                &&& islands_view(c.islands@) == islands
                &&& *final(rng) == rf
            }),
            c.graph.wf(),
            c.graph.nodes@.len() == n as int,
            forall|j: int| 0 <= j < c.islands@.len() ==> (#[trigger] c.islands@[j])@.len() >= 1,
            forall|j: int, t: int|
                0 <= j < c.islands@.len() && 0 <= t < c.islands@[j]@.len() ==> #[trigger] (
                c.islands@[j]@[t]) < n,
            forall|v: int|
                0 <= v < n ==> occ_islands(islands_view(c.islands@), v) == 1,
            islands_closed(c.graph.edges@, islands_view(c.islands@), n as int),
            islands_rooted(c.graph.edges@, islands_view(c.islands@)),
            forall|j1: int, j2: int|
                0 <= j1 < j2 < c.islands@.len() ==> (#[trigger] c.islands@[j1])@[0] < (
                #[trigger] c.islands@[j2])@[0],
            forall|v: int|
                initiated_count(c.graph.edges@, v) <= (if max_neighbor_count > 3 {
                    3int
                } else {
                    max_neighbor_count as int
                }),
            n == 0 ==> c.graph.edges@.len() == 0 && c.islands@.len() == 0,
            -11 <= c.semitone_offset < 12,
    {
        let mut chord_rng = rng.fork();
        let chord = Chord::from_index(chord_rng.next_below(CHORD_COUNT));
        let sdraw = rng.next_below(23);
        let semitone_offset: i32 = sdraw as i32 - 11;
        if n == 0 {
            let graph = UndirGraph::new();
            let islands: Vec<Vec<usize>> = Vec::new();
            proof {
                assert(islands_view(islands@) =~= Seq::<Seq<usize>>::empty());
            }
            return ConstellationGraph { chord, semitone_offset, graph, islands };
        }
        let (points, _relaxed) = generate_points(n, radius, rng);
        let voronoi_rng = rng.fork();
        proof {
            lemma_div_plus_one(n as int - 1, 15);
            lemma_div_pos_is_pos(n as int - 1, 15);
            lemma_div_nonincreasing(n as int - 1, 15);
        }
        let k = (n - 1) / 15 + 1;
        proof {
            assert(k as int == (n as int + 14) / 15);
            assert(1 <= k <= n as int);
        }
        let ghost pts_v = points@;
        let clusters = cluster_voronoi(points, k, voronoi_rng);
        proof {
            let cl = spec_cluster_views(pts_v, k as int, voronoi_rng);
            assert(clusters@.map(|t: int, cc: Cluster| cc.0@) =~= cl);
            assert forall|t: int| 0 <= t < clusters@.len() implies (#[trigger] clusters@[t]).0@.len()
                < usize::MAX by {
                crate::cluster::lemma_cluster_upto_len(
                    pts_v,
                    spec_centroids(pts_v, voronoi_rng, k as int),
                    spec_sort_pairs(
                        spec_identity_pairs(spec_centroids(pts_v, voronoi_rng, k as int)),
                        k as int,
                    )[t].0 as int,
                    pts_v.len() as int,
                );
            }
        }
        let graph = connect_clusters_internally(&clusters, max_neighbor_count, rng);
        let islands = islands_of(&graph);
        ConstellationGraph { chord, semitone_offset, graph, islands }
    }

    /// Generate a constellation after checking the request: an invalid
    /// configuration (a non-positive or oversized radius, a neighbor bound
    /// of zero, an unrepresentable point count) is rejected before any
    /// sampling begins, and the generator is left untouched.
    pub fn try_new(n: usize, radius: i64, max_neighbor_count: usize, rng: &mut Rng) -> (r: Option<
        ConstellationGraph,
    >)
        ensures
            r is Some <==> 0 < radius <= CMAX && max_neighbor_count >= 1 && n < usize::MAX,
            r is None ==> *final(rng) == *old(rng),
            r is Some ==> matches_generation(
                r->0,
                n as int,
                radius,
                max_neighbor_count as int,
                *old(rng),
            ) && r->0.graph.wf() && r->0.graph.nodes@.len() == n as int,
    {
        if radius <= 0 || radius > CMAX || max_neighbor_count < 1 || n == usize::MAX {
            return None;
        }
        Some(ConstellationGraph::new(n, radius, max_neighbor_count, rng))
    }

    /// Whether two constellations are identical: same chord, same offset,
    /// same node and edge lists in the same order, and the same islands.
    pub fn eq(&self, other: &ConstellationGraph) -> (r: bool)
        ensures
            r == (self.chord == other.chord && self.semitone_offset == other.semitone_offset
                && self.graph.nodes@ == other.graph.nodes@ && self.graph.edges@
                == other.graph.edges@ && islands_view(self.islands@) == islands_view(
                other.islands@,
            )),
    {
        let chord_eq = self.chord == other.chord;
        if !chord_eq || self.semitone_offset != other.semitone_offset {
            return false;
        }
        if !graph_eq(&self.graph, &other.graph) {
            return false;
        }
        islands_eq(&self.islands, &other.islands)
    }
}

/// Whether a constellation is the one that [`spec_constellation`] assigns
/// to a request and a generator value.
pub open spec fn matches_generation(
    c: ConstellationGraph,
    n: int,
    radius: i64,
    max_neighbor_count: int,
    rng: Rng,
) -> bool {
    let (chord, offset, nodes, edges, islands, rf) = spec_constellation(
        n,
        radius,
        max_neighbor_count,
        rng,
    );
    &&& c.chord == chord
    &&& c.semitone_offset as int == offset
    &&& c.graph.nodes@ == nodes
    &&& c.graph.edges@ == edges
    &&& islands_view(c.islands@) == islands
}

/// Determinism law: generation is a pure function of the request and the
/// seed, so two independent runs over the same request and the same
/// generator state produce structurally identical constellations — the same
/// chord, the same offset, the same node and edge lists, and the same
/// island partition.
pub proof fn lemma_generation_deterministic(
    c1: ConstellationGraph,
    c2: ConstellationGraph,
    n: int,
    radius: i64,
    max_neighbor_count: int,
    rng: Rng,
)
    requires
        matches_generation(c1, n, radius, max_neighbor_count, rng),
        matches_generation(c2, n, radius, max_neighbor_count, rng),
    ensures
        c1.chord == c2.chord,
        c1.semitone_offset == c2.semitone_offset,
        c1.graph.nodes@ == c2.graph.nodes@,
        c1.graph.edges@ == c2.graph.edges@,
        islands_view(c1.islands@) == islands_view(c2.islands@),
{
}

/// Boundary law: a constellation over a single node has that node, no
/// edges, and one island holding exactly that node.
pub proof fn lemma_single_node_single_island(c: ConstellationGraph)
    requires
        c.graph.wf(),
        c.graph.nodes@.len() == 1,
        forall|j: int|
            0 <= j < islands_view(c.islands@).len() ==> (#[trigger] islands_view(c.islands@)[j]).len()
                >= 1,
        forall|j: int, t: int|
            0 <= j < islands_view(c.islands@).len() && 0 <= t < islands_view(c.islands@)[j].len()
                ==> #[trigger] (islands_view(c.islands@)[j][t]) < 1,
        occ_islands(islands_view(c.islands@), 0) == 1,
    ensures
        c.graph.edges@.len() == 0,
        islands_view(c.islands@).len() == 1,
        islands_view(c.islands@)[0] =~= seq![0usize],
{
    let iv = islands_view(c.islands@);
    if c.graph.edges@.len() > 0 {
        assert(c.graph.edges@[0].0 < 1 && c.graph.edges@[0].1 < 1 && c.graph.edges@[0].0
            != c.graph.edges@[0].1);
    }
    crate::islands::lemma_occ_islands_lower(iv);
    assert(iv.len() >= 1) by {
        if iv.len() == 0 {
            assert(occ_islands(iv, 0) == 0);
        }
    }
    crate::islands::lemma_occ_in_all_zero(iv[0]);
    assert(occ_islands(iv, 0) == occ_in(iv[0], 0) + occ_islands(iv.drop_first(), 0));
    assert(iv.drop_first().len() == 0);
    assert(occ_islands(iv.drop_first(), 0) == 0);
    assert(iv[0].len() == 1);
    assert(iv[0][0] == 0);
}

/// Whether two island lists are identical, island by island and node by
/// node.
#[verifier::loop_isolation(false)]
pub fn islands_eq(a: &Vec<Vec<usize>>, b: &Vec<Vec<usize>>) -> (r: bool)
    ensures
        r == (islands_view(a@) == islands_view(b@)),
{
    if a.len() != b.len() {
        proof {
            assert(islands_view(a@).len() != islands_view(b@).len());
        }
        return false;
    }
    let mut j: usize = 0;
    while j < a.len()
        invariant
            0 <= j <= a@.len(),
            a@.len() == b@.len(),
            forall|u: int| 0 <= u < j ==> (#[trigger] a@[u])@ == b@[u]@,
        decreases a@.len() - j,
    {
        let ia = &a[j];
        let ib = &b[j];
        if ia.len() != ib.len() {
            proof {
                assert(islands_view(a@)[j as int] != islands_view(b@)[j as int]);
                assert(islands_view(a@) != islands_view(b@));
            }
            return false;
        }
        let mut t: usize = 0;
        while t < ia.len()
            invariant
                0 <= t <= ia@.len(),
                ia@.len() == ib@.len(),
                ia == &a[j as int],
                ib == &b[j as int],
                j < a@.len(),
                a@.len() == b@.len(),
                forall|u: int| 0 <= u < t ==> ia@[u] == ib@[u],
            decreases ia@.len() - t,
        {
            if ia[t] != ib[t] {
                proof {
                    assert(a@[j as int]@[t as int] != b@[j as int]@[t as int]);
                    assert(islands_view(a@)[j as int] != islands_view(b@)[j as int]);
                    assert(islands_view(a@) != islands_view(b@));
                }
                return false;
            }
            t = t + 1;
        }
        proof {
            assert(a@[j as int]@ =~= b@[j as int]@);
        }
        j = j + 1;
    }
    proof {
        assert(islands_view(a@) =~= islands_view(b@));
    }
    true
}

} // verus!
