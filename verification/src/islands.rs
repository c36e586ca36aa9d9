//! Connected components ("islands") of the merged graph.
//!
//! A breadth-first search runs from each not-yet-visited node in index
//! order, so the island list and the order within each island are a pure
//! function of the graph.  Every node lands in exactly one island
//! ([`occ_islands`] is one for every node), and no island is empty.

use crate::graph::UndirGraph;
use vstd::pervasive::VecAdditionalExecFns;
use vstd::prelude::*;

verus! {

/// The neighbors of `u` among the first `k` edges, in edge order.
pub open spec fn spec_edge_nbrs(edges: Seq<(usize, usize)>, u: int, k: int) -> Seq<usize>
    decreases k,
{
    if k <= 0 {
        Seq::empty()
    } else {
        let rest = spec_edge_nbrs(edges, u, k - 1);
        let e = edges[k - 1];
        if e.0 as int == u {
            rest.push(e.1)
        } else if e.1 as int == u {
            rest.push(e.0)
        } else {
            rest
        }
    }
}

/// Collect the neighbors of `u`: the other endpoint of every edge at `u`.
#[verifier::loop_isolation(false)]
pub fn neighbors_of(g: &UndirGraph, u: usize) -> (v: Vec<usize>)
    requires
        g.wf(),
    ensures
        v@ == spec_edge_nbrs(g.edges@, u as int, g.edges@.len() as int),
        forall|t: int| 0 <= t < v@.len() ==> (#[trigger] v@[t]) < g.nodes@.len(),
{
    let mut v: Vec<usize> = Vec::new();
    let mut k: usize = 0;
    while k < g.edges.len()
        invariant
            0 <= k <= g.edges@.len(),
            v@ == spec_edge_nbrs(g.edges@, u as int, k as int),
            forall|t: int| 0 <= t < v@.len() ==> (#[trigger] v@[t]) < g.nodes@.len(),
        decreases g.edges@.len() - k,
    {
        let e = g.edges[k];
        if e.0 == u {
            v.push(e.1);
        } else if e.1 == u {
            v.push(e.0);
        }
        k = k + 1;
    }
    v
}

/// Number of not-yet-visited entries.
pub open spec fn count_unvisited(v: Seq<bool>) -> int
    decreases v.len(),
{
    if v.len() == 0 {
        0
    } else {
        (if v[0] {
            0int
        } else {
            1int
        }) + count_unvisited(v.drop_first())
    }
}

/// The count is never negative.
pub proof fn lemma_count_nonneg(v: Seq<bool>)
    ensures
        count_unvisited(v) >= 0,
    decreases v.len(),
{
    if v.len() > 0 {
        lemma_count_nonneg(v.drop_first());
    }
}

/// Marking an unvisited entry lowers the count by one.
pub proof fn lemma_count_update(v: Seq<bool>, w: int)
    requires
        0 <= w < v.len(),
        !v[w],
    ensures
        count_unvisited(v.update(w, true)) == count_unvisited(v) - 1,
    decreases v.len(),
{
    reveal_with_fuel(count_unvisited, 2);
    if w == 0 {
        assert(v.update(0, true).drop_first() =~= v.drop_first());
    } else {
        assert(v.update(w, true).drop_first() =~= v.drop_first().update(w - 1, true));
        assert(v.update(w, true)[0] == v[0]);
        lemma_count_update(v.drop_first(), w - 1);
    }
}

/// Visited flags and queue after offering the neighbors `nbrs[t..]`: each
/// unvisited neighbor is marked and enqueued.
pub open spec fn spec_enqueue(
    visited: Seq<bool>,
    queue: Seq<usize>,
    nbrs: Seq<usize>,
    t: int,
) -> (Seq<bool>, Seq<usize>)
    decreases nbrs.len() - t,
{
    if t < 0 || t >= nbrs.len() {
        (visited, queue)
    } else {
        let w = nbrs[t];
        if (w as int) < visited.len() && !visited[w as int] {
            spec_enqueue(visited.update(w as int, true), queue.push(w), nbrs, t + 1)
        } else {
            spec_enqueue(visited, queue, nbrs, t + 1)
        }
    }
}

/// Offering neighbors keeps the sum of the unvisited count and the queue
/// length: every enqueued node is marked as it enters.
pub proof fn lemma_enqueue_measure(visited: Seq<bool>, queue: Seq<usize>, nbrs: Seq<usize>, t: int)
    ensures
        ({
            let (v2, q2) = spec_enqueue(visited, queue, nbrs, t);
            count_unvisited(v2) + q2.len() == count_unvisited(visited) + queue.len()
        }),
    decreases nbrs.len() - t,
{
    if 0 <= t < nbrs.len() {
        let w = nbrs[t];
        if (w as int) < visited.len() && !visited[w as int] {
            lemma_count_update(visited, w as int);
            lemma_enqueue_measure(visited.update(w as int, true), queue.push(w), nbrs, t + 1);
        } else {
            lemma_enqueue_measure(visited, queue, nbrs, t + 1);
        }
    }
}

/// Final visited flags and island, from a breadth-first search over the
/// given queue: the head of the queue joins the island and offers its
/// neighbors, until the queue empties.
pub open spec fn spec_bfs(
    edges: Seq<(usize, usize)>,
    visited: Seq<bool>,
    queue: Seq<usize>,
    island: Seq<usize>,
) -> (Seq<bool>, Seq<usize>)
    decreases count_unvisited(visited) + queue.len(), queue.len(),
        via spec_bfs_dec
{
    if queue.len() == 0 {
        (visited, island)
    } else {
        let u = queue[0];
        let nbrs = spec_edge_nbrs(edges, u as int, edges.len() as int);
        let (v2, q2) = spec_enqueue(visited, queue.drop_first(), nbrs, 0);
        spec_bfs(edges, v2, q2, island.push(u))
    }
}

#[via_fn]
proof fn spec_bfs_dec(
    edges: Seq<(usize, usize)>,
    visited: Seq<bool>,
    queue: Seq<usize>,
    island: Seq<usize>,
) {
    lemma_count_nonneg(visited);
    if queue.len() > 0 {
        let u = queue[0];
        let nbrs = spec_edge_nbrs(edges, u as int, edges.len() as int);
        lemma_enqueue_measure(visited, queue.drop_first(), nbrs, 0);
        let (v2, q2) = spec_enqueue(visited, queue.drop_first(), nbrs, 0);
        lemma_count_nonneg(v2);
    }
}

/// Offering neighbors does not change how many flags there are.
pub proof fn lemma_enqueue_len(visited: Seq<bool>, queue: Seq<usize>, nbrs: Seq<usize>, t: int)
    ensures
        spec_enqueue(visited, queue, nbrs, t).0.len() == visited.len(),
    decreases nbrs.len() - t,
{
    if 0 <= t < nbrs.len() {
        let w = nbrs[t];
        if (w as int) < visited.len() && !visited[w as int] {
            lemma_enqueue_len(visited.update(w as int, true), queue.push(w), nbrs, t + 1);
        } else {
            lemma_enqueue_len(visited, queue, nbrs, t + 1);
        }
    }
}

/// A search does not change how many flags there are.
pub proof fn lemma_bfs_len(
    edges: Seq<(usize, usize)>,
    visited: Seq<bool>,
    queue: Seq<usize>,
    island: Seq<usize>,
)
    ensures
        spec_bfs(edges, visited, queue, island).0.len() == visited.len(),
    decreases count_unvisited(visited) + queue.len(), queue.len(),
{
    lemma_count_nonneg(visited);
    if queue.len() > 0 {
        let u = queue[0];
        let nbrs = spec_edge_nbrs(edges, u as int, edges.len() as int);
        let (v2, q2) = spec_enqueue(visited, queue.drop_first(), nbrs, 0);
        lemma_enqueue_measure(visited, queue.drop_first(), nbrs, 0);
        lemma_count_nonneg(v2);
        lemma_enqueue_len(visited, queue.drop_first(), nbrs, 0);
        lemma_bfs_len(edges, v2, q2, island.push(u));
    }
}

/// The island list after searches from every node from `s` up: a new
/// breadth-first search starts at each node that is still unvisited.
pub open spec fn spec_islands_loop(
    edges: Seq<(usize, usize)>,
    visited: Seq<bool>,
    s: int,
    islands: Seq<Seq<usize>>,
) -> Seq<Seq<usize>>
    decreases visited.len() - s,
        via spec_islands_loop_dec
{
    if s < 0 || s >= visited.len() {
        islands
    } else if visited[s] {
        spec_islands_loop(edges, visited, s + 1, islands)
    } else {
        let (v2, isl) = spec_bfs(
            edges,
            visited.update(s, true),
            seq![s as usize],
            Seq::empty(),
        );
        spec_islands_loop(edges, v2, s + 1, islands.push(isl))
    }
}

#[via_fn]
proof fn spec_islands_loop_dec(
    edges: Seq<(usize, usize)>,
    visited: Seq<bool>,
    s: int,
    islands: Seq<Seq<usize>>,
) {
    if 0 <= s < visited.len() && !visited[s] {
        lemma_bfs_len(edges, visited.update(s, true), seq![s as usize], Seq::empty());
    }
}

/// The islands of a graph on `n` nodes: breadth-first components in order
/// of their smallest node.
pub open spec fn spec_islands(edges: Seq<(usize, usize)>, n: int) -> Seq<Seq<usize>> {
    spec_islands_loop(edges, Seq::new(n as nat, |i: int| false), 0, Seq::empty())
}

/// How often `v` occurs in a list of nodes.
pub open spec fn occ_in(s: Seq<usize>, v: int) -> int
    decreases s.len(),
{
    if s.len() == 0 {
        0
    } else {
        (if s[0] as int == v {
            1int
        } else {
            0int
        }) + occ_in(s.drop_first(), v)
    }
}

/// How often `v` occurs across a list of islands.
pub open spec fn occ_islands(islands: Seq<Seq<usize>>, v: int) -> int
    decreases islands.len(),
{
    if islands.len() == 0 {
        0
    } else {
        occ_in(islands[0], v) + occ_islands(islands.drop_first(), v)
    }
}

/// Appending one node raises only its own count, by one.
pub proof fn lemma_occ_push(s: Seq<usize>, x: usize, v: int)
    ensures
        occ_in(s.push(x), v) == occ_in(s, v) + if x as int == v {
            1int
        } else {
            0int
        },
    decreases s.len(),
{
    reveal_with_fuel(occ_in, 3);
    if s.len() == 0 {
        assert(s.push(x)[0] == x);
        assert(s.push(x).drop_first() =~= Seq::<usize>::empty());
    } else {
        assert(s.push(x)[0] == s[0]);
        assert(s.push(x).drop_first() =~= s.drop_first().push(x));
        lemma_occ_push(s.drop_first(), x, v);
    }
}

/// A count of occurrences is never negative.
pub proof fn lemma_occ_nonneg(s: Seq<usize>, v: int)
    ensures
        occ_in(s, v) >= 0,
    decreases s.len(),
{
    if s.len() > 0 {
        lemma_occ_nonneg(s.drop_first(), v);
    }
}

/// A node occurs in a list exactly when its count there is positive.
pub proof fn lemma_contains_occ(s: Seq<usize>, x: usize)
    ensures
        s.contains(x) <==> occ_in(s, x as int) >= 1,
    decreases s.len(),
{
    if s.len() == 0 {
        assert(!s.contains(x));
    } else {
        lemma_contains_occ(s.drop_first(), x);
        lemma_occ_nonneg(s.drop_first(), x as int);
        if s.contains(x) {
            let t = choose|t: int| 0 <= t < s.len() && s[t] == x;
            if t > 0 {
                assert(s.drop_first()[t - 1] == x);
                assert(s.drop_first().contains(x));
            }
        }
        if occ_in(s, x as int) >= 1 {
            if s[0] == x {
                assert(s.contains(x));
            } else {
                let t = choose|t: int| 0 <= t < s.drop_first().len() && s.drop_first()[t] == x;
                assert(s[t + 1] == x);
                assert(s.contains(x));
            }
        }
        if s[0] == x {
            assert(s.contains(x));
        }
    }
}

/// A total count over islands is never negative.
pub proof fn lemma_occ_islands_nonneg(islands: Seq<Seq<usize>>, v: int)
    ensures
        occ_islands(islands, v) >= 0,
    decreases islands.len(),
{
    if islands.len() > 0 {
        lemma_occ_nonneg(islands[0], v);
        lemma_occ_islands_nonneg(islands.drop_first(), v);
    }
}

/// The total count over islands is at least the count in any one of them.
pub proof fn lemma_islands_member_occ(islands: Seq<Seq<usize>>, j: int, v: int)
    requires
        0 <= j < islands.len(),
    ensures
        occ_islands(islands, v) >= occ_in(islands[j], v),
    decreases islands.len(),
{
    lemma_occ_nonneg(islands[0], v);
    if j == 0 {
        lemma_occ_islands_nonneg(islands.drop_first(), v);
    } else {
        lemma_islands_member_occ(islands.drop_first(), j - 1, v);
        assert(islands.drop_first()[j - 1] == islands[j]);
    }
}

/// A node counted somewhere across the islands lies in one of them.
pub proof fn lemma_occ_islands_pos_member(islands: Seq<Seq<usize>>, x: usize)
    requires
        occ_islands(islands, x as int) >= 1,
    ensures
        exists|j: int| 0 <= j < islands.len() && (#[trigger] islands[j]).contains(x),
    decreases islands.len(),
{
    lemma_occ_nonneg(islands[0], x as int);
    lemma_occ_islands_nonneg(islands.drop_first(), x as int);
    if occ_in(islands[0], x as int) >= 1 {
        lemma_contains_occ(islands[0], x);
        assert(islands[0].contains(x));
    } else {
        lemma_occ_islands_pos_member(islands.drop_first(), x);
        let j = choose|j: int|
            0 <= j < islands.drop_first().len() && (#[trigger] islands.drop_first()[j]).contains(
                x,
            );
        assert(islands[j + 1].contains(x));
    }
}

/// Every edge at `u` among the first `k` contributes its far endpoint to
/// the neighbor list.
pub proof fn lemma_edge_nbrs_complete(
    edges: Seq<(usize, usize)>,
    u: int,
    k: int,
    ki: int,
    w: usize,
)
    requires
        0 <= ki < k <= edges.len(),
        (edges[ki].0 as int == u && edges[ki].1 == w) || (edges[ki].1 as int == u && edges[ki].0
            == w),
    ensures
        spec_edge_nbrs(edges, u, k).contains(w),
    decreases k,
{
    let rest = spec_edge_nbrs(edges, u, k - 1);
    if ki == k - 1 {
        assert(spec_edge_nbrs(edges, u, k).last() == w);
    } else {
        lemma_edge_nbrs_complete(edges, u, k - 1, ki, w);
        let t = choose|t: int| 0 <= t < rest.len() && rest[t] == w;
        let e = edges[k - 1];
        if e.0 as int == u || e.1 as int == u {
            assert(spec_edge_nbrs(edges, u, k)[t] == w);
        }
    }
}

/// In a list of nodes that are all node zero, zero occurs once per entry.
pub proof fn lemma_occ_in_all_zero(s: Seq<usize>)
    requires
        forall|t: int| 0 <= t < s.len() ==> (#[trigger] s[t]) < 1,
    ensures
        occ_in(s, 0) == s.len(),
    decreases s.len(),
{
    if s.len() > 0 {
        assert(s[0] == 0);
        assert forall|t: int| 0 <= t < s.drop_first().len() implies (#[trigger] s.drop_first()[t])
            < 1 by {
            assert(s.drop_first()[t] == s[t + 1]);
        }
        lemma_occ_in_all_zero(s.drop_first());
    }
}

/// Nonempty islands over a single node each contribute at least one
/// occurrence of that node.
pub proof fn lemma_occ_islands_lower(islands: Seq<Seq<usize>>)
    requires
        forall|j: int| 0 <= j < islands.len() ==> (#[trigger] islands[j]).len() >= 1,
        forall|j: int, t: int|
            0 <= j < islands.len() && 0 <= t < islands[j].len() ==> #[trigger] (islands[j][t]) < 1,
    ensures
        occ_islands(islands, 0) >= islands.len(),
    decreases islands.len(),
{
    if islands.len() > 0 {
        lemma_occ_in_all_zero(islands[0]);
        assert forall|j: int, t: int|
            0 <= j < islands.drop_first().len() && 0 <= t < islands.drop_first()[j].len() implies #[trigger] (
        islands.drop_first()[j][t]) < 1 by {
            assert(islands.drop_first()[j] == islands[j + 1]);
        }
        assert forall|j: int| 0 <= j < islands.drop_first().len() implies (#[trigger] islands.drop_first()[j]).len()
            >= 1 by {
            assert(islands.drop_first()[j] == islands[j + 1]);
        }
        lemma_occ_islands_lower(islands.drop_first());
    }
}

/// Consecutive entries of a path are joined by edges.
pub open spec fn is_path(edges: Seq<(usize, usize)>, p: Seq<usize>) -> bool {
    forall|i: int|
        0 <= i < p.len() - 1 ==> crate::graph::has_edge(
            edges,
            (#[trigger] p[i]) as int,
            p[i + 1] as int,
        )
}

/// `b` can be reached from `a` along the edges.
pub open spec fn reaches(edges: Seq<(usize, usize)>, a: usize, b: usize) -> bool {
    exists|p: Seq<usize>|
        p.len() >= 1 && p[0] == a && p.last() == b && #[trigger] is_path(edges, p)
}

/// Every entry of the neighbor list really is joined to `u` by an edge.
pub proof fn lemma_edge_nbrs_sound(edges: Seq<(usize, usize)>, u: int, k: int, t: int)
    requires
        0 <= k <= edges.len(),
        0 <= t < spec_edge_nbrs(edges, u, k).len(),
    ensures
        crate::graph::has_edge(edges, u, spec_edge_nbrs(edges, u, k)[t] as int),
    decreases k,
{
    let cur = spec_edge_nbrs(edges, u, k);
    let rest = spec_edge_nbrs(edges, u, k - 1);
    if k > 0 {
        let e = edges[k - 1];
        if (e.0 as int == u || e.1 as int == u) && t == cur.len() - 1 {
            assert(0 <= k - 1 < edges.len() && (edges[k - 1].0 as int == u && edges[k - 1].1 as int
                == cur[t] as int || edges[k - 1].0 as int == cur[t] as int && edges[k - 1].1 as int
                == u));
        } else {
            lemma_edge_nbrs_sound(edges, u, k - 1, t);
            assert(cur[t] == rest[t]);
        }
    }
}

/// Reachability runs backwards too: the reversed path works because edges
/// are unordered.
pub proof fn lemma_reaches_sym(edges: Seq<(usize, usize)>, a: usize, b: usize)
    requires
        reaches(edges, a, b),
    ensures
        reaches(edges, b, a),
{
    let p = choose|p: Seq<usize>|
        p.len() >= 1 && p[0] == a && p.last() == b && #[trigger] is_path(edges, p);
    let q = Seq::new(p.len(), |i: int| p[p.len() - 1 - i]);
    assert forall|i: int| 0 <= i < q.len() - 1 implies crate::graph::has_edge(
        edges,
        (#[trigger] q[i]) as int,
        q[i + 1] as int,
    ) by {
        let j = p.len() - 2 - i;
        assert(q[i] == p[j + 1] && q[i + 1] == p[j]);
        assert(crate::graph::has_edge(edges, p[j] as int, p[j + 1] as int));
        crate::graph::lemma_has_edge_sym(edges, p[j] as int, p[j + 1] as int);
    }
    assert(q.len() >= 1 && q[0] == b && q.last() == a && is_path(edges, q));
}

/// Reachability chains: a path to `b` followed by a path from `b` reaches
/// `c`.
pub proof fn lemma_reaches_trans(edges: Seq<(usize, usize)>, a: usize, b: usize, c: usize)
    requires
        reaches(edges, a, b),
        reaches(edges, b, c),
    ensures
        reaches(edges, a, c),
{
    let p1 = choose|p: Seq<usize>|
        p.len() >= 1 && p[0] == a && p.last() == b && #[trigger] is_path(edges, p);
    let p2 = choose|p: Seq<usize>|
        p.len() >= 1 && p[0] == b && p.last() == c && #[trigger] is_path(edges, p);
    let q = p1 + p2.drop_first();
    assert forall|i: int| 0 <= i < q.len() - 1 implies crate::graph::has_edge(
        edges,
        (#[trigger] q[i]) as int,
        q[i + 1] as int,
    ) by {
        if i < p1.len() - 1 {
            assert(q[i] == p1[i] && q[i + 1] == p1[i + 1]);
        } else if i == p1.len() - 1 {
            if p2.len() >= 2 {
                assert(q[i] == p1.last() && q[i + 1] == p2.drop_first()[0]);
                assert(p2.drop_first()[0] == p2[1]);
                assert(crate::graph::has_edge(edges, p2[0] as int, p2[1] as int));
            }
        } else {
            let j = i - p1.len();
            assert(q[i] == p2[j + 1] && q[i + 1] == p2[j + 2]);
            assert(crate::graph::has_edge(edges, p2[j + 1] as int, p2[j + 2] as int));
        }
    }
    assert(q.len() >= 1 && q[0] == a && q.last() == c && is_path(edges, q));
}

/// One edge is a path.
pub proof fn lemma_reaches_step(edges: Seq<(usize, usize)>, u: usize, w: usize)
    requires
        crate::graph::has_edge(edges, u as int, w as int),
    ensures
        reaches(edges, u, w),
{
    let p = seq![u, w];
    assert forall|i: int| 0 <= i < p.len() - 1 implies crate::graph::has_edge(
        edges,
        (#[trigger] p[i]) as int,
        p[i + 1] as int,
    ) by {
        assert(p[0] == u && p[1] == w);
    }
    assert(p.len() >= 1 && p[0] == u && p.last() == w && is_path(edges, p));
}

/// A node reaches itself.
pub proof fn lemma_reaches_self(edges: Seq<(usize, usize)>, u: usize)
    ensures
        reaches(edges, u, u),
{
    let p = seq![u];
    assert(p.len() >= 1 && p[0] == u && p.last() == u && is_path(edges, p));
}

/// Every island hangs together: each member is reachable from the island's
/// first node.
pub open spec fn islands_rooted(edges: Seq<(usize, usize)>, islands: Seq<Seq<usize>>) -> bool {
    forall|j: int, m: usize|
        0 <= j < islands.len() && #[trigger] islands[j].contains(m) ==> reaches(
            edges,
            islands[j][0],
            m,
        )
}

/// Island law: any two members of one island are mutually reachable along
/// the edges.
pub proof fn lemma_island_mutually_reachable(
    edges: Seq<(usize, usize)>,
    islands: Seq<Seq<usize>>,
    j: int,
    m1: usize,
    m2: usize,
)
    requires
        islands_rooted(edges, islands),
        0 <= j < islands.len(),
        islands[j].contains(m1),
        islands[j].contains(m2),
    ensures
        reaches(edges, m1, m2),
{
    lemma_reaches_sym(edges, islands[j][0], m1);
    lemma_reaches_trans(edges, m1, islands[j][0], m2);
}

/// Every neighbor of an island member is marked visited.
pub open spec fn island_nbrs_marked(
    edges: Seq<(usize, usize)>,
    island: Seq<usize>,
    visited: Seq<bool>,
) -> bool {
    forall|m: usize, w: usize|
        #![trigger island.contains(m), crate::graph::has_edge(edges, m as int, w as int)]
        island.contains(m) && (w as int) < visited.len() && crate::graph::has_edge(
            edges,
            m as int,
            w as int,
        ) ==> visited[w as int]
}

/// Every island is closed under the edges: an edge never leaves an island.
pub open spec fn islands_closed(
    edges: Seq<(usize, usize)>,
    islands: Seq<Seq<usize>>,
    n: int,
) -> bool {
    forall|j: int, m: usize, w: usize|
        #![trigger islands[j].contains(m), crate::graph::has_edge(edges, m as int, w as int)]
        0 <= j < islands.len() && islands[j].contains(m) && (w as int) < n
            && crate::graph::has_edge(edges, m as int, w as int) ==> islands[j].contains(w)
}

/// Breadth-first search from `s`, which must be unvisited: collects the
/// island of `s` in visit order and marks everything it reaches.  Exactly
/// the newly visited nodes make up the island, once each.
#[verifier::loop_isolation(false)]
fn bfs_from(g: &UndirGraph, visited: &mut Vec<bool>, s: usize) -> (island: Vec<usize>)
    requires
        g.wf(),
        old(visited)@.len() == g.nodes@.len(),
        s < g.nodes@.len(),
        !old(visited)@[s as int],
    ensures
        final(visited)@.len() == g.nodes@.len(),
        (final(visited)@, island@) == spec_bfs(
            g.edges@,
            old(visited)@.update(s as int, true),
            seq![s],
            Seq::empty(),
        ),
        island@.len() >= 1,
        forall|t: int| 0 <= t < island@.len() ==> (#[trigger] island@[t]) < g.nodes@.len(),
        forall|v: int|
            0 <= v < g.nodes@.len() ==> occ_in(island@, v) == (if final(visited)@[v] {
                1int
            } else {
                0int
            }) - (if old(visited)@[v] {
                1int
            } else {
                0int
            }),
        forall|v: int| 0 <= v < g.nodes@.len() && old(visited)@[v] ==> final(visited)@[v],
        final(visited)@[s as int],
        island_nbrs_marked(g.edges@, island@, final(visited)@),
        island@[0] == s,
        forall|m: usize| island@.contains(m) ==> reaches(g.edges@, s, m),
{
    let n = g.node_count();
    visited.set(s, true);
    let mut queue: Vec<usize> = Vec::new();
    queue.push(s);
    let mut h: usize = 0;
    let mut island: Vec<usize> = Vec::new();
    let ghost entry_v = visited@;
    proof {
        assert(queue@.subrange(0, 1) =~= seq![s]);
        assert(occ_in(seq![s], s as int) == 1) by {
            reveal_with_fuel(occ_in, 2);
            assert(seq![s].drop_first() =~= Seq::<usize>::empty());
        }
        assert forall|v: int| 0 <= v < n && v != s as int implies occ_in(seq![s], v) == 0 by {
            reveal_with_fuel(occ_in, 2);
            assert(seq![s].drop_first() =~= Seq::<usize>::empty());
        }
        assert(occ_in(Seq::<usize>::empty(), s as int) == 0);
        lemma_reaches_self(g.edges@, s);
        assert(seq![s][0] == s);
    }
    while h < queue.len()
        invariant
            visited@.len() == n,
            0 <= h <= queue@.len(),
            forall|t: int| 0 <= t < queue@.len() ==> (#[trigger] queue@[t]) < n,
            forall|t: int| 0 <= t < island@.len() ==> (#[trigger] island@[t]) < n,
            island@.len() + (queue@.len() - h) >= 1,
            spec_bfs(g.edges@, visited@, queue@.subrange(h as int, queue@.len() as int), island@)
                == spec_bfs(g.edges@, entry_v, seq![s], Seq::empty()),
            forall|v: int|
                0 <= v < n ==> occ_in(island@, v) + occ_in(
                    queue@.subrange(h as int, queue@.len() as int),
                    v,
                ) == (if visited@[v] {
                    1int
                } else {
                    0int
                }) - (if old(visited)@[v] {
                    1int
                } else {
                    0int
                }),
            forall|v: int| 0 <= v < n && entry_v[v] ==> visited@[v],
            island_nbrs_marked(g.edges@, island@, visited@),
            island@.len() >= 1 ==> island@[0] == s,
            island@.len() == 0 ==> h == 0 && queue@[0] == s,
            forall|m: usize|
                #![trigger island@.contains(m)]
                #![trigger queue@.subrange(h as int, queue@.len() as int).contains(m)]
                island@.contains(m) || queue@.subrange(h as int, queue@.len() as int).contains(m)
                    ==> reaches(g.edges@, s, m),
        decreases count_unvisited(visited@) + (queue@.len() - h),
    {
        let ghost vp = visited@;
        let ghost q0 = queue@.subrange(h as int, queue@.len() as int);
        let ghost island0 = island@;
        let u = queue[h];
        h = h + 1;
        let ghost qp = queue@.subrange(h as int, queue@.len() as int);
        proof {
            assert(q0.drop_first() =~= qp);
            assert(q0[0] == u);
            assert forall|v: int| 0 <= v < n implies occ_in(q0, v) == (if u as int == v {
                1int
            } else {
                0int
            }) + occ_in(qp, v) by {}
        }
        proof {
            assert(q0.contains(u));
            assert(reaches(g.edges@, s, u));
        }
        island.push(u);
        proof {
            assert(island@[0] == island0.push(u)[0]);
            assert forall|m: usize| island@.contains(m) implies reaches(g.edges@, s, m) by {
                let ti = choose|ti: int| 0 <= ti < island@.len() && island@[ti] == m;
                if ti < island0.len() {
                    assert(island0[ti] == m);
                    assert(island0.contains(m));
                } else {
                    assert(m == u);
                }
            }
            assert forall|v: int| 0 <= v < n implies occ_in(island@, v) == occ_in(island0, v) + (
            if u as int == v {
                1int
            } else {
                0int
            }) by {
                lemma_occ_push(island0, u, v);
            }
        }
        proof {
            assert forall|m: usize|
                island@.contains(m) || queue@.subrange(
                    h as int,
                    queue@.len() as int,
                ).contains(m) implies reaches(g.edges@, s, m) by {
                if !island@.contains(m) {
                    let ti = choose|ti: int| 0 <= ti < qp.len() && qp[ti] == m;
                    assert(q0[ti + 1] == m);
                    assert(q0.contains(m));
                }
            }
        }
        let nbrs = neighbors_of(g, u);
        let mut t: usize = 0;
        while t < nbrs.len()
            invariant
                0 <= t <= nbrs@.len(),
                visited@.len() == n,
                h <= queue@.len(),
                forall|t2: int| 0 <= t2 < queue@.len() ==> (#[trigger] queue@[t2]) < n,
                spec_enqueue(
                    visited@,
                    queue@.subrange(h as int, queue@.len() as int),
                    nbrs@,
                    t as int,
                ) == spec_enqueue(vp, qp, nbrs@, 0),
                forall|v: int|
                    0 <= v < n ==> occ_in(island@, v) + occ_in(
                        queue@.subrange(h as int, queue@.len() as int),
                        v,
                    ) == (if visited@[v] {
                        1int
                    } else {
                        0int
                    }) - (if old(visited)@[v] {
                        1int
                    } else {
                        0int
                    }),
                forall|v: int| 0 <= v < n && entry_v[v] ==> visited@[v],
                island_nbrs_marked(g.edges@, island0, visited@),
                forall|t2: int| 0 <= t2 < t ==> visited@[(#[trigger] nbrs@[t2]) as int],
                forall|m: usize|
                    #![trigger island@.contains(m)]
                    #![trigger queue@.subrange(h as int, queue@.len() as int).contains(m)]
                    island@.contains(m) || queue@.subrange(
                        h as int,
                        queue@.len() as int,
                    ).contains(m) ==> reaches(g.edges@, s, m),
            decreases nbrs@.len() - t,
        {
            let w = nbrs[t];
            let ghost qv0 = queue@.subrange(h as int, queue@.len() as int);
            proof {
                lemma_edge_nbrs_sound(g.edges@, u as int, g.edges@.len() as int, t as int);
                lemma_reaches_step(g.edges@, u, w);
                lemma_reaches_trans(g.edges@, s, u, w);
            }
            if !visited[w] {
                visited.set(w, true);
                queue.push(w);
                proof {
                    assert(queue@.subrange(h as int, queue@.len() as int) =~= qv0.push(w));
                    assert forall|m: usize|
                        island@.contains(m) || queue@.subrange(
                            h as int,
                            queue@.len() as int,
                        ).contains(m) implies reaches(g.edges@, s, m) by {
                        if !island@.contains(m) {
                            let ti = choose|ti: int|
                                0 <= ti < qv0.push(w).len() && qv0.push(w)[ti] == m;
                            if ti < qv0.len() {
                                assert(qv0[ti] == m);
                                assert(qv0.contains(m));
                            } else {
                                assert(m == w);
                            }
                        }
                    }
                    assert forall|v: int| 0 <= v < n implies occ_in(qv0.push(w), v) == occ_in(
                        qv0,
                        v,
                    ) + (if w as int == v {
                        1int
                    } else {
                        0int
                    }) by {
                        lemma_occ_push(qv0, w, v);
                    }
                }
            }
            t = t + 1;
        }
        proof {
            let (v2, q2) = spec_enqueue(vp, qp, nbrs@, 0);
            assert(visited@ == v2 && queue@.subrange(h as int, queue@.len() as int) == q2);
            assert(spec_bfs(g.edges@, vp, q0, island0) == spec_bfs(
                g.edges@,
                v2,
                q2,
                island0.push(u),
            ));
            lemma_enqueue_measure(vp, qp, nbrs@, 0);
            lemma_count_nonneg(visited@);
            assert forall|m: usize, w: usize|
                island@.contains(m) && (w as int) < visited@.len() && crate::graph::has_edge(
                    g.edges@,
                    m as int,
                    w as int,
                ) implies visited@[w as int] by {
                let ti = choose|ti: int| 0 <= ti < island@.len() && island@[ti] == m;
                if ti < island0.len() {
                    assert(island0[ti] == m);
                    assert(island0.contains(m));
                } else {
                    assert(m == u);
                    let ki = choose|ki: int|
                        0 <= ki < g.edges@.len() && ((#[trigger] g.edges@[ki]).0 == m as int
                            && g.edges@[ki].1 == w as int || g.edges@[ki].0 == w as int
                            && g.edges@[ki].1 == m as int);
                    lemma_edge_nbrs_complete(g.edges@, u as int, g.edges@.len() as int, ki, w);
                    let t2 = choose|t2: int| 0 <= t2 < nbrs@.len() && nbrs@[t2] == w;
                    assert(visited@[nbrs@[t2] as int]);
                }
            }
        }
    }
    proof {
        assert(queue@.subrange(h as int, queue@.len() as int) =~= Seq::<usize>::empty());
        assert forall|v: int| 0 <= v < n implies occ_in(Seq::<usize>::empty(), v) == 0 by {}
        assert(entry_v[s as int]);
        assert forall|v: int| 0 <= v < n && old(visited)@[v] implies visited@[v] by {
            assert(entry_v[v]);
        }
    }
    island
}

/// The views of a list of islands.
pub open spec fn islands_view(islands: Seq<Vec<usize>>) -> Seq<Seq<usize>> {
    islands.map(|i: int, v: Vec<usize>| v@)
}

/// Decompose a graph into its islands: breadth-first searches from every
/// node in index order, each unvisited node opening a new island.  The
/// island list is a pure function of the graph; every node lands in exactly
/// one island, no island is empty, and a graph with no nodes has no islands.
#[verifier::loop_isolation(false)]
pub fn islands_of(g: &UndirGraph) -> (islands: Vec<Vec<usize>>)
    requires
        g.wf(),
    ensures
        islands_view(islands@) == spec_islands(g.edges@, g.nodes@.len() as int),
        forall|j: int| 0 <= j < islands@.len() ==> (#[trigger] islands@[j])@.len() >= 1,
        forall|j: int, t: int|
            0 <= j < islands@.len() && 0 <= t < islands@[j]@.len() ==> #[trigger] (
            islands@[j]@[t]) < g.nodes@.len(),
        forall|v: int|
            0 <= v < g.nodes@.len() ==> occ_islands(islands_view(islands@), v) == 1,
        islands_closed(g.edges@, islands_view(islands@), g.nodes@.len() as int),
        islands_rooted(g.edges@, islands_view(islands@)),
        forall|j: int, t: int|
            0 <= j < islands@.len() && 0 <= t < islands@[j]@.len() ==> islands@[j]@[0] <= #[trigger] (
            islands@[j]@[t]),
        forall|j1: int, j2: int|
            0 <= j1 < j2 < islands@.len() ==> (#[trigger] islands@[j1])@[0] < (
            #[trigger] islands@[j2])@[0],
        g.nodes@.len() == 0 ==> islands@.len() == 0,
{
    let n = g.node_count();
    let mut visited: Vec<bool> = Vec::new();
    let mut t: usize = 0;
    while t < n
        invariant
            0 <= t <= n,
            visited@.len() == t as int,
            forall|v: int| 0 <= v < t ==> !(#[trigger] visited@[v]),
        decreases n - t,
    {
        visited.push(false);
        t = t + 1;
    }
    proof {
        assert(visited@ =~= Seq::new(n as nat, |i: int| false));
    }
    let mut islands: Vec<Vec<usize>> = Vec::new();
    proof {
        assert(islands_view(islands@) =~= Seq::<Seq<usize>>::empty());
    }
    let mut s: usize = 0;
    while s < n
        invariant
            0 <= s <= n,
            visited@.len() == n,
            forall|v: int| 0 <= v < s ==> (#[trigger] visited@[v]),
            forall|j: int| 0 <= j < islands@.len() ==> (#[trigger] islands@[j])@.len() >= 1,
            forall|j: int, t2: int|
                0 <= j < islands@.len() && 0 <= t2 < islands@[j]@.len() ==> #[trigger] (
                islands@[j]@[t2]) < n,
            forall|v: int|
                0 <= v < n ==> occ_islands(islands_view(islands@), v) == (if visited@[v] {
                    1int
                } else {
                    0int
                }),
            spec_islands_loop(g.edges@, visited@, s as int, islands_view(islands@))
                == spec_islands(g.edges@, n as int),
            islands_closed(g.edges@, islands_view(islands@), n as int),
            islands_rooted(g.edges@, islands_view(islands@)),
            forall|j: int, t: int|
                0 <= j < islands@.len() && 0 <= t < islands@[j]@.len() ==> islands@[j]@[0]
                    <= #[trigger] (islands@[j]@[t]),
            forall|j: int| 0 <= j < islands@.len() ==> (#[trigger] islands@[j])@[0] < s,
            forall|j1: int, j2: int|
                0 <= j1 < j2 < islands@.len() ==> (#[trigger] islands@[j1])@[0] < (
                #[trigger] islands@[j2])@[0],
            n == 0 ==> islands@.len() == 0,
        decreases n - s,
    {
        if !visited[s] {
            let ghost visited0 = visited@;
            let ghost iv0 = islands_view(islands@);
            let isl = bfs_from(g, &mut visited, s);
            islands.push(isl);
            proof {
                assert(islands_view(islands@) =~= iv0.push(isl@));
                assert forall|v: int| 0 <= v < n implies occ_islands(iv0.push(isl@), v)
                    == occ_islands(iv0, v) + occ_in(isl@, v) by {
                    lemma_occ_islands_push(iv0, isl@, v);
                }
                assert(spec_islands_loop(g.edges@, visited0, s as int, iv0)
                    == spec_islands_loop(
                    g.edges@,
                    visited@,
                    s as int + 1,
                    islands_view(islands@),
                ));
                assert(isl@[0] == s);
                assert forall|t: int| 0 <= t < isl@.len() implies s <= #[trigger] (isl@[t]) by {
                    let m = isl@[t];
                    assert(isl@.contains(m));
                    lemma_contains_occ(isl@, m);
                    assert(occ_in(isl@, m as int) >= 1);
                    assert(!visited0[m as int]);
                    if (m as int) < s as int {
                        assert(visited0[m as int]);
                    }
                }
                let iv = islands_view(islands@);
                assert forall|j: int, m: usize|
                    0 <= j < iv.len() && #[trigger] iv[j].contains(m) implies reaches(
                    g.edges@,
                    iv[j][0],
                    m,
                ) by {
                    if j < iv0.len() {
                        assert(iv[j] == iv0[j]);
                        assert(iv0[j].contains(m));
                    } else {
                        assert(iv[j] == isl@);
                        assert(isl@.contains(m));
                    }
                }
                assert forall|j: int, m: usize, w: usize|
                    0 <= j < iv.len() && iv[j].contains(m) && (w as int) < n
                        && crate::graph::has_edge(
                        g.edges@,
                        m as int,
                        w as int,
                    ) implies iv[j].contains(w) by {
                    if j < iv0.len() {
                        assert(iv[j] == iv0[j]);
                        assert(iv0[j].contains(m));
                    } else {
                        assert(iv[j] == isl@);
                        assert(isl@.contains(m));
                        let tm = choose|tm: int| 0 <= tm < isl@.len() && isl@[tm] == m;
                        assert(isl@[tm] < n);
                        lemma_contains_occ(isl@, m);
                        assert(occ_in(isl@, m as int) >= 1);
                        assert(!visited0[m as int]);
                        assert(visited@[w as int]);
                        if visited0[w as int] {
                            assert(occ_islands(iv0, w as int) == 1);
                            lemma_occ_islands_pos_member(iv0, w);
                            let j2 = choose|j2: int|
                                0 <= j2 < iv0.len() && (#[trigger] iv0[j2]).contains(w);
                            crate::graph::lemma_has_edge_sym(g.edges@, m as int, w as int);
                            assert(iv0[j2].contains(m));
                            lemma_contains_occ(iv0[j2], m);
                            lemma_islands_member_occ(iv0, j2, m as int);
                            assert(occ_islands(iv0, m as int) >= 1);
                            assert(visited0[m as int]);
                        } else {
                            assert(occ_in(isl@, w as int) == 1);
                            lemma_contains_occ(isl@, w);
                        }
                    }
                }
            }
        }
        s = s + 1;
    }
    proof {
        if n == 0 {
            assert(islands_view(islands@) =~= Seq::<Seq<usize>>::empty());
        }
    }
    islands
}

/// Appending one island adds its counts.
pub proof fn lemma_occ_islands_push(islands: Seq<Seq<usize>>, isl: Seq<usize>, v: int)
    ensures
        occ_islands(islands.push(isl), v) == occ_islands(islands, v) + occ_in(isl, v),
    decreases islands.len(),
{
    reveal_with_fuel(occ_islands, 3);
    if islands.len() == 0 {
        assert(islands.push(isl)[0] == isl);
        assert(islands.push(isl).drop_first() =~= Seq::<Seq<usize>>::empty());
    } else {
        assert(islands.push(isl)[0] == islands[0]);
        assert(islands.push(isl).drop_first() =~= islands.drop_first().push(isl));
        lemma_occ_islands_push(islands.drop_first(), isl, v);
    }
}

} // verus!
