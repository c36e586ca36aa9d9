//! Nearest-centroid clustering of the sampled points.
//!
//! A fixed number of points is chosen at random (without replacement) as
//! cluster centroids; every point then joins the cluster of its nearest
//! centroid, ties going to the lowest centroid index; finally the clusters
//! are ordered by descending centroid height with a stable insertion sort,
//! so downstream consumers see them in a deterministic, visually meaningful
//! order.  Every function is a pure function of its arguments, and the
//! cluster point lists together hold each input point exactly once.

use crate::points::all_in_bounds;
use crate::rng::Rng;
use crate::vec3::Vec3;
use vstd::pervasive::VecAdditionalExecFns;
use vstd::prelude::*;

verus! {

/// A cluster: its member points, in input order, and its centroid.
pub type Cluster = (Vec<Vec3>, Vec3);

/// Index of the nearest centroid among the first `j` centroids, scanning
/// left to right with `best` as the running answer: ties keep the earlier
/// index.
pub open spec fn spec_nearest_loop(cs: Seq<Vec3>, p: Vec3, j: int, best: int) -> int
    decreases cs.len() - j,
{
    if j < 0 || j >= cs.len() {
        best
    } else {
        let better = cs[j].spec_dist2(p) < cs[best].spec_dist2(p);
        spec_nearest_loop(cs, p, j + 1, if better {
            j
        } else {
            best
        })
    }
}

/// Index of the nearest centroid to `p`: the lowest index attaining the
/// minimum squared distance.
pub open spec fn spec_nearest(cs: Seq<Vec3>, p: Vec3) -> int {
    spec_nearest_loop(cs, p, 1, 0)
}

/// Find the nearest centroid to `p`: the minimum squared chord distance,
/// ties to the lowest index.
#[verifier::loop_isolation(false)]
pub fn nearest_centroid(cs: &Vec<Vec3>, p: &Vec3) -> (r: usize)
    requires
        cs@.len() >= 1,
        all_in_bounds(cs@),
        p.in_bounds(),
    ensures
        r as int == spec_nearest(cs@, *p),
        r < cs@.len(),
        forall|j: int|
            0 <= j < cs@.len() ==> (#[trigger] cs@[j].spec_dist2(*p)) >= cs@[r as int].spec_dist2(
                *p,
            ),
{
    let mut best: usize = 0;
    let mut bestd = cs[0].dist2(p);
    let mut j: usize = 1;
    while j < cs.len()
        invariant
            1 <= j <= cs@.len(),
            best < j,
            bestd as int == cs@[best as int].spec_dist2(*p),
            spec_nearest_loop(cs@, *p, j as int, best as int) == spec_nearest(cs@, *p),
            forall|i: int|
                0 <= i < j ==> (#[trigger] cs@[i].spec_dist2(*p)) >= cs@[best as int].spec_dist2(
                    *p,
                ),
        decreases cs@.len() - j,
    {
        let d = cs[j].dist2(p);
        if d < bestd {
            best = j;
            bestd = d;
        }
        j = j + 1;
    }
    best
}

/// The index sequence after the partial shuffle that picks `k` leaders:
/// position `i` is swapped with a random position in `[i, n)`, for
/// `i` in `[0, k)`.
pub open spec fn spec_partial_shuffle(idx: Seq<usize>, rng: Rng, i: int, k: int) -> (
    Seq<usize>,
    Rng,
)
    decreases k - i,
{
    if i < 0 || i >= k || i >= idx.len() {
        (idx, rng)
    } else {
        let (r1, d) = rng.spec_next_below((idx.len() - i) as u64);
        let j = i + d as int;
        let swapped = idx.update(i, idx[j]).update(j, idx[i]);
        spec_partial_shuffle(swapped, r1, i + 1, k)
    }
}

/// Choose `k` distinct centroid positions from `pts`, by a seeded partial
/// shuffle of the index range.
#[verifier::loop_isolation(false)]
pub fn choose_centroids(pts: &Vec<Vec3>, k: usize, rng: &mut Rng) -> (cs: Vec<Vec3>)
    requires
        1 <= k <= pts@.len(),
        all_in_bounds(pts@),
    ensures
        ({
            let (idxf, rf) = spec_partial_shuffle(
                Seq::new(pts@.len(), |i: int| i as usize),
                *old(rng),
                0,
                k as int,
            );
            &&& *final(rng) == rf
            &&& cs@.len() == k as int
            &&& forall|i: int|
                0 <= i < k ==> idxf[i] < pts@.len() && (#[trigger] cs@[i]) == pts@[idxf[i] as int]
        }),
        all_in_bounds(cs@),
{
    let n = pts.len();
    let mut idx: Vec<usize> = Vec::new();
    let mut t: usize = 0;
    while t < n
        invariant
            0 <= t <= n,
            idx@.len() == t as int,
            forall|i: int| 0 <= i < t ==> (#[trigger] idx@[i]) == i as usize,
        decreases n - t,
    {
        idx.push(t);
        t = t + 1;
    }
    proof {
        assert(idx@ =~= Seq::new(pts@.len(), |i: int| i as usize));
    }
    let ghost idx0 = idx@;
    let ghost rng0 = *rng;
    let mut i: usize = 0;
    while i < k
        invariant
            0 <= i <= k,
            idx@.len() == n as int,
            forall|t2: int| 0 <= t2 < n ==> (#[trigger] idx@[t2]) < n,
            spec_partial_shuffle(idx@, *rng, i as int, k as int) == spec_partial_shuffle(
                idx0,
                rng0,
                0,
                k as int,
            ),
        decreases k - i,
    {
        let ghost idx_pre = idx@;
        let ghost rng_pre = *rng;
        let d = rng.next_below((n - i) as u64);
        let j = i + d as usize;
        let vi = idx[i];
        let vj = idx[j];
        idx.set(i, vj);
        idx.set(j, vi);
        proof {
            assert(idx@ =~= idx_pre.update(i as int, idx_pre[j as int]).update(
                j as int,
                idx_pre[i as int],
            ));
            assert(spec_partial_shuffle(idx_pre, rng_pre, i as int, k as int)
                == spec_partial_shuffle(idx@, *rng, i as int + 1, k as int));
        }
        i = i + 1;
    }
    let mut cs: Vec<Vec3> = Vec::new();
    let mut c: usize = 0;
    while c < k
        invariant
            0 <= c <= k,
            cs@.len() == c as int,
            forall|t2: int| 0 <= t2 < n ==> (#[trigger] idx@[t2]) < n,
            forall|i2: int|
                0 <= i2 < c ==> idx@[i2] < pts@.len() && (#[trigger] cs@[i2]) == pts@[idx@[i2] as int],
        decreases k - c,
    {
        cs.push(pts[idx[c]]);
        c = c + 1;
    }
    cs
}

/// The members of cluster `ci` among the first `i` points: those whose
/// nearest centroid is `ci`, in input order.
pub open spec fn spec_cluster_upto(pts: Seq<Vec3>, cs: Seq<Vec3>, ci: int, i: int) -> Seq<Vec3>
    decreases i,
{
    if i <= 0 {
        Seq::empty()
    } else {
        let rest = spec_cluster_upto(pts, cs, ci, i - 1);
        if spec_nearest(cs, pts[i - 1]) == ci {
            rest.push(pts[i - 1])
        } else {
            rest
        }
    }
}

/// A cluster never holds more members than points considered.
pub proof fn lemma_cluster_upto_len(pts: Seq<Vec3>, cs: Seq<Vec3>, ci: int, i: int)
    requires
        i >= 0,
    ensures
        spec_cluster_upto(pts, cs, ci, i).len() <= i,
    decreases i,
{
    if i > 0 {
        lemma_cluster_upto_len(pts, cs, ci, i - 1);
    }
}

/// The nearest-centroid scan stays within the centroid range.
pub proof fn lemma_nearest_loop_range(cs: Seq<Vec3>, p: Vec3, j: int, best: int)
    requires
        0 <= best < cs.len(),
    ensures
        0 <= spec_nearest_loop(cs, p, j, best) < cs.len(),
    decreases cs.len() - j,
{
    if 0 <= j < cs.len() {
        let better = cs[j].spec_dist2(p) < cs[best].spec_dist2(p);
        lemma_nearest_loop_range(cs, p, j + 1, if better {
            j
        } else {
            best
        });
    }
}

/// Sum over the first `m` clusters of the number of members among the first
/// `i` points.
pub open spec fn spec_cluster_sizes_sum(pts: Seq<Vec3>, cs: Seq<Vec3>, m: int, i: int) -> int
    decreases m,
{
    if m <= 0 {
        0
    } else {
        spec_cluster_sizes_sum(pts, cs, m - 1, i) + spec_cluster_upto(pts, cs, m - 1, i).len()
    }
}

/// Taking one more point into account grows exactly the cluster it is
/// assigned to, so the size sum over the first `m` clusters grows by one
/// exactly when the assignment falls below `m`.
proof fn lemma_sizes_sum_step(pts: Seq<Vec3>, cs: Seq<Vec3>, m: int, i: int)
    requires
        i >= 1,
    ensures
        spec_cluster_sizes_sum(pts, cs, m, i) == spec_cluster_sizes_sum(pts, cs, m, i - 1) + if 0
            <= spec_nearest(cs, pts[i - 1]) < m {
            1int
        } else {
            0int
        },
    decreases m,
{
    if m > 0 {
        lemma_sizes_sum_step(pts, cs, m - 1, i);
    }
}

/// With no points taken into account yet, every cluster is empty.
proof fn lemma_sizes_sum_zero(pts: Seq<Vec3>, cs: Seq<Vec3>, m: int)
    ensures
        spec_cluster_sizes_sum(pts, cs, m, 0) == 0,
    decreases m,
{
    if m > 0 {
        lemma_sizes_sum_zero(pts, cs, m - 1);
    }
}

/// Together, the clusters hold each of the first `i` points exactly once.
pub proof fn lemma_clusters_partition(pts: Seq<Vec3>, cs: Seq<Vec3>, i: int)
    requires
        cs.len() >= 1,
        0 <= i <= pts.len(),
    ensures
        spec_cluster_sizes_sum(pts, cs, cs.len() as int, i) == i,
    decreases i,
{
    if i > 0 {
        lemma_clusters_partition(pts, cs, i - 1);
        lemma_nearest_loop_range(cs, pts[i - 1], 1, 0);
        lemma_sizes_sum_step(pts, cs, cs.len() as int, i);
    } else {
        lemma_sizes_sum_zero(pts, cs, cs.len() as int);
    }
}

/// Insertion of a numbered centroid into a list ordered by descending
/// centroid height: the new entry goes before the first strictly lower
/// entry, so entries of equal height keep their relative order.
pub open spec fn spec_pair_insert(s: Seq<(usize, Vec3)>, c: (usize, Vec3)) -> Seq<(usize, Vec3)>
    decreases s.len(),
{
    if s.len() == 0 {
        seq![c]
    } else if c.1.y > s[0].1.y {
        seq![c] + s
    } else {
        seq![s[0]] + spec_pair_insert(s.drop_first(), c)
    }
}

/// The first `i` numbered centroids, insertion-sorted by descending height.
pub open spec fn spec_sort_pairs(s: Seq<(usize, Vec3)>, i: int) -> Seq<(usize, Vec3)>
    decreases i,
{
    if i <= 0 {
        Seq::empty()
    } else {
        spec_pair_insert(spec_sort_pairs(s, i - 1), s[i - 1])
    }
}

/// Where the insertion lands: before the first strictly lower entry.
proof fn lemma_pair_insert_at(s: Seq<(usize, Vec3)>, c: (usize, Vec3), p: int)
    requires
        0 <= p <= s.len(),
        forall|j: int| 0 <= j < p ==> !(c.1.y > (#[trigger] s[j]).1.y),
        p < s.len() ==> c.1.y > s[p].1.y,
    ensures
        spec_pair_insert(s, c) =~= s.subrange(0, p) + seq![c] + s.subrange(p, s.len() as int),
    decreases p,
{
    if p == 0 {
        if s.len() == 0 {
            assert(spec_pair_insert(s, c) =~= seq![c]);
        }
    } else {
        lemma_pair_insert_at(s.drop_first(), c, p - 1);
    }
}

/// Insert a numbered centroid into a list ordered by descending height.
#[verifier::loop_isolation(false)]
fn pair_insert(dst: &mut Vec<(usize, Vec3)>, c: (usize, Vec3))
    ensures
        final(dst)@ == spec_pair_insert(old(dst)@, c),
{
    let mut p: usize = 0;
    while p < dst.len() && !(c.1.y > dst[p].1.y)
        invariant
            0 <= p <= dst@.len(),
            forall|j: int| 0 <= j < p ==> !(c.1.y > (#[trigger] dst@[j]).1.y),
        decreases dst@.len() - p,
    {
        p = p + 1;
    }
    proof {
        lemma_pair_insert_at(dst@, c, p as int);
    }
    dst.insert(p, c);
    proof {
        assert(final(dst)@ =~= old(dst)@.subrange(0, p as int) + seq![c] + old(dst)@.subrange(
            p as int,
            old(dst)@.len() as int,
        ));
    }
}

/// Sort numbered centroids by descending height, stably.
#[verifier::loop_isolation(false)]
fn sort_pairs(v: &Vec<(usize, Vec3)>) -> (out: Vec<(usize, Vec3)>)
    ensures
        out@ == spec_sort_pairs(v@, v@.len() as int),
{
    let mut out: Vec<(usize, Vec3)> = Vec::new();
    let mut i: usize = 0;
    while i < v.len()
        invariant
            0 <= i <= v@.len(),
            out@ == spec_sort_pairs(v@, i as int),
        decreases v@.len() - i,
    {
        pair_insert(&mut out, v[i]);
        i = i + 1;
    }
    out
}

/// The numbered centroids come tallest first.
pub open spec fn pairs_sorted_desc(s: Seq<(usize, Vec3)>) -> bool {
    forall|t1: int, t2: int| 0 <= t1 < t2 < s.len() ==> (#[trigger] s[t1]).1.y >= (#[trigger] s[t2]).1.y
}

/// Whatever insertion produces is either the new entry or one of the old.
proof fn lemma_pair_insert_elems(s: Seq<(usize, Vec3)>, c: (usize, Vec3), t: int)
    requires
        0 <= t < spec_pair_insert(s, c).len(),
    ensures
        spec_pair_insert(s, c)[t] == c || s.contains(spec_pair_insert(s, c)[t]),
    decreases s.len(),
{
    let out = spec_pair_insert(s, c);
    if s.len() == 0 {
    } else if c.1.y > s[0].1.y {
        if t > 0 {
            assert(out[t] == s[t - 1]);
            assert(s.contains(s[t - 1]));
        }
    } else {
        if t == 0 {
            assert(out[0] == s[0]);
            assert(s.contains(s[0]));
        } else {
            lemma_pair_insert_elems(s.drop_first(), c, t - 1);
            assert(out[t] == spec_pair_insert(s.drop_first(), c)[t - 1]);
            if spec_pair_insert(s.drop_first(), c)[t - 1] != c {
                let u = choose|u: int|
                    0 <= u < s.drop_first().len() && s.drop_first()[u] == out[t];
                assert(s[u + 1] == out[t]);
                assert(s.contains(out[t]));
            }
        }
    }
}

/// Inserting into a tallest-first list keeps it tallest first.
proof fn lemma_pair_insert_sorted(s: Seq<(usize, Vec3)>, c: (usize, Vec3))
    requires
        pairs_sorted_desc(s),
    ensures
        pairs_sorted_desc(spec_pair_insert(s, c)),
    decreases s.len(),
{
    let out = spec_pair_insert(s, c);
    if s.len() == 0 {
    } else if c.1.y > s[0].1.y {
        assert forall|t1: int, t2: int| 0 <= t1 < t2 < out.len() implies (#[trigger] out[t1]).1.y
            >= (#[trigger] out[t2]).1.y by {
            if t1 > 0 {
                assert(out[t1] == s[t1 - 1] && out[t2] == s[t2 - 1]);
            } else {
                assert(out[t2] == s[t2 - 1]);
                assert(s[0].1.y >= s[t2 - 1].1.y);
            }
        }
    } else {
        assert forall|t1: int, t2: int|
            0 <= t1 < t2 < s.drop_first().len() implies (#[trigger] s.drop_first()[t1]).1.y >= (
        #[trigger] s.drop_first()[t2]).1.y by {
            assert(s.drop_first()[t1] == s[t1 + 1] && s.drop_first()[t2] == s[t2 + 1]);
        }
        lemma_pair_insert_sorted(s.drop_first(), c);
        let rest = spec_pair_insert(s.drop_first(), c);
        assert forall|t1: int, t2: int| 0 <= t1 < t2 < out.len() implies (#[trigger] out[t1]).1.y
            >= (#[trigger] out[t2]).1.y by {
            if t1 == 0 {
                assert(out[t2] == rest[t2 - 1]);
                lemma_pair_insert_elems(s.drop_first(), c, t2 - 1);
                if rest[t2 - 1] == c {
                } else {
                    let u = choose|u: int|
                        0 <= u < s.drop_first().len() && s.drop_first()[u] == rest[t2 - 1];
                    assert(s[u + 1] == rest[t2 - 1]);
                }
            } else {
                assert(out[t1] == rest[t1 - 1] && out[t2] == rest[t2 - 1]);
            }
        }
    }
}

/// The insertion sort leaves the numbered centroids tallest first.
pub proof fn lemma_sort_pairs_sorted(s: Seq<(usize, Vec3)>, i: int)
    ensures
        pairs_sorted_desc(spec_sort_pairs(s, i)),
    decreases i,
{
    if i > 0 {
        lemma_sort_pairs_sorted(s, i - 1);
        lemma_pair_insert_sorted(spec_sort_pairs(s, i - 1), s[i - 1]);
    }
}

/// Sum of the cluster sizes named by a list of numbered centroids.
pub open spec fn spec_pairs_sizes_sum(
    ps: Seq<(usize, Vec3)>,
    pts: Seq<Vec3>,
    cs: Seq<Vec3>,
) -> int
    decreases ps.len(),
{
    if ps.len() == 0 {
        0
    } else {
        spec_cluster_upto(pts, cs, ps[0].0 as int, pts.len() as int).len()
            + spec_pairs_sizes_sum(ps.drop_first(), pts, cs)
    }
}

/// Inserting a numbered centroid adds exactly its cluster's size to the sum.
proof fn lemma_pairs_sum_insert(
    s: Seq<(usize, Vec3)>,
    c: (usize, Vec3),
    pts: Seq<Vec3>,
    cs: Seq<Vec3>,
)
    ensures
        spec_pairs_sizes_sum(spec_pair_insert(s, c), pts, cs) == spec_pairs_sizes_sum(s, pts, cs)
            + spec_cluster_upto(pts, cs, c.0 as int, pts.len() as int).len(),
    decreases s.len(),
{
    if s.len() == 0 {
        assert(spec_pair_insert(s, c) =~= seq![c]);
        assert(spec_pairs_sizes_sum(seq![c], pts, cs) == spec_cluster_upto(
            pts,
            cs,
            c.0 as int,
            pts.len() as int,
        ).len() + spec_pairs_sizes_sum(seq![c].drop_first(), pts, cs));
        assert(seq![c].drop_first() =~= Seq::<(usize, Vec3)>::empty());
    } else if c.1.y > s[0].1.y {
        let t = seq![c] + s;
        assert(t.drop_first() =~= s);
    } else {
        lemma_pairs_sum_insert(s.drop_first(), c, pts, cs);
        let t = seq![s[0]] + spec_pair_insert(s.drop_first(), c);
        assert(t.drop_first() =~= spec_pair_insert(s.drop_first(), c));
    }
}

/// The insertion sort keeps the size sum.
proof fn lemma_pairs_sum_sorted(s: Seq<(usize, Vec3)>, i: int, pts: Seq<Vec3>, cs: Seq<Vec3>)
    requires
        0 <= i <= s.len(),
    ensures
        spec_pairs_sizes_sum(spec_sort_pairs(s, i), pts, cs) == spec_pairs_sizes_sum(
            s.subrange(0, i),
            pts,
            cs,
        ),
    decreases i,
{
    if i > 0 {
        lemma_pairs_sum_sorted(s, i - 1, pts, cs);
        lemma_pairs_sum_insert(spec_sort_pairs(s, i - 1), s[i - 1], pts, cs);
        lemma_pairs_sum_snoc(s.subrange(0, i), pts, cs);
        assert(s.subrange(0, i).drop_last() =~= s.subrange(0, i - 1));
    }
}

/// The size sum of a list equals the size sum of all but its last entry
/// plus the last entry's size.
proof fn lemma_pairs_sum_snoc(s: Seq<(usize, Vec3)>, pts: Seq<Vec3>, cs: Seq<Vec3>)
    requires
        s.len() >= 1,
    ensures
        spec_pairs_sizes_sum(s, pts, cs) == spec_pairs_sizes_sum(s.drop_last(), pts, cs)
            + spec_cluster_upto(pts, cs, s.last().0 as int, pts.len() as int).len(),
    decreases s.len(),
{
    if s.len() == 1 {
        assert(s.drop_first() =~= Seq::<(usize, Vec3)>::empty());
        assert(s.drop_last() =~= Seq::<(usize, Vec3)>::empty());
    } else {
        lemma_pairs_sum_snoc(s.drop_first(), pts, cs);
        assert(s.drop_first().drop_last() =~= s.drop_last().drop_first());
        assert(s.drop_first().last() == s.last());
        assert(s.drop_last()[0] == s[0]);
    }
}

/// The identity numbering pairs each centroid with its own index, so its
/// size sum is the sum over all clusters.
proof fn lemma_pairs_sum_identity(ps: Seq<(usize, Vec3)>, pts: Seq<Vec3>, cs: Seq<Vec3>, m: int)
    requires
        0 <= m <= ps.len(),
        ps.len() <= usize::MAX,
        forall|t: int| 0 <= t < ps.len() ==> (#[trigger] ps[t]).0 == t as usize,
    ensures
        spec_pairs_sizes_sum(ps.subrange(ps.len() - m, ps.len() as int), pts, cs)
            == spec_cluster_sizes_sum(pts, cs, ps.len() as int, pts.len() as int)
            - spec_cluster_sizes_sum(pts, cs, ps.len() - m, pts.len() as int),
    decreases m,
{
    let tail = ps.subrange(ps.len() - m, ps.len() as int);
    if m == 0 {
        assert(tail =~= Seq::<(usize, Vec3)>::empty());
    } else {
        lemma_pairs_sum_identity(ps, pts, cs, m - 1);
        assert(tail.drop_first() =~= ps.subrange(ps.len() - (m - 1), ps.len() as int));
        assert(tail[0] == ps[ps.len() - m]);
        assert(tail[0].0 as int == ps.len() - m);
        assert(spec_cluster_sizes_sum(pts, cs, ps.len() - m + 1, pts.len() as int)
            == spec_cluster_sizes_sum(pts, cs, ps.len() - m, pts.len() as int)
            + spec_cluster_upto(pts, cs, ps.len() - m, pts.len() as int).len());
    }
}

/// Collect the members of cluster `ci`: the points whose nearest centroid is
/// `ci`, in input order.
#[verifier::loop_isolation(false)]
fn collect_cluster(pts: &Vec<Vec3>, cs: &Vec<Vec3>, ci: usize) -> (v: Vec<Vec3>)
    requires
        cs@.len() >= 1,
        all_in_bounds(pts@),
        all_in_bounds(cs@),
    ensures
        v@ == spec_cluster_upto(pts@, cs@, ci as int, pts@.len() as int),
        all_in_bounds(v@),
{
    let mut v: Vec<Vec3> = Vec::new();
    let mut i: usize = 0;
    while i < pts.len()
        invariant
            0 <= i <= pts@.len(),
            v@ == spec_cluster_upto(pts@, cs@, ci as int, i as int),
            all_in_bounds(v@),
        decreases pts@.len() - i,
    {
        let p = pts[i];
        let near = nearest_centroid(cs, &p);
        if near == ci {
            v.push(p);
        }
        proof {
            assert(forall|j: int|
                0 <= j < v@.len() ==> (#[trigger] v@[j]).in_bounds());
        }
        i = i + 1;
    }
    v
}

/// The centroid positions the shuffle picks: the first `k` entries of the
/// shuffled index range, read through the point list.
pub open spec fn spec_centroids(pts: Seq<Vec3>, rng: Rng, k: int) -> Seq<Vec3> {
    let (idxf, rf) = spec_partial_shuffle(Seq::new(pts.len(), |i: int| i as usize), rng, 0, k);
    Seq::new(k as nat, |i: int| pts[idxf[i] as int])
}

/// Each centroid paired with its own cluster number, in pick order.
pub open spec fn spec_identity_pairs(cs: Seq<Vec3>) -> Seq<(usize, Vec3)> {
    Seq::new(cs.len(), |i: int| (i as usize, cs[i]))
}

/// Total number of points held by a list of clusters.
pub open spec fn spec_clusters_total(cls: Seq<Cluster>) -> int
    decreases cls.len(),
{
    if cls.len() == 0 {
        0
    } else {
        cls[0].0@.len() + spec_clusters_total(cls.drop_first())
    }
}

/// Appending a cluster adds its size to the total.
pub proof fn lemma_clusters_total_push(cls: Seq<Cluster>, c: Cluster)
    ensures
        spec_clusters_total(cls.push(c)) == spec_clusters_total(cls) + c.0@.len(),
    decreases cls.len(),
{
    reveal_with_fuel(spec_clusters_total, 3);
    if cls.len() == 0 {
        assert(cls.push(c)[0] == c);
        assert(cls.push(c).drop_first() =~= Seq::<Cluster>::empty());
    } else {
        assert(cls.push(c)[0] == cls[0]);
        assert(cls.push(c).drop_first() =~= cls.drop_first().push(c));
        lemma_clusters_total_push(cls.drop_first(), c);
    }
}

/// Inserting adds one entry.
proof fn lemma_pair_insert_len(s: Seq<(usize, Vec3)>, c: (usize, Vec3))
    ensures
        spec_pair_insert(s, c).len() == s.len() + 1,
    decreases s.len(),
{
    if s.len() != 0 && !(c.1.y > s[0].1.y) {
        lemma_pair_insert_len(s.drop_first(), c);
    }
}

/// The insertion sort of the first `i` entries has `i` entries.
proof fn lemma_sort_pairs_len(s: Seq<(usize, Vec3)>, i: int)
    requires
        0 <= i <= s.len(),
    ensures
        spec_sort_pairs(s, i).len() == i,
    decreases i,
{
    if i > 0 {
        lemma_sort_pairs_len(s, i - 1);
        lemma_pair_insert_len(spec_sort_pairs(s, i - 1), s[i - 1]);
    }
}

/// Cluster the points: pick `k` centroids with the seeded generator, assign
/// every point to its nearest centroid, and order the clusters by descending
/// centroid height (stable).  The result is a pure function of the
/// arguments; the cluster point lists are a partition of the input, so their
/// sizes add up to the number of points.
#[verifier::loop_isolation(false)]
pub fn cluster_voronoi(points: Vec<Vec3>, k: usize, rng: Rng) -> (cls: Vec<Cluster>)
    requires
        1 <= k <= points@.len(),
        all_in_bounds(points@),
    ensures
        ({
            let cs = spec_centroids(points@, rng, k as int);
            let sorted = spec_sort_pairs(spec_identity_pairs(cs), k as int);
            &&& cls@.len() == k as int
            &&& forall|t: int|
                0 <= t < k ==> (#[trigger] cls@[t]).1 == sorted[t].1 && cls@[t].0@
                    == spec_cluster_upto(
                    points@,
                    cs,
                    sorted[t].0 as int,
                    points@.len() as int,
                )
        }),
        spec_clusters_total(cls@) == points@.len(),
        forall|t: int| 0 <= t < cls@.len() ==> all_in_bounds((#[trigger] cls@[t]).0@),
        forall|t1: int, t2: int|
            0 <= t1 < t2 < cls@.len() ==> (#[trigger] cls@[t1]).1.y >= (#[trigger] cls@[t2]).1.y,
{
    let mut r = rng;
    let cs = choose_centroids(&points, k, &mut r);
    proof {
        assert(cs@ =~= spec_centroids(points@, rng, k as int));
    }
    let mut pairs: Vec<(usize, Vec3)> = Vec::new();
    let mut i: usize = 0;
    while i < k
        invariant
            0 <= i <= k,
            cs@.len() == k as int,
            pairs@.len() == i as int,
            forall|t: int| 0 <= t < i ==> (#[trigger] pairs@[t]) == (t as usize, cs@[t]),
        decreases k - i,
    {
        pairs.push((i, cs[i]));
        i = i + 1;
    }
    proof {
        assert(pairs@ =~= spec_identity_pairs(cs@));
    }
    let sorted = sort_pairs(&pairs);
    proof {
        lemma_sort_pairs_len(pairs@, k as int);
        assert(sorted@.subrange(0, 0) =~= Seq::<(usize, Vec3)>::empty());
    }
    let mut cls: Vec<Cluster> = Vec::new();
    let mut t: usize = 0;
    while t < k
        invariant
            0 <= t <= k,
            sorted@.len() == k as int,
            cls@.len() == t as int,
            forall|u: int|
                0 <= u < t ==> (#[trigger] cls@[u]).1 == sorted@[u].1 && cls@[u].0@
                    == spec_cluster_upto(
                    points@,
                    cs@,
                    sorted@[u].0 as int,
                    points@.len() as int,
                ),
            forall|u: int| 0 <= u < cls@.len() ==> all_in_bounds((#[trigger] cls@[u]).0@),
            spec_clusters_total(cls@) == spec_pairs_sizes_sum(
                sorted@.subrange(0, t as int),
                points@,
                cs@,
            ),
        decreases k - t,
    {
        let ghost cls0 = cls@;
        let e = sorted[t];
        let cl = collect_cluster(&points, &cs, e.0);
        cls.push((cl, e.1));
        proof {
            lemma_clusters_total_push(cls0, (cl, e.1));
            lemma_pairs_sum_snoc(sorted@.subrange(0, t as int + 1), points@, cs@);
            assert(sorted@.subrange(0, t as int + 1).drop_last() =~= sorted@.subrange(0, t as int));
            assert(sorted@.subrange(0, t as int + 1).last() == sorted@[t as int]);
        }
        t = t + 1;
    }
    proof {
        assert(sorted@.subrange(0, k as int) =~= sorted@);
        lemma_sort_pairs_sorted(spec_identity_pairs(cs@), k as int);
        lemma_pairs_sum_sorted(spec_identity_pairs(cs@), k as int, points@, cs@);
        assert(spec_identity_pairs(cs@).subrange(0, k as int) =~= spec_identity_pairs(cs@));
        lemma_pairs_sum_identity(spec_identity_pairs(cs@), points@, cs@, k as int);
        assert(spec_identity_pairs(cs@).subrange(0, k as int) =~= spec_identity_pairs(cs@).subrange(
            spec_identity_pairs(cs@).len() - k as int,
            spec_identity_pairs(cs@).len() as int,
        ));
        lemma_clusters_partition(points@, cs@, points@.len() as int);
    }
    cls
}

} // verus!
