//! End-to-end generation tests: determinism, structure, and boundaries.

use musical_constellations::constellation::ConstellationGraph;
use musical_constellations::rng::Rng;

/// The fixed-point representation of the radius 5.0 used by the regression
/// scenarios: 5 * 65536.
const RADIUS_5: i64 = 327680;

fn rng_for_global_seed(global_seed: i64) -> Rng {
    // The 32-byte seed holds the little-endian global seed in its first
    // eight bytes and zeroes elsewhere, so the generator state is the seed
    // value followed by three zero words.
    let mut seed_bytes = [0u8; 32];
    seed_bytes[0..8].copy_from_slice(&global_seed.to_le_bytes());
    let w0 = u64::from_le_bytes(seed_bytes[0..8].try_into().unwrap());
    let w1 = u64::from_le_bytes(seed_bytes[8..16].try_into().unwrap());
    let w2 = u64::from_le_bytes(seed_bytes[16..24].try_into().unwrap());
    let w3 = u64::from_le_bytes(seed_bytes[24..32].try_into().unwrap());
    Rng::from_seed(w0, w1, w2, w3)
}

fn island_size_histogram(c: &ConstellationGraph) -> Vec<usize> {
    let mut sizes: Vec<usize> = c.islands.iter().map(|i| i.len()).collect();
    sizes.sort_unstable();
    sizes
}

#[test]
fn graph_determinism() {
    let mut snapshots = vec![];

    for global_seed in [1_i64, 2, i64::MAX, i64::MIN] {
        let num_points = 30;
        let max_neighbor_count = 2 - 1;

        let mut rng = rng_for_global_seed(global_seed);
        let constellation_graph =
            ConstellationGraph::new(num_points as usize, RADIUS_5, max_neighbor_count, &mut rng);

        let mut rng2 = rng_for_global_seed(global_seed);
        let again =
            ConstellationGraph::new(num_points as usize, RADIUS_5, max_neighbor_count, &mut rng2);

        assert!(constellation_graph.eq(&again));
        assert_eq!(constellation_graph.graph.node_count(), 30);
        snapshots.push(constellation_graph);
    }
    assert_eq!(snapshots.len(), 4);
}

#[test]
fn scenario_thirty_nodes_seed_one() {
    let mut rng = rng_for_global_seed(1);
    let c = ConstellationGraph::new(30, RADIUS_5, 2, &mut rng);

    let mut rng2 = rng_for_global_seed(1);
    let c2 = ConstellationGraph::new(30, RADIUS_5, 2, &mut rng2);

    assert_eq!(c.graph.node_count(), 30);
    assert_eq!(c.graph.node_count(), c2.graph.node_count());
    assert_eq!(c.graph.edge_count(), c2.graph.edge_count());
    assert_eq!(island_size_histogram(&c), island_size_histogram(&c2));
    assert_eq!(c.chord, c2.chord);
    assert_eq!(c.semitone_offset, c2.semitone_offset);
}

#[test]
fn boundary_no_points() {
    let mut rng = rng_for_global_seed(7);
    let c = ConstellationGraph::new(0, RADIUS_5, 2, &mut rng);
    assert_eq!(c.graph.node_count(), 0);
    assert_eq!(c.graph.edge_count(), 0);
    assert_eq!(c.islands.len(), 0);
}

#[test]
fn boundary_single_point() {
    let mut rng = rng_for_global_seed(7);
    let c = ConstellationGraph::new(1, RADIUS_5, 2, &mut rng);
    assert_eq!(c.graph.node_count(), 1);
    assert_eq!(c.graph.edge_count(), 0);
    assert_eq!(c.islands.len(), 1);
    assert_eq!(c.islands[0], vec![0]);
}

#[test]
fn completeness_partition() {
    let mut rng = rng_for_global_seed(2);
    let c = ConstellationGraph::new(45, RADIUS_5, 2, &mut rng);
    assert_eq!(c.graph.node_count(), 45);

    let mut seen = vec![0usize; 45];
    for island in &c.islands {
        assert!(!island.is_empty());
        for &v in island {
            assert!(v < 45);
            seen[v] += 1;
        }
    }
    for v in 0..45 {
        assert_eq!(seen[v], 1, "node {v} must lie in exactly one island");
    }
}

#[test]
fn simplicity_no_loops_no_duplicates() {
    let mut rng = rng_for_global_seed(3);
    let c = ConstellationGraph::new(40, RADIUS_5, 3, &mut rng);
    let edges = &c.graph.edges;
    for &(a, b) in edges.iter() {
        assert_ne!(a, b, "no self loops");
        assert!(a < 40 && b < 40);
    }
    for i in 0..edges.len() {
        for j in (i + 1)..edges.len() {
            let (a1, b1) = edges[i];
            let (a2, b2) = edges[j];
            let same = (a1 == a2 && b1 == b2) || (a1 == b2 && b1 == a2);
            assert!(!same, "each unordered pair appears once");
        }
    }
}

#[test]
fn degree_bound_initiated() {
    let mut rng = rng_for_global_seed(4);
    let max_neighbor_count = 2;
    let c = ConstellationGraph::new(50, RADIUS_5, max_neighbor_count, &mut rng);
    let mut initiated = vec![0usize; 50];
    for &(a, _b) in c.graph.edges.iter() {
        initiated[a] += 1;
    }
    for v in 0..50 {
        assert!(
            initiated[v] <= max_neighbor_count,
            "node {v} initiated more than {max_neighbor_count} edges"
        );
    }
}

#[test]
fn configuration_rejected_before_sampling() {
    let mut rng = rng_for_global_seed(1);
    assert!(ConstellationGraph::try_new(10, 0, 2, &mut rng).is_none());
    assert!(ConstellationGraph::try_new(10, -5, 2, &mut rng).is_none());
    assert!(ConstellationGraph::try_new(10, RADIUS_5, 0, &mut rng).is_none());
    let c = ConstellationGraph::try_new(10, RADIUS_5, 2, &mut rng);
    assert!(c.is_some());
    assert_eq!(c.unwrap().graph.node_count(), 10);
}

#[test]
fn island_edges_stay_inside() {
    // Island membership must agree with the edges: both endpoints of every
    // edge land in the same island.
    let mut rng = rng_for_global_seed(5);
    let c = ConstellationGraph::new(35, RADIUS_5, 2, &mut rng);
    let mut island_of = vec![usize::MAX; 35];
    for (j, island) in c.islands.iter().enumerate() {
        for &v in island {
            island_of[v] = j;
        }
    }
    for &(a, b) in c.graph.edges.iter() {
        assert_eq!(island_of[a], island_of[b]);
    }
}
