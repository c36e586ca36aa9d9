//! Unit tests for the chord table, flags, ticks, seed text handling, the
//! fixed-point helpers, the graph primitives and the point sampler.

use musical_constellations::chords::Chord;
use musical_constellations::fixed::{cos_fp, isqrt, sin_fp, FP, HALF_PI_FP, PI_FP};
use musical_constellations::flags::Flag;
use musical_constellations::graph::{graph_eq, merge_undirected_graphs, UndirGraph};
use musical_constellations::points::{
    generate_points_poisson, min_dist_for, INITIAL_MAX_ANGLE,
};
use musical_constellations::rng::Rng;
use musical_constellations::seed::{format_seed_hex, parse_hexseed, SeedParseError};
use musical_constellations::tick::Tick;
use musical_constellations::util::{format_as_pointer, remove_trailing_newline, Ms};
use musical_constellations::vec3::Vec3;

#[test]
fn chord_intervals_exact() {
    assert_eq!(Chord::Cmaj.as_intervals(), vec![0, 4, 7]);
    assert_eq!(Chord::Cmin.as_intervals(), vec![0, 3, 7]);
    assert_eq!(Chord::Chalfdim7.as_intervals(), vec![0, 3, 6, 10]);
    assert_eq!(Chord::C13.as_intervals(), vec![0, 4, 7, 10, 14, 17, 21]);
}

#[test]
fn chord_from_index_covers_all() {
    assert_eq!(Chord::from_index(0), Chord::Cmaj);
    assert_eq!(Chord::from_index(12), Chord::C13);
}

#[test]
fn flag_set_get_toggle() {
    let mut f = Flag::new(false);
    assert!(!f.get());
    f.set(true);
    assert!(f.get());
    assert!(!f.toggle());
    assert!(!f.get());
    assert!(f.toggle());
    assert!(f.get());
}

#[test]
fn tick_advance_rolls_over() {
    let t = Tick::first(4, 4);
    let mut cur = t;
    for _ in 0..3 {
        cur = cur.advance();
    }
    assert_eq!((cur.tick, cur.beat, cur.bar, cur.total_ticks), (3, 0, 0, 3));
    cur = cur.advance();
    assert_eq!((cur.tick, cur.beat, cur.bar, cur.total_ticks), (0, 1, 0, 4));
    for _ in 0..12 {
        cur = cur.advance();
    }
    assert_eq!((cur.tick, cur.beat, cur.bar, cur.total_ticks), (0, 0, 1, 16));
}

#[test]
fn parse_hexseed_accepts_hex() {
    assert_eq!(parse_hexseed("ff"), Ok(255));
    assert_eq!(parse_hexseed("+FF"), Ok(255));
    assert_eq!(parse_hexseed("DEADBEEF"), Ok(0xDEADBEEF));
    assert_eq!(parse_hexseed("FFFFFFFFFFFFFFFF"), Ok(u64::MAX));
    assert_eq!(parse_hexseed("00000000000000000001"), Ok(1));
}

#[test]
fn parse_hexseed_rejects_bad_input() {
    assert_eq!(parse_hexseed(""), Err(SeedParseError::Empty));
    assert_eq!(parse_hexseed("+"), Err(SeedParseError::Empty));
    assert_eq!(parse_hexseed("xyz"), Err(SeedParseError::InvalidDigit));
    assert_eq!(parse_hexseed("-1"), Err(SeedParseError::InvalidDigit));
    assert_eq!(parse_hexseed("10000000000000000"), Err(SeedParseError::Overflow));
}

#[test]
fn format_seed_hex_matches_std_formatting() {
    for seed in [0i64, 1, -1, 0xDEADBEEF, i64::MAX, i64::MIN, 12345678] {
        assert_eq!(format_seed_hex(seed), format!("{:016X}", seed));
    }
}

#[test]
fn seed_hex_round_trip() {
    for seed in [0u64, 1, 255, 0xDEADBEEF, u64::MAX] {
        let text = format_seed_hex(seed as i64);
        assert_eq!(parse_hexseed(&text), Ok(seed));
    }
}

#[test]
fn ms_display() {
    assert_eq!(Ms(0).display_string(), "0.000ms");
    assert_eq!(Ms(1_234_567).display_string(), "1.234ms");
    assert_eq!(Ms(999_999_999).display_string(), "999.999ms");
    assert_eq!(Ms(1_000_000).display_string(), "1.000ms");
}

#[test]
fn remove_trailing_newline_cases() {
    assert_eq!(remove_trailing_newline("abc\n"), "abc");
    assert_eq!(remove_trailing_newline("abc"), "abc");
    assert_eq!(remove_trailing_newline(""), "");
    assert_eq!(remove_trailing_newline("a\n\n"), "a\n");
}

#[test]
fn format_as_pointer_is_hexish() {
    let x = 5u32;
    let s = format_as_pointer(&x);
    assert!(s.starts_with("0x"));
}

#[test]
fn fixed_point_sine_landmarks() {
    assert_eq!(sin_fp(0), 0);
    let quarter = sin_fp(HALF_PI_FP);
    assert!((quarter - FP).abs() <= FP / 64, "sine of a quarter turn is near one");
    assert!(sin_fp(PI_FP) <= 2, "sine of a half turn is near zero");
    assert!(sin_fp(PI_FP + HALF_PI_FP) < -FP / 2, "sine is negative past the half turn");
    assert!(cos_fp(0) > FP - FP / 64);
}

#[test]
fn isqrt_exact_values() {
    assert_eq!(isqrt(0), 0);
    assert_eq!(isqrt(15), 3);
    assert_eq!(isqrt(16), 4);
    assert_eq!(isqrt(1_000_000_000_000), 1_000_000);
}

#[test]
fn graph_primitives() {
    let mut g = UndirGraph::new();
    let a = g.add_node(Vec3 { x: 0, y: 0, z: 0 });
    let b = g.add_node(Vec3 { x: 1, y: 2, z: 3 });
    let c = g.add_node(Vec3 { x: 4, y: 5, z: 6 });
    assert_eq!((a, b, c), (0, 1, 2));
    assert!(!g.contains_edge(a, b));
    g.add_edge(a, b);
    assert!(g.contains_edge(a, b));
    assert!(g.contains_edge(b, a));
    assert!(!g.contains_edge(a, c));
    assert_eq!(g.node_count(), 3);
    assert_eq!(g.edge_count(), 1);
}

#[test]
fn merge_renumbers_edges() {
    let mut base = UndirGraph::new();
    base.add_node(Vec3 { x: 9, y: 9, z: 9 });

    let mut g1 = UndirGraph::new();
    g1.add_node(Vec3 { x: 0, y: 0, z: 0 });
    g1.add_node(Vec3 { x: 1, y: 1, z: 1 });
    g1.add_edge(0, 1);

    let mut g2 = UndirGraph::new();
    g2.add_node(Vec3 { x: 2, y: 2, z: 2 });
    g2.add_node(Vec3 { x: 3, y: 3, z: 3 });
    g2.add_edge(1, 0);

    let others = vec![g1, g2];
    merge_undirected_graphs(&mut base, &others);
    assert_eq!(base.node_count(), 5);
    assert_eq!(base.edges, vec![(1, 2), (4, 3)]);
}

#[test]
fn graph_eq_detects_differences() {
    let mut g1 = UndirGraph::new();
    g1.add_node(Vec3 { x: 0, y: 0, z: 0 });
    let mut g2 = UndirGraph::new();
    g2.add_node(Vec3 { x: 0, y: 0, z: 0 });
    assert!(graph_eq(&g1, &g2));
    g2.add_node(Vec3 { x: 1, y: 0, z: 0 });
    assert!(!graph_eq(&g1, &g2));
}

#[test]
fn rng_next_below_in_range_and_deterministic() {
    let mut a = Rng::from_seed(1, 2, 3, 4);
    let mut b = Rng::from_seed(1, 2, 3, 4);
    for bound in [1u64, 2, 13, 23, 1000] {
        let x = a.next_below(bound);
        assert!(x < bound);
        assert_eq!(x, b.next_below(bound));
    }
    let fa = a.fork();
    let fb = b.fork();
    assert_eq!((fa.s0, fa.s1, fa.s2, fa.s3), (fb.s0, fb.s1, fb.s2, fb.s3));
}

#[test]
fn sampler_separation_until_relaxed() {
    let radius: i64 = 327680;
    let mut rng = Rng::from_seed(11, 0, 0, 0);
    let (points, relaxed) = generate_points_poisson(25, radius, INITIAL_MAX_ANGLE, &mut rng);
    assert_eq!(points.len(), 25);
    if !relaxed {
        let floor = min_dist_for(radius, INITIAL_MAX_ANGLE / 2);
        let floor2 = (floor as i128) * (floor as i128);
        for i in 0..points.len() {
            for j in (i + 1)..points.len() {
                assert!(points[i].dist2(&points[j]) >= floor2);
            }
        }
    }
}

#[test]
fn sampler_counts_match_request() {
    let radius: i64 = 327680;
    let mut rng = Rng::from_seed(9, 9, 9, 9);
    let (p0, r0) = generate_points_poisson(0, radius, INITIAL_MAX_ANGLE, &mut rng);
    assert!(p0.is_empty());
    assert!(!r0);
    let (p1, _) = generate_points_poisson(1, radius, INITIAL_MAX_ANGLE, &mut rng);
    assert_eq!(p1.len(), 1);
    assert_eq!((p1[0].x, p1[0].y, p1[0].z), (0, radius, 0));
}
