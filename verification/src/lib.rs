//! Deterministic procedural generation of a 3D "constellation" graph.
//!
//! A constellation is a set of points spread over the surface of a sphere,
//! partitioned into spatial clusters, connected into a sparse undirected
//! graph, and decomposed into connected components ("islands").  Together
//! with a chord and a semitone offset drawn from the same seeded generator,
//! the result drives a downstream audio-visual presentation.
//!
//! All geometry is carried out in fixed-point integer arithmetic and all
//! randomness comes from an explicit generator value, so a generation run is
//! a pure function of its inputs: the same seed gives bit-identical output
//! on every platform and build configuration.

pub mod chords;
pub mod cluster;
pub mod connect;
pub mod constellation;
pub mod fixed;
pub mod flags;
pub mod graph;
pub mod islands;
pub mod points;
pub mod rng;
pub mod seed;
pub mod tick;
pub mod util;
pub mod vec3;

pub use chords::Chord;
pub use constellation::ConstellationGraph;
pub use graph::UndirGraph;
pub use rng::Rng;
pub use vec3::Vec3;
