//! A verified mass-spring embedding engine for cluster graphs.
//!
//! Vertices of an externally supplied hierarchical-clustering tree are laid
//! out in three dimensions by an iterative force simulation: one particle per
//! vertex, one spring per similarity edge.  All kinematic quantities are
//! fixed-point integers (counts of `1/SCALE` units), so every arithmetic step
//! of the simulation is exactly specified and verified.

pub mod cluster_id;
pub mod engine;
pub mod error;
pub mod eval;
pub mod fixed;
pub mod graph_builder;
pub mod h_graph;
pub mod helpers;
pub mod metrics;
pub mod scoring;
pub mod node_map;
pub mod physics_node;
pub mod protocol;
pub mod rng;
pub mod spring;
pub mod triangle;
pub mod vec3;
