//! The hierarchical engine: triangle placement, the root split, a full
//! split-and-prune pass, and the placement failure conditions.

use spring_embed::cluster_id::ClusterID;
use spring_embed::engine::{EdgeData, SpringParams};
use spring_embed::error::FFIError;
use spring_embed::eval::are_collinear;
use spring_embed::fixed::SCALE;
use spring_embed::h_graph::{cleanup_policy, split_node, ChildRecord, CleanupDecision,
    ForceDirectedGraph, PlacementStrategy, SplitInfo};
use spring_embed::physics_node::PhysicsNode;
use spring_embed::spring::DEFAULT_STIFFNESS;
use spring_embed::vec3::Vec3Fx;

fn fx(x: f64) -> i64 {
    (x * SCALE as f64).round() as i64
}

fn to_f(x: i64) -> f64 {
    x as f64 / SCALE as f64
}

fn id(n: usize) -> ClusterID {
    ClusterID::new(n, 1)
}

fn dist(a: Vec3Fx, b: Vec3Fx) -> f64 {
    to_f(a.distance(b))
}

/// Triangle placement exactness: consistent side lengths (3, 4, 5) produce
/// two child positions whose three pairwise distances match the targets
/// within 3e-6, are non-collinear, and satisfy the triangle inequality.
#[test]
fn triangle_placement_three_four_five() {
    let parent = PhysicsNode::new(Vec3Fx::new(fx(-10.0), fx(2.0), fx(1.5)), 2);
    let info = SplitInfo {
        parent: id(0),
        left: id(1),
        right: id(2),
        left_cardinality: 1,
        right_cardinality: 1,
        raw_children: fx(3.0),
        raw_left: fx(4.0),
        raw_right: fx(5.0),
    };
    let (left, right, spring) = split_node(
        &parent,
        &info,
        SCALE,
        SCALE,
        DEFAULT_STIFFNESS,
        PlacementStrategy::CircleIntersection,
    )
    .unwrap();

    let pp = parent.get_position();
    let pl = left.get_position();
    let pr = right.get_position();
    let d_left = dist(pp, pl);
    let d_right = dist(pp, pr);
    let d_children = dist(pl, pr);
    assert!((d_left - 4.0).abs() < 3e-6, "parent-left {}", d_left);
    assert!((d_right - 5.0).abs() < 3e-6, "parent-right {}", d_right);
    assert!((d_children - 3.0).abs() < 3e-6, "children {}", d_children);
    // Triangle inequality and a genuine (non-collinear) triangle.
    assert!(d_left + d_right >= d_children);
    assert!(d_left + d_children >= d_right);
    assert!(d_right + d_children >= d_left);
    assert!(!are_collinear(pp, pl, pr));
    // The new child-to-child spring starts a fresh generation.
    assert_eq!(spring.relation(), 0);
    assert_eq!(spring.get_node_ids(), (id(1), id(2)));
    assert!((to_f(spring.nat_len()) - 3.0).abs() < 1e-4);
}

/// Splitting the root of a small one-dimensional dataset: eight points
/// `[10, 1, -5, 8, 3, 2, 0.5, 0]`, with cluster centers chosen at the
/// points 2 (root), 0.5 (left child) and 8 (right child), so the three
/// target distances are |0.5-8| = 7.5, |2-0.5| = 1.5 and |2-8| = 6,
/// computed independently by hand.  The placed children reproduce all
/// three distances within 3e-6 of their scaled targets.
#[test]
fn node_split() {
    let scalar = fx(100.0);
    let root_node = PhysicsNode::new(Vec3Fx::new(fx(-1000.0), fx(-100.0), fx(150.0)), 8);
    let info = SplitInfo {
        parent: id(0),
        left: id(1),
        right: id(2),
        left_cardinality: 4,
        right_cardinality: 4,
        raw_children: fx(7.5),
        raw_left: fx(1.5),
        raw_right: fx(6.0),
    };
    // Normalization by one unit: the scaled targets are 750, 150 and 600.
    let (left, right, _) = split_node(
        &root_node,
        &info,
        scalar,
        SCALE,
        DEFAULT_STIFFNESS,
        PlacementStrategy::CircleIntersection,
    )
    .unwrap();
    let root_pos = root_node.get_position();
    let d_left = dist(root_pos, left.get_position());
    let d_right = dist(root_pos, right.get_position());
    let d_children = dist(left.get_position(), right.get_position());
    assert!((d_left - 150.0).abs() < 3e-6, "parent-left {}", d_left);
    assert!((d_right - 600.0).abs() < 3e-6, "parent-right {}", d_right);
    assert!((d_children - 750.0).abs() < 3e-6, "children {}", d_children);
    // One-dimensional source distances always lie on the triangle
    // inequality's boundary, so the three placed points close a
    // (degenerate) triangle exactly.
    assert!(d_left + d_right >= d_children - 1e-6);
}

/// The random-within-radius strategy stays inside the target cubes.
#[test]
fn random_placement_within_radius() {
    let parent = PhysicsNode::new(Vec3Fx::zero(), 2);
    let info = SplitInfo {
        parent: id(0),
        left: id(1),
        right: id(2),
        left_cardinality: 1,
        right_cardinality: 1,
        raw_children: fx(3.0),
        raw_left: fx(4.0),
        raw_right: fx(5.0),
    };
    for _ in 0..16 {
        let (left, right, _) = split_node(
            &parent,
            &info,
            SCALE,
            SCALE,
            DEFAULT_STIFFNESS,
            PlacementStrategy::RandomWithinRadius,
        )
        .unwrap();
        let pl = left.get_position();
        let pr = right.get_position();
        for c in [pl.x, pl.y, pl.z] {
            assert!(to_f(c).abs() <= 4.0 + 1e-6);
        }
        for c in [pr.x, pr.y, pr.z] {
            assert!(to_f(c).abs() <= 5.0 + 1e-6);
        }
    }
}

/// Inconsistent side lengths fail without placing.
#[test]
fn invalid_triangle_is_rejected() {
    let parent = PhysicsNode::new(Vec3Fx::zero(), 2);
    let info = SplitInfo {
        parent: id(0),
        left: id(1),
        right: id(2),
        left_cardinality: 1,
        right_cardinality: 1,
        raw_children: fx(100.0),
        raw_left: fx(1.0),
        raw_right: fx(1.0),
    };
    let r = split_node(
        &parent,
        &info,
        SCALE,
        SCALE,
        DEFAULT_STIFFNESS,
        PlacementStrategy::CircleIntersection,
    );
    assert_eq!(r.unwrap_err(), FFIError::GraphBuildFailed);
}

/// A vanishing parent-to-left target leaves the intersection direction
/// undefined; the deterministic strategy reports it as a division hazard.
#[test]
fn degenerate_left_target_is_rejected() {
    let parent = PhysicsNode::new(Vec3Fx::zero(), 2);
    let info = SplitInfo {
        parent: id(0),
        left: id(1),
        right: id(2),
        left_cardinality: 1,
        right_cardinality: 1,
        raw_children: fx(1.0),
        raw_left: 0,
        raw_right: fx(1.0),
    };
    let r = split_node(
        &parent,
        &info,
        SCALE,
        SCALE,
        DEFAULT_STIFFNESS,
        PlacementStrategy::CircleIntersection,
    );
    assert_eq!(r.unwrap_err(), FFIError::DivisionByZero);
}

fn grandchild_split(parent: usize, left: usize, right: usize) -> SplitInfo {
    SplitInfo {
        parent: id(parent),
        left: id(left),
        right: id(right),
        left_cardinality: 2,
        right_cardinality: 2,
        raw_children: fx(3.0),
        raw_left: fx(4.0),
        raw_right: fx(5.0),
    }
}

/// Hierarchical equivalence, structurally: after a full split and prune
/// pass at the final depth, the frontier holds exactly the selected
/// vertices and the spring list exactly the springs of the selected edges.
#[test]
fn split_and_prune_pass() {
    let root_split = SplitInfo {
        parent: id(0),
        left: id(1),
        right: id(2),
        left_cardinality: 4,
        right_cardinality: 4,
        raw_children: fx(6.0),
        raw_left: fx(4.0),
        raw_right: fx(5.0),
    };
    let mut g = ForceDirectedGraph::new(
        8,
        &root_split,
        fx(1.0),
        8,
        SCALE,
        SpringParams::new(),
        PlacementStrategy::CircleIntersection,
    )
    .unwrap();
    assert_eq!(g.graph.len(), 2);
    assert_eq!(g.springs.len(), 1);
    assert!(g.contains(id(1)) && g.contains(id(2)));

    // An epoch over the two-node frontier keeps its structure.
    g.run_single_epoch(&Vec::new());
    assert_eq!(g.graph.len(), 2);

    // Split both frontier nodes into their children for the next depth.
    let splits = vec![grandchild_split(1, 3, 4), grandchild_split(2, 5, 6)];
    let children = vec![
        ChildRecord { parent: id(1), left: id(3), right: id(4) },
        ChildRecord { parent: id(2), left: id(5), right: id(6) },
    ];
    // Distances for the rewired cross product of the old spring (1,2).
    let mut dists = Vec::new();
    for a in [3usize, 4] {
        for b in [5usize, 6] {
            dists.push(EdgeData { a: id(a), b: id(b), nat_len: fx(6.0) });
        }
    }
    g.advance_frontier(&splits, &children, &dists).unwrap();

    // The frontier is exactly the four selected grandchildren.
    assert_eq!(g.graph.len(), 4);
    for v in [3usize, 4, 5, 6] {
        assert!(g.contains(id(v)));
    }
    assert!(!g.contains(id(1)) && !g.contains(id(2)));
    // Two fresh child springs, then the four rewired cross springs with an
    // incremented generation.
    assert_eq!(g.springs.len(), 6);
    assert_eq!(g.springs[0].relation(), 0);
    assert_eq!(g.springs[1].relation(), 0);
    for i in 2..6 {
        assert_eq!(g.springs[i].relation(), 1);
    }

    // The final prune with no threshold drops exactly the springs whose
    // current rendered distance exceeds the radius sum: generous radii keep
    // the two child springs, impossible radii prune the four rewired ones.
    let mut radius_sums: Vec<i64> = Vec::new();
    for i in 0..6 {
        if i < 2 {
            radius_sums.push(i64::MAX);
        } else {
            radius_sums.push(-1);
        }
    }
    g.cleanup(&radius_sums, None);
    // Spring count equals the selected edge count: the two child edges.
    assert_eq!(g.springs.len(), 2);
    assert_eq!(g.graph.len(), 4);

    // A thresholded prune spares young springs even at large distance.
    let root_split2 = root_split;
    let mut g2 = ForceDirectedGraph::new(
        8,
        &root_split2,
        fx(1.0),
        8,
        SCALE,
        SpringParams::new(),
        PlacementStrategy::CircleIntersection,
    )
    .unwrap();
    let far: Vec<i64> = vec![-1];
    g2.cleanup(&far, Some(3));
    assert_eq!(g2.springs.len(), 1);
}

/// A missing rewiring distance fails the pass and the spring list is not
/// installed.
#[test]
fn missing_rewire_distance_fails() {
    let root_split = SplitInfo {
        parent: id(0),
        left: id(1),
        right: id(2),
        left_cardinality: 4,
        right_cardinality: 4,
        raw_children: fx(6.0),
        raw_left: fx(4.0),
        raw_right: fx(5.0),
    };
    let mut g = ForceDirectedGraph::new(
        8,
        &root_split,
        fx(1.0),
        8,
        SCALE,
        SpringParams::new(),
        PlacementStrategy::CircleIntersection,
    )
    .unwrap();
    let splits = vec![grandchild_split(1, 3, 4), grandchild_split(2, 5, 6)];
    let children = vec![
        ChildRecord { parent: id(1), left: id(3), right: id(4) },
        ChildRecord { parent: id(2), left: id(5), right: id(6) },
    ];
    let r = g.advance_frontier(&splits, &children, &Vec::new());
    assert_eq!(r.unwrap_err(), FFIError::GraphBuildFailed);
}

/// The depth loop's pruning cadence: every fifth depth with the generation
/// threshold, the final pass unconditionally, nothing otherwise.
#[test]
fn cleanup_cadence() {
    assert_eq!(cleanup_policy(5, false), CleanupDecision::Thresholded(8));
    assert_eq!(cleanup_policy(10, false), CleanupDecision::Thresholded(8));
    assert_eq!(cleanup_policy(3, false), CleanupDecision::Skip);
    assert_eq!(cleanup_policy(3, true), CleanupDecision::Full);
}
