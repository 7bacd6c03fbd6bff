//! Kinematics of single nodes and single springs: the impulse law, the
//! speed cap, and spring convergence.

use spring_embed::cluster_id::ClusterID;
use spring_embed::engine::{EdgeData, SpringParams, VertexData};
use spring_embed::fixed::SCALE;
use spring_embed::graph_builder::build_force_directed_graph;
use spring_embed::node_map::NodeMap;
use spring_embed::physics_node::PhysicsNode;
use spring_embed::spring::{Spring, DEFAULT_STIFFNESS};
use spring_embed::vec3::Vec3Fx;

fn fx(x: f64) -> i64 {
    (x * SCALE as f64).round() as i64
}

fn to_f(x: i64) -> f64 {
    x as f64 / SCALE as f64
}

fn speed(v: Vec3Fx) -> f64 {
    (to_f(v.x).powi(2) + to_f(v.y).powi(2) + to_f(v.z).powi(2)).sqrt()
}

/// `accelerate(F)` then `update_position()` from rest gives `F / mass`
/// damped by one friction factor, within fixed-point tolerance.
#[test]
fn impulse_from_rest_velocity() {
    let mut node = PhysicsNode::new(Vec3Fx::zero(), 4);
    node.accelerate(Vec3Fx::new(fx(2.0), fx(-1.0), 0));
    node.update_position();
    let v = node.get_velocity();
    assert!((to_f(v.x) - 0.98 * 2.0 / 4.0).abs() < 1e-4);
    assert!((to_f(v.y) + 0.98 * 1.0 / 4.0).abs() < 1e-4);
    assert_eq!(v.z, 0);
    // The position moved by exactly the new velocity, and the accumulator
    // was reset.
    assert_eq!(node.get_position(), v);
}

/// A force pushing the velocity past the cap leaves its magnitude at
/// exactly the cap, within fixed-point tolerance.
#[test]
fn velocity_cap_is_exact() {
    let mut node = PhysicsNode::new(Vec3Fx::zero(), 1);
    node.accelerate(Vec3Fx::new(fx(100.0), fx(40.0), fx(-25.0)));
    node.update_position();
    let v = node.get_velocity();
    assert!((speed(v) - 5.0).abs() < 1e-4);
    // Direction is preserved: components keep their signs and ratios.
    assert!(v.x > 0 && v.y > 0 && v.z < 0);
    assert!((to_f(v.x) / to_f(v.y) - 100.0 / 40.0).abs() < 1e-3);
}

/// A velocity below the cap is untouched by the cap.
#[test]
fn velocity_below_cap_untouched() {
    let mut node = PhysicsNode::new(Vec3Fx::zero(), 1);
    node.accelerate(Vec3Fx::new(fx(1.0), 0, 0));
    node.update_position();
    let v = node.get_velocity();
    assert!((to_f(v.x) - 0.98).abs() < 1e-4);
    assert_eq!(v.y, 0);
    assert_eq!(v.z, 0);
}

/// A single spring of target `L` pulls two nodes toward separation `L`:
/// over ten thousand steps the distance error shrinks monotonically on the
/// large scale and never diverges.
#[test]
fn single_spring_converges() {
    let a = ClusterID::new(0, 1);
    let b = ClusterID::new(1, 1);
    let mut nodes = NodeMap::new();
    nodes.insert(a, PhysicsNode::new(Vec3Fx::zero(), 1));
    nodes.insert(b, PhysicsNode::new(Vec3Fx::new(fx(10.0), 0, 0), 1));
    // Target two units, already-normalized natural length.
    let spring = Spring::new(fx(2.0), a, b, true, 0, DEFAULT_STIFFNESS, None, None);

    let target = 2.0;
    let mut last_err = f64::INFINITY;
    let mut max_err: f64 = 0.0;
    for step in 0..10_000 {
        spring.move_nodes(&mut nodes);
        for i in 0..nodes.len() {
            let mut n = nodes.node_at(i);
            n.update_position();
            nodes.set_at(i, n);
        }
        let pa = nodes.get(a).unwrap().get_position();
        let pb = nodes.get(b).unwrap().get_position();
        let dist = to_f(pa.sub(pb).norm());
        let err = (dist - target).abs();
        max_err = max_err.max(err);
        // Sampled every thousand steps the error is non-increasing.
        if step % 1000 == 999 {
            assert!(err <= last_err + 1e-3, "diverged at step {}: {} > {}", step, err, last_err);
            last_err = err;
        }
    }
    assert!(last_err < 0.05, "did not converge: {}", last_err);
    assert!(max_err <= 8.0 + 1e-6, "unbounded swing: {}", max_err);
}

/// A fifty-node, two-hundred-edge random graph stays bounded over a long
/// run: no position diverges and every separation keeps a sane magnitude.
#[test]
fn random_graph_remains_bounded() {
    let n = 50usize;
    let vertices: Vec<VertexData> = (0..n)
        .map(|i| VertexData { id: ClusterID::new(i, 1), cardinality: 1 + (i as i64 % 3) })
        .collect();
    // A deterministic pseudo-random edge set of two hundred edges.
    let mut seed = 0x2545f491u64;
    let mut next = || {
        seed ^= seed << 13;
        seed ^= seed >> 7;
        seed ^= seed << 17;
        seed
    };
    let mut edges = Vec::new();
    while edges.len() < 200 {
        let a = (next() % n as u64) as usize;
        let b = (next() % n as u64) as usize;
        if a != b {
            let d = 1 + (next() % 900) as i64;
            edges.push(EdgeData {
                a: ClusterID::new(a, 1),
                b: ClusterID::new(b, 1),
                nat_len: d * SCALE / 100,
            });
        }
    }
    let mut g = build_force_directed_graph(
        &vertices,
        &edges,
        &Vec::new(),
        fx(10.0),
        1000,
        SpringParams::new(),
    );
    for _ in 0..1000 {
        g.update(&Vec::new());
    }
    for i in 0..n {
        let p = g.get_cluster_position(ClusterID::new(i, 1)).unwrap();
        for c in [p.x, p.y, p.z] {
            assert!(to_f(c).abs() < 1.0e7, "position diverged: {}", to_f(c));
        }
    }
}
