//! The live-mode handshake: strict turn taking between the background
//! computation and the polling host, and the bounded cooperative shutdown.

use spring_embed::cluster_id::ClusterID;
use spring_embed::engine::{EdgeData, SpringParams, VertexData};
use spring_embed::error::FFIError;
use spring_embed::fixed::SCALE;
use spring_embed::graph_builder::build_force_directed_graph;

fn fx(x: f64) -> i64 {
    (x * SCALE as f64).round() as i64
}

fn id(n: usize) -> ClusterID {
    ClusterID::new(n, 1)
}

fn two_node_graph() -> spring_embed::engine::ForceDirectedGraph {
    let vertices = vec![
        VertexData { id: id(0), cardinality: 1 },
        VertexData { id: id(1), cardinality: 1 },
    ];
    let edges = vec![EdgeData { a: id(0), b: id(1), nat_len: fx(1.0) }];
    build_force_directed_graph(&vertices, &edges, &Vec::new(), fx(10.0), 64, SpringParams::new())
}

fn must_wait(g: &spring_embed::engine::ForceDirectedGraph) -> bool {
    g.status.data_ready && !g.status.force_shutdown
}

/// N alternating compute/poll cycles on a two-node graph never leave both
/// participants believing it is their turn: after the host consumes, only
/// the background may act; after the background computes, it is blocked
/// until the host consumes again.
#[test]
fn handshake_alternates_strictly() {
    let mut g = two_node_graph();
    // The initial state blocks the background thread: the host is not
    // ready yet, so the slot counts as full.
    assert!(must_wait(&g));

    for _ in 0..16 {
        // Host turn: consume the frame; afterwards the background may run.
        let (status, frame) = g.try_update_unity(&Vec::new());
        assert_eq!(status, FFIError::PhysicsRunning);
        assert_eq!(frame.len(), 2);
        assert!(!g.status.data_ready);
        assert!(!must_wait(&g));

        // Background turn: compute one frame; afterwards it is blocked
        // again, so it can never run twice before the next poll.
        assert!(g.compute_next_frame());
        assert!(g.status.data_ready);
        assert!(must_wait(&g));
    }
}

/// `request_shutdown` is observed at the background thread's next wake-up:
/// one wake suffices, whatever the slot state was, and the wake consumes
/// the slot so no stale frame remains.
#[test]
fn shutdown_within_one_wake() {
    let mut g = two_node_graph();
    let r = g.force_shutdown();
    assert_eq!(r, FFIError::PhysicsRunning);
    // The wait condition no longer holds, so the background wakes at once.
    assert!(!must_wait(&g));
    // The next wake terminates the loop.
    assert!(!g.compute_next_frame());
    assert!(!g.status.data_ready);
    // Any further wake keeps terminating: no revival.
    assert!(!g.compute_next_frame());
}

/// Shutdown after mid-run cycles also completes within one wake.
#[test]
fn shutdown_after_cycles() {
    let mut g = two_node_graph();
    for _ in 0..3 {
        let _ = g.try_update_unity(&Vec::new());
        assert!(g.compute_next_frame());
    }
    g.force_shutdown();
    assert!(!must_wait(&g));
    assert!(!g.compute_next_frame());
}
