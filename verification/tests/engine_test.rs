//! The flat embedding engine: construction, structure, stepping, and the
//! component-bridging helpers.

use spring_embed::cluster_id::ClusterID;
use spring_embed::engine::{EdgeData, SpringParams, VertexData};
use spring_embed::fixed::SCALE;
use spring_embed::graph_builder::{build_force_directed_graph, calc_max_edge_len,
    cross_pollinate_components, create_intercomponent_edges, get_k_key_clusters, VertexDegree};

fn fx(x: f64) -> i64 {
    (x * SCALE as f64).round() as i64
}

fn to_f(x: i64) -> f64 {
    x as f64 / SCALE as f64
}

fn id(n: usize) -> ClusterID {
    ClusterID::new(n, 1)
}

fn three_vertex_graph() -> spring_embed::engine::ForceDirectedGraph {
    let vertices = vec![
        VertexData { id: id(0), cardinality: 1 },
        VertexData { id: id(1), cardinality: 2 },
        VertexData { id: id(2), cardinality: 3 },
    ];
    let edges = vec![
        EdgeData { a: id(0), b: id(1), nat_len: fx(3.0) },
        EdgeData { a: id(1), b: id(2), nat_len: fx(4.0) },
    ];
    let bridges = vec![EdgeData { a: id(0), b: id(2), nat_len: fx(5.0) }];
    build_force_directed_graph(&vertices, &edges, &bridges, fx(100.0), 100, SpringParams::new())
}

#[test]
fn builder_structure() {
    let g = three_vertex_graph();
    assert_eq!(g.nodes.len(), 3);
    assert_eq!(g.edges.len(), 3);
    // The normalizer froze at the largest real edge, 4 units.
    assert_eq!(g.max_edge_len, fx(4.0));
    // Real springs first, in order; the bridge after, synthetic.
    assert!(g.edges[0].is_real && g.edges[1].is_real && !g.edges[2].is_real);
    assert_eq!(g.edges[0].get_node_ids(), (id(0), id(1)));
    // Targets are normalized by the longest edge and scaled: 3/4*100.
    assert!((to_f(g.edges[0].nat_len()) - 75.0).abs() < 1e-3);
    assert!((to_f(g.edges[1].nat_len()) - 100.0).abs() < 1e-3);
    assert!((to_f(g.edges[2].nat_len()) - 125.0).abs() < 1e-3);
    // The engine starts with the slot full and no shutdown.
    assert!(g.status.data_ready);
    assert!(!g.status.force_shutdown);
}

#[test]
fn builder_positions_inside_volume() {
    let g = three_vertex_graph();
    let extent = to_f((std::f64::consts::PI * SCALE as f64) as i64) * 3.0;
    for i in [0usize, 1, 2] {
        let p = g.get_cluster_position(id(i)).unwrap();
        for c in [p.x, p.y, p.z] {
            assert!(0 <= c && to_f(c) <= extent + 1.0);
        }
    }
}

#[test]
fn position_lookup_not_found() {
    let g = three_vertex_graph();
    assert!(g.get_cluster_position(id(9)).is_err());
}

#[test]
fn empty_edge_list_normalizer_floor() {
    assert_eq!(calc_max_edge_len(&Vec::new()), SCALE);
}

#[test]
fn normalizer_is_the_true_maximum_even_below_one_unit() {
    // A normalized dataset whose longest edge is half a unit: the frozen
    // normalizer is that half unit, not one.
    let edges = vec![
        EdgeData { a: id(0), b: id(1), nat_len: fx(0.25) },
        EdgeData { a: id(1), b: id(2), nat_len: fx(0.5) },
    ];
    assert_eq!(calc_max_edge_len(&edges), fx(0.5));
    // The longest edge then normalizes to exactly the scale factor.
    let vertices = vec![
        VertexData { id: id(0), cardinality: 1 },
        VertexData { id: id(1), cardinality: 1 },
        VertexData { id: id(2), cardinality: 1 },
    ];
    let g = build_force_directed_graph(
        &vertices,
        &edges,
        &Vec::new(),
        fx(100.0),
        10,
        SpringParams::new(),
    );
    assert_eq!(g.max_edge_len, fx(0.5));
    assert!((to_f(g.edges[1].nat_len()) - 100.0).abs() < 1e-3);
    assert!((to_f(g.edges[0].nat_len()) - 50.0).abs() < 1e-3);
}

#[test]
fn synchronous_step_pulls_edges_toward_targets() {
    let mut g = three_vertex_graph();
    let before: Vec<f64> = (0..3)
        .map(|i| {
            let (a, b) = g.edges[i].get_node_ids();
            let pa = g.get_cluster_position(a).unwrap();
            let pb = g.get_cluster_position(b).unwrap();
            to_f(pa.sub(pb).norm())
        })
        .collect();
    for _ in 0..600 {
        g.update(&Vec::new());
    }
    // Every spring's separation moved toward its target.
    for i in 0..3 {
        let (a, b) = g.edges[i].get_node_ids();
        let pa = g.get_cluster_position(a).unwrap();
        let pb = g.get_cluster_position(b).unwrap();
        let after = to_f(pa.sub(pb).norm());
        let target = to_f(g.edges[i].nat_len());
        assert!(
            (after - target).abs() <= (before[i] - target).abs() + 1.0,
            "edge {} moved away: {} -> {} (target {})",
            i,
            before[i],
            after,
            target
        );
    }
}

#[test]
fn random_pair_sampling_is_well_formed() {
    let g = three_vertex_graph();
    let pairs = g.sample_random_pairs();
    assert!(pairs.len() <= 9);
    for (a, b) in pairs {
        assert_ne!(a, b);
        assert!(g.get_cluster_position(a).is_ok());
        assert!(g.get_cluster_position(b).is_ok());
    }
}

#[test]
fn key_cluster_selection() {
    let component = vec![
        VertexDegree { id: id(0), degree: 1 },
        VertexDegree { id: id(1), degree: 5 },
        VertexDegree { id: id(2), degree: 3 },
        VertexDegree { id: id(3), degree: 2 },
    ];
    let keys = get_k_key_clusters(&component, 2).unwrap();
    assert_eq!(keys.len(), 2);
    // The anchor is the highest-degree vertex.
    assert_eq!(keys[0], id(1));
    // A sample never exceeds the component.
    let keys_all = get_k_key_clusters(&component, 10).unwrap();
    assert_eq!(keys_all.len(), 4);
    assert!(get_k_key_clusters(&component, 0).is_none());
    assert!(get_k_key_clusters(&Vec::new(), 3).is_none());
}

#[test]
fn component_bridging_pairs() {
    let k1 = vec![id(0), id(1)];
    let k2 = vec![id(5), id(6), id(7)];
    let pairs = cross_pollinate_components(&k1, &k2);
    assert_eq!(pairs.len(), 6);
    assert_eq!(pairs[0], (id(0), id(5)));
    assert_eq!(pairs[5], (id(1), id(7)));

    let comp_a = vec![VertexDegree { id: id(0), degree: 2 }, VertexDegree { id: id(1), degree: 1 }];
    let comp_b = vec![VertexDegree { id: id(5), degree: 1 }];
    let all = create_intercomponent_edges(&vec![comp_a, comp_b], 2);
    // Two keys from the first component crossed with one from the second.
    assert_eq!(all.len(), 2);
    for (a, b) in all {
        assert!(a == id(0) || a == id(1));
        assert_eq!(b, id(5));
    }
}
