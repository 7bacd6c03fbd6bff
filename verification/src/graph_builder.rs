//! Construction of the flat embedding: one node per vertex at a random
//! position inside a volume that grows with the vertex count, one real
//! spring per similarity edge, and synthetic bridges between the key
//! vertices of disconnected components.

use vstd::prelude::*;
use crate::cluster_id::ClusterID;
use crate::engine::{EdgeData, ForceDirectedGraph, SpringParams, VertexData, edges_connected,
    has_vertex, max_nat_len_spec};
use crate::fixed::{sat64, SCALE};
use crate::node_map::NodeMap;
use crate::physics_node::{PhysicsNode, DEFAULT_FRICTION, DEFAULT_MAX_SPEED};
use crate::rng::{rand_in_range, rand_index};
use crate::spring::{Spring, all_nodes_wf, normalized_target_spec};
use crate::vec3::Vec3Fx;

verus! {

/// The circle constant in fixed-point units, used to scale the placement
/// volume with the vertex count.
pub const PI_FX: i64 = 3294199;

/// A vertex id with its similarity-graph degree, for key-vertex selection.
#[derive(Clone, Copy, Debug, PartialEq, Eq, Structural)]
pub struct VertexDegree {
    pub id: ClusterID,
    pub degree: i64,
}

/// A position inside the placement box of extent `e`.
pub open spec fn in_box(p: Vec3Fx, e: int) -> bool {
    &&& 0 <= p.x <= e
    &&& 0 <= p.y <= e
    &&& 0 <= p.z <= e
}

/// `id` occurs in the component.
pub open spec fn in_component(c: Seq<VertexDegree>, id: ClusterID) -> bool {
    exists|i: int| 0 <= i < c.len() && (#[trigger] c[i]).id == id
}

/// The largest natural edge length, the frozen normalizer of every spring
/// target of a construction.
pub fn calc_max_edge_len(edges: &Vec<EdgeData>) -> (r: i64)
    ensures
        r as int == max_nat_len_spec(edges@),
{
    let n = edges.len();
    if n == 0 {
        return SCALE;
    }
    let mut best: i64 = edges[0].nat_len;
    let mut i: usize = 1;
    proof {
        let first = edges@.subrange(0, 1);
        assert(first.drop_last() =~= Seq::<EdgeData>::empty());
        assert(first.last() == edges@[0]);
    }
    while i < n
        invariant
            1 <= i <= n,
            n == edges@.len(),
            best as int == max_nat_len_spec(edges@.subrange(0, i as int)),
        decreases n - i,
    {
        proof {
            let pre = edges@.subrange(0, i as int);
            let cur = edges@.subrange(0, i + 1int);
            assert(cur.drop_last() =~= pre);
            assert(cur.last() == edges@[i as int]);
        }
        if edges[i].nat_len >= best {
            best = edges[i].nat_len;
        }
        i = i + 1;
    }
    proof {
        assert(edges@.subrange(0, n as int) =~= edges@);
    }
    best
}

/// The extent of the random placement volume for `n` vertices.
pub fn volume_extent(n: usize) -> (r: i64)
    ensures
        r as int == sat64(PI_FX * n),
        r >= 0,
{
    proof {
        assert(0 <= PI_FX * n < i128::MAX) by (nonlinear_arith)
            requires
                0 <= n <= usize::MAX,
        ;
    }
    let p: i128 = (PI_FX as i128) * (n as i128);
    crate::fixed::sat_narrow(p)
}

/// Build the flat engine: every vertex becomes a node at rest at a random
/// position inside the placement box, every edge a real spring, every
/// bridge a synthetic spring; `max_edge_len` is frozen as the largest
/// natural length among the real edges.
pub fn build_force_directed_graph(
    vertices: &Vec<VertexData>,
    edges: &Vec<EdgeData>,
    bridges: &Vec<EdgeData>,
    scalar: i64,
    max_iters: i64,
    params: SpringParams,
) -> (r: ForceDirectedGraph)
    requires
        forall|i: int| 0 <= i < vertices@.len() ==> (#[trigger] vertices@[i]).cardinality >= 1,
        forall|i: int, j: int|
            0 <= i < j < vertices@.len() ==> (#[trigger] vertices@[i]).id != (
            #[trigger] vertices@[j]).id,
        forall|i: int|
            0 <= i < edges@.len() ==> has_vertex(vertices@, (#[trigger] edges@[i]).a) && has_vertex(
                vertices@,
                edges@[i].b,
            ),
        forall|i: int|
            0 <= i < bridges@.len() ==> has_vertex(vertices@, (#[trigger] bridges@[i]).a)
                && has_vertex(vertices@, bridges@[i].b),
    ensures
        r.wf(),
        r.max_edge_len as int == max_nat_len_spec(edges@),
        r.scalar == scalar,
        r.max_iters == max_iters,
        r.params == params,
        r.status.data_ready && !r.status.force_shutdown,
        r.nodes.spec_len() == vertices@.len(),
        forall|id: ClusterID| #[trigger] r.nodes@.contains_key(id) <==> has_vertex(vertices@, id),
        forall|i: int|
            0 <= i < vertices@.len() ==> {
                let node = r.nodes@[(#[trigger] vertices@[i]).id];
                &&& node.mass == vertices@[i].cardinality
                &&& node.at_rest()
                &&& node.friction == DEFAULT_FRICTION
                &&& node.max_speed == DEFAULT_MAX_SPEED
                &&& in_box(node.position, sat64(PI_FX * vertices@.len()))
            },
        r.edges@.len() == edges@.len() + bridges@.len(),
        forall|i: int|
            0 <= i < edges@.len() ==> (#[trigger] r.edges@[i]) == (Spring {
                target_len: normalized_target_spec(
                    edges@[i].nat_len as int,
                    max_nat_len_spec(edges@),
                    scalar as int,
                ) as i64,
                k: params.k_real,
                node1: edges@[i].a,
                node2: edges@[i].b,
                is_real: true,
                relation: 0u32,
            }),
        forall|i: int|
            0 <= i < bridges@.len() ==> (#[trigger] r.edges@[edges@.len() + i]) == (Spring {
                target_len: normalized_target_spec(
                    bridges@[i].nat_len as int,
                    max_nat_len_spec(edges@),
                    scalar as int,
                ) as i64,
                k: params.k_synthetic,
                node1: bridges@[i].a,
                node2: bridges@[i].b,
                is_real: false,
                relation: 0u32,
            }),
{
    let max_edge_len = calc_max_edge_len(edges);
    let nv = vertices.len();
    let extent = volume_extent(nv);

    let mut nodes = NodeMap::new();
    let mut i: usize = 0;
    while i < nv
        invariant
            i <= nv,
            nv == vertices@.len(),
            extent as int == sat64(PI_FX * nv),
            extent >= 0,
            nodes.wf(),
            all_nodes_wf(nodes@),
            nodes.spec_len() == i,
            forall|j: int| 0 <= j < nv ==> (#[trigger] vertices@[j]).cardinality >= 1,
            forall|a: int, b: int|
                0 <= a < b < nv ==> (#[trigger] vertices@[a]).id != (#[trigger] vertices@[b]).id,
            forall|id: ClusterID| #[trigger]
                nodes@.contains_key(id) <==> exists|j: int|
                    0 <= j < i && (#[trigger] vertices@[j]).id == id,
            forall|j: int|
                0 <= j < i ==> {
                    let node = nodes@[(#[trigger] vertices@[j]).id];
                    &&& node.mass == vertices@[j].cardinality
                    &&& node.at_rest()
                    &&& node.friction == DEFAULT_FRICTION
                    &&& node.max_speed == DEFAULT_MAX_SPEED
                    &&& in_box(node.position, extent as int)
                },
        decreases nv - i,
    {
        let v = vertices[i];
        let x = rand_in_range(0, extent);
        let y = rand_in_range(0, extent);
        let z = rand_in_range(0, extent);
        let node = PhysicsNode::new(Vec3Fx::new(x, y, z), v.cardinality);
        proof {
            if nodes@.contains_key(v.id) {
                let w = choose|j: int| 0 <= j < i && (#[trigger] vertices@[j]).id == v.id;
                assert(vertices@[w].id != vertices@[i as int].id);
                assert(false);
            }
        }
        nodes.insert(v.id, node);
        i = i + 1;
    }

    let mut springs: Vec<Spring> = Vec::new();
    let ne = edges.len();
    let mut j: usize = 0;
    while j < ne
        invariant
            j <= ne,
            ne == edges@.len(),
            max_edge_len as int == max_nat_len_spec(edges@),
            springs@.len() == j,
            forall|a: int|
                0 <= a < j ==> (#[trigger] springs@[a]) == (Spring {
                    target_len: normalized_target_spec(
                        edges@[a].nat_len as int,
                        max_nat_len_spec(edges@),
                        scalar as int,
                    ) as i64,
                    k: params.k_real,
                    node1: edges@[a].a,
                    node2: edges@[a].b,
                    is_real: true,
                    relation: 0u32,
                }),
        decreases ne - j,
    {
        let e = edges[j];
        springs.push(Spring::new(
            e.nat_len,
            e.a,
            e.b,
            true,
            0,
            params.k_real,
            Some(max_edge_len),
            Some(scalar),
        ));
        j = j + 1;
    }

    let nb = bridges.len();
    let mut b: usize = 0;
    while b < nb
        invariant
            b <= nb,
            nb == bridges@.len(),
            ne == edges@.len(),
            max_edge_len as int == max_nat_len_spec(edges@),
            springs@.len() == ne + b,
            forall|a: int|
                0 <= a < ne ==> (#[trigger] springs@[a]) == (Spring {
                    target_len: normalized_target_spec(
                        edges@[a].nat_len as int,
                        max_nat_len_spec(edges@),
                        scalar as int,
                    ) as i64,
                    k: params.k_real,
                    node1: edges@[a].a,
                    node2: edges@[a].b,
                    is_real: true,
                    relation: 0u32,
                }),
            forall|a: int|
                0 <= a < b ==> (#[trigger] springs@[ne + a]) == (Spring {
                    target_len: normalized_target_spec(
                        bridges@[a].nat_len as int,
                        max_nat_len_spec(edges@),
                        scalar as int,
                    ) as i64,
                    k: params.k_synthetic,
                    node1: bridges@[a].a,
                    node2: bridges@[a].b,
                    is_real: false,
                    relation: 0u32,
                }),
        decreases nb - b,
    {
        let e = bridges[b];
        springs.push(Spring::new(
            e.nat_len,
            e.a,
            e.b,
            false,
            0,
            params.k_synthetic,
            Some(max_edge_len),
            Some(scalar),
        ));
        b = b + 1;
    }

    proof {
        assert(edges_connected(springs@, nodes@)) by {
            assert forall|a: int|
                0 <= a < springs@.len() implies nodes@.contains_key((#[trigger] springs@[a]).node1)
                && nodes@.contains_key(springs@[a].node2) by {
                if a < ne {
                    assert(springs@[a].node1 == edges@[a].a && springs@[a].node2 == edges@[a].b);
                    let w1 = choose|j: int|
                        0 <= j < vertices@.len() && (#[trigger] vertices@[j]).id == edges@[a].a;
                    let w2 = choose|j: int|
                        0 <= j < vertices@.len() && (#[trigger] vertices@[j]).id == edges@[a].b;
                    assert(nodes@.contains_key(edges@[a].a));
                    assert(nodes@.contains_key(edges@[a].b));
                } else {
                    assert(springs@[ne + (a - ne)].node1 == bridges@[a - ne].a && springs@[ne + (
                    a - ne)].node2 == bridges@[a - ne].b);
                    let w1 = choose|j: int|
                        0 <= j < vertices@.len() && (#[trigger] vertices@[j]).id == bridges@[a
                            - ne].a;
                    let w2 = choose|j: int|
                        0 <= j < vertices@.len() && (#[trigger] vertices@[j]).id == bridges@[a
                            - ne].b;
                    assert(nodes@.contains_key(bridges@[a - ne].a));
                    assert(nodes@.contains_key(bridges@[a - ne].b));
                }
            }
        }
    }
    ForceDirectedGraph::new(nodes, springs, max_edge_len, scalar, params, max_iters)
}

/// Select up to `k` key vertices of one connected component: a vertex of
/// maximal degree first, then a random sample of the remainder.  `None`
/// exactly when the component is empty or no key was asked for.
pub fn get_k_key_clusters(component: &Vec<VertexDegree>, k: usize) -> (r: Option<Vec<ClusterID>>)
    requires
        component@.len() <= i64::MAX,
        forall|a: int, b: int|
            0 <= a < b < component@.len() ==> (#[trigger] component@[a]).id != (
            #[trigger] component@[b]).id,
    ensures
        match r {
            Some(keys) => {
                &&& component@.len() > 0 && k > 0
                &&& keys@.len() == if k <= component@.len() {
                    k as int
                } else {
                    component@.len() as int
                }
                &&& forall|i: int| 0 <= i < keys@.len() ==> in_component(component@, #[trigger] keys@[i])
                &&& forall|a: int, b: int|
                    0 <= a < b < keys@.len() ==> (#[trigger] keys@[a]) != (#[trigger] keys@[b])
                &&& exists|m: int|
                    0 <= m < component@.len() && (#[trigger] component@[m]).id == keys@[0]
                        && forall|j: int|
                        0 <= j < component@.len() ==> (#[trigger] component@[j]).degree
                            <= component@[m].degree
            },
            None => component@.len() == 0 || k == 0,
        },
{
    let n = component.len();
    if n == 0 || k == 0 {
        return None;
    }

    // The anchor: a vertex of maximal degree.
    let mut best: usize = 0;
    let mut i: usize = 1;
    while i < n
        invariant
            1 <= i <= n,
            n == component@.len(),
            best < i,
            forall|j: int|
                0 <= j < i ==> (#[trigger] component@[j]).degree <= component@[best as int].degree,
        decreases n - i,
    {
        if component[i].degree > component[best].degree {
            best = i;
        }
        i = i + 1;
    }

    let mut keys: Vec<ClusterID> = Vec::new();
    keys.push(component[best].id);

    // The remainder, in component order.
    let mut rest: Vec<ClusterID> = Vec::new();
    let mut j: usize = 0;
    while j < n
        invariant
            j <= n,
            n == component@.len(),
            best < n,
            rest@.len() <= j,
            forall|a: int| 0 <= a < rest@.len() ==> in_component(component@, #[trigger] rest@[a]),
            rest@.len() == if j <= best {
                j as int
            } else {
                j - 1
            },
            forall|a: int|
                0 <= a < rest@.len() ==> (#[trigger] rest@[a]) == component@[if a < best {
                    a
                } else {
                    a + 1
                }].id,
        decreases n - j,
    {
        if j != best {
            rest.push(component[j].id);
        }
        j = j + 1;
    }
    proof {
        // The remainder maps injectively into the component, skipping the
        // anchor, so it is duplicate-free and avoids the anchor's id.
        assert forall|a: int, b: int|
            0 <= a < b < rest@.len() implies (#[trigger] rest@[a]) != (#[trigger] rest@[b]) by {
            let ia: int = if a < best {
                a
            } else {
                a + 1
            };
            let ib: int = if b < best {
                b
            } else {
                b + 1
            };
            assert(component@[ia].id != component@[ib].id);
        }
        assert forall|a: int|
            0 <= a < rest@.len() implies (#[trigger] rest@[a]) != component@[best as int].id by {
            let ia: int = if a < best {
                a
            } else {
                a + 1
            };
            assert(component@[ia].id != component@[best as int].id);
        }
    }

    // A random sample of the remainder, by partial selection.
    let mut taken: usize = 1;
    while taken < k && rest.len() > 0
        invariant
            1 <= taken <= k,
            keys@.len() == taken,
            taken + rest@.len() == n,
            n == component@.len() <= i64::MAX,
            forall|a: int| 0 <= a < rest@.len() ==> in_component(component@, #[trigger] rest@[a]),
            forall|a: int| 0 <= a < keys@.len() ==> in_component(component@, #[trigger] keys@[a]),
            keys@[0] == component@[best as int].id,
            best < n,
            forall|a: int, b: int|
                0 <= a < b < keys@.len() ==> (#[trigger] keys@[a]) != (#[trigger] keys@[b]),
            forall|a: int, b: int|
                0 <= a < b < rest@.len() ==> (#[trigger] rest@[a]) != (#[trigger] rest@[b]),
            forall|a: int, b: int|
                0 <= a < keys@.len() && 0 <= b < rest@.len() ==> (#[trigger] keys@[a]) != (
                #[trigger] rest@[b]),
        decreases k - taken,
    {
        let ghost pre_rest = rest@;
        let pick = rand_index(rest.len());
        let chosen = rest[pick];
        keys.push(chosen);
        let last = rest.len() - 1;
        let moved = rest[last];
        rest.set(pick, moved);
        rest.pop();
        proof {
            // The drawn id moved out of the remainder: every surviving slot
            // holds an old slot other than the drawn one.
            assert(rest@ =~= pre_rest.update(pick as int, moved).drop_last());
            assert forall|a: int|
                0 <= a < rest@.len() implies (#[trigger] rest@[a]) == pre_rest[if a == pick {
                last as int
            } else {
                a
            }] by {}
            assert forall|a: int, b: int|
                0 <= a < b < rest@.len() implies (#[trigger] rest@[a]) != (
            #[trigger] rest@[b]) by {
                let ia: int = if a == pick {
                    last as int
                } else {
                    a
                };
                let ib: int = if b == pick {
                    last as int
                } else {
                    b
                };
                assert(pre_rest[ia] != pre_rest[ib]);
            }
            assert forall|a: int|
                0 <= a < rest@.len() implies chosen != (#[trigger] rest@[a]) by {
                let ia: int = if a == pick {
                    last as int
                } else {
                    a
                };
                assert(ia != pick);
                assert(pre_rest[ia] != pre_rest[pick as int]);
            }
        }
        taken = taken + 1;
    }
    proof {
        assert(in_component(component@, component@[best as int].id));
    }
    Some(keys)
}

/// Every cross pair of key vertices from two distinct components, in row
/// order: the synthetic bridges that keep the spring network connected.
pub fn cross_pollinate_components(keys1: &Vec<ClusterID>, keys2: &Vec<ClusterID>) -> (r: Vec<
    (ClusterID, ClusterID),
>)
    ensures
        r@.len() == keys1@.len() * keys2@.len(),
        forall|i: int|
            0 <= i < r@.len() ==> #[trigger] r@[i] == (
                keys1@[i / keys2@.len() as int],
                keys2@[i % keys2@.len() as int],
            ),
        forall|i: int|
            0 <= i < r@.len() ==> keys1@.contains((#[trigger] r@[i]).0) && keys2@.contains(
                r@[i].1,
            ),
{
    let n1 = keys1.len();
    let n2 = keys2.len();
    let mut out: Vec<(ClusterID, ClusterID)> = Vec::new();
    let mut i: usize = 0;
    proof {
        assert(0int * n2 == 0) by (nonlinear_arith);
    }
    while i < n1
        invariant
            i <= n1,
            n1 == keys1@.len(),
            n2 == keys2@.len(),
            out@.len() == i * n2,
            forall|w: int|
                0 <= w < out@.len() ==> #[trigger] out@[w] == (
                    keys1@[w / n2 as int],
                    keys2@[w % n2 as int],
                ),
            forall|a: int|
                0 <= a < out@.len() ==> keys1@.contains((#[trigger] out@[a]).0) && keys2@.contains(
                    out@[a].1,
                ),
        decreases n1 - i,
    {
        let a = keys1[i];
        let mut j: usize = 0;
        while j < n2
            invariant
                j <= n2,
                i < n1,
                n1 == keys1@.len(),
                n2 == keys2@.len(),
                a == keys1@[i as int],
                out@.len() == i * n2 + j,
                forall|w: int|
                    0 <= w < out@.len() ==> #[trigger] out@[w] == (
                        keys1@[w / n2 as int],
                        keys2@[w % n2 as int],
                    ),
                forall|b: int|
                    0 <= b < out@.len() ==> keys1@.contains((#[trigger] out@[b]).0)
                        && keys2@.contains(out@[b].1),
            decreases n2 - j,
        {
            out.push((a, keys2[j]));
            proof {
                let w = out@.len() - 1;
                assert(w == i * n2 + j);
                assert(w / n2 as int == i && w % n2 as int == j) by (nonlinear_arith)
                    requires
                        w == i * n2 + j,
                        0 <= j < n2,
                        0 <= i,
                ;
                assert(keys1@.contains(a)) by {
                    assert(keys1@[i as int] == a);
                }
                assert(keys2@.contains(keys2@[j as int]));
            }
            j = j + 1;
        }
        proof {
            assert((i + 1int) * n2 == i * n2 + n2) by (nonlinear_arith);
        }
        i = i + 1;
    }
    proof {
        assert(out@.len() == n1 * n2) by (nonlinear_arith)
            requires
                out@.len() == (n1 as int) * (n2 as int),
        ;
    }
    out
}

/// The pair joins two distinct components: its first id is a member of one
/// component, its second a member of another.
pub open spec fn cross_pair(
    components: Seq<Vec<VertexDegree>>,
    p: (ClusterID, ClusterID),
) -> bool {
    exists|c1: int, c2: int|
        0 <= c1 < components.len() && 0 <= c2 < components.len() && c1 != c2
            && #[trigger] in_component(components[c1]@, p.0) && #[trigger] in_component(
            components[c2]@,
            p.1,
        )
}

/// Some output pair joins component `c1` (by its first id) to component
/// `c2` (by its second id).
pub open spec fn bridges(
    out: Seq<(ClusterID, ClusterID)>,
    components: Seq<Vec<VertexDegree>>,
    c1: int,
    c2: int,
) -> bool {
    exists|w: int|
        0 <= w < out.len() && in_component(components[c1]@, (#[trigger] out[w]).0) && in_component(
            components[c2]@,
            out[w].1,
        )
}

/// A bridge survives appending further pairs.
proof fn lemma_bridges_push(
    out: Seq<(ClusterID, ClusterID)>,
    x: (ClusterID, ClusterID),
    components: Seq<Vec<VertexDegree>>,
    c1: int,
    c2: int,
)
    requires
        bridges(out, components, c1, c2),
    ensures
        bridges(out.push(x), components, c1, c2),
{
    let w = choose|w: int|
        0 <= w < out.len() && in_component(components[c1]@, (#[trigger] out[w]).0) && in_component(
            components[c2]@,
            out[w].1,
        );
    assert(out.push(x)[w] == out[w]);
}

/// The bridge pairs across every two distinct components: each component's
/// key set is crossed with every later component's key set, so every two
/// non-empty components end up joined by at least one bridge (the
/// connectivity guarantee of the synthetic spring network).
pub fn create_intercomponent_edges(components: &Vec<Vec<VertexDegree>>, k: usize) -> (r: Vec<
    (ClusterID, ClusterID),
>)
    requires
        forall|c: int|
            0 <= c < components@.len() ==> (#[trigger] components@[c])@.len() <= i64::MAX,
        forall|c: int, a: int, b: int|
            0 <= c < components@.len() && 0 <= a < b < (#[trigger] components@[c])@.len() ==> (
            #[trigger] components@[c]@[a]).id != (#[trigger] components@[c]@[b]).id,
    ensures
        forall|i: int| 0 <= i < r@.len() ==> cross_pair(components@, #[trigger] r@[i]),
        k > 0 ==> forall|c1: int, c2: int|
            0 <= c1 < c2 < components@.len() && (#[trigger] components@[c1])@.len() > 0 && (
            #[trigger] components@[c2])@.len() > 0 ==> bridges(r@, components@, c1, c2),
{
    let nc = components.len();
    let mut out: Vec<(ClusterID, ClusterID)> = Vec::new();
    let mut i: usize = 0;
    while i < nc
        invariant
            i <= nc,
            nc == components@.len(),
            forall|c: int|
                0 <= c < components@.len() ==> (#[trigger] components@[c])@.len() <= i64::MAX,
            forall|c: int, a: int, b: int|
                0 <= c < components@.len() && 0 <= a < b < (#[trigger] components@[c])@.len()
                    ==> (#[trigger] components@[c]@[a]).id != (#[trigger] components@[c]@[b]).id,
            forall|a: int| 0 <= a < out@.len() ==> cross_pair(components@, #[trigger] out@[a]),
            k > 0 ==> forall|c1: int, c2: int|
                0 <= c1 < c2 < nc && c1 < i && (#[trigger] components@[c1])@.len() > 0 && (
                #[trigger] components@[c2])@.len() > 0 ==> bridges(out@, components@, c1, c2),
        decreases nc - i,
    {
        let keys1 = get_k_key_clusters(&components[i], k);
        match keys1 {
            Some(keys1) => {
                let mut j: usize = i + 1;
                while j < nc
                    invariant
                        i < j <= nc,
                        nc == components@.len(),
                        k > 0,
                        forall|c: int|
                            0 <= c < components@.len() ==> (#[trigger] components@[c])@.len()
                                <= i64::MAX,
                        forall|c: int, a: int, b: int|
                            0 <= c < components@.len() && 0 <= a < b < (
                            #[trigger] components@[c])@.len() ==> (
                            #[trigger] components@[c]@[a]).id != (
                            #[trigger] components@[c]@[b]).id,
                        keys1@.len() >= 1,
                        forall|a: int|
                            0 <= a < keys1@.len() ==> in_component(
                                components@[i as int]@,
                                #[trigger] keys1@[a],
                            ),
                        forall|a: int|
                            0 <= a < out@.len() ==> cross_pair(components@, #[trigger] out@[a]),
                        forall|c1: int, c2: int|
                            0 <= c1 < c2 < nc && c1 < i && (#[trigger] components@[c1])@.len() > 0
                                && (#[trigger] components@[c2])@.len() > 0 ==> bridges(
                                out@,
                                components@,
                                c1,
                                c2,
                            ),
                        forall|c2: int|
                            i < c2 < j && (#[trigger] components@[c2])@.len() > 0 ==> bridges(
                                out@,
                                components@,
                                i as int,
                                c2,
                            ),
                    decreases nc - j,
                {
                    let keys2 = get_k_key_clusters(&components[j], k);
                    match keys2 {
                        Some(keys2) => {
                            let pairs = cross_pollinate_components(&keys1, &keys2);
                            let np = pairs.len();
                            proof {
                                assert(np >= 1) by (nonlinear_arith)
                                    requires
                                        np == keys1@.len() * keys2@.len(),
                                        keys1@.len() >= 1,
                                        keys2@.len() >= 1,
                                ;
                            }
                            let mut p: usize = 0;
                            while p < np
                                invariant
                                    p <= np,
                                    np == pairs@.len(),
                                    i < j < nc,
                                    nc == components@.len(),
                                    forall|a: int|
                                        0 <= a < keys1@.len() ==> in_component(
                                            components@[i as int]@,
                                            #[trigger] keys1@[a],
                                        ),
                                    forall|a: int|
                                        0 <= a < keys2@.len() ==> in_component(
                                            components@[j as int]@,
                                            #[trigger] keys2@[a],
                                        ),
                                    forall|a: int|
                                        0 <= a < pairs@.len() ==> keys1@.contains(
                                            (#[trigger] pairs@[a]).0,
                                        ) && keys2@.contains(pairs@[a].1),
                                    forall|a: int|
                                        0 <= a < out@.len() ==> cross_pair(
                                            components@,
                                            #[trigger] out@[a],
                                        ),
                                    forall|c1: int, c2: int|
                                        0 <= c1 < c2 < nc && c1 < i && (
                                        #[trigger] components@[c1])@.len() > 0 && (
                                        #[trigger] components@[c2])@.len() > 0 ==> bridges(
                                            out@,
                                            components@,
                                            c1,
                                            c2,
                                        ),
                                    forall|c2: int|
                                        i < c2 < j && (#[trigger] components@[c2])@.len() > 0
                                            ==> bridges(out@, components@, i as int, c2),
                                    p >= 1 ==> bridges(out@, components@, i as int, j as int),
                                decreases np - p,
                            {
                                let pair = pairs[p];
                                let ghost pre_out = out@;
                                proof {
                                    let a1 = choose|a: int|
                                        0 <= a < keys1@.len() && keys1@[a] == pair.0;
                                    let a2 = choose|a: int|
                                        0 <= a < keys2@.len() && keys2@[a] == pair.1;
                                    assert(in_component(components@[i as int]@, pair.0));
                                    assert(in_component(components@[j as int]@, pair.1));
                                }
                                out.push(pair);
                                proof {
                                    let idx = out@.len() - 1;
                                    assert(out@[idx] == pair);
                                    assert(cross_pair(components@, out@[idx]));
                                    assert(bridges(out@, components@, i as int, j as int));
                                    assert forall|c1: int, c2: int|
                                        0 <= c1 < c2 < nc && c1 < i && (
                                        #[trigger] components@[c1])@.len() > 0 && (
                                        #[trigger] components@[c2])@.len() > 0 implies bridges(
                                        out@,
                                        components@,
                                        c1,
                                        c2,
                                    ) by {
                                        lemma_bridges_push(pre_out, pair, components@, c1, c2);
                                    }
                                    assert forall|c2: int|
                                        i < c2 < j && (#[trigger] components@[c2])@.len() > 0 implies bridges(
                                        out@,
                                        components@,
                                        i as int,
                                        c2,
                                    ) by {
                                        lemma_bridges_push(pre_out, pair, components@, i as int, c2);
                                    }
                                }
                                p = p + 1;
                            }
                        },
                        None => {
                            proof {
                                assert(components@[j as int]@.len() == 0 || k == 0);
                            }
                        },
                    }
                    j = j + 1;
                }
            },
            None => {
                proof {
                    if k > 0 {
                        assert(components@[i as int]@.len() == 0);
                    }
                }
            },
        }
        i = i + 1;
    }
    out
}

} // verus!
