//! The hierarchical embedding engine: the layout starts with the cluster
//! tree's root split into its two children and grows depth-first, splitting
//! each frontier node into its children as the tree is descended,
//! re-deriving springs and pruning stale ones.
//!
//! The frontier is always one depth-cut through the tree: a map from the
//! currently materialized vertex ids to their nodes.  Every spring's two
//! endpoints exist as frontier keys, except transiently between
//! [`ForceDirectedGraph::split_nodes`] and
//! [`ForceDirectedGraph::split_springs`], which
//! [`ForceDirectedGraph::advance_frontier`] runs back to back.
//!
//! The tree itself stays with the upstream collaborator: each split arrives
//! as a [`SplitInfo`] record of plain values (children, cardinalities, and
//! the three raw source-space distances), and spring rewiring reads child
//! records and a distance table supplied the same way.

use vstd::prelude::*;
use vstd::string::StringSliceAdditionalSpecFns;
use crate::cluster_id::ClusterID;
use crate::engine::{EdgeData, SpringParams, apply_spring_list, apply_synthetic_pulls,
    apply_springs_spec, edges_connected, integrate_all_spec, integrate_nodes,
    synthetic_springs_of};
use crate::error::FFIError;
use crate::fixed::sat64;
use crate::node_map::NodeMap;
use crate::physics_node::{PhysicsNode, DEFAULT_FRICTION, DEFAULT_MAX_SPEED};
use crate::spring::{Spring, all_nodes_wf, normalized_target_spec, lemma_normalized_target_nonneg};
use crate::triangle::{calc_circle_intersection, calc_triangle_distances,
    circle_intersection_spec, is_valid_triangle, triangle_targets_spec, valid_triangle_spec};
use crate::vec3::Vec3Fx;

verus! {

/// How a split places the two children around the parent.
#[derive(Clone, Copy, Debug, PartialEq, Eq, Structural)]
pub enum PlacementStrategy {
    /// Deterministic: the left child along the negative x axis at its
    /// target distance, the right child where the two target circles meet.
    /// Reproduces all three target distances exactly (up to fixed-point
    /// rounding).
    CircleIntersection,
    /// Each child at an independently random position inside the cube of
    /// its target radius around the parent; the child-to-child target is
    /// left to the springs.
    RandomWithinRadius,
}

/// Everything one split needs, handed over by the tree's owner: the two
/// children with their cardinalities and the three raw source-space
/// distances (child to child, parent to left, parent to right).
#[derive(Clone, Copy, Debug, PartialEq, Eq, Structural)]
pub struct SplitInfo {
    pub parent: ClusterID,
    pub left: ClusterID,
    pub right: ClusterID,
    pub left_cardinality: i64,
    pub right_cardinality: i64,
    pub raw_children: i64,
    pub raw_left: i64,
    pub raw_right: i64,
}

impl SplitInfo {
    /// Plain data sanity: positive cardinalities, non-negative distances,
    /// and three distinct ids.
    pub open spec fn wf(self) -> bool {
        &&& self.left_cardinality >= 1
        &&& self.right_cardinality >= 1
        &&& self.raw_children >= 0
        &&& self.raw_left >= 0
        &&& self.raw_right >= 0
        &&& self.left != self.right
        &&& self.left != self.parent
        &&& self.right != self.parent
    }
}

/// A parent id with its two children, for spring rewiring.
#[derive(Clone, Copy, Debug, PartialEq, Eq, Structural)]
pub struct ChildRecord {
    pub parent: ClusterID,
    pub left: ClusterID,
    pub right: ClusterID,
}

/// The child's position lies inside the cube of radius `d` around `c`.
pub open spec fn in_cube(p: Vec3Fx, c: Vec3Fx, d: int) -> bool {
    &&& sat64(c.x - d) <= p.x <= sat64(c.x + d)
    &&& sat64(c.y - d) <= p.y <= sat64(c.y + d)
    &&& sat64(c.z - d) <= p.z <= sat64(c.z + d)
}

/// What each strategy guarantees of the two child positions, given the
/// parent's position and the three scaled targets (`tc` child to child,
/// `tl` parent to left, `tr` parent to right).
pub open spec fn placement_ok(
    strategy: PlacementStrategy,
    parent: Vec3Fx,
    tc: int,
    tl: int,
    tr: int,
    left_pos: Vec3Fx,
    right_pos: Vec3Fx,
) -> bool {
    match strategy {
        PlacementStrategy::CircleIntersection => {
            &&& left_pos == (Vec3Fx { x: sat64(parent.x - tl) as i64, y: parent.y, z: parent.z })
            &&& right_pos == circle_intersection_spec(parent, tr, left_pos, tc, tl)
        },
        PlacementStrategy::RandomWithinRadius => {
            &&& in_cube(left_pos, parent, tl)
            &&& in_cube(right_pos, parent, tr)
        },
    }
}

/// Under the deterministic strategy the left child's rendered distance to
/// the parent is exactly its target: the child sits at the parent shifted
/// by the target along one axis, and the integer square root of a perfect
/// square is exact.  (The right child's two distances follow the circle
/// intersection up to fixed-point rounding, checked at runtime.)
pub proof fn lemma_left_placement_exact(parent: Vec3Fx, tl: int)
    requires
        0 <= tl <= i64::MAX,
        // No component saturates: the shifted coordinate and its negation
        // stay inside the representable range.
        i64::MIN < parent.x - tl,
        tl - parent.x <= i64::MAX,
        parent.y > i64::MIN,
        parent.z > i64::MIN,
    ensures
        ({
            let left_pos = Vec3Fx { x: sat64(parent.x - tl) as i64, y: parent.y, z: parent.z };
            crate::vec3::norm_spec(
                crate::vec3::vadd_spec(parent, crate::vec3::vneg_spec(left_pos)),
            ) == tl
        }),
{
    let left_pos = Vec3Fx { x: sat64(parent.x - tl) as i64, y: parent.y, z: parent.z };
    let diff = crate::vec3::vadd_spec(parent, crate::vec3::vneg_spec(left_pos));
    assert(diff.x == tl && diff.y == 0 && diff.z == 0);
    assert(crate::vec3::norm2(diff) == tl * tl) by (nonlinear_arith)
        requires
            diff.x == tl,
            diff.y == 0,
            diff.z == 0,
    ;
    crate::vec3::lemma_isqrt_exact_square(tl);
}

/// The spring created between the two children of a split.
pub open spec fn child_spring_spec(info: SplitInfo, k: i64, max_edge_len: i64, scalar: i64) -> Spring {
    Spring {
        target_len: normalized_target_spec(
            info.raw_children as int,
            max_edge_len as int,
            scalar as int,
        ) as i64,
        k: k,
        node1: info.left,
        node2: info.right,
        is_real: true,
        relation: 0u32,
    }
}

/// Split one node into its two children: validate the triangle inequality
/// on the three scaled targets, place the children by the strategy, and
/// create the child-to-child spring with a fresh `relation`.  Fails without
/// placing when the targets cannot close a triangle, or (for the
/// deterministic strategy) when the left target vanishes and the
/// intersection direction is undefined.
pub fn split_node(
    node: &PhysicsNode,
    info: &SplitInfo,
    scalar: i64,
    max_edge_len: i64,
    k: i64,
    strategy: PlacementStrategy,
) -> (r: Result<(PhysicsNode, PhysicsNode, Spring), FFIError>)
    requires
        info.wf(),
        scalar >= 0,
    ensures
        ({
            let t = triangle_targets_spec(
                info.raw_children as int,
                info.raw_left as int,
                info.raw_right as int,
                max_edge_len as int,
                scalar as int,
            );
            match r {
                Ok(out) => {
                    &&& valid_triangle_spec(t.0, t.1, t.2)
                    &&& out.0.wf() && out.0.at_rest() && out.0.mass == info.left_cardinality
                    &&& out.0.friction == DEFAULT_FRICTION && out.0.max_speed == DEFAULT_MAX_SPEED
                    &&& out.1.wf() && out.1.at_rest() && out.1.mass == info.right_cardinality
                    &&& out.1.friction == DEFAULT_FRICTION && out.1.max_speed == DEFAULT_MAX_SPEED
                    &&& placement_ok(
                        strategy,
                        node.position,
                        t.0,
                        t.1,
                        t.2,
                        out.0.position,
                        out.1.position,
                    )
                    &&& out.2 == child_spring_spec(*info, k, max_edge_len, scalar)
                },
                Err(e) => {
                    ||| !valid_triangle_spec(t.0, t.1, t.2) && e == FFIError::GraphBuildFailed
                    ||| strategy is CircleIntersection && t.1 < 1 && e == FFIError::DivisionByZero
                },
            }
        }),
{
    let (tc, tl, tr) = calc_triangle_distances(
        info.raw_children,
        info.raw_left,
        info.raw_right,
        max_edge_len,
        scalar,
    );
    proof {
        lemma_normalized_target_nonneg(info.raw_children as int, max_edge_len as int, scalar as int);
        lemma_normalized_target_nonneg(info.raw_left as int, max_edge_len as int, scalar as int);
        lemma_normalized_target_nonneg(info.raw_right as int, max_edge_len as int, scalar as int);
    }
    if !is_valid_triangle(tc, tl, tr) {
        return Err(FFIError::GraphBuildFailed);
    }

    let root_pos = node.get_position();
    let spring = Spring::new(
        info.raw_children,
        info.left,
        info.right,
        true,
        0,
        k,
        Some(max_edge_len),
        Some(scalar),
    );

    match strategy {
        PlacementStrategy::CircleIntersection => {
            let left_pos = Vec3Fx::new(crate::fixed::sat_sub(root_pos.x, tl), root_pos.y, root_pos.z);
            let right_pos = match calc_circle_intersection(&root_pos, tr, &left_pos, tc, tl) {
                Ok(p) => p,
                Err(e) => {
                    proof {
                        assert(tl <= sat64(tr + tc));
                        assert(tl >= sat64(tr - tc));
                        assert(tl >= sat64(tc - tr));
                    }
                    return Err(FFIError::DivisionByZero);
                },
            };
            let left_node = PhysicsNode::new(left_pos, info.left_cardinality);
            let right_node = PhysicsNode::new(right_pos, info.right_cardinality);
            Ok((left_node, right_node, spring))
        },
        PlacementStrategy::RandomWithinRadius => {
            let lx = crate::rng::rand_in_range(
                crate::fixed::sat_sub(root_pos.x, tl),
                crate::fixed::sat_add(root_pos.x, tl),
            );
            let ly = crate::rng::rand_in_range(
                crate::fixed::sat_sub(root_pos.y, tl),
                crate::fixed::sat_add(root_pos.y, tl),
            );
            let lz = crate::rng::rand_in_range(
                crate::fixed::sat_sub(root_pos.z, tl),
                crate::fixed::sat_add(root_pos.z, tl),
            );
            let rx = crate::rng::rand_in_range(
                crate::fixed::sat_sub(root_pos.x, tr),
                crate::fixed::sat_add(root_pos.x, tr),
            );
            let ry = crate::rng::rand_in_range(
                crate::fixed::sat_sub(root_pos.y, tr),
                crate::fixed::sat_add(root_pos.y, tr),
            );
            let rz = crate::rng::rand_in_range(
                crate::fixed::sat_sub(root_pos.z, tr),
                crate::fixed::sat_add(root_pos.z, tr),
            );
            let left_node = PhysicsNode::new(Vec3Fx::new(lx, ly, lz), info.left_cardinality);
            let right_node = PhysicsNode::new(Vec3Fx::new(rx, ry, rz), info.right_cardinality);
            Ok((left_node, right_node, spring))
        },
    }
}

/// Some split of the batch has this parent.
pub open spec fn is_split_parent(splits: Seq<SplitInfo>, id: ClusterID) -> bool {
    exists|i: int| 0 <= i < splits.len() && (#[trigger] splits[i]).parent == id
}

/// Some split of the batch creates this id as a child.
pub open spec fn is_split_child(splits: Seq<SplitInfo>, id: ClusterID) -> bool {
    exists|i: int|
        0 <= i < splits.len() && ((#[trigger] splits[i]).left == id || splits[i].right == id)
}

/// The split's three scaled targets close a (possibly degenerate)
/// triangle.
pub open spec fn split_triangle_ok(s: SplitInfo, max_edge_len: i64, scalar: i64) -> bool {
    let t = triangle_targets_spec(
        s.raw_children as int,
        s.raw_left as int,
        s.raw_right as int,
        max_edge_len as int,
        scalar as int,
    );
    valid_triangle_spec(t.0, t.1, t.2)
}

/// The split's parent-to-left target is large enough to give the circle
/// intersection a direction.
pub open spec fn split_circle_ok(s: SplitInfo, max_edge_len: i64, scalar: i64) -> bool {
    triangle_targets_spec(
        s.raw_children as int,
        s.raw_left as int,
        s.raw_right as int,
        max_edge_len as int,
        scalar as int,
    ).1 >= 1
}

/// Whether one split can be placed under the given strategy.
pub open spec fn split_valid(
    s: SplitInfo,
    max_edge_len: i64,
    scalar: i64,
    strategy: PlacementStrategy,
) -> bool {
    split_triangle_ok(s, max_edge_len, scalar) && (strategy is CircleIntersection
        ==> split_circle_ok(s, max_edge_len, scalar))
}

/// A batch of splits the frontier can take atomically: each parent is
/// materialized, parents are pairwise distinct, and all children are fresh
/// and pairwise distinct.
pub open spec fn split_batch_ok(splits: Seq<SplitInfo>, m: Map<ClusterID, PhysicsNode>) -> bool {
    &&& forall|i: int| 0 <= i < splits.len() ==> (#[trigger] splits[i]).wf()
    &&& forall|i: int| 0 <= i < splits.len() ==> m.contains_key((#[trigger] splits[i]).parent)
    &&& forall|i: int|
        0 <= i < splits.len() ==> !m.contains_key((#[trigger] splits[i]).left) && !m.contains_key(
            splits[i].right,
        )
    &&& forall|i: int, j: int|
        0 <= i < splits.len() && 0 <= j < splits.len() && i != j ==> (#[trigger] splits[i]).parent
            != (#[trigger] splits[j]).parent && splits[i].left != splits[j].left && splits[i].left
            != splits[j].right && splits[i].right != splits[j].left && splits[i].right
            != splits[j].right
}

/// The hierarchical embedding engine.
pub struct ForceDirectedGraph {
    /// The frontier: one node per currently materialized vertex.
    pub graph: NodeMap,
    pub springs: Vec<Spring>,
    /// Physics iterations per depth level.
    pub max_iters: usize,
    pub cur_depth: usize,
    pub scalar: i64,
    /// The frozen normalizer of every spring target.
    pub max_edge_len: i64,
    pub params: SpringParams,
    pub strategy: PlacementStrategy,
}

impl ForceDirectedGraph {
    /// The frontier is a well-formed store of well-formed nodes, and the
    /// target scale is non-negative.
    pub open spec fn wf(self) -> bool {
        &&& self.graph.wf()
        &&& all_nodes_wf(self.graph@)
        &&& self.scalar >= 0
    }

    /// Every spring's endpoints are materialized (violated only transiently
    /// during a split).
    pub open spec fn springs_connected(self) -> bool {
        edges_connected(self.springs@, self.graph@)
    }

    /// Start the embedding: a single root node at the origin, immediately
    /// split into its two children.
    pub fn new(
        root_cardinality: i64,
        root_split: &SplitInfo,
        scalar: i64,
        max_iters: usize,
        max_edge_len: i64,
        params: SpringParams,
        strategy: PlacementStrategy,
    ) -> (r: Result<ForceDirectedGraph, FFIError>)
        requires
            root_cardinality >= 1,
            root_split.wf(),
            scalar >= 0,
        ensures
            match r {
                Ok(g) => {
                    let t = triangle_targets_spec(
                        root_split.raw_children as int,
                        root_split.raw_left as int,
                        root_split.raw_right as int,
                        max_edge_len as int,
                        scalar as int,
                    );
                    &&& g.wf()
                    &&& g.springs_connected()
                    &&& valid_triangle_spec(t.0, t.1, t.2)
                    &&& g.graph.spec_len() == 2
                    &&& g.graph@.contains_key(root_split.left)
                    &&& g.graph@.contains_key(root_split.right)
                    &&& g.graph@[root_split.left].at_rest()
                    &&& g.graph@[root_split.left].mass == root_split.left_cardinality
                    &&& g.graph@[root_split.right].at_rest()
                    &&& g.graph@[root_split.right].mass == root_split.right_cardinality
                    &&& placement_ok(
                        strategy,
                        Vec3Fx { x: 0i64, y: 0i64, z: 0i64 },
                        t.0,
                        t.1,
                        t.2,
                        g.graph@[root_split.left].position,
                        g.graph@[root_split.right].position,
                    )
                    &&& g.springs@.len() == 1
                    &&& g.springs@[0] == child_spring_spec(*root_split, params.k_real, max_edge_len, scalar)
                    &&& g.scalar == scalar && g.max_edge_len == max_edge_len && g.max_iters
                        == max_iters && g.params == params && g.strategy == strategy && g.cur_depth
                        == 0
                },
                Err(e) => {
                    let t = triangle_targets_spec(
                        root_split.raw_children as int,
                        root_split.raw_left as int,
                        root_split.raw_right as int,
                        max_edge_len as int,
                        scalar as int,
                    );
                    ||| !valid_triangle_spec(t.0, t.1, t.2) && e == FFIError::GraphBuildFailed
                    ||| strategy is CircleIntersection && t.1 < 1 && e == FFIError::DivisionByZero
                },
            },
    {
        let root = PhysicsNode::new(Vec3Fx::zero(), root_cardinality);
        let (left_node, right_node, spring) = match split_node(
            &root,
            root_split,
            scalar,
            max_edge_len,
            params.k_real,
            strategy,
        ) {
            Ok(out) => out,
            Err(e) => {
                return Err(e);
            },
        };
        let mut graph = NodeMap::new();
        graph.insert(root_split.left, left_node);
        graph.insert(root_split.right, right_node);
        let mut springs: Vec<Spring> = Vec::new();
        springs.push(spring);
        Ok(
            ForceDirectedGraph {
                graph,
                springs,
                max_iters,
                cur_depth: 0,
                scalar,
                max_edge_len,
                params,
                strategy,
            },
        )
    }

    pub fn scalar(&self) -> (r: i64)
        ensures
            r == self.scalar,
    {
        self.scalar
    }

    pub fn max_edge_len(&self) -> (r: i64)
        ensures
            r == self.max_edge_len,
    {
        self.max_edge_len
    }

    /// The current position of a frontier vertex, or a not-found condition
    /// (expected transiently during a split).
    pub fn get_cluster_position(&self, id: ClusterID) -> (r: Result<Vec3Fx, String>)
        requires
            self.wf(),
        ensures
            match r {
                Ok(p) => self.graph@.contains_key(id) && p == self.graph@[id].position,
                Err(m) => !self.graph@.contains_key(id) && m@ == "Cluster not found"@,
            },
    {
        match self.graph.get(id) {
            Some(n) => Ok(n.get_position()),
            None => Err("Cluster not found".to_owned()),
        }
    }

    pub fn contains(&self, id: ClusterID) -> (r: bool)
        ensures
            r == self.graph@.contains_key(id),
    {
        self.graph.contains(id)
    }

    /// One synthetic pull per sampled frontier pair, using the provider's
    /// true pairwise distance.
    pub fn accumulate_random_forces(&mut self, pulls: &Vec<EdgeData>)
        requires
            old(self).wf(),
            forall|i: int|
                0 <= i < pulls@.len() ==> old(self).graph@.contains_key((#[trigger] pulls@[i]).a)
                    && old(self).graph@.contains_key(pulls@[i].b),
        ensures
            final(self).wf(),
            final(self).graph@ =~= apply_springs_spec(
                synthetic_springs_of(
                    pulls@,
                    old(self).params.k_synthetic,
                    old(self).max_edge_len,
                    old(self).scalar,
                ),
                old(self).graph@,
            ),
            final(self).graph@.dom() =~= old(self).graph@.dom(),
            final(self).springs == old(self).springs,
            final(self).graph.spec_len() == old(self).graph.spec_len(),
            unchanged_config(*old(self), *final(self)),
    {
        apply_synthetic_pulls(
            &mut self.graph,
            pulls,
            self.params.k_synthetic,
            self.max_edge_len,
            self.scalar,
        );
    }

    /// One physics relaxation epoch over the frontier: every spring's force
    /// pair, the random anti-collapse pulls, then one integration.
    pub fn run_single_epoch(&mut self, pulls: &Vec<EdgeData>)
        requires
            old(self).wf(),
            old(self).springs_connected(),
            forall|i: int|
                0 <= i < pulls@.len() ==> old(self).graph@.contains_key((#[trigger] pulls@[i]).a)
                    && old(self).graph@.contains_key(pulls@[i].b),
        ensures
            final(self).wf(),
            final(self).springs_connected(),
            final(self).graph@ =~= integrate_all_spec(
                apply_springs_spec(
                    synthetic_springs_of(
                        pulls@,
                        old(self).params.k_synthetic,
                        old(self).max_edge_len,
                        old(self).scalar,
                    ),
                    apply_springs_spec(old(self).springs@, old(self).graph@),
                ),
            ),
            final(self).graph@.dom() =~= old(self).graph@.dom(),
            final(self).springs == old(self).springs,
            unchanged_config(*old(self), *final(self)),
    {
        let springs = &self.springs;
        apply_spring_list(&mut self.graph, springs);
        apply_synthetic_pulls(
            &mut self.graph,
            pulls,
            self.params.k_synthetic,
            self.max_edge_len,
            self.scalar,
        );
        integrate_nodes(&mut self.graph);
    }

    /// Split every listed frontier node into its two children, atomically
    /// replacing one key with two; returns the new child-to-child springs.
    /// Succeeds exactly when every split can be placed; otherwise it fails
    /// without touching the frontier.
    #[verifier::rlimit(100)]
    pub fn split_nodes(&mut self, splits: &Vec<SplitInfo>) -> (r: Result<Vec<Spring>, FFIError>)
        requires
            old(self).wf(),
            split_batch_ok(splits@, old(self).graph@),
        ensures
            final(self).wf(),
            final(self).springs == old(self).springs,
            unchanged_config(*old(self), *final(self)),
            r is Ok <==> (forall|i: int|
                0 <= i < splits@.len() ==> split_valid(
                    #[trigger] splits@[i],
                    old(self).max_edge_len,
                    old(self).scalar,
                    old(self).strategy,
                )),
            r matches Err(e) ==> ((e == FFIError::GraphBuildFailed && exists|i: int|
                0 <= i < splits@.len() && !split_triangle_ok(
                    #[trigger] splits@[i],
                    old(self).max_edge_len,
                    old(self).scalar,
                )) || (e == FFIError::DivisionByZero && old(self).strategy is CircleIntersection
                && exists|i: int|
                0 <= i < splits@.len() && !split_circle_ok(
                    #[trigger] splits@[i],
                    old(self).max_edge_len,
                    old(self).scalar,
                ))),
            match r {
                Ok(child_springs) => {
                    &&& final(self).graph.spec_len() == old(self).graph.spec_len() + splits@.len()
                    &&& forall|id: ClusterID| #[trigger]
                        final(self).graph@.contains_key(id) <==> ((old(self).graph@.contains_key(id)
                            && !is_split_parent(splits@, id)) || is_split_child(splits@, id))
                    &&& forall|id: ClusterID|
                        old(self).graph@.contains_key(id) && !is_split_parent(splits@, id)
                            ==> #[trigger] final(self).graph@[id] == old(self).graph@[id]
                    &&& forall|i: int|
                        0 <= i < splits@.len() ==> {
                            let s = #[trigger] splits@[i];
                            let t = triangle_targets_spec(
                                s.raw_children as int,
                                s.raw_left as int,
                                s.raw_right as int,
                                old(self).max_edge_len as int,
                                old(self).scalar as int,
                            );
                            &&& valid_triangle_spec(t.0, t.1, t.2)
                            &&& final(self).graph@[s.left].mass == s.left_cardinality
                            &&& final(self).graph@[s.left].at_rest()
                            &&& final(self).graph@[s.right].mass == s.right_cardinality
                            &&& final(self).graph@[s.right].at_rest()
                            &&& placement_ok(
                                old(self).strategy,
                                old(self).graph@[s.parent].position,
                                t.0,
                                t.1,
                                t.2,
                                final(self).graph@[s.left].position,
                                final(self).graph@[s.right].position,
                            )
                        }
                    &&& child_springs@.len() == splits@.len()
                    &&& forall|i: int|
                        0 <= i < splits@.len() ==> (#[trigger] child_springs@[i])
                            == child_spring_spec(
                            splits@[i],
                            old(self).params.k_real,
                            old(self).max_edge_len,
                            old(self).scalar,
                        )
                },
                Err(_) => final(self).graph == old(self).graph,
            },
    {
        let n = splits.len();

        // Validate every split before touching the frontier, so a failure
        // leaves no partial state.
        let mut v: usize = 0;
        while v < n
            invariant
                v <= n,
                n == splits@.len(),
                self == old(self),
                old(self).wf(),
                forall|i: int| 0 <= i < splits@.len() ==> (#[trigger] splits@[i]).wf(),
                old(self).scalar >= 0,
                forall|i: int|
                    0 <= i < v ==> split_valid(
                        #[trigger] splits@[i],
                        old(self).max_edge_len,
                        old(self).scalar,
                        old(self).strategy,
                    ),
            decreases n - v,
        {
            let s = splits[v];
            let (tc, tl, tr) = calc_triangle_distances(
                s.raw_children,
                s.raw_left,
                s.raw_right,
                self.max_edge_len,
                self.scalar,
            );
            if !is_valid_triangle(tc, tl, tr) {
                proof {
                    assert(!split_triangle_ok(splits@[v as int], self.max_edge_len, self.scalar));
                    assert(!split_valid(
                        splits@[v as int],
                        self.max_edge_len,
                        self.scalar,
                        self.strategy,
                    ));
                }
                return Err(FFIError::GraphBuildFailed);
            }
            let circle = match self.strategy {
                PlacementStrategy::CircleIntersection => true,
                PlacementStrategy::RandomWithinRadius => false,
            };
            if circle && tl < 1 {
                proof {
                    assert(!split_circle_ok(splits@[v as int], self.max_edge_len, self.scalar));
                    assert(!split_valid(
                        splits@[v as int],
                        self.max_edge_len,
                        self.scalar,
                        self.strategy,
                    ));
                }
                return Err(FFIError::DivisionByZero);
            }
            v = v + 1;
        }

        let mut child_springs: Vec<Spring> = Vec::new();
        let mut i: usize = 0;
        while i < n
            invariant
                i <= n,
                n == splits@.len(),
                self.wf(),
                self.springs == old(self).springs,
                unchanged_config(*old(self), *self),
                split_batch_ok(splits@, old(self).graph@),
                forall|j: int|
                    0 <= j < splits@.len() ==> split_valid(
                        #[trigger] splits@[j],
                        old(self).max_edge_len,
                        old(self).scalar,
                        old(self).strategy,
                    ),
                self.graph.spec_len() == old(self).graph.spec_len() + i,
                forall|id: ClusterID| #[trigger]
                    self.graph@.contains_key(id) <==> ((old(self).graph@.contains_key(id)
                        && !is_split_parent(splits@.subrange(0, i as int), id)) || is_split_child(
                        splits@.subrange(0, i as int),
                        id,
                    )),
                forall|id: ClusterID|
                    old(self).graph@.contains_key(id) && !is_split_parent(
                        splits@.subrange(0, i as int),
                        id,
                    ) ==> #[trigger] self.graph@[id] == old(self).graph@[id],
                forall|j: int|
                    0 <= j < i ==> {
                        let s = #[trigger] splits@[j];
                        let t = triangle_targets_spec(
                            s.raw_children as int,
                            s.raw_left as int,
                            s.raw_right as int,
                            old(self).max_edge_len as int,
                            old(self).scalar as int,
                        );
                        &&& self.graph@.contains_key(s.left) && self.graph@.contains_key(s.right)
                        &&& self.graph@[s.left].mass == s.left_cardinality
                        &&& self.graph@[s.left].at_rest()
                        &&& self.graph@[s.right].mass == s.right_cardinality
                        &&& self.graph@[s.right].at_rest()
                        &&& placement_ok(
                            old(self).strategy,
                            old(self).graph@[s.parent].position,
                            t.0,
                            t.1,
                            t.2,
                            self.graph@[s.left].position,
                            self.graph@[s.right].position,
                        )
                    },
                child_springs@.len() == i,
                forall|j: int|
                    0 <= j < i ==> (#[trigger] child_springs@[j]) == child_spring_spec(
                        splits@[j],
                        old(self).params.k_real,
                        old(self).max_edge_len,
                        old(self).scalar,
                    ),
            decreases n - i,
        {
            let s = splits[i];
            proof {
                assert(splits@[i as int].parent == s.parent);
                assert(!is_split_parent(splits@.subrange(0, i as int), s.parent)) by {
                    if is_split_parent(splits@.subrange(0, i as int), s.parent) {
                        let w = choose|w: int|
                            0 <= w < i && (#[trigger] splits@.subrange(0, i as int)[w]).parent
                                == s.parent;
                        assert(splits@[w].parent == splits@[i as int].parent);
                    }
                }
                assert(self.graph@.contains_key(s.parent));
            }
            let parent_node = match self.graph.get(s.parent) {
                Some(nd) => nd,
                None => {
                    proof {
                        assert(false);
                    }
                    PhysicsNode::new(Vec3Fx::zero(), 1)
                },
            };
            let out = match split_node(
                &parent_node,
                &s,
                self.scalar,
                self.max_edge_len,
                self.params.k_real,
                self.strategy,
            ) {
                Ok(out) => out,
                Err(_) => {
                    proof {
                        assert(false);
                    }
                    return Err(FFIError::GraphBuildFailed);
                },
            };
            self.graph.remove(s.parent);
            self.graph.insert(s.left, out.0);
            self.graph.insert(s.right, out.1);
            child_springs.push(out.2);
            proof {
                let pre = splits@.subrange(0, i as int);
                let cur = splits@.subrange(0, i + 1int);
                assert(forall|w: int| 0 <= w < i ==> (#[trigger] cur[w]) == pre[w]);
                assert(cur[i as int] == s);
                assert(!old(self).graph@.contains_key(s.left));
                assert(!old(self).graph@.contains_key(s.right));
                assert forall|id: ClusterID| #[trigger]
                    self.graph@.contains_key(id) <==> ((old(self).graph@.contains_key(id)
                        && !is_split_parent(cur, id)) || is_split_child(cur, id)) by {
                    if is_split_parent(cur, id) {
                        let w = choose|w: int| 0 <= w < cur.len() && (#[trigger] cur[w]).parent == id;
                        if w < i {
                            assert(pre[w].parent == id);
                            assert(is_split_parent(pre, id));
                        }
                    }
                    if is_split_parent(pre, id) {
                        let w = choose|w: int| 0 <= w < pre.len() && (#[trigger] pre[w]).parent == id;
                        assert(cur[w].parent == id);
                        assert(is_split_parent(cur, id));
                    }
                    if is_split_child(cur, id) && !(id == s.left || id == s.right) {
                        let w = choose|w: int|
                            0 <= w < cur.len() && ((#[trigger] cur[w]).left == id || cur[w].right
                                == id);
                        assert(w < i);
                        assert(pre[w].left == id || pre[w].right == id);
                        assert(is_split_child(pre, id));
                    }
                    if is_split_child(pre, id) {
                        let w = choose|w: int|
                            0 <= w < pre.len() && ((#[trigger] pre[w]).left == id || pre[w].right
                                == id);
                        assert(cur[w].left == id || cur[w].right == id);
                        assert(is_split_child(cur, id));
                    }
                    if id == s.parent {
                        // A parent of this batch is never another split's child.
                        if is_split_child(cur, id) {
                            let w = choose|w: int|
                                0 <= w < cur.len() && ((#[trigger] cur[w]).left == id
                                    || cur[w].right == id);
                            assert(!old(self).graph@.contains_key(
                                if cur[w].left == id {
                                    cur[w].left
                                } else {
                                    cur[w].right
                                },
                            ));
                        }
                    }
                }
                assert forall|j: int|
                    0 <= j < i + 1 implies {
                    let sj = #[trigger] splits@[j];
                    &&& self.graph@.contains_key(sj.left) && self.graph@.contains_key(sj.right)
                } by {
                    let sj = splits@[j];
                    assert(is_split_child(cur, sj.left)) by {
                        assert(cur[j].left == sj.left);
                    }
                    assert(is_split_child(cur, sj.right)) by {
                        assert(cur[j].right == sj.right);
                    }
                }
            }
            i = i + 1;
        }
        proof {
            assert(splits@.subrange(0, n as int) =~= splits@);
        }
        Ok(child_springs)
    }

    /// Rewire every existing spring after a split pass, appending to
    /// `next_springs`: a spring whose endpoints both survive is kept as it
    /// is; every spring touching a split id is replaced by the cross
    /// product of the replacement vertex sets on each side, with targets
    /// re-derived from the distance table and `relation` incremented.
    /// Fails when a child record or a tabulated distance is missing, or a
    /// replacement id is not materialized.
    pub fn split_springs(
        &self,
        next_springs: &mut Vec<Spring>,
        children: &Vec<ChildRecord>,
        dists: &Vec<EdgeData>,
    ) -> (r: Result<(), FFIError>)
        requires
            self.wf(),
        ensures
            match r {
                Ok(()) => {
                    &&& rewired_all(
                        self.springs@,
                        self.graph@,
                        children@,
                        dists@,
                        self.max_edge_len,
                        self.scalar,
                    ) matches Some(rew) && final(next_springs)@ =~= old(next_springs)@ + rew
                    &&& forall|i: int|
                        old(next_springs)@.len() <= i < final(next_springs)@.len()
                            ==> self.graph@.contains_key(
                            (#[trigger] final(next_springs)@[i]).node1,
                        ) && self.graph@.contains_key(final(next_springs)@[i].node2)
                },
                Err(_) => rewired_all(
                    self.springs@,
                    self.graph@,
                    children@,
                    dists@,
                    self.max_edge_len,
                    self.scalar,
                ) is None,
            },
    {
        let n = self.springs.len();
        let mut i: usize = 0;
        while i < n
            invariant
                i <= n,
                n == self.springs@.len(),
                self.wf(),
                rewired_all(
                    self.springs@.subrange(0, i as int),
                    self.graph@,
                    children@,
                    dists@,
                    self.max_edge_len,
                    self.scalar,
                ) matches Some(acc) && next_springs@ =~= old(next_springs)@ + acc,
                forall|j: int|
                    old(next_springs)@.len() <= j < next_springs@.len()
                        ==> self.graph@.contains_key((#[trigger] next_springs@[j]).node1)
                        && self.graph@.contains_key(next_springs@[j].node2),
            decreases n - i,
        {
            let s = self.springs[i];
            let ghost pre_acc = rewired_all(
                self.springs@.subrange(0, i as int),
                self.graph@,
                children@,
                dists@,
                self.max_edge_len,
                self.scalar,
            )->Some_0;
            let alive1 = self.graph.contains(s.node1);
            let alive2 = self.graph.contains(s.node2);
            if alive1 && alive2 {
                next_springs.push(s);
                proof {
                    assert(rewired_springs_for(
                        s,
                        self.graph@,
                        children@,
                        dists@,
                        self.max_edge_len,
                        self.scalar,
                    ) == Some(seq![s]));
                    assert(next_springs@ =~= old(next_springs)@ + pre_acc.push(s));
                    assert(pre_acc.push(s) =~= pre_acc + seq![s]);
                }
            } else {
                // The replacement id lists for the two endpoints.
                let mut reps1: Vec<ClusterID> = Vec::new();
                if alive1 {
                    reps1.push(s.node1);
                } else {
                    match find_child(children, s.node1) {
                        Some(c) => {
                            if !self.graph.contains(c.left) || !self.graph.contains(c.right) {
                                proof {
                                    lemma_rewire_failure(*self, children@, dists@, i as int);
                                }
                                return Err(FFIError::GraphBuildFailed);
                            }
                            reps1.push(c.left);
                            reps1.push(c.right);
                        },
                        None => {
                            proof {
                                lemma_rewire_failure(*self, children@, dists@, i as int);
                            }
                            return Err(FFIError::GraphBuildFailed);
                        },
                    }
                }
                let mut reps2: Vec<ClusterID> = Vec::new();
                if alive2 {
                    reps2.push(s.node2);
                } else {
                    match find_child(children, s.node2) {
                        Some(c) => {
                            if !self.graph.contains(c.left) || !self.graph.contains(c.right) {
                                proof {
                                    lemma_rewire_failure(*self, children@, dists@, i as int);
                                }
                                return Err(FFIError::GraphBuildFailed);
                            }
                            reps2.push(c.left);
                            reps2.push(c.right);
                        },
                        None => {
                            proof {
                                lemma_rewire_failure(*self, children@, dists@, i as int);
                            }
                            return Err(FFIError::GraphBuildFailed);
                        },
                    }
                }
                proof {
                    assert(replacement_ids(self.graph@, children@, s.node1) == Some(reps1@));
                    assert(replacement_ids(self.graph@, children@, s.node2) == Some(reps2@));
                }

                // The cross product of the replacement lists, in row order.
                let mut pairs: Vec<(ClusterID, ClusterID)> = Vec::new();
                let mut a: usize = 0;
                while a < reps1.len()
                    invariant
                        a <= reps1@.len(),
                        1 <= reps2@.len() <= 2,
                        1 <= reps1@.len() <= 2,
                        pairs@.len() == a * reps2@.len(),
                        forall|w: int|
                            0 <= w < pairs@.len() ==> (#[trigger] pairs@[w]) == (
                            reps1@[w / reps2@.len() as int],
                            reps2@[w % reps2@.len() as int],
                            ),
                    decreases reps1@.len() - a,
                {
                    let mut b: usize = 0;
                    while b < reps2.len()
                        invariant
                            a < reps1@.len(),
                            b <= reps2@.len(),
                            1 <= reps2@.len() <= 2,
                            1 <= reps1@.len() <= 2,
                            pairs@.len() == a * reps2@.len() + b,
                            forall|w: int|
                                0 <= w < pairs@.len() ==> (#[trigger] pairs@[w]) == (
                                reps1@[w / reps2@.len() as int],
                                reps2@[w % reps2@.len() as int],
                                ),
                        decreases reps2@.len() - b,
                    {
                        pairs.push((reps1[a], reps2[b]));
                        proof {
                            let w = pairs@.len() - 1;
                            assert(w == a * reps2@.len() + b);
                            assert(w / reps2@.len() as int == a && w % reps2@.len() as int == b)
                                by (nonlinear_arith)
                                requires
                                    w == a * reps2@.len() + b,
                                    0 <= b < reps2@.len(),
                                    0 <= a,
                            ;
                        }
                        b = b + 1;
                    }
                    proof {
                        assert((a + 1int) * reps2@.len() == a * reps2@.len() + reps2@.len())
                            by (nonlinear_arith);
                    }
                    a = a + 1;
                }
                proof {
                    assert(pairs@ =~= replacement_pairs(
                        self.graph@,
                        children@,
                        s.node1,
                        s.node2,
                    )->Some_0);
                }

                // One rewired spring per pair, each with a tabulated distance.
                let ghost spec_pairs = pairs@;
                let mut p: usize = 0;
                while p < pairs.len()
                    invariant
                        p <= pairs@.len(),
                        pairs@ == spec_pairs,
                        self.wf(),
                        i < n,
                        n == self.springs@.len(),
                        s == self.springs@[i as int],
                        !(self.graph@.contains_key(s.node1) && self.graph@.contains_key(s.node2)),
                        replacement_pairs(self.graph@, children@, s.node1, s.node2) == Some(
                            spec_pairs,
                        ),
                        springs_of_pairs(
                            s,
                            pairs@.subrange(0, p as int),
                            dists@,
                            self.max_edge_len,
                            self.scalar,
                        ) matches Some(row) && next_springs@ =~= old(next_springs)@ + pre_acc + row,
                        forall|w: int|
                            0 <= w < pairs@.len() ==> self.graph@.contains_key(
                                (#[trigger] pairs@[w]).0,
                            ) && self.graph@.contains_key(pairs@[w].1),
                        forall|j: int|
                            old(next_springs)@.len() <= j < next_springs@.len()
                                ==> self.graph@.contains_key((#[trigger] next_springs@[j]).node1)
                                && self.graph@.contains_key(next_springs@[j].node2),
                    decreases pairs@.len() - p,
                {
                    let (c1, c2) = pairs[p];
                    let d = match find_dist(dists, c1, c2) {
                        Some(d) => d,
                        None => {
                            proof {
                                lemma_springs_of_pairs_none(
                                    s,
                                    pairs@,
                                    p as int,
                                    dists@,
                                    self.max_edge_len,
                                    self.scalar,
                                );
                                lemma_rewire_failure(*self, children@, dists@, i as int);
                            }
                            return Err(FFIError::GraphBuildFailed);
                        },
                    };
                    let rel = s.relation;
                    let new_rel = if rel == u32::MAX {
                        u32::MAX
                    } else {
                        rel + 1
                    };
                    let spring = Spring::new(
                        d,
                        c1,
                        c2,
                        s.is_real,
                        new_rel,
                        s.k,
                        Some(self.max_edge_len),
                        Some(self.scalar),
                    );
                    proof {
                        assert(spring == rewire_spring_spec(
                            s,
                            c1,
                            c2,
                            d,
                            self.max_edge_len,
                            self.scalar,
                        ));
                    }
                    next_springs.push(spring);
                    proof {
                        let prep = pairs@.subrange(0, p as int);
                        let curp = pairs@.subrange(0, p + 1int);
                        assert(curp.drop_last() =~= prep);
                        assert(curp.last() == pairs@[p as int]);
                        let row = springs_of_pairs(
                            s,
                            prep,
                            dists@,
                            self.max_edge_len,
                            self.scalar,
                        )->Some_0;
                        assert(next_springs@ =~= old(next_springs)@ + pre_acc + row.push(spring));
                    }
                    p = p + 1;
                }
                proof {
                    assert(pairs@.subrange(0, pairs@.len() as int) =~= pairs@);
                }
            }
            proof {
                let pre = self.springs@.subrange(0, i as int);
                let cur = self.springs@.subrange(0, i + 1int);
                assert(cur.drop_last() =~= pre);
                assert(cur.last() == s);
                let row = rewired_springs_for(
                    s,
                    self.graph@,
                    children@,
                    dists@,
                    self.max_edge_len,
                    self.scalar,
                )->Some_0;
                assert(next_springs@ =~= old(next_springs)@ + (pre_acc + row));
            }
            i = i + 1;
        }
        proof {
            assert(self.springs@.subrange(0, n as int) =~= self.springs@);
        }
        Ok(())
    }

    /// One full split pass: split the listed frontier nodes, rewire every
    /// spring over the new frontier, and install the resulting spring list
    /// (the new child-to-child springs first, the rewired ones after).  On
    /// success every spring's endpoints are materialized again.
    pub fn advance_frontier(
        &mut self,
        splits: &Vec<SplitInfo>,
        children: &Vec<ChildRecord>,
        dists: &Vec<EdgeData>,
    ) -> (r: Result<(), FFIError>)
        requires
            old(self).wf(),
            split_batch_ok(splits@, old(self).graph@),
            old(self).cur_depth < usize::MAX,
        ensures
            final(self).wf(),
            final(self).scalar == old(self).scalar,
            final(self).max_edge_len == old(self).max_edge_len,
            final(self).max_iters == old(self).max_iters,
            final(self).params == old(self).params,
            final(self).strategy == old(self).strategy,
            r is Ok ==> final(self).cur_depth == old(self).cur_depth + 1,
            r is Err ==> final(self).cur_depth == old(self).cur_depth && final(self).springs
                == old(self).springs,
            r is Ok <==> ((forall|i: int|
                0 <= i < splits@.len() ==> split_valid(
                    #[trigger] splits@[i],
                    old(self).max_edge_len,
                    old(self).scalar,
                    old(self).strategy,
                )) && rewired_all(
                old(self).springs@,
                final(self).graph@,
                children@,
                dists@,
                old(self).max_edge_len,
                old(self).scalar,
            ) is Some),
            // An invalid split leaves the engine untouched; a rewiring
            // failure leaves the frontier already split with the old spring
            // list still installed (the transient state of a split pass),
            // which the caller must not keep driving.
            !(forall|i: int|
                0 <= i < splits@.len() ==> split_valid(
                    #[trigger] splits@[i],
                    old(self).max_edge_len,
                    old(self).scalar,
                    old(self).strategy,
                )) ==> final(self).graph == old(self).graph,
            (forall|i: int|
                0 <= i < splits@.len() ==> split_valid(
                    #[trigger] splits@[i],
                    old(self).max_edge_len,
                    old(self).scalar,
                    old(self).strategy,
                )) ==> {
                &&& final(self).graph.spec_len() == old(self).graph.spec_len() + splits@.len()
                &&& forall|id: ClusterID| #[trigger]
                    final(self).graph@.contains_key(id) <==> ((old(self).graph@.contains_key(id)
                        && !is_split_parent(splits@, id)) || is_split_child(splits@, id))
            },
            r is Ok ==> {
                &&& final(self).springs_connected()
                &&& final(self).springs@.len() >= splits@.len()
                &&& forall|i: int|
                    0 <= i < splits@.len() ==> (#[trigger] final(self).springs@[i])
                        == child_spring_spec(
                        splits@[i],
                        old(self).params.k_real,
                        old(self).max_edge_len,
                        old(self).scalar,
                    )
                &&& rewired_all(
                    old(self).springs@,
                    final(self).graph@,
                    children@,
                    dists@,
                    old(self).max_edge_len,
                    old(self).scalar,
                ) matches Some(rew) && final(self).springs@ =~= Seq::new(
                    splits@.len(),
                    |i: int|
                        child_spring_spec(
                            splits@[i],
                            old(self).params.k_real,
                            old(self).max_edge_len,
                            old(self).scalar,
                        ),
                ) + rew
            },
    {
        let ghost old_springs = self.springs@;
        let mut next = match self.split_nodes(splits) {
            Ok(next) => next,
            Err(e) => {
                return Err(e);
            },
        };
        let ghost child_part = next@;
        match self.split_springs(&mut next, children, dists) {
            Ok(()) => {},
            Err(e) => {
                return Err(e);
            },
        }
        proof {
            assert(forall|i: int|
                0 <= i < child_part.len() ==> (#[trigger] next@[i]) == child_part[i]);
            assert(child_part =~= Seq::new(
                splits@.len(),
                |i: int|
                    child_spring_spec(
                        splits@[i],
                        old(self).params.k_real,
                        old(self).max_edge_len,
                        old(self).scalar,
                    ),
            ));
            assert forall|i: int|
                0 <= i < next@.len() implies self.graph@.contains_key(
                (#[trigger] next@[i]).node1,
            ) && self.graph@.contains_key(next@[i].node2) by {
                if i < child_part.len() {
                    let s = splits@[i];
                    assert(next@[i] == child_spring_spec(
                        s,
                        old(self).params.k_real,
                        old(self).max_edge_len,
                        old(self).scalar,
                    ));
                    assert(is_split_child(splits@, s.left)) by {
                        assert(splits@[i].left == s.left);
                    }
                    assert(is_split_child(splits@, s.right)) by {
                        assert(splits@[i].right == s.right);
                    }
                }
            }
        }
        self.springs = next;
        self.cur_depth = self.cur_depth + 1;
        Ok(())
    }

    /// Prune stale long-range springs: once a spring's `relation` exceeds
    /// the threshold (or unconditionally, when no threshold is given), it is
    /// dropped as soon as its endpoint clusters' true distance exceeds the
    /// sum of their radii.  `data` carries, per current spring, that
    /// distance and radius sum as the provider reports them.
    /// Prune stale long-range springs: once a spring's `relation` exceeds
    /// the threshold (or unconditionally, when no threshold is given), it is
    /// dropped as soon as its current rendered distance exceeds the sum of
    /// its endpoint clusters' radii.  `radius_sums` carries that sum per
    /// current spring, as the provider reports it; the rendered distance is
    /// read from the frontier itself.
    pub fn cleanup(&mut self, radius_sums: &Vec<i64>, relation_threshold: Option<u32>)
        requires
            old(self).wf(),
            old(self).springs_connected(),
            radius_sums@.len() == old(self).springs@.len(),
        ensures
            final(self).wf(),
            final(self).graph == old(self).graph,
            unchanged_config(*old(self), *final(self)),
            final(self).springs@ =~= prune_spec(
                old(self).springs@,
                radius_sums@,
                old(self).graph@,
                relation_threshold,
            ),
            final(self).springs_connected(),
    {
        let n = self.springs.len();
        let mut kept: Vec<Spring> = Vec::new();
        let mut i: usize = 0;
        proof {
            assert(self.springs@.subrange(0, 0) =~= Seq::<Spring>::empty());
            assert(radius_sums@.subrange(0, 0) =~= Seq::<i64>::empty());
        }
        while i < n
            invariant
                i <= n,
                n == self.springs@.len(),
                radius_sums@.len() == n,
                self == old(self),
                old(self).wf(),
                old(self).springs_connected(),
                kept@ =~= prune_spec(
                    self.springs@.subrange(0, i as int),
                    radius_sums@.subrange(0, i as int),
                    self.graph@,
                    relation_threshold,
                ),
                forall|j: int|
                    0 <= j < kept@.len() ==> exists|w: int|
                        0 <= w < i && (#[trigger] kept@[j]) == self.springs@[w],
            decreases n - i,
        {
            let s = self.springs[i];
            let sum = radius_sums[i];
            proof {
                assert(self.graph@.contains_key(s.node1) && self.graph@.contains_key(s.node2));
            }
            let n1 = match self.graph.get(s.node1) {
                Some(nd) => nd,
                None => {
                    proof {
                        assert(false);
                    }
                    PhysicsNode::new(Vec3Fx::zero(), 1)
                },
            };
            let n2 = match self.graph.get(s.node2) {
                Some(nd) => nd,
                None => {
                    proof {
                        assert(false);
                    }
                    PhysicsNode::new(Vec3Fx::zero(), 1)
                },
            };
            let rendered = n1.get_position().distance(n2.get_position());
            let keep = match relation_threshold {
                Some(t) => !(s.relation > t && rendered > sum),
                None => !(rendered > sum),
            };
            if keep {
                kept.push(s);
                proof {
                    let j = kept@.len() - 1;
                    assert(kept@[j] == self.springs@[i as int]);
                }
            }
            proof {
                let pre_s = self.springs@.subrange(0, i as int);
                let cur_s = self.springs@.subrange(0, i + 1int);
                let pre_d = radius_sums@.subrange(0, i as int);
                let cur_d = radius_sums@.subrange(0, i + 1int);
                assert(cur_s.drop_last() =~= pre_s);
                assert(cur_d.drop_last() =~= pre_d);
                assert(cur_s.last() == self.springs@[i as int]);
                assert(cur_d.last() == radius_sums@[i as int]);
            }
            i = i + 1;
        }
        proof {
            assert(self.springs@.subrange(0, n as int) =~= self.springs@);
            assert(radius_sums@.subrange(0, n as int) =~= radius_sums@);
        }
        self.springs = kept;
        proof {
            assert forall|j: int|
                0 <= j < self.springs@.len() implies self.graph@.contains_key(
                (#[trigger] self.springs@[j]).node1,
            ) && self.graph@.contains_key(self.springs@[j].node2) by {
                let w = choose|w: int|
                    0 <= w < old(self).springs@.len() && (#[trigger] self.springs@[j]) == old(
                        self,
                    ).springs@[w];
            }
        }
    }
}

/// The current rendered distance of a spring: how far apart its two
/// endpoints stand in the layout right now.
pub open spec fn rendered_dist_spec(m: Map<ClusterID, PhysicsNode>, s: Spring) -> int {
    crate::vec3::norm_spec(
        crate::vec3::vadd_spec(
            m[s.node1].position,
            crate::vec3::vneg_spec(m[s.node2].position),
        ),
    )
}

/// Whether one spring survives a prune pass: it is dropped once its
/// `relation` exceeds the threshold (or unconditionally without one) and
/// its current rendered distance exceeds the sum of its endpoint clusters'
/// radii.
pub open spec fn keep_spring(
    s: Spring,
    m: Map<ClusterID, PhysicsNode>,
    radius_sum: i64,
    relation_threshold: Option<u32>,
) -> bool {
    match relation_threshold {
        Some(t) => !(s.relation > t && rendered_dist_spec(m, s) > radius_sum),
        None => !(rendered_dist_spec(m, s) > radius_sum),
    }
}

/// Whether a depth pass prunes, and with which generation threshold.
#[derive(Clone, Copy, Debug, PartialEq, Eq, Structural)]
pub enum CleanupDecision {
    /// No pruning this depth.
    Skip,
    /// Prune springs older than the generation threshold.
    Thresholded(u32),
    /// Prune every stale spring, whatever its generation (the final pass).
    Full,
}

/// How often a depth pass prunes between full passes.
pub const CLEANUP_INTERVAL: usize = 5;

/// The generation threshold of a periodic prune.
pub const RELATION_THRESHOLD: u32 = 8;

/// The pruning cadence of the depth loop: every fifth depth prunes springs
/// past the generation threshold, and the final depth prunes every stale
/// spring unconditionally.
pub fn cleanup_policy(depth: usize, is_final: bool) -> (r: CleanupDecision)
    ensures
        r == if is_final {
            CleanupDecision::Full
        } else if depth % CLEANUP_INTERVAL == 0 {
            CleanupDecision::Thresholded(RELATION_THRESHOLD)
        } else {
            CleanupDecision::Skip
        },
{
    if is_final {
        CleanupDecision::Full
    } else if depth % CLEANUP_INTERVAL == 0 {
        CleanupDecision::Thresholded(RELATION_THRESHOLD)
    } else {
        CleanupDecision::Skip
    }
}

/// The rendered distance between two positions, normalized by the frozen
/// longest edge and scaled: the target a spring between them would get.
pub fn vec3_distance_normalized_scaled(p1: &Vec3Fx, p2: &Vec3Fx, scalar: i64, max_len: i64) -> (r:
    i64)
    ensures
        r as int == normalized_target_spec(
            crate::vec3::norm_spec(
                crate::vec3::vadd_spec(*p1, crate::vec3::vneg_spec(*p2)),
            ),
            max_len as int,
            scalar as int,
        ),
{
    let d = p1.distance(*p2);
    let floor = if max_len < 1 {
        1
    } else {
        max_len
    };
    crate::fixed::fx_mul(crate::fixed::fx_div(d, floor), scalar)
}

/// Parse a frontier vertex's textual name into its id pair; the failure is
/// reported as a message rather than a condition code.
pub fn parse_cluster_name(name: &str) -> (r: Result<(usize, usize), String>)
    ensures
        match r {
            Ok(p) => crate::helpers::parses_to(name.spec_bytes(), p.0 as int, p.1 as int),
            Err(m) => m@ == "Could not parse cluster name"@ && forall|a: int, b: int|
                !crate::helpers::parses_to(name.spec_bytes(), a, b),
        },
{
    match crate::helpers::parse_cluster_name(name) {
        Ok(p) => Ok(p),
        Err(_) => Err("Could not parse cluster name".to_owned()),
    }
}

/// The springs surviving a prune pass, in order.
pub open spec fn prune_spec(
    springs: Seq<Spring>,
    radius_sums: Seq<i64>,
    m: Map<ClusterID, PhysicsNode>,
    relation_threshold: Option<u32>,
) -> Seq<Spring>
    decreases springs.len(),
{
    if springs.len() == 0 || springs.len() != radius_sums.len() {
        Seq::empty()
    } else {
        let pre = prune_spec(
            springs.drop_last(),
            radius_sums.drop_last(),
            m,
            relation_threshold,
        );
        if keep_spring(springs.last(), m, radius_sums.last(), relation_threshold) {
            pre.push(springs.last())
        } else {
            pre
        }
    }
}


/// The first child record for `id`, if any.
pub open spec fn child_of(children: Seq<ChildRecord>, id: ClusterID) -> Option<ChildRecord>
    decreases children.len(),
{
    if children.len() == 0 {
        None
    } else if children[0].parent == id {
        Some(children[0])
    } else {
        child_of(children.drop_first(), id)
    }
}

/// The first tabulated distance for the ordered pair `(a, b)`, if any.
pub open spec fn dist_of(dists: Seq<EdgeData>, a: ClusterID, b: ClusterID) -> Option<i64>
    decreases dists.len(),
{
    if dists.len() == 0 {
        None
    } else if dists[0].a == a && dists[0].b == b {
        Some(dists[0].nat_len)
    } else {
        dist_of(dists.drop_first(), a, b)
    }
}

/// What stands in for `id` after a split pass: itself while materialized,
/// else its two children, provided they are materialized.
pub open spec fn replacement_ids(
    m: Map<ClusterID, PhysicsNode>,
    children: Seq<ChildRecord>,
    id: ClusterID,
) -> Option<Seq<ClusterID>> {
    if m.contains_key(id) {
        Some(seq![id])
    } else {
        match child_of(children, id) {
            Some(c) => {
                if m.contains_key(c.left) && m.contains_key(c.right) {
                    Some(seq![c.left, c.right])
                } else {
                    None
                }
            },
            None => None,
        }
    }
}

/// The cross product of the two endpoints' replacement sets, in row order.
pub open spec fn replacement_pairs(
    m: Map<ClusterID, PhysicsNode>,
    children: Seq<ChildRecord>,
    n1: ClusterID,
    n2: ClusterID,
) -> Option<Seq<(ClusterID, ClusterID)>> {
    match (replacement_ids(m, children, n1), replacement_ids(m, children, n2)) {
        (Some(r1), Some(r2)) => {
            if r1.len() == 1 && r2.len() == 1 {
                Some(seq![(r1[0], r2[0])])
            } else if r1.len() == 1 {
                Some(seq![(r1[0], r2[0]), (r1[0], r2[1])])
            } else if r2.len() == 1 {
                Some(seq![(r1[0], r2[0]), (r1[1], r2[0])])
            } else {
                Some(seq![(r1[0], r2[0]), (r1[0], r2[1]), (r1[1], r2[0]), (r1[1], r2[1])])
            }
        },
        _ => None,
    }
}

/// A rewired spring: the old spring's constant, flag and incremented
/// generation, between one replacement pair, with a fresh normalized target.
pub open spec fn rewire_spring_spec(
    s: Spring,
    a: ClusterID,
    b: ClusterID,
    d: i64,
    max_edge_len: i64,
    scalar: i64,
) -> Spring {
    Spring {
        target_len: normalized_target_spec(d as int, max_edge_len as int, scalar as int) as i64,
        k: s.k,
        node1: a,
        node2: b,
        is_real: s.is_real,
        relation: if s.relation == u32::MAX {
            u32::MAX
        } else {
            (s.relation + 1) as u32
        },
    }
}

/// The rewired springs for one pair list, each needing a tabulated distance.
pub open spec fn springs_of_pairs(
    s: Spring,
    pairs: Seq<(ClusterID, ClusterID)>,
    dists: Seq<EdgeData>,
    max_edge_len: i64,
    scalar: i64,
) -> Option<Seq<Spring>>
    decreases pairs.len(),
{
    if pairs.len() == 0 {
        Some(Seq::empty())
    } else {
        match (springs_of_pairs(s, pairs.drop_last(), dists, max_edge_len, scalar), dist_of(
            dists,
            pairs.last().0,
            pairs.last().1,
        )) {
            (Some(pre), Some(d)) => Some(
                pre.push(rewire_spring_spec(s, pairs.last().0, pairs.last().1, d, max_edge_len, scalar)),
            ),
            _ => None,
        }
    }
}

/// What one old spring becomes after a split pass: itself while both
/// endpoints survive, else the cross product of the endpoints' replacements
/// with re-derived targets and an incremented generation; `None` when a
/// child record or a tabulated distance is missing.
pub open spec fn rewired_springs_for(
    s: Spring,
    m: Map<ClusterID, PhysicsNode>,
    children: Seq<ChildRecord>,
    dists: Seq<EdgeData>,
    max_edge_len: i64,
    scalar: i64,
) -> Option<Seq<Spring>> {
    if m.contains_key(s.node1) && m.contains_key(s.node2) {
        Some(seq![s])
    } else {
        match replacement_pairs(m, children, s.node1, s.node2) {
            Some(pairs) => springs_of_pairs(s, pairs, dists, max_edge_len, scalar),
            None => None,
        }
    }
}

/// The concatenation of every old spring's rewiring, in order.
pub open spec fn rewired_all(
    springs: Seq<Spring>,
    m: Map<ClusterID, PhysicsNode>,
    children: Seq<ChildRecord>,
    dists: Seq<EdgeData>,
    max_edge_len: i64,
    scalar: i64,
) -> Option<Seq<Spring>>
    decreases springs.len(),
{
    if springs.len() == 0 {
        Some(Seq::empty())
    } else {
        match (rewired_all(springs.drop_last(), m, children, dists, max_edge_len, scalar),
        rewired_springs_for(springs.last(), m, children, dists, max_edge_len, scalar)) {
            (Some(pre), Some(row)) => Some(pre + row),
            _ => None,
        }
    }
}

/// Linear search for the child record of `id` (first match).
fn find_child(children: &Vec<ChildRecord>, id: ClusterID) -> (r: Option<ChildRecord>)
    ensures
        r == child_of(children@, id),
{
    let n = children.len();
    proof {
        assert(children@.subrange(0, n as int) =~= children@);
    }
    let mut i: usize = 0;
    while i < n
        invariant
            i <= n,
            n == children@.len(),
            child_of(children@, id) == child_of(children@.subrange(i as int, n as int), id),
        decreases n - i,
    {
        proof {
            let sub = children@.subrange(i as int, n as int);
            assert(sub[0] == children@[i as int]);
            assert(sub.drop_first() =~= children@.subrange(i + 1int, n as int));
        }
        if children[i].parent == id {
            return Some(children[i]);
        }
        i = i + 1;
    }
    proof {
        assert(children@.subrange(n as int, n as int) =~= Seq::<ChildRecord>::empty());
    }
    None
}

/// Linear search for the tabulated distance of the ordered pair `(a, b)`.
fn find_dist(dists: &Vec<EdgeData>, a: ClusterID, b: ClusterID) -> (r: Option<i64>)
    ensures
        r == dist_of(dists@, a, b),
{
    let n = dists.len();
    proof {
        assert(dists@.subrange(0, n as int) =~= dists@);
    }
    let mut i: usize = 0;
    while i < n
        invariant
            i <= n,
            n == dists@.len(),
            dist_of(dists@, a, b) == dist_of(dists@.subrange(i as int, n as int), a, b),
        decreases n - i,
    {
        proof {
            let sub = dists@.subrange(i as int, n as int);
            assert(sub[0] == dists@[i as int]);
            assert(sub.drop_first() =~= dists@.subrange(i + 1int, n as int));
        }
        if dists[i].a == a && dists[i].b == b {
            return Some(dists[i].nat_len);
        }
        i = i + 1;
    }
    proof {
        assert(dists@.subrange(n as int, n as int) =~= Seq::<EdgeData>::empty());
    }
    None
}

/// A missing tabulated distance for any pair fails the whole pair list.
proof fn lemma_springs_of_pairs_none(
    s: Spring,
    pairs: Seq<(ClusterID, ClusterID)>,
    p: int,
    dists: Seq<EdgeData>,
    max_edge_len: i64,
    scalar: i64,
)
    requires
        0 <= p < pairs.len(),
        dist_of(dists, pairs[p].0, pairs[p].1) is None,
    ensures
        springs_of_pairs(s, pairs, dists, max_edge_len, scalar) is None,
    decreases pairs.len(),
{
    if p < pairs.len() - 1 {
        assert(pairs.drop_last()[p] == pairs[p]);
        lemma_springs_of_pairs_none(s, pairs.drop_last(), p, dists, max_edge_len, scalar);
    }
}

/// A failed rewiring of any spring fails the whole pass.
proof fn lemma_rewire_failure(
    g: ForceDirectedGraph,
    children: Seq<ChildRecord>,
    dists: Seq<EdgeData>,
    i: int,
)
    requires
        0 <= i < g.springs@.len(),
        rewired_springs_for(
            g.springs@[i],
            g.graph@,
            children,
            dists,
            g.max_edge_len,
            g.scalar,
        ) is None,
    ensures
        rewired_all(g.springs@, g.graph@, children, dists, g.max_edge_len, g.scalar) is None,
{
    lemma_rewired_all_none(g.springs@, i, g.graph@, children, dists, g.max_edge_len, g.scalar);
}

/// A failed rewiring of any spring fails the whole pass (induction).
proof fn lemma_rewired_all_none(
    springs: Seq<Spring>,
    i: int,
    m: Map<ClusterID, PhysicsNode>,
    children: Seq<ChildRecord>,
    dists: Seq<EdgeData>,
    max_edge_len: i64,
    scalar: i64,
)
    requires
        0 <= i < springs.len(),
        rewired_springs_for(springs[i], m, children, dists, max_edge_len, scalar) is None,
    ensures
        rewired_all(springs, m, children, dists, max_edge_len, scalar) is None,
    decreases springs.len(),
{
    if i < springs.len() - 1 {
        assert(springs.drop_last()[i] == springs[i]);
        lemma_rewired_all_none(springs.drop_last(), i, m, children, dists, max_edge_len, scalar);
    }
}

/// The engine's configuration fields are unchanged between two states.
pub open spec fn unchanged_config(a: ForceDirectedGraph, b: ForceDirectedGraph) -> bool {
    &&& b.scalar == a.scalar
    &&& b.max_edge_len == a.max_edge_len
    &&& b.max_iters == a.max_iters
    &&& b.cur_depth == a.cur_depth
    &&& b.params == a.params
    &&& b.strategy == a.strategy
}

} // verus!
