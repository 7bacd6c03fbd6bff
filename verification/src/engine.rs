//! The flat embedding engine: one node per vertex, one spring per
//! similarity edge, plus synthetic inter-component bridges, advanced by
//! `step`, or driven live through the handshake of [`crate::protocol`].
//!
//! The upstream collaborator (the cluster-graph provider) hands the engine a
//! vertex set, a weighted edge set, and distances for sampled vertex pairs;
//! the engine owns all state and every state change is an exact function of
//! the inputs and the random draws.

use vstd::prelude::*;
use crate::cluster_id::{ClusterID, ClusterIDs};
use crate::error::FFIError;
use crate::fixed::SCALE;
use crate::node_map::NodeMap;
use crate::physics_node::{PhysicsNode, update_spec};
use crate::protocol::{Status, BackgroundAction, background_on_wake, host_on_poll,
    host_request_shutdown, must_wait};
use crate::spring::{Spring, all_nodes_wf, move_nodes_spec, normalized_target_spec,
    DEFAULT_STIFFNESS};
use crate::vec3::Vec3Fx;

verus! {

/// One vertex as handed over by the cluster-graph provider.
#[derive(Clone, Copy, Debug, PartialEq, Eq, Structural)]
pub struct VertexData {
    pub id: ClusterID,
    /// The cluster's cardinality; it becomes the node's mass.
    pub cardinality: i64,
}

/// One weighted edge as handed over by the provider: a raw source-space
/// distance between two vertex ids, in fixed-point units.
#[derive(Clone, Copy, Debug, PartialEq, Eq, Structural)]
pub struct EdgeData {
    pub a: ClusterID,
    pub b: ClusterID,
    pub nat_len: i64,
}

/// Some vertex of the sequence carries this id.
pub open spec fn has_vertex(vs: Seq<VertexData>, id: ClusterID) -> bool {
    exists|i: int| 0 <= i < vs.len() && (#[trigger] vs[i]).id == id
}

/// The largest natural length of the edge set, or one unit for an empty
/// set: the frozen normalizer of every spring target.
pub open spec fn max_nat_len_spec(s: Seq<EdgeData>) -> int
    decreases s.len(),
{
    if s.len() == 0 {
        SCALE as int
    } else {
        let rest = max_nat_len_spec(s.drop_last());
        if s.len() == 1 || s.last().nat_len >= rest {
            s.last().nat_len as int
        } else {
            rest
        }
    }
}

/// The node store after applying every spring of `edges` in order.
pub open spec fn apply_springs_spec(edges: Seq<Spring>, m: Map<ClusterID, PhysicsNode>) -> Map<
    ClusterID,
    PhysicsNode,
>
    decreases edges.len(),
{
    if edges.len() == 0 {
        m
    } else {
        move_nodes_spec(edges.last(), apply_springs_spec(edges.drop_last(), m))
    }
}

/// The node store after integrating every node once.
pub open spec fn integrate_all_spec(m: Map<ClusterID, PhysicsNode>) -> Map<
    ClusterID,
    PhysicsNode,
> {
    Map::new(|k: ClusterID| m.dom().contains(k), |k: ClusterID| update_spec(m[k]))
}

/// Every spring's two endpoints exist as keys of the node store: the
/// embedding-state invariant.
pub open spec fn edges_connected(edges: Seq<Spring>, m: Map<ClusterID, PhysicsNode>) -> bool {
    forall|i: int|
        0 <= i < edges.len() ==> m.contains_key((#[trigger] edges[i]).node1) && m.contains_key(
            edges[i].node2,
        )
}

/// The synthetic spring applied for one sampled vertex pair, under the
/// given stiffness, frozen normalizer and scale.
pub open spec fn synthetic_spring_of(e: EdgeData, k: i64, max_edge_len: i64, scalar: i64) -> Spring {
    Spring {
        target_len: normalized_target_spec(
            e.nat_len as int,
            max_edge_len as int,
            scalar as int,
        ) as i64,
        k: k,
        node1: e.a,
        node2: e.b,
        is_real: false,
        relation: 0,
    }
}

/// The synthetic springs of one random anti-collapse pass, in order.
pub open spec fn synthetic_springs_of(
    pulls: Seq<EdgeData>,
    k: i64,
    max_edge_len: i64,
    scalar: i64,
) -> Seq<Spring> {
    pulls.map(|i: int, e: EdgeData| synthetic_spring_of(e, k, max_edge_len, scalar))
}

/// The position of the entry carrying `id`, where one exists (unique in a
/// well-formed store).
pub open spec fn entry_index_of(s: Seq<(ClusterID, PhysicsNode)>, id: ClusterID) -> int {
    choose|j: int| 0 <= j < s.len() && (#[trigger] s[j]).0 == id
}

/// How many sampled pairs have `id` as their first component.
pub open spec fn count_with_first(s: Seq<(ClusterID, ClusterID)>, id: ClusterID) -> int
    decreases s.len(),
{
    if s.len() == 0 {
        0
    } else {
        count_with_first(s.drop_last(), id) + (if s.last().0 == id {
            1int
        } else {
            0int
        })
    }
}

/// Apply every spring of the list to the node store, in order.
pub fn apply_spring_list(nodes: &mut NodeMap, springs: &Vec<Spring>)
    requires
        old(nodes).wf(),
        all_nodes_wf(old(nodes)@),
        edges_connected(springs@, old(nodes)@),
    ensures
        final(nodes).wf(),
        all_nodes_wf(final(nodes)@),
        final(nodes)@ =~= apply_springs_spec(springs@, old(nodes)@),
        final(nodes)@.dom() =~= old(nodes)@.dom(),
        final(nodes).spec_len() == old(nodes).spec_len(),
{
    let n = springs.len();
    let mut i: usize = 0;
    while i < n
        invariant
            i <= n,
            n == springs@.len(),
            nodes.wf(),
            all_nodes_wf(nodes@),
            nodes@.dom() =~= old(nodes)@.dom(),
            nodes.spec_len() == old(nodes).spec_len(),
            nodes@ =~= apply_springs_spec(springs@.subrange(0, i as int), old(nodes)@),
            edges_connected(springs@, old(nodes)@),
        decreases n - i,
    {
        let e = springs[i];
        e.move_nodes(nodes);
        proof {
            let pre = springs@.subrange(0, i as int);
            let cur = springs@.subrange(0, i + 1int);
            assert(cur.drop_last() =~= pre);
            assert(cur.last() == springs@[i as int]);
        }
        i = i + 1;
    }
    proof {
        assert(springs@.subrange(0, n as int) =~= springs@);
    }
}

/// Apply one synthetic spring per sampled pair: the random anti-collapse
/// pass over a node store.
pub fn apply_synthetic_pulls(
    nodes: &mut NodeMap,
    pulls: &Vec<EdgeData>,
    k: i64,
    max_edge_len: i64,
    scalar: i64,
)
    requires
        old(nodes).wf(),
        all_nodes_wf(old(nodes)@),
        forall|i: int|
            0 <= i < pulls@.len() ==> old(nodes)@.contains_key((#[trigger] pulls@[i]).a) && old(
                nodes,
            )@.contains_key(pulls@[i].b),
    ensures
        final(nodes).wf(),
        all_nodes_wf(final(nodes)@),
        final(nodes)@ =~= apply_springs_spec(
            synthetic_springs_of(pulls@, k, max_edge_len, scalar),
            old(nodes)@,
        ),
        final(nodes)@.dom() =~= old(nodes)@.dom(),
        final(nodes).spec_len() == old(nodes).spec_len(),
{
    let n = pulls.len();
    let mut i: usize = 0;
    while i < n
        invariant
            i <= n,
            n == pulls@.len(),
            nodes.wf(),
            all_nodes_wf(nodes@),
            nodes@.dom() =~= old(nodes)@.dom(),
            nodes.spec_len() == old(nodes).spec_len(),
            nodes@ =~= apply_springs_spec(
                synthetic_springs_of(pulls@.subrange(0, i as int), k, max_edge_len, scalar),
                old(nodes)@,
            ),
            forall|j: int|
                0 <= j < pulls@.len() ==> old(nodes)@.contains_key((#[trigger] pulls@[j]).a)
                    && old(nodes)@.contains_key(pulls@[j].b),
        decreases n - i,
    {
        let e = pulls[i];
        let spring = Spring::new(e.nat_len, e.a, e.b, false, 0, k, Some(max_edge_len), Some(scalar));
        proof {
            assert(spring == synthetic_spring_of(e, k, max_edge_len, scalar));
        }
        spring.move_nodes(nodes);
        proof {
            let pre = synthetic_springs_of(pulls@.subrange(0, i as int), k, max_edge_len, scalar);
            let cur = synthetic_springs_of(
                pulls@.subrange(0, i + 1int),
                k,
                max_edge_len,
                scalar,
            );
            assert(cur.drop_last() =~= pre);
            assert(cur.last() == synthetic_spring_of(pulls@[i as int], k, max_edge_len, scalar));
        }
        i = i + 1;
    }
    proof {
        assert(pulls@.subrange(0, n as int) =~= pulls@);
    }
}

/// Integrate every node of the store once.
pub fn integrate_nodes(nodes: &mut NodeMap)
    requires
        old(nodes).wf(),
        all_nodes_wf(old(nodes)@),
    ensures
        final(nodes).wf(),
        all_nodes_wf(final(nodes)@),
        final(nodes)@ =~= integrate_all_spec(old(nodes)@),
        final(nodes)@.dom() =~= old(nodes)@.dom(),
        final(nodes).spec_len() == old(nodes).spec_len(),
        final(nodes).entry_seq().len() == old(nodes).entry_seq().len(),
        forall|j: int|
            0 <= j < final(nodes).entry_seq().len() ==> (#[trigger] final(nodes).entry_seq()[j]).0
                == old(nodes).entry_seq()[j].0 && final(nodes).entry_seq()[j].1 == update_spec(
                old(nodes).entry_seq()[j].1,
            ),
{
    let n = nodes.len();
    let mut i: usize = 0;
    while i < n
        invariant
            i <= n,
            n == nodes.spec_len(),
            nodes.wf(),
            old(nodes).wf(),
            all_nodes_wf(old(nodes)@),
            nodes.entry_seq().len() == old(nodes).entry_seq().len(),
            forall|j: int|
                0 <= j < nodes.entry_seq().len() ==> (#[trigger] nodes.entry_seq()[j]).0 == old(
                    nodes,
                ).entry_seq()[j].0,
            forall|j: int|
                0 <= j < i ==> (#[trigger] nodes.entry_seq()[j]).1 == update_spec(
                    old(nodes).entry_seq()[j].1,
                ),
            forall|j: int|
                i <= j < nodes.entry_seq().len() ==> (#[trigger] nodes.entry_seq()[j]).1 == old(
                    nodes,
                ).entry_seq()[j].1,
        decreases n - i,
    {
        let mut node = nodes.node_at(i);
        proof {
            crate::node_map::lemma_map_of_get_all(old(nodes).entry_seq());
            assert(old(nodes)@.contains_key(old(nodes).entry_seq()[i as int].0));
            assert(node.wf());
        }
        node.update_position();
        nodes.set_at(i, node);
        i = i + 1;
    }
    proof {
        let olds = old(nodes).entry_seq();
        let news = nodes.entry_seq();
        crate::node_map::lemma_map_of_get_all(olds);
        crate::node_map::lemma_map_of_get_all(news);
        crate::node_map::lemma_map_of_contains_all(olds);
        crate::node_map::lemma_map_of_contains_all(news);
        assert forall|k: ClusterID| #[trigger]
            nodes@.contains_key(k) implies old(nodes)@.contains_key(k) && nodes@[k] == update_spec(
            old(nodes)@[k],
        ) by {
            let j = choose|j: int| 0 <= j < news.len() && (#[trigger] news[j]).0 == k;
            assert(olds[j].0 == k);
            assert(nodes@[k] == news[j].1);
            assert(old(nodes)@[k] == olds[j].1);
        }
        assert forall|k: ClusterID| #[trigger]
            old(nodes)@.contains_key(k) implies nodes@.contains_key(k) by {
            let j = choose|j: int| 0 <= j < olds.len() && (#[trigger] olds[j]).0 == k;
            assert(news[j].0 == k);
        }
        assert(nodes@ =~= integrate_all_spec(old(nodes)@));
        assert forall|k: ClusterID| #[trigger]
            nodes@.contains_key(k) implies nodes@[k].wf() by {
            assert(old(nodes)@[k].wf());
        }
    }
}

/// Adjustable spring constants: one for real similarity edges, one for
/// synthetic springs (bridges and the random anti-collapse pass).
#[derive(Clone, Copy, Debug, PartialEq, Eq, Structural)]
pub struct SpringParams {
    pub k_real: i64,
    pub k_synthetic: i64,
}

impl SpringParams {
    /// Both constants default to the same stiffness, as the source edges do.
    pub fn new() -> (r: SpringParams)
        ensures
            r.k_real == DEFAULT_STIFFNESS,
            r.k_synthetic == DEFAULT_STIFFNESS,
    {
        SpringParams { k_real: DEFAULT_STIFFNESS, k_synthetic: DEFAULT_STIFFNESS }
    }
}

/// The flat embedding engine.
pub struct ForceDirectedGraph {
    pub nodes: NodeMap,
    pub edges: Vec<Spring>,
    /// The frozen normalizer: the largest natural edge length at
    /// construction (never below one fixed-point step when used).
    pub max_edge_len: i64,
    /// The target-length scale factor.
    pub scalar: i64,
    pub params: SpringParams,
    /// The iteration budget of the background simulation loop.
    pub max_iters: i64,
    /// The live-mode handshake flags.
    pub status: Status,
}

impl ForceDirectedGraph {
    /// The engine's invariant: a well-formed node store, well-formed
    /// kinematics, and every spring endpoint materialized.
    pub open spec fn wf(self) -> bool {
        &&& self.nodes.wf()
        &&& all_nodes_wf(self.nodes@)
        &&& edges_connected(self.edges@, self.nodes@)
    }

    /// The synthetic spring applied for one sampled vertex pair.
    pub open spec fn synthetic_spring_spec(self, e: EdgeData) -> Spring {
        synthetic_spring_of(e, self.params.k_synthetic, self.max_edge_len, self.scalar)
    }

    /// The springs of one random anti-collapse pass, in order.
    pub open spec fn synthetic_springs_spec(self, pulls: Seq<EdgeData>) -> Seq<Spring> {
        synthetic_springs_of(pulls, self.params.k_synthetic, self.max_edge_len, self.scalar)
    }

    /// Wrap an existing node store and spring list; `max_edge_len` must be
    /// the frozen normalizer the springs were built with.
    pub fn new(
        nodes: NodeMap,
        edges: Vec<Spring>,
        max_edge_len: i64,
        scalar: i64,
        params: SpringParams,
        max_iters: i64,
    ) -> (r: ForceDirectedGraph)
        requires
            nodes.wf(),
            all_nodes_wf(nodes@),
            edges_connected(edges@, nodes@),
        ensures
            r.wf(),
            r.nodes == nodes,
            r.edges == edges,
            r.max_edge_len == max_edge_len,
            r.scalar == scalar,
            r.params == params,
            r.max_iters == max_iters,
            r.status.data_ready,
            !r.status.force_shutdown,
    {
        ForceDirectedGraph {
            nodes,
            edges,
            max_edge_len,
            scalar,
            params,
            max_iters,
            status: Status::new(),
        }
    }

    /// The current position of a vertex, or a not-found condition (expected
    /// transiently while ids change).
    pub fn get_cluster_position(&self, id: ClusterID) -> (r: Result<Vec3Fx, String>)
        requires
            self.wf(),
        ensures
            match r {
                Ok(p) => self.nodes@.contains_key(id) && p == self.nodes@[id].position,
                Err(m) => !self.nodes@.contains_key(id) && m@ == "Cluster not found"@,
            },
    {
        match self.nodes.get(id) {
            Some(n) => Ok(n.get_position()),
            None => Err("Cluster not found".to_owned()),
        }
    }

    /// Append one spring; its endpoints must already be materialized.
    pub fn add_edge(&mut self, edge: Spring)
        requires
            old(self).wf(),
            old(self).nodes@.contains_key(edge.node1),
            old(self).nodes@.contains_key(edge.node2),
        ensures
            final(self).wf(),
            final(self).edges@ =~= old(self).edges@.push(edge),
            final(self).nodes == old(self).nodes,
            final(self).status == old(self).status,
    {
        self.edges.push(edge);
        proof {
            assert(forall|i: int|
                0 <= i < old(self).edges@.len() ==> (#[trigger] self.edges@[i])
                    == old(self).edges@[i]);
        }
    }

    /// Apply every spring's force pair once (the background thread's pass).
    pub fn accumulate_edge_forces(&mut self)
        requires
            old(self).wf(),
        ensures
            final(self).wf(),
            final(self).nodes@ =~= apply_springs_spec(old(self).edges@, old(self).nodes@),
            final(self).nodes@.dom() =~= old(self).nodes@.dom(),
            final(self).nodes.spec_len() == old(self).nodes.spec_len(),
            final(self).edges == old(self).edges,
            final(self).status == old(self).status,
            final(self).max_edge_len == old(self).max_edge_len,
            final(self).scalar == old(self).scalar,
            final(self).params == old(self).params,
    {
        let edges = &self.edges;
        apply_spring_list(&mut self.nodes, edges);
    }

    /// Apply one synthetic spring per sampled pair (the random
    /// anti-collapse pass); `pulls` carries the provider's true pairwise
    /// distance for each sampled pair of materialized vertices.
    pub fn accumulate_random_forces(&mut self, pulls: &Vec<EdgeData>)
        requires
            old(self).wf(),
            forall|i: int|
                0 <= i < pulls@.len() ==> old(self).nodes@.contains_key((#[trigger] pulls@[i]).a)
                    && old(self).nodes@.contains_key(pulls@[i].b),
        ensures
            final(self).wf(),
            final(self).nodes@ =~= apply_springs_spec(
                old(self).synthetic_springs_spec(pulls@),
                old(self).nodes@,
            ),
            final(self).nodes@.dom() =~= old(self).nodes@.dom(),
            final(self).nodes.spec_len() == old(self).nodes.spec_len(),
            final(self).edges == old(self).edges,
            final(self).status == old(self).status,
            final(self).max_edge_len == old(self).max_edge_len,
            final(self).scalar == old(self).scalar,
            final(self).params == old(self).params,
    {
        apply_synthetic_pulls(
            &mut self.nodes,
            pulls,
            self.params.k_synthetic,
            self.max_edge_len,
            self.scalar,
        );
    }

    /// Integrate every node's position once and reset its accumulator: the
    /// step's final phase, never interleaved with force accumulation.
    pub fn apply_forces(&mut self)
        requires
            old(self).wf(),
        ensures
            final(self).wf(),
            final(self).nodes@ =~= integrate_all_spec(old(self).nodes@),
            final(self).nodes@.dom() =~= old(self).nodes@.dom(),
            final(self).nodes.spec_len() == old(self).nodes.spec_len(),
            final(self).nodes.entry_seq().len() == old(self).nodes.entry_seq().len(),
            forall|j: int|
                0 <= j < final(self).nodes.entry_seq().len() ==> (
                #[trigger] final(self).nodes.entry_seq()[j]).0 == old(self).nodes.entry_seq()[j].0
                    && final(self).nodes.entry_seq()[j].1 == update_spec(
                    old(self).nodes.entry_seq()[j].1,
                ),
            final(self).edges == old(self).edges,
            final(self).status == old(self).status,
            final(self).max_edge_len == old(self).max_edge_len,
            final(self).scalar == old(self).scalar,
            final(self).params == old(self).params,
    {
        integrate_nodes(&mut self.nodes);
    }

    /// One synchronous step: every spring's force pair, then the random
    /// anti-collapse pass over the sampled `pulls`, then one integration of
    /// every node (offline fidelity-evaluation mode).
    pub fn update(&mut self, pulls: &Vec<EdgeData>)
        requires
            old(self).wf(),
            forall|i: int|
                0 <= i < pulls@.len() ==> old(self).nodes@.contains_key((#[trigger] pulls@[i]).a)
                    && old(self).nodes@.contains_key(pulls@[i].b),
        ensures
            final(self).wf(),
            final(self).nodes@ =~= integrate_all_spec(
                apply_springs_spec(
                    old(self).synthetic_springs_spec(pulls@),
                    apply_springs_spec(old(self).edges@, old(self).nodes@),
                ),
            ),
            final(self).nodes@.dom() =~= old(self).nodes@.dom(),
            final(self).edges == old(self).edges,
            final(self).status == old(self).status,
    {
        self.accumulate_edge_forces();
        proof {
            assert forall|i: int|
                0 <= i < pulls@.len() implies #[trigger] self.synthetic_spring_spec(pulls@[i])
                == old(self).synthetic_spring_spec(pulls@[i]) by {
            }
            assert(self.synthetic_springs_spec(pulls@) =~= old(self).synthetic_springs_spec(
                pulls@,
            ));
        }
        self.accumulate_random_forces(pulls);
        self.apply_forces();
    }

    /// The background thread's body after a wake-up, called under the lock
    /// once [`must_wait`] is false: on shutdown it consumes the slot and
    /// reports termination; otherwise it accumulates every spring's forces
    /// and marks the frame ready.  Returns false exactly when the loop must
    /// terminate.
    pub fn compute_next_frame(&mut self) -> (r: bool)
        requires
            old(self).wf(),
            !must_wait(old(self).status),
        ensures
            final(self).wf(),
            r == !old(self).status.force_shutdown,
            final(self).status == crate::protocol::background_wake_spec(old(self).status),
            final(self).nodes@ =~= if old(self).status.force_shutdown {
                old(self).nodes@
            } else {
                apply_springs_spec(old(self).edges@, old(self).nodes@)
            },
            final(self).edges == old(self).edges,
    {
        let action = background_on_wake(&mut self.status);
        match action {
            BackgroundAction::Terminate => false,
            BackgroundAction::ComputeForces => {
                self.accumulate_edge_forces();
                true
            },
        }
    }

    /// The host's successful poll, called when the try-lock was won: run
    /// the random pass over `pulls`, integrate every node, consume the
    /// frame slot, and hand back every vertex's new position for the
    /// per-node callback.  A failed try-lock never reaches the library; the
    /// host reports `PhysicsNotReady` itself and retries later.
    pub fn try_update_unity(&mut self, pulls: &Vec<EdgeData>) -> (r: (
        FFIError,
        Vec<(ClusterID, Vec3Fx)>,
    ))
        requires
            old(self).wf(),
            forall|i: int|
                0 <= i < pulls@.len() ==> old(self).nodes@.contains_key((#[trigger] pulls@[i]).a)
                    && old(self).nodes@.contains_key(pulls@[i].b),
        ensures
            final(self).wf(),
            final(self).nodes@ =~= integrate_all_spec(
                apply_springs_spec(old(self).synthetic_springs_spec(pulls@), old(self).nodes@),
            ),
            final(self).status == crate::protocol::host_poll_spec(old(self).status),
            !final(self).status.data_ready,
            final(self).edges == old(self).edges,
            r.0 == FFIError::PhysicsRunning,
            r.1@.len() == final(self).nodes.entry_seq().len(),
            forall|i: int|
                0 <= i < r.1@.len() ==> (#[trigger] r.1@[i]).0
                    == final(self).nodes.entry_seq()[i].0 && r.1@[i].1
                    == final(self).nodes.entry_seq()[i].1.position,
    {
        self.accumulate_random_forces(pulls);
        self.apply_forces();
        host_on_poll(&mut self.status);

        let n = self.nodes.len();
        let mut out: Vec<(ClusterID, Vec3Fx)> = Vec::new();
        let mut i: usize = 0;
        while i < n
            invariant
                i <= n,
                n == self.nodes.spec_len(),
                out@.len() == i,
                forall|j: int|
                    0 <= j < i ==> (#[trigger] out@[j]).0 == self.nodes.entry_seq()[j].0
                        && out@[j].1 == self.nodes.entry_seq()[j].1.position,
            decreases n - i,
        {
            let id = self.nodes.id_at(i);
            let node = self.nodes.node_at(i);
            out.push((id, node.get_position()));
            i = i + 1;
        }
        (FFIError::PhysicsRunning, out)
    }

    /// Request a cooperative shutdown: the background thread observes the
    /// flag at its next wake-up.  The caller signals all waiters afterwards
    /// and joins the background handle.
    pub fn force_shutdown(&mut self) -> (r: FFIError)
        ensures
            final(self).status == crate::protocol::request_shutdown_spec(old(self).status),
            final(self).nodes == old(self).nodes,
            final(self).edges == old(self).edges,
            r == FFIError::PhysicsRunning,
    {
        host_request_shutdown(&mut self.status);
        FFIError::PhysicsRunning
    }

    /// Sample up to three distinct random partners for every materialized
    /// vertex: the pairs of one random anti-collapse pass.  The provider
    /// turns each pair into an [`EdgeData`] with the true pairwise distance.
    pub fn sample_random_pairs(&self) -> (r: Vec<(ClusterID, ClusterID)>)
        requires
            self.wf(),
            self.nodes.spec_len() <= i64::MAX,
        ensures
            forall|i: int|
                0 <= i < r@.len() ==> self.nodes@.contains_key((#[trigger] r@[i]).0)
                    && self.nodes@.contains_key(r@[i].1) && r@[i].0 != r@[i].1,
            r@.len() <= 3 * self.nodes.spec_len(),
            forall|id: ClusterID| #[trigger] count_with_first(r@, id) <= 3,
            forall|w1: int, w2: int|
                0 <= w1 < w2 < r@.len() ==> entry_index_of(
                    self.nodes.entry_seq(),
                    (#[trigger] r@[w1]).0,
                ) <= entry_index_of(self.nodes.entry_seq(), (#[trigger] r@[w2]).0),
    {
        let n = self.nodes.len();
        let mut out: Vec<(ClusterID, ClusterID)> = Vec::new();
        if n == 0 {
            proof {
                assert(forall|id: ClusterID| #[trigger] count_with_first(out@, id) == 0);
            }
            return out;
        }
        proof {
            crate::node_map::lemma_map_of_get_all(self.nodes.entry_seq());
            assert(forall|id: ClusterID| #[trigger] count_with_first(out@, id) == 0);
        }
        let mut i: usize = 0;
        while i < n
            invariant
                i <= n,
                0 < n == self.nodes.spec_len() <= i64::MAX,
                self.nodes.wf(),
                out@.len() <= 3 * i,
                forall|j: int|
                    0 <= j < out@.len() ==> self.nodes@.contains_key((#[trigger] out@[j]).0)
                        && self.nodes@.contains_key(out@[j].1) && out@[j].0 != out@[j].1,
                forall|j: int|
                    0 <= j < self.nodes.entry_seq().len() ==> self.nodes@.contains_key(
                        (#[trigger] self.nodes.entry_seq()[j]).0,
                    ),
                forall|id: ClusterID| #[trigger] count_with_first(out@, id) <= 3,
                forall|j: int|
                    i <= j < self.nodes.entry_seq().len() ==> count_with_first(
                        out@,
                        (#[trigger] self.nodes.entry_seq()[j]).0,
                    ) == 0,
                forall|w: int|
                    0 <= w < out@.len() ==> 0 <= entry_index_of(
                        self.nodes.entry_seq(),
                        (#[trigger] out@[w]).0,
                    ) < i,
                forall|w1: int, w2: int|
                    0 <= w1 < w2 < out@.len() ==> entry_index_of(
                        self.nodes.entry_seq(),
                        (#[trigger] out@[w1]).0,
                    ) <= entry_index_of(self.nodes.entry_seq(), (#[trigger] out@[w2]).0),
            decreases n - i,
        {
            let id1 = self.nodes.id_at(i);
            proof {
                // The store's keys are unique, so the drawn id names its own
                // entry and no other.
                assert(self.nodes.entry_seq()[i as int].0 == id1);
                let j = entry_index_of(self.nodes.entry_seq(), id1);
                if j != i as int {
                    assert(self.nodes.entry_seq()[j].0 != self.nodes.entry_seq()[i as int].0);
                }
            }
            let ghost base = out@;
            let mut t: usize = 0;
            while t < 3
                invariant
                    t <= 3,
                    0 < n == self.nodes.spec_len() <= i64::MAX,
                    self.nodes.wf(),
                    i < n,
                    id1 == self.nodes.entry_seq()[i as int].0,
                    base.len() <= 3 * i,
                    out@.len() <= base.len() + t,
                    forall|j: int|
                        0 <= j < out@.len() ==> self.nodes@.contains_key((#[trigger] out@[j]).0)
                            && self.nodes@.contains_key(out@[j].1) && out@[j].0 != out@[j].1,
                    forall|j: int|
                        0 <= j < self.nodes.entry_seq().len() ==> self.nodes@.contains_key(
                            (#[trigger] self.nodes.entry_seq()[j]).0,
                        ),
                    count_with_first(out@, id1) <= t,
                    forall|id: ClusterID|
                        id != id1 ==> #[trigger] count_with_first(out@, id) == count_with_first(
                            base,
                            id,
                        ),
                    forall|id: ClusterID| #[trigger] count_with_first(base, id) <= 3,
                    forall|j: int|
                        i <= j < self.nodes.entry_seq().len() ==> count_with_first(
                            base,
                            (#[trigger] self.nodes.entry_seq()[j]).0,
                        ) == 0,
                    count_with_first(base, id1) == 0,
                    entry_index_of(self.nodes.entry_seq(), id1) == i as int,
                    forall|w: int|
                        0 <= w < out@.len() ==> 0 <= entry_index_of(
                            self.nodes.entry_seq(),
                            (#[trigger] out@[w]).0,
                        ) <= i,
                    forall|w1: int, w2: int|
                        0 <= w1 < w2 < out@.len() ==> entry_index_of(
                            self.nodes.entry_seq(),
                            (#[trigger] out@[w1]).0,
                        ) <= entry_index_of(self.nodes.entry_seq(), (#[trigger] out@[w2]).0),
                decreases 3 - t,
            {
                let pick = crate::rng::rand_index(n);
                let id2 = self.nodes.id_at(pick);
                if !(id1 == id2) {
                    let ghost pre = out@;
                    out.push((id1, id2));
                    proof {
                        assert(out@.drop_last() =~= pre);
                        assert forall|id: ClusterID| #[trigger]
                            count_with_first(out@, id) == count_with_first(pre, id) + (
                        if id == id1 {
                            1int
                        } else {
                            0int
                        }) by {}
                    }
                }
                t = t + 1;
            }
            proof {
                // The processed id stays below its cap; every other count is
                // untouched, so later ids are still fresh.
                assert(count_with_first(out@, id1) <= 3);
                assert forall|j: int|
                    i + 1 <= j < self.nodes.entry_seq().len() implies count_with_first(
                    out@,
                    (#[trigger] self.nodes.entry_seq()[j]).0,
                ) == 0 by {
                    let idj = self.nodes.entry_seq()[j].0;
                    assert(idj != id1);
                }
            }
            i = i + 1;
        }
        out
    }

    /// The spring list as endpoint records for edge-initialization
    /// callbacks: both ids, and whether the edge is real, packed the way the
    /// render host expects (a real flag in the offset of the third id).
    pub fn init_unity_edges(&self) -> (r: Vec<ClusterIDs>)
        ensures
            r@.len() == self.edges@.len(),
            forall|i: int|
                0 <= i < r@.len() ==> (#[trigger] r@[i]) == (ClusterIDs {
                    id: self.edges@[i].node1,
                    left_id: self.edges@[i].node2,
                    right_id: ClusterID {
                        offset: if self.edges@[i].is_real {
                            1usize
                        } else {
                            0usize
                        },
                        cardinality: 0usize,
                    },
                }),
    {
        let n = self.edges.len();
        let mut out: Vec<ClusterIDs> = Vec::new();
        let mut i: usize = 0;
        while i < n
            invariant
                i <= n,
                n == self.edges@.len(),
                out@.len() == i,
                forall|j: int|
                    0 <= j < i ==> (#[trigger] out@[j]) == (ClusterIDs {
                        id: self.edges@[j].node1,
                        left_id: self.edges@[j].node2,
                        right_id: ClusterID {
                            offset: if self.edges@[j].is_real {
                                1usize
                            } else {
                                0usize
                            },
                            cardinality: 0usize,
                        },
                    }),
            decreases n - i,
        {
            let e = &self.edges[i];
            let flag: usize = if e.is_real {
                1
            } else {
                0
            };
            out.push(ClusterIDs::new(e.node1, e.node2, ClusterID::new(flag, 0)));
            i = i + 1;
        }
        out
    }
}

} // verus!
