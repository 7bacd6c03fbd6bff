//! Springs: a target separation between two vertex ids, enforced by a
//! momentum-conserving force pair (Hooke's law around a non-zero rest
//! length).
//!
//! One spring type serves both engines: real springs come from similarity
//! edges, synthetic springs bridge disconnected components or apply the
//! random anti-collapse pass; the hierarchical engine additionally counts
//! how many split generations a spring has survived in `relation`.

use vstd::prelude::*;
use crate::cluster_id::ClusterID;
use crate::fixed::{sat64, tdiv, fx_mul, fx_div, sat_sub, SCALE};
use crate::node_map::NodeMap;
use crate::physics_node::{PhysicsNode, accelerate_spec};
use crate::vec3::{Vec3Fx, vadd_spec, vneg_spec, set_magnitude_spec, norm_spec};

verus! {

/// Default spring constant: 0.005 in fixed-point units.
pub const DEFAULT_STIFFNESS: i64 = 5243;

/// Every node of the store is kinematically well-formed.
pub open spec fn all_nodes_wf(m: Map<ClusterID, PhysicsNode>) -> bool {
    forall|k: ClusterID| #[trigger] m.contains_key(k) ==> m[k].wf()
}

#[derive(Clone, Copy, Debug, PartialEq, Eq, Structural)]
pub struct Spring {
    /// The normalization-scaled target separation, in fixed-point units.
    pub target_len: i64,
    /// Spring constant, in fixed-point units.
    pub k: i64,
    pub node1: ClusterID,
    pub node2: ClusterID,
    /// Real springs mirror similarity edges; synthetic ones only keep the
    /// layout connected or spread.
    pub is_real: bool,
    /// How many split generations this spring has survived (hierarchical
    /// engine only; zero elsewhere).
    pub relation: u32,
}

/// The normalized target: `nat_len / max(normalize_len, 1) * scalar`, each
/// step in saturating fixed-point arithmetic.  The floor on the normalizer
/// keeps the division defined even for a degenerate edge set.
pub open spec fn normalized_target_spec(nat_len: int, normalize_len: int, scalar: int) -> int {
    let d = if normalize_len < 1 {
        1int
    } else {
        normalize_len
    };
    sat64(tdiv(sat64(tdiv(nat_len * SCALE, d)) * scalar, SCALE as int))
}

/// A non-negative natural length and a non-negative scale give a
/// non-negative target.
pub proof fn lemma_normalized_target_nonneg(nat_len: int, normalize_len: int, scalar: int)
    requires
        nat_len >= 0,
        scalar >= 0,
    ensures
        0 <= normalized_target_spec(nat_len, normalize_len, scalar) <= i64::MAX,
{
    let d = if normalize_len < 1 {
        1int
    } else {
        normalize_len
    };
    assert(nat_len * SCALE >= 0) by (nonlinear_arith)
        requires
            nat_len >= 0,
    ;
    assert((nat_len * SCALE) / d >= 0) by (nonlinear_arith)
        requires
            nat_len * SCALE >= 0,
            d >= 1,
    ;
    let q = sat64(tdiv(nat_len * SCALE, d));
    assert(q * scalar >= 0) by (nonlinear_arith)
        requires
            q >= 0,
            scalar >= 0,
    ;
    assert((q * scalar) / (SCALE as int) >= 0) by (nonlinear_arith)
        requires
            q * scalar >= 0,
    ;
}

/// A spring's force pair conserves momentum: the two endpoints receive
/// exactly opposite forces, so their mass-weighted acceleration changes
/// cancel up to the per-component division rounding.
pub proof fn lemma_spring_momentum(s: Spring, m: Map<ClusterID, PhysicsNode>)
    requires
        m.contains_key(s.node1),
        m.contains_key(s.node2),
        s.node1 != s.node2,
    ensures
        ({
            let f = spring_force_spec(s, m[s.node1].position, m[s.node2].position);
            let after = move_nodes_spec(s, m);
            &&& after[s.node1].acceleration == crate::vec3::vadd_spec(
                m[s.node1].acceleration,
                crate::vec3::vdiv_spec(f, m[s.node1].mass as int),
            )
            &&& after[s.node2].acceleration == crate::vec3::vadd_spec(
                m[s.node2].acceleration,
                crate::vec3::vdiv_spec(crate::vec3::vneg_spec(f), m[s.node2].mass as int),
            )
            &&& after.dom() =~= m.dom()
            &&& forall|k: ClusterID|
                #[trigger] m.contains_key(k) && k != s.node1 && k != s.node2 ==> after[k] == m[k]
        }),
{
}

/// The force a spring applies to its first endpoint: the separation vector
/// rescaled to magnitude `k * (distance - target_len)`.  The second
/// endpoint receives the exact negation.
pub open spec fn spring_force_spec(s: Spring, p1: Vec3Fx, p2: Vec3Fx) -> Vec3Fx {
    let diff = vadd_spec(p2, vneg_spec(p1));
    let stretch = sat64(norm_spec(diff) - s.target_len);
    let magnitude = sat64(tdiv(s.k * stretch, SCALE as int));
    set_magnitude_spec(diff, magnitude)
}

/// The node store after one application of spring `s`: endpoint one is
/// accelerated by the pair force, endpoint two by its negation, in that
/// order; all other nodes are untouched.
pub open spec fn move_nodes_spec(s: Spring, m: Map<ClusterID, PhysicsNode>) -> Map<
    ClusterID,
    PhysicsNode,
> {
    let f = spring_force_spec(s, m[s.node1].position, m[s.node2].position);
    let m1 = m.insert(s.node1, accelerate_spec(m[s.node1], f));
    m1.insert(s.node2, accelerate_spec(m1[s.node2], vneg_spec(f)))
}

impl Spring {
    /// A spring between `node1` and `node2` whose target is the raw
    /// source-space distance `nat_len`, normalized by `normalize_len` and
    /// scaled by `scalar` (pass `None` for lengths that are already
    /// normalized).
    pub fn new(
        nat_len: i64,
        node1: ClusterID,
        node2: ClusterID,
        is_real: bool,
        relation: u32,
        k: i64,
        normalize_len: Option<i64>,
        scalar: Option<i64>,
    ) -> (r: Spring)
        ensures
            r.target_len as int == normalized_target_spec(
                nat_len as int,
                match normalize_len {
                    Some(n) => n as int,
                    None => SCALE as int,
                },
                match scalar {
                    Some(s) => s as int,
                    None => SCALE as int,
                },
            ),
            r.node1 == node1,
            r.node2 == node2,
            r.is_real == is_real,
            r.relation == relation,
            r.k == k,
    {
        let norm = match normalize_len {
            Some(n) => n,
            None => SCALE,
        };
        let sc = match scalar {
            Some(s) => s,
            None => SCALE,
        };
        let d = if norm < 1 {
            1
        } else {
            norm
        };
        let target_len = fx_mul(fx_div(nat_len, d), sc);
        Spring { target_len, k, node1, node2, is_real, relation }
    }

    pub fn get_node_ids(&self) -> (r: (ClusterID, ClusterID))
        ensures
            r.0 == self.node1,
            r.1 == self.node2,
    {
        (self.node1, self.node2)
    }

    pub fn nat_len(&self) -> (r: i64)
        ensures
            r == self.target_len,
    {
        self.target_len
    }

    pub fn relation(&self) -> (r: u32)
        ensures
            r == self.relation,
    {
        self.relation
    }

    /// Apply the spring's force pair: accelerate endpoint one along the
    /// separation, endpoint two by the exact negation (momentum is
    /// conserved).  A zero separation yields the zero force, the fixed
    /// fallback for an undefined direction.
    pub fn move_nodes(&self, nodes: &mut NodeMap)
        requires
            old(nodes).wf(),
            all_nodes_wf(old(nodes)@),
            old(nodes)@.contains_key(self.node1),
            old(nodes)@.contains_key(self.node2),
        ensures
            final(nodes).wf(),
            all_nodes_wf(final(nodes)@),
            final(nodes)@ =~= move_nodes_spec(*self, old(nodes)@),
            final(nodes)@.dom() =~= old(nodes)@.dom(),
            final(nodes).spec_len() == old(nodes).spec_len(),
    {
        let n1 = match nodes.get(self.node1) {
            Some(n) => n,
            None => {
                proof {
                    assert(false);
                }
                PhysicsNode::new(Vec3Fx::zero(), 1)
            },
        };
        let n2 = match nodes.get(self.node2) {
            Some(n) => n,
            None => {
                proof {
                    assert(false);
                }
                PhysicsNode::new(Vec3Fx::zero(), 1)
            },
        };
        let diff = n2.get_position().sub(n1.get_position());
        let dist = diff.norm();
        let stretch = sat_sub(dist, self.target_len);
        let magnitude = fx_mul(self.k, stretch);
        let force = diff.set_magnitude(magnitude);

        let mut moved1 = n1;
        moved1.accelerate(force);
        nodes.insert(self.node1, moved1);

        let n2b = match nodes.get(self.node2) {
            Some(n) => n,
            None => {
                proof {
                    assert(false);
                }
                PhysicsNode::new(Vec3Fx::zero(), 1)
            },
        };
        let mut moved2 = n2b;
        moved2.accelerate(force.neg());
        nodes.insert(self.node2, moved2);
    }
}

} // verus!
