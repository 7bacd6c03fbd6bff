//! Per-vertex kinematic state: position, velocity, acceleration accumulator,
//! mass, friction and speed cap, with semi-implicit Euler integration.
//!
//! Forces are accumulated into the acceleration between integrations;
//! `update_position` integrates once and resets the accumulator.  Both
//! operations are exact functions of the previous state, stated by
//! [`accelerate_spec`] and [`update_spec`].

use vstd::prelude::*;
use crate::fixed::SCALE;
use crate::vec3::{Vec3Fx, vadd_spec, vdiv_spec, vscale_spec, set_magnitude_spec, norm_spec};

verus! {

/// Default damping factor: 0.98 in fixed-point units.
pub const DEFAULT_FRICTION: i64 = 1027604;

/// Default speed cap: 5 units, in fixed-point units.
pub const DEFAULT_MAX_SPEED: i64 = 5242880;

#[derive(Clone, Copy, Debug, PartialEq, Eq, Structural)]
pub struct PhysicsNode {
    pub position: Vec3Fx,
    pub friction: i64,
    pub max_speed: i64,
    pub velocity: Vec3Fx,
    pub acceleration: Vec3Fx,
    pub mass: i64,
}

/// The state after accumulating `force`: acceleration grows by
/// `force / mass` (Newton's second law), everything else is unchanged.
pub open spec fn accelerate_spec(n: PhysicsNode, force: Vec3Fx) -> PhysicsNode {
    PhysicsNode {
        position: n.position,
        friction: n.friction,
        max_speed: n.max_speed,
        velocity: n.velocity,
        acceleration: vadd_spec(n.acceleration, vdiv_spec(force, n.mass as int)),
        mass: n.mass,
    }
}

/// The damped velocity before the speed cap: `(velocity + acceleration) *
/// friction`.
pub open spec fn damped_velocity_spec(n: PhysicsNode) -> Vec3Fx {
    vscale_spec(vadd_spec(n.velocity, n.acceleration), n.friction as int)
}

/// The velocity after one integration step: damped, then rescaled to
/// exactly `max_speed` whenever its magnitude exceeds the cap.
pub open spec fn next_velocity_spec(n: PhysicsNode) -> Vec3Fx {
    let v = damped_velocity_spec(n);
    if norm_spec(v) > n.max_speed {
        set_magnitude_spec(v, n.max_speed as int)
    } else {
        v
    }
}

/// The state after one integration step: the new velocity is applied to the
/// position and the acceleration accumulator is reset to zero.
pub open spec fn update_spec(n: PhysicsNode) -> PhysicsNode {
    let v = next_velocity_spec(n);
    PhysicsNode {
        position: vadd_spec(n.position, v),
        friction: n.friction,
        max_speed: n.max_speed,
        velocity: v,
        acceleration: Vec3Fx { x: 0, y: 0, z: 0 },
        mass: n.mass,
    }
}

impl PhysicsNode {
    /// Well-formed kinematic state: positive mass (a vertex cardinality),
    /// damping strictly between zero and one, and a positive speed cap.
    pub open spec fn wf(self) -> bool {
        &&& self.mass >= 1
        &&& 0 < self.friction < SCALE
        &&& self.max_speed > 0
    }

    /// A node at rest at `position` with mass `mass` (the vertex's
    /// cardinality) and the default damping and speed cap.
    pub fn new(position: Vec3Fx, mass: i64) -> (r: PhysicsNode)
        requires
            mass >= 1,
        ensures
            r.wf(),
            r.position == position,
            r.mass == mass,
            r.friction == DEFAULT_FRICTION,
            r.max_speed == DEFAULT_MAX_SPEED,
            r.velocity == (Vec3Fx { x: 0i64, y: 0i64, z: 0i64 }),
            r.acceleration == (Vec3Fx { x: 0i64, y: 0i64, z: 0i64 }),
    {
        PhysicsNode {
            position,
            friction: DEFAULT_FRICTION,
            max_speed: DEFAULT_MAX_SPEED,
            velocity: Vec3Fx::zero(),
            acceleration: Vec3Fx::zero(),
            mass,
        }
    }

    /// A node with no pending motion: zero velocity and a clear
    /// acceleration accumulator.
    pub open spec fn at_rest(self) -> bool {
        &&& self.velocity == (Vec3Fx { x: 0i64, y: 0i64, z: 0i64 })
        &&& self.acceleration == (Vec3Fx { x: 0i64, y: 0i64, z: 0i64 })
    }

    pub fn mass(&self) -> (r: i64)
        ensures
            r == self.mass,
    {
        self.mass
    }

    pub fn get_position(&self) -> (r: Vec3Fx)
        ensures
            r == self.position,
    {
        self.position
    }

    pub fn get_velocity(&self) -> (r: Vec3Fx)
        ensures
            r == self.velocity,
    {
        self.velocity
    }

    /// Accumulate a force: the acceleration grows by `force / mass`.
    /// Multiple calls before an integration compose additively.
    pub fn accelerate(&mut self, force: Vec3Fx)
        requires
            old(self).wf(),
        ensures
            *final(self) == accelerate_spec(*old(self), force),
            final(self).wf(),
    {
        let m = self.mass;
        let d = Vec3Fx {
            x: crate::fixed::div_by(force.x, m),
            y: crate::fixed::div_by(force.y, m),
            z: crate::fixed::div_by(force.z, m),
        };
        self.acceleration = self.acceleration.add(d);
    }

    /// One semi-implicit Euler step: fold the accumulated acceleration into
    /// the velocity, damp it, cap its magnitude at `max_speed`, move the
    /// position by the capped velocity, and reset the accumulator.
    pub fn update_position(&mut self)
        requires
            old(self).wf(),
        ensures
            *final(self) == update_spec(*old(self)),
            final(self).wf(),
    {
        let raw = self.velocity.add(self.acceleration);
        let damped = raw.scale(self.friction);
        let speed = damped.norm();
        let capped = if speed > self.max_speed {
            damped.set_magnitude(self.max_speed)
        } else {
            damped
        };
        self.velocity = capped;
        self.position = self.position.add(capped);
        self.acceleration = Vec3Fx::zero();
    }
}

/// The speed cap is exact: whenever the damped velocity's magnitude
/// exceeds `max_speed`, one integration step leaves the velocity rescaled
/// to magnitude `max_speed` along its own direction (componentwise
/// `c * max_speed / |v|`, rounded toward zero); a velocity within the cap
/// is kept as it is.
pub proof fn lemma_speed_cap(n: PhysicsNode)
    requires
        n.wf(),
    ensures
        ({
            let v = damped_velocity_spec(n);
            let after = update_spec(n);
            &&& norm_spec(v) > n.max_speed ==> after.velocity == set_magnitude_spec(
                v,
                n.max_speed as int,
            )
            &&& norm_spec(v) <= n.max_speed ==> after.velocity == v
            &&& after.position == vadd_spec(n.position, after.velocity)
        }),
{
}

/// One impulse from rest: `accelerate(force)` followed by
/// `update_position()` leaves the velocity at exactly the damped,
/// speed-capped `force / mass`, and leaves no residual acceleration.
pub proof fn lemma_impulse_from_rest(n: PhysicsNode, force: Vec3Fx)
    requires
        n.wf(),
        n.at_rest(),
    ensures
        ({
            let after = update_spec(accelerate_spec(n, force));
            let ideal = vscale_spec(vdiv_spec(force, n.mass as int), n.friction as int);
            &&& after.velocity == if norm_spec(ideal) > n.max_speed {
                set_magnitude_spec(ideal, n.max_speed as int)
            } else {
                ideal
            }
            &&& after.acceleration == (Vec3Fx { x: 0i64, y: 0i64, z: 0i64 })
            &&& after.position == vadd_spec(n.position, after.velocity)
        }),
{
    let accelerated = accelerate_spec(n, force);
    let fm = vdiv_spec(force, n.mass as int);
    assert(accelerated.acceleration =~= fm);
    assert(vadd_spec(accelerated.velocity, accelerated.acceleration) =~= fm);
}

} // verus!
