//! The per-body record and its velocity-free Verlet integration step.
//!
//! A particle stores its current and previous position; the difference is the
//! implicit velocity.  Integration recovers a particle whose position has left
//! the finite world range (the analog of a non-finite float) from its previous
//! position, or from the origin, with zero velocity for that step.

use vstd::prelude::*;

verus! {

use crate::coord_finite;
use crate::math::sat64;
use crate::vec2::Vec2;
use crate::{MAX_COORD, MAX_DT, MAX_MASS};

#[derive(Clone, Copy, PartialEq, Eq, Structural, Debug)]
pub struct PhysObject {
    pub pos: Vec2,
    pub pos_old: Vec2,
    pub acceleration: Vec2,
    pub radius: i64,
    pub mass: i64,
}

/// The position a particle enters integration with: its own if finite, else
/// its previous one, else the origin.
pub open spec fn recovered_pos(p: PhysObject) -> Vec2 {
    if p.pos.finite() {
        p.pos
    } else if p.pos_old.finite() {
        p.pos_old
    } else {
        Vec2 { x: 0, y: 0 }
    }
}

/// One Verlet step: `pos += (pos - pos_old) + acceleration·dt²`, with the
/// previous position advanced and the accumulator cleared.  A non-finite
/// current position is first recovered and contributes zero velocity.
pub open spec fn integrate_spec(p: PhysObject, dt: i64) -> PhysObject {
    let base = recovered_pos(p);
    let vx: int = if p.pos.finite() {
        p.pos.x - p.pos_old.x
    } else {
        0
    };
    let vy: int = if p.pos.finite() {
        p.pos.y - p.pos_old.y
    } else {
        0
    };
    PhysObject {
        pos: Vec2 {
            x: sat64(base.x + vx + p.acceleration.x * (dt * dt)),
            y: sat64(base.y + vy + p.acceleration.y * (dt * dt)),
        },
        pos_old: base,
        acceleration: Vec2 { x: 0, y: 0 },
        ..p
    }
}

/// Saturating accumulation into the acceleration field.
pub open spec fn accelerate_spec(p: PhysObject, a: Vec2) -> PhysObject {
    PhysObject {
        acceleration: Vec2 {
            x: sat64(p.acceleration.x + a.x),
            y: sat64(p.acceleration.y + a.y),
        },
        ..p
    }
}

/// Setting the implicit velocity directly: `pos_old = pos - v·dt`.
pub open spec fn set_velocity_spec(p: PhysObject, v: Vec2, dt: i64) -> PhysObject {
    PhysObject {
        pos_old: Vec2 {
            x: sat64(p.pos.x - v.x * dt),
            y: sat64(p.pos.y - v.y * dt),
        },
        ..p
    }
}

impl PhysObject {
    /// Mass and radius lie in the ranges the kernel's arithmetic is sized for.
    pub open spec fn wf(self) -> bool {
        &&& 1 <= self.mass <= MAX_MASS
        &&& 0 <= self.radius <= MAX_COORD
    }

    pub fn new(pos: Vec2, pos_old: Vec2, radius: i64, mass: i64) -> (p: PhysObject)
        ensures
            p == (PhysObject {
                pos,
                pos_old,
                acceleration: Vec2 { x: 0, y: 0 },
                radius,
                mass,
            }),
    {
        PhysObject { pos, pos_old, acceleration: Vec2 { x: 0, y: 0 }, radius, mass }
    }

    pub fn has_changed(&self) -> (r: bool)
        ensures
            r == (self.pos != self.pos_old),
    {
        self.pos != self.pos_old
    }

    pub fn update_position(&mut self, dt: i64)
        requires
            0 <= dt <= MAX_DT,
        ensures
            *final(self) == integrate_spec(*old(self), dt),
    {
        let (vx, vy): (i128, i128);
        if !self.pos.is_finite() {
            if self.pos_old.is_finite() {
                self.pos = self.pos_old;
            } else {
                self.pos = Vec2::zero();
            }
            vx = 0;
            vy = 0;
        } else {
            vx = self.pos.x as i128 - self.pos_old.x as i128;
            vy = self.pos.y as i128 - self.pos_old.y as i128;
        }
        self.pos_old = self.pos;
        proof {
            crate::math::lemma_square_bounds(dt as int, MAX_DT as int);
            crate::math::lemma_mul_abs_bound(
                self.acceleration.x as int,
                dt as int * dt as int,
                0x8000_0000_0000_0000,
                MAX_DT as int * MAX_DT as int,
            );
            crate::math::lemma_mul_abs_bound(
                self.acceleration.y as int,
                dt as int * dt as int,
                0x8000_0000_0000_0000,
                MAX_DT as int * MAX_DT as int,
            );
        }
        let dt2: i128 = (dt as i128) * (dt as i128);
        let nx = crate::math::sat_to_i64(self.pos.x as i128 + vx + (self.acceleration.x as i128) * dt2);
        let ny = crate::math::sat_to_i64(self.pos.y as i128 + vy + (self.acceleration.y as i128) * dt2);
        self.pos = Vec2 { x: nx, y: ny };
        self.acceleration = Vec2::zero();
    }

    pub fn accelerate(&mut self, a: Vec2)
        ensures
            *final(self) == accelerate_spec(*old(self), a),
    {
        let ax = crate::math::sat_to_i64(self.acceleration.x as i128 + a.x as i128);
        let ay = crate::math::sat_to_i64(self.acceleration.y as i128 + a.y as i128);
        self.acceleration = Vec2 { x: ax, y: ay };
    }

    pub fn set_velocity(&mut self, v: Vec2, dt: i64)
        requires
            0 <= dt <= MAX_DT,
        ensures
            *final(self) == set_velocity_spec(*old(self), v, dt),
    {
        proof {
            crate::math::lemma_mul_abs_bound(
                v.x as int,
                dt as int,
                0x8000_0000_0000_0000,
                MAX_DT as int,
            );
            crate::math::lemma_mul_abs_bound(
                v.y as int,
                dt as int,
                0x8000_0000_0000_0000,
                MAX_DT as int,
            );
        }
        let ox = crate::math::sat_to_i64(self.pos.x as i128 - (v.x as i128) * (dt as i128));
        let oy = crate::math::sat_to_i64(self.pos.y as i128 - (v.y as i128) * (dt as i128));
        self.pos_old = Vec2 { x: ox, y: oy };
    }
}

/// The updated position and previous position handed back to the caller.
pub struct ObjectPos {
    pub current: Vec2,
    pub old: Vec2,
}

impl ObjectPos {
    pub fn apply(&mut self, obj: &PhysObject)
        ensures
            final(self).current == obj.pos,
            final(self).old == obj.pos_old,
    {
        self.current = obj.pos;
        self.old = obj.pos_old;
    }
}

impl PhysObject {
    /// Every numeric field of the particle is inside the finite world range.
    pub open spec fn fully_finite(self) -> bool {
        self.pos.finite() && self.pos_old.finite() && self.acceleration.finite()
    }
}

/// The strict mode's probe: the first particle holding a non-finite position,
/// previous position or acceleration, if any.  A driver's debug build may
/// halt on it; the kernel itself always recovers or reports instead.
pub fn find_non_finite(objs: &Vec<PhysObject>) -> (r: Option<usize>)
    ensures
        match r {
            Option::Some(i) => (i as int) < objs@.len() && !objs@[i as int].fully_finite()
                && forall|j: int| 0 <= j < i ==> (#[trigger] objs@[j]).fully_finite(),
            Option::None => forall|j: int|
                0 <= j < objs@.len() ==> (#[trigger] objs@[j]).fully_finite(),
        },
{
    let n = objs.len();
    let mut i: usize = 0;
    while i < n
        invariant
            n == objs@.len(),
            i <= n,
            forall|j: int| 0 <= j < i ==> (#[trigger] objs@[j]).fully_finite(),
        decreases n - i,
    {
        let o = &objs[i];
        if !(o.pos.is_finite() && o.pos_old.is_finite() && o.acceleration.is_finite()) {
            return Option::Some(i);
        }
        i = i + 1;
    }
    Option::None
}

/// Repeated integration with a fixed time step.
pub open spec fn integrate_n(p: PhysObject, dt: i64, n: nat) -> PhysObject
    decreases n,
{
    if n == 0 {
        p
    } else {
        integrate_spec(integrate_n(p, dt, (n - 1) as nat), dt)
    }
}

/// Energy non-creation, one step: with zero accumulated acceleration and
/// finite positions, integration advances the position by exactly the
/// implicit velocity `pos - pos_old` and preserves it.
pub proof fn lemma_integrate_preserves_velocity(p: PhysObject, dt: i64)
    requires
        0 <= dt <= MAX_DT,
        p.acceleration == (Vec2 { x: 0, y: 0 }),
        p.pos.finite(),
        p.pos_old.finite(),
    ensures
        integrate_spec(p, dt).pos_old == p.pos,
        integrate_spec(p, dt).pos.x - integrate_spec(p, dt).pos_old.x == p.pos.x - p.pos_old.x,
        integrate_spec(p, dt).pos.y - integrate_spec(p, dt).pos_old.y == p.pos.y - p.pos_old.y,
        integrate_spec(p, dt).acceleration == (Vec2 { x: 0, y: 0 }),
{
    assert(p.acceleration.x * (dt * dt) == 0) by (nonlinear_arith)
        requires
            p.acceleration.x == 0,
    ;
    assert(p.acceleration.y * (dt * dt) == 0) by (nonlinear_arith)
        requires
            p.acceleration.y == 0,
    ;
}

/// Energy non-creation: with zero accumulated acceleration, repeated
/// integration preserves the implicit velocity `pos - pos_old` exactly —
/// uniform motion — for as long as the trajectory stays inside the finite
/// world range.
pub proof fn lemma_uniform_motion(p: PhysObject, dt: i64, n: nat)
    requires
        0 <= dt <= MAX_DT,
        p.acceleration == (Vec2 { x: 0, y: 0 }),
        p.pos.finite(),
        p.pos_old.finite(),
        forall|k: int|
            0 <= k <= n ==> #[trigger] coord_finite(sat64(p.pos.x + k * (p.pos.x - p.pos_old.x)))
                && coord_finite(sat64(p.pos.y + k * (p.pos.y - p.pos_old.y))),
    ensures
        integrate_n(p, dt, n).pos.x - integrate_n(p, dt, n).pos_old.x == p.pos.x - p.pos_old.x,
        integrate_n(p, dt, n).pos.y - integrate_n(p, dt, n).pos_old.y == p.pos.y - p.pos_old.y,
        integrate_n(p, dt, n).pos.x == p.pos.x + n * (p.pos.x - p.pos_old.x),
        integrate_n(p, dt, n).pos.y == p.pos.y + n * (p.pos.y - p.pos_old.y),
        integrate_n(p, dt, n).acceleration == (Vec2 { x: 0, y: 0 }),
    decreases n,
{
    let vx = p.pos.x - p.pos_old.x;
    let vy = p.pos.y - p.pos_old.y;
    if n == 0 {
        assert(p.pos.x + 0 * vx == p.pos.x) by (nonlinear_arith);
        assert(p.pos.y + 0 * vy == p.pos.y) by (nonlinear_arith);
    } else {
        lemma_uniform_motion(p, dt, (n - 1) as nat);
        let q = integrate_n(p, dt, (n - 1) as nat);
        let m = n - 1;
        // the position after n - 1 steps is finite, so no recovery happens
        assert(coord_finite(sat64(p.pos.x + m * vx)) && coord_finite(sat64(p.pos.x + n * vx)));
        assert(coord_finite(sat64(p.pos.y + m * vy)) && coord_finite(sat64(p.pos.y + n * vy)));
        assert(p.pos.x + n * vx == p.pos.x + m * vx + vx) by (nonlinear_arith)
            requires
                m == n - 1,
        ;
        assert(p.pos.y + n * vy == p.pos.y + m * vy + vy) by (nonlinear_arith)
            requires
                m == n - 1,
        ;
        assert(q.acceleration.x * (dt * dt) == 0) by (nonlinear_arith)
            requires
                q.acceleration.x == 0,
        ;
        assert(q.acceleration.y * (dt * dt) == 0) by (nonlinear_arith)
            requires
                q.acceleration.y == 0,
        ;
    }
}

} // verus!
