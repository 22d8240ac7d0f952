//! Distance constraints: symmetric links between two particles, and hard
//! pins at a fixed distance from a world-space anchor.

use vstd::prelude::*;

verus! {

use crate::math::{div_floor_i128, sat64, sat_to_i64, sqrt_floor};
use crate::object::PhysObject;
use crate::vec2::Vec2;
use crate::MAX_COORD;

/// A symmetric distance constraint between two particles; severed once the
/// current separation exceeds `snap`.
pub struct LinkConstraint<E> {
    pub a: E,
    pub b: E,
    pub dist: i64,
    pub snap: i64,
}

/// Pins a particle at distance `dist` from the fixed anchor `point`.
pub struct PointConstraint<E> {
    pub a: E,
    pub dist: i64,
    pub point: Vec2,
}

impl<E> LinkConstraint<E> {
    pub open spec fn wf(self) -> bool {
        0 <= self.dist <= MAX_COORD && 0 <= self.snap <= MAX_COORD
    }

    pub fn new(a: E, b: E, dist: i64, snap: i64) -> (r: LinkConstraint<E>)
        ensures
            r == (LinkConstraint { a, b, dist, snap }),
    {
        LinkConstraint { a, b, dist, snap }
    }

    /// Re-key the constraint through a partial mapping of its endpoints; the
    /// result is gone as soon as either endpoint has no image.
    pub fn try_map<T, F: Fn(&E) -> Option<T>>(&self, map: F) -> (r: Option<LinkConstraint<T>>)
        requires
            call_requires(map, (&self.a,)),
            call_requires(map, (&self.b,)),
        ensures
            r is Some ==> r->0.dist == self.dist && r->0.snap == self.snap && call_ensures(
                map,
                (&self.a,),
                Some(r->0.a),
            ) && call_ensures(map, (&self.b,), Some(r->0.b)),
            r is None ==> (exists|o: Option<T>|
                call_ensures(map, (&self.a,), o) && o is None) || (exists|o: Option<T>|
                call_ensures(map, (&self.b,), o) && o is None),
    {
        match map(&self.a) {
            Option::Some(a2) => match map(&self.b) {
                Option::Some(b2) => Option::Some(
                    LinkConstraint { a: a2, b: b2, dist: self.dist, snap: self.snap },
                ),
                Option::None => Option::None,
            },
            Option::None => Option::None,
        }
    }
}

impl<E> PointConstraint<E> {
    pub open spec fn wf(self) -> bool {
        0 <= self.dist <= MAX_COORD && self.point.finite()
    }

    pub fn new(a: E, point: Vec2, dist: i64) -> (r: PointConstraint<E>)
        ensures
            r == (PointConstraint { a, dist, point }),
    {
        PointConstraint { a, point, dist }
    }

    /// Re-key the constraint through a partial mapping of its particle.
    pub fn try_map<T, F: Fn(&E) -> Option<T>>(&self, map: F) -> (r: Option<PointConstraint<T>>)
        requires
            call_requires(map, (&self.a,)),
        ensures
            r is Some ==> r->0.dist == self.dist && r->0.point == self.point && call_ensures(
                map,
                (&self.a,),
                Some(r->0.a),
            ),
            r is None ==> exists|o: Option<T>| call_ensures(map, (&self.a,), o) && o is None,
    {
        match map(&self.a) {
            Option::Some(a2) => Option::Some(
                PointConstraint { a: a2, dist: self.dist, point: self.point },
            ),
            Option::None => Option::None,
        }
    }

    /// A point constraint never breaks by distance.
    pub fn should_stay(&self) -> (r: bool)
        ensures
            r,
    {
        true
    }
}

/// The separating axis used by constraint and collision math: the difference
/// of the positions, with a tiny non-zero substitute for an exactly-zero
/// difference so that nothing divides by zero.
pub open spec fn axis_of(pa: Vec2, pb: Vec2) -> (int, int) {
    let ax = pa.x - pb.x;
    let ay = pa.y - pb.y;
    if ax == 0 && ay == 0 {
        (1, 1)
    } else {
        (ax, ay)
    }
}

/// One relaxation step of a link: positions move toward the rest length along
/// the axis, split by inverse-mass weighting.  A link with a non-finite
/// endpoint is left alone; that particle is due for recovery or discarding.
pub open spec fn link_apply_spec(l: LinkConstraint<usize>, s: Seq<PhysObject>) -> Seq<PhysObject> {
    let pa = s[l.a as int];
    let pb = s[l.b as int];
    if !pa.pos.finite() || !pb.pos.finite() {
        s
    } else {
        let axis = axis_of(pa.pos, pb.pos);
        let lsq = axis.0 * axis.0 + axis.1 * axis.1;
        let d = sqrt_floor(lsq as nat) as int;
        let delta = l.dist - d;
        let m = pa.mass + pb.mass;
        let ca_x = (axis.0 * (delta * pb.mass)) / (d * m);
        let ca_y = (axis.1 * (delta * pb.mass)) / (d * m);
        let cb_x = (axis.0 * (delta * pa.mass)) / (d * m);
        let cb_y = (axis.1 * (delta * pa.mass)) / (d * m);
        let s1 = s.update(
            l.a as int,
            PhysObject {
                pos: Vec2 { x: sat64(pa.pos.x + ca_x), y: sat64(pa.pos.y + ca_y) },
                ..pa
            },
        );
        let pb1 = s1[l.b as int];
        s1.update(
            l.b as int,
            PhysObject {
                pos: Vec2 { x: sat64(pb1.pos.x - cb_x), y: sat64(pb1.pos.y - cb_y) },
                ..pb1
            },
        )
    }
}

/// Whether a link is still within its break distance: severed only once the
/// separation exceeds `snap`, so a link at exactly the snap distance stays.
/// A non-finite endpoint breaks the link.
pub open spec fn link_should_stay_spec(l: LinkConstraint<usize>, s: Seq<PhysObject>) -> bool {
    let pa = s[l.a as int];
    let pb = s[l.b as int];
    &&& pa.pos.finite()
    &&& pb.pos.finite()
    &&& {
        let ax = pa.pos.x - pb.pos.x;
        let ay = pa.pos.y - pb.pos.y;
        ax * ax + ay * ay <= l.snap * l.snap
    }
}

/// A hard pin: the particle is placed at `anchor + n·(dist)` on the axis from
/// the anchor, its previous position is reset there too, and its accumulated
/// acceleration is cleared.  A non-finite particle is left alone.
pub open spec fn point_apply_spec(c: PointConstraint<usize>, s: Seq<PhysObject>) -> Seq<
    PhysObject,
> {
    let pa = s[c.a as int];
    if !pa.pos.finite() {
        s
    } else {
        let axis = axis_of(pa.pos, c.point);
        let lsq = axis.0 * axis.0 + axis.1 * axis.1;
        let d = sqrt_floor(lsq as nat) as int;
        let delta = c.dist - d;
        let p = Vec2 {
            x: sat64(c.point.x + (axis.0 * delta) / d),
            y: sat64(c.point.y + (axis.1 * delta) / d),
        };
        s.update(
            c.a as int,
            PhysObject { pos: p, pos_old: p, acceleration: Vec2 { x: 0, y: 0 }, ..pa },
        )
    }
}

impl LinkConstraint<usize> {
    /// Apply one relaxation step of this link to the particle list.
    pub fn apply(&self, objs: &mut Vec<PhysObject>)
        requires
            self.wf(),
            (self.a as int) < old(objs)@.len(),
            (self.b as int) < old(objs)@.len(),
            forall|j: int| 0 <= j < old(objs)@.len() ==> #[trigger] old(objs)@[j].wf(),
        ensures
            final(objs)@ == link_apply_spec(*self, old(objs)@),
    {
        let pa = objs[self.a];
        let pb = objs[self.b];
        if pa.pos.is_finite() && pb.pos.is_finite() {
            proof {
                assert(old(objs)@[self.a as int].wf());
                assert(old(objs)@[self.b as int].wf());
            }
            let dx = pa.pos.x - pb.pos.x;
            let dy = pa.pos.y - pb.pos.y;
            let (ax, ay): (i64, i64) = if dx == 0 && dy == 0 {
                (1, 1)
            } else {
                (dx, dy)
            };
            proof {
                crate::math::lemma_square_bounds(ax as int, 2 * MAX_COORD as int);
                crate::math::lemma_square_bounds(ay as int, 2 * MAX_COORD as int);
                assert(ax != 0 || ay != 0);
                assert(ax as int * ax as int + ay as int * ay as int >= 1) by (nonlinear_arith)
                    requires
                        ax != 0 || ay != 0,
                ;
            }
            let lsq: i128 = (ax as i128) * (ax as i128) + (ay as i128) * (ay as i128);
            let d = crate::math::isqrt64(lsq as u64);
            let delta: i64 = self.dist - (d as i64);
            let m: i64 = pa.mass + pb.mass;
            proof {
                crate::math::lemma_mul_abs_bound(
                    delta as int,
                    pb.mass as int,
                    0x2_0000_0000 + MAX_COORD as int,
                    crate::MAX_MASS as int,
                );
                crate::math::lemma_mul_abs_bound(
                    delta as int,
                    pa.mass as int,
                    0x2_0000_0000 + MAX_COORD as int,
                    crate::MAX_MASS as int,
                );
                crate::math::lemma_mul_abs_bound(
                    ax as int,
                    delta as int * pb.mass as int,
                    2 * MAX_COORD as int,
                    (0x2_0000_0000 + MAX_COORD as int) * crate::MAX_MASS as int,
                );
                crate::math::lemma_mul_abs_bound(
                    ay as int,
                    delta as int * pb.mass as int,
                    2 * MAX_COORD as int,
                    (0x2_0000_0000 + MAX_COORD as int) * crate::MAX_MASS as int,
                );
                crate::math::lemma_mul_abs_bound(
                    ax as int,
                    delta as int * pa.mass as int,
                    2 * MAX_COORD as int,
                    (0x2_0000_0000 + MAX_COORD as int) * crate::MAX_MASS as int,
                );
                crate::math::lemma_mul_abs_bound(
                    ay as int,
                    delta as int * pa.mass as int,
                    2 * MAX_COORD as int,
                    (0x2_0000_0000 + MAX_COORD as int) * crate::MAX_MASS as int,
                );
                assert(d as int * m as int >= 1) by (nonlinear_arith)
                    requires
                        d as int >= 1,
                        m as int >= 2,
                ;
                crate::math::lemma_mul_abs_bound(
                    d as int,
                    m as int,
                    0x1_0000_0000,
                    2 * crate::MAX_MASS as int,
                );
            }
            let den: i128 = (d as i128) * (m as i128);
            let ca_x = div_floor_i128((ax as i128) * ((delta as i128) * (pb.mass as i128)), den);
            let ca_y = div_floor_i128((ay as i128) * ((delta as i128) * (pb.mass as i128)), den);
            let cb_x = div_floor_i128((ax as i128) * ((delta as i128) * (pa.mass as i128)), den);
            let cb_y = div_floor_i128((ay as i128) * ((delta as i128) * (pa.mass as i128)), den);
            objs[self.a].pos = Vec2 {
                x: sat_to_i64(pa.pos.x as i128 + ca_x),
                y: sat_to_i64(pa.pos.y as i128 + ca_y),
            };
            let pb1 = objs[self.b];
            objs[self.b].pos = Vec2 {
                x: sat_to_i64(pb1.pos.x as i128 - cb_x),
                y: sat_to_i64(pb1.pos.y as i128 - cb_y),
            };
        } else {
            proof {
                assert(objs@ =~= link_apply_spec(*self, old(objs)@));
            }
        }
    }

    /// Whether this link's separation is still at most the snap distance.
    pub fn should_stay(&self, objs: &Vec<PhysObject>) -> (r: bool)
        requires
            self.wf(),
            (self.a as int) < objs@.len(),
            (self.b as int) < objs@.len(),
        ensures
            r == link_should_stay_spec(*self, objs@),
    {
        let pa = objs[self.a];
        let pb = objs[self.b];
        if pa.pos.is_finite() && pb.pos.is_finite() {
            proof {
                crate::math::lemma_square_bounds(
                    pa.pos.x as int - pb.pos.x as int,
                    2 * MAX_COORD as int,
                );
                crate::math::lemma_square_bounds(
                    pa.pos.y as int - pb.pos.y as int,
                    2 * MAX_COORD as int,
                );
                crate::math::lemma_square_bounds(self.snap as int, MAX_COORD as int);
            }
            let dx: i128 = pa.pos.x as i128 - pb.pos.x as i128;
            let dy: i128 = pa.pos.y as i128 - pb.pos.y as i128;
            dx * dx + dy * dy <= (self.snap as i128) * (self.snap as i128)
        } else {
            false
        }
    }
}

/// Constraint convergence: a link with rest length 10 between two distinct
/// unit-mass particles exactly 20 apart moves each endpoint exactly 5 toward
/// the other along the connecting axis — the displacements are `-axis/4` and
/// `+axis/4`, each of squared length exactly 25.
pub proof fn lemma_link_convergence(l: LinkConstraint<usize>, s: Seq<PhysObject>)
    requires
        l.wf(),
        (l.a as int) < s.len(),
        (l.b as int) < s.len(),
        l.a != l.b,
        l.dist == 10,
        s[l.a as int].mass == 1,
        s[l.b as int].mass == 1,
        s[l.a as int].pos.finite(),
        s[l.b as int].pos.finite(),
        ({
            let ax = s[l.a as int].pos.x - s[l.b as int].pos.x;
            let ay = s[l.a as int].pos.y - s[l.b as int].pos.y;
            ax * ax + ay * ay == 400
        }),
    ensures
        ({
            let pa = s[l.a as int];
            let pb = s[l.b as int];
            let t = link_apply_spec(l, s);
            let ax = pa.pos.x - pb.pos.x;
            let ay = pa.pos.y - pb.pos.y;
            let dax = t[l.a as int].pos.x - pa.pos.x;
            let day = t[l.a as int].pos.y - pa.pos.y;
            let dbx = t[l.b as int].pos.x - pb.pos.x;
            let dby = t[l.b as int].pos.y - pb.pos.y;
            &&& 4 * dax == -ax
            &&& 4 * day == -ay
            &&& 4 * dbx == ax
            &&& 4 * dby == ay
            &&& dax * dax + day * day == 25
            &&& dbx * dbx + dby * dby == 25
        }),
{
    let pa = s[l.a as int];
    let pb = s[l.b as int];
    let ax = pa.pos.x - pb.pos.x;
    let ay = pa.pos.y - pb.pos.y;
    assert(ax != 0 || ay != 0) by (nonlinear_arith)
        requires
            ax * ax + ay * ay == 400,
    ;
    let axis = axis_of(pa.pos, pb.pos);
    assert(axis == (ax, ay));
    assert((20nat) * (20nat) == 400 && (20nat + 1) * (20nat + 1) == 441) by (nonlinear_arith);
    crate::math::lemma_sqrt_floor_unique(400nat, 20nat);
    let d = sqrt_floor(400nat) as int;
    assert(d == 20);
    assert(-20 <= ax <= 20 && -20 <= ay <= 20) by (nonlinear_arith)
        requires
            ax * ax + ay * ay == 400,
    ;
    assert(ax % 4 == 0 && ay % 4 == 0) by (nonlinear_arith)
        requires
            ax * ax + ay * ay == 400,
            -20 <= ax <= 20,
            -20 <= ay <= 20,
    ;
    let cx = ax / 4;
    let cy = ay / 4;
    vstd::arithmetic::div_mod::lemma_fundamental_div_mod(ax, 4);
    vstd::arithmetic::div_mod::lemma_fundamental_div_mod(ay, 4);
    assert(ax == 4 * cx && ay == 4 * cy);
    lemma_quarter_share(ax, cx);
    lemma_quarter_share(ay, cy);
    assert(-5 <= cx <= 5 && -5 <= cy <= 5);
    assert(cx * cx + cy * cy == 25) by (nonlinear_arith)
        requires
            ax == 4 * cx,
            ay == 4 * cy,
            ax * ax + ay * ay == 400,
    ;
    let t = link_apply_spec(l, s);
    assert(t[l.a as int].pos.x == pa.pos.x + (-cx));
    assert(t[l.a as int].pos.y == pa.pos.y + (-cy));
    assert(t[l.b as int].pos.x == pb.pos.x - (-cx));
    assert(t[l.b as int].pos.y == pb.pos.y - (-cy));
    assert((-cx) * (-cx) + (-cy) * (-cy) == 25) by (nonlinear_arith)
        requires
            cx * cx + cy * cy == 25,
    ;
}

/// With unit masses, rest length 10 and distance 20, one component's
/// correction is exactly a quarter of the axis component, negated.
proof fn lemma_quarter_share(ax: int, c: int)
    requires
        ax == 4 * c,
        -20 <= ax <= 20,
    ensures
        (ax * ((10 - 20) * 1)) / ((20int) * (1 + 1)) == -c,
        (ax * ((10 - 20) * 1)) / ((20int) * (1 + 1)) == (ax * (-10)) / (40int),
{
    assert(ax * ((10 - 20) * 1) == 40 * (-c)) by (nonlinear_arith)
        requires
            ax == 4 * c,
    ;
    vstd::arithmetic::div_mod::lemma_fundamental_div_mod_converse_div(40 * (-c), 40, -c, 0);
}

impl PointConstraint<usize> {
    /// Pin the particle: place it on the anchor circle, reset its previous
    /// position there, and clear its accumulated acceleration.
    pub fn apply(&self, objs: &mut Vec<PhysObject>)
        requires
            self.wf(),
            (self.a as int) < old(objs)@.len(),
            forall|j: int| 0 <= j < old(objs)@.len() ==> #[trigger] old(objs)@[j].wf(),
        ensures
            final(objs)@ == point_apply_spec(*self, old(objs)@),
    {
        let pa = objs[self.a];
        if pa.pos.is_finite() {
            let dx = pa.pos.x - self.point.x;
            let dy = pa.pos.y - self.point.y;
            let (ax, ay): (i64, i64) = if dx == 0 && dy == 0 {
                (1, 1)
            } else {
                (dx, dy)
            };
            proof {
                crate::math::lemma_square_bounds(ax as int, 2 * MAX_COORD as int);
                crate::math::lemma_square_bounds(ay as int, 2 * MAX_COORD as int);
                assert(ax != 0 || ay != 0);
                assert(ax as int * ax as int + ay as int * ay as int >= 1) by (nonlinear_arith)
                    requires
                        ax != 0 || ay != 0,
                ;
            }
            let lsq: i128 = (ax as i128) * (ax as i128) + (ay as i128) * (ay as i128);
            let d = crate::math::isqrt64(lsq as u64);
            let delta: i64 = self.dist - (d as i64);
            proof {
                crate::math::lemma_mul_abs_bound(
                    ax as int,
                    delta as int,
                    2 * MAX_COORD as int,
                    0x2_0000_0000 + MAX_COORD as int,
                );
                crate::math::lemma_mul_abs_bound(
                    ay as int,
                    delta as int,
                    2 * MAX_COORD as int,
                    0x2_0000_0000 + MAX_COORD as int,
                );
            }
            let px = sat_to_i64(
                self.point.x as i128 + div_floor_i128((ax as i128) * (delta as i128), d as i128),
            );
            let py = sat_to_i64(
                self.point.y as i128 + div_floor_i128((ay as i128) * (delta as i128), d as i128),
            );
            let p = Vec2 { x: px, y: py };
            objs[self.a].pos = p;
            objs[self.a].pos_old = p;
            objs[self.a].acceleration = Vec2 { x: 0, y: 0 };
        } else {
            proof {
                assert(objs@ =~= point_apply_spec(*self, old(objs)@));
            }
        }
    }
}

} // verus!
