//! Boundary confinement: a hard positional clamp into a circle or a
//! rectangle, not a physical bounce.

use vstd::prelude::*;

verus! {

use crate::math::{div_floor_i128, sat64, sat_to_i64, sqrt_floor};
use crate::object::PhysObject;
use crate::vec2::Vec2;
use crate::MAX_COORD;

#[derive(Clone)]
pub enum Bounds {
    Circle(i64),
    Rect(Vec2, Vec2),
    Off,
}

impl Bounds {
    pub open spec fn wf(self) -> bool {
        match self {
            Bounds::Circle(r) => 0 <= r <= MAX_COORD,
            Bounds::Rect(min, max) => min.finite() && max.finite(),
            Bounds::Off => true,
        }
    }
}

/// Clamp a coordinate into `[lo, hi]`, taking the maximum with `lo` first, so
/// an inverted interval collapses to `hi`.
pub open spec fn clamp_coord(x: i64, lo: int, hi: int) -> i64 {
    let x1: int = if x < lo {
        lo
    } else {
        x as int
    };
    let x2: int = if x1 > hi {
        hi
    } else {
        x1
    };
    sat64(x2)
}

/// Boundary confinement of one particle.
///
/// Circle: a finite position farther from the origin than `r - radius` is
/// projected back onto that circle along its current direction; the one
/// degenerate case — a particle at the origin that is too large for the
/// circle — has no direction to project along and is marked non-finite, to be
/// discarded like any other unrecoverable state.  A non-finite position is
/// left for integration to recover.
///
/// Rect: the position is clamped component-wise into
/// `[min + radius, max - radius]`.
pub open spec fn confine_spec(b: Bounds, p: PhysObject) -> PhysObject {
    match b {
        Bounds::Circle(r) => {
            if !p.pos.finite() {
                p
            } else {
                let l = sqrt_floor(p.pos.norm_sq() as nat) as int;
                let t = r - p.radius;
                if l > t {
                    if l == 0 {
                        PhysObject { pos: Vec2 { x: i64::MAX, y: i64::MAX }, ..p }
                    } else {
                        PhysObject {
                            pos: Vec2 {
                                x: sat64((p.pos.x * t) / l),
                                y: sat64((p.pos.y * t) / l),
                            },
                            ..p
                        }
                    }
                } else {
                    p
                }
            }
        },
        Bounds::Rect(min, max) => PhysObject {
            pos: Vec2 {
                x: clamp_coord(p.pos.x, min.x + p.radius, max.x - p.radius),
                y: clamp_coord(p.pos.y, min.y + p.radius, max.y - p.radius),
            },
            ..p
        },
        Bounds::Off => p,
    }
}

impl Bounds {
    /// Confine one particle's position to these bounds.
    pub fn update_position(&self, obj: &mut PhysObject)
        requires
            self.wf(),
            old(obj).wf(),
        ensures
            *final(obj) == confine_spec(*self, *old(obj)),
    {
        match self {
            Bounds::Circle(r) => {
                if obj.pos.is_finite() {
                    let l = obj.pos.length_floor();
                    let t: i64 = *r - obj.radius;
                    if (l as i128) > (t as i128) {
                        if l == 0 {
                            obj.pos = Vec2 { x: i64::MAX, y: i64::MAX };
                        } else {
                            proof {
                                crate::math::lemma_mul_abs_bound(
                                    obj.pos.x as int,
                                    t as int,
                                    MAX_COORD as int,
                                    2 * MAX_COORD as int,
                                );
                                crate::math::lemma_mul_abs_bound(
                                    obj.pos.y as int,
                                    t as int,
                                    MAX_COORD as int,
                                    2 * MAX_COORD as int,
                                );
                            }
                            let nx = div_floor_i128((obj.pos.x as i128) * (t as i128), l as i128);
                            let ny = div_floor_i128((obj.pos.y as i128) * (t as i128), l as i128);
                            obj.pos = Vec2 { x: sat_to_i64(nx), y: sat_to_i64(ny) };
                        }
                    }
                }
            },
            Bounds::Rect(min, max) => {
                let lox: i64 = min.x + obj.radius;
                let hix: i64 = max.x - obj.radius;
                let loy: i64 = min.y + obj.radius;
                let hiy: i64 = max.y - obj.radius;
                let x1 = if obj.pos.x < lox {
                    lox
                } else {
                    obj.pos.x
                };
                let x2 = if x1 > hix {
                    hix
                } else {
                    x1
                };
                let y1 = if obj.pos.y < loy {
                    loy
                } else {
                    obj.pos.y
                };
                let y2 = if y1 > hiy {
                    hiy
                } else {
                    y1
                };
                obj.pos = Vec2 { x: x2, y: y2 };
            },
            Bounds::Off => {},
        }
    }

    pub fn as_str(&self) -> (r: &'static str)
        ensures
            r@ == bounds_name(*self),
    {
        match self {
            Bounds::Circle(_) => "Circle",
            Bounds::Rect(_, _) => "Rect",
            Bounds::Off => "None",
        }
    }

    /// Select a bounds mode by name, keeping the current value when the name
    /// matches its kind, and keeping the current value for an unknown name.
    pub fn from_str(s: &str, bounds: Bounds) -> (r: Bounds)
        ensures
            s@ == "Circle"@ ==> (if bounds is Circle {
                r == bounds
            } else {
                r == Bounds::Circle(200)
            }),
            s@ == "Rect"@ ==> (if bounds is Rect {
                r == bounds
            } else {
                r == Bounds::Rect(Vec2 { x: -100i64, y: -100i64 }, Vec2 { x: 100, y: 100 })
            }),
            s@ == "None"@ ==> r is Off,
            s@ != "Circle"@ && s@ != "Rect"@ && s@ != "None"@ ==> r == bounds,
    {
        proof {
            reveal_strlit("Circle");
            reveal_strlit("Rect");
            reveal_strlit("None");
            assert("Circle"@.len() == 6 && "Rect"@.len() == 4 && "None"@.len() == 4);
            assert("Circle"@ != "Rect"@ && "Circle"@ != "None"@);
            assert("Rect"@ != "None"@) by {
                assert("Rect"@[0] != "None"@[0]);
            }
        }
        if crate::str_eq(s, "Circle") {
            if let Bounds::Circle(_) = bounds {
                bounds
            } else {
                Bounds::Circle(200)
            }
        } else if crate::str_eq(s, "Rect") {
            if let Bounds::Rect(_, _) = bounds {
                bounds
            } else {
                Bounds::Rect(Vec2 { x: -100, y: -100 }, Vec2 { x: 100, y: 100 })
            }
        } else if crate::str_eq(s, "None") {
            Bounds::Off
        } else {
            bounds
        }
    }
}

/// The display name of each bounds mode.
pub open spec fn bounds_name(b: Bounds) -> Seq<char> {
    match b {
        Bounds::Circle(_) => "Circle"@,
        Bounds::Rect(_, _) => "Rect"@,
        Bounds::Off => "None"@,
    }
}

/// Bounds idempotence, circle, inside: a particle already within `r - radius`
/// of the origin is unaffected.
pub proof fn lemma_circle_inside_unchanged(r: i64, p: PhysObject)
    requires
        (Bounds::Circle(r)).wf(),
        p.wf(),
        p.pos.finite(),
        p.pos.len_floor() <= r - p.radius,
    ensures
        confine_spec(Bounds::Circle(r), p) == p,
{
}

/// Circle projection stays within the target radius: a finite particle
/// projected back onto the circle of radius `r - radius` ends with both
/// coordinates inside that radius (the exact landing spot is pinned by
/// `confine_spec` itself).
pub proof fn lemma_circle_projection_bounded(r: i64, p: PhysObject)
    requires
        (Bounds::Circle(r)).wf(),
        p.wf(),
        p.pos.finite(),
        p.pos.len_floor() > r - p.radius >= 0,
    ensures
        ({
            let q = confine_spec(Bounds::Circle(r), p);
            let t = r - p.radius;
            &&& -t <= q.pos.x <= t
            &&& -t <= q.pos.y <= t
        }),
{
    let l = sqrt_floor(p.pos.norm_sq() as nat) as int;
    let t = r - p.radius;
    crate::math::lemma_sqrt_floor_bounds(p.pos.norm_sq() as nat);
    crate::math::lemma_square_bounds(p.pos.x as int, crate::MAX_COORD as int);
    crate::math::lemma_square_bounds(p.pos.y as int, crate::MAX_COORD as int);
    assert(l >= 1);
    lemma_component_projection(p.pos.x as int, t, l, p.pos.norm_sq());
    lemma_component_projection(p.pos.y as int, t, l, p.pos.norm_sq());
}

/// One coordinate of the projection `x·t/l` is within `[-t, t]` whenever
/// `x² ≤ lsq < (l+1)²`.
proof fn lemma_component_projection(x: int, t: int, l: int, lsq: int)
    requires
        l >= 1,
        t >= 0,
        x * x <= lsq,
        lsq < (l + 1) * (l + 1),
    ensures
        -t <= (x * t) / l <= t,
{
    assert(-l <= x <= l) by (nonlinear_arith)
        requires
            x * x <= lsq,
            lsq < (l + 1) * (l + 1),
            l >= 0,
    ;
    assert(-(l * t) <= x * t <= l * t) by (nonlinear_arith)
        requires
            -l <= x <= l,
            t >= 0,
    ;
    vstd::arithmetic::div_mod::lemma_div_is_ordered(x * t, l * t, l);
    vstd::arithmetic::div_mod::lemma_div_is_ordered(-(l * t), x * t, l);
    assert(l * t == t * l) by (nonlinear_arith);
    vstd::arithmetic::div_mod::lemma_div_by_multiple(t, l);
    assert((-t) * l == -(l * t)) by (nonlinear_arith);
    vstd::arithmetic::div_mod::lemma_fundamental_div_mod_converse_div(-(l * t), l, -t, 0);
}

/// Bounds idempotence, rectangle: a particle already inside the (non-empty)
/// rectangle is unaffected, and one outside is clamped exactly onto the
/// boundary.
pub proof fn lemma_rect_confinement(min: Vec2, max: Vec2, p: PhysObject)
    requires
        (Bounds::Rect(min, max)).wf(),
        p.wf(),
        min.x + p.radius <= max.x - p.radius,
        min.y + p.radius <= max.y - p.radius,
    ensures
        min.x + p.radius <= p.pos.x <= max.x - p.radius && min.y + p.radius <= p.pos.y <= max.y
            - p.radius ==> confine_spec(Bounds::Rect(min, max), p) == p,
        confine_spec(Bounds::Rect(min, max), p).pos.x == if p.pos.x < min.x + p.radius {
            min.x + p.radius
        } else if p.pos.x > max.x - p.radius {
            max.x - p.radius
        } else {
            p.pos.x as int
        },
        confine_spec(Bounds::Rect(min, max), p).pos.y == if p.pos.y < min.y + p.radius {
            min.y + p.radius
        } else if p.pos.y > max.y - p.radius {
            max.y - p.radius
        } else {
            p.pos.y as int
        },
{
}

} // verus!
