//! Gravity: the N-body attraction term and the parametric field term
//! (constant direction, inverse-square pull toward a point, or an external
//! vector field), each feeding either the acceleration accumulator or the
//! implicit velocity.

use vstd::prelude::*;

verus! {

use crate::math::{div_floor_i128, sat64, sat_to_i64, sqrt_floor};
use crate::object::{
    accelerate_spec, set_velocity_spec, PhysObject,
};
use crate::vec2::Vec2;
use crate::{MAX_COORD, MAX_DT, MAX_GRAV};

/// The gravity mode.  A vector field is carried as the two expression texts
/// it was built from; evaluating it is the business of an external
/// collaborator, and an undefined field contributes zero.
#[derive(Clone)]
pub enum Gravity {
    Dir(Vec2),
    Towards { point: Vec2, strength: i64 },
    VectorField { x: String, y: String },
    Off,
}

impl Gravity {
    pub open spec fn wf(self) -> bool {
        match self {
            Gravity::Towards { point, strength } => point.finite() && -MAX_GRAV <= strength
                <= MAX_GRAV,
            _ => true,
        }
    }
}

/// Feed a gravity vector to a particle: accumulate it as an acceleration, or
/// set the implicit velocity to `v·dt` ("gravity as velocity" mode).
pub open spec fn feed_spec(p: PhysObject, v: Vec2, as_velocity: bool, dt: i64) -> PhysObject {
    if as_velocity {
        set_velocity_spec(p, v, dt)
    } else {
        accelerate_spec(p, v)
    }
}

/// Feeding gravity to a particle never moves its current position: it touches
/// only the acceleration accumulator or the previous position.
pub proof fn lemma_feed_keeps_pos(p: PhysObject, v: Vec2, as_velocity: bool, dt: i64)
    ensures
        feed_spec(p, v, as_velocity, dt).pos == p.pos,
{
}

/// The parametric field term at a position.  A non-finite position gets no
/// pull toward a point source: such a particle is due for recovery anyway.
pub open spec fn field_accel_spec(g: Gravity, pos: Vec2) -> Vec2 {
    match g {
        Gravity::Dir(d) => d,
        Gravity::Towards { point, strength } => {
            if !pos.finite() {
                Vec2 { x: 0, y: 0 }
            } else {
                let ax = point.x - pos.x;
                let ay = point.y - pos.y;
                let lsq = ax * ax + ay * ay;
                if lsq == 0 {
                    Vec2 { x: 0, y: 0 }
                } else {
                    let den = lsq * sqrt_floor(lsq as nat);
                    Vec2 {
                        x: sat64((ax * strength) / den),
                        y: sat64((ay * strength) / den),
                    }
                }
            }
        },
        Gravity::VectorField { .. } => Vec2 { x: 0, y: 0 },
        Gravity::Off => Vec2 { x: 0, y: 0 },
    }
}

impl Gravity {
    /// The field term at `pos`: a constant direction, or an inverse-square
    /// pull `axis·strength/(|axis|²·|axis|)` toward a point.  A vector field
    /// is evaluated elsewhere and contributes zero here.
    pub fn acceleration(&self, pos: Vec2) -> (r: Vec2)
        requires
            self.wf(),
        ensures
            r == field_accel_spec(*self, pos),
    {
        match self {
            Gravity::Dir(d) => *d,
            Gravity::Towards { point, strength } => {
                if !pos.is_finite() {
                    Vec2::zero()
                } else {
                    let ax = point.x - pos.x;
                    let ay = point.y - pos.y;
                    proof {
                        crate::math::lemma_square_bounds(ax as int, 2 * MAX_COORD as int);
                        crate::math::lemma_square_bounds(ay as int, 2 * MAX_COORD as int);
                    }
                    let lsq: i128 = (ax as i128) * (ax as i128) + (ay as i128) * (ay as i128);
                    if lsq == 0 {
                        Vec2::zero()
                    } else {
                        let l = crate::math::isqrt64(lsq as u64);
                        proof {
                            crate::math::lemma_mul_abs_bound(
                                lsq as int,
                                l as int,
                                0x1_0000_0000_0000_0000,
                                0x1_0000_0000,
                            );
                            assert(lsq as int * l as int >= 1) by (nonlinear_arith)
                                requires
                                    lsq as int >= 1,
                                    l as int >= 1,
                            ;
                            crate::math::lemma_mul_abs_bound(
                                ax as int,
                                *strength as int,
                                2 * MAX_COORD as int,
                                MAX_GRAV as int,
                            );
                            crate::math::lemma_mul_abs_bound(
                                ay as int,
                                *strength as int,
                                2 * MAX_COORD as int,
                                MAX_GRAV as int,
                            );
                        }
                        let den: i128 = lsq * (l as i128);
                        let nx = div_floor_i128((ax as i128) * (*strength as i128), den);
                        let ny = div_floor_i128((ay as i128) * (*strength as i128), den);
                        Vec2 { x: sat_to_i64(nx), y: sat_to_i64(ny) }
                    }
                }
            },
            Gravity::VectorField { .. } => Vec2::zero(),
            Gravity::Off => Vec2::zero(),
        }
    }
}

/// The display name of each gravity mode.
pub open spec fn gravity_name(g: Gravity) -> Seq<char> {
    match g {
        Gravity::Dir(_) => "Dir"@,
        Gravity::Towards { .. } => "Towards"@,
        Gravity::VectorField { .. } => "Vector Field"@,
        Gravity::Off => "None"@,
    }
}

impl Gravity {
    pub fn as_str(&self) -> (r: &'static str)
        ensures
            r@ == gravity_name(*self),
    {
        match self {
            Gravity::Dir(_) => "Dir",
            Gravity::Towards { .. } => "Towards",
            Gravity::VectorField { .. } => "Vector Field",
            Gravity::Off => "None",
        }
    }

    /// Select a gravity mode by name, keeping the current value when the name
    /// matches its kind, and keeping the current value for an unknown name.
    pub fn from_str(s: &str, gravity: Gravity) -> (r: Gravity)
        ensures
            s@ == "Dir"@ ==> (if gravity is Dir {
                r == gravity
            } else {
                r == Gravity::Dir(Vec2 { x: 0, y: -400i64 })
            }),
            s@ == "Towards"@ ==> (if gravity is Towards {
                r == gravity
            } else {
                r == (Gravity::Towards { point: Vec2 { x: 0, y: 0 }, strength: 0 })
            }),
            s@ == "Vector Field"@ ==> (if gravity is VectorField {
                r == gravity
            } else {
                r matches Gravity::VectorField { x, y } && x@ == Seq::<char>::empty() && y@
                    == Seq::<char>::empty()
            }),
            s@ == "None"@ ==> r is Off,
            s@ != "Dir"@ && s@ != "Towards"@ && s@ != "Vector Field"@ && s@ != "None"@ ==> r
                == gravity,
    {
        proof {
            reveal_strlit("Dir");
            reveal_strlit("Towards");
            reveal_strlit("Vector Field");
            reveal_strlit("None");
            assert("Dir"@.len() == 3 && "Towards"@.len() == 7 && "Vector Field"@.len() == 12
                && "None"@.len() == 4);
        }
        if crate::str_eq(s, "Dir") {
            if let Gravity::Dir(_) = gravity {
                gravity
            } else {
                Gravity::Dir(Vec2 { x: 0, y: -400 })
            }
        } else if crate::str_eq(s, "Towards") {
            if let Gravity::Towards { .. } = gravity {
                gravity
            } else {
                Gravity::Towards { point: Vec2 { x: 0, y: 0 }, strength: 0 }
            }
        } else if crate::str_eq(s, "Vector Field") {
            if let Gravity::VectorField { .. } = gravity {
                gravity
            } else {
                let ex = String::new();
                let ey = String::new();
                Gravity::VectorField { x: ex, y: ey }
            }
        } else if crate::str_eq(s, "None") {
            Gravity::Off
        } else {
            gravity
        }
    }
}

/// One particle's pull on a position: `axis·(mass·G/|axis|³)`, zero for a
/// zero axis (which also guards self-interaction) and for a non-finite
/// endpoint.
pub open spec fn nbody_term(a: Vec2, b: Vec2, m_b: i64, g: i64) -> (int, int) {
    if !a.finite() || !b.finite() {
        (0, 0)
    } else {
        let ax = b.x - a.x;
        let ay = b.y - a.y;
        let lsq = ax * ax + ay * ay;
        if lsq == 0 {
            (0, 0)
        } else {
            let den = lsq * sqrt_floor(lsq as nat);
            ((ax * (m_b * g)) / den, (ay * (m_b * g)) / den)
        }
    }
}

/// The N-body pull of the first `k` particles on `pos`, accumulated with
/// saturating addition.
pub open spec fn nbody_acc(objs: Seq<PhysObject>, pos: Vec2, g: i64, k: int) -> Vec2
    decreases k,
{
    if k <= 0 {
        Vec2 { x: 0, y: 0 }
    } else {
        let prev = nbody_acc(objs, pos, g, k - 1);
        let t = nbody_term(pos, objs[k - 1].pos, objs[k - 1].mass, g);
        Vec2 { x: sat64(prev.x + t.0), y: sat64(prev.y + t.1) }
    }
}

/// Degenerate gravity: two exactly coincident particles exert no pull on each
/// other — the N-body acceleration of both is exactly zero, whatever the
/// gravitational constant.
pub proof fn lemma_coincident_gravity_zero(objs: Seq<PhysObject>, g: i64)
    requires
        objs.len() == 2,
        objs[0].pos == objs[1].pos,
    ensures
        nbody_acc(objs, objs[0].pos, g, 2) == (Vec2 { x: 0, y: 0 }),
        nbody_acc(objs, objs[1].pos, g, 2) == (Vec2 { x: 0, y: 0 }),
{
    let p = objs[0].pos;
    assert((p.x - p.x) * (p.x - p.x) + (p.y - p.y) * (p.y - p.y) == 0) by (nonlinear_arith);
    assert(nbody_term(p, objs[0].pos, objs[0].mass, g) == (0int, 0int));
    assert(nbody_term(p, objs[1].pos, objs[1].mass, g) == (0int, 0int));
    assert(nbody_acc(objs, p, g, 0) == (Vec2 { x: 0, y: 0 }));
    assert(nbody_acc(objs, p, g, 1) == (Vec2 { x: 0, y: 0 }));
    assert(nbody_acc(objs, p, g, 2) == (Vec2 { x: 0, y: 0 }));
}

/// The total N-body pull on particle `i`, over a read-only snapshot of all
/// particles.
pub fn nbody_accel_of(objs: &Vec<PhysObject>, i: usize, g: i64) -> (r: Vec2)
    requires
        i < objs.len(),
        forall|j: int| 0 <= j < objs@.len() ==> #[trigger] objs@[j].wf(),
        -MAX_GRAV <= g <= MAX_GRAV,
    ensures
        r == nbody_acc(objs@, objs@[i as int].pos, g, objs@.len() as int),
{
    let a = objs[i].pos;
    let mut acc = Vec2::zero();
    let n = objs.len();
    let mut k: usize = 0;
    while k < n
        invariant
            n == objs@.len(),
            i < n,
            a == objs@[i as int].pos,
            k <= n,
            forall|j: int| 0 <= j < objs@.len() ==> #[trigger] objs@[j].wf(),
            -MAX_GRAV <= g <= MAX_GRAV,
            acc == nbody_acc(objs@, a, g, k as int),
        decreases n - k,
    {
        let b = objs[k].pos;
        let m_b = objs[k].mass;
        proof {
            assert(objs@[k as int].wf());
        }
        if a.is_finite() && b.is_finite() {
            let ax = b.x - a.x;
            let ay = b.y - a.y;
            proof {
                crate::math::lemma_square_bounds(ax as int, 2 * MAX_COORD as int);
                crate::math::lemma_square_bounds(ay as int, 2 * MAX_COORD as int);
            }
            let lsq: i128 = (ax as i128) * (ax as i128) + (ay as i128) * (ay as i128);
            if lsq != 0 {
                let l = crate::math::isqrt64(lsq as u64);
                proof {
                    crate::math::lemma_mul_abs_bound(
                        lsq as int,
                        l as int,
                        0x1_0000_0000_0000_0000,
                        0x1_0000_0000,
                    );
                    assert(lsq as int * l as int >= 1) by (nonlinear_arith)
                        requires
                            lsq as int >= 1,
                            l as int >= 1,
                    ;
                    crate::math::lemma_mul_abs_bound(
                        m_b as int,
                        g as int,
                        crate::MAX_MASS as int,
                        MAX_GRAV as int,
                    );
                    crate::math::lemma_mul_abs_bound(
                        ax as int,
                        m_b as int * g as int,
                        2 * MAX_COORD as int,
                        crate::MAX_MASS as int * MAX_GRAV as int,
                    );
                    crate::math::lemma_mul_abs_bound(
                        ay as int,
                        m_b as int * g as int,
                        2 * MAX_COORD as int,
                        crate::MAX_MASS as int * MAX_GRAV as int,
                    );
                }
                let den: i128 = lsq * (l as i128);
                let mg: i128 = (m_b as i128) * (g as i128);
                let tx = div_floor_i128((ax as i128) * mg, den);
                let ty = div_floor_i128((ay as i128) * mg, den);
                acc = Vec2 {
                    x: sat_to_i64(acc.x as i128 + tx),
                    y: sat_to_i64(acc.y as i128 + ty),
                };
            }
        }
        k = k + 1;
    }
    acc
}

/// The N-body phase over a whole snapshot: every particle is fed the pull the
/// snapshot exerts on it.
pub open spec fn nbody_phase_spec(s: Seq<PhysObject>, g: i64, as_velocity: bool, dt: i64) -> Seq<
    PhysObject,
> {
    Seq::new(s.len(), |i: int| feed_spec(s[i], nbody_acc(s, s[i].pos, g, s.len() as int), as_velocity, dt))
}

/// N-body gravity: evaluate every particle's pull from a read-only snapshot
/// (in parallel), then feed the results back sequentially.
pub fn apply_nbody_gravity(objs: &mut Vec<PhysObject>, g: i64, as_velocity: bool, dt: i64)
    requires
        forall|j: int| 0 <= j < old(objs)@.len() ==> #[trigger] old(objs)@[j].wf(),
        -MAX_GRAV <= g <= MAX_GRAV,
        0 <= dt <= MAX_DT,
    ensures
        final(objs)@ == nbody_phase_spec(old(objs)@, g, as_velocity, dt),
{
    let n = objs.len();
    let accels = {
        let objs_ref = &*objs;
        let row = |i: usize| -> (r: Vec2)
            requires
                i < objs_ref@.len(),
                forall|j: int| 0 <= j < objs_ref@.len() ==> #[trigger] objs_ref@[j].wf(),
                -MAX_GRAV <= g <= MAX_GRAV,
            ensures
                r == nbody_acc(objs_ref@, objs_ref@[i as int].pos, g, objs_ref@.len() as int),
            { nbody_accel_of(objs_ref, i, g) };
        crate::for_pairs::par_map(n, &row)
    };
    let ghost snapshot = objs@;
    let mut i: usize = 0;
    while i < n
        invariant
            n == objs@.len(),
            snapshot.len() == n,
            accels@.len() == n,
            forall|j: int|
                0 <= j < n ==> #[trigger] accels@[j] == nbody_acc(
                    snapshot,
                    snapshot[j].pos,
                    g,
                    snapshot.len() as int,
                ),
            0 <= dt <= MAX_DT,
            i <= n,
            forall|j: int| i <= j < n ==> #[trigger] objs@[j] == snapshot[j],
            forall|j: int|
                0 <= j < i ==> #[trigger] objs@[j] == feed_spec(
                    snapshot[j],
                    nbody_acc(snapshot, snapshot[j].pos, g, snapshot.len() as int),
                    as_velocity,
                    dt,
                ),
        decreases n - i,
    {
        let v = accels[i];
        if as_velocity {
            objs[i].set_velocity(v, dt);
        } else {
            objs[i].accelerate(v);
        }
        i = i + 1;
    }
    proof {
        assert(objs@ =~= nbody_phase_spec(snapshot, g, as_velocity, dt));
    }
}

/// The parametric field phase: every particle is fed the field term at its
/// own position.
pub open spec fn field_phase_spec(s: Seq<PhysObject>, g: Gravity, as_velocity: bool, dt: i64) -> Seq<
    PhysObject,
> {
    Seq::new(s.len(), |i: int| feed_spec(s[i], field_accel_spec(g, s[i].pos), as_velocity, dt))
}

/// Apply the configured parametric field to every particle.
pub fn apply_field_gravity(objs: &mut Vec<PhysObject>, g: &Gravity, as_velocity: bool, dt: i64)
    requires
        g.wf(),
        0 <= dt <= MAX_DT,
    ensures
        final(objs)@ == field_phase_spec(old(objs)@, *g, as_velocity, dt),
{
    let n = objs.len();
    let ghost snapshot = objs@;
    let mut i: usize = 0;
    while i < n
        invariant
            n == objs@.len(),
            snapshot.len() == n,
            g.wf(),
            0 <= dt <= MAX_DT,
            i <= n,
            forall|j: int| i <= j < n ==> #[trigger] objs@[j] == snapshot[j],
            forall|j: int|
                0 <= j < i ==> #[trigger] objs@[j] == feed_spec(
                    snapshot[j],
                    field_accel_spec(*g, snapshot[j].pos),
                    as_velocity,
                    dt,
                ),
        decreases n - i,
    {
        let v = g.acceleration(objs[i].pos);
        if as_velocity {
            objs[i].set_velocity(v, dt);
        } else {
            objs[i].accelerate(v);
        }
        i = i + 1;
    }
    proof {
        assert(objs@ =~= field_phase_spec(snapshot, *g, as_velocity, dt));
    }
}

/// The vector-field phase, given the values the field returned at each
/// particle's position.
pub open spec fn vector_field_phase_spec(
    s: Seq<PhysObject>,
    vals: Seq<(i64, i64)>,
    as_velocity: bool,
    dt: i64,
) -> Seq<PhysObject> {
    Seq::new(s.len(), |i: int| feed_spec(s[i], Vec2 { x: vals[i].0, y: vals[i].1 }, as_velocity, dt))
}

/// Evaluate an externally supplied vector field at every particle's position
/// and feed the result.  The field is opaque, so the contract hands back the
/// sampled values as a ghost witness: each is a value the field may return at
/// that particle's position, and the new state is exactly the old one fed
/// those values.
pub fn apply_vector_field<F: Fn(i64, i64) -> (i64, i64)>(
    objs: &mut Vec<PhysObject>,
    f: &F,
    as_velocity: bool,
    dt: i64,
) -> (vals: Ghost<Seq<(i64, i64)>>)
    requires
        forall|x: i64, y: i64| call_requires(*f, (x, y)),
        0 <= dt <= MAX_DT,
    ensures
        vals@.len() == old(objs)@.len(),
        forall|i: int|
            0 <= i < old(objs)@.len() ==> call_ensures(
                *f,
                (old(objs)@[i].pos.x, old(objs)@[i].pos.y),
                #[trigger] vals@[i],
            ),
        final(objs)@ == vector_field_phase_spec(old(objs)@, vals@, as_velocity, dt),
{
    let n = objs.len();
    let ghost snapshot = objs@;
    let ghost mut vals: Seq<(i64, i64)> = Seq::empty();
    let mut i: usize = 0;
    while i < n
        invariant
            n == objs@.len(),
            snapshot.len() == n,
            forall|x: i64, y: i64| call_requires(*f, (x, y)),
            0 <= dt <= MAX_DT,
            i <= n,
            vals.len() == i,
            forall|j: int| i <= j < n ==> #[trigger] objs@[j] == snapshot[j],
            forall|j: int|
                0 <= j < i ==> call_ensures(
                    *f,
                    (snapshot[j].pos.x, snapshot[j].pos.y),
                    #[trigger] vals[j],
                ),
            forall|j: int|
                0 <= j < i ==> #[trigger] objs@[j] == feed_spec(
                    snapshot[j],
                    Vec2 { x: vals[j].0, y: vals[j].1 },
                    as_velocity,
                    dt,
                ),
        decreases n - i,
    {
        let pos = objs[i].pos;
        let v = f(pos.x, pos.y);
        let vv = Vec2 { x: v.0, y: v.1 };
        if as_velocity {
            objs[i].set_velocity(vv, dt);
        } else {
            objs[i].accelerate(vv);
        }
        proof {
            vals = vals.push(v);
        }
        i = i + 1;
    }
    proof {
        assert(objs@ =~= vector_field_phase_spec(snapshot, vals, as_velocity, dt));
    }
    Ghost(vals)
}

} // verus!
