//! The per-frame orchestration: validate constraints once, then run N equal
//! substeps of gravity → bounds → constraints → collisions → integration, and
//! report dropped constraints and non-finite particles for discarding.

use vstd::prelude::*;

verus! {

use crate::bounds::{confine_spec, Bounds};
use crate::collision::collisions_spec;
use crate::constraints::{
    link_apply_spec, link_should_stay_spec, point_apply_spec, LinkConstraint, PointConstraint,
};
use crate::gravity::{
    field_phase_spec, nbody_phase_spec, vector_field_phase_spec, Gravity,
};
use crate::object::{integrate_spec, PhysObject};
use crate::{MAX_DT, MAX_GRAV};

/// The per-simulation configuration, immutable during a step.
pub struct PhysSettings {
    pub gravity: Gravity,
    pub gravity_set_velocity: bool,
    pub bounds: Bounds,
    pub gravitational_constant: i64,
    pub sub_steps: u32,
    pub collisions: bool,
}

impl PhysSettings {
    pub open spec fn wf(self) -> bool {
        &&& self.gravity.wf()
        &&& self.bounds.wf()
        &&& -MAX_GRAV <= self.gravitational_constant <= MAX_GRAV
        &&& self.sub_steps >= 1
    }
}

impl Default for PhysSettings {
    fn default() -> (r: PhysSettings)
        ensures
            r.gravity is Off,
            !r.gravity_set_velocity,
            r.bounds is Off,
            r.gravitational_constant == 0,
            r.sub_steps == 1,
            r.collisions,
            r.wf(),
    {
        PhysSettings {
            gravity: Gravity::Off,
            gravity_set_velocity: false,
            bounds: Bounds::Off,
            gravitational_constant: 0,
            sub_steps: 1,
            collisions: true,
        }
    }
}

/// A link is applied only while both endpoints resolve and it is within its
/// break distance.
pub open spec fn link_valid(l: LinkConstraint<usize>, s: Seq<PhysObject>) -> bool {
    &&& (l.a as int) < s.len()
    &&& (l.b as int) < s.len()
    &&& link_should_stay_spec(l, s)
}

/// A point constraint is applied only while its particle resolves.
pub open spec fn point_valid(c: PointConstraint<usize>, s: Seq<PhysObject>) -> bool {
    (c.a as int) < s.len()
}

/// The first `k` links that survive validation, in order.
pub open spec fn kept_links(
    ls: Seq<LinkConstraint<usize>>,
    s: Seq<PhysObject>,
    k: int,
) -> Seq<LinkConstraint<usize>>
    decreases k,
{
    if k <= 0 {
        Seq::empty()
    } else {
        let p = kept_links(ls, s, k - 1);
        if link_valid(ls[k - 1], s) {
            p.push(ls[k - 1])
        } else {
            p
        }
    }
}

/// The indices of the first `k` links that validation drops, in order.
pub open spec fn dropped_links(
    ls: Seq<LinkConstraint<usize>>,
    s: Seq<PhysObject>,
    k: int,
) -> Seq<usize>
    decreases k,
{
    if k <= 0 {
        Seq::empty()
    } else {
        let p = dropped_links(ls, s, k - 1);
        if link_valid(ls[k - 1], s) {
            p
        } else {
            p.push((k - 1) as usize)
        }
    }
}

/// The first `k` point constraints that survive validation, in order.
pub open spec fn kept_points(
    ps: Seq<PointConstraint<usize>>,
    s: Seq<PhysObject>,
    k: int,
) -> Seq<PointConstraint<usize>>
    decreases k,
{
    if k <= 0 {
        Seq::empty()
    } else {
        let p = kept_points(ps, s, k - 1);
        if point_valid(ps[k - 1], s) {
            p.push(ps[k - 1])
        } else {
            p
        }
    }
}

/// The indices of the first `k` point constraints that validation drops.
pub open spec fn dropped_points(
    ps: Seq<PointConstraint<usize>>,
    s: Seq<PhysObject>,
    k: int,
) -> Seq<usize>
    decreases k,
{
    if k <= 0 {
        Seq::empty()
    } else {
        let p = dropped_points(ps, s, k - 1);
        if point_valid(ps[k - 1], s) {
            p
        } else {
            p.push((k - 1) as usize)
        }
    }
}

/// Validate every link against the current particle list: broken or dangling
/// links are dropped and reported.
pub fn validate_links(links: &Vec<LinkConstraint<usize>>, objs: &Vec<PhysObject>) -> (r: (
    Vec<LinkConstraint<usize>>,
    Vec<usize>,
))
    requires
        forall|i: int| 0 <= i < links@.len() ==> #[trigger] links@[i].wf(),
    ensures
        r.0@ == kept_links(links@, objs@, links@.len() as int),
        r.1@ == dropped_links(links@, objs@, links@.len() as int),
        forall|j: int|
            0 <= j < r.0@.len() ==> link_valid(#[trigger] r.0@[j], objs@) && r.0@[j].wf(),
{
    let mut kept: Vec<LinkConstraint<usize>> = Vec::new();
    let mut dropped: Vec<usize> = Vec::new();
    let n = links.len();
    let mut i: usize = 0;
    while i < n
        invariant
            n == links@.len(),
            i <= n,
            forall|j: int| 0 <= j < links@.len() ==> #[trigger] links@[j].wf(),
            kept@ == kept_links(links@, objs@, i as int),
            dropped@ == dropped_links(links@, objs@, i as int),
            forall|j: int|
                0 <= j < kept@.len() ==> link_valid(#[trigger] kept@[j], objs@) && kept@[j].wf(),
        decreases n - i,
    {
        let l = &links[i];
        if l.a < objs.len() && l.b < objs.len() && l.should_stay(objs) {
            kept.push(LinkConstraint { a: l.a, b: l.b, dist: l.dist, snap: l.snap });
        } else {
            dropped.push(i);
        }
        i = i + 1;
    }
    (kept, dropped)
}

/// Validate every point constraint: dangling ones are dropped and reported.
pub fn validate_points(points: &Vec<PointConstraint<usize>>, objs: &Vec<PhysObject>) -> (r: (
    Vec<PointConstraint<usize>>,
    Vec<usize>,
))
    requires
        forall|i: int| 0 <= i < points@.len() ==> #[trigger] points@[i].wf(),
    ensures
        r.0@ == kept_points(points@, objs@, points@.len() as int),
        r.1@ == dropped_points(points@, objs@, points@.len() as int),
        forall|j: int|
            0 <= j < r.0@.len() ==> point_valid(#[trigger] r.0@[j], objs@) && r.0@[j].wf(),
{
    let mut kept: Vec<PointConstraint<usize>> = Vec::new();
    let mut dropped: Vec<usize> = Vec::new();
    let n = points.len();
    let mut i: usize = 0;
    while i < n
        invariant
            n == points@.len(),
            i <= n,
            forall|j: int| 0 <= j < points@.len() ==> #[trigger] points@[j].wf(),
            kept@ == kept_points(points@, objs@, i as int),
            dropped@ == dropped_points(points@, objs@, i as int),
            forall|j: int|
                0 <= j < kept@.len() ==> point_valid(#[trigger] kept@[j], objs@) && kept@[j].wf(),
        decreases n - i,
    {
        let c = &points[i];
        if c.a < objs.len() {
            kept.push(PointConstraint { a: c.a, dist: c.dist, point: c.point });
        } else {
            dropped.push(i);
        }
        i = i + 1;
    }
    (kept, dropped)
}

/// Only valid links survive validation.
pub proof fn lemma_kept_links_valid(
    ls: Seq<LinkConstraint<usize>>,
    s: Seq<PhysObject>,
    k: int,
)
    ensures
        forall|j: int|
            0 <= j < kept_links(ls, s, k).len() ==> link_valid(
                #[trigger] kept_links(ls, s, k)[j],
                s,
            ),
    decreases k,
{
    if k > 0 {
        lemma_kept_links_valid(ls, s, k - 1);
        let p = kept_links(ls, s, k - 1);
        if link_valid(ls[k - 1], s) {
            assert forall|j: int| 0 <= j < kept_links(ls, s, k).len() implies link_valid(
                kept_links(ls, s, k)[j],
                s,
            ) by {
                if j < p.len() {
                    assert(kept_links(ls, s, k)[j] == p[j]);
                } else {
                    assert(kept_links(ls, s, k)[j] == ls[k - 1]);
                }
            }
        }
    }
}

/// An invalid link's index is always reported among the dropped ones.
pub proof fn lemma_dropped_links_contains(
    ls: Seq<LinkConstraint<usize>>,
    s: Seq<PhysObject>,
    i: int,
    k: int,
)
    requires
        0 <= i < k,
        !link_valid(ls[i], s),
    ensures
        dropped_links(ls, s, k).contains(i as usize),
    decreases k,
{
    let p = dropped_links(ls, s, k - 1);
    if i == k - 1 {
        assert(dropped_links(ls, s, k) == p.push((k - 1) as usize));
        assert(dropped_links(ls, s, k)[p.len() as int] == i as usize);
    } else {
        lemma_dropped_links_contains(ls, s, i, k - 1);
        let m = choose|m: int| 0 <= m < p.len() && p[m] == i as usize;
        if link_valid(ls[k - 1], s) {
            assert(dropped_links(ls, s, k)[m] == i as usize);
        } else {
            assert(dropped_links(ls, s, k)[m] == i as usize);
        }
    }
}

/// Break semantics: a link whose particles are beyond its snap distance
/// when the step begins is absent from the validated set that the substeps
/// apply, and its index appears in the drop report.
pub proof fn lemma_break_semantics(
    ls: Seq<LinkConstraint<usize>>,
    s: Seq<PhysObject>,
    i: int,
)
    requires
        0 <= i < ls.len(),
        !link_should_stay_spec(ls[i], s),
    ensures
        dropped_links(ls, s, ls.len() as int).contains(i as usize),
        forall|j: int|
            0 <= j < kept_links(ls, s, ls.len() as int).len() ==> kept_links(
                ls,
                s,
                ls.len() as int,
            )[j] != ls[i],
{
    lemma_dropped_links_contains(ls, s, i, ls.len() as int);
    lemma_kept_links_valid(ls, s, ls.len() as int);
}

/// Every particle in the list is well-formed.
pub open spec fn all_wf(s: Seq<PhysObject>) -> bool {
    forall|i: int| 0 <= i < s.len() ==> #[trigger] s[i].wf()
}

/// The sequential fold of the first `k` link constraints.
pub open spec fn links_fold(
    s: Seq<PhysObject>,
    ls: Seq<LinkConstraint<usize>>,
    k: int,
) -> Seq<PhysObject>
    decreases k,
{
    if k <= 0 {
        s
    } else {
        link_apply_spec(ls[k - 1], links_fold(s, ls, k - 1))
    }
}

/// The sequential fold of the first `k` point constraints.
pub open spec fn points_fold(
    s: Seq<PhysObject>,
    ps: Seq<PointConstraint<usize>>,
    k: int,
) -> Seq<PhysObject>
    decreases k,
{
    if k <= 0 {
        s
    } else {
        point_apply_spec(ps[k - 1], points_fold(s, ps, k - 1))
    }
}

/// A link step never changes the list's length, masses or radii.
pub proof fn lemma_link_apply_preserves(l: LinkConstraint<usize>, s: Seq<PhysObject>)
    requires
        (l.a as int) < s.len(),
        (l.b as int) < s.len(),
    ensures
        link_apply_spec(l, s).len() == s.len(),
        forall|i: int|
            0 <= i < s.len() ==> (#[trigger] link_apply_spec(l, s)[i]).mass == s[i].mass
                && link_apply_spec(l, s)[i].radius == s[i].radius,
{
}

/// A point-constraint step never changes the list's length, masses or radii.
pub proof fn lemma_point_apply_preserves(c: PointConstraint<usize>, s: Seq<PhysObject>)
    requires
        (c.a as int) < s.len(),
    ensures
        point_apply_spec(c, s).len() == s.len(),
        forall|i: int|
            0 <= i < s.len() ==> (#[trigger] point_apply_spec(c, s)[i]).mass == s[i].mass
                && point_apply_spec(c, s)[i].radius == s[i].radius,
{
}

/// Folding links preserves length, masses and radii.
pub proof fn lemma_links_fold_preserves(
    s: Seq<PhysObject>,
    ls: Seq<LinkConstraint<usize>>,
    k: int,
)
    requires
        forall|j: int|
            0 <= j < k ==> ((#[trigger] ls[j]).a as int) < s.len() && (ls[j].b as int) < s.len(),
    ensures
        links_fold(s, ls, k).len() == s.len(),
        forall|i: int|
            0 <= i < s.len() ==> (#[trigger] links_fold(s, ls, k)[i]).mass == s[i].mass
                && links_fold(s, ls, k)[i].radius == s[i].radius,
    decreases k,
{
    if k > 0 {
        lemma_links_fold_preserves(s, ls, k - 1);
        lemma_link_apply_preserves(ls[k - 1], links_fold(s, ls, k - 1));
    }
}

/// Folding point constraints preserves length, masses and radii.
pub proof fn lemma_points_fold_preserves(
    s: Seq<PhysObject>,
    ps: Seq<PointConstraint<usize>>,
    k: int,
)
    requires
        forall|j: int| 0 <= j < k ==> ((#[trigger] ps[j]).a as int) < s.len(),
    ensures
        points_fold(s, ps, k).len() == s.len(),
        forall|i: int|
            0 <= i < s.len() ==> (#[trigger] points_fold(s, ps, k)[i]).mass == s[i].mass
                && points_fold(s, ps, k)[i].radius == s[i].radius,
    decreases k,
{
    if k > 0 {
        lemma_points_fold_preserves(s, ps, k - 1);
        lemma_point_apply_preserves(ps[k - 1], points_fold(s, ps, k - 1));
    }
}

/// Applying collected collision corrections preserves length, masses and
/// radii.
pub proof fn lemma_corrections_preserve(
    s: Seq<PhysObject>,
    rs: Seq<((usize, crate::vec2::Vec2), (usize, crate::vec2::Vec2))>,
    k: int,
)
    ensures
        crate::collision::apply_corrections(s, rs, k).len() == s.len(),
        forall|i: int|
            0 <= i < s.len() ==> (#[trigger] crate::collision::apply_corrections(s, rs, k)[i]).mass
                == s[i].mass && crate::collision::apply_corrections(s, rs, k)[i].radius
                == s[i].radius,
    decreases k,
{
    if k > 0 {
        lemma_corrections_preserve(s, rs, k - 1);
    }
}

/// Confine every particle to the configured bounds.
pub open spec fn confine_all_spec(s: Seq<PhysObject>, b: Bounds) -> Seq<PhysObject> {
    Seq::new(s.len(), |i: int| confine_spec(b, s[i]))
}

/// Integrate every particle.
pub open spec fn integrate_all_spec(s: Seq<PhysObject>, dt: i64) -> Seq<PhysObject> {
    Seq::new(s.len(), |i: int| integrate_spec(s[i], dt))
}

fn confine_all(objs: &mut Vec<PhysObject>, b: &Bounds)
    requires
        b.wf(),
        all_wf(old(objs)@),
    ensures
        final(objs)@ == confine_all_spec(old(objs)@, *b),
{
    let n = objs.len();
    let ghost snapshot = objs@;
    let mut i: usize = 0;
    while i < n
        invariant
            n == objs@.len(),
            snapshot.len() == n,
            b.wf(),
            all_wf(snapshot),
            i <= n,
            forall|j: int| i <= j < n ==> #[trigger] objs@[j] == snapshot[j],
            forall|j: int| 0 <= j < i ==> #[trigger] objs@[j] == confine_spec(*b, snapshot[j]),
        decreases n - i,
    {
        proof {
            assert(snapshot[i as int].wf());
        }
        b.update_position(&mut objs[i]);
        i = i + 1;
    }
    proof {
        assert(objs@ =~= confine_all_spec(snapshot, *b));
    }
}

fn integrate_all(objs: &mut Vec<PhysObject>, dt: i64)
    requires
        0 <= dt <= MAX_DT,
    ensures
        final(objs)@ == integrate_all_spec(old(objs)@, dt),
{
    let n = objs.len();
    let ghost snapshot = objs@;
    let mut i: usize = 0;
    while i < n
        invariant
            n == objs@.len(),
            snapshot.len() == n,
            0 <= dt <= MAX_DT,
            i <= n,
            forall|j: int| i <= j < n ==> #[trigger] objs@[j] == snapshot[j],
            forall|j: int| 0 <= j < i ==> #[trigger] objs@[j] == integrate_spec(snapshot[j], dt),
        decreases n - i,
    {
        objs[i].update_position(dt);
        i = i + 1;
    }
    proof {
        assert(objs@ =~= integrate_all_spec(snapshot, dt));
    }
}

fn apply_links(objs: &mut Vec<PhysObject>, links: &Vec<LinkConstraint<usize>>)
    requires
        all_wf(old(objs)@),
        forall|j: int|
            0 <= j < links@.len() ==> ((#[trigger] links@[j]).a as int) < old(objs)@.len() && (
            links@[j].b as int) < old(objs)@.len() && links@[j].wf(),
    ensures
        final(objs)@ == links_fold(old(objs)@, links@, links@.len() as int),
{
    let n = links.len();
    let ghost snapshot = objs@;
    let mut k: usize = 0;
    while k < n
        invariant
            n == links@.len(),
            all_wf(snapshot),
            forall|j: int|
                0 <= j < n ==> ((#[trigger] links@[j]).a as int) < snapshot.len() && (
                links@[j].b as int) < snapshot.len() && links@[j].wf(),
            k <= n,
            objs@ == links_fold(snapshot, links@, k as int),
        decreases n - k,
    {
        proof {
            lemma_links_fold_preserves(snapshot, links@, k as int);
            assert forall|j: int| 0 <= j < objs@.len() implies (#[trigger] objs@[j]).wf() by {
                assert(snapshot[j].wf());
                assert(links_fold(snapshot, links@, k as int)[j].mass == snapshot[j].mass);
            }
        }
        let l = &links[k];
        let lk = LinkConstraint { a: l.a, b: l.b, dist: l.dist, snap: l.snap };
        lk.apply(objs);
        k = k + 1;
    }
}

fn apply_points(objs: &mut Vec<PhysObject>, points: &Vec<PointConstraint<usize>>)
    requires
        all_wf(old(objs)@),
        forall|j: int|
            0 <= j < points@.len() ==> ((#[trigger] points@[j]).a as int) < old(objs)@.len()
                && points@[j].wf(),
    ensures
        final(objs)@ == points_fold(old(objs)@, points@, points@.len() as int),
{
    let n = points.len();
    let ghost snapshot = objs@;
    let mut k: usize = 0;
    while k < n
        invariant
            n == points@.len(),
            all_wf(snapshot),
            forall|j: int|
                0 <= j < n ==> ((#[trigger] points@[j]).a as int) < snapshot.len()
                    && points@[j].wf(),
            k <= n,
            objs@ == points_fold(snapshot, points@, k as int),
        decreases n - k,
    {
        proof {
            lemma_points_fold_preserves(snapshot, points@, k as int);
            assert forall|j: int| 0 <= j < objs@.len() implies (#[trigger] objs@[j]).wf() by {
                assert(snapshot[j].wf());
                assert(points_fold(snapshot, points@, k as int)[j].mass == snapshot[j].mass);
            }
        }
        let c = &points[k];
        let ck = PointConstraint { a: c.a, dist: c.dist, point: c.point };
        ck.apply(objs);
        k = k + 1;
    }
}

/// The gravity half of a substep: the N-body term (when the gravitational
/// constant is non-zero), then the configured field term.  `fvals` and
/// `field_active` describe the vector-field mode: with no field function the
/// field contributes zero.
pub open spec fn gravity_spec(
    s: Seq<PhysObject>,
    settings: PhysSettings,
    fvals: Seq<(i64, i64)>,
    field_active: bool,
    dt: i64,
) -> Seq<PhysObject> {
    let s1 = if settings.gravitational_constant != 0 {
        nbody_phase_spec(s, settings.gravitational_constant, settings.gravity_set_velocity, dt)
    } else {
        s
    };
    match settings.gravity {
        Gravity::Off => s1,
        Gravity::VectorField { .. } => if field_active {
            vector_field_phase_spec(s1, fvals, settings.gravity_set_velocity, dt)
        } else {
            field_phase_spec(s1, settings.gravity, settings.gravity_set_velocity, dt)
        },
        _ => field_phase_spec(s1, settings.gravity, settings.gravity_set_velocity, dt),
    }
}

/// The rest of a substep: bounds → links → points → collisions → integration.
pub open spec fn post_gravity_spec(
    s: Seq<PhysObject>,
    settings: PhysSettings,
    links: Seq<LinkConstraint<usize>>,
    points: Seq<PointConstraint<usize>>,
    dt: i64,
) -> Seq<PhysObject> {
    let s2 = confine_all_spec(s, settings.bounds);
    let s3 = links_fold(s2, links, links.len() as int);
    let s4 = points_fold(s3, points, points.len() as int);
    let s5 = if settings.collisions {
        collisions_spec(s4)
    } else {
        s4
    };
    integrate_all_spec(s5, dt)
}

/// One full substep.
pub open spec fn substep_spec(
    s: Seq<PhysObject>,
    settings: PhysSettings,
    links: Seq<LinkConstraint<usize>>,
    points: Seq<PointConstraint<usize>>,
    fvals: Seq<(i64, i64)>,
    field_active: bool,
    dt: i64,
) -> Seq<PhysObject> {
    post_gravity_spec(
        gravity_spec(s, settings, fvals, field_active, dt),
        settings,
        links,
        points,
        dt,
    )
}

/// `n` substeps in sequence; substep `k` uses the field samples `fvalss[k]`.
pub open spec fn run_substeps(
    s: Seq<PhysObject>,
    settings: PhysSettings,
    links: Seq<LinkConstraint<usize>>,
    points: Seq<PointConstraint<usize>>,
    fvalss: Seq<Seq<(i64, i64)>>,
    field_active: bool,
    dt: i64,
    n: int,
) -> Seq<PhysObject>
    decreases n,
{
    if n <= 0 {
        s
    } else {
        substep_spec(
            run_substeps(s, settings, links, points, fvalss, field_active, dt, n - 1),
            settings,
            links,
            points,
            fvalss[n - 1],
            field_active,
            dt,
        )
    }
}

/// Running substeps only reads the first `n` entries of the sample sequence.
pub proof fn lemma_run_substeps_prefix(
    s: Seq<PhysObject>,
    settings: PhysSettings,
    links: Seq<LinkConstraint<usize>>,
    points: Seq<PointConstraint<usize>>,
    fv1: Seq<Seq<(i64, i64)>>,
    fv2: Seq<Seq<(i64, i64)>>,
    field_active: bool,
    dt: i64,
    n: int,
)
    requires
        forall|k: int| 0 <= k < n ==> fv1[k] == fv2[k],
    ensures
        run_substeps(s, settings, links, points, fv1, field_active, dt, n) == run_substeps(
            s,
            settings,
            links,
            points,
            fv2,
            field_active,
            dt,
            n,
        ),
    decreases n,
{
    if n > 0 {
        lemma_run_substeps_prefix(s, settings, links, points, fv1, fv2, field_active, dt, n - 1);
    }
}

/// Facts carried between phases: every phase of a substep preserves the
/// list's length and every particle's mass and radius.
proof fn lemma_phase_wf(s: Seq<PhysObject>, t: Seq<PhysObject>)
    requires
        all_wf(s),
        t.len() == s.len(),
        forall|i: int|
            0 <= i < s.len() ==> (#[trigger] t[i]).mass == s[i].mass && t[i].radius == s[i].radius,
    ensures
        all_wf(t),
{
    assert forall|i: int| 0 <= i < t.len() implies (#[trigger] t[i]).wf() by {
        assert(s[i].wf());
    }
}

/// One substep over the particle list, with no vector-field function: a
/// vector-field gravity mode contributes zero.
fn substep(
    objs: &mut Vec<PhysObject>,
    links: &Vec<LinkConstraint<usize>>,
    points: &Vec<PointConstraint<usize>>,
    settings: &PhysSettings,
    dt: i64,
)
    requires
        settings.wf(),
        all_wf(old(objs)@),
        0 <= dt <= MAX_DT,
        forall|j: int|
            0 <= j < links@.len() ==> ((#[trigger] links@[j]).a as int) < old(objs)@.len() && (
            links@[j].b as int) < old(objs)@.len() && links@[j].wf(),
        forall|j: int|
            0 <= j < points@.len() ==> ((#[trigger] points@[j]).a as int) < old(objs)@.len()
                && points@[j].wf(),
    ensures
        final(objs)@ == substep_spec(
            old(objs)@,
            *settings,
            links@,
            points@,
            Seq::empty(),
            false,
            dt,
        ),
        final(objs)@.len() == old(objs)@.len(),
        all_wf(final(objs)@),
{
    let ghost s0 = objs@;
    if settings.gravitational_constant != 0 {
        crate::gravity::apply_nbody_gravity(
            objs,
            settings.gravitational_constant,
            settings.gravity_set_velocity,
            dt,
        );
    }
    let ghost s1 = objs@;
    proof {
        assert(s1 == if settings.gravitational_constant != 0 {
            nbody_phase_spec(
                s0,
                settings.gravitational_constant,
                settings.gravity_set_velocity,
                dt,
            )
        } else {
            s0
        });
        assert(s1.len() == s0.len());
        lemma_phase_wf(s0, s1);
    }
    let skip_field = match &settings.gravity {
        Gravity::Off => true,
        _ => false,
    };
    if !skip_field {
        crate::gravity::apply_field_gravity(
            objs,
            &settings.gravity,
            settings.gravity_set_velocity,
            dt,
        );
    }
    let ghost s2 = objs@;
    proof {
        assert(s2 == gravity_spec(s0, *settings, Seq::empty(), false, dt));
        assert(s2.len() == s1.len());
        lemma_phase_wf(s1, s2);
    }
    confine_all(objs, &settings.bounds);
    let ghost s3 = objs@;
    proof {
        assert(s3.len() == s2.len());
        lemma_phase_wf(s2, s3);
    }
    apply_links(objs, links);
    let ghost s4 = objs@;
    proof {
        lemma_links_fold_preserves(s3, links@, links@.len() as int);
        lemma_phase_wf(s3, s4);
    }
    apply_points(objs, points);
    let ghost s5 = objs@;
    proof {
        lemma_points_fold_preserves(s4, points@, points@.len() as int);
        lemma_phase_wf(s4, s5);
    }
    if settings.collisions {
        crate::collision::resolve_collisions(objs);
    }
    let ghost s6 = objs@;
    proof {
        lemma_corrections_preserve(
            s5,
            crate::collision::collect_rows(s5, s5.len() as int),
            crate::collision::collect_rows(s5, s5.len() as int).len() as int,
        );
        lemma_phase_wf(s5, s6);
    }
    integrate_all(objs, dt);
    proof {
        lemma_phase_wf(s6, objs@);
    }
}

/// One substep with a vector-field function; returns the field samples used.
fn substep_with_field<F: Fn(i64, i64) -> (i64, i64)>(
    objs: &mut Vec<PhysObject>,
    links: &Vec<LinkConstraint<usize>>,
    points: &Vec<PointConstraint<usize>>,
    settings: &PhysSettings,
    f: &F,
    dt: i64,
) -> (fvals: Ghost<Seq<(i64, i64)>>)
    requires
        settings.wf(),
        all_wf(old(objs)@),
        0 <= dt <= MAX_DT,
        forall|x: i64, y: i64| call_requires(*f, (x, y)),
        forall|j: int|
            0 <= j < links@.len() ==> ((#[trigger] links@[j]).a as int) < old(objs)@.len() && (
            links@[j].b as int) < old(objs)@.len() && links@[j].wf(),
        forall|j: int|
            0 <= j < points@.len() ==> ((#[trigger] points@[j]).a as int) < old(objs)@.len()
                && points@[j].wf(),
    ensures
        final(objs)@ == substep_spec(old(objs)@, *settings, links@, points@, fvals@, true, dt),
        final(objs)@.len() == old(objs)@.len(),
        all_wf(final(objs)@),
        settings.gravity is VectorField ==> fvals@.len() == old(objs)@.len() && forall|i: int|
            0 <= i < old(objs)@.len() ==> call_ensures(
                *f,
                (old(objs)@[i].pos.x, old(objs)@[i].pos.y),
                #[trigger] fvals@[i],
            ),
{
    let ghost s0 = objs@;
    if settings.gravitational_constant != 0 {
        crate::gravity::apply_nbody_gravity(
            objs,
            settings.gravitational_constant,
            settings.gravity_set_velocity,
            dt,
        );
    }
    let ghost s1 = objs@;
    proof {
        assert(s1 == if settings.gravitational_constant != 0 {
            nbody_phase_spec(
                s0,
                settings.gravitational_constant,
                settings.gravity_set_velocity,
                dt,
            )
        } else {
            s0
        });
        lemma_phase_wf(s0, s1);
        // the N-body phase never moves a particle's current position
        assert forall|i: int| 0 <= i < s0.len() implies (#[trigger] s1[i]).pos == s0[i].pos by {
            crate::gravity::lemma_feed_keeps_pos(
                s0[i],
                crate::gravity::nbody_acc(s0, s0[i].pos, settings.gravitational_constant, s0.len() as int),
                settings.gravity_set_velocity,
                dt,
            );
        }
    }
    let ghost fvals_g: Seq<(i64, i64)>;
    let is_field = match &settings.gravity {
        Gravity::VectorField { .. } => true,
        _ => false,
    };
    if is_field {
        let fv = crate::gravity::apply_vector_field(
            objs,
            f,
            settings.gravity_set_velocity,
            dt,
        );
        proof {
            fvals_g = fv@;
        }
    } else {
        let skip_field = match &settings.gravity {
            Gravity::Off => true,
            _ => false,
        };
        if !skip_field {
            crate::gravity::apply_field_gravity(
                objs,
                &settings.gravity,
                settings.gravity_set_velocity,
                dt,
            );
        }
        proof {
            fvals_g = Seq::empty();
        }
    }
    let ghost s2 = objs@;
    proof {
        assert(s2 == gravity_spec(s0, *settings, fvals_g, true, dt));
        lemma_phase_wf(s1, s2);
    }
    confine_all(objs, &settings.bounds);
    let ghost s3 = objs@;
    proof {
        lemma_phase_wf(s2, s3);
    }
    apply_links(objs, links);
    let ghost s4 = objs@;
    proof {
        lemma_links_fold_preserves(s3, links@, links@.len() as int);
        lemma_phase_wf(s3, s4);
    }
    apply_points(objs, points);
    let ghost s5 = objs@;
    proof {
        lemma_points_fold_preserves(s4, points@, points@.len() as int);
        lemma_phase_wf(s4, s5);
    }
    if settings.collisions {
        crate::collision::resolve_collisions(objs);
    }
    let ghost s6 = objs@;
    proof {
        lemma_corrections_preserve(
            s5,
            crate::collision::collect_rows(s5, s5.len() as int),
            crate::collision::collect_rows(s5, s5.len() as int).len() as int,
        );
        lemma_phase_wf(s5, s6);
    }
    integrate_all(objs, dt);
    proof {
        lemma_phase_wf(s6, objs@);
    }
    Ghost(fvals_g)
}

/// The indices among the first `k` particles whose position ended the step
/// outside the finite world range, in order.
pub open spec fn discard_idxs(s: Seq<PhysObject>, k: int) -> Seq<usize>
    decreases k,
{
    if k <= 0 {
        Seq::empty()
    } else {
        let p = discard_idxs(s, k - 1);
        if s[k - 1].pos.finite() {
            p
        } else {
            p.push((k - 1) as usize)
        }
    }
}

/// What a step hands back beside the updated particles: the constraints that
/// were dropped (broken or dangling), and the particles whose position became
/// non-finite and should be discarded by the caller.
pub struct StepReport {
    pub dropped_links: Vec<usize>,
    pub dropped_points: Vec<usize>,
    pub discarded: Vec<usize>,
}

/// A substep with inactive field ignores the sample argument.
proof fn lemma_substep_no_field(
    s: Seq<PhysObject>,
    settings: PhysSettings,
    links: Seq<LinkConstraint<usize>>,
    points: Seq<PointConstraint<usize>>,
    fv1: Seq<(i64, i64)>,
    fv2: Seq<(i64, i64)>,
    dt: i64,
)
    ensures
        substep_spec(s, settings, links, points, fv1, false, dt) == substep_spec(
            s,
            settings,
            links,
            points,
            fv2,
            false,
            dt,
        ),
{
}

fn collect_discards(objs: &Vec<PhysObject>) -> (r: Vec<usize>)
    ensures
        r@ == discard_idxs(objs@, objs@.len() as int),
{
    let mut r: Vec<usize> = Vec::new();
    let n = objs.len();
    let mut i: usize = 0;
    while i < n
        invariant
            n == objs@.len(),
            i <= n,
            r@ == discard_idxs(objs@, i as int),
        decreases n - i,
    {
        if !objs[i].pos.is_finite() {
            r.push(i);
        }
        i = i + 1;
    }
    r
}

/// Run one frame: validate the constraints once against the incoming state,
/// run `sub_steps` equal substeps, and report dropped constraints and
/// non-finite particles.  A vector-field gravity mode contributes zero here;
/// `step_with_field` supplies the field functions.
pub fn step(
    objs: &mut Vec<PhysObject>,
    links: &Vec<LinkConstraint<usize>>,
    points: &Vec<PointConstraint<usize>>,
    settings: &PhysSettings,
    dt: i64,
) -> (report: StepReport)
    requires
        settings.wf(),
        all_wf(old(objs)@),
        0 <= dt <= MAX_DT,
        forall|i: int| 0 <= i < links@.len() ==> (#[trigger] links@[i]).wf(),
        forall|i: int| 0 <= i < points@.len() ==> (#[trigger] points@[i]).wf(),
    ensures
        final(objs)@ == run_substeps(
            old(objs)@,
            *settings,
            kept_links(links@, old(objs)@, links@.len() as int),
            kept_points(points@, old(objs)@, points@.len() as int),
            Seq::empty(),
            false,
            ((dt as int) / (settings.sub_steps as int)) as i64,
            settings.sub_steps as int,
        ),
        final(objs)@.len() == old(objs)@.len(),
        all_wf(final(objs)@),
        report.dropped_links@ == dropped_links(links@, old(objs)@, links@.len() as int),
        report.dropped_points@ == dropped_points(points@, old(objs)@, points@.len() as int),
        report.discarded@ == discard_idxs(final(objs)@, old(objs)@.len() as int),
{
    let (kl, dl) = validate_links(links, objs);
    let (kp, dp) = validate_points(points, objs);
    let subs: u32 = settings.sub_steps;
    let dts: i64 = ((dt as u64) / (subs as u64)) as i64;
    let ghost s0 = objs@;
    let mut s: u32 = 0;
    while s < subs
        invariant
            settings.wf(),
            subs == settings.sub_steps,
            0 <= dts <= MAX_DT,
            dts == (dt as int) / (settings.sub_steps as int),
            s <= subs,
            objs@ == run_substeps(s0, *settings, kl@, kp@, Seq::empty(), false, dts, s as int),
            objs@.len() == s0.len(),
            all_wf(objs@),
            forall|j: int|
                0 <= j < kl@.len() ==> link_valid(#[trigger] kl@[j], s0) && kl@[j].wf(),
            forall|j: int|
                0 <= j < kp@.len() ==> point_valid(#[trigger] kp@[j], s0) && kp@[j].wf(),
        decreases subs - s,
    {
        let ghost before = objs@;
        substep(objs, &kl, &kp, settings, dts);
        proof {
            lemma_substep_no_field(
                before,
                *settings,
                kl@,
                kp@,
                Seq::empty(),
                Seq::<Seq<(i64, i64)>>::empty()[s as int],
                dts,
            );
        }
        s = s + 1;
    }
    let discarded = collect_discards(objs);
    StepReport { dropped_links: dl, dropped_points: dp, discarded }
}

/// Run one frame with the two externally compiled scalar field functions,
/// packed as one function from a position to both components.  Beside the
/// report, the contract hands back the field samples: substep `k` fed each
/// particle `i` the sample `fvalss[k][i]`, a value the field may return at
/// that particle's position at the start of that substep.
pub fn step_with_field<F: Fn(i64, i64) -> (i64, i64)>(
    objs: &mut Vec<PhysObject>,
    links: &Vec<LinkConstraint<usize>>,
    points: &Vec<PointConstraint<usize>>,
    settings: &PhysSettings,
    f: &F,
    dt: i64,
) -> (r: (StepReport, Ghost<Seq<Seq<(i64, i64)>>>))
    requires
        settings.wf(),
        all_wf(old(objs)@),
        0 <= dt <= MAX_DT,
        forall|x: i64, y: i64| call_requires(*f, (x, y)),
        forall|i: int| 0 <= i < links@.len() ==> (#[trigger] links@[i]).wf(),
        forall|i: int| 0 <= i < points@.len() ==> (#[trigger] points@[i]).wf(),
    ensures
        r.1@.len() == settings.sub_steps,
        final(objs)@ == run_substeps(
            old(objs)@,
            *settings,
            kept_links(links@, old(objs)@, links@.len() as int),
            kept_points(points@, old(objs)@, points@.len() as int),
            r.1@,
            true,
            ((dt as int) / (settings.sub_steps as int)) as i64,
            settings.sub_steps as int,
        ),
        final(objs)@.len() == old(objs)@.len(),
        all_wf(final(objs)@),
        settings.gravity is VectorField ==> forall|k: int|
            0 <= k < settings.sub_steps ==> (#[trigger] r.1@[k]).len() == old(objs)@.len() && forall|
                i: int,
            |
                0 <= i < old(objs)@.len() ==> call_ensures(
                    *f,
                    (
                        run_substeps(
                            old(objs)@,
                            *settings,
                            kept_links(links@, old(objs)@, links@.len() as int),
                            kept_points(points@, old(objs)@, points@.len() as int),
                            r.1@,
                            true,
                            ((dt as int) / (settings.sub_steps as int)) as i64,
                            k,
                        )[i].pos.x,
                        run_substeps(
                            old(objs)@,
                            *settings,
                            kept_links(links@, old(objs)@, links@.len() as int),
                            kept_points(points@, old(objs)@, points@.len() as int),
                            r.1@,
                            true,
                            ((dt as int) / (settings.sub_steps as int)) as i64,
                            k,
                        )[i].pos.y,
                    ),
                    #[trigger] r.1@[k][i],
                ),
        r.0.dropped_links@ == dropped_links(links@, old(objs)@, links@.len() as int),
        r.0.dropped_points@ == dropped_points(points@, old(objs)@, points@.len() as int),
        r.0.discarded@ == discard_idxs(final(objs)@, old(objs)@.len() as int),
{
    let (kl, dl) = validate_links(links, objs);
    let (kp, dp) = validate_points(points, objs);
    let subs: u32 = settings.sub_steps;
    let dts: i64 = ((dt as u64) / (subs as u64)) as i64;
    let ghost s0 = objs@;
    let ghost mut fvalss: Seq<Seq<(i64, i64)>> = Seq::empty();
    let mut s: u32 = 0;
    while s < subs
        invariant
            settings.wf(),
            subs == settings.sub_steps,
            0 <= dts <= MAX_DT,
            dts == (dt as int) / (settings.sub_steps as int),
            s <= subs,
            forall|x: i64, y: i64| call_requires(*f, (x, y)),
            fvalss.len() == s,
            objs@ == run_substeps(s0, *settings, kl@, kp@, fvalss, true, dts, s as int),
            objs@.len() == s0.len(),
            all_wf(objs@),
            settings.gravity is VectorField ==> forall|k: int|
                0 <= k < s ==> (#[trigger] fvalss[k]).len() == s0.len() && forall|i: int|
                    0 <= i < s0.len() ==> call_ensures(
                        *f,
                        (
                            run_substeps(s0, *settings, kl@, kp@, fvalss, true, dts, k)[i].pos.x,
                            run_substeps(s0, *settings, kl@, kp@, fvalss, true, dts, k)[i].pos.y,
                        ),
                        #[trigger] fvalss[k][i],
                    ),
            forall|j: int|
                0 <= j < kl@.len() ==> link_valid(#[trigger] kl@[j], s0) && kl@[j].wf(),
            forall|j: int|
                0 <= j < kp@.len() ==> point_valid(#[trigger] kp@[j], s0) && kp@[j].wf(),
        decreases subs - s,
    {
        let ghost before = objs@;
        let ghost old_fvalss = fvalss;
        let fv = substep_with_field(objs, &kl, &kp, settings, f, dts);
        proof {
            fvalss = fvalss.push(fv@);
            assert forall|k: int| 0 <= k <= s implies run_substeps(
                s0,
                *settings,
                kl@,
                kp@,
                fvalss,
                true,
                dts,
                k,
            ) == run_substeps(s0, *settings, kl@, kp@, old_fvalss, true, dts, k) by {
                lemma_run_substeps_prefix(s0, *settings, kl@, kp@, fvalss, old_fvalss, true, dts, k);
            }
        }
        s = s + 1;
    }
    let discarded = collect_discards(objs);
    (StepReport { dropped_links: dl, dropped_points: dp, discarded }, Ghost(fvalss))
}

} // verus!
