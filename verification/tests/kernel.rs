use verlet::bounds::Bounds;
use verlet::collision::{collide_pair, resolve_collisions};
use verlet::constraints::{LinkConstraint, PointConstraint};
use verlet::gravity::{nbody_accel_of, Gravity};
use verlet::object::PhysObject;
use verlet::vec2::Vec2;
use verlet::MAX_COORD;

fn v(x: i64, y: i64) -> Vec2 {
    Vec2 { x, y }
}

fn particle(x: i64, y: i64, radius: i64, mass: i64) -> PhysObject {
    PhysObject::new(v(x, y), v(x, y), radius, mass)
}

#[test]
fn integrate_uniform_motion() {
    // energy non-creation: with zero acceleration the implicit velocity is
    // preserved exactly over repeated steps
    let mut p = PhysObject::new(v(10, 0), v(7, -2), 1, 1);
    for _ in 0..10 {
        let vel = (p.pos.x - p.pos_old.x, p.pos.y - p.pos_old.y);
        assert_eq!(vel, (3, 2));
        p.update_position(1);
    }
    assert_eq!(p.pos, v(40, 20));
    assert_eq!(p.pos_old, v(37, 18));
}

#[test]
fn integrate_applies_acceleration() {
    let mut p = particle(0, 0, 1, 1);
    p.accelerate(v(2, -3));
    p.update_position(2);
    // pos += v (zero) + acc·dt²
    assert_eq!(p.pos, v(8, -12));
    assert_eq!(p.pos_old, v(0, 0));
    assert_eq!(p.acceleration, v(0, 0));
}

#[test]
fn integrate_recovers_non_finite_position() {
    let mut p = PhysObject::new(v(i64::MAX, 0), v(5, 6), 1, 1);
    p.update_position(1);
    // recovered from the previous position, with zero velocity for the step
    assert_eq!(p.pos, v(5, 6));
    assert_eq!(p.pos_old, v(5, 6));
}

#[test]
fn integrate_recovers_to_origin() {
    let mut p = PhysObject::new(v(i64::MAX, 0), v(i64::MIN, 0), 1, 1);
    p.update_position(1);
    assert_eq!(p.pos, v(0, 0));
    assert_eq!(p.pos_old, v(0, 0));
}

#[test]
fn accelerate_saturates() {
    let mut p = particle(0, 0, 1, 1);
    p.accelerate(v(i64::MAX, 0));
    p.accelerate(v(i64::MAX, -5));
    assert_eq!(p.acceleration, v(i64::MAX, -5));
}

#[test]
fn set_velocity_rewrites_history() {
    let mut p = particle(100, 50, 1, 1);
    p.set_velocity(v(3, -4), 2);
    assert_eq!(p.pos, v(100, 50));
    assert_eq!(p.pos_old, v(94, 58));
    assert_eq!(p.pos.x - p.pos_old.x, 6);
}

#[test]
fn has_changed_compares_positions() {
    let p = particle(1, 2, 1, 1);
    assert!(!p.has_changed());
    let q = PhysObject::new(v(1, 2), v(0, 2), 1, 1);
    assert!(q.has_changed());
}

#[test]
fn dir_gravity_is_constant() {
    let g = Gravity::Dir(v(0, -400));
    assert_eq!(g.acceleration(v(123, 456)), v(0, -400));
}

#[test]
fn towards_gravity_inverse_square() {
    // axis = (100, 0), |axis| = 100: accel = axis·strength/|axis|³
    let g = Gravity::Towards { point: v(100, 0), strength: 5_000_000 };
    assert_eq!(g.acceleration(v(0, 0)), v(500, 0));
    // at the attraction point itself the pull is zero, not a division by zero
    assert_eq!(g.acceleration(v(100, 0)), v(0, 0));
}

#[test]
fn nbody_two_bodies_exact() {
    let objs = vec![particle(0, 0, 1, 1), PhysObject::new(v(10, 0), v(10, 0), 1, 2)];
    // pull of b on a: axis = 10, lsq = 100, len = 10, term = 10·(2·1000)/1000
    let acc = nbody_accel_of(&objs, 0, 1000);
    assert_eq!(acc, v(20, 0));
    // pull of a on b points back: axis = -10, term = -10·(1·1000)/1000
    let acc_b = nbody_accel_of(&objs, 1, 1000);
    assert_eq!(acc_b, v(-10, 0));
}

#[test]
fn nbody_coincident_is_zero() {
    // degenerate gravity: coincident particles exert no pull
    let objs = vec![particle(7, 7, 1, 1000), particle(7, 7, 1, 1000)];
    assert_eq!(nbody_accel_of(&objs, 0, 1_000_000), v(0, 0));
    assert_eq!(nbody_accel_of(&objs, 1, 1_000_000), v(0, 0));
}

#[test]
fn circle_bound_leaves_inside_alone() {
    let b = Bounds::Circle(100);
    let mut p = particle(30, 40, 5, 1);
    b.update_position(&mut p);
    assert_eq!(p.pos, v(30, 40));
}

#[test]
fn circle_bound_projects_onto_boundary() {
    // (300, 400) has length exactly 500; projected to length exactly 100
    let b = Bounds::Circle(100);
    let mut p = particle(300, 400, 0, 1);
    b.update_position(&mut p);
    assert_eq!(p.pos, v(60, 80));
    assert_eq!(p.pos.x * p.pos.x + p.pos.y * p.pos.y, 100 * 100);
}

#[test]
fn rect_bound_clamps_exactly() {
    let b = Bounds::Rect(v(-100, -100), v(100, 100));
    let mut p = particle(150, -250, 10, 1);
    b.update_position(&mut p);
    assert_eq!(p.pos, v(90, -90));
    let mut q = particle(0, 15, 10, 1);
    b.update_position(&mut q);
    assert_eq!(q.pos, v(0, 15));
}

#[test]
fn link_moves_each_endpoint_by_five() {
    // constraint convergence: rest 10, unit masses, 20 apart
    let mut objs = vec![particle(0, 0, 1, 1), particle(20, 0, 1, 1)];
    let l = LinkConstraint::new(0usize, 1usize, 10, 100);
    l.apply(&mut objs);
    assert_eq!(objs[0].pos, v(5, 0));
    assert_eq!(objs[1].pos, v(15, 0));
}

#[test]
fn link_diagonal_axis_converges_too() {
    // axis (12, 16) also has length exactly 20
    let mut objs = vec![particle(12, 16, 1, 1), particle(0, 0, 1, 1)];
    let l = LinkConstraint::new(0usize, 1usize, 10, 100);
    l.apply(&mut objs);
    assert_eq!(objs[0].pos, v(9, 12));
    assert_eq!(objs[1].pos, v(3, 4));
}

#[test]
fn link_should_stay_respects_snap() {
    let objs = vec![particle(0, 0, 1, 1), particle(20, 0, 1, 1)];
    let near = LinkConstraint::new(0usize, 1usize, 10, 25);
    let far = LinkConstraint::new(0usize, 1usize, 10, 15);
    assert!(near.should_stay(&objs));
    assert!(!far.should_stay(&objs));
    // a link is severed only when the separation exceeds the snap distance:
    // at exactly the snap distance it stays
    let boundary = LinkConstraint::new(0usize, 1usize, 10, 20);
    let just_under = LinkConstraint::new(0usize, 1usize, 10, 19);
    assert!(boundary.should_stay(&objs));
    assert!(!just_under.should_stay(&objs));
}

#[test]
fn link_try_map_requires_both_endpoints() {
    let l = LinkConstraint::new(3i32, 4i32, 10, 15);
    let mapped = l.try_map(|e: &i32| if *e == 3 { Some(30usize) } else { None });
    assert!(mapped.is_none());
    let mapped = l.try_map(|e: &i32| Some((*e as usize) * 10));
    let m = mapped.unwrap();
    assert_eq!((m.a, m.b, m.dist, m.snap), (30, 40, 10, 15));
}

#[test]
fn point_constraint_pins_hard() {
    // axis (30, 0), dist 30, delta = 10 - 30: particle goes to anchor + n·delta
    let mut objs = vec![PhysObject::new(v(30, 0), v(29, 5), 1, 1)];
    let mut p = objs[0];
    p.accelerate(v(1, 1));
    objs[0] = p;
    let c = PointConstraint::new(0usize, v(0, 0), 10);
    c.apply(&mut objs);
    assert_eq!(objs[0].pos, v(-20, 0));
    assert_eq!(objs[0].pos_old, v(-20, 0));
    assert_eq!(objs[0].acceleration, v(0, 0));
    assert!(c.should_stay());
}

#[test]
fn point_try_map_follows_particle() {
    let c = PointConstraint::new(9i32, v(1, 2), 0);
    assert!(c.try_map(|_e: &i32| None::<usize>).is_none());
    let m = c.try_map(|e: &i32| Some(*e as usize)).unwrap();
    assert_eq!((m.a, m.dist, m.point), (9usize, 0, v(1, 2)));
}

#[test]
fn collision_separates_overlapping_pair() {
    let a = particle(0, 0, 10, 1);
    let b = particle(12, 0, 10, 1);
    // axis = -12, combined = 20, d = 12, delta = 8, den = 24
    let t = collide_pair(&a, &b).unwrap();
    assert_eq!(t.0, v(-4, 0));
    assert_eq!(t.1, v(4, 0));
    // mass conservation: m_a·Δa + m_b·Δb == 0
    assert_eq!(1 * t.0.x + 1 * t.1.x, 0);
    assert_eq!(1 * t.0.y + 1 * t.1.y, 0);
}

#[test]
fn collision_rounding_stays_within_one_unit() {
    // masses 1 and 2 at separation 15: the floor divisions leave a one-unit
    // imbalance in the mass-weighted sum, strictly between -m_a and m_b
    let a = PhysObject::new(v(15, 0), v(15, 0), 10, 1);
    let b = particle(0, 0, 10, 2);
    let t = collide_pair(&a, &b).unwrap();
    // axis = 15, d = 15, delta = 5, den = 45: shares 150/45 and 75/45
    assert_eq!(t.0, v(3, 0));
    assert_eq!(t.1, v(-1, 0));
    let wx = 1 * t.0.x + 2 * t.1.x;
    assert_eq!(wx, 1);
    assert!(-1 < wx && wx < 2);
}

#[test]
fn collision_ignores_separated_pair() {
    let a = particle(0, 0, 5, 1);
    let b = particle(12, 0, 5, 1);
    assert!(collide_pair(&a, &b).is_none());
}

#[test]
fn collision_weighted_by_mass() {
    // masses 1 and 3: the lighter particle takes 3/4 of the correction
    let a = particle(0, 0, 10, 1);
    let b = PhysObject::new(v(12, 0), v(12, 0), 10, 3);
    let t = collide_pair(&a, &b).unwrap();
    // corr_a = -12·(8·3)/(12·4) = -6; corr_b = -(-12·8·1/(12·4)) = 2
    assert_eq!(t.0, v(-6, 0));
    assert_eq!(t.1, v(2, 0));
    assert_eq!(1 * t.0.x + 3 * t.1.x, 0);
}

#[test]
fn resolve_collisions_applies_both() {
    let mut objs = vec![particle(0, 0, 10, 1), particle(12, 0, 10, 1)];
    resolve_collisions(&mut objs);
    assert_eq!(objs[0].pos, v(-4, 0));
    assert_eq!(objs[1].pos, v(16, 0));
    let dx = objs[1].pos.x - objs[0].pos.x;
    assert_eq!(dx, 20);
}

#[test]
fn coincident_pair_gets_epsilon_axis() {
    // exactly coincident circles still separate along the (1, 1) substitute
    let a = particle(0, 0, 10, 1);
    let b = particle(0, 0, 10, 1);
    let t = collide_pair(&a, &b).unwrap();
    // axis (1,1), d = 1, delta = 19, den = 2: each component 19/2 = 9
    assert_eq!(t.0, v(9, 9));
    assert_eq!(t.1, v(-9, -9));
}

#[test]
fn coincident_link_separates_along_epsilon_axis() {
    // both endpoints at the same spot: the axis substitute (1, 1) keeps the
    // division defined and pushes them apart
    let mut objs = vec![particle(5, 5, 1, 1), particle(5, 5, 1, 1)];
    let l = LinkConstraint::new(0usize, 1usize, 10, 100);
    l.apply(&mut objs);
    // d = 1, delta = 9, each side takes 9/2 = 4 per component
    assert_eq!(objs[0].pos, v(9, 9));
    assert_eq!(objs[1].pos, v(1, 1));
}

#[test]
fn oversized_particle_at_origin_goes_non_finite() {
    // a particle too large for its circle, sitting at the origin, has no
    // direction to be projected along: it is marked non-finite ...
    let b = Bounds::Circle(10);
    let mut p = particle(0, 0, 50, 1);
    b.update_position(&mut p);
    assert_eq!(p.pos, v(i64::MAX, i64::MAX));
    // ... and integration recovers it from its previous position
    p.update_position(1);
    assert_eq!(p.pos, v(0, 0));
    assert_eq!(p.pos_old, v(0, 0));
}

#[test]
fn world_limit_is_the_finite_range() {
    let b = Bounds::Circle(MAX_COORD);
    let mut p = particle(0, 0, 0, 1);
    b.update_position(&mut p);
    assert_eq!(p.pos, v(0, 0));
}
