use verlet::bounds::Bounds;
use verlet::constraints::{LinkConstraint, PointConstraint};
use verlet::for_pairs::ForPairs;
use verlet::gravity::Gravity;
use verlet::object::{find_non_finite, ObjectPos, PhysObject};
use verlet::step::{step, step_with_field, PhysSettings, StepReport};
use verlet::vec2::Vec2;
use verlet::MAX_COORD;

fn v(x: i64, y: i64) -> Vec2 {
    Vec2 { x, y }
}

fn at_rest(x: i64, y: i64) -> PhysObject {
    PhysObject::new(v(x, y), v(x, y), 1, 1)
}

fn quiet_settings() -> PhysSettings {
    PhysSettings {
        gravity: Gravity::Off,
        gravity_set_velocity: false,
        bounds: Bounds::Off,
        gravitational_constant: 0,
        sub_steps: 1,
        collisions: false,
    }
}

#[test]
fn default_settings_are_inert() {
    let s = PhysSettings::default();
    assert!(matches!(s.gravity, Gravity::Off));
    assert!(matches!(s.bounds, Bounds::Off));
    assert!(!s.gravity_set_velocity);
    assert_eq!(s.gravitational_constant, 0);
    assert_eq!(s.sub_steps, 1);
    assert!(s.collisions);
}

#[test]
fn step_with_directional_gravity() {
    let mut objs = vec![at_rest(0, 0)];
    let mut settings = quiet_settings();
    settings.gravity = Gravity::Dir(v(0, -10));
    let report = step(&mut objs, &vec![], &vec![], &settings, 1);
    assert_eq!(objs[0].pos, v(0, -10));
    assert_eq!(objs[0].pos_old, v(0, 0));
    assert!(report.discarded.is_empty());
    assert!(report.dropped_links.is_empty());
}

#[test]
fn step_divides_dt_among_substeps() {
    let mut objs = vec![at_rest(0, 0)];
    let mut settings = quiet_settings();
    settings.gravity = Gravity::Dir(v(0, -10));
    settings.sub_steps = 2;
    step(&mut objs, &vec![], &vec![], &settings, 2);
    // two substeps of dt = 1: -10, then -10 (velocity) - 10 (gravity)
    assert_eq!(objs[0].pos, v(0, -30));
    assert_eq!(objs[0].pos_old, v(0, -10));
}

#[test]
fn gravity_as_velocity_mode() {
    let mut objs = vec![at_rest(0, 0)];
    let mut settings = quiet_settings();
    settings.gravity = Gravity::Dir(v(5, 0));
    settings.gravity_set_velocity = true;
    step(&mut objs, &vec![], &vec![], &settings, 1);
    // gravity set pos_old = pos - v·dt, integration then advances by v
    assert_eq!(objs[0].pos, v(5, 0));
    assert_eq!(objs[0].pos_old, v(0, 0));
}

#[test]
fn broken_link_is_dropped_and_reported() {
    // break semantics: snap 15, particles 20 apart
    let mut objs = vec![at_rest(0, 0), at_rest(20, 0)];
    let links = vec![LinkConstraint::new(0usize, 1usize, 10, 15)];
    let settings = quiet_settings();
    let report = step(&mut objs, &links, &vec![], &settings, 1);
    assert_eq!(report.dropped_links, vec![0]);
    // the broken link was not applied: nothing moved
    assert_eq!(objs[0].pos, v(0, 0));
    assert_eq!(objs[1].pos, v(20, 0));
}

#[test]
fn intact_link_is_applied() {
    let mut objs = vec![at_rest(0, 0), at_rest(20, 0)];
    let links = vec![LinkConstraint::new(0usize, 1usize, 10, 100)];
    let settings = quiet_settings();
    let report = step(&mut objs, &links, &vec![], &settings, 1);
    assert!(report.dropped_links.is_empty());
    // the link moved each particle 5 toward the other, and integration then
    // carried that induced velocity once more
    assert_eq!(objs[0].pos_old, v(5, 0));
    assert_eq!(objs[1].pos_old, v(15, 0));
    assert_eq!(objs[0].pos, v(10, 0));
    assert_eq!(objs[1].pos, v(10, 0));
}

#[test]
fn dangling_constraints_are_reported() {
    let mut objs = vec![at_rest(0, 0)];
    let links = vec![LinkConstraint::new(0usize, 7usize, 10, 100)];
    let points = vec![PointConstraint::new(5usize, v(0, 0), 0)];
    let settings = quiet_settings();
    let report: StepReport = step(&mut objs, &links, &points, &settings, 1);
    assert_eq!(report.dropped_links, vec![0]);
    assert_eq!(report.dropped_points, vec![0]);
}

#[test]
fn runaway_particle_is_discarded() {
    let mut objs = vec![at_rest(0, 0)];
    let mut settings = quiet_settings();
    settings.gravity = Gravity::Dir(v(2 * MAX_COORD, 0));
    let report = step(&mut objs, &vec![], &vec![], &settings, 1);
    // the position left the finite world range
    assert_eq!(report.discarded, vec![0]);
    assert!(objs[0].pos.x > MAX_COORD);
}

#[test]
fn bounds_run_inside_the_step() {
    let mut objs = vec![PhysObject::new(v(300, 400), v(300, 400), 0, 1)];
    let mut settings = quiet_settings();
    settings.bounds = Bounds::Circle(100);
    step(&mut objs, &vec![], &vec![], &settings, 1);
    // projected onto the circle, then integrated with the induced velocity
    assert_eq!(objs[0].pos_old, v(60, 80));
}

#[test]
fn vector_field_contributes_zero_without_functions() {
    let mut objs = vec![at_rest(3, 4)];
    let mut settings = quiet_settings();
    settings.gravity = Gravity::VectorField { x: String::from("y"), y: String::from("-x") };
    step(&mut objs, &vec![], &vec![], &settings, 1);
    assert_eq!(objs[0].pos, v(3, 4));
}

#[test]
fn vector_field_feeds_supplied_functions() {
    let mut objs = vec![at_rest(4, 0)];
    let mut settings = quiet_settings();
    settings.gravity = Gravity::VectorField { x: String::from("x+1"), y: String::from("2") };
    let field = |x: i64, _y: i64| (x + 1, 2i64);
    let (report, _) = step_with_field(&mut objs, &vec![], &vec![], &settings, &field, 1);
    assert_eq!(objs[0].pos, v(9, 2));
    assert!(report.discarded.is_empty());
}

#[test]
fn pair_iteration_hits_exactly_the_mapped_pair() {
    // n = 5, the mapping fires only for the pair (1, 3): exactly one
    // correction lands on each of items 1 and 3, none elsewhere
    let mut items: Vec<i64> = vec![10, 11, 12, 13, 14];
    let _ = items.par_for_pairs(
        |a: i64, b: i64| if a == 11 && b == 13 { Some((5i64, -5i64)) } else { None },
        |e: i64, t: i64| e + t,
    );
    assert_eq!(items, vec![10, 16, 12, 8, 14]);
}

#[test]
fn pair_iteration_visits_every_pair() {
    let mut items: Vec<i64> = vec![100, 200, 300];
    let _ = items.par_for_pairs(
        |_a: i64, _b: i64| Some((1i64, 1i64)),
        |e: i64, t: i64| e + t,
    );
    // each item takes part in exactly two of the three pairs
    assert_eq!(items, vec![102, 202, 302]);
}

#[test]
fn gravity_names_round_trip() {
    let g = Gravity::from_str("Dir", Gravity::Off);
    assert!(matches!(g, Gravity::Dir(d) if d == v(0, -400)));
    assert_eq!(g.as_str(), "Dir");
    let kept = Gravity::from_str("Dir", Gravity::Dir(v(7, 7)));
    assert!(matches!(kept, Gravity::Dir(d) if d == v(7, 7)));
    let t = Gravity::from_str("Towards", Gravity::Off);
    assert_eq!(t.as_str(), "Towards");
    let f = Gravity::from_str("Vector Field", Gravity::Off);
    assert_eq!(f.as_str(), "Vector Field");
    assert!(matches!(Gravity::from_str("None", t), Gravity::Off));
    assert!(matches!(Gravity::from_str("garbage", Gravity::Off), Gravity::Off));
}

#[test]
fn bounds_names_round_trip() {
    let b = Bounds::from_str("Circle", Bounds::Off);
    assert!(matches!(b, Bounds::Circle(200)));
    assert_eq!(b.as_str(), "Circle");
    let r = Bounds::from_str("Rect", Bounds::Off);
    assert!(matches!(r, Bounds::Rect(min, max) if min == v(-100, -100) && max == v(100, 100)));
    assert_eq!(r.as_str(), "Rect");
    let kept = Bounds::from_str("Circle", Bounds::Circle(42));
    assert!(matches!(kept, Bounds::Circle(42)));
    assert!(matches!(Bounds::from_str("None", r), Bounds::Off));
    assert_eq!(Bounds::Off.as_str(), "None");
}

#[test]
fn collisions_run_inside_the_step() {
    let mut objs = vec![
        PhysObject::new(v(0, 0), v(0, 0), 10, 1),
        PhysObject::new(v(12, 0), v(12, 0), 10, 1),
    ];
    let mut settings = quiet_settings();
    settings.collisions = true;
    step(&mut objs, &vec![], &vec![], &settings, 1);
    // pushed apart by 4 each, then integration carries the induced velocity
    assert_eq!(objs[0].pos_old, v(-4, 0));
    assert_eq!(objs[1].pos_old, v(16, 0));
    assert_eq!(objs[0].pos, v(-8, 0));
    assert_eq!(objs[1].pos, v(20, 0));
}

#[test]
fn strict_probe_finds_non_finite_particles() {
    let fine = vec![at_rest(1, 2), at_rest(3, 4)];
    assert_eq!(find_non_finite(&fine), None);
    let broken = vec![at_rest(1, 2), PhysObject::new(v(i64::MAX, 0), v(0, 0), 1, 1)];
    assert_eq!(find_non_finite(&broken), Some(1));
    let beyond = vec![PhysObject::new(v(MAX_COORD + 1, 0), v(0, 0), 1, 1)];
    assert_eq!(find_non_finite(&beyond), Some(0));
}

#[test]
fn empty_world_steps_quietly() {
    let mut objs: Vec<PhysObject> = Vec::new();
    let mut settings = quiet_settings();
    settings.gravity = Gravity::Dir(v(0, -10));
    settings.collisions = true;
    settings.gravitational_constant = 1000;
    let report = step(&mut objs, &vec![], &vec![], &settings, 16);
    assert!(objs.is_empty());
    assert!(report.discarded.is_empty());
    assert!(report.dropped_links.is_empty());
    assert!(report.dropped_points.is_empty());
}

#[test]
fn object_pos_takes_the_new_state() {
    let mut pos = ObjectPos { current: v(0, 0), old: v(0, 0) };
    let p = PhysObject::new(v(3, 4), v(1, 2), 1, 1);
    pos.apply(&p);
    assert_eq!(pos.current, v(3, 4));
    assert_eq!(pos.old, v(1, 2));
}
