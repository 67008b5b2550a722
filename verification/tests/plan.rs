use cloth_sim::Action;
use cloth_sim::Cloth;
use cloth_sim::Spring;
use cloth_sim::SpringKind;

type Vector = [f64; 3];

struct Body {
    position: Vector,
    velocity: Vector,
    force: Vector,
}

struct Setting {
    spacing: f64,
    stiffness: f64,
    damping: f64,
    mass: f64,
    dt: f64,
    gravity: Vector,
}

fn combine(a: Vector, b: Vector, weight: f64) -> Vector {
    [a[0] + weight * b[0], a[1] + weight * b[1], a[2] + weight * b[2]]
}

fn length(a: Vector) -> f64 {
    (a[0] * a[0] + a[1] * a[1] + a[2] * a[2]).sqrt()
}

fn flat(cloth: &Cloth, spacing: f64) -> Vec<Body> {
    (0..cloth.particle_count())
        .map(|index| {
            let (row, col) = cloth.grid().cell(index).unwrap();
            Body {
                position: [col as f64 * spacing, 0.0, row as f64 * spacing],
                velocity: [0.0; 3],
                force: [0.0; 3],
            }
        })
        .collect()
}

fn follow(plan: &[Action], bodies: &mut [Body], setting: &Setting) {
    for action in plan {
        match *action {
            Action::Pull { spring, on_a, on_b } => {
                let delta = combine(bodies[spring.b].position, bodies[spring.a].position, -1.0);
                let reach = length(delta);
                let rest = setting.spacing * (spring.kind.rest_squared() as f64).sqrt();
                let pull = if reach > 0.0 {
                    setting.stiffness * (reach - rest) / reach
                } else {
                    0.0
                };
                if on_a {
                    bodies[spring.a].force = combine(bodies[spring.a].force, delta, pull);
                }
                if on_b {
                    bodies[spring.b].force = combine(bodies[spring.b].force, delta, -pull);
                }
            }
            Action::Gravity { particle } => {
                bodies[particle].force = combine(bodies[particle].force, setting.gravity, 1.0);
            }
            Action::Damping { particle } => {
                let velocity = bodies[particle].velocity;
                bodies[particle].force = combine(bodies[particle].force, velocity, -setting.damping);
            }
            Action::Wind { .. } => {}
            Action::Integrate { particle } => {
                let body = &mut bodies[particle];
                body.velocity = combine(body.velocity, body.force, setting.dt / setting.mass);
                body.position = combine(body.position, body.velocity, setting.dt);
                body.force = [0.0; 3];
            }
        }
    }
}

fn writes(action: &Action) -> Vec<usize> {
    match *action {
        Action::Pull { spring, on_a, on_b } => {
            let mut found = Vec::new();
            if on_a {
                found.push(spring.a);
            }
            if on_b {
                found.push(spring.b);
            }
            found
        }
        Action::Gravity { particle }
        | Action::Damping { particle }
        | Action::Wind { particle }
        | Action::Integrate { particle } => vec![particle],
    }
}

fn is_move(action: &Action) -> bool {
    matches!(action, Action::Integrate { .. })
}

#[test]
fn plan_of_a_pinned_and_a_free_particle() {
    let cloth = Cloth::with_pins(2, 1, |_, col| col == 0).unwrap();
    let spring = Spring::new(0, 1, SpringKind::Stretch);
    assert_eq!(
        cloth.plan(false),
        vec![
            Action::Pull { spring, on_a: false, on_b: true },
            Action::Gravity { particle: 1 },
            Action::Damping { particle: 1 },
            Action::Integrate { particle: 1 },
        ]
    );
}

#[test]
fn plan_with_wind_adds_drag_after_damping() {
    let cloth = Cloth::with_pins(2, 1, |_, col| col == 0).unwrap();
    let spring = Spring::new(0, 1, SpringKind::Stretch);
    assert_eq!(
        cloth.plan(true),
        vec![
            Action::Pull { spring, on_a: false, on_b: true },
            Action::Gravity { particle: 1 },
            Action::Damping { particle: 1 },
            Action::Wind { particle: 1 },
            Action::Integrate { particle: 1 },
        ]
    );
}

#[test]
fn plan_of_two_rows_of_two() {
    let cloth = Cloth::new(2, 2).unwrap();
    let stretch = |a, b| Spring::new(a, b, SpringKind::Stretch);
    let shear = |a, b| Spring::new(a, b, SpringKind::Shear);
    assert_eq!(
        cloth.plan(false),
        vec![
            Action::Pull { spring: stretch(0, 1), on_a: false, on_b: false },
            Action::Pull { spring: stretch(0, 2), on_a: false, on_b: true },
            Action::Pull { spring: stretch(1, 3), on_a: false, on_b: true },
            Action::Pull { spring: stretch(2, 3), on_a: true, on_b: true },
            Action::Pull { spring: shear(0, 3), on_a: false, on_b: true },
            Action::Pull { spring: shear(1, 2), on_a: false, on_b: true },
            Action::Gravity { particle: 2 },
            Action::Damping { particle: 2 },
            Action::Gravity { particle: 3 },
            Action::Damping { particle: 3 },
            Action::Integrate { particle: 2 },
            Action::Integrate { particle: 3 },
        ]
    );
}

#[test]
fn plan_of_a_lone_pinned_particle_is_empty() {
    let cloth = Cloth::new(1, 1).unwrap();
    assert!(cloth.plan(false).is_empty());
    assert!(cloth.plan(true).is_empty());
}

#[test]
fn plan_of_a_lone_free_particle() {
    let cloth = Cloth::with_pins(1, 1, |_, _| false).unwrap();
    assert_eq!(
        cloth.plan(true),
        vec![
            Action::Gravity { particle: 0 },
            Action::Damping { particle: 0 },
            Action::Wind { particle: 0 },
            Action::Integrate { particle: 0 },
        ]
    );
}

#[test]
fn plan_pulls_structural_then_shear_then_bend() {
    let cloth = Cloth::new(4, 3).unwrap();
    let plan = cloth.plan(false);
    let mut expected: Vec<Spring> = Vec::new();
    for kind in [SpringKind::Stretch, SpringKind::Shear, SpringKind::Bend] {
        expected.extend(cloth.springs(kind).iter().copied());
    }
    let pulled: Vec<Spring> = plan
        .iter()
        .filter_map(|action| match *action {
            Action::Pull { spring, .. } => Some(spring),
            _ => None,
        })
        .collect();
    assert_eq!(pulled, expected);
    for (k, action) in plan.iter().enumerate() {
        assert_eq!(matches!(action, Action::Pull { .. }), k < expected.len());
    }
}

#[test]
fn plan_never_writes_a_pinned_particle() {
    for wind in [false, true] {
        let cloth = Cloth::with_pins(5, 4, |row, col| (row + col) % 3 == 0).unwrap();
        for action in cloth.plan(wind) {
            for particle in writes(&action) {
                assert!(!cloth.is_pinned(particle));
            }
        }
    }
}

#[test]
fn plan_pulls_each_end_that_is_free() {
    let cloth = Cloth::with_pins(5, 4, |row, col| (row + col) % 3 == 0).unwrap();
    for action in cloth.plan(false) {
        if let Action::Pull { spring, on_a, on_b } = action {
            assert_eq!(on_a, !cloth.is_pinned(spring.a));
            assert_eq!(on_b, !cloth.is_pinned(spring.b));
        }
    }
}

#[test]
fn plan_gathers_every_force_before_it_moves_a_particle() {
    let cloth = Cloth::new(4, 3).unwrap();
    let plan = cloth.plan(true);
    let first_move = plan.iter().position(is_move).unwrap();
    assert!(plan[..first_move].iter().all(|a| !is_move(a)));
    assert!(plan[first_move..].iter().all(is_move));
}

#[test]
fn plan_moves_each_free_particle_once_in_index_order() {
    let cloth = Cloth::new(4, 3).unwrap();
    let moved: Vec<usize> = cloth
        .plan(true)
        .iter()
        .filter_map(|action| match *action {
            Action::Integrate { particle } => Some(particle),
            _ => None,
        })
        .collect();
    let free: Vec<usize> = (0..12).filter(|&i| !cloth.is_pinned(i)).collect();
    assert_eq!(moved, free);
    assert_eq!(free, vec![1, 2, 4, 5, 6, 7, 8, 9, 10, 11]);
}

#[test]
fn plan_loads_each_free_particle_in_index_order() {
    let cloth = Cloth::new(3, 2).unwrap();
    let loads: Vec<Action> = cloth
        .plan(true)
        .into_iter()
        .filter(|a| !matches!(a, Action::Pull { .. } | Action::Integrate { .. }))
        .collect();
    let mut expected = Vec::new();
    for particle in [1, 3, 4, 5] {
        expected.push(Action::Gravity { particle });
        expected.push(Action::Damping { particle });
        expected.push(Action::Wind { particle });
    }
    assert_eq!(loads, expected);
}

#[test]
fn plan_is_the_same_each_time_it_is_asked_for() {
    let cloth = Cloth::new(6, 5).unwrap();
    assert_eq!(cloth.plan(true), cloth.plan(true));
    assert_eq!(cloth.plan(false), cloth.plan(false));
}

#[test]
fn one_step_of_a_pinned_and_a_free_particle() {
    let cloth = Cloth::with_pins(2, 1, |_, col| col == 0).unwrap();
    let setting = Setting {
        spacing: 1.0,
        stiffness: 100.0,
        damping: 0.0,
        mass: 0.5,
        dt: 0.02,
        gravity: [0.0, -9.81, 0.0],
    };
    let mut bodies = flat(&cloth, setting.spacing);
    follow(&cloth.plan(false), &mut bodies, &setting);
    assert_eq!(bodies[0].position, [0.0, 0.0, 0.0]);
    assert_eq!(bodies[0].velocity, [0.0, 0.0, 0.0]);
    assert_eq!(bodies[0].force, [0.0, 0.0, 0.0]);
    assert_eq!(bodies[1].velocity[0], 0.0);
    assert_eq!(bodies[1].velocity[2], 0.0);
    assert!((bodies[1].velocity[1] - -0.3924).abs() < 1e-12);
    assert_eq!(bodies[1].position[0], 1.0);
    assert_eq!(bodies[1].position[2], 0.0);
    assert!((bodies[1].position[1] - -0.007848).abs() < 1e-12);
    assert_eq!(bodies[1].force, [0.0, 0.0, 0.0]);
}

#[test]
fn pinned_particles_stay_where_they_are_over_many_steps() {
    let cloth = Cloth::new(4, 4).unwrap();
    let setting = Setting {
        spacing: 1.0,
        stiffness: 100.0,
        damping: 0.3,
        mass: 0.5,
        dt: 0.02,
        gravity: [0.0, -9.81, 0.0],
    };
    let mut bodies = flat(&cloth, setting.spacing);
    let plan = cloth.plan(false);
    for _ in 0..50 {
        follow(&plan, &mut bodies, &setting);
    }
    assert_eq!(bodies[0].position, [0.0, 0.0, 0.0]);
    assert_eq!(bodies[3].position, [3.0, 0.0, 0.0]);
    assert_eq!(bodies[0].velocity, [0.0; 3]);
    assert_eq!(bodies[3].velocity, [0.0; 3]);
    assert!(bodies[15].position[1] < 0.0);
}

#[test]
fn two_runs_of_the_same_plan_agree_to_the_last_bit() {
    let cloth = Cloth::new(5, 4).unwrap();
    let setting = Setting {
        spacing: 0.5,
        stiffness: 80.0,
        damping: 0.3,
        mass: 0.5,
        dt: 0.01,
        gravity: [0.0, -9.81, 0.0],
    };
    let mut first = flat(&cloth, setting.spacing);
    let mut second = flat(&cloth, setting.spacing);
    for _ in 0..20 {
        follow(&cloth.plan(false), &mut first, &setting);
    }
    let plan = cloth.plan(false);
    for _ in 0..20 {
        follow(&plan, &mut second, &setting);
    }
    for (a, b) in first.iter().zip(second.iter()) {
        for axis in 0..3 {
            assert_eq!(a.position[axis].to_bits(), b.position[axis].to_bits());
            assert_eq!(a.velocity[axis].to_bits(), b.velocity[axis].to_bits());
        }
    }
}
