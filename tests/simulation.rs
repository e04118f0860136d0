use twoxel::body::{get_circle, get_rectangle, get_regular_polygon, Body};
use twoxel::collisions::CollisionHandler;
use twoxel::config::Config;
use twoxel::fixed::SCALE;
use twoxel::point::Point;
use twoxel::shape::Shape;
use twoxel::simulation::{test_collision_1, test_collision_2, test_collision_3, test_collision_4, Simulation, DT, GRAVITY};

fn fx(v: f64) -> i64 {
    (v * SCALE as f64).round() as i64
}

fn world(v: i64) -> f64 {
    v as f64 / SCALE as f64
}

#[test]
fn stacked_squares_settle() {
    let mut sim = test_collision_1();
    sim.bodies[0].apos = 0;
    for _ in 0..300 {
        sim.timestep();
    }
    let b = &sim.bodies[0];
    let y = world(b.pos.y);
    assert!((y - 1.5).abs() < 0.05, "y = {}", y);
    assert!(world(b.vel.y).abs() < 0.2, "vy = {}", world(b.vel.y));
    assert!(world(b.apos).abs() < 0.1, "apos = {}", world(b.apos));
    let wall = &sim.bodies[1];
    assert_eq!(wall.pos, Point::new(fx(0.5), fx(2.5)));
}

#[test]
fn tilted_square_lands_on_a_corner_and_tips_over() {
    let mut sim = test_collision_1();
    let mut touched = false;
    for _ in 0..300 {
        sim.timestep();
        if !sim.collision_handler.collisions.is_empty() {
            touched = true;
            let b = &sim.bodies[0];
            assert!(world(b.vel.y) < 3.5, "vy = {}", world(b.vel.y));
        }
    }
    assert!(touched);
    let b = &sim.bodies[0];
    assert!(b.apos > SCALE);
    assert!(b.pos.x > fx(1.0));
    let wall = &sim.bodies[1];
    assert_eq!((wall.pos, wall.vel, wall.apos, wall.avel), (Point::new(fx(0.5), fx(2.5)), Point::new(0, 0), 0, 0));
}

#[test]
fn falling_triangle_comes_to_rest_on_the_floor() {
    let triangle = get_regular_polygon(Point::new(0, 0), SCALE, 3, SCALE);
    let floor = get_rectangle(Point::new(0, fx(3.0)), fx(20.0), SCALE, 0);
    let mut sim = Simulation::new(vec![triangle, floor]);
    for _ in 0..600 {
        sim.timestep();
    }
    let b = &sim.bodies[0];
    let g_dt = world(GRAVITY) * world(DT);
    assert!(world(b.vel.y).abs() < g_dt, "vy = {}", world(b.vel.y));
    assert!(world(b.pos.y) < 3.0, "y = {}", world(b.pos.y));
}

#[test]
fn touching_squares_without_gravity_stay_at_rest() {
    let a = get_rectangle(Point::new(0, 0), SCALE, SCALE, SCALE);
    let b = get_rectangle(Point::new(SCALE, 0), SCALE, SCALE, SCALE);
    let mut config = Config::standard();
    config.gravity = Point::new(0, 0);
    let mut sim = Simulation::with_config(vec![a, b], config);
    sim.timestep();
    assert!(!sim.collision_handler.collisions.is_empty());
    assert_eq!(sim.contacts().len(), 2);
    for body in sim.bodies().iter() {
        assert_eq!(body.vel, Point::new(0, 0));
        assert_eq!(body.avel, 0);
    }
}

#[test]
fn custom_tuning_is_used() {
    let mut config = Config::standard();
    assert_eq!(config.dt, DT);
    assert_eq!(config.gravity, Point::new(0, GRAVITY));
    config.dt = 2 * DT;
    config.gravity = Point::new(fx(5.0), 0);
    config.solver_iterations = 4;
    let body = get_rectangle(Point::new(0, 0), SCALE, SCALE, SCALE);
    let mut sim = Simulation::with_config(vec![body], config);
    sim.timestep();
    assert_eq!(sim.bodies[0].vel, Point::new(fx(0.1), 0));
    assert_eq!(sim.bodies[0].pos, Point::new(fx(0.002), 0));
    assert_eq!(sim.collision_handler.config, config);

    let a = get_rectangle(Point::new(0, 0), SCALE, SCALE, SCALE);
    let floor = get_rectangle(Point::new(0, fx(0.95)), fx(4.0), SCALE, 0);
    let mut heavy = Config::standard();
    heavy.solver_iterations = 3;
    let mut sim = Simulation::with_config(vec![a, floor], heavy);
    for _ in 0..100 {
        sim.timestep();
    }
    assert!(world(sim.bodies[0].vel.y).abs() < 0.2);
    assert!(world(sim.bodies[0].pos.y) < 0.0);
}

#[test]
fn free_fall_follows_semi_implicit_euler() {
    let body = get_rectangle(Point::new(0, 0), SCALE, SCALE, SCALE);
    let mut sim = Simulation::new(vec![body]);
    let t: i64 = 100;
    for _ in 0..t {
        sim.timestep();
    }
    let b = &sim.bodies[0];
    assert_eq!(b.pos.y, 500 * t * (t + 1));
    let exact = 0.5 * 10.0 * (t as f64 * 0.01).powi(2);
    assert!((world(b.pos.y) - exact).abs() <= 0.5 * 10.0 * 0.01 * 0.01 * t as f64 + 1e-9);
    assert_eq!(b.pos.x, 0);
    assert_eq!(b.vel.y, fx(10.0));
}

#[test]
fn static_bodies_never_move() {
    let mut sim = test_collision_4();
    let before = (sim.bodies[20].pos, sim.bodies[20].vel, sim.bodies[20].apos, sim.bodies[20].avel);
    for _ in 0..200 {
        sim.timestep();
    }
    let after = (sim.bodies[20].pos, sim.bodies[20].vel, sim.bodies[20].apos, sim.bodies[20].avel);
    assert_eq!(before, after);
}

#[test]
fn moving_bodies_keep_their_shape_in_pose() {
    let mut sim = test_collision_2();
    for _ in 0..50 {
        sim.timestep();
    }
    for body in sim.bodies.iter().filter(|b| !b.is_static) {
        match &body.shape {
            Shape::Polygon(p) => {
                for (v, o) in p.vertices.iter().zip(p.offsets.iter()) {
                    assert_eq!(*v, o.rotate(body.apos).plus(body.pos));
                }
            }
            Shape::Circle(_) => panic!("only polygons here"),
        }
    }
}

#[test]
fn scenes_are_built() {
    assert_eq!(test_collision_1().bodies.len(), 2);
    assert_eq!(test_collision_1().bodies[0].apos, SCALE);
    assert_eq!(test_collision_2().bodies.len(), 11);
    let sim = test_collision_3();
    assert_eq!(sim.bodies.len(), 23);
    assert!(sim.bodies[22].is_static);
    let mut sim = test_collision_3();
    for _ in 0..20 {
        sim.timestep();
    }
    assert_eq!(test_collision_4().bodies.len(), 21);
}

#[test]
fn discs_fall_and_give_no_contacts() {
    let disc = get_circle(Point::new(0, 0), SCALE, SCALE);
    let other = get_circle(Point::new(fx(0.5), 0), SCALE, SCALE);
    assert_eq!(disc.inertia, fx(0.5));
    let mut sim = Simulation::new(vec![disc, other]);
    sim.timestep();
    assert!(sim.collision_handler.collisions.is_empty());
    assert_eq!(sim.bodies[0].vel, Point::new(0, fx(0.1)));
}

#[test]
fn impulses_and_inverse_quantities() {
    let mut b: Body = get_rectangle(Point::new(0, 0), SCALE, SCALE, 2 * SCALE);
    assert_eq!(b.inv_mass(), fx(0.5));
    assert_eq!(b.inertia, 333_334);
    b.apply_impulse(Point::new(SCALE, 0));
    assert_eq!(b.vel, Point::new(fx(0.5), 0));
    b.apply_impulse_at(Point::new(0, SCALE), Point::new(fx(0.5), 0));
    assert_eq!(b.vel, Point::new(fx(0.5), fx(0.5)));
    assert_eq!(b.avel, 1_499_997);
    assert_eq!(b.vel_at(Point::new(0, SCALE)), Point::new(fx(0.5) - 1_499_997, fx(0.5)));
    b.apply_force(Point::new(0, 2 * SCALE));
    assert_eq!(b.acc, Point::new(0, SCALE));
    b.apply_force_at(Point::new(0, 0), Point::new(0, 0));
    assert_eq!(b.aacc, 0);
    let wall = get_rectangle(Point::new(0, 0), SCALE, SCALE, 0);
    assert_eq!(wall.inv_mass(), 0);
    assert_eq!(wall.inv_inertia(), 0);
    let mut wall2 = get_rectangle(Point::new(0, 0), SCALE, SCALE, 0);
    wall2.apply_impulse(Point::new(SCALE, SCALE));
    assert_eq!(wall2.vel, Point::new(0, 0));
}

#[test]
fn clamp_and_empty_handler() {
    assert_eq!(twoxel::collisions::clamp(-5, 7, 5), 5);
    assert_eq!(twoxel::collisions::clamp(-5, -7, 5), -5);
    assert_eq!(twoxel::collisions::clamp(-5, 3, 5), 3);
    assert!(CollisionHandler::new().collisions.is_empty());
}

#[test]
fn empty_world_steps() {
    let mut sim = Simulation::new(vec![]);
    sim.timestep();
    assert!(sim.bodies().is_empty());
    assert!(sim.contacts().is_empty());
}

#[test]
fn two_static_bodies_are_never_paired() {
    let a = get_rectangle(Point::new(0, 0), SCALE, SCALE, 0);
    let b = get_rectangle(Point::new(fx(0.5), 0), SCALE, SCALE, 0);
    let mut sim = Simulation::new(vec![a, b]);
    sim.timestep();
    assert!(sim.contacts().is_empty());
}

#[test]
fn tilted_square_scene_runs_as_written() {
    let mut sim = test_collision_1();
    assert_eq!(sim.bodies[0].apos, SCALE);
    let g = world(GRAVITY);
    let dt = world(DT);
    for k in 1..=300 {
        sim.timestep();
        let b = &sim.bodies[0];
        if (world(b.pos.x) - 0.5).abs() < 0.5 {
            assert!(world(b.pos.y) < 2.0, "step {}: y = {}", k, world(b.pos.y));
        }
        assert!(world(b.vel.y) <= g * dt * k as f64 + 1e-6);
    }
    let b = &sim.bodies[0];
    assert!(world(b.vel.y) <= g * dt * 300.0);
    assert!(world(b.pos.y) <= 0.5 + 0.5 * g * (300.0 * dt) * (300.0 * dt) + 0.5 * g * dt * dt * 300.0);
    let wall = &sim.bodies[1];
    assert_eq!((wall.pos, wall.vel, wall.apos, wall.avel), (Point::new(fx(0.5), fx(2.5)), Point::new(0, 0), 0, 0));
}

#[test]
fn column_scene_starts_without_contacts() {
    let mut sim = test_collision_4();
    assert!(sim.contacts().is_empty());
    sim.collision_handler.find_collisions(&sim.bodies);
    assert!(sim.contacts().is_empty());
    for (i, b) in sim.bodies.iter().take(20).enumerate() {
        assert_eq!(b.pos, Point::new(fx(0.5), fx(0.5) - 1_400_000 * i as i64));
        assert_eq!(b.mass, SCALE);
    }
}

#[test]
fn rectangle_inertia_follows_the_formula() {
    let b = get_rectangle(Point::new(0, 0), fx(2.0), fx(1.0), SCALE);
    let expected = (4.0 + 1.0) / 12.0;
    assert!((world(b.inertia) - expected).abs() < 1e-5);
    match &b.shape {
        Shape::Polygon(p) => {
            assert_eq!(p.pos, b.pos);
            for (v, o) in p.vertices.iter().zip(p.offsets.iter()) {
                assert_eq!(*o, v.minus(b.pos));
            }
        }
        Shape::Circle(_) => panic!("a rectangle is a polygon"),
    }
}

#[test]
fn contact_normals_point_toward_the_first_body() {
    let a = twoxel::body::get_polygon(
        vec![Point::new(fx(-0.5), fx(-0.5)), Point::new(fx(0.5), fx(-0.5)), Point::new(fx(0.5), fx(0.5)), Point::new(fx(-0.5), fx(0.5))],
        SCALE,
    );
    let b = get_rectangle(Point::new(fx(0.5), 0), SCALE, SCALE, SCALE);
    let mut handler = CollisionHandler::new();
    let bodies = vec![a, b];
    handler.find_collisions(&bodies);
    assert_eq!(handler.collisions.len(), 2);
    for c in handler.collisions.iter() {
        assert_eq!(c.info.normal, Point::new(-SCALE, 0));
        let d = bodies[c.body1].pos.minus(bodies[c.body2].pos);
        assert!(d.dot(c.info.normal) >= 0);
    }
}
