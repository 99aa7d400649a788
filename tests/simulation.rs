use bouncing_balls::{next_position, step, App, Ball, SimError, DAMPING_SCALE, LIMIT, MASS_LIMIT};

fn ball(position: [i64; 2], velocity: [i64; 2], radius: i64, mass: i64) -> Ball {
    Ball::new(position, velocity, radius, mass).unwrap()
}

#[test]
fn zero_timestep_keeps_positions() {
    let a = ball([140, 200], [120, 10], 10, 4189);
    assert_eq!(next_position(&a, 0), Some([140, 200]));
    let bodies = vec![a, ball([100, 100], [60, 50], 10, 4189)];
    let next = step(&bodies, [500, 500], DAMPING_SCALE, 0).unwrap();
    assert_eq!(next[0].position, [140, 200]);
    assert_eq!(next[1].position, [100, 100]);
}

#[test]
fn integration_moves_by_velocity_times_dt() {
    let a = ball([10, -20], [-250, 333], 5, 1);
    // 250 * 0.1 = 25; 333 * 0.1 = 33.3, truncated toward zero
    assert_eq!(next_position(&a, 100), Some([-15, 13]));
    let b = ball([0, 0], [-7, 7], 5, 1);
    assert_eq!(next_position(&b, 500), Some([-3, 3]));
}

#[test]
fn integration_out_of_range_is_none() {
    let a = ball([LIMIT - 1, 0], [LIMIT, 0], 5, 1);
    assert_eq!(next_position(&a, 1000), None);
}

#[test]
fn near_wall_reflects_velocity() {
    let a = ball([10, 200], [-30, 7], 10, 1);
    let r = a.handle_boundary_colision([500, 500]);
    assert_eq!(r.velocity, [30, 7]);
    assert_eq!(r.position, [10, 200]);
}

#[test]
fn near_wall_on_second_axis_reflects() {
    let a = ball([200, 10], [4, -30], 10, 1);
    let r = a.handle_boundary_colision([500, 500]);
    assert_eq!(r.velocity, [4, 30]);
}

#[test]
fn far_wall_reflects_velocity() {
    let a = ball([495, 200], [30, 7], 10, 1);
    let r = a.handle_boundary_colision([500, 500]);
    assert_eq!(r.velocity, [-30, 7]);
}

#[test]
fn corner_reflects_first_axis_only() {
    let a = ball([5, 5], [-3, -4], 10, 1);
    let r = a.handle_boundary_colision([500, 500]);
    assert_eq!(r.velocity, [3, -4]);
}

#[test]
fn inside_enclosure_keeps_velocity() {
    let a = ball([250, 250], [-3, -4], 10, 1);
    let r = a.handle_boundary_colision([500, 500]);
    assert_eq!(r, a);
}

#[test]
fn distant_bodies_do_not_collide() {
    let a = ball([140, 200], [120, 10], 10, 4189);
    let b = ball([100, 100], [60, 50], 10, 4189);
    assert_eq!(a.handle_ball_colisions(&b, DAMPING_SCALE), Ok(None));
    assert_eq!(b.handle_ball_colisions(&a, DAMPING_SCALE), Ok(None));
}

#[test]
fn coincident_centres_do_not_collide() {
    let a = ball([100, 100], [1, 0], 10, 3);
    let b = ball([100, 100], [-1, 0], 10, 3);
    assert_eq!(a.handle_ball_colisions(&b, DAMPING_SCALE), Ok(None));
}

#[test]
fn touching_bodies_collide() {
    let a = ball([100, 100], [5, 0], 10, 3);
    let b = ball([120, 100], [-5, 0], 10, 3);
    let (x, y) = a.handle_ball_colisions(&b, DAMPING_SCALE).unwrap().unwrap();
    assert_eq!(x.position, [100, 100]);
    assert_eq!(y.position, [120, 100]);
    assert_eq!(x.velocity, [-5, 0]);
    assert_eq!(y.velocity, [5, 0]);
}

#[test]
fn collision_is_symmetric() {
    let a = ball([100, 100], [30, -20], 10, 3);
    let b = ball([112, 109], [-10, 5], 8, 7);
    let (x, y) = a.handle_ball_colisions(&b, DAMPING_SCALE).unwrap().unwrap();
    let (y2, x2) = b.handle_ball_colisions(&a, DAMPING_SCALE).unwrap().unwrap();
    assert_eq!(x, x2);
    assert_eq!(y, y2);
    assert_eq!(x.position, [99, 100]);
    assert_eq!(y.position, [113, 109]);
    assert_eq!(x.velocity, [11, -34]);
    assert_eq!(y.velocity, [-2, 11]);
    assert_eq!(x.radius, 10);
    assert_eq!(x.mass, 3);
    assert_eq!(y.radius, 8);
    assert_eq!(y.mass, 7);
}

#[test]
fn partially_damped_collision() {
    let a = ball([100, 100], [30, -20], 10, 3);
    let b = ball([112, 109], [-10, 5], 8, 7);
    let (x, y) = a.handle_ball_colisions(&b, 600).unwrap().unwrap();
    assert_eq!(x.velocity, [15, -31]);
    assert_eq!(y.velocity, [-4, 9]);
}

#[test]
fn equal_masses_exchange_normal_velocity() {
    let a = ball([100, 100], [5, 0], 10, 50);
    let b = ball([115, 100], [-5, 0], 10, 50);
    let (x, y) = a.handle_ball_colisions(&b, DAMPING_SCALE).unwrap().unwrap();
    assert_eq!(x.velocity, [-5, 0]);
    assert_eq!(y.velocity, [5, 0]);
}

#[test]
fn inelastic_collision_equalises_normal_velocity() {
    let a = ball([100, 100], [5, 0], 10, 50);
    let b = ball([115, 100], [-3, 0], 10, 50);
    let (x, y) = a.handle_ball_colisions(&b, 0).unwrap().unwrap();
    assert_eq!(x.velocity, [1, 0]);
    assert_eq!(y.velocity, [1, 0]);
}

#[test]
fn tangential_velocity_is_kept() {
    let a = ball([100, 100], [5, 9], 10, 50);
    let b = ball([115, 100], [-5, -2], 10, 50);
    let (x, y) = a.handle_ball_colisions(&b, DAMPING_SCALE).unwrap().unwrap();
    assert_eq!(x.velocity, [-5, 9]);
    assert_eq!(y.velocity, [5, -2]);
}

#[test]
fn separation_does_not_decrease() {
    let a = ball([100, 100], [0, 0], 5, 10);
    let b = ball([101, 102], [0, 0], 5, 10);
    let (x, y) = a.handle_ball_colisions(&b, DAMPING_SCALE).unwrap().unwrap();
    // distance sqrt(5), rounded down to 2; penetration 8, split in half along the normal
    assert_eq!(x.position, [98, 96]);
    assert_eq!(y.position, [103, 106]);
    let before = 1 * 1 + 2 * 2;
    let dx = y.position[0] - x.position[0];
    let dy = y.position[1] - x.position[1];
    assert!(dx * dx + dy * dy >= before);
}

#[test]
fn diagonal_contact_pushes_along_normal() {
    let a = ball([100, 100], [0, 0], 5, 10);
    let b = ball([103, 104], [0, 0], 5, 10);
    let (x, y) = a.handle_ball_colisions(&b, DAMPING_SCALE).unwrap().unwrap();
    assert_eq!(x.position, [99, 98]);
    assert_eq!(y.position, [104, 106]);
}

#[test]
fn collision_out_of_range_is_an_error() {
    let a = ball([0, 0], [LIMIT, 0], 10, 1);
    let b = ball([15, 0], [-LIMIT, 0], 10, 1000);
    assert_eq!(a.handle_ball_colisions(&b, DAMPING_SCALE), Err(SimError::OutOfRange));
}

#[test]
fn end_to_end_free_flight() {
    let bodies = vec![ball([140, 200], [120, 10], 10, 4189), ball([100, 100], [60, 50], 10, 4189)];
    let mut app = App::new(bodies, [500, 500], DAMPING_SCALE).unwrap();
    assert_eq!(app.update(100), Ok(()));
    assert_eq!(app.bodies[0].position, [152, 201]);
    assert_eq!(app.bodies[1].position, [106, 105]);
    assert_eq!(app.bodies[0].velocity, [120, 10]);
    assert_eq!(app.bodies[1].velocity, [60, 50]);
}

#[test]
fn end_to_end_collision() {
    // lengths in thousandths: radius 10, centres 15 apart
    let bodies = vec![
        ball([100000, 100000], [5000, 0], 10000, 4189),
        ball([115000, 100000], [-5000, 0], 10000, 4189),
    ];
    let mut app = App::new(bodies, [500000, 500000], DAMPING_SCALE).unwrap();
    assert_eq!(app.update(0), Ok(()));
    let (a, b) = (app.bodies[0], app.bodies[1]);
    assert_eq!(b.position[0] - a.position[0], 20000);
    assert_eq!(a.position, [97500, 100000]);
    assert_eq!(b.position, [117500, 100000]);
    assert_eq!(a.velocity, [-5000, 0]);
    assert_eq!(b.velocity, [5000, 0]);
}

#[test]
fn contacts_add_up_per_body() {
    let bodies = vec![
        ball([100, 100], [10, 0], 10, 100),
        ball([118, 100], [0, 0], 10, 100),
        ball([136, 100], [-10, 0], 10, 100),
    ];
    let next = step(&bodies, [1000, 1000], DAMPING_SCALE, 0).unwrap();
    assert_eq!(next[0].position, [99, 100]);
    assert_eq!(next[1].position, [118, 100]);
    assert_eq!(next[2].position, [137, 100]);
    assert_eq!(next[0].velocity, [0, 0]);
    assert_eq!(next[1].velocity, [0, 0]);
    assert_eq!(next[2].velocity, [0, 0]);
}

#[test]
fn step_bounces_off_walls() {
    let bodies = vec![ball([15, 250], [-100, 0], 10, 1)];
    let next = step(&bodies, [500, 500], DAMPING_SCALE, 100).unwrap();
    assert_eq!(next[0].position, [5, 250]);
    assert_eq!(next[0].velocity, [100, 0]);
}

#[test]
fn negative_timestep_is_rejected() {
    let bodies = vec![ball([140, 200], [120, 10], 10, 4189)];
    let mut app = App::new(bodies, [500, 500], DAMPING_SCALE).unwrap();
    assert_eq!(app.update(-1), Err(SimError::InvalidTimestep));
    assert_eq!(app.bodies[0].position, [140, 200]);
}

#[test]
fn step_out_of_range_leaves_world_unchanged() {
    let bodies = vec![ball([LIMIT - 5, 0], [LIMIT, 0], 10, 1)];
    let mut app = App::new(bodies, [500, 500], DAMPING_SCALE).unwrap();
    assert_eq!(app.update(1000), Err(SimError::OutOfRange));
    assert_eq!(app.bodies[0].position, [LIMIT - 5, 0]);
}

#[test]
fn invalid_bodies_are_rejected() {
    assert_eq!(Ball::new([0, 0], [0, 0], 0, 1), Err(SimError::InvalidConfig));
    assert_eq!(Ball::new([0, 0], [0, 0], -3, 1), Err(SimError::InvalidConfig));
    assert_eq!(Ball::new([0, 0], [0, 0], 3, 0), Err(SimError::InvalidConfig));
    assert_eq!(Ball::new([0, 0], [0, 0], 3, MASS_LIMIT + 1), Err(SimError::InvalidConfig));
    assert_eq!(Ball::new([LIMIT + 1, 0], [0, 0], 3, 1), Err(SimError::InvalidConfig));
    assert!(Ball::new([LIMIT, -LIMIT], [LIMIT, -LIMIT], LIMIT, MASS_LIMIT).is_ok());
}

#[test]
fn invalid_world_is_rejected() {
    let bodies = vec![ball([10, 10], [0, 0], 3, 1)];
    assert!(App::new(bodies.clone(), [0, 500], DAMPING_SCALE).is_err());
    assert!(App::new(bodies.clone(), [500, -1], DAMPING_SCALE).is_err());
    assert!(App::new(bodies.clone(), [500, 500], DAMPING_SCALE + 1).is_err());
    assert!(App::new(bodies.clone(), [500, 500], -1).is_err());
    let bad = vec![Ball { position: [0, 0], velocity: [0, 0], radius: -1, mass: 1 }];
    assert_eq!(App::new(bad, [500, 500], DAMPING_SCALE).err(), Some(SimError::InvalidConfig));
    assert!(App::new(bodies, [500, 500], 0).is_ok());
}

#[test]
fn render_coordinates_are_top_left_corner() {
    let a = ball([140, 200], [0, 0], 10, 1);
    assert_eq!(a.render_coordinates(), [130, 190]);
}
