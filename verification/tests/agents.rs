use stigmergy::fixed::{SCALE, LIMIT, sat_add, isqrt, isqrt_ceil, floor_div};
use stigmergy::vec2::{Vec2, vadd, clamp_magnitude, scale_to, rotate};
use stigmergy::pheromone::PheromoneLayer;
use stigmergy::physics::{Ant, Target, Acceleration, Velocity, MAX_SPEED, MAX_FORCE};
use stigmergy::input::{MousePosition, MouseButtons, MouseButton};
use stigmergy::sim::Simulation;

#[test]
fn scalar_helpers_behave() {
    assert!(sat_add(LIMIT, 1) == LIMIT);
    assert!(sat_add(-LIMIT, -1) == -LIMIT);
    assert!(sat_add(3, 4) == 7);
    assert!(isqrt(24) == 4);
    assert!(isqrt(25) == 5);
    assert!(isqrt_ceil(24) == 5);
    assert!(isqrt_ceil(25) == 5);
    assert!(floor_div(-1, 1000) == -1);
    assert!(floor_div(-1000, 1000) == -1);
    assert!(floor_div(999, 1000) == 0);
}

#[test]
fn clamp_magnitude_caps_length_exactly() {
    let v = Vec2 { x: 3000, y: 4000 };
    assert!(clamp_magnitude(v, 5000) == v);
    assert!(clamp_magnitude(v, 2500) == Vec2 { x: 1500, y: 2000 });
    assert!(clamp_magnitude(Vec2 { x: 0, y: 0 }, 0) == Vec2 { x: 0, y: 0 });
}

#[test]
fn scale_to_normalizes_or_zeroes() {
    assert!(scale_to(Vec2 { x: 3000, y: 4000 }, 1000) == Vec2 { x: 600, y: 800 });
    assert!(scale_to(Vec2 { x: 0, y: 0 }, 1000) == Vec2 { x: 0, y: 0 });
}

#[test]
fn rotate_quarter_turn() {
    let quarter = Vec2 { x: 0, y: SCALE };
    assert!(rotate(Vec2 { x: 5000, y: 2000 }, quarter) == Vec2 { x: -2000, y: 5000 });
    let identity = Vec2 { x: SCALE, y: 0 };
    assert!(rotate(Vec2 { x: 5000, y: 2000 }, identity) == Vec2 { x: 5000, y: 2000 });
}

#[test]
fn spawn_ant_has_stock_geometry() {
    let a = Ant::spawn_ant(Vec2 { x: 0, y: 0 }, None);
    assert!(a.physics.velocity.0 == Vec2 { x: 20_000, y: 20_000 });
    assert!(a.physics.max_speed.0 == MAX_SPEED);
    assert!(a.physics.max_force.0 == MAX_FORCE);
    assert!(a.sensors.left_offset == Vec2 { x: 5000, y: 2000 });
    assert!(a.sensors.right_offset == Vec2 { x: 5000, y: -2000 });
    assert!(a.heading == Vec2 { x: SCALE, y: 0 });
}

#[test]
fn tropotaxis_steers_along_local_x() {
    // agent at (10, 10) with heading 0: antennae read (15, 12) and (15, 8)
    let mut field = PheromoneLayer::new(20, 20, 1000);
    field.deposit(Vec2 { x: 15_000, y: 8_000 }, 3000);
    let mut a = Ant::spawn_ant(Vec2 { x: 10_000, y: 10_000 }, None);
    a.update_ants(&field);
    assert!(a.physics.acceleration.0 == Vec2 { x: 3000, y: 0 });
}

#[test]
fn tropotaxis_term_is_clamped_to_max_force() {
    let mut field = PheromoneLayer::new(20, 20, 1000);
    field.deposit(Vec2 { x: 15_000, y: 8_000 }, MAX_FORCE * 3);
    let mut a = Ant::spawn_ant(Vec2 { x: 10_000, y: 10_000 }, None);
    a.update_ants(&field);
    assert!(a.physics.acceleration.0 == Vec2 { x: MAX_FORCE, y: 0 });
}

#[test]
fn zero_dt_moves_nothing_but_resets_acceleration() {
    let mut a = Ant::spawn_ant(Vec2 { x: 7000, y: 9000 }, None);
    a.physics.acceleration = Acceleration(Vec2 { x: 500, y: 700 });
    a.update_physics(0);
    assert!(a.position == Vec2 { x: 7000, y: 9000 });
    assert!(a.physics.velocity.0 == Vec2 { x: 20_000, y: 20_000 });
    assert!(a.physics.acceleration.0 == Vec2 { x: 0, y: 0 });
}

#[test]
fn speed_stays_clamped_over_many_ticks() {
    let mut a = Ant::spawn_ant(Vec2 { x: 0, y: 0 }, Some(Target(Vec2 { x: 500_000, y: 250_000 })));
    for _ in 0..50 {
        a.update_steering();
        a.update_physics(16);
        let vx = a.physics.velocity.0.x as i128;
        let vy = a.physics.velocity.0.y as i128;
        let cap = MAX_SPEED as i128;
        assert!(vx * vx + vy * vy <= cap * cap);
    }
}

#[test]
fn seek_closes_distance_monotonically() {
    // from rest, straight toward the target: the distance falls strictly
    // every tick until it is inside one full-speed step (the tolerance)
    let mut a = Ant::spawn_ant(Vec2 { x: 0, y: 0 }, Some(Target(Vec2 { x: 100_000, y: 0 })));
    a.physics.velocity = Velocity(Vec2 { x: 0, y: 0 });
    let tolerance = MAX_SPEED * 16 / 1000;
    let mut last = 100_000i64;
    for _ in 0..300 {
        if last <= tolerance {
            break;
        }
        a.update_steering();
        a.update_physics(16);
        let d = (100_000 - a.position.x).abs();
        assert!(d < last);
        assert!(a.position.y == 0);
        last = d;
    }
    assert!(last <= tolerance);
}

#[test]
fn mouse_state_tracks_events() {
    let mut buttons = MouseButtons::new();
    buttons.update_mouse_buttons(MouseButton::Left, true);
    assert!(buttons.left && !buttons.right);
    buttons.update_mouse_buttons(MouseButton::Right, true);
    assert!(buttons.left && buttons.right);
    buttons.update_mouse_buttons(MouseButton::Left, false);
    assert!(!buttons.left && buttons.right);
    buttons.update_mouse_buttons(MouseButton::Other, false);
    assert!(!buttons.left && buttons.right);

    let mut pos = MousePosition::new();
    assert!(pos.0.is_none());
    pos.update_mouse_position(Some(Vec2 { x: 5, y: 6 }));
    assert!(pos.0 == Some(Vec2 { x: 5, y: 6 }));
    pos.update_mouse_position(None);
    assert!(pos.0 == Some(Vec2 { x: 5, y: 6 }));
}

#[test]
fn tick_runs_deposit_update_steering_integration_in_order() {
    let mut sim = Simulation {
        field: PheromoneLayer::new(10, 10, 1000),
        ants: vec![Ant::spawn_ant(Vec2 { x: 0, y: 0 }, None)],
        mouse_position: MousePosition(Some(Vec2 { x: 3200, y: 4900 })),
        mouse_buttons: MouseButtons { left: true, right: false },
        diffusion_rate: 0,
        decay: 0,
    };
    sim.tick(16);
    // the deposit of 5.0 lands in cell (3, 4) and the same tick's update
    // immediately spreads it: the cell keeps a ninth of the mass
    assert!(sim.field.values[4 * 10 + 3] == 5000 / 9);
    assert!(sim.ants.len() == 1);
    assert!(sim.ants[0].physics.acceleration.0 == Vec2 { x: 0, y: 0 });
    // velocity (20, 20) over 0.016 s moves the agent 0.32 world units
    assert!(sim.ants[0].position == Vec2 { x: 320, y: 320 });
}

#[test]
fn stamp_field_survives_tick_unchanged() {
    let mut sim = Simulation {
        field: PheromoneLayer::new_stamp(8, 8),
        ants: vec![],
        mouse_position: MousePosition(None),
        mouse_buttons: MouseButtons::new(),
        diffusion_rate: 300,
        decay: 300,
    };
    sim.field.click_add_pheromones_system(Vec2 { x: 0, y: 0 });
    let before = sim.field.values.clone();
    sim.tick(16);
    assert!(sim.field.values == before);
}
