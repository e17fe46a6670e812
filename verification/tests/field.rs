use stigmergy::pheromone::{PheromoneLayer, DepositMode, heat_pixel};
use stigmergy::vec2::Vec2;
use stigmergy::input::mouse_deposit_pheromone;

#[test]
fn deposit_maps_point_to_expected_cell() {
    let mut layer = PheromoneLayer::new(10, 10, 1000);
    layer.deposit(Vec2 { x: 3200, y: 4900 }, 5000);
    assert!(layer.values[4 * 10 + 3] == 5000);
    assert!(layer.get(Vec2 { x: 3900, y: 4100 }) == 5000);
    assert!(layer.get(Vec2 { x: 10000, y: 4000 }) == 0);
}

#[test]
fn deposits_accumulate() {
    let mut layer = PheromoneLayer::new(10, 10, 1000);
    layer.deposit(Vec2 { x: 500, y: 500 }, 2000);
    layer.deposit(Vec2 { x: 900, y: 100 }, 3000);
    assert!(layer.get(Vec2 { x: 0, y: 0 }) == 5000);
}

#[test]
fn negative_deposit_subtracts() {
    let mut layer = PheromoneLayer::new(4, 4, 1000);
    layer.deposit(Vec2 { x: 1500, y: 1500 }, 5000);
    layer.deposit(Vec2 { x: 1500, y: 1500 }, -2000);
    assert!(layer.get(Vec2 { x: 1500, y: 1500 }) == 3000);
}

#[test]
fn out_of_bounds_deposit_and_sample_are_harmless() {
    let mut layer = PheromoneLayer::new(10, 10, 1000);
    layer.deposit(Vec2 { x: 2500, y: 2500 }, 700);
    layer.deposit(Vec2 { x: -100, y: 0 }, 9999);
    layer.deposit(Vec2 { x: 0, y: 10000 }, 9999);
    layer.deposit(Vec2 { x: i64::MIN, y: i64::MAX }, 9999);
    assert!(layer.get(Vec2 { x: -100, y: 0 }) == 0);
    assert!(layer.get(Vec2 { x: 0, y: 10000 }) == 0);
    assert!(layer.get(Vec2 { x: 2500, y: 2500 }) == 700);
    for y in 0..10usize {
        for x in 0..10usize {
            if !(x == 2 && y == 2) {
                assert!(layer.values[y * 10 + x] == 0);
            }
        }
    }
}

#[test]
fn negative_coordinates_map_outside() {
    let layer = PheromoneLayer::new(10, 10, 1000);
    // floor(-1/1000) is -1, not 0: just-negative points are out of bounds
    assert!(layer.pos_to_index(Vec2 { x: -1, y: 0 }).is_none());
    assert!(layer.pos_to_index(Vec2 { x: 0, y: -1 }).is_none());
    assert!(layer.pos_to_index(Vec2 { x: 0, y: 0 }) == Some(0));
}

#[test]
fn diffuse_takes_neighborhood_means() {
    let mut layer = PheromoneLayer::new(3, 3, 1000);
    layer.deposit(Vec2 { x: 1500, y: 1500 }, 9000);
    layer.diffuse(0, 0);
    // corners average over 4 cells, edges over 6, the center over 9
    assert!(layer.values[0] == 2250);
    assert!(layer.values[2] == 2250);
    assert!(layer.values[6] == 2250);
    assert!(layer.values[8] == 2250);
    assert!(layer.values[1] == 1500);
    assert!(layer.values[3] == 1500);
    assert!(layer.values[5] == 1500);
    assert!(layer.values[7] == 1500);
    assert!(layer.values[4] == 1000);
}

#[test]
fn diffuse_applies_decay_then_diffusion() {
    let mut layer = PheromoneLayer::new(1, 1, 1000);
    layer.deposit(Vec2 { x: 0, y: 0 }, 9000);
    // 9000 * (1 - 0.1) = 8100, then * (1 - 0.2) = 6480
    layer.diffuse(200, 100);
    assert!(layer.get(Vec2 { x: 0, y: 0 }) == 6480);
}

#[test]
fn decayed_peak_falls_below_its_old_value() {
    let mut layer = PheromoneLayer::new(5, 5, 1000);
    layer.deposit(Vec2 { x: 2500, y: 2500 }, 9000);
    layer.diffuse(100, 100);
    let peak = layer.get(Vec2 { x: 2500, y: 2500 });
    assert!(peak < 9000);
    // mean 9000/9 = 1000, then two fades by 0.1: 900, then 810
    assert!(peak == 810);
}

#[test]
fn stamp_layer_writes_one_unit_and_never_decays() {
    let mut layer = PheromoneLayer::new_stamp(64, 64);
    assert!(layer.mode == DepositMode::Stamp);
    layer.deposit(Vec2 { x: 5500, y: 5500 }, 77777);
    assert!(layer.get(Vec2 { x: 5500, y: 5500 }) == 1000);
    layer.deposit(Vec2 { x: 5500, y: 5500 }, 77777);
    assert!(layer.get(Vec2 { x: 5500, y: 5500 }) == 1000);
    layer.diffuse(100, 100);
    assert!(layer.get(Vec2 { x: 5500, y: 5500 }) == 1000);
}

#[test]
fn click_stamps_center_and_ignores_out_of_range() {
    let mut layer = PheromoneLayer::new_stamp(64, 64);
    layer.click_add_pheromones_system(Vec2 { x: 0, y: 0 });
    assert!(layer.values[32 * 64 + 32] == 1000);
    // a local point just inside the right edge lands in the last column
    layer.click_add_pheromones_system(Vec2 { x: 31_500, y: 0 });
    assert!(layer.values[32 * 64 + 63] == 1000);
    // clicks mapping outside the grid are ignored, not clamped to an edge
    let before = layer.values.clone();
    layer.click_add_pheromones_system(Vec2 { x: 1_000_000_000, y: 0 });
    layer.click_add_pheromones_system(Vec2 { x: -1_000_000_000, y: 1_000_000_000 });
    layer.click_add_pheromones_system(Vec2 { x: 0, y: -32_001 });
    assert!(layer.values == before);
}

#[test]
fn heat_pixel_maps_intensity_to_alpha() {
    assert!(heat_pixel(0) == (0, 0, 0, 0));
    assert!(heat_pixel(-5000) == (0, 0, 0, 0));
    assert!(heat_pixel(500) == (122, 1, 119, 127));
    assert!(heat_pixel(1000) == (122, 1, 119, 255));
    assert!(heat_pixel(250_000) == (122, 1, 119, 255));
}

#[test]
fn mouse_deposit_requires_cursor_and_held_button() {
    let mut layer = PheromoneLayer::new(10, 10, 1000);
    let p = Vec2 { x: 3200, y: 4900 };
    mouse_deposit_pheromone(&mut layer, None, true);
    assert!(layer.get(p) == 0);
    mouse_deposit_pheromone(&mut layer, Some(p), false);
    assert!(layer.get(p) == 0);
    mouse_deposit_pheromone(&mut layer, Some(p), true);
    assert!(layer.get(p) == 5000);
    mouse_deposit_pheromone(&mut layer, Some(p), true);
    assert!(layer.get(p) == 10000);
}

#[test]
fn interior_diffusion_never_raises_the_total() {
    let mut layer = PheromoneLayer::new(7, 7, 1000);
    layer.deposit(Vec2 { x: 3500, y: 3500 }, 9000);
    let before: i64 = layer.values.iter().sum();
    layer.diffuse(0, 0);
    let mid: i64 = layer.values.iter().sum();
    assert!(mid <= before);
    layer.diffuse(100, 100);
    let after: i64 = layer.values.iter().sum();
    assert!(after < mid);
}
