use tile_world::player::{handle_one_block_step, horizontal_move, HorizontalMove};
use tile_world::world::{generate_world, WorldData};

fn flat_world(width: i32, height: i32, surface: i32) -> WorldData {
    let mut world = WorldData::new(7, width, height);
    let heights = vec![surface; (width / 200 * 200) as usize];
    generate_world(&mut world, &heights);
    world
}

#[test]
fn box_in_the_air_does_not_collide() {
    let world = flat_world(400, 300, 100);
    assert!(!world.is_colliding(10, 12, 100, 103));
}

#[test]
fn box_touching_ground_collides() {
    let world = flat_world(400, 300, 100);
    assert!(world.is_colliding(10, 12, 99, 102));
}

#[test]
fn box_leaving_the_world_collides() {
    let world = flat_world(400, 300, 100);
    assert!(world.is_colliding(-1, 1, 150, 152));
    assert!(world.is_colliding(398, 400, 150, 152));
    assert!(world.is_colliding(10, 12, 298, 300));
    assert!(world.is_colliding(10, 12, -1, 0));
}

#[test]
fn empty_box_never_collides() {
    let world = flat_world(400, 300, 100);
    assert!(!world.is_colliding(5, 4, 0, 10));
    assert!(!world.is_colliding(0, 10, 5, 4));
    assert!(!world.is_colliding(-10, -20, -10, -20));
}

#[test]
fn collision_follows_placed_blocks() {
    let mut world = flat_world(400, 300, 100);
    assert!(!world.is_colliding(50, 52, 120, 125));
    world.place_block(52, 125, 0);
    assert!(world.is_colliding(50, 52, 120, 125));
    assert!(world.is_colliding(40, 60, 110, 130));
}

#[test]
fn horizontal_decisions() {
    assert!(horizontal_move(false, false) == HorizontalMove::Advance);
    assert!(horizontal_move(false, true) == HorizontalMove::Advance);
    assert!(horizontal_move(true, true) == HorizontalMove::TryStep);
    assert!(horizontal_move(true, false) == HorizontalMove::Stop);
}

#[test]
fn step_decisions() {
    assert!(handle_one_block_step(false, false));
    assert!(!handle_one_block_step(true, false));
    assert!(!handle_one_block_step(false, true));
    assert!(!handle_one_block_step(true, true));
}

#[test]
fn scan_stops_at_first_blocking_cell_before_unknown_tiles() {
    let mut world = flat_world(400, 300, 100);
    // an unknown id after the first blocking cell of the scan is never read
    world.place_block(20, 150, 9);
    assert!(world.is_colliding(18, 22, 99, 151));
}
