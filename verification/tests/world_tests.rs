use tile_world::tiles::{terrain_tile, tile_def, AIR, CHUNK_TILES, DIRT, GRASS, STONE};
use tile_world::world::{generate_world, WorldData};

fn flat_world(width: i32, height: i32, surface: i32) -> WorldData {
    let mut world = WorldData::new(7, width, height);
    let heights = vec![surface; world.generated_column_count()];
    generate_world(&mut world, &heights);
    world
}

#[test]
fn terrain_layers_of_a_column() {
    assert_eq!(terrain_tile(999, 1000), GRASS);
    assert_eq!(terrain_tile(998, 1000), DIRT);
    assert_eq!(terrain_tile(951, 1000), DIRT);
    assert_eq!(terrain_tile(950, 1000), STONE);
    assert_eq!(terrain_tile(-5000, 1000), STONE);
    assert_eq!(terrain_tile(1000, 1000), AIR);
    assert_eq!(terrain_tile(1500, 1000), AIR);
}

#[test]
fn terrain_tile_does_not_overflow_at_extremes() {
    assert_eq!(terrain_tile(i32::MIN, i32::MIN), AIR);
    assert_eq!(terrain_tile(i32::MAX, i32::MAX), AIR);
    assert_eq!(terrain_tile(i32::MAX - 1, i32::MAX), GRASS);
    assert_eq!(terrain_tile(i32::MIN, i32::MAX), STONE);
}

#[test]
fn tile_definitions() {
    assert!(tile_def(STONE).solid);
    assert!(tile_def(DIRT).solid);
    assert!(tile_def(GRASS).solid);
    assert!(!tile_def(AIR).solid);
    for id in 0..4u16 {
        assert_eq!(tile_def(id).atlas_index, id);
    }
}

#[test]
fn new_world_is_empty_air() {
    let world = WorldData::new(192852, 4200, 1200);
    assert_eq!(world.seed, 192852);
    assert_eq!(world.width, 4200);
    assert_eq!(world.height, 1200);
    assert!(world.chunks.is_empty());
    assert!(world.chunks_for_render.is_empty());
    assert_eq!(world.get_tile_id(10, 10), AIR);
    assert!(!world.is_tile_solid(10, 10));
}

#[test]
fn generation_lays_out_chunk_grid_row_by_row() {
    let world = flat_world(400, 300, 100);
    assert_eq!(world.chunks.len(), 4);
    let starts: Vec<(i64, i64)> = world.chunks.iter().map(|c| (c.start_x, c.start_y)).collect();
    assert_eq!(starts, vec![(0, 0), (3200, 0), (0, 2400), (3200, 2400)]);
    for chunk in &world.chunks {
        assert_eq!(chunk.tiles.len(), CHUNK_TILES);
        assert!(!chunk.dirty);
    }
}

#[test]
fn generation_of_the_original_world_size() {
    let world = flat_world(4200, 1200, 1000);
    assert_eq!(world.chunks.len(), 168);
    assert_eq!(world.get_tile_id(4150, 999), GRASS);
    assert_eq!(world.get_tile_id(4150, 1000), AIR);
    assert_eq!(world.get_tile_id(0, 0), STONE);
    assert!(world.all_tiles_known());
}

#[test]
fn generation_skips_partial_chunks() {
    let world = flat_world(399, 299, 100);
    assert_eq!(world.chunks.len(), 1);
    let world = flat_world(199, 1000, 100);
    assert_eq!(world.chunks.len(), 0);
    let world = flat_world(-400, -300, 100);
    assert_eq!(world.chunks.len(), 0);
}

#[test]
fn generated_terrain_reads_back() {
    let mut world = WorldData::new(1, 400, 300);
    let heights: Vec<i32> = (0..400).map(|x| 100 + (x % 7)).collect();
    generate_world(&mut world, &heights);
    for x in 0..400 {
        for y in 0..300 {
            assert_eq!(world.get_tile_id(x, y), terrain_tile(y, heights[x as usize]));
        }
    }
}

#[test]
fn generation_appends_after_existing_chunks() {
    let mut world = flat_world(200, 150, 10);
    let heights = vec![140; 200];
    generate_world(&mut world, &heights);
    assert_eq!(world.chunks.len(), 2);
    assert_eq!(world.chunks[0].tiles[9 * 200], GRASS);
    assert_eq!(world.chunks[1].tiles[139 * 200], GRASS);
    // lookups read the first chunk grid
    assert_eq!(world.get_tile_id(0, 9), GRASS);
}

#[test]
fn lookups_outside_the_chunks_read_air() {
    let world = flat_world(400, 300, 290);
    assert_eq!(world.get_tile_id(0, 300), AIR);
    assert_eq!(world.get_tile_id(-1, 0), AIR);
    assert_eq!(world.get_tile_id(0, -1), AIR);
    assert_eq!(world.get_tile_id(i32::MIN, i32::MIN), AIR);
    assert_eq!(world.get_tile_id(i32::MAX, i32::MAX), AIR);
}

#[test]
fn lookup_left_of_the_world_reads_previous_chunk_row() {
    // chunk row 1, chunk column -1 is chunk index 1: the last column of chunk 1
    let mut world = flat_world(400, 300, 0);
    world.chunks[1].tiles[199] = GRASS;
    assert_eq!(world.get_tile_id(-1, 150), GRASS);
    assert_eq!(world.get_tile_id(399, 0), GRASS);
}

#[test]
fn solidity_of_generated_tiles() {
    let world = flat_world(400, 300, 100);
    assert!(world.is_tile_solid(3, 99));
    assert!(world.is_tile_solid(3, 0));
    assert!(!world.is_tile_solid(3, 100));
}

#[test]
fn take_chunks_for_render_empties_queue() {
    let mut world = flat_world(400, 300, 100);
    world.chunks_for_render = vec![3, 1, 3];
    let queued = world.take_chunks_for_render();
    assert_eq!(queued, vec![3, 1, 3]);
    assert!(world.chunks_for_render.is_empty());
    assert!(world.take_chunks_for_render().is_empty());
}

#[test]
fn all_tiles_known_detects_unknown_ids() {
    let mut world = flat_world(200, 150, 100);
    assert!(world.all_tiles_known());
    world.chunks[0].tiles[5] = 4;
    assert!(!world.all_tiles_known());
}

#[test]
fn generated_column_counts() {
    assert_eq!(WorldData::new(1, 4200, 1200).generated_column_count(), 4200);
    assert_eq!(WorldData::new(1, 4399, 1200).generated_column_count(), 4200);
    assert_eq!(WorldData::new(1, 199, 1200).generated_column_count(), 0);
    assert_eq!(WorldData::new(1, -400, 1200).generated_column_count(), 0);
}

#[test]
fn generated_columns_rise_stone_dirt_grass_air() {
    let mut world = WorldData::new(3, 400, 300);
    let heights: Vec<i32> = (0..400).map(|x| 40 + (x * 13) % 250).collect();
    generate_world(&mut world, &heights);
    for x in 0..400 {
        let mut grass = 0;
        for y in 0..300 {
            if y > 0 {
                assert!(world.get_tile_id(x, y - 1) <= world.get_tile_id(x, y));
            }
            if world.get_tile_id(x, y) == GRASS {
                grass += 1;
            }
        }
        assert!(grass <= 1);
    }
}

#[test]
fn equal_worlds_generate_equal_chunks() {
    let heights: Vec<i32> = (0..400).map(|x| 90 + x % 11).collect();
    let mut first = WorldData::new(192852, 400, 300);
    let mut second = WorldData::new(192852, 400, 300);
    generate_world(&mut first, &heights);
    generate_world(&mut second, &heights);
    assert_eq!(first.chunks.len(), second.chunks.len());
    for (a, b) in first.chunks.iter().zip(second.chunks.iter()) {
        assert_eq!(a.tiles, b.tiles);
        assert_eq!((a.start_x, a.start_y, a.dirty), (b.start_x, b.start_y, b.dirty));
    }
}

#[test]
fn generation_ignores_existing_chunk_contents() {
    let mut world = WorldData::new(1, 200, 150);
    world.chunks.push(tile_world::world::Chunk { tiles: vec![AIR; 5], dirty: true, start_x: 0, start_y: 0 });
    generate_world(&mut world, &vec![100; 200]);
    assert_eq!(world.chunks.len(), 2);
    assert_eq!(world.chunks[0].tiles.len(), 5);
    assert_eq!(world.chunks[1].tiles[99 * 200], GRASS);
}

#[test]
fn lookup_in_a_longer_chunk() {
    let mut world = WorldData::new(1, 200, 150);
    let mut tiles = vec![AIR; 30010];
    tiles[3 * 200 + 4] = DIRT;
    world.chunks.push(tile_world::world::Chunk { tiles, dirty: false, start_x: 0, start_y: 0 });
    assert_eq!(world.get_tile_id(4, 3), DIRT);
    assert!(world.is_tile_solid(4, 3));
    assert_eq!(world.place_block(5, 3, STONE), Some(0));
    assert_eq!(world.get_tile_id(5, 3), STONE);
}
