use tile_world::player::{place_block, PlayerInventory};
use tile_world::tiles::{AIR, DIRT, STONE};
use tile_world::world::{generate_world, WorldData};

fn flat_world(width: i32, height: i32, surface: i32) -> WorldData {
    let mut world = WorldData::new(7, width, height);
    let heights = vec![surface; (width / 200 * 200) as usize];
    generate_world(&mut world, &heights);
    world
}

#[test]
fn placed_block_reads_back() {
    let mut world = flat_world(400, 300, 100);
    assert_eq!(world.get_tile_id(205, 200), AIR);
    let placed = world.place_block(205, 200, STONE);
    assert_eq!(placed, Some(3));
    assert_eq!(world.get_tile_id(205, 200), STONE);
    assert_eq!(world.chunks_for_render, vec![3]);
    assert_eq!(world.chunks[3].tiles[50 * 200 + 5], STONE);
}

#[test]
fn placing_leaves_other_tiles_unchanged() {
    let mut world = flat_world(400, 300, 100);
    let before: Vec<Vec<u16>> = world.chunks.iter().map(|c| c.tiles.clone()).collect();
    world.place_block(10, 120, AIR);
    for (i, chunk) in world.chunks.iter().enumerate() {
        for (j, tile) in chunk.tiles.iter().enumerate() {
            if i == 0 && j == 120 * 200 + 10 {
                assert_eq!(*tile, AIR);
            } else {
                assert_eq!(*tile, before[i][j]);
            }
        }
    }
}

#[test]
fn placing_outside_the_chunk_grid_changes_nothing() {
    let mut world = flat_world(400, 300, 100);
    assert_eq!(world.place_block(-1, 10, STONE), None);
    assert_eq!(world.place_block(400, 10, STONE), None);
    assert_eq!(world.place_block(10, 300, STONE), None);
    assert_eq!(world.place_block(10, -1, STONE), None);
    assert!(world.chunks_for_render.is_empty());
    assert_eq!(world.get_tile_id(10, 299), AIR);
}

#[test]
fn placement_chunk_index() {
    let world = flat_world(400, 300, 100);
    assert_eq!(world.placement_chunk(0, 0), Some(0));
    assert_eq!(world.placement_chunk(399, 0), Some(1));
    assert_eq!(world.placement_chunk(0, 150), Some(2));
    assert_eq!(world.placement_chunk(399, 299), Some(3));
    assert_eq!(world.placement_chunk(400, 0), None);
    // a world narrower than a chunk has no chunk grid
    let narrow = WorldData::new(1, 150, 300);
    assert_eq!(narrow.placement_chunk(0, 0), None);
}

#[test]
fn player_places_selected_block() {
    let mut world = flat_world(400, 300, 100);
    let inventory = PlayerInventory::starting();
    assert_eq!(inventory.items, vec![STONE]);
    assert_eq!(inventory.selected_item, 0);
    assert_eq!(place_block(&mut world, 300, 250, &inventory), Some(3));
    assert_eq!(world.get_tile_id(300, 250), STONE);
    let other = PlayerInventory { items: vec![STONE, DIRT], selected_item: 1 };
    assert_eq!(place_block(&mut world, 301, 250, &other), Some(3));
    assert_eq!(world.get_tile_id(301, 250), DIRT);
    assert_eq!(world.chunks_for_render, vec![3, 3]);
}

#[test]
fn player_placement_outside_ignores_selection() {
    let mut world = flat_world(400, 300, 100);
    let empty = PlayerInventory { items: vec![], selected_item: 0 };
    assert_eq!(place_block(&mut world, -5, 10, &empty), None);
}
