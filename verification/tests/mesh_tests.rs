use tile_world::mesh::{add_tile_quad, build_chunk_mesh, ChunkMesh};
use tile_world::tiles::{AIR, DIRT, GRASS, STONE};
use tile_world::world::Chunk;

fn chunk_with(tiles: Vec<u16>) -> Chunk {
    Chunk { tiles, dirty: false, start_x: 0, start_y: 0 }
}

#[test]
fn quad_geometry() {
    let mut mesh = ChunkMesh::new();
    add_tile_quad(2, 3, DIRT, &mut mesh);
    assert_eq!(mesh.positions, vec![(32, 48), (48, 48), (48, 64), (32, 64)]);
    assert_eq!(mesh.quad_tiles, vec![DIRT]);
    assert_eq!(mesh.indices, vec![0, 1, 2, 0, 2, 3]);
    add_tile_quad(0, 0, STONE, &mut mesh);
    assert_eq!(mesh.indices[6..], [4, 5, 6, 4, 6, 7]);
    assert_eq!(mesh.positions[4..], [(0, 0), (16, 0), (16, 16), (0, 16)]);
}

#[test]
fn all_air_chunk_has_empty_mesh() {
    let mesh = build_chunk_mesh(&chunk_with(vec![AIR; 30000]));
    assert!(mesh.positions.is_empty());
    assert!(mesh.quad_tiles.is_empty());
    assert!(mesh.indices.is_empty());
}

#[test]
fn mesh_draws_non_air_tiles_in_storage_order() {
    let mut tiles = vec![AIR; 30000];
    tiles[5] = STONE;
    tiles[200] = GRASS;
    tiles[29999] = DIRT;
    let mesh = build_chunk_mesh(&chunk_with(tiles));
    assert_eq!(mesh.quad_tiles, vec![STONE, GRASS, DIRT]);
    assert_eq!(mesh.positions.len(), 12);
    assert_eq!(mesh.positions[0], (80, 0));
    assert_eq!(mesh.positions[4], (0, 16));
    assert_eq!(mesh.positions[8], (199 * 16, 149 * 16));
    assert_eq!(mesh.positions[10], (200 * 16, 150 * 16));
    assert_eq!(mesh.indices.len(), 18);
    assert_eq!(mesh.indices[12..], [8, 9, 10, 8, 10, 11]);
}

#[test]
fn full_chunk_mesh_indices_stay_in_range() {
    let mesh = build_chunk_mesh(&chunk_with(vec![STONE; 30000]));
    assert_eq!(mesh.quad_tiles.len(), 30000);
    assert_eq!(mesh.positions.len(), 120000);
    assert_eq!(mesh.indices.len(), 180000);
    assert!(mesh.indices.iter().all(|&i| (i as usize) < mesh.positions.len()));
}

#[test]
fn longer_chunk_meshes_its_first_tiles() {
    let mut tiles = vec![AIR; 30005];
    tiles[29999] = GRASS;
    tiles[30002] = STONE;
    let mesh = build_chunk_mesh(&chunk_with(tiles));
    assert_eq!(mesh.quad_tiles, vec![GRASS]);
    assert_eq!(mesh.positions.len(), 4);
}

fn cross(a: (i32, i32), b: (i32, i32), c: (i32, i32)) -> i64 {
    (b.0 - a.0) as i64 * (c.1 - a.1) as i64 - (b.1 - a.1) as i64 * (c.0 - a.0) as i64
}

#[test]
fn every_triangle_turns_counter_clockwise() {
    let mut tiles = vec![AIR; 30000];
    for i in (0..30000).step_by(7) {
        tiles[i] = DIRT;
    }
    let mesh = build_chunk_mesh(&chunk_with(tiles));
    assert_eq!(mesh.indices.len() % 6, 0);
    assert_eq!(mesh.positions.len() % 4, 0);
    for t in mesh.indices.chunks(3) {
        let p = |i: u32| mesh.positions[i as usize];
        assert!(cross(p(t[0]), p(t[1]), p(t[2])) > 0);
    }
}
