use vstd::prelude::*;

verus! {

/// Width of a chunk, in tiles.
pub const CHUNK_WIDTH: i32 = 200;
/// Height of a chunk, in tiles.
pub const CHUNK_HEIGHT: i32 = 150;
/// Edge length of a tile, in pixels.
pub const TILE_SIZE: i32 = 16;

/// Number of tiles stored in one chunk.
pub const CHUNK_TILES: usize = 30000;

pub const AIR: u16 = 3;
pub const GRASS: u16 = 2;
pub const DIRT: u16 = 1;
pub const STONE: u16 = 0;

/// Number of tile kinds that have a definition.
pub const TILE_KINDS: u16 = 4;

pub type TileId = u16;

/// What the world knows about a tile kind.
#[derive(Clone, Copy, PartialEq, Eq, Structural)]
pub struct TileDef {
    pub solid: bool,
    pub atlas_index: u16,
}

/// Whether a tile id has a definition.
pub open spec fn is_known_tile(id: u16) -> bool {
    id < TILE_KINDS
}

/// Solidity of each known tile kind: everything but air blocks movement.
pub open spec fn spec_tile_solid(id: u16) -> bool {
    id != AIR
}

/// The definition of a known tile kind.
pub fn tile_def(id: u16) -> (def: TileDef)
    requires
        is_known_tile(id),
    ensures
        def.solid == spec_tile_solid(id),
        def.solid <==> id != AIR,
        def.atlas_index == id,
{
    match id {
        0 => TileDef { solid: true, atlas_index: STONE },
        1 => TileDef { solid: true, atlas_index: DIRT },
        2 => TileDef { solid: true, atlas_index: GRASS },
        _ => TileDef { solid: false, atlas_index: AIR },
    }
}

/// The tile that terrain generation puts at height `world_y` in a column
/// whose surface height is `surface`: grass on the top block, a band of
/// dirt below it, stone further down and air above.
pub open spec fn spec_terrain_tile(world_y: int, surface: int) -> u16 {
    if world_y == surface - 1 {
        GRASS
    } else if world_y < surface - 1 && world_y > surface - 50 {
        DIRT
    } else if world_y <= surface - 50 {
        STONE
    } else {
        AIR
    }
}

/// Law: the layers of a terrain column, measured from the column's own
/// surface height `h`: the tile directly under the surface is grass, the 48
/// tiles below it (heights `h - 49` to `h - 2`) are dirt, everything at or
/// below `h - 50` is stone, and everything from `h` up is air.
pub proof fn lemma_terrain_layers(y: int, h: int)
    ensures
        y == h - 1 <==> spec_terrain_tile(y, h) == GRASS,
        h - 50 < y < h - 1 <==> spec_terrain_tile(y, h) == DIRT,
        y <= h - 50 <==> spec_terrain_tile(y, h) == STONE,
        y >= h <==> spec_terrain_tile(y, h) == AIR,
{
}

/// Terrain tile at height `world_y` in a column with surface height `surface`.
pub fn terrain_tile(world_y: i32, surface: i32) -> (tile: u16)
    ensures
        tile == spec_terrain_tile(world_y as int, surface as int),
        is_known_tile(tile),
        world_y == surface - 1 ==> tile == GRASS,
        surface - 50 < world_y < surface - 1 ==> tile == DIRT,
        world_y <= surface - 50 ==> tile == STONE,
        world_y >= surface ==> tile == AIR,
{
    let y = world_y as i64;
    let h = surface as i64;
    if y == h - 1 {
        GRASS
    } else if y < h - 1 && y > h - 50 {
        DIRT
    } else if y <= h - 50 {
        STONE
    } else {
        AIR
    }
}

} // verus!
