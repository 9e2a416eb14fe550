use vstd::prelude::*;
use crate::tiles::{
    CHUNK_WIDTH, CHUNK_HEIGHT, CHUNK_TILES, AIR, TileId, is_known_tile, spec_tile_solid,
    tile_def, spec_terrain_tile, terrain_tile, TILE_SIZE, TILE_KINDS, GRASS, DIRT, STONE,
};

verus! {

/// A block of `CHUNK_WIDTH` x `CHUNK_HEIGHT` tiles, stored row by row:
/// the tile at local column `lx` and local row `ly` sits at `ly * CHUNK_WIDTH + lx`.
pub struct Chunk {
    pub tiles: Vec<TileId>,
    pub dirty: bool,
    /// Pixel position of the chunk's first tile.
    pub start_x: i64,
    pub start_y: i64,
}

/// The whole tile world: chunks laid out row by row, `width / CHUNK_WIDTH`
/// chunks to a row, plus the chunks whose mesh must be rebuilt.
pub struct WorldData {
    pub chunks: Vec<Chunk>,
    pub chunks_loading_marked: Vec<usize>,
    pub chunks_loaded: Vec<usize>,
    pub chunks_for_render: Vec<usize>,
    /// World width, in tiles.
    pub width: i32,
    /// World height, in tiles.
    pub height: i32,
    /// Seed of the terrain noise.
    pub seed: u32,
}

/// Division rounding toward zero, as Rust's `/` on signed integers.
pub open spec fn trunc_div(a: int, d: int) -> int {
    if a >= 0 { a / d } else { -((-a) / d) }
}

/// Number of chunks in a row of a world `width` tiles wide.
pub open spec fn chunks_wide(width: int) -> int {
    trunc_div(width, CHUNK_WIDTH as int)
}

/// Number of chunk rows of a world `height` tiles high.
pub open spec fn chunks_high(height: int) -> int {
    trunc_div(height, CHUNK_HEIGHT as int)
}

/// Chunk column of tile column `x` (floor division; `x` may be negative).
pub open spec fn chunk_col(x: int) -> int {
    x / (CHUNK_WIDTH as int)
}

/// Chunk row of tile row `y` (floor division; `y` may be negative).
pub open spec fn chunk_row(y: int) -> int {
    y / (CHUNK_HEIGHT as int)
}

/// Position of tile `(x, y)` inside its chunk's tile vector.
pub open spec fn local_index(x: int, y: int) -> int {
    (y % (CHUNK_HEIGHT as int)) * (CHUNK_WIDTH as int) + x % (CHUNK_WIDTH as int)
}

impl WorldData {
    /// Every chunk holds at least one chunk's worth of tiles.
    pub open spec fn well_formed(&self) -> bool {
        forall|i: int|
            0 <= i < self.chunks@.len() ==> (#[trigger] self.chunks@[i]).tiles@.len()
                >= CHUNK_TILES
    }

    /// Every stored tile is a tile kind with a definition.
    pub open spec fn tiles_known(&self) -> bool {
        forall|i: int, j: int|
            0 <= i < self.chunks@.len() && 0 <= j < self.chunks@[i].tiles@.len()
                ==> is_known_tile(#[trigger] self.chunks@[i].tiles@[j])
    }

    /// Index into `chunks` that a lookup of tile `(x, y)` reads.
    pub open spec fn chunk_index(&self, x: int, y: int) -> int {
        chunk_row(y) * chunks_wide(self.width as int) + chunk_col(x)
    }

    /// The tile id a lookup at `(x, y)` yields: the stored tile when the
    /// computed chunk index names a chunk, air otherwise.
    pub open spec fn tile_at(&self, x: int, y: int) -> TileId {
        let c = self.chunk_index(x, y);
        if 0 <= c < self.chunks@.len() {
            self.chunks@[c].tiles@[local_index(x, y)]
        } else {
            AIR
        }
    }

    /// Tile `(x, y)` lies in one of the world's chunk cells.
    pub open spec fn in_chunk_grid(&self, x: int, y: int) -> bool {
        &&& 0 <= chunk_col(x) < chunks_wide(self.width as int)
        &&& 0 <= chunk_row(y) < chunks_high(self.height as int)
    }

    /// A scan of the box with columns `[x_start, x_end]`, row by row from
    /// `y_start` up and each row from `x_start` right, meets no blocking cell
    /// before cell `(x, y)`.
    pub open spec fn scan_reaches(&self, x_start: int, x_end: int, y_start: int, x: int, y: int) -> bool {
        &&& forall|xx: int, yy: int|
            x_start <= xx <= x_end && y_start <= yy < y ==> !#[trigger] self.cell_blocks(xx, yy)
        &&& forall|xx: int| x_start <= xx < x ==> !#[trigger] self.cell_blocks(xx, y)
    }

    /// Every in-world cell of the box `[x_start, x_end] x [y_start, y_end]`
    /// that the scan reaches holds a tile kind with a definition.
    pub open spec fn scanned_tiles_known(&self, x_start: int, x_end: int, y_start: int, y_end: int) -> bool {
        forall|x: int, y: int|
            x_start <= x <= x_end && y_start <= y <= y_end && 0 <= x < self.width && 0 <= y
                < self.height && #[trigger] self.scan_reaches(x_start, x_end, y_start, x, y)
                ==> is_known_tile(self.tile_at(x, y))
    }

    /// `after` is this world with `block` put at tile `(x, y)`, which lies
    /// in chunk `i`, and chunk `i` queued for a mesh rebuild; nothing else
    /// differs.
    pub open spec fn is_placement(&self, after: &WorldData, x: int, y: int, block: TileId, i: usize) -> bool {
        &&& i == self.chunk_index(x, y)
        &&& after.chunks_for_render@ == self.chunks_for_render@.push(i)
        &&& after.chunks@.len() == self.chunks@.len()
        &&& forall|k: int|
            0 <= k < self.chunks@.len() && k != i ==> #[trigger] after.chunks@[k] == self.chunks@[k]
        &&& after.chunks@[i as int].tiles@ == self.chunks@[i as int].tiles@.update(
            local_index(x, y),
            block,
        )
        &&& after.chunks@[i as int].dirty == self.chunks@[i as int].dirty
        &&& after.chunks@[i as int].start_x == self.chunks@[i as int].start_x
        &&& after.chunks@[i as int].start_y == self.chunks@[i as int].start_y
        &&& after.chunks_loading_marked == self.chunks_loading_marked
        &&& after.chunks_loaded == self.chunks_loaded
        &&& after.width == self.width
        &&& after.height == self.height
        &&& after.seed == self.seed
    }

    /// A grid cell that movement cannot enter: outside the world, or solid.
    pub open spec fn cell_blocks(&self, x: int, y: int) -> bool {
        ||| x < 0
        ||| x >= self.width
        ||| y < 0
        ||| y >= self.height
        ||| spec_tile_solid(self.tile_at(x, y))
    }

    /// Some cell of the box `[x_start, x_end] x [y_start, y_end]` blocks.
    pub open spec fn box_collides(&self, x_start: int, x_end: int, y_start: int, y_end: int) -> bool {
        exists|x: int, y: int|
            x_start <= x <= x_end && y_start <= y <= y_end && #[trigger] self.cell_blocks(x, y)
    }

    /// An empty world of the given size in tiles.
    pub fn new(seed: u32, width: i32, height: i32) -> (world: Self)
        ensures
            world.chunks@.len() == 0,
            world.chunks_loading_marked@.len() == 0,
            world.chunks_loaded@.len() == 0,
            world.chunks_for_render@.len() == 0,
            world.width == width,
            world.height == height,
            world.seed == seed,
            world.well_formed(),
            world.tiles_known(),
    {
        Self {
            chunks: Vec::new(),
            chunks_loaded: Vec::new(),
            chunks_loading_marked: Vec::new(),
            chunks_for_render: Vec::new(),
            width: width,
            height: height,
            seed: seed,
        }
    }

    /// The tile id at grid position `(grid_x, grid_y)`.
    pub fn get_tile_id(&self, grid_x: i32, grid_y: i32) -> (id: TileId)
        requires
            self.well_formed(),
        ensures
            id == self.tile_at(grid_x as int, grid_y as int),
    {
        let chunks_wide: i32 = self.width / CHUNK_WIDTH;
        let chunk_x: i32 = match grid_x.checked_div_euclid(CHUNK_WIDTH) {
            Some(v) => v,
            None => 0,
        };
        let chunk_y: i32 = match grid_y.checked_div_euclid(CHUNK_HEIGHT) {
            Some(v) => v,
            None => 0,
        };
        assert(-0x4000_0000_0000_0000 <= (chunk_y as int) * (chunks_wide as int)
            <= 0x4000_0000_0000_0000) by (nonlinear_arith)
            requires
                i32::MIN <= chunk_y <= i32::MAX,
                i32::MIN <= chunks_wide <= i32::MAX,
        ;
        let chunk_index: i64 = chunk_y as i64 * chunks_wide as i64 + chunk_x as i64;
        assert(chunk_index == self.chunk_index(grid_x as int, grid_y as int));
        if chunk_index < 0 || chunk_index as u64 >= self.chunks.len() as u64 {
            return AIR;
        }
        let local_x: i32 = match grid_x.checked_rem_euclid(CHUNK_WIDTH) {
            Some(v) => v,
            None => 0,
        };
        let local_y: i32 = match grid_y.checked_rem_euclid(CHUNK_HEIGHT) {
            Some(v) => v,
            None => 0,
        };
        let tile_index: usize = local_y as usize * 200 + local_x as usize;
        assert(self.chunks@[chunk_index as int].tiles@.len() >= CHUNK_TILES);
        self.chunks[chunk_index as usize].tiles[tile_index]
    }

    /// The chunk that tile `(tile_x, tile_y)` falls in, when that chunk cell
    /// lies inside the world's `width / CHUNK_WIDTH` by `height / CHUNK_HEIGHT`
    /// chunk grid; `None` otherwise.
    pub fn placement_chunk(&self, tile_x: i32, tile_y: i32) -> (chunk: Option<u64>)
        ensures
            chunk is Some <==> self.in_chunk_grid(tile_x as int, tile_y as int),
            chunk matches Some(i) ==> i == self.chunk_index(tile_x as int, tile_y as int),
            chunk is Some <==> 0 <= tile_x < (self.width as int) / 200 * 200 && 0 <= tile_y < (
            self.height as int) / 150 * 150,
            chunk matches Some(i) ==> i == (tile_y as int) / 150 * ((self.width as int) / 200) + (
            tile_x as int) / 200,
    {
        proof {
            lemma_chunk_grid_is_tile_rectangle(*self, tile_x as int, tile_y as int);
        }
        let chunk_x: i32 = match tile_x.checked_div_euclid(CHUNK_WIDTH) {
            Some(v) => v,
            None => 0,
        };
        let chunk_y: i32 = match tile_y.checked_div_euclid(CHUNK_HEIGHT) {
            Some(v) => v,
            None => 0,
        };
        let chunks_wide: i32 = self.width / CHUNK_WIDTH;
        let chunks_high: i32 = self.height / CHUNK_HEIGHT;
        if chunk_x < 0 || chunk_x >= chunks_wide || chunk_y < 0 || chunk_y >= chunks_high {
            return None;
        }
        assert(0 <= (chunk_y as int) * (chunks_wide as int) + chunk_x < (chunks_wide as int)
            * (chunks_high as int)) by (nonlinear_arith)
            requires
                0 <= chunk_x < chunks_wide,
                0 <= chunk_y < chunks_high,
        ;
        assert((chunks_wide as int) * (chunks_high as int) <= 0x1_0000_0000_0000_0000)
            by (nonlinear_arith)
            requires
                0 < chunks_wide <= 0x1_0000_0000,
                0 < chunks_high <= 0x1_0000_0000,
        ;
        let index: u64 = chunk_y as u64 * chunks_wide as u64 + chunk_x as u64;
        Some(index)
    }

    /// Puts `block` at tile `(tile_x, tile_y)` when that tile lies in the
    /// world's chunk grid, and queues its chunk for a mesh rebuild.
    /// Returns the chunk's index, or `None` (and changes nothing) when the
    /// tile lies outside the chunk grid.
    pub fn place_block(&mut self, tile_x: i32, tile_y: i32, block: TileId) -> (placed: Option<usize>)
        requires
            old(self).well_formed(),
            old(self).in_chunk_grid(tile_x as int, tile_y as int) ==> old(self).chunk_index(
                tile_x as int,
                tile_y as int,
            ) < old(self).chunks@.len(),
        ensures
            final(self).well_formed(),
            placed is Some <==> old(self).in_chunk_grid(tile_x as int, tile_y as int),
            placed is Some <==> 0 <= tile_x < (old(self).width as int) / 200 * 200 && 0 <= tile_y
                < (old(self).height as int) / 150 * 150,
            placed is None ==> *final(self) == *old(self),
            placed matches Some(i) ==> old(self).is_placement(
                &*final(self),
                tile_x as int,
                tile_y as int,
                block,
                i,
            ),
            // a lookup of the placed tile reads the block back
            placed is Some ==> final(self).tile_at(tile_x as int, tile_y as int) == block,
            // every other tile of the chunk grid is unchanged
            forall|x: int, y: int|
                old(self).in_chunk_grid(x, y) && (x != tile_x || y != tile_y) ==> #[trigger] final(self).tile_at(x, y)
                    == old(self).tile_at(x, y),
            old(self).tiles_known() && is_known_tile(block) ==> final(self).tiles_known(),
    {
        let target = self.placement_chunk(tile_x, tile_y);
        match target {
            None => {
                assert forall|x: int, y: int|
                    old(self).in_chunk_grid(x, y) && (x != tile_x || y != tile_y) implies #[trigger] self.tile_at(
                    x,
                    y,
                ) == old(self).tile_at(x, y) by {}
                None
            },
            Some(chunk_index) => {
                let chunks_len: usize = self.chunks.len();
                assert(chunk_index < chunks_len);
                let index: usize = chunk_index as usize;
                let local_x: i32 = match tile_x.checked_rem_euclid(CHUNK_WIDTH) {
                    Some(v) => v,
                    None => 0,
                };
                let local_y: i32 = match tile_y.checked_rem_euclid(CHUNK_HEIGHT) {
                    Some(v) => v,
                    None => 0,
                };
                let tile_index: usize = local_y as usize * 200 + local_x as usize;
                assert(self.chunks@[index as int].tiles@.len() >= CHUNK_TILES);
                self.chunks[index].tiles.set(tile_index, block);
                self.chunks_for_render.push(index);
                proof {
                    assert forall|x: int, y: int|
                        old(self).in_chunk_grid(x, y) && (x != tile_x || y != tile_y) implies #[trigger] self.tile_at(
                        x,
                        y,
                    ) == old(self).tile_at(x, y) by {
                        lemma_grid_cells_distinct(
                            old(self).width as int,
                            old(self).height as int,
                            x,
                            y,
                            tile_x as int,
                            tile_y as int,
                        );
                    }
                }
                Some(index)
            },
        }
    }

    /// Number of world columns the generated chunk grid covers: the number of
    /// surface heights terrain generation reads.
    pub fn generated_column_count(&self) -> (columns: usize)
        ensures
            columns == generated_cols(self.width as int) * (CHUNK_WIDTH as int),
    {
        if self.width >= 0 {
            (self.width / CHUNK_WIDTH * CHUNK_WIDTH) as usize
        } else {
            0
        }
    }

    /// Whether every stored tile is a tile kind with a definition.
    pub fn all_tiles_known(&self) -> (known: bool)
        ensures
            known == self.tiles_known(),
    {
        let mut i: usize = 0;
        while i < self.chunks.len()
            invariant
                i <= self.chunks@.len(),
                forall|a: int, j: int|
                    0 <= a < i && 0 <= j < self.chunks@[a].tiles@.len() ==> is_known_tile(
                        #[trigger] self.chunks@[a].tiles@[j],
                    ),
            decreases self.chunks@.len() - i,
        {
            let mut j: usize = 0;
            while j < self.chunks[i].tiles.len()
                invariant
                    i < self.chunks@.len(),
                    j <= self.chunks@[i as int].tiles@.len(),
                    forall|a: int, k: int|
                        0 <= a < i && 0 <= k < self.chunks@[a].tiles@.len() ==> is_known_tile(
                            #[trigger] self.chunks@[a].tiles@[k],
                        ),
                    forall|k: int|
                        0 <= k < j ==> is_known_tile(#[trigger] self.chunks@[i as int].tiles@[k]),
                decreases self.chunks@[i as int].tiles@.len() - j,
            {
                if self.chunks[i].tiles[j] >= TILE_KINDS {
                    return false;
                }
                j = j + 1;
            }
            i = i + 1;
        }
        true
    }

    /// Hands out the queue of chunks whose mesh must be rebuilt, in the order
    /// they were queued, and leaves the queue empty.
    pub fn take_chunks_for_render(&mut self) -> (queued: Vec<usize>)
        ensures
            queued@ == old(self).chunks_for_render@,
            final(self).chunks_for_render@.len() == 0,
            final(self).chunks == old(self).chunks,
            final(self).chunks_loading_marked == old(self).chunks_loading_marked,
            final(self).chunks_loaded == old(self).chunks_loaded,
            final(self).width == old(self).width,
            final(self).height == old(self).height,
            final(self).seed == old(self).seed,
    {
        let mut queued: Vec<usize> = Vec::new();
        std::mem::swap(&mut queued, &mut self.chunks_for_render);
        queued
    }

    /// Whether the tile at grid position `(grid_x, grid_y)` blocks movement.
    pub fn is_tile_solid(&self, grid_x: i32, grid_y: i32) -> (solid: bool)
        requires
            self.well_formed(),
            is_known_tile(self.tile_at(grid_x as int, grid_y as int)),
        ensures
            solid == spec_tile_solid(self.tile_at(grid_x as int, grid_y as int)),
            solid <==> self.tile_at(grid_x as int, grid_y as int) != AIR,
    {
        let id = self.get_tile_id(grid_x, grid_y);
        tile_def(id).solid
    }

    /// Whether any grid cell of the box `[x_start, x_end] x [y_start, y_end]`
    /// lies outside the world or holds a solid tile. Rows are scanned from
    /// `y_start` up, each from `x_start` right, stopping at the first such
    /// cell; the tiles the scan reads before it must be known kinds.
    pub fn is_colliding(&self, x_start: i32, x_end: i32, y_start: i32, y_end: i32) -> (hit: bool)
        requires
            self.well_formed(),
            self.scanned_tiles_known(x_start as int, x_end as int, y_start as int, y_end as int),
        ensures
            hit == self.box_collides(x_start as int, x_end as int, y_start as int, y_end as int),
    {
        let mut y: i64 = y_start as i64;
        while y <= y_end as i64
            invariant
                self.well_formed(),
                self.scanned_tiles_known(x_start as int, x_end as int, y_start as int, y_end as int),
                y_start <= y,
                y <= y_end + 1 || y == y_start,
                forall|xx: int, yy: int|
                    x_start <= xx <= x_end && y_start <= yy < y ==> !#[trigger] self.cell_blocks(
                        xx,
                        yy,
                    ),
            decreases y_end + 1 - y,
        {
            let mut x: i64 = x_start as i64;
            while x <= x_end as i64
                invariant
                    self.well_formed(),
                    self.scanned_tiles_known(x_start as int, x_end as int, y_start as int, y_end as int),
                    y_start <= y <= y_end,
                    x_start <= x,
                    x <= x_end + 1 || x == x_start,
                    forall|xx: int, yy: int|
                        x_start <= xx <= x_end && y_start <= yy < y ==> !#[trigger] self.cell_blocks(
                            xx,
                            yy,
                        ),
                    forall|xx: int| x_start <= xx < x ==> !#[trigger] self.cell_blocks(xx, y as int),
                decreases x_end + 1 - x,
            {
                if x < 0 || x >= self.width as i64 || y < 0 || y >= self.height as i64 {
                    assert(self.cell_blocks(x as int, y as int));
                    return true;
                }
                assert(self.scan_reaches(x_start as int, x_end as int, y_start as int, x as int, y as int));
                assert(is_known_tile(self.tile_at(x as int, y as int)));
                if self.is_tile_solid(x as i32, y as i32) {
                    assert(self.cell_blocks(x as int, y as int));
                    return true;
                }
                x = x + 1;
            }
            y = y + 1;
        }
        false
    }
}

/// When every stored tile is known, every lookup yields a known tile.
pub proof fn lemma_known_tiles_read_known(world: WorldData)
    requires
        world.well_formed(),
        world.tiles_known(),
    ensures
        forall|x: int, y: int| is_known_tile(#[trigger] world.tile_at(x, y)),
{
    assert forall|x: int, y: int| is_known_tile(#[trigger] world.tile_at(x, y)) by {
        let c = world.chunk_index(x, y);
        if 0 <= c < world.chunks@.len() {
            assert(0 <= local_index(x, y) < CHUNK_TILES);
            assert(world.chunks@[c].tiles@.len() >= CHUNK_TILES);
        }
    }
}

/// When every stored tile is known, every scan of a box reads known tiles.
pub proof fn lemma_known_world_scans_known(
    world: WorldData,
    x_start: int,
    x_end: int,
    y_start: int,
    y_end: int,
)
    requires
        world.well_formed(),
        world.tiles_known(),
    ensures
        world.scanned_tiles_known(x_start, x_end, y_start, y_end),
{
    lemma_known_tiles_read_known(world);
}

/// Law: tile `(x, y)` lies in the chunk grid exactly when it lies in the
/// rectangle of whole chunks: `0 <= x < (width / 200) * 200` and
/// `0 <= y < (height / 150) * 150`. For a 4200 x 1200 world that is every
/// tile `0 <= x < 4200`, `0 <= y < 1200`.
pub proof fn lemma_chunk_grid_is_tile_rectangle(world: WorldData, x: int, y: int)
    ensures
        world.in_chunk_grid(x, y) <==> (0 <= x < (world.width as int) / 200 * 200 && 0 <= y < (
        world.height as int) / 150 * 150),
        world.in_chunk_grid(x, y) ==> world.chunk_index(x, y) == y / 150 * ((world.width as int)
            / 200) + x / 200,
{
    let w = world.width as int;
    let h = world.height as int;
    vstd::arithmetic::div_mod::lemma_fundamental_div_mod(x, 200);
    vstd::arithmetic::div_mod::lemma_fundamental_div_mod(y, 150);
    vstd::arithmetic::div_mod::lemma_fundamental_div_mod(w, 200);
    vstd::arithmetic::div_mod::lemma_fundamental_div_mod(h, 150);
    if w >= 0 {
        assert(chunks_wide(w) == w / 200);
        let cw = w / 200;
        assert((0 <= x / 200 < cw) <==> (0 <= x < cw * 200)) by (nonlinear_arith)
            requires
                x == 200 * (x / 200) + x % 200,
                0 <= x % 200 < 200,
                cw >= 0,
        ;
    } else {
        assert(chunks_wide(w) <= 0);
        assert(w / 200 < 0);
        assert((w / 200) * 200 < 0) by (nonlinear_arith)
            requires
                w / 200 < 0,
        ;
    }
    if h >= 0 {
        assert(chunks_high(h) == h / 150);
        let ch = h / 150;
        assert((0 <= y / 150 < ch) <==> (0 <= y < ch * 150)) by (nonlinear_arith)
            requires
                y == 150 * (y / 150) + y % 150,
                0 <= y % 150 < 150,
                ch >= 0,
        ;
    } else {
        assert(chunks_high(h) <= 0);
        assert(h / 150 < 0);
        assert((h / 150) * 150 < 0) by (nonlinear_arith)
            requires
                h / 150 < 0,
        ;
    }
}

/// Law: a grid cell blocks movement exactly when it lies outside the world
/// (`x < 0`, `x >= width`, `y < 0` or `y >= height`) or its tile is anything
/// but air; that is, when its tile's definition is solid.
pub proof fn lemma_blocking_cell(world: WorldData, x: int, y: int)
    ensures
        world.cell_blocks(x, y) <==> (x < 0 || x >= world.width || y < 0 || y >= world.height
            || world.tile_at(x, y) != AIR),
{
}

/// Law: a box collides when any one of its cells lies outside the world or
/// holds a tile other than air (stone, dirt and grass all block).
pub proof fn lemma_collision_from_cell(
    world: WorldData,
    x_start: int,
    x_end: int,
    y_start: int,
    y_end: int,
    x: int,
    y: int,
)
    requires
        x_start <= x <= x_end,
        y_start <= y <= y_end,
        x < 0 || x >= world.width || y < 0 || y >= world.height || world.tile_at(x, y) != AIR,
    ensures
        world.box_collides(x_start, x_end, y_start, y_end),
{
    lemma_blocking_cell(world, x, y);
    assert(world.cell_blocks(x, y));
}

/// Law: a box does not collide when all of its cells lie inside the world
/// and hold air.
pub proof fn lemma_no_collision_in_air(
    world: WorldData,
    x_start: int,
    x_end: int,
    y_start: int,
    y_end: int,
)
    requires
        forall|x: int, y: int|
            x_start <= x <= x_end && y_start <= y <= y_end ==> 0 <= x < world.width && 0 <= y
                < world.height && #[trigger] world.tile_at(x, y) == AIR,
    ensures
        !world.box_collides(x_start, x_end, y_start, y_end),
{
    assert forall|x: int, y: int|
        x_start <= x <= x_end && y_start <= y <= y_end implies !#[trigger] world.cell_blocks(x, y) by {
        let tile = world.tile_at(x, y);
        lemma_blocking_cell(world, x, y);
    }
}

/// Law: in freshly generated terrain, any box that reaches below a column's
/// surface collides: every generated tile under the surface (stone, dirt or
/// grass) blocks movement.
pub proof fn lemma_generated_ground_collides(
    world: WorldData,
    surface: Seq<i32>,
    x: int,
    y: int,
    x_start: int,
    x_end: int,
    y_start: int,
    y_end: int,
)
    requires
        world.generated_after(0, surface),
        0 <= x < generated_cols(world.width as int) * (CHUNK_WIDTH as int),
        0 <= y < generated_rows(world.height as int) * (CHUNK_HEIGHT as int),
        y < surface[x],
        x_start <= x <= x_end,
        y_start <= y <= y_end,
    ensures
        world.tile_at(x, y) != AIR,
        world.box_collides(x_start, x_end, y_start, y_end),
{
    lemma_generated_terrain_reads_back(world, surface, x, y);
    crate::tiles::lemma_terrain_layers(y, surface[x] as int);
    assert(world.cell_blocks(x, y));
}

/// Law: a box that contains a colliding box collides too.
pub proof fn lemma_collision_monotone(
    world: WorldData,
    x_start: int,
    x_end: int,
    y_start: int,
    y_end: int,
    outer_x_start: int,
    outer_x_end: int,
    outer_y_start: int,
    outer_y_end: int,
)
    requires
        outer_x_start <= x_start,
        x_end <= outer_x_end,
        outer_y_start <= y_start,
        y_end <= outer_y_end,
        world.box_collides(x_start, x_end, y_start, y_end),
    ensures
        world.box_collides(outer_x_start, outer_x_end, outer_y_start, outer_y_end),
{
    let (x, y) = choose|x: int, y: int|
        x_start <= x <= x_end && y_start <= y <= y_end && #[trigger] world.cell_blocks(x, y);
    assert(world.cell_blocks(x, y));
}

/// Two distinct tiles of a chunk grid are stored in distinct places: they
/// differ in chunk index or in position inside the chunk.
proof fn lemma_grid_cells_distinct(width: int, height: int, x1: int, y1: int, x2: int, y2: int)
    requires
        0 <= chunk_col(x1) < chunks_wide(width),
        0 <= chunk_row(y1) < chunks_high(height),
        0 <= chunk_col(x2) < chunks_wide(width),
        0 <= chunk_row(y2) < chunks_high(height),
        x1 != x2 || y1 != y2,
    ensures
        chunk_row(y1) * chunks_wide(width) + chunk_col(x1) != chunk_row(y2) * chunks_wide(width)
            + chunk_col(x2) || local_index(x1, y1) != local_index(x2, y2),
{
    let cw = chunks_wide(width);
    let k1 = chunk_row(y1) * cw + chunk_col(x1);
    let k2 = chunk_row(y2) * cw + chunk_col(x2);
    let l1 = local_index(x1, y1);
    let l2 = local_index(x2, y2);
    vstd::arithmetic::div_mod::lemma_fundamental_div_mod(x1, CHUNK_WIDTH as int);
    vstd::arithmetic::div_mod::lemma_fundamental_div_mod(y1, CHUNK_HEIGHT as int);
    vstd::arithmetic::div_mod::lemma_fundamental_div_mod(x2, CHUNK_WIDTH as int);
    vstd::arithmetic::div_mod::lemma_fundamental_div_mod(y2, CHUNK_HEIGHT as int);
    if k1 == k2 && l1 == l2 {
        vstd::arithmetic::div_mod::lemma_fundamental_div_mod_converse(
            k1,
            cw,
            chunk_row(y1),
            chunk_col(x1),
        );
        vstd::arithmetic::div_mod::lemma_fundamental_div_mod_converse(
            k2,
            cw,
            chunk_row(y2),
            chunk_col(x2),
        );
        vstd::arithmetic::div_mod::lemma_fundamental_div_mod_converse(
            l1,
            CHUNK_WIDTH as int,
            y1 % (CHUNK_HEIGHT as int),
            x1 % (CHUNK_WIDTH as int),
        );
        vstd::arithmetic::div_mod::lemma_fundamental_div_mod_converse(
            l2,
            CHUNK_WIDTH as int,
            y2 % (CHUNK_HEIGHT as int),
            x2 % (CHUNK_WIDTH as int),
        );
    }
}

/// Number of chunk columns terrain generation lays out for a world `width` tiles wide.
pub open spec fn generated_cols(width: int) -> int {
    if width >= 0 { width / (CHUNK_WIDTH as int) } else { 0 }
}

/// Number of chunk rows terrain generation lays out for a world `height` tiles high.
pub open spec fn generated_rows(height: int) -> int {
    if height >= 0 { height / (CHUNK_HEIGHT as int) } else { 0 }
}

/// Tile `i` of the generated chunk in chunk row `row` and chunk column `col`,
/// where `surface[x]` is the surface height of world column `x`.
pub open spec fn generated_tile(surface: Seq<i32>, row: int, col: int, i: int) -> TileId {
    spec_terrain_tile(
        row * (CHUNK_HEIGHT as int) + i / (CHUNK_WIDTH as int),
        surface[col * (CHUNK_WIDTH as int) + i % (CHUNK_WIDTH as int)] as int,
    )
}

/// `chunk` is the chunk generation makes for chunk row `row`, column `col`.
pub open spec fn is_generated_chunk(chunk: Chunk, surface: Seq<i32>, row: int, col: int) -> bool {
    &&& chunk.tiles@.len() == CHUNK_TILES
    &&& forall|i: int|
        0 <= i < CHUNK_TILES ==> #[trigger] chunk.tiles@[i] == generated_tile(surface, row, col, i)
    &&& !chunk.dirty
    &&& chunk.start_x == col * (CHUNK_WIDTH as int) * (TILE_SIZE as int)
    &&& chunk.start_y == row * (CHUNK_HEIGHT as int) * (TILE_SIZE as int)
}

impl WorldData {
    /// The chunks from index `base` on are exactly the generated chunk grid
    /// for this world's size and the surface heights `surface`, row by row.
    pub open spec fn generated_after(&self, base: int, surface: Seq<i32>) -> bool {
        let cols = generated_cols(self.width as int);
        &&& self.chunks@.len() == base + generated_rows(self.height as int) * cols
        &&& forall|k: int|
            base <= k < self.chunks@.len() ==> is_generated_chunk(
                #[trigger] self.chunks@[k],
                surface,
                (k - base) / cols,
                (k - base) % cols,
            )
    }
}

impl WorldData {
    /// Index into `chunks` of the generated chunk holding world tile `(x, y)`,
    /// for chunks generated from index `base` on.
    pub open spec fn generated_chunk_index(&self, base: int, x: int, y: int) -> int {
        base + chunk_row(y) * generated_cols(self.width as int) + chunk_col(x)
    }

    /// The tile stored for world tile `(x, y)` among the chunks generated
    /// from index `base` on.
    pub open spec fn generated_cell(&self, base: int, x: int, y: int) -> TileId {
        self.chunks@[self.generated_chunk_index(base, x, y)].tiles@[local_index(x, y)]
    }
}

/// Law: among chunks generated from index `base` on, world tile `(x, y)` of
/// the generated area is stored in a generated chunk, and holds the terrain
/// tile of height `y` under the surface height of column `x`.
pub proof fn lemma_generated_cell(world: WorldData, base: int, surface: Seq<i32>, x: int, y: int)
    requires
        0 <= base,
        world.generated_after(base, surface),
        0 <= x < generated_cols(world.width as int) * (CHUNK_WIDTH as int),
        0 <= y < generated_rows(world.height as int) * (CHUNK_HEIGHT as int),
    ensures
        base <= world.generated_chunk_index(base, x, y) < world.chunks@.len(),
        world.generated_cell(base, x, y) == spec_terrain_tile(y, surface[x] as int),
{
    let cols = generated_cols(world.width as int);
    let rows = generated_rows(world.height as int);
    let cx = chunk_col(x);
    let cy = chunk_row(y);
    vstd::arithmetic::div_mod::lemma_fundamental_div_mod(x, CHUNK_WIDTH as int);
    vstd::arithmetic::div_mod::lemma_fundamental_div_mod(y, CHUNK_HEIGHT as int);
    assert(0 <= cx < cols) by (nonlinear_arith)
        requires
            0 <= x < cols * 200,
            cx == x / 200,
    ;
    assert(0 <= cy < rows) by (nonlinear_arith)
        requires
            0 <= y < rows * 150,
            cy == y / 150,
    ;
    let k = cy * cols + cx;
    assert(0 <= k < rows * cols) by (nonlinear_arith)
        requires
            0 <= cx < cols,
            0 <= cy < rows,
            k == cy * cols + cx,
    ;
    vstd::arithmetic::div_mod::lemma_fundamental_div_mod_converse(k, cols, cy, cx);
    let li = local_index(x, y);
    vstd::arithmetic::div_mod::lemma_fundamental_div_mod_converse(
        li,
        CHUNK_WIDTH as int,
        y % (CHUNK_HEIGHT as int),
        x % (CHUNK_WIDTH as int),
    );
    assert(0 <= li < CHUNK_TILES);
    assert(world.generated_chunk_index(base, x, y) == base + k);
    assert(is_generated_chunk(world.chunks@[base + k], surface, cy, cx));
    assert(world.chunks@[base + k].tiles@[li] == generated_tile(surface, cy, cx, li));
}

/// Law: the generated terrain of column `x` is layered from that column's own
/// surface height `h = surface[x]`: grass at `h - 1`, dirt strictly between
/// `h - 50` and `h - 1`, stone at or below `h - 50`, air from `h` up.
pub proof fn lemma_generated_layers(world: WorldData, base: int, surface: Seq<i32>, x: int, y: int)
    requires
        0 <= base,
        world.generated_after(base, surface),
        0 <= x < generated_cols(world.width as int) * (CHUNK_WIDTH as int),
        0 <= y < generated_rows(world.height as int) * (CHUNK_HEIGHT as int),
    ensures
        y == surface[x] - 1 ==> world.generated_cell(base, x, y) == GRASS,
        surface[x] - 50 < y < surface[x] - 1 ==> world.generated_cell(base, x, y) == DIRT,
        y <= surface[x] - 50 ==> world.generated_cell(base, x, y) == STONE,
        y >= surface[x] ==> world.generated_cell(base, x, y) == AIR,
{
    lemma_generated_cell(world, base, surface, x, y);
    crate::tiles::lemma_terrain_layers(y, surface[x] as int);
}

/// Law: once terrain is generated into a world that held no chunks, the
/// lookup at any tile `(x, y)` of the generated area yields the terrain tile
/// of height `y` under the surface height of column `x`.
pub proof fn lemma_generated_terrain_reads_back(world: WorldData, surface: Seq<i32>, x: int, y: int)
    requires
        world.generated_after(0, surface),
        0 <= x < generated_cols(world.width as int) * (CHUNK_WIDTH as int),
        0 <= y < generated_rows(world.height as int) * (CHUNK_HEIGHT as int),
    ensures
        world.tile_at(x, y) == spec_terrain_tile(y, surface[x] as int),
{
    lemma_generated_cell(world, 0, surface, x, y);
    assert(world.width >= 200);
    assert(chunks_wide(world.width as int) == generated_cols(world.width as int));
    assert(world.chunk_index(x, y) == world.generated_chunk_index(0, x, y));
}

/// Within one column, terrain tiles only rise in id going up (stone, then
/// dirt, then grass, then air), and at most one tile is grass.
pub proof fn lemma_terrain_column_order(y1: int, y2: int, surface: int)
    requires
        y1 < y2,
    ensures
        spec_terrain_tile(y1, surface) <= spec_terrain_tile(y2, surface),
        !(spec_terrain_tile(y1, surface) == GRASS && spec_terrain_tile(y2, surface) == GRASS),
{
}

/// Law: in every world column of the generated area, tile ids never
/// decrease going up (stone below dirt below grass below air), and the
/// column holds at most one grass tile.
pub proof fn lemma_generated_columns_ordered(
    world: WorldData,
    base: int,
    surface: Seq<i32>,
    x: int,
    y1: int,
    y2: int,
)
    requires
        0 <= base,
        world.generated_after(base, surface),
        0 <= x < generated_cols(world.width as int) * (CHUNK_WIDTH as int),
        0 <= y1 < y2,
        y2 < generated_rows(world.height as int) * (CHUNK_HEIGHT as int),
    ensures
        world.generated_cell(base, x, y1) <= world.generated_cell(base, x, y2),
        !(world.generated_cell(base, x, y1) == GRASS && world.generated_cell(base, x, y2)
            == GRASS),
{
    lemma_generated_cell(world, base, surface, x, y1);
    lemma_generated_cell(world, base, surface, x, y2);
    lemma_terrain_column_order(y1, y2, surface[x] as int);
}

/// Law: generation depends only on the world's size and the surface
/// heights: two worlds of equal size, generated from equal surface heights,
/// get equal chunks, tile for tile and in their origin and flags.
pub proof fn lemma_generation_deterministic(
    first: WorldData,
    first_base: int,
    second: WorldData,
    second_base: int,
    surface: Seq<i32>,
)
    requires
        0 <= first_base,
        0 <= second_base,
        first.width == second.width,
        first.height == second.height,
        first.generated_after(first_base, surface),
        second.generated_after(second_base, surface),
    ensures
        first.chunks@.len() - first_base == second.chunks@.len() - second_base,
        forall|k: int|
            0 <= k < first.chunks@.len() - first_base ==> {
                &&& #[trigger] first.chunks@[first_base + k].tiles@ == second.chunks@[second_base
                    + k].tiles@
                &&& first.chunks@[first_base + k].start_x == second.chunks@[second_base + k].start_x
                &&& first.chunks@[first_base + k].start_y == second.chunks@[second_base + k].start_y
                &&& first.chunks@[first_base + k].dirty == second.chunks@[second_base + k].dirty
            },
{
    let cols = generated_cols(first.width as int);
    assert forall|k: int| 0 <= k < first.chunks@.len() - first_base implies {
        &&& #[trigger] first.chunks@[first_base + k].tiles@ == second.chunks@[second_base + k].tiles@
        &&& first.chunks@[first_base + k].start_x == second.chunks@[second_base + k].start_x
        &&& first.chunks@[first_base + k].start_y == second.chunks@[second_base + k].start_y
        &&& first.chunks@[first_base + k].dirty == second.chunks@[second_base + k].dirty
    } by {
        let a = first.chunks@[first_base + k];
        let b = second.chunks@[second_base + k];
        assert((first_base + k - first_base) == k);
        assert((second_base + k - second_base) == k);
        assert(is_generated_chunk(a, surface, k / cols, k % cols));
        assert(is_generated_chunk(b, surface, k / cols, k % cols));
        assert(a.tiles@ =~= b.tiles@);
    }
}

/// The tiles of the chunk in chunk row `row` and chunk column `col`.
fn generate_chunk_tiles(row: i32, col: i32, surface_heights: &Vec<i32>) -> (tiles: Vec<TileId>)
    requires
        0 <= row,
        0 <= col,
        row * CHUNK_HEIGHT + CHUNK_HEIGHT - 1 <= i32::MAX,
        col * CHUNK_WIDTH + CHUNK_WIDTH <= surface_heights@.len(),
    ensures
        tiles@.len() == CHUNK_TILES,
        forall|i: int|
            0 <= i < CHUNK_TILES ==> #[trigger] tiles@[i] == generated_tile(
                surface_heights@,
                row as int,
                col as int,
                i,
            ),
{
    let mut tiles: Vec<TileId> = Vec::with_capacity(CHUNK_TILES);
    let mut local_y: i32 = 0;
    while local_y < CHUNK_HEIGHT
        invariant
            0 <= row,
            0 <= col,
            row * CHUNK_HEIGHT + CHUNK_HEIGHT - 1 <= i32::MAX,
            col * CHUNK_WIDTH + CHUNK_WIDTH <= surface_heights@.len(),
            0 <= local_y <= CHUNK_HEIGHT,
            tiles@.len() == local_y * CHUNK_WIDTH,
            forall|i: int|
                0 <= i < tiles@.len() ==> #[trigger] tiles@[i] == generated_tile(
                    surface_heights@,
                    row as int,
                    col as int,
                    i,
                ),
        decreases CHUNK_HEIGHT - local_y,
    {
        let mut local_x: i32 = 0;
        while local_x < CHUNK_WIDTH
            invariant
                0 <= row,
                0 <= col,
                row * CHUNK_HEIGHT + CHUNK_HEIGHT - 1 <= i32::MAX,
                col * CHUNK_WIDTH + CHUNK_WIDTH <= surface_heights@.len(),
                0 <= local_y < CHUNK_HEIGHT,
                0 <= local_x <= CHUNK_WIDTH,
                tiles@.len() == local_y * CHUNK_WIDTH + local_x,
                forall|i: int|
                    0 <= i < tiles@.len() ==> #[trigger] tiles@[i] == generated_tile(
                        surface_heights@,
                        row as int,
                        col as int,
                        i,
                    ),
            decreases CHUNK_WIDTH - local_x,
        {
            let available: usize = surface_heights.len();
            assert(col * CHUNK_WIDTH + local_x < available);
            let column: usize = col as usize * 200 + local_x as usize;
            let tile = terrain_tile(row * CHUNK_HEIGHT + local_y, surface_heights[column]);
            proof {
                let i = local_y * CHUNK_WIDTH + local_x;
                vstd::arithmetic::div_mod::lemma_fundamental_div_mod_converse(
                    i,
                    CHUNK_WIDTH as int,
                    local_y as int,
                    local_x as int,
                );
            }
            tiles.push(tile);
            local_x = local_x + 1;
        }
        local_y = local_y + 1;
    }
    tiles
}

/// Lays out the terrain: for every chunk cell of the world, row by row, a
/// chunk whose tile at world column `x` and height `y` is the terrain tile of
/// `y` under surface height `surface_heights[x]` (see `spec_terrain_tile`).
/// The new chunks are appended after those already present.
pub fn generate_world(world_data: &mut WorldData, surface_heights: &Vec<i32>)
    requires
        surface_heights@.len() >= generated_cols(old(world_data).width as int) * (
        CHUNK_WIDTH as int),
    ensures
        old(world_data).well_formed() ==> final(world_data).well_formed(),
        final(world_data).width == old(world_data).width,
        final(world_data).height == old(world_data).height,
        final(world_data).seed == old(world_data).seed,
        final(world_data).chunks_loading_marked == old(world_data).chunks_loading_marked,
        final(world_data).chunks_loaded == old(world_data).chunks_loaded,
        final(world_data).chunks_for_render == old(world_data).chunks_for_render,
        forall|k: int|
            0 <= k < old(world_data).chunks@.len() ==> #[trigger] final(world_data).chunks@[k]
                == old(world_data).chunks@[k],
        final(world_data).generated_after(old(world_data).chunks@.len() as int, surface_heights@),
        old(world_data).tiles_known() ==> final(world_data).tiles_known(),
{
    let ghost base = world_data.chunks@.len();
    let ghost old_chunks = world_data.chunks@;
    let rows: i32 = if world_data.height >= 0 { world_data.height / CHUNK_HEIGHT } else { 0 };
    let cols: i32 = if world_data.width >= 0 { world_data.width / CHUNK_WIDTH } else { 0 };
    let mut row: i32 = 0;
    while row < rows
        invariant
            0 <= row <= rows,
            rows == generated_rows(world_data.height as int),
            cols == generated_cols(world_data.width as int),
            surface_heights@.len() >= cols * CHUNK_WIDTH,
            old(world_data).well_formed() ==> world_data.well_formed(),
            world_data.width == old(world_data).width,
            world_data.height == old(world_data).height,
            world_data.seed == old(world_data).seed,
            world_data.chunks_loading_marked == old(world_data).chunks_loading_marked,
            world_data.chunks_loaded == old(world_data).chunks_loaded,
            world_data.chunks_for_render == old(world_data).chunks_for_render,
            base == old(world_data).chunks@.len(),
            old_chunks == old(world_data).chunks@,
            old(world_data).tiles_known() ==> world_data.tiles_known(),
            world_data.chunks@.len() == base + row * cols,
            forall|k: int| 0 <= k < base ==> #[trigger] world_data.chunks@[k] == old_chunks[k],
            forall|k: int|
                base <= k < world_data.chunks@.len() ==> is_generated_chunk(
                    #[trigger] world_data.chunks@[k],
                    surface_heights@,
                    (k - base) / (cols as int),
                    (k - base) % (cols as int),
                ),
        decreases rows - row,
    {
        let mut col: i32 = 0;
        while col < cols
            invariant
                0 <= row < rows,
                0 <= col <= cols,
                rows == generated_rows(world_data.height as int),
                cols == generated_cols(world_data.width as int),
                surface_heights@.len() >= cols * CHUNK_WIDTH,
                old(world_data).well_formed() ==> world_data.well_formed(),
                world_data.width == old(world_data).width,
                world_data.height == old(world_data).height,
                world_data.seed == old(world_data).seed,
                world_data.chunks_loading_marked == old(world_data).chunks_loading_marked,
                world_data.chunks_loaded == old(world_data).chunks_loaded,
                world_data.chunks_for_render == old(world_data).chunks_for_render,
                base == old(world_data).chunks@.len(),
                old_chunks == old(world_data).chunks@,
                old(world_data).tiles_known() ==> world_data.tiles_known(),
                world_data.chunks@.len() == base + row * cols + col,
                forall|k: int| 0 <= k < base ==> #[trigger] world_data.chunks@[k] == old_chunks[k],
                forall|k: int|
                    base <= k < world_data.chunks@.len() ==> is_generated_chunk(
                        #[trigger] world_data.chunks@[k],
                        surface_heights@,
                        (k - base) / (cols as int),
                        (k - base) % (cols as int),
                    ),
            decreases cols - col,
        {
            proof {
                assert(row * CHUNK_HEIGHT + CHUNK_HEIGHT <= world_data.height) by (nonlinear_arith)
                    requires
                        0 <= row < rows,
                        rows == world_data.height / 150,
                        world_data.height >= 0,
                ;
                assert(col * CHUNK_WIDTH + CHUNK_WIDTH <= cols * CHUNK_WIDTH) by (nonlinear_arith)
                    requires
                        0 <= col < cols,
                ;
                assert(col * CHUNK_WIDTH + CHUNK_WIDTH <= world_data.width) by (nonlinear_arith)
                    requires
                        0 <= col < cols,
                        cols == world_data.width / 200,
                        world_data.width >= 0,
                ;
            }
            let tiles = generate_chunk_tiles(row, col, surface_heights);
            let start_x: i64 = col as i64 * 200 * 16;
            let start_y: i64 = row as i64 * 150 * 16;
            let chunk = Chunk { tiles: tiles, dirty: false, start_x: start_x, start_y: start_y };
            proof {
                let k = base + row * cols + col;
                vstd::arithmetic::div_mod::lemma_fundamental_div_mod_converse(
                    k - base,
                    cols as int,
                    row as int,
                    col as int,
                );
                assert(is_generated_chunk(chunk, surface_heights@, row as int, col as int));
                assert forall|j: int| 0 <= j < chunk.tiles@.len() implies is_known_tile(
                    #[trigger] chunk.tiles@[j],
                ) by {
                    assert(chunk.tiles@[j] == generated_tile(
                        surface_heights@,
                        row as int,
                        col as int,
                        j,
                    ));
                }
            }
            world_data.chunks.push(chunk);
            col = col + 1;
        }
        proof {
            assert(base + row * cols + cols == base + (row + 1) * cols) by (nonlinear_arith);
        }
        row = row + 1;
    }
    assert(world_data.generated_after(base as int, surface_heights@));
}

} // verus!
