use vstd::prelude::*;
use crate::tiles::{CHUNK_WIDTH, CHUNK_TILES, TILE_SIZE, AIR, TileId};
use crate::world::Chunk;

verus! {

/// Geometry of a chunk's tiles: four corners per drawn tile, in pixels
/// relative to the chunk's origin, the tile id each quad shows, and two
/// triangles per quad as indices into `positions`.
pub struct ChunkMesh {
    pub positions: Vec<(i32, i32)>,
    pub quad_tiles: Vec<TileId>,
    pub indices: Vec<u32>,
}

/// A tile to draw: its local column, local row and tile id.
pub type Quad = (int, int, TileId);

/// The tiles among the first `n` of a chunk that get drawn (all but air),
/// in storage order, each with its local column and row.
pub open spec fn spec_mesh_quads(tiles: Seq<TileId>, n: int) -> Seq<Quad>
    decreases n,
{
    if n <= 0 {
        Seq::empty()
    } else {
        let prev = spec_mesh_quads(tiles, n - 1);
        let t = tiles[n - 1];
        if t == AIR {
            prev
        } else {
            prev.push(((n - 1) % (CHUNK_WIDTH as int), (n - 1) / (CHUNK_WIDTH as int), t))
        }
    }
}

/// Corner `c` (counter-clockwise from the lower left) of the quad of the
/// tile at local column `x` and row `y`, in pixels.
pub open spec fn quad_corner(x: int, y: int, c: int) -> (int, int) {
    let px = x * (TILE_SIZE as int);
    let py = y * (TILE_SIZE as int);
    if c == 0 {
        (px, py)
    } else if c == 1 {
        (px + TILE_SIZE, py)
    } else if c == 2 {
        (px + TILE_SIZE, py + TILE_SIZE)
    } else {
        (px, py + TILE_SIZE)
    }
}

/// Index `j` of the triangle list: quad `j / 6` is drawn as the triangles
/// (0, 1, 2) and (0, 2, 3) of its four corners.
pub open spec fn triangle_index(j: int) -> int {
    let r = j % 6;
    let corner: int = if r == 0 || r == 3 {
        0
    } else if r == 1 {
        1
    } else if r == 2 || r == 4 {
        2
    } else {
        3
    };
    4 * (j / 6) + corner
}

impl ChunkMesh {
    /// The mesh draws exactly the quads `quads`, in order.
    pub open spec fn draws(&self, quads: Seq<Quad>) -> bool {
        let n = quads.len();
        &&& self.quad_tiles@.len() == n
        &&& self.positions@.len() == 4 * n
        &&& self.indices@.len() == 6 * n
        &&& forall|q: int| 0 <= q < n ==> #[trigger] self.quad_tiles@[q] == quads[q].2
        &&& forall|v: int|
            0 <= v < 4 * n ==> {
                let corner = quad_corner(quads[v / 4].0, quads[v / 4].1, v % 4);
                &&& (#[trigger] self.positions@[v]).0 == corner.0
                &&& self.positions@[v].1 == corner.1
            }
        &&& forall|j: int| 0 <= j < 6 * n ==> #[trigger] self.indices@[j] == triangle_index(j)
    }

    /// Triangle `t` (indices `3t`, `3t + 1`, `3t + 2`) turns counter-clockwise.
    pub open spec fn triangle_is_ccw(&self, t: int) -> bool {
        counter_clockwise(
            self.positions@[self.indices@[3 * t] as int],
            self.positions@[self.indices@[3 * t + 1] as int],
            self.positions@[self.indices@[3 * t + 2] as int],
        )
    }

    /// The buffers fit together: four positions and six indices per quad,
    /// every index names a position, and every triangle turns
    /// counter-clockwise.
    pub open spec fn well_shaped(&self) -> bool {
        &&& self.positions@.len() == 4 * self.quad_tiles@.len()
        &&& self.indices@.len() == 6 * self.quad_tiles@.len()
        &&& forall|j: int|
            0 <= j < self.indices@.len() ==> #[trigger] self.indices@[j] < self.positions@.len()
        &&& forall|t: int| 0 <= t && 3 * t + 2 < self.indices@.len() ==> #[trigger] self.triangle_is_ccw(t)
    }

    /// An empty mesh.
    pub fn new() -> (mesh: Self)
        ensures
            mesh.draws(Seq::empty()),
            mesh.well_shaped(),
    {
        ChunkMesh { positions: Vec::new(), quad_tiles: Vec::new(), indices: Vec::new() }
    }
}

/// The triangle `a`, `b`, `c` turns counter-clockwise (positive area).
pub open spec fn counter_clockwise(a: (i32, i32), b: (i32, i32), c: (i32, i32)) -> bool {
    (b.0 - a.0) * (c.1 - a.1) - (b.1 - a.1) * (c.0 - a.0) > 0
}

/// `after` is `before` with the quad of the tile at local column `x` and
/// row `y` appended: its four corners counter-clockwise from the lower left,
/// its tile id, and the triangles (0, 1, 2) and (0, 2, 3) of those corners.
pub open spec fn appends_quad(before: ChunkMesh, after: ChunkMesh, x: int, y: int, tile: TileId) -> bool {
    let base = before.positions@.len();
    &&& after.positions@ == before.positions@.push(((x * 16) as i32, (y * 16) as i32)).push(
        ((x * 16 + 16) as i32, (y * 16) as i32),
    ).push(((x * 16 + 16) as i32, (y * 16 + 16) as i32)).push(
        ((x * 16) as i32, (y * 16 + 16) as i32),
    )
    &&& after.quad_tiles@ == before.quad_tiles@.push(tile)
    &&& after.indices@ == before.indices@ + seq![
        base as u32,
        (base + 1) as u32,
        (base + 2) as u32,
        base as u32,
        (base + 2) as u32,
        (base + 3) as u32,
    ]
}

/// Law: appending a quad keeps the buffers fitting together (four positions
/// and six indices per quad, every index naming a position) and every
/// triangle turning counter-clockwise; both new triangles turn
/// counter-clockwise.
pub proof fn lemma_quad_keeps_mesh_well_shaped(
    before: ChunkMesh,
    after: ChunkMesh,
    x: int,
    y: int,
    tile: TileId,
)
    requires
        0 <= x,
        0 <= y,
        x * TILE_SIZE + TILE_SIZE <= i32::MAX,
        y * TILE_SIZE + TILE_SIZE <= i32::MAX,
        before.positions@.len() + 3 <= u32::MAX,
        before.well_shaped(),
        appends_quad(before, after, x, y, tile),
    ensures
        after.well_shaped(),
        after.triangle_is_ccw(2 * (before.quad_tiles@.len() as int)),
        after.triangle_is_ccw(2 * (before.quad_tiles@.len() as int) + 1),
{
    let n = before.quad_tiles@.len() as int;
    let b = before.positions@.len() as int;
    let m = before.indices@.len() as int;
    assert forall|j: int| 0 <= j < after.indices@.len() implies #[trigger] after.indices@[j]
        < after.positions@.len() by {
        if j < m {
            assert(after.indices@[j] == before.indices@[j]);
        }
    }
    let p0 = after.positions@[b];
    let p1 = after.positions@[b + 1];
    let p2 = after.positions@[b + 2];
    let p3 = after.positions@[b + 3];
    assert(p1.0 - p0.0 == 16 && p1.1 - p0.1 == 0);
    assert(p2.0 - p0.0 == 16 && p2.1 - p0.1 == 16);
    assert(p3.0 - p0.0 == 0 && p3.1 - p0.1 == 16);
    assert(counter_clockwise(p0, p1, p2));
    assert(counter_clockwise(p0, p2, p3));
    assert forall|t: int| 0 <= t && 3 * t + 2 < after.indices@.len() implies #[trigger] after.triangle_is_ccw(t) by {
        if 3 * t + 2 < m {
            assert(before.triangle_is_ccw(t));
            assert(after.indices@[3 * t] == before.indices@[3 * t]);
            assert(after.indices@[3 * t + 1] == before.indices@[3 * t + 1]);
            assert(after.indices@[3 * t + 2] == before.indices@[3 * t + 2]);
            assert(before.indices@[3 * t] < b);
            assert(before.indices@[3 * t + 1] < b);
            assert(before.indices@[3 * t + 2] < b);
        } else if 3 * t == m {
            assert(after.indices@[3 * t] == b);
            assert(after.indices@[3 * t + 1] == b + 1);
            assert(after.indices@[3 * t + 2] == b + 2);
        } else {
            assert(3 * t == m + 3);
            assert(after.indices@[3 * t] == b);
            assert(after.indices@[3 * t + 1] == b + 2);
            assert(after.indices@[3 * t + 2] == b + 3);
        }
    }
    assert(after.triangle_is_ccw(2 * n));
    assert(after.triangle_is_ccw(2 * n + 1));
}

/// Appends the quad of the tile at local column `x` and row `y`: its four
/// corners, its tile id and its two triangles.
pub fn add_tile_quad(x: usize, y: usize, tile: TileId, mesh: &mut ChunkMesh)
    requires
        x * TILE_SIZE + TILE_SIZE <= i32::MAX,
        y * TILE_SIZE + TILE_SIZE <= i32::MAX,
        old(mesh).positions@.len() + 3 <= u32::MAX,
    ensures
        appends_quad(*old(mesh), *final(mesh), x as int, y as int, tile),
        old(mesh).well_shaped() ==> final(mesh).well_shaped(),
{
    let base: u32 = mesh.positions.len() as u32;
    let px: i32 = (x * 16) as i32;
    let py: i32 = (y * 16) as i32;
    mesh.positions.push((px, py));
    mesh.positions.push((px + TILE_SIZE, py));
    mesh.positions.push((px + TILE_SIZE, py + TILE_SIZE));
    mesh.positions.push((px, py + TILE_SIZE));
    mesh.quad_tiles.push(tile);
    mesh.indices.push(base);
    mesh.indices.push(base + 1);
    mesh.indices.push(base + 2);
    mesh.indices.push(base);
    mesh.indices.push(base + 2);
    mesh.indices.push(base + 3);
    proof {
        let b = old(mesh).positions@.len();
        assert(mesh.positions@ =~= old(mesh).positions@.push(((x * 16) as i32, (y * 16) as i32)).push(
            ((x * 16 + 16) as i32, (y * 16) as i32),
        ).push(((x * 16 + 16) as i32, (y * 16 + 16) as i32)).push(
            ((x * 16) as i32, (y * 16 + 16) as i32),
        ));
        assert(mesh.quad_tiles@ =~= old(mesh).quad_tiles@.push(tile));
        assert(mesh.indices@ =~= old(mesh).indices@ + seq![
            b as u32,
            (b + 1) as u32,
            (b + 2) as u32,
            b as u32,
            (b + 2) as u32,
            (b + 3) as u32,
        ]);
        if old(mesh).well_shaped() {
            lemma_quad_keeps_mesh_well_shaped(*old(mesh), *mesh, x as int, y as int, tile);
        }
    }
}

/// Appending a tile's quad to a mesh that draws `quads` gives a mesh that
/// draws `quads` followed by that tile.
proof fn lemma_draws_after_quad(
    before: ChunkMesh,
    after: ChunkMesh,
    quads: Seq<Quad>,
    x: usize,
    y: usize,
    tile: TileId,
)
    requires
        before.draws(quads),
        x * TILE_SIZE + TILE_SIZE <= i32::MAX,
        y * TILE_SIZE + TILE_SIZE <= i32::MAX,
        before.positions@.len() + 3 <= u32::MAX,
        appends_quad(before, after, x as int, y as int, tile),
    ensures
        after.draws(quads.push((x as int, y as int, tile))),
{
    let n = quads.len() as int;
    let next = quads.push((x as int, y as int, tile));
    assert forall|v: int| 0 <= v < 4 * (n + 1) implies {
        let corner = quad_corner(next[v / 4].0, next[v / 4].1, v % 4);
        &&& (#[trigger] after.positions@[v]).0 == corner.0
        &&& after.positions@[v].1 == corner.1
    } by {
        if v < 4 * n {
            vstd::arithmetic::div_mod::lemma_fundamental_div_mod(v, 4);
            assert(v / 4 < n);
            assert(after.positions@[v] == before.positions@[v]);
        } else {
            vstd::arithmetic::div_mod::lemma_fundamental_div_mod_converse(v, 4, n, v - 4 * n);
        }
    }
    assert forall|j: int| 0 <= j < 6 * (n + 1) implies #[trigger] after.indices@[j]
        == triangle_index(j) by {
        if j < 6 * n {
            assert(after.indices@[j] == before.indices@[j]);
        } else {
            vstd::arithmetic::div_mod::lemma_fundamental_div_mod_converse(j, 6, n, j - 6 * n);
        }
    }
    assert forall|q: int| 0 <= q < n + 1 implies #[trigger] after.quad_tiles@[q] == next[q].2 by {
        if q < n {
            assert(after.quad_tiles@[q] == before.quad_tiles@[q]);
        }
    }
}

/// The mesh of a chunk: one quad for every tile that is not air, in
/// storage order (row by row, left to right).
pub fn build_chunk_mesh(chunk: &Chunk) -> (mesh: ChunkMesh)
    requires
        chunk.tiles@.len() >= CHUNK_TILES,
    ensures
        mesh.draws(spec_mesh_quads(chunk.tiles@, CHUNK_TILES as int)),
        mesh.well_shaped(),
{
    let mut mesh = ChunkMesh::new();
    let mut y: usize = 0;
    while y < 150
        invariant
            y <= 150,
            chunk.tiles@.len() >= CHUNK_TILES,
            mesh.well_shaped(),
            mesh.draws(spec_mesh_quads(chunk.tiles@, (y * 200) as int)),
            spec_mesh_quads(chunk.tiles@, (y * 200) as int).len() <= y * 200,
        decreases 150 - y,
    {
        let mut x: usize = 0;
        while x < 200
            invariant
                y < 150,
                x <= 200,
                chunk.tiles@.len() >= CHUNK_TILES,
                mesh.well_shaped(),
                mesh.draws(spec_mesh_quads(chunk.tiles@, (y * 200 + x) as int)),
                spec_mesh_quads(chunk.tiles@, (y * 200 + x) as int).len() <= y * 200 + x,
            decreases 200 - x,
        {
            let index: usize = y * 200 + x;
            let tile: TileId = chunk.tiles[index];
            let ghost quads = spec_mesh_quads(chunk.tiles@, index as int);
            proof {
                vstd::arithmetic::div_mod::lemma_fundamental_div_mod_converse(
                    index as int,
                    CHUNK_WIDTH as int,
                    y as int,
                    x as int,
                );
            }
            if tile != AIR {
                let ghost before = mesh;
                add_tile_quad(x, y, tile, &mut mesh);
                proof {
                    lemma_draws_after_quad(before, mesh, quads, x, y, tile);
                }
            }
            x = x + 1;
        }
        y = y + 1;
    }
    mesh
}

/// Storage position, inside its chunk, of the tile a quad shows.
pub open spec fn quad_slot(q: Quad) -> int {
    q.1 * (CHUNK_WIDTH as int) + q.0
}

/// Law: the quads of a chunk's mesh are exactly its non-air tiles, in
/// storage order: each quad shows the tile stored at its position, which is
/// not air; quads come in strictly increasing storage order (so no tile is
/// drawn twice); and every non-air tile is drawn.
pub proof fn lemma_mesh_quads_are_non_air_tiles(tiles: Seq<TileId>, n: int)
    requires
        0 <= n <= tiles.len(),
    ensures
        forall|q: int|
            0 <= q < spec_mesh_quads(tiles, n).len() ==> {
                let quad = #[trigger] spec_mesh_quads(tiles, n)[q];
                &&& 0 <= quad.0 < CHUNK_WIDTH
                &&& 0 <= quad_slot(quad) < n
                &&& quad.2 != AIR
                &&& tiles[quad_slot(quad)] == quad.2
            },
        forall|q1: int, q2: int|
            0 <= q1 < q2 < spec_mesh_quads(tiles, n).len() ==> quad_slot(
                #[trigger] spec_mesh_quads(tiles, n)[q1],
            ) < quad_slot(#[trigger] spec_mesh_quads(tiles, n)[q2]),
        forall|i: int|
            0 <= i < n && #[trigger] tiles[i] != AIR ==> exists|q: int|
                0 <= q < spec_mesh_quads(tiles, n).len() && quad_slot(
                    #[trigger] spec_mesh_quads(tiles, n)[q],
                ) == i,
    decreases n,
{
    if n > 0 {
        lemma_mesh_quads_are_non_air_tiles(tiles, n - 1);
        let prev = spec_mesh_quads(tiles, n - 1);
        let cur = spec_mesh_quads(tiles, n);
        vstd::arithmetic::div_mod::lemma_fundamental_div_mod(n - 1, CHUNK_WIDTH as int);
        assert forall|i: int| 0 <= i < n && #[trigger] tiles[i] != AIR implies exists|q: int|
            0 <= q < cur.len() && quad_slot(#[trigger] cur[q]) == i by {
            if i < n - 1 {
                let q = choose|q: int| 0 <= q < prev.len() && quad_slot(#[trigger] prev[q]) == i;
                assert(cur[q] == prev[q]);
            } else {
                let q = prev.len() as int;
                assert(quad_slot(cur[q]) == i);
            }
        }
        assert forall|q1: int, q2: int| 0 <= q1 < q2 < cur.len() implies quad_slot(
            #[trigger] cur[q1],
        ) < quad_slot(#[trigger] cur[q2]) by {
            assert(cur[q1] == prev[q1]);
            if q2 < prev.len() {
                assert(cur[q2] == prev[q2]);
            }
        }
        assert forall|q: int| 0 <= q < cur.len() implies {
            let quad = #[trigger] cur[q];
            &&& 0 <= quad.0 < CHUNK_WIDTH
            &&& 0 <= quad_slot(quad) < n
            &&& quad.2 != AIR
            &&& tiles[quad_slot(quad)] == quad.2
        } by {
            if q < prev.len() {
                assert(cur[q] == prev[q]);
            }
        }
    }
}

/// Law: a mesh that draws any list of quads only refers to vertices it
/// holds: every triangle index is below the number of positions.
pub proof fn lemma_mesh_indices_in_range(mesh: ChunkMesh, quads: Seq<Quad>)
    requires
        mesh.draws(quads),
    ensures
        forall|j: int|
            0 <= j < mesh.indices@.len() ==> #[trigger] mesh.indices@[j] < mesh.positions@.len(),
{
    assert forall|j: int| 0 <= j < mesh.indices@.len() implies #[trigger] mesh.indices@[j]
        < mesh.positions@.len() by {
        vstd::arithmetic::div_mod::lemma_fundamental_div_mod(j, 6);
        assert(j / 6 < quads.len());
    }
}

} // verus!
