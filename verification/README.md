# tile_world

The world logic of a 2D tile sandbox game, verified with Verus.

- `src/tiles.rs`: chunk and tile constants, tile definitions, the terrain
  rule that turns a column's surface height into grass, dirt, stone and air.
- `src/world.rs`: the chunked world (`WorldData`), tile lookup, block
  placement, terrain generation from column surface heights, and the
  collision scan over a box of grid cells.
- `src/mesh.rs`: the geometry of a chunk's mesh: one quad per non-air tile.
- `src/player.rs`: the player's inventory, placing the selected block, and
  the decisions taken when horizontal movement is blocked.
- `app/`: the Bevy game around the library: windowing, rendering, input,
  Perlin noise for surface heights, and the floating-point physics.
