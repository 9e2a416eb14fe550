use vstd::prelude::*;
use crate::tiles::{STONE, TileId};
use crate::world::WorldData;

verus! {

/// Facing direction: west.
pub const WEST: u16 = 1;
/// Facing direction: east.
pub const EAST: u16 = 0;

/// The blocks a player carries and which of them is selected.
pub struct PlayerInventory {
    pub items: Vec<TileId>,
    pub selected_item: usize,
}

impl PlayerInventory {
    /// What a player spawns with: a single stone block, selected.
    pub fn starting() -> (inventory: Self)
        ensures
            inventory.items@ == seq![STONE],
            inventory.selected_item == 0,
    {
        let mut items: Vec<TileId> = Vec::new();
        items.push(STONE);
        PlayerInventory { items, selected_item: 0 }
    }
}

/// Places the player's selected block at tile `(tile_x, tile_y)` when that
/// tile lies in the world's chunk grid (see `WorldData::place_block`);
/// otherwise changes nothing. Returns the chunk that changed.
pub fn place_block(
    world: &mut WorldData,
    tile_x: i32,
    tile_y: i32,
    inventory: &PlayerInventory,
) -> (placed: Option<usize>)
    requires
        old(world).well_formed(),
        old(world).in_chunk_grid(tile_x as int, tile_y as int) ==> {
            &&& old(world).chunk_index(tile_x as int, tile_y as int) < old(world).chunks@.len()
            &&& inventory.selected_item < inventory.items@.len()
        },
    ensures
        final(world).well_formed(),
        placed is Some <==> old(world).in_chunk_grid(tile_x as int, tile_y as int),
        placed is Some <==> 0 <= tile_x < (old(world).width as int) / 200 * 200 && 0 <= tile_y
            < (old(world).height as int) / 150 * 150,
        placed is None ==> *final(world) == *old(world),
        placed matches Some(i) ==> old(world).is_placement(
            &*final(world),
            tile_x as int,
            tile_y as int,
            inventory.items@[inventory.selected_item as int],
            i,
        ),
        placed is Some ==> final(world).tile_at(tile_x as int, tile_y as int)
            == inventory.items@[inventory.selected_item as int],
        forall|x: int, y: int|
            old(world).in_chunk_grid(x, y) && (x != tile_x || y != tile_y) ==> #[trigger] final(world).tile_at(x, y)
                == old(world).tile_at(x, y),
{
    match world.placement_chunk(tile_x, tile_y) {
        None => {
            assert forall|x: int, y: int|
                old(world).in_chunk_grid(x, y) && (x != tile_x || y != tile_y) implies #[trigger] world.tile_at(
                x,
                y,
            ) == old(world).tile_at(x, y) by {}
            None
        },
        Some(_) => {
            let block = inventory.items[inventory.selected_item];
            world.place_block(tile_x, tile_y, block)
        },
    }
}

/// What horizontal movement does in a frame.
#[derive(Clone, Copy, PartialEq, Eq, Structural)]
pub enum HorizontalMove {
    /// The next position is free: move there.
    Advance,
    /// The next position is blocked but the player stands on ground: try to
    /// climb a one-block step.
    TryStep,
    /// The next position is blocked in the air: horizontal speed drops to zero.
    Stop,
}

/// How a blocked horizontal move is resolved: move if the next position is
/// free, try a one-block step when grounded, stop otherwise.
pub fn horizontal_move(next_blocked: bool, grounded: bool) -> (decision: HorizontalMove)
    ensures
        decision == HorizontalMove::Advance <==> !next_blocked,
        decision == HorizontalMove::TryStep <==> next_blocked && grounded,
        decision == HorizontalMove::Stop <==> next_blocked && !grounded,
{
    if !next_blocked {
        HorizontalMove::Advance
    } else if grounded {
        HorizontalMove::TryStep
    } else {
        HorizontalMove::Stop
    }
}

/// Whether a one-block step is climbed: only when the position one tile up
/// is free and so is the position one tile up and one move forward; otherwise
/// horizontal speed drops to zero.
pub fn handle_one_block_step(head_blocked: bool, forward_blocked: bool) -> (climb: bool)
    ensures
        climb <==> !head_blocked && !forward_blocked,
{
    !head_blocked && !forward_blocked
}

} // verus!
