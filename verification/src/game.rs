use vstd::prelude::*;
use crate::messages::Messages;
use crate::object::Object;
use crate::tile::TileMap;

verus! {

/// Greatest number of items the player can carry.
pub const INVENTORY_CAPACITY: usize = 26;

/// Everything a running game owns besides the objects on the map.
pub struct Game {
    pub map: TileMap,
    pub messages: Messages,
    pub inventory: Vec<Object>,
}

} // verus!
