use vstd::prelude::*;

verus! {

/// A coordinate pair as it appears in the inbound board description.
pub struct Coordinates {
    pub x: i32,
    pub y: i32,
}

/// One agent as described by the inbound board: an identity, the ordered
/// body coordinates (head first), the head coordinate and the body length.
pub struct Battlesnake {
    pub id: String,
    pub body: Vec<Coordinates>,
    pub head: Coordinates,
    pub length: u8,
}

/// The inbound board description: grid bounds, food and hazard cells, and
/// every agent on the board. Hazards are accepted but unused by the core.
pub struct Board {
    pub height: i32,
    pub width: i32,
    pub food: Vec<Coordinates>,
    pub hazards: Vec<Coordinates>,
    pub snakes: Vec<Battlesnake>,
}

} // verus!
