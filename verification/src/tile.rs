use vstd::prelude::*;

verus! {

/// The kinds of tiles a level cell can hold.
#[derive(Clone, Copy, PartialEq, Eq, Structural, Debug)]
pub enum Tile {
    /// Empty space the player can move through.
    Empty,
    /// Solid wall the player cannot move through.
    Wall,
    /// The trophy the player must collect before leaving.
    Trophy,
    /// The exit door the player must reach after collecting the trophy.
    Exit,
    /// A deadly hazard that kills the player on contact.
    Hazard,
    /// A collectible diamond worth points.
    Diamond,
}

} // verus!
