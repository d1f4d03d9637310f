use vstd::prelude::*;

verus! {

/// Default colours of player 1 and player 2.
pub const PLAYER_COLORS: [(u8, u8, u8); 2] = [(220, 40, 40), (220, 200, 0)];

/// Columns of space between two boards shown side by side.
pub const INSTANCE_GAP: u16 = 2;

} // verus!
