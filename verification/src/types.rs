//! Hull classes shared by the combat modules.

use vstd::prelude::*;

verus! {

/// Hull class of a ship.
#[derive(Debug, Clone, Copy, PartialEq, Eq, Hash, Structural)]
pub enum ShipType {
    Battleship,
    Explorer,
    Interceptor,
    Survey,
    Armada,
}

} // verus!
