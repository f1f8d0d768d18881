//! Small pieces of combat loop bookkeeping.

use vstd::prelude::*;

verus! {

/// Which side just entered hull breach; selects the context flag and the trace phase label.
#[derive(Debug, Clone, Copy, PartialEq, Eq, Structural)]
pub enum HullBreachSide {
    Defender,
    Attacker,
}

impl HullBreachSide {
    pub fn phase(self) -> (r: &'static str)
        ensures
            r@ == (match self {
                HullBreachSide::Defender => "hull_breach"@,
                HullBreachSide::Attacker => "attacker_hull_breach"@,
            }),
    {
        match self {
            HullBreachSide::Defender => "hull_breach",
            HullBreachSide::Attacker => "attacker_hull_breach",
        }
    }
}

} // verus!
