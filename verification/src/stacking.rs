//! Stacking categories of effect contributions.

use vstd::prelude::*;

verus! {

#[derive(Debug, Clone, Copy, PartialEq, Eq, Structural)]
pub enum StackCategory {
    /// Base contribution (`A`).
    Base,
    /// Multiplicative modifier contribution (`B`).
    Modifier,
    /// Flat additive contribution (`C`).
    Flat,
}

} // verus!
