//! Anchors and gating flags of combat state snapshots.

use vstd::prelude::*;

verus! {

/// Canonical points where the simulator records a full state row.
#[derive(Debug, Clone, Copy, PartialEq, Eq, Structural)]
pub enum SnapshotAnchor {
    /// After round-start regen, morale, and bench setup; before weapon sub-rounds.
    AfterRoundStart,
    /// After attack/defense phase effects merged for this weapon; before the outbound hit loop.
    BeforeOutboundShot,
    /// After each outbound damage application (per hit when multi-shot).
    AfterOutboundDamage,
    /// After after-subround crew effects and carry for this weapon index.
    AfterSubround,
    /// After round-end burning, bonus damage, regen, and duration tick-down.
    EndOfRoundPostEffects,
}

/// The snake_case name under which an anchor is serialized.
pub open spec fn anchor_name(a: SnapshotAnchor) -> Seq<char> {
    match a {
        SnapshotAnchor::AfterRoundStart => "after_round_start"@,
        SnapshotAnchor::BeforeOutboundShot => "before_outbound_shot"@,
        SnapshotAnchor::AfterOutboundDamage => "after_outbound_damage"@,
        SnapshotAnchor::AfterSubround => "after_subround"@,
        SnapshotAnchor::EndOfRoundPostEffects => "end_of_round_post_effects"@,
    }
}

impl SnapshotAnchor {
    pub fn as_str(self) -> (r: &'static str)
        ensures
            r@ == anchor_name(self),
    {
        match self {
            SnapshotAnchor::AfterRoundStart => "after_round_start",
            SnapshotAnchor::BeforeOutboundShot => "before_outbound_shot",
            SnapshotAnchor::AfterOutboundDamage => "after_outbound_damage",
            SnapshotAnchor::AfterSubround => "after_subround",
            SnapshotAnchor::EndOfRoundPostEffects => "end_of_round_post_effects",
        }
    }
}

/// Gating flags aligned with the combat context and round-local counters.
#[derive(Debug, Clone, PartialEq, Eq, Structural)]
pub struct CombatSnapshotFlags {
    pub attacker_morale_active: bool,
    pub defender_morale_active: bool,
    pub defender_burning_active: bool,
    pub attacker_burning_active: bool,
    pub defender_hull_breach_active: bool,
    pub attacker_hull_breach_active: bool,
    pub assimilated_rounds_remaining: u32,
    pub defender_assimilated_rounds_remaining: u32,
}

} // verus!
