//! Effect stacking channels of the combat accumulator and their trace keys.

use vstd::prelude::*;
use crate::abilities::TimingWindow;

verus! {

/// Stacking channels of the per-shot effect accumulator, in declaration order.
#[derive(Debug, Clone, Copy, PartialEq, Eq, PartialOrd, Ord, Structural)]
pub enum EffectStatKey {
    PreAttackPierceBonus,
    DefenseMitigationBonus,
    PreAttackDamage,
    AttackPhaseDamage,
    RoundEndDamage,
    ApexShredBonus,
    ApexBarrierBonus,
    ShieldRegen,
    HullRegen,
    ShieldRegenMaxFraction,
    HullRegenMaxFraction,
    IsolyticDamageBonus,
    IsolyticDefenseBonus,
    IsolyticCascadeDamageBonus,
    ShieldMitigationBonus,
    ShieldMitigationBypass,
    AttackerShieldMitigationBonus,
}

/// Number of stacking channels.
pub const EFFECT_STAT_KEY_COUNT: usize = 17;

/// All channels in declaration order (the order of `index`).
pub const EFFECT_STAT_KEY_ALL: [EffectStatKey; EFFECT_STAT_KEY_COUNT] = [
    EffectStatKey::PreAttackPierceBonus,
    EffectStatKey::DefenseMitigationBonus,
    EffectStatKey::PreAttackDamage,
    EffectStatKey::AttackPhaseDamage,
    EffectStatKey::RoundEndDamage,
    EffectStatKey::ApexShredBonus,
    EffectStatKey::ApexBarrierBonus,
    EffectStatKey::ShieldRegen,
    EffectStatKey::HullRegen,
    EffectStatKey::ShieldRegenMaxFraction,
    EffectStatKey::HullRegenMaxFraction,
    EffectStatKey::IsolyticDamageBonus,
    EffectStatKey::IsolyticDefenseBonus,
    EffectStatKey::IsolyticCascadeDamageBonus,
    EffectStatKey::ShieldMitigationBonus,
    EffectStatKey::ShieldMitigationBypass,
    EffectStatKey::AttackerShieldMitigationBonus,
];

/// Position of a channel in declaration order.
pub open spec fn effect_stat_index(k: EffectStatKey) -> nat {
    match k {
        EffectStatKey::PreAttackPierceBonus => 0,
        EffectStatKey::DefenseMitigationBonus => 1,
        EffectStatKey::PreAttackDamage => 2,
        EffectStatKey::AttackPhaseDamage => 3,
        EffectStatKey::RoundEndDamage => 4,
        EffectStatKey::ApexShredBonus => 5,
        EffectStatKey::ApexBarrierBonus => 6,
        EffectStatKey::ShieldRegen => 7,
        EffectStatKey::HullRegen => 8,
        EffectStatKey::ShieldRegenMaxFraction => 9,
        EffectStatKey::HullRegenMaxFraction => 10,
        EffectStatKey::IsolyticDamageBonus => 11,
        EffectStatKey::IsolyticDefenseBonus => 12,
        EffectStatKey::IsolyticCascadeDamageBonus => 13,
        EffectStatKey::ShieldMitigationBonus => 14,
        EffectStatKey::ShieldMitigationBypass => 15,
        EffectStatKey::AttackerShieldMitigationBonus => 16,
    }
}

/// Trace key of a channel.
pub open spec fn effect_stat_trace_key(k: EffectStatKey) -> Seq<char> {
    match k {
        EffectStatKey::PreAttackPierceBonus => "pre_attack_pierce_bonus"@,
        EffectStatKey::DefenseMitigationBonus => "defense_mitigation_bonus"@,
        EffectStatKey::PreAttackDamage => "pre_attack_damage"@,
        EffectStatKey::AttackPhaseDamage => "attack_phase_damage"@,
        EffectStatKey::RoundEndDamage => "round_end_damage"@,
        EffectStatKey::ApexShredBonus => "apex_shred_bonus"@,
        EffectStatKey::ApexBarrierBonus => "apex_barrier_bonus"@,
        EffectStatKey::ShieldRegen => "shield_regen"@,
        EffectStatKey::HullRegen => "hull_regen"@,
        EffectStatKey::ShieldRegenMaxFraction => "shield_regen_max_fraction"@,
        EffectStatKey::HullRegenMaxFraction => "hull_regen_max_fraction"@,
        EffectStatKey::IsolyticDamageBonus => "isolytic_damage_bonus"@,
        EffectStatKey::IsolyticDefenseBonus => "isolytic_defense_bonus"@,
        EffectStatKey::IsolyticCascadeDamageBonus => "isolytic_cascade_damage_bonus"@,
        EffectStatKey::ShieldMitigationBonus => "shield_mitigation_bonus"@,
        EffectStatKey::ShieldMitigationBypass => "shield_mitigation_bypass"@,
        EffectStatKey::AttackerShieldMitigationBonus => "attacker_shield_mitigation_bonus"@,
    }
}

impl EffectStatKey {
    /// Position as an index into a fixed-size array of channels.
    pub fn index(self) -> (r: usize)
        ensures
            r == effect_stat_index(self),
            r < EFFECT_STAT_KEY_COUNT,
            EFFECT_STAT_KEY_ALL@[r as int] == self,
    {
        match self {
            EffectStatKey::PreAttackPierceBonus => 0,
            EffectStatKey::DefenseMitigationBonus => 1,
            EffectStatKey::PreAttackDamage => 2,
            EffectStatKey::AttackPhaseDamage => 3,
            EffectStatKey::RoundEndDamage => 4,
            EffectStatKey::ApexShredBonus => 5,
            EffectStatKey::ApexBarrierBonus => 6,
            EffectStatKey::ShieldRegen => 7,
            EffectStatKey::HullRegen => 8,
            EffectStatKey::ShieldRegenMaxFraction => 9,
            EffectStatKey::HullRegenMaxFraction => 10,
            EffectStatKey::IsolyticDamageBonus => 11,
            EffectStatKey::IsolyticDefenseBonus => 12,
            EffectStatKey::IsolyticCascadeDamageBonus => 13,
            EffectStatKey::ShieldMitigationBonus => 14,
            EffectStatKey::ShieldMitigationBypass => 15,
            EffectStatKey::AttackerShieldMitigationBonus => 16,
        }
    }

    pub fn as_trace_key(self) -> (r: &'static str)
        ensures
            r@ == effect_stat_trace_key(self),
    {
        match self {
            EffectStatKey::PreAttackPierceBonus => "pre_attack_pierce_bonus",
            EffectStatKey::DefenseMitigationBonus => "defense_mitigation_bonus",
            EffectStatKey::PreAttackDamage => "pre_attack_damage",
            EffectStatKey::AttackPhaseDamage => "attack_phase_damage",
            EffectStatKey::RoundEndDamage => "round_end_damage",
            EffectStatKey::ApexShredBonus => "apex_shred_bonus",
            EffectStatKey::ApexBarrierBonus => "apex_barrier_bonus",
            EffectStatKey::ShieldRegen => "shield_regen",
            EffectStatKey::HullRegen => "hull_regen",
            EffectStatKey::ShieldRegenMaxFraction => "shield_regen_max_fraction",
            EffectStatKey::HullRegenMaxFraction => "hull_regen_max_fraction",
            EffectStatKey::IsolyticDamageBonus => "isolytic_damage_bonus",
            EffectStatKey::IsolyticDefenseBonus => "isolytic_defense_bonus",
            EffectStatKey::IsolyticCascadeDamageBonus => "isolytic_cascade_damage_bonus",
            EffectStatKey::ShieldMitigationBonus => "shield_mitigation_bonus",
            EffectStatKey::ShieldMitigationBypass => "shield_mitigation_bypass",
            EffectStatKey::AttackerShieldMitigationBonus => "attacker_shield_mitigation_bonus",
        }
    }
}

/// `index` is a bijection between channels and `0..EFFECT_STAT_KEY_COUNT`: the table of all
/// channels lists each channel at its own index.
pub proof fn lemma_index_matches_table(i: int)
    requires
        0 <= i < 17,
    ensures
        effect_stat_index(EFFECT_STAT_KEY_ALL@[i]) == i,
{
}

/// Trace id of a timing window.
pub open spec fn timing_trace_name(t: TimingWindow) -> Seq<char> {
    match t {
        TimingWindow::CombatBegin => "combat_begin"@,
        TimingWindow::RoundStart => "round_start"@,
        TimingWindow::AttackPhase => "attack_phase"@,
        TimingWindow::AfterSubround => "after_subround"@,
        TimingWindow::DefensePhase => "defense_phase"@,
        TimingWindow::RoundEnd => "round_end"@,
        TimingWindow::ShieldBreak => "shield_break"@,
        TimingWindow::SelfShieldBreak => "self_shield_break"@,
        TimingWindow::Kill => "kill"@,
        TimingWindow::HullBreach => "hull_breach"@,
        TimingWindow::ReceiveDamage => "receive_damage"@,
        TimingWindow::CombatEnd => "combat_end"@,
    }
}

pub fn timing_trace_id(timing: TimingWindow) -> (r: &'static str)
    ensures
        r@ == timing_trace_name(timing),
{
    match timing {
        TimingWindow::CombatBegin => "combat_begin",
        TimingWindow::RoundStart => "round_start",
        TimingWindow::AttackPhase => "attack_phase",
        TimingWindow::AfterSubround => "after_subround",
        TimingWindow::DefensePhase => "defense_phase",
        TimingWindow::RoundEnd => "round_end",
        TimingWindow::ShieldBreak => "shield_break",
        TimingWindow::SelfShieldBreak => "self_shield_break",
        TimingWindow::Kill => "kill",
        TimingWindow::HullBreach => "hull_breach",
        TimingWindow::ReceiveDamage => "receive_damage",
        TimingWindow::CombatEnd => "combat_end",
    }
}

} // verus!
