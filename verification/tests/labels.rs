use kobayashi::abilities::TimingWindow;
use kobayashi::effect_accumulator::{timing_trace_id, EffectStatKey, EFFECT_STAT_KEY_ALL};
use kobayashi::engine::HullBreachSide;
use kobayashi::log_ingest::default_schema_version;
use kobayashi::simd_damage_kernel::{
    experimental_kernel_switch_enabled, validate_lengths, DamageKernelBatchError,
};
use kobayashi::snapshot::SnapshotAnchor;

#[test]
fn snapshot_anchor_names() {
    assert_eq!(SnapshotAnchor::AfterRoundStart.as_str(), "after_round_start");
    assert_eq!(SnapshotAnchor::BeforeOutboundShot.as_str(), "before_outbound_shot");
    assert_eq!(SnapshotAnchor::AfterOutboundDamage.as_str(), "after_outbound_damage");
    assert_eq!(SnapshotAnchor::AfterSubround.as_str(), "after_subround");
    assert_eq!(SnapshotAnchor::EndOfRoundPostEffects.as_str(), "end_of_round_post_effects");
}

#[test]
fn effect_stat_key_index_matches_table() {
    for (i, k) in EFFECT_STAT_KEY_ALL.iter().enumerate() {
        assert_eq!(k.index(), i);
    }
    assert_eq!(EffectStatKey::PreAttackPierceBonus.index(), 0);
    assert_eq!(EffectStatKey::AttackerShieldMitigationBonus.index(), 16);
    assert_eq!(EffectStatKey::ShieldRegen.as_trace_key(), "shield_regen");
    assert_eq!(
        EffectStatKey::IsolyticCascadeDamageBonus.as_trace_key(),
        "isolytic_cascade_damage_bonus"
    );
}

#[test]
fn timing_trace_ids() {
    assert_eq!(timing_trace_id(TimingWindow::CombatBegin), "combat_begin");
    assert_eq!(timing_trace_id(TimingWindow::SelfShieldBreak), "self_shield_break");
    assert_eq!(timing_trace_id(TimingWindow::ReceiveDamage), "receive_damage");
    assert_eq!(timing_trace_id(TimingWindow::CombatEnd), "combat_end");
}

#[test]
fn hull_breach_phase_labels() {
    assert_eq!(HullBreachSide::Defender.phase(), "hull_breach");
    assert_eq!(HullBreachSide::Attacker.phase(), "attacker_hull_breach");
}

#[test]
fn default_schema_version_is_one() {
    assert_eq!(default_schema_version(), 1);
}

#[test]
fn kernel_batch_length_check() {
    assert_eq!(validate_lengths(4, [4; 9], [4; 3]), Ok(()));
    assert_eq!(validate_lengths(0, [0; 9], [0; 3]), Ok(()));
    let mut ins = [4; 9];
    ins[8] = 3;
    assert_eq!(validate_lengths(4, ins, [4; 3]), Err(DamageKernelBatchError::LengthMismatch));
    let mut outs = [4; 3];
    outs[0] = 5;
    assert_eq!(validate_lengths(4, [4; 9], outs), Err(DamageKernelBatchError::LengthMismatch));
}

#[test]
fn experimental_kernel_switch_values() {
    for v in ["1", "true", " TRUE ", "Yes", "on\n", "ON"] {
        assert!(experimental_kernel_switch_enabled(Some(v)), "{v:?}");
    }
    for v in ["", "0", "false", "enabled", "o n", "yes please"] {
        assert!(!experimental_kernel_switch_enabled(Some(v)), "{v:?}");
    }
    assert!(!experimental_kernel_switch_enabled(None));
}
