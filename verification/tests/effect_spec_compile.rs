use kobayashi::abilities::TimingWindow;
use kobayashi::effect_spec_compile::{
    compile_trigger, lcars_op_from_officer_spec, officer_spec_duration_rounds,
    static_buff_op_from_lcars_op, target_is_attacker_self, AbilityModifierSpec,
    AbilityOperationSpec, AbilityTargetSpec, AbilityTriggerSpec, DurationSpec,
    EffectSpecCompileError, StaticBuffOp,
};

#[test]
fn ship_launched_maps_to_combat_begin() {
    assert_eq!(
        compile_trigger(AbilityTriggerSpec::ShipLaunched).unwrap(),
        TimingWindow::CombatBegin
    );
}

#[test]
fn compile_trigger_maps_every_token() {
    let table = [
        (AbilityTriggerSpec::CombatBegin, TimingWindow::CombatBegin),
        (AbilityTriggerSpec::ShipLaunched, TimingWindow::CombatBegin),
        (AbilityTriggerSpec::RoundStart, TimingWindow::RoundStart),
        (AbilityTriggerSpec::AttackPhase, TimingWindow::AttackPhase),
        (AbilityTriggerSpec::AfterSubround, TimingWindow::AfterSubround),
        (AbilityTriggerSpec::DefensePhase, TimingWindow::DefensePhase),
        (AbilityTriggerSpec::RoundEnd, TimingWindow::RoundEnd),
        (AbilityTriggerSpec::ShieldBreak, TimingWindow::ShieldBreak),
        (AbilityTriggerSpec::SelfShieldBreak, TimingWindow::SelfShieldBreak),
        (AbilityTriggerSpec::Kill, TimingWindow::Kill),
        (AbilityTriggerSpec::HullBreach, TimingWindow::HullBreach),
        (AbilityTriggerSpec::ReceiveDamage, TimingWindow::ReceiveDamage),
        (AbilityTriggerSpec::CombatEnd, TimingWindow::CombatEnd),
    ];
    for (t, w) in table {
        assert_eq!(compile_trigger(t), Ok(w));
    }
}

#[test]
fn compile_error_messages() {
    assert_eq!(
        EffectSpecCompileError::UnsupportedTrigger(AbilityTriggerSpec::ShieldBreak).message(),
        "unsupported trigger ShieldBreak for this compile path"
    );
    assert_eq!(
        EffectSpecCompileError::UnsupportedModifierOperation {
            modifier: AbilityModifierSpec::ShieldMitigation,
            operation: AbilityOperationSpec::SetValue,
        }
        .message(),
        "unsupported modifier/operation pair: ShieldMitigation + Set"
    );
    assert_eq!(
        EffectSpecCompileError::MissingScalarValue.message(),
        "value.scalar required for this compile path"
    );
    assert_eq!(
        EffectSpecCompileError::UnsupportedValueShape.message(),
        "by_rank / table values require LCARS resolution path"
    );
    assert_eq!(
        EffectSpecCompileError::UnknownFactionSlug("romulan".to_string()).message(),
        "unknown defender faction slug 'romulan'"
    );
    assert_eq!(
        EffectSpecCompileError::UnknownShipTypeSlug("frigate".to_string()).message(),
        "unknown ship class slug 'frigate'"
    );
    assert_eq!(
        EffectSpecCompileError::UnknownEngagementSlug("x".to_string()).message(),
        "unknown engagement enemy_type slug 'x'"
    );
    assert_eq!(
        EffectSpecCompileError::EmptyConditionParts.message(),
        "condition list produced no runtime gates"
    );
    assert_eq!(
        EffectSpecCompileError::StfcCcTokenNotCompilable { token: "cc:foo".to_string() }.message(),
        "stfc.cc condition token has no AbilityCondition mapping yet: cc:foo"
    );
}

#[test]
fn static_buff_op_classifies_multiply_family() {
    for op in ["multiply", "mul_add", "multiplyadd", "multiply_base_add", "multiplybaseadd"] {
        assert_eq!(static_buff_op_from_lcars_op(op), StaticBuffOp::Multiply, "{op}");
    }
    for op in ["", "add", "sub", "set", "Multiply", " multiply"] {
        assert_eq!(static_buff_op_from_lcars_op(op), StaticBuffOp::Add, "{op}");
    }
}

#[test]
fn attacker_self_targets() {
    assert!(target_is_attacker_self(AbilityTargetSpec::AttackerSelf));
    assert!(target_is_attacker_self(AbilityTargetSpec::SelfShip));
    assert!(!target_is_attacker_self(AbilityTargetSpec::DefenderOpponent));
}

#[test]
fn officer_duration_rounds_floor_and_fallback() {
    assert_eq!(officer_spec_duration_rounds(Some(DurationSpec::Rounds { rounds: 3 }), 9), 3);
    assert_eq!(officer_spec_duration_rounds(Some(DurationSpec::Rounds { rounds: 0 }), 9), 1);
    assert_eq!(officer_spec_duration_rounds(Some(DurationSpec::Stacks { stacks: 4 }), 9), 4);
    assert_eq!(officer_spec_duration_rounds(Some(DurationSpec::Stacks { stacks: 0 }), 9), 1);
    assert_eq!(officer_spec_duration_rounds(Some(DurationSpec::Permanent), 9), 9);
    assert_eq!(officer_spec_duration_rounds(None, 5), 5);
}

#[test]
fn lcars_op_prefers_raw_attribute() {
    assert_eq!(
        lcars_op_from_officer_spec(Some("multiply_base_add"), AbilityOperationSpec::Add),
        "multiply_base_add"
    );
    assert_eq!(lcars_op_from_officer_spec(None, AbilityOperationSpec::Multiply), "multiply");
    assert_eq!(lcars_op_from_officer_spec(None, AbilityOperationSpec::SetValue), "set");
    assert_eq!(lcars_op_from_officer_spec(None, AbilityOperationSpec::Min), "min");
    assert_eq!(lcars_op_from_officer_spec(None, AbilityOperationSpec::Max), "max");
    assert_eq!(lcars_op_from_officer_spec(None, AbilityOperationSpec::Add), "add");
}
