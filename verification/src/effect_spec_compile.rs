//! Compile canonical effect specs into engine runtime values: timing windows, static buff
//! operators, durations and target classification.

use vstd::prelude::*;
use crate::abilities::TimingWindow;
use crate::text::str_eq;

verus! {

/// Attribute key under which the raw normalized operator string of an officer spec is kept.
pub const OFFICER_SPEC_ATTR_LCARS_OP: &'static str = "kobayashi_lcars_normalize_op";

/// Canonical trigger tokens of an effect spec.
#[derive(Debug, Clone, Copy, PartialEq, Eq, Structural)]
pub enum AbilityTriggerSpec {
    CombatBegin,
    ShipLaunched,
    RoundStart,
    AttackPhase,
    AfterSubround,
    DefensePhase,
    RoundEnd,
    ShieldBreak,
    SelfShieldBreak,
    Kill,
    HullBreach,
    ReceiveDamage,
    CombatEnd,
}

/// Canonical operations of an effect spec.
#[derive(Debug, Clone, Copy, PartialEq, Eq, Structural)]
pub enum AbilityOperationSpec {
    Add,
    Multiply,
    /// Replace the value (the `set` operation).
    SetValue,
    Min,
    Max,
}

/// Canonical modifiers (the stat an effect spec changes).
#[derive(Debug, Clone, Copy, PartialEq, Eq, Structural)]
pub enum AbilityModifierSpec {
    Accuracy,
    ApexBarrier,
    ApexShred,
    CritChance,
    CritDamage,
    Dodge,
    ExtraAttackProc,
    HostileCritDamageReduction,
    HullHp,
    IsolyticCascadeDamage,
    IsolyticDamage,
    IsolyticDefense,
    MitigationAdditive,
    OfficerHullRegenFlat,
    OfficerHullRegenMaxFraction,
    OfficerHullRegenPrevRoundFraction,
    OfficerShieldRegenFlat,
    OfficerShieldRegenMaxFraction,
    OfficerShieldRegenPrevRoundFraction,
    Pierce,
    ShieldDeflection,
    ShieldHp,
    ShieldMitigation,
    ShotsBonus,
    StateAssimilated,
    StateBurning,
    StateHullBreach,
    StateMorale,
    WeaponDamage,
}

/// Canonical targets of an effect spec.
#[derive(Debug, Clone, Copy, PartialEq, Eq, Structural)]
pub enum AbilityTargetSpec {
    AttackerSelf,
    SelfShip,
    DefenderOpponent,
}

/// Duration of an effect spec.
#[derive(Debug, Clone, Copy, PartialEq, Eq, Structural)]
pub enum DurationSpec {
    Rounds { rounds: u32 },
    Stacks { stacks: u32 },
    Permanent,
}

/// The variant's name, as `Debug` prints it.
pub open spec fn trigger_name(x: AbilityTriggerSpec) -> Seq<char> {
    match x {
        AbilityTriggerSpec::CombatBegin => "CombatBegin"@,
        AbilityTriggerSpec::ShipLaunched => "ShipLaunched"@,
        AbilityTriggerSpec::RoundStart => "RoundStart"@,
        AbilityTriggerSpec::AttackPhase => "AttackPhase"@,
        AbilityTriggerSpec::AfterSubround => "AfterSubround"@,
        AbilityTriggerSpec::DefensePhase => "DefensePhase"@,
        AbilityTriggerSpec::RoundEnd => "RoundEnd"@,
        AbilityTriggerSpec::ShieldBreak => "ShieldBreak"@,
        AbilityTriggerSpec::SelfShieldBreak => "SelfShieldBreak"@,
        AbilityTriggerSpec::Kill => "Kill"@,
        AbilityTriggerSpec::HullBreach => "HullBreach"@,
        AbilityTriggerSpec::ReceiveDamage => "ReceiveDamage"@,
        AbilityTriggerSpec::CombatEnd => "CombatEnd"@,
    }
}

pub fn trigger_name_str(x: AbilityTriggerSpec) -> (r: &'static str)
    ensures
        r@ == trigger_name(x),
{
    match x {
        AbilityTriggerSpec::CombatBegin => "CombatBegin",
        AbilityTriggerSpec::ShipLaunched => "ShipLaunched",
        AbilityTriggerSpec::RoundStart => "RoundStart",
        AbilityTriggerSpec::AttackPhase => "AttackPhase",
        AbilityTriggerSpec::AfterSubround => "AfterSubround",
        AbilityTriggerSpec::DefensePhase => "DefensePhase",
        AbilityTriggerSpec::RoundEnd => "RoundEnd",
        AbilityTriggerSpec::ShieldBreak => "ShieldBreak",
        AbilityTriggerSpec::SelfShieldBreak => "SelfShieldBreak",
        AbilityTriggerSpec::Kill => "Kill",
        AbilityTriggerSpec::HullBreach => "HullBreach",
        AbilityTriggerSpec::ReceiveDamage => "ReceiveDamage",
        AbilityTriggerSpec::CombatEnd => "CombatEnd",
    }
}

/// The variant's name, as `Debug` prints it.
pub open spec fn operation_name(x: AbilityOperationSpec) -> Seq<char> {
    match x {
        AbilityOperationSpec::Add => "Add"@,
        AbilityOperationSpec::Multiply => "Multiply"@,
        AbilityOperationSpec::SetValue => "Set"@,
        AbilityOperationSpec::Min => "Min"@,
        AbilityOperationSpec::Max => "Max"@,
    }
}

pub fn operation_name_str(x: AbilityOperationSpec) -> (r: &'static str)
    ensures
        r@ == operation_name(x),
{
    match x {
        AbilityOperationSpec::Add => "Add",
        AbilityOperationSpec::Multiply => "Multiply",
        AbilityOperationSpec::SetValue => "Set",
        AbilityOperationSpec::Min => "Min",
        AbilityOperationSpec::Max => "Max",
    }
}

/// The variant's name, as `Debug` prints it.
pub open spec fn modifier_name(x: AbilityModifierSpec) -> Seq<char> {
    match x {
        AbilityModifierSpec::Accuracy => "Accuracy"@,
        AbilityModifierSpec::ApexBarrier => "ApexBarrier"@,
        AbilityModifierSpec::ApexShred => "ApexShred"@,
        AbilityModifierSpec::CritChance => "CritChance"@,
        AbilityModifierSpec::CritDamage => "CritDamage"@,
        AbilityModifierSpec::Dodge => "Dodge"@,
        AbilityModifierSpec::ExtraAttackProc => "ExtraAttackProc"@,
        AbilityModifierSpec::HostileCritDamageReduction => "HostileCritDamageReduction"@,
        AbilityModifierSpec::HullHp => "HullHp"@,
        AbilityModifierSpec::IsolyticCascadeDamage => "IsolyticCascadeDamage"@,
        AbilityModifierSpec::IsolyticDamage => "IsolyticDamage"@,
        AbilityModifierSpec::IsolyticDefense => "IsolyticDefense"@,
        AbilityModifierSpec::MitigationAdditive => "MitigationAdditive"@,
        AbilityModifierSpec::OfficerHullRegenFlat => "OfficerHullRegenFlat"@,
        AbilityModifierSpec::OfficerHullRegenMaxFraction => "OfficerHullRegenMaxFraction"@,
        AbilityModifierSpec::OfficerHullRegenPrevRoundFraction => "OfficerHullRegenPrevRoundFraction"@,
        AbilityModifierSpec::OfficerShieldRegenFlat => "OfficerShieldRegenFlat"@,
        AbilityModifierSpec::OfficerShieldRegenMaxFraction => "OfficerShieldRegenMaxFraction"@,
        AbilityModifierSpec::OfficerShieldRegenPrevRoundFraction => "OfficerShieldRegenPrevRoundFraction"@,
        AbilityModifierSpec::Pierce => "Pierce"@,
        AbilityModifierSpec::ShieldDeflection => "ShieldDeflection"@,
        AbilityModifierSpec::ShieldHp => "ShieldHp"@,
        AbilityModifierSpec::ShieldMitigation => "ShieldMitigation"@,
        AbilityModifierSpec::ShotsBonus => "ShotsBonus"@,
        AbilityModifierSpec::StateAssimilated => "StateAssimilated"@,
        AbilityModifierSpec::StateBurning => "StateBurning"@,
        AbilityModifierSpec::StateHullBreach => "StateHullBreach"@,
        AbilityModifierSpec::StateMorale => "StateMorale"@,
        AbilityModifierSpec::WeaponDamage => "WeaponDamage"@,
    }
}

pub fn modifier_name_str(x: AbilityModifierSpec) -> (r: &'static str)
    ensures
        r@ == modifier_name(x),
{
    match x {
        AbilityModifierSpec::Accuracy => "Accuracy",
        AbilityModifierSpec::ApexBarrier => "ApexBarrier",
        AbilityModifierSpec::ApexShred => "ApexShred",
        AbilityModifierSpec::CritChance => "CritChance",
        AbilityModifierSpec::CritDamage => "CritDamage",
        AbilityModifierSpec::Dodge => "Dodge",
        AbilityModifierSpec::ExtraAttackProc => "ExtraAttackProc",
        AbilityModifierSpec::HostileCritDamageReduction => "HostileCritDamageReduction",
        AbilityModifierSpec::HullHp => "HullHp",
        AbilityModifierSpec::IsolyticCascadeDamage => "IsolyticCascadeDamage",
        AbilityModifierSpec::IsolyticDamage => "IsolyticDamage",
        AbilityModifierSpec::IsolyticDefense => "IsolyticDefense",
        AbilityModifierSpec::MitigationAdditive => "MitigationAdditive",
        AbilityModifierSpec::OfficerHullRegenFlat => "OfficerHullRegenFlat",
        AbilityModifierSpec::OfficerHullRegenMaxFraction => "OfficerHullRegenMaxFraction",
        AbilityModifierSpec::OfficerHullRegenPrevRoundFraction => "OfficerHullRegenPrevRoundFraction",
        AbilityModifierSpec::OfficerShieldRegenFlat => "OfficerShieldRegenFlat",
        AbilityModifierSpec::OfficerShieldRegenMaxFraction => "OfficerShieldRegenMaxFraction",
        AbilityModifierSpec::OfficerShieldRegenPrevRoundFraction => "OfficerShieldRegenPrevRoundFraction",
        AbilityModifierSpec::Pierce => "Pierce",
        AbilityModifierSpec::ShieldDeflection => "ShieldDeflection",
        AbilityModifierSpec::ShieldHp => "ShieldHp",
        AbilityModifierSpec::ShieldMitigation => "ShieldMitigation",
        AbilityModifierSpec::ShotsBonus => "ShotsBonus",
        AbilityModifierSpec::StateAssimilated => "StateAssimilated",
        AbilityModifierSpec::StateBurning => "StateBurning",
        AbilityModifierSpec::StateHullBreach => "StateHullBreach",
        AbilityModifierSpec::StateMorale => "StateMorale",
        AbilityModifierSpec::WeaponDamage => "WeaponDamage",
    }
}

#[derive(Debug, Clone, PartialEq)]
pub enum EffectSpecCompileError {
    UnsupportedTrigger(AbilityTriggerSpec),
    UnsupportedModifierOperation { modifier: AbilityModifierSpec, operation: AbilityOperationSpec },
    MissingScalarValue,
    UnsupportedValueShape,
    UnknownFactionSlug(String),
    UnknownShipTypeSlug(String),
    UnknownEngagementSlug(String),
    EmptyConditionParts,
    StfcCcTokenNotCompilable { token: String },
}

/// The human-readable message of a compile error.
pub open spec fn error_message(e: EffectSpecCompileError) -> Seq<char> {
    match e {
        EffectSpecCompileError::UnsupportedTrigger(t) => "unsupported trigger "@ + trigger_name(t)
            + " for this compile path"@,
        EffectSpecCompileError::UnsupportedModifierOperation { modifier, operation } =>
            "unsupported modifier/operation pair: "@ + modifier_name(modifier) + " + "@
            + operation_name(operation),
        EffectSpecCompileError::MissingScalarValue => "value.scalar required for this compile path"@,
        EffectSpecCompileError::UnsupportedValueShape =>
            "by_rank / table values require LCARS resolution path"@,
        EffectSpecCompileError::UnknownFactionSlug(s) => "unknown defender faction slug '"@ + s@
            + "'"@,
        EffectSpecCompileError::UnknownShipTypeSlug(s) => "unknown ship class slug '"@ + s@ + "'"@,
        EffectSpecCompileError::UnknownEngagementSlug(s) => "unknown engagement enemy_type slug '"@
            + s@ + "'"@,
        EffectSpecCompileError::EmptyConditionParts => "condition list produced no runtime gates"@,
        EffectSpecCompileError::StfcCcTokenNotCompilable { token } =>
            "stfc.cc condition token has no AbilityCondition mapping yet: "@ + token@,
    }
}

fn concat3(a: &str, b: &str, c: &str) -> (r: String)
    ensures
        r@ == a@ + b@ + c@,
{
    let mut r = a.to_owned();
    r.append(b);
    r.append(c);
    r
}

impl EffectSpecCompileError {
    /// The error's message (what its `Display` renders).
    pub fn message(&self) -> (r: String)
        ensures
            r@ == error_message(*self),
    {
        match self {
            EffectSpecCompileError::UnsupportedTrigger(t) => concat3(
                "unsupported trigger ",
                trigger_name_str(*t),
                " for this compile path",
            ),
            EffectSpecCompileError::UnsupportedModifierOperation { modifier, operation } => {
                let mut r = concat3(
                    "unsupported modifier/operation pair: ",
                    modifier_name_str(*modifier),
                    " + ",
                );
                r.append(operation_name_str(*operation));
                r
            },
            EffectSpecCompileError::MissingScalarValue => "value.scalar required for this compile path".to_owned(),
            EffectSpecCompileError::UnsupportedValueShape =>
                "by_rank / table values require LCARS resolution path".to_owned(),
            EffectSpecCompileError::UnknownFactionSlug(s) => concat3(
                "unknown defender faction slug '",
                s.as_str(),
                "'",
            ),
            EffectSpecCompileError::UnknownShipTypeSlug(s) => concat3(
                "unknown ship class slug '",
                s.as_str(),
                "'",
            ),
            EffectSpecCompileError::UnknownEngagementSlug(s) => concat3(
                "unknown engagement enemy_type slug '",
                s.as_str(),
                "'",
            ),
            EffectSpecCompileError::EmptyConditionParts => "condition list produced no runtime gates".to_owned(),
            EffectSpecCompileError::StfcCcTokenNotCompilable { token } => {
                let mut r = "stfc.cc condition token has no AbilityCondition mapping yet: ".to_owned();
                r.append(token.as_str());
                r
            },
        }
    }
}

/// The timing window of a trigger; the default-ship trigger `ShipLaunched` is combat begin.
pub open spec fn timing_for_trigger(t: AbilityTriggerSpec) -> TimingWindow {
    match t {
        AbilityTriggerSpec::CombatBegin | AbilityTriggerSpec::ShipLaunched => TimingWindow::CombatBegin,
        AbilityTriggerSpec::RoundStart => TimingWindow::RoundStart,
        AbilityTriggerSpec::AttackPhase => TimingWindow::AttackPhase,
        AbilityTriggerSpec::AfterSubround => TimingWindow::AfterSubround,
        AbilityTriggerSpec::DefensePhase => TimingWindow::DefensePhase,
        AbilityTriggerSpec::RoundEnd => TimingWindow::RoundEnd,
        AbilityTriggerSpec::ShieldBreak => TimingWindow::ShieldBreak,
        AbilityTriggerSpec::SelfShieldBreak => TimingWindow::SelfShieldBreak,
        AbilityTriggerSpec::Kill => TimingWindow::Kill,
        AbilityTriggerSpec::HullBreach => TimingWindow::HullBreach,
        AbilityTriggerSpec::ReceiveDamage => TimingWindow::ReceiveDamage,
        AbilityTriggerSpec::CombatEnd => TimingWindow::CombatEnd,
    }
}

/// Map canonical trigger tokens to engine timing. Every trigger compiles.
pub fn compile_trigger(trigger: AbilityTriggerSpec) -> (r: Result<TimingWindow, EffectSpecCompileError>)
    ensures
        r == Ok::<TimingWindow, EffectSpecCompileError>(timing_for_trigger(trigger)),
{
    match trigger {
        AbilityTriggerSpec::CombatBegin | AbilityTriggerSpec::ShipLaunched => Ok(TimingWindow::CombatBegin),
        AbilityTriggerSpec::RoundStart => Ok(TimingWindow::RoundStart),
        AbilityTriggerSpec::AttackPhase => Ok(TimingWindow::AttackPhase),
        AbilityTriggerSpec::AfterSubround => Ok(TimingWindow::AfterSubround),
        AbilityTriggerSpec::DefensePhase => Ok(TimingWindow::DefensePhase),
        AbilityTriggerSpec::RoundEnd => Ok(TimingWindow::RoundEnd),
        AbilityTriggerSpec::ShieldBreak => Ok(TimingWindow::ShieldBreak),
        AbilityTriggerSpec::SelfShieldBreak => Ok(TimingWindow::SelfShieldBreak),
        AbilityTriggerSpec::Kill => Ok(TimingWindow::Kill),
        AbilityTriggerSpec::HullBreach => Ok(TimingWindow::HullBreach),
        AbilityTriggerSpec::ReceiveDamage => Ok(TimingWindow::ReceiveDamage),
        AbilityTriggerSpec::CombatEnd => Ok(TimingWindow::CombatEnd),
    }
}

/// Two triggers share a timing window only when they are equal or are the two combat-begin
/// tokens (`CombatBegin`, `ShipLaunched`).
pub proof fn lemma_trigger_timing_injective_except_ship_launched(
    a: AbilityTriggerSpec,
    b: AbilityTriggerSpec,
)
    requires
        timing_for_trigger(a) == timing_for_trigger(b),
    ensures
        a == b || (timing_for_trigger(a) == TimingWindow::CombatBegin && (a
            == AbilityTriggerSpec::CombatBegin || a == AbilityTriggerSpec::ShipLaunched) && (b
            == AbilityTriggerSpec::CombatBegin || b == AbilityTriggerSpec::ShipLaunched)),
{
}

/// How a static buff contribution combines with the accumulated value.
#[derive(Debug, Clone, Copy, PartialEq, Eq, Structural)]
pub enum StaticBuffOp {
    Add,
    Multiply,
}

/// The multiply family of normalized operator strings.
pub open spec fn is_multiply_family_op(op: Seq<char>) -> bool {
    op == "multiply"@ || op == "mul_add"@ || op == "multiplyadd"@ || op == "multiply_base_add"@
        || op == "multiplybaseadd"@
}

/// Classify a normalized operator string: the multiply family gives `Multiply`, everything
/// else (including unset, `add`, `sub`, `set`) folds as additive.
pub fn static_buff_op_from_lcars_op(normalized_op: &str) -> (r: StaticBuffOp)
    ensures
        r == (if is_multiply_family_op(normalized_op@) {
            StaticBuffOp::Multiply
        } else {
            StaticBuffOp::Add
        }),
{
    if str_eq(normalized_op, "multiply") || str_eq(normalized_op, "mul_add") || str_eq(
        normalized_op,
        "multiplyadd",
    ) || str_eq(normalized_op, "multiply_base_add") || str_eq(normalized_op, "multiplybaseadd") {
        StaticBuffOp::Multiply
    } else {
        StaticBuffOp::Add
    }
}

/// The target applies to the attacking ship (self-buff semantics).
pub open spec fn is_attacker_self_target(t: AbilityTargetSpec) -> bool {
    t == AbilityTargetSpec::AttackerSelf || t == AbilityTargetSpec::SelfShip
}

pub fn target_is_attacker_self(t: AbilityTargetSpec) -> (r: bool)
    ensures
        r == is_attacker_self_target(t),
{
    match t {
        AbilityTargetSpec::AttackerSelf | AbilityTargetSpec::SelfShip => true,
        _ => false,
    }
}

/// Rounds an officer effect lasts: a round or stack count of at least one, else `fallback`.
pub open spec fn duration_rounds_of(duration: Option<DurationSpec>, fallback: u32) -> u32 {
    match duration {
        Some(DurationSpec::Rounds { rounds }) => if rounds >= 1 { rounds } else { 1 },
        Some(DurationSpec::Stacks { stacks }) => if stacks >= 1 { stacks } else { 1 },
        Some(DurationSpec::Permanent) => fallback,
        None => fallback,
    }
}

pub fn officer_spec_duration_rounds(duration: Option<DurationSpec>, fallback: u32) -> (r: u32)
    ensures
        r == duration_rounds_of(duration, fallback),
{
    match duration {
        Some(DurationSpec::Rounds { rounds }) => if rounds >= 1 { rounds } else { 1 },
        Some(DurationSpec::Stacks { stacks }) => if stacks >= 1 { stacks } else { 1 },
        Some(DurationSpec::Permanent) => fallback,
        None => fallback,
    }
}

/// The operator string of an officer spec: the raw normalized operator kept under
/// `OFFICER_SPEC_ATTR_LCARS_OP` when it is a string, else the coarse operation's name.
pub open spec fn lcars_op_of(raw_attr: Option<Seq<char>>, operation: AbilityOperationSpec) -> Seq<char> {
    match raw_attr {
        Some(s) => s,
        None => match operation {
            AbilityOperationSpec::Multiply => "multiply"@,
            AbilityOperationSpec::SetValue => "set"@,
            AbilityOperationSpec::Min => "min"@,
            AbilityOperationSpec::Max => "max"@,
            _ => "add"@,
        },
    }
}

/// `lcars_op_attr` is the string value stored under `OFFICER_SPEC_ATTR_LCARS_OP` in the spec's
/// attributes, when that entry exists and is a JSON string.
pub fn lcars_op_from_officer_spec(lcars_op_attr: Option<&str>, operation: AbilityOperationSpec) -> (r: String)
    ensures
        r@ == lcars_op_of(
            match lcars_op_attr {
                Some(s) => Some(s@),
                None => None,
            },
            operation,
        ),
{
    match lcars_op_attr {
        Some(s) => s.to_owned(),
        None => match operation {
            AbilityOperationSpec::Multiply => "multiply".to_owned(),
            AbilityOperationSpec::SetValue => "set".to_owned(),
            AbilityOperationSpec::Min => "min".to_owned(),
            AbilityOperationSpec::Max => "max".to_owned(),
            _ => "add".to_owned(),
        },
    }
}

/// Officer effect durations: a round or stack count lasts that many rounds, at least one; a
/// permanent or missing duration lasts the fallback.
pub proof fn lemma_officer_duration_rounds(duration: Option<DurationSpec>, fallback: u32)
    ensures
        duration matches Some(DurationSpec::Rounds { rounds }) ==> duration_rounds_of(
            duration,
            fallback,
        ) >= 1 && (rounds >= 1 ==> duration_rounds_of(duration, fallback) == rounds) && (rounds
            == 0 ==> duration_rounds_of(duration, fallback) == 1),
        duration matches Some(DurationSpec::Stacks { stacks }) ==> duration_rounds_of(
            duration,
            fallback,
        ) >= 1 && (stacks >= 1 ==> duration_rounds_of(duration, fallback) == stacks) && (stacks
            == 0 ==> duration_rounds_of(duration, fallback) == 1),
        (duration is None || duration == Some(DurationSpec::Permanent)) ==> duration_rounds_of(
            duration,
            fallback,
        ) == fallback,
{
}

} // verus!
