use kobayashi::abilities::{
    active_effects_for_timing, apply_defender_random_state_id, apply_duplicate_officer_policy,
    attacker_crew_tal_assigned_captain_or_bridge, can_activate_in_seat,
    pack_random_defender_state_outcomes, pick_weighted_state_id, random_defender_state_outcomes,
    AbilityClass, CrewSeat, TimingWindow, NO_EXPLICIT_CONTRIBUTION_BATCH,
    RANDOM_DEFENDER_STATE_OUTCOMES_CAP, TAL_OFFICER_LCARS_ID,
};

/// Stand-in for the simulator's effect payload.
#[derive(Debug, Clone, Copy, PartialEq)]
enum AbilityEffect {
    AttackMultiplier(f64),
    PierceBonus(f64),
}

type Ability = kobayashi::abilities::Ability<AbilityEffect, ()>;
type CrewSeatContext = kobayashi::abilities::CrewSeatContext<AbilityEffect, ()>;
type CrewConfiguration = kobayashi::abilities::CrewConfiguration<AbilityEffect, ()>;

fn make_ability(name: &str, class: AbilityClass, timing: TimingWindow, effect: AbilityEffect) -> Ability {
    Ability {
        name: name.to_string(),
        class,
        timing,
        boostable: true,
        effect,
        condition: None,
    }
}

fn make_seat(seat: CrewSeat, ability: Ability, officer_id: Option<&str>) -> CrewSeatContext {
    CrewSeatContext {
        seat,
        ability,
        boosted: false,
        officer_id: officer_id.map(|s| s.to_string()),
        contribution_batch: NO_EXPLICIT_CONTRIBUTION_BATCH,
    }
}

#[test]
fn captain_activates_in_captain_seat() {
    let ab = make_ability(
        "test",
        AbilityClass::CaptainManeuver,
        TimingWindow::CombatBegin,
        AbilityEffect::AttackMultiplier(0.1),
    );
    let seat = make_seat(CrewSeat::Captain, ab, None);
    assert!(can_activate_in_seat(&seat));
}

#[test]
fn bridge_ability_activates_in_bridge_seat() {
    let ab = make_ability(
        "test",
        AbilityClass::BridgeAbility,
        TimingWindow::CombatBegin,
        AbilityEffect::AttackMultiplier(0.1),
    );
    let seat = make_seat(CrewSeat::Bridge, ab, None);
    assert!(can_activate_in_seat(&seat));
}

#[test]
fn below_deck_activates_in_below_deck_seat() {
    let ab = make_ability(
        "test",
        AbilityClass::BelowDeck,
        TimingWindow::CombatBegin,
        AbilityEffect::AttackMultiplier(0.1),
    );
    let seat = make_seat(CrewSeat::BelowDeck, ab, None);
    assert!(can_activate_in_seat(&seat));
}

#[test]
fn captain_does_not_activate_in_bridge_seat() {
    let ab = make_ability(
        "test",
        AbilityClass::CaptainManeuver,
        TimingWindow::CombatBegin,
        AbilityEffect::AttackMultiplier(0.1),
    );
    let seat = make_seat(CrewSeat::Bridge, ab, None);
    assert!(!can_activate_in_seat(&seat));
}

#[test]
fn boosted_non_boostable_is_filtered_out() {
    let ab = Ability {
        boostable: false,
        ..make_ability(
            "test",
            AbilityClass::BridgeAbility,
            TimingWindow::CombatBegin,
            AbilityEffect::AttackMultiplier(0.1),
        )
    };
    let mut seat = make_seat(CrewSeat::Bridge, ab, None);
    seat.boosted = true;
    assert!(!can_activate_in_seat(&seat));
}

#[test]
fn boosted_boostable_is_allowed() {
    let ab = make_ability(
        "test",
        AbilityClass::BridgeAbility,
        TimingWindow::CombatBegin,
        AbilityEffect::AttackMultiplier(0.1),
    );
    let mut seat = make_seat(CrewSeat::Bridge, ab, None);
    seat.boosted = true;
    assert!(can_activate_in_seat(&seat));
}

#[test]
fn ship_ability_activates_in_ship_seat() {
    let ab = make_ability(
        "test",
        AbilityClass::ShipAbility,
        TimingWindow::CombatBegin,
        AbilityEffect::AttackMultiplier(0.1),
    );
    let seat = make_seat(CrewSeat::Ship, ab, None);
    assert!(can_activate_in_seat(&seat));
}

#[test]
fn active_effects_filters_by_timing() {
    let ab1 = make_ability(
        "a",
        AbilityClass::BridgeAbility,
        TimingWindow::CombatBegin,
        AbilityEffect::AttackMultiplier(0.1),
    );
    let ab2 = make_ability(
        "b",
        AbilityClass::BridgeAbility,
        TimingWindow::RoundStart,
        AbilityEffect::PierceBonus(0.05),
    );
    let crew = CrewConfiguration {
        seats: vec![
            make_seat(CrewSeat::Bridge, ab1, None),
            make_seat(CrewSeat::Bridge, ab2, None),
        ],
    };
    let effects = active_effects_for_timing(&crew, TimingWindow::CombatBegin);
    assert_eq!(effects.len(), 1);
    assert_eq!(effects[0].ability_name, "a");
}

#[test]
fn active_effects_returns_empty_when_no_match() {
    let ab = make_ability(
        "a",
        AbilityClass::BridgeAbility,
        TimingWindow::CombatBegin,
        AbilityEffect::AttackMultiplier(0.1),
    );
    let crew = CrewConfiguration {
        seats: vec![make_seat(CrewSeat::Bridge, ab, None)],
    };
    let effects = active_effects_for_timing(&crew, TimingWindow::RoundEnd);
    assert!(effects.is_empty());
}

#[test]
fn active_effects_respects_seat_activation_rules() {
    let ab_captain = make_ability(
        "cap",
        AbilityClass::CaptainManeuver,
        TimingWindow::CombatBegin,
        AbilityEffect::AttackMultiplier(0.1),
    );
    let crew = CrewConfiguration {
        seats: vec![make_seat(CrewSeat::Bridge, ab_captain, None)],
    };
    let effects = active_effects_for_timing(&crew, TimingWindow::CombatBegin);
    assert!(effects.is_empty());
}

#[test]
fn active_effects_copy_row_fields_in_crew_order() {
    let ab1 = make_ability(
        "first",
        AbilityClass::CaptainManeuver,
        TimingWindow::AttackPhase,
        AbilityEffect::PierceBonus(0.25),
    );
    let ab2 = make_ability(
        "second",
        AbilityClass::BridgeAbility,
        TimingWindow::AttackPhase,
        AbilityEffect::AttackMultiplier(0.5),
    );
    let mut s2 = make_seat(CrewSeat::Bridge, ab2, Some("spock"));
    s2.boosted = true;
    let crew = CrewConfiguration {
        seats: vec![make_seat(CrewSeat::Captain, ab1, Some("kirk")), s2],
    };
    let effects = active_effects_for_timing(&crew, TimingWindow::AttackPhase);
    assert_eq!(effects.len(), 2);
    assert_eq!(effects[0].ability_name, "first");
    assert_eq!(effects[0].officer_id.as_deref(), Some("kirk"));
    assert_eq!(effects[0].effect, AbilityEffect::PierceBonus(0.25));
    assert!(!effects[0].boosted);
    assert_eq!(effects[1].ability_name, "second");
    assert_eq!(effects[1].officer_id.as_deref(), Some("spock"));
    assert!(effects[1].boosted);
}

#[test]
fn duplicate_policy_empty_crew_returns_empty() {
    let crew = CrewConfiguration { seats: vec![] };
    let result = apply_duplicate_officer_policy(&crew);
    assert!(result.seats.is_empty());
}

#[test]
fn duplicate_policy_no_duplicates_preserves_all() {
    let ab = make_ability(
        "test",
        AbilityClass::BridgeAbility,
        TimingWindow::CombatBegin,
        AbilityEffect::AttackMultiplier(0.1),
    );
    let crew = CrewConfiguration {
        seats: vec![
            make_seat(CrewSeat::Bridge, ab.clone(), Some("officer_a")),
            make_seat(CrewSeat::Bridge, ab.clone(), Some("officer_b")),
        ],
    };
    let result = apply_duplicate_officer_policy(&crew);
    assert_eq!(result.seats.len(), 2);
}

#[test]
fn duplicate_policy_removes_later_group_with_same_officer() {
    let ab = make_ability(
        "test",
        AbilityClass::BridgeAbility,
        TimingWindow::CombatBegin,
        AbilityEffect::AttackMultiplier(0.1),
    );
    let crew = CrewConfiguration {
        seats: vec![
            make_seat(CrewSeat::Bridge, ab.clone(), Some("dup")),
            make_seat(CrewSeat::Bridge, ab.clone(), Some("other")),
            make_seat(CrewSeat::Bridge, ab.clone(), Some("dup")),
        ],
    };
    let result = apply_duplicate_officer_policy(&crew);
    assert_eq!(
        result.seats.len(),
        2,
        "third seat with duplicate 'dup' should be dropped"
    );
    assert_eq!(result.seats[0].officer_id.as_deref(), Some("dup"));
    assert_eq!(result.seats[1].officer_id.as_deref(), Some("other"));
}

#[test]
fn duplicate_policy_none_officer_id_always_included() {
    let ab = make_ability(
        "test",
        AbilityClass::BridgeAbility,
        TimingWindow::CombatBegin,
        AbilityEffect::AttackMultiplier(0.1),
    );
    let crew = CrewConfiguration {
        seats: vec![
            make_seat(CrewSeat::Bridge, ab.clone(), None),
            make_seat(CrewSeat::Bridge, ab.clone(), None),
        ],
    };
    let result = apply_duplicate_officer_policy(&crew);
    assert_eq!(result.seats.len(), 2);
}

#[test]
fn duplicate_policy_groups_consecutive_rows_and_batches() {
    let ab = |n: &str| {
        make_ability(
            n,
            AbilityClass::BridgeAbility,
            TimingWindow::CombatBegin,
            AbilityEffect::AttackMultiplier(0.1),
        )
    };
    let batched = |n: &str, id: Option<&str>, batch: u32| CrewSeatContext {
        contribution_batch: batch,
        ..make_seat(CrewSeat::Bridge, ab(n), id)
    };
    let crew = CrewConfiguration {
        seats: vec![
            // consecutive rows of one officer form one group, kept whole
            make_seat(CrewSeat::Bridge, ab("a1"), Some("a")),
            make_seat(CrewSeat::Bridge, ab("a2"), Some("a")),
            // a batch whose first row is officer b, including a row without officer
            batched("b1", Some("b"), 7),
            batched("b2", None, 7),
            // a later batch led by officer a is dropped, except its officer-less row
            batched("a3", Some("a"), 9),
            batched("x", None, 9),
            // a row without officer and without batch is always kept
            make_seat(CrewSeat::Bridge, ab("free"), None),
            // later single row of officer b is dropped
            make_seat(CrewSeat::Bridge, ab("b3"), Some("b")),
        ],
    };
    let result = apply_duplicate_officer_policy(&crew);
    let names: Vec<&str> = result.seats.iter().map(|s| s.ability.name.as_str()).collect();
    assert_eq!(names, vec!["a1", "a2", "b1", "b2", "x", "free"]);
    assert_eq!(result.seats[2].contribution_batch, 7);
}

#[test]
fn duplicate_policy_distinct_officers_keep_every_row() {
    let ab = make_ability(
        "t",
        AbilityClass::BelowDeck,
        TimingWindow::RoundStart,
        AbilityEffect::PierceBonus(0.2),
    );
    let crew = CrewConfiguration {
        seats: vec![
            make_seat(CrewSeat::BelowDeck, ab.clone(), Some("x")),
            make_seat(CrewSeat::BelowDeck, ab.clone(), None),
            make_seat(CrewSeat::BelowDeck, ab.clone(), Some("y")),
            make_seat(CrewSeat::BelowDeck, ab.clone(), Some("z")),
        ],
    };
    let result = apply_duplicate_officer_policy(&crew);
    assert_eq!(result, crew);
}

#[test]
fn tal_on_captain_is_detected() {
    let ab = make_ability(
        "tal_ability",
        AbilityClass::CaptainManeuver,
        TimingWindow::CombatBegin,
        AbilityEffect::AttackMultiplier(0.1),
    );
    let crew = CrewConfiguration {
        seats: vec![make_seat(CrewSeat::Captain, ab, Some(TAL_OFFICER_LCARS_ID))],
    };
    assert!(attacker_crew_tal_assigned_captain_or_bridge(&crew));
}

#[test]
fn tal_on_below_deck_is_not_detected() {
    let ab = make_ability(
        "tal_ability",
        AbilityClass::BelowDeck,
        TimingWindow::CombatBegin,
        AbilityEffect::AttackMultiplier(0.1),
    );
    let crew = CrewConfiguration {
        seats: vec![make_seat(
            CrewSeat::BelowDeck,
            ab,
            Some(TAL_OFFICER_LCARS_ID),
        )],
    };
    assert!(!attacker_crew_tal_assigned_captain_or_bridge(&crew));
}

#[test]
fn no_tal_returns_false() {
    let ab = make_ability(
        "test",
        AbilityClass::CaptainManeuver,
        TimingWindow::CombatBegin,
        AbilityEffect::AttackMultiplier(0.1),
    );
    let crew = CrewConfiguration {
        seats: vec![make_seat(CrewSeat::Captain, ab, Some("other_officer"))],
    };
    assert!(!attacker_crew_tal_assigned_captain_or_bridge(&crew));
}

#[test]
fn tal_on_bridge_is_detected() {
    let ab = make_ability(
        "tal_ability",
        AbilityClass::BridgeAbility,
        TimingWindow::CombatBegin,
        AbilityEffect::AttackMultiplier(0.1),
    );
    let crew = CrewConfiguration {
        seats: vec![
            make_seat(CrewSeat::Captain, ab.clone(), Some("kirk")),
            make_seat(CrewSeat::Bridge, ab, Some("tal-c3e4eb")),
        ],
    };
    assert!(attacker_crew_tal_assigned_captain_or_bridge(&crew));
}

#[test]
fn allowed_seat_per_class() {
    assert_eq!(AbilityClass::CaptainManeuver.allowed_seat(), CrewSeat::Captain);
    assert_eq!(AbilityClass::BridgeAbility.allowed_seat(), CrewSeat::Bridge);
    assert_eq!(AbilityClass::BelowDeck.allowed_seat(), CrewSeat::BelowDeck);
    assert_eq!(AbilityClass::ShipAbility.allowed_seat(), CrewSeat::Ship);
}

#[test]
fn legacy_row_has_no_officer_or_batch() {
    let ab = make_ability(
        "l",
        AbilityClass::ShipAbility,
        TimingWindow::Kill,
        AbilityEffect::AttackMultiplier(1.0),
    );
    let row = CrewSeatContext::legacy(CrewSeat::Ship, ab.clone(), true);
    assert_eq!(row.seat, CrewSeat::Ship);
    assert_eq!(row.ability, ab);
    assert!(row.boosted);
    assert_eq!(row.officer_id, None);
    assert_eq!(row.contribution_batch, NO_EXPLICIT_CONTRIBUTION_BATCH);
}

#[test]
fn random_state_outcomes_pack_and_prefix() {
    let pairs: Vec<(u32, u32)> = (1..=10).map(|i| (i, i * 10)).collect();
    let (n, table) = pack_random_defender_state_outcomes(&pairs);
    assert_eq!(n as usize, RANDOM_DEFENDER_STATE_OUTCOMES_CAP);
    assert_eq!(table[7], (8, 80));
    assert_eq!(random_defender_state_outcomes(n, &table), &pairs[..8]);

    let (n2, table2) = pack_random_defender_state_outcomes(&[(8, 1), (2, 3)]);
    assert_eq!(n2, 2);
    assert_eq!(table2[2], (0, 0));
    assert_eq!(table2[7], (0, 0));
    assert_eq!(random_defender_state_outcomes(n2, &table2), &[(8, 1), (2, 3)]);
    assert_eq!(random_defender_state_outcomes(200, &table2).len(), 8);
    assert!(random_defender_state_outcomes(0, &table2).is_empty());
}

#[test]
fn weighted_pick_walks_cumulative_weights() {
    let ws = [(8, 1), (4, 3)];
    assert_eq!(pick_weighted_state_id(&ws, 0), 8);
    assert_eq!(pick_weighted_state_id(&ws, 1), 4);
    assert_eq!(pick_weighted_state_id(&ws, 3), 4);
    assert_eq!(pick_weighted_state_id(&ws, 4), 8);
    assert_eq!(pick_weighted_state_id(&ws, 5), 4);
    assert_eq!(pick_weighted_state_id(&[(2, 0), (64, 5)], 2), 64);
    assert_eq!(pick_weighted_state_id(&[(2, 0), (4, 0)], 9), 2);
    assert_eq!(pick_weighted_state_id(&[], 9), 8);
    assert_eq!(
        pick_weighted_state_id(&[(2, u32::MAX), (4, u32::MAX)], u64::MAX),
        4
    );
}

#[test]
fn weighted_pick_never_returns_zero_weight_entry() {
    let ws = [(1, 0), (2, 2), (3, 0), (4, 5), (5, 0)];
    for draw in 0..100u64 {
        let id = pick_weighted_state_id(&ws, draw);
        assert!(id == 2 || id == 4, "draw {draw} gave {id}");
    }
}

#[test]
fn random_state_extends_matching_timer() {
    let (mut burning, mut breach, mut assim, mut morale) = (0u32, 5u32, 0u32, 1u32);
    assert_eq!(
        apply_defender_random_state_id(8, 3, &mut burning, &mut breach, &mut assim, &mut morale),
        "morale"
    );
    assert_eq!((burning, breach, assim, morale), (0, 5, 0, 3));
    assert_eq!(
        apply_defender_random_state_id(4, 2, &mut burning, &mut breach, &mut assim, &mut morale),
        "hull_breach"
    );
    assert_eq!(breach, 5);
    assert_eq!(
        apply_defender_random_state_id(2, 0, &mut burning, &mut breach, &mut assim, &mut morale),
        "burning"
    );
    assert_eq!(burning, 1);
    assert_eq!(
        apply_defender_random_state_id(64, 4, &mut burning, &mut breach, &mut assim, &mut morale),
        "assimilated"
    );
    assert_eq!(assim, 4);
    assert_eq!(
        apply_defender_random_state_id(7, 9, &mut burning, &mut breach, &mut assim, &mut morale),
        "unknown"
    );
    assert_eq!((burning, breach, assim, morale), (1, 5, 4, 3));
}

#[test]
fn duplicate_policy_keeps_officerless_row_of_dropped_batch() {
    let ab = make_ability(
        "t",
        AbilityClass::BridgeAbility,
        TimingWindow::CombatBegin,
        AbilityEffect::AttackMultiplier(0.1),
    );
    let row = |id: Option<&str>, batch: u32| CrewSeatContext {
        contribution_batch: batch,
        ..make_seat(CrewSeat::Bridge, ab.clone(), id)
    };
    let crew = CrewConfiguration {
        seats: vec![row(Some("x"), 5), row(Some("x"), 7), row(None, 7)],
    };
    let result = apply_duplicate_officer_policy(&crew);
    assert_eq!(result.seats, vec![crew.seats[0].clone(), crew.seats[2].clone()]);
}

#[test]
fn duplicate_policy_one_group_per_officer_in_order() {
    let ab = make_ability(
        "t",
        AbilityClass::BridgeAbility,
        TimingWindow::CombatBegin,
        AbilityEffect::AttackMultiplier(0.1),
    );
    let ids = [Some("x"), Some("x"), None, Some("y"), Some("x"), Some("y"), None, Some("z")];
    let crew = CrewConfiguration {
        seats: ids.iter().map(|id| make_seat(CrewSeat::Bridge, ab.clone(), *id)).collect(),
    };
    let result = apply_duplicate_officer_policy(&crew);
    let kept: Vec<Option<&str>> = result.seats.iter().map(|s| s.officer_id.as_deref()).collect();
    assert_eq!(kept, vec![Some("x"), Some("x"), None, Some("y"), None, Some("z")]);
    assert_eq!(apply_duplicate_officer_policy(&result), result);
}

#[test]
fn duplicate_policy_is_idempotent_with_batches() {
    let ab = make_ability(
        "t",
        AbilityClass::BridgeAbility,
        TimingWindow::CombatBegin,
        AbilityEffect::AttackMultiplier(0.1),
    );
    let officers = [None, Some("x"), Some("y")];
    let batches = [NO_EXPLICIT_CONTRIBUTION_BATCH, 5, 7];
    let mut state: u32 = 12345;
    for _ in 0..2000 {
        let mut seats = Vec::new();
        state = state.wrapping_mul(1_103_515_245).wrapping_add(12_345);
        let len = (state >> 16) % 8;
        for _ in 0..len {
            state = state.wrapping_mul(1_103_515_245).wrapping_add(12_345);
            let o = officers[((state >> 16) % 3) as usize];
            let b = batches[((state >> 20) % 3) as usize];
            seats.push(CrewSeatContext {
                contribution_batch: b,
                ..make_seat(CrewSeat::Bridge, ab.clone(), o)
            });
        }
        let crew = CrewConfiguration { seats };
        let once = apply_duplicate_officer_policy(&crew);
        assert_eq!(apply_duplicate_officer_policy(&once), once);
        for s in crew.seats.iter().filter(|s| s.officer_id.is_none()) {
            let n_in = crew.seats.iter().filter(|t| *t == s).count();
            let n_out = once.seats.iter().filter(|t| *t == s).count();
            assert_eq!(n_in, n_out);
        }
    }
}
