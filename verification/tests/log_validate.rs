use kobayashi::log_validate::{validate_canonical_timeline, TimelineEvent, TimelineValidationOutcome};

fn ev(t: &str, round: u32, seq: Option<u32>) -> TimelineEvent {
    TimelineEvent { event_type: t.to_string(), round_index: round, sequence: seq }
}

fn clean_round(r: u32, s: u32) -> Vec<TimelineEvent> {
    vec![
        ev("round_start", r, Some(s)),
        ev("damage_application", r, Some(s + 1)),
        ev("end_of_round_effects", r, Some(s + 2)),
    ]
}

#[test]
fn legacy_log_without_sequences_is_not_checked() {
    let events = vec![ev("damage_application", 1, None), ev("round_start", 1, None)];
    assert_eq!(validate_canonical_timeline(1, &events), TimelineValidationOutcome::default());
}

#[test]
fn clean_strict_timeline_has_no_issues() {
    let mut events = clean_round(1, 1);
    events.extend(clean_round(2, 4));
    let out = validate_canonical_timeline(2, &events);
    assert!(out.errors.is_empty(), "{:?}", out.errors);
    assert!(out.warnings.is_empty());
}

#[test]
fn strict_damage_before_round_start() {
    let events = vec![ev("damage_application", 3, None), ev("round_start", 3, None)];
    let out = validate_canonical_timeline(2, &events);
    assert_eq!(out.errors, vec!["round 3: damage_application occurs before round_start"]);
    assert!(out.warnings.is_empty());
}

#[test]
fn partial_sequences_strict_errors_lenient_warnings() {
    let events = vec![
        ev("round_start", 1, Some(1)),
        ev("end_of_round_effects", 1, None),
        ev("damage_application", 1, Some(2)),
    ];
    let strict = validate_canonical_timeline(2, &events);
    let lenient = validate_canonical_timeline(1, &events);
    let expected = vec![
        "either all events must include sequence or none; got 2 of 3".to_string(),
        "round 1: end_of_round_effects must be the last event for that round in timeline order".to_string(),
    ];
    assert_eq!(strict.errors, expected);
    assert!(strict.warnings.is_empty());
    assert_eq!(lenient.warnings, expected);
    assert!(lenient.errors.is_empty());
}

#[test]
fn sequences_order_events_and_must_increase() {
    // timeline order by sequence: round_start(1), damage(2), end(3) despite array order
    let events = vec![
        ev("end_of_round_effects", 1, Some(3)),
        ev("damage_application", 1, Some(2)),
        ev("round_start", 1, Some(1)),
    ];
    let out = validate_canonical_timeline(2, &events);
    assert_eq!(
        out.errors,
        vec![
            "sequence must be strictly increasing: 2 follows 3",
            "sequence must be strictly increasing: 1 follows 2",
        ]
    );
    let lenient = validate_canonical_timeline(1, &events);
    assert!(lenient.errors.is_empty());
    assert_eq!(lenient.warnings, out.errors);
}

#[test]
fn lenient_mode_reports_sequence_order_as_warning() {
    let events = vec![ev("round_start", 1, Some(5)), ev("round_start", 2, Some(3))];
    let out = validate_canonical_timeline(1, &events);
    assert!(out.errors.is_empty());
    assert_eq!(out.warnings, vec!["sequence must be strictly increasing: 3 follows 5"]);
}

#[test]
fn multiple_end_effects_in_round() {
    let events = vec![
        ev("round_start", 5, Some(10)),
        ev("end_of_round_effects", 5, Some(11)),
        ev("end_of_round_effects", 5, Some(12)),
        ev("round_start", 2, Some(13)),
        ev("damage_application", 2, Some(13)),
    ];
    let out = validate_canonical_timeline(3, &events);
    assert_eq!(
        out.errors,
        vec![
            "sequence must be strictly increasing: 13 follows 13",
            "round 5: multiple end_of_round_effects entries",
            "round 5: end_of_round_effects must be the last event for that round in timeline order",
        ]
    );
}

#[test]
fn rounds_are_reported_in_ascending_order() {
    let events = vec![
        ev("damage_application", 9, None),
        ev("damage_application", 4, None),
        ev("round_start", 4, None),
    ];
    let out = validate_canonical_timeline(2, &events);
    assert_eq!(
        out.errors,
        vec![
            "round 4: damage_application occurs before round_start",
            "round 9: damage_application occurs before round_start",
        ]
    );
}
