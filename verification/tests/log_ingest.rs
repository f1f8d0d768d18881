use kobayashi::log_ingest::{
    match_ingested_skeletons, trace_event_matches_skeleton, unmatched_event_message, TraceSkeleton,
};

fn sk(t: &str, round: u32, phase: &str, w: Option<u32>) -> TraceSkeleton {
    TraceSkeleton {
        event_type: t.to_string(),
        round_index: round,
        phase: phase.to_string(),
        weapon_index: w,
    }
}

#[test]
fn skeleton_match_compares_all_four_fields() {
    let a = sk("damage_application", 1, "attack", Some(0));
    assert!(trace_event_matches_skeleton(&a, &a.clone()));
    assert!(!trace_event_matches_skeleton(&a, &sk("damage_application", 2, "attack", Some(0))));
    assert!(!trace_event_matches_skeleton(&a, &sk("damage_application", 1, "defense", Some(0))));
    assert!(!trace_event_matches_skeleton(&a, &sk("damage_application", 1, "attack", None)));
    assert!(!trace_event_matches_skeleton(&a, &sk("round_start", 1, "attack", Some(0))));
}

#[test]
fn greedy_matching_in_order() {
    let sim = vec![
        sk("round_start", 1, "round_start", None),
        sk("damage_application", 1, "attack", Some(0)),
        sk("damage_application", 1, "attack", Some(1)),
        sk("round_start", 2, "round_start", None),
        sk("damage_application", 2, "attack", Some(0)),
    ];
    let ing = vec![
        sk("damage_application", 1, "attack", Some(1)),
        sk("round_start", 1, "round_start", None),
        sk("damage_application", 2, "attack", Some(0)),
    ];
    // the second ingested row would need a simulator row before the first match: none is left
    // after position 2 until round 2, so it exhausts the simulator rows
    assert_eq!(match_ingested_skeletons(&sim, &ing), vec![Some(2), None, None]);
    let ing2 = vec![
        sk("round_start", 1, "round_start", None),
        sk("damage_application", 1, "attack", Some(1)),
        sk("damage_application", 2, "attack", Some(0)),
    ];
    assert_eq!(match_ingested_skeletons(&sim, &ing2), vec![Some(0), Some(2), Some(4)]);
    assert_eq!(match_ingested_skeletons(&sim, &[]), Vec::<Option<usize>>::new());
    assert_eq!(match_ingested_skeletons(&[], &ing2), vec![None, None, None]);
}

#[test]
fn unmatched_message_text() {
    assert_eq!(
        unmatched_event_message(3, &sk("damage_application", 12, "attack", Some(2))),
        "ingested[3] damage_application phase=attack round=12 weapon=Some(2): no matching simulator event"
    );
    assert_eq!(
        unmatched_event_message(0, &sk("round_start", 0, "round_start", None)),
        format!("ingested[0] round_start phase=round_start round=0 weapon={:?}: no matching simulator event", None::<u32>)
    );
}
