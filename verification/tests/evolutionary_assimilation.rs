use kobayashi::evolutionary_assimilation::{
    evolutionary_assimilation_instant_loss, officer_triggers_evolutionary_assimilation,
    EVOLUTIONARY_ASSIMILATION_FORBIDDEN_OFFICER_IDS,
};
use kobayashi::hostile_tags::{HOSTILE_TAG_MASK_CONQUEROR_BORG, HOSTILE_TAG_MASK_CONQUEROR_BORG_SUPPRESSOR};

fn roster(v: &[&str]) -> Vec<String> {
    v.iter().map(|s| s.to_string()).collect()
}

#[test]
fn forbidden_officers_match_ignoring_ascii_case() {
    for id in EVOLUTIONARY_ASSIMILATION_FORBIDDEN_OFFICER_IDS {
        assert!(officer_triggers_evolutionary_assimilation(id));
        assert!(officer_triggers_evolutionary_assimilation(&id.to_uppercase()));
    }
    assert!(!officer_triggers_evolutionary_assimilation("spock"));
    assert!(!officer_triggers_evolutionary_assimilation(""));
}

#[test]
fn assimilation_needs_borg_tag_no_suppression_and_forbidden_officer() {
    let bad = roster(&["spock", "Pike-1e7d0d"]);
    let clean = roster(&["spock", "kirk"]);
    assert!(evolutionary_assimilation_instant_loss(true, HOSTILE_TAG_MASK_CONQUEROR_BORG, false, &bad));
    assert!(!evolutionary_assimilation_instant_loss(true, HOSTILE_TAG_MASK_CONQUEROR_BORG, true, &bad));
    assert!(!evolutionary_assimilation_instant_loss(false, HOSTILE_TAG_MASK_CONQUEROR_BORG, false, &bad));
    assert!(!evolutionary_assimilation_instant_loss(true, HOSTILE_TAG_MASK_CONQUEROR_BORG_SUPPRESSOR, false, &bad));
    assert!(!evolutionary_assimilation_instant_loss(true, HOSTILE_TAG_MASK_CONQUEROR_BORG, false, &clean));
    assert!(!evolutionary_assimilation_instant_loss(true, HOSTILE_TAG_MASK_CONQUEROR_BORG, false, &[]));
}
