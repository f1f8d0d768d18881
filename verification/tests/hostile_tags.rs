use kobayashi::hostile_tags::{
    hostile_tag_mask_for_slug, mask_from_slugs, required_mask_from_condition_slugs,
    HOSTILE_TAG_MASK_AGGREGATION_HOSTILE, HOSTILE_TAG_MASK_CONQUEROR_BORG,
    HOSTILE_TAG_MASK_CONQUEROR_BORG_OBLITERATOR, HOSTILE_TAG_MASK_CONQUEROR_BORG_SUPPRESSOR,
};

fn strings(v: &[&str]) -> Vec<String> {
    v.iter().map(|s| s.to_string()).collect()
}

#[test]
fn tag_bits_are_distinct_single_bits() {
    assert_eq!(HOSTILE_TAG_MASK_CONQUEROR_BORG, 1);
    assert_eq!(HOSTILE_TAG_MASK_CONQUEROR_BORG_SUPPRESSOR, 2);
    assert_eq!(HOSTILE_TAG_MASK_CONQUEROR_BORG_OBLITERATOR, 4);
    assert_eq!(HOSTILE_TAG_MASK_AGGREGATION_HOSTILE, 8);
}

#[test]
fn slug_lookup_normalizes_case_space_and_dashes() {
    assert_eq!(hostile_tag_mask_for_slug("conqueror_borg"), Some(1));
    assert_eq!(hostile_tag_mask_for_slug("  CONQUEROR-BORG  "), Some(1));
    assert_eq!(hostile_tag_mask_for_slug("Conqueror-Borg-Suppressor"), Some(2));
    assert_eq!(hostile_tag_mask_for_slug("conqueror_borg_obliterator"), Some(4));
    assert_eq!(hostile_tag_mask_for_slug("aggregation-hostile"), Some(8));
    assert_eq!(hostile_tag_mask_for_slug("AGGREGATION_HOSTILE\n"), Some(8));
    assert_eq!(hostile_tag_mask_for_slug("gorn_hunter"), None);
    assert_eq!(hostile_tag_mask_for_slug(""), None);
    assert_eq!(hostile_tag_mask_for_slug("conqueror borg"), None);
}

#[test]
fn mask_from_slugs_ors_known_and_ignores_unknown() {
    assert_eq!(mask_from_slugs(&[]), 0);
    assert_eq!(
        mask_from_slugs(&strings(&["conqueror_borg", "mystery", "Aggregation-Hostile"])),
        HOSTILE_TAG_MASK_CONQUEROR_BORG | HOSTILE_TAG_MASK_AGGREGATION_HOSTILE
    );
    assert_eq!(
        mask_from_slugs(&strings(&["conqueror_borg_suppressor", "conqueror_borg_suppressor"])),
        2
    );
}

#[test]
fn required_mask_is_none_when_any_slug_unknown() {
    assert_eq!(required_mask_from_condition_slugs(&[]), Some(0));
    assert_eq!(
        required_mask_from_condition_slugs(&strings(&["conqueror_borg", "CONQUEROR_BORG_OBLITERATOR"])),
        Some(5)
    );
    assert_eq!(
        required_mask_from_condition_slugs(&strings(&["conqueror_borg", "unknown_tag"])),
        None
    );
}

#[test]
fn mask_ignores_slug_order_and_repetition() {
    let a = strings(&["aggregation_hostile", "conqueror_borg", "x"]);
    let b = strings(&["conqueror_borg", "aggregation-hostile", "conqueror_borg", "y"]);
    assert_eq!(mask_from_slugs(&a), mask_from_slugs(&b));
    let all = strings(&[
        "conqueror_borg",
        "conqueror_borg_suppressor",
        "conqueror_borg_obliterator",
        "aggregation_hostile",
    ]);
    assert_eq!(mask_from_slugs(&all), 0xF);
    assert_eq!(mask_from_slugs(&all) & !0xF, 0);
}
