use kobayashi::abilities::{AbilityClass, CrewSeat, TimingWindow, NO_EXPLICIT_CONTRIBUTION_BATCH};
use kobayashi::crew_nullification::{
    filter_crew_seats_for_crew_nullification, nullified_officer_id_set_for_mask,
    officer_id_nullified_by_crew_nullification, NULLIFIED_OFFICER_IDS,
};
use kobayashi::hostile_tags::{HOSTILE_TAG_MASK_CONQUEROR_BORG, HOSTILE_TAG_MASK_CREW_NULLIFICATION};

type Seat = kobayashi::abilities::CrewSeatContext<u8, ()>;

fn seat(name: &str, officer: Option<&str>) -> Seat {
    Seat {
        seat: CrewSeat::Bridge,
        ability: kobayashi::abilities::Ability {
            name: name.to_string(),
            class: AbilityClass::BridgeAbility,
            timing: TimingWindow::RoundStart,
            boostable: true,
            effect: 0,
            condition: None,
        },
        boosted: false,
        officer_id: officer.map(|s| s.to_string()),
        contribution_batch: NO_EXPLICIT_CONTRIBUTION_BATCH,
    }
}

#[test]
fn nullified_officers_match_ignoring_ascii_case() {
    assert!(officer_id_nullified_by_crew_nullification("kathryn-janeway-bd4a19"));
    assert!(officer_id_nullified_by_crew_nullification("PIKE-1E7D0D"));
    assert!(officer_id_nullified_by_crew_nullification("Ent-E-Picard-556227"));
    assert!(!officer_id_nullified_by_crew_nullification("kirk"));
    assert!(!officer_id_nullified_by_crew_nullification(" pike-1e7d0d"));
}

#[test]
fn nullified_set_only_when_active() {
    assert_eq!(nullified_officer_id_set_for_mask(HOSTILE_TAG_MASK_CREW_NULLIFICATION, false), None);
    assert_eq!(nullified_officer_id_set_for_mask(HOSTILE_TAG_MASK_CONQUEROR_BORG, true), None);
    let ids = nullified_officer_id_set_for_mask(
        HOSTILE_TAG_MASK_CREW_NULLIFICATION | HOSTILE_TAG_MASK_CONQUEROR_BORG,
        true,
    )
    .unwrap();
    let expected: Vec<String> = NULLIFIED_OFFICER_IDS.iter().map(|s| s.to_string()).collect();
    assert_eq!(ids, expected);
}

#[test]
fn crew_filter_drops_nullified_officer_rows_when_active() {
    let seats = vec![
        seat("a", Some("pike-1e7d0d")),
        seat("b", None),
        seat("c", Some("kirk")),
        seat("d", Some("kathryn-janeway-bd4a19")),
        seat("e", Some("PIKE-1E7D0D")),
    ];
    let kept = filter_crew_seats_for_crew_nullification(seats.clone(), HOSTILE_TAG_MASK_CREW_NULLIFICATION, true);
    let names: Vec<&str> = kept.iter().map(|s| s.ability.name.as_str()).collect();
    assert_eq!(names, vec!["b", "c", "e"]);
    let unchanged = filter_crew_seats_for_crew_nullification(seats.clone(), HOSTILE_TAG_MASK_CREW_NULLIFICATION, false);
    assert_eq!(unchanged, seats);
    let unchanged2 = filter_crew_seats_for_crew_nullification(seats.clone(), 0, true);
    assert_eq!(unchanged2, seats);
}
