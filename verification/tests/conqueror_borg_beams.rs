use kobayashi::conqueror_borg_beams::{
    attacker_hull_is_borg_sphere, effective_conqueror_borg_beam_suppression,
    hyperthermic_decay_draw_hits, hyperthermic_resonance_beam_instant_loss,
    quantum_resonance_beam_instant_loss, HYPERTHERMIC_DECAY_CUTOFF, HYPERTHERMIC_SEED_SALT,
};
use kobayashi::hostile_tags::{
    HOSTILE_TAG_MASK_CONQUEROR_BORG, HOSTILE_TAG_MASK_CONQUEROR_BORG_OBLITERATOR,
    HOSTILE_TAG_MASK_CONQUEROR_BORG_SUPPRESSOR,
};
use kobayashi::rng::Rng;

#[test]
fn quantum_resonance_kills_non_sphere_vs_suppressor_when_unsuppressed() {
    assert!(quantum_resonance_beam_instant_loss(
        true,
        HOSTILE_TAG_MASK_CONQUEROR_BORG_SUPPRESSOR,
        false,
        "uss_voyager",
    ));
}

#[test]
fn quantum_resonance_spares_borg_sphere_hull_without_crew_marker() {
    assert!(!quantum_resonance_beam_instant_loss(
        true,
        HOSTILE_TAG_MASK_CONQUEROR_BORG_SUPPRESSOR,
        false,
        "borg_sphere",
    ));
}

#[test]
fn hyperthermic_kills_non_sphere_vs_obliterator() {
    assert!(hyperthermic_resonance_beam_instant_loss(
        true,
        HOSTILE_TAG_MASK_CONQUEROR_BORG_OBLITERATOR,
        false,
        "explorer",
        1,
    ));
}

#[test]
fn hyperthermic_borg_sphere_80_percent_is_deterministic_by_seed() {
    let hit = (0_u64..50_000).find(|&s| {
        hyperthermic_resonance_beam_instant_loss(
            true,
            HOSTILE_TAG_MASK_CONQUEROR_BORG_OBLITERATOR,
            false,
            "borg_sphere",
            s,
        )
    });
    let miss = (0_u64..50_000).find(|&s| {
        !hyperthermic_resonance_beam_instant_loss(
            true,
            HOSTILE_TAG_MASK_CONQUEROR_BORG_OBLITERATOR,
            false,
            "borg_sphere",
            s,
        )
    });
    assert!(hit.is_some() && miss.is_some());
}

fn float_rule(u: u64) -> bool {
    (u as f64 / u64::MAX as f64) < 0.8
}

#[test]
fn hyperthermic_cutoff_agrees_with_float_ratio_rule() {
    let c = HYPERTHERMIC_DECAY_CUTOFF;
    for u in [0, 1, c - 2, c - 1, c, c + 1, c + 2, u64::MAX - 1, u64::MAX] {
        assert_eq!(hyperthermic_decay_draw_hits(u), float_rule(u), "u={u}");
    }
    let mut r = Rng::new(99);
    for _ in 0..10_000 {
        let u = r.next_u64();
        assert_eq!(hyperthermic_decay_draw_hits(u), float_rule(u));
    }
}

#[test]
fn hyperthermic_borg_sphere_roll_uses_salted_seed() {
    for s in 0_u64..2_000 {
        let mut r = Rng::new(s ^ HYPERTHERMIC_SEED_SALT);
        let expected = float_rule(r.next_u64());
        assert_eq!(
            hyperthermic_resonance_beam_instant_loss(
                true,
                HOSTILE_TAG_MASK_CONQUEROR_BORG_OBLITERATOR,
                false,
                "borg_sphere",
                s,
            ),
            expected,
            "seed {s}"
        );
    }
}

#[test]
fn hyperthermic_known_seed_outcomes() {
    let hits = [0_u64, 3, 4, 6, 7, 8];
    let misses = [1_u64, 2, 5, 15, 19];
    for s in hits {
        assert!(hyperthermic_resonance_beam_instant_loss(
            true,
            HOSTILE_TAG_MASK_CONQUEROR_BORG_OBLITERATOR,
            false,
            "Borg_Sphere",
            s,
        ));
    }
    for s in misses {
        assert!(!hyperthermic_resonance_beam_instant_loss(
            true,
            HOSTILE_TAG_MASK_CONQUEROR_BORG_OBLITERATOR,
            false,
            "borg_sphere",
            s,
        ));
    }
}

#[test]
fn borg_sphere_id_is_trimmed_and_ascii_case_insensitive() {
    assert!(attacker_hull_is_borg_sphere("  BORG_SPHERE \t"));
    assert!(attacker_hull_is_borg_sphere("borg_sphere"));
    assert!(!attacker_hull_is_borg_sphere("borg-sphere"));
    assert!(!attacker_hull_is_borg_sphere("borg_sphere_2"));
    assert!(!attacker_hull_is_borg_sphere(""));
}

#[test]
fn suppression_disables_both_beams() {
    for ship in ["uss_voyager", "borg_sphere", "explorer"] {
        for crew in [false, true] {
            let eff = effective_conqueror_borg_beam_suppression(crew, ship);
            if eff {
                let mask = HOSTILE_TAG_MASK_CONQUEROR_BORG_SUPPRESSOR
                    | HOSTILE_TAG_MASK_CONQUEROR_BORG_OBLITERATOR;
                assert!(!quantum_resonance_beam_instant_loss(true, mask, eff, ship));
                for seed in 0..50 {
                    assert!(!hyperthermic_resonance_beam_instant_loss(true, mask, eff, ship, seed));
                }
            }
        }
    }
    assert!(effective_conqueror_borg_beam_suppression(false, "borg_sphere"));
    assert!(effective_conqueror_borg_beam_suppression(true, "uss_voyager"));
    assert!(!effective_conqueror_borg_beam_suppression(false, "uss_voyager"));
}

#[test]
fn beams_need_npc_hostile_and_their_tag_bit() {
    assert!(!quantum_resonance_beam_instant_loss(
        false,
        HOSTILE_TAG_MASK_CONQUEROR_BORG_SUPPRESSOR,
        false,
        "uss_voyager",
    ));
    assert!(!quantum_resonance_beam_instant_loss(
        true,
        HOSTILE_TAG_MASK_CONQUEROR_BORG_OBLITERATOR | HOSTILE_TAG_MASK_CONQUEROR_BORG,
        false,
        "uss_voyager",
    ));
    assert!(!hyperthermic_resonance_beam_instant_loss(
        true,
        HOSTILE_TAG_MASK_CONQUEROR_BORG_SUPPRESSOR,
        false,
        "explorer",
        1,
    ));
    assert!(!hyperthermic_resonance_beam_instant_loss(
        false,
        HOSTILE_TAG_MASK_CONQUEROR_BORG_OBLITERATOR,
        false,
        "explorer",
        1,
    ));
}

#[test]
fn hyperthermic_non_sphere_does_not_depend_on_seed() {
    for seed in 0..200 {
        assert!(hyperthermic_resonance_beam_instant_loss(
            true,
            HOSTILE_TAG_MASK_CONQUEROR_BORG_OBLITERATOR,
            false,
            "uss_enterprise",
            seed,
        ));
    }
}
