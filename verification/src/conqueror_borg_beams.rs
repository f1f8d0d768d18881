//! Quantum Resonance Beam (Conqueror Borg Suppressor) and Hyperthermic Resonance Beam
//! (Conqueror Borg Obliterator). Borg Sphere beam suppression disables both; the Borg Sphere
//! hull itself counts as suppression even when crew resolution omits the marker effect.

use vstd::prelude::*;
use crate::hostile_tags::{
    HOSTILE_TAG_MASK_CONQUEROR_BORG_OBLITERATOR, HOSTILE_TAG_MASK_CONQUEROR_BORG_SUPPRESSOR,
};
use crate::rng::{splitmix_advance, splitmix_mix, Rng};
use crate::text::{chars_eq_ignore_ascii_case, eq_ignore_ascii_case_seq, str_chars, trim_chars, trim_seq};

verus! {

/// The trimmed id equals `borg_sphere` up to ASCII case.
pub open spec fn is_borg_sphere_id(ship_id: Seq<char>) -> bool {
    eq_ignore_ascii_case_seq(trim_seq(ship_id), "borg_sphere"@)
}

/// True when the attacking ship is the Borg Sphere extended hull id (`borg_sphere`).
pub fn attacker_hull_is_borg_sphere(ship_id: &str) -> (r: bool)
    ensures
        r == is_borg_sphere_id(ship_id@),
{
    let t = trim_chars(ship_id);
    chars_eq_ignore_ascii_case(&t, &str_chars("borg_sphere"))
}

/// Suppression from the crew marker effect or from the Borg Sphere hull.
pub open spec fn effective_suppression(crew_suppression: bool, attacker_ship_id: Seq<char>) -> bool {
    crew_suppression || is_borg_sphere_id(attacker_ship_id)
}

/// The Quantum Resonance Beam destroys the attacker.
pub open spec fn quantum_beam_destroys(
    defender_is_npc_hostile: bool,
    defender_hostile_tag_mask: u32,
    effective_beam_suppression: bool,
    attacker_ship_id: Seq<char>,
) -> bool {
    defender_is_npc_hostile && !effective_beam_suppression && defender_hostile_tag_mask
        & HOSTILE_TAG_MASK_CONQUEROR_BORG_SUPPRESSOR != 0 && !is_borg_sphere_id(attacker_ship_id)
}

/// The Hyperthermic Resonance Beam destroys the attacker.
pub open spec fn hyperthermic_beam_destroys(
    defender_is_npc_hostile: bool,
    defender_hostile_tag_mask: u32,
    effective_beam_suppression: bool,
    attacker_ship_id: Seq<char>,
    seed: u64,
) -> bool {
    defender_is_npc_hostile && !effective_beam_suppression && defender_hostile_tag_mask
        & HOSTILE_TAG_MASK_CONQUEROR_BORG_OBLITERATOR != 0 && (!is_borg_sphere_id(attacker_ship_id)
        || hyperthermic_draw(seed) < HYPERTHERMIC_DECAY_CUTOFF)
}

/// Beam suppression from the crew marker effect, or implicit from the Borg Sphere hull.
pub fn effective_conqueror_borg_beam_suppression(
    crew_combat_begin_suppression: bool,
    attacker_ship_id: &str,
) -> (r: bool)
    ensures
        r == effective_suppression(crew_combat_begin_suppression, attacker_ship_id@),
{
    crew_combat_begin_suppression || attacker_hull_is_borg_sphere(attacker_ship_id)
}

/// Quantum Resonance Beam: destroys any player ship that is not a Borg Sphere when the beam
/// is active.
pub fn quantum_resonance_beam_instant_loss(
    defender_is_npc_hostile: bool,
    defender_hostile_tag_mask: u32,
    effective_beam_suppression: bool,
    attacker_ship_id: &str,
) -> (r: bool)
    ensures
        r == quantum_beam_destroys(
            defender_is_npc_hostile,
            defender_hostile_tag_mask,
            effective_beam_suppression,
            attacker_ship_id@,
        ),
{
    if !defender_is_npc_hostile || effective_beam_suppression {
        return false;
    }
    if defender_hostile_tag_mask & HOSTILE_TAG_MASK_CONQUEROR_BORG_SUPPRESSOR == 0 {
        return false;
    }
    !attacker_hull_is_borg_sphere(attacker_ship_id)
}

/// Seed salt of the Hyperthermic Decay roll.
pub const HYPERTHERMIC_SEED_SALT: u64 = 0x48425F48_54484D52;

/// A draw `u` is a hit when `u as f64 / u64::MAX as f64 < 0.8`. Under round-to-nearest-even
/// conversion of `u` to `f64` this holds exactly for the draws below this cut.
pub const HYPERTHERMIC_DECAY_CUTOFF: u64 = 14757395258967641088;

/// Whether one Hyperthermic Decay draw eliminates the hull (80% of draws).
pub fn hyperthermic_decay_draw_hits(u: u64) -> (r: bool)
    ensures
        r == (u < HYPERTHERMIC_DECAY_CUTOFF),
{
    u < HYPERTHERMIC_DECAY_CUTOFF
}

/// The first draw of the decay roll for `seed`.
pub open spec fn hyperthermic_draw(seed: u64) -> u64 {
    splitmix_mix(splitmix_advance(seed ^ HYPERTHERMIC_SEED_SALT))
}

/// Hyperthermic Resonance Beam: destroys non-Borg Sphere ships; against a Borg Sphere, the
/// seeded Hyperthermic Decay roll eliminates the hull 80% of the time when the beam is active.
pub fn hyperthermic_resonance_beam_instant_loss(
    defender_is_npc_hostile: bool,
    defender_hostile_tag_mask: u32,
    effective_beam_suppression: bool,
    attacker_ship_id: &str,
    seed: u64,
) -> (r: bool)
    ensures
        r == hyperthermic_beam_destroys(
            defender_is_npc_hostile,
            defender_hostile_tag_mask,
            effective_beam_suppression,
            attacker_ship_id@,
            seed,
        ),
{
    if !defender_is_npc_hostile || effective_beam_suppression {
        return false;
    }
    if defender_hostile_tag_mask & HOSTILE_TAG_MASK_CONQUEROR_BORG_OBLITERATOR == 0 {
        return false;
    }
    if !attacker_hull_is_borg_sphere(attacker_ship_id) {
        return true;
    }
    let mut r = Rng::new(seed ^ HYPERTHERMIC_SEED_SALT);
    let u = r.next_u64();
    hyperthermic_decay_draw_hits(u)
}

/// Beam suppression, whether from the crew marker or implied by the Borg Sphere hull,
/// disables both resonance beams: with the effective suppression that
/// `effective_conqueror_borg_beam_suppression` computes, neither beam destroys the attacker.
pub proof fn lemma_suppression_disables_both_beams(
    crew_suppression: bool,
    defender_is_npc_hostile: bool,
    defender_hostile_tag_mask: u32,
    attacker_ship_id: Seq<char>,
    seed: u64,
)
    requires
        effective_suppression(crew_suppression, attacker_ship_id),
    ensures
        !quantum_beam_destroys(
            defender_is_npc_hostile,
            defender_hostile_tag_mask,
            effective_suppression(crew_suppression, attacker_ship_id),
            attacker_ship_id,
        ),
        !hyperthermic_beam_destroys(
            defender_is_npc_hostile,
            defender_hostile_tag_mask,
            effective_suppression(crew_suppression, attacker_ship_id),
            attacker_ship_id,
            seed,
        ),
{
}

/// The Quantum Resonance Beam never destroys a Borg Sphere hull, whatever the suppression.
pub proof fn lemma_quantum_beam_spares_borg_sphere(
    defender_is_npc_hostile: bool,
    defender_hostile_tag_mask: u32,
    effective_beam_suppression: bool,
    attacker_ship_id: Seq<char>,
)
    requires
        is_borg_sphere_id(attacker_ship_id),
    ensures
        !quantum_beam_destroys(
            defender_is_npc_hostile,
            defender_hostile_tag_mask,
            effective_beam_suppression,
            attacker_ship_id,
        ),
{
}

/// Against a non-Borg-Sphere hull the Hyperthermic beam, when active, always destroys the
/// attacker; the seeded roll matters only for the Borg Sphere.
pub proof fn lemma_hyperthermic_roll_only_for_borg_sphere(
    defender_hostile_tag_mask: u32,
    attacker_ship_id: Seq<char>,
    seed1: u64,
    seed2: u64,
)
    requires
        !is_borg_sphere_id(attacker_ship_id),
    ensures
        hyperthermic_beam_destroys(true, defender_hostile_tag_mask, false, attacker_ship_id, seed1)
            == hyperthermic_beam_destroys(
            true,
            defender_hostile_tag_mask,
            false,
            attacker_ship_id,
            seed2,
        ),
{
}

/// The decay roll is decided by the seed and both outcomes occur: against an Obliterator,
/// unsuppressed, a Borg Sphere hull is destroyed for seed 0 and survives for seed 1.
pub proof fn lemma_hyperthermic_sphere_roll_both_outcomes(
    defender_hostile_tag_mask: u32,
    attacker_ship_id: Seq<char>,
)
    requires
        is_borg_sphere_id(attacker_ship_id),
        defender_hostile_tag_mask & HOSTILE_TAG_MASK_CONQUEROR_BORG_OBLITERATOR != 0,
    ensures
        hyperthermic_beam_destroys(true, defender_hostile_tag_mask, false, attacker_ship_id, 0),
        !hyperthermic_beam_destroys(true, defender_hostile_tag_mask, false, attacker_ship_id, 1),
{
    assert(0u64 ^ 0x48425F48_54484D52u64 == 0x48425f4854484d52u64) by (bit_vector);
    assert(0xe679d901d392c967u64 ^ (0xe679d901d392c967u64 >> 30u64) == 0xe679d9024a75ad60u64) by (bit_vector);
    assert(0xa38c80e7fca12a60u64 ^ (0xa38c80e7fca12a60u64 >> 27u64) == 0xa38c80f38d31369fu64) by (bit_vector);
    assert(0xb1597691223cb2f5u64 ^ (0xb1597691223cb2f5u64 >> 31u64) == 0xb1597690408e5fd7u64) by (bit_vector);
    lemma_hyperthermic_draw_steps(
        0,
        0x48425f4854484d52,
        0xe679d901d392c967,
        0xe679d9024a75ad60,
        0xa38c80e7fca12a60,
        0xa38c80f38d31369f,
        0xb1597691223cb2f5,
        0xb1597690408e5fd7,
    );
    assert(1u64 ^ 0x48425F48_54484D52u64 == 0x48425f4854484d53u64) by (bit_vector);
    assert(0xe679d901d392c968u64 ^ (0xe679d901d392c968u64 >> 30u64) == 0xe679d9024a75ad6fu64) by (bit_vector);
    assert(0xd9b8b04cae0aa037u64 ^ (0xd9b8b04cae0aa037u64 >> 27u64) == 0xd9b8b057991ca9a2u64) by (bit_vector);
    assert(0xe1503bfdf29579b6u64 ^ (0xe1503bfdf29579b6u64 >> 31u64) == 0xe1503bfc30350e4du64) by (bit_vector);
    lemma_hyperthermic_draw_steps(
        1,
        0x48425f4854484d53,
        0xe679d901d392c968,
        0xe679d9024a75ad6f,
        0xd9b8b04cae0aa037,
        0xd9b8b057991ca9a2,
        0xe1503bfdf29579b6,
        0xe1503bfc30350e4d,
    );
}

/// The draw of `seed`, step by step through the SplitMix64 finalizer.
proof fn lemma_hyperthermic_draw_steps(
    seed: u64,
    salted: u64,
    advanced: u64,
    x1: u64,
    m1: u64,
    x2: u64,
    m2: u64,
    out: u64,
)
    requires
        seed ^ HYPERTHERMIC_SEED_SALT == salted,
        salted as int + 0x9e3779b97f4a7c15 == advanced,
        advanced ^ (advanced >> 30u64) == x1,
        (x1 as nat * 0xbf58476d1ce4e5b9) % 0x1_0000_0000_0000_0000 == m1,
        m1 ^ (m1 >> 27u64) == x2,
        (x2 as nat * 0x94d049bb133111eb) % 0x1_0000_0000_0000_0000 == m2,
        m2 ^ (m2 >> 31u64) == out,
    ensures
        hyperthermic_draw(seed) == out,
{
}

/// The quantum resonance beam destroys the attacker exactly when the defender is an NPC
/// hostile tagged as a Suppressor, the beam is not suppressed, and the attacking hull is not a
/// Borg Sphere (its trimmed id is not `borg_sphere` up to ASCII case).
pub proof fn lemma_quantum_beam_rule(
    defender_is_npc_hostile: bool,
    defender_hostile_tag_mask: u32,
    effective_beam_suppression: bool,
    attacker_ship_id: Seq<char>,
)
    ensures
        quantum_beam_destroys(
            defender_is_npc_hostile,
            defender_hostile_tag_mask,
            effective_beam_suppression,
            attacker_ship_id,
        ) <==> (defender_is_npc_hostile && !effective_beam_suppression && defender_hostile_tag_mask
            & 0x2 != 0 && !eq_ignore_ascii_case_seq(trim_seq(attacker_ship_id), "borg_sphere"@)),
{
}

/// Against an unsuppressed Obliterator-tagged NPC hostile, every hull that is not a Borg Sphere
/// is destroyed whatever the seed; without those conditions no hull is.
pub proof fn lemma_hyperthermic_beam_gate(
    defender_is_npc_hostile: bool,
    defender_hostile_tag_mask: u32,
    effective_beam_suppression: bool,
    attacker_ship_id: Seq<char>,
    seed: u64,
)
    ensures
        !(defender_is_npc_hostile && !effective_beam_suppression && defender_hostile_tag_mask & 0x4
            != 0) ==> !hyperthermic_beam_destroys(
            defender_is_npc_hostile,
            defender_hostile_tag_mask,
            effective_beam_suppression,
            attacker_ship_id,
            seed,
        ),
        defender_is_npc_hostile && !effective_beam_suppression && defender_hostile_tag_mask & 0x4
            != 0 && !eq_ignore_ascii_case_seq(trim_seq(attacker_ship_id), "borg_sphere"@)
            ==> hyperthermic_beam_destroys(
            defender_is_npc_hostile,
            defender_hostile_tag_mask,
            effective_beam_suppression,
            attacker_ship_id,
            seed,
        ),
{
}

} // verus!
