//! Evolutionary Assimilation: if certain officers are on the attacking roster against a
//! Conqueror Borg NPC hostile, the hostile destroys the attacking ship before normal combat
//! resolution (unless Borg beam suppression is active).

use vstd::prelude::*;
use crate::hostile_tags::HOSTILE_TAG_MASK_CONQUEROR_BORG;
use crate::text::{eq_ignore_ascii_case_seq, str_eq_ignore_ascii_case};

verus! {

/// Canonical officer ids that trigger instant loss vs Conqueror Borg when on the attacking roster.
pub const EVOLUTIONARY_ASSIMILATION_FORBIDDEN_OFFICER_IDS: [&'static str; 3] = [
    "kathryn-janeway-bd4a19",
    "ent-e-picard-556227",
    "pike-1e7d0d",
];

/// `id` names a forbidden officer, up to ASCII case.
pub open spec fn is_forbidden_officer(id: Seq<char>) -> bool {
    exists|i: int|
        0 <= i < 3 && eq_ignore_ascii_case_seq(
            #[trigger] EVOLUTIONARY_ASSIMILATION_FORBIDDEN_OFFICER_IDS@[i]@,
            id,
        )
}

pub fn officer_triggers_evolutionary_assimilation(officer_id: &str) -> (r: bool)
    ensures
        r == is_forbidden_officer(officer_id@),
{
    let ids = EVOLUTIONARY_ASSIMILATION_FORBIDDEN_OFFICER_IDS;
    let mut i: usize = 0;
    while i < 3
        invariant
            ids == EVOLUTIONARY_ASSIMILATION_FORBIDDEN_OFFICER_IDS,
            i <= 3,
            forall|j: int|
                0 <= j < i ==> !eq_ignore_ascii_case_seq(#[trigger] ids@[j]@, officer_id@),
        decreases 3 - i,
    {
        if str_eq_ignore_ascii_case(ids[i], officer_id) {
            return true;
        }
        i += 1;
    }
    false
}

/// Some officer id of the roster is forbidden.
pub open spec fn roster_has_forbidden_officer(ids: Seq<String>) -> bool {
    exists|i: int| 0 <= i < ids.len() && is_forbidden_officer(#[trigger] ids[i]@)
}

/// The attacking roster is destroyed by Evolutionary Assimilation before combat.
pub open spec fn assimilation_destroys(
    defender_is_npc_hostile: bool,
    defender_hostile_tag_mask: u32,
    conqueror_borg_beam_suppression: bool,
    roster: Seq<String>,
) -> bool {
    defender_is_npc_hostile && defender_hostile_tag_mask & HOSTILE_TAG_MASK_CONQUEROR_BORG != 0
        && !conqueror_borg_beam_suppression && roster_has_forbidden_officer(roster)
}

/// True when the attacking roster is destroyed before normal combat resolution.
pub fn evolutionary_assimilation_instant_loss(
    defender_is_npc_hostile: bool,
    defender_hostile_tag_mask: u32,
    conqueror_borg_beam_suppression: bool,
    attacker_roster_officer_ids: &[String],
) -> (r: bool)
    ensures
        r == assimilation_destroys(
            defender_is_npc_hostile,
            defender_hostile_tag_mask,
            conqueror_borg_beam_suppression,
            attacker_roster_officer_ids@,
        ),
{
    if !defender_is_npc_hostile {
        return false;
    }
    if defender_hostile_tag_mask & HOSTILE_TAG_MASK_CONQUEROR_BORG == 0 {
        return false;
    }
    if conqueror_borg_beam_suppression {
        return false;
    }
    let mut i: usize = 0;
    while i < attacker_roster_officer_ids.len()
        invariant
            i <= attacker_roster_officer_ids@.len(),
            defender_is_npc_hostile,
            defender_hostile_tag_mask & HOSTILE_TAG_MASK_CONQUEROR_BORG != 0,
            !conqueror_borg_beam_suppression,
            forall|j: int|
                0 <= j < i ==> !is_forbidden_officer(#[trigger] attacker_roster_officer_ids@[j]@),
        decreases attacker_roster_officer_ids@.len() - i,
    {
        if officer_triggers_evolutionary_assimilation(attacker_roster_officer_ids[i].as_str()) {
            proof {
                assert(is_forbidden_officer(attacker_roster_officer_ids@[i as int]@));
            }
            return true;
        }
        i += 1;
    }
    false
}

/// Active Borg beam suppression means no instant loss by Evolutionary Assimilation, whoever
/// is on the roster.
pub proof fn lemma_suppression_prevents_assimilation_loss(
    defender_is_npc_hostile: bool,
    defender_hostile_tag_mask: u32,
    roster: Seq<String>,
)
    ensures
        !assimilation_destroys(defender_is_npc_hostile, defender_hostile_tag_mask, true, roster),
{
}

/// A roster with no forbidden officer is never destroyed by Evolutionary Assimilation.
pub proof fn lemma_clean_roster_survives(
    defender_is_npc_hostile: bool,
    defender_hostile_tag_mask: u32,
    suppression: bool,
    roster: Seq<String>,
)
    requires
        forall|i: int| 0 <= i < roster.len() ==> !is_forbidden_officer(#[trigger] roster[i]@),
    ensures
        !assimilation_destroys(defender_is_npc_hostile, defender_hostile_tag_mask, suppression, roster),
{
}

/// Evolutionary assimilation destroys the attacker exactly when the defender is an
/// unsuppressed Conqueror Borg NPC hostile and some officer of the roster, at any position,
/// is one of the forbidden officers (up to ASCII case).
pub proof fn lemma_assimilation_destroys_iff_forbidden_officer_on_roster(
    defender_is_npc_hostile: bool,
    defender_hostile_tag_mask: u32,
    conqueror_borg_beam_suppression: bool,
    roster: Seq<String>,
)
    ensures
        assimilation_destroys(
            defender_is_npc_hostile,
            defender_hostile_tag_mask,
            conqueror_borg_beam_suppression,
            roster,
        ) <==> (defender_is_npc_hostile && defender_hostile_tag_mask & HOSTILE_TAG_MASK_CONQUEROR_BORG
            != 0 && !conqueror_borg_beam_suppression && exists|i: int, k: int|
            0 <= i < roster.len() && 0 <= k < 3 && eq_ignore_ascii_case_seq(
                #[trigger] EVOLUTIONARY_ASSIMILATION_FORBIDDEN_OFFICER_IDS@[k]@,
                #[trigger] roster[i]@,
            )),
{
    if exists|i: int, k: int|
        0 <= i < roster.len() && 0 <= k < 3 && eq_ignore_ascii_case_seq(
            #[trigger] EVOLUTIONARY_ASSIMILATION_FORBIDDEN_OFFICER_IDS@[k]@,
            #[trigger] roster[i]@,
        ) {
        let (i, k) = choose|i: int, k: int|
            0 <= i < roster.len() && 0 <= k < 3 && eq_ignore_ascii_case_seq(
                #[trigger] EVOLUTIONARY_ASSIMILATION_FORBIDDEN_OFFICER_IDS@[k]@,
                #[trigger] roster[i]@,
            );
        assert(is_forbidden_officer(roster[i]@));
    }
}

} // verus!
