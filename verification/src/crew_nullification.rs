//! Crew nullification: some hostiles make listed canonical officers contribute no combat
//! effects while that hostile is the defending NPC.

use vstd::prelude::*;
use crate::hostile_tags::HOSTILE_TAG_MASK_CREW_NULLIFICATION;
use crate::abilities::{officer_view, CrewSeatContext};
use crate::text::{eq_ignore_ascii_case_seq, str_eq, str_eq_ignore_ascii_case};

verus! {

/// Canonical roster ids of the officers that crew nullification silences.
pub const NULLIFIED_OFFICER_IDS: [&'static str; 3] = [
    "kathryn-janeway-bd4a19",
    "ent-e-picard-556227",
    "pike-1e7d0d",
];

/// `id` names a nullified officer, up to ASCII case.
pub open spec fn is_nullified_officer(id: Seq<char>) -> bool {
    exists|i: int|
        0 <= i < 3 && eq_ignore_ascii_case_seq(#[trigger] NULLIFIED_OFFICER_IDS@[i]@, id)
}

pub fn officer_id_nullified_by_crew_nullification(officer_id: &str) -> (r: bool)
    ensures
        r == is_nullified_officer(officer_id@),
{
    let ids = NULLIFIED_OFFICER_IDS;
    let mut i: usize = 0;
    while i < 3
        invariant
            ids == NULLIFIED_OFFICER_IDS,
            i <= 3,
            forall|j: int|
                0 <= j < i ==> !eq_ignore_ascii_case_seq(#[trigger] ids@[j]@, officer_id@),
        decreases 3 - i,
    {
        if str_eq_ignore_ascii_case(ids[i], officer_id) {
            return true;
        }
        i += 1;
    }
    false
}

/// Crew nullification is in force against this defender.
pub open spec fn nullification_active(defender_hostile_tag_mask: u32, defender_is_npc_hostile: bool) -> bool {
    defender_is_npc_hostile && defender_hostile_tag_mask & HOSTILE_TAG_MASK_CREW_NULLIFICATION != 0
}

/// When crew nullification is in force, the ids of the officers to skip: exactly the
/// canonical list, in list order. `None` otherwise.
pub fn nullified_officer_id_set_for_mask(
    defender_hostile_tag_mask: u32,
    defender_is_npc_hostile: bool,
) -> (r: Option<Vec<String>>)
    ensures
        r is Some <==> nullification_active(defender_hostile_tag_mask, defender_is_npc_hostile),
        r is Some ==> r->0@.len() == 3 && forall|i: int|
            0 <= i < 3 ==> (#[trigger] r->0@[i])@ == NULLIFIED_OFFICER_IDS@[i]@,
{
    if !defender_is_npc_hostile {
        return None;
    }
    if defender_hostile_tag_mask & HOSTILE_TAG_MASK_CREW_NULLIFICATION == 0 {
        return None;
    }
    let ids = NULLIFIED_OFFICER_IDS;
    let mut out: Vec<String> = Vec::new();
    let mut i: usize = 0;
    while i < 3
        invariant
            ids == NULLIFIED_OFFICER_IDS,
            i <= 3,
            out@.len() == i,
            forall|j: int| 0 <= j < i ==> (#[trigger] out@[j])@ == ids@[j]@,
        decreases 3 - i,
    {
        out.push(ids[i].to_owned());
        i += 1;
    }
    Some(out)
}

/// `id` is one of the nullified ids, exactly (no case folding).
pub open spec fn is_listed_nullified_id(id: Seq<char>) -> bool {
    exists|i: int| 0 <= i < 3 && #[trigger] NULLIFIED_OFFICER_IDS@[i]@ == id
}

/// A crew row survives nullification: it has no officer id, or one not in the list.
pub open spec fn survives_nullification<E, C>(s: CrewSeatContext<E, C>) -> bool {
    match officer_view(s.officer_id) {
        Some(o) => !is_listed_nullified_id(o),
        None => true,
    }
}

/// The rows of `seats` that survive nullification, in order.
pub open spec fn surviving_rows<E, C>(seats: Seq<CrewSeatContext<E, C>>) -> Seq<CrewSeatContext<E, C>>
    decreases seats.len(),
{
    if seats.len() == 0 {
        Seq::empty()
    } else {
        (if survives_nullification(seats[0]) {
            seq![seats[0]]
        } else {
            Seq::empty()
        }) + surviving_rows(seats.drop_first())
    }
}

fn listed_nullified_id(id: &str) -> (r: bool)
    ensures
        r == is_listed_nullified_id(id@),
{
    let ids = NULLIFIED_OFFICER_IDS;
    let mut i: usize = 0;
    while i < 3
        invariant
            ids == NULLIFIED_OFFICER_IDS,
            i <= 3,
            forall|j: int| 0 <= j < i ==> #[trigger] ids@[j]@ != id@,
        decreases 3 - i,
    {
        if str_eq(ids[i], id) {
            return true;
        }
        i += 1;
    }
    false
}

/// Defense in depth for crew rows that still carry an officer id: when crew nullification is
/// in force, drop the rows of nullified officers; otherwise return the rows unchanged.
pub fn filter_crew_seats_for_crew_nullification<E, C>(
    seats: Vec<CrewSeatContext<E, C>>,
    defender_hostile_tag_mask: u32,
    defender_is_npc_hostile: bool,
) -> (out: Vec<CrewSeatContext<E, C>>)
    ensures
        out@ == if nullification_active(defender_hostile_tag_mask, defender_is_npc_hostile) {
            surviving_rows(seats@)
        } else {
            seats@
        },
{
    if !defender_is_npc_hostile || defender_hostile_tag_mask & HOSTILE_TAG_MASK_CREW_NULLIFICATION == 0 {
        return seats;
    }
    let ghost orig = seats@;
    let mut rest = seats;
    let mut out: Vec<CrewSeatContext<E, C>> = Vec::new();
    while rest.len() > 0
        invariant
            out@ + surviving_rows(rest@) == surviving_rows(orig),
        decreases rest@.len(),
    {
        let ghost before = rest@;
        let s = rest.remove(0);
        proof {
            assert(before.drop_first() =~= rest@);
        }
        let keep = match &s.officer_id {
            Some(oid) => !listed_nullified_id(oid.as_str()),
            None => true,
        };
        if keep {
            out.push(s);
        }
        proof {
            assert(out@ + surviving_rows(rest@) =~= surviving_rows(orig));
        }
    }
    proof {
        assert(out@ + surviving_rows(rest@) =~= out@);
    }
    out
}

/// A row survives crew nullification unless its officer id is, letter for letter, one of the
/// listed ids.
pub open spec fn row_escapes_nullification<E, C>() -> spec_fn(CrewSeatContext<E, C>) -> bool {
    |r: CrewSeatContext<E, C>|
        r.officer_id is None || forall|k: int| 0 <= k < 3 ==> #[trigger] NULLIFIED_OFFICER_IDS@[k]@
            != r.officer_id->0@
}

/// Under crew nullification the crew loses exactly the rows whose officer id is one of the
/// listed ids (compared exactly), and keeps every other row in order.
pub proof fn lemma_nullification_drops_exactly_listed_officers<E, C>(seats: Seq<CrewSeatContext<E, C>>)
    ensures
        surviving_rows(seats) == seats.filter(row_escapes_nullification::<E, C>()),
    decreases seats.len(),
{
    let pred = row_escapes_nullification::<E, C>();
    if seats.len() == 0 {
        assert(seats.filter(pred) =~= Seq::<CrewSeatContext<E, C>>::empty());
    } else {
        let rest = seats.drop_first();
        lemma_nullification_drops_exactly_listed_officers(rest);
        assert(seats =~= seq![seats[0]] + rest);
        rest.lemma_filter_prepend(seats[0], pred);
        assert(survives_nullification(seats[0]) == pred(seats[0])) by {
            if seats[0].officer_id is Some {
                let o = seats[0].officer_id->0@;
                if is_listed_nullified_id(o) {
                    let i = choose|i: int| 0 <= i < 3 && #[trigger] NULLIFIED_OFFICER_IDS@[i]@ == o;
                    assert(NULLIFIED_OFFICER_IDS@[i]@ == o);
                }
            }
        }
    }
}

} // verus!
