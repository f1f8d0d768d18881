//! Structural comparison of an ingested combat log with a simulator trace: each ingested row
//! must appear, in order, as a row of the trace with the same event type, round, phase and
//! weapon index.

use vstd::prelude::*;
use crate::text::{append_decimal, decimal_digits, str_eq};

verus! {

/// Format revision assumed for logs that do not state one.
pub fn default_schema_version() -> (v: u32)
    ensures
        v == 1,
{
    1
}

/// The fields of a trace row that structural matching compares.
#[derive(Debug, Clone, PartialEq, Eq)]
pub struct TraceSkeleton {
    pub event_type: String,
    pub round_index: u32,
    pub phase: String,
    /// Sub-round (weapon) index, when the row belongs to one.
    pub weapon_index: Option<u32>,
}

/// Two rows agree on event type, round, phase and weapon index.
pub open spec fn skeletons_match(a: TraceSkeleton, b: TraceSkeleton) -> bool {
    a.event_type@ == b.event_type@ && a.round_index == b.round_index && a.phase@ == b.phase@
        && a.weapon_index == b.weapon_index
}

/// Structural match between a simulator row and an ingested row.
pub fn trace_event_matches_skeleton(sim: &TraceSkeleton, ing: &TraceSkeleton) -> (r: bool)
    ensures
        r == skeletons_match(*sim, *ing),
{
    str_eq(sim.event_type.as_str(), ing.event_type.as_str()) && sim.round_index
        == ing.round_index && str_eq(sim.phase.as_str(), ing.phase.as_str()) && sim.weapon_index
        == ing.weapon_index
}

/// The first simulator row at or after `pos` that matches `x`.
pub open spec fn next_match(sim: Seq<TraceSkeleton>, x: TraceSkeleton, pos: int) -> Option<int>
    decreases sim.len() - pos,
{
    if pos < 0 || pos >= sim.len() {
        None
    } else if skeletons_match(sim[pos], x) {
        Some(pos)
    } else {
        next_match(sim, x, pos + 1)
    }
}

/// Greedy in-order matching of `ing[k..]` against `sim[pos..]`: each ingested row takes the
/// first matching simulator row after the previous match; once a row finds none, the
/// simulator rows are used up and no later row matches.
pub open spec fn greedy_matches(
    sim: Seq<TraceSkeleton>,
    ing: Seq<TraceSkeleton>,
    k: int,
    pos: int,
) -> Seq<Option<int>>
    decreases ing.len() - k,
{
    if k < 0 || k >= ing.len() {
        Seq::empty()
    } else {
        match next_match(sim, ing[k], pos) {
            Some(j) => seq![Some(j)] + greedy_matches(sim, ing, k + 1, j + 1),
            None => seq![None::<int>] + greedy_matches(sim, ing, k + 1, sim.len() as int),
        }
    }
}

proof fn lemma_greedy_len(sim: Seq<TraceSkeleton>, ing: Seq<TraceSkeleton>, k: int, pos: int)
    requires
        0 <= k <= ing.len(),
    ensures
        greedy_matches(sim, ing, k, pos).len() == ing.len() - k,
    decreases ing.len() - k,
{
    if k < ing.len() {
        match next_match(sim, ing[k], pos) {
            Some(j) => lemma_greedy_len(sim, ing, k + 1, j + 1),
            None => lemma_greedy_len(sim, ing, k + 1, sim.len() as int),
        }
    }
}

proof fn lemma_next_match_props(sim: Seq<TraceSkeleton>, x: TraceSkeleton, pos: int)
    requires
        0 <= pos,
    ensures
        match next_match(sim, x, pos) {
            Some(j) => pos <= j < sim.len() && skeletons_match(sim[j], x) && forall|t: int|
                pos <= t < j ==> !skeletons_match(#[trigger] sim[t], x),
            None => forall|t: int| pos <= t < sim.len() ==> !skeletons_match(#[trigger] sim[t], x),
        },
    decreases sim.len() - pos,
{
    if pos < sim.len() && !skeletons_match(sim[pos], x) {
        lemma_next_match_props(sim, x, pos + 1);
    }
}

/// For each ingested row, the position of the simulator row it matches, if any.
pub fn match_ingested_skeletons(sim_events: &[TraceSkeleton], ingested: &[TraceSkeleton]) -> (r:
    Vec<Option<usize>>)
    ensures
        r@.len() == ingested@.len(),
        forall|k: int|
            0 <= k < r@.len() ==> match #[trigger] r@[k] {
                Some(j) => greedy_matches(sim_events@, ingested@, 0, 0)[k] == Some(j as int),
                None => greedy_matches(sim_events@, ingested@, 0, 0)[k] == None::<int>,
            },
{
    let ghost sim = sim_events@;
    let ghost ing = ingested@;
    let ghost all = greedy_matches(sim, ing, 0, 0);
    proof {
        lemma_greedy_len(sim, ing, 0, 0);
    }
    let mut r: Vec<Option<usize>> = Vec::new();
    let mut sim_pos: usize = 0;
    let mut k: usize = 0;
    while k < ingested.len()
        invariant
            sim == sim_events@,
            ing == ingested@,
            all == greedy_matches(sim, ing, 0, 0),
            all.len() == ing.len(),
            k <= ing.len(),
            sim_pos <= sim.len(),
            r@.len() == k,
            all == all.take(k as int) + greedy_matches(sim, ing, k as int, sim_pos as int),
            forall|t: int|
                0 <= t < k ==> match #[trigger] r@[t] {
                    Some(j) => all[t] == Some(j as int),
                    None => all[t] == None::<int>,
                },
        decreases ing.len() - k,
    {
        let ghost start = sim_pos as int;
        let mut found: Option<usize> = None;
        while sim_pos < sim_events.len()
            invariant_except_break
                sim == sim_events@,
                ing == ingested@,
                k < ing.len(),
                start <= sim_pos <= sim.len(),
                found is None,
                next_match(sim, ing[k as int], start) == next_match(sim, ing[k as int], sim_pos as int),
            ensures
                start <= sim_pos <= sim.len(),
                match found {
                    Some(j) => next_match(sim, ing[k as int], start) == Some(j as int) && sim_pos == j + 1,
                    None => sim_pos == sim.len() && next_match(sim, ing[k as int], start) == None::<int>,
                },
            decreases sim.len() - sim_pos,
        {
            let hit = trace_event_matches_skeleton(&sim_events[sim_pos], &ingested[k]);
            sim_pos += 1;
            if hit {
                found = Some(sim_pos - 1);
                break;
            }
        }
        proof {
            let g = greedy_matches(sim, ing, k as int, start);
            match found {
                Some(j) => {
                    assert(next_match(sim, ing[k as int], start) == Some(j as int));
                    assert(g == seq![Some(j as int)] + greedy_matches(sim, ing, k + 1, sim_pos as int));
                },
                None => {
                    assert(g == seq![None::<int>] + greedy_matches(sim, ing, k + 1, sim.len() as int));
                },
            }
            assert(g.len() > 0);
            assert(all[k as int] == g[0]);
            assert(all.take(k + 1) =~= all.take(k as int).push(g[0]));
        }
        r.push(found);
        k += 1;
        proof {
            assert(all =~= all.take(k as int) + greedy_matches(sim, ing, k as int, sim_pos as int));
        }
    }
    r
}

/// `f` places every ingested row on a matching simulator row, in strictly increasing order:
/// the ingested rows form an ordered subsequence of the trace.
pub open spec fn is_embedding(sim: Seq<TraceSkeleton>, ing: Seq<TraceSkeleton>, f: Seq<int>) -> bool {
    f.len() == ing.len() && (forall|t: int|
        0 <= t < f.len() ==> 0 <= #[trigger] f[t] < sim.len() && skeletons_match(sim[f[t]], ing[t]))
        && (forall|a: int, b: int| 0 <= a < b < f.len() ==> #[trigger] f[a] < #[trigger] f[b])
}

/// Every ingested row found a match.
pub open spec fn all_matched(m: Seq<Option<int>>) -> bool {
    forall|t: int| 0 <= t < m.len() ==> (#[trigger] m[t]) is Some
}

proof fn lemma_greedy_complete(
    sim: Seq<TraceSkeleton>,
    ing: Seq<TraceSkeleton>,
    f: Seq<int>,
    k: int,
    pos: int,
)
    requires
        is_embedding(sim, ing, f),
        0 <= k <= ing.len(),
        0 <= pos,
        k < ing.len() ==> pos <= f[k],
    ensures
        all_matched(greedy_matches(sim, ing, k, pos)),
    decreases ing.len() - k,
{
    if k < ing.len() {
        lemma_next_match_props(sim, ing[k], pos);
        match next_match(sim, ing[k], pos) {
            Some(j) => {
                assert(j <= f[k]) by {
                    if j > f[k] {
                        assert(!skeletons_match(sim[f[k]], ing[k]));
                    }
                }
                if k + 1 < ing.len() {
                    assert(f[k] < f[k + 1]);
                }
                lemma_greedy_complete(sim, ing, f, k + 1, j + 1);
                let g = greedy_matches(sim, ing, k, pos);
                let rest = greedy_matches(sim, ing, k + 1, j + 1);
                assert forall|t: int| 0 <= t < g.len() implies (#[trigger] g[t]) is Some by {
                    if t > 0 {
                        assert(g[t] == rest[t - 1]);
                    }
                }
            },
            None => {
                assert(!skeletons_match(sim[f[k]], ing[k]));
            },
        }
    }
}

proof fn lemma_greedy_sound(sim: Seq<TraceSkeleton>, ing: Seq<TraceSkeleton>, k: int, pos: int)
    requires
        0 <= k <= ing.len(),
        0 <= pos,
    ensures
        forall|t: int|
            0 <= t < greedy_matches(sim, ing, k, pos).len() ==> match #[trigger] greedy_matches(
                sim,
                ing,
                k,
                pos,
            )[t] {
                Some(j) => pos <= j < sim.len() && skeletons_match(sim[j], ing[k + t]),
                None => true,
            },
        forall|a: int, b: int|
            0 <= a < b < greedy_matches(sim, ing, k, pos).len() && greedy_matches(sim, ing, k, pos)[a] is Some
                && greedy_matches(sim, ing, k, pos)[b] is Some ==> (#[trigger] greedy_matches(
                sim,
                ing,
                k,
                pos,
            )[a])->0 < (#[trigger] greedy_matches(sim, ing, k, pos)[b])->0,
    decreases ing.len() - k,
{
    if k < ing.len() {
        lemma_next_match_props(sim, ing[k], pos);
        let g = greedy_matches(sim, ing, k, pos);
        match next_match(sim, ing[k], pos) {
            Some(j) => {
                lemma_greedy_sound(sim, ing, k + 1, j + 1);
                let rest = greedy_matches(sim, ing, k + 1, j + 1);
                assert forall|t: int| 0 < t < g.len() implies g[t] == rest[t - 1] by {}
            },
            None => {
                lemma_greedy_sound(sim, ing, k + 1, sim.len() as int);
                let rest = greedy_matches(sim, ing, k + 1, sim.len() as int);
                assert forall|t: int| 0 < t < g.len() implies g[t] == rest[t - 1] by {}
            },
        }
    }
}

/// Greedy matching decides the subsequence question exactly: every ingested row finds a match
/// if and only if the ingested rows form an ordered subsequence of the trace, and then the
/// matches themselves are such a placement.
pub proof fn lemma_greedy_matches_iff_subsequence(sim: Seq<TraceSkeleton>, ing: Seq<TraceSkeleton>)
    ensures
        all_matched(greedy_matches(sim, ing, 0, 0)) <==> exists|f: Seq<int>| is_embedding(sim, ing, f),
        all_matched(greedy_matches(sim, ing, 0, 0)) ==> is_embedding(
            sim,
            ing,
            greedy_matches(sim, ing, 0, 0).map_values(|o: Option<int>| o->0),
        ),
{
    lemma_greedy_len(sim, ing, 0, 0);
    lemma_greedy_sound(sim, ing, 0, 0);
    let g = greedy_matches(sim, ing, 0, 0);
    if all_matched(g) {
        let f = g.map_values(|o: Option<int>| o->0);
        assert forall|t: int| 0 <= t < f.len() implies 0 <= #[trigger] f[t] < sim.len() && skeletons_match(sim[f[t]], ing[t]) by {
            assert(g[t] is Some);
        }
        assert forall|a: int, b: int| 0 <= a < b < f.len() implies #[trigger] f[a] < #[trigger] f[b] by {
            assert(g[a] is Some && g[b] is Some);
        }
        assert(is_embedding(sim, ing, f));
    }
    if exists|f: Seq<int>| is_embedding(sim, ing, f) {
        let f = choose|f: Seq<int>| is_embedding(sim, ing, f);
        if ing.len() > 0 {
            assert(0 <= f[0]);
        }
        lemma_greedy_complete(sim, ing, f, 0, 0);
    }
}

/// `{:?}` rendering of an optional weapon index.
pub open spec fn weapon_debug(w: Option<u32>) -> Seq<char> {
    match w {
        Some(x) => "Some("@ + decimal_digits(x as nat) + ")"@,
        None => "None"@,
    }
}

/// The error reported for ingested row `k` that matches no simulator row.
pub open spec fn unmatched_message(k: nat, ing: TraceSkeleton) -> Seq<char> {
    "ingested["@ + decimal_digits(k) + "] "@ + ing.event_type@ + " phase="@ + ing.phase@
        + " round="@ + decimal_digits(ing.round_index as nat) + " weapon="@ + weapon_debug(
        ing.weapon_index,
    ) + ": no matching simulator event"@
}

pub fn unmatched_event_message(k: usize, ing: &TraceSkeleton) -> (m: String)
    ensures
        m@ == unmatched_message(k as nat, *ing),
{
    let mut m = "ingested[".to_owned();
    append_decimal(&mut m, k as u64);
    m.append("] ");
    m.append(ing.event_type.as_str());
    m.append(" phase=");
    m.append(ing.phase.as_str());
    m.append(" round=");
    append_decimal(&mut m, ing.round_index as u64);
    m.append(" weapon=");
    match ing.weapon_index {
        Some(w) => {
            m.append("Some(");
            append_decimal(&mut m, w as u64);
            m.append(")");
        },
        None => {
            m.append("None");
        },
    }
    m.append(": no matching simulator event");
    proof {
        assert(m@ =~= unmatched_message(k as nat, *ing));
    }
    m
}

} // verus!
