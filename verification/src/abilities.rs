//! Ability classes, timing windows and crew seats, and the random defender state table.

use vstd::prelude::*;
use crate::text::str_eq;

verus! {

#[derive(Debug, Clone, Copy, PartialEq, Eq, Structural)]
pub enum AbilityClass {
    CaptainManeuver,
    BridgeAbility,
    BelowDeck,
    /// Ship hull ability, evaluated per round like officer abilities.
    ShipAbility,
}

#[derive(Debug, Clone, Copy, PartialEq, Eq, Structural)]
pub enum TimingWindow {
    CombatBegin,
    RoundStart,
    AttackPhase,
    /// After each weapon sub-round; stacks carry into later weapons this round only.
    AfterSubround,
    DefensePhase,
    RoundEnd,
    /// When the defender's shields reach 0.
    ShieldBreak,
    /// When this crew's ship loses shields.
    SelfShieldBreak,
    /// When this ship destroys a target.
    Kill,
    /// When the defender enters the hull-breached state from a hull breach proc.
    HullBreach,
    /// When this ship takes damage.
    ReceiveDamage,
    /// Once after the fight resolves.
    CombatEnd,
}

#[derive(Debug, Clone, Copy, PartialEq, Eq, Structural)]
pub enum CrewSeat {
    Captain,
    Bridge,
    BelowDeck,
    /// Virtual seat for ship hull abilities; not officer-driven.
    Ship,
}

/// The seat in which abilities of a class activate.
pub open spec fn seat_for_class(class: AbilityClass) -> CrewSeat {
    match class {
        AbilityClass::CaptainManeuver => CrewSeat::Captain,
        AbilityClass::BridgeAbility => CrewSeat::Bridge,
        AbilityClass::BelowDeck => CrewSeat::BelowDeck,
        AbilityClass::ShipAbility => CrewSeat::Ship,
    }
}

impl AbilityClass {
    pub fn allowed_seat(self) -> (s: CrewSeat)
        ensures
            s == seat_for_class(self),
    {
        match self {
            Self::CaptainManeuver => CrewSeat::Captain,
            Self::BridgeAbility => CrewSeat::Bridge,
            Self::BelowDeck => CrewSeat::BelowDeck,
            Self::ShipAbility => CrewSeat::Ship,
        }
    }
}

/// Distinct classes activate in distinct seats.
pub proof fn lemma_allowed_seat_injective(a: AbilityClass, b: AbilityClass)
    requires
        seat_for_class(a) == seat_for_class(b),
    ensures
        a == b,
{
}

/// Max `(state_id, weight)` pairs on a random defender state effect.
pub const RANDOM_DEFENDER_STATE_OUTCOMES_CAP: usize = 8;

/// Active prefix of a packed outcome table: its first `min(count, cap)` entries.
pub fn random_defender_state_outcomes<'a>(
    count: u8,
    outcomes: &'a [(u32, u32); RANDOM_DEFENDER_STATE_OUTCOMES_CAP],
) -> (r: &'a [(u32, u32)])
    ensures
        r@ == outcomes@.subrange(
            0,
            if count as int <= 8 {
                count as int
            } else {
                8
            },
        ),
{
    let n: usize = if (count as usize) < RANDOM_DEFENDER_STATE_OUTCOMES_CAP {
        count as usize
    } else {
        RANDOM_DEFENDER_STATE_OUTCOMES_CAP
    };
    vstd::slice::slice_subrange(outcomes.as_slice(), 0, n)
}

/// Pack compiled `(id, weight)` pairs into a fixed table: the first `min(len, cap)` pairs, then
/// `(0, 0)` fill, with the number of pairs kept.
pub fn pack_random_defender_state_outcomes(pairs: &[(u32, u32)]) -> (r: (
    u8,
    [(u32, u32); RANDOM_DEFENDER_STATE_OUTCOMES_CAP],
))
    ensures
        r.0 as int == if pairs@.len() <= 8 {
            pairs@.len() as int
        } else {
            8
        },
        forall|i: int| 0 <= i < r.0 ==> #[trigger] r.1@[i] == pairs@[i],
        forall|i: int| r.0 <= i < 8 ==> #[trigger] r.1@[i] == (0u32, 0u32),
{
    let mut outcomes = [(0u32, 0u32); RANDOM_DEFENDER_STATE_OUTCOMES_CAP];
    let n: usize = if pairs.len() < RANDOM_DEFENDER_STATE_OUTCOMES_CAP {
        pairs.len()
    } else {
        RANDOM_DEFENDER_STATE_OUTCOMES_CAP
    };
    let mut i: usize = 0;
    while i < n
        invariant
            n <= 8,
            n <= pairs@.len(),
            i <= n,
            forall|j: int| 0 <= j < i ==> #[trigger] outcomes@[j] == pairs@[j],
            forall|j: int| i <= j < 8 ==> #[trigger] outcomes@[j] == (0u32, 0u32),
        decreases n - i,
    {
        outcomes[i] = pairs[i];
        i += 1;
    }
    (n as u8, outcomes)
}

/// Sum of the weights.
pub open spec fn weight_sum(ws: Seq<(u32, u32)>) -> nat
    decreases ws.len(),
{
    if ws.len() == 0 {
        0
    } else {
        ws[0].1 as nat + weight_sum(ws.drop_first())
    }
}

/// The id whose cumulative weight interval holds `p`, walking from the front.
pub open spec fn pick_at(ws: Seq<(u32, u32)>, p: nat) -> Option<u32>
    decreases ws.len(),
{
    if ws.len() == 0 {
        None
    } else if p < ws[0].1 {
        Some(ws[0].0)
    } else {
        pick_at(ws.drop_first(), (p - ws[0].1) as nat)
    }
}

/// Id used when the table gives nothing to pick.
pub open spec fn fallback_state_id(ws: Seq<(u32, u32)>, first: bool) -> u32 {
    if ws.len() == 0 {
        8
    } else if first {
        ws[0].0
    } else {
        ws.last().0
    }
}

/// The weighted pick for `draw`: with positive total weight, the entry whose cumulative
/// interval holds `draw % total`; with zero total, the first id (8 for an empty table).
pub open spec fn weighted_pick(ws: Seq<(u32, u32)>, draw: u64) -> u32 {
    let total = weight_sum(ws);
    if total == 0 {
        fallback_state_id(ws, true)
    } else {
        match pick_at(ws, (draw as nat) % total) {
            Some(id) => id,
            None => fallback_state_id(ws, false),
        }
    }
}

proof fn lemma_pick_at_some_below_total(ws: Seq<(u32, u32)>, p: nat)
    requires
        p < weight_sum(ws),
    ensures
        pick_at(ws, p) is Some,
        exists|i: int| 0 <= i < ws.len() && ws[i].1 > 0 && pick_at(ws, p) == Some(#[trigger] ws[i].0),
    decreases ws.len(),
{
    if ws.len() == 0 {
    } else if p < ws[0].1 {
        assert(ws[0].1 > 0);
    } else {
        let t = ws.drop_first();
        lemma_pick_at_some_below_total(t, (p - ws[0].1) as nat);
        let i = choose|i: int| 0 <= i < t.len() && t[i].1 > 0 && pick_at(t, (p - ws[0].1) as nat) == Some(#[trigger] t[i].0);
        assert(ws[i + 1] == t[i]);
    }
}

/// Weighted pick from `(state_id, weight)` pairs; `draw` is reduced modulo the total weight.
pub fn pick_weighted_state_id(state_weights: &[(u32, u32)], draw: u64) -> (r: u32)
    requires
        weight_sum(state_weights@) <= u64::MAX,
    ensures
        r == weighted_pick(state_weights@, draw),
{
    let ghost ws = state_weights@;
    let n = state_weights.len();
    let mut total: u64 = 0;
    let mut k: usize = n;
    while k > 0
        invariant
            n == ws.len(),
            ws == state_weights@,
            k <= n,
            weight_sum(ws) <= u64::MAX,
            total == weight_sum(ws.skip(k as int)),
        decreases k,
    {
        proof {
            assert(ws.skip(k - 1).drop_first() =~= ws.skip(k as int));
            lemma_weight_sum_suffix_bound(ws, k - 1);
        }
        total = total + state_weights[k - 1].1 as u64;
        k -= 1;
    }
    proof {
        assert(ws.skip(0) =~= ws);
    }
    if total == 0 {
        if n == 0 {
            return 8;
        }
        return state_weights[0].0;
    }
    let mut pick: u64 = draw % total;
    let mut i: usize = 0;
    while i < n
        invariant
            n == ws.len(),
            ws == state_weights@,
            i <= n,
            total == weight_sum(ws),
            total > 0,
            pick_at(ws, (draw as nat) % (total as nat)) == pick_at(ws.skip(i as int), pick as nat),
        decreases n - i,
    {
        let (id, w) = state_weights[i];
        proof {
            assert(ws.skip(i as int)[0] == ws[i as int]);
            assert(ws.skip(i as int).drop_first() =~= ws.skip(i + 1));
        }
        if pick < w as u64 {
            return id;
        }
        pick = pick - w as u64;
        i += 1;
    }
    proof {
        assert(ws.skip(n as int).len() == 0);
    }
    state_weights[n - 1].0
}

proof fn lemma_weight_sum_suffix_bound(ws: Seq<(u32, u32)>, k: int)
    requires
        0 <= k <= ws.len(),
    ensures
        weight_sum(ws.skip(k)) <= weight_sum(ws),
    decreases k,
{
    if k > 0 {
        lemma_weight_sum_suffix_bound(ws.drop_first(), k - 1);
        assert(ws.drop_first().skip(k - 1) =~= ws.skip(k));
    } else {
        assert(ws.skip(0) =~= ws);
    }
}

/// With positive total weight, the pick is the id of an entry of the table whose weight is
/// positive: an entry of zero weight is never picked.
pub proof fn lemma_weighted_pick_has_positive_weight(ws: Seq<(u32, u32)>, draw: u64)
    requires
        weight_sum(ws) > 0,
    ensures
        exists|i: int| 0 <= i < ws.len() && ws[i].1 > 0 && #[trigger] ws[i].0 == weighted_pick(ws, draw),
{
    let p = (draw as nat) % weight_sum(ws);
    lemma_pick_at_some_below_total(ws, p);
}

/// Duration applied by a random state: at least one round.
pub open spec fn state_duration(duration_rounds: u32) -> u32 {
    if duration_rounds >= 1 {
        duration_rounds
    } else {
        1
    }
}

pub open spec fn max_u32(a: u32, b: u32) -> u32 {
    if a >= b {
        a
    } else {
        b
    }
}

/// Apply one random-state id to the defender timers (8 = morale, 4 = hull breach, 2 = burning,
/// 64 = assimilated): the matching timer becomes at least the duration (at least one round);
/// other timers and other ids change nothing. Returns the trace label.
pub fn apply_defender_random_state_id(
    state_id: u32,
    duration_rounds: u32,
    defender_burning_rounds: &mut u32,
    defender_hull_breach_rounds: &mut u32,
    defender_assimilated_rounds_remaining: &mut u32,
    defender_morale_rounds_remaining: &mut u32,
) -> (label: &'static str)
    ensures
        *final(defender_morale_rounds_remaining) == if state_id == 8 {
            max_u32(*old(defender_morale_rounds_remaining), state_duration(duration_rounds))
        } else {
            *old(defender_morale_rounds_remaining)
        },
        *final(defender_hull_breach_rounds) == if state_id == 4 {
            max_u32(*old(defender_hull_breach_rounds), state_duration(duration_rounds))
        } else {
            *old(defender_hull_breach_rounds)
        },
        *final(defender_burning_rounds) == if state_id == 2 {
            max_u32(*old(defender_burning_rounds), state_duration(duration_rounds))
        } else {
            *old(defender_burning_rounds)
        },
        *final(defender_assimilated_rounds_remaining) == if state_id == 64 {
            max_u32(*old(defender_assimilated_rounds_remaining), state_duration(duration_rounds))
        } else {
            *old(defender_assimilated_rounds_remaining)
        },
        label@ == if state_id == 8 {
            "morale"@
        } else if state_id == 4 {
            "hull_breach"@
        } else if state_id == 2 {
            "burning"@
        } else if state_id == 64 {
            "assimilated"@
        } else {
            "unknown"@
        },
{
    let dur = if duration_rounds >= 1 {
        duration_rounds
    } else {
        1
    };
    match state_id {
        8 => {
            if *defender_morale_rounds_remaining < dur {
                *defender_morale_rounds_remaining = dur;
            }
            "morale"
        },
        4 => {
            if *defender_hull_breach_rounds < dur {
                *defender_hull_breach_rounds = dur;
            }
            "hull_breach"
        },
        2 => {
            if *defender_burning_rounds < dur {
                *defender_burning_rounds = dur;
            }
            "burning"
        },
        64 => {
            if *defender_assimilated_rounds_remaining < dur {
                *defender_assimilated_rounds_remaining = dur;
            }
            "assimilated"
        },
        _ => "unknown",
    }
}

/// An ability: its class, timing window and boostability, with the compiled effect `E` and the
/// optional activation condition `C` that the combat loop evaluates.
#[derive(Debug, Clone, PartialEq)]
pub struct Ability<E, C> {
    pub name: String,
    pub class: AbilityClass,
    pub timing: TimingWindow,
    pub boostable: bool,
    pub effect: E,
    pub condition: Option<C>,
}

/// Sentinel batch id: rows without explicit batch metadata group by consecutive matching
/// officer id.
pub const NO_EXPLICIT_CONTRIBUTION_BATCH: u32 = 0xffff_ffff;

/// One crew row: an ability in a seat.
#[derive(Debug, Clone, PartialEq)]
pub struct CrewSeatContext<E, C> {
    pub seat: CrewSeat,
    pub ability: Ability<E, C>,
    pub boosted: bool,
    /// Canonical officer id when the row comes from an officer slot.
    pub officer_id: Option<String>,
    /// Rows from one officer slot share the same batch; `NO_EXPLICIT_CONTRIBUTION_BATCH` for
    /// ship abilities or rows without batch metadata.
    pub contribution_batch: u32,
}

impl<E, C> CrewSeatContext<E, C> {
    /// Crew row without officer or batch metadata.
    pub fn legacy(seat: CrewSeat, ability: Ability<E, C>, boosted: bool) -> (r: Self)
        ensures
            r.seat == seat,
            r.ability == ability,
            r.boosted == boosted,
            r.officer_id is None,
            r.contribution_batch == NO_EXPLICIT_CONTRIBUTION_BATCH,
    {
        Self {
            seat,
            ability,
            boosted,
            officer_id: None,
            contribution_batch: NO_EXPLICIT_CONTRIBUTION_BATCH,
        }
    }
}

#[derive(Debug, Clone, PartialEq)]
pub struct CrewConfiguration<E, C> {
    pub seats: Vec<CrewSeatContext<E, C>>,
}

/// An ability effect that is active for a timing window.
#[derive(Debug, Clone, PartialEq)]
pub struct ActiveAbilityEffect<E, C> {
    pub ability_name: String,
    /// Canonical officer id when the row comes from an officer seat.
    pub officer_id: Option<String>,
    pub effect: E,
    pub boosted: bool,
    pub condition: Option<C>,
}

/// The view of an optional officer id.
pub open spec fn officer_view(o: Option<String>) -> Option<Seq<char>> {
    match o {
        Some(s) => Some(s@),
        None => None,
    }
}

/// A row can fire: its seat is the one its ability class activates in, and it is not a
/// boosted row of a non-boostable ability.
pub open spec fn seat_can_activate<E, C>(c: CrewSeatContext<E, C>) -> bool {
    c.seat == seat_for_class(c.ability.class) && (c.ability.boostable || !c.boosted)
}

pub fn can_activate_in_seat<E, C>(context: &CrewSeatContext<E, C>) -> (r: bool)
    ensures
        r == seat_can_activate(*context),
{
    context.seat == context.ability.class.allowed_seat() && (context.ability.boostable
        || !context.boosted)
}

/// Positions (from `i` on) of the rows that can fire at `timing`, in crew order.
pub open spec fn active_positions_from<E, C>(
    seats: Seq<CrewSeatContext<E, C>>,
    timing: TimingWindow,
    i: int,
) -> Seq<int>
    decreases seats.len() - i,
{
    if i < 0 || i >= seats.len() {
        Seq::empty()
    } else if seat_can_activate(seats[i]) && seats[i].ability.timing == timing {
        seq![i] + active_positions_from(seats, timing, i + 1)
    } else {
        active_positions_from(seats, timing, i + 1)
    }
}

/// `a` is the active effect built from crew row `s`: same name, officer, effect and boost, and
/// a clone of its condition.
pub open spec fn active_effect_of<E, C: Clone>(a: ActiveAbilityEffect<E, C>, s: CrewSeatContext<E, C>) -> bool {
    a.ability_name@ == s.ability.name@ && officer_view(a.officer_id) == officer_view(s.officer_id)
        && a.effect == s.ability.effect && a.boosted == s.boosted && a.condition is Some
        == s.ability.condition is Some && (a.condition is Some ==> cloned::<C>(
        s.ability.condition->0,
        a.condition->0,
    ))
}

fn clone_officer_id(o: &Option<String>) -> (r: Option<String>)
    ensures
        officer_view(r) == officer_view(*o),
{
    match o {
        Some(s) => Some(s.clone()),
        None => None,
    }
}

fn clone_condition<C: Clone>(c: &Option<C>) -> (r: Option<C>)
    ensures
        r is Some == c is Some,
        r is Some ==> cloned::<C>(c->0, r->0),
{
    match c {
        Some(x) => Some(x.clone()),
        None => None,
    }
}

proof fn lemma_active_positions_bounds<E, C>(
    seats: Seq<CrewSeatContext<E, C>>,
    timing: TimingWindow,
    i: int,
)
    requires
        0 <= i,
    ensures
        forall|k: int|
            0 <= k < active_positions_from(seats, timing, i).len() ==> i <= #[trigger] active_positions_from(
                seats,
                timing,
                i,
            )[k] < seats.len(),
    decreases seats.len() - i,
{
    if i < seats.len() {
        lemma_active_positions_bounds(seats, timing, i + 1);
        let rest = active_positions_from(seats, timing, i + 1);
        if seat_can_activate(seats[i]) && seats[i].ability.timing == timing {
            let all = active_positions_from(seats, timing, i);
            assert(all == seq![i] + rest);
            assert forall|k: int| 0 <= k < all.len() implies i <= #[trigger] all[k] < seats.len() by {
                if k > 0 {
                    assert(all[k] == rest[k - 1]);
                }
            }
        }
    }
}

/// The effects of the rows that can fire at `timing`, in crew order.
pub fn active_effects_for_timing<E: Copy, C: Clone>(
    crew: &CrewConfiguration<E, C>,
    timing: TimingWindow,
) -> (out: Vec<ActiveAbilityEffect<E, C>>)
    ensures
        out@.len() == active_positions_from(crew.seats@, timing, 0).len(),
        forall|k: int|
            0 <= k < out@.len() ==> 0 <= #[trigger] active_positions_from(crew.seats@, timing, 0)[k]
                < crew.seats@.len(),
        forall|k: int|
            0 <= k < out@.len() ==> active_effect_of(
                #[trigger] out@[k],
                crew.seats@[active_positions_from(crew.seats@, timing, 0)[k]],
            ),
{
    let ghost seats = crew.seats@;
    let n = crew.seats.len();
    let mut out: Vec<ActiveAbilityEffect<E, C>> = Vec::new();
    let mut i: usize = 0;
    while i < n
        invariant
            n == seats.len(),
            seats == crew.seats@,
            i <= n,
            active_positions_from(seats, timing, 0) == active_positions_from(seats, timing, 0).take(
                out@.len() as int,
            ) + active_positions_from(seats, timing, i as int),
            out@.len() <= active_positions_from(seats, timing, 0).len(),
            forall|k: int|
                0 <= k < out@.len() ==> active_effect_of(
                    #[trigger] out@[k],
                    seats[active_positions_from(seats, timing, 0)[k]],
                ),
        decreases n - i,
    {
        let s = &crew.seats[i];
        let ghost full = active_positions_from(seats, timing, 0);
        let ghost before_len = out@.len();
        if can_activate_in_seat(s) && s.ability.timing == timing {
            let a = ActiveAbilityEffect {
                ability_name: s.ability.name.clone(),
                officer_id: clone_officer_id(&s.officer_id),
                effect: s.ability.effect,
                boosted: s.boosted,
                condition: clone_condition(&s.ability.condition),
            };
            out.push(a);
            proof {
                assert(active_positions_from(seats, timing, i as int) =~= seq![i as int]
                    + active_positions_from(seats, timing, i + 1));
                assert(full[before_len as int] == i as int);
                assert(full.take(out@.len() as int) =~= full.take(before_len as int).push(i as int));
                assert(full =~= full.take(out@.len() as int) + active_positions_from(seats, timing, i + 1));
            }
        } else {
            proof {
                assert(active_positions_from(seats, timing, i as int) == active_positions_from(
                    seats,
                    timing,
                    i + 1,
                ));
            }
        }
        i += 1;
    }
    proof {
        lemma_active_positions_bounds(seats, timing, 0);
        assert(active_positions_from(seats, timing, n as int) =~= Seq::empty());
        assert(active_positions_from(seats, timing, 0).take(out@.len() as int) =~= active_positions_from(seats, timing, 0));
    }
    out
}

/// LCARS officer id of Tal.
pub const TAL_OFFICER_LCARS_ID: &'static str = "tal-c3e4eb";

/// Tal sits in a Captain or Bridge seat of the crew.
pub open spec fn tal_on_captain_or_bridge<E, C>(seats: Seq<CrewSeatContext<E, C>>) -> bool {
    exists|i: int|
        0 <= i < seats.len() && ((#[trigger] seats[i]).seat == CrewSeat::Captain || seats[i].seat
            == CrewSeat::Bridge) && officer_view(seats[i].officer_id) == Some(TAL_OFFICER_LCARS_ID@)
}

/// True if Tal is assigned in a Captain or Bridge seat.
pub fn attacker_crew_tal_assigned_captain_or_bridge<E, C>(crew: &CrewConfiguration<E, C>) -> (r:
    bool)
    ensures
        r == tal_on_captain_or_bridge(crew.seats@),
{
    let mut i: usize = 0;
    while i < crew.seats.len()
        invariant
            i <= crew.seats@.len(),
            forall|j: int|
                0 <= j < i ==> !(((#[trigger] crew.seats@[j]).seat == CrewSeat::Captain
                    || crew.seats@[j].seat == CrewSeat::Bridge) && officer_view(
                    crew.seats@[j].officer_id,
                ) == Some(TAL_OFFICER_LCARS_ID@)),
        decreases crew.seats@.len() - i,
    {
        let s = &crew.seats[i];
        if s.seat == CrewSeat::Captain || s.seat == CrewSeat::Bridge {
            match &s.officer_id {
                Some(id) => {
                    if str_eq(id.as_str(), TAL_OFFICER_LCARS_ID) {
                        proof {
                            assert(officer_view(crew.seats@[i as int].officer_id) == Some(
                                TAL_OFFICER_LCARS_ID@,
                            ));
                        }
                        return true;
                    }
                },
                None => {},
            }
        }
        i += 1;
    }
    false
}

/// Row `j` belongs to the group that row `i` starts: the same explicit batch; or, without
/// batch metadata, the same (present) officer id on consecutive rows without batch metadata.
pub open spec fn continues_group<E, C>(s: Seq<CrewSeatContext<E, C>>, i: int, j: int) -> bool {
    if s[i].contribution_batch != NO_EXPLICIT_CONTRIBUTION_BATCH {
        s[j].contribution_batch == s[i].contribution_batch
    } else {
        s[i].officer_id is Some && s[j].contribution_batch == NO_EXPLICIT_CONTRIBUTION_BATCH
            && officer_view(s[j].officer_id) == officer_view(s[i].officer_id)
    }
}

/// End (exclusive) of the group that row `i` starts, scanning from row `j`.
pub open spec fn group_end_from<E, C>(s: Seq<CrewSeatContext<E, C>>, i: int, j: int) -> int
    decreases s.len() - j,
{
    if j >= s.len() {
        s.len() as int
    } else if continues_group(s, i, j) {
        group_end_from(s, i, j + 1)
    } else {
        j
    }
}

/// End (exclusive) of the group that row `i` starts.
pub open spec fn group_end<E, C>(s: Seq<CrewSeatContext<E, C>>, i: int) -> int {
    group_end_from(s, i, i + 1)
}

proof fn lemma_group_end_from_bounds<E, C>(s: Seq<CrewSeatContext<E, C>>, i: int, j: int)
    requires
        j <= s.len(),
    ensures
        j <= group_end_from(s, i, j) <= s.len(),
        forall|k: int| j <= k < group_end_from(s, i, j) ==> continues_group(s, i, k),
        group_end_from(s, i, j) < s.len() ==> !continues_group(s, i, group_end_from(s, i, j)),
    decreases s.len() - j,
{
    if j < s.len() && continues_group(s, i, j) {
        lemma_group_end_from_bounds(s, i, j + 1);
    }
}

/// The positions `i..j`.
pub open spec fn positions(i: int, j: int) -> Seq<int> {
    Seq::new((j - i) as nat, |k: int| i + k)
}

/// Positions `k..j` of the rows of a group that stay: all of them when the group is kept
/// whole, else only the rows without an officer id.
pub open spec fn group_rows<E, C>(s: Seq<CrewSeatContext<E, C>>, k: int, j: int, whole: bool) -> Seq<int>
    decreases j - k,
{
    if k >= j {
        Seq::empty()
    } else {
        (if whole || s[k].officer_id is None {
            seq![k]
        } else {
            Seq::empty()
        }) + group_rows(s, k + 1, j, whole)
    }
}

/// Whether the group starting at row `i` is kept whole, given the officer ids of the groups
/// kept so far: not when its first row has an officer id already seen.
pub open spec fn group_kept<E, C>(s: Seq<CrewSeatContext<E, C>>, i: int, seen: Seq<Seq<char>>) -> bool {
    match officer_view(s[i].officer_id) {
        Some(o) => !seen.contains(o),
        None => true,
    }
}

/// The officer ids seen after the group starting at row `i`.
pub open spec fn seen_after<E, C>(s: Seq<CrewSeatContext<E, C>>, i: int, seen: Seq<Seq<char>>) -> Seq<Seq<char>> {
    match officer_view(s[i].officer_id) {
        Some(o) => if seen.contains(o) {
            seen
        } else {
            seen.push(o)
        },
        None => seen,
    }
}

/// Positions of the rows that the duplicate-officer policy keeps, from the group starting at
/// row `i` on, given the officer ids of the groups kept so far: a group whose first row has an
/// officer id already seen is dropped, except for its rows without an officer id; every other
/// group is kept whole.
pub open spec fn kept_positions_from<E, C>(
    s: Seq<CrewSeatContext<E, C>>,
    i: int,
    seen: Seq<Seq<char>>,
) -> Seq<int>
    decreases s.len() - i,
{
    if i < 0 || i >= s.len() {
        Seq::empty()
    } else {
        let j = group_end(s, i);
        if j <= i || j > s.len() {
            Seq::empty()
        } else {
            group_rows(s, i, j, group_kept(s, i, seen)) + kept_positions_from(
                s,
                j,
                seen_after(s, i, seen),
            )
        }
    }
}

proof fn lemma_group_rows_bounds<E, C>(s: Seq<CrewSeatContext<E, C>>, k: int, j: int, whole: bool)
    ensures
        group_rows(s, k, j, whole).len() <= if j >= k { j - k } else { 0 },
        forall|m: int|
            0 <= m < group_rows(s, k, j, whole).len() ==> k <= #[trigger] group_rows(s, k, j, whole)[m]
                < j,
        forall|a: int, b: int|
            0 <= a < b < group_rows(s, k, j, whole).len() ==> group_rows(s, k, j, whole)[a]
                < group_rows(s, k, j, whole)[b],
    decreases j - k,
{
    if k < j {
        lemma_group_rows_bounds(s, k + 1, j, whole);
        let r = group_rows(s, k + 1, j, whole);
        let g = group_rows(s, k, j, whole);
        if whole || s[k].officer_id is None {
            assert forall|m: int| 0 <= m < g.len() implies k <= #[trigger] g[m] < j by {
                if m > 0 {
                    assert(g[m] == r[m - 1]);
                }
            }
            assert forall|a: int, b: int| 0 <= a < b < g.len() implies g[a] < g[b] by {
                assert(g[b] == r[b - 1]);
                if a > 0 {
                    assert(g[a] == r[a - 1]);
                }
            }
        } else {
            assert(g =~= r);
        }
    }
}

/// A group kept whole contributes every one of its positions.
proof fn lemma_group_rows_whole<E, C>(s: Seq<CrewSeatContext<E, C>>, k: int, j: int)
    requires
        k <= j,
    ensures
        group_rows(s, k, j, true) == positions(k, j),
    decreases j - k,
{
    if k < j {
        lemma_group_rows_whole(s, k + 1, j);
        assert(seq![k] + positions(k + 1, j) =~= positions(k, j));
    } else {
        assert(positions(k, j) =~= Seq::<int>::empty());
    }
}

/// A row without an officer id in `k..j` stays whatever becomes of its group.
proof fn lemma_group_rows_has_unowned<E, C>(
    s: Seq<CrewSeatContext<E, C>>,
    k: int,
    j: int,
    whole: bool,
    p: int,
)
    requires
        k <= p < j,
        s[p].officer_id is None,
    ensures
        group_rows(s, k, j, whole).contains(p),
    decreases j - k,
{
    let g = group_rows(s, k, j, whole);
    if p == k {
        assert(g[0] == p);
    } else {
        lemma_group_rows_has_unowned(s, k + 1, j, whole, p);
        let r = group_rows(s, k + 1, j, whole);
        let m = choose|m: int| 0 <= m < r.len() && r[m] == p;
        if whole || s[k].officer_id is None {
            assert(g[m + 1] == p);
        } else {
            assert(g[m] == p);
        }
    }
}

/// `b` is a copy of crew row `a`: equal in every field, its condition a clone.
pub open spec fn seat_copy_of<E, C: Clone>(b: CrewSeatContext<E, C>, a: CrewSeatContext<E, C>) -> bool {
    b.seat == a.seat && b.boosted == a.boosted && officer_view(b.officer_id) == officer_view(
        a.officer_id,
    ) && b.contribution_batch == a.contribution_batch && b.ability.name@ == a.ability.name@
        && b.ability.class == a.ability.class && b.ability.timing == a.ability.timing
        && b.ability.boostable == a.ability.boostable && b.ability.effect == a.ability.effect && (
    b.ability.condition is Some == a.ability.condition is Some) && (b.ability.condition is Some
        ==> cloned::<C>(a.ability.condition->0, b.ability.condition->0))
}

fn copy_seat<E: Copy, C: Clone>(a: &CrewSeatContext<E, C>) -> (b: CrewSeatContext<E, C>)
    ensures
        seat_copy_of(b, *a),
{
    CrewSeatContext {
        seat: a.seat,
        ability: Ability {
            name: a.ability.name.clone(),
            class: a.ability.class,
            timing: a.ability.timing,
            boostable: a.ability.boostable,
            effect: a.ability.effect,
            condition: clone_condition(&a.ability.condition),
        },
        boosted: a.boosted,
        officer_id: clone_officer_id(&a.officer_id),
        contribution_batch: a.contribution_batch,
    }
}

fn row_continues_group<E, C>(seats: &Vec<CrewSeatContext<E, C>>, i: usize, j: usize) -> (r: bool)
    requires
        i < seats@.len(),
        j < seats@.len(),
    ensures
        r == continues_group(seats@, i as int, j as int),
{
    let batch = seats[i].contribution_batch;
    if batch != NO_EXPLICIT_CONTRIBUTION_BATCH {
        seats[j].contribution_batch == batch
    } else {
        match (&seats[i].officer_id, &seats[j].officer_id) {
            (Some(a), Some(b)) => seats[j].contribution_batch == NO_EXPLICIT_CONTRIBUTION_BATCH
                && str_eq(b.as_str(), a.as_str()),
            _ => false,
        }
    }
}

fn seen_contains(seen: &Vec<String>, id: &str) -> (r: bool)
    ensures
        r == seen@.map_values(|x: String| x@).contains(id@),
{
    let ghost v = seen@.map_values(|x: String| x@);
    let mut k: usize = 0;
    while k < seen.len()
        invariant
            v == seen@.map_values(|x: String| x@),
            k <= seen@.len(),
            forall|t: int| 0 <= t < k ==> v[t] != id@,
        decreases seen@.len() - k,
    {
        if str_eq(seen[k].as_str(), id) {
            proof {
                assert(v[k as int] == id@);
            }
            return true;
        }
        k += 1;
    }
    false
}

/// Drop later seat groups that share an officer id with an earlier kept group. Grouping uses
/// the contribution batch when set; otherwise consecutive rows with the same officer id form
/// one group. Rows without an officer id are never dropped.
pub fn apply_duplicate_officer_policy<E: Copy, C: Clone>(crew: &CrewConfiguration<E, C>) -> (out:
    CrewConfiguration<E, C>)
    ensures
        out.seats@.len() == kept_positions_from(crew.seats@, 0, Seq::empty()).len(),
        forall|k: int|
            0 <= k < out.seats@.len() ==> 0 <= #[trigger] kept_positions_from(
                crew.seats@,
                0,
                Seq::empty(),
            )[k] < crew.seats@.len(),
        forall|k: int|
            0 <= k < out.seats@.len() ==> seat_copy_of(
                #[trigger] out.seats@[k],
                crew.seats@[kept_positions_from(crew.seats@, 0, Seq::empty())[k]],
            ),
{
    let ghost s = crew.seats@;
    let ghost all = kept_positions_from(s, 0, Seq::empty());
    let n = crew.seats.len();
    let mut out: Vec<CrewSeatContext<E, C>> = Vec::new();
    let mut seen: Vec<String> = Vec::new();
    let mut i: usize = 0;
    proof {
        assert(seen@.map_values(|x: String| x@) =~= Seq::<Seq<char>>::empty());
        assert(all.take(0) + all =~= all);
    }
    while i < n
        invariant
            n == s.len(),
            s == crew.seats@,
            all == kept_positions_from(s, 0, Seq::empty()),
            i <= n,
            all == all.take(out@.len() as int) + kept_positions_from(
                s,
                i as int,
                seen@.map_values(|x: String| x@),
            ),
            out@.len() <= all.len(),
            forall|k: int| 0 <= k < out@.len() ==> 0 <= #[trigger] all[k] < i,
            forall|k: int| 0 <= k < out@.len() ==> seat_copy_of(#[trigger] out@[k], s[all[k]]),
        decreases n - i,
    {
        let batch = crew.seats[i].contribution_batch;
        let mut j: usize = i + 1;
        proof {
            lemma_group_end_from_bounds(s, i as int, i + 1);
        }
        while j < n && row_continues_group(&crew.seats, i, j)
            invariant
                n == s.len(),
                s == crew.seats@,
                i < n,
                batch == s[i as int].contribution_batch,
                i + 1 <= j <= n,
                group_end(s, i as int) == group_end_from(s, i as int, j as int),
            decreases n - j,
        {
            j += 1;
        }
        proof {
            if j < n {
                assert(!continues_group(s, i as int, j as int));
            }
            assert(group_end(s, i as int) == j);
        }
        let ghost seen_v = seen@.map_values(|x: String| x@);
        let keep_group = match &crew.seats[i].officer_id {
            Some(oid) => {
                if seen_contains(&seen, oid.as_str()) {
                    false
                } else {
                    seen.push(oid.clone());
                    proof {
                        assert(seen@.map_values(|x: String| x@) =~= seen_v.push(oid@));
                    }
                    true
                }
            },
            None => true,
        };
        let ghost seen_w = seen@.map_values(|x: String| x@);
        let ghost g = group_rows(s, i as int, j as int, keep_group);
        let ghost base = out@.len() as int;
        proof {
            assert(keep_group == group_kept(s, i as int, seen_v));
            assert(seen_w == seen_after(s, i as int, seen_v));
            assert(kept_positions_from(s, i as int, seen_v) == g + kept_positions_from(
                s,
                j as int,
                seen_w,
            ));
            assert(all == all.take(base) + g + kept_positions_from(s, j as int, seen_w));
            assert forall|m: int| 0 <= m < g.len() implies #[trigger] all[base + m] == g[m] by {
                assert((all.take(base) + g + kept_positions_from(s, j as int, seen_w))[base + m]
                    == g[m]);
            }
            lemma_group_rows_bounds(s, i as int, j as int, keep_group);
            assert(g.take(0) + g =~= g);
        }
        let mut k: usize = i;
        while k < j
            invariant
                n == s.len(),
                s == crew.seats@,
                i <= k <= j <= n,
                g == group_rows(s, i as int, j as int, keep_group),
                base <= out@.len() <= base + g.len(),
                base + g.len() <= all.len(),
                g == g.take(out@.len() - base) + group_rows(s, k as int, j as int, keep_group),
                forall|m: int| 0 <= m < g.len() ==> #[trigger] all[base + m] == g[m],
                forall|m: int|
                    0 <= m < group_rows(s, k as int, j as int, keep_group).len() ==> k <= #[trigger] group_rows(
                        s,
                        k as int,
                        j as int,
                        keep_group,
                    )[m] < j,
                forall|t: int| 0 <= t < out@.len() ==> 0 <= #[trigger] all[t] < k,
                forall|t: int| 0 <= t < out@.len() ==> seat_copy_of(#[trigger] out@[t], s[all[t]]),
            decreases j - k,
        {
            let ghost rest = group_rows(s, k as int, j as int, keep_group);
            let ghost rest2 = group_rows(s, k + 1, j as int, keep_group);
            let ghost m0 = out@.len() - base;
            proof {
                lemma_group_rows_bounds(s, k + 1, j as int, keep_group);
            }
            if keep_group || crew.seats[k].officer_id.is_none() {
                proof {
                    assert(rest == seq![k as int] + rest2);
                    assert(g[m0] == k) by {
                        assert((g.take(m0) + rest)[m0] == rest[0]);
                    }
                    assert(g.take(m0 + 1) + rest2 =~= g) by {
                        assert(g.take(m0 + 1) =~= g.take(m0).push(k as int));
                        assert(g.take(m0) + rest =~= g.take(m0).push(k as int) + rest2);
                    }
                }
                let c = copy_seat(&crew.seats[k]);
                out.push(c);
                proof {
                    assert(all[base + m0] == k);
                }
            } else {
                proof {
                    assert(rest =~= rest2);
                }
            }
            k += 1;
        }
        proof {
            assert(group_rows(s, j as int, j as int, keep_group) =~= Seq::<int>::empty());
            assert(g.take(out@.len() - base) =~= g);
            assert(all.take(out@.len() as int) =~= all.take(base) + g);
        }
        i = j;
    }
    proof {
        assert(kept_positions_from(s, n as int, seen@.map_values(|x: String| x@)) =~= Seq::empty());
        assert(all.take(out@.len() as int) =~= all);
    }
    CrewConfiguration { seats: out }
}


/// No officer id occurs on two rows.
pub open spec fn officer_ids_distinct<E, C>(s: Seq<CrewSeatContext<E, C>>) -> bool {
    forall|p: int, q: int|
        0 <= p < q < s.len() && (#[trigger] s[p]).officer_id is Some && (#[trigger] s[q]).officer_id is Some
            ==> officer_view(s[p].officer_id) != officer_view(s[q].officer_id)
}

/// Some row before `i` has officer id `o`.
spec fn officer_seen_before<E, C>(s: Seq<CrewSeatContext<E, C>>, i: int, o: Seq<char>) -> bool {
    exists|p: int| 0 <= p < i && officer_view((#[trigger] s[p]).officer_id) == Some(o)
}

proof fn lemma_kept_all_from<E, C>(s: Seq<CrewSeatContext<E, C>>, i: int, seen: Seq<Seq<char>>)
    requires
        0 <= i <= s.len(),
        officer_ids_distinct(s),
        forall|k: int| 0 <= k < seen.len() ==> officer_seen_before(s, i, #[trigger] seen[k]),
    ensures
        kept_positions_from(s, i, seen) == positions(i, s.len() as int),
    decreases s.len() - i,
{
    if i == s.len() {
        assert(positions(i, s.len() as int) =~= Seq::<int>::empty());
    } else {
        let j = group_end(s, i);
        lemma_group_end_from_bounds(s, i, i + 1);
        match officer_view(s[i].officer_id) {
            Some(o) => {
                if seen.contains(o) {
                    let k = choose|k: int| 0 <= k < seen.len() && seen[k] == o;
                    assert(officer_seen_before(s, i, seen[k]));
                    let p = choose|p: int|
                        0 <= p < i && officer_view((#[trigger] s[p]).officer_id) == Some(o);
                    assert(s[p].officer_id is Some && s[i].officer_id is Some);
                    assert(false);
                }
                let seen2 = seen.push(o);
                assert forall|k: int| 0 <= k < seen2.len() implies officer_seen_before(
                    s,
                    j,
                    #[trigger] seen2[k],
                ) by {
                    if k < seen.len() {
                        assert(officer_seen_before(s, i, seen[k]));
                        let p = choose|p: int|
                            0 <= p < i && officer_view((#[trigger] s[p]).officer_id) == Some(seen[k]);
                        assert(0 <= p < j && officer_view(s[p].officer_id) == Some(seen2[k]));
                    } else {
                        assert(0 <= i < j && officer_view(s[i].officer_id) == Some(seen2[k]));
                    }
                }
                lemma_kept_all_from(s, j, seen2);
            },
            None => {
                assert forall|k: int| 0 <= k < seen.len() implies officer_seen_before(
                    s,
                    j,
                    #[trigger] seen[k],
                ) by {
                    assert(officer_seen_before(s, i, seen[k]));
                    let p = choose|p: int|
                        0 <= p < i && officer_view((#[trigger] s[p]).officer_id) == Some(seen[k]);
                    assert(0 <= p < j && officer_view(s[p].officer_id) == Some(seen[k]));
                }
                lemma_kept_all_from(s, j, seen);
            },
        }
        lemma_group_rows_whole(s, i, j);
        assert(positions(i, j) + positions(j, s.len() as int) =~= positions(i, s.len() as int));
    }
}

/// A crew in which no officer id occurs twice passes the duplicate-officer policy whole:
/// every row is kept, in order.
pub proof fn lemma_distinct_officers_keep_every_row<E, C>(s: Seq<CrewSeatContext<E, C>>)
    requires
        officer_ids_distinct(s),
    ensures
        kept_positions_from(s, 0, Seq::empty()) == positions(0, s.len() as int),
{
    lemma_kept_all_from(s, 0, Seq::empty());
}

proof fn lemma_unowned_row_kept_from<E, C>(
    s: Seq<CrewSeatContext<E, C>>,
    i: int,
    seen: Seq<Seq<char>>,
    p: int,
)
    requires
        0 <= i <= p < s.len(),
        s[p].officer_id is None,
    ensures
        kept_positions_from(s, i, seen).contains(p),
    decreases s.len() - i,
{
    let j = group_end(s, i);
    lemma_group_end_from_bounds(s, i, i + 1);
    let g = group_rows(s, i, j, group_kept(s, i, seen));
    let all = kept_positions_from(s, i, seen);
    if p < j {
        lemma_group_rows_has_unowned(s, i, j, group_kept(s, i, seen), p);
        let m = choose|m: int| 0 <= m < g.len() && g[m] == p;
        assert(all[m] == p);
    } else {
        lemma_unowned_row_kept_from(s, j, seen_after(s, i, seen), p);
        let rest = kept_positions_from(s, j, seen_after(s, i, seen));
        let k = choose|k: int| 0 <= k < rest.len() && rest[k] == p;
        assert(all[g.len() + k] == p);
    }
}

/// A row that has no officer id is never dropped by the duplicate-officer policy, whatever
/// group it belongs to.
pub proof fn lemma_rows_without_officer_are_kept<E, C>(s: Seq<CrewSeatContext<E, C>>, p: int)
    requires
        0 <= p < s.len(),
        s[p].officer_id is None,
    ensures
        kept_positions_from(s, 0, Seq::empty()).contains(p),
{
    lemma_unowned_row_kept_from(s, 0, Seq::empty(), p);
}

proof fn lemma_kept_positions_ordered<E, C>(s: Seq<CrewSeatContext<E, C>>, i: int, seen: Seq<Seq<char>>)
    requires
        0 <= i,
    ensures
        forall|m: int|
            0 <= m < kept_positions_from(s, i, seen).len() ==> i <= #[trigger] kept_positions_from(
                s,
                i,
                seen,
            )[m] < s.len(),
        forall|a: int, b: int|
            0 <= a < b < kept_positions_from(s, i, seen).len() ==> kept_positions_from(s, i, seen)[a]
                < kept_positions_from(s, i, seen)[b],
    decreases s.len() - i,
{
    if i < s.len() {
        let j = group_end(s, i);
        lemma_group_end_from_bounds(s, i, i + 1);
        let w = group_kept(s, i, seen);
        let g = group_rows(s, i, j, w);
        let r = kept_positions_from(s, j, seen_after(s, i, seen));
        let all = kept_positions_from(s, i, seen);
        lemma_group_rows_bounds(s, i, j, w);
        lemma_kept_positions_ordered(s, j, seen_after(s, i, seen));
        assert(all == g + r);
        assert forall|m: int| 0 <= m < all.len() implies i <= #[trigger] all[m] < s.len() by {
            if m >= g.len() {
                assert(all[m] == r[m - g.len()]);
            } else {
                assert(all[m] == g[m]);
            }
        }
        assert forall|a: int, b: int| 0 <= a < b < all.len() implies all[a] < all[b] by {
            if b < g.len() {
                assert(all[a] == g[a] && all[b] == g[b]);
            } else if a >= g.len() {
                assert(all[a] == r[a - g.len()] && all[b] == r[b - g.len()]);
            } else {
                assert(all[a] == g[a] && all[b] == r[b - g.len()]);
            }
        }
    }
}

/// The duplicate-officer policy keeps rows in their crew order: the positions it keeps are
/// positions of the crew, strictly increasing, so its result is an order-preserving
/// subsequence of the crew.
pub proof fn lemma_policy_keeps_crew_order<E, C>(s: Seq<CrewSeatContext<E, C>>)
    ensures
        forall|m: int|
            0 <= m < kept_positions_from(s, 0, Seq::empty()).len() ==> 0 <= #[trigger] kept_positions_from(
                s,
                0,
                Seq::empty(),
            )[m] < s.len(),
        forall|a: int, b: int|
            0 <= a < b < kept_positions_from(s, 0, Seq::empty()).len() ==> kept_positions_from(
                s,
                0,
                Seq::empty(),
            )[a] < kept_positions_from(s, 0, Seq::empty())[b],
{
    lemma_kept_positions_ordered(s, 0, Seq::empty());
}

/// No row carries an explicit contribution batch.
pub open spec fn no_explicit_batches<E, C>(s: Seq<CrewSeatContext<E, C>>) -> bool {
    forall|k: int| 0 <= k < s.len() ==> (#[trigger] s[k]).contribution_batch == NO_EXPLICIT_CONTRIBUTION_BATCH
}

/// Without batches, every row of the group that row `i` starts has row `i`'s officer id.
proof fn lemma_unbatched_group_shares_officer<E, C>(s: Seq<CrewSeatContext<E, C>>, i: int, k: int)
    requires
        0 <= i < s.len(),
        no_explicit_batches(s),
        i <= k < group_end(s, i),
    ensures
        officer_view(s[k].officer_id) == officer_view(s[i].officer_id),
        k > i ==> s[i].officer_id is Some,
{
    lemma_group_end_from_bounds(s, i, i + 1);
    if k > i {
        assert(continues_group(s, i, k));
    }
}

/// Without batches, once officer `o` is seen no later kept row has officer `o`.
proof fn lemma_seen_officer_not_kept_again<E, C>(
    s: Seq<CrewSeatContext<E, C>>,
    i: int,
    seen: Seq<Seq<char>>,
    o: Seq<char>,
    m: int,
)
    requires
        0 <= i,
        no_explicit_batches(s),
        seen.contains(o),
        0 <= m < kept_positions_from(s, i, seen).len(),
    ensures
        officer_view(s[kept_positions_from(s, i, seen)[m]].officer_id) != Some(o),
    decreases s.len() - i,
{
    if i < s.len() {
        let j = group_end(s, i);
        lemma_group_end_from_bounds(s, i, i + 1);
        let w = group_kept(s, i, seen);
        let g = group_rows(s, i, j, w);
        let seen2 = seen_after(s, i, seen);
        lemma_group_rows_bounds(s, i, j, w);
        let all = kept_positions_from(s, i, seen);
        if m < g.len() {
            assert(all[m] == g[m]);
            let p = g[m];
            lemma_unbatched_group_shares_officer(s, i, p);
            if officer_view(s[p].officer_id) == Some(o) {
                assert(officer_view(s[i].officer_id) == Some(o));
                assert(!w);
                lemma_group_rows_dropped_unowned(s, i, j, m);
            }
        } else {
            assert(seen2.contains(o)) by {
                let t = choose|t: int| 0 <= t < seen.len() && seen[t] == o;
                assert(seen2[t] == o);
            }
            lemma_seen_officer_not_kept_again(s, j, seen2, o, m - g.len());
            assert(all[m] == kept_positions_from(s, j, seen2)[m - g.len()]);
        }
    }
}

/// The rows that a dropped group keeps have no officer id.
proof fn lemma_group_rows_dropped_unowned<E, C>(s: Seq<CrewSeatContext<E, C>>, k: int, j: int, m: int)
    requires
        0 <= m < group_rows(s, k, j, false).len(),
    ensures
        s[group_rows(s, k, j, false)[m]].officer_id is None,
    decreases j - k,
{
    if k < j {
        let r = group_rows(s, k + 1, j, false);
        if s[k].officer_id is None {
            if m > 0 {
                lemma_group_rows_dropped_unowned(s, k + 1, j, m - 1);
                assert(group_rows(s, k, j, false)[m] == r[m - 1]);
            }
        } else {
            assert(group_rows(s, k, j, false) =~= r);
            lemma_group_rows_dropped_unowned(s, k + 1, j, m);
        }
    }
}

/// All rows `p..=q` have officer id `o`.
pub open spec fn officer_run<E, C>(s: Seq<CrewSeatContext<E, C>>, p: int, q: int, o: Seq<char>) -> bool {
    forall|r: int| p <= r <= q ==> officer_view((#[trigger] s[r]).officer_id) == Some(o)
}

proof fn lemma_one_group_per_officer_from<E, C>(
    s: Seq<CrewSeatContext<E, C>>,
    i: int,
    seen: Seq<Seq<char>>,
    a: int,
    b: int,
    o: Seq<char>,
)
    requires
        0 <= i,
        no_explicit_batches(s),
        0 <= a < b < kept_positions_from(s, i, seen).len(),
        officer_view(s[kept_positions_from(s, i, seen)[a]].officer_id) == Some(o),
        officer_view(s[kept_positions_from(s, i, seen)[b]].officer_id) == Some(o),
    ensures
        officer_run(s, kept_positions_from(s, i, seen)[a], kept_positions_from(s, i, seen)[b], o),
    decreases s.len() - i,
{
    if i < s.len() {
        let j = group_end(s, i);
        lemma_group_end_from_bounds(s, i, i + 1);
        let w = group_kept(s, i, seen);
        let g = group_rows(s, i, j, w);
        let seen2 = seen_after(s, i, seen);
        let all = kept_positions_from(s, i, seen);
        lemma_group_rows_bounds(s, i, j, w);
        if b < g.len() {
            assert(all[a] == g[a] && all[b] == g[b]);
            lemma_unbatched_group_shares_officer(s, i, g[a]);
            assert forall|r: int| g[a] <= r <= g[b] implies officer_view((#[trigger] s[r]).officer_id) == Some(o) by {
                lemma_unbatched_group_shares_officer(s, i, r);
            }
        } else if a >= g.len() {
            assert(all[a] == kept_positions_from(s, j, seen2)[a - g.len()]);
            assert(all[b] == kept_positions_from(s, j, seen2)[b - g.len()]);
            lemma_one_group_per_officer_from(s, j, seen2, a - g.len(), b - g.len(), o);
        } else {
            assert(all[a] == g[a]);
            assert(all[b] == kept_positions_from(s, j, seen2)[b - g.len()]);
            lemma_unbatched_group_shares_officer(s, i, g[a]);
            assert(officer_view(s[i].officer_id) == Some(o));
            if !w {
                lemma_group_rows_dropped_unowned(s, i, j, a);
            }
            assert(seen2 == seen.push(o));
            assert(seen2[seen.len() as int] == o);
            lemma_seen_officer_not_kept_again(s, j, seen2, o, b - g.len());
        }
    }
}

/// Without explicit contribution batches, the duplicate-officer policy keeps one group per
/// officer: between two kept rows of one officer, every crew row is that officer's (so in the
/// result an officer's rows stand together).
pub proof fn lemma_one_kept_group_per_officer<E, C>(
    s: Seq<CrewSeatContext<E, C>>,
    a: int,
    b: int,
    o: Seq<char>,
)
    requires
        no_explicit_batches(s),
        0 <= a < b < kept_positions_from(s, 0, Seq::empty()).len(),
        officer_view(s[kept_positions_from(s, 0, Seq::empty())[a]].officer_id) == Some(o),
        officer_view(s[kept_positions_from(s, 0, Seq::empty())[b]].officer_id) == Some(o),
    ensures
        officer_run(
            s,
            kept_positions_from(s, 0, Seq::empty())[a],
            kept_positions_from(s, 0, Seq::empty())[b],
            o,
        ),
{
    lemma_one_group_per_officer_from(s, 0, Seq::empty(), a, b, o);
}

/// Row `p` starts one of the groups met when grouping from row `i` on.
pub open spec fn group_start_from<E, C>(s: Seq<CrewSeatContext<E, C>>, i: int, p: int) -> bool
    decreases s.len() - i,
{
    if i < 0 || i >= s.len() {
        false
    } else {
        let j = group_end(s, i);
        p == i || (i < j <= s.len() && group_start_from(s, j, p))
    }
}

/// Row `p` starts a group that the duplicate-officer policy keeps whole, grouping from row
/// `i` on with the officer ids `seen` already kept.
pub open spec fn kept_group_start_from<E, C>(
    s: Seq<CrewSeatContext<E, C>>,
    i: int,
    seen: Seq<Seq<char>>,
    p: int,
) -> bool
    decreases s.len() - i,
{
    if i < 0 || i >= s.len() {
        false
    } else {
        let j = group_end(s, i);
        (p == i && group_kept(s, i, seen)) || (i < j <= s.len() && kept_group_start_from(
            s,
            j,
            seen_after(s, i, seen),
            p,
        ))
    }
}

proof fn lemma_group_start_at_least<E, C>(s: Seq<CrewSeatContext<E, C>>, i: int, p: int)
    requires
        group_start_from(s, i, p),
    ensures
        i <= p < s.len(),
    decreases s.len() - i,
{
    let j = group_end(s, i);
    if p != i {
        lemma_group_start_at_least(s, j, p);
    }
}

proof fn lemma_kept_start_at_least<E, C>(s: Seq<CrewSeatContext<E, C>>, i: int, seen: Seq<Seq<char>>, p: int)
    requires
        kept_group_start_from(s, i, seen, p),
    ensures
        i <= p < s.len(),
    decreases s.len() - i,
{
    let j = group_end(s, i);
    if !(p == i && group_kept(s, i, seen)) {
        lemma_kept_start_at_least(s, j, seen_after(s, i, seen), p);
    }
}

/// The officer of a group kept later is not among the ids seen before.
proof fn lemma_kept_start_unseen<E, C>(
    s: Seq<CrewSeatContext<E, C>>,
    i: int,
    seen: Seq<Seq<char>>,
    q: int,
    o: Seq<char>,
)
    requires
        kept_group_start_from(s, i, seen, q),
        officer_view(s[q].officer_id) == Some(o),
    ensures
        !seen.contains(o),
    decreases s.len() - i,
{
    let j = group_end(s, i);
    if !(q == i && group_kept(s, i, seen)) {
        lemma_kept_start_unseen(s, j, seen_after(s, i, seen), q, o);
        if seen.contains(o) {
            let t = choose|t: int| 0 <= t < seen.len() && seen[t] == o;
            assert(seen_after(s, i, seen)[t] == o);
        }
    }
}

/// Two groups kept whole never have leading rows with one officer id.
proof fn lemma_kept_starts_distinct_officers<E, C>(
    s: Seq<CrewSeatContext<E, C>>,
    i: int,
    seen: Seq<Seq<char>>,
    p: int,
    q: int,
    o: Seq<char>,
)
    requires
        p < q,
        kept_group_start_from(s, i, seen, p),
        kept_group_start_from(s, i, seen, q),
        officer_view(s[p].officer_id) == Some(o),
    ensures
        officer_view(s[q].officer_id) != Some(o),
    decreases s.len() - i,
{
    let j = group_end(s, i);
    let seen2 = seen_after(s, i, seen);
    lemma_kept_start_at_least(s, i, seen, p);
    if p == i && group_kept(s, i, seen) {
        assert(seen2 == seen.push(o));
        assert(seen2[seen.len() as int] == o);
        if officer_view(s[q].officer_id) == Some(o) {
            lemma_kept_start_unseen(s, j, seen2, q, o);
        }
    } else {
        lemma_kept_start_at_least(s, j, seen2, p);
        lemma_kept_starts_distinct_officers(s, j, seen2, p, q, o);
    }
}

/// Each kept position is the leading row of a group kept whole, or continues the group of
/// the kept position just before it, or has no officer id.
proof fn lemma_kept_position_kinds<E, C>(s: Seq<CrewSeatContext<E, C>>, i: int, seen: Seq<Seq<char>>, m: int)
    requires
        0 <= i,
        0 <= m < kept_positions_from(s, i, seen).len(),
    ensures
        ({
            let kp = kept_positions_from(s, i, seen);
            ||| kept_group_start_from(s, i, seen, kp[m])
            ||| (m > 0 && kp[m - 1] + 1 == kp[m] && continues_group(s, kp[m - 1], kp[m]))
            ||| s[kp[m]].officer_id is None
        }),
    decreases s.len() - i,
{
    let kp = kept_positions_from(s, i, seen);
    let j = group_end(s, i);
    lemma_group_end_from_bounds(s, i, i + 1);
    let w = group_kept(s, i, seen);
    let g = group_rows(s, i, j, w);
    let seen2 = seen_after(s, i, seen);
    let rest = kept_positions_from(s, j, seen2);
    assert(kp == g + rest);
    if m < g.len() {
        if w {
            lemma_group_rows_whole(s, i, j);
            assert(kp[m] == i + m);
            if m > 0 {
                assert(kp[m - 1] == i + m - 1);
                let x = i + m - 1;
                let y = i + m;
                assert(continues_group(s, i, y));
                if x > i {
                    assert(continues_group(s, i, x));
                }
            }
        } else {
            assert(kp[m] == g[m]);
            lemma_group_rows_dropped_unowned(s, i, j, m);
        }
    } else {
        let m2 = m - g.len();
        lemma_kept_position_kinds(s, j, seen2, m2);
        assert(kp[m] == rest[m2]);
        if m2 > 0 {
            assert(kp[m - 1] == rest[m2 - 1]);
        }
    }
}

/// Grouping continues: if row `x` belongs to the group of row `i` (or is row `i`) and row `y`
/// continues the group of row `x`, then `y` belongs to the group of `i`.
proof fn lemma_continues_through<E, C>(s: Seq<CrewSeatContext<E, C>>, i: int, x: int, y: int)
    requires
        i == x || continues_group(s, i, x),
        continues_group(s, x, y),
    ensures
        continues_group(s, i, y),
{
}

proof fn lemma_group_start_next<E, C>(s: Seq<CrewSeatContext<E, C>>, a: int, i: int)
    requires
        group_start_from(s, a, i),
        group_end(s, i) < s.len(),
    ensures
        group_start_from(s, a, group_end(s, i)),
    decreases s.len() - a,
{
    let ja = group_end(s, a);
    lemma_group_end_from_bounds(s, a, a + 1);
    lemma_group_end_from_bounds(s, i, i + 1);
    lemma_group_start_at_least(s, a, i);
    if i == a {
        assert(group_start_from(s, ja, ja));
    } else {
        lemma_group_start_next(s, ja, i);
    }
}

/// A group start never continues the group of the row just before it.
proof fn lemma_start_breaks_group<E, C>(s: Seq<CrewSeatContext<E, C>>, i: int, k: int)
    requires
        group_start_from(s, i, k),
        0 <= i < k,
    ensures
        !continues_group(s, k - 1, k),
    decreases s.len() - i,
{
    let j = group_end(s, i);
    lemma_group_end_from_bounds(s, i, i + 1);
    lemma_group_start_at_least(s, i, k);
    lemma_group_start_at_least(s, j, k);
    if j == k {
        if k - 1 > i {
            assert(continues_group(s, i, k - 1));
        }
        if continues_group(s, k - 1, k) {
            lemma_continues_through(s, i, k - 1, k);
        }
    } else {
        lemma_start_breaks_group(s, j, k);
    }
}

/// Policy output `t` of crew `s`: its rows copy the kept rows, in order.
pub open spec fn policy_output_of<E, C: Clone>(
    s: Seq<CrewSeatContext<E, C>>,
    t: Seq<CrewSeatContext<E, C>>,
) -> bool {
    &&& t.len() == kept_positions_from(s, 0, Seq::empty()).len()
    &&& forall|k: int|
        0 <= k < t.len() ==> seat_copy_of(#[trigger] t[k], s[kept_positions_from(s, 0, Seq::empty())[k]])
}

/// In the output, no two group starts have one officer id.
proof fn lemma_output_starts_distinct<E, C: Clone>(
    s: Seq<CrewSeatContext<E, C>>,
    t: Seq<CrewSeatContext<E, C>>,
    p: int,
    q: int,
    o: Seq<char>,
)
    requires
        policy_output_of(s, t),
        p < q,
        group_start_from(t, 0, p),
        group_start_from(t, 0, q),
        officer_view(t[p].officer_id) == Some(o),
    ensures
        officer_view(t[q].officer_id) != Some(o),
{
    let kp = kept_positions_from(s, 0, Seq::empty());
    lemma_group_start_at_least(t, 0, p);
    lemma_group_start_at_least(t, 0, q);
    lemma_kept_positions_ordered(s, 0, Seq::empty());
    assert(seat_copy_of(t[p], s[kp[p]]));
    assert(seat_copy_of(t[q], s[kp[q]]));
    assert forall|k: int| 0 < k < t.len() && group_start_from(t, 0, k) && t[k].officer_id is Some
        implies #[trigger] kept_group_start_from(s, 0, Seq::empty(), kp[k]) by {
        lemma_kept_position_kinds(s, 0, Seq::empty(), k);
        assert(seat_copy_of(t[k], s[kp[k]]));
        assert(seat_copy_of(t[k - 1], s[kp[k - 1]]));
        lemma_start_breaks_group(t, 0, k);
        if !kept_group_start_from(s, 0, Seq::empty(), kp[k]) {
            assert(continues_group(s, kp[k - 1], kp[k]));
            assert(continues_group(t, k - 1, k));
        }
    }
    if officer_view(t[q].officer_id) == Some(o) {
        if p == 0 {
            lemma_kept_position_kinds(s, 0, Seq::empty(), 0);
        }
        assert(kept_group_start_from(s, 0, Seq::empty(), kp[p]));
        assert(kept_group_start_from(s, 0, Seq::empty(), kp[q]));
        lemma_kept_starts_distinct_officers(s, 0, Seq::empty(), kp[p], kp[q], o);
    }
}

proof fn lemma_output_kept_all_from<E, C: Clone>(
    s: Seq<CrewSeatContext<E, C>>,
    t: Seq<CrewSeatContext<E, C>>,
    i: int,
    seen: Seq<Seq<char>>,
)
    requires
        policy_output_of(s, t),
        0 <= i <= t.len(),
        i < t.len() ==> group_start_from(t, 0, i),
        forall|k: int|
            0 <= k < seen.len() ==> exists|p: int|
                0 <= p < i && group_start_from(t, 0, p) && officer_view((#[trigger] t[p]).officer_id)
                    == Some(#[trigger] seen[k]),
    ensures
        kept_positions_from(t, i, seen) == positions(i, t.len() as int),
    decreases t.len() - i,
{
    if i == t.len() {
        assert(positions(i, t.len() as int) =~= Seq::<int>::empty());
    } else {
        let j = group_end(t, i);
        lemma_group_end_from_bounds(t, i, i + 1);
        if let Some(o) = officer_view(t[i].officer_id) {
            if seen.contains(o) {
                let k = choose|k: int| 0 <= k < seen.len() && seen[k] == o;
                let p = choose|p: int|
                    0 <= p < i && group_start_from(t, 0, p) && officer_view((#[trigger] t[p]).officer_id)
                        == Some(seen[k]);
                lemma_output_starts_distinct(s, t, p, i, o);
                assert(false);
            }
        }
        assert(group_kept(t, i, seen));
        let seen2 = seen_after(t, i, seen);
        assert forall|k: int| 0 <= k < seen2.len() implies exists|p: int|
            0 <= p < j && group_start_from(t, 0, p) && officer_view((#[trigger] t[p]).officer_id)
                == Some(#[trigger] seen2[k]) by {
            if k < seen.len() {
                assert(seen2[k] == seen[k]);
                let p = choose|p: int|
                    0 <= p < i && group_start_from(t, 0, p) && officer_view((#[trigger] t[p]).officer_id)
                        == Some(seen[k]);
                assert(0 <= p < j && group_start_from(t, 0, p));
            } else {
                assert(0 <= i < j && group_start_from(t, 0, i) && officer_view(t[i].officer_id)
                    == Some(seen2[k]));
            }
        }
        if j < t.len() {
            lemma_group_start_next(t, 0, i);
        }
        lemma_output_kept_all_from(s, t, j, seen2);
        lemma_group_rows_whole(t, i, j);
        assert(positions(i, j) + positions(j, t.len() as int) =~= positions(i, t.len() as int));
    }
}

/// The duplicate-officer policy is idempotent: applied to its own result (rows that copy the
/// kept rows, in order) it keeps every row, so it gives that result back.
pub proof fn lemma_policy_idempotent<E, C: Clone>(
    s: Seq<CrewSeatContext<E, C>>,
    t: Seq<CrewSeatContext<E, C>>,
)
    requires
        policy_output_of(s, t),
    ensures
        kept_positions_from(t, 0, Seq::empty()) == positions(0, t.len() as int),
{
    if t.len() > 0 {
        assert(group_start_from(t, 0, 0));
    }
    lemma_output_kept_all_from(s, t, 0, Seq::empty());
}

/// The seat an ability class fires in: captain maneuvers in the captain seat, bridge
/// abilities on the bridge, below-deck abilities below deck and ship abilities in the ship
/// seat.
pub open spec fn class_fires_in(class: AbilityClass, seat: CrewSeat) -> bool {
    ||| class == AbilityClass::CaptainManeuver && seat == CrewSeat::Captain
    ||| class == AbilityClass::BridgeAbility && seat == CrewSeat::Bridge
    ||| class == AbilityClass::BelowDeck && seat == CrewSeat::BelowDeck
    ||| class == AbilityClass::ShipAbility && seat == CrewSeat::Ship
}

/// Seat activation: a row in a seat where its class does not fire never activates; a row in
/// its class's seat activates when it is not boosted, whatever its ability's boostable flag;
/// a boosted row activates exactly when its ability is boostable.
pub proof fn lemma_seat_activation_rules<E, C>(c: CrewSeatContext<E, C>)
    ensures
        !class_fires_in(c.ability.class, c.seat) ==> !seat_can_activate(c),
        class_fires_in(c.ability.class, c.seat) && !c.boosted ==> seat_can_activate(c),
        class_fires_in(c.ability.class, c.seat) && c.boosted ==> (seat_can_activate(c)
            == c.ability.boostable),
{
}

proof fn lemma_active_positions_members<E, C>(
    seats: Seq<CrewSeatContext<E, C>>,
    timing: TimingWindow,
    i: int,
    p: int,
)
    requires
        0 <= i,
    ensures
        active_positions_from(seats, timing, i).contains(p) <==> (i <= p < seats.len()
            && seat_can_activate(seats[p]) && seats[p].ability.timing == timing),
    decreases seats.len() - i,
{
    if i < seats.len() {
        lemma_active_positions_members(seats, timing, i + 1, p);
        let rest = active_positions_from(seats, timing, i + 1);
        let all = active_positions_from(seats, timing, i);
        if seat_can_activate(seats[i]) && seats[i].ability.timing == timing {
            assert(all == seq![i] + rest);
            if rest.contains(p) {
                let k = choose|k: int| 0 <= k < rest.len() && rest[k] == p;
                assert(all[k + 1] == p);
            }
            if p == i {
                assert(all[0] == p);
            }
            if all.contains(p) && p != i {
                let k = choose|k: int| 0 <= k < all.len() && all[k] == p;
                assert(rest[k - 1] == p);
            }
        } else {
            assert(all == rest);
        }
    } else {
        assert(active_positions_from(seats, timing, i) =~= Seq::<int>::empty());
    }
}

/// The effects active at a timing window come from exactly the crew rows with that timing
/// that can fire in their seat: a row is used when its class fires in its seat, it is not a
/// boosted row of a non-boostable ability, and its ability has that timing.
pub proof fn lemma_active_rows_are_exactly_the_firing_rows<E, C>(
    seats: Seq<CrewSeatContext<E, C>>,
    timing: TimingWindow,
    p: int,
)
    ensures
        active_positions_from(seats, timing, 0).contains(p) <==> (0 <= p < seats.len()
            && class_fires_in(seats[p].ability.class, seats[p].seat) && (!seats[p].boosted
            || seats[p].ability.boostable) && seats[p].ability.timing == timing),
{
    lemma_active_positions_members(seats, timing, 0, p);
    if 0 <= p < seats.len() {
        lemma_seat_activation_rules(seats[p]);
    }
}

proof fn lemma_pick_at_interval(ws: Seq<(u32, u32)>, p: nat, i: int)
    requires
        0 <= i < ws.len(),
        weight_sum(ws.take(i)) <= p < weight_sum(ws.take(i + 1)),
    ensures
        pick_at(ws, p) == Some(ws[i].0),
    decreases i,
{
    assert(ws.take(i + 1).drop_first() =~= ws.drop_first().take(i));
    assert(ws.take(i + 1)[0] == ws[0]);
    if i == 0 {
        assert(ws.take(0) =~= Seq::<(u32, u32)>::empty());
        assert(ws.drop_first().take(0) =~= Seq::<(u32, u32)>::empty());
    } else {
        assert(ws.take(i).drop_first() =~= ws.drop_first().take(i - 1));
        assert(ws.take(i)[0] == ws[0]);
        lemma_pick_at_interval(ws.drop_first(), (p - ws[0].1) as nat, i - 1);
        assert(ws.drop_first()[i - 1] == ws[i]);
    }
}

/// The weighted pick walks the cumulative weights: with a positive total weight, the draw
/// reduced modulo the total falls in the interval `[w_0 + .. + w_(i-1), w_0 + .. + w_i)` of
/// exactly one entry `i`, and that entry's id is picked. With a zero total the first id is
/// picked, or 8 from an empty table.
pub proof fn lemma_weighted_pick_by_cumulative_weight(ws: Seq<(u32, u32)>, draw: u64, i: int)
    ensures
        weight_sum(ws) > 0 && 0 <= i < ws.len() && weight_sum(ws.take(i)) <= (draw as nat)
            % weight_sum(ws) < weight_sum(ws.take(i + 1)) ==> weighted_pick(ws, draw) == ws[i].0,
        weight_sum(ws) == 0 ==> weighted_pick(ws, draw) == if ws.len() > 0 {
            ws[0].0
        } else {
            8
        },
{
    if weight_sum(ws) > 0 && 0 <= i < ws.len() && weight_sum(ws.take(i)) <= (draw as nat)
        % weight_sum(ws) < weight_sum(ws.take(i + 1)) {
        lemma_pick_at_interval(ws, (draw as nat) % weight_sum(ws), i);
    }
}

/// A random state extends its timer to the state's duration and never shortens it: the new
/// value is at least the old one, at least the duration and at least one round, and is the
/// larger of the old value and the duration (one round for a zero duration).
pub proof fn lemma_random_state_timer_extends(old_rounds: u32, duration_rounds: u32)
    ensures
        max_u32(old_rounds, state_duration(duration_rounds)) >= old_rounds,
        max_u32(old_rounds, state_duration(duration_rounds)) >= duration_rounds,
        max_u32(old_rounds, state_duration(duration_rounds)) >= 1,
        max_u32(old_rounds, state_duration(duration_rounds)) == old_rounds || max_u32(
            old_rounds,
            state_duration(duration_rounds),
        ) == duration_rounds || (duration_rounds == 0 && max_u32(
            old_rounds,
            state_duration(duration_rounds),
        ) == 1),
{
}

} // verus!
