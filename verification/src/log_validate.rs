//! Canonical timeline validation of ingested combat logs: sequence numbering, and per round
//! the placement of `round_start`, `damage_application` and `end_of_round_effects` rows.

use vstd::prelude::*;
use crate::text::{append_decimal, decimal_digits, str_eq, views};

verus! {

/// What the timeline validator reads of one ingested event.
#[derive(Debug, Clone, PartialEq, Eq)]
pub struct TimelineEvent {
    pub event_type: String,
    pub round_index: u32,
    /// Monotonic timeline position, when the log carries one.
    pub sequence: Option<u32>,
}

#[derive(Debug, Clone, Default, PartialEq, Eq)]
pub struct TimelineValidationOutcome {
    pub errors: Vec<String>,
    pub warnings: Vec<String>,
}

/// Every event carries a sequence number.
pub open spec fn all_sequenced(evs: Seq<TimelineEvent>) -> bool {
    forall|i: int| 0 <= i < evs.len() ==> (#[trigger] evs[i]).sequence is Some
}

/// Number of events that carry a sequence number.
pub open spec fn sequenced_count(evs: Seq<TimelineEvent>) -> nat
    decreases evs.len(),
{
    if evs.len() == 0 {
        0
    } else {
        sequenced_count(evs.drop_last()) + if evs.last().sequence is Some {
            1nat
        } else {
            0nat
        }
    }
}

/// Event `i` comes before event `j` in timeline order: by (sequence, position) when every
/// event is sequenced, else by position.
pub open spec fn before(evs: Seq<TimelineEvent>, i: int, j: int) -> bool {
    if all_sequenced(evs) {
        let si = evs[i].sequence->0;
        let sj = evs[j].sequence->0;
        si < sj || (si == sj && i < j)
    } else {
        i < j
    }
}

pub open spec fn in_round(evs: Seq<TimelineEvent>, i: int, r: u32) -> bool {
    0 <= i < evs.len() && evs[i].round_index == r
}

pub open spec fn has_type(evs: Seq<TimelineEvent>, i: int, t: Seq<char>) -> bool {
    evs[i].event_type@ == t
}

/// In round `r`, some `damage_application` has no `round_start` before it.
pub open spec fn damage_before_round_start(evs: Seq<TimelineEvent>, r: u32) -> bool {
    exists|d: int|
        #![trigger in_round(evs, d, r)]
        in_round(evs, d, r) && has_type(evs, d, "damage_application"@) && forall|s: int|
            in_round(evs, s, r) && has_type(evs, s, "round_start"@) ==> !#[trigger] before(
                evs,
                s,
                d,
            )
}

/// Number of events of type `t` in round `r` among the first `n` events.
pub open spec fn count_in_round(evs: Seq<TimelineEvent>, r: u32, t: Seq<char>, n: int) -> nat
    decreases n,
{
    if n <= 0 {
        0
    } else {
        count_in_round(evs, r, t, n - 1) + if in_round(evs, n - 1, r) && has_type(evs, n - 1, t) {
            1nat
        } else {
            0nat
        }
    }
}

/// In round `r`, the first `end_of_round_effects` row is followed by some other row.
pub open spec fn end_effects_not_last(evs: Seq<TimelineEvent>, r: u32) -> bool {
    exists|x: int|
        #![trigger in_round(evs, x, r)]
        in_round(evs, x, r) && has_type(evs, x, "end_of_round_effects"@) && (forall|z: int|
            in_round(evs, z, r) && has_type(evs, z, "end_of_round_effects"@) ==> !#[trigger] before(
                evs,
                z,
                x,
            )) && exists|y: int| in_round(evs, y, r) && #[trigger] before(evs, x, y)
}

pub open spec fn msg_count_mismatch(count: nat, total: nat) -> Seq<char> {
    "either all events must include sequence or none; got "@ + decimal_digits(count) + " of "@
        + decimal_digits(total)
}

pub open spec fn msg_not_increasing(s: u32, p: u32) -> Seq<char> {
    "sequence must be strictly increasing: "@ + decimal_digits(s as nat) + " follows "@
        + decimal_digits(p as nat)
}

pub open spec fn msg_damage_first(r: u32) -> Seq<char> {
    "round "@ + decimal_digits(r as nat) + ": damage_application occurs before round_start"@
}

pub open spec fn msg_multiple_end(r: u32) -> Seq<char> {
    "round "@ + decimal_digits(r as nat) + ": multiple end_of_round_effects entries"@
}

pub open spec fn msg_end_not_last(r: u32) -> Seq<char> {
    "round "@ + decimal_digits(r as nat)
        + ": end_of_round_effects must be the last event for that round in timeline order"@
}

/// The issues of round `r`, in check order.
pub open spec fn round_issues(evs: Seq<TimelineEvent>, r: u32) -> Seq<Seq<char>> {
    (if damage_before_round_start(evs, r) {
        seq![msg_damage_first(r)]
    } else {
        Seq::empty()
    }) + (if count_in_round(evs, r, "end_of_round_effects"@, evs.len() as int) > 1 {
        seq![msg_multiple_end(r)]
    } else {
        Seq::empty()
    }) + (if end_effects_not_last(evs, r) {
        seq![msg_end_not_last(r)]
    } else {
        Seq::empty()
    })
}

/// Some event's round is at least `lo`.
pub open spec fn has_round_from(evs: Seq<TimelineEvent>, lo: int) -> bool {
    exists|i: int| 0 <= i < evs.len() && (#[trigger] evs[i]).round_index >= lo
}

/// `m` is the smallest round index that is at least `lo`.
pub open spec fn is_min_round_from(evs: Seq<TimelineEvent>, lo: int, m: u32) -> bool {
    m >= lo && (exists|i: int| in_round(evs, i, m)) && (forall|i: int|
        0 <= i < evs.len() && (#[trigger] evs[i]).round_index >= lo ==> evs[i].round_index >= m)
}

/// The smallest round index that is at least `lo`.
pub open spec fn min_round_from(evs: Seq<TimelineEvent>, lo: int) -> u32 {
    choose|m: u32| #[trigger] is_min_round_from(evs, lo, m)
}

/// Issues of every round index at least `lo`, rounds in ascending order.
pub open spec fn round_issues_from(evs: Seq<TimelineEvent>, lo: int) -> Seq<Seq<char>>
    decreases 0x1_0000_0000 - lo,
{
    if lo < 0 || lo > 0xffff_ffff || !has_round_from(evs, lo) {
        Seq::empty()
    } else {
        let m = min_round_from(evs, lo);
        if m < lo {
            Seq::empty()
        } else {
            round_issues(evs, m) + round_issues_from(evs, m + 1)
        }
    }
}

/// Sequence-order errors among the first `n` events: each event whose sequence does not
/// exceed its predecessor's.
pub open spec fn order_errors(evs: Seq<TimelineEvent>, n: int) -> Seq<Seq<char>>
    decreases n,
{
    if n < 2 || n > evs.len() {
        Seq::empty()
    } else {
        order_errors(evs, n - 1) + if evs[n - 1].sequence->0 <= evs[n - 2].sequence->0 {
            seq![msg_not_increasing(evs[n - 1].sequence->0, evs[n - 2].sequence->0)]
        } else {
            Seq::empty()
        }
    }
}

/// Validation applies when the schema version is at least 2 or some event is sequenced.
pub open spec fn should_validate(schema_version: u32, evs: Seq<TimelineEvent>) -> bool {
    schema_version >= 2 || sequenced_count(evs) > 0
}

/// The issue reported when only some events are sequenced.
pub open spec fn count_issues(evs: Seq<TimelineEvent>) -> Seq<Seq<char>> {
    let c = sequenced_count(evs);
    if c > 0 && c != evs.len() {
        seq![msg_count_mismatch(c, evs.len())]
    } else {
        Seq::empty()
    }
}

/// Every issue of a log that is checked, in report order: the count issue, the sequence-order
/// issues (when every event is sequenced) and the round issues in ascending round order.
pub open spec fn timeline_issues(evs: Seq<TimelineEvent>) -> Seq<Seq<char>> {
    count_issues(evs) + (if sequenced_count(evs) == evs.len() {
        order_errors(evs, evs.len() as int)
    } else {
        Seq::empty()
    }) + round_issues_from(evs, 0)
}

/// The errors that validation reports: every issue in strict mode (schema version at least
/// 2); nothing otherwise.
pub open spec fn expected_errors(schema_version: u32, evs: Seq<TimelineEvent>) -> Seq<Seq<char>> {
    if should_validate(schema_version, evs) && schema_version >= 2 {
        timeline_issues(evs)
    } else {
        Seq::empty()
    }
}

/// The warnings that validation reports: the same issues in lenient mode (schema version
/// below 2 with some sequenced event); nothing otherwise.
pub open spec fn expected_warnings(schema_version: u32, evs: Seq<TimelineEvent>) -> Seq<Seq<char>> {
    if should_validate(schema_version, evs) && schema_version < 2 {
        timeline_issues(evs)
    } else {
        Seq::empty()
    }
}

proof fn lemma_before_order(evs: Seq<TimelineEvent>, i: int, j: int, k: int)
    requires
        0 <= i < evs.len(),
        0 <= j < evs.len(),
        0 <= k < evs.len(),
    ensures
        !before(evs, i, i),
        before(evs, i, j) ==> !before(evs, j, i),
        before(evs, i, j) && before(evs, j, k) ==> before(evs, i, k),
        i != j ==> before(evs, i, j) || before(evs, j, i),
{
    if all_sequenced(evs) {
        assert(evs[i].sequence is Some);
        assert(evs[j].sequence is Some);
        assert(evs[k].sequence is Some);
    }
}

proof fn lemma_min_round_unique(evs: Seq<TimelineEvent>, lo: int, m1: u32, m2: u32)
    requires
        is_min_round_from(evs, lo, m1),
        is_min_round_from(evs, lo, m2),
    ensures
        m1 == m2,
{
    let i1 = choose|i: int| in_round(evs, i, m1);
    let i2 = choose|i: int| in_round(evs, i, m2);
    assert(evs[i1].round_index >= m2);
    assert(evs[i2].round_index >= m1);
}

proof fn lemma_round_issues_step(evs: Seq<TimelineEvent>, lo: int, m: u32)
    requires
        0 <= lo <= 0xffff_ffff,
        is_min_round_from(evs, lo, m),
    ensures
        round_issues_from(evs, lo) == round_issues(evs, m) + round_issues_from(evs, m + 1),
{
    let i = choose|i: int| in_round(evs, i, m);
    assert(has_round_from(evs, lo)) by {
        assert(evs[i].round_index >= lo);
    }
    let mm = min_round_from(evs, lo);
    assert(is_min_round_from(evs, lo, mm));
    lemma_min_round_unique(evs, lo, m, mm);
}

fn key_before(events: &[TimelineEvent], all_seq: bool, i: usize, j: usize) -> (r: bool)
    requires
        i < events@.len(),
        j < events@.len(),
        all_seq == all_sequenced(events@),
    ensures
        r == before(events@, i as int, j as int),
{
    if all_seq {
        proof {
            assert(events@[i as int].sequence is Some);
            assert(events@[j as int].sequence is Some);
        }
        let si = events[i].sequence.unwrap();
        let sj = events[j].sequence.unwrap();
        si < sj || (si == sj && i < j)
    } else {
        i < j
    }
}

/// The first event of type `t` in round `r`, if any.
fn first_of_type(events: &[TimelineEvent], all_seq: bool, r: u32, t: &str) -> (b: Option<usize>)
    requires
        all_seq == all_sequenced(events@),
    ensures
        match b {
            Some(x) => in_round(events@, x as int, r) && has_type(events@, x as int, t@) && forall|
                j: int,
            |
                in_round(events@, j, r) && has_type(events@, j, t@) ==> !#[trigger] before(
                    events@,
                    j,
                    x as int,
                ),
            None => forall|j: int| in_round(events@, j, r) ==> !#[trigger] has_type(events@, j, t@),
        },
{
    let mut best: Option<usize> = None;
    let mut i: usize = 0;
    while i < events.len()
        invariant
            all_seq == all_sequenced(events@),
            i <= events@.len(),
            match best {
                Some(x) => x < i && in_round(events@, x as int, r) && has_type(events@, x as int, t@)
                    && forall|j: int|
                    0 <= j < i && in_round(events@, j, r) && has_type(events@, j, t@)
                        ==> !#[trigger] before(events@, j, x as int),
                None => forall|j: int|
                    0 <= j < i && in_round(events@, j, r) ==> !#[trigger] has_type(events@, j, t@),
            },
        decreases events@.len() - i,
    {
        if events[i].round_index == r && str_eq(events[i].event_type.as_str(), t) {
            match best {
                None => {
                    best = Some(i);
                    proof {
                        assert forall|j: int|
                            0 <= j < i + 1 && in_round(events@, j, r) && has_type(events@, j, t@)
                                implies !#[trigger] before(events@, j, i as int) by {
                            lemma_before_order(events@, j, i as int, i as int);
                        }
                    }
                },
                Some(x) => {
                    if key_before(events, all_seq, i, x) {
                        best = Some(i);
                        proof {
                            assert forall|j: int|
                                0 <= j < i + 1 && in_round(events@, j, r) && has_type(events@, j, t@)
                                    implies !#[trigger] before(events@, j, i as int) by {
                                lemma_before_order(events@, j, i as int, x as int);
                                lemma_before_order(events@, j, x as int, i as int);
                            }
                        }
                    } else {
                        proof {
                            assert forall|j: int|
                                0 <= j < i + 1 && in_round(events@, j, r) && has_type(events@, j, t@)
                                    implies !#[trigger] before(events@, j, x as int) by {
                                if j == i {
                                    lemma_before_order(events@, j, x as int, x as int);
                                }
                            }
                        }
                    }
                },
            }
        }
        i += 1;
    }
    best
}

/// The last event of round `r`, if any.
fn last_in_round(events: &[TimelineEvent], all_seq: bool, r: u32) -> (b: Option<usize>)
    requires
        all_seq == all_sequenced(events@),
    ensures
        match b {
            Some(x) => in_round(events@, x as int, r) && forall|j: int|
                in_round(events@, j, r) ==> !#[trigger] before(events@, x as int, j),
            None => forall|j: int| !#[trigger] in_round(events@, j, r),
        },
{
    let mut best: Option<usize> = None;
    let mut i: usize = 0;
    while i < events.len()
        invariant
            all_seq == all_sequenced(events@),
            i <= events@.len(),
            match best {
                Some(x) => x < i && in_round(events@, x as int, r) && forall|j: int|
                    0 <= j < i && in_round(events@, j, r) ==> !#[trigger] before(events@, x as int, j),
                None => forall|j: int| 0 <= j < i ==> !#[trigger] in_round(events@, j, r),
            },
        decreases events@.len() - i,
    {
        if events[i].round_index == r {
            match best {
                None => {
                    best = Some(i);
                    proof {
                        assert forall|j: int| 0 <= j < i + 1 && in_round(events@, j, r) implies !#[trigger] before(
                            events@,
                            i as int,
                            j,
                        ) by {
                            lemma_before_order(events@, j, i as int, i as int);
                        }
                    }
                },
                Some(x) => {
                    if key_before(events, all_seq, x, i) {
                        best = Some(i);
                        proof {
                            assert forall|j: int| 0 <= j < i + 1 && in_round(events@, j, r) implies !#[trigger] before(
                                events@,
                                i as int,
                                j,
                            ) by {
                                lemma_before_order(events@, x as int, i as int, j);
                                lemma_before_order(events@, i as int, j, x as int);
                                lemma_before_order(events@, i as int, x as int, j);
                            }
                        }
                    } else {
                        proof {
                            assert forall|j: int| 0 <= j < i + 1 && in_round(events@, j, r) implies !#[trigger] before(
                                events@,
                                x as int,
                                j,
                            ) by {
                                if j == i {
                                    lemma_before_order(events@, x as int, x as int, x as int);
                                }
                            }
                        }
                    }
                },
            }
        }
        i += 1;
    }
    best
}

/// Number of events of type `t` in round `r`.
fn count_of_type(events: &[TimelineEvent], r: u32, t: &str) -> (c: usize)
    ensures
        c == count_in_round(events@, r, t@, events@.len() as int),
{
    let mut c: usize = 0;
    let mut i: usize = 0;
    while i < events.len()
        invariant
            i <= events@.len(),
            c == count_in_round(events@, r, t@, i as int),
            c <= i,
        decreases events@.len() - i,
    {
        if events[i].round_index == r && str_eq(events[i].event_type.as_str(), t) {
            c += 1;
        }
        i += 1;
    }
    c
}

fn push_round_message(out: &mut Vec<String>, r: u32, suffix: &str)
    ensures
        views(final(out)@) == views(old(out)@) + seq![
            "round "@ + decimal_digits(r as nat) + suffix@,
        ],
{
    let mut m = "round ".to_owned();
    append_decimal(&mut m, r as u64);
    m.append(suffix);
    let ghost before_push = out@;
    out.push(m);
    proof {
        assert(views(out@) =~= views(before_push) + seq![
            "round "@ + decimal_digits(r as nat) + suffix@,
        ]);
    }
}

/// Append the issues of round `r` to `out`.
fn push_round_issues(events: &[TimelineEvent], all_seq: bool, r: u32, out: &mut Vec<String>)
    requires
        all_seq == all_sequenced(events@),
        exists|i: int| in_round(events@, i, r),
    ensures
        views(final(out)@) == views(old(out)@) + round_issues(events@, r),
{
    let ghost evs = events@;
    let ghost start = views(out@);
    let first_start = first_of_type(events, all_seq, r, "round_start");
    let first_damage = first_of_type(events, all_seq, r, "damage_application");
    let damage_first = match first_damage {
        None => false,
        Some(d) => match first_start {
            None => true,
            Some(st) => key_before(events, all_seq, d, st),
        },
    };
    proof {
        match first_damage {
            None => {
                if damage_before_round_start(evs, r) {
                    let d = choose|d: int|
                        #![trigger in_round(evs, d, r)]
                        in_round(evs, d, r) && has_type(evs, d, "damage_application"@) && forall|s: int|
                            in_round(evs, s, r) && has_type(evs, s, "round_start"@) ==> !#[trigger] before(
                                evs,
                                s,
                                d,
                            );
                    assert(!has_type(evs, d, "damage_application"@));
                }
            },
            Some(d) => {
                match first_start {
                    None => {
                        assert forall|s: int|
                            in_round(evs, s, r) && has_type(evs, s, "round_start"@) implies !#[trigger] before(
                            evs,
                            s,
                            d as int,
                        ) by {}
                        assert(in_round(evs, d as int, r));
                    },
                    Some(st) => {
                        if damage_first {
                            assert forall|s: int|
                                in_round(evs, s, r) && has_type(evs, s, "round_start"@) implies !#[trigger] before(
                                evs,
                                s,
                                d as int,
                            ) by {
                                lemma_before_order(evs, s, d as int, st as int);
                                lemma_before_order(evs, st as int, s, d as int);
                                lemma_before_order(evs, s, st as int, d as int);
                                lemma_before_order(evs, d as int, st as int, s);
                            }
                            assert(in_round(evs, d as int, r));
                        } else {
                            if damage_before_round_start(evs, r) {
                                let dd = choose|dd: int|
                                    #![trigger in_round(evs, dd, r)]
                                    in_round(evs, dd, r) && has_type(evs, dd, "damage_application"@)
                                        && forall|s: int|
                                        in_round(evs, s, r) && has_type(evs, s, "round_start"@)
                                            ==> !#[trigger] before(evs, s, dd);
                                assert(!before(evs, st as int, dd));
                                assert(!before(evs, dd, d as int));
                                reveal_strlit("round_start");
                                reveal_strlit("damage_application");
                                assert("damage_application"@.len() != "round_start"@.len());
                                assert(d != st);
                                assert(!before(evs, d as int, st as int));
                                lemma_before_order(evs, d as int, st as int, dd);
                                assert(before(evs, st as int, d as int));
                                lemma_before_order(evs, st as int, d as int, dd);
                                lemma_before_order(evs, dd, d as int, st as int);
                                if d as int == dd {
                                } else {
                                    lemma_before_order(evs, d as int, dd, st as int);
                                }
                                assert(false);
                            }
                        }
                    },
                }
            },
        }
        assert(damage_first == damage_before_round_start(evs, r));
    }
    if damage_first {
        push_round_message(out, r, ": damage_application occurs before round_start");
    }
    let end_count = count_of_type(events, r, "end_of_round_effects");
    if end_count > 1 {
        push_round_message(out, r, ": multiple end_of_round_effects entries");
    }
    let first_end = first_of_type(events, all_seq, r, "end_of_round_effects");
    let last = last_in_round(events, all_seq, r);
    let end_not_last = match first_end {
        None => false,
        Some(x) => match last {
            None => false,
            Some(l) => key_before(events, all_seq, x, l),
        },
    };
    proof {
        let w = choose|i: int| in_round(evs, i, r);
        assert(last is Some) by {
            if last is None {
                assert(!in_round(evs, w, r));
            }
        }
        let l = last->0 as int;
        match first_end {
            None => {
                if end_effects_not_last(evs, r) {
                    let x = choose|x: int|
                        #![trigger in_round(evs, x, r)]
                        in_round(evs, x, r) && has_type(evs, x, "end_of_round_effects"@) && (forall|z: int|
                            in_round(evs, z, r) && has_type(evs, z, "end_of_round_effects"@) ==> !#[trigger] before(
                                evs,
                                z,
                                x,
                            )) && exists|y: int| in_round(evs, y, r) && #[trigger] before(evs, x, y);
                    assert(!has_type(evs, x, "end_of_round_effects"@));
                }
            },
            Some(x) => {
                if end_not_last {
                    assert(in_round(evs, l, r) && before(evs, x as int, l));
                    assert(in_round(evs, x as int, r));
                } else {
                    if end_effects_not_last(evs, r) {
                        let xx = choose|xx: int|
                            #![trigger in_round(evs, xx, r)]
                            in_round(evs, xx, r) && has_type(evs, xx, "end_of_round_effects"@) && (forall|z: int|
                                in_round(evs, z, r) && has_type(evs, z, "end_of_round_effects"@) ==> !#[trigger] before(
                                    evs,
                                    z,
                                    xx,
                                )) && exists|y: int| in_round(evs, y, r) && #[trigger] before(evs, xx, y);
                        let y = choose|y: int| in_round(evs, y, r) && #[trigger] before(evs, xx, y);
                        assert(!before(evs, x as int, xx));
                        assert(!before(evs, xx, x as int));
                        lemma_before_order(evs, x as int, xx, y);
                        assert(x as int == xx);
                        assert(!before(evs, l, y));
                        lemma_before_order(evs, xx, y, l);
                        lemma_before_order(evs, xx, l, y);
                        lemma_before_order(evs, l, y, xx);
                        if y != l {
                            lemma_before_order(evs, y, l, l);
                        }
                        assert(false);
                    }
                }
            },
        }
        assert(end_not_last == end_effects_not_last(evs, r));
    }
    if end_not_last {
        push_round_message(
            out,
            r,
            ": end_of_round_effects must be the last event for that round in timeline order",
        );
    }
    proof {
        assert(views(out@) =~= start + round_issues(evs, r));
    }
}

/// The smallest round index of an event that is at least `lo`, if any.
fn min_round_from_exec(events: &[TimelineEvent], lo: u64) -> (m: Option<u32>)
    ensures
        match m {
            Some(m) => is_min_round_from(events@, lo as int, m),
            None => !has_round_from(events@, lo as int),
        },
{
    let mut best: Option<u32> = None;
    let ghost mut witness: int = 0;
    let mut i: usize = 0;
    while i < events.len()
        invariant
            i <= events@.len(),
            match best {
                Some(b) => b >= lo && 0 <= witness < i && in_round(events@, witness, b)
                    && forall|j: int|
                    0 <= j < i && (#[trigger] events@[j]).round_index >= lo ==> events@[j].round_index >= b,
                None => forall|j: int| 0 <= j < i ==> (#[trigger] events@[j]).round_index < lo,
            },
        decreases events@.len() - i,
    {
        let ri = events[i].round_index;
        if ri as u64 >= lo {
            match best {
                None => {
                    best = Some(ri);
                    proof {
                        witness = i as int;
                    }
                },
                Some(b) => {
                    if ri < b {
                        best = Some(ri);
                        proof {
                            witness = i as int;
                        }
                    }
                },
            }
        }
        i += 1;
    }
    proof {
        match best {
            Some(b) => {
                assert(is_min_round_from(events@, lo as int, b));
            },
            None => {
                assert(!has_round_from(events@, lo as int));
            },
        }
    }
    best
}

/// Validate round structure when the schema version is at least 2 or when any event carries a
/// sequence number. Strict mode (version at least 2) reports the issues as errors; lenient
/// mode (version 1 with sequences) runs the same checks and reports them as warnings;
/// version 1 without sequences is not checked.
pub fn validate_canonical_timeline(schema_version: u32, events: &[TimelineEvent]) -> (out:
    TimelineValidationOutcome)
    ensures
        views(out.errors@) == expected_errors(schema_version, events@),
        views(out.warnings@) == expected_warnings(schema_version, events@),
{
    let ghost evs = events@;
    let n = events.len();
    let mut sc: usize = 0;
    let mut i: usize = 0;
    while i < n
        invariant
            n == evs.len(),
            evs == events@,
            i <= n,
            sc == sequenced_count(evs.subrange(0, i as int)),
            sc <= i,
        decreases n - i,
    {
        proof {
            assert(evs.subrange(0, i + 1).drop_last() =~= evs.subrange(0, i as int));
        }
        if events[i].sequence.is_some() {
            sc += 1;
        }
        i += 1;
    }
    proof {
        assert(evs.subrange(0, n as int) =~= evs);
    }
    if !(schema_version >= 2 || sc > 0) {
        return TimelineValidationOutcome { errors: Vec::new(), warnings: Vec::new() };
    }
    let strict = schema_version >= 2;
    let all_seq = sc == n;
    proof {
        lemma_sequenced_count_all(evs);
    }
    let mut msgs: Vec<String> = Vec::new();
    if sc > 0 && sc != n {
        let mut m = "either all events must include sequence or none; got ".to_owned();
        append_decimal(&mut m, sc as u64);
        m.append(" of ");
        append_decimal(&mut m, n as u64);
        msgs.push(m);
        proof {
            assert(views(msgs@) =~= count_issues(evs));
        }
    } else {
        proof {
            assert(views(msgs@) =~= count_issues(evs));
        }
    }
    if all_seq {
        let ghost base = views(msgs@);
        let mut k: usize = 1;
        while k < n
            invariant
                n == evs.len(),
                evs == events@,
                all_sequenced(evs),
                1 <= k <= n || (n == 0 && k == 1),
                views(msgs@) == base + order_errors(evs, k as int),
            decreases n - k,
        {
            proof {
                assert(evs[k as int].sequence is Some);
                assert(evs[k - 1].sequence is Some);
            }
            let s = events[k].sequence.unwrap();
            let p = events[k - 1].sequence.unwrap();
            let ghost prev = msgs@;
            if s <= p {
                let mut m = "sequence must be strictly increasing: ".to_owned();
                append_decimal(&mut m, s as u64);
                m.append(" follows ");
                append_decimal(&mut m, p as u64);
                msgs.push(m);
                proof {
                    assert(views(msgs@) =~= views(prev).push(
                        msg_not_increasing(s, p),
                    ));
                }
            }
            proof {
                assert(views(msgs@) =~= base + order_errors(evs, k + 1));
            }
            k += 1;
        }
        proof {
            if n == 0 {
                assert(order_errors(evs, 0) =~= Seq::empty());
                assert(order_errors(evs, 1) =~= Seq::empty());
            }
        }
    }
    let ghost before_rounds = views(msgs@);
    let mut lo: u64 = 0;
    loop
        invariant
            evs == events@,
            all_seq == all_sequenced(evs),
            lo <= 0x1_0000_0000,
            views(msgs@) + round_issues_from(evs, lo as int) == before_rounds
                + round_issues_from(evs, 0),
        ensures
            views(msgs@) == before_rounds + round_issues_from(evs, 0),
        decreases 0x1_0000_0000 - lo,
    {
        if lo > 0xffff_ffff {
            proof {
                assert(round_issues_from(evs, lo as int) =~= Seq::empty());
                assert(views(msgs@) =~= before_rounds + round_issues_from(evs, 0));
            }
            break;
        }
        match min_round_from_exec(events, lo) {
            None => {
                proof {
                    assert(round_issues_from(evs, lo as int) =~= Seq::empty());
                    assert(views(msgs@) =~= before_rounds + round_issues_from(evs, 0));
                }
                break;
            },
            Some(m) => {
                proof {
                    lemma_round_issues_step(evs, lo as int, m);
                }
                let ghost prev = views(msgs@);
                push_round_issues(events, all_seq, m, &mut msgs);
                proof {
                    assert(prev + round_issues_from(evs, lo as int) =~= views(msgs@)
                        + round_issues_from(evs, m + 1));
                }
                lo = m as u64 + 1;
            },
        }
    }
    proof {
        assert(views(msgs@) =~= before_rounds + round_issues_from(evs, 0));
    }
    if strict {
        TimelineValidationOutcome { errors: msgs, warnings: Vec::new() }
    } else {
        TimelineValidationOutcome { errors: Vec::new(), warnings: msgs }
    }
}

proof fn lemma_sequenced_count_all(evs: Seq<TimelineEvent>)
    ensures
        sequenced_count(evs) <= evs.len(),
        sequenced_count(evs) == evs.len() <==> all_sequenced(evs),
    decreases evs.len(),
{
    if evs.len() > 0 {
        lemma_sequenced_count_all(evs.drop_last());
        if all_sequenced(evs) {
            assert forall|i: int| 0 <= i < evs.drop_last().len() implies (#[trigger] evs.drop_last()[i]).sequence is Some by {
                assert(evs.drop_last()[i] == evs[i]);
            }
            assert(evs[evs.len() - 1].sequence is Some);
        }
        if sequenced_count(evs) == evs.len() {
            assert forall|i: int| 0 <= i < evs.len() implies (#[trigger] evs[i]).sequence is Some by {
                if i < evs.len() - 1 {
                    assert(evs.drop_last()[i] == evs[i]);
                }
            }
        }
    }
}


/// Strict and lenient validation run the same checks: for a log in which some event carries a
/// sequence number, the errors of a strict log (schema version at least 2) are exactly the
/// warnings of a lenient log (schema version below 2); a strict log gets no warnings and a
/// lenient log no errors.
pub proof fn lemma_strict_errors_are_lenient_warnings(
    strict_version: u32,
    lenient_version: u32,
    evs: Seq<TimelineEvent>,
)
    requires
        strict_version >= 2,
        lenient_version < 2,
        sequenced_count(evs) > 0,
    ensures
        expected_warnings(strict_version, evs) == Seq::<Seq<char>>::empty(),
        expected_errors(lenient_version, evs) == Seq::<Seq<char>>::empty(),
        expected_errors(strict_version, evs) == expected_warnings(lenient_version, evs),
        expected_errors(strict_version, evs) == timeline_issues(evs),
{
}

/// A log below schema version 2 in which no event carries a sequence number is not checked:
/// it gets neither errors nor warnings.
pub proof fn lemma_unsequenced_legacy_log_is_not_checked(schema_version: u32, evs: Seq<TimelineEvent>)
    requires
        schema_version < 2,
        sequenced_count(evs) == 0,
    ensures
        expected_errors(schema_version, evs) == Seq::<Seq<char>>::empty(),
        expected_warnings(schema_version, evs) == Seq::<Seq<char>>::empty(),
{
}

} // verus!
