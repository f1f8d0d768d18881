//! Structural normalisation of imported combat logs: an event whose values carry
//! `collapsed_repeat_count = n` stands for `n` consecutive applications and is expanded into
//! `n` copies, each told its application index and the count.

use vstd::prelude::*;
use crate::text::{append_decimal, decimal_digits};

verus! {

/// Largest repeat count an imported event may carry.
pub const MAX_COLLAPSED_REPEAT: u64 = 256;

/// One event of the expanded log: the input event it copies and, for a copy of a collapsed
/// repeat, its `(application_index, application_count)`.
#[derive(Debug, Clone, Copy, PartialEq, Eq)]
pub struct RepeatCopy {
    pub source: usize,
    pub application: Option<(u64, u64)>,
}

/// The repeat count of an event: its `collapsed_repeat_count`, or 1 when it has none.
pub open spec fn repeat_count(c: Option<u64>) -> u64 {
    match c {
        Some(n) => n,
        None => 1,
    }
}

/// The copies event `k` expands to: itself, unchanged, when its count is at most 1; else one
/// copy per application `0..n`, each carrying its index and `n`.
pub open spec fn copies_of(k: int, c: Option<u64>) -> Seq<RepeatCopy> {
    let n = repeat_count(c);
    if n <= 1 {
        seq![RepeatCopy { source: k as usize, application: None }]
    } else {
        Seq::new(
            n as nat,
            |i: int| RepeatCopy { source: k as usize, application: Some((i as u64, n)) },
        )
    }
}

/// The message for an event whose count exceeds the maximum.
pub open spec fn msg_repeat_too_large(n: u64) -> Seq<char> {
    "collapsed_repeat_count "@ + decimal_digits(n as nat) + " exceeds max "@ + decimal_digits(
        MAX_COLLAPSED_REPEAT as nat,
    )
}

/// Expansion of the first `n` events: the copies in event order, or the message for the first
/// event whose count exceeds the maximum.
pub open spec fn expansion_prefix(counts: Seq<Option<u64>>, n: int) -> Result<
    Seq<RepeatCopy>,
    Seq<char>,
>
    decreases n,
{
    if n <= 0 {
        Ok(Seq::empty())
    } else {
        match expansion_prefix(counts, n - 1) {
            Err(e) => Err(e),
            Ok(prev) => {
                let c = counts[n - 1];
                if repeat_count(c) > MAX_COLLAPSED_REPEAT {
                    Err(msg_repeat_too_large(repeat_count(c)))
                } else {
                    Ok(prev + copies_of(n - 1, c))
                }
            },
        }
    }
}

proof fn lemma_error_persists(counts: Seq<Option<u64>>, m: int, n: int)
    requires
        0 <= m <= n,
        expansion_prefix(counts, m) is Err,
    ensures
        expansion_prefix(counts, n) == expansion_prefix(counts, m),
    decreases n - m,
{
    if n > m {
        lemma_error_persists(counts, m, n - 1);
    }
}

/// Plan the expansion of a log whose events carry the given `collapsed_repeat_count` values
/// (`None` where an event has none): which input event each output event copies, and with
/// what application index and count. Fails on the first count above [`MAX_COLLAPSED_REPEAT`].
pub fn collapsed_repeat_expansion(counts: &[Option<u64>]) -> (r: Result<Vec<RepeatCopy>, String>)
    ensures
        match r {
            Ok(v) => expansion_prefix(counts@, counts@.len() as int) == Ok::<
                Seq<RepeatCopy>,
                Seq<char>,
            >(v@),
            Err(e) => expansion_prefix(counts@, counts@.len() as int) == Err::<
                Seq<RepeatCopy>,
                Seq<char>,
            >(e@),
        },
{
    let mut out: Vec<RepeatCopy> = Vec::new();
    let mut k: usize = 0;
    while k < counts.len()
        invariant
            k <= counts@.len(),
            expansion_prefix(counts@, k as int) == Ok::<Seq<RepeatCopy>, Seq<char>>(out@),
        decreases counts@.len() - k,
    {
        let n: u64 = match counts[k] {
            Some(n) => n,
            None => 1,
        };
        let ghost start = out@;
        if n <= 1 {
            out.push(RepeatCopy { source: k, application: None });
            proof {
                assert(out@ =~= start + copies_of(k as int, counts@[k as int]));
            }
        } else {
            if n > MAX_COLLAPSED_REPEAT {
                let mut m = "collapsed_repeat_count ".to_owned();
                append_decimal(&mut m, n);
                m.append(" exceeds max ");
                append_decimal(&mut m, MAX_COLLAPSED_REPEAT);
                proof {
                    reveal_strlit("collapsed_repeat_count ");
                    reveal_strlit(" exceeds max ");
                    assert(m@ =~= msg_repeat_too_large(n));
                    lemma_error_persists(counts@, k + 1, counts@.len() as int);
                }
                return Err(m);
            }
            let ghost before = out@;
            let mut i: u64 = 0;
            while i < n
                invariant
                    k < counts@.len(),
                    n == repeat_count(counts@[k as int]),
                    1 < n <= MAX_COLLAPSED_REPEAT,
                    i <= n,
                    out@ == before + copies_of(k as int, counts@[k as int]).take(i as int),
                decreases n - i,
            {
                out.push(RepeatCopy { source: k, application: Some((i, n)) });
                proof {
                    let c = copies_of(k as int, counts@[k as int]);
                    assert(c.take(i + 1) =~= c.take(i as int).push(c[i as int]));
                }
                i += 1;
            }
            proof {
                let c = copies_of(k as int, counts@[k as int]);
                assert(c.take(n as int) =~= c);
            }
        }
        proof {
            assert(out@ == start + copies_of(k as int, counts@[k as int]));
            assert(expansion_prefix(counts@, k + 1) == Ok::<Seq<RepeatCopy>, Seq<char>>(out@));
        }
        k += 1;
    }
    proof {
        assert(counts@.len() == k);
    }
    Ok(out)
}


/// A log in which no event carries a repeat count above 1 expands to itself: one unchanged
/// copy of each event, in order.
pub proof fn lemma_uncollapsed_log_is_unchanged(counts: Seq<Option<u64>>, n: int)
    requires
        0 <= n <= counts.len(),
        forall|k: int| 0 <= k < counts.len() ==> repeat_count(#[trigger] counts[k]) <= 1,
    ensures
        expansion_prefix(counts, n) == Ok::<Seq<RepeatCopy>, Seq<char>>(
            Seq::new(n as nat, |k: int| RepeatCopy { source: k as usize, application: None }),
        ),
    decreases n,
{
    if n > 0 {
        lemma_uncollapsed_log_is_unchanged(counts, n - 1);
        assert(repeat_count(counts[n - 1]) <= 1);
        assert(Seq::new((n - 1) as nat, |k: int| RepeatCopy { source: k as usize, application: None })
            + copies_of(n - 1, counts[n - 1]) =~= Seq::new(
            n as nat,
            |k: int| RepeatCopy { source: k as usize, application: None },
        ));
    } else {
        assert(Seq::new(0, |k: int| RepeatCopy { source: k as usize, application: None })
            =~= Seq::<RepeatCopy>::empty());
    }
}

/// One step of the expansion: after the first `k` events have expanded to `prev`, event `k`
/// adds a single unchanged copy when it carries no count or a count of at most 1; with a count
/// `n` from 2 to the maximum it adds exactly `n` copies of itself, the `i`-th carrying
/// application `(i, n)`; with a larger count the expansion fails.
pub proof fn lemma_expansion_step(counts: Seq<Option<u64>>, k: int, prev: Seq<RepeatCopy>)
    requires
        0 <= k < counts.len(),
        k <= usize::MAX,
        expansion_prefix(counts, k) == Ok::<Seq<RepeatCopy>, Seq<char>>(prev),
    ensures
        (counts[k] is None || counts[k]->0 <= 1) ==> expansion_prefix(counts, k + 1) == Ok::<
            Seq<RepeatCopy>,
            Seq<char>,
        >(prev.push(RepeatCopy { source: k as usize, application: None })),
        (counts[k] is Some && 2 <= counts[k]->0 <= 256) ==> expansion_prefix(counts, k + 1) == Ok::<
            Seq<RepeatCopy>,
            Seq<char>,
        >(
            prev + Seq::new(
                counts[k]->0 as nat,
                |i: int| RepeatCopy { source: k as usize, application: Some((i as u64, counts[k]->0)) },
            ),
        ),
        (counts[k] is Some && counts[k]->0 > 256) ==> expansion_prefix(counts, k + 1) is Err,
{
    if counts[k] is None || counts[k]->0 <= 1 {
        assert(prev + copies_of(k, counts[k]) =~= prev.push(
            RepeatCopy { source: k as usize, application: None },
        ));
    }
    if counts[k] is Some && 2 <= counts[k]->0 <= 256 {
        let n = counts[k]->0;
        assert(copies_of(k, counts[k]) =~= Seq::new(
            n as nat,
            |i: int| RepeatCopy { source: k as usize, application: Some((i as u64, n)) },
        ));
    }
}

} // verus!
