//! The threshold optimizer: a search for the highest cutoff of a fixed
//! schedule at which enough stars are detected.
//!
//! The search starts from the cutoff 255 and lowers it by a twentieth at a
//! time. It only ever goes down, and it stops at the first cutoff whose
//! detection count reaches the target. Counting detections at a cutoff is the
//! caller's work: the search says which cutoff to probe next, is told the
//! count, and decides again.

use vstd::prelude::*;

use crate::error::Error;

verus! {

/// The cutoff from which the search sets out. It is not probed itself.
pub const INITIAL_CUTOFF: u8 = 255;

/// The number of cutoffs on the scale from 0 to 255.
pub const CUTOFF_LEVELS: usize = 256;

/// The cutoff that follows `cutoff` in the schedule: 95 hundredths of it,
/// rounded down.
pub open spec fn lowered(cutoff: u8) -> u8 {
    (cutoff * 95 / 100) as u8
}

/// Computes [`lowered`]. Every cutoff but zero is followed by a lower one.
pub fn lower_cutoff(cutoff: u8) -> (next: u8)
    ensures
        next == lowered(cutoff),
        cutoff > 0 ==> next < cutoff,
        cutoff == 0 ==> next == 0,
{
    ((cutoff as u32) * 95 / 100) as u8
}

/// Every cutoff but zero is followed by a lower one, and zero by itself.
pub proof fn lemma_lowered_is_lower(cutoff: u8)
    ensures
        lowered(cutoff) == cutoff * 95 / 100,
        cutoff > 0 ==> lowered(cutoff) < cutoff,
        cutoff == 0 ==> lowered(cutoff) == 0,
{
    assert(0 <= cutoff * 95 / 100 <= cutoff);
}

/// What the search does next.
#[derive(Debug, Clone, Copy, PartialEq, Eq, Structural)]
pub enum SearchStep {
    /// Count the detections at this cutoff and report them.
    Probe(u8),
    /// The search has ended: this cutoff gives enough detections.
    Found(u8),
    /// The search has ended without a cutoff: even the cutoff zero gave too
    /// few detections.
    Exhausted,
}

/// The decision of the search when `detected` stars were counted at
/// `cutoff` and at least `target` are wanted, for a target of one or more.
pub open spec fn search_step(cutoff: u8, detected: nat, target: nat) -> SearchStep {
    if detected >= target {
        SearchStep::Found(cutoff)
    } else if cutoff == 0 {
        SearchStep::Exhausted
    } else {
        SearchStep::Probe(lowered(cutoff))
    }
}

/// Computes [`search_step`] for a target that is known to be sound.
pub(crate) fn decide(cutoff: u8, detected: usize, minimum_star_count: usize) -> (step: SearchStep)
    ensures
        step == search_step(cutoff, detected as nat, minimum_star_count as nat),
        step matches SearchStep::Probe(next) ==> next < cutoff,
{
    if detected >= minimum_star_count {
        SearchStep::Found(cutoff)
    } else if cutoff == 0 {
        SearchStep::Exhausted
    } else {
        SearchStep::Probe(lower_cutoff(cutoff))
    }
}

/// Decides what the search does next: [`search_step`].
///
/// The search opens with `next_search_step(INITIAL_CUTOFF, 0, target)`, and
/// each later call takes the cutoff of the last probe and the count found
/// there. A target of zero is no target: it is refused as an input error
/// about `minimum_star_count`, whatever was counted.
pub fn next_search_step(cutoff: u8, detected: usize, minimum_star_count: usize) -> (step: Result<
    SearchStep,
    Error,
>)
    ensures
        minimum_star_count == 0 ==> step is Err && step->Err_0.is_input_error("minimum_star_count"@),
        minimum_star_count > 0 ==> step == Ok::<SearchStep, Error>(
            search_step(cutoff, detected as nat, minimum_star_count as nat),
        ),
        step matches Ok(SearchStep::Probe(next)) ==> next < cutoff,
{
    if minimum_star_count == 0 {
        Err(Error::input("minimum_star_count", "at least one star must be asked for"))
    } else {
        Ok(decide(cutoff, detected, minimum_star_count))
    }
}

/// Where the search ends when it stands at `cutoff` with `detected` stars
/// counted there, `counts` giving the count at every cutoff: the cutoff it
/// finds, or none when it is exhausted.
pub open spec fn search_from(counts: spec_fn(u8) -> nat, target: nat, cutoff: u8, detected: nat) -> Option<u8>
    decreases cutoff,
{
    if detected >= target {
        Some(cutoff)
    } else if cutoff == 0 {
        None
    } else {
        search_from(counts, target, lowered(cutoff), counts(lowered(cutoff)))
    }
}

/// The cutoff that the whole search finds, if any.
pub open spec fn optimum(counts: spec_fn(u8) -> nat, target: nat) -> Option<u8> {
    search_from(counts, target, INITIAL_CUTOFF, 0)
}

/// Whether the search probes `cutoff` when it goes on from `from` without
/// ever finding enough: `cutoff` lies on the schedule below `from`.
pub open spec fn scheduled_below(from: u8, cutoff: u8) -> bool
    decreases from,
{
    if from == 0 {
        false
    } else {
        lowered(from) == cutoff || scheduled_below(lowered(from), cutoff)
    }
}

/// The counts of a table as a function of the cutoff.
pub open spec fn table_counts(table: Seq<usize>) -> spec_fn(u8) -> nat {
    |cutoff: u8| table[cutoff as int] as nat
}

/// Runs the whole search on a table of detection counts, `counts[t]` being
/// the number of stars detected at the cutoff `t`.
///
/// The result is the first cutoff of the schedule 242, 229, 217, ... 1, 0
/// whose count is at least `minimum_star_count`. When no cutoff of the
/// schedule reaches it the search fails with
/// [`Error::ConvergenceFailure`]; it never falls back on a cutoff that was
/// not good enough. A target of zero is an input error about
/// `minimum_star_count`, and with a sound target a table that does not hold
/// 256 counts is an input error about `counts`.
pub fn optimize_threshold_for_star_count(counts: &Vec<usize>, minimum_star_count: usize) -> (found: Result<
    u8,
    Error,
>)
    ensures
        minimum_star_count == 0 ==> found is Err && found->Err_0.is_input_error("minimum_star_count"@),
        minimum_star_count > 0 && counts.len() != CUTOFF_LEVELS ==> found is Err && found->Err_0.is_input_error(
            "counts"@,
        ),
        minimum_star_count > 0 && counts.len() == CUTOFF_LEVELS ==> match optimum(
            table_counts(counts@),
            minimum_star_count as nat,
        ) {
            Some(cutoff) => found == Ok::<u8, Error>(cutoff),
            None => found == Err::<u8, Error>(Error::ConvergenceFailure),
        },
{
    if minimum_star_count == 0 {
        return Err(Error::input("minimum_star_count", "at least one star must be asked for"));
    }
    if counts.len() != CUTOFF_LEVELS {
        return Err(Error::input("counts", "one count is needed for each of the 256 cutoffs"));
    }
    let ghost by_cutoff = table_counts(counts@);
    let mut cutoff: u8 = INITIAL_CUTOFF;
    let mut detected: usize = 0;
    loop
        invariant
            minimum_star_count > 0,
            counts.len() == CUTOFF_LEVELS,
            by_cutoff == table_counts(counts@),
            optimum(by_cutoff, minimum_star_count as nat) == search_from(
                by_cutoff,
                minimum_star_count as nat,
                cutoff,
                detected as nat,
            ),
        decreases cutoff,
    {
        match decide(cutoff, detected, minimum_star_count) {
            SearchStep::Found(at) => {
                return Ok(at);
            },
            SearchStep::Exhausted => {
                return Err(Error::ConvergenceFailure);
            },
            SearchStep::Probe(next) => {
                cutoff = next;
                detected = counts[next as usize];
            },
        }
    }
}

/// When no cutoff gives enough detections the search is exhausted: it
/// neither goes on for ever nor settles for the cutoff zero.
pub proof fn lemma_search_fails_without_detections(
    counts: spec_fn(u8) -> nat,
    target: nat,
    cutoff: u8,
    detected: nat,
)
    requires
        detected < target,
        forall|level: u8| #[trigger] counts(level) < target,
    ensures
        search_from(counts, target, cutoff, detected) is None,
    decreases cutoff,
{
    if cutoff > 0 {
        lemma_search_fails_without_detections(counts, target, lowered(cutoff), counts(lowered(cutoff)));
    }
}

/// A cutoff that the search finds by probing gives enough detections, lies
/// on the schedule, and every cutoff probed before it gave too few.
pub proof fn lemma_search_finds_first(counts: spec_fn(u8) -> nat, target: nat, cutoff: u8, detected: nat)
    requires
        detected < target,
    ensures
        match search_from(counts, target, cutoff, detected) {
            Some(found) => {
                &&& found < cutoff
                &&& scheduled_below(cutoff, found)
                &&& counts(found) >= target
                &&& forall|level: u8|
                    found < level && #[trigger] scheduled_below(cutoff, level) ==> counts(level) < target
            },
            None => forall|level: u8| #[trigger] scheduled_below(cutoff, level) ==> counts(level) < target,
        },
    decreases cutoff,
{
    if cutoff > 0 {
        let next = lowered(cutoff);
        lemma_lowered_is_lower(cutoff);
        lemma_schedule_descends(cutoff);
        lemma_schedule_descends(next);
        if counts(next) < target {
            lemma_search_finds_first(counts, target, next, counts(next));
            let ended = search_from(counts, target, cutoff, detected);
            assert(ended == search_from(counts, target, next, counts(next)));
            assert forall|level: u8| #[trigger] scheduled_below(cutoff, level) && (ended is Some
                ==> ended->Some_0 < level) implies counts(level) < target by {
                if level != next {
                    assert(scheduled_below(next, level));
                }
            }
        } else {
            assert(search_from(counts, target, cutoff, detected) == Some(next));
            assert forall|level: u8| next < level && #[trigger] scheduled_below(cutoff, level) implies counts(
                level,
            ) < target by {
                if level != next {
                    assert(scheduled_below(next, level));
                }
            }
        }
    }
}

/// Every cutoff on the schedule below `from` is lower than `from`.
pub proof fn lemma_schedule_descends(from: u8)
    ensures
        forall|level: u8| #[trigger] scheduled_below(from, level) ==> level < from,
    decreases from,
{
    if from > 0 {
        lemma_lowered_is_lower(from);
        lemma_schedule_descends(lowered(from));
        assert forall|level: u8| #[trigger] scheduled_below(from, level) implies level < from by {
            if lowered(from) != level {
                assert(scheduled_below(lowered(from), level));
            }
        }
    }
}

} // verus!
