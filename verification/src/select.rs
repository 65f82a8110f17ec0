//! Choosing among the frames that were sampled.

use crate::frame::CandidateFrame;
use crate::quality::frame_quality;
use crate::quality::QualityScore;
use vstd::prelude::*;

verus! {

/// A frame that was decoded at one of the sample points, with its scores.
#[derive(Clone, Debug, PartialEq, Eq)]
pub struct Candidate {
    /// The sample point, counted from 0.
    pub sample: usize,
    /// The frame.
    pub frame: CandidateFrame,
    /// The frame's scores.
    pub score: QualityScore,
}

impl Candidate {
    /// The frame is whole, and the scores are its own.
    pub open spec fn wf(&self) -> bool {
        &&& self.frame.wf()
        &&& self.score == frame_quality(
            self.frame.pixels@,
            self.frame.width as int,
            self.frame.height as int,
        )
    }

    /// The frame `frame` of the sample point `sample`, scored.
    pub fn new(sample: usize, frame: CandidateFrame) -> (candidate: Candidate)
        requires
            frame.wf(),
        ensures
            candidate.wf(),
            candidate.sample == sample,
            candidate.frame == frame,
    {
        let score = frame.quality();
        Candidate { sample, frame, score }
    }
}

/// Whether `a` is to be chosen before `b`, or as soon: it has the greater
/// weighted sum, or the same and no later a sample point. The sums are those
/// of the scores as they are held, in units of `10^-18` rounded down: two
/// frames whose sums differ by less than the rounding may count as the same.
pub open spec fn preferred(a: Candidate, b: Candidate) -> bool {
    a.score.composite_spec() > b.score.composite_spec() || (a.score.composite_spec()
        == b.score.composite_spec() && a.sample <= b.sample)
}

/// Whether the candidate at `at` is to be chosen before every other, or as
/// soon.
pub open spec fn is_best(candidates: Seq<Candidate>, at: int) -> bool {
    &&& 0 <= at < candidates.len()
    &&& forall|j: int| 0 <= j < candidates.len() ==> preferred(candidates[at], #[trigger] candidates[j])
}

/// Whether the candidate at `at` is the first of those that are to be chosen
/// before every other.
pub open spec fn is_first_best(candidates: Seq<Candidate>, at: int) -> bool {
    &&& is_best(candidates, at)
    &&& forall|j: int| 0 <= j < at ==> !preferred(#[trigger] candidates[j], candidates[at])
}

/// The place of the candidate that is chosen.
pub open spec fn best_position(candidates: Seq<Candidate>) -> int {
    choose|at: int| is_first_best(candidates, at)
}

/// Only one candidate is the first of the best.
pub proof fn lemma_first_best_is_one(candidates: Seq<Candidate>, at: int)
    requires
        is_first_best(candidates, at),
    ensures
        best_position(candidates) == at,
{
    let other = best_position(candidates);
    assert(is_first_best(candidates, other));
    if other < at {
        assert(preferred(candidates[other], candidates[at]));
    } else if at < other {
        assert(preferred(candidates[at], candidates[other]));
    }
}

/// The place of the candidate with the greatest weighted sum; of those with
/// the greatest, the one from the earliest sample point; and of those, the
/// first. `None` where there is no candidate.
pub fn select_best(candidates: &[Candidate]) -> (best: Option<usize>)
    ensures
        best is None <==> candidates@.len() == 0,
        best matches Some(at) ==> is_first_best(candidates@, at as int) && at == best_position(
            candidates@,
        ),
{
    if candidates.len() == 0 {
        return None;
    }
    let mut best: usize = 0;
    let mut best_sum: u128 = candidates[0].score.composite();
    let mut i: usize = 1;
    while i < candidates.len()
        invariant
            1 <= i <= candidates@.len(),
            best < i,
            best_sum == candidates@[best as int].score.composite_spec(),
            forall|j: int| 0 <= j < i ==> preferred(candidates@[best as int], #[trigger] candidates@[j]),
            forall|j: int|
                0 <= j < best ==> !preferred(#[trigger] candidates@[j], candidates@[best as int]),
        decreases candidates@.len() - i,
    {
        let sum: u128 = candidates[i].score.composite();
        if sum > best_sum || (sum == best_sum && candidates[i].sample < candidates[best].sample) {
            proof {
                let winner = candidates@[i as int];
                let before = candidates@[best as int];
                assert forall|j: int| 0 <= j < i + 1 implies preferred(
                    winner,
                    #[trigger] candidates@[j],
                ) by {
                    if j < i {
                        assert(preferred(before, candidates@[j]));
                    }
                }
                assert forall|j: int| 0 <= j < i implies !preferred(
                    #[trigger] candidates@[j],
                    winner,
                ) by {
                    assert(preferred(before, candidates@[j]));
                }
            }
            best = i;
            best_sum = sum;
        }
        i = i + 1;
    }
    proof {
        lemma_first_best_is_one(candidates@, best as int);
    }
    Some(best)
}

/// Where there is a candidate, one is chosen.
pub proof fn lemma_one_is_chosen(candidates: Seq<Candidate>)
    requires
        candidates.len() > 0,
    ensures
        is_first_best(candidates, best_position(candidates)),
    decreases candidates.len(),
{
    if candidates.len() == 1 {
        assert(is_first_best(candidates, 0));
    } else {
        let rest = candidates.drop_last();
        let last = candidates.last();
        lemma_one_is_chosen(rest);
        let before = best_position(rest);
        assert(rest[before] == candidates[before]);
        if preferred(rest[before], last) {
            assert forall|j: int| 0 <= j < candidates.len() implies preferred(
                candidates[before],
                #[trigger] candidates[j],
            ) by {
                if j < rest.len() {
                    assert(preferred(rest[before], rest[j]));
                }
            }
            assert forall|j: int| 0 <= j < before implies !preferred(
                #[trigger] candidates[j],
                candidates[before],
            ) by {
                assert(!preferred(rest[j], rest[before]));
            }
            assert(is_first_best(candidates, before));
        } else {
            let at = candidates.len() - 1;
            assert forall|j: int| 0 <= j < candidates.len() implies preferred(
                candidates[at],
                #[trigger] candidates[j],
            ) by {
                if j < rest.len() {
                    assert(preferred(rest[before], rest[j]));
                }
            }
            assert forall|j: int| 0 <= j < at implies !preferred(
                #[trigger] candidates[j],
                candidates[at],
            ) by {
                assert(preferred(rest[before], rest[j]));
            }
            assert(is_first_best(candidates, at));
        }
    }
}

/// The choice does not depend on the order in which the candidates come:
/// where two lists hold the same candidates, one to a sample point, the
/// candidate chosen from the one is the candidate chosen from the other.
pub proof fn lemma_choice_ignores_order(first: Seq<Candidate>, second: Seq<Candidate>)
    requires
        first.len() > 0,
        forall|i: int| 0 <= i < first.len() ==> second.contains(#[trigger] first[i]),
        forall|i: int| 0 <= i < second.len() ==> first.contains(#[trigger] second[i]),
        forall|i: int, j: int|
            0 <= i < j < first.len() ==> (#[trigger] first[i]).sample != (#[trigger] first[j]).sample,
    ensures
        first[best_position(first)] == second[best_position(second)],
{
    assert(second.contains(first[0]));
    lemma_one_is_chosen(first);
    lemma_one_is_chosen(second);
    lemma_best_is_one(first, second, best_position(first), best_position(second));
}

/// Where two lists hold the same candidates, one to a sample point, a best
/// of the one is a best of the other.
pub proof fn lemma_best_is_one(
    first: Seq<Candidate>,
    second: Seq<Candidate>,
    at_first: int,
    at_second: int,
)
    requires
        forall|i: int| 0 <= i < first.len() ==> second.contains(#[trigger] first[i]),
        forall|i: int| 0 <= i < second.len() ==> first.contains(#[trigger] second[i]),
        forall|i: int, j: int|
            0 <= i < j < first.len() ==> (#[trigger] first[i]).sample != (#[trigger] first[j]).sample,
        is_best(first, at_first),
        is_best(second, at_second),
    ensures
        first[at_first] == second[at_second],
{
    let a = first[at_first];
    let b = second[at_second];
    assert(second.contains(a));
    let a_in_second = choose|i: int| 0 <= i < second.len() && second[i] == a;
    assert(preferred(b, second[a_in_second]));
    assert(first.contains(b));
    let b_in_first = choose|i: int| 0 <= i < first.len() && first[i] == b;
    assert(preferred(a, first[b_in_first]));
    assert(a.sample == b.sample);
    if at_first < b_in_first {
        assert(first[at_first].sample != first[b_in_first].sample);
    } else if b_in_first < at_first {
        assert(first[b_in_first].sample != first[at_first].sample);
    }
}

} // verus!
