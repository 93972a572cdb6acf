//! Choosing how a page lies in the list.
//!
//! A page is laid over the slots that are known in several ways. How well each fits is
//! measured elsewhere; here the best is chosen.
use vstd::prelude::*;

verus! {

/// One way of laying a page over the slots that are known.
#[derive(Debug, Clone, Copy, PartialEq, Eq, Structural)]
pub struct AlignmentCandidate {
    /// How well the page fits; the order of the mean score.
    pub score: i32,
    /// How many slots of the page are known.
    pub support: u32,
}

/// The one way is better than the other: it fits better, or as well with more slots.
pub open spec fn better(a: AlignmentCandidate, b: AlignmentCandidate) -> bool {
    a.score > b.score || (a.score == b.score && a.support > b.support)
}

/// A way that rests on more than one slot.
pub open spec fn supported(candidate: AlignmentCandidate) -> bool {
    candidate.support >= 2
}

/// A way that rests on more than one slot is among them.
pub open spec fn any_supported(candidates: Seq<AlignmentCandidate>) -> bool {
    exists|i: int| 0 <= i < candidates.len() && supported(#[trigger] candidates[i])
}

/// The way takes part: ways that rest on a single slot only do so if no other does.
pub open spec fn eligible(
    candidates: Seq<AlignmentCandidate>,
    index: int,
    excluded: Option<int>,
) -> bool {
    &&& 0 <= index < candidates.len()
    &&& excluded != Some(index)
    &&& any_supported(candidates) ==> supported(candidates[index])
}

/// The best of the ways that take part; the first of them where several are as good.
pub open spec fn is_best(
    candidates: Seq<AlignmentCandidate>,
    index: int,
    excluded: Option<int>,
) -> bool {
    &&& eligible(candidates, index, excluded)
    &&& forall|i: int| #[trigger]
        eligible(candidates, i, excluded) ==> !better(candidates[i], candidates[index]) && (i
            < index ==> better(candidates[index], candidates[i]))
}

fn has_support(candidates: &Vec<AlignmentCandidate>) -> (r: bool)
    ensures
        r == any_supported(candidates@),
{
    let mut i: usize = 0;
    while i < candidates.len()
        invariant
            i <= candidates@.len(),
            forall|k: int| 0 <= k < i ==> !supported(#[trigger] candidates@[k]),
        decreases candidates@.len() - i,
    {
        if candidates[i].support >= 2 {
            assert(supported(candidates@[i as int]));
            return true;
        }
        i = i + 1;
    }
    false
}

spec fn as_position(index: Option<usize>) -> Option<int> {
    match index {
        Some(index) => Some(index as int),
        None => None,
    }
}

fn find_best(candidates: &Vec<AlignmentCandidate>, excluded: Option<usize>) -> (r: Option<usize>)
    ensures
        match r {
            Some(index) => is_best(candidates@, index as int, as_position(excluded)),
            None => forall|i: int| !#[trigger] eligible(candidates@, i, as_position(excluded)),
        },
{
    let ghost left_out = as_position(excluded);
    let only_supported = has_support(candidates);
    let mut best: Option<usize> = None;
    let mut i: usize = 0;
    while i < candidates.len()
        invariant
            i <= candidates@.len(),
            only_supported == any_supported(candidates@),
            left_out == as_position(excluded),
            match best {
                Some(index) => {
                    &&& index < i
                    &&& eligible(candidates@, index as int, left_out)
                    &&& forall|k: int|
                        k < i && #[trigger] eligible(candidates@, k, left_out) ==> !better(
                            candidates@[k],
                            candidates@[index as int],
                        ) && (k < index ==> better(candidates@[index as int], candidates@[k]))
                },
                None => forall|k: int|
                    k < i ==> !#[trigger] eligible(candidates@, k, left_out),
            },
        decreases candidates@.len() - i,
    {
        let skipped = match excluded {
            Some(index) => index == i,
            None => false,
        };
        if !skipped && (!only_supported || candidates[i].support >= 2) {
            assert(eligible(candidates@, i as int, left_out));
            let keep = match best {
                Some(index) => !(candidates[i].score > candidates[index].score || (
                candidates[i].score == candidates[index].score && candidates[i].support
                    > candidates[index].support)),
                None => false,
            };
            if !keep {
                best = Some(i);
            }
        } else {
            assert(!eligible(candidates@, i as int, left_out));
        }
        i = i + 1;
    }
    best
}

/// The two best ways of laying a page over the slots that are known.
pub fn two_best(candidates: &Vec<AlignmentCandidate>) -> (r: Option<(usize, Option<usize>)>)
    ensures
        match r {
            None => candidates@.len() == 0,
            Some((best, None)) => is_best(candidates@, best as int, None) && forall|i: int|
                !#[trigger] eligible(candidates@, i, Some(best as int)),
            Some((best, Some(next))) => is_best(candidates@, best as int, None) && is_best(
                candidates@,
                next as int,
                Some(best as int),
            ),
        },
{
    match find_best(candidates, None) {
        None => {
            proof {
                assert(as_position(None) == None::<int>);
                if candidates@.len() > 0 {
                    if any_supported(candidates@) {
                        let i = choose|i: int|
                            0 <= i < candidates@.len() && supported(#[trigger] candidates@[i]);
                        assert(eligible(candidates@, i, None));
                    } else {
                        assert(eligible(candidates@, 0, None));
                    }
                }
            }
            None
        },
        Some(best) => Some((best, find_best(candidates, Some(best)))),
    }
}

/// Whether the best way is accepted: it stands alone, rests on more slots than the
/// next, or fits clearly better (`clear_margin`).
pub fn accept_alignment(
    best: &AlignmentCandidate,
    next: Option<&AlignmentCandidate>,
    clear_margin: bool,
) -> (r: bool)
    ensures
        r == match next {
            None => true,
            Some(next) => best.support > next.support || clear_margin,
        },
{
    match next {
        None => true,
        Some(next) => best.support > next.support || clear_margin,
    }
}

// ----- laws ------------------------------------------------------------------------

/// The best way fits at least as well as any other that takes part, rests on at least as
/// many slots as any that fits as well, and stands before any that equals it in both. A way
/// that rests on a single slot is the best only where no way rests on more.
#[verifier::spinoff_prover]
#[verifier::rlimit(30)]
pub proof fn lemma_best_way(candidates: Seq<AlignmentCandidate>, best: int)
    requires
        is_best(candidates, best, None),
    ensures
        0 <= best < candidates.len(),
        candidates[best].support < 2 ==> forall|i: int|
            0 <= i < candidates.len() ==> (#[trigger] candidates[i]).support < 2,
        forall|i: int|
            #![trigger candidates[i]]
            0 <= i < candidates.len() && (candidates[i].support >= 2 || candidates[best].support
                < 2) ==> {
                ||| candidates[i].score < candidates[best].score
                ||| candidates[i].score == candidates[best].score && candidates[i].support
                    < candidates[best].support
                ||| candidates[i].score == candidates[best].score && candidates[i].support
                    == candidates[best].support && best <= i
            },
{
    assert(eligible(candidates, best, None));
    assert forall|i: int|
        #![trigger candidates[i]]
        0 <= i < candidates.len() && candidates[best].support < 2 implies candidates[i].support
        < 2 by {
        if candidates[i].support >= 2 {
            assert(supported(candidates[i]));
        }
    }
    assert forall|i: int|
        #![trigger candidates[i]]
        0 <= i < candidates.len() && (candidates[i].support >= 2 || candidates[best].support
            < 2) implies {
        ||| candidates[i].score < candidates[best].score
        ||| candidates[i].score == candidates[best].score && candidates[i].support
            < candidates[best].support
        ||| candidates[i].score == candidates[best].score && candidates[i].support
            == candidates[best].support && best <= i
    } by {
        if any_supported(candidates) && candidates[i].support < 2 {
            assert(supported(candidates[best]));
        }
        assert(eligible(candidates, i, None));
    }
}

/// The next best way is another one, and the same holds of it among all others.
#[verifier::spinoff_prover]
#[verifier::rlimit(30)]
pub proof fn lemma_next_best_way(candidates: Seq<AlignmentCandidate>, best: int, next: int)
    requires
        is_best(candidates, best, None),
        is_best(candidates, next, Some(best)),
    ensures
        0 <= next < candidates.len(),
        next != best,
        candidates[best].support >= 2 ==> candidates[next].support >= 2,
        forall|i: int|
            #![trigger candidates[i]]
            0 <= i < candidates.len() && i != best && (candidates[i].support >= 2
                || candidates[best].support < 2) ==> {
                ||| candidates[i].score < candidates[next].score
                ||| candidates[i].score == candidates[next].score && candidates[i].support
                    < candidates[next].support
                ||| candidates[i].score == candidates[next].score && candidates[i].support
                    == candidates[next].support && next <= i
            },
{
    lemma_best_way(candidates, best);
    assert(eligible(candidates, next, Some(best)));
    if candidates[best].support >= 2 {
        assert(supported(candidates[best]));
        assert(any_supported(candidates));
    }
    assert forall|i: int|
        #![trigger candidates[i]]
        0 <= i < candidates.len() && i != best && (candidates[i].support >= 2
            || candidates[best].support < 2) implies {
        ||| candidates[i].score < candidates[next].score
        ||| candidates[i].score == candidates[next].score && candidates[i].support
            < candidates[next].support
        ||| candidates[i].score == candidates[next].score && candidates[i].support
            == candidates[next].support && next <= i
    } by {
        if any_supported(candidates) && candidates[i].support < 2 {
            let k = choose|k: int| 0 <= k < candidates.len() && supported(#[trigger] candidates[k]);
            assert(candidates[k].support < 2);
        }
        assert(eligible(candidates, i, Some(best)));
    }
}

/// There is no best way only where there is no way, and no next best one only where every
/// other way rests on a single slot and the best one does not, or there is no other.
pub proof fn lemma_no_way(candidates: Seq<AlignmentCandidate>, best: int)
    requires
        is_best(candidates, best, None),
        forall|i: int| !#[trigger] eligible(candidates, i, Some(best)),
    ensures
        forall|i: int|
            0 <= i < candidates.len() && i != best ==> (#[trigger] candidates[i]).support < 2
                && candidates[best].support >= 2,
{
    lemma_best_way(candidates, best);
    assert forall|i: int| 0 <= i < candidates.len() && i != best implies (
    #[trigger] candidates[i]).support < 2 && candidates[best].support >= 2 by {
        assert(!eligible(candidates, i, Some(best)));
        if candidates[best].support < 2 {
            let k = choose|k: int| 0 <= k < candidates.len() && supported(#[trigger] candidates[k]);
            assert(candidates[k].support < 2);
        }
    }
}

} // verus!
