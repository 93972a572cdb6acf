//! Identifies which catalog Stratagem a captured loadout slot shows.
//!
//! How well an icon of the catalog fits a slot is measured elsewhere. Here it is
//! decided which icons are compared, in which order they come out, and whether the
//! best one is accepted. Scores are integers that order as the measured errors do.
use crate::catalog::{permit_category, Catalog, StratagemEntry};
use crate::item::StratagemCategory;
use crate::text::{same_text, views};
use vstd::prelude::*;

verus! {

/// The size in pixels at which reference icons are drawn.
pub const REFERENCE_RENDER_SIZE: u32 = 96;

/// The largest error of a plausible match: 0.60 as an ordered integer.
pub const ACCEPT_SCORE: i64 = 4_603_579_539_098_121_011;

/// An icon of the catalog with which slots are compared.
#[derive(Debug)]
pub struct Reference {
    pub id: String,
    pub category: StratagemCategory,
}

/// A reference as a mathematical value.
#[verifier::ext_equal]
pub struct ReferenceView {
    pub id: Seq<char>,
    pub category: StratagemCategory,
}

impl View for Reference {
    type V = ReferenceView;

    open spec fn view(&self) -> ReferenceView {
        ReferenceView { id: self.id@, category: self.category }
    }
}

pub open spec fn reference_views(list: Seq<Reference>) -> Seq<ReferenceView> {
    list.map_values(|reference: Reference| reference@)
}

/// The references of catalog entries: those that can be equipped and have an icon.
pub open spec fn references_of(entries: Seq<StratagemEntry>) -> Seq<ReferenceView>
    decreases entries.len(),
{
    if entries.len() == 0 {
        Seq::empty()
    } else {
        let before = references_of(entries.drop_last());
        let entry = entries.last();
        if entry.equippable() && entry.icon is Some {
            before.push(
                ReferenceView { id: entry.id@, category: permit_category(entry.permit@)->0 },
            )
        } else {
            before
        }
    }
}

/// The elements of a list whose flags are set.
pub open spec fn kept(list: Seq<ReferenceView>, flags: Seq<bool>) -> Seq<ReferenceView>
    decreases list.len(),
{
    if list.len() == 0 {
        Seq::empty()
    } else if flags[list.len() - 1] {
        kept(list.drop_last(), flags).push(list.last())
    } else {
        kept(list.drop_last(), flags)
    }
}

/// No icon of the catalog can be compared.
#[derive(Debug, Clone, Copy, PartialEq, Eq, Structural)]
pub struct NoReferences;

impl NoReferences {
    /// The message shown to the user.
    pub fn message(self) -> (r: &'static str)
        ensures
            r@ == "the catalog has no loadout stratagems with icons"@,
    {
        "the catalog has no loadout stratagems with icons"
    }
}

/// The icons of the catalog that can be compared with a slot.
pub fn reference_candidates(catalog: &Catalog) -> (r: Vec<Reference>)
    ensures
        reference_views(r@) == references_of(catalog.list()),
{
    let entries = catalog.entries();
    let mut out: Vec<Reference> = Vec::new();
    let mut i: usize = 0;
    assert(entries@.take(0) =~= Seq::<StratagemEntry>::empty());
    assert(reference_views(out@) =~= Seq::<ReferenceView>::empty());
    while i < entries.len()
        invariant
            i <= entries@.len(),
            reference_views(out@) == references_of(entries@.take(i as int)),
        decreases entries@.len() - i,
    {
        assert(entries@.take(i + 1).drop_last() == entries@.take(i as int));
        assert(entries@.take(i + 1).last() == entries@[i as int]);
        let entry = &entries[i];
        if entry.is_loadout_item() && entry.icon.is_some() {
            if let Some(category) = entry.category() {
                let ghost before = reference_views(out@);
                let reference = Reference { id: entry.id.clone(), category };
                let ghost added = reference@;
                out.push(reference);
                assert(reference_views(out@) =~= before.push(added));
            }
        }
        i = i + 1;
    }
    assert(entries@.take(entries@.len() as int) =~= entries@);
    out
}

/// The references with which slots are compared.
#[derive(Debug)]
pub struct CatalogIdentifier {
    references: Vec<Reference>,
}

impl View for CatalogIdentifier {
    type V = Seq<ReferenceView>;

    closed spec fn view(&self) -> Seq<ReferenceView> {
        reference_views(self.references@)
    }
}

/// The reference takes part in a comparison.
pub open spec fn takes_part(
    reference: ReferenceView,
    category: StratagemCategory,
    allowed: Option<Seq<Seq<char>>>,
) -> bool {
    reference.category == category && match allowed {
        Some(ids) => ids.contains(reference.id),
        None => true,
    }
}

/// The places of the references that take part in a comparison.
pub open spec fn compared_places(
    references: Seq<ReferenceView>,
    category: StratagemCategory,
    allowed: Option<Seq<Seq<char>>>,
) -> Seq<usize>
    decreases references.len(),
{
    if references.len() == 0 {
        Seq::empty()
    } else {
        let before = compared_places(references.drop_last(), category, allowed);
        if takes_part(references.last(), category, allowed) {
            before.push((references.len() - 1) as usize)
        } else {
            before
        }
    }
}

pub open spec fn allowed_ids(allowed: Option<&Vec<String>>) -> Option<Seq<Seq<char>>> {
    match allowed {
        Some(ids) => Some(views(ids@)),
        None => None,
    }
}

fn is_allowed(id: &str, allowed: Option<&Vec<String>>) -> (r: bool)
    ensures
        r == match allowed_ids(allowed) {
            Some(ids) => ids.contains(id@),
            None => true,
        },
{
    let ids = match allowed {
        Some(ids) => ids,
        None => {
            return true;
        },
    };
    let mut i: usize = 0;
    while i < ids.len()
        invariant
            i <= ids@.len(),
            allowed_ids(allowed) == Some(views(ids@)),
            forall|k: int| 0 <= k < i ==> views(ids@)[k] != id@,
        decreases ids@.len() - i,
    {
        if same_text(ids[i].as_str(), id) {
            assert(views(ids@)[i as int] == id@);
            return true;
        }
        i = i + 1;
    }
    false
}

/// A reference with the error of its match.
#[derive(Debug)]
pub struct IdentificationCandidate {
    pub id: String,
    /// The error of the match; lower is better.
    pub score: i64,
}

/// A candidate as a mathematical value.
#[verifier::ext_equal]
pub struct CandidateView {
    pub id: Seq<char>,
    pub score: i64,
}

impl View for IdentificationCandidate {
    type V = CandidateView;

    open spec fn view(&self) -> CandidateView {
        CandidateView { id: self.id@, score: self.score }
    }
}

pub open spec fn candidate_views(list: Seq<IdentificationCandidate>) -> Seq<CandidateView> {
    list.map_values(|candidate: IdentificationCandidate| candidate@)
}

/// A ranking with another candidate put behind those that are as good or better.
pub open spec fn inserted(ranking: Seq<CandidateView>, candidate: CandidateView) -> Seq<
    CandidateView,
>
    decreases ranking.len(),
{
    if ranking.len() == 0 || ranking.last().score <= candidate.score {
        ranking.push(candidate)
    } else {
        inserted(ranking.drop_last(), candidate).push(ranking.last())
    }
}

/// Candidates from the best to the worst; those that are equally good stay in order.
pub open spec fn ranking_of(candidates: Seq<CandidateView>) -> Seq<CandidateView>
    decreases candidates.len(),
{
    if candidates.len() == 0 {
        Seq::empty()
    } else {
        inserted(ranking_of(candidates.drop_last()), candidates.last())
    }
}

proof fn lemma_inserted_at(ranking: Seq<CandidateView>, candidate: CandidateView, p: int)
    requires
        0 <= p <= ranking.len(),
        forall|i: int| p <= i < ranking.len() ==> (#[trigger] ranking[i]).score > candidate.score,
        p > 0 ==> ranking[p - 1].score <= candidate.score,
    ensures
        inserted(ranking, candidate) == ranking.insert(p, candidate),
    decreases ranking.len(),
{
    if p < ranking.len() {
        assert(ranking[ranking.len() - 1].score > candidate.score);
        lemma_inserted_at(ranking.drop_last(), candidate, p);
        assert(ranking.drop_last().insert(p, candidate).push(ranking.last()) =~= ranking.insert(
            p,
            candidate,
        ));
    } else {
        assert(ranking.insert(p, candidate) =~= ranking.push(candidate));
    }
}

fn insert_candidate(
    ranking: &mut Vec<IdentificationCandidate>,
    candidate: IdentificationCandidate,
)
    ensures
        candidate_views(final(ranking)@) == inserted(candidate_views(old(ranking)@), candidate@),
{
    let ghost before = candidate_views(ranking@);
    let mut p: usize = ranking.len();
    while p > 0 && ranking[p - 1].score > candidate.score
        invariant
            p <= ranking@.len(),
            before == candidate_views(ranking@),
            forall|i: int| p <= i < before.len() ==> (#[trigger] before[i]).score > candidate@.score,
        decreases p,
    {
        assert(before[p - 1] == ranking@[p - 1]@);
        p = p - 1;
    }
    proof {
        if p > 0 {
            assert(before[p - 1] == ranking@[p - 1]@);
        }
        lemma_inserted_at(before, candidate@, p as int);
    }
    let ghost added = candidate@;
    ranking.insert(p, candidate);
    assert(candidate_views(ranking@) =~= before.insert(p as int, added));
}

/// What a slot was identified as.
#[derive(Debug)]
pub struct Identification {
    pub category: StratagemCategory,
    /// The id of the best candidate, if it is accepted.
    pub accepted: Option<String>,
    /// The candidates from the best to the worst.
    pub ranked: Vec<IdentificationCandidate>,
}

/// The candidate that is accepted: the best one, if its match is plausible and it is
/// clearly better than the next.
pub open spec fn accepted_id(ranked: Seq<CandidateView>, clear_margin: bool) -> Option<Seq<char>> {
    if ranked.len() > 0 && ranked[0].score <= ACCEPT_SCORE && (ranked.len() == 1 || clear_margin) {
        Some(ranked[0].id)
    } else {
        None
    }
}

impl Identification {
    /// The best candidate.
    pub fn best(&self) -> (r: Option<&IdentificationCandidate>)
        ensures
            match r {
                Some(best) => self.ranked@.len() > 0 && *best == self.ranked@[0],
                None => self.ranked@.len() == 0,
            },
    {
        if self.ranked.len() > 0 {
            Some(&self.ranked[0])
        } else {
            None
        }
    }

    /// Decides on ranked candidates. `clear_margin` says that the best is better than
    /// the next by enough.
    pub fn settle(
        category: StratagemCategory,
        ranked: Vec<IdentificationCandidate>,
        clear_margin: bool,
    ) -> (r: Identification)
        ensures
            r.category == category,
            r.ranked == ranked,
            match r.accepted {
                Some(id) => accepted_id(candidate_views(ranked@), clear_margin) == Some(id@),
                None => accepted_id(candidate_views(ranked@), clear_margin) is None,
            },
    {
        let accepted = if ranked.len() > 0 && ranked[0].score <= ACCEPT_SCORE && (ranked.len() == 1
            || clear_margin) {
            assert(candidate_views(ranked@)[0] == ranked@[0]@);
            Some(ranked[0].id.clone())
        } else {
            assert(ranked@.len() > 0 ==> candidate_views(ranked@)[0] == ranked@[0]@);
            None
        };
        Identification { category, accepted, ranked }
    }
}

/// The candidates of a comparison, in the order of the references.
pub open spec fn candidates_of(
    references: Seq<ReferenceView>,
    places: Seq<usize>,
    scores: Seq<i64>,
) -> Seq<CandidateView> {
    Seq::new(
        places.len(),
        |i: int| CandidateView { id: references[places[i] as int].id, score: scores[i] },
    )
}

impl CatalogIdentifier {
    /// Takes up the icons of the catalog. `prepared` says of each candidate whether its
    /// icon could be prepared: a single bad icon does not spoil the others.
    pub fn from_catalog(catalog: &Catalog, prepared: &Vec<bool>) -> (r: Result<
        CatalogIdentifier,
        NoReferences,
    >)
        requires
            prepared@.len() == references_of(catalog.list()).len(),
        ensures
            match r {
                Ok(identifier) => identifier@.len() > 0 && identifier@ == kept(
                    references_of(catalog.list()),
                    prepared@,
                ),
                Err(_) => kept(references_of(catalog.list()), prepared@).len() == 0,
            },
    {
        let candidates = reference_candidates(catalog);
        let ghost all = reference_views(candidates@);
        let mut references: Vec<Reference> = Vec::new();
        let mut i: usize = 0;
        assert(all.take(0) =~= Seq::<ReferenceView>::empty());
        assert(reference_views(references@) =~= Seq::<ReferenceView>::empty());
        while i < candidates.len()
            invariant
                i <= candidates@.len(),
                all == reference_views(candidates@),
                prepared@.len() == candidates@.len(),
                reference_views(references@) == kept(all.take(i as int), prepared@),
            decreases candidates@.len() - i,
        {
            assert(all.take(i + 1).drop_last() == all.take(i as int));
            assert(all.take(i + 1).last() == candidates@[i as int]@);
            if prepared[i] {
                let ghost before = reference_views(references@);
                references.push(
                    Reference { id: candidates[i].id.clone(), category: candidates[i].category },
                );
                assert(reference_views(references@) =~= before.push(candidates@[i as int]@));
            }
            i = i + 1;
        }
        assert(all.take(all.len() as int) =~= all);
        if references.len() == 0 {
            return Err(NoReferences);
        }
        Ok(CatalogIdentifier { references })
    }

    /// How many references there are.
    pub fn len(&self) -> (r: usize)
        ensures
            r == self@.len(),
    {
        self.references.len()
    }

    /// The references with which a slot of a category is compared. When `allowed` is
    /// given, only those catalog ids are considered.
    pub fn compared(&self, category: StratagemCategory, allowed: Option<&Vec<String>>) -> (r: Vec<
        usize,
    >)
        ensures
            r@ == compared_places(self@, category, allowed_ids(allowed)),
    {
        let ghost all = self@;
        let mut out: Vec<usize> = Vec::new();
        let mut i: usize = 0;
        assert(all.take(0) =~= Seq::<ReferenceView>::empty());
        while i < self.references.len()
            invariant
                i <= self.references@.len(),
                all == reference_views(self.references@),
                out@ == compared_places(all.take(i as int), category, allowed_ids(allowed)),
            decreases self.references@.len() - i,
        {
            assert(all.take(i + 1).drop_last() == all.take(i as int));
            assert(all.take(i + 1).last() == self.references@[i as int]@);
            if self.references[i].category == category && is_allowed(
                self.references[i].id.as_str(),
                allowed,
            ) {
                out.push(i);
            }
            i = i + 1;
        }
        assert(all.take(all.len() as int) =~= all);
        out
    }

    /// The reference at a place.
    pub fn reference(&self, place: usize) -> (r: &Reference)
        requires
            place < self@.len(),
        ensures
            r@ == self@[place as int],
    {
        assert(self@[place as int] == self.references@[place as int]@);
        &self.references[place]
    }

    /// Ranks the references that were compared by the errors of their matches.
    pub fn rank(&self, places: &Vec<usize>, scores: &Vec<i64>) -> (r: Vec<IdentificationCandidate>)
        requires
            scores@.len() == places@.len(),
            forall|i: int| 0 <= i < places@.len() ==> #[trigger] places@[i] < self@.len(),
        ensures
            candidate_views(r@) == ranking_of(candidates_of(self@, places@, scores@)),
    {
        let ghost all = candidates_of(self@, places@, scores@);
        let mut ranking: Vec<IdentificationCandidate> = Vec::new();
        let mut i: usize = 0;
        assert(all.take(0) =~= Seq::<CandidateView>::empty());
        assert(candidate_views(ranking@) =~= Seq::<CandidateView>::empty());
        while i < places.len()
            invariant
                i <= places@.len(),
                scores@.len() == places@.len(),
                forall|k: int| 0 <= k < places@.len() ==> #[trigger] places@[k] < self@.len(),
                all == candidates_of(self@, places@, scores@),
                candidate_views(ranking@) == ranking_of(all.take(i as int)),
            decreases places@.len() - i,
        {
            assert(all.take(i + 1).drop_last() == all.take(i as int));
            assert(places@[i as int] < self@.len());
            assert(self@[places@[i as int] as int] == self.references@[places@[i as int] as int]@);
            let candidate = IdentificationCandidate {
                id: self.references[places[i]].id.clone(),
                score: scores[i],
            };
            assert(all.take(i + 1).last() == candidate@);
            insert_candidate(&mut ranking, candidate);
            i = i + 1;
        }
        assert(all.take(all.len() as int) =~= all);
        ranking
    }
}

// ----- laws ------------------------------------------------------------------------

/// What takes part in a comparison is exactly what has the category and is allowed.
pub proof fn lemma_compared_places(
    references: Seq<ReferenceView>,
    category: StratagemCategory,
    allowed: Option<Seq<Seq<char>>>,
)
    requires
        references.len() <= usize::MAX,
    ensures
        forall|i: int|
            0 <= i < compared_places(references, category, allowed).len() ==> (
            #[trigger] compared_places(references, category, allowed)[i]) < references.len()
                && takes_part(
                references[compared_places(references, category, allowed)[i] as int],
                category,
                allowed,
            ),
        forall|k: int|
            0 <= k < references.len() && takes_part(#[trigger] references[k], category, allowed)
                ==> compared_places(references, category, allowed).contains(k as usize),
    decreases references.len(),
{
    if references.len() > 0 {
        let rest = references.drop_last();
        lemma_compared_places(rest, category, allowed);
        let before = compared_places(rest, category, allowed);
        let places = compared_places(references, category, allowed);
        assert forall|i: int| 0 <= i < places.len() implies (#[trigger] places[i])
            < references.len() && takes_part(references[places[i] as int], category, allowed) by {
            if i < before.len() {
                assert(places[i] == before[i]);
                assert(rest[before[i] as int] == references[before[i] as int]);
            }
        }
        assert forall|k: int|
            0 <= k < references.len() && takes_part(
                #[trigger] references[k],
                category,
                allowed,
            ) implies places.contains(k as usize) by {
            if k < rest.len() {
                assert(rest[k] == references[k]);
                assert(before.contains(k as usize));
                let i = choose|i: int| 0 <= i < before.len() && before[i] == k as usize;
                assert(places[i] == k as usize);
            } else {
                assert(places[places.len() - 1] == k as usize);
            }
        }
    }
}

proof fn lemma_inserted(ranking: Seq<CandidateView>, candidate: CandidateView)
    requires
        forall|i: int, j: int|
            0 <= i <= j < ranking.len() ==> ranking[i].score <= ranking[j].score,
    ensures
        inserted(ranking, candidate).len() == ranking.len() + 1,
        inserted(ranking, candidate).to_multiset() == ranking.push(candidate).to_multiset(),
        forall|i: int, j: int|
            0 <= i <= j < inserted(ranking, candidate).len() ==> inserted(ranking, candidate)[i].score
                <= inserted(ranking, candidate)[j].score,
        inserted(ranking, candidate).len() > 0,
        ranking.len() > 0 && ranking.last().score > candidate.score ==> inserted(
            ranking,
            candidate,
        ).last() == ranking.last(),
        ranking.len() == 0 || ranking.last().score <= candidate.score ==> inserted(
            ranking,
            candidate,
        ).last() == candidate,
    decreases ranking.len(),
{
    broadcast use vstd::seq_lib::group_to_multiset_ensures;

    if ranking.len() > 0 && ranking.last().score > candidate.score {
        let rest = ranking.drop_last();
        assert forall|i: int, j: int| 0 <= i <= j < rest.len() implies rest[i].score
            <= rest[j].score by {
            assert(ranking[i].score <= ranking[j].score);
        }
        lemma_inserted(rest, candidate);
        let part = inserted(rest, candidate);
        let all = inserted(ranking, candidate);
        assert(ranking == rest.push(ranking.last()));
        assert(all.to_multiset() =~= ranking.push(candidate).to_multiset());
        assert(part.last().score <= ranking.last().score) by {
            if rest.len() > 0 && rest.last().score > candidate.score {
                assert(ranking[rest.len() - 1].score <= ranking[ranking.len() - 1].score);
            }
        }
        assert forall|i: int, j: int| 0 <= i <= j < all.len() implies all[i].score
            <= all[j].score by {
            if j < part.len() {
                assert(all[i] == part[i] && all[j] == part[j]);
            } else if i < part.len() {
                assert(all[i] == part[i]);
                assert(part[i].score <= part[part.len() - 1].score);
            }
        }
    } else {
        let all = ranking.push(candidate);
        assert forall|i: int, j: int| 0 <= i <= j < all.len() implies all[i].score
            <= all[j].score by {
            if j == ranking.len() && i < ranking.len() {
                assert(ranking[i].score <= ranking[ranking.len() - 1].score);
            } else if j < ranking.len() {
                assert(ranking[i].score <= ranking[j].score);
            }
        }
    }
}

/// A ranking holds the candidates that were compared, from the best to the worst.
pub proof fn lemma_ranking(candidates: Seq<CandidateView>)
    ensures
        ranking_of(candidates).to_multiset() == candidates.to_multiset(),
        ranking_of(candidates).len() == candidates.len(),
        forall|i: int, j: int|
            0 <= i <= j < ranking_of(candidates).len() ==> ranking_of(candidates)[i].score
                <= ranking_of(candidates)[j].score,
    decreases candidates.len(),
{
    broadcast use vstd::seq_lib::group_to_multiset_ensures;

    if candidates.len() > 0 {
        let rest = candidates.drop_last();
        lemma_ranking(rest);
        lemma_inserted(ranking_of(rest), candidates.last());
        assert(candidates == rest.push(candidates.last()));
        assert(ranking_of(candidates).to_multiset() =~= candidates.to_multiset());
    }
}

/// What is accepted is the id of a candidate than which none has a lower error, its error
/// is small enough, and where there are other candidates its margin is clear. So nothing
/// is accepted when the margin between the best two is not clear.
#[verifier::spinoff_prover]
#[verifier::rlimit(30)]
pub proof fn lemma_accepted_is_clear(candidates: Seq<CandidateView>, clear_margin: bool)
    ensures
        candidates.len() >= 2 && !clear_margin ==> accepted_id(
            ranking_of(candidates),
            clear_margin,
        ) is None,
        candidates.len() == 0 ==> accepted_id(ranking_of(candidates), clear_margin) is None,
        (forall|i: int| 0 <= i < candidates.len() ==> (#[trigger] candidates[i]).score > ACCEPT_SCORE)
            ==> accepted_id(ranking_of(candidates), clear_margin) is None,
        accepted_id(ranking_of(candidates), clear_margin) matches Some(id) ==> exists|i: int|
            #![trigger candidates[i]]
            {
                &&& 0 <= i < candidates.len()
                &&& candidates[i].id == id
                &&& candidates[i].score <= ACCEPT_SCORE
                &&& forall|j: int|
                    0 <= j < candidates.len() ==> candidates[i].score <= (
                    #[trigger] candidates[j]).score
            },
        (exists|i: int| 0 <= i < candidates.len() && (#[trigger] candidates[i]).score <= ACCEPT_SCORE)
            && (candidates.len() == 1 || clear_margin) ==> accepted_id(
            ranking_of(candidates),
            clear_margin,
        ) is Some,
{
    lemma_ranking(candidates);
    let ranked = ranking_of(candidates);
    if candidates.len() > 0 {
        let best = ranked[0];
        assert(ranked.to_multiset().count(best) > 0) by {
            ranked.to_multiset_ensures();
            assert(ranked.contains(best));
        }
        candidates.to_multiset_ensures();
        assert(candidates.contains(best));
        let i = choose|i: int| 0 <= i < candidates.len() && candidates[i] == best;
        assert forall|j: int| 0 <= j < candidates.len() implies candidates[i].score <= (
        #[trigger] candidates[j]).score by {
            ranked.to_multiset_ensures();
            assert(candidates.contains(candidates[j]));
            assert(candidates.to_multiset().count(candidates[j]) > 0);
            assert(ranked.contains(candidates[j]));
            let k = choose|k: int| 0 <= k < ranked.len() && ranked[k] == candidates[j];
            assert(ranked[0].score <= ranked[k].score);
        }
        assert(candidates[i].score <= candidates[i].score);
    }
}

/// The same of any ranking from the best to the worst, as it is handed to
/// [`Identification::settle`]. An error is small enough up to 0.60, which is told by its
/// bits.
pub proof fn lemma_settled(ranked: Seq<CandidateView>, clear_margin: bool)
    requires
        forall|i: int, j: int| 0 <= i <= j < ranked.len() ==> ranked[i].score <= ranked[j].score,
    ensures
        ranked.len() >= 2 && !clear_margin ==> accepted_id(ranked, clear_margin) is None,
        accepted_id(ranked, clear_margin) matches Some(id) ==> {
            &&& ranked.len() > 0
            &&& id == ranked[0].id
            &&& forall|j: int|
                0 <= j < ranked.len() ==> ranked[0].score <= (#[trigger] ranked[j]).score
            &&& ranked[0].score <= 4_603_579_539_098_121_011
        },
        accepted_id(ranked, clear_margin) is Some <==> ranked.len() > 0 && ranked[0].score
            <= 4_603_579_539_098_121_011 && (ranked.len() < 2 || clear_margin),
{
}

#[verifier::spinoff_prover]
#[verifier::rlimit(30)]
proof fn lemma_references_come_from_entries(entries: Seq<StratagemEntry>)
    ensures
        forall|r: int|
            0 <= r < references_of(entries).len() ==> exists|e: int|
                #![trigger entries[e]]
                0 <= e < entries.len() && (#[trigger] references_of(entries)[r]).id
                    == entries[e].id@ && entries[e].icon is Some && entries[e].equippable()
                    && permit_category(entries[e].permit@) == Some(
                    references_of(entries)[r].category,
                ),
        forall|e: int|
            0 <= e < entries.len() && (#[trigger] entries[e]).icon is Some && entries[e].equippable()
                ==> exists|r: int|
                0 <= r < references_of(entries).len() && (#[trigger] references_of(entries)[r]).id
                    == entries[e].id@,
    decreases entries.len(),
{
    let all = references_of(entries);
    if entries.len() > 0 {
        let before = entries.drop_last();
        lemma_references_come_from_entries(before);
        let held = references_of(before);
        let last: int = entries.len() - 1;
        assert forall|r: int| 0 <= r < all.len() implies exists|e: int|
            #![trigger entries[e]]
            0 <= e < entries.len() && (#[trigger] all[r]).id == entries[e].id@ && entries[e].icon is Some
                && entries[e].equippable() && permit_category(entries[e].permit@) == Some(
                all[r].category,
            ) by {
            if r < held.len() {
                assert(all[r] == held[r]);
                let e = choose|e: int|
                    #![trigger before[e]]
                    0 <= e < before.len() && held[r].id == before[e].id@ && before[e].icon is Some
                        && before[e].equippable() && permit_category(before[e].permit@) == Some(
                        held[r].category,
                    );
                assert(entries[e] == before[e]);
            } else {
                assert(entries[last].equippable());
            }
        }
        assert forall|e: int|
            0 <= e < entries.len() && (#[trigger] entries[e]).icon is Some
                && entries[e].equippable() implies exists|r: int|
            0 <= r < all.len() && (#[trigger] all[r]).id == entries[e].id@ by {
            if e < last {
                assert(before[e] == entries[e]);
                let r = choose|r: int|
                    0 <= r < held.len() && (#[trigger] held[r]).id == before[e].id@;
                assert(all[r] == held[r]);
            } else {
                assert(all[held.len() as int].id == entries[e].id@);
            }
        }
    }
}

/// A slot is compared with the icons of the Stratagems that can be equipped, each under
/// its own id and in the category of its permit, and with all of them.
pub proof fn lemma_references(entries: Seq<StratagemEntry>)
    ensures
        forall|r: int|
            0 <= r < references_of(entries).len() ==> exists|e: int|
                #![trigger entries[e]]
                0 <= e < entries.len() && (#[trigger] references_of(entries)[r]).id
                    == entries[e].id@ && entries[e].icon is Some && entries[e].equippable()
                    && permit_category(entries[e].permit@) == Some(
                    references_of(entries)[r].category,
                ),
        forall|e: int|
            0 <= e < entries.len() && (#[trigger] entries[e]).icon is Some && entries[e].equippable()
                ==> exists|r: int|
                0 <= r < references_of(entries).len() && (#[trigger] references_of(entries)[r]).id
                    == entries[e].id@,
{
    lemma_references_come_from_entries(entries);
}

/// The candidates of a list that have the error `score`, in their order.
pub open spec fn with_score(list: Seq<CandidateView>, score: i64) -> Seq<CandidateView> {
    list.filter(|other: CandidateView| other.score == score)
}

proof fn lemma_with_score_push(list: Seq<CandidateView>, candidate: CandidateView, score: i64)
    ensures
        with_score(list.push(candidate), score) == (if candidate.score == score {
            with_score(list, score).push(candidate)
        } else {
            with_score(list, score)
        }),
{
    reveal(Seq::filter);
    assert(list.push(candidate).drop_last() =~= list);
}

proof fn lemma_inserted_keeps_order(
    ranking: Seq<CandidateView>,
    candidate: CandidateView,
    score: i64,
)
    ensures
        with_score(inserted(ranking, candidate), score) == with_score(
            ranking.push(candidate),
            score,
        ),
    decreases ranking.len(),
{
    if !(ranking.len() == 0 || ranking.last().score <= candidate.score) {
        let rest = ranking.drop_last();
        lemma_inserted_keeps_order(rest, candidate, score);
        lemma_with_score_push(inserted(rest, candidate), ranking.last(), score);
        lemma_with_score_push(rest, candidate, score);
        lemma_with_score_push(ranking, candidate, score);
        lemma_with_score_push(rest, ranking.last(), score);
        assert(rest.push(ranking.last()) =~= ranking);
    }
}

/// Candidates with the same error stay in the order in which they were compared.
pub proof fn lemma_ranking_keeps_order(candidates: Seq<CandidateView>, score: i64)
    ensures
        with_score(ranking_of(candidates), score) == with_score(candidates, score),
    decreases candidates.len(),
{
    if candidates.len() > 0 {
        let before = candidates.drop_last();
        lemma_ranking_keeps_order(before, score);
        lemma_inserted_keeps_order(ranking_of(before), candidates.last(), score);
        lemma_with_score_push(ranking_of(before), candidates.last(), score);
        lemma_with_score_push(before, candidates.last(), score);
        assert(before.push(candidates.last()) =~= candidates);
    }
}

/// The candidates of a comparison are the references that were compared, each with the error
/// that was measured for it.
pub proof fn lemma_candidates(
    references: Seq<ReferenceView>,
    places: Seq<usize>,
    scores: Seq<i64>,
)
    requires
        scores.len() == places.len(),
    ensures
        candidates_of(references, places, scores).len() == places.len(),
        forall|i: int|
            0 <= i < places.len() ==> (#[trigger] candidates_of(references, places, scores)[i]).id
                == references[places[i] as int].id && candidates_of(
                references,
                places,
                scores,
            )[i].score == scores[i],
{
}

/// What is compared with a slot: exactly the references of its category whose ids are
/// allowed, where that is restricted, each once and in order.
#[verifier::spinoff_prover]
#[verifier::rlimit(30)]
pub proof fn lemma_compared_in_order(
    references: Seq<ReferenceView>,
    category: StratagemCategory,
    allowed: Option<Seq<Seq<char>>>,
)
    requires
        references.len() <= usize::MAX,
    ensures
        ({
            let places = compared_places(references, category, allowed);
            &&& forall|i: int|
                0 <= i < places.len() ==> (#[trigger] places[i]) < references.len()
                    && references[places[i] as int].category == category && (allowed is Some
                    ==> allowed->0.contains(references[places[i] as int].id))
            &&& forall|i: int, j: int|
                0 <= i < j < places.len() ==> (#[trigger] places[i]) < (#[trigger] places[j])
            &&& forall|k: int|
                0 <= k < references.len() && (#[trigger] references[k]).category == category && (
                allowed is None || allowed->0.contains(references[k].id)) ==> places.contains(
                    k as usize,
                )
        }),
    decreases references.len(),
{
    if references.len() > 0 {
        let before = references.drop_last();
        let last: int = references.len() - 1;
        lemma_compared_in_order(before, category, allowed);
        let held = compared_places(before, category, allowed);
        let places = compared_places(references, category, allowed);
        assert forall|k: int| 0 <= k < before.len() implies #[trigger] references[k]
            == before[k] by {}
        assert forall|i: int| 0 <= i < held.len() implies #[trigger] places[i] == held[i] by {}
        assert(references[last] == references.last());
        assert forall|i: int| 0 <= i < places.len() implies (#[trigger] places[i])
            < references.len() && references[places[i] as int].category == category && (
        allowed is Some ==> allowed->0.contains(references[places[i] as int].id)) by {
            if i < held.len() {
                assert(places[i] == held[i]);
                assert(references[held[i] as int] == before[held[i] as int]);
            }
        }
        assert forall|i: int, j: int| 0 <= i < j < places.len() implies (#[trigger] places[i]) < (
        #[trigger] places[j]) by {
            assert(places[i] == held[i]);
            if j < held.len() {
                assert(places[j] == held[j]);
            }
        }
        assert forall|k: int|
            0 <= k < references.len() && (#[trigger] references[k]).category == category && (
            allowed is None || allowed->0.contains(references[k].id)) implies places.contains(
            k as usize,
        ) by {
            if k < last {
                assert(before[k].category == category);
                let i = choose|i: int| 0 <= i < held.len() && held[i] == k as usize;
                assert(places[i] == k as usize);
            } else {
                assert(places[held.len() as int] == k as usize);
            }
        }
    }
}

proof fn lemma_kept_flags(list: Seq<ReferenceView>, flags: Seq<bool>, other: Seq<bool>)
    requires
        forall|i: int| 0 <= i < list.len() ==> flags[i] == #[trigger] other[i],
    ensures
        kept(list, flags) == kept(list, other),
    decreases list.len(),
{
    if list.len() > 0 {
        assert(flags[list.len() - 1] == other[list.len() - 1]);
        lemma_kept_flags(list.drop_last(), flags, other);
    }
}

/// The references that are taken up are those whose icons could be prepared, in their order:
/// one more of them is put behind the others exactly when its icon could be prepared, and
/// none is taken up from none.
pub proof fn lemma_kept(
    list: Seq<ReferenceView>,
    flags: Seq<bool>,
    reference: ReferenceView,
    flag: bool,
)
    requires
        flags.len() == list.len(),
    ensures
        kept(Seq::empty(), Seq::empty()).len() == 0,
        flag ==> kept(list.push(reference), flags.push(flag)) == kept(list, flags).push(reference),
        !flag ==> kept(list.push(reference), flags.push(flag)) == kept(list, flags),
{
    assert(list.push(reference).drop_last() =~= list);
    lemma_kept_flags(list, flags.push(flag), flags);
}

} // verus!
