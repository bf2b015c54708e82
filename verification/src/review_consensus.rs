//! The review component: it stores the reviews, keeps the stake-weighted
//! verdict of every claim that has enough of them, and prices the rewards and
//! penalties when a claim is settled.
use vstd::prelude::*;
use std::collections::HashMap;
use crate::address::{holds, optional_view, Address};
use crate::consensus::{
    conclude,
    consensus_of,
    lemma_tally_fits_bounds,
    proportional_reward,
    reward_pool,
    reward_pool_of,
    slash_amount,
    tally_fits,
    winning_stake,
    winning_verdict,
    ConsensusResult,
    Verdict,
    CORRECT_REVIEW_POINTS,
    INCORRECT_REVIEW_POINTS,
    MIN_REVIEWS_FOR_CONSENSUS,
};
use crate::error::Error;
use crate::event::{event_views, Event, EventView, Outbox};
use crate::review::{
    has_reviewed,
    lemma_has_reviewed,
    lemma_select_complete,
    lemma_select_members,
    lemma_select_prefix,
    lemma_select_push,
    lemma_select_well_valued,
    lemma_settle_select,
    lemma_settle_stake,
    lemma_settled_owe_nothing,
    lemma_settlement_failure_stays,
    lemma_settlement_step,
    lemma_stake_monotone,
    lemma_stake_push,
    lemma_stake_step,
    numbered,
    one_review_each,
    review_ids,
    review_views,
    reviews_of_claim,
    reviews_of_expert,
    select,
    settle_claim,
    settlement_of,
    settlement_views,
    settlements_of,
    stake_on,
    well_valued,
    Outcome,
    Review,
    ReviewView,
    Selector,
    Settlement,
    SettlementView,
};

verus! {

/// The ids of the reviews of one expert, oldest first.
#[derive(Debug)]
struct ExpertReviews {
    expert: Address,
    review_ids: Vec<u64>,
}

/// The review component. It owns the reviews and numbers them from 1 in the
/// order of submission. Beside them it keeps, for every claim and for every
/// expert, the ids of their reviews, and for every claim with enough reviews
/// the consensus on it.
#[derive(Debug)]
pub struct ReviewConsensus {
    admin: Option<Address>,
    claim_registry: Option<Address>,
    expert_registry: Option<Address>,
    reviews: Vec<Review>,
    by_claim: HashMap<u64, Vec<u64>>,
    by_expert: Vec<ExpertReviews>,
    results: HashMap<u64, ConsensusResult>,
    outbox: Outbox,
}

/// A [`ReviewConsensus`] as a mathematical value. The reviews say all there
/// is to say: the component's lists of ids and its stored results are
/// functions of them.
pub ghost struct ReviewConsensusView {
    /// The administrator, once the component is initialized.
    pub admin: Option<Seq<char>>,
    /// The registered claim store, if any.
    pub claim_registry: Option<Seq<char>>,
    /// The registered expert component, if any.
    pub expert_registry: Option<Seq<char>>,
    /// The reviews, in the order of submission.
    pub reviews: Seq<ReviewView>,
    /// The events not collected yet, oldest first.
    pub events: Seq<EventView>,
}

impl ReviewConsensusView {
    /// The reviews of a claim, oldest first.
    pub open spec fn claim_reviews(self, claim_id: u64) -> Seq<ReviewView> {
        reviews_of_claim(self.reviews, claim_id)
    }

    /// The reviews of an expert, oldest first.
    pub open spec fn expert_reviews(self, expert: Seq<char>) -> Seq<ReviewView> {
        reviews_of_expert(self.reviews, expert)
    }

    /// The stake that the reviews of a claim put on a verdict.
    pub open spec fn stake(self, claim_id: u64, verdict: Verdict) -> int {
        stake_on(self.claim_reviews(claim_id), verdict)
    }

    /// The verdict that the reviews of a claim give, whatever their number.
    pub open spec fn tally(self, claim_id: u64) -> ConsensusResult {
        consensus_of(
            claim_id,
            self.stake(claim_id, Verdict::True),
            self.stake(claim_id, Verdict::False),
        )
    }

    /// Whether the claim has the reviews that a consensus takes.
    pub open spec fn has_quorum(self, claim_id: u64) -> bool {
        self.claim_reviews(claim_id).len() >= MIN_REVIEWS_FOR_CONSENSUS
    }

    /// The consensus on a claim: the verdict of all its reviews, once there
    /// are enough of them.
    pub open spec fn consensus(self, claim_id: u64) -> Option<ConsensusResult> {
        if self.has_quorum(claim_id) {
            Some(self.tally(claim_id))
        } else {
            None
        }
    }

    /// The review with the given id, if there is one.
    pub open spec fn review(self, id: u64) -> Option<ReviewView> {
        if 1 <= id <= self.reviews.len() {
            Some(self.reviews[id - 1])
        } else {
            None
        }
    }

    /// What holds of every state of the component: the review at position
    /// `i` has id `i + 1` and ids fit their type; confidences are at most
    /// 100 and stakes are not negative; no expert has two reviews of one
    /// claim; and the stakes of every claim with a consensus fit its tally.
    pub open spec fn inv(self) -> bool {
        &&& self.reviews.len() <= u64::MAX
        &&& numbered(self.reviews)
        &&& well_valued(self.reviews)
        &&& one_review_each(self.reviews)
        &&& forall|claim_id: u64|
            (#[trigger] reviews_of_claim(self.reviews, claim_id)).len()
                >= MIN_REVIEWS_FOR_CONSENSUS ==> tally_fits(
                self.stake(claim_id, Verdict::True),
                self.stake(claim_id, Verdict::False),
            )
    }

    /// Whether `admin` may change the component's bindings: the call is
    /// authorized and `admin` is the component's administrator.
    pub open spec fn admin_call(self, admin: Seq<char>, authorized: bool) -> bool {
        authorized && self.admin == Some(admin)
    }

    /// The state with one more event in its outbox.
    pub open spec fn with_event(self, event: EventView) -> ReviewConsensusView {
        ReviewConsensusView { events: self.events.push(event), ..self }
    }

    /// The state with one more review.
    pub open spec fn with_review(self, review: ReviewView) -> ReviewConsensusView {
        ReviewConsensusView { reviews: self.reviews.push(review), ..self }
    }

    /// The state with the settlement of every review of a claim recorded.
    pub open spec fn settled(self, claim_id: u64) -> ReviewConsensusView {
        ReviewConsensusView { reviews: settle_claim(self.reviews, claim_id), ..self }
    }

    /// The state after a review was submitted: the review is stored, and the
    /// outbox tells of the claim's consensus, where the claim has one now,
    /// and then of the review.
    pub open spec fn after_submission(self, review: ReviewView) -> ReviewConsensusView {
        let stored = self.with_review(review);
        if stored.has_quorum(review.claim_id) {
            stored.with_event(EventView::ConsensusReached(review.claim_id)).with_event(
                EventView::ReviewSubmitted(review.id),
            )
        } else {
            stored.with_event(EventView::ReviewSubmitted(review.id))
        }
    }

    /// The stake that a claim's reviews would put on a verdict together with
    /// one more review.
    pub open spec fn stake_with(
        self,
        claim_id: u64,
        verdict: Verdict,
        next_verdict: Verdict,
        next_stake: i128,
    ) -> int {
        self.stake(claim_id, verdict) + if next_verdict == verdict {
            next_stake as int
        } else {
            0
        }
    }

    /// The answer to the submission of a review: the id of the new review, or
    /// the first of these that applies. The expert did not authorize the
    /// call; the confidence is above 100; the stake is negative; the expert
    /// has reviewed the claim before; the ids are used up; the review brings
    /// the claim to a consensus, or changes one, and the stakes do not fit
    /// the tally.
    pub open spec fn submission(
        self,
        expert: Seq<char>,
        authorized: bool,
        claim_id: u64,
        verdict: Verdict,
        confidence: u32,
        stake_amount: i128,
    ) -> Result<u64, Error> {
        if !authorized {
            Err(Error::Unauthorized)
        } else if confidence > 100 {
            Err(Error::ConfidenceOutOfRange)
        } else if stake_amount < 0 {
            Err(Error::NegativeAmount)
        } else if has_reviewed(self.reviews, claim_id, expert) {
            Err(Error::DuplicateReview)
        } else if self.reviews.len() >= u64::MAX {
            Err(Error::Overflow)
        } else if self.claim_reviews(claim_id).len() + 1 >= MIN_REVIEWS_FOR_CONSENSUS
            && !tally_fits(
            self.stake_with(claim_id, Verdict::True, verdict, stake_amount),
            self.stake_with(claim_id, Verdict::False, verdict, stake_amount),
        ) {
            Err(Error::Overflow)
        } else {
            Ok((self.reviews.len() + 1) as u64)
        }
    }

    /// What is owed for the reviews of a claim that are not settled yet,
    /// oldest first: the winners share the reward percentage of the claim's
    /// whole stake in proportion to their stakes, the losers are slashed.
    pub open spec fn payouts(self, claim_id: u64) -> Result<Seq<SettlementView>, Error> {
        let stake_true = self.stake(claim_id, Verdict::True);
        let stake_false = self.stake(claim_id, Verdict::False);
        settlements_of(
            self.claim_reviews(claim_id),
            winning_verdict(stake_true, stake_false),
            reward_pool_of(stake_true + stake_false),
            winning_stake(stake_true, stake_false),
        )
    }

    /// The answer to a distribution: what is owed for the reviews of the
    /// claim; refused, in this order, unless the call is authorized and
    /// `admin` is the administrator, if the claim has no consensus, or as
    /// the payouts are.
    pub open spec fn distribution(self, admin: Seq<char>, authorized: bool, claim_id: u64)
        -> Result<Seq<SettlementView>, Error> {
        if !self.admin_call(admin, authorized) {
            Err(Error::Unauthorized)
        } else if self.consensus(claim_id) is None {
            Err(Error::ConsensusNotReached)
        } else {
            self.payouts(claim_id)
        }
    }
}

/// An expert reviews a claim once: after a review of theirs is stored, and
/// in every state that holds one, each further submission by the same expert
/// for the same claim is refused, whatever else it says. Where nothing else
/// is wrong with it, it is refused as a duplicate.
pub proof fn lemma_one_review_per_claim(
    state: ReviewConsensusView,
    first: ReviewView,
    authorized: bool,
    verdict: Verdict,
    confidence: u32,
    stake_amount: i128,
)
    ensures
        state.after_submission(first).submission(
            first.expert,
            authorized,
            first.claim_id,
            verdict,
            confidence,
            stake_amount,
        ) is Err,
        has_reviewed(state.reviews, first.claim_id, first.expert) ==> state.submission(
            first.expert,
            authorized,
            first.claim_id,
            verdict,
            confidence,
            stake_amount,
        ) is Err,
        authorized && confidence <= 100 && stake_amount >= 0 ==> state.after_submission(
            first,
        ).submission(first.expert, authorized, first.claim_id, verdict, confidence, stake_amount)
            == Err::<u64, Error>(Error::DuplicateReview),
{
    let later = state.after_submission(first);
    assert(later.reviews == state.reviews.push(first));
    assert(later.reviews[state.reviews.len() as int] == first);
    assert(has_reviewed(later.reviews, first.claim_id, first.expert));
}

/// The lists of reviews only grow, and at their end: a new review joins the
/// reviews of its claim and those of its expert as the last, and leaves all
/// other lists as they are. Settling a claim changes no list's ids.
pub proof fn lemma_lists_only_grow(
    state: ReviewConsensusView,
    review: ReviewView,
    claim_id: u64,
    expert: Seq<char>,
)
    ensures
        state.with_review(review).claim_reviews(claim_id) == if review.claim_id == claim_id {
            state.claim_reviews(claim_id).push(review)
        } else {
            state.claim_reviews(claim_id)
        },
        state.with_review(review).expert_reviews(expert) == if review.expert == expert {
            state.expert_reviews(expert).push(review)
        } else {
            state.expert_reviews(expert)
        },
        review_ids(state.settled(review.claim_id).claim_reviews(claim_id)) == review_ids(
            state.claim_reviews(claim_id),
        ),
        review_ids(state.settled(review.claim_id).expert_reviews(expert)) == review_ids(
            state.expert_reviews(expert),
        ),
{
    lemma_select_push(state.reviews, review, Selector::Claim(claim_id));
    lemma_select_push(state.reviews, review, Selector::Expert(expert));
    lemma_settle_select(state.reviews, review.claim_id, Selector::Claim(claim_id));
    lemma_settle_select(state.reviews, review.claim_id, Selector::Expert(expert));
    lemma_settle_select(
        select(state.reviews, Selector::Claim(claim_id)),
        review.claim_id,
        Selector::Claim(claim_id),
    );
    lemma_settle_select(
        select(state.reviews, Selector::Expert(expert)),
        review.claim_id,
        Selector::Expert(expert),
    );
}

/// A tie goes to `False`: where the reviews of a claim stake as much on
/// `True` as on `False`, and where they stake nothing at all, their verdict
/// is `False`, and so is the claim's consensus once it has one.
pub proof fn lemma_tie_is_false(state: ReviewConsensusView, claim_id: u64)
    requires
        state.stake(claim_id, Verdict::True) == state.stake(claim_id, Verdict::False),
    ensures
        state.tally(claim_id).final_verdict == Verdict::False,
        state.has_quorum(claim_id) ==> (state.consensus(claim_id) matches Some(result)
            && result.final_verdict == Verdict::False),
{
}

/// Settling a claim twice pays nobody twice: once the reviews of a claim are
/// settled, nothing is owed for them, settling them again changes nothing,
/// and the claim's consensus is what it was.
pub proof fn lemma_distribution_is_idempotent(state: ReviewConsensusView, claim_id: u64)
    requires
        state.inv(),
    ensures
        state.settled(claim_id).inv(),
        state.settled(claim_id).payouts(claim_id) == Ok::<Seq<SettlementView>, Error>(
            Seq::empty(),
        ),
        state.settled(claim_id).settled(claim_id) == state.settled(claim_id),
        state.settled(claim_id).consensus(claim_id) == state.consensus(claim_id),
{
    let before = state.reviews;
    let after = state.settled(claim_id).reviews;
    assert forall|c: u64|
        select(after, Selector::Claim(c)) == settle_claim(
            #[trigger] select(before, Selector::Claim(c)),
            claim_id,
        ) && stake_on(select(after, Selector::Claim(c)), Verdict::True) == stake_on(
            select(before, Selector::Claim(c)),
            Verdict::True,
        ) && stake_on(select(after, Selector::Claim(c)), Verdict::False) == stake_on(
            select(before, Selector::Claim(c)),
            Verdict::False,
        ) by {
        lemma_settle_select(before, claim_id, Selector::Claim(c));
        lemma_settle_stake(select(before, Selector::Claim(c)), claim_id, Verdict::True);
        lemma_settle_stake(select(before, Selector::Claim(c)), claim_id, Verdict::False);
    }
    assert(state.settled(claim_id).inv()) by {
        assert(numbered(after));
        assert(well_valued(after));
        assert forall|i: int, j: int| 0 <= i < j < after.len() implies !((
        #[trigger] after[i]).claim_id == (#[trigger] after[j]).claim_id && after[i].expert
            == after[j].expert) by {
            assert(before[i].claim_id == after[i].claim_id);
            assert(before[j].claim_id == after[j].claim_id);
        }
        assert forall|c: u64|
            (#[trigger] reviews_of_claim(after, c)).len()
                >= MIN_REVIEWS_FOR_CONSENSUS implies tally_fits(
            state.settled(claim_id).stake(c, Verdict::True),
            state.settled(claim_id).stake(c, Verdict::False),
        ) by {
            assert(reviews_of_claim(before, c).len() >= MIN_REVIEWS_FOR_CONSENSUS);
        }
    }
    let mine = select(before, Selector::Claim(claim_id));
    lemma_select_members(before, Selector::Claim(claim_id));
    let settled = select(after, Selector::Claim(claim_id));
    assert(settled == settle_claim(mine, claim_id));
    assert forall|i: int| 0 <= i < settled.len() implies (#[trigger] settled[i]).rewarded by {
        assert(mine[i].claim_id == claim_id);
    }
    let stake_true = state.settled(claim_id).stake(claim_id, Verdict::True);
    let stake_false = state.settled(claim_id).stake(claim_id, Verdict::False);
    lemma_settled_owe_nothing(
        settled,
        winning_verdict(stake_true, stake_false),
        reward_pool_of(stake_true + stake_false),
        winning_stake(stake_true, stake_false),
    );
    assert(settle_claim(after, claim_id) =~= after);
}

impl View for ReviewConsensus {
    type V = ReviewConsensusView;

    closed spec fn view(&self) -> ReviewConsensusView {
        ReviewConsensusView {
            admin: optional_view(self.admin),
            claim_registry: optional_view(self.claim_registry),
            expert_registry: optional_view(self.expert_registry),
            reviews: review_views(self.reviews@),
            events: self.outbox@,
        }
    }
}

impl ReviewConsensus {
    /// Whether the lists of ids kept per claim are those of the claims' reviews.
    spec fn claims_indexed(&self) -> bool {
        &&& forall|claim_id: u64| #[trigger]
            self.by_claim@.contains_key(claim_id) ==> self.by_claim@[claim_id]@ == review_ids(
                reviews_of_claim(self@.reviews, claim_id),
            )
        &&& forall|claim_id: u64|
            !self.by_claim@.contains_key(claim_id) ==> (#[trigger] reviews_of_claim(
                self@.reviews,
                claim_id,
            )).len() == 0
    }

    /// Whether the lists of ids kept per expert are those of the experts'
    /// reviews, one list for each expert.
    spec fn experts_indexed(&self) -> bool {
        &&& forall|j: int|
            0 <= j < self.by_expert@.len() ==> (#[trigger] self.by_expert@[j]).review_ids@
                == review_ids(reviews_of_expert(self@.reviews, self.by_expert@[j].expert@))
        &&& forall|i: int, j: int|
            0 <= i < j < self.by_expert@.len() ==> (#[trigger] self.by_expert@[i]).expert@ != (
            #[trigger] self.by_expert@[j]).expert@
        &&& forall|expert: Seq<char>|
            (forall|j: int|
                0 <= j < self.by_expert@.len() ==> (#[trigger] self.by_expert@[j]).expert@
                    != expert) ==> (#[trigger] reviews_of_expert(self@.reviews, expert)).len() == 0
    }

    /// Whether a result is stored for exactly the claims with a consensus,
    /// and is that consensus.
    spec fn results_current(&self) -> bool {
        &&& forall|claim_id: u64| #[trigger]
            self.results@.contains_key(claim_id) <==> self@.has_quorum(claim_id)
        &&& forall|claim_id: u64| #[trigger]
            self.results@.contains_key(claim_id) ==> self.results@[claim_id] == self@.tally(
                claim_id,
            )
    }

    /// Whether the component is well formed: its reviews meet the invariant
    /// of its view, and what it keeps beside them agrees with them.
    pub closed spec fn wf(&self) -> bool {
        &&& self@.inv()
        &&& self.claims_indexed()
        &&& self.experts_indexed()
        &&& self.results_current()
    }

    /// A well-formed component meets the invariant of its view.
    pub proof fn lemma_wf_inv(&self)
        requires
            self.wf(),
        ensures
            self@.inv(),
    {
    }

    /// Well-formedness rests on the reviews and on what is kept beside them,
    /// not on the bindings or the outbox.
    proof fn lemma_wf_frame(&self, before: &ReviewConsensus)
        requires
            before.wf(),
            self.reviews == before.reviews,
            self.by_claim == before.by_claim,
            self.by_expert == before.by_expert,
            self.results == before.results,
        ensures
            self.wf(),
    {
        assert(self@.reviews == before@.reviews);
        assert(self@.inv());
        assert(self.claims_indexed());
        assert(self.experts_indexed());
        assert(self.results_current());
    }

    /// A component without reviews and without an administrator.
    pub fn new() -> (component: ReviewConsensus)
        ensures
            component.wf(),
            component@ == (ReviewConsensusView {
                admin: None,
                claim_registry: None,
                expert_registry: None,
                reviews: Seq::empty(),
                events: Seq::empty(),
            }),
    {
        let component = ReviewConsensus {
            admin: None,
            claim_registry: None,
            expert_registry: None,
            reviews: Vec::new(),
            by_claim: HashMap::new(),
            by_expert: Vec::new(),
            results: HashMap::new(),
            outbox: Outbox::new(),
        };
        assert(component@.reviews =~= Seq::empty());
        component
    }

    /// Gives the component its administrator. Refused once it has one.
    pub fn initialize(&mut self, admin: Address) -> (r: Result<(), Error>)
        requires
            old(self).wf(),
        ensures
            final(self).wf(),
            old(self)@.admin is Some ==> r == Err::<(), Error>(Error::AlreadyInitialized)
                && final(self)@ == old(self)@,
            old(self)@.admin is None ==> r is Ok && final(self)@ == (ReviewConsensusView {
                admin: Some(admin@),
                ..old(self)@
            }),
    {
        if self.admin.is_some() {
            return Err(Error::AlreadyInitialized);
        }
        self.admin = Some(admin);
        proof {
            self.lemma_wf_frame(old(self));
        }
        Ok(())
    }

    /// Registers the claim store. Reserved for the administrator.
    pub fn set_claim_registry(
        &mut self,
        admin: Address,
        authorized: bool,
        claim_contract: Address,
    ) -> (r: Result<(), Error>)
        requires
            old(self).wf(),
        ensures
            final(self).wf(),
            !old(self)@.admin_call(admin@, authorized) ==> r == Err::<(), Error>(
                Error::Unauthorized,
            ) && final(self)@ == old(self)@,
            old(self)@.admin_call(admin@, authorized) ==> r is Ok && final(self)@ == (
            ReviewConsensusView { claim_registry: Some(claim_contract@), ..old(self)@ }),
    {
        if !authorized || !holds(&self.admin, &admin) {
            return Err(Error::Unauthorized);
        }
        self.claim_registry = Some(claim_contract);
        proof {
            self.lemma_wf_frame(old(self));
        }
        Ok(())
    }

    /// Registers the expert component. Reserved for the administrator.
    pub fn set_expert_registry(
        &mut self,
        admin: Address,
        authorized: bool,
        expert_contract: Address,
    ) -> (r: Result<(), Error>)
        requires
            old(self).wf(),
        ensures
            final(self).wf(),
            !old(self)@.admin_call(admin@, authorized) ==> r == Err::<(), Error>(
                Error::Unauthorized,
            ) && final(self)@ == old(self)@,
            old(self)@.admin_call(admin@, authorized) ==> r is Ok && final(self)@ == (
            ReviewConsensusView { expert_registry: Some(expert_contract@), ..old(self)@ }),
    {
        if !authorized || !holds(&self.admin, &admin) {
            return Err(Error::Unauthorized);
        }
        self.expert_registry = Some(expert_contract);
        proof {
            self.lemma_wf_frame(old(self));
        }
        Ok(())
    }

    /// The review with the given id.
    pub fn get_review(&self, review_id: u64) -> (r: Option<&Review>)
        requires
            self.wf(),
        ensures
            r is Some <==> self@.review(review_id) is Some,
            r matches Some(review) ==> Some(review@) == self@.review(review_id),
    {
        let count: usize = self.reviews.len();
        assert(self@.reviews.len() == count);
        if review_id == 0 || review_id > count as u64 {
            return None;
        }
        let i: usize = (review_id - 1) as usize;
        Some(&self.reviews[i])
    }

    /// The number of reviews, which is also the id of the newest.
    pub fn get_review_count(&self) -> (n: u64)
        requires
            self.wf(),
        ensures
            n == self@.reviews.len(),
    {
        self.reviews.len() as u64
    }

    /// The consensus on a claim, if its reviews have reached one.
    pub fn get_consensus(&self, claim_id: u64) -> (r: Option<ConsensusResult>)
        requires
            self.wf(),
        ensures
            r == self@.consensus(claim_id),
    {
        match self.results.get(&claim_id) {
            Some(result) => Some(*result),
            None => None,
        }
    }

    /// What the component knows of the reviews of a claim: their stakes and
    /// confidences are within bounds, each stands among the reviews at the
    /// position that its id gives, and the list kept for the claim holds
    /// their ids.
    proof fn lemma_claim_list(&self, claim_id: u64)
        requires
            self.wf(),
        ensures
            well_valued(self@.claim_reviews(claim_id)),
            self@.claim_reviews(claim_id).len() <= self@.reviews.len(),
            forall|k: int|
                0 <= k < self@.claim_reviews(claim_id).len() ==> {
                    let r = #[trigger] self@.claim_reviews(claim_id)[k];
                    &&& r.claim_id == claim_id
                    &&& 1 <= r.id <= self@.reviews.len()
                    &&& self@.reviews[r.id - 1] == r
                },
            self.by_claim@.contains_key(claim_id) ==> self.by_claim@[claim_id]@ == review_ids(
                self@.claim_reviews(claim_id),
            ),
            !self.by_claim@.contains_key(claim_id) ==> self@.claim_reviews(claim_id).len() == 0,
    {
        lemma_select_members(self@.reviews, Selector::Claim(claim_id));
        lemma_select_well_valued(self@.reviews, Selector::Claim(claim_id));
    }

    /// The same of the reviews of an expert.
    proof fn lemma_expert_list(&self, expert: Seq<char>)
        requires
            self.wf(),
        ensures
            self@.expert_reviews(expert).len() <= self@.reviews.len(),
            forall|k: int|
                0 <= k < self@.expert_reviews(expert).len() ==> {
                    let r = #[trigger] self@.expert_reviews(expert)[k];
                    &&& r.expert == expert
                    &&& 1 <= r.id <= self@.reviews.len()
                    &&& self@.reviews[r.id - 1] == r
                },
    {
        lemma_select_members(self@.reviews, Selector::Expert(expert));
    }

    /// The review with an id that is known to be in use.
    fn review_by_id(&self, id: u64) -> (review: &Review)
        requires
            1 <= id <= self@.reviews.len(),
        ensures
            review@ == self@.reviews[id - 1],
            *review == self.reviews@[id - 1],
    {
        let count: usize = self.reviews.len();
        assert(self@.reviews.len() == count);
        &self.reviews[(id - 1) as usize]
    }

    /// Copies of the reviews with the given ids, in that order.
    fn collect(&self, ids: &Vec<u64>, Ghost(wanted): Ghost<Seq<ReviewView>>) -> (found: Vec<Review>)
        requires
            ids@ == review_ids(wanted),
            forall|k: int|
                0 <= k < wanted.len() ==> 1 <= (#[trigger] wanted[k]).id <= self@.reviews.len()
                    && self@.reviews[wanted[k].id - 1] == wanted[k],
        ensures
            review_views(found@) == wanted,
    {
        let mut found: Vec<Review> = Vec::new();
        let mut k: usize = 0;
        while k < ids.len()
            invariant
                ids@ == review_ids(wanted),
                forall|k: int|
                    0 <= k < wanted.len() ==> 1 <= (#[trigger] wanted[k]).id <= self@.reviews.len()
                        && self@.reviews[wanted[k].id - 1] == wanted[k],
                k <= ids.len(),
                found@.len() == k,
                forall|m: int| 0 <= m < k ==> (#[trigger] found@[m])@ == wanted[m],
            decreases ids.len() - k,
        {
            assert(ids@[k as int] == wanted[k as int].id);
            found.push(self.review_by_id(ids[k]).clone());
            k += 1;
        }
        assert(review_views(found@) =~= wanted);
        found
    }

    /// The position of the list kept for an expert, if there is one.
    fn expert_slot(&self, expert: &Address) -> (r: Option<usize>)
        ensures
            r matches Some(j) ==> j < self.by_expert@.len() && self.by_expert@[j as int].expert@
                == expert@,
            r is None ==> forall|j: int|
                0 <= j < self.by_expert@.len() ==> (#[trigger] self.by_expert@[j]).expert@
                    != expert@,
    {
        let mut j: usize = 0;
        while j < self.by_expert.len()
            invariant
                j <= self.by_expert@.len(),
                forall|m: int| 0 <= m < j ==> (#[trigger] self.by_expert@[m]).expert@ != expert@,
            decreases self.by_expert.len() - j,
        {
            if self.by_expert[j].expert == *expert {
                return Some(j);
            }
            j += 1;
        }
        None
    }

    /// All reviews of a claim, oldest first.
    pub fn get_claim_reviews(&self, claim_id: u64) -> (reviews: Vec<Review>)
        requires
            self.wf(),
        ensures
            review_views(reviews@) == self@.claim_reviews(claim_id),
    {
        proof {
            self.lemma_claim_list(claim_id);
        }
        match self.by_claim.get(&claim_id) {
            Some(ids) => self.collect(ids, Ghost(self@.claim_reviews(claim_id))),
            None => {
                let reviews: Vec<Review> = Vec::new();
                assert(review_views(reviews@) =~= self@.claim_reviews(claim_id));
                reviews
            },
        }
    }

    /// All reviews of an expert, oldest first.
    pub fn get_expert_reviews(&self, expert: Address) -> (reviews: Vec<Review>)
        requires
            self.wf(),
        ensures
            review_views(reviews@) == self@.expert_reviews(expert@),
    {
        proof {
            self.lemma_expert_list(expert@);
        }
        match self.expert_slot(&expert) {
            Some(j) => self.collect(
                &self.by_expert[j].review_ids,
                Ghost(self@.expert_reviews(expert@)),
            ),
            None => {
                let reviews: Vec<Review> = Vec::new();
                assert(review_views(reviews@) =~= self@.expert_reviews(expert@));
                reviews
            },
        }
    }

    /// Whether the expert has a review of the claim.
    fn has_review_by(&self, claim_id: u64, expert: &Address) -> (b: bool)
        requires
            self.wf(),
        ensures
            b == has_reviewed(self@.reviews, claim_id, expert@),
    {
        let ghost mine = self@.claim_reviews(claim_id);
        proof {
            self.lemma_claim_list(claim_id);
            lemma_has_reviewed(self@.reviews, claim_id, expert@);
        }
        let ids = match self.by_claim.get(&claim_id) {
            Some(ids) => ids,
            None => {
                return false;
            },
        };
        let mut k: usize = 0;
        while k < ids.len()
            invariant
                numbered(self@.reviews),
                mine == reviews_of_claim(self@.reviews, claim_id),
                ids@ == review_ids(mine),
                forall|k: int|
                    0 <= k < mine.len() ==> 1 <= (#[trigger] mine[k]).id <= self@.reviews.len()
                        && self@.reviews[mine[k].id - 1] == mine[k],
                k <= ids.len(),
                forall|m: int| 0 <= m < k ==> (#[trigger] mine[m]).expert != expert@,
            decreases ids.len() - k,
        {
            assert(ids@[k as int] == mine[k as int].id);
            if self.review_by_id(ids[k]).expert == *expert {
                proof {
                    lemma_has_reviewed(self@.reviews, claim_id, expert@);
                    assert(reviews_of_claim(self@.reviews, claim_id)[k as int].expert == expert@);
                }
                return true;
            }
            k += 1;
        }
        false
    }

    /// The stake that the reviews of a claim put on `True` and on `False`;
    /// nothing where one of the two sums leaves 128 bits.
    fn stake_totals(&self, claim_id: u64) -> (r: Option<(i128, i128)>)
        requires
            self.wf(),
        ensures
            self@.stake(claim_id, Verdict::True) >= 0,
            self@.stake(claim_id, Verdict::False) >= 0,
            r is None ==> self@.stake(claim_id, Verdict::True) > i128::MAX || self@.stake(
                claim_id,
                Verdict::False,
            ) > i128::MAX,
            r matches Some((stake_true, stake_false)) ==> stake_true == self@.stake(
                claim_id,
                Verdict::True,
            ) && stake_false == self@.stake(claim_id, Verdict::False),
    {
        let ghost mine = self@.claim_reviews(claim_id);
        proof {
            self.lemma_claim_list(claim_id);
            lemma_stake_monotone(mine, Verdict::True, 0);
            lemma_stake_monotone(mine, Verdict::False, 0);
        }
        let ids = match self.by_claim.get(&claim_id) {
            Some(ids) => ids,
            None => {
                return Some((0, 0));
            },
        };
        let mut stake_true: i128 = 0;
        let mut stake_false: i128 = 0;
        let mut k: usize = 0;
        while k < ids.len()
            invariant
                mine == reviews_of_claim(self@.reviews, claim_id),
                well_valued(mine),
                ids@ == review_ids(mine),
                forall|k: int|
                    0 <= k < mine.len() ==> 1 <= (#[trigger] mine[k]).id <= self@.reviews.len()
                        && self@.reviews[mine[k].id - 1] == mine[k],
                k <= ids.len(),
                stake_true == stake_on(mine.take(k as int), Verdict::True),
                stake_false == stake_on(mine.take(k as int), Verdict::False),
            decreases ids.len() - k,
        {
            assert(ids@[k as int] == mine[k as int].id);
            let review = self.review_by_id(ids[k]);
            proof {
                lemma_stake_step(mine, Verdict::True, k as int);
                lemma_stake_step(mine, Verdict::False, k as int);
                lemma_stake_monotone(mine, Verdict::True, k + 1);
                lemma_stake_monotone(mine, Verdict::False, k + 1);
            }
            match review.verdict {
                Verdict::True => {
                    match stake_true.checked_add(review.stake_amount) {
                        Some(sum) => {
                            stake_true = sum;
                        },
                        None => {
                            return None;
                        },
                    }
                },
                Verdict::False => {
                    match stake_false.checked_add(review.stake_amount) {
                        Some(sum) => {
                            stake_false = sum;
                        },
                        None => {
                            return None;
                        },
                    }
                },
            }
            k += 1;
        }
        assert(mine.take(k as int) =~= mine);
        Some((stake_true, stake_false))
    }

    /// The verdict that the reviews of a claim give now, whatever their
    /// number. Refused with `Overflow` if their stakes do not fit the tally.
    pub fn calculate_consensus(&self, claim_id: u64) -> (r: Result<ConsensusResult, Error>)
        requires
            self.wf(),
        ensures
            r == (if tally_fits(
                self@.stake(claim_id, Verdict::True),
                self@.stake(claim_id, Verdict::False),
            ) {
                Ok::<ConsensusResult, Error>(self@.tally(claim_id))
            } else {
                Err(Error::Overflow)
            }),
    {
        match self.stake_totals(claim_id) {
            Some((stake_true, stake_false)) => conclude(claim_id, stake_true, stake_false),
            None => Err(Error::Overflow),
        }
    }

    /// A component stays well formed when it takes a review that passed the
    /// checks of a submission, adds its id to the lists of its claim and of
    /// its expert, and stores the claim's consensus where there is one.
    proof fn lemma_submitted(&self, before: &ReviewConsensus, review: ReviewView, slot: Option<int>)
        requires
            before.wf(),
            before@.reviews.len() < u64::MAX,
            review.id == before@.reviews.len() + 1,
            review.confidence <= 100,
            review.stake_amount >= 0,
            !has_reviewed(before@.reviews, review.claim_id, review.expert),
            before@.claim_reviews(review.claim_id).len() + 1 >= MIN_REVIEWS_FOR_CONSENSUS
                ==> tally_fits(
                before@.stake_with(
                    review.claim_id,
                    Verdict::True,
                    review.verdict,
                    review.stake_amount,
                ),
                before@.stake_with(
                    review.claim_id,
                    Verdict::False,
                    review.verdict,
                    review.stake_amount,
                ),
            ),
            self@.reviews == before@.reviews.push(review),
            self.by_claim@.contains_key(review.claim_id),
            self.by_claim@[review.claim_id]@ == review_ids(
                before@.claim_reviews(review.claim_id),
            ).push(review.id),
            forall|c: u64|
                #![trigger self.by_claim@.contains_key(c)]
                #![trigger before.by_claim@.contains_key(c)]
                c != review.claim_id ==> self.by_claim@.contains_key(c)
                    == before.by_claim@.contains_key(c) && (self.by_claim@.contains_key(c)
                    ==> self.by_claim@[c] == before.by_claim@[c]),
            match slot {
                Some(j) => {
                    &&& 0 <= j < before.by_expert@.len()
                    &&& before.by_expert@[j].expert@ == review.expert
                    &&& self.by_expert@.len() == before.by_expert@.len()
                    &&& self.by_expert@[j].expert@ == review.expert
                    &&& self.by_expert@[j].review_ids@ == before.by_expert@[j].review_ids@.push(
                        review.id,
                    )
                    &&& forall|m: int|
                        0 <= m < before.by_expert@.len() && m != j ==> self.by_expert@[m]
                            == before.by_expert@[m]
                },
                None => {
                    &&& forall|m: int|
                        0 <= m < before.by_expert@.len() ==> (#[trigger] before.by_expert@[m]).expert@
                            != review.expert
                    &&& self.by_expert@.len() == before.by_expert@.len() + 1
                    &&& self.by_expert@.last().expert@ == review.expert
                    &&& self.by_expert@.last().review_ids@ == seq![review.id]
                    &&& forall|m: int|
                        0 <= m < before.by_expert@.len() ==> self.by_expert@[m]
                            == before.by_expert@[m]
                },
            },
            forall|c: u64|
                #![trigger self.results@.contains_key(c)]
                #![trigger before.results@.contains_key(c)]
                c != review.claim_id ==> self.results@.contains_key(c)
                    == before.results@.contains_key(c) && (self.results@.contains_key(c)
                    ==> self.results@[c] == before.results@[c]),
            self.results@.contains_key(review.claim_id) == (before@.claim_reviews(
                review.claim_id,
            ).len() + 1 >= MIN_REVIEWS_FOR_CONSENSUS),
            self.results@.contains_key(review.claim_id) ==> self.results@[review.claim_id]
                == consensus_of(
                review.claim_id,
                before@.stake_with(
                    review.claim_id,
                    Verdict::True,
                    review.verdict,
                    review.stake_amount,
                ),
                before@.stake_with(
                    review.claim_id,
                    Verdict::False,
                    review.verdict,
                    review.stake_amount,
                ),
            ),
        ensures
            self.wf(),
    {
        let old_reviews = before@.reviews;
        let new_reviews = self@.reviews;
        let n = old_reviews.len() as int;
        assert(new_reviews.len() == n + 1);
        assert(new_reviews[n] == review);
        assert forall|i: int| 0 <= i < n implies new_reviews[i] == old_reviews[i] by {}
        // What the lists of the new state are.
        assert forall|c: u64| #[trigger]
            reviews_of_claim(new_reviews, c) == if c == review.claim_id {
                reviews_of_claim(old_reviews, c).push(review)
            } else {
                reviews_of_claim(old_reviews, c)
            } by {
            lemma_select_push(old_reviews, review, Selector::Claim(c));
        }
        assert forall|expert: Seq<char>| #[trigger]
            reviews_of_expert(new_reviews, expert) == if expert == review.expert {
                reviews_of_expert(old_reviews, expert).push(review)
            } else {
                reviews_of_expert(old_reviews, expert)
            } by {
            lemma_select_push(old_reviews, review, Selector::Expert(expert));
        }
        let mine = reviews_of_claim(old_reviews, review.claim_id);
        assert(reviews_of_claim(new_reviews, review.claim_id) == mine.push(review));
        lemma_stake_push(mine, review, Verdict::True);
        lemma_stake_push(mine, review, Verdict::False);
        assert(self@.stake(review.claim_id, Verdict::True) == before@.stake_with(
            review.claim_id,
            Verdict::True,
            review.verdict,
            review.stake_amount,
        ));
        assert(self@.stake(review.claim_id, Verdict::False) == before@.stake_with(
            review.claim_id,
            Verdict::False,
            review.verdict,
            review.stake_amount,
        ));
        // The invariant of the view.
        assert(numbered(new_reviews));
        assert(well_valued(new_reviews));
        assert(one_review_each(new_reviews)) by {
            assert forall|i: int, j: int| 0 <= i < j < new_reviews.len() implies !((
            #[trigger] new_reviews[i]).claim_id == (#[trigger] new_reviews[j]).claim_id
                && new_reviews[i].expert == new_reviews[j].expert) by {
                if j == n {
                    if old_reviews[i].claim_id == review.claim_id && old_reviews[i].expert
                        == review.expert {
                        assert(has_reviewed(old_reviews, review.claim_id, review.expert));
                    }
                } else {
                    assert(new_reviews[i] == old_reviews[i]);
                    assert(new_reviews[j] == old_reviews[j]);
                }
            }
        }
        assert forall|c: u64|
            (#[trigger] reviews_of_claim(new_reviews, c)).len()
                >= MIN_REVIEWS_FOR_CONSENSUS implies tally_fits(
            self@.stake(c, Verdict::True),
            self@.stake(c, Verdict::False),
        ) by {
            if c != review.claim_id {
                assert(reviews_of_claim(new_reviews, c) == reviews_of_claim(old_reviews, c));
            }
        }
        assert(self@.inv());
        // The lists kept per claim.
        assert(self.claims_indexed()) by {
            assert forall|c: u64| #[trigger] self.by_claim@.contains_key(c) implies self.by_claim@[c]@
                == review_ids(reviews_of_claim(new_reviews, c)) by {
                if c == review.claim_id {
                    assert(review_ids(mine.push(review)) =~= review_ids(mine).push(review.id));
                } else {
                    assert(before.by_claim@.contains_key(c));
                }
            }
            assert forall|c: u64| !self.by_claim@.contains_key(c) implies (
            #[trigger] reviews_of_claim(new_reviews, c)).len() == 0 by {
                assert(!before.by_claim@.contains_key(c));
                assert(reviews_of_claim(old_reviews, c).len() == 0);
            }
        }
        // The lists kept per expert.
        assert(self.experts_indexed()) by {
            let theirs = reviews_of_expert(old_reviews, review.expert);
            assert(reviews_of_expert(new_reviews, review.expert) == theirs.push(review));
            assert(review_ids(theirs.push(review)) =~= review_ids(theirs).push(review.id));
            assert forall|j: int| 0 <= j < self.by_expert@.len() implies (
            #[trigger] self.by_expert@[j]).review_ids@ == review_ids(
                reviews_of_expert(new_reviews, self.by_expert@[j].expert@),
            ) by {
                if j < before.by_expert@.len() {
                    assert(before.by_expert@[j].review_ids@ == review_ids(
                        reviews_of_expert(old_reviews, before.by_expert@[j].expert@),
                    ));
                    if slot == Some(j) {
                    } else {
                        assert(self.by_expert@[j] == before.by_expert@[j]);
                        if slot is Some {
                            assert(before.by_expert@[j].expert@ != before.by_expert@[slot->Some_0].expert@);
                        }
                    }
                } else {
                    assert(slot is None);
                    assert(self.by_expert@[j] == self.by_expert@.last());
                    assert(reviews_of_expert(old_reviews, review.expert).len() == 0);
                    assert(theirs =~= Seq::<ReviewView>::empty());
                    assert(review_ids(theirs) =~= Seq::<u64>::empty());
                    assert(review_ids(theirs).push(review.id) =~= seq![review.id]);
                }
            }
            assert forall|i: int, j: int| 0 <= i < j < self.by_expert@.len() implies (
            #[trigger] self.by_expert@[i]).expert@ != (#[trigger] self.by_expert@[j]).expert@ by {
                if j < before.by_expert@.len() {
                    assert(before.by_expert@[i].expert@ != before.by_expert@[j].expert@);
                    if slot == Some(i) {
                        assert(self.by_expert@[j] == before.by_expert@[j]);
                    } else if slot == Some(j) {
                        assert(self.by_expert@[i] == before.by_expert@[i]);
                    } else {
                        assert(self.by_expert@[i] == before.by_expert@[i]);
                        assert(self.by_expert@[j] == before.by_expert@[j]);
                    }
                } else {
                    assert(self.by_expert@[j] == self.by_expert@.last());
                    assert(self.by_expert@[i] == before.by_expert@[i]);
                }
            }
            assert forall|expert: Seq<char>|
                (forall|j: int|
                    0 <= j < self.by_expert@.len() ==> (#[trigger] self.by_expert@[j]).expert@
                        != expert) implies (#[trigger] reviews_of_expert(
                new_reviews,
                expert,
            )).len() == 0 by {
                assert forall|j: int| 0 <= j < before.by_expert@.len() implies (
                #[trigger] before.by_expert@[j]).expert@ != expert by {
                    assert(self.by_expert@[j].expert@ != expert);
                    if slot != Some(j) {
                        assert(self.by_expert@[j] == before.by_expert@[j]);
                    }
                }
                assert(reviews_of_expert(old_reviews, expert).len() == 0);
                match slot {
                    Some(j) => {
                        assert(self.by_expert@[j].expert@ != expert);
                    },
                    None => {
                        assert(self.by_expert@[self.by_expert@.len() - 1].expert@ != expert);
                    },
                }
            }
        }
        // The stored results.
        assert(self.results_current()) by {
            assert forall|c: u64| #[trigger]
                self.results@.contains_key(c) <==> self@.has_quorum(c) by {
                if c != review.claim_id {
                    assert(before.results@.contains_key(c) <==> before@.has_quorum(c));
                }
            }
            assert forall|c: u64| #[trigger] self.results@.contains_key(c) implies self.results@[c]
                == self@.tally(c) by {
                if c != review.claim_id {
                    assert(before.results@.contains_key(c));
                    assert(before.results@[c] == before@.tally(c));
                }
            }
        }
    }

    /// Stores a review and returns its id, the number of reviews so far plus
    /// one. The review carries `now` as its time and is not settled. With it
    /// the claim's consensus is computed anew over all its reviews, once
    /// they are as many as a consensus takes.
    ///
    /// Refused, in this order: if the expert did not authorize the call; if
    /// the confidence is above 100; if the stake is negative; if the expert
    /// has reviewed the claim before; if the ids are used up; if the new
    /// consensus cannot be computed in 128 bits.
    pub fn submit_review(
        &mut self,
        expert: Address,
        authorized: bool,
        claim_id: u64,
        verdict: Verdict,
        reasoning: String,
        confidence: u32,
        stake_amount: i128,
        now: u64,
    ) -> (r: Result<u64, Error>)
        requires
            old(self).wf(),
        ensures
            final(self).wf(),
            r == old(self)@.submission(
                expert@,
                authorized,
                claim_id,
                verdict,
                confidence,
                stake_amount,
            ),
            r is Err ==> final(self)@ == old(self)@,
            r matches Ok(id) ==> final(self)@ == old(self)@.after_submission(
                ReviewView {
                    id,
                    claim_id,
                    expert: expert@,
                    verdict,
                    reasoning: reasoning@,
                    confidence,
                    stake_amount,
                    timestamp: now,
                    rewarded: false,
                },
            ),
    {
        if !authorized {
            return Err(Error::Unauthorized);
        }
        if confidence > 100 {
            return Err(Error::ConfidenceOutOfRange);
        }
        if stake_amount < 0 {
            return Err(Error::NegativeAmount);
        }
        let review = Review {
            id: 0,
            claim_id,
            expert,
            verdict,
            reasoning,
            confidence,
            stake_amount,
            timestamp: now,
            rewarded: false,
        };
        let id: u64 = match self.append(review) {
            Ok(id) => id,
            Err(e) => {
                return Err(e);
            },
        };
        let ghost stored = *self;
        if self.results.get(&claim_id).is_some() {
            self.outbox.emit(Event::ConsensusReached(claim_id));
        }
        self.outbox.emit(Event::ReviewSubmitted(id));
        proof {
            self.lemma_wf_frame(&stored);
        }
        Ok(id)
    }

    /// Stores a review whose confidence and stake are within bounds, under
    /// the next id, and brings the lists of ids and the claim's consensus up
    /// to date. Refused as a submission of the review would be.
    fn append(&mut self, review: Review) -> (r: Result<u64, Error>)
        requires
            old(self).wf(),
            review.confidence <= 100,
            review.stake_amount >= 0,
        ensures
            final(self).wf(),
            r == old(self)@.submission(
                review.expert@,
                true,
                review.claim_id,
                review.verdict,
                review.confidence,
                review.stake_amount,
            ),
            r is Err ==> *final(self) == *old(self),
            r matches Ok(id) ==> final(self)@ == old(self)@.with_review(
                ReviewView { id, ..review@ },
            ),
    {
        let claim_id: u64 = review.claim_id;
        let verdict = review.verdict;
        let stake_amount: i128 = review.stake_amount;
        if self.has_review_by(claim_id, &review.expert) {
            return Err(Error::DuplicateReview);
        }
        let count: usize = self.reviews.len();
        assert(self@.reviews.len() == count);
        if count as u64 == u64::MAX {
            return Err(Error::Overflow);
        }
        let id: u64 = count as u64 + 1;
        proof {
            self.lemma_claim_list(claim_id);
        }
        let mut ids: Vec<u64> = match self.by_claim.get(&claim_id) {
            Some(ids) => ids.clone(),
            None => Vec::new(),
        };
        assert(ids@ =~= review_ids(self@.claim_reviews(claim_id)));
        let result: Option<ConsensusResult> = if ids.len() >= (MIN_REVIEWS_FOR_CONSENSUS
            - 1) as usize {
            let (stake_true, stake_false) = match self.stake_totals(claim_id) {
                Some(totals) => totals,
                None => {
                    return Err(Error::Overflow);
                },
            };
            let sums = match verdict {
                Verdict::True => (stake_true.checked_add(stake_amount), Some(stake_false)),
                Verdict::False => (Some(stake_true), stake_false.checked_add(stake_amount)),
            };
            match sums {
                (Some(with_true), Some(with_false)) => {
                    match conclude(claim_id, with_true, with_false) {
                        Ok(result) => Some(result),
                        Err(_) => {
                            return Err(Error::Overflow);
                        },
                    }
                },
                _ => {
                    return Err(Error::Overflow);
                },
            }
        } else {
            None
        };
        let slot = self.expert_slot(&review.expert);
        let owner = review.expert.clone();
        let mut review = review;
        review.id = id;
        let ghost stored = review@;
        self.reviews.push(review);
        ids.push(id);
        self.by_claim.insert(claim_id, ids);
        match slot {
            Some(j) => {
                self.by_expert[j].review_ids.push(id);
            },
            None => {
                let mut review_ids: Vec<u64> = Vec::new();
                review_ids.push(id);
                self.by_expert.push(ExpertReviews { expert: owner, review_ids });
            },
        }
        match result {
            Some(result) => {
                self.results.insert(claim_id, result);
            },
            None => {},
        }
        proof {
            assert(self@.reviews =~= old(self)@.reviews.push(stored));
            let ghost_slot: Option<int> = match slot {
                Some(j) => Some(j as int),
                None => None,
            };
            self.lemma_submitted(old(self), stored, ghost_slot);
        }
        Ok(id)
    }

    /// A component stays well formed when the settlement of every review of
    /// a claim is recorded.
    proof fn lemma_settled(&self, before: &ReviewConsensus, claim_id: u64)
        requires
            before.wf(),
            self@.reviews == settle_claim(before@.reviews, claim_id),
            self.by_claim == before.by_claim,
            self.by_expert == before.by_expert,
            self.results == before.results,
        ensures
            self.wf(),
    {
        let old_reviews = before@.reviews;
        let new_reviews = self@.reviews;
        assert forall|by: Selector|
            select(new_reviews, by) == settle_claim(#[trigger] select(old_reviews, by), claim_id)
                && select(new_reviews, by).len() == select(old_reviews, by).len() && review_ids(
                select(new_reviews, by),
            ) == review_ids(select(old_reviews, by)) && stake_on(
                select(new_reviews, by),
                Verdict::True,
            ) == stake_on(select(old_reviews, by), Verdict::True) && stake_on(
                select(new_reviews, by),
                Verdict::False,
            ) == stake_on(select(old_reviews, by), Verdict::False) by {
            lemma_settle_select(old_reviews, claim_id, by);
            lemma_settle_select(select(old_reviews, by), claim_id, by);
            lemma_settle_stake(select(old_reviews, by), claim_id, Verdict::True);
            lemma_settle_stake(select(old_reviews, by), claim_id, Verdict::False);
        }
        assert(self@.inv()) by {
            assert(numbered(new_reviews));
            assert(well_valued(new_reviews));
            assert forall|i: int, j: int| 0 <= i < j < new_reviews.len() implies !((
            #[trigger] new_reviews[i]).claim_id == (#[trigger] new_reviews[j]).claim_id
                && new_reviews[i].expert == new_reviews[j].expert) by {
                assert(old_reviews[i].claim_id == new_reviews[i].claim_id);
                assert(old_reviews[j].claim_id == new_reviews[j].claim_id);
            }
            assert forall|c: u64|
                (#[trigger] reviews_of_claim(new_reviews, c)).len()
                    >= MIN_REVIEWS_FOR_CONSENSUS implies tally_fits(
                self@.stake(c, Verdict::True),
                self@.stake(c, Verdict::False),
            ) by {
                assert(reviews_of_claim(old_reviews, c).len() >= MIN_REVIEWS_FOR_CONSENSUS);
            }
        }
        assert(self.claims_indexed()) by {
            assert forall|c: u64| !self.by_claim@.contains_key(c) implies (
            #[trigger] reviews_of_claim(new_reviews, c)).len() == 0 by {
                assert(reviews_of_claim(old_reviews, c).len() == 0);
            }
        }
        assert(self.experts_indexed()) by {
            assert forall|j: int| 0 <= j < self.by_expert@.len() implies (
            #[trigger] self.by_expert@[j]).review_ids@ == review_ids(
                reviews_of_expert(new_reviews, self.by_expert@[j].expert@),
            ) by {
                assert(before.by_expert@[j].review_ids@ == review_ids(
                    reviews_of_expert(old_reviews, before.by_expert@[j].expert@),
                ));
            }
            assert forall|expert: Seq<char>|
                (forall|j: int|
                    0 <= j < self.by_expert@.len() ==> (#[trigger] self.by_expert@[j]).expert@
                        != expert) implies (#[trigger] reviews_of_expert(
                new_reviews,
                expert,
            )).len() == 0 by {
                assert(reviews_of_expert(old_reviews, expert).len() == 0);
            }
        }
        assert(self.results_current()) by {
            assert forall|c: u64| #[trigger]
                self.results@.contains_key(c) <==> self@.has_quorum(c) by {
                assert(before.results@.contains_key(c) <==> before@.has_quorum(c));
            }
            assert forall|c: u64| #[trigger] self.results@.contains_key(c) implies self.results@[c]
                == self@.tally(c) by {
                assert(before.results@[c] == before@.tally(c));
            }
        }
    }

    /// What is owed for one review, given the final verdict on its claim,
    /// the pool that the winners share and the stake behind the final
    /// verdict.
    fn settle(review: &Review, final_verdict: Verdict, pool: i128, winning: i128) -> (r: Result<
        Settlement,
        Error,
    >)
        requires
            review.stake_amount >= 0,
            pool >= 0,
            winning >= 0,
        ensures
            r matches Ok(s) ==> settlement_of(review@, final_verdict, pool as int, winning as int)
                == Ok::<SettlementView, Error>(s@),
            r matches Err(e) ==> settlement_of(review@, final_verdict, pool as int, winning as int)
                == Err::<SettlementView, Error>(e),
    {
        if review.verdict == final_verdict {
            match proportional_reward(review.stake_amount, pool, winning) {
                Ok(reward) => Ok(
                    Settlement {
                        review_id: review.id,
                        expert: review.expert.clone(),
                        outcome: Outcome::Reward(reward),
                        reputation_change: CORRECT_REVIEW_POINTS,
                    },
                ),
                Err(e) => Err(e),
            }
        } else {
            match slash_amount(review.stake_amount) {
                Ok(cut) => Ok(
                    Settlement {
                        review_id: review.id,
                        expert: review.expert.clone(),
                        outcome: Outcome::Slash(cut),
                        reputation_change: INCORRECT_REVIEW_POINTS,
                    },
                ),
                Err(e) => Err(e),
            }
        }
    }

    /// Settles the reviews of a claim that has a consensus, and returns what
    /// is owed for each review that was not settled before, oldest first.
    /// The winners share the reward percentage of the claim's whole stake in
    /// proportion to their stakes; each loser is slashed by the slash
    /// percentage of their stake. Every review of the claim is then marked
    /// as settled, so that a second call owes nothing.
    ///
    /// The amounts are computed and handed out; applying them to the experts
    /// and moving the funds is left to the caller.
    ///
    /// Reserved for the administrator. Refused, in this order: if the call
    /// is not authorized or `admin` is not the administrator; if the claim
    /// has no consensus; if a review cannot be settled, because its reward
    /// would be divided by a winning stake of zero or does not fit in 128
    /// bits. Nothing is marked where the call is refused.
    pub fn distribute_rewards(&mut self, admin: Address, authorized: bool, claim_id: u64) -> (r:
        Result<Vec<Settlement>, Error>)
        requires
            old(self).wf(),
        ensures
            final(self).wf(),
            match old(self)@.distribution(admin@, authorized, claim_id) {
                Ok(owed) => r is Ok && settlement_views(r->Ok_0@) == owed,
                Err(e) => r matches Err(f) && f == e,
            },
            r is Err ==> final(self)@ == old(self)@,
            r is Ok ==> final(self)@ == old(self)@.settled(claim_id).with_event(
                EventView::RewardsDistributed(claim_id),
            ),
    {
        if !authorized || !holds(&self.admin, &admin) {
            return Err(Error::Unauthorized);
        }
        let result: ConsensusResult = match self.results.get(&claim_id) {
            Some(result) => *result,
            None => {
                return Err(Error::ConsensusNotReached);
            },
        };
        let ghost mine = self@.claim_reviews(claim_id);
        let ghost stake_true = self@.stake(claim_id, Verdict::True);
        let ghost stake_false = self@.stake(claim_id, Verdict::False);
        proof {
            self.lemma_claim_list(claim_id);
            lemma_stake_monotone(mine, Verdict::True, 0);
            lemma_stake_monotone(mine, Verdict::False, 0);
            assert(reviews_of_claim(self@.reviews, claim_id).len() >= MIN_REVIEWS_FOR_CONSENSUS);
            lemma_tally_fits_bounds(stake_true, stake_false);
        }
        let final_verdict = result.final_verdict;
        let winning: i128 = match final_verdict {
            Verdict::True => result.total_stake_true,
            Verdict::False => result.total_stake_false,
        };
        let total: i128 = result.total_stake_true + result.total_stake_false;
        let pool: i128 = match reward_pool(total) {
            Ok(pool) => pool,
            Err(e) => {
                return Err(e);
            },
        };
        let ids: Vec<u64> = match self.by_claim.get(&claim_id) {
            Some(ids) => ids.clone(),
            None => Vec::new(),
        };
        assert(ids@ =~= review_ids(mine));
        let mut owed: Vec<Settlement> = Vec::new();
        let mut k: usize = 0;
        assert(settlement_views(owed@) =~= Seq::<SettlementView>::empty());
        assert(mine.take(0) =~= Seq::<ReviewView>::empty());
        while k < ids.len()
            invariant
                mine == reviews_of_claim(self@.reviews, claim_id),
                well_valued(mine),
                ids@ == review_ids(mine),
                forall|k: int|
                    0 <= k < mine.len() ==> 1 <= (#[trigger] mine[k]).id <= self@.reviews.len()
                        && self@.reviews[mine[k].id - 1] == mine[k],
                pool >= 0,
                winning >= 0,
                k <= ids.len(),
                settlements_of(mine.take(k as int), final_verdict, pool as int, winning as int)
                    == Ok::<Seq<SettlementView>, Error>(settlement_views(owed@)),
                *self == *old(self),
                self.wf(),
                self@.admin_call(admin@, authorized),
                self@.consensus(claim_id) is Some,
                pool == reward_pool_of(stake_true + stake_false),
                winning == winning_stake(stake_true, stake_false),
                final_verdict == winning_verdict(stake_true, stake_false),
                stake_true == self@.stake(claim_id, Verdict::True),
                stake_false == self@.stake(claim_id, Verdict::False),
            decreases ids.len() - k,
        {
            assert(ids@[k as int] == mine[k as int].id);
            let review = self.review_by_id(ids[k]);
            proof {
                lemma_settlement_step(mine, final_verdict, pool as int, winning as int, k as int);
            }
            if !review.rewarded {
                match Self::settle(review, final_verdict, pool, winning) {
                    Ok(s) => {
                        let ghost earlier = settlement_views(owed@);
                        owed.push(s);
                        assert(settlement_views(owed@) =~= earlier.push(s@));
                    },
                    Err(e) => {
                        proof {
                            lemma_settlement_failure_stays(
                                mine,
                                final_verdict,
                                pool as int,
                                winning as int,
                                k + 1,
                            );
                        }
                        return Err(e);
                    },
                }
            }
            k += 1;
        }
        assert(mine.take(k as int) =~= mine);
        let ghost old_reviews = self@.reviews;
        let count: usize = self.reviews.len();
        assert(self@.reviews.len() == count);
        let mut k: usize = 0;
        while k < ids.len()
            invariant
                ids@ == review_ids(mine),
                forall|k: int|
                    0 <= k < mine.len() ==> 1 <= (#[trigger] mine[k]).id <= old_reviews.len(),
                k <= ids.len(),
                count == old_reviews.len(),
                self.reviews@.len() == old_reviews.len(),
                self@.reviews.len() == old_reviews.len(),
                forall|j: int|
                    0 <= j < old_reviews.len() ==> #[trigger] self@.reviews[j] == (if exists|m: int|
                        0 <= m < k && #[trigger] ids@[m] == j + 1 {
                        old_reviews[j].settled()
                    } else {
                        old_reviews[j]
                    }),
                self.admin == old(self).admin,
                self.claim_registry == old(self).claim_registry,
                self.expert_registry == old(self).expert_registry,
                self.by_claim == old(self).by_claim,
                self.by_expert == old(self).by_expert,
                self.results == old(self).results,
                self.outbox == old(self).outbox,
            decreases ids.len() - k,
        {
            assert(ids@[k as int] == mine[k as int].id);
            let i: usize = (ids[k] - 1) as usize;
            let ghost before = self@.reviews;
            self.reviews[i].rewarded = true;
            assert(self@.reviews =~= before.update(i as int, before[i as int].settled()));
            assert forall|j: int| 0 <= j < old_reviews.len() implies #[trigger] self@.reviews[j] == (
            if exists|m: int| 0 <= m < k + 1 && #[trigger] ids@[m] == j + 1 {
                old_reviews[j].settled()
            } else {
                old_reviews[j]
            }) by {
                if j == i {
                    assert(ids@[k as int] == j + 1);
                } else {
                    if exists|m: int| 0 <= m < k + 1 && #[trigger] ids@[m] == j + 1 {
                        let m = choose|m: int| 0 <= m < k + 1 && #[trigger] ids@[m] == j + 1;
                        assert(m < k);
                    }
                }
            }
            k += 1;
        }
        proof {
            assert forall|j: int| 0 <= j < old_reviews.len() implies self@.reviews[j]
                == settle_claim(old_reviews, claim_id)[j] by {
                if old_reviews[j].claim_id == claim_id {
                    lemma_select_complete(old_reviews, Selector::Claim(claim_id), j);
                    let m = choose|m: int| 0 <= m < mine.len() && mine[m] == old_reviews[j];
                    assert(ids@[m] == j + 1);
                } else {
                    if exists|m: int| 0 <= m < k && #[trigger] ids@[m] == j + 1 {
                        let m = choose|m: int| 0 <= m < k && #[trigger] ids@[m] == j + 1;
                        assert(mine[m].id == j + 1);
                        assert(old_reviews[mine[m].id - 1] == mine[m]);
                    }
                }
            }
            assert(self@.reviews =~= settle_claim(old_reviews, claim_id));
            self.lemma_settled(old(self), claim_id);
        }
        let ghost marked = *self;
        self.outbox.emit(Event::RewardsDistributed(claim_id));
        proof {
            self.lemma_wf_frame(&marked);
        }
        Ok(owed)
    }

    /// The administrator, once the component is initialized.
    pub fn admin(&self) -> (r: Option<&Address>)
        ensures
            r is Some <==> self@.admin is Some,
            r matches Some(a) ==> self@.admin == Some(a@),
    {
        self.admin.as_ref()
    }

    /// The registered claim store, if any.
    pub fn claim_registry(&self) -> (r: Option<&Address>)
        ensures
            r is Some <==> self@.claim_registry is Some,
            r matches Some(a) ==> self@.claim_registry == Some(a@),
    {
        self.claim_registry.as_ref()
    }

    /// The registered expert component, if any.
    pub fn expert_registry(&self) -> (r: Option<&Address>)
        ensures
            r is Some <==> self@.expert_registry is Some,
            r matches Some(a) ==> self@.expert_registry == Some(a@),
    {
        self.expert_registry.as_ref()
    }

    /// All reviews, in the order of their ids.
    pub fn reviews(&self) -> (reviews: &Vec<Review>)
        ensures
            review_views(reviews@) == self@.reviews,
    {
        &self.reviews
    }

    /// The component that holds the given bindings and reviews, with an
    /// empty outbox: the way back from what was saved of a component. The
    /// lists of ids and the results are built anew from the reviews. Nothing
    /// where the reviews are not those of a well-formed component.
    pub fn restore(
        admin: Option<Address>,
        claim_registry: Option<Address>,
        expert_registry: Option<Address>,
        reviews: Vec<Review>,
    ) -> (r: Option<ReviewConsensus>)
        ensures
            r is Some <==> (ReviewConsensusView {
                admin: optional_view(admin),
                claim_registry: optional_view(claim_registry),
                expert_registry: optional_view(expert_registry),
                reviews: review_views(reviews@),
                events: Seq::empty(),
            }).inv(),
            r matches Some(component) ==> component.wf() && component@ == (ReviewConsensusView {
                admin: optional_view(admin),
                claim_registry: optional_view(claim_registry),
                expert_registry: optional_view(expert_registry),
                reviews: review_views(reviews@),
                events: Seq::empty(),
            }),
    {
        let ghost views = review_views(reviews@);
        let ghost whole = ReviewConsensusView {
            admin: optional_view(admin),
            claim_registry: optional_view(claim_registry),
            expert_registry: optional_view(expert_registry),
            reviews: views,
            events: Seq::empty(),
        };
        let mut component = ReviewConsensus::new();
        let ghost fresh = component;
        component.admin = admin;
        component.claim_registry = claim_registry;
        component.expert_registry = expert_registry;
        proof {
            component.lemma_wf_frame(&fresh);
            assert(component@.reviews =~= views.take(0));
        }
        let mut i: usize = 0;
        while i < reviews.len()
            invariant
                views == review_views(reviews@),
                whole == (ReviewConsensusView {
                    admin: optional_view(admin),
                    claim_registry: optional_view(claim_registry),
                    expert_registry: optional_view(expert_registry),
                    reviews: views,
                    events: Seq::empty(),
                }),
                i <= reviews.len(),
                component.wf(),
                component@ == (ReviewConsensusView { reviews: views.take(i as int), ..whole }),
            decreases reviews.len() - i,
        {
            let review = reviews[i].clone();
            let ghost next = views[i as int];
            assert(review@ == next);
            if review.confidence > 100 || review.stake_amount < 0 {
                return None;
            }
            if i as u64 == u64::MAX || review.id != i as u64 + 1 {
                return None;
            }
            proof {
                assert(views.take(i + 1) =~= views.take(i as int).push(next));
                if whole.inv() {
                    Self::lemma_part_admits(whole, i as int);
                }
            }
            match component.append(review) {
                Ok(_) => {},
                Err(_) => {
                    return None;
                },
            }
            i += 1;
        }
        assert(views.take(i as int) =~= views);
        proof {
            component.lemma_wf_inv();
        }
        Some(component)
    }

    /// In a well-formed state, each review could be submitted to the state
    /// that holds the reviews before it.
    proof fn lemma_part_admits(whole: ReviewConsensusView, n: int)
        requires
            whole.inv(),
            0 <= n < whole.reviews.len(),
        ensures
            (ReviewConsensusView { reviews: whole.reviews.take(n), ..whole }).submission(
                whole.reviews[n].expert,
                true,
                whole.reviews[n].claim_id,
                whole.reviews[n].verdict,
                whole.reviews[n].confidence,
                whole.reviews[n].stake_amount,
            ) is Ok,
    {
        let reviews = whole.reviews;
        let next = reviews[n];
        let part = ReviewConsensusView { reviews: reviews.take(n), ..whole };
        let by = Selector::Claim(next.claim_id);
        if has_reviewed(part.reviews, next.claim_id, next.expert) {
            let i = choose|i: int|
                0 <= i < part.reviews.len() && (#[trigger] part.reviews[i]).claim_id
                    == next.claim_id && part.reviews[i].expert == next.expert;
            assert(reviews[i] == part.reviews[i]);
            assert(false);
        }
        assert(reviews.take(n + 1) =~= reviews.take(n).push(next));
        lemma_select_push(reviews.take(n), next, by);
        lemma_stake_push(select(reviews.take(n), by), next, Verdict::True);
        lemma_stake_push(select(reviews.take(n), by), next, Verdict::False);
        lemma_select_prefix(reviews, by, Verdict::True, n + 1);
        lemma_select_prefix(reviews, by, Verdict::False, n + 1);
        if part.claim_reviews(next.claim_id).len() + 1 >= MIN_REVIEWS_FOR_CONSENSUS {
            assert(reviews_of_claim(reviews, next.claim_id).len() >= MIN_REVIEWS_FOR_CONSENSUS);
            assert(tally_fits(
                whole.stake(next.claim_id, Verdict::True),
                whole.stake(next.claim_id, Verdict::False),
            ));
        }
    }

    /// Hands out the events emitted since the last call, oldest first.
    pub fn take_events(&mut self) -> (events: Vec<Event>)
        requires
            old(self).wf(),
        ensures
            final(self).wf(),
            event_views(events@) == old(self)@.events,
            final(self)@ == (ReviewConsensusView { events: Seq::empty(), ..old(self)@ }),
    {
        let events = self.outbox.take();
        proof {
            self.lemma_wf_frame(old(self));
        }
        events
    }
}

} // verus!
