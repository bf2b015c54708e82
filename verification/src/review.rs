//! Reviews, and what a list of reviews says: which of them belong to a claim
//! or to an expert, how much they stake on a verdict, and what each is owed
//! when its claim is settled.
use vstd::prelude::*;
use crate::address::Address;
use crate::consensus::{
    reward_of,
    slash_of,
    Verdict,
    CORRECT_REVIEW_POINTS,
    INCORRECT_REVIEW_POINTS,
};
use crate::error::Error;

verus! {

/// One expert's stake-backed verdict on one claim.
#[derive(Debug, PartialEq, Eq)]
pub struct Review {
    pub id: u64,
    pub claim_id: u64,
    pub expert: Address,
    pub verdict: Verdict,
    pub reasoning: String,
    pub confidence: u32,
    pub stake_amount: i128,
    pub timestamp: u64,
    pub rewarded: bool,
}

/// A [`Review`] as a mathematical value.
pub ghost struct ReviewView {
    pub id: u64,
    pub claim_id: u64,
    pub expert: Seq<char>,
    pub verdict: Verdict,
    pub reasoning: Seq<char>,
    pub confidence: u32,
    pub stake_amount: i128,
    pub timestamp: u64,
    pub rewarded: bool,
}

impl View for Review {
    type V = ReviewView;

    open spec fn view(&self) -> ReviewView {
        ReviewView {
            id: self.id,
            claim_id: self.claim_id,
            expert: self.expert@,
            verdict: self.verdict,
            reasoning: self.reasoning@,
            confidence: self.confidence,
            stake_amount: self.stake_amount,
            timestamp: self.timestamp,
            rewarded: self.rewarded,
        }
    }
}

impl Clone for Review {
    fn clone(&self) -> (copy: Review)
        ensures
            copy@ == self@,
    {
        Review {
            id: self.id,
            claim_id: self.claim_id,
            expert: self.expert.clone(),
            verdict: self.verdict,
            reasoning: self.reasoning.clone(),
            confidence: self.confidence,
            stake_amount: self.stake_amount,
            timestamp: self.timestamp,
            rewarded: self.rewarded,
        }
    }
}

impl ReviewView {
    /// The review with its settlement recorded.
    pub open spec fn settled(self) -> ReviewView {
        ReviewView { rewarded: true, ..self }
    }
}

/// The reviews of a list, in order.
pub open spec fn review_views(list: Seq<Review>) -> Seq<ReviewView> {
    list.map_values(|r: Review| r@)
}

/// The ids of a list of reviews, in order.
pub open spec fn review_ids(reviews: Seq<ReviewView>) -> Seq<u64> {
    reviews.map_values(|r: ReviewView| r.id)
}

/// A way to pick reviews: those of one claim, or those of one expert.
pub ghost enum Selector {
    Claim(u64),
    Expert(Seq<char>),
}

impl Selector {
    /// Whether the selector picks the review.
    pub open spec fn picks(self, review: ReviewView) -> bool {
        match self {
            Selector::Claim(claim_id) => review.claim_id == claim_id,
            Selector::Expert(expert) => review.expert == expert,
        }
    }
}

/// The reviews that a selector picks from a list, in the order of the list.
pub open spec fn select(reviews: Seq<ReviewView>, by: Selector) -> Seq<ReviewView>
    decreases reviews.len(),
{
    if reviews.len() == 0 {
        Seq::empty()
    } else if by.picks(reviews.last()) {
        select(reviews.drop_last(), by).push(reviews.last())
    } else {
        select(reviews.drop_last(), by)
    }
}

/// The reviews of a claim, oldest first.
pub open spec fn reviews_of_claim(reviews: Seq<ReviewView>, claim_id: u64) -> Seq<ReviewView> {
    select(reviews, Selector::Claim(claim_id))
}

/// The reviews of an expert, oldest first.
pub open spec fn reviews_of_expert(reviews: Seq<ReviewView>, expert: Seq<char>) -> Seq<ReviewView> {
    select(reviews, Selector::Expert(expert))
}

/// Whether the expert has a review of the claim in the list.
pub open spec fn has_reviewed(reviews: Seq<ReviewView>, claim_id: u64, expert: Seq<char>) -> bool {
    exists|i: int|
        0 <= i < reviews.len() && (#[trigger] reviews[i]).claim_id == claim_id && reviews[i].expert
            == expert
}

/// Whether the reviews are numbered from 1 in the order of the list.
pub open spec fn numbered(reviews: Seq<ReviewView>) -> bool {
    forall|i: int| 0 <= i < reviews.len() ==> (#[trigger] reviews[i]).id == i + 1
}

/// Whether every review of the list has a confidence of at most 100 and a
/// stake that is not negative.
pub open spec fn well_valued(reviews: Seq<ReviewView>) -> bool {
    forall|i: int|
        0 <= i < reviews.len() ==> (#[trigger] reviews[i]).confidence <= 100
            && reviews[i].stake_amount >= 0
}

/// Whether no expert has two reviews of one claim in the list.
pub open spec fn one_review_each(reviews: Seq<ReviewView>) -> bool {
    forall|i: int, j: int|
        0 <= i < j < reviews.len() ==> !((#[trigger] reviews[i]).claim_id == (
        #[trigger] reviews[j]).claim_id && reviews[i].expert == reviews[j].expert)
}

/// The stake that the reviews of a list put on a verdict.
pub open spec fn stake_on(reviews: Seq<ReviewView>, verdict: Verdict) -> int
    decreases reviews.len(),
{
    if reviews.len() == 0 {
        0
    } else {
        stake_on(reviews.drop_last(), verdict) + if reviews.last().verdict == verdict {
            reviews.last().stake_amount as int
        } else {
            0
        }
    }
}

/// The list with the settlement of every review of a claim recorded.
pub open spec fn settle_claim(reviews: Seq<ReviewView>, claim_id: u64) -> Seq<ReviewView> {
    reviews.map_values(
        |r: ReviewView|
            if r.claim_id == claim_id {
                r.settled()
            } else {
                r
            },
    )
}

/// What selecting does to a list that grows by one review.
pub proof fn lemma_select_push(reviews: Seq<ReviewView>, review: ReviewView, by: Selector)
    ensures
        select(reviews.push(review), by) == if by.picks(review) {
            select(reviews, by).push(review)
        } else {
            select(reviews, by)
        },
{
    assert(reviews.push(review).drop_last() =~= reviews);
}

/// What the stake on a verdict does when the list grows by one review.
pub proof fn lemma_stake_push(reviews: Seq<ReviewView>, review: ReviewView, verdict: Verdict)
    ensures
        stake_on(reviews.push(review), verdict) == stake_on(reviews, verdict) + if review.verdict
            == verdict {
            review.stake_amount as int
        } else {
            0
        },
{
    assert(reviews.push(review).drop_last() =~= reviews);
}

/// A selection is no longer than the list, and every review in it is one
/// that the selector picks from the list: in a numbered list it stands at
/// the position that its id gives.
pub proof fn lemma_select_members(reviews: Seq<ReviewView>, by: Selector)
    requires
        numbered(reviews),
    ensures
        select(reviews, by).len() <= reviews.len(),
        forall|k: int|
            0 <= k < select(reviews, by).len() ==> {
                let r = #[trigger] select(reviews, by)[k];
                &&& by.picks(r)
                &&& 1 <= r.id <= reviews.len()
                &&& reviews[r.id - 1] == r
            },
    decreases reviews.len(),
{
    if reviews.len() > 0 {
        lemma_select_members(reviews.drop_last(), by);
        assert forall|k: int| 0 <= k < select(reviews, by).len() implies {
            let r = #[trigger] select(reviews, by)[k];
            &&& by.picks(r)
            &&& 1 <= r.id <= reviews.len()
            &&& reviews[r.id - 1] == r
        } by {
            let r = select(reviews, by)[k];
            if k < select(reviews.drop_last(), by).len() {
                assert(r == select(reviews.drop_last(), by)[k]);
                assert(reviews.drop_last()[r.id - 1] == r);
            } else {
                assert(r == reviews.last());
                assert(reviews[reviews.len() - 1].id == reviews.len());
            }
        }
    }
}

/// Every review of the list that the selector picks is in the selection.
pub proof fn lemma_select_complete(reviews: Seq<ReviewView>, by: Selector, i: int)
    requires
        0 <= i < reviews.len(),
        by.picks(reviews[i]),
    ensures
        exists|k: int| 0 <= k < select(reviews, by).len() && select(reviews, by)[k] == reviews[i],
    decreases reviews.len(),
{
    if i == reviews.len() - 1 {
        let k = select(reviews, by).len() - 1;
        assert(select(reviews, by)[k] == reviews[i]);
    } else {
        lemma_select_complete(reviews.drop_last(), by, i);
        let k = choose|k: int|
            0 <= k < select(reviews.drop_last(), by).len() && select(reviews.drop_last(), by)[k]
                == reviews.drop_last()[i];
        assert(select(reviews, by)[k] == reviews[i]);
    }
}

/// The expert has reviewed the claim exactly when one of the claim's reviews
/// is theirs.
pub proof fn lemma_has_reviewed(reviews: Seq<ReviewView>, claim_id: u64, expert: Seq<char>)
    requires
        numbered(reviews),
    ensures
        has_reviewed(reviews, claim_id, expert) <==> exists|k: int|
            0 <= k < reviews_of_claim(reviews, claim_id).len() && (#[trigger] reviews_of_claim(
                reviews,
                claim_id,
            )[k]).expert == expert,
{
    let by = Selector::Claim(claim_id);
    lemma_select_members(reviews, by);
    if has_reviewed(reviews, claim_id, expert) {
        let i = choose|i: int|
            0 <= i < reviews.len() && (#[trigger] reviews[i]).claim_id == claim_id
                && reviews[i].expert == expert;
        lemma_select_complete(reviews, by, i);
        let k = choose|k: int| 0 <= k < select(reviews, by).len() && select(reviews, by)[k] == reviews[i];
        assert(reviews_of_claim(reviews, claim_id)[k].expert == expert);
    }
    if exists|k: int|
        0 <= k < reviews_of_claim(reviews, claim_id).len() && (#[trigger] reviews_of_claim(
            reviews,
            claim_id,
        )[k]).expert == expert {
        let k = choose|k: int|
            0 <= k < reviews_of_claim(reviews, claim_id).len() && (#[trigger] reviews_of_claim(
                reviews,
                claim_id,
            )[k]).expert == expert;
        let r = select(reviews, by)[k];
        assert(reviews[r.id - 1] == r);
    }
}

/// The stake on a verdict is not negative, and a part of the list stakes no
/// more than the whole, where no stake is negative.
pub proof fn lemma_stake_monotone(reviews: Seq<ReviewView>, verdict: Verdict, n: int)
    requires
        well_valued(reviews),
        0 <= n <= reviews.len(),
    ensures
        0 <= stake_on(reviews.take(n), verdict) <= stake_on(reviews, verdict),
    decreases reviews.len(),
{
    if reviews.len() == 0 {
        assert(reviews.take(n) =~= reviews);
    } else if n == reviews.len() {
        assert(reviews.take(n) =~= reviews);
        lemma_stake_monotone(reviews.drop_last(), verdict, n - 1);
        assert(reviews.drop_last().take(n - 1) =~= reviews.drop_last());
    } else {
        lemma_stake_monotone(reviews.drop_last(), verdict, n);
        assert(reviews.drop_last().take(n) =~= reviews.take(n));
    }
}

/// Picking reviews from a list keeps the confidences and stakes within
/// their bounds.
pub proof fn lemma_select_well_valued(reviews: Seq<ReviewView>, by: Selector)
    requires
        well_valued(reviews),
    ensures
        well_valued(select(reviews, by)),
    decreases reviews.len(),
{
    if reviews.len() > 0 {
        lemma_select_well_valued(reviews.drop_last(), by);
        assert(reviews.last() == reviews[reviews.len() - 1]);
    }
}

/// The first reviews of a list give a selector no more reviews than the
/// whole list, and these stake no more, where no stake is negative.
pub proof fn lemma_select_prefix(reviews: Seq<ReviewView>, by: Selector, verdict: Verdict, n: int)
    requires
        well_valued(reviews),
        0 <= n <= reviews.len(),
    ensures
        select(reviews.take(n), by).len() <= select(reviews, by).len(),
        0 <= stake_on(select(reviews.take(n), by), verdict) <= stake_on(
            select(reviews, by),
            verdict,
        ),
    decreases reviews.len(),
{
    if n == reviews.len() {
        assert(reviews.take(n) =~= reviews);
        lemma_select_well_valued(reviews, by);
        lemma_stake_monotone(select(reviews, by), verdict, 0);
    } else {
        assert(reviews.drop_last().take(n) =~= reviews.take(n));
        lemma_select_prefix(reviews.drop_last(), by, verdict, n);
        assert(reviews.last() == reviews[reviews.len() - 1]);
        if by.picks(reviews.last()) {
            lemma_stake_push(select(reviews.drop_last(), by), reviews.last(), verdict);
        }
    }
}

/// The stake of the first `n + 1` reviews is the stake of the first `n` and
/// what the next one adds.
pub proof fn lemma_stake_step(reviews: Seq<ReviewView>, verdict: Verdict, n: int)
    requires
        0 <= n < reviews.len(),
    ensures
        stake_on(reviews.take(n + 1), verdict) == stake_on(reviews.take(n), verdict) + if reviews[n].verdict
            == verdict {
            reviews[n].stake_amount as int
        } else {
            0
        },
{
    assert(reviews.take(n + 1).drop_last() =~= reviews.take(n));
}

/// Recording settlements changes neither which reviews a selector picks,
/// nor their ids, nor what they stake.
pub proof fn lemma_settle_select(reviews: Seq<ReviewView>, claim_id: u64, by: Selector)
    ensures
        select(settle_claim(reviews, claim_id), by) == settle_claim(select(reviews, by), claim_id),
        review_ids(settle_claim(reviews, claim_id)) == review_ids(reviews),
    decreases reviews.len(),
{
    let settled = settle_claim(reviews, claim_id);
    assert(review_ids(settled) =~= review_ids(reviews));
    if reviews.len() > 0 {
        lemma_settle_select(reviews.drop_last(), claim_id, by);
        assert(settled.drop_last() =~= settle_claim(reviews.drop_last(), claim_id));
        assert(by.picks(settled.last()) == by.picks(reviews.last()));
        if by.picks(reviews.last()) {
            assert(settle_claim(select(reviews.drop_last(), by).push(reviews.last()), claim_id)
                =~= settle_claim(select(reviews.drop_last(), by), claim_id).push(settled.last()));
        }
    } else {
        assert(select(settled, by) =~= settle_claim(select(reviews, by), claim_id));
    }
}

/// Recording settlements does not change the stake on a verdict.
pub proof fn lemma_settle_stake(reviews: Seq<ReviewView>, claim_id: u64, verdict: Verdict)
    ensures
        stake_on(settle_claim(reviews, claim_id), verdict) == stake_on(reviews, verdict),
    decreases reviews.len(),
{
    let settled = settle_claim(reviews, claim_id);
    if reviews.len() > 0 {
        lemma_settle_stake(reviews.drop_last(), claim_id, verdict);
        assert(settled.drop_last() =~= settle_claim(reviews.drop_last(), claim_id));
    }
}

/// What a settled review brings its expert.
#[derive(Clone, Copy, Debug, PartialEq, Eq, Structural)]
pub enum Outcome {
    /// The review agreed with the consensus: the amount to pay out.
    Reward(i128),
    /// The review disagreed: the amount to take from the expert's stake.
    Slash(i128),
}

/// What is owed for one review when its claim is settled: the amounts are
/// computed here, and whoever holds the funds and the expert records applies
/// them.
#[derive(Debug, PartialEq, Eq)]
pub struct Settlement {
    pub review_id: u64,
    pub expert: Address,
    pub outcome: Outcome,
    /// The change of the expert's reputation points.
    pub reputation_change: i64,
}

/// A [`Settlement`] as a mathematical value.
pub ghost struct SettlementView {
    pub review_id: u64,
    pub expert: Seq<char>,
    pub outcome: Outcome,
    pub reputation_change: i64,
}

impl View for Settlement {
    type V = SettlementView;

    open spec fn view(&self) -> SettlementView {
        SettlementView {
            review_id: self.review_id,
            expert: self.expert@,
            outcome: self.outcome,
            reputation_change: self.reputation_change,
        }
    }
}

impl Settlement {
    /// Whether the review agreed with the consensus.
    pub fn was_correct(&self) -> (b: bool)
        ensures
            b == (self.outcome is Reward),
    {
        match self.outcome {
            Outcome::Reward(_) => true,
            Outcome::Slash(_) => false,
        }
    }
}

/// The settlements of a list, in order.
pub open spec fn settlement_views(list: Seq<Settlement>) -> Seq<SettlementView> {
    list.map_values(|s: Settlement| s@)
}

/// What is owed for one review, given the final verdict, the pool that the
/// winners share and the stake behind the final verdict.
///
/// A review that agrees earns its part of the pool and the points of a
/// correct review; this fails where the winning stake is zero, or where the
/// product of stake and pool leaves 128 bits. A review that disagrees loses
/// the slash percentage of its stake and the points of an incorrect review.
pub open spec fn settlement_of(
    review: ReviewView,
    final_verdict: Verdict,
    pool: int,
    winning_stake: int,
) -> Result<SettlementView, Error> {
    if review.verdict == final_verdict {
        if winning_stake == 0 {
            Err(Error::DivisionByZero)
        } else if review.stake_amount * pool > i128::MAX {
            Err(Error::Overflow)
        } else {
            Ok(
                SettlementView {
                    review_id: review.id,
                    expert: review.expert,
                    outcome: Outcome::Reward(
                        reward_of(review.stake_amount as int, pool, winning_stake) as i128,
                    ),
                    reputation_change: CORRECT_REVIEW_POINTS,
                },
            )
        }
    } else {
        Ok(
            SettlementView {
                review_id: review.id,
                expert: review.expert,
                outcome: Outcome::Slash(slash_of(review.stake_amount as int) as i128),
                reputation_change: INCORRECT_REVIEW_POINTS,
            },
        )
    }
}

/// What is owed for the reviews of a list that are not settled yet, in the
/// order of the list; the failure of the first review that cannot be settled,
/// if there is one.
pub open spec fn settlements_of(
    reviews: Seq<ReviewView>,
    final_verdict: Verdict,
    pool: int,
    winning_stake: int,
) -> Result<Seq<SettlementView>, Error>
    decreases reviews.len(),
{
    if reviews.len() == 0 {
        Ok(Seq::empty())
    } else {
        match settlements_of(reviews.drop_last(), final_verdict, pool, winning_stake) {
            Err(e) => Err(e),
            Ok(earlier) => if reviews.last().rewarded {
                Ok(earlier)
            } else {
                match settlement_of(reviews.last(), final_verdict, pool, winning_stake) {
                    Err(e) => Err(e),
                    Ok(s) => Ok(earlier.push(s)),
                }
            },
        }
    }
}

/// Whether a review agrees with the final verdict and is not settled yet, so
/// that a reward is to be computed for it.
pub open spec fn awaits_reward(review: ReviewView, final_verdict: Verdict) -> bool {
    !review.rewarded && review.verdict == final_verdict
}

/// When a list cannot be settled: exactly when a reward is to be computed
/// for one of its reviews and cannot be. That is the case with a winning
/// stake of zero, and the failure is then a division by zero; and with a
/// product of stake and pool beyond 128 bits, and the failure is then an
/// overflow.
pub proof fn lemma_settlement_failures(
    reviews: Seq<ReviewView>,
    final_verdict: Verdict,
    pool: int,
    winning_stake: int,
)
    ensures
        settlements_of(reviews, final_verdict, pool, winning_stake) is Err <==> exists|i: int|
            0 <= i < reviews.len() && #[trigger] awaits_reward(reviews[i], final_verdict) && (
            winning_stake == 0 || reviews[i].stake_amount * pool > i128::MAX),
        settlements_of(reviews, final_verdict, pool, winning_stake) matches Err(e) ==> e == (
        if winning_stake == 0 {
            Error::DivisionByZero
        } else {
            Error::Overflow
        }),
        settlements_of(reviews, final_verdict, pool, winning_stake) matches Ok(owed)
            ==> owed.len() <= reviews.len(),
    decreases reviews.len(),
{
    if reviews.len() > 0 {
        let earlier = reviews.drop_last();
        let last = reviews.last();
        lemma_settlement_failures(earlier, final_verdict, pool, winning_stake);
        let fails = |r: ReviewView|
            awaits_reward(r, final_verdict) && (winning_stake == 0 || r.stake_amount * pool
                > i128::MAX);
        if exists|i: int|
            0 <= i < earlier.len() && #[trigger] awaits_reward(earlier[i], final_verdict) && (
            winning_stake == 0 || earlier[i].stake_amount * pool > i128::MAX) {
            let i = choose|i: int|
                0 <= i < earlier.len() && #[trigger] awaits_reward(earlier[i], final_verdict) && (
                winning_stake == 0 || earlier[i].stake_amount * pool > i128::MAX);
            assert(reviews[i] == earlier[i]);
            assert(awaits_reward(reviews[i], final_verdict));
        } else if fails(last) {
            assert(reviews[reviews.len() - 1] == last);
            assert(awaits_reward(reviews[reviews.len() - 1], final_verdict));
        } else {
            assert forall|i: int| 0 <= i < reviews.len() implies !(#[trigger] awaits_reward(
                reviews[i],
                final_verdict,
            ) && (winning_stake == 0 || reviews[i].stake_amount * pool > i128::MAX)) by {
                if i < earlier.len() {
                    assert(reviews[i] == earlier[i]);
                    assert(!(awaits_reward(earlier[i], final_verdict) && (winning_stake == 0
                        || earlier[i].stake_amount * pool > i128::MAX)));
                }
            }
        }
    }
}

/// The reviews of a list that are not settled yet, in the order of the list.
pub open spec fn unsettled(reviews: Seq<ReviewView>) -> Seq<ReviewView>
    decreases reviews.len(),
{
    if reviews.len() == 0 {
        Seq::empty()
    } else if reviews.last().rewarded {
        unsettled(reviews.drop_last())
    } else {
        unsettled(reviews.drop_last()).push(reviews.last())
    }
}

/// What is owed for a list is owed review by review: one settlement for
/// each review that is not settled yet, in their order.
pub proof fn lemma_settlements_follow_the_unsettled(
    reviews: Seq<ReviewView>,
    final_verdict: Verdict,
    pool: int,
    winning_stake: int,
)
    ensures
        settlements_of(reviews, final_verdict, pool, winning_stake) matches Ok(owed) ==> {
            &&& owed.len() == unsettled(reviews).len()
            &&& forall|k: int|
                0 <= k < owed.len() ==> settlement_of(
                    #[trigger] unsettled(reviews)[k],
                    final_verdict,
                    pool,
                    winning_stake,
                ) == Ok::<SettlementView, Error>(owed[k])
        },
    decreases reviews.len(),
{
    if reviews.len() > 0 {
        lemma_settlements_follow_the_unsettled(
            reviews.drop_last(),
            final_verdict,
            pool,
            winning_stake,
        );
    }
}

/// Once a part of the list cannot be settled, neither can the whole, and
/// for the same reason.
pub proof fn lemma_settlement_failure_stays(
    reviews: Seq<ReviewView>,
    final_verdict: Verdict,
    pool: int,
    winning_stake: int,
    n: int,
)
    requires
        0 <= n <= reviews.len(),
        settlements_of(reviews.take(n), final_verdict, pool, winning_stake) is Err,
    ensures
        settlements_of(reviews, final_verdict, pool, winning_stake) == settlements_of(
            reviews.take(n),
            final_verdict,
            pool,
            winning_stake,
        ),
    decreases reviews.len(),
{
    if n == reviews.len() {
        assert(reviews.take(n) =~= reviews);
    } else {
        assert(reviews.drop_last().take(n) =~= reviews.take(n));
        lemma_settlement_failure_stays(reviews.drop_last(), final_verdict, pool, winning_stake, n);
    }
}

/// The settlements of the first `n + 1` reviews are those of the first `n`
/// and then that of the next one, if it is not settled yet.
pub proof fn lemma_settlement_step(
    reviews: Seq<ReviewView>,
    final_verdict: Verdict,
    pool: int,
    winning_stake: int,
    n: int,
)
    requires
        0 <= n < reviews.len(),
    ensures
        settlements_of(reviews.take(n + 1), final_verdict, pool, winning_stake) == (
        match settlements_of(reviews.take(n), final_verdict, pool, winning_stake) {
            Err(e) => Err(e),
            Ok(earlier) => if reviews[n].rewarded {
                Ok(earlier)
            } else {
                match settlement_of(reviews[n], final_verdict, pool, winning_stake) {
                    Err(e) => Err(e),
                    Ok(s) => Ok(earlier.push(s)),
                }
            },
        }),
{
    assert(reviews.take(n + 1).drop_last() =~= reviews.take(n));
}

/// Nothing is owed for reviews that are all settled.
pub proof fn lemma_settled_owe_nothing(
    reviews: Seq<ReviewView>,
    final_verdict: Verdict,
    pool: int,
    winning_stake: int,
)
    requires
        forall|i: int| 0 <= i < reviews.len() ==> (#[trigger] reviews[i]).rewarded,
    ensures
        settlements_of(reviews, final_verdict, pool, winning_stake) == Ok::<
            Seq<SettlementView>,
            Error,
        >(Seq::empty()),
    decreases reviews.len(),
{
    if reviews.len() > 0 {
        lemma_settled_owe_nothing(reviews.drop_last(), final_verdict, pool, winning_stake);
        assert(reviews.last() == reviews[reviews.len() - 1]);
    }
}

} // verus!
