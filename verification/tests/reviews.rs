use factcheck::address::Address;
use factcheck::consensus::{ConsensusResult, Verdict};
use factcheck::error::Error;
use factcheck::event::Event;
use factcheck::review::{Outcome, Review, Settlement};
use factcheck::review_consensus::ReviewConsensus;

fn addr(s: &str) -> Address {
    Address::new(s.to_string())
}

fn text(s: &str) -> String {
    s.to_string()
}

/// Submits a review with the given stake and returns its id.
fn review(
    component: &mut ReviewConsensus,
    expert: &str,
    claim_id: u64,
    verdict: Verdict,
    stake: i128,
) -> Result<u64, Error> {
    component.submit_review(addr(expert), true, claim_id, verdict, text("My analysis"), 80, stake, 1_000)
}

/// A component in which claim 1 has three reviews: 2e9 and 1.5e9 on `True`,
/// 0.5e9 on `False`.
fn settled_claim() -> ReviewConsensus {
    let mut component = ReviewConsensus::new();
    component.initialize(addr("GADMIN")).unwrap();
    review(&mut component, "GA", 1, Verdict::True, 2_000_000_000).unwrap();
    review(&mut component, "GB", 1, Verdict::True, 1_500_000_000).unwrap();
    review(&mut component, "GC", 1, Verdict::False, 500_000_000).unwrap();
    component.take_events();
    component
}

/// Submits a review of claim 1 with the given authorization, confidence and stake.
fn submit(
    component: &mut ReviewConsensus,
    expert: &str,
    authorized: bool,
    confidence: u32,
    stake: i128,
) -> Result<u64, Error> {
    component.submit_review(addr(expert), authorized, 1, Verdict::True, text("r"), confidence, stake, 0)
}

fn stored(id: u64, claim_id: u64, expert: &str, verdict: Verdict, stake: i128) -> Review {
    Review {
        id,
        claim_id,
        expert: addr(expert),
        verdict,
        reasoning: text("r"),
        confidence: 50,
        stake_amount: stake,
        timestamp: 0,
        rewarded: false,
    }
}

#[test]
fn test_submit_review() {
    let mut component = ReviewConsensus::new();
    let admin = addr("GADMIN");
    let expert = addr("GEXPERT");

    component.initialize(admin).unwrap();

    let claim_id = 1u64;
    let reasoning = "Evidence supports this claim".to_string();
    let stake = 1_000_000_000i128; // 100 XLM

    let review_id = component
        .submit_review(expert, true, claim_id, Verdict::True, reasoning, 95, stake, 1_700_000_000)
        .unwrap();

    assert_eq!(review_id, 1);
    assert_eq!(component.get_review_count(), 1);

    let review = component.get_review(review_id).unwrap();
    assert_eq!(review.verdict, Verdict::True);
    assert_eq!(review.confidence, 95);
}

#[test]
fn test_consensus_calculation() {
    let mut component = ReviewConsensus::new();
    let admin = addr("GADMIN");
    component.initialize(admin).unwrap();

    let claim_id = 1u64;
    let reasoning = "My analysis".to_string();

    // Three experts review - 2 vote True, 1 votes False
    let expert1 = addr("GEXPERT1");
    let expert2 = addr("GEXPERT2");
    let expert3 = addr("GEXPERT3");

    component
        .submit_review(expert1, true, claim_id, Verdict::True, reasoning.clone(), 90, 2_000_000_000i128, 1)
        .unwrap();
    component
        .submit_review(expert2, true, claim_id, Verdict::True, reasoning.clone(), 85, 1_500_000_000i128, 2)
        .unwrap();
    component
        .submit_review(expert3, true, claim_id, Verdict::False, reasoning.clone(), 70, 500_000_000i128, 3)
        .unwrap();

    // Consensus should be reached after 3 reviews
    let consensus = component.get_consensus(claim_id).unwrap();
    assert_eq!(consensus.final_verdict, Verdict::True);
    assert_eq!(consensus.is_finalized, true);

    // True stake: 3.5 billion, False stake: 0.5 billion
    // Confidence: 3.5 / 4.0 = 87.5% ≈ 87%
    assert!(consensus.confidence_percentage >= 85 && consensus.confidence_percentage <= 90);
}

#[test]
fn a_stored_review_holds_what_was_given() {
    let mut component = ReviewConsensus::new();
    let id = component
        .submit_review(
            addr("GEXPERT"),
            true,
            7,
            Verdict::False,
            text("Evidence contradicts this claim"),
            100,
            0,
            1_700_000_000,
        )
        .unwrap();
    assert_eq!(
        component.get_review(id).unwrap(),
        &Review {
            id: 1,
            claim_id: 7,
            expert: addr("GEXPERT"),
            verdict: Verdict::False,
            reasoning: text("Evidence contradicts this claim"),
            confidence: 100,
            stake_amount: 0,
            timestamp: 1_700_000_000,
            rewarded: false,
        }
    );
    assert!(component.get_review(0).is_none());
    assert!(component.get_review(2).is_none());
    assert_eq!(component.take_events(), vec![Event::ReviewSubmitted(1)]);
}

#[test]
fn submissions_are_refused_in_order() {
    let mut component = ReviewConsensus::new();
    review(&mut component, "GA", 1, Verdict::True, 10).unwrap();
    component.take_events();

    let c = &mut component;
    assert_eq!(submit(c, "GA", false, 101, -1), Err(Error::Unauthorized));
    assert_eq!(submit(c, "GA", true, 101, -1), Err(Error::ConfidenceOutOfRange));
    assert_eq!(submit(c, "GB", true, u32::MAX, 5), Err(Error::ConfidenceOutOfRange));
    assert_eq!(submit(c, "GA", true, 100, -1), Err(Error::NegativeAmount));
    assert_eq!(submit(c, "GB", true, 0, i128::MIN), Err(Error::NegativeAmount));
    assert_eq!(submit(c, "GA", true, 100, 1), Err(Error::DuplicateReview));

    assert_eq!(c.get_review_count(), 1);
    assert_eq!(c.take_events(), vec![]);
    assert_eq!(submit(c, "GB", true, 100, 1), Ok(2));
    assert_eq!(submit(c, "GC", true, 0, 0), Ok(3));
}

#[test]
fn an_expert_reviews_a_claim_once() {
    let mut component = ReviewConsensus::new();
    assert_eq!(review(&mut component, "GA", 1, Verdict::True, 10), Ok(1));
    assert_eq!(review(&mut component, "GB", 1, Verdict::False, 10), Ok(2));
    component.take_events();

    // A second review of the same claim, whatever it says.
    assert_eq!(review(&mut component, "GA", 1, Verdict::True, 10), Err(Error::DuplicateReview));
    assert_eq!(review(&mut component, "GA", 1, Verdict::False, 99), Err(Error::DuplicateReview));
    assert_eq!(review(&mut component, "GB", 1, Verdict::True, 0), Err(Error::DuplicateReview));

    // Nothing has changed.
    assert_eq!(component.get_review_count(), 2);
    assert_eq!(component.get_claim_reviews(1).len(), 2);
    assert_eq!(component.get_expert_reviews(addr("GA")).len(), 1);
    assert_eq!(component.get_review(1).unwrap().stake_amount, 10);
    assert_eq!(component.get_review(1).unwrap().verdict, Verdict::True);
    assert!(component.get_consensus(1).is_none());
    assert!(component.get_review(3).is_none());
    assert_eq!(component.take_events(), vec![]);

    // Another claim is another matter.
    assert_eq!(review(&mut component, "GA", 2, Verdict::True, 10), Ok(3));
    assert_eq!(component.get_expert_reviews(addr("GA")).len(), 2);
}

#[test]
fn consensus_comes_with_the_third_review() {
    let mut component = ReviewConsensus::new();
    review(&mut component, "GA", 1, Verdict::True, 2_000_000_000).unwrap();
    assert!(component.get_consensus(1).is_none());
    review(&mut component, "GB", 1, Verdict::True, 1_500_000_000).unwrap();
    assert!(component.get_consensus(1).is_none());
    assert_eq!(
        component.take_events(),
        vec![Event::ReviewSubmitted(1), Event::ReviewSubmitted(2)]
    );
    review(&mut component, "GC", 1, Verdict::False, 500_000_000).unwrap();
    assert_eq!(
        component.get_consensus(1),
        Some(ConsensusResult {
            claim_id: 1,
            final_verdict: Verdict::True,
            total_stake_true: 3_500_000_000,
            total_stake_false: 500_000_000,
            confidence_percentage: 87,
            is_finalized: true,
        })
    );
    assert_eq!(
        component.take_events(),
        vec![Event::ConsensusReached(1), Event::ReviewSubmitted(3)]
    );
    assert!(component.get_consensus(2).is_none());
}

#[test]
fn consensus_follows_every_later_review() {
    let mut component = settled_claim();
    review(&mut component, "GD", 1, Verdict::False, 4_000_000_000).unwrap();
    assert_eq!(
        component.get_consensus(1),
        Some(ConsensusResult {
            claim_id: 1,
            final_verdict: Verdict::False,
            total_stake_true: 3_500_000_000,
            total_stake_false: 4_500_000_000,
            confidence_percentage: 56,
            is_finalized: true,
        })
    );
    assert_eq!(
        component.take_events(),
        vec![Event::ConsensusReached(1), Event::ReviewSubmitted(4)]
    );
    assert_eq!(component.calculate_consensus(1), Ok(component.get_consensus(1).unwrap()));
}

#[test]
fn reviews_of_other_claims_do_not_count() {
    let mut component = ReviewConsensus::new();
    review(&mut component, "GA", 1, Verdict::True, 10).unwrap();
    review(&mut component, "GA", 2, Verdict::True, 10).unwrap();
    review(&mut component, "GB", 1, Verdict::True, 10).unwrap();
    review(&mut component, "GB", 2, Verdict::False, 30).unwrap();
    assert!(component.get_consensus(1).is_none());
    assert!(component.get_consensus(2).is_none());
    review(&mut component, "GC", 2, Verdict::True, 10).unwrap();
    assert!(component.get_consensus(1).is_none());
    let consensus = component.get_consensus(2).unwrap();
    assert_eq!(consensus.claim_id, 2);
    assert_eq!(consensus.final_verdict, Verdict::False);
    assert_eq!(consensus.total_stake_true, 20);
    assert_eq!(consensus.total_stake_false, 30);
    assert_eq!(consensus.confidence_percentage, 60);
}

#[test]
fn a_tie_goes_to_false() {
    let mut component = ReviewConsensus::new();
    review(&mut component, "GA", 1, Verdict::True, 1_000).unwrap();
    review(&mut component, "GB", 1, Verdict::False, 400).unwrap();
    review(&mut component, "GC", 1, Verdict::False, 600).unwrap();
    let consensus = component.get_consensus(1).unwrap();
    assert_eq!(consensus.total_stake_true, 1_000);
    assert_eq!(consensus.total_stake_false, 1_000);
    assert_eq!(consensus.final_verdict, Verdict::False);
    assert_eq!(consensus.confidence_percentage, 50);

    // One unit more on `True` turns it.
    review(&mut component, "GD", 1, Verdict::True, 1).unwrap();
    let consensus = component.get_consensus(1).unwrap();
    assert_eq!(consensus.final_verdict, Verdict::True);
    assert_eq!(consensus.confidence_percentage, 50);
}

#[test]
fn no_stake_at_all_goes_to_false() {
    let mut component = ReviewConsensus::new();
    review(&mut component, "GA", 1, Verdict::True, 0).unwrap();
    review(&mut component, "GB", 1, Verdict::True, 0).unwrap();
    review(&mut component, "GC", 1, Verdict::True, 0).unwrap();
    assert_eq!(
        component.get_consensus(1),
        Some(ConsensusResult {
            claim_id: 1,
            final_verdict: Verdict::False,
            total_stake_true: 0,
            total_stake_false: 0,
            confidence_percentage: 0,
            is_finalized: true,
        })
    );
}

#[test]
fn a_consensus_of_one_mind_is_certain() {
    let mut component = ReviewConsensus::new();
    review(&mut component, "GA", 1, Verdict::True, 1).unwrap();
    review(&mut component, "GB", 1, Verdict::True, 2).unwrap();
    review(&mut component, "GC", 1, Verdict::True, 3).unwrap();
    let consensus = component.get_consensus(1).unwrap();
    assert_eq!(consensus.final_verdict, Verdict::True);
    assert_eq!(consensus.confidence_percentage, 100);
}

#[test]
fn a_verdict_can_be_computed_before_the_consensus() {
    let mut component = ReviewConsensus::new();
    assert_eq!(
        component.calculate_consensus(1),
        Ok(ConsensusResult {
            claim_id: 1,
            final_verdict: Verdict::False,
            total_stake_true: 0,
            total_stake_false: 0,
            confidence_percentage: 0,
            is_finalized: true,
        })
    );
    review(&mut component, "GA", 1, Verdict::True, 3).unwrap();
    review(&mut component, "GB", 1, Verdict::False, 1).unwrap();
    let now = component.calculate_consensus(1).unwrap();
    assert_eq!(now.final_verdict, Verdict::True);
    assert_eq!(now.confidence_percentage, 75);
    assert!(component.get_consensus(1).is_none());
}

#[test]
fn stakes_that_do_not_fit_the_tally_are_refused() {
    let mut component = ReviewConsensus::new();
    let most = i128::MAX / 100;
    // Below the quorum nothing is added up.
    review(&mut component, "GA", 1, Verdict::True, i128::MAX).unwrap();
    review(&mut component, "GB", 1, Verdict::False, most).unwrap();
    component.take_events();
    assert_eq!(review(&mut component, "GC", 1, Verdict::False, 0), Err(Error::Overflow));
    assert_eq!(review(&mut component, "GC", 1, Verdict::True, 1), Err(Error::Overflow));
    assert_eq!(component.get_review_count(), 2);
    assert!(component.get_consensus(1).is_none());
    assert_eq!(component.get_claim_reviews(1).len(), 2);
    assert_eq!(component.get_expert_reviews(addr("GC")).len(), 0);
    assert_eq!(component.take_events(), vec![]);
    assert_eq!(component.calculate_consensus(1), Err(Error::Overflow));

    // The largest winning stake that fits.
    let mut component = ReviewConsensus::new();
    review(&mut component, "GA", 1, Verdict::True, most - 1).unwrap();
    review(&mut component, "GB", 1, Verdict::False, 5).unwrap();
    assert_eq!(review(&mut component, "GC", 1, Verdict::True, 2), Err(Error::Overflow));
    assert_eq!(review(&mut component, "GC", 1, Verdict::True, 1), Ok(3));
    let consensus = component.get_consensus(1).unwrap();
    assert_eq!(consensus.total_stake_true, most);
    assert_eq!(consensus.final_verdict, Verdict::True);
    assert_eq!(consensus.confidence_percentage, 99);
}

#[test]
fn reviews_are_listed_by_claim_and_by_expert() {
    let mut component = ReviewConsensus::new();
    review(&mut component, "GA", 1, Verdict::True, 1).unwrap();
    review(&mut component, "GB", 2, Verdict::True, 2).unwrap();
    review(&mut component, "GA", 2, Verdict::False, 3).unwrap();
    review(&mut component, "GC", 1, Verdict::False, 4).unwrap();
    review(&mut component, "GA", 3, Verdict::True, 5).unwrap();

    let ids = |reviews: Vec<Review>| reviews.iter().map(|r| r.id).collect::<Vec<u64>>();
    assert_eq!(ids(component.get_claim_reviews(1)), vec![1, 4]);
    assert_eq!(ids(component.get_claim_reviews(2)), vec![2, 3]);
    assert_eq!(ids(component.get_claim_reviews(3)), vec![5]);
    assert_eq!(ids(component.get_claim_reviews(4)), Vec::<u64>::new());
    assert_eq!(ids(component.get_expert_reviews(addr("GA"))), vec![1, 3, 5]);
    assert_eq!(ids(component.get_expert_reviews(addr("GB"))), vec![2]);
    assert_eq!(ids(component.get_expert_reviews(addr("GC"))), vec![4]);
    assert_eq!(ids(component.get_expert_reviews(addr("GD"))), Vec::<u64>::new());

    let of_claim = component.get_claim_reviews(2);
    assert_eq!(&of_claim[1], component.get_review(3).unwrap());
    assert_eq!(of_claim[1].stake_amount, 3);
    assert_eq!(component.get_review_count(), 5);
}

#[test]
fn distribution_pays_winners_and_slashes_losers() {
    let mut component = settled_claim();
    let owed = component.distribute_rewards(addr("GADMIN"), true, 1).unwrap();
    // The pool is 80 percent of 4e9. The winners share it by their stakes
    // of 2e9 and 1.5e9 in 3.5e9; the loser gives up 10 percent of 0.5e9.
    assert_eq!(
        owed,
        vec![
            Settlement {
                review_id: 1,
                expert: addr("GA"),
                outcome: Outcome::Reward(1_828_571_428),
                reputation_change: 10,
            },
            Settlement {
                review_id: 2,
                expert: addr("GB"),
                outcome: Outcome::Reward(1_371_428_571),
                reputation_change: 10,
            },
            Settlement {
                review_id: 3,
                expert: addr("GC"),
                outcome: Outcome::Slash(50_000_000),
                reputation_change: -20,
            },
        ]
    );
    assert!(owed[0].was_correct());
    assert!(owed[1].was_correct());
    assert!(!owed[2].was_correct());
    for id in 1..=3u64 {
        assert!(component.get_review(id).unwrap().rewarded);
    }
    assert_eq!(component.take_events(), vec![Event::RewardsDistributed(1)]);
}

#[test]
fn distribution_twice_pays_once() {
    let mut component = settled_claim();
    let first = component.distribute_rewards(addr("GADMIN"), true, 1).unwrap();
    assert_eq!(first.len(), 3);
    let consensus = component.get_consensus(1);

    let second = component.distribute_rewards(addr("GADMIN"), true, 1).unwrap();
    assert_eq!(second, vec![]);
    let third = component.distribute_rewards(addr("GADMIN"), true, 1).unwrap();
    assert_eq!(third, vec![]);
    for id in 1..=3u64 {
        assert!(component.get_review(id).unwrap().rewarded);
    }
    assert_eq!(component.get_consensus(1), consensus);
    assert_eq!(component.get_review_count(), 3);
}

#[test]
fn a_later_review_is_settled_by_a_later_distribution() {
    let mut component = settled_claim();
    component.distribute_rewards(addr("GADMIN"), true, 1).unwrap();
    review(&mut component, "GD", 1, Verdict::True, 500_000_000).unwrap();
    assert!(!component.get_review(4).unwrap().rewarded);

    // Now 4e9 of 4.5e9 is on `True`; the pool is 3.6e9.
    let owed = component.distribute_rewards(addr("GADMIN"), true, 1).unwrap();
    assert_eq!(
        owed,
        vec![Settlement {
            review_id: 4,
            expert: addr("GD"),
            outcome: Outcome::Reward(450_000_000),
            reputation_change: 10,
        }]
    );
    assert!(component.get_review(4).unwrap().rewarded);
}

#[test]
fn distribution_leaves_other_claims_alone() {
    let mut component = settled_claim();
    review(&mut component, "GA", 2, Verdict::True, 5).unwrap();
    component.distribute_rewards(addr("GADMIN"), true, 1).unwrap();
    assert!(!component.get_review(4).unwrap().rewarded);
    assert_eq!(
        component.distribute_rewards(addr("GADMIN"), true, 2),
        Err(Error::ConsensusNotReached)
    );
}

#[test]
fn distribution_is_refused_in_order() {
    let mut component = settled_claim();
    assert_eq!(
        component.distribute_rewards(addr("GADMIN"), false, 9),
        Err(Error::Unauthorized)
    );
    assert_eq!(
        component.distribute_rewards(addr("GADMIN"), false, 1),
        Err(Error::Unauthorized)
    );
    // Only the administrator settles claims.
    assert_eq!(
        component.distribute_rewards(addr("GOTHER"), true, 1),
        Err(Error::Unauthorized)
    );
    assert_eq!(
        component.distribute_rewards(addr("GA"), true, 9),
        Err(Error::Unauthorized)
    );
    assert_eq!(
        component.distribute_rewards(addr("GADMIN"), true, 9),
        Err(Error::ConsensusNotReached)
    );
    for id in 1..=3u64 {
        assert!(!component.get_review(id).unwrap().rewarded);
    }
    assert_eq!(component.take_events(), vec![]);
}

#[test]
fn nobody_settles_for_a_component_without_administrator() {
    let mut component = ReviewConsensus::new();
    review(&mut component, "GA", 1, Verdict::True, 3).unwrap();
    review(&mut component, "GB", 1, Verdict::True, 2).unwrap();
    review(&mut component, "GC", 1, Verdict::False, 1).unwrap();
    assert!(component.get_consensus(1).is_some());
    assert_eq!(
        component.distribute_rewards(addr("GADMIN"), true, 1),
        Err(Error::Unauthorized)
    );
    component.initialize(addr("GADMIN")).unwrap();
    assert_eq!(component.distribute_rewards(addr("GADMIN"), true, 1).unwrap().len(), 3);
}

#[test]
fn distribution_needs_a_quorum() {
    let mut component = ReviewConsensus::new();
    component.initialize(addr("GADMIN")).unwrap();
    review(&mut component, "GA", 1, Verdict::True, 10).unwrap();
    review(&mut component, "GB", 1, Verdict::True, 10).unwrap();
    assert_eq!(
        component.distribute_rewards(addr("GADMIN"), true, 1),
        Err(Error::ConsensusNotReached)
    );
    assert!(!component.get_review(1).unwrap().rewarded);
}

#[test]
fn winners_without_stake_cannot_be_paid() {
    let mut component = ReviewConsensus::new();
    component.initialize(addr("GADMIN")).unwrap();
    review(&mut component, "GA", 1, Verdict::False, 0).unwrap();
    review(&mut component, "GB", 1, Verdict::False, 0).unwrap();
    review(&mut component, "GC", 1, Verdict::True, 0).unwrap();
    component.take_events();
    assert_eq!(component.get_consensus(1).unwrap().final_verdict, Verdict::False);
    assert_eq!(
        component.distribute_rewards(addr("GADMIN"), true, 1),
        Err(Error::DivisionByZero)
    );
    // Nothing was settled, not even in part.
    for id in 1..=3u64 {
        assert!(!component.get_review(id).unwrap().rewarded);
    }
    assert_eq!(component.take_events(), vec![]);
}

#[test]
fn losers_without_stake_lose_nothing() {
    let mut component = ReviewConsensus::new();
    component.initialize(addr("GADMIN")).unwrap();
    review(&mut component, "GA", 1, Verdict::True, 0).unwrap();
    review(&mut component, "GB", 1, Verdict::True, 0).unwrap();
    review(&mut component, "GC", 1, Verdict::True, 0).unwrap();
    // Without stake the verdict is `False`, so nobody has won.
    let owed = component.distribute_rewards(addr("GADMIN"), true, 1).unwrap();
    assert_eq!(owed.len(), 3);
    for s in owed.iter() {
        assert_eq!(s.outcome, Outcome::Slash(0));
        assert_eq!(s.reputation_change, -20);
    }
    assert!(component.get_review(1).unwrap().rewarded);
}

#[test]
fn rewards_that_do_not_fit_are_refused() {
    let mut component = ReviewConsensus::new();
    component.initialize(addr("GADMIN")).unwrap();
    let stake = i128::MAX / 400;
    review(&mut component, "GA", 1, Verdict::True, stake).unwrap();
    review(&mut component, "GB", 1, Verdict::True, stake).unwrap();
    review(&mut component, "GC", 1, Verdict::False, 1).unwrap();
    component.take_events();
    assert_eq!(component.get_consensus(1).unwrap().final_verdict, Verdict::True);
    assert_eq!(component.distribute_rewards(addr("GADMIN"), true, 1), Err(Error::Overflow));
    for id in 1..=3u64 {
        assert!(!component.get_review(id).unwrap().rewarded);
    }
    assert_eq!(component.take_events(), vec![]);
}

#[test]
fn amounts_are_rounded_down() {
    let mut component = ReviewConsensus::new();
    component.initialize(addr("GADMIN")).unwrap();
    review(&mut component, "GA", 1, Verdict::True, 7).unwrap();
    review(&mut component, "GB", 1, Verdict::True, 4).unwrap();
    review(&mut component, "GC", 1, Verdict::False, 19).unwrap();
    review(&mut component, "GD", 1, Verdict::False, 2).unwrap();
    // 21 of 32 is on `False`: 65.6 percent. The pool is 80 percent of 32,
    // which is 25.6.
    let consensus = component.get_consensus(1).unwrap();
    assert_eq!(consensus.final_verdict, Verdict::False);
    assert_eq!(consensus.confidence_percentage, 65);
    let owed = component.distribute_rewards(addr("GADMIN"), true, 1).unwrap();
    let outcomes: Vec<Outcome> = owed.iter().map(|s| s.outcome).collect();
    assert_eq!(
        outcomes,
        vec![
            Outcome::Slash(0),
            Outcome::Slash(0),
            // 19 * 25 / 21 and 2 * 25 / 21.
            Outcome::Reward(22),
            Outcome::Reward(2),
        ]
    );
}

#[test]
fn bindings_of_the_component_are_for_the_administrator() {
    let mut component = ReviewConsensus::new();
    assert_eq!(
        component.set_claim_registry(addr("GADMIN"), true, addr("CCLAIMS")),
        Err(Error::Unauthorized)
    );
    component.initialize(addr("GADMIN")).unwrap();
    assert_eq!(component.initialize(addr("GADMIN")), Err(Error::AlreadyInitialized));
    assert_eq!(
        component.set_claim_registry(addr("GOTHER"), true, addr("CCLAIMS")),
        Err(Error::Unauthorized)
    );
    assert_eq!(
        component.set_expert_registry(addr("GADMIN"), false, addr("CEXPERTS")),
        Err(Error::Unauthorized)
    );
    assert!(component.claim_registry().is_none());
    assert!(component.expert_registry().is_none());
    assert_eq!(component.set_claim_registry(addr("GADMIN"), true, addr("CCLAIMS")), Ok(()));
    assert_eq!(component.set_expert_registry(addr("GADMIN"), true, addr("CEXPERTS")), Ok(()));
    assert_eq!(component.admin(), Some(&addr("GADMIN")));
    assert_eq!(component.claim_registry(), Some(&addr("CCLAIMS")));
    assert_eq!(component.expert_registry(), Some(&addr("CEXPERTS")));
}

#[test]
fn a_component_comes_back_from_its_reviews() {
    let mut component = settled_claim();
    review(&mut component, "GA", 2, Verdict::False, 77).unwrap();
    component.distribute_rewards(addr("GADMIN"), true, 1).unwrap();

    let restored = ReviewConsensus::restore(
        component.admin().cloned(),
        component.claim_registry().cloned(),
        component.expert_registry().cloned(),
        component.reviews().clone(),
    )
    .unwrap();
    assert_eq!(restored.reviews(), component.reviews());
    assert_eq!(restored.get_consensus(1), component.get_consensus(1));
    assert_eq!(restored.get_consensus(2), None);
    assert_eq!(restored.get_claim_reviews(1), component.get_claim_reviews(1));
    assert_eq!(
        restored.get_expert_reviews(addr("GA")),
        component.get_expert_reviews(addr("GA"))
    );
    assert_eq!(restored.get_expert_reviews(addr("GA")).len(), 2);
    assert!(restored.get_review(1).unwrap().rewarded);
    assert!(!restored.get_review(4).unwrap().rewarded);
    assert_eq!(restored.admin(), Some(&addr("GADMIN")));

    // The restored component goes on where the other stands.
    let mut restored = restored;
    assert_eq!(review(&mut restored, "GA", 1, Verdict::True, 1), Err(Error::DuplicateReview));
    assert_eq!(review(&mut restored, "GE", 1, Verdict::True, 1), Ok(5));
    assert_eq!(restored.distribute_rewards(addr("GADMIN"), true, 1).unwrap().len(), 1);
}

#[test]
fn a_component_does_not_come_back_from_broken_reviews() {
    let restore = |reviews: Vec<Review>| ReviewConsensus::restore(None, None, None, reviews);
    assert!(restore(vec![]).is_some());
    assert!(restore(vec![
        stored(1, 1, "GA", Verdict::True, 5),
        stored(2, 1, "GB", Verdict::False, 5),
        stored(3, 2, "GA", Verdict::False, 5),
    ])
    .is_some());
    // Ids that do not count from one.
    assert!(restore(vec![stored(2, 1, "GA", Verdict::True, 5)]).is_none());
    assert!(restore(vec![
        stored(1, 1, "GA", Verdict::True, 5),
        stored(3, 1, "GB", Verdict::True, 5)
    ])
    .is_none());
    // Two reviews of one claim by one expert.
    assert!(restore(vec![
        stored(1, 1, "GA", Verdict::True, 5),
        stored(2, 2, "GB", Verdict::True, 5),
        stored(3, 1, "GA", Verdict::False, 5),
    ])
    .is_none());
    // A negative stake, a confidence above 100.
    assert!(restore(vec![stored(1, 1, "GA", Verdict::True, -5)]).is_none());
    let mut sure = stored(1, 1, "GA", Verdict::True, 5);
    sure.confidence = 101;
    assert!(restore(vec![sure]).is_none());
    // Stakes of a claim with a consensus that do not fit the tally.
    assert!(restore(vec![
        stored(1, 1, "GA", Verdict::True, i128::MAX),
        stored(2, 1, "GB", Verdict::True, 0),
    ])
    .is_some());
    assert!(restore(vec![
        stored(1, 1, "GA", Verdict::True, i128::MAX),
        stored(2, 1, "GB", Verdict::True, 0),
        stored(3, 1, "GC", Verdict::True, 0),
    ])
    .is_none());
}
