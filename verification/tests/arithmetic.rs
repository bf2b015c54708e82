use factcheck::consensus::{
    conclude, proportional_reward, reward_pool, slash_amount, ConsensusResult, Verdict,
    CORRECT_REVIEW_POINTS, INCORRECT_REVIEW_POINTS, MIN_REVIEWS_FOR_CONSENSUS, REWARD_PERCENTAGE,
    SLASH_PERCENTAGE,
};
use factcheck::error::{Error, ErrorKind};

#[test]
fn the_constants_of_the_protocol() {
    assert_eq!(MIN_REVIEWS_FOR_CONSENSUS, 3);
    assert_eq!(REWARD_PERCENTAGE, 80);
    assert_eq!(SLASH_PERCENTAGE, 10);
    assert_eq!(CORRECT_REVIEW_POINTS, 10);
    assert_eq!(INCORRECT_REVIEW_POINTS, -20);
}

#[test]
fn more_stake_wins() {
    assert_eq!(
        conclude(1, 3_500_000_000, 500_000_000),
        Ok(ConsensusResult {
            claim_id: 1,
            final_verdict: Verdict::True,
            total_stake_true: 3_500_000_000,
            total_stake_false: 500_000_000,
            confidence_percentage: 87,
            is_finalized: true,
        })
    );
    assert_eq!(
        conclude(9, 1, 2),
        Ok(ConsensusResult {
            claim_id: 9,
            final_verdict: Verdict::False,
            total_stake_true: 1,
            total_stake_false: 2,
            confidence_percentage: 66,
            is_finalized: true,
        })
    );
}

#[test]
fn equal_stakes_decide_for_false() {
    for stake in [0i128, 1, 2, 1_000_000_000, i128::MAX / 100] {
        let result = conclude(1, stake, stake).unwrap();
        assert_eq!(result.final_verdict, Verdict::False);
        assert_eq!(result.confidence_percentage, if stake == 0 { 0 } else { 50 });
    }
    assert_eq!(conclude(1, 1_000_000_001, 1_000_000_000).unwrap().final_verdict, Verdict::True);
    assert_eq!(conclude(1, 1_000_000_000, 1_000_000_001).unwrap().final_verdict, Verdict::False);
}

#[test]
fn confidence_is_the_winning_share_rounded_down() {
    let confidence = |t: i128, f: i128| conclude(1, t, f).unwrap().confidence_percentage;
    assert_eq!(confidence(0, 0), 0);
    assert_eq!(confidence(1, 0), 100);
    assert_eq!(confidence(0, 1), 100);
    assert_eq!(confidence(2, 1), 66);
    assert_eq!(confidence(1, 2), 66);
    assert_eq!(confidence(199, 1), 99);
    assert_eq!(confidence(51, 49), 51);
    assert_eq!(confidence(501, 499), 50);
    assert_eq!(confidence(7, 4), 63);
}

#[test]
fn verdicts_are_refused_on_stakes_out_of_bounds() {
    assert_eq!(conclude(1, -1, 5), Err(Error::NegativeAmount));
    assert_eq!(conclude(1, 5, -1), Err(Error::NegativeAmount));
    assert_eq!(conclude(1, -1, i128::MAX), Err(Error::NegativeAmount));
    let most = i128::MAX / 100;
    assert!(conclude(1, most, 0).is_ok());
    assert!(conclude(1, most, most).is_ok());
    assert_eq!(conclude(1, most + 1, 0), Err(Error::Overflow));
    assert_eq!(conclude(1, 0, most + 1), Err(Error::Overflow));
    assert_eq!(conclude(1, i128::MAX, i128::MAX), Err(Error::Overflow));
}

#[test]
fn the_pool_is_four_fifths_of_the_stake() {
    assert_eq!(reward_pool(4_000_000_000), Ok(3_200_000_000));
    assert_eq!(reward_pool(0), Ok(0));
    assert_eq!(reward_pool(1), Ok(0));
    assert_eq!(reward_pool(4), Ok(3));
    assert_eq!(reward_pool(5), Ok(4));
    assert_eq!(reward_pool(99), Ok(79));
    assert_eq!(reward_pool(100), Ok(80));
    assert_eq!(reward_pool(101), Ok(80));
    assert_eq!(reward_pool(32), Ok(25));
    assert_eq!(reward_pool(-1), Err(Error::NegativeAmount));
    // No stake is too large for its pool.
    assert_eq!(reward_pool(i128::MAX), Ok(i128::MAX / 100 * 80 + 27 * 80 / 100));
}

#[test]
fn a_slash_is_a_tenth_of_the_stake() {
    assert_eq!(slash_amount(500_000_000), Ok(50_000_000));
    assert_eq!(slash_amount(0), Ok(0));
    assert_eq!(slash_amount(9), Ok(0));
    assert_eq!(slash_amount(10), Ok(1));
    assert_eq!(slash_amount(19), Ok(1));
    assert_eq!(slash_amount(1_000_000_001), Ok(100_000_000));
    assert_eq!(slash_amount(-1), Err(Error::NegativeAmount));
    assert_eq!(slash_amount(i128::MAX), Ok(i128::MAX / 10));
}

#[test]
fn a_reward_is_the_pool_by_the_share_of_the_winning_stake() {
    assert_eq!(
        proportional_reward(2_000_000_000, 3_200_000_000, 3_500_000_000),
        Ok(1_828_571_428)
    );
    assert_eq!(
        proportional_reward(1_500_000_000, 3_200_000_000, 3_500_000_000),
        Ok(1_371_428_571)
    );
    assert_eq!(proportional_reward(0, 100, 7), Ok(0));
    assert_eq!(proportional_reward(7, 100, 7), Ok(100));
    assert_eq!(proportional_reward(7, 0, 7), Ok(0));
    assert_eq!(proportional_reward(1, 1, 2), Ok(0));
    assert_eq!(proportional_reward(19, 25, 21), Ok(22));
}

#[test]
fn rewards_are_refused_in_order() {
    assert_eq!(proportional_reward(-1, 1, 0), Err(Error::NegativeAmount));
    assert_eq!(proportional_reward(1, -1, 0), Err(Error::NegativeAmount));
    assert_eq!(proportional_reward(1, 1, -1), Err(Error::NegativeAmount));
    assert_eq!(proportional_reward(1, 1, 0), Err(Error::DivisionByZero));
    assert_eq!(proportional_reward(0, 0, 0), Err(Error::DivisionByZero));
    assert_eq!(proportional_reward(i128::MAX, i128::MAX, 0), Err(Error::DivisionByZero));
    assert_eq!(proportional_reward(i128::MAX, 2, 1), Err(Error::Overflow));
    assert_eq!(proportional_reward(i128::MAX, 1, 1), Ok(i128::MAX));
    assert_eq!(proportional_reward(i128::MAX / 2, 2, 2), Ok(i128::MAX / 2));
}

#[test]
fn failures_fall_into_classes() {
    assert_eq!(Error::Unauthorized.kind(), ErrorKind::Authorization);
    assert_eq!(Error::AlreadyInitialized.kind(), ErrorKind::AlreadyInitialized);
    assert_eq!(Error::AlreadyRegistered.kind(), ErrorKind::AlreadyRegistered);
    assert_eq!(Error::ClaimNotFound.kind(), ErrorKind::NotFound);
    assert_eq!(Error::ExpertNotFound.kind(), ErrorKind::NotFound);
    assert_eq!(Error::ConsensusNotReached.kind(), ErrorKind::NotFound);
    assert_eq!(Error::ConfidenceOutOfRange.kind(), ErrorKind::Validation);
    assert_eq!(Error::StakeTooLow.kind(), ErrorKind::Validation);
    assert_eq!(Error::DuplicateReview.kind(), ErrorKind::Validation);
    assert_eq!(Error::NegativeAmount.kind(), ErrorKind::Validation);
    assert_eq!(Error::InvalidTransition.kind(), ErrorKind::Validation);
    assert_eq!(Error::DivisionByZero.kind(), ErrorKind::Arithmetic);
    assert_eq!(Error::Overflow.kind(), ErrorKind::Arithmetic);
}
