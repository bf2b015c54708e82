//! The arithmetic of the protocol: how staked verdicts decide a claim, and
//! what an expert gains or loses when the claim is settled.
use vstd::prelude::*;
use crate::error::Error;

verus! {

/// The number of reviews at which a claim's consensus is computed.
pub const MIN_REVIEWS_FOR_CONSENSUS: u32 = 3;

/// The share of a claim's whole stake that goes to the winners, in percent.
pub const REWARD_PERCENTAGE: u32 = 80;

/// The share of a losing expert's stake that is slashed, in percent.
pub const SLASH_PERCENTAGE: u32 = 10;

/// The reputation points for a review that agrees with the consensus.
pub const CORRECT_REVIEW_POINTS: i64 = 10;

/// The reputation points for a review that disagrees with the consensus.
pub const INCORRECT_REVIEW_POINTS: i64 = -20;

/// What a review, or a consensus, says of a claim.
#[derive(Clone, Copy, Debug, PartialEq, Eq, Structural)]
pub enum Verdict {
    True,
    False,
}

/// The stake-weighted verdict on a claim.
#[derive(Clone, Copy, Debug, PartialEq, Eq, Structural)]
pub struct ConsensusResult {
    pub claim_id: u64,
    pub final_verdict: Verdict,
    pub total_stake_true: i128,
    pub total_stake_false: i128,
    pub confidence_percentage: u32,
    pub is_finalized: bool,
}

/// The verdict that wins: `True` with strictly more stake, else `False`.
/// A tie goes to `False`, and so does a vote without any stake.
pub open spec fn winning_verdict(stake_true: int, stake_false: int) -> Verdict {
    if stake_true > stake_false {
        Verdict::True
    } else {
        Verdict::False
    }
}

/// The stake behind the winning verdict.
pub open spec fn winning_stake(stake_true: int, stake_false: int) -> int {
    if stake_true > stake_false {
        stake_true
    } else {
        stake_false
    }
}

/// The winning side's share of the whole stake in percent, rounded down;
/// 0 where nothing is staked.
pub open spec fn confidence_of(stake_true: int, stake_false: int) -> int {
    if stake_true + stake_false > 0 {
        winning_stake(stake_true, stake_false) * 100 / (stake_true + stake_false)
    } else {
        0
    }
}

/// Whether the verdict on these stakes can be computed in 128 bits: a
/// hundred times the winning stake must fit.
pub open spec fn tally_fits(stake_true: int, stake_false: int) -> bool {
    winning_stake(stake_true, stake_false) * 100 <= i128::MAX
}

/// The consensus on a claim whose reviews stake `stake_true` on `True` and
/// `stake_false` on `False`.
pub open spec fn consensus_of(claim_id: u64, stake_true: int, stake_false: int) -> ConsensusResult {
    ConsensusResult {
        claim_id,
        final_verdict: winning_verdict(stake_true, stake_false),
        total_stake_true: stake_true as i128,
        total_stake_false: stake_false as i128,
        confidence_percentage: confidence_of(stake_true, stake_false) as u32,
        is_finalized: true,
    }
}

/// The confidence is a percentage, and at least 50 where anything is staked.
pub proof fn lemma_confidence_bounds(stake_true: int, stake_false: int)
    requires
        stake_true >= 0,
        stake_false >= 0,
    ensures
        0 <= confidence_of(stake_true, stake_false) <= 100,
        stake_true + stake_false > 0 ==> confidence_of(stake_true, stake_false) >= 50,
{
    let w = winning_stake(stake_true, stake_false);
    let total = stake_true + stake_false;
    if total > 0 {
        assert(w <= total);
        assert(2 * w >= total);
        assert(w * 100 / total <= 100) by (nonlinear_arith)
            requires
                0 <= w <= total,
                total > 0,
        ;
        assert(w * 100 / total >= 50) by (nonlinear_arith)
            requires
                2 * w >= total,
                total > 0,
        ;
    }
}

/// Stakes that fit the tally are themselves within 128 bits, and so is
/// their sum.
pub proof fn lemma_tally_fits_bounds(stake_true: int, stake_false: int)
    requires
        stake_true >= 0,
        stake_false >= 0,
        tally_fits(stake_true, stake_false),
    ensures
        stake_true <= i128::MAX,
        stake_false <= i128::MAX,
        stake_true + stake_false <= i128::MAX,
{
}

/// Equal stakes on both sides decide for `False`.
pub proof fn lemma_tie_goes_to_false(claim_id: u64, stake_true: int, stake_false: int)
    requires
        stake_true == stake_false,
    ensures
        winning_verdict(stake_true, stake_false) == Verdict::False,
        consensus_of(claim_id, stake_true, stake_false).final_verdict == Verdict::False,
{
}

/// Decides a claim from the stake on each side.
///
/// Refused with `NegativeAmount` if a stake is negative, and with `Overflow`
/// if a hundred times the winning stake does not fit in 128 bits.
pub fn conclude(claim_id: u64, stake_true: i128, stake_false: i128) -> (r: Result<
    ConsensusResult,
    Error,
>)
    ensures
        r == (if stake_true < 0 || stake_false < 0 {
            Err::<ConsensusResult, Error>(Error::NegativeAmount)
        } else if !tally_fits(stake_true as int, stake_false as int) {
            Err(Error::Overflow)
        } else {
            Ok(consensus_of(claim_id, stake_true as int, stake_false as int))
        }),
{
    if stake_true < 0 || stake_false < 0 {
        return Err(Error::NegativeAmount);
    }
    let (final_verdict, winning) = if stake_true > stake_false {
        (Verdict::True, stake_true)
    } else {
        (Verdict::False, stake_false)
    };
    let scaled: i128 = match winning.checked_mul(100) {
        Some(s) => s,
        None => {
            return Err(Error::Overflow);
        },
    };
    proof {
        lemma_tally_fits_bounds(stake_true as int, stake_false as int);
        lemma_confidence_bounds(stake_true as int, stake_false as int);
    }
    let total: i128 = stake_true + stake_false;
    let confidence_percentage: u32 = if total > 0 {
        (scaled / total) as u32
    } else {
        0
    };
    Ok(
        ConsensusResult {
            claim_id,
            final_verdict,
            total_stake_true: stake_true,
            total_stake_false: stake_false,
            confidence_percentage,
            is_finalized: true,
        },
    )
}

/// The pool that the winners of a claim share: the reward percentage of the
/// claim's whole stake, rounded down.
pub open spec fn reward_pool_of(total_stake: int) -> int {
    total_stake * REWARD_PERCENTAGE as int / 100
}

/// A winner's reward: the pool in proportion to the winner's part of the
/// winning stake, rounded down.
pub open spec fn reward_of(stake: int, pool: int, winning_stake: int) -> int {
    stake * pool / winning_stake
}

/// A loser's penalty: the slash percentage of the stake, rounded down.
pub open spec fn slash_of(stake: int) -> int {
    stake * SLASH_PERCENTAGE as int / 100
}

/// `amount * percent / 100`, rounded down, computed without leaving 128 bits.
fn percent_of(amount: i128, percent: u32) -> (part: i128)
    requires
        amount >= 0,
        percent <= 100,
    ensures
        part == amount * percent as int / 100,
        0 <= part <= amount,
{
    let hundreds: i128 = amount / 100;
    let rest: i128 = amount % 100;
    let p: i128 = percent as i128;
    assert((100 * hundreds + rest) * p / 100 == hundreds * p + rest * p / 100) by (nonlinear_arith)
        requires
            0 <= rest < 100,
            hundreds >= 0,
            0 <= p <= 100,
    ;
    assert(hundreds * p + rest * p / 100 <= 100 * hundreds + rest && hundreds * p >= 0 && rest * p
        >= 0 && hundreds * p <= 100 * hundreds && rest * p <= 100 * rest) by (nonlinear_arith)
        requires
            0 <= rest < 100,
            hundreds >= 0,
            0 <= p <= 100,
    ;
    hundreds * p + rest * p / 100
}

/// The pool that the winners of a claim share, from the claim's whole
/// stake. Refused with `NegativeAmount` if the total is negative.
pub fn reward_pool(total_stake: i128) -> (r: Result<i128, Error>)
    ensures
        r == (if total_stake < 0 {
            Err::<i128, Error>(Error::NegativeAmount)
        } else {
            Ok(reward_pool_of(total_stake as int) as i128)
        }),
        r matches Ok(pool) ==> 0 <= pool <= total_stake && pool == reward_pool_of(
            total_stake as int,
        ),
{
    if total_stake < 0 {
        return Err(Error::NegativeAmount);
    }
    Ok(percent_of(total_stake, REWARD_PERCENTAGE))
}

/// The penalty of a losing review, from its stake. Refused with
/// `NegativeAmount` if the stake is negative.
pub fn slash_amount(stake: i128) -> (r: Result<i128, Error>)
    ensures
        r == (if stake < 0 {
            Err::<i128, Error>(Error::NegativeAmount)
        } else {
            Ok(slash_of(stake as int) as i128)
        }),
        r matches Ok(cut) ==> 0 <= cut <= stake && cut == slash_of(stake as int),
{
    if stake < 0 {
        return Err(Error::NegativeAmount);
    }
    Ok(percent_of(stake, SLASH_PERCENTAGE))
}

/// The answer of [`proportional_reward`] as a mathematical value.
pub open spec fn reward_outcome(stake: int, pool: int, winning_stake: int) -> Result<i128, Error> {
    if stake < 0 || pool < 0 || winning_stake < 0 {
        Err(Error::NegativeAmount)
    } else if winning_stake == 0 {
        Err(Error::DivisionByZero)
    } else if stake * pool > i128::MAX {
        Err(Error::Overflow)
    } else {
        Ok(reward_of(stake, pool, winning_stake) as i128)
    }
}

/// What is within 128 bits stays there when divided by a positive number.
pub proof fn lemma_reward_bounds(stake: int, pool: int, winning_stake: int)
    requires
        stake >= 0,
        pool >= 0,
        winning_stake > 0,
    ensures
        0 <= reward_of(stake, pool, winning_stake) <= stake * pool,
        stake <= winning_stake ==> reward_of(stake, pool, winning_stake) <= pool,
{
    assert(stake * pool >= 0) by (nonlinear_arith)
        requires
            stake >= 0,
            pool >= 0,
    ;
    let product = stake * pool;
    assert(0 <= product / winning_stake <= product) by (nonlinear_arith)
        requires
            product >= 0,
            winning_stake > 0,
    ;
    if stake <= winning_stake {
        assert(stake * pool <= winning_stake * pool) by (nonlinear_arith)
            requires
                0 <= stake <= winning_stake,
                pool >= 0,
        ;
        assert(product / winning_stake <= pool) by (nonlinear_arith)
            requires
                product <= winning_stake * pool,
                winning_stake > 0,
                product >= 0,
        ;
    }
}

/// The reward of a winning review: its part of the pool, by its part of the
/// winning stake.
///
/// Refused, in this order: with `NegativeAmount` if an argument is negative;
/// with `DivisionByZero` if the winning stake is zero; with `Overflow` if the
/// product of stake and pool does not fit in 128 bits.
pub fn proportional_reward(stake: i128, pool: i128, winning_stake: i128) -> (r: Result<i128, Error>)
    ensures
        r == reward_outcome(stake as int, pool as int, winning_stake as int),
        r matches Ok(reward) ==> reward == reward_of(
            stake as int,
            pool as int,
            winning_stake as int,
        ),
{
    if stake < 0 || pool < 0 || winning_stake < 0 {
        return Err(Error::NegativeAmount);
    }
    if winning_stake == 0 {
        return Err(Error::DivisionByZero);
    }
    proof {
        lemma_reward_bounds(stake as int, pool as int, winning_stake as int);
    }
    match stake.checked_mul(pool) {
        Some(product) => Ok(product / winning_stake),
        None => Err(Error::Overflow),
    }
}

} // verus!
