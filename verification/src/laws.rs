use vstd::prelude::*;

use vstd::arithmetic::div_mod::{lemma_div_by_multiple, lemma_div_is_ordered};
use vstd::arithmetic::mul::lemma_mul_inequality;

use crate::account::AccountId;
use crate::rewards::{spec_reward, RewardsProgram, BPS_DIVISOR, MAX_REWARD_RATE_BPS};

verus! {

/// For every amount and every rate within policy, the computed reward is
/// never negative and never exceeds the amount itself.
pub proof fn lemma_reward_within_amount(amount: u64, rate: u16)
    requires
        rate <= MAX_REWARD_RATE_BPS,
    ensures
        0 <= spec_reward(amount, rate),
        spec_reward(amount, rate) <= amount,
{
    lemma_mul_inequality(rate as int, BPS_DIVISOR as int, amount as int);
    lemma_div_is_ordered(
        (amount as int) * (rate as int),
        (amount as int) * (BPS_DIVISOR as int),
        BPS_DIVISOR as int,
    );
    lemma_div_by_multiple(amount as int, BPS_DIVISOR as int);
}

/// Conservation: in every well-formed system state, a user's lifetime
/// earnings split exactly into what they have redeemed and what they still
/// hold on the ledger. (The model has no transfers outside the program, so
/// every reward token a user holds was issued to them here.)
pub proof fn lemma_conservation(s: RewardsProgram, user: AccountId)
    requires
        s.wf(),
    ensures
        s.earned(user) as int - s.redeemed(user) as int == s.balance_of(user) as int,
        s.redeemed(user) <= s.earned(user),
{
}

} // verus!
