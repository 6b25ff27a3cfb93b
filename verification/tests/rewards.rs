use smartpay_rewards::account::AccountId;
use smartpay_rewards::errors::ErrorCode;
use smartpay_rewards::rewards::{compute_reward, RewardsProgram};

fn admin() -> AccountId {
    AccountId::new(1)
}

fn user() -> AccountId {
    AccountId::new(42)
}

fn mint_id() -> AccountId {
    AccountId::new(9)
}

/// A deployment right after `initialize_mint`, at the default 200 bps rate.
fn initialized() -> RewardsProgram {
    let mut p = RewardsProgram::new();
    let r = p.initialize_mint(mint_id(), 6, mint_id(), None, admin());
    assert!(r.is_ok());
    p
}

fn id(s: &str) -> Vec<u8> {
    s.as_bytes().to_vec()
}

#[test]
fn reward_formula_exact_values() {
    // floor(amount * rate / 10000)
    assert_eq!(compute_reward(10_000, 200), 200);
    assert_eq!(compute_reward(50, 1), 0);
    assert_eq!(compute_reward(9_999, 1000), 999);
    assert_eq!(compute_reward(1, 1000), 0);
    assert_eq!(compute_reward(0, 1000), 0);
    assert_eq!(compute_reward(u64::MAX, 1000), u64::MAX / 10);
}

#[test]
fn reward_never_exceeds_amount() {
    for amount in [0u64, 1, 49, 50, 9_999, 10_000, 123_456_789, u64::MAX] {
        for rate in [0u16, 1, 200, 999, 1000] {
            assert!(compute_reward(amount, rate) <= amount);
        }
    }
}

#[test]
fn initialize_sets_defaults() {
    let p = initialized();
    assert!(p.is_initialized());
    assert_eq!(p.reward_rate(), 200);
    assert_eq!(p.total_minted(), 0);
    assert_eq!(p.total_transactions(), 0);
    assert_eq!(p.admin(), admin());
}

#[test]
fn initialize_twice_faults() {
    let mut p = initialized();
    let r = p.initialize_mint(mint_id(), 6, mint_id(), None, admin());
    assert_eq!(r, Err(ErrorCode::AlreadyInitialized));
    assert_eq!(p.reward_rate(), 200);
}

#[test]
fn mint_rewards_happy_path() {
    let mut p = initialized();
    let ev = p.mint_rewards(user(), 10_000, id("tx-1"), 77).unwrap();
    assert_eq!(ev.user, user());
    assert_eq!(ev.transaction_id, id("tx-1"));
    assert_eq!(ev.amount, 10_000);
    assert_eq!(ev.reward_amount, 200);
    assert_eq!(ev.timestamp, 77);
    assert_eq!(p.total_minted(), 200);
    assert_eq!(p.total_transactions(), 1);
    let stats = p.get_user_stats(user());
    assert_eq!(stats.total_earned, 200);
    assert_eq!(stats.total_redeemed, 0);
    assert_eq!(stats.current_balance, 200);
    assert_eq!(stats.transaction_count, 1);
}

#[test]
fn mint_rewards_is_idempotent_per_transaction_id() {
    // rate = 200 bps: mint(10_000, "tx-1") issues 200; resubmitting "tx-1"
    // faults and every total stays put.
    let mut p = initialized();
    let ev = p.mint_rewards(user(), 10_000, id("tx-1"), 77).unwrap();
    assert_eq!(ev.reward_amount, 200);
    assert_eq!(p.total_minted(), 200);
    let r2 = p.mint_rewards(user(), 5_000, id("tx-1"), 78);
    assert_eq!(r2, Err(ErrorCode::TransactionAlreadyProcessed));
    assert_eq!(p.total_minted(), 200);
    assert_eq!(p.total_transactions(), 1);
    let stats = p.get_user_stats(user());
    assert_eq!(stats.total_earned, 200);
    assert_eq!(stats.transaction_count, 1);
    assert_eq!(stats.current_balance, 200);
}

#[test]
fn mint_rewards_distinct_ids_process_independently() {
    let mut p = initialized();
    p.mint_rewards(user(), 10_000, id("tx-1"), 1).unwrap();
    p.mint_rewards(user(), 20_000, id("tx-2"), 2).unwrap();
    assert_eq!(p.total_minted(), 600);
    assert_eq!(p.total_transactions(), 2);
    let stats = p.get_user_stats(user());
    assert_eq!(stats.total_earned, 600);
    assert_eq!(stats.transaction_count, 2);
}

#[test]
fn mint_rewards_zero_amount_faults() {
    let mut p = initialized();
    let r = p.mint_rewards(user(), 0, id("tx-1"), 1);
    assert_eq!(r, Err(ErrorCode::InvalidAmount));
    assert_eq!(p.total_transactions(), 0);
}

#[test]
fn mint_rewards_long_id_faults() {
    let mut p = initialized();
    let exactly_64 = vec![7u8; 64];
    let too_long = vec![7u8; 65];
    let r = p.mint_rewards(user(), 10_000, too_long, 1);
    assert_eq!(r, Err(ErrorCode::TransactionIdTooLong));
    assert_eq!(p.total_transactions(), 0);
    // The boundary length itself is accepted.
    let r = p.mint_rewards(user(), 10_000, exactly_64, 1);
    assert!(r.is_ok());
}

#[test]
fn mint_rewards_reward_too_small_faults_without_state_change() {
    // amount = 50 at 1 bps: floor(50 * 1 / 10000) = 0, so the request faults.
    let mut p = initialized();
    let r = p.update_reward_rate(admin(), 1);
    assert!(r.is_ok());
    let r = p.mint_rewards(user(), 50, id("tx-1"), 1);
    assert_eq!(r, Err(ErrorCode::RewardTooSmall));
    assert_eq!(p.total_minted(), 0);
    assert_eq!(p.total_transactions(), 0);
    let stats = p.get_user_stats(user());
    assert_eq!(stats.total_earned, 0);
    assert_eq!(stats.current_balance, 0);
    // The same identifier is still free afterwards.
    let r = p.update_reward_rate(admin(), 200);
    assert!(r.is_ok());
    assert!(p.mint_rewards(user(), 10_000, id("tx-1"), 2).is_ok());
}

#[test]
fn mint_rewards_counter_overflow_faults_whole_operation() {
    let mut p = initialized();
    let per_mint = compute_reward(u64::MAX, 200);
    let mut minted: u64 = 0;
    let mut n: u32 = 0;
    loop {
        let tx = format!("tx-{}", n);
        let r = p.mint_rewards(user(), u64::MAX, tx.into_bytes(), 1);
        match r {
            Ok(ev) => {
                assert_eq!(ev.reward_amount, per_mint);
                minted += per_mint;
                n += 1;
                assert!(n < 100, "overflow fault never came");
            }
            Err(e) => {
                assert_eq!(e, ErrorCode::ArithmeticOverflow);
                break;
            }
        }
    }
    // The faulted attempt changed nothing.
    assert_eq!(p.total_minted(), minted);
    assert_eq!(p.total_transactions(), n as u64);
    assert_eq!(p.get_user_stats(user()).total_earned, minted);
}

#[test]
fn redeem_rewards_happy_path() {
    let mut p = initialized();
    p.mint_rewards(user(), 10_000, id("tx-1"), 1).unwrap();
    let ev = p.redeem_rewards(user(), 150, 2).unwrap();
    assert_eq!(ev.user, user());
    assert_eq!(ev.amount, 150);
    assert_eq!(ev.timestamp, 2);
    let stats = p.get_user_stats(user());
    assert_eq!(stats.total_earned, 200);
    assert_eq!(stats.total_redeemed, 150);
    assert_eq!(stats.current_balance, 50);
}

#[test]
fn redeem_rewards_zero_amount_faults() {
    let mut p = initialized();
    p.mint_rewards(user(), 10_000, id("tx-1"), 1).unwrap();
    let r = p.redeem_rewards(user(), 0, 2);
    assert_eq!(r, Err(ErrorCode::InvalidAmount));
    assert_eq!(p.get_user_stats(user()).current_balance, 200);
}

#[test]
fn redeem_never_exceeds_balance_and_boundary_empties_it() {
    let mut p = initialized();
    p.mint_rewards(user(), 10_000, id("tx-1"), 1).unwrap();
    // One over the balance is refused, nothing changes.
    let r = p.redeem_rewards(user(), 201, 2);
    assert_eq!(r, Err(ErrorCode::InsufficientBalance));
    assert_eq!(p.get_user_stats(user()).current_balance, 200);
    assert_eq!(p.get_user_stats(user()).total_redeemed, 0);
    // Exactly the balance succeeds and leaves zero.
    let r = p.redeem_rewards(user(), 200, 3);
    assert!(r.is_ok());
    let stats = p.get_user_stats(user());
    assert_eq!(stats.current_balance, 0);
    assert_eq!(stats.total_redeemed, 200);
    // And nothing is left to redeem.
    let r = p.redeem_rewards(user(), 1, 4);
    assert_eq!(r, Err(ErrorCode::InsufficientBalance));
}

#[test]
fn redeem_with_no_history_faults() {
    let mut p = initialized();
    let r = p.redeem_rewards(user(), 1, 1);
    assert_eq!(r, Err(ErrorCode::InsufficientBalance));
}

#[test]
fn conservation_across_issuances_and_redemptions() {
    // After any sequence of issuances and redemptions,
    // totalEarned - totalRedeemed == live balance.
    let mut p = initialized();
    let check = |p: &RewardsProgram, u: AccountId| {
        let s = p.get_user_stats(u);
        assert_eq!(s.total_earned - s.total_redeemed, s.current_balance);
    };
    let other = AccountId::new(77);
    check(&p, user());
    p.mint_rewards(user(), 10_000, id("a"), 1).unwrap();
    check(&p, user());
    check(&p, other);
    p.mint_rewards(other, 50_000, id("b"), 2).unwrap();
    check(&p, user());
    check(&p, other);
    p.redeem_rewards(user(), 30, 3).unwrap();
    check(&p, user());
    p.mint_rewards(user(), 5_000, id("c"), 4).unwrap();
    check(&p, user());
    check(&p, other);
    p.redeem_rewards(other, 1_000, 5).unwrap();
    check(&p, other);
    p.redeem_rewards(user(), 270, 6).unwrap();
    check(&p, user());
    assert_eq!(p.get_user_stats(user()).current_balance, 0);
}

#[test]
fn update_reward_rate_requires_admin() {
    // A non-admin caller faults, in a fresh state and in a used one.
    let mut p = initialized();
    let stranger = AccountId::new(1000);
    let r = p.update_reward_rate(stranger, 100);
    assert_eq!(r, Err(ErrorCode::Unauthorized));
    assert_eq!(p.reward_rate(), 200);
    p.mint_rewards(user(), 10_000, id("tx-1"), 1).unwrap();
    let r = p.update_reward_rate(user(), 100);
    assert_eq!(r, Err(ErrorCode::Unauthorized));
    assert_eq!(p.reward_rate(), 200);
}

#[test]
fn update_reward_rate_bounds_and_effect() {
    let mut p = initialized();
    let r = p.update_reward_rate(admin(), 1001);
    assert_eq!(r, Err(ErrorCode::RewardRateTooHigh));
    assert_eq!(p.reward_rate(), 200);
    let r = p.update_reward_rate(admin(), 1000);
    assert!(r.is_ok());
    assert_eq!(p.reward_rate(), 1000);
    // The new rate applies only from here on.
    let ev = p.mint_rewards(user(), 10_000, id("tx-1"), 1).unwrap();
    assert_eq!(ev.reward_amount, 1000);
}

#[test]
fn get_user_stats_unknown_user_is_all_zero() {
    let p = initialized();
    let stats = p.get_user_stats(AccountId::new(555));
    assert_eq!(stats.total_earned, 0);
    assert_eq!(stats.total_redeemed, 0);
    assert_eq!(stats.current_balance, 0);
    assert_eq!(stats.transaction_count, 0);
}

#[test]
fn error_messages_name_each_fault() {
    assert_eq!(ErrorCode::InvalidAmount.message(), "Invalid amount");
    assert_eq!(ErrorCode::TransactionIdTooLong.message(), "Transaction ID too long");
    assert_eq!(
        ErrorCode::TransactionAlreadyProcessed.message(),
        "Transaction already processed"
    );
    assert_eq!(ErrorCode::RewardTooSmall.message(), "Reward amount too small");
    assert_eq!(ErrorCode::InsufficientBalance.message(), "Insufficient balance");
    assert_eq!(ErrorCode::RewardRateTooHigh.message(), "Reward rate too high");
}
