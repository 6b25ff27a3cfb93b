use smartpay_rewards::account::AccountId;
use smartpay_rewards::locator::{
    locate, program_state_key, transaction_key, user_rewards_key, verify_key,
};

#[test]
fn locate_is_deterministic() {
    let seeds = vec![b"transaction".to_vec(), b"tx-1".to_vec()];
    assert_eq!(locate(&seeds), locate(&seeds));
    let a = transaction_key(&b"tx-1".to_vec());
    let b = transaction_key(&b"tx-1".to_vec());
    assert_eq!(a, b);
}

#[test]
fn distinct_identifiers_get_distinct_keys() {
    let a = transaction_key(&b"tx-1".to_vec());
    let b = transaction_key(&b"tx-2".to_vec());
    assert_ne!(a, b);
    // Concatenation tricks cannot collide: the length prefix separates seeds.
    let c = transaction_key(&b"ab".to_vec());
    let d = transaction_key(&b"a".to_vec());
    assert_ne!(c, d);
}

#[test]
fn namespaces_never_collide() {
    let state = program_state_key();
    let tx = transaction_key(&Vec::new());
    let user = user_rewards_key(AccountId::new(0));
    assert_ne!(state, tx);
    assert_ne!(state, user);
    assert_ne!(tx, user);
}

#[test]
fn distinct_users_get_distinct_keys() {
    let a = user_rewards_key(AccountId::new(3));
    let b = user_rewards_key(AccountId::new(4));
    assert_ne!(a, b);
}

#[test]
fn a_key_is_its_own_derivation_proof() {
    let seeds = vec![b"user_rewards".to_vec(), vec![0, 0, 0, 0, 0, 0, 0, 42]];
    let key = locate(&seeds);
    assert!(verify_key(&key, &seeds));
    assert_eq!(key, user_rewards_key(AccountId::new(42)));
    let mut tampered = key.clone();
    let last = tampered.len() - 1;
    tampered[last] ^= 1;
    assert!(!verify_key(&tampered, &seeds));
}
