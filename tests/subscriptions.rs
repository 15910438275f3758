use streamer::{normalize_optional_text, Account, Error, Streamer, Subscription};

const SUBSCRIBER: Account = Account(10);
const SERVICE: Account = Account(20);
const TOKEN: Account = Account(99);

fn engine_with_subscription(amount: i128, interval: u64, first: u64) -> (Streamer, u32) {
    let mut engine = Streamer::new();
    let id = engine
        .create_subscription(SUBSCRIBER, SERVICE, TOKEN, amount, interval, first, None, None)
        .unwrap();
    (engine, id)
}

#[test]
fn backlog_is_settled_in_one_charge() {
    let t = 1000u64;
    let (mut engine, id) = engine_with_subscription(7, 100, t);
    assert_eq!(engine.deposit_to_subscription(id, 21), Ok(()));
    assert_eq!(engine.charge_subscription(id, t + 250), Ok(21));
    let s = engine.get_subscription(id).unwrap();
    assert_eq!(s.next_payment_time, t + 300);
    assert_eq!(s.balance, 0);
}

#[test]
fn underfunded_backlog_charge_changes_nothing() {
    let t = 1000u64;
    let (mut engine, id) = engine_with_subscription(7, 100, t);
    assert_eq!(engine.deposit_to_subscription(id, 20), Ok(()));
    assert_eq!(engine.charge_subscription(id, t + 250), Err(Error::InsufficientContractBalance));
    let s = engine.get_subscription(id).unwrap();
    assert_eq!(s.next_payment_time, t);
    assert_eq!(s.balance, 20);
}

#[test]
fn single_interval_charge() {
    let (mut engine, id) = engine_with_subscription(5, 60, 500);
    assert_eq!(engine.deposit_to_subscription(id, 12), Ok(()));
    assert_eq!(engine.charge_subscription(id, 500), Ok(5));
    assert_eq!(engine.get_subscription(id).unwrap().next_payment_time, 560);
    assert_eq!(engine.charge_subscription(id, 619), Ok(5));
    assert_eq!(engine.get_subscription(id).unwrap().next_payment_time, 620);
    assert_eq!(engine.get_subscription(id).unwrap().balance, 2);
}

#[test]
fn charge_before_due_fails() {
    let (mut engine, id) = engine_with_subscription(5, 60, 500);
    assert_eq!(engine.deposit_to_subscription(id, 100), Ok(()));
    assert_eq!(engine.charge_subscription(id, 499), Err(Error::NotDueYet));
}

#[test]
fn cancelled_subscription_refunds_and_refuses_charges() {
    let (mut engine, id) = engine_with_subscription(5, 60, 500);
    assert_eq!(engine.deposit_to_subscription(id, 40), Ok(()));
    assert_eq!(engine.cancel_subscription(id), Ok(40));
    let s = engine.get_subscription(id).unwrap();
    assert!(!s.active);
    assert_eq!(s.balance, 0);
    assert_eq!(engine.charge_subscription(id, 600), Err(Error::SubscriptionInactive));
}

#[test]
fn deposit_rejects_non_positive_amounts() {
    let (mut engine, id) = engine_with_subscription(5, 60, 500);
    assert_eq!(engine.deposit_to_subscription(id, 0), Err(Error::InvalidParameters));
    assert_eq!(engine.deposit_to_subscription(id, -3), Err(Error::InvalidParameters));
    assert_eq!(engine.get_subscription(id).unwrap().balance, 0);
}

#[test]
fn deposit_saturates_balance() {
    let (mut engine, id) = engine_with_subscription(5, 60, 500);
    assert_eq!(engine.deposit_to_subscription(id, i128::MAX - 1), Ok(()));
    assert_eq!(engine.deposit_to_subscription(id, 10), Ok(()));
    assert_eq!(engine.get_subscription(id).unwrap().balance, i128::MAX);
}

#[test]
fn unknown_subscription_is_reported() {
    let (mut engine, _) = engine_with_subscription(5, 60, 500);
    assert_eq!(engine.deposit_to_subscription(2, 5), Err(Error::SubscriptionNotFound));
    assert_eq!(engine.charge_subscription(0, 5), Err(Error::SubscriptionNotFound));
    assert_eq!(engine.cancel_subscription(9), Err(Error::SubscriptionNotFound));
    assert!(engine.get_subscription(2).is_err());
}

#[test]
fn create_subscription_rejects_bad_terms() {
    let mut engine = Streamer::new();
    let r = engine.create_subscription(SUBSCRIBER, SERVICE, TOKEN, 0, 60, 0, None, None);
    assert_eq!(r, Err(Error::InvalidParameters));
    let r = engine.create_subscription(SUBSCRIBER, SERVICE, TOKEN, 5, 0, 0, None, None);
    assert_eq!(r, Err(Error::InvalidParameters));
    let r = engine.create_subscription(SUBSCRIBER, SERVICE, TOKEN, 5, 60, 0, None, Some("d".repeat(1025)));
    assert_eq!(r, Err(Error::InvalidParameters));
    assert_eq!(engine.subscriptions.len(), 0);
}

#[test]
fn record_level_charge_matches_engine() {
    let mut s = Subscription::new(1, SUBSCRIBER, SERVICE, TOKEN, 3, 10, 0, None, None).unwrap();
    assert_eq!(s.deposit(100), Ok(()));
    assert_eq!(s.charge(35), Ok(12));
    assert_eq!(s.next_payment_time, 40);
    assert_eq!(s.balance, 88);
    assert_eq!(s.cancel(), 88);
}

#[test]
fn subscription_listings() {
    let mut engine = Streamer::new();
    let a = engine.create_subscription(SUBSCRIBER, SERVICE, TOKEN, 1, 1, 0, None, None).unwrap();
    let b = engine.create_subscription(SERVICE, SUBSCRIBER, TOKEN, 1, 1, 0, None, None).unwrap();
    let c = engine.create_subscription(SUBSCRIBER, SUBSCRIBER, TOKEN, 1, 1, 0, None, None).unwrap();
    assert_eq!(engine.get_user_subs_ids(SUBSCRIBER), vec![a, c]);
    assert_eq!(engine.get_user_rcvd_subs_ids(SUBSCRIBER), vec![b, c]);
    let ids: Vec<u32> = engine.get_user_subscriptions_all(SUBSCRIBER).iter().map(|s| s.id).collect();
    assert_eq!(ids, vec![a, c, b]);
    let ids: Vec<u32> = engine.get_user_subscriptions(SERVICE).iter().map(|s| s.id).collect();
    assert_eq!(ids, vec![b]);
    let ids: Vec<u32> = engine.get_user_received_subscriptions(SERVICE).iter().map(|s| s.id).collect();
    assert_eq!(ids, vec![a]);
}

#[test]
fn admin_settings() {
    let mut engine = Streamer::new();
    assert_eq!(engine.set_token_contract(TOKEN), Err(Error::NotInitialized));
    assert_eq!(engine.init(Account(1), Some(Account(5))), Ok(()));
    assert_eq!(engine.token_contract, Some(Account(5)));
    assert_eq!(engine.init(Account(2), None), Err(Error::AlreadyInitialized));
    assert_eq!(engine.platform_admin, Some(Account(1)));
    assert_eq!(engine.set_token_contract(TOKEN), Ok(()));
    assert_eq!(engine.token_contract, Some(TOKEN));
}

#[test]
fn optional_text_normalization() {
    assert_eq!(normalize_optional_text(None, 3), Ok(None));
    assert_eq!(normalize_optional_text(Some(String::new()), 3), Ok(None));
    assert_eq!(normalize_optional_text(Some("abc".to_string()), 3), Ok(Some("abc".to_string())));
    assert_eq!(normalize_optional_text(Some("abcd".to_string()), 3), Err(Error::InvalidParameters));
    assert_eq!(normalize_optional_text(Some("éé".to_string()), 3), Err(Error::InvalidParameters));
}
