use streamer::{Account, Error, Streamer};

const SENDER: Account = Account(1);
const ALICE: Account = Account(2);
const BOB: Account = Account(3);
const TOKEN: Account = Account(99);

fn engine_with_stream(
    recipients: Vec<Account>,
    amounts: Vec<i128>,
    period: u64,
    deposit: i128,
    start: u64,
) -> (Streamer, u32) {
    let mut engine = Streamer::new();
    let id = engine
        .create_stream(SENDER, recipients, TOKEN, amounts, period, deposit, None, None, start)
        .unwrap();
    (engine, id)
}

#[test]
fn rate_truncating_to_zero_is_rejected() {
    let mut engine = Streamer::new();
    let r = engine.create_stream(SENDER, vec![ALICE], TOKEN, vec![5], 10, 1000, None, None, 0);
    assert_eq!(r, Err(Error::InvalidParameters));
    assert_eq!(engine.streams.len(), 0);
    let r = engine.create_stream(SENDER, vec![ALICE], TOKEN, vec![10], 10, 1000, None, None, 0);
    assert_eq!(r, Ok(1));
    assert_eq!(engine.streams[0].recipient_rate_per_second, vec![1]);
}

#[test]
fn rate_is_amount_divided_by_period() {
    let (engine, id) = engine_with_stream(vec![ALICE, BOB], vec![2592000, 95], 30, 500, 7);
    let s = engine.get_stream(id).unwrap();
    assert_eq!(s.recipient_rate_per_second, vec![86400, 3]);
    assert_eq!(s.start_time, 7);
    assert_eq!(s.recipient_last_withdraw, vec![None, None]);
    assert_eq!(s.recipient_total_withdrawn, vec![0, 0]);
    assert!(s.is_active);
}

#[test]
fn create_stream_rejects_malformed_terms() {
    let mut engine = Streamer::new();
    let cases: Vec<(Vec<Account>, Vec<i128>, u64, i128)> = vec![
        (vec![], vec![], 10, 100),
        (vec![ALICE, BOB], vec![10], 10, 100),
        (vec![ALICE, ALICE], vec![10, 10], 10, 100),
        (vec![ALICE], vec![10], 0, 100),
        (vec![ALICE], vec![10], 10, 0),
        (vec![ALICE], vec![10], 10, -5),
        (vec![ALICE], vec![-20], 10, 100),
    ];
    for (recipients, amounts, period, deposit) in cases {
        let r = engine.create_stream(SENDER, recipients, TOKEN, amounts, period, deposit, None, None, 0);
        assert_eq!(r, Err(Error::InvalidParameters));
    }
    assert_eq!(engine.streams.len(), 0);
}

#[test]
fn stream_ids_count_up_from_one() {
    let mut engine = Streamer::new();
    for expected in 1..4u32 {
        let r = engine.create_stream(SENDER, vec![ALICE], TOKEN, vec![10], 1, 100, None, None, 0);
        assert_eq!(r, Ok(expected));
    }
}

#[test]
fn withdraw_twice_at_same_instant_pays_zero_second_time() {
    let (mut engine, id) = engine_with_stream(vec![ALICE], vec![10], 1, 10000, 0);
    assert_eq!(engine.withdraw_stream(id, ALICE, 30), Ok(300));
    assert_eq!(engine.withdraw_stream(id, ALICE, 30), Ok(0));
    let s = engine.get_stream(id).unwrap();
    assert_eq!(s.recipient_total_withdrawn, vec![300]);
    assert_eq!(s.recipient_last_withdraw, vec![Some(30)]);
}

#[test]
fn two_recipients_draw_from_one_deposit() {
    let (mut engine, id) = engine_with_stream(vec![ALICE, BOB], vec![10, 20], 1, 10000, 0);
    assert_eq!(engine.withdraw_stream(id, ALICE, 100), Ok(1000));
    assert_eq!(engine.withdraw_stream(id, BOB, 100), Ok(2000));
    let s = engine.get_stream(id).unwrap();
    assert_eq!(s.recipient_total_withdrawn, vec![1000, 2000]);
    assert!(s.is_active);
}

#[test]
fn cancellation_refunds_undistributed_deposit() {
    let (mut engine, id) = engine_with_stream(vec![ALICE], vec![10], 1, 1000, 100);
    assert_eq!(engine.cancel_stream(id, 150), Ok(500));
    let s = engine.get_stream(id).unwrap();
    assert!(!s.is_active);
    assert_eq!(s.deposit, 0);
    assert_eq!(engine.withdraw_stream(id, ALICE, 150), Err(Error::StreamInactive));
    assert_eq!(engine.get_recipient_info(id, ALICE, 150), Ok((0, 0, 100)));
    assert_eq!(engine.cancel_stream(id, 160), Err(Error::StreamInactive));
}

#[test]
fn cancellation_after_depletion_refunds_nothing() {
    let (mut engine, id) = engine_with_stream(vec![ALICE], vec![10], 1, 1000, 0);
    assert_eq!(engine.cancel_stream(id, 500), Ok(0));
}

#[test]
fn exhaustion_deactivates_for_good() {
    let (mut engine, id) = engine_with_stream(vec![ALICE, BOB], vec![10, 10], 1, 150, 0);
    assert_eq!(engine.withdraw_stream(id, ALICE, 5), Ok(50));
    assert!(!engine.get_stream(id).unwrap().is_active);
    assert_eq!(engine.withdraw_stream(id, BOB, 5), Err(Error::StreamInactive));
    assert_eq!(engine.withdraw_stream(id, ALICE, 50), Err(Error::StreamInactive));
    assert_eq!(engine.withdraw_stream(id, BOB, 500), Err(Error::StreamInactive));
}

#[test]
fn payment_capped_by_remaining_deposit() {
    let (mut engine, id) = engine_with_stream(vec![ALICE], vec![10], 1, 100, 0);
    assert_eq!(engine.withdraw_stream(id, ALICE, 3), Ok(30));
    assert_eq!(engine.get_stream(id).unwrap().remaining_deposit(3), 70);
    assert_eq!(engine.withdraw_stream(id, ALICE, 4), Ok(10));
    assert_eq!(engine.get_stream(id).unwrap().remaining_deposit(4), 60);
}

#[test]
fn nothing_to_withdraw_once_rates_outrun_deposit() {
    let (mut engine, id) = engine_with_stream(vec![ALICE], vec![10], 1, 100, 0);
    assert_eq!(engine.withdraw_stream(id, ALICE, 20), Err(Error::NothingToWithdraw));
    assert_eq!(engine.withdraw_stream(id, ALICE, 10), Err(Error::NothingToWithdraw));
    assert!(engine.get_stream(id).unwrap().is_active);
}

#[test]
fn withdraw_before_start_pays_zero() {
    let (mut engine, id) = engine_with_stream(vec![ALICE], vec![10], 1, 100, 50);
    assert_eq!(engine.withdraw_stream(id, ALICE, 50), Ok(0));
}

#[test]
fn withdraw_by_stranger_or_unknown_stream_fails() {
    let (mut engine, id) = engine_with_stream(vec![ALICE], vec![10], 1, 1000, 0);
    assert_eq!(engine.withdraw_stream(id, BOB, 10), Err(Error::InvalidParameters));
    assert_eq!(engine.withdraw_stream(7, ALICE, 10), Err(Error::StreamNotFound));
    assert_eq!(engine.withdraw_stream(0, ALICE, 10), Err(Error::StreamNotFound));
    assert_eq!(engine.cancel_stream(2, 10), Err(Error::StreamNotFound));
    assert!(engine.get_stream(2).is_err());
}

#[test]
fn paid_plus_remaining_never_exceeds_deposit() {
    let (mut engine, id) = engine_with_stream(vec![ALICE, BOB], vec![3, 7], 1, 1000, 0);
    let times = [(ALICE, 10u64), (BOB, 25), (ALICE, 40), (BOB, 60), (ALICE, 99), (BOB, 99)];
    for (who, now) in times {
        let _ = engine.withdraw_stream(id, who, now);
        let s = engine.get_stream(id).unwrap();
        let paid: i128 = s.recipient_total_withdrawn.iter().sum();
        assert!(paid + s.remaining_deposit(now) <= 1000);
    }
    let _ = engine.cancel_stream(id, 120);
    let s = engine.get_stream(id).unwrap();
    let paid: i128 = s.recipient_total_withdrawn.iter().sum();
    assert!(paid + s.remaining_deposit(130) <= 1000);
}

#[test]
fn recipient_info_reports_capped_accrual() {
    let (mut engine, id) = engine_with_stream(vec![ALICE, BOB], vec![10, 20], 1, 1000, 0);
    assert_eq!(engine.get_recipient_info(id, ALICE, 10), Ok((0, 100, 0)));
    assert_eq!(engine.withdraw_stream(id, BOB, 10), Ok(200));
    assert_eq!(engine.get_recipient_info(id, BOB, 20), Ok((200, 200, 10)));
    assert_eq!(engine.get_recipient_info(id, ALICE, 30), Ok((0, 100, 0)));
    assert_eq!(engine.get_recipient_info(id, ALICE, 40), Ok((0, 0, 0)));
    assert_eq!(engine.get_recipient_info(id, SENDER, 40), Err(Error::InvalidParameters));
    assert_eq!(engine.get_recipient_info(5, ALICE, 40), Err(Error::StreamNotFound));
}

#[test]
fn all_recipients_info_in_order() {
    let (mut engine, id) = engine_with_stream(vec![ALICE, BOB], vec![10, 20], 1, 1000, 0);
    assert_eq!(engine.withdraw_stream(id, ALICE, 5), Ok(50));
    let info = engine.get_all_recipients_info(id, 10).unwrap();
    assert_eq!(info, vec![(ALICE, 50, 50, 5), (BOB, 0, 200, 0)]);
    assert_eq!(engine.get_all_recipients_info(3, 10), Err(Error::StreamNotFound));
}

#[test]
fn user_stream_listings() {
    let mut engine = Streamer::new();
    let a = engine.create_stream(SENDER, vec![ALICE], TOKEN, vec![1], 1, 10, None, None, 0).unwrap();
    let b = engine.create_stream(ALICE, vec![BOB, ALICE], TOKEN, vec![1, 1], 1, 10, None, None, 0).unwrap();
    let c = engine.create_stream(BOB, vec![SENDER], TOKEN, vec![1], 1, 10, None, None, 0).unwrap();
    assert_eq!(engine.get_user_sent_stream_ids(ALICE), vec![b]);
    assert_eq!(engine.get_user_received_stream_ids(ALICE), vec![a, b]);
    assert_eq!(engine.get_user_received_stream_ids(SENDER), vec![c]);
    let ids: Vec<u32> = engine.get_user_streams(ALICE).iter().map(|s| s.id).collect();
    assert_eq!(ids, vec![b, a]);
    let ids: Vec<u32> = engine.get_user_sent_streams(SENDER).iter().map(|s| s.id).collect();
    assert_eq!(ids, vec![a]);
    let ids: Vec<u32> = engine.get_user_received_streams(BOB).iter().map(|s| s.id).collect();
    assert_eq!(ids, vec![b]);
    assert!(engine.get_user_streams(Account(42)).is_empty());
}

#[test]
fn titles_are_normalized_on_creation() {
    let mut engine = Streamer::new();
    let id = engine
        .create_stream(SENDER, vec![ALICE], TOKEN, vec![1], 1, 10, Some(String::new()), Some("rent".to_string()), 0)
        .unwrap();
    let s = engine.get_stream(id).unwrap();
    assert_eq!(s.title, None);
    assert_eq!(s.description, Some("rent".to_string()));
    let long = "x".repeat(121);
    let r = engine.create_stream(SENDER, vec![ALICE], TOKEN, vec![1], 1, 10, Some(long), None, 0);
    assert_eq!(r, Err(Error::InvalidParameters));
}
