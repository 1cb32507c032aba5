use trade_edge::bot::{
    flatten_topics, read_notification, resolve_user, ArbitrumPool, EventTracker, ExecEvent, LogRecord,
    MonadNotification, NotificationOutcome, PollError, PollThrottle, Strategy, Token, POLL_REPEAT_COUNT, USER,
};
use trade_edge::trade::{Trade, CONTRACT_ADDRESS, TRADE_EVENT_SIGNATURE};
use trade_edge::word::Word256;

fn selector() -> Word256 {
    Word256::from_bytes(alloy_primitives::keccak256(TRADE_EVENT_SIGNATURE.as_bytes()).0)
}

fn trade_log(block_number: Option<u64>) -> LogRecord {
    let mut data = vec![0u8; 64];
    data[31] = 5;
    LogRecord { block_number, address: CONTRACT_ADDRESS, topics: vec![selector()], data }
}

fn notification(state: &str, log: LogRecord) -> MonadNotification<LogRecord> {
    MonadNotification { commit_state: state.to_string(), data: log }
}

#[test]
fn the_configured_user_wins_over_the_default() {
    assert_eq!(resolve_user(Some("ann".to_string())), "ann");
    assert_eq!(resolve_user(None), USER);
}

#[test]
fn rebalancing_claims_the_trade_at_the_trade_endpoint() {
    let pool = ArbitrumPool::new(Token::Flash, Token::USDC);
    assert_eq!(pool.token0, Token::Flash);
    assert_eq!(pool.token1, Token::USDC);
    let trade = Trade { block_number: 4, id: Word256::from_u64(8), hash: Word256::from_u64(9) };
    assert!(pool.is_unbalanced(&trade));
    let req = pool.rebalance("http://localhost:8082", &trade, "ann".to_string());
    assert_eq!(req.url, "http://localhost:8082/trade");
    assert_eq!(req.query.block_number, 4);
    assert_eq!(req.query.id.bytes, Word256::from_u64(8).bytes);
    assert_eq!(req.query.hash.bytes, Word256::from_u64(9).bytes);
    assert_eq!(req.query.user, "ann");
}

#[test]
fn the_strategy_claims_every_trade_for_its_user() {
    let s = Strategy::new(
        "ws://localhost:8081".to_string(),
        "http://arb".to_string(),
        ArbitrumPool::new(Token::Flash, Token::USDC),
        "ann".to_string(),
    );
    let trade = Trade { block_number: 1, id: Word256::from_u64(2), hash: Word256::from_u64(3) };
    let req = s.on_trade(&trade).expect("a claim");
    assert_eq!(req.url, "http://arb/trade");
    assert_eq!(req.query.user, "ann");
}

#[test]
fn only_proposed_blocks_are_read() {
    assert!(notification("Proposed", trade_log(Some(1))).is_proposed());
    assert!(!notification("Finalized", trade_log(Some(1))).is_proposed());
    assert!(matches!(
        read_notification(&notification("Voted", trade_log(Some(1)))),
        Ok(NotificationOutcome::NotProposed)
    ));
}

#[test]
fn a_log_without_block_number_is_an_error() {
    assert!(matches!(
        read_notification(&notification("Proposed", trade_log(None))),
        Err(PollError::MissingBlockNumber)
    ));
}

#[test]
fn proposed_trade_logs_are_announced() {
    match read_notification(&notification("Proposed", trade_log(Some(12)))) {
        Ok(NotificationOutcome::Announced(t)) => {
            assert_eq!(t.block_number, 12);
            assert_eq!(t.id.bytes, Word256::from_u64(5).bytes);
        }
        _ => panic!("expected a trade"),
    }
    let mut other = trade_log(Some(12));
    other.address[0] ^= 1;
    assert!(matches!(
        read_notification(&notification("Proposed", other)),
        Ok(NotificationOutcome::Undecodable)
    ));
}

#[test]
fn topics_are_laid_end_to_end() {
    let flat = flatten_topics(&vec![Word256::from_bytes([1; 32]), Word256::from_bytes([2; 32])]);
    assert_eq!(flat.len(), 64);
    assert_eq!(&flat[..32], &[1u8; 32]);
    assert_eq!(&flat[32..], &[2u8; 32]);
}

#[test]
fn trades_carry_the_latest_block_number() {
    let mut tracker = EventTracker::new();
    let log = trade_log(None);
    let txn = ExecEvent::TxnLog { address: log.address, topics: selector().bytes.to_vec(), data: log.data.clone() };
    assert!(tracker.observe(&txn).is_none());
    assert!(tracker.observe(&ExecEvent::BlockStart { number: 30 }).is_none());
    assert_eq!(tracker.current_block, Some(30));
    assert!(tracker.observe(&ExecEvent::Other).is_none());
    assert_eq!(tracker.observe(&txn).expect("a trade").block_number, 30);
    tracker.observe(&ExecEvent::BlockStart { number: 31 });
    assert_eq!(tracker.observe(&txn).expect("a trade").block_number, 31);
    let other = ExecEvent::TxnLog { address: [0; 20], topics: selector().bytes.to_vec(), data: log.data };
    assert!(tracker.observe(&other).is_none());
}

#[test]
fn idle_polls_yield_once_per_period() {
    let mut t = PollThrottle::new();
    let mut pauses = 0;
    for _ in 0..(2 * POLL_REPEAT_COUNT) {
        if t.on_idle() {
            pauses += 1;
        }
    }
    assert_eq!(pauses, 2);
    assert_eq!(t.calls, 2 * POLL_REPEAT_COUNT);
    let mut wrapping = PollThrottle { calls: u64::MAX };
    assert!(wrapping.on_idle());
    assert_eq!(wrapping.calls, 0);
}

#[test]
fn ragged_logs_are_passed_over_unless_they_could_be_trades() {
    let mut tracker = EventTracker::new();
    let ragged = ExecEvent::TxnLog { address: CONTRACT_ADDRESS, topics: vec![0u8; 31], data: vec![] };
    assert!(tracker.observe(&ragged).is_none());
    tracker.observe(&ExecEvent::BlockStart { number: 1 });
    let other = ExecEvent::TxnLog { address: [0; 20], topics: vec![0u8; 31], data: vec![] };
    assert!(tracker.observe(&other).is_none());
    assert_eq!(tracker.current_block, Some(1));
}
