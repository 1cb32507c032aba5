use trade_edge::server::{check_response, RefereeConfig, SeenTrades, TradeHistory, TradeVerdict};
use trade_edge::trade::TradeQuery;
use trade_edge::word::Word256;

fn answer(secret: &Word256, block_number: u64, id: &Word256) -> Word256 {
    let bn = Word256::from_u64(block_number);
    let mut masked = [0u8; 32];
    for i in 0..32 {
        masked[i] = id.bytes[i] & bn.bytes[i] & secret.bytes[i];
    }
    Word256::from_bytes(alloy_primitives::keccak256(masked).0)
}

fn config() -> RefereeConfig {
    RefereeConfig::from_args("ff_ff", 10).expect("a valid secret")
}

fn query(id: u64, block: u64, user: &str) -> TradeQuery {
    let c = config();
    let id = Word256::from_u64(id);
    TradeQuery { block_number: block, id, hash: answer(&c.secret, block, &id), user: user.to_string() }
}

#[test]
fn secrets_parse_as_hexadecimal() {
    let c = RefereeConfig::from_args("ff_ff", 10).unwrap();
    assert_eq!(c.secret.bytes, Word256::from_u64(0xffff).bytes);
    assert_eq!(c.min_trade_id.bytes, Word256::from_u64(10).bytes);
    assert_eq!(RefereeConfig::from_args("AbC", 0).unwrap().secret.bytes, Word256::from_u64(0xabc).bytes);
    assert_eq!(RefereeConfig::from_args("", 0).unwrap().secret.bytes, [0u8; 32]);
    assert!(RefereeConfig::from_args("0x1", 0).is_none());
    assert!(RefereeConfig::from_args("g", 0).is_none());
    let too_big = format!("1{}", "0".repeat(64));
    assert!(RefereeConfig::from_args(&too_big, 0).is_none());
    let padded = format!("{}ff", "0".repeat(70));
    assert_eq!(RefereeConfig::from_args(&padded, 0).unwrap().secret.bytes, Word256::from_u64(0xff).bytes);
    assert_eq!(RefereeConfig::from_args(&"f".repeat(64), 0).unwrap().secret.bytes, [0xffu8; 32]);
}

#[test]
fn responses_are_checked_against_the_digest() {
    let c = config();
    let id = Word256::from_u64(0x1234);
    let good = answer(&c.secret, 77, &id);
    assert!(check_response(&c.secret, 77, &id, &good));
    assert!(!check_response(&c.secret, 64, &id, &good));
    let mut bad = good;
    bad.bytes[5] ^= 1;
    assert!(!check_response(&c.secret, 77, &id, &bad));
    // the digest is not the masked word itself
    let masked = id.and(&Word256::from_u64(77)).and(&c.secret);
    assert!(!check_response(&c.secret, 77, &id, &masked));
}

#[test]
fn claims_below_the_minimum_are_refused() {
    let h: TradeHistory<u32> = TradeHistory::new();
    assert_eq!(h.judge(&config(), &query(9, 1, "a")), TradeVerdict::BelowMinimum);
    assert_eq!(h.judge(&config(), &query(10, 1, "a")), TradeVerdict::Unclaimed);
}

#[test]
fn claims_with_a_wrong_hash_are_refused() {
    let h: TradeHistory<u32> = TradeHistory::new();
    let mut q = query(11, 1, "a");
    q.hash.bytes[0] ^= 0x80;
    assert_eq!(h.judge(&config(), &q), TradeVerdict::InvalidResponse);
}

#[test]
fn the_first_claim_wins_and_later_ones_are_too_slow() {
    let mut h: TradeHistory<u32> = TradeHistory::new();
    let c = config();
    let q1 = query(11, 1, "alice");
    assert_eq!(h.judge(&c, &q1), TradeVerdict::Unclaimed);
    assert_eq!(h.record(q1.id, q1.user.clone(), 100), 0);
    let q2 = query(12, 1, "bob");
    assert_eq!(h.judge(&c, &q2), TradeVerdict::Unclaimed);
    assert_eq!(h.record(q2.id, q2.user.clone(), 200), 1);
    assert_eq!(h.judge(&c, &query(11, 1, "bob")), TradeVerdict::AlreadyClaimed { index: 0 });
    assert_eq!(h.judge(&c, &query(12, 1, "carol")), TradeVerdict::AlreadyClaimed { index: 1 });
    assert_eq!(h.trades[0].user, "alice");
    assert_eq!(h.trades[1].detail, 200);
    assert_eq!(h.position(&Word256::from_u64(12)), Some(1));
    assert_eq!(h.position(&Word256::from_u64(13)), None);
}

#[test]
fn subscribers_get_each_trade_once() {
    let mut h: TradeHistory<()> = TradeHistory::new();
    h.record(Word256::from_u64(1), "a".to_string(), ());
    let mut seen = SeenTrades::from_history(&h);
    assert!(!seen.mark_sent(&Word256::from_u64(1)));
    assert!(seen.mark_sent(&Word256::from_u64(2)));
    assert!(!seen.mark_sent(&Word256::from_u64(2)));
    assert!(seen.mark_sent(&Word256::from_u64(3)));
}

#[test]
fn of_many_claims_of_one_trade_exactly_one_wins() {
    let c = config();
    let mut h: TradeHistory<u32> = TradeHistory::new();
    h.record(Word256::from_u64(20), "zoe".to_string(), 5);
    let users = ["alice", "bob", "carol", "dave"];
    let mut winners = Vec::new();
    let mut verdicts = Vec::new();
    for (n, user) in users.iter().enumerate() {
        let q = query(21, 3, user);
        let verdict = h.judge(&c, &q);
        if verdict == TradeVerdict::Unclaimed {
            h.record(q.id, q.user.clone(), n as u32);
            winners.push(*user);
        }
        verdicts.push(verdict);
    }
    assert_eq!(winners, vec!["alice"]);
    assert_eq!(verdicts[0], TradeVerdict::Unclaimed);
    for v in &verdicts[1..] {
        assert_eq!(*v, TradeVerdict::AlreadyClaimed { index: 1 });
    }
    assert_eq!(h.trades.len(), 2);
    assert_eq!(h.trades[1].user, "alice");
    assert_eq!(h.trades[1].detail, 0);
}

#[test]
fn a_subscriber_before_the_read_misses_nothing() {
    let mut h: TradeHistory<()> = TradeHistory::new();
    h.record(Word256::from_u64(1), "a".to_string(), ());
    // subscribed here; trade 2 is claimed before the read and is broadcast too
    h.record(Word256::from_u64(2), "b".to_string(), ());
    let mut seen = SeenTrades::from_history(&h);
    h.record(Word256::from_u64(3), "c".to_string(), ());
    h.record(Word256::from_u64(4), "d".to_string(), ());
    let updates = [2u64, 3, 4];
    let sent: Vec<u64> = updates.iter().copied().filter(|&id| seen.mark_sent(&Word256::from_u64(id))).collect();
    assert_eq!(sent, vec![3, 4]);
    for id in 1..=4u64 {
        assert!(!seen.mark_sent(&Word256::from_u64(id)));
    }
}
