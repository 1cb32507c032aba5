use trade_edge::trade::{Delay, DelayUnit, Trade, TradeQuery, CONTRACT_ADDRESS, TRADE_EVENT_SIGNATURE};
use trade_edge::word::Word256;

fn selector() -> [u8; 32] {
    alloy_primitives::keccak256(TRADE_EVENT_SIGNATURE.as_bytes()).0
}

fn body(id_last: u8, hash_first: u8) -> Vec<u8> {
    let mut data = vec![0u8; 64];
    data[31] = id_last;
    data[32] = hash_first;
    data
}

#[test]
fn decode_reads_id_and_hash_from_the_body() {
    let topics = selector().to_vec();
    let trade = Trade::decode(7, &CONTRACT_ADDRESS, &topics, &body(42, 0xab)).expect("a trade");
    assert_eq!(trade.block_number(), 7);
    let mut id = [0u8; 32];
    id[31] = 42;
    assert_eq!(trade.id().bytes, id);
    let mut hash = [0u8; 32];
    hash[0] = 0xab;
    assert_eq!(trade.hash().bytes, hash);
}

#[test]
fn decode_refuses_other_addresses() {
    let topics = selector().to_vec();
    let mut address = CONTRACT_ADDRESS;
    address[19] ^= 1;
    assert!(Trade::decode(7, &address, &topics, &body(1, 1)).is_none());
}

#[test]
fn decode_refuses_other_events() {
    let mut topics = selector().to_vec();
    topics[0] ^= 0xff;
    assert!(Trade::decode(7, &CONTRACT_ADDRESS, &topics, &body(1, 1)).is_none());
}

#[test]
fn decode_refuses_logs_without_topics() {
    assert!(Trade::decode(7, &CONTRACT_ADDRESS, &[], &body(1, 1)).is_none());
}

#[test]
fn decode_ignores_further_topics() {
    let mut topics = selector().to_vec();
    topics.extend_from_slice(&[9u8; 32]);
    assert!(Trade::decode(7, &CONTRACT_ADDRESS, &topics, &body(1, 1)).is_some());
}

#[test]
fn decode_refuses_bodies_of_other_lengths() {
    let topics = selector().to_vec();
    assert!(Trade::decode(7, &CONTRACT_ADDRESS, &topics, &[0u8; 63]).is_none());
    assert!(Trade::decode(7, &CONTRACT_ADDRESS, &topics, &[0u8; 65]).is_none());
    assert!(Trade::decode(7, &CONTRACT_ADDRESS, &topics, &[]).is_none());
}

#[test]
fn split_topics_cuts_every_32_bytes() {
    let mut topics = vec![1u8; 32];
    topics.extend_from_slice(&[2u8; 32]);
    let words = trade_edge::trade::split_topics(&topics);
    assert_eq!(words.len(), 2);
    assert_eq!(words[0].bytes, [1u8; 32]);
    assert_eq!(words[1].bytes, [2u8; 32]);
}

#[test]
fn claim_copies_the_trade() {
    let trade = Trade { block_number: 3, id: Word256::from_u64(5), hash: Word256::from_u64(6) };
    let q = TradeQuery::claim(&trade, "alice".to_string());
    assert_eq!(q.block_number, 3);
    assert_eq!(q.id.bytes, Word256::from_u64(5).bytes);
    assert_eq!(q.hash.bytes, Word256::from_u64(6).bytes);
    assert_eq!(q.user, "alice");
}

#[test]
fn delay_units_follow_thresholds() {
    assert_eq!(Delay(0).unit(), DelayUnit::Nanoseconds);
    assert_eq!(Delay(999).unit(), DelayUnit::Nanoseconds);
    assert_eq!(Delay(1_000).unit(), DelayUnit::Microseconds);
    assert_eq!(Delay(999_999).unit(), DelayUnit::Microseconds);
    assert_eq!(Delay(1_000_000).unit(), DelayUnit::Milliseconds);
    assert_eq!(Delay(999_999_999).unit(), DelayUnit::Milliseconds);
    assert_eq!(Delay(1_000_000_000).unit(), DelayUnit::Seconds);
    assert_eq!(Delay(u64::MAX).unit(), DelayUnit::Seconds);
}

#[test]
fn delay_unit_symbols_and_sizes() {
    assert_eq!(DelayUnit::Nanoseconds.symbol(), "ns");
    assert_eq!(DelayUnit::Microseconds.symbol(), "us");
    assert_eq!(DelayUnit::Milliseconds.symbol(), "ms");
    assert_eq!(DelayUnit::Seconds.symbol(), "s");
    assert_eq!(DelayUnit::Nanoseconds.nanos(), 1);
    assert_eq!(DelayUnit::Microseconds.nanos(), 1_000);
    assert_eq!(DelayUnit::Milliseconds.nanos(), 1_000_000);
    assert_eq!(DelayUnit::Seconds.nanos(), 1_000_000_000);
}

#[test]
fn words_widen_and_compare_as_numbers() {
    let w = Word256::from_u64(0x0102_0304_0506_0708);
    let mut expected = [0u8; 32];
    expected[24..].copy_from_slice(&[1, 2, 3, 4, 5, 6, 7, 8]);
    assert_eq!(w.bytes, expected);
    assert!(Word256::from_u64(255).less_than(&Word256::from_u64(256)));
    assert!(!Word256::from_u64(256).less_than(&Word256::from_u64(255)));
    assert!(!Word256::from_u64(9).less_than(&Word256::from_u64(9)));
    let mut big = [0u8; 32];
    big[0] = 1;
    assert!(Word256::from_u64(u64::MAX).less_than(&Word256::from_bytes(big)));
    assert!(Word256::from_u64(9).equals(&Word256::from_u64(9)));
    assert!(!Word256::from_u64(9).equals(&Word256::from_u64(8)));
}

#[test]
fn words_and_byte_by_byte() {
    let a = Word256::from_bytes([0b1100u8; 32]);
    let b = Word256::from_bytes([0b1010u8; 32]);
    assert_eq!(a.and(&b).bytes, [0b1000u8; 32]);
}

#[test]
fn decode_passes_over_other_addresses_with_ragged_topics() {
    assert!(Trade::decode(0, &[0u8; 20], &[0u8; 31], &[]).is_none());
}
