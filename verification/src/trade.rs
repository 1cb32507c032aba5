//! Trades of the contract: decoding them from its event logs, the query that
//! claims one, and the delay that a late claim is told.

use vstd::prelude::*;
use vstd::string::StringSliceAdditionalSpecFns;
use crate::word::{keccak256, keccak256_digest, Word256};

verus! {

/// The address of the contract whose `Trade` events the bot trades on.
pub const CONTRACT_ADDRESS: [u8; 20] = [
    0x6b, 0x0a, 0xe1, 0x2c, 0x4f, 0xd0, 0xda, 0x4d, 0xfb, 0xef,
    0x4c, 0x21, 0x84, 0xb9, 0x4d, 0x51, 0xef, 0x74, 0x39, 0xd3,
];

/// The canonical signature of the contract's `Trade` event, whose data holds
/// the trade's id and hash.
pub const TRADE_EVENT_SIGNATURE: &'static str = "Trade(uint256,bytes32)";

/// The first topic of every `Trade` log: the Keccak-256 digest of the event's signature.
pub open spec fn trade_event_selector() -> Seq<u8> {
    keccak256_digest(TRADE_EVENT_SIGNATURE.spec_bytes())
}

/// The 32-byte topics that a flat topic buffer holds, in order.
pub open spec fn topic_words(topics: Seq<u8>) -> Seq<Seq<u8>> {
    Seq::new(topics.len() / 32, |i: int| topics.subrange(32 * i, 32 * i + 32))
}

/// Whether a log of the contract at `address` with these topics and data is a `Trade` event.
pub open spec fn is_trade_log(address: Seq<u8>, topics: Seq<u8>, data: Seq<u8>) -> bool {
    &&& address == CONTRACT_ADDRESS@
    &&& topic_words(topics).len() >= 1
    &&& topic_words(topics)[0] == trade_event_selector()
    &&& data.len() == 64
}

/// A trade that the contract announced in a block.
#[derive(Clone, Copy, Debug)]
pub struct Trade {
    pub block_number: u64,
    pub id: Word256,
    pub hash: Word256,
}

/// Splits a flat topic buffer into its 32-byte topics.
pub fn split_topics(topics: &[u8]) -> (words: Vec<Word256>)
    requires
        topics@.len() % 32 == 0,
    ensures
        words@.len() == topic_words(topics@).len(),
        forall|i: int| 0 <= i < words@.len() ==> #[trigger] words@[i]@ == topic_words(topics@)[i],
{
    let total = topics.len();
    let n = total / 32;
    let mut words: Vec<Word256> = Vec::new();
    let mut i: usize = 0;
    while i < n
        invariant
            0 <= i <= n,
            n == topics@.len() / 32,
            total == topics@.len(),
            words@.len() == i,
            forall|k: int| 0 <= k < i ==> #[trigger] words@[k]@ == topic_words(topics@)[k],
        decreases n - i,
    {
        let ghost len = topics@.len();
        assert(32 * i + 32 <= len) by (nonlinear_arith)
            requires
                i < n,
                n == len / 32,
        ;
        let base = 32 * i;
        let mut bytes = [0u8; 32];
        let mut j: usize = 0;
        while j < 32
            invariant
                0 <= j <= 32,
                0 <= i < n,
                base == 32 * i,
                32 * i + 32 <= topics@.len(),
                n == topics@.len() / 32,
                bytes@.len() == 32,
                forall|k: int| 0 <= k < j ==> bytes@[k] == topics@[32 * i + k],
            decreases 32 - j,
        {
            bytes[j] = topics[base + j];
            j = j + 1;
        }
        assert(bytes@ =~= topic_words(topics@)[i as int]);
        words.push(Word256 { bytes });
        i = i + 1;
    }
    words
}

/// The `(uint256, bytes32)` body of a log, ABI-decoded with validation by
/// `alloy_sol_types::SolType::abi_decode_sequence`.
///
/// Claims what that decoder does on two static words: it accepts exactly the
/// 64-byte buffers, and reads the two words in order.
#[verifier::external_body]
fn abi_decode_word_pair(data: &[u8]) -> (fields: Option<(Word256, Word256)>)
    ensures
        fields is Some <==> data@.len() == 64,
        fields matches Some(f) ==> f.0@ == data@.subrange(0, 32) && f.1@ == data@.subrange(32, 64),
{
    match <(
        alloy_sol_types::sol_data::Uint<256>,
        alloy_sol_types::sol_data::FixedBytes<32>,
    ) as alloy_sol_types::SolType>::abi_decode_sequence(data, true) {
        Ok((id, hash)) => Some((Word256 { bytes: id.to_be_bytes::<32>() }, Word256 { bytes: hash.0 })),
        Err(_) => None,
    }
}

impl Trade {
    /// Decodes a `Trade` event that the contract logged in block `block_number`:
    /// `None` for a log of another address or another event, or with a malformed body.
    pub fn decode(block_number: u64, address: &[u8; 20], topics: &[u8], data: &[u8]) -> (trade: Option<Trade>)
        requires
            address@ == CONTRACT_ADDRESS@ ==> topics@.len() % 32 == 0,
        ensures
            trade is Some <==> is_trade_log(address@, topics@, data@),
            trade matches Some(t) ==> {
                &&& t.block_number == block_number
                &&& t.id@ == data@.subrange(0, 32)
                &&& t.hash@ == data@.subrange(32, 64)
            },
    {
        let mut i: usize = 0;
        while i < 20
            invariant
                0 <= i <= 20,
                forall|k: int| 0 <= k < i ==> address@[k] == CONTRACT_ADDRESS@[k],
            decreases 20 - i,
        {
            if address[i] != CONTRACT_ADDRESS[i] {
                return None;
            }
            i = i + 1;
        }
        assert(address@ =~= CONTRACT_ADDRESS@);
        let words = split_topics(topics);
        if words.len() == 0 {
            return None;
        }
        let selector = keccak256(TRADE_EVENT_SIGNATURE.as_bytes());
        if !words[0].equals(&selector) {
            return None;
        }
        match abi_decode_word_pair(data) {
            Some((id, hash)) => Some(Trade { block_number, id, hash }),
            None => None,
        }
    }

    /// The block in which the trade was announced.
    pub fn block_number(&self) -> (n: u64)
        ensures
            n == self.block_number,
    {
        self.block_number
    }

    /// The trade's id.
    pub fn id(&self) -> (id: Word256)
        ensures
            id == self.id,
    {
        self.id
    }

    /// The trade's hash.
    pub fn hash(&self) -> (hash: Word256)
        ensures
            hash == self.hash,
    {
        self.hash
    }
}

/// The request that claims a trade on the referee server for a user.
#[derive(Clone, Debug)]
pub struct TradeQuery {
    pub block_number: u64,
    pub id: Word256,
    pub hash: Word256,
    pub user: String,
}

impl TradeQuery {
    /// The claim of `trade` on behalf of `user`.
    pub fn claim(trade: &Trade, user: String) -> (query: TradeQuery)
        ensures
            query.block_number == trade.block_number,
            query.id == trade.id,
            query.hash == trade.hash,
            query.user@ == user@,
    {
        TradeQuery { block_number: trade.block_number, id: trade.id, hash: trade.hash, user }
    }
}

/// How late a claim came, in nanoseconds.
#[derive(Clone, Copy, Debug)]
pub struct Delay(pub u64);

/// The unit in which a delay is shown.
#[derive(Clone, Copy, Debug, PartialEq, Eq, Structural)]
pub enum DelayUnit {
    Nanoseconds,
    Microseconds,
    Milliseconds,
    Seconds,
}

/// The unit that a delay of `nanos` nanoseconds is shown in: the largest one
/// in which it is at least 1, nanoseconds below a microsecond.
pub open spec fn delay_unit(nanos: u64) -> DelayUnit {
    if nanos < 1_000 {
        DelayUnit::Nanoseconds
    } else if nanos < 1_000_000 {
        DelayUnit::Microseconds
    } else if nanos < 1_000_000_000 {
        DelayUnit::Milliseconds
    } else {
        DelayUnit::Seconds
    }
}

/// Nanoseconds per unit.
pub open spec fn unit_nanos(unit: DelayUnit) -> u64 {
    match unit {
        DelayUnit::Nanoseconds => 1,
        DelayUnit::Microseconds => 1_000,
        DelayUnit::Milliseconds => 1_000_000,
        DelayUnit::Seconds => 1_000_000_000,
    }
}

impl DelayUnit {
    /// Nanoseconds per unit.
    pub fn nanos(&self) -> (n: u64)
        ensures
            n == unit_nanos(*self),
    {
        match self {
            DelayUnit::Nanoseconds => 1,
            DelayUnit::Microseconds => 1_000,
            DelayUnit::Milliseconds => 1_000_000,
            DelayUnit::Seconds => 1_000_000_000,
        }
    }

    /// The unit's symbol.
    pub fn symbol(&self) -> (s: &'static str)
        ensures
            *self == DelayUnit::Nanoseconds ==> s@ == "ns"@,
            *self == DelayUnit::Microseconds ==> s@ == "us"@,
            *self == DelayUnit::Milliseconds ==> s@ == "ms"@,
            *self == DelayUnit::Seconds ==> s@ == "s"@,
    {
        match self {
            DelayUnit::Nanoseconds => "ns",
            DelayUnit::Microseconds => "us",
            DelayUnit::Milliseconds => "ms",
            DelayUnit::Seconds => "s",
        }
    }
}

impl Delay {
    /// The unit that the delay is shown in.
    pub fn unit(&self) -> (unit: DelayUnit)
        ensures
            unit == delay_unit(self.0),
            unit_nanos(unit) <= self.0 || self.0 < 1_000,
    {
        let d = self.0;
        if d < 1_000 {
            DelayUnit::Nanoseconds
        } else if d < 1_000_000 {
            DelayUnit::Microseconds
        } else if d < 1_000_000_000 {
            DelayUnit::Milliseconds
        } else {
            DelayUnit::Seconds
        }
    }
}

} // verus!
