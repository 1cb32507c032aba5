//! The trading bot's decisions: which logs announce trades, which trades to
//! claim and how, and how often an idle poll yields the processor.

use vstd::prelude::*;
use vstd::string::StringExecFns;
use crate::trade::{is_trade_log, Trade, TradeQuery, CONTRACT_ADDRESS};
use crate::word::Word256;

verus! {

/// The user name that claims are made for when none is configured.
pub const USER: &'static str = "";

/// Every this many idle polls, the bot yields the processor.
pub const POLL_REPEAT_COUNT: u64 = 65536;

/// The user that claims are made for: the configured one, else `USER`.
pub fn resolve_user(configured: Option<String>) -> (user: String)
    ensures
        configured matches Some(u) ==> user@ == u@,
        configured is None ==> user@ == USER@,
{
    match configured {
        Some(u) => u,
        None => String::from_str(USER),
    }
}

/// A token of the pool that the bot rebalances.
#[allow(clippy::upper_case_acronyms)]
#[derive(Clone, Copy, Debug, PartialEq, Eq, Structural)]
pub enum Token {
    USDC,
    Flash,
}

/// The pool on the other chain that the bot rebalances after a trade.
#[derive(Clone, Copy, Debug)]
pub struct ArbitrumPool {
    pub token0: Token,
    pub token1: Token,
}

/// An HTTP request that claims a trade: `PUT` to `url` with `query` as its query string.
#[derive(Clone, Debug)]
pub struct RebalanceRequest {
    pub url: String,
    pub query: TradeQuery,
}

impl ArbitrumPool {
    /// The pool of two tokens.
    pub fn new(token0: Token, token1: Token) -> (pool: ArbitrumPool)
        ensures
            pool.token0 == token0,
            pool.token1 == token1,
    {
        ArbitrumPool { token0, token1 }
    }

    /// Whether a trade leaves the pool unbalanced: every trade does.
    pub fn is_unbalanced(&self, trade: &Trade) -> (unbalanced: bool)
        ensures
            unbalanced,
    {
        true
    }

    /// The request that rebalances the pool after `trade`, by claiming the
    /// trade for `user` at the `/trade` endpoint of the server at `arbitrum_url`.
    pub fn rebalance(&self, arbitrum_url: &str, trade: &Trade, user: String) -> (request: RebalanceRequest)
        ensures
            request.url@ == arbitrum_url@ + "/trade"@,
            request.query.block_number == trade.block_number,
            request.query.id == trade.id,
            request.query.hash == trade.hash,
            request.query.user@ == user@,
    {
        let mut url = String::from_str(arbitrum_url);
        url.append("/trade");
        RebalanceRequest { url, query: TradeQuery::claim(trade, user) }
    }
}

/// The bot: where it hears of trades, where it claims them, and for whom.
pub struct Strategy {
    pub monad_rpc_url: String,
    pub arbitrum_url: String,
    pub arbitrum_pool: ArbitrumPool,
    pub user: String,
}

impl Strategy {
    /// The bot for a user; a user name must be configured.
    pub fn new(monad_rpc_url: String, arbitrum_url: String, arbitrum_pool: ArbitrumPool, user: String) -> (s: Strategy)
        requires
            user@.len() > 0,
        ensures
            s.monad_rpc_url@ == monad_rpc_url@,
            s.arbitrum_url@ == arbitrum_url@,
            s.arbitrum_pool == arbitrum_pool,
            s.user@ == user@,
    {
        Strategy { monad_rpc_url, arbitrum_url, arbitrum_pool, user }
    }

    /// What the bot does on hearing of a trade: claim it when the pool is
    /// unbalanced, which it always is.
    pub fn on_trade(&self, trade: &Trade) -> (request: Option<RebalanceRequest>)
        ensures
            request matches Some(r) && {
                &&& r.url@ == self.arbitrum_url@ + "/trade"@
                &&& r.query.block_number == trade.block_number
                &&& r.query.id == trade.id
                &&& r.query.hash == trade.hash
                &&& r.query.user@ == self.user@
            },
    {
        if !self.arbitrum_pool.is_unbalanced(trade) {
            return None;
        }
        Some(self.arbitrum_pool.rebalance(self.arbitrum_url.as_str(), trade, self.user.clone()))
    }
}

/// A notification of a chain's node, with the commit state of the block it is about.
#[derive(Clone, Debug)]
pub struct MonadNotification<T> {
    pub commit_state: String,
    pub data: T,
}

impl<T> MonadNotification<T> {
    /// Whether the notification is about a proposed block.
    pub fn is_proposed(&self) -> (proposed: bool)
        ensures
            proposed == (self.commit_state@ == "Proposed"@),
    {
        let proposed = String::from_str("Proposed");
        self.commit_state == proposed
    }
}

/// The fields of a log that the bot reads.
#[derive(Clone, Debug)]
pub struct LogRecord {
    pub block_number: Option<u64>,
    pub address: [u8; 20],
    pub topics: Vec<Word256>,
    pub data: Vec<u8>,
}

/// The topics of a log, one after the other.
pub open spec fn flat_topics(topics: Seq<Word256>) -> Seq<u8>
    decreases topics.len(),
{
    if topics.len() == 0 {
        Seq::empty()
    } else {
        flat_topics(topics.drop_last()) + topics.last()@
    }
}

/// Lays the topics of a log end to end.
pub fn flatten_topics(topics: &Vec<Word256>) -> (flat: Vec<u8>)
    ensures
        flat@ == flat_topics(topics@),
        flat@.len() == 32 * topics@.len(),
{
    let mut flat: Vec<u8> = Vec::new();
    let mut i: usize = 0;
    while i < topics.len()
        invariant
            0 <= i <= topics@.len(),
            flat@ == flat_topics(topics@.take(i as int)),
            flat@.len() == 32 * i,
        decreases topics@.len() - i,
    {
        let w = topics[i];
        let mut j: usize = 0;
        let ghost start = flat@;
        while j < 32
            invariant
                0 <= j <= 32,
                w@.len() == 32,
                flat@ == start + w@.take(j as int),
            decreases 32 - j,
        {
            flat.push(w.bytes[j]);
            assert(w@.take(j + 1) =~= w@.take(j as int).push(w@[j as int]));
            j = j + 1;
        }
        assert(w@.take(32) =~= w@);
        assert(topics@.take(i + 1).drop_last() =~= topics@.take(i as int));
        i = i + 1;
    }
    assert(topics@.take(topics@.len() as int) =~= topics@);
    flat
}

/// Why polling for trades failed.
#[derive(Clone, Copy, Debug, PartialEq, Eq, Structural)]
pub enum PollError {
    /// The node closed the subscription.
    SubscriptionClosed,
    /// The subscriber fell this many notifications behind.
    Lagged(u64),
    /// A log came without the number of its block.
    MissingBlockNumber,
}

/// What a notification of a log comes to.
#[derive(Clone, Copy, Debug)]
pub enum NotificationOutcome {
    /// It is about a block that is not merely proposed; it is passed over.
    NotProposed,
    /// Its log is no `Trade` event of the contract; it is passed over.
    Undecodable,
    /// It announces this trade.
    Announced(Trade),
}

/// Reads a notification of a log: passed over unless its block is proposed,
/// refused without a block number, else decoded as a trade if it is one.
pub fn read_notification(notification: &MonadNotification<LogRecord>) -> (outcome: Result<NotificationOutcome, PollError>)
    ensures
        !(notification.commit_state@ == "Proposed"@) ==> outcome == Ok::<NotificationOutcome, PollError>(NotificationOutcome::NotProposed),
        notification.commit_state@ == "Proposed"@ ==> match notification.data.block_number {
            None => outcome == Err::<NotificationOutcome, PollError>(PollError::MissingBlockNumber),
            Some(b) => {
                let log = notification.data;
                if is_trade_log(log.address@, flat_topics(log.topics@), log.data@) {
                    outcome matches Ok(NotificationOutcome::Announced(t)) && {
                        &&& t.block_number == b
                        &&& t.id@ == log.data@.subrange(0, 32)
                        &&& t.hash@ == log.data@.subrange(32, 64)
                    }
                } else {
                    outcome == Ok::<NotificationOutcome, PollError>(NotificationOutcome::Undecodable)
                }
            },
        },
{
    if !notification.is_proposed() {
        return Ok(NotificationOutcome::NotProposed);
    }
    let log = &notification.data;
    let block_number = match log.block_number {
        Some(b) => b,
        None => return Err(PollError::MissingBlockNumber),
    };
    let topics = flatten_topics(&log.topics);
    assert((32 * log.topics@.len()) % 32 == 0) by (nonlinear_arith);
    match Trade::decode(block_number, &log.address, topics.as_slice(), log.data.as_slice()) {
        Some(trade) => Ok(NotificationOutcome::Announced(trade)),
        None => Ok(NotificationOutcome::Undecodable),
    }
}

/// An event of the execution event ring, as the bot reads it.
#[derive(Clone, Debug)]
pub enum ExecEvent {
    /// A block starts.
    BlockStart { number: u64 },
    /// A transaction of the current block logged this.
    TxnLog { address: [u8; 20], topics: Vec<u8>, data: Vec<u8> },
    /// Any other event.
    Other,
}

/// What the bot knows while it reads the event ring: the block it is in.
#[derive(Clone, Copy, Debug)]
pub struct EventTracker {
    pub current_block: Option<u64>,
}

impl EventTracker {
    /// Before the first block starts.
    pub fn new() -> (t: EventTracker)
        ensures
            t.current_block is None,
    {
        EventTracker { current_block: None }
    }

    /// Reads one event: a block start moves the tracker to that block, and a
    /// log of the current block that is a `Trade` event is announced.
    pub fn observe(&mut self, event: &ExecEvent) -> (trade: Option<Trade>)
        requires
            event matches ExecEvent::TxnLog { address, topics, .. } ==> (old(self).current_block is Some
                && address@ == CONTRACT_ADDRESS@ ==> topics@.len() % 32 == 0),
        ensures
            match *event {
                ExecEvent::BlockStart { number } => {
                    &&& final(self).current_block == Some(number)
                    &&& trade is None
                },
                ExecEvent::TxnLog { address, topics, data } => {
                    &&& final(self).current_block == old(self).current_block
                    &&& match old(self).current_block {
                        None => trade is None,
                        Some(b) => {
                            &&& trade is Some <==> is_trade_log(address@, topics@, data@)
                            &&& trade matches Some(t) ==> {
                                &&& t.block_number == b
                                &&& t.id@ == data@.subrange(0, 32)
                                &&& t.hash@ == data@.subrange(32, 64)
                            }
                        },
                    }
                },
                ExecEvent::Other => {
                    &&& final(self).current_block == old(self).current_block
                    &&& trade is None
                },
            },
    {
        match event {
            ExecEvent::BlockStart { number } => {
                self.current_block = Some(*number);
                None
            },
            ExecEvent::TxnLog { address, topics, data } => match self.current_block {
                Some(b) => Trade::decode(b, address, topics.as_slice(), data.as_slice()),
                None => None,
            },
            ExecEvent::Other => None,
        }
    }
}

/// Counts idle polls, so that one in `POLL_REPEAT_COUNT` yields the processor.
#[derive(Clone, Copy, Debug)]
pub struct PollThrottle {
    pub calls: u64,
}

impl PollThrottle {
    /// No poll yet.
    pub fn new() -> (t: PollThrottle)
        ensures
            t.calls == 0,
    {
        PollThrottle { calls: 0 }
    }

    /// Counts an idle poll (wrapping around) and says whether to yield now.
    pub fn on_idle(&mut self) -> (pause: bool)
        ensures
            final(self).calls == (old(self).calls + 1) % 0x1_0000_0000_0000_0000,
            pause == (final(self).calls % POLL_REPEAT_COUNT == 0),
    {
        self.calls = self.calls.wrapping_add(1);
        self.calls % POLL_REPEAT_COUNT == 0
    }
}

/// An idle poll pauses exactly when the poll `POLL_REPEAT_COUNT` polls before
/// it did, across the counter's wrap-around too: the bot yields once in every
/// `POLL_REPEAT_COUNT` idle polls.
pub proof fn lemma_throttle_periodic(calls: u64)
    ensures
        ((calls as int + 1) % 0x1_0000_0000_0000_0000) % (POLL_REPEAT_COUNT as int) == 0
            <==> ((calls as int + 1 + POLL_REPEAT_COUNT) % 0x1_0000_0000_0000_0000) % (POLL_REPEAT_COUNT as int) == 0,
{
    let x = calls as int + 1;
    let p = POLL_REPEAT_COUNT as int;
    assert(0x1_0000_0000_0000_0000 == p * 0x1_0000_0000_0000) by (nonlinear_arith)
        requires
            p == 65536,
    ;
    vstd::arithmetic::div_mod::lemma_mod_mod(x, p, 0x1_0000_0000_0000);
    vstd::arithmetic::div_mod::lemma_mod_mod(x + p, p, 0x1_0000_0000_0000);
    vstd::arithmetic::div_mod::lemma_mod_add_multiples_vanish(x, p);
}

} // verus!
