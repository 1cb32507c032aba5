//! The referee server's rules: which claims of a trade are valid, who claimed a
//! trade first, and which claimed trades a live subscriber is still owed.

use vstd::prelude::*;
use crate::trade::TradeQuery;
use crate::word::{bytes_and, keccak256, keccak256_digest, pow256, u64_word_bytes, Word256};

verus! {

/// The value of a hexadecimal digit, in either case.
pub open spec fn hex_digit(c: char) -> Option<nat> {
    if '0' <= c && c <= '9' {
        Some((c as nat - '0' as nat) as nat)
    } else if 'a' <= c && c <= 'f' {
        Some((c as nat - 'a' as nat + 10) as nat)
    } else if 'A' <= c && c <= 'F' {
        Some((c as nat - 'A' as nat + 10) as nat)
    } else {
        None
    }
}

/// The number that a string of hexadecimal digits denotes, underscores
/// skipped; `None` if another character occurs.
pub open spec fn hex_number(s: Seq<char>) -> Option<nat>
    decreases s.len(),
{
    if s.len() == 0 {
        Some(0)
    } else {
        match hex_number(s.drop_last()) {
            None => None,
            Some(v) => if s.last() == '_' {
                Some(v)
            } else {
                match hex_digit(s.last()) {
                    Some(d) => Some(v * 16 + d),
                    None => None,
                }
            },
        }
    }
}

/// `alloy_primitives::U256::from_str_radix(s, 16)`.
///
/// Claims what its documentation and source give: the case-insensitive hex
/// digits are read with `_` skipped, any other character is refused, and so is a
/// number of 256 bits or more.
#[verifier::external_body]
fn u256_from_hex(s: &str) -> (w: Option<Word256>)
    ensures
        w is Some <==> (hex_number(s@) is Some && hex_number(s@)->0 < pow256(32)),
        w matches Some(x) ==> x.value() == hex_number(s@)->0,
{
    match alloy_primitives::U256::from_str_radix(s, 16) {
        Ok(v) => Some(Word256 { bytes: v.to_be_bytes::<32>() }),
        Err(_) => None,
    }
}

/// What the referee keeps fixed while it runs.
#[derive(Clone, Copy, Debug)]
pub struct RefereeConfig {
    /// The secret that a valid claim's hash commits to.
    pub secret: Word256,
    /// Claims of trades with smaller ids are refused.
    pub min_trade_id: Word256,
}

impl RefereeConfig {
    /// The configuration from the secret in hexadecimal and the smallest trade id
    /// accepted; `None` when the secret is no hexadecimal number below `2^256`.
    pub fn from_args(secret_hex: &str, min_trade_id: u64) -> (config: Option<RefereeConfig>)
        ensures
            config is Some <==> (hex_number(secret_hex@) is Some && hex_number(secret_hex@)->0 < pow256(32)),
            config matches Some(c) ==> {
                &&& c.secret.value() == hex_number(secret_hex@)->0
                &&& c.min_trade_id@ == u64_word_bytes(min_trade_id)
                &&& c.min_trade_id.value() == min_trade_id
            },
    {
        match u256_from_hex(secret_hex) {
            Some(secret) => Some(RefereeConfig { secret, min_trade_id: Word256::from_u64(min_trade_id) }),
            None => None,
        }
    }
}

/// Whether `hash` answers the trade's puzzle: it must be the Keccak-256 digest of
/// the byte-wise AND of the trade's id, its block number and the secret.
pub open spec fn valid_response(secret: Seq<u8>, block_number: u64, id: Seq<u8>, hash: Seq<u8>) -> bool {
    keccak256_digest(bytes_and(bytes_and(id, u64_word_bytes(block_number)), secret)) == hash
}

/// Byte-wise AND of three bytes does not depend on which comes first or last.
proof fn lemma_and3_swap(a: u8, b: u8, c: u8)
    ensures
        (a & b) & c == (c & b) & a,
{
    assert((a & b) & c == (c & b) & a) by (bit_vector);
}

/// The trade id and the secret play the same part in the puzzle: swapping them
/// leaves the valid answers unchanged.
pub proof fn lemma_response_id_secret_swap(secret: Seq<u8>, block_number: u64, id: Seq<u8>, hash: Seq<u8>)
    requires
        secret.len() == 32,
        id.len() == 32,
    ensures
        valid_response(secret, block_number, id, hash) == valid_response(id, block_number, secret, hash),
{
    let b = u64_word_bytes(block_number);
    let x = bytes_and(bytes_and(id, b), secret);
    let y = bytes_and(bytes_and(secret, b), id);
    assert forall|i: int| 0 <= i < 32 implies x[i] == y[i] by {
        lemma_and3_swap(id[i], b[i], secret[i]);
    }
    assert(x =~= y);
}

/// The secret is part of the puzzle: when the id and the block number keep
/// every bit of the secret, the one valid answer is the digest of the secret
/// itself; with the secret zero, it is the digest of the zero word, whatever the
/// trade and block.
pub proof fn lemma_response_masks_with_secret(secret: Seq<u8>, block_number: u64, id: Seq<u8>, hash: Seq<u8>)
    requires
        secret.len() == 32,
        id.len() == 32,
    ensures
        (forall|i: int| 0 <= i < 32 ==> (#[trigger] (id[i] & u64_word_bytes(block_number)[i]) & secret[i]) == secret[i])
            ==> (valid_response(secret, block_number, id, hash) <==> hash == keccak256_digest(secret)),
        secret == Seq::new(32, |i: int| 0u8) ==> (valid_response(secret, block_number, id, hash) <==> hash
            == keccak256_digest(Seq::new(32, |i: int| 0u8))),
{
    let b = u64_word_bytes(block_number);
    let x = bytes_and(bytes_and(id, b), secret);
    if forall|i: int| 0 <= i < 32 ==> (#[trigger] (id[i] & u64_word_bytes(block_number)[i]) & secret[i]) == secret[i] {
        assert forall|i: int| 0 <= i < 32 implies x[i] == secret[i] by {
            assert((id[i] & b[i]) & secret[i] == secret[i]);
        }
        assert(x =~= secret);
    }
    if secret == Seq::new(32, |i: int| 0u8) {
        assert forall|i: int| 0 <= i < 32 implies x[i] == 0u8 by {
            let v = id[i] & b[i];
            assert(v & 0u8 == 0u8) by (bit_vector);
        }
        assert(x =~= Seq::new(32, |i: int| 0u8));
    }
}

/// The block number plays the same part as a trade id of the same value:
/// swapping the two leaves the valid answers unchanged; and with the id and the
/// secret all ones, the one valid answer is the digest of the block number's
/// 32-byte big-endian word.
pub proof fn lemma_response_block_counts(secret: Seq<u8>, block_number: u64, other: u64, hash: Seq<u8>)
    requires
        secret.len() == 32,
    ensures
        valid_response(secret, block_number, u64_word_bytes(other), hash) == valid_response(
            secret,
            other,
            u64_word_bytes(block_number),
            hash,
        ),
        valid_response(Seq::new(32, |i: int| 0xffu8), block_number, Seq::new(32, |i: int| 0xffu8), hash) <==> hash
            == keccak256_digest(u64_word_bytes(block_number)),
{
    let b = u64_word_bytes(block_number);
    let o = u64_word_bytes(other);
    let x = bytes_and(bytes_and(o, b), secret);
    let y = bytes_and(bytes_and(b, o), secret);
    assert forall|i: int| 0 <= i < 32 implies x[i] == y[i] by {
        let (p, q, r) = (o[i], b[i], secret[i]);
        assert((p & q) & r == (q & p) & r) by (bit_vector);
    }
    assert(x =~= y);
    let ones = Seq::new(32, |i: int| 0xffu8);
    let z = bytes_and(bytes_and(ones, b), ones);
    assert forall|i: int| 0 <= i < 32 implies z[i] == b[i] by {
        let q = b[i];
        assert((0xffu8 & q) & 0xffu8 == q) by (bit_vector);
    }
    assert(z =~= b);
}

/// Checks a claimed trade's hash against the secret.
pub fn check_response(secret: &Word256, block_number: u64, id: &Word256, hash: &Word256) -> (ok: bool)
    ensures
        ok == valid_response(secret@, block_number, id@, hash@),
{
    let masked = id.and(&Word256::from_u64(block_number)).and(secret);
    let digest = keccak256(masked.bytes.as_slice());
    digest.equals(hash)
}

/// A trade that a user claimed first, with what the server keeps of the claim.
#[derive(Clone, Debug)]
pub struct ClaimedTrade<T> {
    pub id: Word256,
    pub user: String,
    pub detail: T,
}

/// The claimed trades, in the order in which they were claimed.
pub struct TradeHistory<T> {
    pub trades: Vec<ClaimedTrade<T>>,
}

/// The referee's answer to a claim.
#[derive(Clone, Copy, Debug, PartialEq, Eq, Structural)]
pub enum TradeVerdict {
    /// The trade's id is below the smallest accepted.
    BelowMinimum,
    /// The hash does not answer the trade's puzzle.
    InvalidResponse,
    /// Someone claimed the trade before, at this position of the history.
    AlreadyClaimed { index: usize },
    /// The claim is valid and the trade still free.
    Unclaimed,
}

impl<T> TradeHistory<T> {
    /// The ids of the claimed trades, in order.
    pub open spec fn ids(self) -> Seq<Seq<u8>> {
        Seq::new(self.trades@.len(), |i: int| self.trades@[i].id@)
    }

    /// No trade was claimed twice.
    pub open spec fn wf(self) -> bool {
        forall|i: int, j: int| 0 <= i < j < self.trades@.len() ==> self.trades@[i].id@ != self.trades@[j].id@
    }

    /// Whether the trade with this id has been claimed.
    pub open spec fn is_claimed(self, id: Seq<u8>) -> bool {
        exists|i: int| 0 <= i < self.trades@.len() && self.trades@[i].id@ == id
    }

    /// The referee's answer to `query`.
    pub open spec fn verdict(self, config: RefereeConfig, query: TradeQuery) -> TradeVerdict {
        if query.id.value() < config.min_trade_id.value() {
            TradeVerdict::BelowMinimum
        } else if !valid_response(config.secret@, query.block_number, query.id@, query.hash@) {
            TradeVerdict::InvalidResponse
        } else if self.is_claimed(query.id@) {
            TradeVerdict::AlreadyClaimed {
                index: (choose|i: int| 0 <= i < self.trades@.len() && self.trades@[i].id@ == query.id@) as usize,
            }
        } else {
            TradeVerdict::Unclaimed
        }
    }

    /// An empty history.
    pub fn new() -> (h: TradeHistory<T>)
        ensures
            h.trades@.len() == 0,
            h.wf(),
    {
        TradeHistory { trades: Vec::new() }
    }

    /// The position of the claim of the trade with this id, if it was claimed.
    pub fn position(&self, id: &Word256) -> (pos: Option<usize>)
        requires
            self.wf(),
        ensures
            pos is Some <==> self.is_claimed(id@),
            pos matches Some(i) ==> i < self.trades@.len() && self.trades@[i as int].id@ == id@,
    {
        let mut i: usize = 0;
        while i < self.trades.len()
            invariant
                0 <= i <= self.trades@.len(),
                forall|k: int| 0 <= k < i ==> self.trades@[k].id@ != id@,
            decreases self.trades@.len() - i,
        {
            if self.trades[i].id.equals(id) {
                return Some(i);
            }
            i = i + 1;
        }
        None
    }

    /// Judges a claim: too small an id, a wrong hash, a trade already claimed
    /// (and where), or a valid claim of a free trade.
    pub fn judge(&self, config: &RefereeConfig, query: &TradeQuery) -> (verdict: TradeVerdict)
        requires
            self.wf(),
        ensures
            verdict == self.verdict(*config, *query),
    {
        if query.id.less_than(&config.min_trade_id) {
            return TradeVerdict::BelowMinimum;
        }
        if !check_response(&config.secret, query.block_number, &query.id, &query.hash) {
            return TradeVerdict::InvalidResponse;
        }
        match self.position(&query.id) {
            Some(index) => {
                proof {
                    let c = choose|i: int| 0 <= i < self.trades@.len() && self.trades@[i].id@ == query.id@;
                    assert(c == index as int);
                }
                TradeVerdict::AlreadyClaimed { index }
            },
            None => TradeVerdict::Unclaimed,
        }
    }

    /// Records the first claim of a trade.
    pub fn record(&mut self, id: Word256, user: String, detail: T) -> (index: usize)
        requires
            old(self).wf(),
            !old(self).is_claimed(id@),
        ensures
            final(self).wf(),
            index == old(self).trades@.len(),
            final(self).trades@ == old(self).trades@.push(ClaimedTrade { id, user, detail }),
    {
        let index = self.trades.len();
        self.trades.push(ClaimedTrade { id, user, detail });
        index
    }
}

/// The hash is checked before the history is looked at: a claim at or above the
/// smallest id whose hash is wrong is refused as invalid whatever the history
/// holds, and a claim is only ever found free or already claimed when it is at
/// or above the smallest id and its hash is right.
pub proof fn lemma_wrong_hash_refused_first<T>(
    history: TradeHistory<T>,
    other: TradeHistory<T>,
    config: RefereeConfig,
    query: TradeQuery,
)
    ensures
        config.min_trade_id.value() <= query.id.value() && !valid_response(config.secret@, query.block_number, query.id@, query.hash@)
            ==> history.verdict(config, query) == TradeVerdict::InvalidResponse,
        (history.verdict(config, query) is Unclaimed || history.verdict(config, query) is AlreadyClaimed) ==> {
            &&& config.min_trade_id.value() <= query.id.value()
            &&& valid_response(config.secret@, query.block_number, query.id@, query.hash@)
        },
        (history.verdict(config, query) is InvalidResponse) == (other.verdict(config, query) is InvalidResponse),
        (history.verdict(config, query) is BelowMinimum) == (other.verdict(config, query) is BelowMinimum),
{
}

/// Once a trade is recorded, every later valid claim of it is told who came first.
pub proof fn lemma_first_claim_wins<T>(
    history: TradeHistory<T>,
    after: TradeHistory<T>,
    config: RefereeConfig,
    claim: ClaimedTrade<T>,
    query: TradeQuery,
)
    requires
        history.wf(),
        !history.is_claimed(claim.id@),
        after.trades@ == history.trades@.push(claim),
        query.id@ == claim.id@,
        config.min_trade_id.value() <= query.id.value(),
        valid_response(config.secret@, query.block_number, query.id@, query.hash@),
    ensures
        after.wf(),
        history.verdict(config, query) == TradeVerdict::Unclaimed,
        after.verdict(config, query) == (TradeVerdict::AlreadyClaimed { index: history.trades@.len() as usize }),
{
    let n = history.trades@.len() as int;
    assert(after.trades@[n].id@ == query.id@);
    assert(after.is_claimed(query.id@));
    let c = choose|i: int| 0 <= i < after.trades@.len() && after.trades@[i].id@ == query.id@;
    if c != n {
        assert(history.trades@[c].id@ == claim.id@);
    }
}

/// Claims judged one after another, each against the history that the ones
/// before it left: a claim found `Unclaimed` is recorded, any other changes
/// nothing.
pub open spec fn judged_in_turn<T>(
    config: RefereeConfig,
    queries: Seq<TradeQuery>,
    claims: Seq<ClaimedTrade<T>>,
    histories: Seq<TradeHistory<T>>,
) -> bool {
    &&& claims.len() == queries.len()
    &&& histories.len() == queries.len() + 1
    &&& forall|j: int| #![trigger queries[j]] 0 <= j < queries.len() ==> histories[j + 1].trades@ == if histories[j].verdict(config, queries[j])
        == TradeVerdict::Unclaimed {
        histories[j].trades@.push(claims[j])
    } else {
        histories[j].trades@
    }
}

/// Every history after the first claim holds the first claim, and nothing else new.
proof fn lemma_judged_prefix<T>(
    config: RefereeConfig,
    id: Seq<u8>,
    queries: Seq<TradeQuery>,
    claims: Seq<ClaimedTrade<T>>,
    histories: Seq<TradeHistory<T>>,
    j: int,
)
    requires
        judged_in_turn(config, queries, claims, histories),
        histories[0].wf(),
        !histories[0].is_claimed(id),
        forall|i: int| 0 <= i < queries.len() ==> (#[trigger] queries[i]).id@ == id && claims[i].id@ == id,
        forall|i: int| 0 <= i < queries.len() ==> config.min_trade_id.value() <= (#[trigger] queries[i]).id.value(),
        forall|i: int| 0 <= i < queries.len() ==> valid_response(config.secret@, (#[trigger] queries[i]).block_number, queries[i].id@, queries[i].hash@),
        1 <= j <= queries.len(),
    ensures
        histories[j].trades@ == histories[0].trades@.push(claims[0]),
    decreases j,
{
    let q0 = queries[0];
    lemma_first_claim_wins(histories[0], histories[1], config, claims[0], q0);
    if j > 1 {
        lemma_judged_prefix(config, id, queries, claims, histories, j - 1);
        let q = queries[j - 1];
        lemma_first_claim_wins(histories[0], histories[j - 1], config, claims[0], q);
    }
}

/// However many valid claims of one free trade come in, judged one after
/// another, exactly one wins: the first is found `Unclaimed` and recorded, every
/// later one is told the position of that first claim, and the history gains
/// that one claim and nothing more.
pub proof fn lemma_one_winner<T>(
    config: RefereeConfig,
    id: Seq<u8>,
    queries: Seq<TradeQuery>,
    claims: Seq<ClaimedTrade<T>>,
    histories: Seq<TradeHistory<T>>,
)
    requires
        judged_in_turn(config, queries, claims, histories),
        histories[0].wf(),
        !histories[0].is_claimed(id),
        queries.len() >= 1,
        forall|i: int| 0 <= i < queries.len() ==> (#[trigger] queries[i]).id@ == id && claims[i].id@ == id,
        forall|i: int| 0 <= i < queries.len() ==> config.min_trade_id.value() <= (#[trigger] queries[i]).id.value(),
        forall|i: int| 0 <= i < queries.len() ==> valid_response(config.secret@, (#[trigger] queries[i]).block_number, queries[i].id@, queries[i].hash@),
    ensures
        forall|i: int| 0 <= i < queries.len() ==> (#[trigger] histories[i].verdict(config, queries[i]) == TradeVerdict::Unclaimed <==> i == 0),
        forall|i: int| 1 <= i < queries.len() ==> #[trigger] histories[i].verdict(config, queries[i]) == (TradeVerdict::AlreadyClaimed {
            index: histories[0].trades@.len() as usize,
        }),
        histories[queries.len() as int].trades@ == histories[0].trades@.push(claims[0]),
        histories[queries.len() as int].wf(),
{
    let n = queries.len() as int;
    lemma_first_claim_wins(histories[0], histories[1], config, claims[0], queries[0]);
    assert forall|i: int| 1 <= i < queries.len() implies #[trigger] histories[i].verdict(config, queries[i]) == (TradeVerdict::AlreadyClaimed {
        index: histories[0].trades@.len() as usize,
    }) by {
        lemma_judged_prefix(config, id, queries, claims, histories, i);
        lemma_first_claim_wins(histories[0], histories[i], config, claims[0], queries[i]);
    }
    lemma_judged_prefix(config, id, queries, claims, histories, n);
    lemma_first_claim_wins(histories[0], histories[n], config, claims[0], queries[0]);
}

/// The trades that a live subscriber has already been sent.
pub struct SeenTrades {
    pub ids: Vec<Word256>,
}

impl SeenTrades {
    /// The ids already sent.
    pub open spec fn view_set(self) -> Set<Seq<u8>> {
        Set::new(|x: Seq<u8>| exists|i: int| 0 <= i < self.ids@.len() && self.ids@[i]@ == x)
    }

    /// The trades of a snapshot of the history, which a new subscriber receives at once.
    pub fn from_history<T>(history: &TradeHistory<T>) -> (seen: SeenTrades)
        ensures
            forall|x: Seq<u8>| seen.view_set().contains(x) <==> history.is_claimed(x),
    {
        let mut ids: Vec<Word256> = Vec::new();
        let mut i: usize = 0;
        while i < history.trades.len()
            invariant
                0 <= i <= history.trades@.len(),
                ids@.len() == i,
                forall|k: int| 0 <= k < i ==> #[trigger] ids@[k]@ == history.trades@[k].id@,
            decreases history.trades@.len() - i,
        {
            ids.push(history.trades[i].id);
            i = i + 1;
        }
        let seen = SeenTrades { ids };
        assert forall|x: Seq<u8>| seen.view_set().contains(x) <==> history.is_claimed(x) by {
            if history.is_claimed(x) {
                let k = choose|k: int| 0 <= k < history.trades@.len() && history.trades@[k].id@ == x;
                assert(seen.ids@[k]@ == x);
            }
        }
        seen
    }

    /// Whether an update about trade `id` is still owed to the subscriber; the
    /// trade counts as sent from then on.
    pub fn mark_sent(&mut self, id: &Word256) -> (fresh: bool)
        ensures
            fresh == !old(self).view_set().contains(id@),
            final(self).view_set() == old(self).view_set().insert(id@),
    {
        let mut i: usize = 0;
        while i < self.ids.len()
            invariant
                0 <= i <= self.ids@.len(),
                forall|k: int| 0 <= k < i ==> self.ids@[k]@ != id@,
            decreases self.ids@.len() - i,
        {
            if self.ids[i].equals(id) {
                assert(self.view_set().insert(id@) =~= self.view_set());
                return false;
            }
            i = i + 1;
        }
        let ghost before = self.view_set();
        self.ids.push(*id);
        proof {
            assert forall|x: Seq<u8>| self.view_set().contains(x) <==> before.insert(id@).contains(x) by {
                if before.contains(x) {
                    let k = choose|k: int| 0 <= k < old(self).ids@.len() && old(self).ids@[k]@ == x;
                    assert(self.ids@[k]@ == x);
                }
                if x == id@ {
                    assert(self.ids@[self.ids@.len() - 1]@ == x);
                }
            }
            assert(self.view_set() =~= before.insert(id@));
        }
        true
    }
}

/// Whether the `k`-th update is owed to a subscriber that already had `seen`:
/// its trade is neither in `seen` nor the trade of an earlier update.
pub open spec fn owed(seen: Set<Seq<u8>>, ids: Seq<Seq<u8>>, k: int) -> bool {
    &&& !seen.contains(ids[k])
    &&& forall|j: int| 0 <= j < k ==> ids[j] != ids[k]
}

/// The sets of sent trades that marking `ids` one after another passes through.
pub open spec fn marking_chain(seen: Set<Seq<u8>>, ids: Seq<Seq<u8>>, sets: Seq<Set<Seq<u8>>>) -> bool {
    &&& sets.len() == ids.len() + 1
    &&& sets[0] == seen
    &&& forall|k: int| 0 < k <= ids.len() ==> #[trigger] sets[k] == sets[k - 1].insert(ids[k - 1])
}

/// After `k` marks, the trades sent are those seen before and the first `k` marked.
proof fn lemma_marking_chain_contents(seen: Set<Seq<u8>>, ids: Seq<Seq<u8>>, sets: Seq<Set<Seq<u8>>>, k: int)
    requires
        marking_chain(seen, ids, sets),
        0 <= k <= ids.len(),
    ensures
        forall|x: Seq<u8>| #[trigger] sets[k].contains(x) <==> (seen.contains(x) || exists|j: int| 0 <= j < k && ids[j] == x),
    decreases k,
{
    if k > 0 {
        lemma_marking_chain_contents(seen, ids, sets, k - 1);
        assert(sets[k] == sets[k - 1].insert(ids[k - 1]));
        assert forall|x: Seq<u8>| #[trigger] sets[k].contains(x) <==> (seen.contains(x) || exists|j: int| 0 <= j < k && ids[j] == x) by {
            if exists|j: int| 0 <= j < k && ids[j] == x {
                let j = choose|j: int| 0 <= j < k && ids[j] == x;
                if j < k - 1 {
                    assert(sets[k - 1].contains(x));
                }
            }
            if sets[k - 1].contains(x) && !seen.contains(x) {
                let j = choose|j: int| 0 <= j < k - 1 && ids[j] == x;
                assert(0 <= j < k && ids[j] == x);
            }
        }
    }
}

/// A subscriber is sent each update exactly when its trade is owed, so across
/// the snapshot and all updates every trade is sent at most once: marking the
/// trades of the updates one after another, as `mark_sent` does, finds the
/// `k`-th fresh exactly when it is owed, and no two fresh updates share a trade.
pub proof fn lemma_updates_sent_once(seen: Set<Seq<u8>>, ids: Seq<Seq<u8>>, sets: Seq<Set<Seq<u8>>>)
    requires
        marking_chain(seen, ids, sets),
    ensures
        forall|k: int| 0 <= k < ids.len() ==> (!sets[k].contains(ids[k]) <==> #[trigger] owed(seen, ids, k)),
        forall|j: int, k: int| 0 <= j < k < ids.len() && owed(seen, ids, j) && owed(seen, ids, k) ==> ids[j] != ids[k],
{
    assert forall|k: int| 0 <= k < ids.len() implies (!sets[k].contains(ids[k]) <==> #[trigger] owed(seen, ids, k)) by {
        lemma_marking_chain_contents(seen, ids, sets, k);
        if sets[k].contains(ids[k]) && !seen.contains(ids[k]) {
            let j = choose|j: int| 0 <= j < k && ids[j] == ids[k];
            assert(ids[j] == ids[k]);
        }
    }
}

/// The first place where `x` occurs in `s`, at or before `k`.
proof fn lemma_first_occurrence(s: Seq<Seq<u8>>, x: Seq<u8>, k: int) -> (f: int)
    requires
        0 <= k < s.len(),
        s[k] == x,
    ensures
        0 <= f <= k,
        s[f] == x,
        forall|j: int| 0 <= j < f ==> s[j] != x,
    decreases k,
{
    if exists|j: int| 0 <= j < k && s[j] == x {
        let j = choose|j: int| 0 <= j < k && s[j] == x;
        lemma_first_occurrence(s, x, j)
    } else {
        k
    }
}

/// A subscriber misses no claimed trade. It subscribes to the updates, then
/// reads the history for its snapshot; the history only grows, and every claim
/// recorded after the subscription reaches it as an update. Then every trade
/// claimed by the end is sent exactly once: in the snapshot, or as the one update
/// about it that is owed; and nothing else is sent.
pub proof fn lemma_subscriber_misses_nothing<T>(
    at_subscribe: TradeHistory<T>,
    at_read: TradeHistory<T>,
    at_end: TradeHistory<T>,
    seen: Set<Seq<u8>>,
    updates: Seq<Seq<u8>>,
)
    requires
        at_subscribe.ids().is_prefix_of(at_read.ids()),
        at_read.ids().is_prefix_of(at_end.ids()),
        forall|x: Seq<u8>| seen.contains(x) <==> at_read.is_claimed(x),
        forall|i: int| at_subscribe.trades@.len() <= i < at_end.trades@.len() ==> updates.contains(#[trigger] at_end.ids()[i]),
        forall|k: int| 0 <= k < updates.len() ==> at_end.is_claimed(#[trigger] updates[k]),
    ensures
        forall|x: Seq<u8>| at_end.is_claimed(x) <==> (seen.contains(x) || exists|k: int| 0 <= k < updates.len() && updates[k] == x && #[trigger] owed(seen, updates, k)),
        forall|k: int| 0 <= k < updates.len() && #[trigger] owed(seen, updates, k) ==> !seen.contains(updates[k]),
        forall|j: int, k: int| 0 <= j < k < updates.len() && #[trigger] owed(seen, updates, j) && #[trigger] owed(seen, updates, k) ==> updates[j] != updates[k],
{
    let ns = at_subscribe.trades@.len() as int;
    let nr = at_read.trades@.len() as int;
    assert forall|x: Seq<u8>| at_end.is_claimed(x) implies (seen.contains(x) || exists|k: int| 0 <= k < updates.len() && updates[k] == x && #[trigger] owed(seen, updates, k)) by {
        let i = choose|i: int| 0 <= i < at_end.trades@.len() && at_end.trades@[i].id@ == x;
        assert(at_end.ids()[i] == x);
        if i < nr {
            assert(at_read.ids()[i] == at_end.ids()[i]);
            assert(at_read.trades@[i].id@ == x);
        } else if !seen.contains(x) {
            assert(ns <= i);
            assert(updates.contains(at_end.ids()[i]));
            let k = choose|k: int| 0 <= k < updates.len() && updates[k] == x;
            let f = lemma_first_occurrence(updates, x, k);
            assert(owed(seen, updates, f));
        }
    }
    assert forall|x: Seq<u8>| seen.contains(x) implies at_end.is_claimed(x) by {
        let i = choose|i: int| 0 <= i < at_read.trades@.len() && at_read.trades@[i].id@ == x;
        assert(at_read.ids()[i] == x);
        assert(at_end.ids()[i] == at_read.ids()[i]);
        assert(at_end.trades@[i].id@ == x);
    }
}

} // verus!
