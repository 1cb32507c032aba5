//! The live dashboard's state: per-user profit tallies, the leaderboard, the
//! recent trades, and the flashes and rank arrows that animate them.

use vstd::prelude::*;
use crate::user_map::UserMap;

verus! {

/// How many recent trades the dashboard keeps.
pub const HISTORY_LEN: usize = 256;

/// For how many ticks a user's row flashes after a trade of theirs.
pub const FLASH_DURATION: u64 = 20;

/// For how many ticks an arrow shows a user's change of rank.
pub const RANK_ARROW_DURATION: u64 = 30;

/// What the chart shows.
#[derive(Clone, Copy, Debug, PartialEq, Eq, Structural)]
pub enum ViewMode {
    Cumulative,
    Recent,
}

impl ViewMode {
    /// The view to the left, staying at the leftmost.
    pub open spec fn prev_spec(self) -> ViewMode {
        ViewMode::Cumulative
    }

    /// The view to the right, staying at the rightmost.
    pub open spec fn next_spec(self) -> ViewMode {
        ViewMode::Recent
    }

    /// The view to the left, staying at the leftmost.
    pub fn prev(self) -> (v: ViewMode)
        ensures
            v == self.prev_spec(),
    {
        match self {
            ViewMode::Cumulative => ViewMode::Cumulative,
            ViewMode::Recent => ViewMode::Cumulative,
        }
    }

    /// The view to the right, staying at the rightmost.
    pub fn next(self) -> (v: ViewMode)
        ensures
            v == self.next_spec(),
    {
        match self {
            ViewMode::Cumulative => ViewMode::Recent,
            ViewMode::Recent => ViewMode::Recent,
        }
    }
}

/// Moving right then left shows the cumulative view, left then right the
/// recent view, and moving twice the same way is moving once.
pub proof fn lemma_view_navigation(v: ViewMode)
    ensures
        v.next_spec().prev_spec() == ViewMode::Cumulative,
        v.prev_spec().next_spec() == ViewMode::Recent,
        v.prev_spec().prev_spec() == v.prev_spec(),
        v.next_spec().next_spec() == v.next_spec(),
{
}

/// Which way a user's rank moved.
#[derive(Clone, Copy, Debug, PartialEq, Eq, Structural)]
pub enum RankDir {
    Up,
    Down,
}

/// The user names of a ranking, best first.
pub open spec fn ranking_names(ranking: Seq<String>) -> Seq<Seq<char>> {
    ranking.map_values(|s: String| s@)
}

/// No user occurs twice in a ranking.
pub open spec fn distinct_ranking(ranking: Seq<Seq<char>>) -> bool {
    forall|i: int, j: int| 0 <= i < j < ranking.len() ==> ranking[i] != ranking[j]
}

/// The rank of each user of a ranking: their position in it.
pub open spec fn positions(ranking: Seq<Seq<char>>) -> Map<Seq<char>, usize>
    decreases ranking.len(),
{
    if ranking.len() == 0 {
        Map::empty()
    } else {
        positions(ranking.drop_last()).insert(ranking.last(), (ranking.len() - 1) as usize)
    }
}

/// The rank changes after a new ranking: each user of the ranking whose rank
/// differs from `prev` gets an arrow up (a smaller rank) or down, dated `tick`;
/// other users keep their arrows.
pub open spec fn rank_moves(
    prev: Map<Seq<char>, usize>,
    changes: Map<Seq<char>, (RankDir, u64)>,
    ranking: Seq<Seq<char>>,
    tick: u64,
) -> Map<Seq<char>, (RankDir, u64)>
    decreases ranking.len(),
{
    if ranking.len() == 0 {
        changes
    } else {
        let before = rank_moves(prev, changes, ranking.drop_last(), tick);
        let k = ranking.last();
        let i = ranking.len() - 1;
        if prev.contains_key(k) && i < prev[k] {
            before.insert(k, (RankDir::Up, tick))
        } else if prev.contains_key(k) && i > prev[k] {
            before.insert(k, (RankDir::Down, tick))
        } else {
            before
        }
    }
}

/// What re-ranking does to the arrows. A user of a distinct ranking who now
/// stands ahead of their previous rank gets an Up arrow dated `tick`, one who
/// stands behind it a Down arrow dated `tick`; a user who keeps their rank, had
/// none, or is not in the ranking keeps whatever arrow they had, or none.
pub proof fn lemma_rank_arrows(
    prev: Map<Seq<char>, usize>,
    changes: Map<Seq<char>, (RankDir, u64)>,
    ranking: Seq<Seq<char>>,
    tick: u64,
)
    requires
        distinct_ranking(ranking),
    ensures
        forall|i: int| 0 <= i < ranking.len() && prev.contains_key(#[trigger] ranking[i]) && i < prev[ranking[i]] ==> {
            &&& rank_moves(prev, changes, ranking, tick).contains_key(ranking[i])
            &&& rank_moves(prev, changes, ranking, tick)[ranking[i]] == (RankDir::Up, tick)
        },
        forall|i: int| 0 <= i < ranking.len() && prev.contains_key(#[trigger] ranking[i]) && i > prev[ranking[i]] ==> {
            &&& rank_moves(prev, changes, ranking, tick).contains_key(ranking[i])
            &&& rank_moves(prev, changes, ranking, tick)[ranking[i]] == (RankDir::Down, tick)
        },
        forall|i: int| 0 <= i < ranking.len() && (!prev.contains_key(#[trigger] ranking[i]) || i == prev[ranking[i]]) ==> {
            &&& rank_moves(prev, changes, ranking, tick).contains_key(ranking[i]) == changes.contains_key(ranking[i])
            &&& changes.contains_key(ranking[i]) ==> rank_moves(prev, changes, ranking, tick)[ranking[i]] == changes[ranking[i]]
        },
        forall|k: Seq<char>| !ranking.contains(k) ==> {
            &&& #[trigger] rank_moves(prev, changes, ranking, tick).contains_key(k) == changes.contains_key(k)
            &&& changes.contains_key(k) ==> rank_moves(prev, changes, ranking, tick)[k] == changes[k]
        },
    decreases ranking.len(),
{
    if ranking.len() > 0 {
        let rest = ranking.drop_last();
        let n = ranking.len() - 1;
        let last = ranking.last();
        assert(distinct_ranking(rest));
        lemma_rank_arrows(prev, changes, rest, tick);
        let before = rank_moves(prev, changes, rest, tick);
        let after = rank_moves(prev, changes, ranking, tick);
        assert(!rest.contains(last)) by {
            if rest.contains(last) {
                let j = choose|j: int| 0 <= j < rest.len() && rest[j] == last;
                assert(ranking[j] == ranking[n]);
            }
        }
        assert forall|i: int| 0 <= i < n implies #[trigger] ranking[i] != last && ranking[i] == rest[i] by {
            assert(ranking[i] != ranking[n]);
        }
        assert forall|k: Seq<char>| k != last implies (#[trigger] after.contains_key(k) == before.contains_key(k)
            && (before.contains_key(k) ==> after[k] == before[k])) by {}
        assert forall|k: Seq<char>| !ranking.contains(k) implies !#[trigger] rest.contains(k) && k != last by {
            if rest.contains(k) {
                let j = choose|j: int| 0 <= j < rest.len() && rest[j] == k;
                assert(ranking[j] == k);
            }
            if k == last {
                assert(ranking[n] == k);
            }
        }
        assert forall|i: int| 0 <= i < n implies #[trigger] rest[i] == ranking[i] by {}
        assert forall|k: Seq<char>| !ranking.contains(k) implies {
            &&& #[trigger] after.contains_key(k) == changes.contains_key(k)
            &&& changes.contains_key(k) ==> after[k] == changes[k]
        } by {
            assert(!rest.contains(k) && k != last);
            assert(before.contains_key(k) == changes.contains_key(k));
        }
    }
}

/// When the animation is, and what it shows for whom.
#[derive(Clone, Debug)]
pub struct AnimationState {
    pub tick: u64,
    /// The tick of each user's latest trade.
    pub flash_map: UserMap<u64>,
    /// Each user's latest change of rank and its tick.
    pub rank_change: UserMap<(RankDir, u64)>,
    /// Each user's rank in the latest ranking.
    pub prev_ranks: UserMap<usize>,
}

impl AnimationState {
    /// Its maps are well formed.
    pub open spec fn wf(self) -> bool {
        &&& self.flash_map.wf()
        &&& self.rank_change.wf()
        &&& self.prev_ranks.wf()
    }

    /// At tick zero, with nothing to show.
    pub fn new() -> (a: AnimationState)
        ensures
            a.wf(),
            a.tick == 0,
            a.flash_map.view_map() == Map::<Seq<char>, u64>::empty(),
            a.rank_change.view_map() == Map::<Seq<char>, (RankDir, u64)>::empty(),
            a.prev_ranks.view_map() == Map::<Seq<char>, usize>::empty(),
            a.flash_map.entries@.len() == 0,
            a.rank_change.entries@.len() == 0,
            a.prev_ranks.entries@.len() == 0,
    {
        AnimationState {
            tick: 0,
            flash_map: UserMap::new(),
            rank_change: UserMap::new(),
            prev_ranks: UserMap::new(),
        }
    }

    /// The next tick.
    pub fn advance(&mut self)
        requires
            old(self).tick < u64::MAX,
        ensures
            final(self).tick == old(self).tick + 1,
            final(self).flash_map == old(self).flash_map,
            final(self).rank_change == old(self).rank_change,
            final(self).prev_ranks == old(self).prev_ranks,
    {
        self.tick = self.tick + 1;
    }

    /// How many ticks ago the user's row started flashing, if it still flashes:
    /// a flash lasts `FLASH_DURATION` ticks from the user's latest trade.
    pub fn flash_elapsed(&self, user: &String) -> (elapsed: Option<u64>)
        requires
            self.wf(),
        ensures
            elapsed is Some <==> {
                &&& self.flash_map.view_map().contains_key(user@)
                &&& self.tick >= self.flash_map.view_map()[user@]
                &&& self.tick - self.flash_map.view_map()[user@] < FLASH_DURATION
            },
            elapsed matches Some(e) ==> e == self.tick - self.flash_map.view_map()[user@],
    {
        match self.flash_map.get(user) {
            Some(t_ref) => {
                let t = *t_ref;
                if self.tick >= t && self.tick - t < FLASH_DURATION {
                    Some(self.tick - t)
                } else {
                    None
                }
            },
            None => None,
        }
    }

    /// The user's latest change of rank and how many ticks ago it was, while its
    /// arrow shows: for `RANK_ARROW_DURATION` ticks.
    pub fn rank_arrow_elapsed(&self, user: &String) -> (arrow: Option<(RankDir, u64)>)
        requires
            self.wf(),
        ensures
            arrow is Some <==> {
                &&& self.rank_change.view_map().contains_key(user@)
                &&& self.tick >= self.rank_change.view_map()[user@].1
                &&& self.tick - self.rank_change.view_map()[user@].1 < RANK_ARROW_DURATION
            },
            arrow matches Some(a) ==> {
                &&& a.0 == self.rank_change.view_map()[user@].0
                &&& a.1 == self.tick - self.rank_change.view_map()[user@].1
            },
    {
        match self.rank_change.get(user) {
            Some(change) => {
                let (dir, t) = *change;
                if self.tick < t {
                    return None;
                }
                let elapsed = self.tick - t;
                if elapsed < RANK_ARROW_DURATION {
                    Some((dir, elapsed))
                } else {
                    None
                }
            },
            None => None,
        }
    }

    /// Takes in a new ranking, best first: arrows for the users whose rank
    /// moved, and the ranking remembered for next time.
    pub fn update_ranks(&mut self, ranking: &Vec<String>)
        requires
            old(self).wf(),
            distinct_ranking(ranking_names(ranking@)),
        ensures
            final(self).wf(),
            final(self).tick == old(self).tick,
            final(self).flash_map == old(self).flash_map,
            final(self).rank_change.view_map() == rank_moves(
                old(self).prev_ranks.view_map(),
                old(self).rank_change.view_map(),
                ranking_names(ranking@),
                old(self).tick,
            ),
            final(self).prev_ranks.view_map() == positions(ranking_names(ranking@)),
    {
        let tick = self.tick;
        let ghost names = ranking_names(ranking@);
        let mut i: usize = 0;
        while i < ranking.len()
            invariant
                0 <= i <= ranking@.len(),
                names == ranking_names(ranking@),
                self.wf(),
                self.tick == tick,
                tick == old(self).tick,
                self.flash_map == old(self).flash_map,
                self.prev_ranks == old(self).prev_ranks,
                self.rank_change.view_map() == rank_moves(
                    old(self).prev_ranks.view_map(),
                    old(self).rank_change.view_map(),
                    names.take(i as int),
                    tick,
                ),
            decreases ranking@.len() - i,
        {
            let name = &ranking[i];
            assert(names.take(i + 1).drop_last() =~= names.take(i as int));
            assert(names.take(i + 1).last() == name@);
            match self.prev_ranks.get(name) {
                Some(prev_ref) => {
                    let prev_rank = *prev_ref;
                    if i < prev_rank {
                        self.rank_change.insert(name.clone(), (RankDir::Up, tick));
                    } else if i > prev_rank {
                        self.rank_change.insert(name.clone(), (RankDir::Down, tick));
                    }
                },
                None => {},
            }
            i = i + 1;
        }
        assert(names.take(ranking@.len() as int) =~= names);
        self.prev_ranks.clear();
        let ghost moved = self.rank_change;
        let mut j: usize = 0;
        while j < ranking.len()
            invariant
                0 <= j <= ranking@.len(),
                names == ranking_names(ranking@),
                distinct_ranking(names),
                self.tick == old(self).tick,
                self.flash_map == old(self).flash_map,
                self.flash_map.wf(),
                self.rank_change == moved,
                moved.wf(),
                self.prev_ranks.wf(),
                self.prev_ranks.view_map() == positions(names.take(j as int)),
            decreases ranking@.len() - j,
        {
            assert(names.take(j + 1).drop_last() =~= names.take(j as int));
            self.prev_ranks.insert(ranking[j].clone(), j);
            j = j + 1;
        }
    }
}

/// The colours that users are drawn in, assigned in turn.
#[derive(Clone, Copy, Debug, PartialEq, Eq, Structural)]
pub enum Swatch {
    Cyan,
    Yellow,
    Green,
    Magenta,
    Red,
    Blue,
    LightCyan,
    LightYellow,
    LightGreen,
    LightMagenta,
}

/// How many colours the palette has.
pub const PALETTE_LEN: usize = 10;

/// The palette, in the order in which colours are handed out.
pub open spec fn palette_spec(i: int) -> Swatch {
    if i == 0 {
        Swatch::Cyan
    } else if i == 1 {
        Swatch::Yellow
    } else if i == 2 {
        Swatch::Green
    } else if i == 3 {
        Swatch::Magenta
    } else if i == 4 {
        Swatch::Red
    } else if i == 5 {
        Swatch::Blue
    } else if i == 6 {
        Swatch::LightCyan
    } else if i == 7 {
        Swatch::LightYellow
    } else if i == 8 {
        Swatch::LightGreen
    } else {
        Swatch::LightMagenta
    }
}

/// The palette's colours are all different: the first `PALETTE_LEN` users,
/// who get its colours in turn, are told apart.
pub proof fn lemma_palette_distinct()
    ensures
        forall|i: int, j: int| 0 <= i < PALETTE_LEN && 0 <= j < PALETTE_LEN && i != j ==> #[trigger] palette_spec(i) != #[trigger] palette_spec(j),
{
}

/// The `i`-th colour of the palette.
pub fn palette(i: usize) -> (c: Swatch)
    requires
        i < PALETTE_LEN,
    ensures
        c == palette_spec(i as int),
{
    if i == 0 {
        Swatch::Cyan
    } else if i == 1 {
        Swatch::Yellow
    } else if i == 2 {
        Swatch::Green
    } else if i == 3 {
        Swatch::Magenta
    } else if i == 4 {
        Swatch::Red
    } else if i == 5 {
        Swatch::Blue
    } else if i == 6 {
        Swatch::LightCyan
    } else if i == 7 {
        Swatch::LightYellow
    } else if i == 8 {
        Swatch::LightGreen
    } else {
        Swatch::LightMagenta
    }
}

/// Where the IEEE 754 total order puts a 64-bit float, given its bits: signs
/// and magnitudes read as one signed number, so that a positive float counts
/// its bits and a negative one counts down from -1 as its magnitude grows.
pub open spec fn total_order_rank(bits: u64) -> int {
    if bits < 0x8000_0000_0000_0000 {
        bits as int
    } else {
        0x7fff_ffff_ffff_ffff - bits as int
    }
}

/// An `i64` that orders 64-bit floats, given by their bits, as the IEEE 754
/// total order does: flip the magnitude bits of a negative float.
pub fn total_order_key(bits: u64) -> (key: i64)
    ensures
        key as int == total_order_rank(bits),
{
    if bits >= 0x8000_0000_0000_0000 {
        let flipped: u64 = bits ^ 0x7fff_ffff_ffff_ffff;
        assert(bits >= 0x8000_0000_0000_0000u64 ==> (flipped as i64) as int == 0x7fff_ffff_ffff_ffff - bits as int) by (bit_vector)
            requires
                flipped == bits ^ 0x7fff_ffff_ffff_ffffu64,
        ;
        flipped as i64
    } else {
        assert(bits < 0x8000_0000_0000_0000u64 ==> (bits as i64) as int == bits as int) by (bit_vector);
        bits as i64
    }
}

/// Profit amounts as the dashboard tallies and ranks them.
pub trait Pnl: Copy {
    /// No profit.
    fn zero() -> Self;

    /// The sum of two amounts.
    fn plus(self, other: Self) -> Self;

    /// A key that orders amounts: the larger amount has the larger key.
    fn rank_key(&self) -> i64;
}

/// A user's tally.
#[derive(Debug)]
pub struct UserStats<P> {
    pub total_pnl: P,
    pub trade_count: u32,
    /// The user's total after each trade that the dashboard has seen.
    pub cumulative_pnl: Vec<P>,
}

impl<P: Pnl> UserStats<P> {
    /// No trade yet.
    pub fn new() -> (s: UserStats<P>)
        ensures
            call_ensures(P::zero, (), s.total_pnl),
            s.trade_count == 0,
            s.cumulative_pnl@.len() == 0,
    {
        UserStats { total_pnl: P::zero(), trade_count: 0, cumulative_pnl: Vec::new() }
    }

    /// A trade of the user's: the profit adds to the total, which the series records.
    pub fn record_trade(&mut self, profit: P)
        requires
            old(self).trade_count < u32::MAX,
        ensures
            call_ensures(P::plus, (old(self).total_pnl, profit), final(self).total_pnl),
            final(self).trade_count == old(self).trade_count + 1,
            final(self).cumulative_pnl@ == old(self).cumulative_pnl@.push(final(self).total_pnl),
    {
        self.total_pnl = self.total_pnl.plus(profit);
        self.trade_count = self.trade_count + 1;
        self.cumulative_pnl.push(self.total_pnl);
    }

    /// Someone else's trade: the series records the unchanged total.
    pub fn carry_forward(&mut self)
        ensures
            final(self).total_pnl == old(self).total_pnl,
            final(self).trade_count == old(self).trade_count,
            final(self).cumulative_pnl@ == old(self).cumulative_pnl@.push(old(self).total_pnl),
    {
        self.cumulative_pnl.push(self.total_pnl);
    }
}

/// The recent trades after one more: the oldest leaves beyond `HISTORY_LEN`.
pub open spec fn bounded_push<T>(history: Seq<T>, x: T) -> Seq<T> {
    let pushed = history.push(x);
    if pushed.len() > HISTORY_LEN {
        pushed.subrange(1, pushed.len() as int)
    } else {
        pushed
    }
}

/// The dashboard.
pub struct App<P> {
    /// Each user's tally, in order of their first trade.
    pub users: UserMap<UserStats<P>>,
    /// How many trades the dashboard has counted.
    pub trade_seq: usize,
    /// The only user shown, if one was asked for.
    pub user_filter: Option<String>,
    pub color_map: UserMap<Swatch>,
    pub anim: AnimationState,
    pub view_mode: ViewMode,
    /// The recent trades, oldest first.
    pub history: std::collections::VecDeque<(String, P)>,
}

/// Whether the filter lets a user's trades through.
pub open spec fn passes(filter: Option<String>, user: Seq<char>) -> bool {
    match filter {
        Some(f) => f@ == user,
        None => true,
    }
}

/// A filter shows one user and only that one: the user it names. Without a
/// filter every user is shown.
pub proof fn lemma_filter_shows_one_user(filter: String, u: Seq<char>, v: Seq<char>)
    ensures
        passes(Some(filter), filter@),
        passes(Some(filter), u) && passes(Some(filter), v) ==> u == v,
        passes(None, u),
{
}

/// Whether `board` ranks `n` entries with these keys: each entry once, larger
/// keys first, and entries of equal keys in their order.
pub open spec fn ranks_entries(board: Seq<(usize, i64)>, n: int) -> bool {
    &&& board.len() == n
    &&& forall|i: int| 0 <= i < board.len() ==> board[i].0 < n
    &&& forall|i: int, j: int| 0 <= i < j < board.len() ==> board[i].0 != board[j].0
    &&& forall|i: int, j: int| 0 <= i < j < board.len() ==> board[i].1 >= board[j].1
    &&& forall|i: int, j: int| 0 <= i < j < board.len() && board[i].1 == board[j].1 ==> board[i].0 < board[j].0
}

impl<P: Pnl> App<P> {
    /// The dashboard's invariant: every trade counted is credited to exactly one
    /// user, and every user shown passes the filter, has a colour, one value of
    /// their series per trade counted plus the start, and a series that starts
    /// at zero and ends in their total.
    pub open spec fn wf(self) -> bool {
        &&& self.users.wf()
        &&& self.color_map.wf()
        &&& self.anim.wf()
        &&& self.history@.len() <= HISTORY_LEN
        &&& count_sum(self.users.entries@) == self.trade_seq
        &&& forall|i: int| 0 <= i < self.users.entries@.len() ==> {
            let name = #[trigger] self.users.entries@[i].0;
            let s = self.users.entries@[i].1;
            &&& s.cumulative_pnl@.len() == self.trade_seq + 1
            &&& s.trade_count <= self.trade_seq
            &&& s.cumulative_pnl@.last() == s.total_pnl
            &&& call_ensures(P::zero, (), s.cumulative_pnl@[0])
            &&& self.color_map.view_map().contains_key(name@)
            &&& passes(self.user_filter, name@)
        }
    }

    /// An empty dashboard, showing only `user_filter`'s trades if given.
    pub fn new(user_filter: Option<String>) -> (app: App<P>)
        ensures
            app.wf(),
            app.users.entries@.len() == 0,
            app.trade_seq == 0,
            app.user_filter == user_filter,
            app.color_map.entries@.len() == 0,
            app.anim.tick == 0,
            app.anim.flash_map.entries@.len() == 0,
            app.anim.rank_change.entries@.len() == 0,
            app.anim.prev_ranks.entries@.len() == 0,
            app.view_mode == ViewMode::Cumulative,
            app.history@.len() == 0,
    {
        App {
            users: UserMap::new(),
            trade_seq: 0,
            user_filter,
            color_map: UserMap::new(),
            anim: AnimationState::new(),
            view_mode: ViewMode::Cumulative,
            history: std::collections::VecDeque::new(),
        }
    }

    /// Shows the view to the left.
    pub fn prev_view(&mut self)
        ensures
            final(self).view_mode == old(self).view_mode.prev_spec(),
            final(self).users == old(self).users,
            final(self).trade_seq == old(self).trade_seq,
            final(self).user_filter == old(self).user_filter,
            final(self).color_map == old(self).color_map,
            final(self).anim == old(self).anim,
            final(self).history == old(self).history,
    {
        self.view_mode = self.view_mode.prev();
    }

    /// Shows the view to the right.
    pub fn next_view(&mut self)
        ensures
            final(self).view_mode == old(self).view_mode.next_spec(),
            final(self).users == old(self).users,
            final(self).trade_seq == old(self).trade_seq,
            final(self).user_filter == old(self).user_filter,
            final(self).color_map == old(self).color_map,
            final(self).anim == old(self).anim,
            final(self).history == old(self).history,
    {
        self.view_mode = self.view_mode.next();
    }

    /// The user's colour, handing out the next one of the palette to a new user.
    pub fn color_for(&mut self, user: &String) -> (c: Swatch)
        requires
            old(self).color_map.wf(),
        ensures
            final(self).color_map.wf(),
            old(self).color_map.view_map().contains_key(user@) ==> {
                &&& c == old(self).color_map.view_map()[user@]
                &&& final(self).color_map.view_map() == old(self).color_map.view_map()
            },
            !old(self).color_map.view_map().contains_key(user@) ==> {
                &&& c == palette_spec((old(self).color_map.view_map().len() % PALETTE_LEN as nat) as int)
                &&& final(self).color_map.view_map() == old(self).color_map.view_map().insert(user@, c)
            },
            final(self).users == old(self).users,
            final(self).trade_seq == old(self).trade_seq,
            final(self).user_filter == old(self).user_filter,
            final(self).anim == old(self).anim,
            final(self).view_mode == old(self).view_mode,
            final(self).history == old(self).history,
    {
        let next_idx = self.color_map.len();
        match self.color_map.get(user) {
            Some(c) => *c,
            None => {
                let c = palette(next_idx % PALETTE_LEN);
                self.color_map.insert(user.clone(), c);
                c
            },
        }
    }

    /// Whether the user's trades are shown.
    pub fn should_include(&self, user: &String) -> (shown: bool)
        ensures
            shown == passes(self.user_filter, user@),
    {
        match &self.user_filter {
            Some(filter) => *filter == *user,
            None => true,
        }
    }

    /// The users ranked by total, best first: positions in `users.entries` with
    /// their totals' rank keys; users of equal keys stay in order of first trade.
    pub fn leaderboard(&self) -> (board: Vec<(usize, i64)>)
        ensures
            ranks_entries(board@, self.users.entries@.len() as int),
            forall|i: int| 0 <= i < board@.len() ==> call_ensures(
                P::rank_key,
                (&self.users.entries@[board@[i].0 as int].1.total_pnl,),
                #[trigger] board@[i].1,
            ),
    {
        let n = self.users.entries.len();
        let mut board: Vec<(usize, i64)> = Vec::new();
        let mut idx: usize = 0;
        while idx < n
            invariant
                0 <= idx <= n,
                n == self.users.entries@.len(),
                board@.len() == idx,
                forall|i: int| 0 <= i < board@.len() ==> board@[i].0 < idx,
                forall|i: int, j: int| 0 <= i < j < board@.len() ==> board@[i].0 != board@[j].0,
                forall|i: int, j: int| 0 <= i < j < board@.len() ==> board@[i].1 >= board@[j].1,
                forall|i: int, j: int| 0 <= i < j < board@.len() && board@[i].1 == board@[j].1 ==> board@[i].0 < board@[j].0,
                forall|i: int| 0 <= i < board@.len() ==> call_ensures(
                    P::rank_key,
                    (&self.users.entries@[board@[i].0 as int].1.total_pnl,),
                    #[trigger] board@[i].1,
                ),
            decreases n - idx,
        {
            let key = self.users.entries[idx].1.total_pnl.rank_key();
            assert(call_ensures(P::rank_key, (&self.users.entries@[idx as int].1.total_pnl,), key));
            let mut pos: usize = 0;
            while pos < board.len() && board[pos].1 >= key
                invariant
                    0 <= pos <= board@.len(),
                    forall|i: int| 0 <= i < pos ==> board@[i].1 >= key,
                decreases board@.len() - pos,
            {
                pos = pos + 1;
            }
            let ghost before = board@;
            board.insert(pos, (idx, key));
            assert forall|i: int| pos <= i < before.len() implies before[i].1 < key by {
                assert(before[pos as int].1 < key);
                assert(before[pos as int].1 >= before[i].1 || i == pos);
            }
            idx = idx + 1;
        }
        board
    }

    /// The users' names in leaderboard order.
    pub fn ranking(&self) -> (names: Vec<String>)
        requires
            self.users.wf(),
        ensures
            names@.len() == self.users.entries@.len(),
            distinct_ranking(ranking_names(names@)),
            orders_users(ranking_names(names@), self.users),
    {
        let board = self.leaderboard();
        let mut names: Vec<String> = Vec::new();
        let mut i: usize = 0;
        while i < board.len()
            invariant
                0 <= i <= board@.len(),
                ranks_entries(board@, self.users.entries@.len() as int),
                names@.len() == i,
                forall|k: int| 0 <= k < i ==> #[trigger] names@[k]@ == self.users.entries@[board@[k].0 as int].0@,
            decreases board@.len() - i,
        {
            names.push(self.users.entries[board[i].0].0.clone());
            i = i + 1;
        }
        assert forall|a: int, b: int| 0 <= a < b < names@.len() implies ranking_names(names@)[a] != ranking_names(names@)[b] by {
            assert(names@[a]@ == self.users.entries@[board@[a].0 as int].0@);
            assert(names@[b]@ == self.users.entries@[board@[b].0 as int].0@);
            assert(board@[a].0 != board@[b].0);
        }
        assert(ranking_names(names@).len() == board@.len());
        assert forall|k: int| 0 <= k < board@.len() implies ranking_names(names@)[k] == self.users.entries@[board@[k].0 as int].0@ by {
            assert(names@[k]@ == self.users.entries@[board@[k].0 as int].0@);
        }
        names
    }

    /// Ranks the users anew and animates the moves.
    fn update_ranks(&mut self)
        requires
            old(self).users.wf(),
            old(self).anim.wf(),
        ensures
            final(self).anim.wf(),
            final(self).anim.tick == old(self).anim.tick,
            final(self).anim.flash_map == old(self).anim.flash_map,
            exists|names: Seq<Seq<char>>| {
                &&& orders_users(names, old(self).users)
                &&& final(self).anim.prev_ranks.view_map() == positions(names)
                &&& final(self).anim.rank_change.view_map() == rank_moves(
                    old(self).anim.prev_ranks.view_map(),
                    old(self).anim.rank_change.view_map(),
                    names,
                    old(self).anim.tick,
                )
            },
            final(self).users == old(self).users,
            final(self).trade_seq == old(self).trade_seq,
            final(self).user_filter == old(self).user_filter,
            final(self).color_map == old(self).color_map,
            final(self).view_mode == old(self).view_mode,
            final(self).history == old(self).history,
    {
        let ranking = self.ranking();
        self.anim.update_ranks(&ranking);
        assert(orders_users(ranking_names(ranking@), old(self).users));
    }

    /// A trade that the server reports: counted and shown if the filter lets
    /// it through, else ignored.
    pub fn apply_trade(&mut self, user: String, profit: P)
        requires
            old(self).wf(),
            old(self).trade_seq < u32::MAX,
        ensures
            final(self).wf(),
            trade_applied(*old(self), *final(self), user, profit),
    {
        if !self.should_include(&user) {
            return;
        }
        self.trade_seq = self.trade_seq + 1;
        self.color_for(&user);
        let tick = self.anim.tick;
        self.anim.flash_map.insert(user.clone(), tick);
        self.history.push_back((user.clone(), profit));
        if self.history.len() > HISTORY_LEN {
            self.history.pop_front();
        }
        let ghost before_new = self.users;
        match self.users.position(&user) {
            Some(_) => {},
            None => {
                let mut stats: UserStats<P> = UserStats::new();
                while stats.cumulative_pnl.len() < self.trade_seq
                    invariant
                        stats.trade_count == 0,
                        call_ensures(P::zero, (), stats.total_pnl),
                        forall|k: int| 0 <= k < stats.cumulative_pnl@.len() ==> call_ensures(P::zero, (), #[trigger] stats.cumulative_pnl@[k]),
                        stats.cumulative_pnl@.len() <= self.trade_seq,
                    decreases self.trade_seq - stats.cumulative_pnl@.len(),
                {
                    stats.cumulative_pnl.push(P::zero());
                }
                self.users.insert(user.clone(), stats);
            },
        }
        let ghost mid = self.users.entries@;
        assert(self.users.wf());
        assert(self.color_map.view_map().contains_key(user@));
        assert forall|k: int| 0 <= k < mid.len() implies {
            &&& (#[trigger] mid[k]).1.cumulative_pnl@.len() == self.trade_seq
            &&& mid[k].1.trade_count < self.trade_seq
            &&& mid[k].0@ != user@ ==> mid[k].1.cumulative_pnl@.last() == mid[k].1.total_pnl
            &&& self.color_map.view_map().contains_key(mid[k].0@)
            &&& passes(self.user_filter, mid[k].0@)
        } by {
            if k < before_new.entries@.len() {
                assert(mid[k] == old(self).users.entries@[k]);
            } else {
                assert(mid[k].0@ == user@);
            }
        }
        let ghost anim0 = self.anim;
        let ghost colors0 = self.color_map;
        let ghost history0 = self.history;
        let mut i: usize = 0;
        while i < self.users.entries.len()
            invariant
                0 <= i <= self.users.entries@.len(),
                self.anim == anim0,
                anim0.wf(),
                self.color_map == colors0,
                self.history == history0,
                self.view_mode == old(self).view_mode,
                self.trade_seq == old(self).trade_seq + 1,
                self.user_filter == old(self).user_filter,
                self.users.entries@.len() == mid.len(),
                forall|k: int| 0 <= k < mid.len() ==> #[trigger] self.users.entries@[k].0 == mid[k].0,
                forall|k: int| i <= k < mid.len() ==> #[trigger] self.users.entries@[k] == mid[k],
                forall|k: int| 0 <= k < i ==> {
                    let now = #[trigger] self.users.entries@[k].1;
                    let was = mid[k].1;
                    if mid[k].0@ == user@ {
                        &&& call_ensures(P::plus, (was.total_pnl, profit), now.total_pnl)
                        &&& now.trade_count == was.trade_count + 1
                        &&& now.cumulative_pnl@ == was.cumulative_pnl@.push(now.total_pnl)
                    } else {
                        &&& now.total_pnl == was.total_pnl
                        &&& now.trade_count == was.trade_count
                        &&& now.cumulative_pnl@ == was.cumulative_pnl@.push(was.total_pnl)
                    }
                },
                forall|k: int| 0 <= k < mid.len() ==> #[trigger] mid[k].1.trade_count < u32::MAX,
            decreases mid.len() - i,
        {
            if self.users.entries[i].0 == user {
                self.users.entries[i].1.record_trade(profit);
            } else {
                self.users.entries[i].1.carry_forward();
            }
            i = i + 1;
        }
        assert forall|a: int, b: int| 0 <= a < b < self.users.entries@.len() implies self.users.entries@[a].0@ != self.users.entries@[b].0@ by {
            assert(self.users.entries@[a].0 == mid[a].0);
            assert(self.users.entries@[b].0 == mid[b].0);
        }
        assert(self.users.wf());
        proof {
            if !before_new.view_map().contains_key(user@) {
                assert(mid.drop_last() =~= before_new.entries@);
                assert(count_sum(mid) == count_sum(before_new.entries@));
            } else {
                assert(mid == before_new.entries@);
            }
            crate::user_map::lemma_entries_map_dom(mid, user@);
            let u = choose|u: int| 0 <= u < mid.len() && mid[u].0@ == user@;
            assert forall|k: int| 0 <= k < mid.len() && k != u implies #[trigger] self.users.entries@[k].1.trade_count == mid[k].1.trade_count by {
                assert(mid[k].0@ != user@);
            }
            lemma_count_sum_bump(mid, self.users.entries@, u);
        }
        let ghost tallied = self.users;
        assert(tallies_after_trade(old(self).users, tallied, user@, profit)) by {
            assert forall|k: int| 0 <= k < old(self).users.entries@.len() implies #[trigger] mid[k] == old(self).users.entries@[k] by {
            }
            if !old(self).users.view_map().contains_key(user@) {
                let n = mid.len() - 1;
                assert(mid[n].0@ == user@);
                assert(tallied.entries@[n].0 == mid[n].0);
                let fresh = tallied.entries@[n].1;
                assert(call_ensures(P::zero, (), mid[n].1.total_pnl));
                assert(call_ensures(P::plus, (mid[n].1.total_pnl, profit), fresh.total_pnl));
                assert forall|k: int| 0 <= k < fresh.cumulative_pnl@.len() - 1 implies call_ensures(P::zero, (), #[trigger] fresh.cumulative_pnl@[k]) by {
                    assert(fresh.cumulative_pnl@[k] == mid[n].1.cumulative_pnl@[k]);
                }
            }
        }
        self.update_ranks();
        assert(self.users == tallied);
        assert(self.anim.wf());
        assert(self.history@ == bounded_push(old(self).history@, (user, profit)));
        assert(self.history@.len() <= HISTORY_LEN);
        assert(self.anim.flash_map.view_map() == old(self).anim.flash_map.view_map().insert(user@, old(self).anim.tick));
    }

    /// The trades claimed before the dashboard connected, oldest first, each
    /// taken as `apply_trade` takes it.
    pub fn apply_snapshot(&mut self, trades: Vec<(String, P)>)
        requires
            old(self).wf(),
            old(self).trade_seq + trades@.len() < u32::MAX,
        ensures
            final(self).wf(),
            snapshot_applied(*old(self), *final(self), trades@),
            final(self).trade_seq == old(self).trade_seq + passing_count(old(self).user_filter, trades@),
            passing_count(old(self).user_filter, trades@) <= trades@.len(),
            final(self).user_filter == old(self).user_filter,
            final(self).view_mode == old(self).view_mode,
            final(self).anim.tick == old(self).anim.tick,
    {
        proof {
            lemma_passing_count_bound(old(self).user_filter, trades@);
        }
        let ghost mut states: Seq<App<P>> = seq![*self];
        let mut i: usize = 0;
        while i < trades.len()
            invariant
                0 <= i <= trades@.len(),
                self.wf(),
                self.trade_seq == old(self).trade_seq + passing_count(old(self).user_filter, trades@.take(i as int)),
                passing_count(old(self).user_filter, trades@.take(i as int)) <= i,
                old(self).trade_seq + trades@.len() < u32::MAX,
                self.user_filter == old(self).user_filter,
                self.view_mode == old(self).view_mode,
                self.anim.tick == old(self).anim.tick,
                states.len() == i + 1,
                states[0] == *old(self),
                states.last() == *self,
                forall|k: int| 0 <= k < i ==> trade_applied(states[k], #[trigger] states[k + 1], trades@[k].0, trades@[k].1),
            decreases trades@.len() - i,
        {
            let user = trades[i].0.clone();
            let profit = trades[i].1;
            assert(trades@.take(i + 1).drop_last() =~= trades@.take(i as int));
            let ghost prev = states;
            self.apply_trade(user, profit);
            proof {
                states = states.push(*self);
                assert forall|k: int| 0 <= k < i + 1 implies trade_applied(states[k], #[trigger] states[k + 1], trades@[k].0, trades@[k].1) by {
                    if k < i {
                        assert(states[k] == prev[k]);
                        assert(states[k + 1] == prev[k + 1]);
                    }
                }
            }
            i = i + 1;
        }
        assert(trades@.take(trades@.len() as int) =~= trades@);
        assert(snapshot_chain(states, *old(self), *self, trades@));
    }

    /// The next animation tick.
    pub fn tick(&mut self)
        requires
            old(self).anim.tick < u64::MAX,
        ensures
            final(self).anim.tick == old(self).anim.tick + 1,
            final(self).anim.flash_map == old(self).anim.flash_map,
            final(self).anim.rank_change == old(self).anim.rank_change,
            final(self).anim.prev_ranks == old(self).anim.prev_ranks,
            final(self).users == old(self).users,
            final(self).trade_seq == old(self).trade_seq,
            final(self).user_filter == old(self).user_filter,
            final(self).color_map == old(self).color_map,
            final(self).view_mode == old(self).view_mode,
            final(self).history == old(self).history,
    {
        self.anim.advance();
    }
}

/// What taking in a trade does: a trade that the filter stops changes nothing;
/// any other is counted, flashes its user, gives a new user the next colour,
/// enters the trade log, updates the tallies and ranks the users anew.
pub open spec fn trade_applied<P: Pnl>(before: App<P>, after: App<P>, user: String, profit: P) -> bool {
    &&& !passes(before.user_filter, user@) ==> after == before
    &&& passes(before.user_filter, user@) ==> {
        &&& after.trade_seq == before.trade_seq + 1
        &&& after.user_filter == before.user_filter
        &&& after.view_mode == before.view_mode
        &&& after.anim.tick == before.anim.tick
        &&& after.anim.flash_map.view_map() == before.anim.flash_map.view_map().insert(user@, before.anim.tick)
        &&& before.color_map.view_map().contains_key(user@) ==> after.color_map.view_map() == before.color_map.view_map()
        &&& !before.color_map.view_map().contains_key(user@) ==> after.color_map.view_map() == before.color_map.view_map().insert(
            user@,
            palette_spec((before.color_map.view_map().len() % PALETTE_LEN as nat) as int),
        )
        &&& after.history@ == bounded_push(before.history@, (user, profit))
        &&& tallies_after_trade(before.users, after.users, user@, profit)
        &&& exists|names: Seq<Seq<char>>| {
            &&& orders_users(names, after.users)
            &&& after.anim.prev_ranks.view_map() == positions(names)
            &&& after.anim.rank_change.view_map() == rank_moves(
                before.anim.prev_ranks.view_map(),
                before.anim.rank_change.view_map(),
                names,
                before.anim.tick,
            )
        }
    }
}

/// What taking in a snapshot does: the trades taken in one after another, as
/// `apply_trade` takes each, through a chain of states from `before` to `after`.
pub open spec fn snapshot_applied<P: Pnl>(before: App<P>, after: App<P>, trades: Seq<(String, P)>) -> bool {
    exists|states: Seq<App<P>>| snapshot_chain(states, before, after, trades)
}

/// The states that taking in the trades one after another passes through.
pub open spec fn snapshot_chain<P: Pnl>(states: Seq<App<P>>, before: App<P>, after: App<P>, trades: Seq<(String, P)>) -> bool {
    &&& states.len() == trades.len() + 1
    &&& states[0] == before
    &&& states.last() == after
    &&& forall|i: int| 0 <= i < trades.len() ==> trade_applied(states[i], #[trigger] states[i + 1], trades[i].0, trades[i].1)
}

/// Taking in a snapshot in two parts is taking in their concatenation, and an
/// empty snapshot changes nothing.
pub proof fn lemma_snapshot_concat<P: Pnl>(
    before: App<P>,
    mid: App<P>,
    after: App<P>,
    a: Seq<(String, P)>,
    b: Seq<(String, P)>,
)
    requires
        snapshot_applied(before, mid, a),
        snapshot_applied(mid, after, b),
    ensures
        snapshot_applied(before, after, a + b),
        a.len() == 0 ==> before == mid,
{
    let sa = choose|s: Seq<App<P>>| snapshot_chain(s, before, mid, a);
    let sb = choose|s: Seq<App<P>>| snapshot_chain(s, mid, after, b);
    let st = sa + sb.drop_first();
    let ab = a + b;
    assert forall|i: int| 0 <= i < ab.len() implies trade_applied(st[i], #[trigger] st[i + 1], ab[i].0, ab[i].1) by {
        if i < a.len() {
            assert(sa[i + 1] == st[i + 1]);
            assert(trade_applied(sa[i], sa[i + 1], a[i].0, a[i].1));
        } else {
            let j = i - a.len();
            assert(st[i] == sb[j]);
            assert(st[i + 1] == sb[j + 1]);
            assert(ab[i] == b[j]);
            assert(trade_applied(sb[j], sb[j + 1], b[j].0, b[j].1));
        }
    }
    if b.len() == 0 {
        assert(st.last() == sa.last());
    } else {
        assert(st.last() == sb.last());
    }
    assert(snapshot_chain(st, before, after, ab));
}

/// How many of the trades the filter lets through.
pub open spec fn passing_count<P>(filter: Option<String>, trades: Seq<(String, P)>) -> nat
    decreases trades.len(),
{
    if trades.len() == 0 {
        0
    } else {
        passing_count(filter, trades.drop_last()) + if passes(filter, trades.last().0@) {
            1nat
        } else {
            0nat
        }
    }
}

/// The filter lets through at most all the trades.
pub proof fn lemma_passing_count_bound<P>(filter: Option<String>, trades: Seq<(String, P)>)
    ensures
        passing_count(filter, trades) <= trades.len(),
    decreases trades.len(),
{
    if trades.len() > 0 {
        lemma_passing_count_bound(filter, trades.drop_last());
    }
}

/// The trades of two parts that the filter lets through are those of each part.
pub proof fn lemma_passing_count_concat<P>(filter: Option<String>, a: Seq<(String, P)>, b: Seq<(String, P)>)
    ensures
        passing_count(filter, a + b) == passing_count(filter, a) + passing_count(filter, b),
    decreases b.len(),
{
    if b.len() > 0 {
        lemma_passing_count_concat(filter, a, b.drop_last());
        assert((a + b).drop_last() =~= a + b.drop_last());
        assert((a + b).last() == b.last());
    } else {
        assert(a + b =~= a);
    }
}

/// The number of trades credited to the users.
pub open spec fn count_sum<P>(entries: Seq<(String, UserStats<P>)>) -> int
    decreases entries.len(),
{
    if entries.len() == 0 {
        0
    } else {
        count_sum(entries.drop_last()) + entries.last().1.trade_count
    }
}

/// Crediting one more trade to one user raises the total by one.
proof fn lemma_count_sum_bump<P>(a: Seq<(String, UserStats<P>)>, b: Seq<(String, UserStats<P>)>, u: int)
    requires
        a.len() == b.len(),
        0 <= u < a.len(),
        b[u].1.trade_count == a[u].1.trade_count + 1,
        forall|k: int| 0 <= k < a.len() && k != u ==> #[trigger] b[k].1.trade_count == a[k].1.trade_count,
    ensures
        count_sum(b) == count_sum(a) + 1,
    decreases a.len(),
{
    if u < a.len() - 1 {
        lemma_count_sum_bump(a.drop_last(), b.drop_last(), u);
    } else {
        lemma_count_sum_same(a.drop_last(), b.drop_last());
    }
}

/// Equal counts, equal totals.
proof fn lemma_count_sum_same<P>(a: Seq<(String, UserStats<P>)>, b: Seq<(String, UserStats<P>)>)
    requires
        a.len() == b.len(),
        forall|k: int| 0 <= k < a.len() ==> #[trigger] b[k].1.trade_count == a[k].1.trade_count,
    ensures
        count_sum(b) == count_sum(a),
    decreases a.len(),
{
    if a.len() > 0 {
        lemma_count_sum_same(a.drop_last(), b.drop_last());
    }
}

/// Whether `names` lists the users of `users` in the order of a leaderboard:
/// by the rank keys of their totals, best first.
pub open spec fn orders_users<P: Pnl>(names: Seq<Seq<char>>, users: UserMap<UserStats<P>>) -> bool {
    exists|board: Seq<(usize, i64)>| {
        &&& ranks_entries(board, users.entries@.len() as int)
        &&& forall|i: int| 0 <= i < board.len() ==> call_ensures(
            P::rank_key,
            (&users.entries@[board[i].0 as int].1.total_pnl,),
            #[trigger] board[i].1,
        )
        &&& names.len() == board.len()
        &&& forall|i: int| 0 <= i < board.len() ==> #[trigger] names[i] == users.entries@[board[i].0 as int].0@
    }
}

/// The tallies after a trade of `user`: that user gains a trade and records
/// the new total, every other user records the unchanged total, and a new user
/// goes last with one trade.
pub open spec fn tallies_after_trade<P: Pnl>(
    before: UserMap<UserStats<P>>,
    after: UserMap<UserStats<P>>,
    user: Seq<char>,
    profit: P,
) -> bool {
    let n = before.entries@.len();
    let is_new = !before.view_map().contains_key(user);
    &&& after.entries@.len() == if is_new { n + 1 } else { n }
    &&& forall|i: int| 0 <= i < n ==> {
        let was = #[trigger] before.entries@[i];
        let now = after.entries@[i];
        &&& now.0 == was.0
        &&& was.0@ == user ==> {
            &&& call_ensures(P::plus, (was.1.total_pnl, profit), now.1.total_pnl)
            &&& now.1.trade_count == was.1.trade_count + 1
            &&& now.1.cumulative_pnl@ == was.1.cumulative_pnl@.push(now.1.total_pnl)
        }
        &&& was.0@ != user ==> {
            &&& now.1.total_pnl == was.1.total_pnl
            &&& now.1.trade_count == was.1.trade_count
            &&& now.1.cumulative_pnl@ == was.1.cumulative_pnl@.push(was.1.total_pnl)
        }
    }
    &&& is_new ==> {
        let fresh = after.entries@[n as int].1;
        &&& after.entries@[n as int].0@ == user
        &&& fresh.trade_count == 1
        &&& exists|z: P| call_ensures(P::zero, (), z) && call_ensures(P::plus, (z, profit), fresh.total_pnl)
        &&& forall|k: int| 0 <= k < fresh.cumulative_pnl@.len() - 1 ==> call_ensures(P::zero, (), #[trigger] fresh.cumulative_pnl@[k])
    }
}

} // verus!
