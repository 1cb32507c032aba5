use trade_edge::dashboard::{
    palette, total_order_key, AnimationState, App, Pnl, RankDir, Swatch, UserStats, ViewMode, FLASH_DURATION, HISTORY_LEN,
    RANK_ARROW_DURATION,
};
use trade_edge::user_map::UserMap;

#[derive(Clone, Copy, Debug, PartialEq)]
struct Cents(i64);

impl Pnl for Cents {
    fn zero() -> Self {
        Cents(0)
    }
    fn plus(self, other: Self) -> Self {
        Cents(self.0 + other.0)
    }
    fn rank_key(&self) -> i64 {
        self.0
    }
}

fn s(x: &str) -> String {
    x.to_string()
}

fn stats<'a>(app: &'a App<Cents>, user: &str) -> &'a UserStats<Cents> {
    app.users.get(&s(user)).expect("a user")
}

#[test]
fn view_modes_move_and_stop_at_the_ends() {
    assert_eq!(ViewMode::Cumulative.prev(), ViewMode::Cumulative);
    assert_eq!(ViewMode::Recent.prev(), ViewMode::Cumulative);
    assert_eq!(ViewMode::Cumulative.next(), ViewMode::Recent);
    assert_eq!(ViewMode::Recent.next(), ViewMode::Recent);
    let mut app: App<Cents> = App::new(None);
    app.next_view();
    assert_eq!(app.view_mode, ViewMode::Recent);
    app.next_view();
    assert_eq!(app.view_mode, ViewMode::Recent);
    app.prev_view();
    assert_eq!(app.view_mode, ViewMode::Cumulative);
}

#[test]
fn user_maps_keep_first_appearance_order() {
    let mut m: UserMap<u32> = UserMap::new();
    m.insert(s("b"), 1);
    m.insert(s("a"), 2);
    m.insert(s("b"), 3);
    assert_eq!(m.len(), 2);
    assert_eq!(m.get(&s("b")), Some(&3));
    assert_eq!(m.get(&s("a")), Some(&2));
    assert_eq!(m.get(&s("c")), None);
    assert_eq!(m.entries[0].0, "b");
    m.clear();
    assert_eq!(m.len(), 0);
}

#[test]
fn flashes_fade_after_their_duration() {
    let mut a = AnimationState::new();
    a.flash_map.insert(s("u"), 0);
    assert_eq!(a.flash_elapsed(&s("u")), Some(0));
    for _ in 0..FLASH_DURATION - 1 {
        a.advance();
    }
    assert_eq!(a.flash_elapsed(&s("u")), Some(FLASH_DURATION - 1));
    a.advance();
    assert_eq!(a.flash_elapsed(&s("u")), None);
    assert_eq!(a.flash_elapsed(&s("v")), None);
    a.flash_map.insert(s("w"), a.tick + 5);
    assert_eq!(a.flash_elapsed(&s("w")), None);
}

#[test]
fn rank_arrows_show_moves_for_their_duration() {
    let mut a = AnimationState::new();
    a.update_ranks(&vec![s("x"), s("y")]);
    assert_eq!(a.prev_ranks.get(&s("x")), Some(&0));
    assert!(a.rank_arrow_elapsed(&s("x")).is_none());
    a.advance();
    a.update_ranks(&vec![s("y"), s("x"), s("z")]);
    assert!(matches!(a.rank_arrow_elapsed(&s("y")), Some((RankDir::Up, 0))));
    assert!(matches!(a.rank_arrow_elapsed(&s("x")), Some((RankDir::Down, 0))));
    assert!(a.rank_arrow_elapsed(&s("z")).is_none());
    assert_eq!(a.prev_ranks.get(&s("z")), Some(&2));
    for _ in 0..RANK_ARROW_DURATION - 1 {
        a.advance();
    }
    assert!(matches!(a.rank_arrow_elapsed(&s("y")), Some((RankDir::Up, d)) if d == RANK_ARROW_DURATION - 1));
    a.advance();
    assert!(a.rank_arrow_elapsed(&s("y")).is_none());
}

#[test]
fn colours_are_handed_out_in_turn_and_kept() {
    let mut app: App<Cents> = App::new(None);
    assert_eq!(app.color_for(&s("a")), Swatch::Cyan);
    assert_eq!(app.color_for(&s("b")), Swatch::Yellow);
    assert_eq!(app.color_for(&s("a")), Swatch::Cyan);
    for i in 0..10 {
        app.color_for(&format!("u{i}"));
    }
    // the twelfth user wraps around the palette of ten
    assert_eq!(app.color_for(&s("last")), palette(2));
    assert_eq!(palette(9), Swatch::LightMagenta);
}

#[test]
fn the_filter_hides_other_users() {
    let mut app: App<Cents> = App::new(Some(s("ann")));
    assert!(app.should_include(&s("ann")));
    assert!(!app.should_include(&s("bob")));
    app.apply_trade(s("bob"), Cents(5));
    assert_eq!(app.trade_seq, 0);
    assert_eq!(app.users.len(), 0);
    assert_eq!(app.history.len(), 0);
    app.apply_trade(s("ann"), Cents(5));
    assert_eq!(app.trade_seq, 1);
    assert_eq!(app.users.len(), 1);
}

#[test]
fn every_user_records_every_counted_trade() {
    let mut app: App<Cents> = App::new(None);
    app.apply_trade(s("a"), Cents(100));
    app.apply_trade(s("b"), Cents(-30));
    app.apply_trade(s("a"), Cents(50));
    assert_eq!(app.trade_seq, 3);
    let a = stats(&app, "a");
    assert_eq!(a.total_pnl, Cents(150));
    assert_eq!(a.trade_count, 2);
    assert_eq!(a.cumulative_pnl, vec![Cents(0), Cents(100), Cents(100), Cents(150)]);
    let b = stats(&app, "b");
    assert_eq!(b.total_pnl, Cents(-30));
    assert_eq!(b.trade_count, 1);
    assert_eq!(b.cumulative_pnl, vec![Cents(0), Cents(0), Cents(-30), Cents(-30)]);
    let total: u32 = app.users.entries.iter().map(|e| e.1.trade_count).sum();
    assert_eq!(total as usize, app.trade_seq);
    assert_eq!(app.anim.flash_map.get(&s("a")), Some(&0));
}

#[test]
fn the_leaderboard_ranks_by_total_and_keeps_ties_in_order() {
    let mut app: App<Cents> = App::new(None);
    app.apply_trade(s("a"), Cents(10));
    app.apply_trade(s("b"), Cents(30));
    app.apply_trade(s("c"), Cents(10));
    app.apply_trade(s("d"), Cents(-5));
    let board = app.leaderboard();
    let names: Vec<&str> = board.iter().map(|&(i, _)| app.users.entries[i].0.as_str()).collect();
    assert_eq!(names, vec!["b", "a", "c", "d"]);
    assert_eq!(board.iter().map(|e| e.1).collect::<Vec<_>>(), vec![30, 10, 10, -5]);
    assert_eq!(app.ranking(), vec![s("b"), s("a"), s("c"), s("d")]);
    assert_eq!(app.anim.prev_ranks.get(&s("d")), Some(&3));
    assert!(matches!(app.anim.rank_arrow_elapsed(&s("a")), Some((RankDir::Down, 0))));
}

#[test]
fn the_trade_log_keeps_the_latest_trades() {
    let mut app: App<Cents> = App::new(None);
    for i in 0..(HISTORY_LEN as i64 + 10) {
        app.apply_trade(format!("u{}", i % 3), Cents(i));
    }
    assert_eq!(app.history.len(), HISTORY_LEN);
    assert_eq!(app.history.front().unwrap().1, Cents(10));
    assert_eq!(app.history.back().unwrap().1, Cents(HISTORY_LEN as i64 + 9));
}

#[test]
fn a_snapshot_is_a_run_of_trades() {
    let mut one: App<Cents> = App::new(Some(s("a")));
    one.apply_snapshot(vec![(s("a"), Cents(1)), (s("b"), Cents(2)), (s("a"), Cents(3))]);
    assert_eq!(one.trade_seq, 2);
    assert_eq!(stats(&one, "a").total_pnl, Cents(4));
    one.tick();
    assert_eq!(one.anim.tick, 1);
}

#[test]
fn user_stats_record_and_carry() {
    let mut st: UserStats<Cents> = UserStats::new();
    st.record_trade(Cents(3));
    st.carry_forward();
    st.record_trade(Cents(4));
    assert_eq!(st.cumulative_pnl, vec![Cents(3), Cents(3), Cents(7)]);
    assert_eq!(st.trade_count, 2);
}

fn summary(app: &App<Cents>) -> (usize, Vec<(String, i64, u32, Vec<Cents>)>, Vec<(String, Cents)>, Vec<(String, Swatch)>) {
    (
        app.trade_seq,
        app.users.entries.iter().map(|(n, s)| (n.clone(), s.total_pnl.0, s.trade_count, s.cumulative_pnl.clone())).collect(),
        app.history.iter().cloned().collect(),
        app.color_map.entries.clone(),
    )
}

#[test]
fn a_snapshot_equals_its_trades_taken_one_by_one() {
    let trades = vec![(s("a"), Cents(4)), (s("b"), Cents(-2)), (s("a"), Cents(7)), (s("c"), Cents(1))];
    let mut at_once: App<Cents> = App::new(None);
    at_once.apply_trade(s("z"), Cents(9));
    at_once.apply_snapshot(trades.clone());
    let mut one_by_one: App<Cents> = App::new(None);
    one_by_one.apply_trade(s("z"), Cents(9));
    for (u, p) in trades.clone() {
        one_by_one.apply_trade(u, p);
    }
    assert_eq!(summary(&at_once), summary(&one_by_one));
    assert_eq!(at_once.ranking(), one_by_one.ranking());
    let before = summary(&at_once);
    at_once.apply_snapshot(vec![]);
    assert_eq!(summary(&at_once), before);
}

#[test]
fn a_snapshot_in_two_parts_is_one_snapshot() {
    let trades = vec![(s("a"), Cents(4)), (s("b"), Cents(-2)), (s("a"), Cents(7)), (s("c"), Cents(1))];
    let mut whole: App<Cents> = App::new(None);
    whole.apply_snapshot(trades.clone());
    let mut parts: App<Cents> = App::new(None);
    parts.apply_snapshot(trades[..1].to_vec());
    parts.apply_snapshot(trades[1..].to_vec());
    assert_eq!(summary(&whole), summary(&parts));
    assert_eq!(whole.ranking(), parts.ranking());
}

#[test]
fn float_keys_follow_the_total_order() {
    assert_eq!(total_order_key(0), 0);
    assert_eq!(total_order_key(1.0f64.to_bits()), 0x3ff0_0000_0000_0000);
    assert_eq!(total_order_key((-0.0f64).to_bits()), -1);
    assert_eq!(total_order_key(u64::MAX), i64::MIN);
    assert_eq!(total_order_key((-1.0f64).to_bits()), -0x3ff0_0000_0000_0001);
    let floats = [
        f64::NEG_INFINITY,
        -2.5,
        -1.0,
        -f64::MIN_POSITIVE,
        -0.0,
        0.0,
        f64::MIN_POSITIVE,
        0.01,
        1.0,
        1e300,
        f64::INFINITY,
        f64::NAN,
        -f64::NAN,
    ];
    for a in floats {
        for b in floats {
            let by_key = total_order_key(a.to_bits()).cmp(&total_order_key(b.to_bits()));
            assert_eq!(by_key, a.total_cmp(&b), "{} {}", a, b);
        }
    }
}
