use asset_heatmap::assets::Asset;
use asset_heatmap::change::Change;
use asset_heatmap::internal_terminal::Command;
use asset_heatmap::interval::Interval;
use asset_heatmap::state::{Action, State};

fn asset(ticker: &str, market_cap: u64) -> Asset {
    Asset::new(ticker.to_string(), 100, 105, market_cap)
}

fn tickers(state: &State) -> Vec<String> {
    state.assets.iter().map(|a| a.get_ticker().to_string()).collect()
}

fn filled() -> State {
    let mut state = State::new();
    state.insert(asset("AMZN", 3));
    state.insert(asset("AAPL", 5));
    state.insert(asset("GOOG", 4));
    state
}

#[test]
fn state_starts_empty_by_the_day() {
    for state in [State::new(), State::default()] {
        assert!(state.assets.is_empty());
        assert_eq!(state.internal_terminal.get_text(), "");
        assert_eq!(state.interval, Interval::Day);
    }
}

#[test]
fn insert_appends_new_tickers() {
    assert_eq!(tickers(&filled()), ["AMZN", "AAPL", "GOOG"]);
}

#[test]
fn insert_replaces_the_same_ticker() {
    let mut state = filled();
    state.insert(asset("AAPL", 9));
    assert_eq!(tickers(&state), ["AMZN", "AAPL", "GOOG"]);
    assert_eq!(state.assets[1].get_market_cap(), 9);
    assert_eq!(state.assets[0].get_market_cap(), 3);
}

#[test]
fn position_of_a_ticker() {
    let state = filled();
    assert_eq!(state.position("AMZN"), 0);
    assert_eq!(state.position("GOOG"), 2);
    assert_eq!(state.position("GOOGL"), 3);
    assert_eq!(state.position(""), 3);
    assert_eq!(State::new().position("AMZN"), 0);
}

#[test]
fn remove_takes_the_ticker_out() {
    let mut state = filled();
    state.remove("AAPL");
    assert_eq!(tickers(&state), ["AMZN", "GOOG"]);
    state.remove("AAPL");
    state.remove("aapl");
    assert_eq!(tickers(&state), ["AMZN", "GOOG"]);
    state.remove("AMZN");
    state.remove("GOOG");
    assert!(state.assets.is_empty());
}

#[test]
fn entities_follow_the_assets() {
    let entities = filled().entities();
    let seen: Vec<(&str, u64, Change)> =
        entities.iter().map(|e| (e.label.as_str(), e.weight, e.change)).collect();
    let change = Change::between(100, 105);
    assert_eq!(seen, [("AMZN", 3, change), ("AAPL", 5, change), ("GOOG", 4, change)]);
}

#[test]
fn apply_exit_asks_to_quit() {
    let mut state = filled();
    assert_eq!(state.apply(Command::Exit), Action::Quit);
    assert_eq!(tickers(&state), ["AMZN", "AAPL", "GOOG"]);
}

#[test]
fn apply_add_asks_to_fetch() {
    let mut state = filled();
    assert_eq!(
        state.apply(Command::AddAsset("PLTR".to_string())),
        Action::Fetch("PLTR".to_string())
    );
    assert_eq!(tickers(&state), ["AMZN", "AAPL", "GOOG"]);
}

#[test]
fn apply_remove_takes_the_asset_out() {
    let mut state = filled();
    assert_eq!(state.apply(Command::RemoveAsset("AMZN".to_string())), Action::Continue);
    assert_eq!(tickers(&state), ["AAPL", "GOOG"]);
    assert_eq!(state.apply(Command::RemoveAsset("NONE".to_string())), Action::Continue);
    assert_eq!(tickers(&state), ["AAPL", "GOOG"]);
}

#[test]
fn apply_interval_selects_a_known_label() {
    let mut state = filled();
    assert_eq!(state.apply(Command::ChangeInterval("6M".to_string())), Action::Continue);
    assert_eq!(state.interval, Interval::SixMonth);
    assert_eq!(state.apply(Command::ChangeInterval("6mo".to_string())), Action::Continue);
    assert_eq!(state.interval, Interval::SixMonth);
    assert_eq!(state.apply(Command::ChangeInterval("YTD".to_string())), Action::Continue);
    assert_eq!(state.interval, Interval::YearToDay);
    assert_eq!(tickers(&state), ["AMZN", "AAPL", "GOOG"]);
}

#[test]
fn typed_commands_reach_the_state() {
    let mut state = filled();
    for c in "REMOVE GOOG".chars() {
        state.internal_terminal.add_new_char(c);
    }
    let command = state.internal_terminal.enter_command().unwrap();
    assert_eq!(state.apply(command), Action::Continue);
    assert_eq!(tickers(&state), ["AMZN", "AAPL"]);
}

#[test]
fn tickers_stay_distinct() {
    let mut state = filled();
    for ticker in ["AAPL", "PLTR", "AMZN", "PLTR", "GOOG"] {
        state.insert(asset(ticker, 1));
        let mut seen = tickers(&state);
        let count = seen.len();
        seen.sort();
        seen.dedup();
        assert_eq!(seen.len(), count);
        assert!(state.position(ticker) < state.assets.len());
    }
    state.remove("PLTR");
    assert_eq!(state.position("PLTR"), state.assets.len());
    assert_eq!(tickers(&state), ["AMZN", "AAPL", "GOOG"]);
}
