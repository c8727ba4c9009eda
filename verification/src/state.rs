//! The state of the dashboard and what a command does to it.

use vstd::prelude::*;
use crate::assets::Asset;
use crate::change::ChangeView;
use crate::entity::WeightedEntity;
use crate::internal_terminal::{Command, CommandView, InternalTerminalState};
use crate::interval::Interval;
use crate::text::text_is;

verus! {

/// The position of the first asset with the given ticker, or the number of
/// assets where none has it.
pub open spec fn position_of(assets: Seq<Asset>, ticker: Seq<char>) -> int
    decreases assets.len(),
{
    if assets.len() == 0 {
        0
    } else if assets[0]@.ticker == ticker {
        0
    } else {
        1 + position_of(assets.drop_first(), ticker)
    }
}

/// Whether no two of the assets have the same ticker.
pub open spec fn distinct_tickers(assets: Seq<Asset>) -> bool {
    forall|i: int, j: int|
        0 <= i < j < assets.len() ==> (#[trigger] assets[i])@.ticker != (#[trigger] assets[j])@.ticker
}

/// The assets with `asset` put in: in the place of the first asset with the
/// same ticker, or at the end where no asset has its ticker.
pub open spec fn with_asset(assets: Seq<Asset>, asset: Asset) -> Seq<Asset> {
    let at = position_of(assets, asset@.ticker);
    if at < assets.len() {
        assets.update(at, asset)
    } else {
        assets.push(asset)
    }
}

/// The assets without the first one that has the given ticker.
pub open spec fn without_ticker(assets: Seq<Asset>, ticker: Seq<char>) -> Seq<Asset> {
    let at = position_of(assets, ticker);
    if at < assets.len() {
        assets.remove(at)
    } else {
        assets
    }
}

/// The position of the first asset with a ticker lies among the assets or at
/// their end; the asset there has the ticker, and none before it has.
pub proof fn lemma_position_of(assets: Seq<Asset>, ticker: Seq<char>)
    ensures
        0 <= position_of(assets, ticker) <= assets.len(),
        position_of(assets, ticker) < assets.len() ==> assets[position_of(assets, ticker)]@.ticker
            == ticker,
        forall|k: int| 0 <= k < position_of(assets, ticker) ==> (#[trigger] assets[k])@.ticker != ticker,
    decreases assets.len(),
{
    if assets.len() > 0 && assets[0]@.ticker != ticker {
        let rest = assets.drop_first();
        lemma_position_of(rest, ticker);
        assert forall|k: int| 0 <= k < position_of(assets, ticker) implies (
        #[trigger] assets[k])@.ticker != ticker by {
            if k > 0 {
                assert(assets[k] == rest[k - 1]);
            }
        }
    }
}

/// A position that holds the ticker, or is the end, and that no asset with
/// the ticker precedes, is the position of the ticker.
pub proof fn lemma_position_is(assets: Seq<Asset>, ticker: Seq<char>, at: int)
    requires
        0 <= at <= assets.len(),
        forall|k: int| 0 <= k < at ==> (#[trigger] assets[k])@.ticker != ticker,
        at < assets.len() ==> assets[at]@.ticker == ticker,
    ensures
        position_of(assets, ticker) == at,
{
    lemma_position_of(assets, ticker);
    let found = position_of(assets, ticker);
    if found < at {
        assert(assets[found]@.ticker == ticker);
    } else if found > at {
        assert(assets[at]@.ticker != ticker);
    }
}

/// Putting an asset in keeps the tickers distinct, and afterwards its ticker
/// is there.
pub proof fn lemma_insert_keeps_distinct(assets: Seq<Asset>, asset: Asset)
    requires
        distinct_tickers(assets),
    ensures
        distinct_tickers(with_asset(assets, asset)),
        position_of(with_asset(assets, asset), asset@.ticker) < with_asset(assets, asset).len(),
{
    lemma_position_of(assets, asset@.ticker);
    let put = with_asset(assets, asset);
    let at = position_of(assets, asset@.ticker);
    assert forall|i: int, j: int| 0 <= i < j < put.len() implies (#[trigger] put[i])@.ticker != (
    #[trigger] put[j])@.ticker by {
        if at < assets.len() {
            if i != at && j != at {
                assert(put[i] == assets[i] && put[j] == assets[j]);
            } else if i == at {
                assert(put[j] == assets[j]);
                assert(assets[at]@.ticker != assets[j]@.ticker);
            } else {
                assert(put[i] == assets[i]);
                assert(assets[i]@.ticker != assets[at]@.ticker);
            }
        } else {
            if j < assets.len() {
                assert(put[i] == assets[i] && put[j] == assets[j]);
            } else {
                assert(put[i] == assets[i]);
            }
        }
    }
    lemma_position_is(put, asset@.ticker, at);
}

/// Taking a ticker out keeps the tickers distinct, and afterwards the ticker
/// is not there.
pub proof fn lemma_remove_keeps_distinct(assets: Seq<Asset>, ticker: Seq<char>)
    requires
        distinct_tickers(assets),
    ensures
        distinct_tickers(without_ticker(assets, ticker)),
        position_of(without_ticker(assets, ticker), ticker) == without_ticker(
            assets,
            ticker,
        ).len(),
{
    lemma_position_of(assets, ticker);
    let taken = without_ticker(assets, ticker);
    let from = position_of(assets, ticker);
    assert forall|i: int, j: int| 0 <= i < j < taken.len() implies (#[trigger] taken[i])@.ticker
        != (#[trigger] taken[j])@.ticker by {
        if from < assets.len() {
            let a = if i < from {
                i
            } else {
                i + 1
            };
            let b = if j < from {
                j
            } else {
                j + 1
            };
            assert(taken[i] == assets[a] && taken[j] == assets[b]);
        }
    }
    assert forall|k: int| 0 <= k < taken.len() implies (#[trigger] taken[k])@.ticker != ticker by {
        if from < assets.len() {
            if k < from {
                assert(taken[k] == assets[k]);
            } else {
                assert(taken[k] == assets[k + 1]);
                assert(assets[from]@.ticker != assets[k + 1]@.ticker);
            }
        }
    }
    lemma_position_is(taken, ticker, taken.len() as int);
}

/// What the caller is to do after a command has been applied to the state.
#[derive(Debug, PartialEq, Eq)]
pub enum Action {
    /// Leave the dashboard.
    Quit,
    /// Ask the provider for the asset with this ticker, and put it in.
    Fetch(String),
    /// Nothing.
    Continue,
}

/// The state of the dashboard: the assets on display, the command line and
/// the interval over which changes are measured.
#[derive(Debug)]
pub struct State {
    pub assets: Vec<Asset>,
    pub internal_terminal: InternalTerminalState,
    pub interval: Interval,
}

impl State {
    /// The state at the start: no assets, an empty command line, changes by
    /// the day.
    pub fn new() -> (state: State)
        ensures
            state.assets@ == Seq::<Asset>::empty(),
            state.internal_terminal@ == Seq::<char>::empty(),
            state.interval == Interval::Day,
    {
        State {
            assets: Vec::new(),
            internal_terminal: InternalTerminalState::new(),
            interval: Interval::Day,
        }
    }

    /// The position of the first asset with the given ticker, or the number
    /// of assets where none has it.
    pub fn position(&self, ticker: &str) -> (at: usize)
        ensures
            at == position_of(self.assets@, ticker@),
            at <= self.assets@.len(),
    {
        let mut at: usize = 0;
        while at < self.assets.len() && !text_is(self.assets[at].get_ticker(), ticker)
            invariant
                at <= self.assets@.len(),
                forall|k: int| 0 <= k < at ==> (#[trigger] self.assets@[k])@.ticker != ticker@,
            decreases self.assets.len() - at,
        {
            at = at + 1;
        }
        proof {
            lemma_position_is(self.assets@, ticker@, at as int);
        }
        at
    }

    /// Puts `asset` in: in the place of the asset with the same ticker, or
    /// behind the others where there is none.
    pub fn insert(&mut self, asset: Asset)
        ensures
            final(self).assets@ == with_asset(old(self).assets@, asset),
            final(self).internal_terminal == old(self).internal_terminal,
            final(self).interval == old(self).interval,
            distinct_tickers(old(self).assets@) ==> distinct_tickers(final(self).assets@),
            position_of(final(self).assets@, asset@.ticker) < final(self).assets@.len(),
    {
        proof {
            lemma_position_of(self.assets@, asset@.ticker);
            lemma_position_is(
                with_asset(self.assets@, asset),
                asset@.ticker,
                position_of(self.assets@, asset@.ticker),
            );
            if distinct_tickers(self.assets@) {
                lemma_insert_keeps_distinct(self.assets@, asset);
            }
        }
        let at: usize = self.position(asset.get_ticker());
        if at < self.assets.len() {
            self.assets[at] = asset;
        } else {
            self.assets.push(asset);
        }
    }

    /// Takes out the asset with the given ticker, if there is one.
    pub fn remove(&mut self, ticker: &str)
        ensures
            final(self).assets@ == without_ticker(old(self).assets@, ticker@),
            final(self).internal_terminal == old(self).internal_terminal,
            final(self).interval == old(self).interval,
            distinct_tickers(old(self).assets@) ==> {
                &&& distinct_tickers(final(self).assets@)
                &&& position_of(final(self).assets@, ticker@) == final(self).assets@.len()
            },
    {
        proof {
            if distinct_tickers(self.assets@) {
                lemma_remove_keeps_distinct(self.assets@, ticker@);
            }
        }
        let at: usize = self.position(ticker);
        if at < self.assets.len() {
            self.assets.remove(at);
        }
    }

    /// The assets as the heatmap sees them, in their order.
    pub fn entities(&self) -> (entities: Vec<WeightedEntity>)
        ensures
            entities@.len() == self.assets@.len(),
            forall|k: int|
                0 <= k < entities@.len() ==> {
                    &&& (#[trigger] entities@[k]).label@ == self.assets@[k]@.ticker
                    &&& entities@[k].weight == self.assets@[k]@.market_cap
                    &&& entities@[k].change@ == ChangeView::between(
                        self.assets@[k]@.prev_price,
                        self.assets@[k]@.price,
                    )
                },
    {
        let mut entities: Vec<WeightedEntity> = Vec::new();
        let mut k: usize = 0;
        while k < self.assets.len()
            invariant
                k <= self.assets@.len(),
                entities@.len() == k,
                forall|j: int|
                    0 <= j < k ==> {
                        &&& (#[trigger] entities@[j]).label@ == self.assets@[j]@.ticker
                        &&& entities@[j].weight == self.assets@[j]@.market_cap
                        &&& entities@[j].change@ == ChangeView::between(
                            self.assets@[j]@.prev_price,
                            self.assets@[j]@.price,
                        )
                    },
            decreases self.assets.len() - k,
        {
            entities.push(self.assets[k].entity());
            k = k + 1;
        }
        entities
    }

    /// Applies a command. `EXIT` asks the caller to leave; `ADD` asks the
    /// caller to fetch the asset; `REMOVE` takes the asset out; `INTERVAL`
    /// selects the interval whose label the subject is, and changes nothing
    /// where it is the label of none.
    pub fn apply(&mut self, command: Command) -> (action: Action)
        ensures
            final(self).internal_terminal == old(self).internal_terminal,
            distinct_tickers(old(self).assets@) ==> distinct_tickers(final(self).assets@),
            match command@ {
                CommandView::Exit => {
                    &&& action == Action::Quit
                    &&& final(self).assets@ == old(self).assets@
                    &&& final(self).interval == old(self).interval
                },
                CommandView::AddAsset(ticker) => {
                    &&& action matches Action::Fetch(wanted)
                    &&& wanted@ == ticker
                    &&& final(self).assets@ == old(self).assets@
                    &&& final(self).interval == old(self).interval
                },
                CommandView::RemoveAsset(ticker) => {
                    &&& action == Action::Continue
                    &&& final(self).assets@ == without_ticker(old(self).assets@, ticker)
                    &&& final(self).interval == old(self).interval
                },
                CommandView::ChangeInterval(label) => {
                    &&& action == Action::Continue
                    &&& final(self).assets@ == old(self).assets@
                    &&& final(self).interval == match Interval::parse_spec(label) {
                        Some(interval) => interval,
                        None => old(self).interval,
                    }
                },
            },
    {
        match command {
            Command::Exit => Action::Quit,
            Command::AddAsset(ticker) => Action::Fetch(ticker),
            Command::RemoveAsset(ticker) => {
                self.remove(ticker.as_str());
                Action::Continue
            },
            Command::ChangeInterval(label) => {
                match Interval::parse(label.as_str()) {
                    Some(interval) => {
                        self.interval = interval;
                    },
                    None => {},
                }
                Action::Continue
            },
        }
    }
}

impl Default for State {
    /// The state at the start.
    fn default() -> (state: State)
        ensures
            state.assets@ == Seq::<Asset>::empty(),
            state.internal_terminal@ == Seq::<char>::empty(),
            state.interval == Interval::Day,
    {
        State::new()
    }
}

} // verus!
