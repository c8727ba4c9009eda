//! An asset of the dashboard: what the market-data provider last reported
//! of one ticker.

use vstd::prelude::*;
use crate::change::{Change, ChangeView};
use crate::entity::WeightedEntity;

verus! {

/// The model of an asset.
pub struct AssetView {
    pub ticker: Seq<char>,
    pub price: nat,
    pub prev_price: nat,
    pub market_cap: nat,
}

/// An asset: its ticker, its last two prices and its market capitalisation.
///
/// Prices are whole numbers of one unit that the caller chooses, small enough
/// for the changes that matter (a ten-thousandth of the currency, say).
#[derive(Debug)]
pub struct Asset {
    ticker: String,
    price: u64,
    prev_price: u64,
    market_cap: u64,
}

impl View for Asset {
    type V = AssetView;

    closed spec fn view(&self) -> AssetView {
        AssetView {
            ticker: self.ticker@,
            price: self.price as nat,
            prev_price: self.prev_price as nat,
            market_cap: self.market_cap as nat,
        }
    }
}

impl Asset {
    /// The asset `ticker` with the given earlier price, latest price and
    /// market capitalisation.
    pub fn new(ticker: String, prev_price: u64, price: u64, market_cap: u64) -> (asset: Asset)
        ensures
            asset@ == (AssetView {
                ticker: ticker@,
                price: price as nat,
                prev_price: prev_price as nat,
                market_cap: market_cap as nat,
            }),
    {
        Asset { ticker, price, prev_price, market_cap }
    }

    /// The ticker.
    pub fn get_ticker(&self) -> (ticker: &str)
        ensures
            ticker@ == self@.ticker,
    {
        self.ticker.as_str()
    }

    /// The market capitalisation.
    pub fn get_market_cap(&self) -> (market_cap: u64)
        ensures
            market_cap == self@.market_cap,
    {
        self.market_cap
    }

    /// The latest price.
    pub fn get_price(&self) -> (price: u64)
        ensures
            price == self@.price,
    {
        self.price
    }

    /// The price before the latest.
    pub fn get_prev_price(&self) -> (price: u64)
        ensures
            price == self@.prev_price,
    {
        self.prev_price
    }

    /// The change from the earlier to the latest price, as a fraction of
    /// the earlier price; none where the earlier price is 0.
    pub fn get_percentage_price_change(&self) -> (change: Change)
        ensures
            change@ == ChangeView::between(self@.prev_price, self@.price),
    {
        Change::between(self.prev_price, self.price)
    }

    /// Replaces the prices and the market capitalisation by what the
    /// provider reports now. The ticker stays.
    pub fn update(&mut self, prev_price: u64, price: u64, market_cap: u64)
        ensures
            final(self)@ == (AssetView {
                ticker: old(self)@.ticker,
                price: price as nat,
                prev_price: prev_price as nat,
                market_cap: market_cap as nat,
            }),
    {
        self.prev_price = prev_price;
        self.price = price;
        self.market_cap = market_cap;
    }

    /// The asset as the heatmap sees it: labelled by its ticker, sized by its
    /// market capitalisation, coloured by its price change.
    pub fn entity(&self) -> (entity: WeightedEntity)
        ensures
            entity.label@ == self@.ticker,
            entity.weight == self@.market_cap,
            entity.change@ == ChangeView::between(self@.prev_price, self@.price),
    {
        WeightedEntity {
            label: self.ticker.clone(),
            weight: self.market_cap,
            change: Change::between(self.prev_price, self.price),
        }
    }
}

} // verus!
