use vstd::prelude::*;

verus! {

/// One kline record as the Binance REST API returns it: decimal prices as
/// strings and millisecond timestamps. Decoding the surrounding JSON and
/// parsing the price strings are the loader's job; the engine only ever
/// sees fully converted candles.
#[derive(Clone, Debug)]
pub struct BinanceKlinesItem {
    pub open_time: u64,
    pub open: String,
    pub high: String,
    pub low: String,
    pub close: String,
    pub volume: String,
    pub close_time: u64,
    pub quote_asset_volume: String,
    pub number_of_trades: u64,
    pub taker_buy_base_asset_volume: String,
    pub taker_buy_quote_asset_volume: String,
    pub ignore: String,
}

} // verus!
