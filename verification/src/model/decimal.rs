use vstd::prelude::*;

verus! {

/// Largest candle-price magnitude the engine accepts, in quanta.
///
/// The breakout engine projects targets like `2 * low - high`, up to three
/// times a candle price, and risk:reward numerators subtract two such
/// values; keeping candle prices within `PRICE_LIMIT` keeps all of that
/// comfortably inside `i64`, and every cross-multiplication of ratios
/// inside `i128`.
pub const PRICE_LIMIT: i64 = 0x10_0000_0000_0000;

/// An exact price: an integer count of a fixed decimal quantum.
///
/// The loader picks one quantum (a power of ten) for a whole candle series
/// and converts every decimal price to a multiple of it, so comparisons,
/// sums and differences of prices are exact integer arithmetic.
#[derive(Clone, Copy, Debug, PartialEq, Eq, Structural)]
pub struct DecimalVec(pub i64);

/// A price the engine may do arithmetic on.
pub open spec fn price_bounded(p: DecimalVec) -> bool {
    -PRICE_LIMIT <= p.0 <= PRICE_LIMIT
}

impl DecimalVec {
    pub fn new(v: i32) -> (r: Self)
        ensures
            r.0 == v as i64,
            price_bounded(r),
    {
        DecimalVec(v as i64)
    }
}

} // verus!
