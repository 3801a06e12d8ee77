use vstd::prelude::*;

use super::ratio::{
    gcd_u128, lemma_cross_mul_bounded, lemma_gcd_divides, lemma_reduce_pair, ratio_bounded,
    reduce_pair, spec_gcd, Ratio, RATIO_LIMIT,
};
use vstd::arithmetic::div_mod::{lemma_div_of0, lemma_fundamental_div_mod};
use vstd::arithmetic::mul::lemma_mul_equality_converse;
use vstd::math::abs;
use super::trade::{spec_trade_rr, trade_wf, Trade};
use super::trade_result::TradeResult;

verus! {

/// The complete, ordered list of trades one engine run produced. Summary
/// statistics are derived on demand and never cached.
pub struct BacktestResult {
    pub trades: Vec<Trade>,
}

/// How many of the trades carry the given result kind.
pub open spec fn count_results(s: Seq<Trade>, tr: TradeResult) -> nat
    decreases s.len(),
{
    if s.len() == 0 {
        0
    } else {
        count_results(s.drop_last(), tr) + if s.last().result == tr {
            1nat
        } else {
            0nat
        }
    }
}

/// What one trade contributes to the realized profit, in risk multiples:
/// its risk:reward if it won, minus one risk unit if it stopped out, nothing
/// if it went out at break-even.
pub open spec fn trade_term(t: Trade) -> Ratio {
    match t.result {
        TradeResult::Winner => spec_trade_rr(t),
        TradeResult::Expense => Ratio { num: -1i128, den: 1i128 },
        TradeResult::BreakEven => Ratio { num: 0i128, den: 1i128 },
    }
}

/// The exact sum of the trades' profit terms, as an unreduced rational
/// numerator/denominator pair over the unbounded integers.
pub open spec fn rr_sum(s: Seq<Trade>) -> (int, int)
    decreases s.len(),
{
    if s.len() == 0 {
        (0int, 1int)
    } else {
        let t = trade_term(s.first());
        let rest = rr_sum(s.drop_first());
        (t.num * rest.1 + rest.0 * t.den, t.den * rest.1)
    }
}

/// The same sum as `rr_sum`, but over machine integers: at each step the
/// running pair is reduced by its gcd, and the reduced numerator and
/// denominator must stay within `RATIO_LIMIT`, otherwise the sum is `None`.
pub open spec fn rr_sum_checked(s: Seq<Trade>) -> Option<Ratio>
    decreases s.len(),
{
    if s.len() == 0 {
        Some(Ratio { num: 0i128, den: 1i128 })
    } else {
        let t = trade_term(s.first());
        match rr_sum_checked(s.drop_first()) {
            None => None,
            Some(rest) => {
                let num: int = t.num * rest.den + rest.num * t.den;
                let den: int = t.den * rest.den;
                let reduced = reduce_pair(num, den);
                if -RATIO_LIMIT <= reduced.0 <= RATIO_LIMIT && 0 < reduced.1 <= RATIO_LIMIT {
                    Some(Ratio { num: reduced.0 as i128, den: reduced.1 as i128 })
                } else {
                    None
                }
            },
        }
    }
}

/// The checked sum, when it exists, equals the mathematical sum of the
/// trades' profit terms as a rational: risk:reward per winner, minus one
/// per expense, nothing per break-even. Both denominators are positive, so
/// the cross-multiplied equality is rational equality.
pub proof fn lemma_profit_is_sum(s: Seq<Trade>)
    ensures
        rr_sum_checked(s) matches Some(r) ==> {
            &&& r.den > 0
            &&& rr_sum(s).1 > 0
            &&& r.num * rr_sum(s).1 == rr_sum(s).0 * r.den
        },
    decreases s.len(),
{
    if s.len() > 0 {
        lemma_profit_is_sum(s.drop_first());
        let t = trade_term(s.first());
        match rr_sum_checked(s.drop_first()) {
            None => {},
            Some(rest) => {
                let exact = rr_sum(s.drop_first());
                let num: int = t.num * (rest.den as int) + (rest.num as int) * t.den;
                let den: int = t.den * (rest.den as int);
                let reduced = reduce_pair(num, den);
                if -RATIO_LIMIT <= reduced.0 <= RATIO_LIMIT && 0 < reduced.1 <= RATIO_LIMIT {
                    // the reduced pair is Some: its denominator is positive,
                    // so the unreduced one was too, and the term's was
                    assert(t.den as int >= 0);
                    assert(den >= 0) by (nonlinear_arith)
                        requires
                            den == t.den as int * rest.den as int,
                            t.den as int >= 0,
                            rest.den as int > 0,
                    ;
                    if den == 0 {
                        lemma_reduce_pair_den_zero(num);
                    }
                    let g = spec_gcd(abs(num), den as nat) as int;
                    lemma_reduce_pair(num, den);
                    assert(t.den as int > 0) by (nonlinear_arith)
                        requires
                            den == t.den as int * rest.den as int,
                            den > 0,
                            rest.den as int > 0,
                    ;
                    assert(rr_sum(s).0 == t.num * exact.1 + exact.0 * t.den);
                    assert(rr_sum(s).1 == t.den * exact.1);
                    assert(rr_sum(s).1 > 0) by (nonlinear_arith)
                        requires
                            rr_sum(s).1 == t.den as int * exact.1,
                            t.den as int > 0,
                            exact.1 > 0,
                    ;
                    // the unreduced pair equals the exact sum as rationals
                    let tn: int = t.num as int;
                    let td: int = t.den as int;
                    let rn: int = rest.num as int;
                    let rd: int = rest.den as int;
                    let e0: int = exact.0;
                    let e1: int = exact.1;
                    assert((tn * rd + rn * td) * (td * e1) == tn * rd * td * e1 + rn * td * td
                        * e1) by (nonlinear_arith);
                    assert((tn * e1 + e0 * td) * (td * rd) == tn * e1 * td * rd + e0 * td * td
                        * rd) by (nonlinear_arith);
                    assert(rn * td * td * e1 == e0 * td * td * rd) by (nonlinear_arith)
                        requires
                            rn * e1 == e0 * rd,
                    ;
                    assert(tn * rd * td * e1 == tn * e1 * td * rd) by (nonlinear_arith);
                    assert((tn * rd + rn * td) * (td * e1) == (tn * e1 + e0 * td) * (td * rd));
                    assert(num == tn * rd + rn * td);
                    assert(den == td * rd);
                    assert(rr_sum(s).0 == tn * e1 + e0 * td);
                    assert(rr_sum(s).1 == td * e1);
                    assert(num * rr_sum(s).1 == rr_sum(s).0 * den);
                    // dividing both components by the gcd preserves the value
                    assert(g * (reduced.0 * rr_sum(s).1) == g * (rr_sum(s).0 * reduced.1))
                        by (nonlinear_arith)
                        requires
                            num == g * reduced.0,
                            den == g * reduced.1,
                            num * rr_sum(s).1 == rr_sum(s).0 * den,
                    ;
                    lemma_mul_equality_converse(
                        g,
                        reduced.0 * rr_sum(s).1,
                        rr_sum(s).0 * reduced.1,
                    );
                } else {
                    assert(rr_sum_checked(s) is None);
                }
            },
        }
    }
}

/// Reducing a pair with a zero denominator cannot yield a positive one.
proof fn lemma_reduce_pair_den_zero(num: int)
    ensures
        reduce_pair(num, 0).1 <= 0,
{
    let g = spec_gcd(abs(num), 0nat) as int;
    if g > 0 {
        lemma_div_of0(g);
        assert(reduce_pair(num, 0).1 == 0int / g);
    }
}

/// Once the running sum has left the representable range on a suffix, the
/// whole sum is unrepresentable too.
proof fn lemma_none_propagates(s: Seq<Trade>, k: int)
    requires
        0 <= k <= s.len(),
        rr_sum_checked(s.skip(k)) is None,
    ensures
        rr_sum_checked(s) is None,
    decreases k,
{
    if k > 0 {
        assert(s.skip(k - 1).drop_first() =~= s.skip(k));
        lemma_none_propagates(s, k - 1);
    } else {
        assert(s.skip(0) =~= s);
    }
}

impl BacktestResult {
    pub fn number_of_trades(&self) -> (n: usize)
        ensures
            n == self.trades@.len(),
    {
        self.trades.len()
    }

    /// How many trades finished with the given result kind.
    pub fn result(&self, tr: TradeResult) -> (n: usize)
        ensures
            n == count_results(self.trades@, tr),
    {
        let mut n: usize = 0;
        let mut i: usize = 0;
        while i < self.trades.len()
            invariant
                i <= self.trades@.len(),
                n == count_results(self.trades@.take(i as int), tr),
                n <= i,
            decreases self.trades@.len() - i,
        {
            proof {
                assert(self.trades@.take(i + 1).drop_last() =~= self.trades@.take(i as int));
                assert(self.trades@.take(i + 1).last() == self.trades@[i as int]);
            }
            if self.trades[i].result == tr {
                n = n + 1;
            }
            i = i + 1;
        }
        proof {
            assert(self.trades@.take(self.trades@.len() as int) =~= self.trades@);
        }
        n
    }

    /// Total realized profit in risk multiples, as an exact rational:
    /// the sum over all trades of the risk:reward for a winner, minus one
    /// for an expense and zero for a break-even. `None` exactly when an
    /// intermediate numerator or denominator of the running sum leaves
    /// `RATIO_LIMIT`.
    pub fn profit_in_r(&self) -> (r: Option<Ratio>)
        requires
            forall|i: int| 0 <= i < self.trades@.len() ==> trade_wf(#[trigger] self.trades@[i]),
        ensures
            r == rr_sum_checked(self.trades@),
    {
        let mut acc = Ratio { num: 0, den: 1 };
        let mut i: usize = self.trades.len();
        while i > 0
            invariant
                i <= self.trades@.len(),
                forall|j: int| 0 <= j < self.trades@.len() ==> trade_wf(#[trigger] self.trades@[j]),
                rr_sum_checked(self.trades@.skip(i as int)) == Some(acc),
                ratio_bounded(acc),
            decreases i,
        {
            i = i - 1;
            let t = &self.trades[i];
            let term = match t.result {
                TradeResult::Winner => t.rr(),
                TradeResult::Expense => Ratio { num: -1, den: 1 },
                TradeResult::BreakEven => Ratio { num: 0, den: 1 },
            };
            proof {
                assert(self.trades@.skip(i as int).first() == self.trades@[i as int]);
                assert(self.trades@.skip(i as int).drop_first() =~= self.trades@.skip(i + 1));
                lemma_cross_mul_bounded(term.num as int, acc.den as int);
                lemma_cross_mul_bounded(acc.num as int, term.den as int);
                lemma_cross_mul_bounded(term.den as int, acc.den as int);
            }
            let num: i128 = term.num * acc.den + acc.num * term.den;
            let den: i128 = term.den * acc.den;
            proof {
                assert(term.den as int * acc.den as int > 0) by (nonlinear_arith)
                    requires
                        term.den as int > 0,
                        acc.den as int > 0,
                ;
            }
            let num_mag: u128 = if num < 0 {
                (-num) as u128
            } else {
                num as u128
            };
            let g: u128 = gcd_u128(num_mag, den as u128);
            proof {
                lemma_reduce_pair(num as int, den as int);
                assert(num_mag as nat == abs(num as int));
                assert(g as int > 0);
            }
            let rn_mag: u128 = num_mag / g;
            let rd_u: u128 = den as u128 / g;
            proof {
                let gi = g as int;
                let r = reduce_pair(num as int, den as int);
                lemma_gcd_divides(num_mag as nat, (den as u128) as nat);
                lemma_fundamental_div_mod(num_mag as int, gi);
                lemma_fundamental_div_mod(den as int, gi);
                assert(num_mag as int == gi * (rn_mag as int));
                assert(den as int == gi * (rd_u as int));
                // the machine quotients match the spec's reduced pair
                if num < 0 {
                    assert(gi * (-(rn_mag as int)) == gi * r.0) by (nonlinear_arith)
                        requires
                            num_mag as int == gi * (rn_mag as int),
                            num as int == -(num_mag as int),
                            num as int == gi * r.0,
                    ;
                    lemma_mul_equality_converse(gi, -(rn_mag as int), r.0);
                } else {
                    assert(gi * (rn_mag as int) == gi * r.0) by (nonlinear_arith)
                        requires
                            num_mag as int == gi * (rn_mag as int),
                            num as int == num_mag as int,
                            num as int == gi * r.0,
                    ;
                    lemma_mul_equality_converse(gi, rn_mag as int, r.0);
                }
                assert(gi * (rd_u as int) == gi * r.1) by (nonlinear_arith)
                    requires
                        den as int == gi * (rd_u as int),
                        den as int == gi * r.1,
                ;
                lemma_mul_equality_converse(gi, rd_u as int, r.1);
                // the quotients stay within the original magnitudes
                assert(rn_mag as int <= num_mag as int) by (nonlinear_arith)
                    requires
                        num_mag as int == gi * (rn_mag as int),
                        gi >= 1,
                        rn_mag as int >= 0,
                ;
                assert(rd_u as int <= den as int) by (nonlinear_arith)
                    requires
                        den as int == gi * (rd_u as int),
                        gi >= 1,
                        rd_u as int >= 0,
                ;
            }
            let rn: i128 = if num < 0 {
                -(rn_mag as i128)
            } else {
                rn_mag as i128
            };
            let rd: i128 = rd_u as i128;
            if -RATIO_LIMIT <= rn && rn <= RATIO_LIMIT && 0 < rd && rd <= RATIO_LIMIT {
                acc = Ratio { num: rn, den: rd };
            } else {
                proof {
                    lemma_none_propagates(self.trades@, i as int);
                }
                return None;
            }
        }
        proof {
            assert(self.trades@.skip(0) =~= self.trades@);
        }
        Some(acc)
    }
}

} // verus!
