//! The breakout backtest engine.
//!
//! A long-only moving-average breakout strategy over a strictly
//! date-increasing net-value series: enter when the value exceeds the
//! trailing `buy_period`-observation high, exit when it falls below the
//! trailing `sell_period`-observation low, both windows excluding the current
//! observation. The engine holds either capital or shares, never both
//! ([`lemma_engine_state_exclusive`]); at the series end any open position is
//! marked to market, so the outcome is all capital.
//!
//! All arithmetic is exact fixed-point: values in 1/10000 units, capital in
//! 1/10000 units, shares scaled by a further 10^8. An overflow of these wide
//! intermediates, a division by a non-positive value, and a malformed input
//! series are all reported as errors, never truncated silently.

use vstd::prelude::*;
use crate::errors::Error;
use crate::fund_value_model::FundValueData;
use crate::numparse::{date_string_val, parse_date_string, MARKET_CLOSE_UTC_SECONDS};

verus! {

/// The fixed notional the strategy starts with, in 1/10000 units: 100 units.
pub const INITIAL_CAPITAL: u128 = 1000000;

/// How many share-scale steps make one share.
pub const SHARE_SCALE: u128 = 100000000;

/// The engine's running state: remaining capital, held shares (scaled by
/// [`SHARE_SCALE`]), and the number of entries taken.
#[derive(Debug, PartialEq, Eq, Structural, Clone, Copy)]
pub struct EngineState {
    pub capital: u128,
    pub shares: u128,
    pub trades: u64,
}

/// The mutual-exclusion invariant: the engine never holds positive capital
/// and positive shares at once.
pub open spec fn state_exclusive(st: EngineState) -> bool {
    st.capital == 0 || st.shares == 0
}

/// The largest value of a window, starting from the smallest `i64`.
pub open spec fn seq_max(s: Seq<i64>) -> int
    decreases s.len(),
{
    if s.len() == 0 {
        i64::MIN as int
    } else {
        let rest = seq_max(s.drop_last());
        if rest > s.last() as int {
            rest
        } else {
            s.last() as int
        }
    }
}

/// The smallest value of a window, starting from the largest `i64`.
pub open spec fn seq_min(s: Seq<i64>) -> int
    decreases s.len(),
{
    if s.len() == 0 {
        i64::MAX as int
    } else {
        let rest = seq_min(s.drop_last());
        if rest < s.last() as int {
            rest
        } else {
            s.last() as int
        }
    }
}

/// One observation step: liquidate when long and the value undercuts the
/// trailing low, then enter when flat and the value exceeds the trailing
/// high. `None` is an arithmetic failure: a non-positive value used in a
/// trade, an overflowing product, or an exhausted trade counter.
pub open spec fn spec_step(st: EngineState, v: i64, buy_high: int, sell_low: int) -> Option<
    EngineState,
> {
    let sold = if st.shares > 0 && (v as int) < sell_low {
        if v <= 0 {
            None
        } else if st.shares * (v as int) > u128::MAX {
            None
        } else {
            Some(
                EngineState {
                    capital: (st.shares * (v as int) / (SHARE_SCALE as int)) as u128,
                    shares: 0,
                    trades: st.trades,
                },
            )
        }
    } else {
        Some(st)
    };
    match sold {
        None => None,
        Some(s1) => if s1.shares == 0 && (v as int) > buy_high {
            if v <= 0 {
                None
            } else if s1.capital * (SHARE_SCALE as int) > u128::MAX {
                None
            } else if s1.trades == u64::MAX {
                None
            } else {
                Some(
                    EngineState {
                        capital: 0,
                        shares: (s1.capital * (SHARE_SCALE as int) / (v as int)) as u128,
                        trades: (s1.trades + 1) as u64,
                    },
                )
            }
        } else {
            Some(s1)
        },
    }
}

/// The state after evaluating observations `i..` of the series.
pub open spec fn spec_run(values: Seq<i64>, buy: nat, sell: nat, i: nat, st: EngineState) -> Option<
    EngineState,
>
    decreases values.len() - i,
{
    if i >= values.len() {
        Some(st)
    } else {
        let buy_high = seq_max(values.subrange(i - buy, i as int));
        let sell_low = seq_min(values.subrange(i - sell, i as int));
        match spec_step(st, values[i as int], buy_high, sell_low) {
            None => None,
            Some(st2) => spec_run(values, buy, sell, i + 1, st2),
        }
    }
}

/// One step preserves the mutual exclusion of capital and shares.
pub proof fn lemma_step_exclusive(st: EngineState, v: i64, buy_high: int, sell_low: int)
    requires
        state_exclusive(st),
    ensures
        spec_step(st, v, buy_high, sell_low) matches Some(st2) ==> state_exclusive(st2),
{
}

/// The engine never holds positive capital and positive shares at once: from
/// an exclusive state, every state the evaluation passes through — and the
/// one it ends in — is exclusive again.
pub proof fn lemma_engine_state_exclusive(
    values: Seq<i64>,
    buy: nat,
    sell: nat,
    i: nat,
    st: EngineState,
)
    requires
        state_exclusive(st),
    ensures
        spec_run(values, buy, sell, i, st) matches Some(st2) ==> state_exclusive(st2),
    decreases values.len() - i,
{
    if i < values.len() {
        let buy_high = seq_max(values.subrange(i - buy, i as int));
        let sell_low = seq_min(values.subrange(i - sell, i as int));
        match spec_step(st, values[i as int], buy_high, sell_low) {
            None => {},
            Some(st2) => {
                lemma_step_exclusive(st, values[i as int], buy_high, sell_low);
                lemma_engine_state_exclusive(values, buy, sell, i + 1, st2);
            },
        }
    }
}

/// The timestamps of a record sequence's dates, at the market-close instant;
/// `None` as soon as one date is no strict `yyyy-mm-dd` date.
pub open spec fn spec_timestamps(data: Seq<(Seq<char>, int)>) -> Option<Seq<int>>
    decreases data.len(),
{
    if data.len() == 0 {
        Some(Seq::empty())
    } else {
        match date_string_val(data[0].0) {
            None => None,
            Some(t) => match spec_timestamps(data.skip(1)) {
                None => None,
                Some(rest) => Some(seq![t + MARKET_CLOSE_UTC_SECONDS] + rest),
            },
        }
    }
}

pub open spec fn strictly_increasing(ts: Seq<int>) -> bool {
    forall|i: int, j: int| 0 <= i < j < ts.len() ==> ts[i] < ts[j]
}

/// The values of a record sequence, where each fits `i64`.
pub open spec fn spec_values(data: Seq<(Seq<char>, int)>) -> Seq<i64> {
    data.map(|i: int, r: (Seq<char>, int)| r.1 as i64)
}

/// What a backtest over a record sequence denotes: the final capital after
/// marking any open position to market, the number of entries taken, and the
/// elapsed seconds between the first and last observation. `None` exactly on
/// the inputs the engine rejects: a malformed date, a series not strictly
/// increasing by date, an empty series, a zero-length elapsed span, and an
/// arithmetic failure during evaluation.
pub open spec fn spec_backtest(data: Seq<(Seq<char>, int)>, buy: nat, sell: nat) -> Option<
    (u128, u64, int),
> {
    match spec_timestamps(data) {
        None => None,
        Some(ts) => if !strictly_increasing(ts) {
            None
        } else if data.len() == 0 {
            None
        } else {
            let elapsed = ts.last() - ts.first();
            if elapsed <= 0 {
                None
            } else {
                let values = spec_values(data);
                let start = if buy > sell {
                    buy
                } else {
                    sell
                };
                let init = EngineState { capital: INITIAL_CAPITAL as u128, shares: 0, trades: 0 };
                match spec_run(values, buy, sell, start, init) {
                    None => None,
                    Some(st) => if st.shares > 0 {
                        let v = values.last();
                        if v <= 0 {
                            None
                        } else if st.shares * (v as int) > u128::MAX {
                            None
                        } else {
                            Some(
                                (
                                    (st.shares * (v as int) / (SHARE_SCALE as int)) as u128,
                                    st.trades,
                                    elapsed,
                                ),
                            )
                        }
                    } else {
                        Some((st.capital, st.trades, elapsed))
                    },
                }
            }
        },
    }
}

/// The outcome of a backtest: all capital (any open position marked to
/// market at the last observation), the number of entries taken, and the
/// elapsed span of the series in seconds. The annualized return and the
/// trade frequency follow from these three by the caller's floating-point
/// arithmetic.
#[derive(Debug, PartialEq, Eq, Structural, Clone, Copy)]
pub struct BacktestOutcome {
    pub final_capital: u128,
    pub trade_count: u64,
    pub elapsed_seconds: i64,
}

/// The largest value in `values[a..b]`, starting from the smallest `i64`.
fn max_in_range(values: &Vec<i64>, a: usize, b: usize) -> (r: i64)
    requires
        a <= b <= values@.len(),
    ensures
        r as int == seq_max(values@.subrange(a as int, b as int)),
{
    let ghost win = values@.subrange(a as int, b as int);
    let mut r: i64 = i64::MIN;
    let mut i: usize = a;
    proof {
        assert(win.take(0) =~= Seq::<i64>::empty());
    }
    while i < b
        invariant
            a <= i <= b <= values@.len(),
            win == values@.subrange(a as int, b as int),
            r as int == seq_max(win.take(i - a)),
        decreases b - i,
    {
        proof {
            assert(win.take(i + 1 - a).drop_last() =~= win.take(i - a));
            assert(win.take(i + 1 - a).last() == values@[i as int]);
        }
        if values[i] > r {
            r = values[i];
        }
        i = i + 1;
    }
    proof {
        assert(win.take(i - a) =~= win);
    }
    r
}

/// The smallest value in `values[a..b]`, starting from the largest `i64`.
fn min_in_range(values: &Vec<i64>, a: usize, b: usize) -> (r: i64)
    requires
        a <= b <= values@.len(),
    ensures
        r as int == seq_min(values@.subrange(a as int, b as int)),
{
    let ghost win = values@.subrange(a as int, b as int);
    let mut r: i64 = i64::MAX;
    let mut i: usize = a;
    proof {
        assert(win.take(0) =~= Seq::<i64>::empty());
    }
    while i < b
        invariant
            a <= i <= b <= values@.len(),
            win == values@.subrange(a as int, b as int),
            r as int == seq_min(win.take(i - a)),
        decreases b - i,
    {
        proof {
            assert(win.take(i + 1 - a).drop_last() =~= win.take(i - a));
            assert(win.take(i + 1 - a).last() == values@[i as int]);
        }
        if values[i] < r {
            r = values[i];
        }
        i = i + 1;
    }
    proof {
        assert(win.take(i - a) =~= win);
    }
    r
}

/// The largest value of a series, mirroring a fold from the smallest `i64`;
/// the smallest `i64` itself for an empty series.
pub fn max(values: &Vec<i64>) -> (r: i64)
    ensures
        r as int == seq_max(values@),
{
    let n = values.len();
    let r = max_in_range(values, 0, n);
    proof {
        assert(values@.subrange(0, n as int) =~= values@);
    }
    r
}

/// The smallest value of a series, mirroring a fold from the largest `i64`;
/// the largest `i64` itself for an empty series.
pub fn min(values: &Vec<i64>) -> (r: i64)
    ensures
        r as int == seq_min(values@),
{
    let n = values.len();
    let r = min_in_range(values, 0, n);
    proof {
        assert(values@.subrange(0, n as int) =~= values@);
    }
    r
}

/// The sum of a series.
pub open spec fn seq_sum(s: Seq<i64>) -> int
    decreases s.len(),
{
    if s.len() == 0 {
        0
    } else {
        seq_sum(s.drop_last()) + s.last()
    }
}

/// The average of a series: the sum over the length, truncated toward zero;
/// zero for an empty series.
pub open spec fn spec_average(s: Seq<i64>) -> int {
    if s.len() == 0 {
        0
    } else {
        let t = seq_sum(s);
        if t >= 0 {
            t / (s.len() as int)
        } else {
            -((-t) / (s.len() as int))
        }
    }
}

proof fn lemma_seq_sum_bounds(s: Seq<i64>)
    ensures
        (s.len() as int) * (i64::MIN as int) <= seq_sum(s) <= (s.len() as int) * (i64::MAX as int),
    decreases s.len(),
{
    if s.len() == 0 {
    } else {
        lemma_seq_sum_bounds(s.drop_last());
        let k = s.len() - 1;
        assert((k + 1) * (i64::MAX as int) == k * (i64::MAX as int) + i64::MAX) by (nonlinear_arith);
        assert((k + 1) * (i64::MIN as int) == k * (i64::MIN as int) + i64::MIN) by (nonlinear_arith);
    }
}

/// A nonnegative quantity at most `len * m` divides by `len` to at most `m`.
proof fn lemma_div_bound(a: int, len: int, m: int)
    requires
        a >= 0,
        len >= 1,
        m >= 0,
        a <= len * m,
    ensures
        a / len <= m,
{
    assert(a / len <= m) by (nonlinear_arith)
        requires
            a >= 0,
            len >= 1,
            m >= 0,
            a <= len * m,
    ;
}

/// The average of a series, in the same fixed-point units: the sum over the
/// count, truncated; zero for an empty series.
pub fn calculate_average(values: &Vec<i64>) -> (r: i64)
    ensures
        r as int == spec_average(values@),
{
    let n = values.len();
    if n == 0 {
        return 0;
    }
    let mut acc: i128 = 0;
    let mut i: usize = 0;
    proof {
        assert(values@.take(0) =~= Seq::<i64>::empty());
    }
    while i < n
        invariant
            i <= n,
            n == values@.len(),
            acc == seq_sum(values@.take(i as int)),
            (i as int) * (i64::MIN as int) <= acc <= (i as int) * (i64::MAX as int),
        decreases n - i,
    {
        proof {
            assert(values@.take(i + 1).drop_last() =~= values@.take(i as int));
            assert(values@.take(i + 1).last() == values@[i as int]);
            lemma_seq_sum_bounds(values@.take(i + 1));
        }
        acc = acc + values[i] as i128;
        i = i + 1;
    }
    proof {
        assert(values@.take(n as int) =~= values@);
        lemma_seq_sum_bounds(values@);
    }
    if acc >= 0 {
        let q: u128 = (acc as u128) / (n as u128);
        proof {
            lemma_div_bound(acc as int, n as int, i64::MAX as int);
        }
        q as i64
    } else {
        let q: u128 = ((-acc) as u128) / (n as u128);
        proof {
            lemma_div_bound(-acc as int, n as int, -(i64::MIN as int));
        }
        if q == 9223372036854775808u128 {
            i64::MIN
        } else {
            -(q as i64)
        }
    }
}

spec fn ints_of(s: Seq<i64>) -> Seq<int> {
    s.map(|i: int, v: i64| v as int)
}

spec fn opt_ts_concat(pre: Seq<int>, rest: Option<Seq<int>>) -> Option<Seq<int>> {
    match rest {
        Some(r) => Some(pre + r),
        None => None,
    }
}

/// Adjacent increase gives strict increase everywhere.
proof fn lemma_adjacent_increasing(ts: Seq<int>, i: int, j: int)
    requires
        forall|k: int| 1 <= k < ts.len() ==> ts[k - 1] < #[trigger] ts[k],
        0 <= i < j < ts.len(),
    ensures
        ts[i] < ts[j],
    decreases j - i,
{
    if i + 1 < j {
        lemma_adjacent_increasing(ts, i + 1, j);
    }
}

/// Converts a series' dates to market-close timestamps and collects its
/// values; fails on the first date that is no strict `yyyy-mm-dd` date.
fn series_timestamps(data: &Vec<FundValueData>) -> (r: Result<(Vec<i64>, Vec<i64>), Error>)
    ensures
        match r {
            Ok((ts, vals)) => {
                &&& spec_timestamps(crate::fund_value_model::values_view(data@)) == Some(
                    ints_of(ts@),
                )
                &&& spec_values(crate::fund_value_model::values_view(data@)) == vals@
                &&& ts@.len() == data@.len()
                &&& vals@.len() == data@.len()
                &&& forall|j: int|
                    0 <= j < ts@.len() ==> -69120000000 <= #[trigger] ts@[j] <= 345700000000
            },
            Err(e) => {
                &&& spec_timestamps(crate::fund_value_model::values_view(data@)) is None
                &&& e is FieldTypeMismatch
            },
        },
{
    let ghost dview = crate::fund_value_model::values_view(data@);
    let n = data.len();
    proof {
        assert(dview.len() == n);
    }
    let mut ts: Vec<i64> = Vec::new();
    let mut vals: Vec<i64> = Vec::new();
    let mut i: usize = 0;
    proof {
        assert(dview.skip(0) =~= dview);
        if spec_timestamps(dview) is Some {
            assert(ints_of(ts@) + spec_timestamps(dview)->Some_0 =~= spec_timestamps(
                dview,
            )->Some_0);
        }
    }
    while i < n
        invariant
            i <= n,
            n == data@.len(),
            dview == crate::fund_value_model::values_view(data@),
            dview.len() == n,
            ts@.len() == i,
            vals@.len() == i,
            forall|j: int| 0 <= j < i ==> #[trigger] vals@[j] as int == dview[j].1,
            forall|j: int| 0 <= j < i ==> -69120000000 <= #[trigger] ts@[j] <= 345700000000,
            spec_timestamps(dview) == opt_ts_concat(
                ints_of(ts@),
                spec_timestamps(dview.skip(i as int)),
            ),
        decreases n - i,
    {
        let ghost pre = ints_of(ts@);
        let ghost rest = dview.skip(i as int);
        proof {
            assert(rest[0] == dview[i as int]);
            assert(rest.skip(1) =~= dview.skip(i + 1));
            assert(dview[i as int].0 == data@[i as int].date@);
            assert(dview[i as int].1 == data@[i as int].real_value as int);
        }
        let t = match parse_date_string(data[i].date.as_str()) {
            Ok(t) => t,
            Err(_) => {
                return Err(
                    Error::FieldTypeMismatch {
                        field: String::from_str("date"),
                        expected_type: String::from_str("yyyy-mm-dd"),
                        actual: data[i].date.clone(),
                        context: String::from_str("command: run breakout backtest"),
                    },
                );
            },
        };
        ts.push(t + MARKET_CLOSE_UTC_SECONDS);
        vals.push(data[i].real_value);
        i = i + 1;
        proof {
            assert(ints_of(ts@) =~= pre.push((t + MARKET_CLOSE_UTC_SECONDS) as int));
            if spec_timestamps(dview.skip(i as int)) is Some {
                let tail = spec_timestamps(dview.skip(i as int))->Some_0;
                assert(spec_timestamps(rest) == Some(
                    seq![(t + MARKET_CLOSE_UTC_SECONDS) as int] + tail,
                ));
                assert(pre.push((t + MARKET_CLOSE_UTC_SECONDS) as int) + tail =~= pre + (seq![
                    (t + MARKET_CLOSE_UTC_SECONDS) as int,
                ] + tail));
            }
        }
    }
    proof {
        assert(dview.skip(n as int) =~= Seq::<(Seq<char>, int)>::empty());
        assert(spec_timestamps(dview.skip(n as int)) == Some(Seq::<int>::empty()));
        assert(ints_of(ts@) + Seq::<int>::empty() =~= ints_of(ts@));
        assert(spec_values(dview) =~= vals@);
    }
    Ok((ts, vals))
}

/// Tests that the timestamps strictly increase.
fn check_strictly_increasing(ts: &Vec<i64>) -> (r: bool)
    ensures
        r == strictly_increasing(ints_of(ts@)),
{
    let n = ts.len();
    let mut i: usize = 1;
    while i < n
        invariant
            1 <= i,
            i <= n || (n == 0 && i == 1),
            n == ts@.len(),
            forall|k: int| 1 <= k < i ==> ints_of(ts@)[k - 1] < #[trigger] ints_of(ts@)[k],
        decreases n - i,
    {
        if ts[i - 1] >= ts[i] {
            proof {
                assert(ints_of(ts@)[i - 1] >= ints_of(ts@)[i as int]);
                assert(!strictly_increasing(ints_of(ts@)));
            }
            return false;
        }
        i = i + 1;
    }
    proof {
        assert forall|a: int, b: int| 0 <= a < b < ints_of(ts@).len() implies ints_of(ts@)[a]
            < ints_of(ts@)[b] by {
            lemma_adjacent_increasing(ints_of(ts@), a, b);
        }
    }
    true
}

/// Evaluates the strategy from observation `start` on, from an initial
/// state.
fn evaluate(vals: &Vec<i64>, buy_period: usize, sell_period: usize, start: usize, init: EngineState) -> (r:
    Option<EngineState>)
    requires
        buy_period <= start,
        sell_period <= start,
    ensures
        r == spec_run(vals@, buy_period as nat, sell_period as nat, start as nat, init),
{
    let n = vals.len();
    let mut st = init;
    let mut i: usize = start;
    proof {
        if start >= n {
            assert(spec_run(vals@, buy_period as nat, sell_period as nat, start as nat, init)
                == Some(init));
        }
    }
    while i < n
        invariant
            start <= i,
            buy_period <= start,
            sell_period <= start,
            i <= n || i == start,
            n == vals@.len(),
            spec_run(vals@, buy_period as nat, sell_period as nat, start as nat, init) == spec_run(
                vals@,
                buy_period as nat,
                sell_period as nat,
                i as nat,
                st,
            ),
        decreases n - i,
    {
        let buy_high = max_in_range(vals, i - buy_period, i);
        let sell_low = min_in_range(vals, i - sell_period, i);
        st = match step(st, vals[i], buy_high, sell_low) {
            Some(st2) => st2,
            None => {
                return None;
            },
        };
        i = i + 1;
    }
    Some(st)
}

/// Runs the breakout backtest over a value series.
///
/// Succeeds exactly on the inputs the engine accepts: every date a strict
/// `yyyy-mm-dd` date, the series strictly increasing by date, nonempty, with
/// a positive elapsed span, and the whole evaluation free of arithmetic
/// failure. The outcome carries the final capital with any open position
/// marked to market at the last observation, the entry count, and the
/// elapsed seconds.
#[verifier::rlimit(50)]
pub fn run_breakout_backtest(
    data: &Vec<FundValueData>,
    buy_period: usize,
    sell_period: usize,
) -> (r: Result<BacktestOutcome, Error>)
    requires
        buy_period >= 1,
        sell_period >= 1,
    ensures
        match r {
            Ok(o) => spec_backtest(
                crate::fund_value_model::values_view(data@),
                buy_period as nat,
                sell_period as nat,
            ) == Some((o.final_capital, o.trade_count, o.elapsed_seconds as int)),
            Err(e) => {
                &&& spec_backtest(
                    crate::fund_value_model::values_view(data@),
                    buy_period as nat,
                    sell_period as nat,
                ) is None
                &&& (e is MalformedPayload || e is FieldTypeMismatch)
            },
        },
{
    let ghost dview = crate::fund_value_model::values_view(data@);
    let (ts, vals) = match series_timestamps(data) {
        Ok(tv) => tv,
        Err(e) => {
            return Err(e);
        },
    };
    let n = ts.len();
    proof {
        assert(vals@.len() == n);
    }
    if !check_strictly_increasing(&ts) {
        return Err(
            Error::MalformedPayload {
                context: String::from_str(
                    "command: run breakout backtest. the series is not in date order",
                ),
            },
        );
    }
    if n == 0 {
        return Err(
            Error::MalformedPayload {
                context: String::from_str("command: run breakout backtest. the series is empty"),
            },
        );
    }
    let elapsed: i64 = ts[n - 1] - ts[0];
    proof {
        assert(ints_of(ts@).last() == ts@[n - 1] as int);
        assert(ints_of(ts@).first() == ts@[0] as int);
    }
    if elapsed <= 0 {
        return Err(
            Error::MalformedPayload {
                context: String::from_str(
                    "command: run breakout backtest. the series spans no time",
                ),
            },
        );
    }
    let start: usize = if buy_period > sell_period {
        buy_period
    } else {
        sell_period
    };
    let init = EngineState { capital: INITIAL_CAPITAL, shares: 0, trades: 0 };
    let st = match evaluate(&vals, buy_period, sell_period, start, init) {
        Some(st) => st,
        None => {
            return Err(
                Error::MalformedPayload {
                    context: String::from_str(
                        "command: run breakout backtest. arithmetic failure in evaluation",
                    ),
                },
            );
        },
    };
    let final_capital: u128 = if st.shares > 0 {
        let v = vals[n - 1];
        proof {
            assert(vals@.last() == vals@[n - 1]);
        }
        if v <= 0 {
            return Err(
                Error::MalformedPayload {
                    context: String::from_str(
                        "command: run breakout backtest. arithmetic failure in evaluation",
                    ),
                },
            );
        }
        match st.shares.checked_mul(v as u128) {
            Some(prod) => prod / SHARE_SCALE,
            None => {
                return Err(
                    Error::MalformedPayload {
                        context: String::from_str(
                            "command: run breakout backtest. arithmetic failure in evaluation",
                        ),
                    },
                );
            },
        }
    } else {
        st.capital
    };
    Ok(BacktestOutcome { final_capital, trade_count: st.trades, elapsed_seconds: elapsed })
}

fn step(st: EngineState, v: i64, buy_high: i64, sell_low: i64) -> (r: Option<EngineState>)
    ensures
        r == spec_step(st, v, buy_high as int, sell_low as int),
{
    let sold: Option<EngineState> = if st.shares > 0 && v < sell_low {
        if v <= 0 {
            None
        } else {
            match st.shares.checked_mul(v as u128) {
                None => None,
                Some(prod) => Some(
                    EngineState { capital: prod / SHARE_SCALE, shares: 0, trades: st.trades },
                ),
            }
        }
    } else {
        Some(st)
    };
    match sold {
        None => None,
        Some(s1) => {
            if s1.shares == 0 && v > buy_high {
                if v <= 0 {
                    None
                } else {
                    match s1.capital.checked_mul(SHARE_SCALE) {
                        None => None,
                        Some(prod) => {
                            if s1.trades == u64::MAX {
                                None
                            } else {
                                Some(
                                    EngineState {
                                        capital: 0,
                                        shares: prod / (v as u128),
                                        trades: s1.trades + 1,
                                    },
                                )
                            }
                        },
                    }
                }
            } else {
                Some(s1)
            }
        },
    }
}

} // verus!
