//! What the formulas of a ledger are worth.
//!
//! The engine writes amounts as formulas over the prices of an equity. Here
//! the formulas are given their exact value over the real numbers, and with
//! it the capital and the value of a day, the day's rate of return and the
//! return since the first day. A caller that works a ledger out in floating
//! point computes these numbers up to rounding.

use crate::calendar::{rank_of, rank_of_splits, strictly_increasing};
use crate::dates::calendar_day;
use crate::ledger::{on_day, on_day_is_empty, Amount, Basis, Conversion, Dated, Ledger, Position};
use crate::stock_returns::{
    backfill, carried, flat_position, position_at, positions_upto, quote_days, quotes_of,
    step_positions, Portfolio,
};
use crate::yahoo_finance::Quote;
use vstd::prelude::*;

verus! {

/// The prices that the amounts of one equity are made of: the prices paid
/// and received for a unit, the exchange rates into dollars on the day of
/// purchase and at the end of the equity's range, and the close and the
/// adjusted close of each of its quotes.
pub struct Market {
    pub buy: real,
    pub sell: real,
    pub buy_rate: real,
    pub sell_rate: real,
    pub close: Seq<real>,
    pub adjclose: Seq<real>,
}

/// The price that a basis names.
pub open spec fn basis_value(basis: Basis, market: Market) -> real {
    match basis {
        Basis::Buy => market.buy,
        Basis::Sell => market.sell,
        Basis::Close(i) => market.close[i as int],
        Basis::AdjustedClose(i) => market.adjclose[i as int],
    }
}

/// The exchange rate that a conversion names.
pub open spec fn conversion_value(conversion: Conversion, market: Market) -> real {
    match conversion {
        Conversion::Unit => 1real,
        Conversion::AtBuy => market.buy_rate,
        Conversion::AtSell => market.sell_rate,
    }
}

/// The value of an amount: its basis times its exchange rate, and where it
/// is rescaled at a quote, times that quote's close over its adjusted close.
pub open spec fn amount_value(amount: Amount, market: Market) -> real {
    let converted = basis_value(amount.basis, market) * conversion_value(amount.conversion, market);
    match amount.rescaled_at {
        Some(i) => converted * market.close[i as int] / market.adjclose[i as int],
        None => converted,
    }
}

/// The capital of a day: what its positions are worth as the day begins.
/// `markets` holds the prices of each equity at the equity's place.
pub open spec fn capital(positions: Seq<Position>, markets: Seq<Market>) -> real
    decreases positions.len(),
{
    if positions.len() == 0 {
        0real
    } else {
        let last = positions.last();
        capital(positions.drop_last(), markets) + amount_value(
            last.old_price,
            markets[last.equity as int],
        ) * (last.quantity as real)
    }
}

/// The value of a day: what its positions are worth as the day ends.
pub open spec fn value(positions: Seq<Position>, markets: Seq<Market>) -> real
    decreases positions.len(),
{
    if positions.len() == 0 {
        0real
    } else {
        let last = positions.last();
        value(positions.drop_last(), markets) + amount_value(last.price, markets[last.equity as int])
            * (last.quantity as real)
    }
}

/// The rate of return of a day: its value over its capital.
pub open spec fn rate(positions: Seq<Position>, markets: Seq<Market>) -> real {
    value(positions, markets) / capital(positions, markets)
}

impl Ledger {
    /// The rate of return of the day of entry `k`.
    pub open spec fn rate_at(&self, markets: Seq<Market>, k: int) -> real {
        rate(self.days@[k].positions@, markets)
    }

    /// The growth over the first `k` days: the product of their rates.
    pub open spec fn growth(&self, markets: Seq<Market>, k: int) -> real
        decreases k,
    {
        if k <= 0 {
            1real
        } else {
            self.growth(markets, k - 1) * self.rate_at(markets, k - 1)
        }
    }

    /// The return since the first day, in percent, as the day of entry `k`
    /// ends.
    pub open spec fn percent(&self, markets: Seq<Market>, k: int) -> real {
        (self.growth(markets, k + 1) - 1real) * 100real
    }
}

/// The return of a day follows from the return of the day before and the
/// day's own rate alone: the growth up to a day is the growth up to the day
/// before times the day's rate. The return of the first day is that day's
/// own rate, less one, in percent.
pub proof fn returns_are_chained(ledger: Ledger, markets: Seq<Market>, k: int)
    requires
        0 <= k,
    ensures
        ledger.growth(markets, k + 1) == ledger.growth(markets, k) * ledger.rate_at(markets, k),
        ledger.percent(markets, 0) == (ledger.rate_at(markets, 0) - 1real) * 100real,
        k > 0 ==> ledger.percent(markets, k) == ((ledger.percent(markets, k - 1) / 100real + 1real)
            * ledger.rate_at(markets, k) - 1real) * 100real,
{
    reveal_with_fuel(Ledger::growth, 3);
    let g = ledger.growth(markets, k);
    assert((g - 1real) * 100real / 100real + 1real == g);
}

/// A day with one position has that position's worth as its capital and as
/// its value.
pub proof fn totals_of_one_position(position: Position, markets: Seq<Market>)
    ensures
        capital(seq![position], markets) == amount_value(
            position.old_price,
            markets[position.equity as int],
        ) * (position.quantity as real),
        value(seq![position], markets) == amount_value(
            position.price,
            markets[position.equity as int],
        ) * (position.quantity as real),
{
    reveal_with_fuel(capital, 3);
    reveal_with_fuel(value, 3);
    let one = seq![position];
    assert(one.drop_last() =~= Seq::<Position>::empty());
    assert(one.last() == position);
}

/// Whether the days of a log ascend, each day once.
pub open spec fn days_ascend(log: Seq<Dated>) -> bool {
    forall|i: int, j: int| 0 <= i < j < log.len() ==> log[i].day < log[j].day
}

/// In a log whose days ascend, the one position of a day is all that the log
/// has for that day.
pub proof fn on_day_of_ascending(log: Seq<Dated>, k: int)
    requires
        days_ascend(log),
        0 <= k < log.len(),
    ensures
        on_day(log, log[k].day as int) == seq![log[k].position],
    decreases log.len(),
{
    let front = log.drop_last();
    let day = log[k].day as int;
    if k == log.len() - 1 {
        on_day_is_empty(front, day);
        assert forall|i: int| 0 <= i < front.len() implies front[i].day != day by {
            assert(front[i] == log[i]);
        }
        assert(on_day(front, day) =~= Seq::<Position>::empty());
        assert(on_day(log, day) =~= seq![log[k].position]);
    } else {
        assert(front[k] == log[k]);
        assert forall|i: int, j: int| 0 <= i < j < front.len() implies front[i].day
            < front[j].day by {
            assert(front[i] == log[i] && front[j] == log[j]);
        }
        on_day_of_ascending(front, k);
    }
}

/// The days of the entries of a ledger, entry by entry.
pub open spec fn entry_days(ledger: Ledger) -> Seq<i32> {
    Seq::new(ledger.days@.len(), |k: int| ledger.days@[k].day)
}

/// The days of a log, position by position.
pub open spec fn log_days(log: Seq<Dated>) -> Seq<i32> {
    Seq::new(log.len(), |i: int| log[i].day)
}

/// Two ascending runs of days that hold the same days are the same run.
pub proof fn ascending_runs_agree(a: Seq<i32>, b: Seq<i32>)
    requires
        strictly_increasing(a),
        strictly_increasing(b),
        forall|x: i32| a.contains(x) <==> b.contains(x),
    ensures
        a == b,
    decreases a.len(),
{
    if a.len() == 0 {
        if b.len() > 0 {
            assert(b.contains(b[0]));
        }
        assert(a =~= b);
    } else if b.len() == 0 {
        assert(a.contains(a[0]));
    } else {
        let x = a.last();
        let y = b.last();
        assert(a.contains(x));
        assert(b.contains(y));
        assert(b.contains(x));
        assert(a.contains(y));
        let i = choose|i: int| 0 <= i < b.len() && b[i] == x;
        let j = choose|j: int| 0 <= j < a.len() && a[j] == y;
        assert(x == y);
        let front_a = a.drop_last();
        let front_b = b.drop_last();
        assert forall|z: i32| front_a.contains(z) <==> front_b.contains(z) by {
            if front_a.contains(z) {
                let k = choose|k: int| 0 <= k < front_a.len() && front_a[k] == z;
                assert(a[k] == z);
                assert(a.contains(z));
                let l = choose|l: int| 0 <= l < b.len() && b[l] == z;
                assert(z < x);
                assert(front_b[l] == z);
            }
            if front_b.contains(z) {
                let k = choose|k: int| 0 <= k < front_b.len() && front_b[k] == z;
                assert(b[k] == z);
                assert(b.contains(z));
                let l = choose|l: int| 0 <= l < a.len() && a[l] == z;
                assert(z < y);
                assert(front_a[l] == z);
            }
        }
        assert(strictly_increasing(front_a)) by {
            assert forall|i: int, j: int| 0 <= i < j < front_a.len() implies front_a[i]
                < front_a[j] by {
                assert(front_a[i] == a[i] && front_a[j] == a[j]);
            }
        }
        assert(strictly_increasing(front_b)) by {
            assert forall|i: int, j: int| 0 <= i < j < front_b.len() implies front_b[i]
                < front_b[j] by {
                assert(front_b[i] == b[i] && front_b[j] == b[j]);
            }
        }
        ascending_runs_agree(front_a, front_b);
        assert(a =~= front_a.push(x));
        assert(b =~= front_b.push(y));
    }
}

/// The ledger of a log whose days ascend has one entry for each position of
/// the log, in the order of the log, and the entry holds that position
/// alone.
pub proof fn ledger_of_ascending(ledger: Ledger, log: Seq<Dated>)
    requires
        days_ascend(log),
        ledger.holds(log),
    ensures
        ledger.days@.len() == log.len(),
        forall|k: int|
            0 <= k < log.len() ==> (#[trigger] ledger.days@[k]).day == log[k].day
                && ledger.days@[k].positions@ == seq![log[k].position],
{
    let entries = ledger.days@;
    let a = entry_days(ledger);
    let b = log_days(log);
    assert forall|x: i32| a.contains(x) <==> b.contains(x) by {
        if a.contains(x) {
            let k = choose|k: int| 0 <= k < a.len() && a[k] == x;
            on_day_is_empty(log, x as int);
            assert(entries[k].positions@ == on_day(log, entries[k].day as int));
            let i = choose|i: int| 0 <= i < log.len() && log[i].day == x;
            assert(b[i] == x);
        }
        if b.contains(x) {
            let i = choose|i: int| 0 <= i < b.len() && b[i] == x;
            assert(ledger.has_day(log[i].day as int));
            let k = choose|k: int| 0 <= k < entries.len() && (#[trigger] entries[k]).day == x;
            assert(a[k] == x);
        }
    }
    assert(strictly_increasing(a)) by {
        assert forall|i: int, j: int| 0 <= i < j < a.len() implies a[i] < a[j] by {
            assert(entries[i].day < entries[j].day);
        }
    }
    assert(strictly_increasing(b)) by {
        assert forall|i: int, j: int| 0 <= i < j < b.len() implies b[i] < b[j] by {
            assert(log[i].day < log[j].day);
        }
    }
    ascending_runs_agree(a, b);
    assert forall|k: int| 0 <= k < log.len() implies (#[trigger] entries[k]).day == log[k].day
        && entries[k].positions@ == seq![log[k].position] by {
        assert(a[k] == b[k]);
        on_day_of_ascending(log, k);
        assert(entries[k].positions@ == on_day(log, entries[k].day as int));
    }
}

/// Whether `position` is one that equity `equity` with `n` quotes can have:
/// the position of the day of one of its quotes, or the flat position of a
/// day before one of its quotes but the first.
pub open spec fn is_position_of(
    position: Position,
    equity: usize,
    n: int,
    sold: bool,
    quantity: u32,
) -> bool {
    exists|i: int|
        0 <= i < n && (#[trigger] position_at(equity, i, n, sold, quantity) == position || (i >= 1
            && #[trigger] flat_position(equity, i, n, quantity) == position))
}

/// Where the quotes of an equity fall on ascending days, so do its
/// positions: the equity has one position on each day of its quotes and on
/// each day of the calendar between two of them, and none on another day.
pub proof fn equity_positions_ascend(
    equity: usize,
    days: Seq<i32>,
    sold: bool,
    quantity: u32,
    calendar: Seq<i32>,
    k: int,
)
    requires
        strictly_increasing(days),
        strictly_increasing(calendar),
        0 <= k <= days.len(),
    ensures
        days_ascend(positions_upto(equity, days, sold, quantity, calendar, k)),
        k == 0 ==> positions_upto(equity, days, sold, quantity, calendar, k).len() == 0,
        k > 0 ==> positions_upto(equity, days, sold, quantity, calendar, k).len() > 0
            && positions_upto(equity, days, sold, quantity, calendar, k).last().day == days[k - 1],
        forall|x: int|
            0 <= x < positions_upto(equity, days, sold, quantity, calendar, k).len()
                ==> is_position_of(
                (#[trigger] positions_upto(equity, days, sold, quantity, calendar, k)[x]).position,
                equity,
                days.len() as int,
                sold,
                quantity,
            ),
    decreases k,
{
    if k > 0 {
        let i = k - 1;
        let n = days.len() as int;
        equity_positions_ascend(equity, days, sold, quantity, calendar, i);
        let prev = positions_upto(equity, days, sold, quantity, calendar, i);
        let step = step_positions(equity, days, sold, quantity, calendar, i);
        let log = positions_upto(equity, days, sold, quantity, calendar, k);
        assert(log == prev + step);
        let own = Dated { day: days[i], position: position_at(equity, i, n, sold, quantity) };
        let flat = flat_position(equity, i, n, quantity);
        assert(position_at(equity, i, n, sold, quantity) == own.position);
        assert(is_position_of(own.position, equity, n, sold, quantity));
        if i > 0 {
            let gap = backfill(calendar, days[i - 1] as int, days[i] as int, flat);
            let low = rank_of(calendar, days[i - 1] + 1);
            let high = rank_of(calendar, days[i] as int);
            rank_of_splits(calendar, days[i - 1] + 1);
            rank_of_splits(calendar, days[i] as int);
            assert(step == gap.push(own));
            assert(flat_position(equity, i, n, quantity) == flat);
            assert(is_position_of(flat, equity, n, sold, quantity));
            assert forall|x: int| 0 <= x < prev.len() implies (#[trigger] prev[x]).day <= days[i
                - 1] by {
                if x < prev.len() - 1 {
                    assert(prev[x].day < prev[prev.len() - 1].day);
                }
            }
            assert forall|a: int, b: int| 0 <= a < b < log.len() implies log[a].day
                < log[b].day by {
                let p = prev.len() as int;
                let g = gap.len() as int;
                if b < p {
                    assert(log[a] == prev[a] && log[b] == prev[b]);
                } else if a < p {
                    assert(log[a] == prev[a]);
                    if b < p + g {
                        assert(log[b] == gap[b - p]);
                        assert(gap[b - p].day == calendar[low + (b - p)]);
                    } else {
                        assert(log[b] == own);
                    }
                } else if b < p + g {
                    assert(log[a] == gap[a - p] && log[b] == gap[b - p]);
                    assert(gap[a - p].day == calendar[low + (a - p)]);
                    assert(gap[b - p].day == calendar[low + (b - p)]);
                } else {
                    assert(log[a] == gap[a - p] && log[b] == own);
                    assert(gap[a - p].day == calendar[low + (a - p)]);
                }
            }
            assert forall|x: int| 0 <= x < log.len() implies is_position_of(
                (#[trigger] log[x]).position,
                equity,
                n,
                sold,
                quantity,
            ) by {
                let p = prev.len() as int;
                let g = gap.len() as int;
                if x < p {
                    assert(log[x] == prev[x]);
                } else if x < p + g {
                    assert(log[x] == gap[x - p]);
                    assert(gap[x - p].position == flat);
                } else {
                    assert(log[x] == own);
                }
            }
            assert(log.last() == own);
        } else {
            assert(prev.len() == 0);
            assert(step == seq![own]);
            assert(log =~= seq![own]);
        }
    }
}

/// The positions of a portfolio of one equity are those of the equity.
pub proof fn positions_of_one_equity<P>(
    item: Portfolio<P>,
    series: Seq<Vec<Quote<P>>>,
    calendar: Seq<i32>,
)
    requires
        item.portfolio@.len() == 1,
    ensures
        item.positions(series, calendar) == item.portfolio@[0].positions(
            0,
            quotes_of(series, 0),
            calendar,
        ),
{
    reveal_with_fuel(Portfolio::positions_upto, 3);
    let own = item.portfolio@[0].positions(0, quotes_of(series, 0), calendar);
    assert(Seq::<Dated>::empty() + own =~= own);
}

/// In a portfolio of one equity whose quotes fall on ascending days, every
/// day of the ledger has one position, that of the equity, and the capital
/// and the value of the day are the worth of that position as the day begins
/// and as it ends: its old price and its price, times its quantity.
pub proof fn one_equity_day_totals<P>(
    item: Portfolio<P>,
    series: Seq<Vec<Quote<P>>>,
    calendar: Seq<i32>,
    ledger: Ledger,
    markets: Seq<Market>,
    k: int,
)
    requires
        item.portfolio@.len() == 1,
        strictly_increasing(quote_days(quotes_of(series, 0))),
        strictly_increasing(calendar),
        ledger.holds(item.positions(series, calendar)),
        0 <= k < ledger.days@.len(),
    ensures
        ledger.days@[k].positions@.len() == 1,
        ledger.days@[k].positions@[0].equity == 0,
        ledger.days@[k].positions@[0].quantity == item.portfolio@[0].quantity,
        capital(ledger.days@[k].positions@, markets) == amount_value(
            ledger.days@[k].positions@[0].old_price,
            markets[0],
        ) * (item.portfolio@[0].quantity as real),
        value(ledger.days@[k].positions@, markets) == amount_value(
            ledger.days@[k].positions@[0].price,
            markets[0],
        ) * (item.portfolio@[0].quantity as real),
{
    let equity = item.portfolio@[0];
    let quotes = quotes_of(series, 0);
    let days = quote_days(quotes);
    let log = item.positions(series, calendar);
    positions_of_one_equity(item, series, calendar);
    equity_positions_ascend(
        0,
        days,
        equity.sell is Some,
        equity.quantity,
        calendar,
        days.len() as int,
    );
    ledger_of_ascending(ledger, log);
    let position = log[k].position;
    assert(ledger.days@[k].positions@ == seq![position]);
    assert(is_position_of(position, 0, days.len() as int, equity.sell is Some, equity.quantity));
    totals_of_one_position(position, markets);
}

/// Bought at the close of the one day that it is quoted on, held, priced in
/// dollars, and with that day's close not adjusted, an equity has a return
/// of zero on that day.
pub proof fn round_trip_return_is_zero<P>(
    item: Portfolio<P>,
    series: Seq<Vec<Quote<P>>>,
    calendar: Seq<i32>,
    ledger: Ledger,
    market: Market,
)
    requires
        item.portfolio@.len() == 1,
        item.portfolio@[0].sell is None,
        item.portfolio@[0].quantity > 0,
        quotes_of(series, 0).len() == 1,
        ledger.holds(item.positions(series, calendar)),
        market.close.len() == 1,
        market.adjclose.len() == 1,
        market.close[0] == market.adjclose[0],
        market.buy == market.close[0],
        market.buy != 0real,
        market.buy_rate == 1real,
    ensures
        ledger.days@.len() == 1,
        ledger.days@[0].day == calendar_day(quotes_of(series, 0)[0].timestamp),
        ledger.rate_at(seq![market], 0) == 1real,
        ledger.percent(seq![market], 0) == 0real,
{
    let equity = item.portfolio@[0];
    let quotes = quotes_of(series, 0);
    let days = quote_days(quotes);
    let log = item.positions(series, calendar);
    let markets = seq![market];
    positions_of_one_equity(item, series, calendar);
    reveal_with_fuel(positions_upto, 3);
    let position = position_at(0, 0, 1, false, equity.quantity);
    let own = Dated { day: days[0], position };
    assert(step_positions(0, days, false, equity.quantity, calendar, 0) == seq![own]);
    assert(log =~= seq![own]);
    ledger_of_ascending(ledger, log);
    assert(ledger.days@[0].positions@ == seq![position]);
    totals_of_one_position(position, markets);
    let q = equity.quantity as real;
    let c = market.close[0];
    assert(markets[0] == market);
    assert(amount_value(position.price, market) == c);
    assert(amount_value(position.old_price, market) == c * 1real * c / c);
    assert(c * 1real * c / c == c) by (nonlinear_arith)
        requires
            c != 0real,
    ;
    assert(q > 0real);
    assert((c * q) / (c * q) == 1real) by (nonlinear_arith)
        requires
            c != 0real,
            q > 0real,
    ;
    returns_are_chained(ledger, markets, 0);
}

/// Every position that a log has for a day is among the positions of that
/// day.
pub proof fn on_day_contains(log: Seq<Dated>, x: int)
    requires
        0 <= x < log.len(),
    ensures
        on_day(log, log[x].day as int).contains(log[x].position),
    decreases log.len(),
{
    let front = log.drop_last();
    let day = log[x].day as int;
    if x == log.len() - 1 {
        let found = on_day(front, day).push(log[x].position);
        assert(found[found.len() - 1] == log[x].position);
    } else {
        assert(front[x] == log[x]);
        on_day_contains(front, x);
        let before = on_day(front, day);
        let j = choose|j: int| 0 <= j < before.len() && before[j] == log[x].position;
        if log.last().day == day {
            assert(before.push(log.last().position)[j] == log[x].position);
        }
    }
}

/// What a quote of an equity adds to its positions is among the positions
/// of the equity.
pub proof fn step_is_among_positions(
    equity: usize,
    days: Seq<i32>,
    sold: bool,
    quantity: u32,
    calendar: Seq<i32>,
    i: int,
    k: int,
    entry: Dated,
)
    requires
        0 <= i < k,
        step_positions(equity, days, sold, quantity, calendar, i).contains(entry),
    ensures
        positions_upto(equity, days, sold, quantity, calendar, k).contains(entry),
    decreases k,
{
    let prev = positions_upto(equity, days, sold, quantity, calendar, k - 1);
    let step = step_positions(equity, days, sold, quantity, calendar, k - 1);
    let log = positions_upto(equity, days, sold, quantity, calendar, k);
    assert(log == prev + step);
    if i == k - 1 {
        let j = choose|j: int| 0 <= j < step.len() && step[j] == entry;
        assert(log[prev.len() + j] == entry);
    } else {
        step_is_among_positions(equity, days, sold, quantity, calendar, i, k - 1, entry);
        let j = choose|j: int| 0 <= j < prev.len() && prev[j] == entry;
        assert(log[j] == entry);
    }
}

/// The positions of an equity are among the positions of its portfolio.
pub proof fn equity_is_among_portfolio<P>(
    item: Portfolio<P>,
    series: Seq<Vec<Quote<P>>>,
    calendar: Seq<i32>,
    e: int,
    k: int,
    entry: Dated,
)
    requires
        0 <= e < k,
        item.portfolio@[e].positions(e as usize, quotes_of(series, e), calendar).contains(entry),
    ensures
        item.positions_upto(series, calendar, k).contains(entry),
    decreases k,
{
    let prev = item.positions_upto(series, calendar, k - 1);
    let own = item.portfolio@[k - 1].positions((k - 1) as usize, quotes_of(series, k - 1), calendar);
    let log = item.positions_upto(series, calendar, k);
    assert(log == prev + own);
    if e == k - 1 {
        let j = choose|j: int| 0 <= j < own.len() && own[j] == entry;
        assert(log[prev.len() + j] == entry);
    } else {
        equity_is_among_portfolio(item, series, calendar, e, k - 1, entry);
        let j = choose|j: int| 0 <= j < prev.len() && prev[j] == entry;
        assert(log[j] == entry);
    }
}

/// A position of an equity is in the ledger of its portfolio, in the entry
/// of its day.
pub proof fn position_is_laid_out<P>(
    item: Portfolio<P>,
    series: Seq<Vec<Quote<P>>>,
    calendar: Seq<i32>,
    ledger: Ledger,
    e: int,
    entry: Dated,
)
    requires
        0 <= e < item.portfolio@.len(),
        item.portfolio@[e].positions(e as usize, quotes_of(series, e), calendar).contains(entry),
        ledger.holds(item.positions(series, calendar)),
    ensures
        exists|k: int|
            0 <= k < ledger.days@.len() && (#[trigger] ledger.days@[k]).day == entry.day
                && ledger.days@[k].positions@.contains(entry.position),
{
    let log = item.positions(series, calendar);
    equity_is_among_portfolio(item, series, calendar, e, item.portfolio@.len() as int, entry);
    let x = choose|x: int| 0 <= x < log.len() && log[x] == entry;
    on_day_contains(log, x);
    assert(ledger.has_day(log[x].day as int));
    let k = choose|k: int|
        0 <= k < ledger.days@.len() && (#[trigger] ledger.days@[k]).day == entry.day;
    assert(ledger.days@[k].positions@ == on_day(log, ledger.days@[k].day as int));
}

/// Every day of the quotes of an equity is a day of the ledger of its
/// portfolio, and the entry of that day holds the equity's position of that
/// day.
pub proof fn quoted_day_is_laid_out<P>(
    item: Portfolio<P>,
    series: Seq<Vec<Quote<P>>>,
    calendar: Seq<i32>,
    ledger: Ledger,
    e: int,
    i: int,
)
    requires
        0 <= e < item.portfolio@.len(),
        0 <= i < quotes_of(series, e).len(),
        ledger.holds(item.positions(series, calendar)),
    ensures
        exists|k: int|
            0 <= k < ledger.days@.len() && (#[trigger] ledger.days@[k]).day == calendar_day(
                quotes_of(series, e)[i].timestamp,
            ) && ledger.days@[k].positions@.contains(
                position_at(
                    e as usize,
                    i,
                    quotes_of(series, e).len() as int,
                    item.portfolio@[e].sell is Some,
                    item.portfolio@[e].quantity,
                ),
            ),
{
    let equity = item.portfolio@[e];
    let quotes = quotes_of(series, e);
    let days = quote_days(quotes);
    let n = quotes.len() as int;
    let sold = equity.sell is Some;
    let own = Dated {
        day: days[i],
        position: position_at(e as usize, i, n, sold, equity.quantity),
    };
    let step = step_positions(e as usize, days, sold, equity.quantity, calendar, i);
    assert(step[step.len() - 1] == own);
    step_is_among_positions(e as usize, days, sold, equity.quantity, calendar, i, n, own);
    position_is_laid_out(item, series, calendar, ledger, e, own);
}

/// A day of the calendar that an equity skips between two of its quotes is
/// a day of the ledger of its portfolio, and the entry of that day holds a
/// flat position of the equity: one that ends the day with the price it
/// began with, so that the equity stays in the capital of the day and
/// neither gains nor loses on it.
pub proof fn skipped_day_is_backfilled<P>(
    item: Portfolio<P>,
    series: Seq<Vec<Quote<P>>>,
    calendar: Seq<i32>,
    ledger: Ledger,
    e: int,
    i: int,
    day: i32,
)
    requires
        0 <= e < item.portfolio@.len(),
        strictly_increasing(calendar),
        1 <= i < quotes_of(series, e).len(),
        calendar_day(quotes_of(series, e)[i - 1].timestamp) < day < calendar_day(
            quotes_of(series, e)[i].timestamp,
        ),
        calendar.contains(day),
        ledger.holds(item.positions(series, calendar)),
    ensures
        exists|k: int|
            0 <= k < ledger.days@.len() && (#[trigger] ledger.days@[k]).day == day
                && ledger.days@[k].positions@.contains(
                flat_position(
                    e as usize,
                    i,
                    quotes_of(series, e).len() as int,
                    item.portfolio@[e].quantity,
                ),
            ),
        flat_position(
            e as usize,
            i,
            quotes_of(series, e).len() as int,
            item.portfolio@[e].quantity,
        ).price == flat_position(
            e as usize,
            i,
            quotes_of(series, e).len() as int,
            item.portfolio@[e].quantity,
        ).old_price,
{
    let equity = item.portfolio@[e];
    let quotes = quotes_of(series, e);
    let days = quote_days(quotes);
    let n = quotes.len() as int;
    let sold = equity.sell is Some;
    let flat = flat_position(e as usize, i, n, equity.quantity);
    let filled = Dated { day, position: flat };
    let gap = backfill(calendar, days[i - 1] as int, days[i] as int, flat);
    let low = rank_of(calendar, days[i - 1] + 1);
    let high = rank_of(calendar, days[i] as int);
    let at = rank_of(calendar, day as int);
    rank_of_splits(calendar, days[i - 1] + 1);
    rank_of_splits(calendar, days[i] as int);
    rank_of_splits(calendar, day as int);
    let t = choose|t: int| 0 <= t < calendar.len() && calendar[t] == day;
    assert(t == at) by {
        if at < t {
            assert(calendar[at] < calendar[t]);
        }
    }
    assert(low <= at < high) by {
        if at < low {
            assert(calendar[at] < days[i - 1] + 1);
        }
        if at >= high {
            assert(calendar[at] >= days[i]);
        }
    }
    assert(gap[at - low] == filled);
    let step = step_positions(e as usize, days, sold, equity.quantity, calendar, i);
    assert(step == gap.push(
        Dated { day: days[i], position: position_at(e as usize, i, n, sold, equity.quantity) },
    ));
    assert(step[at - low] == filled);
    step_is_among_positions(e as usize, days, sold, equity.quantity, calendar, i, n, filled);
    position_is_laid_out(item, series, calendar, ledger, e, filled);
}

/// Whether two markets tell of one equity with `n` quotes, the first as a
/// provider tells it that prices the equity in its own currency, worth
/// `factor` dollars, the second as a provider tells it that prices the
/// equity in dollars: the prices paid and received and the closes of the
/// second are those of the first times `factor`, its exchange rates are 1,
/// and the adjusted closes, which are in dollars in both, are the same.
pub open spec fn told_in_dollars(native: Market, dollars: Market, factor: real, n: int) -> bool {
    &&& native.close.len() == n
    &&& native.adjclose.len() == n
    &&& dollars.close.len() == n
    &&& dollars.adjclose.len() == n
    &&& native.buy_rate == factor
    &&& native.sell_rate == factor
    &&& dollars.buy_rate == 1real
    &&& dollars.sell_rate == 1real
    &&& dollars.buy == factor * native.buy
    &&& dollars.sell == factor * native.sell
    &&& forall|i: int|
        0 <= i < n ==> (#[trigger] dollars.close[i]) == factor * native.close[i]
            && dollars.adjclose[i] == native.adjclose[i]
}

/// Whether no price of a market with `n` quotes is zero.
pub open spec fn priced(market: Market, n: int) -> bool {
    &&& market.buy != 0real
    &&& market.sell != 0real
    &&& forall|i: int|
        0 <= i < n ==> (#[trigger] market.close[i]) != 0real && market.adjclose[i] != 0real
}

/// A rescaled amount told in dollars is `f` times the amount told in the
/// currency that is worth `f` dollars, and is not zero.
proof fn rescaled_in_dollars(b: real, c: real, a: real, f: real)
    requires
        a != 0real,
        b != 0real,
        c != 0real,
        f != 0real,
    ensures
        (f * b) * 1real * (f * c) / a == f * (b * f * c / a),
        b * f * c / a != 0real,
{
    assert((f * b) * 1real * (f * c) == f * (b * f * c)) by (nonlinear_arith);
    let x = b * f * c;
    assert(x != 0real) by (nonlinear_arith)
        requires
            x == b * f * c,
            b != 0real,
            c != 0real,
            f != 0real,
    ;
    assert((f * x) / a == f * (x / a)) by (nonlinear_arith)
        requires
            a != 0real,
    ;
    assert(x / a != 0real) by (nonlinear_arith)
        requires
            a != 0real,
            x != 0real,
    ;
}

/// A rate does not change when value and capital are both multiplied by
/// `f`.
proof fn rate_of_scaled(p: real, o: real, f: real, q: real)
    requires
        o != 0real,
        f != 0real,
        q != 0real,
    ensures
        ((f * p) * q) / ((f * o) * q) == (p * q) / (o * q),
{
    let d = o * q;
    let n = p * q;
    assert(d != 0real) by (nonlinear_arith)
        requires
            d == o * q,
            o != 0real,
            q != 0real,
    ;
    assert((f * p) * q == f * n) by (nonlinear_arith)
        requires
            n == p * q,
    ;
    assert((f * o) * q == f * d) by (nonlinear_arith)
        requires
            d == o * q,
    ;
    assert((f * n) / (f * d) == n / d) by (nonlinear_arith)
        requires
            d != 0real,
            f != 0real,
    ;
}

/// The rate of a day with one position of a sold equity is the same told in
/// the equity's currency and told in dollars.
proof fn rate_of_position_agrees(
    position: Position,
    n: int,
    quantity: u32,
    native: Market,
    dollars: Market,
    factor: real,
)
    requires
        is_position_of(position, 0, n, true, quantity),
        n <= usize::MAX,
        quantity > 0,
        factor != 0real,
        told_in_dollars(native, dollars, factor, n),
        priced(native, n),
    ensures
        rate(seq![position], seq![native]) == rate(seq![position], seq![dollars]),
{
    let i = choose|i: int|
        0 <= i < n && (#[trigger] position_at(0, i, n, true, quantity) == position || (i >= 1
            && #[trigger] flat_position(0, i, n, quantity) == position));
    let q = quantity as real;
    let f = factor;
    totals_of_one_position(position, seq![native]);
    totals_of_one_position(position, seq![dollars]);
    assert(seq![native][0] == native);
    assert(seq![dollars][0] == dollars);
    assert(position.equity == 0 && position.quantity == quantity);
    let old_native = amount_value(position.old_price, native);
    let old_dollars = amount_value(position.old_price, dollars);
    let new_native = amount_value(position.price, native);
    let new_dollars = amount_value(position.price, dollars);
    assert(dollars.close[i] == f * native.close[i]);
    assert(native.close[i] != 0real && native.adjclose[i] != 0real);
    if i >= 1 {
        assert(dollars.close[i - 1] == f * native.close[i - 1]);
        assert(native.close[i - 1] != 0real && native.adjclose[i - 1] != 0real);
    }
    if position_at(0, i, n, true, quantity) == position && (i == n - 1 || i == 0) {
        // Both amounts are rescaled: told in dollars they are `f` times as
        // much.
        let c = native.close[i];
        let a = native.adjclose[i];
        let old_basis = basis_value(position.old_price.basis, native);
        let new_basis = basis_value(position.price.basis, native);
        assert(old_basis != 0real && new_basis != 0real);
        assert(basis_value(position.old_price.basis, dollars) == f * old_basis);
        assert(basis_value(position.price.basis, dollars) == f * new_basis);
        rescaled_in_dollars(old_basis, c, a, f);
        rescaled_in_dollars(new_basis, c, a, f);
        assert(old_native == old_basis * f * c / a);
        assert(new_native == new_basis * f * c / a);
        assert(old_dollars == (f * old_basis) * 1real * (f * c) / a);
        assert(new_dollars == (f * new_basis) * 1real * (f * c) / a);
        rate_of_scaled(new_native, old_native, f, q);
    } else {
        // Neither amount is rescaled, and each is the same told either way.
        assert(old_dollars == old_native) by {
            if position.old_price.conversion == Conversion::AtSell {
                assert((f * native.close[i - 1]) * 1real == native.close[i - 1] * f)
                    by (nonlinear_arith);
            }
        }
        assert(new_dollars == new_native) by {
            if position.price.conversion == Conversion::AtSell {
                assert((f * native.close[i - 1]) * 1real == native.close[i - 1] * f)
                    by (nonlinear_arith);
            }
        }
    }
}

/// The growth over the first days is the same in two tellings in which the
/// rate of each of those days is the same.
proof fn growth_agrees(ledger: Ledger, first: Seq<Market>, second: Seq<Market>, k: int)
    requires
        forall|j: int| 0 <= j < k ==> ledger.rate_at(first, j) == ledger.rate_at(second, j),
    ensures
        ledger.growth(first, k) == ledger.growth(second, k),
    decreases k,
{
    if k > 0 {
        growth_agrees(ledger, first, second, k - 1);
    }
}

/// The returns of a sold equity do not depend on the currency that its
/// provider prices it in: told in a currency worth `factor` dollars and told
/// in dollars, a portfolio of that one equity has the same rate of return on
/// every day and the same return since the first day.
pub proof fn returns_do_not_depend_on_currency<P>(
    item: Portfolio<P>,
    series: Seq<Vec<Quote<P>>>,
    calendar: Seq<i32>,
    ledger: Ledger,
    native: Market,
    dollars: Market,
    factor: real,
    k: int,
)
    requires
        item.portfolio@.len() == 1,
        item.portfolio@[0].sell is Some,
        item.portfolio@[0].quantity > 0,
        strictly_increasing(quote_days(quotes_of(series, 0))),
        strictly_increasing(calendar),
        ledger.holds(item.positions(series, calendar)),
        factor != 0real,
        told_in_dollars(native, dollars, factor, quotes_of(series, 0).len() as int),
        priced(native, quotes_of(series, 0).len() as int),
        0 <= k < ledger.days@.len(),
    ensures
        ledger.rate_at(seq![native], k) == ledger.rate_at(seq![dollars], k),
        ledger.percent(seq![native], k) == ledger.percent(seq![dollars], k),
{
    let equity = item.portfolio@[0];
    let quotes = quotes_of(series, 0);
    let days = quote_days(quotes);
    let n = days.len() as int;
    let log = item.positions(series, calendar);
    if series.len() > 0 {
        assert(series[0].len() == n);
    }
    positions_of_one_equity(item, series, calendar);
    equity_positions_ascend(0, days, true, equity.quantity, calendar, n);
    ledger_of_ascending(ledger, log);
    assert forall|j: int| 0 <= j < k + 1 implies ledger.rate_at(seq![native], j) == ledger.rate_at(
        seq![dollars],
        j,
    ) by {
        let position = log[j].position;
        assert(ledger.days@[j].positions@ == seq![position]);
        assert(is_position_of(position, 0, n, true, equity.quantity));
        rate_of_position_agrees(position, n, equity.quantity, native, dollars, factor);
    }
    growth_agrees(ledger, seq![native], seq![dollars], k + 1);
}

} // verus!
