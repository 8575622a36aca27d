//! Portfolio performance.
//!
//! A portfolio is a list of equity positions, each bought on a date and
//! perhaps sold on a later one. From the daily quotes of each position the
//! engine lays out, for every day, the positions that are held on it, each
//! with the amount it is worth as the day begins and as it ends. The ratio
//! of the two sums is the day's rate of return; the rates multiplied up to a
//! day give the return since the first day.

use crate::calendar::{rank_of, strictly_increasing, TradingCalendar};
use crate::dates::{calendar_day, day_of, instant_at, instant_of, now, valid_date};
use crate::ledger::{Amount, Basis, Conversion, Dated, Ledger, Position};
use crate::yahoo_finance::{ProviderError, Quote};
use time::error::ComponentRange;
use vstd::prelude::*;

verus! {

/// A calendar date as it is written: year, month (1 to 12) and day.
#[derive(Debug, Clone, Copy, PartialEq, Eq, Structural)]
pub struct TransactionDate {
    pub year: i32,
    pub month: u32,
    pub day: u8,
}

/// A purchase or a sale: its date, and the price of one unit in the
/// instrument's own currency.
#[derive(Debug, Clone, Copy)]
pub struct Transaction<P> {
    pub date: TransactionDate,
    pub price: P,
}

/// A position: `quantity` units of one instrument, bought and perhaps sold.
/// A position without a sale is still held.
#[derive(Debug)]
pub struct Equity<P> {
    pub ticker: String,
    pub buy: Transaction<P>,
    pub sell: Option<Transaction<P>>,
    pub quantity: u32,
}

/// The positions whose common performance is asked for.
#[derive(Debug)]
pub struct Portfolio<P> {
    pub portfolio: Vec<Equity<P>>,
}

/// Why the performance of a portfolio could not be computed.
#[derive(Debug, Clone, Copy, PartialEq, Eq, Structural)]
pub enum StocksError {
    /// A date of a transaction is no date of the calendar.
    ComponentRange,
    /// The quote provider failed.
    ProviderError,
}

impl From<ComponentRange> for StocksError {
    fn from(_e: ComponentRange) -> (r: Self) {
        StocksError::ComponentRange
    }
}

impl vstd::std_specs::convert::FromSpecImpl<ComponentRange> for StocksError {
    open spec fn obeys_from_spec() -> bool {
        true
    }

    open spec fn from_spec(_e: ComponentRange) -> Self {
        StocksError::ComponentRange
    }
}

impl From<ProviderError> for StocksError {
    fn from(_e: ProviderError) -> (r: Self) {
        StocksError::ProviderError
    }
}

impl vstd::std_specs::convert::FromSpecImpl<ProviderError> for StocksError {
    open spec fn obeys_from_spec() -> bool {
        true
    }

    open spec fn from_spec(_e: ProviderError) -> Self {
        StocksError::ProviderError
    }
}

impl TransactionDate {
    /// Whether the date is a date of the calendar.
    pub open spec fn valid(&self) -> bool {
        valid_date(self.year as int, self.month as int, self.day as int)
    }

    /// The first instant of the date, in UTC.
    pub open spec fn first_instant(&self) -> int {
        instant_of(self.year as int, self.month as int, self.day as int, 0, 0, 0)
    }

    /// The last whole second of the date, in UTC.
    pub open spec fn last_instant(&self) -> int {
        instant_of(self.year as int, self.month as int, self.day as int, 23, 59, 59)
    }

    /// The number of the month, if the date names one of the twelve.
    pub fn match_month(&self) -> (month: Option<u8>)
        ensures
            month is Some <==> 1 <= self.month <= 12,
            month matches Some(m) ==> m == self.month,
    {
        if 1 <= self.month && self.month <= 12 {
            Some(self.month as u8)
        } else {
            None
        }
    }
}

impl<P> Equity<P> {
    /// Whether the date of the purchase, and that of the sale if there is
    /// one, are dates of the calendar.
    pub open spec fn has_valid_dates(&self) -> bool {
        &&& self.buy.date.valid()
        &&& self.sell matches Some(sale) ==> sale.date.valid()
    }

    /// The instants between which the position's quotes are asked for: from
    /// the first instant of the day of purchase to the last second of the
    /// day of sale, or to `now` while the position is held.
    pub open spec fn range(&self, now: int) -> (int, int) {
        (
            self.buy.date.first_instant(),
            match self.sell {
                Some(sale) => sale.date.last_instant(),
                None => now,
            },
        )
    }
}

/// The range of a position as of the instant `now`, or the error of the
/// first of its dates that is no date of the calendar.
pub fn range_at<P>(n: &Equity<P>, now: i64) -> (r: Result<(i64, i64), ComponentRange>)
    ensures
        r is Ok <==> n.has_valid_dates(),
        r matches Ok(range) ==> (range.0 as int, range.1 as int) == n.range(now as int),
{
    let start = match instant_at(n.buy.date.year, n.buy.date.month, n.buy.date.day, 0, 0, 0) {
        Ok(t) => t,
        Err(e) => {
            return Err(e);
        },
    };
    let end = match &n.sell {
        Some(sale) => match instant_at(sale.date.year, sale.date.month, sale.date.day, 23, 59, 59) {
            Ok(t) => t,
            Err(e) => {
                return Err(e);
            },
        },
        None => now,
    };
    Ok((start, end))
}

/// The range of a position as of the present instant. For a position that
/// is held the range ends at whatever the clock says.
pub fn get_range<P>(n: &Equity<P>) -> (r: Result<(i64, i64), ComponentRange>)
    ensures
        r is Ok <==> n.has_valid_dates(),
        r matches Ok(range) ==> range.0 == n.buy.date.first_instant() && (n.sell matches Some(sale)
            ==> range.1 == sale.date.last_instant()),
{
    let present = now();
    range_at(n, present)
}

impl<P> Portfolio<P> {
    /// Whether every date of every position is a date of the calendar.
    pub open spec fn has_valid_dates(&self) -> bool {
        forall|i: int|
            0 <= i < self.portfolio@.len() ==> (#[trigger] self.portfolio@[i]).has_valid_dates()
    }

    /// Whether `window` spans the ranges of all positions as of `now` and no
    /// more: it starts with the earliest range and ends with the latest.
    pub open spec fn spanned_by(&self, window: (i64, i64), now: int) -> bool {
        &&& forall|i: int|
            0 <= i < self.portfolio@.len() ==> window.0 <= (#[trigger] self.portfolio@[i]).range(
                now,
            ).0
        &&& forall|i: int|
            0 <= i < self.portfolio@.len() ==> window.1 >= (#[trigger] self.portfolio@[i]).range(
                now,
            ).1
        &&& exists|i: int|
            0 <= i < self.portfolio@.len() && window.0 == (#[trigger] self.portfolio@[i]).range(
                now,
            ).0
        &&& exists|i: int|
            0 <= i < self.portfolio@.len() && window.1 == (#[trigger] self.portfolio@[i]).range(
                now,
            ).1
    }
}

/// The one range over which the quotes of all positions are asked for when
/// their trading calendars are put together: from the earliest start to the
/// latest end of the positions' ranges as of `now`. A portfolio without a
/// position has none. A date that is no date of the calendar is an error.
pub fn find_window<P>(item: &Portfolio<P>, now: i64) -> (r: Result<Option<(i64, i64)>, StocksError>)
    ensures
        r is Ok <==> item.has_valid_dates(),
        r matches Err(e) ==> e == StocksError::ComponentRange,
        r matches Ok(found) ==> (found is Some <==> item.portfolio@.len() > 0),
        r matches Ok(Some(window)) ==> item.spanned_by(window, now as int),
{
    let mut window: Option<(i64, i64)> = None;
    let mut k: usize = 0;
    while k < item.portfolio.len()
        invariant
            k <= item.portfolio@.len(),
            forall|i: int| 0 <= i < k ==> (#[trigger] item.portfolio@[i]).has_valid_dates(),
            window is Some <==> k > 0,
            window matches Some(w) ==> {
                &&& forall|i: int|
                    0 <= i < k ==> w.0 <= (#[trigger] item.portfolio@[i]).range(now as int).0
                &&& forall|i: int|
                    0 <= i < k ==> w.1 >= (#[trigger] item.portfolio@[i]).range(now as int).1
                &&& exists|i: int|
                    0 <= i < k && w.0 == (#[trigger] item.portfolio@[i]).range(now as int).0
                &&& exists|i: int|
                    0 <= i < k && w.1 == (#[trigger] item.portfolio@[i]).range(now as int).1
            },
        decreases item.portfolio@.len() - k,
    {
        let (start, end) = match range_at(&item.portfolio[k], now) {
            Ok(range) => range,
            Err(e) => {
                return Err(StocksError::from(e));
            },
        };
        window =
        match window {
            None => Some((start, end)),
            Some((s, e)) => {
                let ghost i0 = choose|i: int|
                    0 <= i < k && s == (#[trigger] item.portfolio@[i]).range(now as int).0;
                let ghost i1 = choose|i: int|
                    0 <= i < k && e == (#[trigger] item.portfolio@[i]).range(now as int).1;
                assert(item.portfolio@[i0].range(now as int).0 == s);
                assert(item.portfolio@[i1].range(now as int).1 == e);
                Some((if start < s { start } else { s }, if end > e { end } else { e }))
            },
        };
        assert(item.portfolio@[k as int].range(now as int) == (start as int, end as int));
        k += 1;
    }
    Ok(window)
}

/// The trading calendar of a set of quote histories: the days on which any
/// of the quotes falls.
pub fn find_dates<P>(histories: &Vec<Vec<Quote<P>>>) -> (calendar: TradingCalendar)
    ensures
        strictly_increasing(calendar@),
        forall|d: i32|
            calendar@.contains(d) <==> exists|i: int, j: int|
                0 <= i < histories@.len() && 0 <= j < histories@[i]@.len() && calendar_day(
                    (#[trigger] histories@[i]@[j]).timestamp,
                ) == d,
{
    let mut calendar = TradingCalendar::new();
    let mut i: usize = 0;
    while i < histories.len()
        invariant
            i <= histories@.len(),
            strictly_increasing(calendar@),
            forall|d: i32|
                calendar@.contains(d) <==> exists|a: int, b: int|
                    0 <= a < i && 0 <= b < histories@[a]@.len() && calendar_day(
                        (#[trigger] histories@[a]@[b]).timestamp,
                    ) == d,
        decreases histories@.len() - i,
    {
        let history = &histories[i];
        let mut j: usize = 0;
        while j < history.len()
            invariant
                i < histories@.len(),
                history == &histories@[i as int],
                j <= history@.len(),
                strictly_increasing(calendar@),
                forall|d: i32|
                    calendar@.contains(d) <==> (exists|a: int, b: int|
                        0 <= a < i && 0 <= b < histories@[a]@.len() && calendar_day(
                            (#[trigger] histories@[a]@[b]).timestamp,
                        ) == d) || (exists|b: int|
                        0 <= b < j && calendar_day((#[trigger] history@[b]).timestamp) == d),
            decreases history@.len() - j,
        {
            let day = day_of(history[j].timestamp);
            let ghost before = calendar@;
            calendar.insert(day);
            proof {
                assert forall|d: i32|
                    calendar@.contains(d) <==> (exists|a: int, b: int|
                        0 <= a < i && 0 <= b < histories@[a]@.len() && calendar_day(
                            (#[trigger] histories@[a]@[b]).timestamp,
                        ) == d) || (exists|b: int|
                        0 <= b < j + 1 && calendar_day((#[trigger] history@[b]).timestamp)
                            == d) by {
                    if d == day {
                        assert(calendar_day(history@[j as int].timestamp) == d);
                    }
                    if exists|b: int|
                        0 <= b < j + 1 && calendar_day((#[trigger] history@[b]).timestamp) == d {
                        let b = choose|b: int|
                            0 <= b < j + 1 && calendar_day((#[trigger] history@[b]).timestamp)
                                == d;
                        if b < j {
                            assert(before.contains(d));
                        }
                    }
                }
            }
            j += 1;
        }
        proof {
            assert forall|d: i32|
                calendar@.contains(d) <==> exists|a: int, b: int|
                    0 <= a < i + 1 && 0 <= b < histories@[a]@.len() && calendar_day(
                        (#[trigger] histories@[a]@[b]).timestamp,
                    ) == d by {
                if exists|b: int|
                    0 <= b < history@.len() && calendar_day((#[trigger] history@[b]).timestamp)
                        == d {
                    let b = choose|b: int|
                        0 <= b < history@.len() && calendar_day((#[trigger] history@[b]).timestamp)
                            == d;
                    assert(calendar_day(histories@[i as int]@[b].timestamp) == d);
                }
                if exists|a: int, b: int|
                    0 <= a < i + 1 && 0 <= b < histories@[a]@.len() && calendar_day(
                        (#[trigger] histories@[a]@[b]).timestamp,
                    ) == d {
                    let (a, b) = choose|a: int, b: int|
                        0 <= a < i + 1 && 0 <= b < histories@[a]@.len() && calendar_day(
                            (#[trigger] histories@[a]@[b]).timestamp,
                        ) == d;
                    if a == i {
                        assert(calendar_day(history@[b].timestamp) == d);
                    }
                }
            }
        }
        i += 1;
    }
    calendar
}

/// The amount that a position brings into the day of its quote `i`, of `n`
/// quotes: the price paid, in dollars, into the first day; the close of the
/// day before at the final exchange rate into the last day; the adjusted
/// close of the day before into every other day.
pub open spec fn carried(i: int, n: int) -> Amount {
    if i <= 0 {
        Amount { basis: Basis::Buy, conversion: Conversion::AtBuy, rescaled_at: None }
    } else if i == n - 1 {
        Amount {
            basis: Basis::Close((i - 1) as usize),
            conversion: Conversion::AtSell,
            rescaled_at: None,
        }
    } else {
        Amount {
            basis: Basis::AdjustedClose((i - 1) as usize),
            conversion: Conversion::Unit,
            rescaled_at: None,
        }
    }
}

/// The position of equity `equity` on the day of its quote `i`, of `n`
/// quotes.
///
/// On the last day the position begins with what it brings in, rescaled by
/// that day's close over its adjusted close, and ends with the price of the
/// sale in dollars, rescaled alike, or with the adjusted close while the
/// equity is held. On the first of several days it begins with the price
/// paid in dollars and ends with the day's close at the rate of the day of
/// purchase, both rescaled by the day's close over its adjusted close. On a
/// day between it begins with what it brings in and ends with the day's
/// adjusted close.
pub open spec fn position_at(equity: usize, i: int, n: int, sold: bool, quantity: u32) -> Position {
    let at = Some(i as usize);
    if i == n - 1 {
        Position {
            equity,
            old_price: Amount { rescaled_at: at, ..carried(i, n) },
            price: if sold {
                Amount { basis: Basis::Sell, conversion: Conversion::AtSell, rescaled_at: at }
            } else {
                Amount {
                    basis: Basis::AdjustedClose(i as usize),
                    conversion: Conversion::Unit,
                    rescaled_at: None,
                }
            },
            quantity,
        }
    } else if i == 0 {
        Position {
            equity,
            old_price: Amount { rescaled_at: at, ..carried(i, n) },
            price: Amount {
                basis: Basis::Close(i as usize),
                conversion: Conversion::AtBuy,
                rescaled_at: at,
            },
            quantity,
        }
    } else {
        Position {
            equity,
            old_price: carried(i, n),
            price: Amount {
                basis: Basis::AdjustedClose(i as usize),
                conversion: Conversion::Unit,
                rescaled_at: None,
            },
            quantity,
        }
    }
}

/// The position of equity `equity` on a day without a quote that lies
/// before the day of its quote `i`: it begins and ends with what the
/// position brings into the day of quote `i`, and so neither gains nor
/// loses.
pub open spec fn flat_position(equity: usize, i: int, n: int, quantity: u32) -> Position {
    Position { equity, old_price: carried(i, n), price: carried(i, n), quantity }
}

/// The position `position` on each day of the calendar that lies after the
/// day `after` and before the day `before`, by ascending day.
pub open spec fn backfill(calendar: Seq<i32>, after: int, before: int, position: Position) -> Seq<
    Dated,
> {
    let low = rank_of(calendar, after + 1);
    let high = rank_of(calendar, before);
    Seq::new(
        if low <= high {
            (high - low) as nat
        } else {
            0nat
        },
        |j: int| Dated { day: calendar[low + j], position },
    )
}

/// The days on which the quotes fall, quote by quote.
pub open spec fn quote_days<P>(quotes: Seq<Quote<P>>) -> Seq<i32> {
    Seq::new(quotes.len(), |i: int| calendar_day(quotes[i].timestamp) as i32)
}

/// What quote `i` of an equity adds to its positions: a flat position for
/// each day of the calendar that the equity skipped since its quote before,
/// then the position of the day of the quote itself.
pub open spec fn step_positions(
    equity: usize,
    days: Seq<i32>,
    sold: bool,
    quantity: u32,
    calendar: Seq<i32>,
    i: int,
) -> Seq<Dated> {
    let own = Dated {
        day: days[i],
        position: position_at(equity, i, days.len() as int, sold, quantity),
    };
    if i > 0 {
        backfill(
            calendar,
            days[i - 1] as int,
            days[i] as int,
            flat_position(equity, i, days.len() as int, quantity),
        ).push(own)
    } else {
        seq![own]
    }
}

/// The positions of an equity that come from its first `k` quotes.
pub open spec fn positions_upto(
    equity: usize,
    days: Seq<i32>,
    sold: bool,
    quantity: u32,
    calendar: Seq<i32>,
    k: int,
) -> Seq<Dated>
    decreases k,
{
    if k <= 0 {
        Seq::empty()
    } else {
        positions_upto(equity, days, sold, quantity, calendar, k - 1) + step_positions(
            equity,
            days,
            sold,
            quantity,
            calendar,
            k - 1,
        )
    }
}

impl<P> Equity<P> {
    /// The positions of the equity, which stands at place `equity` of its
    /// portfolio, from its own quotes and the trading calendar of the whole
    /// portfolio.
    pub open spec fn positions(
        &self,
        equity: usize,
        quotes: Seq<Quote<P>>,
        calendar: Seq<i32>,
    ) -> Seq<Dated> {
        positions_upto(
            equity,
            quote_days(quotes),
            self.sell is Some,
            self.quantity,
            calendar,
            quotes.len() as int,
        )
    }
}

/// The position of an equity on each day of its quotes and on each day of
/// the calendar that its quotes skip, in the order of its quotes.
pub fn equity_positions<P>(
    index: usize,
    equity: &Equity<P>,
    quotes: &Vec<Quote<P>>,
    calendar: &TradingCalendar,
) -> (log: Vec<Dated>)
    ensures
        log@ == equity.positions(index, quotes@, calendar@),
{
    let n = quotes.len();
    let sold = equity.sell.is_some();
    let quantity = equity.quantity;
    let dates = calendar.dates();
    let ghost days = quote_days(quotes@);
    let mut log: Vec<Dated> = Vec::new();
    let mut previous_day: i32 = 0;
    let mut i: usize = 0;
    while i < n
        invariant
            n == quotes@.len(),
            i <= n,
            sold == (equity.sell is Some),
            quantity == equity.quantity,
            dates@ == calendar@,
            strictly_increasing(calendar@),
            days == quote_days(quotes@),
            i > 0 ==> previous_day == days[i - 1],
            log@ == positions_upto(index, days, sold, quantity, calendar@, i as int),
        decreases n - i,
    {
        let day = day_of(quotes[i].timestamp);
        assert(day == days[i as int]);
        let carry = if i == 0 {
            Amount { basis: Basis::Buy, conversion: Conversion::AtBuy, rescaled_at: None }
        } else if i == n - 1 {
            Amount { basis: Basis::Close(i - 1), conversion: Conversion::AtSell, rescaled_at: None }
        } else {
            Amount {
                basis: Basis::AdjustedClose(i - 1),
                conversion: Conversion::Unit,
                rescaled_at: None,
            }
        };
        assert(carry == carried(i as int, n as int));
        let ghost base = log@;
        if i > 0 {
            let flat = Position { equity: index, old_price: carry, price: carry, quantity };
            let ghost gap = backfill(calendar@, previous_day as int, day as int, flat);
            let low = calendar.rank(previous_day + 1);
            let high = calendar.rank(day);
            let mut g: usize = low;
            while g < high
                invariant
                    dates@ == calendar@,
                    low == rank_of(calendar@, previous_day + 1),
                    high == rank_of(calendar@, day as int),
                    high <= calendar@.len(),
                    low <= g,
                    g <= high || g == low,
                    gap == backfill(calendar@, previous_day as int, day as int, flat),
                    log@ == base + gap.take(g - low),
                decreases high - g,
            {
                log.push(Dated { day: dates[g], position: flat });
                assert(log@ =~= base + gap.take(g + 1 - low));
                g += 1;
            }
            assert(gap.take(g - low) =~= gap);
        }
        let position = if i == n - 1 {
            Position {
                equity: index,
                old_price: Amount { rescaled_at: Some(i), ..carry },
                price: if sold {
                    Amount {
                        basis: Basis::Sell,
                        conversion: Conversion::AtSell,
                        rescaled_at: Some(i),
                    }
                } else {
                    Amount {
                        basis: Basis::AdjustedClose(i),
                        conversion: Conversion::Unit,
                        rescaled_at: None,
                    }
                },
                quantity,
            }
        } else if i == 0 {
            Position {
                equity: index,
                old_price: Amount { rescaled_at: Some(i), ..carry },
                price: Amount {
                    basis: Basis::Close(i),
                    conversion: Conversion::AtBuy,
                    rescaled_at: Some(i),
                },
                quantity,
            }
        } else {
            Position {
                equity: index,
                old_price: carry,
                price: Amount {
                    basis: Basis::AdjustedClose(i),
                    conversion: Conversion::Unit,
                    rescaled_at: None,
                },
                quantity,
            }
        };
        assert(position == position_at(index, i as int, n as int, sold, quantity));
        log.push(Dated { day, position });
        assert(log@ =~= base + step_positions(index, days, sold, quantity, calendar@, i as int));
        previous_day = day;
        i += 1;
    }
    log
}

/// The quotes of the position at place `i`: those that `series` holds for
/// it, and none where `series` holds none.
pub open spec fn quotes_of<P>(series: Seq<Vec<Quote<P>>>, i: int) -> Seq<Quote<P>> {
    if 0 <= i < series.len() {
        series[i]@
    } else {
        Seq::empty()
    }
}

impl<P> Portfolio<P> {
    /// The positions of the first `k` equities of the portfolio, equity by
    /// equity.
    pub open spec fn positions_upto(
        &self,
        series: Seq<Vec<Quote<P>>>,
        calendar: Seq<i32>,
        k: int,
    ) -> Seq<Dated>
        decreases k,
    {
        if k <= 0 {
            Seq::empty()
        } else {
            self.positions_upto(series, calendar, k - 1) + self.portfolio@[k - 1].positions(
                (k - 1) as usize,
                quotes_of(series, k - 1),
                calendar,
            )
        }
    }

    /// The positions of all equities of the portfolio, equity by equity.
    pub open spec fn positions(&self, series: Seq<Vec<Quote<P>>>, calendar: Seq<i32>) -> Seq<
        Dated,
    > {
        self.positions_upto(series, calendar, self.portfolio@.len() as int)
    }
}

/// Lays out the performance of a portfolio: for each day on which any of its
/// equities has a position, the positions of that day.
///
/// `series` holds for each equity, at the equity's place, the quotes of its
/// own range; an equity for which it holds none has no position. `calendar`
/// is the trading calendar of the whole portfolio. The result is the ledger
/// of the positions of all equities, or the error for a date that is no date
/// of the calendar if any transaction has such a date: then nothing is laid
/// out.
pub fn total_returns<P>(
    item: &Portfolio<P>,
    series: &Vec<Vec<Quote<P>>>,
    calendar: &TradingCalendar,
) -> (r: Result<Ledger, StocksError>)
    ensures
        r is Ok <==> item.has_valid_dates(),
        r matches Err(e) ==> e == StocksError::ComponentRange,
        r matches Ok(ledger) ==> ledger.holds(item.positions(series@, calendar@)),
{
    let mut k: usize = 0;
    while k < item.portfolio.len()
        invariant
            k <= item.portfolio@.len(),
            forall|i: int| 0 <= i < k ==> (#[trigger] item.portfolio@[i]).has_valid_dates(),
        decreases item.portfolio@.len() - k,
    {
        match range_at(&item.portfolio[k], 0) {
            Ok(_) => {},
            Err(e) => {
                return Err(StocksError::from(e));
            },
        }
        k += 1;
    }
    let mut ledger = Ledger::new();
    let none: Vec<Quote<P>> = Vec::new();
    let mut k: usize = 0;
    while k < item.portfolio.len()
        invariant
            item.has_valid_dates(),
            k <= item.portfolio@.len(),
            none@.len() == 0,
            ledger.holds(item.positions_upto(series@, calendar@, k as int)),
        decreases item.portfolio@.len() - k,
    {
        let quotes = if k < series.len() {
            &series[k]
        } else {
            &none
        };
        assert(quotes@ =~= quotes_of(series@, k as int));
        let log = equity_positions(k, &item.portfolio[k], quotes, calendar);
        let ghost base = item.positions_upto(series@, calendar@, k as int);
        let mut j: usize = 0;
        while j < log.len()
            invariant
                j <= log@.len(),
                ledger.holds(base + log@.take(j as int)),
            decreases log@.len() - j,
        {
            let ghost before = base + log@.take(j as int);
            ledger.record(log[j]);
            assert(before.push(log@[j as int]) =~= base + log@.take(j + 1));
            j += 1;
        }
        assert(log@.take(j as int) =~= log@);
        k += 1;
    }
    Ok(ledger)
}

} // verus!
