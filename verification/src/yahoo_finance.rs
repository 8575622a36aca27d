//! The quote provider: the shape of its answer, the checks that an answer
//! must pass, and the daily quotes that are read from it.
//!
//! The types are generic in `P`, the number type of prices. Prices are moved
//! and never computed with.

use crate::dates::{calendar_day, day_of};
use vstd::prelude::*;
use vstd::string::*;

verus! {

/// The error of `serde_json` for a text that is no JSON or has another shape
/// than asked for. Nothing is known of its contents.
#[verifier::external_type_specification]
#[verifier::external_body]
pub struct ExJsonError(serde_json::Error);

/// The error of `reqwest` for a request that could not be sent or answered.
/// Nothing is known of its contents.
#[verifier::external_type_specification]
#[verifier::external_body]
pub struct ExHttpError(reqwest::Error);

/// What can go wrong between asking the provider and holding its quotes.
#[derive(Debug)]
pub enum YahooError {
    FetchFailed(String),
    DeserializeFailed(serde_json::Error),
    ConnectionFailed(reqwest::Error),
    InvalidJson,
    EmptyDataSet,
    DataInconsistency,
    BuilderFailed,
}

/// A failure of the provider as its callers see it: either the transport
/// failed, or the provider's answer was of no use.
#[derive(Debug, Clone, Copy, PartialEq, Eq, Structural)]
pub enum ProviderError {
    Error,
    YahooError,
}

impl YahooError {
    /// The sentence that describes the error.
    pub open spec fn message_text(&self) -> Seq<char> {
        match self {
            YahooError::FetchFailed(_) => "fetching the data from yahoo! finance failed"@,
            YahooError::DeserializeFailed(_) => "deserializing response from yahoo! finance failed"@,
            YahooError::ConnectionFailed(_) => "connection to yahoo! finance server failed"@,
            YahooError::InvalidJson => "yahoo! finance return invalid JSON format"@,
            YahooError::EmptyDataSet => "yahoo! finance returned an empty data set"@,
            YahooError::DataInconsistency => "yahoo! finance returned inconsistent data"@,
            YahooError::BuilderFailed => "construcing yahoo! finance client failed"@,
        }
    }

    /// The sentence that describes the error.
    pub fn message(&self) -> (text: String)
        ensures
            text@ == self.message_text(),
    {
        match self {
            YahooError::FetchFailed(_) => "fetching the data from yahoo! finance failed".to_owned(),
            YahooError::DeserializeFailed(_) => "deserializing response from yahoo! finance failed".to_owned(),
            YahooError::ConnectionFailed(_) => "connection to yahoo! finance server failed".to_owned(),
            YahooError::InvalidJson => "yahoo! finance return invalid JSON format".to_owned(),
            YahooError::EmptyDataSet => "yahoo! finance returned an empty data set".to_owned(),
            YahooError::DataInconsistency => "yahoo! finance returned inconsistent data".to_owned(),
            YahooError::BuilderFailed => "construcing yahoo! finance client failed".to_owned(),
        }
    }
}

impl From<serde_json::Error> for YahooError {
    fn from(e: serde_json::Error) -> (r: Self) {
        YahooError::DeserializeFailed(e)
    }
}

impl vstd::std_specs::convert::FromSpecImpl<serde_json::Error> for YahooError {
    open spec fn obeys_from_spec() -> bool {
        true
    }

    open spec fn from_spec(e: serde_json::Error) -> Self {
        YahooError::DeserializeFailed(e)
    }
}

impl From<reqwest::Error> for YahooError {
    fn from(e: reqwest::Error) -> (r: Self) {
        YahooError::ConnectionFailed(e)
    }
}

impl vstd::std_specs::convert::FromSpecImpl<reqwest::Error> for YahooError {
    open spec fn obeys_from_spec() -> bool {
        true
    }

    open spec fn from_spec(e: reqwest::Error) -> Self {
        YahooError::ConnectionFailed(e)
    }
}

impl From<reqwest::Error> for ProviderError {
    fn from(_e: reqwest::Error) -> (r: Self) {
        ProviderError::Error
    }
}

impl vstd::std_specs::convert::FromSpecImpl<reqwest::Error> for ProviderError {
    open spec fn obeys_from_spec() -> bool {
        true
    }

    open spec fn from_spec(_e: reqwest::Error) -> Self {
        ProviderError::Error
    }
}

impl From<YahooError> for ProviderError {
    fn from(_e: YahooError) -> (r: Self) {
        ProviderError::YahooError
    }
}

impl vstd::std_specs::convert::FromSpecImpl<YahooError> for ProviderError {
    open spec fn obeys_from_spec() -> bool {
        true
    }

    open spec fn from_spec(_e: YahooError) -> Self {
        ProviderError::YahooError
    }
}

/// The provider's answer to one request.
#[derive(Debug)]
pub struct YResponse<P> {
    pub chart: YChart<P>,
}

/// The body of an answer: its result blocks, of which the first is read.
#[derive(Debug)]
pub struct YChart<P> {
    pub result: Vec<YQuoteBlock<P>>,
    pub error: Option<String>,
}

/// One instrument's history: a timestamp for each trading day, and beside it
/// the arrays that hold that day's prices.
#[derive(Debug)]
pub struct YQuoteBlock<P> {
    pub meta: YMetaData,
    pub timestamp: Vec<u64>,
    pub indicators: QuoteBlock<P>,
}

/// What the provider says of the instrument itself.
#[derive(Debug, Clone)]
pub struct YMetaData {
    pub currency: String,
    pub symbol: String,
    pub exchange_name: String,
    pub instrument_type: String,
}

/// The price arrays of a block. Only the first list of each kind is read.
#[derive(Debug)]
pub struct QuoteBlock<P> {
    pub quote: Vec<QuoteList<P>>,
    pub adjclose: Option<Vec<AdjClose<P>>>,
}

/// The adjusted closing prices, one entry for each timestamp.
#[derive(Debug)]
pub struct AdjClose<P> {
    pub adjclose: Vec<Option<P>>,
}

/// The daily prices and volumes, one entry of each for each timestamp.
#[derive(Debug)]
pub struct QuoteList<P> {
    pub volume: Vec<Option<u64>>,
    pub high: Vec<Option<P>>,
    pub close: Vec<Option<P>>,
    pub low: Vec<Option<P>>,
    pub open: Vec<Option<P>>,
}

/// One trading day of one instrument.
#[derive(Debug, Clone, Copy)]
pub struct Quote<P> {
    pub timestamp: u64,
    pub open: P,
    pub high: P,
    pub low: P,
    pub volume: u64,
    pub close: P,
    pub adjclose: P,
}

/// Why a block cannot be read.
#[derive(Debug, Clone, Copy, PartialEq, Eq, Structural)]
pub enum Fault {
    /// The block has no trading day.
    Empty,
    /// An array of the block is missing or is not as long as the timestamps.
    Inconsistent,
}

/// Whether `value` stands for the entry `source`: the entry itself where
/// there is one, else a default value of the number type (zero, for the
/// number types of the language).
pub open spec fn filled<P: Default>(value: P, source: Option<P>) -> bool {
    match source {
        Some(p) => value == p,
        None => call_ensures(P::default, (), value),
    }
}

impl<P> QuoteList<P> {
    /// Whether each of the five arrays has `n` entries.
    pub open spec fn has_length(&self, n: nat) -> bool {
        &&& self.open@.len() == n
        &&& self.high@.len() == n
        &&& self.low@.len() == n
        &&& self.volume@.len() == n
        &&& self.close@.len() == n
    }
}

impl<P> QuoteBlock<P> {
    /// Whether the price arrays are there and have `n` entries each: the
    /// first quote list, and the first list of adjusted closes where the
    /// block holds adjusted closes at all.
    pub open spec fn has_length(&self, n: nat) -> bool {
        &&& self.quote@.len() > 0
        &&& self.quote@[0].has_length(n)
        &&& match self.adjclose {
            Some(lists) => lists@.len() > 0 && lists@[0].adjclose@.len() == n,
            None => true,
        }
    }

    /// The adjusted close of day `i`, if the block has one.
    pub open spec fn adjclose_at(&self, i: int) -> Option<P> {
        match self.adjclose {
            Some(lists) => lists@[0].adjclose@[i],
            None => None,
        }
    }

    /// Whether `quote` is day `i` of the block, stamped `timestamp`: the
    /// close as it stands, every other entry filled where it is missing.
    pub open spec fn is_ith_quote(&self, quote: Quote<P>, timestamp: u64, i: int) -> bool where
        P: Default,
     {
        let list = self.quote@[0];
        &&& quote.timestamp == timestamp
        &&& list.close@[i] == Some(quote.close)
        &&& filled(quote.open, list.open@[i])
        &&& filled(quote.high, list.high@[i])
        &&& filled(quote.low, list.low@[i])
        &&& quote.volume == match list.volume@[i] {
            Some(v) => v,
            None => 0,
        }
        &&& filled(quote.adjclose, self.adjclose_at(i))
    }

    /// Whether the arrays are there and have `n` entries each.
    fn check_length(&self, n: usize) -> (ok: bool)
        ensures
            ok == self.has_length(n as nat),
    {
        if self.quote.len() == 0 {
            return false;
        }
        let list = &self.quote[0];
        if list.open.len() != n || list.high.len() != n || list.low.len() != n || list.volume.len()
            != n || list.close.len() != n {
            return false;
        }
        match &self.adjclose {
            Some(lists) => lists.len() > 0 && lists[0].adjclose.len() == n,
            None => true,
        }
    }

    /// Day `i` of the block as a quote, or the empty-data error where the
    /// day has no close.
    fn get_ith_quote(&self, timestamp: u64, i: usize) -> (r: Result<Quote<P>, YahooError>) where
        P: Copy + Default,

        requires
            exists|n: nat| i < n && self.has_length(n),
        ensures
            r is Ok <==> self.quote@[0].close@[i as int] is Some,
            r matches Ok(quote) ==> self.is_ith_quote(quote, timestamp, i as int),
            r matches Err(e) ==> e is EmptyDataSet,
    {
        let adjclose: Option<P> = match &self.adjclose {
            Some(lists) => lists[0].adjclose[i],
            None => None,
        };
        let list = &self.quote[0];
        let close: P = match list.close[i] {
            Some(c) => c,
            None => {
                return Err(YahooError::EmptyDataSet);
            },
        };
        Ok(
            Quote {
                timestamp,
                open: or_default(list.open[i]),
                high: or_default(list.high[i]),
                low: or_default(list.low[i]),
                volume: match list.volume[i] {
                    Some(v) => v,
                    None => 0,
                },
                close,
                adjclose: or_default(adjclose),
            },
        )
    }
}

/// The entry, or the number type's default where there is none.
fn or_default<P: Copy + Default>(source: Option<P>) -> (value: P)
    ensures
        filled(value, source),
{
    match source {
        Some(p) => p,
        None => P::default(),
    }
}

impl<P> YQuoteBlock<P> {
    /// What is wrong with the block, if anything: it is empty when it has no
    /// timestamp, and inconsistent when a price array is missing or differs
    /// in length from the timestamps.
    pub open spec fn fault(&self) -> Option<Fault> {
        if self.timestamp@.len() == 0 {
            Some(Fault::Empty)
        } else if !self.indicators.has_length(self.timestamp@.len()) {
            Some(Fault::Inconsistent)
        } else {
            None
        }
    }

    /// The number of days up to day `k` that have a close.
    pub open spec fn closes_before(&self, k: int) -> nat
        decreases k,
    {
        if k <= 0 {
            0
        } else {
            self.closes_before(k - 1) + if self.indicators.quote@[0].close@[k - 1] is Some {
                1nat
            } else {
                0nat
            }
        }
    }

    /// Whether `quotes` are the days of the block that have a close, in the
    /// block's order and each read as `QuoteBlock::is_ith_quote` says.
    pub open spec fn projects_to(&self, quotes: Seq<Quote<P>>) -> bool where P: Default {
        &&& quotes.len() == self.closes_before(self.timestamp@.len() as int)
        &&& forall|i: int|
            0 <= i < self.timestamp@.len() && self.indicators.quote@[0].close@[i] is Some
                ==> self.indicators.is_ith_quote(
                #[trigger] quotes[self.closes_before(i) as int],
                self.timestamp@[i],
                i,
            )
    }

    /// What is wrong with the block, if anything.
    fn find_fault(&self) -> (r: Option<Fault>)
        ensures
            r == self.fault(),
    {
        let n = self.timestamp.len();
        if n == 0 {
            Some(Fault::Empty)
        } else if !self.indicators.check_length(n) {
            Some(Fault::Inconsistent)
        } else {
            None
        }
    }
}

impl<P> YResponse<P> {
    /// Whether block `i` is the first block of the answer that has a fault.
    pub open spec fn first_fault_at(&self, i: int) -> bool {
        &&& 0 <= i < self.chart.result@.len()
        &&& self.chart.result@[i].fault() is Some
        &&& forall|j: int| 0 <= j < i ==> (#[trigger] self.chart.result@[j]).fault() is None
    }

    /// Whether the answer can be read: it has a block, and no block has a
    /// fault.
    pub open spec fn consistent(&self) -> bool {
        &&& self.chart.result@.len() > 0
        &&& forall|i: int|
            0 <= i < self.chart.result@.len() ==> (#[trigger] self.chart.result@[i]).fault() is None
    }

    /// Whether `error` is the error that an answer which cannot be read is
    /// refused with: the empty-data error where it has no block or its first
    /// faulty block is empty, the inconsistency error where that block is
    /// inconsistent.
    pub open spec fn refused_with(&self, error: YahooError) -> bool {
        if self.chart.result@.len() == 0 {
            error is EmptyDataSet
        } else {
            exists|i: int|
                self.first_fault_at(i) && match (#[trigger] self.chart.result@[i]).fault() {
                    Some(Fault::Empty) => error is EmptyDataSet,
                    _ => error is DataInconsistency,
                }
        }
    }

    /// Checks every block of the answer before anything is read from it.
    pub fn check_consistency(&self) -> (r: Result<(), YahooError>)
        ensures
            r is Ok <==> self.consistent(),
            r matches Err(e) ==> self.refused_with(e),
    {
        let blocks = &self.chart.result;
        if blocks.len() == 0 {
            return Err(YahooError::EmptyDataSet);
        }
        let mut k: usize = 0;
        while k < blocks.len()
            invariant
                blocks == &self.chart.result,
                k <= blocks@.len(),
                forall|j: int| 0 <= j < k ==> (#[trigger] self.chart.result@[j]).fault() is None,
            decreases blocks@.len() - k,
        {
            match blocks[k].find_fault() {
                Some(Fault::Empty) => {
                    assert(self.first_fault_at(k as int));
                    return Err(YahooError::EmptyDataSet);
                },
                Some(Fault::Inconsistent) => {
                    assert(self.first_fault_at(k as int));
                    return Err(YahooError::DataInconsistency);
                },
                None => {},
            }
            k += 1;
        }
        Ok(())
    }

    /// The daily quotes of the first block: its days that have a close, in
    /// order. An answer that cannot be read is refused as
    /// `check_consistency` refuses it.
    pub fn quotes(&self) -> (r: Result<Vec<Quote<P>>, YahooError>) where P: Copy + Default
        ensures
            r is Ok <==> self.consistent(),
            r matches Ok(quotes) ==> self.chart.result@[0].projects_to(quotes@),
            r matches Err(e) ==> self.refused_with(e),
    {
        match self.check_consistency() {
            Ok(()) => {},
            Err(e) => {
                return Err(e);
            },
        }
        let stock = &self.chart.result[0];
        assert(stock.fault() is None);
        let n = stock.timestamp.len();
        let mut quotes: Vec<Quote<P>> = Vec::new();
        let mut i: usize = 0;
        while i < n
            invariant
                stock == &self.chart.result@[0],
                stock.fault() is None,
                n == stock.timestamp@.len(),
                i <= n,
                quotes@.len() == stock.closes_before(i as int),
                forall|j: int|
                    0 <= j < i && stock.indicators.quote@[0].close@[j] is Some
                        ==> stock.indicators.is_ith_quote(
                        #[trigger] quotes@[stock.closes_before(j) as int],
                        stock.timestamp@[j],
                        j,
                    ),
            decreases n - i,
        {
            let timestamp = stock.timestamp[i];
            proof {
                assert forall|j: int| 0 <= j < i implies stock.closes_before(j) < stock.closes_before(
                    i as int,
                ) || !(stock.indicators.quote@[0].close@[j] is Some) by {
                    stock.closes_before_grows(j, i as int);
                }
            }
            if let Ok(q) = stock.indicators.get_ith_quote(timestamp, i) {
                quotes.push(q);
            }
            i += 1;
        }
        Ok(quotes)
    }

    /// What the first block says of the instrument. An answer that cannot be
    /// read is refused as `check_consistency` refuses it.
    pub fn metadata(&self) -> (r: Result<YMetaData, YahooError>)
        ensures
            r is Ok <==> self.consistent(),
            r matches Ok(meta) ==> meta == self.chart.result@[0].meta,
            r matches Err(e) ==> self.refused_with(e),
    {
        match self.check_consistency() {
            Ok(()) => {},
            Err(e) => {
                return Err(e);
            },
        }
        let meta = &self.chart.result[0].meta;
        Ok(
            YMetaData {
                currency: meta.currency.clone(),
                symbol: meta.symbol.clone(),
                exchange_name: meta.exchange_name.clone(),
                instrument_type: meta.instrument_type.clone(),
            },
        )
    }
}

impl<P> YQuoteBlock<P> {
    /// A day with a close is counted from the next day on.
    pub proof fn closes_before_grows(&self, j: int, k: int)
        requires
            0 <= j < k,
        ensures
            self.closes_before(j) <= self.closes_before(k),
            self.indicators.quote@[0].close@[j] is Some ==> self.closes_before(j)
                < self.closes_before(k),
        decreases k,
    {
        if j < k - 1 {
            self.closes_before_grows(j, k - 1);
        }
    }
}

impl<P> YQuoteBlock<P> {
    /// Where some day before day `k` has a close, there is a first such day.
    pub proof fn first_close_exists(&self, k: int)
        requires
            self.closes_before(k) > 0,
        ensures
            exists|i: int|
                0 <= i < k && (#[trigger] self.indicators.quote@[0].close@[i]) is Some
                    && self.closes_before(i) == 0,
        decreases k,
    {
        if self.closes_before(k - 1) > 0 {
            self.first_close_exists(k - 1);
        } else {
            assert(self.indicators.quote@[0].close@[k - 1] is Some);
        }
    }
}

impl YMetaData {
    /// Whether the instrument is priced in dollars.
    pub fn in_dollars(&self) -> (yes: bool)
        ensures
            yes == (self.currency@ == "USD"@),
    {
        let dollars = "USD".to_owned();
        self.currency == dollars
    }
}

/// The ticker under which the provider quotes the exchange rate of a
/// currency into dollars: the currency's code followed by `=X`.
pub fn exchange_ticker(currency: &str) -> (ticker: String)
    ensures
        ticker@ == currency@ + "=X"@,
{
    currency.to_owned().concat("=X")
}

/// The currency whose exchange rate an instrument's prices are multiplied
/// by, read from an answer of the provider for that instrument: none where
/// the answer cannot be read or the instrument is priced in dollars.
pub fn conversion_currency<P>(answer: &YResponse<P>) -> (currency: Option<String>)
    ensures
        currency is Some <==> answer.consistent() && answer.chart.result@[0].meta.currency@
            != "USD"@,
        currency matches Some(code) ==> code@ == answer.chart.result@[0].meta.currency@,
{
    match answer.metadata() {
        Ok(meta) => {
            if meta.in_dollars() {
                None
            } else {
                Some(meta.currency)
            }
        },
        Err(_) => None,
    }
}

/// The close of the first quote of an answer: the exchange rate of a day,
/// where the answer is that of an exchange rate over that one day. An
/// answer that cannot be read or has no quote is the provider's failure.
pub fn first_close<P: Copy + Default>(answer: &YResponse<P>) -> (r: Result<P, ProviderError>)
    ensures
        r is Ok <==> answer.consistent() && answer.chart.result@[0].closes_before(
            answer.chart.result@[0].timestamp@.len() as int,
        ) > 0,
        r matches Ok(close) ==> exists|i: int|
            0 <= i < answer.chart.result@[0].timestamp@.len() && (
            #[trigger] answer.chart.result@[0].indicators.quote@[0].close@[i]) == Some(close)
                && answer.chart.result@[0].closes_before(i) == 0,
        r matches Err(e) ==> e == ProviderError::YahooError,
{
    let quotes = match answer.quotes() {
        Ok(quotes) => quotes,
        Err(e) => {
            return Err(ProviderError::from(e));
        },
    };
    if quotes.len() == 0 {
        return Err(ProviderError::YahooError);
    }
    proof {
        let block = answer.chart.result@[0];
        block.first_close_exists(block.timestamp@.len() as int);
        let i = choose|i: int|
            0 <= i < block.timestamp@.len() && (#[trigger] block.indicators.quote@[0].close@[i])
                is Some && block.closes_before(i) == 0;
        assert(block.indicators.is_ith_quote(
            quotes@[block.closes_before(i) as int],
            block.timestamp@[i],
            i,
        ));
        assert(block.indicators.quote@[0].close@[i] == Some(quotes@[0].close));
    }
    Ok(quotes[0].close)
}

/// Whether `j` is the place, among the quotes of an exchange rate, of the
/// quote that converts prices of day `day`: the first quote that falls on
/// that day, or the last quote of all where none falls on it.
pub open spec fn is_rate_for<P>(rates: Seq<Quote<P>>, day: int, j: int) -> bool {
    &&& 0 <= j < rates.len()
    &&& forall|k: int| 0 <= k < j ==> calendar_day((#[trigger] rates[k]).timestamp) != day
    &&& calendar_day(rates[j].timestamp) == day || j == rates.len() - 1
}

/// The place of the quote of an exchange rate that converts a price with
/// the given timestamp: days are compared, not instants. There is none
/// where there is no quote of the rate at all.
pub fn rate_index<P>(rates: &Vec<Quote<P>>, timestamp: u64) -> (place: Option<usize>)
    ensures
        place is Some <==> rates@.len() > 0,
        place matches Some(j) ==> is_rate_for(rates@, calendar_day(timestamp), j as int),
{
    if rates.len() == 0 {
        return None;
    }
    let day = day_of(timestamp);
    let mut j: usize = 0;
    while j < rates.len() - 1
        invariant
            rates@.len() > 0,
            j <= rates@.len() - 1,
            day == calendar_day(timestamp),
            forall|k: int| 0 <= k < j ==> calendar_day((#[trigger] rates@[k]).timestamp) != day,
        decreases rates@.len() - j,
    {
        if day_of(rates[j].timestamp) == day {
            return Some(j);
        }
        j += 1;
    }
    Some(j)
}

/// For each quote of an instrument, the place of the quote of the exchange
/// rate that converts it. There is no such pairing where the instrument has
/// quotes and the rate has none.
pub fn match_rates<P>(quotes: &Vec<Quote<P>>, rates: &Vec<Quote<P>>) -> (pairing: Option<
    Vec<usize>,
>)
    ensures
        pairing is Some <==> quotes@.len() == 0 || rates@.len() > 0,
        pairing matches Some(places) ==> {
            &&& places@.len() == quotes@.len()
            &&& forall|i: int|
                0 <= i < quotes@.len() ==> is_rate_for(
                    rates@,
                    calendar_day(quotes@[i].timestamp),
                    (#[trigger] places@[i]) as int,
                )
        },
{
    let mut places: Vec<usize> = Vec::new();
    let mut i: usize = 0;
    while i < quotes.len()
        invariant
            i <= quotes@.len(),
            places@.len() == i,
            i > 0 ==> rates@.len() > 0,
            forall|k: int|
                0 <= k < i ==> is_rate_for(
                    rates@,
                    calendar_day(quotes@[k].timestamp),
                    (#[trigger] places@[k]) as int,
                ),
        decreases quotes@.len() - i,
    {
        match rate_index(rates, quotes[i].timestamp) {
            Some(j) => {
                places.push(j);
            },
            None => {
                return None;
            },
        }
        i += 1;
    }
    Some(places)
}

/// The decimal digits of a number, with a minus sign before them where it
/// is negative, as the language prints an integer.
pub uninterp spec fn decimal_text(n: int) -> Seq<char>;

/// Prints an integer through `i64`'s `to_string`.
///
/// Trusted: the text depends on the number alone.
#[verifier::external_body]
fn decimal(n: i64) -> (text: String)
    ensures
        text@ == decimal_text(n as int),
{
    n.to_string()
}

/// The address of the provider's daily history of `ticker` between two
/// instants, events of dividends, splits and capital gains included.
pub open spec fn chart_url_text(ticker: Seq<char>, start: int, end: int) -> Seq<char> {
    "https://query1.finance.yahoo.com/v8/finance/chart/"@ + ticker + "?symbol="@ + ticker
        + "&period1="@ + decimal_text(start) + "&period2="@ + decimal_text(end)
        + "&interval=1d&events=div%7Csplit%7CcapitalGains"@
}

/// The address to ask for the daily history of `ticker` between two
/// instants.
pub fn chart_url(ticker: &str, start: i64, end: i64) -> (url: String)
    ensures
        url@ == chart_url_text(ticker@, start as int, end as int),
{
    let from = decimal(start);
    let to = decimal(end);
    let mut url = "https://query1.finance.yahoo.com/v8/finance/chart/".to_owned();
    url.append(ticker);
    url.append("?symbol=");
    url.append(ticker);
    url.append("&period1=");
    url.append(from.as_str());
    url.append("&period2=");
    url.append(to.as_str());
    url.append("&interval=1d&events=div%7Csplit%7CcapitalGains");
    url
}

/// The client that a request must name itself as: the provider refuses the
/// names that HTTP libraries give themselves.
pub fn user_agent() -> (agent: &'static str)
    ensures
        agent@ == "curl/7.68.0"@,
{
    "curl/7.68.0"
}

} // verus!
