use modus::stock_returns::StocksError;
use modus::yahoo_finance::{
    chart_url, conversion_currency, exchange_ticker, first_close, match_rates, rate_index,
    user_agent, AdjClose, ProviderError, Quote, QuoteBlock, QuoteList, YChart, YMetaData,
    YQuoteBlock, YResponse, YahooError,
};

fn meta(currency: &str) -> YMetaData {
    YMetaData {
        currency: currency.to_string(),
        symbol: "T".to_string(),
        exchange_name: "NMS".to_string(),
        instrument_type: "EQUITY".to_string(),
    }
}

fn list(n: usize) -> QuoteList<f64> {
    QuoteList {
        volume: (0..n).map(|i| Some(1000 + i as u64)).collect(),
        high: (0..n).map(|i| Some(12.0 + i as f64)).collect(),
        close: (0..n).map(|i| Some(11.0 + i as f64)).collect(),
        low: (0..n).map(|i| Some(9.0 + i as f64)).collect(),
        open: (0..n).map(|i| Some(10.0 + i as f64)).collect(),
    }
}

fn block(currency: &str, n: usize) -> YQuoteBlock<f64> {
    YQuoteBlock {
        meta: meta(currency),
        timestamp: (0..n).map(|i| 1675261800 + 86400 * i as u64).collect(),
        indicators: QuoteBlock {
            quote: vec![list(n)],
            adjclose: Some(vec![AdjClose {
                adjclose: (0..n).map(|i| Some(10.5 + i as f64)).collect(),
            }]),
        },
    }
}

fn answer(blocks: Vec<YQuoteBlock<f64>>) -> YResponse<f64> {
    YResponse {
        chart: YChart {
            result: blocks,
            error: None,
        },
    }
}

fn quote(timestamp: u64, close: f64, adjclose: f64) -> Quote<f64> {
    Quote {
        timestamp,
        open: 0.0,
        high: 0.0,
        low: 0.0,
        volume: 0,
        close,
        adjclose,
    }
}

#[test]
fn consistent_answer_passes_the_check() {
    assert!(answer(vec![block("USD", 3)]).check_consistency().is_ok());
    assert!(answer(vec![block("USD", 1), block("EUR", 4)])
        .check_consistency()
        .is_ok());
}

#[test]
fn answer_without_a_day_is_an_empty_data_set() {
    let r = answer(vec![block("USD", 0)]).check_consistency();
    assert!(matches!(r, Err(YahooError::EmptyDataSet)));
}

#[test]
fn answer_without_a_block_is_an_empty_data_set() {
    let empty = answer(vec![]);
    assert!(matches!(
        empty.check_consistency(),
        Err(YahooError::EmptyDataSet)
    ));
    assert!(matches!(empty.quotes(), Err(YahooError::EmptyDataSet)));
    assert!(matches!(empty.metadata(), Err(YahooError::EmptyDataSet)));
}

#[test]
fn each_array_must_be_as_long_as_the_timestamps() {
    let mut short_open = block("USD", 3);
    short_open.indicators.quote[0].open.pop();
    let mut short_high = block("USD", 3);
    short_high.indicators.quote[0].high.pop();
    let mut short_low = block("USD", 3);
    short_low.indicators.quote[0].low.pop();
    let mut long_volume = block("USD", 3);
    long_volume.indicators.quote[0].volume.push(None);
    let mut short_close = block("USD", 3);
    short_close.indicators.quote[0].close.pop();
    let mut short_adjclose = block("USD", 3);
    short_adjclose.indicators.adjclose = Some(vec![AdjClose {
        adjclose: vec![Some(1.0), Some(2.0)],
    }]);
    for faulty in [
        short_open,
        short_high,
        short_low,
        long_volume,
        short_close,
        short_adjclose,
    ] {
        let response = answer(vec![faulty]);
        assert!(matches!(
            response.check_consistency(),
            Err(YahooError::DataInconsistency)
        ));
        assert!(matches!(
            response.quotes(),
            Err(YahooError::DataInconsistency)
        ));
        assert!(matches!(
            response.metadata(),
            Err(YahooError::DataInconsistency)
        ));
    }
}

#[test]
fn missing_price_lists_are_an_inconsistency() {
    let mut no_list = block("USD", 2);
    no_list.indicators.quote.clear();
    assert!(matches!(
        answer(vec![no_list]).check_consistency(),
        Err(YahooError::DataInconsistency)
    ));
    let mut no_adjusted = block("USD", 2);
    no_adjusted.indicators.adjclose = Some(vec![]);
    assert!(matches!(
        answer(vec![no_adjusted]).check_consistency(),
        Err(YahooError::DataInconsistency)
    ));
}

#[test]
fn the_first_faulty_block_decides_the_error() {
    let mut inconsistent = block("USD", 3);
    inconsistent.indicators.quote[0].close.pop();
    let r = answer(vec![block("USD", 2), inconsistent, block("USD", 0)]).check_consistency();
    assert!(matches!(r, Err(YahooError::DataInconsistency)));
    let mut inconsistent = block("USD", 3);
    inconsistent.indicators.quote[0].close.pop();
    let r = answer(vec![block("USD", 2), block("USD", 0), inconsistent]).check_consistency();
    assert!(matches!(r, Err(YahooError::EmptyDataSet)));
}

#[test]
fn an_empty_block_with_uneven_arrays_is_an_empty_data_set() {
    let mut uneven = block("USD", 0);
    uneven.indicators.quote[0].close.push(Some(1.0));
    let r = answer(vec![uneven]).check_consistency();
    assert!(matches!(r, Err(YahooError::EmptyDataSet)));
}

#[test]
fn quotes_are_read_day_by_day() {
    let quotes = answer(vec![block("USD", 3)]).quotes().unwrap();
    assert_eq!(quotes.len(), 3);
    for (i, q) in quotes.iter().enumerate() {
        assert_eq!(q.timestamp, 1675261800 + 86400 * i as u64);
        assert_eq!(q.open, 10.0 + i as f64);
        assert_eq!(q.high, 12.0 + i as f64);
        assert_eq!(q.low, 9.0 + i as f64);
        assert_eq!(q.volume, 1000 + i as u64);
        assert_eq!(q.close, 11.0 + i as f64);
        assert_eq!(q.adjclose, 10.5 + i as f64);
    }
}

#[test]
fn a_day_without_a_close_is_skipped() {
    let mut b = block("USD", 4);
    b.indicators.quote[0].close[0] = None;
    b.indicators.quote[0].close[2] = None;
    let quotes = answer(vec![b]).quotes().unwrap();
    assert_eq!(quotes.len(), 2);
    assert_eq!(quotes[0].timestamp, 1675261800 + 86400);
    assert_eq!(quotes[0].close, 12.0);
    assert_eq!(quotes[0].adjclose, 11.5);
    assert_eq!(quotes[1].timestamp, 1675261800 + 3 * 86400);
    assert_eq!(quotes[1].close, 14.0);
    assert_eq!(quotes[1].open, 13.0);
}

#[test]
fn days_without_any_close_give_no_quote() {
    let mut b = block("USD", 2);
    b.indicators.quote[0].close = vec![None, None];
    let quotes = answer(vec![b]).quotes().unwrap();
    assert!(quotes.is_empty());
}

#[test]
fn missing_entries_are_zero() {
    let mut b = block("USD", 2);
    b.indicators.quote[0].open[0] = None;
    b.indicators.quote[0].high[0] = None;
    b.indicators.quote[0].low[1] = None;
    b.indicators.quote[0].volume[1] = None;
    b.indicators.adjclose = Some(vec![AdjClose {
        adjclose: vec![None, Some(7.0)],
    }]);
    let quotes = answer(vec![b]).quotes().unwrap();
    assert_eq!(quotes[0].open, 0.0);
    assert_eq!(quotes[0].high, 0.0);
    assert_eq!(quotes[0].low, 9.0);
    assert_eq!(quotes[0].volume, 1000);
    assert_eq!(quotes[0].adjclose, 0.0);
    assert_eq!(quotes[1].open, 11.0);
    assert_eq!(quotes[1].low, 0.0);
    assert_eq!(quotes[1].volume, 0);
    assert_eq!(quotes[1].adjclose, 7.0);
}

#[test]
fn absent_adjusted_closes_are_zero() {
    let mut b = block("USD", 2);
    b.indicators.adjclose = None;
    let quotes = answer(vec![b]).quotes().unwrap();
    assert_eq!(quotes.len(), 2);
    assert_eq!(quotes[0].adjclose, 0.0);
    assert_eq!(quotes[1].adjclose, 0.0);
    assert_eq!(quotes[1].close, 12.0);
}

#[test]
fn only_the_first_block_is_read() {
    let quotes = answer(vec![block("USD", 1), block("EUR", 3)])
        .quotes()
        .unwrap();
    assert_eq!(quotes.len(), 1);
    let m = answer(vec![block("GBP", 1), block("EUR", 3)])
        .metadata()
        .unwrap();
    assert_eq!(m.currency, "GBP");
}

#[test]
fn metadata_is_that_of_the_block() {
    let m = answer(vec![block("EUR", 2)]).metadata().unwrap();
    assert_eq!(m.currency, "EUR");
    assert_eq!(m.symbol, "T");
    assert_eq!(m.exchange_name, "NMS");
    assert_eq!(m.instrument_type, "EQUITY");
}

#[test]
fn quotes_of_integer_prices() {
    let response: YResponse<u32> = YResponse {
        chart: YChart {
            result: vec![YQuoteBlock {
                meta: meta("USD"),
                timestamp: vec![10, 20],
                indicators: QuoteBlock {
                    quote: vec![QuoteList {
                        volume: vec![None, Some(5)],
                        high: vec![Some(3), None],
                        close: vec![Some(2), Some(4)],
                        low: vec![None, Some(1)],
                        open: vec![Some(1), Some(2)],
                    }],
                    adjclose: None,
                },
            }],
            error: None,
        },
    };
    let quotes = response.quotes().unwrap();
    assert_eq!(quotes.len(), 2);
    assert_eq!((quotes[0].high, quotes[0].low, quotes[0].volume), (3, 0, 0));
    assert_eq!((quotes[1].high, quotes[1].low, quotes[1].volume), (0, 1, 5));
    assert_eq!((quotes[0].adjclose, quotes[1].close), (0, 4));
}

#[test]
fn error_messages() {
    assert_eq!(
        YahooError::FetchFailed("x".to_string()).message(),
        "fetching the data from yahoo! finance failed"
    );
    assert_eq!(
        YahooError::InvalidJson.message(),
        "yahoo! finance return invalid JSON format"
    );
    assert_eq!(
        YahooError::EmptyDataSet.message(),
        "yahoo! finance returned an empty data set"
    );
    assert_eq!(
        YahooError::DataInconsistency.message(),
        "yahoo! finance returned inconsistent data"
    );
    assert_eq!(
        YahooError::BuilderFailed.message(),
        "construcing yahoo! finance client failed"
    );
}

#[test]
fn outside_errors_become_yahoo_errors() {
    let json = serde_json::from_str::<serde_json::Value>("{").unwrap_err();
    let e = YahooError::from(json);
    assert!(matches!(e, YahooError::DeserializeFailed(_)));
    assert_eq!(
        e.message(),
        "deserializing response from yahoo! finance failed"
    );
    let http = reqwest::Client::new().get("no address").build().unwrap_err();
    let e = YahooError::from(http);
    assert!(matches!(e, YahooError::ConnectionFailed(_)));
    assert_eq!(e.message(), "connection to yahoo! finance server failed");
}

#[test]
fn errors_become_provider_errors() {
    assert_eq!(
        ProviderError::from(YahooError::EmptyDataSet),
        ProviderError::YahooError
    );
    assert_eq!(
        ProviderError::from(YahooError::InvalidJson),
        ProviderError::YahooError
    );
    let http = reqwest::Client::new().get("no address").build().unwrap_err();
    assert_eq!(ProviderError::from(http), ProviderError::Error);
    assert_eq!(
        StocksError::from(ProviderError::Error),
        StocksError::ProviderError
    );
    assert_eq!(
        StocksError::from(ProviderError::YahooError),
        StocksError::ProviderError
    );
}

#[test]
fn dollars_need_no_conversion() {
    assert!(meta("USD").in_dollars());
    assert!(!meta("EUR").in_dollars());
    assert!(!meta("usd").in_dollars());
    assert!(!meta("").in_dollars());
    assert_eq!(conversion_currency(&answer(vec![block("USD", 2)])), None);
    assert_eq!(
        conversion_currency(&answer(vec![block("EUR", 2)])),
        Some("EUR".to_string())
    );
    assert_eq!(conversion_currency(&answer(vec![block("EUR", 0)])), None);
    assert_eq!(conversion_currency(&answer(vec![])), None);
}

#[test]
fn exchange_ticker_of_a_currency() {
    assert_eq!(exchange_ticker("EUR"), "EUR=X");
    assert_eq!(exchange_ticker("GBp"), "GBp=X");
    assert_eq!(exchange_ticker(""), "=X");
}

#[test]
fn first_close_of_an_answer() {
    assert_eq!(first_close(&answer(vec![block("USD", 3)])), Ok(11.0));
    let mut late = block("USD", 3);
    late.indicators.quote[0].close[0] = None;
    assert_eq!(first_close(&answer(vec![late])), Ok(12.0));
    let mut none = block("USD", 2);
    none.indicators.quote[0].close = vec![None, None];
    assert_eq!(
        first_close(&answer(vec![none])),
        Err(ProviderError::YahooError)
    );
    assert_eq!(
        first_close(&answer(vec![block("USD", 0)])),
        Err(ProviderError::YahooError)
    );
    assert_eq!(
        first_close(&answer(vec![])),
        Err(ProviderError::YahooError)
    );
}

#[test]
fn rate_of_the_same_day_is_taken() {
    // 2023-02-01 at 00:00, 2023-02-02 at 00:00, 2023-02-03 at 00:00.
    let rates = vec![
        quote(1675209600, 1.0, 1.1),
        quote(1675296000, 1.0, 1.2),
        quote(1675382400, 1.0, 1.3),
    ];
    // 14:30 on each of the three days.
    assert_eq!(rate_index(&rates, 1675261800), Some(0));
    assert_eq!(rate_index(&rates, 1675348200), Some(1));
    assert_eq!(rate_index(&rates, 1675434600), Some(2));
    // The last second of the first day and the first of the second.
    assert_eq!(rate_index(&rates, 1675295999), Some(0));
    assert_eq!(rate_index(&rates, 1675296000), Some(1));
}

#[test]
fn the_last_rate_stands_in_for_a_missing_day() {
    let rates = vec![
        quote(1675209600, 1.0, 1.1),
        quote(1675296000, 1.0, 1.2),
        quote(1675382400, 1.0, 1.3),
    ];
    // A day before the rates, and a day after them.
    assert_eq!(rate_index(&rates, 1675209599), Some(2));
    assert_eq!(rate_index(&rates, 1675468800), Some(2));
    let none: Vec<Quote<f64>> = vec![];
    assert_eq!(rate_index(&none, 1675261800), None);
}

#[test]
fn the_first_rate_of_a_day_is_taken() {
    let rates = vec![
        quote(1675209600, 1.0, 1.1),
        quote(1675209700, 1.0, 1.2),
        quote(1675382400, 1.0, 1.3),
    ];
    assert_eq!(rate_index(&rates, 1675261800), Some(0));
}

#[test]
fn quotes_are_paired_with_rates() {
    let rates = vec![quote(1675209600, 1.0, 1.1), quote(1675382400, 1.0, 1.3)];
    let quotes = vec![
        quote(1675261800, 10.0, 10.0),
        quote(1675348200, 11.0, 11.0),
        quote(1675434600, 12.0, 12.0),
    ];
    assert_eq!(match_rates(&quotes, &rates), Some(vec![0, 1, 1]));
    let none: Vec<Quote<f64>> = vec![];
    assert_eq!(match_rates(&quotes, &none), None);
    assert_eq!(match_rates(&none, &rates), Some(vec![]));
    assert_eq!(match_rates(&none, &none), Some(vec![]));
}

#[test]
fn address_of_a_history() {
    assert_eq!(
        chart_url("MSFT", 1675209600, 1675295999),
        "https://query1.finance.yahoo.com/v8/finance/chart/MSFT?symbol=MSFT&period1=1675209600&period2=1675295999&interval=1d&events=div%7Csplit%7CcapitalGains"
    );
    assert_eq!(
        chart_url("EUR=X", -86400, 0),
        "https://query1.finance.yahoo.com/v8/finance/chart/EUR=X?symbol=EUR=X&period1=-86400&period2=0&interval=1d&events=div%7Csplit%7CcapitalGains"
    );
}

#[test]
fn requests_name_a_common_client() {
    assert_eq!(user_agent(), "curl/7.68.0");
}
