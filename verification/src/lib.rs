//! Time-weighted performance of a portfolio of equity positions.
//!
//! The library validates the daily price history that a quote provider
//! returns, aligns the trading calendars of the positions, and lays out for
//! every day and position the two amounts whose ratio is that day's return.
//! It is generic in the number type of prices and never computes with one:
//! amounts are written as formulas over the prices, with their exact value
//! stated over the real numbers.
//!
//! - [`dates`]: calendar dates, instants and day numbers.
//! - [`calendar`]: the trading calendar.
//! - [`yahoo_finance`]: the quote provider's answers and what is read from
//!   them.
//! - [`ledger`]: positions, amounts and the ledger of all days.
//! - [`stock_returns`]: portfolios, their ranges and their positions.
//! - [`valuation`]: what a ledger is worth, and what holds of it.

pub mod calendar;
pub mod dates;
pub mod ledger;
pub mod stock_returns;
pub mod valuation;
pub mod yahoo_finance;
