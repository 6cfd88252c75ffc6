//! The plain records that enter the library.

use vstd::prelude::*;

verus! {

/// The parameters of one request, as text.
#[derive(Debug, PartialEq, Eq)]
pub struct QuoteQuery {
    /// Ticker symbols, separated by commas.
    pub tickers: String,
    /// Start of the time range, as an RFC 3339 timestamp.
    pub start: String,
    /// End of the time range, as an RFC 3339 timestamp.
    pub end: String,
    /// Names of the columns to keep, separated by commas; absent or empty for all columns.
    pub columns: Option<String>,
}

/// One sample of a ticker's price series. The five prices are IEEE-754 binary64 numbers, held
/// by their bit patterns.
#[derive(Clone, Copy, Debug, PartialEq, Eq, Structural)]
pub struct Quote {
    /// When the sample was taken, as a count of time units since the Unix epoch.
    pub timestamp: i64,
    /// The bit pattern of the opening price.
    pub open: u64,
    /// The bit pattern of the highest price.
    pub high: u64,
    /// The bit pattern of the lowest price.
    pub low: u64,
    /// The number of shares traded.
    pub volume: u64,
    /// The bit pattern of the closing price.
    pub close: u64,
    /// The bit pattern of the adjusted closing price.
    pub adjclose: u64,
}

} // verus!
