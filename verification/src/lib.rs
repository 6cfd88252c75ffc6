//! Tables of market quotes: building them from series of quotes, joining the tables of
//! several tickers on their dates, counting their missing values, and caching them for a
//! bounded time.

pub mod builder;
pub mod cache;
pub mod cache_laws;
pub mod calendar;
pub mod join;
pub mod join_laws;
pub mod models;
pub mod seqs;
pub mod service;
pub mod service_laws;
pub mod stats;
pub mod table;
pub mod text;
