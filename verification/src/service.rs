//! Serving a request for the table of one or several tickers: from the cache where it holds
//! the table, else from quotes that the caller fetches, ticker by ticker. The table of one
//! ticker is the table built from its quotes; the tables of several tickers are joined.

use crate::builder::{get_quotes_history, quote_table, quote_tables, responses_view, selected_kinds};
use crate::cache::{
    key_of, lookup, mapped_cache, stored, CacheKey, CacheKeyView, CacheView, TimeWindowCache,
};
use crate::cache_laws::{lemma_mapped_lookup, lemma_mapped_stored};
use crate::calendar::{
    optional_view, parse_rfc3339, rfc3339_reading, timestamp_of, DateTime, DateTimeView,
};
use crate::join::{combine_dfs, spec_combine, CombineError};
use crate::models::{Quote, QuoteQuery};
use crate::table::{tables_view, Table, TableError, TableView};
use crate::text::{copy_texts, list_items, optional_texts, split_list, texts, trim, trimmed};
use vstd::prelude::*;

verus! {

/// Why a request could not be read.
#[derive(Clone, Copy, Debug, PartialEq, Eq, Structural)]
pub enum QueryParseError {
    /// The list of tickers names no ticker.
    NoTickers,
    /// The start of the range is no RFC 3339 timestamp in range.
    InvalidStart,
    /// The end of the range is no RFC 3339 timestamp in range.
    InvalidEnd,
    /// The selection of columns is not empty, and names no column.
    NoColumns,
}

/// Why a request could not be served.
#[derive(Clone, Copy, Debug, PartialEq, Eq, Structural)]
pub enum ServiceError {
    /// The request could not be read.
    QueryParse(QueryParseError),
    /// The quotes of the ticker at this place in the request could not be fetched.
    UpstreamFetch { ticker: usize },
    /// The selection of columns gives no table.
    Build(TableError),
    /// The tables of the tickers could not be combined.
    Join(CombineError),
}

/// The mathematical content of a request that was read.
pub struct ParsedQueryView {
    /// The tickers, in the order of the request; at least one.
    pub tickers: Seq<Seq<char>>,
    pub start: DateTimeView,
    pub end: DateTimeView,
    /// The selection of columns in the order of the request, at least one; or `None` for all
    /// columns.
    pub columns: Option<Seq<Seq<char>>>,
}

/// Whether `q` can be the content of a request that was read.
pub open spec fn query_wf(q: ParsedQueryView) -> bool {
    &&& q.tickers.len() > 0
    &&& q.columns matches Some(names) ==> names.len() > 0
}

/// A request that was read.
#[derive(Debug)]
pub struct ParsedQuery {
    tickers: Vec<String>,
    start: DateTime,
    end: DateTime,
    columns: Option<Vec<String>>,
}

impl View for ParsedQuery {
    type V = ParsedQueryView;

    closed spec fn view(&self) -> ParsedQueryView {
        ParsedQueryView {
            tickers: texts(self.tickers@),
            start: self.start@,
            end: self.end@,
            columns: optional_texts(self.columns),
        }
    }
}

/// The text that may be absent.
pub open spec fn optional_text(text: Option<String>) -> Option<Seq<char>> {
    match text {
        Some(text) => Some(text@),
        None => None,
    }
}

/// What a request reads as, given what its two timestamps read as. The tickers are the items
/// of their list; there has to be one. The selection of columns is absent where the request
/// has none or an empty one; else it is the items of its list, and there has to be one.
pub open spec fn parsed_query(
    tickers: Seq<char>,
    start: Option<DateTimeView>,
    end: Option<DateTimeView>,
    columns: Option<Seq<char>>,
) -> Result<ParsedQueryView, QueryParseError> {
    if list_items(tickers).len() == 0 {
        Err(QueryParseError::NoTickers)
    } else if start is None {
        Err(QueryParseError::InvalidStart)
    } else if end is None {
        Err(QueryParseError::InvalidEnd)
    } else {
        let selection = match columns {
            Some(text) => if text.len() == 0 {
                None
            } else {
                Some(list_items(text))
            },
            None => None,
        };
        if selection matches Some(names) && names.len() == 0 {
            Err(QueryParseError::NoColumns)
        } else {
            Ok(
                ParsedQueryView {
                    tickers: list_items(tickers),
                    start: start->Some_0,
                    end: end->Some_0,
                    columns: selection,
                },
            )
        }
    }
}

/// What a request reads as.
pub open spec fn read_query(props: QuoteQuery) -> Result<ParsedQueryView, QueryParseError> {
    parsed_query(
        props.tickers@,
        timestamp_of(rfc3339_reading(props.start@)),
        timestamp_of(rfc3339_reading(props.end@)),
        optional_text(props.columns),
    )
}

/// The view of the outcome of reading a request.
pub open spec fn parse_view(r: Result<ParsedQuery, QueryParseError>) -> Result<
    ParsedQueryView,
    QueryParseError,
> {
    match r {
        Ok(q) => Ok(q@),
        Err(e) => Err(e),
    }
}

impl ParsedQuery {
    #[verifier::type_invariant]
    closed spec fn inv(&self) -> bool {
        query_wf(self@)
    }

    /// Reads a request whose two timestamps were read as `start` and `end`.
    pub fn from_parts(
        tickers: &str,
        start: Option<DateTime>,
        end: Option<DateTime>,
        columns: &Option<String>,
    ) -> (r: Result<ParsedQuery, QueryParseError>)
        ensures
            parse_view(r) == parsed_query(
                tickers@,
                optional_view(start),
                optional_view(end),
                optional_text(*columns),
            ),
            r matches Ok(q) ==> query_wf(q@),
    {
        let tickers = split_list(tickers);
        if tickers.len() == 0 {
            return Err(QueryParseError::NoTickers);
        }
        let start = match start {
            Some(start) => start,
            None => {
                return Err(QueryParseError::InvalidStart);
            },
        };
        let end = match end {
            Some(end) => end,
            None => {
                return Err(QueryParseError::InvalidEnd);
            },
        };
        let columns = match columns {
            Some(text) => {
                if text.as_str().is_empty() {
                    None
                } else {
                    let names = split_list(text.as_str());
                    if names.len() == 0 {
                        return Err(QueryParseError::NoColumns);
                    }
                    Some(names)
                }
            },
            None => None,
        };
        Ok(ParsedQuery { tickers, start, end, columns })
    }

    /// The tickers, in the order of the request.
    pub fn tickers(&self) -> (r: &Vec<String>)
        ensures
            texts(r@) == self@.tickers,
            query_wf(self@),
    {
        proof {
            use_type_invariant(self);
        }
        &self.tickers
    }

    /// The start of the range.
    pub fn start(&self) -> (r: DateTime)
        ensures
            r@ == self@.start,
    {
        self.start
    }

    /// The end of the range.
    pub fn end(&self) -> (r: DateTime)
        ensures
            r@ == self@.end,
    {
        self.end
    }

    /// The selection of columns.
    pub fn columns(&self) -> (r: &Option<Vec<String>>)
        ensures
            optional_texts(*r) == self@.columns,
    {
        &self.columns
    }

    /// The key under which the table of this request is cached.
    pub fn cache_key(&self) -> (key: CacheKey)
        ensures
            key@ == query_key(self@),
    {
        let columns = match &self.columns {
            Some(names) => Some(copy_texts(names)),
            None => None,
        };
        CacheKey::new(copy_texts(&self.tickers), &self.start, &self.end, columns)
    }
}

/// The key under which the table of the request `q` is cached.
pub open spec fn query_key(q: ParsedQueryView) -> CacheKeyView {
    key_of(q.tickers, q.start, q.end, q.columns)
}

/// Reads a request: the tickers and the selection of columns as lists written with commas,
/// the range as two RFC 3339 timestamps.
pub fn parse_query(props: &QuoteQuery) -> (r: Result<ParsedQuery, QueryParseError>)
    ensures
        parse_view(r) == read_query(*props),
        r matches Ok(q) ==> query_wf(q@),
{
    let start = parse_rfc3339(props.start.as_str());
    let end = parse_rfc3339(props.end.as_str());
    ParsedQuery::from_parts(props.tickers.as_str(), start, end, &props.columns)
}

/// The table of a request, of the quotes fetched for its tickers. For one ticker it is the
/// table built from the ticker's quotes, as it is. For several tickers it is their tables,
/// combined under the tickers as labels.
pub open spec fn assembled(
    fetched: Seq<Seq<Quote>>,
    tickers: Seq<Seq<char>>,
    columns: Option<Seq<Seq<char>>>,
) -> Result<TableView, ServiceError> {
    if fetched.len() > 0 && !selected_kinds(columns).no_duplicates() {
        Err(ServiceError::Build(TableError::DuplicateName))
    } else if fetched.len() == 1 {
        Ok(quote_table(fetched[0], selected_kinds(columns)))
    } else {
        match spec_combine(quote_tables(fetched, columns), tickers) {
            Ok(t) => Ok(t),
            Err(e) => Err(ServiceError::Join(e)),
        }
    }
}

/// The view of a table or an error.
pub open spec fn served_view(r: Result<Table, ServiceError>) -> Result<TableView, ServiceError> {
    match r {
        Ok(t) => Ok(t@),
        Err(e) => Err(e),
    }
}

/// Builds the table of each ticker from its quotes. One table is given as it is; several are
/// combined under the tickers as labels.
pub fn assemble(
    fetched: &Vec<Vec<Quote>>,
    tickers: Vec<String>,
    columns: &Option<Vec<String>>,
) -> (r: Result<Table, ServiceError>)
    requires
        fetched@.len() == tickers@.len(),
    ensures
        served_view(r) == assembled(
            responses_view(fetched@),
            texts(tickers@),
            optional_texts(*columns),
        ),
{
    let mut tables = match get_quotes_history(fetched, columns) {
        Ok(tables) => tables,
        Err(e) => {
            return Err(ServiceError::Build(e));
        },
    };
    if tables.len() == 1 {
        let ghost built = tables_view(tables@);
        let table = tables.remove(0);
        assert(table@ == built[0]);
        return Ok(table);
    }
    match combine_dfs(tables, tickers) {
        Ok(table) => Ok(table),
        Err(e) => Err(ServiceError::Join(e)),
    }
}

/// The content of a cache of tables, with each table taken as its view.
pub open spec fn table_cache(c: CacheView<Table>) -> CacheView<TableView> {
    mapped_cache(c, |t: Table| t@)
}

/// The mathematical content of a request that waits for quotes.
pub struct PendingView {
    pub query: ParsedQueryView,
    /// The quotes fetched so far: those of the first tickers of the request, in order.
    pub fetched: Seq<Seq<Quote>>,
}

/// A request that missed the cache and waits for the quotes of its next ticker.
#[derive(Debug)]
pub struct Pending {
    query: ParsedQuery,
    fetched: Vec<Vec<Quote>>,
}

impl View for Pending {
    type V = PendingView;

    closed spec fn view(&self) -> PendingView {
        PendingView { query: self.query@, fetched: responses_view(self.fetched@) }
    }
}

/// Whether `p` can be the content of a request that waits for quotes: at least one of its
/// tickers has none yet.
pub open spec fn pending_wf(p: PendingView) -> bool {
    query_wf(p.query) && p.fetched.len() < p.query.tickers.len()
}

impl Pending {
    #[verifier::type_invariant]
    closed spec fn inv(&self) -> bool {
        pending_wf(self@)
    }

    /// The request.
    pub fn query(&self) -> (r: &ParsedQuery)
        ensures
            r@ == self@.query,
            pending_wf(self@),
    {
        proof {
            use_type_invariant(self);
        }
        &self.query
    }

    /// The ticker whose quotes are to be fetched next.
    pub fn ticker(&self) -> (r: &String)
        ensures
            pending_wf(self@),
            r@ == self@.query.tickers[self@.fetched.len() as int],
    {
        proof {
            use_type_invariant(self);
        }
        &self.query.tickers[self.fetched.len()]
    }
}

/// What the service does next.
#[derive(Debug)]
pub enum Progress {
    /// The quotes of the next ticker of the request are to be fetched, over its range.
    Fetch(Pending),
    /// The request is served: this is its table.
    Reply(Table),
    /// The request has failed.
    Fail(ServiceError),
}

/// The mathematical content of what the service does next.
pub enum ProgressView {
    Fetch(PendingView),
    Reply(TableView),
    Fail(ServiceError),
}

impl View for Progress {
    type V = ProgressView;

    open spec fn view(&self) -> ProgressView {
        match self {
            Progress::Fetch(p) => ProgressView::Fetch(p@),
            Progress::Reply(t) => ProgressView::Reply(t@),
            Progress::Fail(e) => ProgressView::Fail(*e),
        }
    }
}

/// How a request begins, given what it reads as, and what that leaves of the cache. A request
/// that cannot be read fails. One whose table the cache holds, not past its time, is served
/// with it. Any other waits for the quotes of its first ticker.
pub open spec fn begin_request(
    parsed: Result<ParsedQueryView, QueryParseError>,
    cache: CacheView<TableView>,
    now: u64,
) -> (ProgressView, CacheView<TableView>) {
    match parsed {
        Err(e) => (ProgressView::Fail(ServiceError::QueryParse(e)), cache),
        Ok(query) => {
            let (held, after) = lookup(cache, query_key(query), now);
            match held {
                Some(table) => (ProgressView::Reply(table), after),
                None => (ProgressView::Fetch(PendingView { query, fetched: Seq::empty() }), after),
            }
        },
    }
}

/// How a request goes on when the fetch of its next ticker has ended, with quotes or without,
/// and what that leaves of the cache. A fetch that failed fails the request. While a ticker
/// is left, the request waits for its quotes. With the quotes of the last ticker the table is
/// assembled; it is stored in the cache under the key of the request, and the request is
/// served with it. Where the table cannot be assembled, the request fails and the cache stays
/// as it is.
pub open spec fn resume_request(
    pending: PendingView,
    outcome: Option<Seq<Quote>>,
    cache: CacheView<TableView>,
    now: u64,
) -> (ProgressView, CacheView<TableView>) {
    match outcome {
        None => (
            ProgressView::Fail(
                ServiceError::UpstreamFetch { ticker: pending.fetched.len() as usize },
            ),
            cache,
        ),
        Some(quotes) => {
            let fetched = pending.fetched.push(quotes);
            if fetched.len() < pending.query.tickers.len() {
                (ProgressView::Fetch(PendingView { query: pending.query, fetched }), cache)
            } else {
                match assembled(fetched, pending.query.tickers, pending.query.columns) {
                    Ok(table) => (
                        ProgressView::Reply(table),
                        stored(cache, query_key(pending.query), table, now),
                    ),
                    Err(e) => (ProgressView::Fail(e), cache),
                }
            }
        },
    }
}

/// Begins to serve a request that was read as `parsed`, at the instant `now`.
pub fn begin(
    parsed: Result<ParsedQuery, QueryParseError>,
    cache: &mut TimeWindowCache<Table>,
    now: u64,
) -> (progress: Progress)
    ensures
        (progress@, table_cache(final(cache)@)) == begin_request(
            parse_view(parsed),
            table_cache(old(cache)@),
            now,
        ),
{
    let query = match parsed {
        Ok(query) => query,
        Err(e) => {
            return Progress::Fail(ServiceError::QueryParse(e));
        },
    };
    let key = query.cache_key();
    proof {
        use_type_invariant(&query);
        lemma_mapped_lookup(cache@, |t: Table| t@, key@, now);
    }
    match cache.get(&key, now) {
        Some(table) => Progress::Reply(table),
        None => {
            let pending = Pending { query, fetched: Vec::new() };
            assert(pending@.fetched =~= Seq::empty());
            Progress::Fetch(pending)
        },
    }
}

/// Begins to serve the request `props`, at the instant `now`: reads it, and looks its table
/// up in the cache.
pub fn get_dataframe_service(
    props: &QuoteQuery,
    cache: &mut TimeWindowCache<Table>,
    now: u64,
) -> (progress: Progress)
    ensures
        (progress@, table_cache(final(cache)@)) == begin_request(
            read_query(*props),
            table_cache(old(cache)@),
            now,
        ),
{
    begin(parse_query(props), cache, now)
}

/// The view of quotes that may be absent.
pub open spec fn optional_quotes(quotes: Option<Vec<Quote>>) -> Option<Seq<Quote>> {
    match quotes {
        Some(quotes) => Some(quotes@),
        None => None,
    }
}

/// Goes on with a request when the fetch of its next ticker has ended, at the instant `now`:
/// with the quotes fetched, or with `None` where the fetch failed.
pub fn resume(
    pending: Pending,
    outcome: Option<Vec<Quote>>,
    cache: &mut TimeWindowCache<Table>,
    now: u64,
) -> (progress: Progress)
    ensures
        (progress@, table_cache(final(cache)@)) == resume_request(
            pending@,
            optional_quotes(outcome),
            table_cache(old(cache)@),
            now,
        ),
{
    proof {
        use_type_invariant(&pending);
    }
    let ghost before = pending@;
    let Pending { query, fetched } = pending;
    let mut fetched = fetched;
    let quotes = match outcome {
        Some(quotes) => quotes,
        None => {
            return Progress::Fail(ServiceError::UpstreamFetch { ticker: fetched.len() });
        },
    };
    let ghost shorter = fetched@;
    fetched.push(quotes);
    assert(responses_view(fetched@) =~= responses_view(shorter).push(quotes@));
    proof {
        use_type_invariant(&query);
    }
    if fetched.len() < query.tickers().len() {
        return Progress::Fetch(Pending { query, fetched });
    }
    let key = query.cache_key();
    match assemble(&fetched, copy_texts(query.tickers()), query.columns()) {
        Ok(table) => {
            let copy = table.clone();
            proof {
                lemma_mapped_stored(cache@, |t: Table| t@, key@, copy, now);
            }
            cache.insert(key, copy, now);
            Progress::Reply(table)
        },
        Err(e) => Progress::Fail(e),
    }
}

/// The mathematical content of a request for the quotes of one ticker.
pub struct QuotesRequestView {
    /// The ticker; not empty.
    pub ticker: Seq<char>,
    pub start: DateTimeView,
    pub end: DateTimeView,
}

/// A request for the quotes of one ticker that was read.
#[derive(Debug)]
pub struct QuotesRequest {
    ticker: String,
    start: DateTime,
    end: DateTime,
}

impl View for QuotesRequest {
    type V = QuotesRequestView;

    closed spec fn view(&self) -> QuotesRequestView {
        QuotesRequestView { ticker: self.ticker@, start: self.start@, end: self.end@ }
    }
}

/// What a request for the quotes of one ticker reads as, given what its two timestamps read
/// as. The ticker is taken without the white space around it, and has to be not empty.
pub open spec fn parsed_quotes_request(
    ticker: Seq<char>,
    start: Option<DateTimeView>,
    end: Option<DateTimeView>,
) -> Result<QuotesRequestView, QueryParseError> {
    if trim(ticker).len() == 0 {
        Err(QueryParseError::NoTickers)
    } else if start is None {
        Err(QueryParseError::InvalidStart)
    } else if end is None {
        Err(QueryParseError::InvalidEnd)
    } else {
        Ok(QuotesRequestView { ticker: trim(ticker), start: start->Some_0, end: end->Some_0 })
    }
}

/// The view of the outcome of reading a request for quotes.
pub open spec fn quotes_request_view(r: Result<QuotesRequest, QueryParseError>) -> Result<
    QuotesRequestView,
    QueryParseError,
> {
    match r {
        Ok(q) => Ok(q@),
        Err(e) => Err(e),
    }
}

/// The key under which the quotes of the request `q` are cached.
pub open spec fn quotes_key(q: QuotesRequestView) -> CacheKeyView {
    key_of(seq![q.ticker], q.start, q.end, None)
}

impl QuotesRequest {
    /// Reads a request for the quotes of one ticker whose two timestamps were read as `start`
    /// and `end`.
    pub fn from_parts(ticker: &str, start: Option<DateTime>, end: Option<DateTime>) -> (r: Result<
        QuotesRequest,
        QueryParseError,
    >)
        ensures
            quotes_request_view(r) == parsed_quotes_request(
                ticker@,
                optional_view(start),
                optional_view(end),
            ),
    {
        let ticker = trimmed(ticker);
        if ticker.as_str().is_empty() {
            return Err(QueryParseError::NoTickers);
        }
        match (start, end) {
            (None, _) => Err(QueryParseError::InvalidStart),
            (Some(_), None) => Err(QueryParseError::InvalidEnd),
            (Some(start), Some(end)) => Ok(QuotesRequest { ticker, start, end }),
        }
    }

    /// The ticker.
    pub fn ticker(&self) -> (r: &String)
        ensures
            r@ == self@.ticker,
    {
        &self.ticker
    }

    /// The start of the range.
    pub fn start(&self) -> (r: DateTime)
        ensures
            r@ == self@.start,
    {
        self.start
    }

    /// The end of the range.
    pub fn end(&self) -> (r: DateTime)
        ensures
            r@ == self@.end,
    {
        self.end
    }

    /// The key under which the quotes of this request are cached.
    pub fn cache_key(&self) -> (key: CacheKey)
        ensures
            key@ == quotes_key(self@),
    {
        let mut tickers: Vec<String> = Vec::new();
        tickers.push(self.ticker.clone());
        assert(texts(tickers@) =~= seq![self.ticker@]);
        CacheKey::new(tickers, &self.start, &self.end, None)
    }
}

/// The content of a cache of quotes, with each series of quotes taken as its view.
pub open spec fn quotes_cache(c: CacheView<Vec<Quote>>) -> CacheView<Seq<Quote>> {
    mapped_cache(c, |quotes: Vec<Quote>| quotes@)
}

/// What the service does next for a request for quotes.
#[derive(Debug)]
pub enum QuotesProgress {
    /// The quotes of the ticker are to be fetched, over the range of the request.
    Fetch(QuotesRequest),
    /// The request is served: these are the quotes.
    Reply(Vec<Quote>),
    /// The request has failed.
    Fail(ServiceError),
}

/// The mathematical content of what the service does next for a request for quotes.
pub enum QuotesProgressView {
    Fetch(QuotesRequestView),
    Reply(Seq<Quote>),
    Fail(ServiceError),
}

impl View for QuotesProgress {
    type V = QuotesProgressView;

    open spec fn view(&self) -> QuotesProgressView {
        match self {
            QuotesProgress::Fetch(q) => QuotesProgressView::Fetch(q@),
            QuotesProgress::Reply(quotes) => QuotesProgressView::Reply(quotes@),
            QuotesProgress::Fail(e) => QuotesProgressView::Fail(*e),
        }
    }
}

/// How a request for quotes begins, given what it reads as, and what that leaves of the
/// cache. A request that cannot be read fails. One whose quotes the cache holds, not past
/// their time, is served with them. Any other waits for the quotes to be fetched.
pub open spec fn begin_quotes_request(
    parsed: Result<QuotesRequestView, QueryParseError>,
    cache: CacheView<Seq<Quote>>,
    now: u64,
) -> (QuotesProgressView, CacheView<Seq<Quote>>) {
    match parsed {
        Err(e) => (QuotesProgressView::Fail(ServiceError::QueryParse(e)), cache),
        Ok(request) => {
            let (held, after) = lookup(cache, quotes_key(request), now);
            match held {
                Some(quotes) => (QuotesProgressView::Reply(quotes), after),
                None => (QuotesProgressView::Fetch(request), after),
            }
        },
    }
}

/// How a request for quotes ends when the fetch has ended, with quotes or without, and what
/// that leaves of the cache. Quotes that were fetched are stored in the cache under the key
/// of the request, and given. A fetch that failed fails the request, and the cache stays as
/// it is.
pub open spec fn end_quotes_request(
    request: QuotesRequestView,
    outcome: Option<Seq<Quote>>,
    cache: CacheView<Seq<Quote>>,
    now: u64,
) -> (Result<Seq<Quote>, ServiceError>, CacheView<Seq<Quote>>) {
    match outcome {
        Some(quotes) => (Ok(quotes), stored(cache, quotes_key(request), quotes, now)),
        None => (Err(ServiceError::UpstreamFetch { ticker: 0 }), cache),
    }
}

/// Begins to serve a request for quotes that was read as `parsed`, at the instant `now`.
pub fn begin_quotes(
    parsed: Result<QuotesRequest, QueryParseError>,
    cache: &mut TimeWindowCache<Vec<Quote>>,
    now: u64,
) -> (progress: QuotesProgress)
    ensures
        (progress@, quotes_cache(final(cache)@)) == begin_quotes_request(
            quotes_request_view(parsed),
            quotes_cache(old(cache)@),
            now,
        ),
{
    let request = match parsed {
        Ok(request) => request,
        Err(e) => {
            return QuotesProgress::Fail(ServiceError::QueryParse(e));
        },
    };
    let key = request.cache_key();
    proof {
        lemma_mapped_lookup(cache@, |quotes: Vec<Quote>| quotes@, key@, now);
    }
    let ghost held = lookup(cache@, key@, now).0;
    match cache.get(&key, now) {
        Some(quotes) => {
            assert(quotes@ =~= held->Some_0@);
            QuotesProgress::Reply(quotes)
        },
        None => QuotesProgress::Fetch(request),
    }
}

/// Begins to serve a request for the quotes of `ticker` from `start` to `end`, two RFC 3339
/// timestamps, at the instant `now`: reads it, and looks the quotes up in the cache.
pub fn get_quotes(
    ticker: &str,
    start: &str,
    end: &str,
    cache: &mut TimeWindowCache<Vec<Quote>>,
    now: u64,
) -> (progress: QuotesProgress)
    ensures
        (progress@, quotes_cache(final(cache)@)) == begin_quotes_request(
            parsed_quotes_request(
                ticker@,
                timestamp_of(rfc3339_reading(start@)),
                timestamp_of(rfc3339_reading(end@)),
            ),
            quotes_cache(old(cache)@),
            now,
        ),
{
    let parsed = QuotesRequest::from_parts(ticker, parse_rfc3339(start), parse_rfc3339(end));
    begin_quotes(parsed, cache, now)
}

/// The view of quotes or an error.
pub open spec fn quotes_result_view(r: Result<Vec<Quote>, ServiceError>) -> Result<
    Seq<Quote>,
    ServiceError,
> {
    match r {
        Ok(quotes) => Ok(quotes@),
        Err(e) => Err(e),
    }
}

/// Ends a request for quotes when the fetch has ended, at the instant `now`: with the quotes
/// fetched, or with `None` where the fetch failed.
pub fn end_quotes(
    request: QuotesRequest,
    outcome: Option<Vec<Quote>>,
    cache: &mut TimeWindowCache<Vec<Quote>>,
    now: u64,
) -> (r: Result<Vec<Quote>, ServiceError>)
    ensures
        (quotes_result_view(r), quotes_cache(final(cache)@)) == end_quotes_request(
            request@,
            optional_quotes(outcome),
            quotes_cache(old(cache)@),
            now,
        ),
{
    match outcome {
        Some(quotes) => {
            let copy = quotes.clone();
            assert(copy@ =~= quotes@);
            let key = request.cache_key();
            proof {
                lemma_mapped_stored(cache@, |quotes: Vec<Quote>| quotes@, key@, copy, now);
            }
            cache.insert(key, copy, now);
            Ok(quotes)
        },
        None => Err(ServiceError::UpstreamFetch { ticker: 0 }),
    }
}

} // verus!
