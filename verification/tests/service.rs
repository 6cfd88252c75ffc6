use quote_tables::builder::df_from_quotes;
use quote_tables::cache::TimeWindowCache;
use quote_tables::calendar::parse_rfc3339;
use quote_tables::join::{combine_dfs, CombineError};
use quote_tables::models::{Quote, QuoteQuery};
use quote_tables::service::{
    assemble, begin, begin_quotes, end_quotes, get_dataframe_service, get_quotes, parse_query,
    resume, ParsedQuery, Pending, Progress, QueryParseError, QuotesProgress, QuotesRequest,
    ServiceError,
};
use quote_tables::table::{Cell, Table, TableError};

fn query(tickers: &str, columns: Option<&str>) -> QuoteQuery {
    QuoteQuery {
        tickers: tickers.to_string(),
        start: "2020-01-01T00:00:00Z".to_string(),
        end: "2020-02-01T00:00:00Z".to_string(),
        columns: columns.map(|c| c.to_string()),
    }
}

fn quote(timestamp: i64, price: f64) -> Quote {
    Quote {
        timestamp,
        open: price.to_bits(),
        high: price.to_bits(),
        low: price.to_bits(),
        volume: 1,
        close: price.to_bits(),
        adjclose: price.to_bits(),
    }
}

fn texts(list: &[&str]) -> Vec<String> {
    list.iter().map(|s| s.to_string()).collect()
}

fn pending(progress: Progress) -> Pending {
    match progress {
        Progress::Fetch(p) => p,
        other => panic!("expected a fetch, got {:?}", other),
    }
}

fn reply(progress: Progress) -> Table {
    match progress {
        Progress::Reply(t) => t,
        other => panic!("expected a reply, got {:?}", other),
    }
}

fn failure(progress: Progress) -> ServiceError {
    match progress {
        Progress::Fail(e) => e,
        other => panic!("expected a failure, got {:?}", other),
    }
}

#[test]
fn a_request_is_read() {
    let q = parse_query(&query(" AAPL ,, MSFT", Some("open , close"))).unwrap();
    assert_eq!(*q.tickers(), texts(&["AAPL", "MSFT"]));
    assert_eq!(q.start().unix_seconds(), 1_577_836_800);
    assert_eq!(q.end().unix_seconds(), 1_580_515_200);
    assert_eq!(*q.columns(), Some(texts(&["open", "close"])));
    let q = parse_query(&query("AAPL", None)).unwrap();
    assert_eq!(*q.columns(), None);
    let q = parse_query(&query("AAPL", Some(""))).unwrap();
    assert_eq!(*q.columns(), None);
}

#[test]
fn a_request_that_cannot_be_read_says_why() {
    let error = |q: &QuoteQuery| parse_query(q).err();
    assert_eq!(error(&query(" , ", None)), Some(QueryParseError::NoTickers));
    assert_eq!(error(&query("", None)), Some(QueryParseError::NoTickers));
    assert_eq!(error(&query("A", Some(" , "))), Some(QueryParseError::NoColumns));
    assert_eq!(error(&query("A", Some(" "))), Some(QueryParseError::NoColumns));
    let mut q = query("A", None);
    q.start = "2020-01-01".to_string();
    assert_eq!(error(&q), Some(QueryParseError::InvalidStart));
    q.end = "soon".to_string();
    assert_eq!(error(&q), Some(QueryParseError::InvalidStart));
    let mut q = query("A", Some(","));
    q.end = "soon".to_string();
    assert_eq!(error(&q), Some(QueryParseError::InvalidEnd));
    q.tickers = ",".to_string();
    assert_eq!(error(&q), Some(QueryParseError::NoTickers));
    let start = parse_rfc3339("2020-01-01T00:00:00Z");
    assert_eq!(
        ParsedQuery::from_parts("A", start, None, &None).err(),
        Some(QueryParseError::InvalidEnd)
    );
    assert_eq!(
        ParsedQuery::from_parts("A", None, start, &None).err(),
        Some(QueryParseError::InvalidStart)
    );
}

#[test]
fn a_miss_fetches_each_ticker_and_then_replies() {
    let mut cache: TimeWindowCache<Table> = TimeWindowCache::new(10, 300_000);
    let q = query("AAA, BBB", Some("date,close"));
    let p = pending(get_dataframe_service(&q, &mut cache, 1000));
    assert_eq!(p.ticker(), "AAA");
    assert_eq!(p.query().start().unix_seconds(), 1_577_836_800);
    assert_eq!(p.query().end().unix_seconds(), 1_580_515_200);
    let p = pending(resume(p, Some(vec![quote(1, 1.0), quote(2, 2.0)]), &mut cache, 1001));
    assert_eq!(p.ticker(), "BBB");
    assert_eq!(cache.len(), 0);
    let t = reply(resume(p, Some(vec![quote(5, 5.0)]), &mut cache, 1002));
    assert_eq!(cache.len(), 1);
    assert_eq!(t.height(), 3);
    assert_eq!(t.column_names(), texts(&["AAA date", "AAA close", "BBB date", "BBB close"]));
    let want = combine_dfs(
        vec![
            df_from_quotes(&vec![quote(1, 1.0), quote(2, 2.0)], Some(texts(&["date", "close"])))
                .unwrap(),
            df_from_quotes(&vec![quote(5, 5.0)], Some(texts(&["date", "close"]))).unwrap(),
        ],
        texts(&["AAA", "BBB"]),
    )
    .unwrap();
    assert_eq!(t, want);
    // The same request, written otherwise, is now served from the cache.
    let mut again = query("AAA,BBB", Some(" date , close "));
    again.start = "2020-01-01T01:00:00+01:00".to_string();
    assert_eq!(reply(get_dataframe_service(&again, &mut cache, 2000)), want);
    assert_eq!(reply(get_dataframe_service(&again, &mut cache, 301_002)), want);
    // Past its time the table is fetched anew.
    let p = pending(get_dataframe_service(&again, &mut cache, 301_003));
    assert_eq!(p.ticker(), "AAA");
    assert_eq!(cache.len(), 0);
}

#[test]
fn other_requests_miss() {
    let mut cache: TimeWindowCache<Table> = TimeWindowCache::new(10, 300_000);
    let p = pending(get_dataframe_service(&query("AAA", None), &mut cache, 0));
    let t = reply(resume(p, Some(vec![quote(1, 1.0)]), &mut cache, 0));
    assert_eq!(t, df_from_quotes(&vec![quote(1, 1.0)], None).unwrap());
    assert_eq!(reply(get_dataframe_service(&query("AAA", Some("")), &mut cache, 1)), t);
    for other in [query("AAA,AAA", None), query("BBB", None), query("AAA", Some("open"))] {
        pending(get_dataframe_service(&other, &mut cache, 1));
    }
    let mut later = query("AAA", None);
    later.end = "2020-02-01T00:00:01Z".to_string();
    pending(get_dataframe_service(&later, &mut cache, 1));
}

#[test]
fn a_failed_fetch_fails_the_request() {
    let mut cache: TimeWindowCache<Table> = TimeWindowCache::new(10, 300_000);
    let p = pending(get_dataframe_service(&query("AAA,BBB,CCC", None), &mut cache, 0));
    assert_eq!(failure(resume(p, None, &mut cache, 0)), ServiceError::UpstreamFetch { ticker: 0 });
    let p = pending(get_dataframe_service(&query("AAA,BBB,CCC", None), &mut cache, 0));
    let p = pending(resume(p, Some(vec![quote(1, 1.0)]), &mut cache, 0));
    let p = pending(resume(p, Some(Vec::new()), &mut cache, 0));
    assert_eq!(p.ticker(), "CCC");
    assert_eq!(failure(resume(p, None, &mut cache, 0)), ServiceError::UpstreamFetch { ticker: 2 });
    assert_eq!(cache.len(), 0);
}

#[test]
fn a_request_that_cannot_be_read_fails() {
    let mut cache: TimeWindowCache<Table> = TimeWindowCache::new(10, 300_000);
    assert_eq!(
        failure(get_dataframe_service(&query("", None), &mut cache, 0)),
        ServiceError::QueryParse(QueryParseError::NoTickers)
    );
    assert_eq!(
        failure(begin(Err(QueryParseError::InvalidEnd), &mut cache, 0)),
        ServiceError::QueryParse(QueryParseError::InvalidEnd)
    );
}

#[test]
fn a_table_that_cannot_be_assembled_fails_the_request() {
    let mut cache: TimeWindowCache<Table> = TimeWindowCache::new(10, 300_000);
    let p = pending(get_dataframe_service(&query("A,B", Some("open")), &mut cache, 0));
    let p = pending(resume(p, Some(vec![quote(1, 1.0)]), &mut cache, 0));
    assert_eq!(
        failure(resume(p, Some(vec![quote(1, 1.0)]), &mut cache, 0)),
        ServiceError::Join(CombineError::MissingKey)
    );
    let p = pending(get_dataframe_service(&query("A", Some("open,open")), &mut cache, 0));
    assert_eq!(
        failure(resume(p, Some(vec![quote(1, 1.0)]), &mut cache, 0)),
        ServiceError::Build(TableError::DuplicateName)
    );
    assert_eq!(cache.len(), 0);
    assert_eq!(
        assemble(&Vec::new(), Vec::new(), &None).err(),
        Some(ServiceError::Join(CombineError::NoData))
    );
    let t = assemble(&vec![vec![quote(3, 3.0)]], texts(&["X"]), &Some(texts(&["date"]))).unwrap();
    assert_eq!(t.column_names(), texts(&["date"]));
    assert_eq!(t.get(0).unwrap().get(0), Some(Cell::Date(3)));
}

#[test]
fn one_ticker_is_served_with_its_table_as_it_is() {
    let mut cache: TimeWindowCache<Table> = TimeWindowCache::new(10, 300_000);
    let quotes = vec![quote(1, 1.0), quote(2, f64::NAN), quote(2, 3.0)];
    let p = pending(get_dataframe_service(&query(" MSFT ", None), &mut cache, 0));
    assert_eq!(p.ticker(), "MSFT");
    let t = reply(resume(p, Some(quotes.clone()), &mut cache, 0));
    assert_eq!(
        t.column_names(),
        texts(&["date", "open", "high", "low", "close", "volume", "adjclose"])
    );
    assert_eq!(t.height(), 3);
    assert_eq!(t, df_from_quotes(&quotes, None).unwrap());
    // The table in the cache is the same plain table.
    assert_eq!(reply(get_dataframe_service(&query("MSFT", None), &mut cache, 1)), t);
    // A selection without the date gives a table too: nothing is joined.
    let p = pending(get_dataframe_service(&query("MSFT", Some("close, bogus")), &mut cache, 1));
    let t = reply(resume(p, Some(quotes.clone()), &mut cache, 1));
    assert_eq!(t.column_names(), texts(&["close"]));
    assert_eq!(t, df_from_quotes(&quotes, Some(texts(&["close", "bogus"]))).unwrap());
    // Two tickers are joined and labelled.
    let p = pending(get_dataframe_service(&query("MSFT,AAPL", Some("date")), &mut cache, 1));
    let p = pending(resume(p, Some(quotes.clone()), &mut cache, 1));
    let t = reply(resume(p, Some(Vec::new()), &mut cache, 1));
    assert_eq!(t.column_names(), texts(&["MSFT date", "AAPL date"]));
}

fn quotes_request(progress: QuotesProgress) -> QuotesRequest {
    match progress {
        QuotesProgress::Fetch(r) => r,
        other => panic!("expected a fetch, got {:?}", other),
    }
}

#[test]
fn quotes_are_fetched_once_and_then_served_from_the_cache() {
    let mut cache: TimeWindowCache<Vec<Quote>> = TimeWindowCache::new(10, 300_000);
    let start = "2020-01-01T00:00:00Z";
    let end = "2020-02-01T00:00:00Z";
    let r = quotes_request(get_quotes(" AAPL ", start, end, &mut cache, 0));
    assert_eq!(r.ticker(), "AAPL");
    assert_eq!(r.start().unix_seconds(), 1_577_836_800);
    assert_eq!(r.end().unix_seconds(), 1_580_515_200);
    let quotes = vec![quote(1, 1.0), quote(2, f64::NAN)];
    assert_eq!(end_quotes(r, Some(quotes.clone()), &mut cache, 5), Ok(quotes.clone()));
    assert_eq!(cache.len(), 1);
    match get_quotes("AAPL", "2020-01-01T02:00:00+02:00", end, &mut cache, 300_005) {
        QuotesProgress::Reply(held) => assert_eq!(held, quotes),
        other => panic!("expected a reply, got {:?}", other),
    }
    quotes_request(get_quotes("AAPL", start, end, &mut cache, 300_006));
    quotes_request(get_quotes("MSFT", start, end, &mut cache, 6));
}

#[test]
fn a_request_for_quotes_can_fail() {
    let mut cache: TimeWindowCache<Vec<Quote>> = TimeWindowCache::new(10, 300_000);
    let start = "2020-01-01T00:00:00Z";
    let end = "2020-02-01T00:00:00Z";
    let error = |p: QuotesProgress| match p {
        QuotesProgress::Fail(e) => e,
        other => panic!("expected a failure, got {:?}", other),
    };
    assert_eq!(
        error(get_quotes("  ", start, end, &mut cache, 0)),
        ServiceError::QueryParse(QueryParseError::NoTickers)
    );
    assert_eq!(
        error(get_quotes("A", "x", end, &mut cache, 0)),
        ServiceError::QueryParse(QueryParseError::InvalidStart)
    );
    assert_eq!(
        error(get_quotes("A", start, "x", &mut cache, 0)),
        ServiceError::QueryParse(QueryParseError::InvalidEnd)
    );
    assert_eq!(
        error(begin_quotes(Err(QueryParseError::InvalidEnd), &mut cache, 0)),
        ServiceError::QueryParse(QueryParseError::InvalidEnd)
    );
    let r = quotes_request(get_quotes("A", start, end, &mut cache, 0));
    assert_eq!(end_quotes(r, None, &mut cache, 0), Err(ServiceError::UpstreamFetch { ticker: 0 }));
    assert_eq!(cache.len(), 0);
}
