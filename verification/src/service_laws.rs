//! What holds of every request that is served.

use crate::builder::{quote_table, selected_kinds};
use crate::cache::{cache_wf, expired, stored, CacheView};
use crate::cache_laws::{lemma_get_after_insert, lemma_stored_wf};
use crate::models::Quote;
use crate::service::{
    begin_quotes_request, begin_request, end_quotes_request, query_key, quotes_key, resume_request,
    PendingView, ProgressView, QuotesProgressView, QuotesRequestView, ServiceError,
};
use crate::table::{TableError, TableView};
use vstd::prelude::*;

verus! {

/// A request for one ticker is served with the table built from the ticker's quotes, as it
/// is: nothing is joined, and no name gets a label. It fails only where its selection names a
/// column twice.
pub proof fn lemma_one_ticker_plain(
    pending: PendingView,
    quotes: Seq<Quote>,
    cache: CacheView<TableView>,
    now: u64,
)
    requires
        pending.query.tickers.len() == 1,
        pending.fetched.len() == 0,
    ensures
        resume_request(pending, Some(quotes), cache, now).0 == if selected_kinds(
            pending.query.columns,
        ).no_duplicates() {
            ProgressView::Reply(quote_table(quotes, selected_kinds(pending.query.columns)))
        } else {
            ProgressView::Fail(ServiceError::Build(TableError::DuplicateName))
        },
{
    let fetched = pending.fetched.push(quotes);
    assert(fetched.len() == 1);
    assert(fetched[0] == quotes);
}

/// A table that a request was served with from quotes is the table that the same request is
/// served with from the cache, up to the end of the table's time; after that the request waits
/// for quotes again. (A cache of capacity 0 holds no table.)
pub proof fn lemma_served_then_cached(
    pending: PendingView,
    quotes: Seq<Quote>,
    cache: CacheView<TableView>,
    now: u64,
    later: u64,
)
    requires
        cache_wf(cache),
        resume_request(pending, Some(quotes), cache, now).0 is Reply,
    ensures
        ({
            let (served, after) = resume_request(pending, Some(quotes), cache, now);
            &&& cache_wf(after)
            &&& begin_request(Ok(pending.query), after, later).0 == if cache.capacity > 0
                && !expired(now, cache.ttl, later) {
                served
            } else {
                ProgressView::Fetch(PendingView { query: pending.query, fetched: Seq::empty() })
            }
        }),
{
    let served = resume_request(pending, Some(quotes), cache, now).0;
    let table = served->Reply_0;
    lemma_stored_wf(cache, query_key(pending.query), table, now);
    lemma_get_after_insert(cache, query_key(pending.query), table, now, later);
}

/// Quotes that a request was served with from the provider are the quotes that the same
/// request is served with from the cache, up to the end of their time; after that the request
/// waits for quotes again. (A cache of capacity 0 holds no quotes.)
pub proof fn lemma_quotes_served_then_cached(
    request: QuotesRequestView,
    quotes: Seq<Quote>,
    cache: CacheView<Seq<Quote>>,
    now: u64,
    later: u64,
)
    requires
        cache_wf(cache),
    ensures
        ({
            let after = end_quotes_request(request, Some(quotes), cache, now).1;
            &&& cache_wf(after)
            &&& after == stored(cache, quotes_key(request), quotes, now)
            &&& begin_quotes_request(Ok(request), after, later).0 == if cache.capacity > 0
                && !expired(now, cache.ttl, later) {
                QuotesProgressView::Reply(quotes)
            } else {
                QuotesProgressView::Fetch(request)
            }
        }),
{
    lemma_stored_wf(cache, quotes_key(request), quotes, now);
    lemma_get_after_insert(cache, quotes_key(request), quotes, now, later);
}

} // verus!
