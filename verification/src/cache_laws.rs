//! What holds of every cache.

use crate::cache::{
    cache_wf, entry_keys, expired, key_of, lemma_drop_first_keeps_absent, lemma_push_key,
    lemma_remove_key, lookup, mapped_cache, stored, CacheKeyView, CacheView, EntryView,
};
use crate::calendar::DateTimeView;
use crate::seqs::{lemma_position_of, position_of};
use vstd::prelude::*;

verus! {

/// Two requests have the same key exactly if they ask for the same tickers in the same order,
/// over the same range of instants, with the same selection of columns. The offsets in which
/// the two ends of the range were written play no part.
pub proof fn lemma_same_key(
    tickers: Seq<Seq<char>>,
    start: DateTimeView,
    end: DateTimeView,
    columns: Option<Seq<Seq<char>>>,
    other_tickers: Seq<Seq<char>>,
    other_start: DateTimeView,
    other_end: DateTimeView,
    other_columns: Option<Seq<Seq<char>>>,
)
    ensures
        key_of(tickers, start, end, columns) == key_of(
            other_tickers,
            other_start,
            other_end,
            other_columns,
        ) <==> {
            &&& tickers == other_tickers
            &&& start.unix_seconds == other_start.unix_seconds
            &&& start.nanosecond == other_start.nanosecond
            &&& end.unix_seconds == other_end.unix_seconds
            &&& end.nanosecond == other_end.nanosecond
            &&& columns == other_columns
        },
{
}

/// An entry put behind entries that lack its key is found at the end.
pub proof fn lemma_position_of_pushed<V>(entries: Seq<EntryView<V>>, entry: EntryView<V>)
    requires
        position_of(entry_keys(entries), entry.key) is None,
    ensures
        position_of(entry_keys(entries.push(entry)), entry.key) == Some(entries.len() as int),
{
    let longer = entry_keys(entries.push(entry));
    assert(longer.drop_last() =~= entry_keys(entries));
    assert(longer.last() == entry.key);
}

/// What `stored` keeps of the entries before it puts the new one behind them: the entries
/// without the one under `key`, and without the first of these where they fill the cache.
pub open spec fn kept_on_insert<V>(c: CacheView<V>, key: CacheKeyView) -> Seq<EntryView<V>> {
    let rest = match position_of(entry_keys(c.entries), key) {
        Some(i) => c.entries.remove(i),
        None => c.entries,
    };
    if rest.len() >= c.capacity && c.capacity > 0 {
        rest.drop_first()
    } else {
        rest
    }
}

/// What `stored` keeps lacks the key, has no double key, and leaves room for one entry.
pub proof fn lemma_kept_on_insert<V>(c: CacheView<V>, key: CacheKeyView)
    requires
        cache_wf(c),
    ensures
        position_of(entry_keys(kept_on_insert(c, key)), key) is None,
        entry_keys(kept_on_insert(c, key)).no_duplicates(),
        c.capacity > 0 ==> kept_on_insert(c, key).len() < c.capacity,
        c.capacity == 0 ==> kept_on_insert(c, key).len() == 0,
{
    lemma_position_of(entry_keys(c.entries), key);
    let rest = match position_of(entry_keys(c.entries), key) {
        Some(i) => c.entries.remove(i),
        None => c.entries,
    };
    match position_of(entry_keys(c.entries), key) {
        Some(i) => {
            lemma_remove_key(c.entries, i);
        },
        None => {},
    }
    if rest.len() >= c.capacity && c.capacity > 0 {
        lemma_remove_key(rest, 0);
        assert(rest.remove(0) =~= rest.drop_first());
        lemma_drop_first_keeps_absent(rest, key);
    }
}

/// To store an entry leaves a cache a cache.
pub proof fn lemma_stored_wf<V>(c: CacheView<V>, key: CacheKeyView, value: V, now: u64)
    requires
        cache_wf(c),
    ensures
        cache_wf(stored(c, key, value, now)),
        c.capacity > 0 ==> stored(c, key, value, now).entries == kept_on_insert(c, key).push(
            EntryView { key, value, inserted_at: now },
        ),
{
    lemma_kept_on_insert(c, key);
    if c.capacity > 0 {
        lemma_push_key(kept_on_insert(c, key), EntryView { key, value, inserted_at: now });
    }
}

/// A lookup leaves a cache a cache.
pub proof fn lemma_lookup_wf<V>(c: CacheView<V>, key: CacheKeyView, now: u64)
    requires
        cache_wf(c),
    ensures
        cache_wf(lookup(c, key, now).1),
{
    lemma_position_of(entry_keys(c.entries), key);
    match position_of(entry_keys(c.entries), key) {
        Some(i) => {
            lemma_remove_key(c.entries, i);
            lemma_push_key(c.entries.remove(i), c.entries[i]);
        },
        None => {},
    }
}

/// After a value was stored under a key, a lookup of the key gives that value up to the end
/// of its time and nothing after it: never a value that was stored under the key before. (A
/// cache of capacity 0 gives nothing.)
pub proof fn lemma_get_after_insert<V>(
    c: CacheView<V>,
    key: CacheKeyView,
    value: V,
    stored_at: u64,
    now: u64,
)
    requires
        cache_wf(c),
    ensures
        lookup(stored(c, key, value, stored_at), key, now).0 == if c.capacity > 0 && !expired(
            stored_at,
            c.ttl,
            now,
        ) {
            Some(value)
        } else {
            None
        },
{
    lemma_stored_wf(c, key, value, stored_at);
    lemma_kept_on_insert(c, key);
    if c.capacity > 0 {
        lemma_position_of_pushed(
            kept_on_insert(c, key),
            EntryView { key, value, inserted_at: stored_at },
        );
    } else {
        assert(c.entries.len() == 0);
    }
}

/// To store a value under a key twice is to store it the second time: what the first time
/// stored, the same value or another, leaves no trace.
pub proof fn lemma_insert_overwrites<V>(
    c: CacheView<V>,
    key: CacheKeyView,
    first: V,
    first_at: u64,
    second: V,
    second_at: u64,
)
    requires
        cache_wf(c),
    ensures
        stored(stored(c, key, first, first_at), key, second, second_at) == stored(
            c,
            key,
            second,
            second_at,
        ),
{
    lemma_stored_wf(c, key, first, first_at);
    lemma_kept_on_insert(c, key);
    let once = stored(c, key, first, first_at);
    if c.capacity > 0 {
        let kept = kept_on_insert(c, key);
        let entry = EntryView { key, value: first, inserted_at: first_at };
        lemma_position_of_pushed(kept, entry);
        assert(once.entries.remove(kept.len() as int) =~= kept);
        assert(stored(once, key, second, second_at).entries =~= stored(
            c,
            key,
            second,
            second_at,
        ).entries);
    } else {
        assert(c.entries.len() == 0);
        assert(stored(once, key, second, second_at).entries =~= stored(
            c,
            key,
            second,
            second_at,
        ).entries);
    }
}

/// A lookup gives nothing but a value that the cache holds under the key and that is not
/// past its time: an entry stored at `t` is given to no lookup after `t + ttl`.
pub proof fn lemma_lookup_live<V>(c: CacheView<V>, key: CacheKeyView, now: u64)
    ensures
        lookup(c, key, now).0 matches Some(value) ==> exists|i: int|
            0 <= i < c.entries.len() && (#[trigger] c.entries[i]).key == key && c.entries[i].value
                == value && now <= c.entries[i].inserted_at + c.ttl,
{
    lemma_position_of(entry_keys(c.entries), key);
    if lookup(c, key, now).0 is Some {
        let i = position_of(entry_keys(c.entries), key)->Some_0;
        assert(c.entries[i].key == key);
    }
}

/// A lookup of a key that the cache holds gives the value held, unless it is past its time.
pub proof fn lemma_get_held<V>(c: CacheView<V>, i: int, now: u64)
    requires
        cache_wf(c),
        0 <= i < c.entries.len(),
    ensures
        lookup(c, c.entries[i].key, now).0 == if expired(c.entries[i].inserted_at, c.ttl, now) {
            None
        } else {
            Some(c.entries[i].value)
        },
{
    let keys = entry_keys(c.entries);
    lemma_position_of(keys, keys[i]);
    let j = position_of(keys, keys[i])->Some_0;
    assert(j == i) by {
        if j != i {
            assert(keys[j] == keys[i]);
        }
    }
}

/// A lookup of a key that the cache lacks gives nothing and leaves the cache as it was.
pub proof fn lemma_get_absent<V>(c: CacheView<V>, key: CacheKeyView, now: u64)
    requires
        forall|i: int| 0 <= i < c.entries.len() ==> (#[trigger] c.entries[i]).key != key,
    ensures
        lookup(c, key, now) == (None::<V>, c),
{
    let keys = entry_keys(c.entries);
    lemma_position_of(keys, key);
    if position_of(keys, key) is Some {
        let j = position_of(keys, key)->Some_0;
        assert(c.entries[j].key == key);
    }
}

/// The cache after the first `n` of `keys` were stored in order, each with its value and at
/// its instant.
pub open spec fn stored_all<V>(
    c: CacheView<V>,
    keys: Seq<CacheKeyView>,
    values: Seq<V>,
    times: Seq<u64>,
    n: int,
) -> CacheView<V>
    decreases n,
{
    if n <= 0 {
        c
    } else {
        stored(stored_all(c, keys, values, times, n - 1), keys[n - 1], values[n - 1], times[n - 1])
    }
}

/// The number of entries that an empty cache of capacity `capacity` holds after `n` keys
/// were stored.
pub open spec fn held_after(capacity: nat, n: int) -> int {
    if n <= capacity {
        n
    } else {
        capacity as int
    }
}

/// A cache that was empty holds, after keys that differ from one another were stored, the
/// last of them: as many as its capacity allows, in the order in which they were stored. The
/// keys that were stored before these, the ones used least recently, have left.
pub proof fn lemma_holds_latest<V>(
    c: CacheView<V>,
    keys: Seq<CacheKeyView>,
    values: Seq<V>,
    times: Seq<u64>,
    n: int,
)
    requires
        c.entries.len() == 0,
        0 <= n <= keys.len(),
        keys.len() == values.len(),
        keys.len() == times.len(),
        keys.no_duplicates(),
    ensures
        ({
            let after = stored_all(c, keys, values, times, n);
            let held = held_after(c.capacity, n);
            &&& cache_wf(after)
            &&& after.capacity == c.capacity
            &&& after.ttl == c.ttl
            &&& after.entries.len() == held
            &&& forall|i: int|
                0 <= i < held ==> #[trigger] after.entries[i] == (EntryView {
                    key: keys[n - held + i],
                    value: values[n - held + i],
                    inserted_at: times[n - held + i],
                })
        }),
    decreases n,
{
    if n == 0 {
        assert(entry_keys(c.entries) =~= Seq::empty());
    } else {
        lemma_holds_latest(c, keys, values, times, n - 1);
        let before = stored_all(c, keys, values, times, n - 1);
        let held = held_after(c.capacity, n - 1);
        let key = keys[n - 1];
        lemma_get_absent(before, key, 0);
        lemma_stored_wf(before, key, values[n - 1], times[n - 1]);
        assert(position_of(entry_keys(before.entries), key) is None) by {
            lemma_position_of(entry_keys(before.entries), key);
            if position_of(entry_keys(before.entries), key) is Some {
                let j = position_of(entry_keys(before.entries), key)->Some_0;
                assert(before.entries[j].key == keys[n - 1 - held + j]);
            }
        }
    }
}

/// After one key more than the capacity were stored in a cache that was empty, keys that
/// differ from one another, the cache holds as many entries as its capacity allows. The key
/// stored first, which was used least recently, is gone; each of the others is given with
/// its value up to the end of its time.
pub proof fn lemma_capacity_bound<V>(
    c: CacheView<V>,
    keys: Seq<CacheKeyView>,
    values: Seq<V>,
    times: Seq<u64>,
    now: u64,
)
    requires
        c.entries.len() == 0,
        keys.len() == c.capacity + 1,
        keys.len() == values.len(),
        keys.len() == times.len(),
        keys.no_duplicates(),
    ensures
        ({
            let after = stored_all(c, keys, values, times, keys.len() as int);
            &&& after.entries.len() == c.capacity
            &&& lookup(after, keys[0], now).0 is None
            &&& forall|i: int|
                1 <= i < keys.len() ==> lookup(after, #[trigger] keys[i], now).0 == if expired(
                    times[i],
                    c.ttl,
                    now,
                ) {
                    None
                } else {
                    Some(values[i])
                }
        }),
{
    let n = keys.len() as int;
    let after = stored_all(c, keys, values, times, n);
    lemma_holds_latest(c, keys, values, times, n);
    assert forall|j: int| 0 <= j < after.entries.len() implies (#[trigger] after.entries[j]).key
        != keys[0] by {
        assert(after.entries[j].key == keys[1 + j]);
    }
    lemma_get_absent(after, keys[0], now);
    assert forall|i: int| 1 <= i < keys.len() implies lookup(after, #[trigger] keys[i], now).0
        == if expired(times[i], c.ttl, now) {
        None
    } else {
        Some(values[i])
    } by {
        assert(after.entries[i - 1].key == keys[i]);
        lemma_get_held(after, i - 1, now);
    }
}

/// What a lookup gives, seen through `f`.
pub open spec fn mapped_value<V, W>(value: Option<V>, f: spec_fn(V) -> W) -> Option<W> {
    match value {
        Some(value) => Some(f(value)),
        None => None,
    }
}

/// A lookup does not look at the values: seen through `f`, it gives what it gives of the
/// cache seen through `f`.
pub proof fn lemma_mapped_lookup<V, W>(
    c: CacheView<V>,
    f: spec_fn(V) -> W,
    key: CacheKeyView,
    now: u64,
)
    ensures
        lookup(mapped_cache(c, f), key, now).0 == mapped_value(lookup(c, key, now).0, f),
        lookup(mapped_cache(c, f), key, now).1 == mapped_cache(lookup(c, key, now).1, f),
{
    let seen = mapped_cache(c, f);
    assert(entry_keys(seen.entries) =~= entry_keys(c.entries));
    lemma_position_of(entry_keys(c.entries), key);
    match position_of(entry_keys(c.entries), key) {
        Some(i) => {
            assert(seen.entries.remove(i) =~= mapped_cache(
                CacheView { entries: c.entries.remove(i), ..c },
                f,
            ).entries);
            assert(seen.entries.remove(i).push(seen.entries[i]) =~= mapped_cache(
                CacheView { entries: c.entries.remove(i).push(c.entries[i]), ..c },
                f,
            ).entries);
        },
        None => {},
    }
}

/// To store does not look at the values: seen through `f`, it stores the value seen through
/// `f`.
pub proof fn lemma_mapped_stored<V, W>(
    c: CacheView<V>,
    f: spec_fn(V) -> W,
    key: CacheKeyView,
    value: V,
    now: u64,
)
    ensures
        stored(mapped_cache(c, f), key, f(value), now) == mapped_cache(
            stored(c, key, value, now),
            f,
        ),
{
    let seen = mapped_cache(c, f);
    assert(entry_keys(seen.entries) =~= entry_keys(c.entries));
    lemma_position_of(entry_keys(c.entries), key);
    let rest = match position_of(entry_keys(c.entries), key) {
        Some(i) => c.entries.remove(i),
        None => c.entries,
    };
    let seen_rest = match position_of(entry_keys(seen.entries), key) {
        Some(i) => seen.entries.remove(i),
        None => seen.entries,
    };
    assert(seen_rest =~= mapped_cache(CacheView { entries: rest, ..c }, f).entries);
    if c.capacity > 0 {
        let room = if rest.len() >= c.capacity {
            rest.drop_first()
        } else {
            rest
        };
        let seen_room = if seen_rest.len() >= c.capacity {
            seen_rest.drop_first()
        } else {
            seen_rest
        };
        assert(seen_room =~= mapped_cache(CacheView { entries: room, ..c }, f).entries);
        assert(stored(seen, key, f(value), now).entries =~= mapped_cache(
            stored(c, key, value, now),
            f,
        ).entries);
    }
}

} // verus!
