//! A cache of bounded size whose entries live for a bounded time.

use crate::calendar::{DateTime, DateTimeView};
use crate::seqs::{lemma_position_of, position_of};
use crate::text::{copy_texts, optional_texts, same_texts, texts};
use vstd::prelude::*;

verus! {

/// The number of entries that a cache holds where nothing else is asked for.
pub const DEFAULT_CAPACITY: usize = 10;

/// The time that an entry lives where nothing else is asked for: five minutes, in
/// milliseconds.
pub const DEFAULT_TTL_MILLIS: u64 = 300_000;

/// The mathematical content of a key: what was asked for.
#[verifier::ext_equal]
pub struct CacheKeyView {
    /// The tickers, in the order in which they were asked for.
    pub tickers: Seq<Seq<char>>,
    /// Start of the time range: seconds since the Unix epoch, and nanoseconds.
    pub start: (int, int),
    /// End of the time range: seconds since the Unix epoch, and nanoseconds.
    pub end: (int, int),
    /// The selection of columns; `None` stands for all columns.
    pub columns: Option<Seq<Seq<char>>>,
}

/// What a cached value was computed from: the tickers, the time range as two points in time,
/// and the selection of columns. Two requests have the same key exactly if they ask for the
/// same tickers in the same order, over the same range, with the same selection. The offset
/// in which a point in time was written plays no part.
#[derive(Debug, PartialEq, Eq)]
pub struct CacheKey {
    tickers: Vec<String>,
    start_seconds: i64,
    start_nanosecond: u32,
    end_seconds: i64,
    end_nanosecond: u32,
    columns: Option<Vec<String>>,
}

/// The key for the tickers `tickers`, the range from `start` to `end` and the selection
/// `columns`.
pub open spec fn key_of(
    tickers: Seq<Seq<char>>,
    start: DateTimeView,
    end: DateTimeView,
    columns: Option<Seq<Seq<char>>>,
) -> CacheKeyView {
    CacheKeyView {
        tickers,
        start: (start.unix_seconds, start.nanosecond),
        end: (end.unix_seconds, end.nanosecond),
        columns,
    }
}

impl View for CacheKey {
    type V = CacheKeyView;

    closed spec fn view(&self) -> CacheKeyView {
        CacheKeyView {
            tickers: texts(self.tickers@),
            start: (self.start_seconds as int, self.start_nanosecond as int),
            end: (self.end_seconds as int, self.end_nanosecond as int),
            columns: optional_texts(self.columns),
        }
    }
}

impl CacheKey {
    /// The key for the tickers `tickers`, the range from `start` to `end` and the selection
    /// `columns`.
    pub fn new(
        tickers: Vec<String>,
        start: &DateTime,
        end: &DateTime,
        columns: Option<Vec<String>>,
    ) -> (key: CacheKey)
        ensures
            key@ == key_of(texts(tickers@), start@, end@, optional_texts(columns)),
    {
        CacheKey {
            tickers,
            start_seconds: start.unix_seconds(),
            start_nanosecond: start.nanosecond(),
            end_seconds: end.unix_seconds(),
            end_nanosecond: end.nanosecond(),
            columns,
        }
    }

    /// Whether this key and `other` stand for the same request.
    pub fn same_as(&self, other: &CacheKey) -> (r: bool)
        ensures
            r == (self@ == other@),
    {
        if self.start_seconds != other.start_seconds || self.start_nanosecond
            != other.start_nanosecond || self.end_seconds != other.end_seconds
            || self.end_nanosecond != other.end_nanosecond {
            return false;
        }
        if !same_texts(&self.tickers, &other.tickers) {
            return false;
        }
        match (&self.columns, &other.columns) {
            (Some(a), Some(b)) => same_texts(a, b),
            (None, None) => true,
            _ => false,
        }
    }
}

impl Clone for CacheKey {
    fn clone(&self) -> (r: CacheKey)
        ensures
            r@ == self@,
    {
        let columns = match &self.columns {
            Some(list) => Some(copy_texts(list)),
            None => None,
        };
        CacheKey {
            tickers: copy_texts(&self.tickers),
            start_seconds: self.start_seconds,
            start_nanosecond: self.start_nanosecond,
            end_seconds: self.end_seconds,
            end_nanosecond: self.end_nanosecond,
            columns,
        }
    }
}

/// The mathematical content of one entry of a cache.
pub struct EntryView<V> {
    pub key: CacheKeyView,
    pub value: V,
    /// When the entry was stored.
    pub inserted_at: u64,
}

/// The mathematical content of a cache.
pub struct CacheView<V> {
    /// The entries, from the one that was used least recently to the one that was used last.
    pub entries: Seq<EntryView<V>>,
    /// The number of entries that the cache can hold.
    pub capacity: nat,
    /// The time that an entry lives, in the unit of the instants that the cache is given.
    pub ttl: nat,
}

/// The keys of `entries`, in order.
pub open spec fn entry_keys<V>(entries: Seq<EntryView<V>>) -> Seq<CacheKeyView> {
    entries.map_values(|e: EntryView<V>| e.key)
}

/// Whether `c` can be the content of a cache: no more entries than its capacity, and no key
/// twice.
pub open spec fn cache_wf<V>(c: CacheView<V>) -> bool {
    &&& c.entries.len() <= c.capacity
    &&& entry_keys(c.entries).no_duplicates()
}

/// Whether an entry stored at `inserted_at` is past its time at `now`.
pub open spec fn expired(inserted_at: u64, ttl: nat, now: u64) -> bool {
    now > inserted_at + ttl
}

/// What a lookup of `key` at `now` gives, and what it leaves of the cache. An entry that is
/// past its time is dropped and not given. An entry that is given becomes the one used last.
pub open spec fn lookup<V>(c: CacheView<V>, key: CacheKeyView, now: u64) -> (
    Option<V>,
    CacheView<V>,
) {
    match position_of(entry_keys(c.entries), key) {
        None => (None, c),
        Some(i) => {
            let entry = c.entries[i];
            if expired(entry.inserted_at, c.ttl, now) {
                (None, CacheView { entries: c.entries.remove(i), ..c })
            } else {
                (Some(entry.value), CacheView { entries: c.entries.remove(i).push(entry), ..c })
            }
        },
    }
}

/// The cache after `value` was stored under `key` at `now`. An entry under the same key is
/// replaced. Where the cache is full, the entry that was used least recently leaves. The new
/// entry is the one used last.
pub open spec fn stored<V>(c: CacheView<V>, key: CacheKeyView, value: V, now: u64) -> CacheView<V> {
    let rest = match position_of(entry_keys(c.entries), key) {
        Some(i) => c.entries.remove(i),
        None => c.entries,
    };
    if c.capacity == 0 {
        CacheView { entries: rest, ..c }
    } else {
        let room = if rest.len() >= c.capacity {
            rest.drop_first()
        } else {
            rest
        };
        CacheView { entries: room.push(EntryView { key, value, inserted_at: now }), ..c }
    }
}

/// The content of a cache with each value seen through `f`.
pub open spec fn mapped_cache<V, W>(c: CacheView<V>, f: spec_fn(V) -> W) -> CacheView<W> {
    CacheView {
        entries: c.entries.map_values(
            |e: EntryView<V>|
                EntryView { key: e.key, value: f(e.value), inserted_at: e.inserted_at },
        ),
        capacity: c.capacity,
        ttl: c.ttl,
    }
}

/// One entry of a cache.
struct Entry<V> {
    key: CacheKey,
    value: V,
    inserted_at: u64,
}

impl<V> View for Entry<V> {
    type V = EntryView<V>;

    closed spec fn view(&self) -> EntryView<V> {
        EntryView { key: self.key@, value: self.value, inserted_at: self.inserted_at }
    }
}

/// A cache from keys to values that holds a bounded number of entries, each for a bounded
/// time. Time is what the caller says it is: every operation takes the present instant, as a
/// count of milliseconds on a clock of the caller's choice that does not run backwards. An
/// entry stored at `t` is given to lookups up to and including `t + ttl`, and to none after.
/// Where an entry has to leave to make room, it is the one that was used least recently; to
/// store an entry and to be given it by a lookup are uses.
pub struct TimeWindowCache<V> {
    entries: Vec<Entry<V>>,
    capacity: usize,
    ttl: u64,
}

/// The views of `entries`, in order.
spec fn entries_view<V>(entries: Seq<Entry<V>>) -> Seq<EntryView<V>> {
    entries.map_values(|e: Entry<V>| e@)
}

impl<V> View for TimeWindowCache<V> {
    type V = CacheView<V>;

    closed spec fn view(&self) -> CacheView<V> {
        CacheView {
            entries: entries_view(self.entries@),
            capacity: self.capacity as nat,
            ttl: self.ttl as nat,
        }
    }
}

/// Removing an entry from entries without a double key leaves no double key, and leaves none
/// with the key of the entry removed.
pub proof fn lemma_remove_key<V>(entries: Seq<EntryView<V>>, i: int)
    requires
        0 <= i < entries.len(),
        entry_keys(entries).no_duplicates(),
    ensures
        entry_keys(entries.remove(i)).no_duplicates(),
        position_of(entry_keys(entries.remove(i)), entries[i].key) is None,
        entries.remove(i).len() == entries.len() - 1,
{
    let keys = entry_keys(entries);
    let rest = entries.remove(i);
    let rest_keys = entry_keys(rest);
    assert forall|a: int| 0 <= a < rest.len() implies rest_keys[a] == keys[if a < i {
        a
    } else {
        a + 1
    }] by {}
    lemma_position_of(rest_keys, entries[i].key);
    assert forall|a: int| 0 <= a < rest.len() implies rest_keys[a] != entries[i].key by {
        let b = if a < i {
            a
        } else {
            a + 1
        };
        assert(keys[b] != keys[i]);
    }
}

impl<V> TimeWindowCache<V> {
    #[verifier::type_invariant]
    closed spec fn inv(&self) -> bool {
        cache_wf(self@)
    }
}

impl<V: Clone> Default for TimeWindowCache<V> {
    /// An empty cache for ten entries that live for five minutes each.
    fn default() -> (cache: Self)
        ensures
            cache@ == (CacheView::<V> {
                entries: Seq::empty(),
                capacity: DEFAULT_CAPACITY as nat,
                ttl: DEFAULT_TTL_MILLIS as nat,
            }),
    {
        TimeWindowCache::new(DEFAULT_CAPACITY, DEFAULT_TTL_MILLIS)
    }
}

impl<V: Clone> TimeWindowCache<V> {
    /// An empty cache for `capacity` entries that live for `ttl` milliseconds each.
    pub fn new(capacity: usize, ttl: u64) -> (cache: Self)
        ensures
            cache@ == (CacheView::<V> {
                entries: Seq::empty(),
                capacity: capacity as nat,
                ttl: ttl as nat,
            }),
    {
        let cache = TimeWindowCache { entries: Vec::new(), capacity, ttl };
        assert(cache@.entries =~= Seq::empty());
        cache
    }

    /// The number of entries that the cache holds, those past their time included.
    pub fn len(&self) -> (n: usize)
        ensures
            n == self@.entries.len(),
            cache_wf(self@),
    {
        proof {
            use_type_invariant(self);
        }
        self.entries.len()
    }

    /// The number of entries that the cache can hold.
    pub fn capacity(&self) -> (n: usize)
        ensures
            n == self@.capacity,
    {
        self.capacity
    }

    /// The time that an entry lives, in milliseconds.
    pub fn ttl(&self) -> (t: u64)
        ensures
            t == self@.ttl,
    {
        self.ttl
    }

    /// The place of the entry under `key`, if there is one.
    fn find(&self, key: &CacheKey) -> (r: Option<usize>)
        ensures
            match r {
                Some(i) => i < self@.entries.len() && position_of(
                    entry_keys(self@.entries),
                    key@,
                ) == Some(i as int),
                None => position_of(entry_keys(self@.entries), key@) is None,
            },
    {
        let ghost keys = entry_keys(self@.entries);
        let mut i: usize = 0;
        while i < self.entries.len()
            invariant
                i <= self.entries.len(),
                keys == entry_keys(self@.entries),
                forall|j: int| 0 <= j < i ==> keys[j] != key@,
            decreases self.entries.len() - i,
        {
            if self.entries[i].key.same_as(key) {
                proof {
                    assert(keys[i as int] == key@);
                    lemma_position_of(keys, key@);
                }
                return Some(i);
            }
            assert(keys[i as int] != key@);
            i += 1;
        }
        proof {
            lemma_position_of(keys, key@);
        }
        None
    }

    /// Looks `key` up at the instant `now`. Gives a copy of the value stored under `key`,
    /// unless there is none or it is past its time; one past its time leaves the cache.
    pub fn get(&mut self, key: &CacheKey, now: u64) -> (r: Option<V>)
        ensures
            final(self)@ == lookup(old(self)@, key@, now).1,
            match (r, lookup(old(self)@, key@, now).0) {
                (Some(given), Some(held)) => cloned(held, given),
                (None, None) => true,
                _ => false,
            },
    {
        proof {
            use_type_invariant(&*self);
        }
        let i = match self.find(key) {
            None => {
                return None;
            },
            Some(i) => i,
        };
        let ghost before = self@.entries;
        proof {
            lemma_remove_key(before, i as int);
        }
        let mut entries: Vec<Entry<V>> = Vec::new();
        core::mem::swap(&mut self.entries, &mut entries);
        assert(entries_view(entries@) == before);
        let entry = entries.remove(i);
        assert(entries_view(entries@) =~= before.remove(i as int));
        let given = if now > entry.inserted_at && now - entry.inserted_at > self.ttl {
            None
        } else {
            let given = entry.value.clone();
            let ghost shorter = entries@;
            proof {
                lemma_push_key(entries_view(shorter), entry@);
            }
            entries.push(entry);
            assert(entries_view(entries@) =~= entries_view(shorter).push(entry@));
            Some(given)
        };
        core::mem::swap(&mut self.entries, &mut entries);
        given
    }

    /// Stores `value` under `key` at the instant `now`, in place of what was stored under
    /// `key` before. Where the cache is full, the entry that was used least recently leaves.
    /// A cache of capacity 0 stores nothing.
    pub fn insert(&mut self, key: CacheKey, value: V, now: u64)
        ensures
            final(self)@ == stored(old(self)@, key@, value, now),
    {
        proof {
            use_type_invariant(&*self);
        }
        let found = self.find(&key);
        let ghost before = self@.entries;
        let mut entries: Vec<Entry<V>> = Vec::new();
        core::mem::swap(&mut self.entries, &mut entries);
        assert(entries_view(entries@) == before);
        match found {
            Some(i) => {
                proof {
                    lemma_position_of(entry_keys(before), key@);
                    lemma_remove_key(before, i as int);
                }
                entries.remove(i);
                assert(entries_view(entries@) =~= before.remove(i as int));
            },
            None => {},
        }
        assert(position_of(entry_keys(entries_view(entries@)), key@) is None);
        if self.capacity > 0 {
            if entries.len() >= self.capacity {
                let ghost rest = entries_view(entries@);
                proof {
                    lemma_remove_key(rest, 0);
                    lemma_drop_first_keeps_absent(rest, key@);
                    assert(rest.remove(0) =~= rest.drop_first());
                }
                entries.remove(0);
                assert(entries_view(entries@) =~= rest.drop_first());
            }
            let entry = Entry { key, value, inserted_at: now };
            let ghost shorter = entries@;
            proof {
                lemma_push_key(entries_view(shorter), entry@);
            }
            entries.push(entry);
            assert(entries_view(entries@) =~= entries_view(shorter).push(entry@));
        }
        core::mem::swap(&mut self.entries, &mut entries);
    }
}

/// Entries without a double key have none after an entry under a key that they lack is put
/// behind them.
pub proof fn lemma_push_key<V>(entries: Seq<EntryView<V>>, entry: EntryView<V>)
    requires
        entry_keys(entries).no_duplicates(),
        position_of(entry_keys(entries), entry.key) is None,
    ensures
        entry_keys(entries.push(entry)).no_duplicates(),
{
    lemma_position_of(entry_keys(entries), entry.key);
    let longer = entry_keys(entries.push(entry));
    assert(longer =~= entry_keys(entries).push(entry.key));
}

/// A key that entries lack is still lacking after their first entry is dropped.
pub proof fn lemma_drop_first_keeps_absent<V>(entries: Seq<EntryView<V>>, key: CacheKeyView)
    requires
        entries.len() > 0,
        position_of(entry_keys(entries), key) is None,
    ensures
        position_of(entry_keys(entries.drop_first()), key) is None,
{
    lemma_position_of(entry_keys(entries), key);
    lemma_position_of(entry_keys(entries.drop_first()), key);
    assert forall|j: int| 0 <= j < entries.drop_first().len() implies entry_keys(
        entries.drop_first(),
    )[j] != key by {
        assert(entry_keys(entries.drop_first())[j] == entry_keys(entries)[j + 1]);
    }
}

} // verus!
