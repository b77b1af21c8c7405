//! A cache that keeps what was put in last, up to a number of bytes.
use std::collections::VecDeque;
use vstd::prelude::*;

verus! {

/// Most bytes that a cache keeps.
pub const CACHE_LIMIT: usize = 32 * 1024 * 1024;

/// Values by key, the oldest first, each with the bytes it counts for.
#[derive(Debug)]
pub struct Cache<V> {
    entries: VecDeque<(usize, V, usize)>,
    bytes: usize,
}

/// The entries of a cache and the bytes they count for together.
pub ghost struct CacheState<V> {
    pub entries: Seq<(usize, V, usize)>,
    pub bytes: int,
}

impl<V> View for Cache<V> {
    type V = CacheState<V>;

    closed spec fn view(&self) -> CacheState<V> {
        CacheState { entries: self.entries@, bytes: self.bytes as int }
    }
}

pub open spec fn empty_cache<V>() -> CacheState<V> {
    CacheState { entries: Seq::empty(), bytes: 0 }
}

/// Index of the first entry under the key, or the number of entries.
pub open spec fn entry_index<V>(entries: Seq<(usize, V, usize)>, key: usize) -> int
    decreases entries.len(),
{
    if entries.len() == 0 || entries[0].0 == key {
        0
    } else {
        1 + entry_index(entries.skip(1), key)
    }
}

/// The value under the key.
pub open spec fn cached<V>(cache: CacheState<V>, key: usize) -> Option<V> {
    let k = entry_index(cache.entries, key);
    if k < cache.entries.len() {
        Some(cache.entries[k].1)
    } else {
        None
    }
}

pub open spec fn total_bytes<V>(entries: Seq<(usize, V, usize)>) -> int
    decreases entries.len(),
{
    if entries.len() == 0 {
        0
    } else {
        total_bytes(entries.drop_last()) + entries.last().2
    }
}

impl<V> CacheState<V> {
    /// Whether no key occurs twice, the bytes add up, and they are within the
    /// limit.
    pub open spec fn well_formed(self) -> bool {
        &&& self.bytes == total_bytes(self.entries)
        &&& self.bytes <= CACHE_LIMIT
        &&& forall|i: int, j: int|
            0 <= i < j < self.entries.len() ==> (#[trigger] self.entries[i]).0 != (
            #[trigger] self.entries[j]).0
    }
}

/// The cache without the entry under the key.
pub open spec fn without_key<V>(cache: CacheState<V>, key: usize) -> CacheState<V> {
    let k = entry_index(cache.entries, key);
    if k < cache.entries.len() {
        CacheState {
            entries: cache.entries.remove(k),
            bytes: cache.bytes - cache.entries[k].2,
        }
    } else {
        cache
    }
}

/// The cache after the oldest entries have gone that are too much.
pub open spec fn evicted<V>(cache: CacheState<V>) -> CacheState<V>
    decreases cache.entries.len(),
{
    if cache.bytes > CACHE_LIMIT && cache.entries.len() > 0 {
        evicted(
            CacheState {
                entries: cache.entries.skip(1),
                bytes: cache.bytes - cache.entries[0].2,
            },
        )
    } else {
        cache
    }
}

/// The cache with a value under the key, as the newest entry.
pub open spec fn with_entry<V>(
    cache: CacheState<V>,
    key: usize,
    value: V,
    bytes: usize,
) -> CacheState<V> {
    let kept = without_key(cache, key);
    evicted(
        CacheState { entries: kept.entries.push((key, value, bytes)), bytes: kept.bytes + bytes },
    )
}

proof fn lemma_entry_index<V>(entries: Seq<(usize, V, usize)>, key: usize)
    ensures
        0 <= entry_index(entries, key) <= entries.len(),
        forall|i: int|
            0 <= i < entry_index(entries, key) ==> (#[trigger] entries[i]).0 != key,
        entry_index(entries, key) < entries.len() ==> entries[entry_index(entries, key)].0 == key,
    decreases entries.len(),
{
    if entries.len() > 0 && entries[0].0 != key {
        lemma_entry_index(entries.skip(1), key);
        assert forall|i: int| 0 <= i < entry_index(entries, key) implies (#[trigger] entries[i]).0
            != key by {
            if i > 0 {
                assert(entries.skip(1)[i - 1] == entries[i]);
            }
        }
    }
}

proof fn lemma_entry_index_is<V>(entries: Seq<(usize, V, usize)>, key: usize, k: int)
    requires
        0 <= k <= entries.len(),
        forall|i: int| 0 <= i < k ==> (#[trigger] entries[i]).0 != key,
        k < entries.len() ==> entries[k].0 == key,
    ensures
        entry_index(entries, key) == k,
{
    lemma_entry_index(entries, key);
    let f = entry_index(entries, key);
    if f < k {
        assert(entries[f].0 != key);
    } else if k < f {
        assert(entries[k].0 != key);
    }
}

proof fn lemma_total_first<V>(entries: Seq<(usize, V, usize)>)
    requires
        entries.len() > 0,
    ensures
        total_bytes(entries) == entries[0].2 + total_bytes(entries.skip(1)),
    decreases entries.len(),
{
    if entries.len() > 1 {
        lemma_total_first(entries.drop_last());
        assert(entries.drop_last().skip(1) =~= entries.skip(1).drop_last());
        assert(entries.skip(1).last() == entries.last());
    } else {
        assert(entries.skip(1) =~= Seq::empty());
        assert(entries.drop_last() =~= Seq::empty());
    }
}

proof fn lemma_total_remove<V>(entries: Seq<(usize, V, usize)>, k: int)
    requires
        0 <= k < entries.len(),
    ensures
        total_bytes(entries.remove(k)) == total_bytes(entries) - entries[k].2,
        total_bytes(entries) >= entries[k].2,
    decreases entries.len(),
{
    lemma_total_nonnegative(entries.drop_last());
    if k == entries.len() - 1 {
        assert(entries.remove(k) =~= entries.drop_last());
    } else {
        lemma_total_remove(entries.drop_last(), k);
        assert(entries.remove(k).drop_last() =~= entries.drop_last().remove(k));
        assert(entries.remove(k).last() == entries.last());
    }
}

proof fn lemma_total_nonnegative<V>(entries: Seq<(usize, V, usize)>)
    ensures
        total_bytes(entries) >= 0,
    decreases entries.len(),
{
    if entries.len() > 0 {
        lemma_total_nonnegative(entries.drop_last());
    }
}

proof fn lemma_evicted<V>(cache: CacheState<V>)
    requires
        cache.bytes == total_bytes(cache.entries),
        forall|i: int, j: int|
            0 <= i < j < cache.entries.len() ==> (#[trigger] cache.entries[i]).0 != (
            #[trigger] cache.entries[j]).0,
    ensures
        evicted(cache).well_formed(),
        exists|k: int|
            0 <= k <= cache.entries.len() && evicted(cache).entries == #[trigger] cache.entries.skip(
                k,
            ),
    decreases cache.entries.len(),
{
    if cache.bytes > CACHE_LIMIT && cache.entries.len() > 0 {
        let next = CacheState {
            entries: cache.entries.skip(1),
            bytes: cache.bytes - cache.entries[0].2,
        };
        lemma_total_first(cache.entries);
        assert forall|i: int, j: int| 0 <= i < j < next.entries.len() implies (
        #[trigger] next.entries[i]).0 != (#[trigger] next.entries[j]).0 by {
            assert(next.entries[i] == cache.entries[i + 1]);
            assert(next.entries[j] == cache.entries[j + 1]);
        }
        lemma_evicted(next);
        let k = choose|k: int|
            0 <= k <= next.entries.len() && evicted(next).entries == #[trigger] next.entries.skip(k);
        assert(next.entries.skip(k) =~= cache.entries.skip(k + 1));
    } else {
        assert(cache.entries.skip(0) =~= cache.entries);
    }
}

/// A cache stays within its limit and keeps no key twice, whatever is put in.
pub proof fn law_cache_stays_within_limit<V>(
    cache: CacheState<V>,
    key: usize,
    value: V,
    bytes: usize,
)
    requires
        cache.well_formed(),
    ensures
        with_entry(cache, key, value, bytes).well_formed(),
{
    let kept = without_key(cache, key);
    let k = entry_index(cache.entries, key);
    lemma_entry_index(cache.entries, key);
    if k < cache.entries.len() {
        lemma_total_remove(cache.entries, k);
    }
    let next = CacheState {
        entries: kept.entries.push((key, value, bytes)),
        bytes: kept.bytes + bytes,
    };
    assert(next.entries.drop_last() =~= kept.entries);
    assert forall|i: int, j: int| 0 <= i < j < next.entries.len() implies (
    #[trigger] next.entries[i]).0 != (#[trigger] next.entries[j]).0 by {
        let from = |i: int|
            if i < k {
                i
            } else {
                i + 1
            };
        if k < cache.entries.len() {
            assert(next.entries[i] == cache.entries[from(i)]);
            if j < kept.entries.len() {
                assert(next.entries[j] == cache.entries[from(j)]);
            } else {
                assert(cache.entries[k].0 == key);
                if i < k {
                    assert(cache.entries[i].0 != cache.entries[k].0);
                } else {
                    assert(cache.entries[k].0 != cache.entries[i + 1].0);
                }
            }
        }
    }
    lemma_evicted(next);
}

/// What was put in last is found under its key, unless it alone is more than the
/// limit; another key gives what it gave before, or nothing where its entry had
/// to go.
pub proof fn law_cache_gives_back<V>(
    cache: CacheState<V>,
    key: usize,
    value: V,
    bytes: usize,
    other: usize,
)
    requires
        cache.well_formed(),
    ensures
        bytes <= CACHE_LIMIT ==> cached(with_entry(cache, key, value, bytes), key) == Some(value),
        bytes > CACHE_LIMIT ==> cached(with_entry(cache, key, value, bytes), key) is None,
        other != key ==> cached(with_entry(cache, key, value, bytes), other) is None || cached(
            with_entry(cache, key, value, bytes),
            other,
        ) == cached(cache, other),
{
    let kept = without_key(cache, key);
    let at = entry_index(cache.entries, key);
    lemma_entry_index(cache.entries, key);
    if at < cache.entries.len() {
        lemma_total_remove(cache.entries, at);
    }
    let next = CacheState {
        entries: kept.entries.push((key, value, bytes)),
        bytes: kept.bytes + bytes,
    };
    let result = with_entry(cache, key, value, bytes);
    law_cache_stays_within_limit(cache, key, value, bytes);
    assert(next.entries.drop_last() =~= kept.entries);
    assert forall|i: int, j: int| 0 <= i < j < next.entries.len() implies (
    #[trigger] next.entries[i]).0 != (#[trigger] next.entries[j]).0 by {
        lemma_next_keys(cache, key, value, bytes, i, j);
    }
    lemma_evicted(next);
    let k = choose|k: int|
        0 <= k <= next.entries.len() && result.entries == #[trigger] next.entries.skip(k);
    let last = next.entries.len() - 1;
    lemma_entry_index(result.entries, key);
    lemma_entry_index(result.entries, other);
    lemma_entry_index(cache.entries, other);
    if k <= last {
        assert(result.entries[last - k] == next.entries[last]);
        lemma_total_remove(result.entries, last - k);
        let f = entry_index(result.entries, key);
        if f < last - k {
            assert(result.entries[f].0 != result.entries[last - k].0);
        }
        assert(f == last - k);
    } else {
        assert(result.entries =~= Seq::empty());
        lemma_keeps_last(next);
    }
    if other != key && cached(result, other) is Some {
        let f = entry_index(result.entries, other);
        assert(result.entries[f] == next.entries[f + k]);
        let source = if f + k < at {
            f + k
        } else {
            f + k + 1
        };
        let origin = if at < cache.entries.len() {
            source
        } else {
            f + k
        };
        assert(cache.entries[origin] == next.entries[f + k]);
        let g = entry_index(cache.entries, other);
        if g < origin {
            assert(cache.entries[g].0 != cache.entries[origin].0);
        }
        assert(g == origin);
    }
}

proof fn lemma_next_keys<V>(
    cache: CacheState<V>,
    key: usize,
    value: V,
    bytes: usize,
    i: int,
    j: int,
)
    requires
        cache.well_formed(),
        0 <= i < j < without_key(cache, key).entries.push((key, value, bytes)).len(),
    ensures
        without_key(cache, key).entries.push((key, value, bytes))[i].0 != without_key(
            cache,
            key,
        ).entries.push((key, value, bytes))[j].0,
{
    let kept = without_key(cache, key);
    let next = kept.entries.push((key, value, bytes));
    let k = entry_index(cache.entries, key);
    lemma_entry_index(cache.entries, key);
    let from = |i: int|
        if i < k {
            i
        } else {
            i + 1
        };
    if k < cache.entries.len() {
        assert(next[i] == cache.entries[from(i)]);
        if j < kept.entries.len() {
            assert(next[j] == cache.entries[from(j)]);
        } else {
            assert(cache.entries[k].0 == key);
            if i < k {
                assert(cache.entries[i].0 != cache.entries[k].0);
            } else {
                assert(cache.entries[k].0 != cache.entries[i + 1].0);
            }
        }
    }
}

/// The newest entry goes only where it alone is more than the limit.
proof fn lemma_keeps_last<V>(cache: CacheState<V>)
    requires
        cache.entries.len() > 0,
        cache.bytes == total_bytes(cache.entries),
    ensures
        cache.entries.last().2 <= CACHE_LIMIT ==> evicted(cache).entries.len() > 0,
    decreases cache.entries.len(),
{
    if cache.bytes > CACHE_LIMIT {
        let next = CacheState {
            entries: cache.entries.skip(1),
            bytes: cache.bytes - cache.entries[0].2,
        };
        lemma_total_first(cache.entries);
        if cache.entries.len() > 1 {
            assert(next.entries.last() == cache.entries.last());
            lemma_keeps_last(next);
        } else {
            assert(cache.entries.drop_last() =~= Seq::empty());
        }
    }
}

/// Where an entry alone is more than the limit, nothing is left.
proof fn lemma_evicts_all<V>(cache: CacheState<V>)
    requires
        cache.entries.len() > 0,
        cache.bytes == total_bytes(cache.entries),
        cache.entries.last().2 > CACHE_LIMIT,
    ensures
        evicted(cache) == empty_cache::<V>(),
    decreases cache.entries.len(),
{
    let next = CacheState {
        entries: cache.entries.skip(1),
        bytes: cache.bytes - cache.entries[0].2,
    };
    lemma_total_nonnegative(cache.entries.drop_last());
    lemma_total_first(cache.entries);
    if cache.entries.len() > 1 {
        assert(next.entries.last() == cache.entries.last());
        lemma_evicts_all(next);
    } else {
        assert(next.entries =~= Seq::empty());
        assert(evicted(next) == next);
    }
}

impl<V> Cache<V> {
    /// A cache with nothing in it.
    pub fn new() -> (cache: Cache<V>)
        ensures
            cache@ == empty_cache::<V>(),
            cache@.well_formed(),
    {
        Cache { entries: VecDeque::new(), bytes: 0 }
    }

    fn position(&self, key: usize) -> (index: usize)
        ensures
            index == entry_index(self@.entries, key),
            index <= self@.entries.len(),
    {
        let mut i: usize = 0;
        while i < self.entries.len() && self.entries[i].0 != key
            invariant
                i <= self.entries@.len(),
                forall|j: int| 0 <= j < i ==> (#[trigger] self.entries@[j]).0 != key,
            decreases self.entries@.len() - i,
        {
            i += 1;
        }
        proof {
            lemma_entry_index_is(self.entries@, key, i as int);
        }
        i
    }

    /// Puts a value under the key, in place of one that was there, and lets the
    /// oldest go while the cache is over its limit.
    pub fn insert(&mut self, key: usize, value: V, bytes: usize)
        requires
            old(self)@.well_formed(),
        ensures
            final(self)@ == with_entry(old(self)@, key, value, bytes),
            final(self)@.well_formed(),
    {
        proof {
            law_cache_stays_within_limit(self@, key, value, bytes);
            lemma_entry_index(self@.entries, key);
        }
        let ghost before = self@;
        let index = self.position(key);
        if index < self.entries.len() {
            proof {
                lemma_total_remove(before.entries, index as int);
            }
            let freed = self.entries[index].2;
            let _removed = self.entries.remove(index);
            self.bytes = self.bytes - freed;
        }
        let ghost kept = without_key(before, key);
        let ghost next = CacheState {
            entries: kept.entries.push((key, value, bytes)),
            bytes: kept.bytes + bytes,
        };
        proof {
            assert(self@ == kept);
            assert(next.entries.drop_last() =~= kept.entries);
        }
        if bytes > CACHE_LIMIT {
            proof {
                lemma_evicts_all(next);
            }
            self.entries.clear();
            self.bytes = 0;
            return;
        }
        self.entries.push_back((key, value, bytes));
        self.bytes = self.bytes + bytes;
        while self.bytes > CACHE_LIMIT && self.entries.len() > 0
            invariant
                self@.bytes == total_bytes(self@.entries),
                evicted(self@) == evicted(next),
            decreases self.entries@.len(),
        {
            proof {
                lemma_total_first(self@.entries);
                lemma_total_nonnegative(self@.entries.skip(1));
            }
            let freed = self.entries[0].2;
            let _oldest = self.entries.pop_front();
            self.bytes = self.bytes - freed;
        }
    }

    /// The value under the key.
    pub fn get(&self, key: &usize) -> (value: Option<&V>)
        ensures
            (match value {
                Some(found) => Some(*found),
                None => None,
            }) == cached(self@, *key),
    {
        let index = self.position(*key);
        if index < self.entries.len() {
            Some(&self.entries[index].1)
        } else {
            None
        }
    }

    /// Lets everything go.
    pub fn clear(&mut self)
        ensures
            final(self)@ == empty_cache::<V>(),
            final(self)@.well_formed(),
    {
        self.entries.clear();
        self.bytes = 0;
    }
}

/// The oldest entries go first, and no more of them than have to: what is kept is the
/// end of what there was with the new entry behind it, and with one entry more it would
/// be over the limit.
pub proof fn law_the_oldest_entries_go_first<V>(
    cache: CacheState<V>,
    key: usize,
    value: V,
    bytes: usize,
)
    requires
        cache.well_formed(),
    ensures
        ({
            let others = cache.entries.filter(|entry: (usize, V, usize)| entry.0 != key);
            let all = others.push((key, value, bytes));
            let kept = with_entry(cache, key, value, bytes).entries;
            let gone = all.len() - kept.len();
            &&& 0 <= gone <= all.len()
            &&& kept == all.skip(gone)
            &&& gone > 0 ==> total_bytes(all.skip(gone - 1)) > CACHE_LIMIT
        }),
{
    let others = cache.entries.filter(|entry: (usize, V, usize)| entry.0 != key);
    let kept = without_key(cache, key);
    lemma_entry_index(cache.entries, key);
    let k = entry_index(cache.entries, key);
    if k < cache.entries.len() {
        lemma_total_remove(cache.entries, k);
    }
    lemma_without_key(cache, key);
    assert(kept.entries == others);
    let next = CacheState {
        entries: kept.entries.push((key, value, bytes)),
        bytes: kept.bytes + bytes,
    };
    assert(next.entries.drop_last() =~= kept.entries);
    lemma_goes_no_further(next);
}

proof fn lemma_without_key<V>(cache: CacheState<V>, key: usize)
    requires
        cache.well_formed(),
    ensures
        without_key(cache, key).entries == cache.entries.filter(
            |entry: (usize, V, usize)| entry.0 != key,
        ),
{
    let other = |entry: (usize, V, usize)| entry.0 != key;
    let entries = cache.entries;
    let k = entry_index(entries, key);
    lemma_entry_index(entries, key);
    if k < entries.len() {
        let front = entries.take(k);
        let back = entries.skip(k + 1);
        assert(entries =~= front + seq![entries[k]] + back);
        Seq::filter_distributes_over_add(front + seq![entries[k]], back, other);
        Seq::filter_distributes_over_add(front, seq![entries[k]], other);
        lemma_all_kept(front, key);
        assert forall|i: int| 0 <= i < back.len() implies (#[trigger] back[i]).0 != key by {
            assert(back[i] == entries[i + k + 1]);
            assert(entries[k].0 != entries[i + k + 1].0);
        }
        lemma_all_kept(back, key);
        assert(seq![entries[k]].filter(other) =~= Seq::empty()) by {
            reveal_with_fuel(Seq::filter, 2);
            let one = seq![entries[k]];
            assert(one.drop_last() =~= Seq::empty());
            assert(one.last() == entries[k]);
            assert(!other(one.last()));
        }
        assert(entries.remove(k) =~= front + back);
        assert(front + Seq::<(usize, V, usize)>::empty() + back =~= front + back);
    } else {
        lemma_all_kept(entries, key);
    }
}

proof fn lemma_all_kept<V>(entries: Seq<(usize, V, usize)>, key: usize)
    requires
        forall|i: int| 0 <= i < entries.len() ==> (#[trigger] entries[i]).0 != key,
    ensures
        entries.filter(|entry: (usize, V, usize)| entry.0 != key) == entries,
    decreases entries.len(),
{
    reveal(Seq::filter);
    if entries.len() > 0 {
        let front = entries.drop_last();
        assert forall|i: int| 0 <= i < front.len() implies (#[trigger] front[i]).0 != key by {
            assert(front[i] == entries[i]);
        }
        lemma_all_kept(front, key);
        assert(entries[entries.len() - 1].0 != key);
        assert(front.push(entries.last()) =~= entries);
    } else {
        assert(entries =~= Seq::empty());
    }
}

proof fn lemma_goes_no_further<V>(cache: CacheState<V>)
    requires
        cache.bytes == total_bytes(cache.entries),
    ensures
        ({
            let kept = evicted(cache).entries;
            let gone = cache.entries.len() - kept.len();
            &&& 0 <= gone <= cache.entries.len()
            &&& kept == cache.entries.skip(gone)
            &&& gone > 0 ==> total_bytes(cache.entries.skip(gone - 1)) > CACHE_LIMIT
        }),
    decreases cache.entries.len(),
{
    if cache.bytes > CACHE_LIMIT && cache.entries.len() > 0 {
        let rest = CacheState {
            entries: cache.entries.skip(1),
            bytes: cache.bytes - cache.entries[0].2,
        };
        lemma_total_first(cache.entries);
        lemma_goes_no_further(rest);
        let gone = rest.entries.len() - evicted(rest).entries.len();
        assert(rest.entries.skip(gone) =~= cache.entries.skip(gone + 1));
        if gone > 0 {
            assert(rest.entries.skip(gone - 1) =~= cache.entries.skip(gone));
        } else {
            assert(cache.entries.skip(0) =~= cache.entries);
        }
    } else {
        assert(cache.entries.skip(0) =~= cache.entries);
    }
}

/// A cache holds thirty-two mebibytes and no more, and keeps all that it was given as long
/// as it fits.
pub proof fn law_a_cache_keeps_what_fits<V>(
    cache: CacheState<V>,
    key: usize,
    value: V,
    bytes: usize,
    other: usize,
)
    requires
        cache.well_formed(),
    ensures
        with_entry(cache, key, value, bytes).bytes <= 33_554_432,
        cache.bytes + bytes <= 33_554_432 ==> {
            &&& cached(with_entry(cache, key, value, bytes), key) == Some(value)
            &&& other != key ==> cached(with_entry(cache, key, value, bytes), other) == cached(
                cache,
                other,
            )
        },
{
    law_cache_stays_within_limit(cache, key, value, bytes);
    law_cache_gives_back(cache, key, value, bytes, other);
    lemma_total_nonnegative(cache.entries);
    if cache.bytes + bytes <= 33_554_432 && other != key {
        let kept = without_key(cache, key);
        let at = entry_index(cache.entries, key);
        lemma_entry_index(cache.entries, key);
        lemma_entry_index(cache.entries, other);
        if at < cache.entries.len() {
            lemma_total_remove(cache.entries, at);
        }
        let next = CacheState {
            entries: kept.entries.push((key, value, bytes)),
            bytes: kept.bytes + bytes,
        };
        assert(with_entry(cache, key, value, bytes) == next);
        let g = entry_index(cache.entries, other);
        if g < cache.entries.len() {
            let place = if at < g {
                g - 1
            } else {
                g
            };
            assert(next.entries[place] == cache.entries[g]);
            lemma_entry_index(next.entries, other);
            assert(cached(next, other) is Some);
        }
    }
}

} // verus!
