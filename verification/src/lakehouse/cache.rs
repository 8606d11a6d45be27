//! In-memory cache for externally resolved content, bounded in bytes and in age.
use vstd::prelude::*;

use crate::lakehouse::content::{approx_size, ContentView, ResolvedContent};
use crate::text::str_eq;

verus! {

#[verifier::external_type_specification]
#[verifier::external_body]
pub struct ExInstant(std::time::Instant);

/// A clock reading.
///
/// Trusted: calls `Instant::now`; nothing is claimed of the reading.
#[verifier::external_body]
fn now() -> (t: std::time::Instant) {
    std::time::Instant::now()
}

/// Nanoseconds elapsed since `since`.
///
/// Trusted: calls `Instant::elapsed` and gives the duration as `Duration::as_nanos`; the
/// value depends on the clock, so nothing is claimed of it.
#[verifier::external_body]
fn elapsed_nanos(since: &std::time::Instant) -> (n: u128) {
    since.elapsed().as_nanos()
}

/// An entry `age_nanos` nanoseconds old has expired under `ttl_secs`: a TTL is set and
/// the age exceeds it (an entry exactly as old as its TTL is still fresh).
pub open spec fn expired_spec(ttl_secs: u64, age_nanos: int) -> bool {
    ttl_secs > 0 && age_nanos > ttl_secs * 1_000_000_000
}

/// Whether an entry `age_nanos` nanoseconds old has expired (see [`expired_spec`]).
pub fn expired(ttl_secs: u64, age_nanos: u128) -> (b: bool)
    ensures
        b == expired_spec(ttl_secs, age_nanos as int),
{
    ttl_secs > 0 && age_nanos > (ttl_secs as u128) * 1_000_000_000u128
}

/// One cached item.
#[derive(Debug)]
struct CacheEntry {
    uri: String,
    content: ResolvedContent,
    fetched_at: std::time::Instant,
    size_bytes: usize,
}

/// Abstract form of a cached item: its URI, content and counted size.
pub struct CachedView {
    pub uri: Seq<char>,
    pub content: ContentView,
    pub size: usize,
}

/// Abstract form of a [`ContentCache`]: limits and entries from oldest to newest.
pub struct CacheView {
    pub ttl_secs: u64,
    pub max_bytes: usize,
    pub entries: Seq<CachedView>,
}

/// Bytes counted for `es`.
pub open spec fn total_bytes(es: Seq<CachedView>) -> int
    decreases es.len(),
{
    if es.len() == 0 {
        0
    } else {
        total_bytes(es.drop_last()) + es.last().size
    }
}

/// Position of the entry for `uri` at or after `k`.
pub open spec fn find_uri_from(es: Seq<CachedView>, uri: Seq<char>, k: int) -> Option<int>
    decreases es.len() - k,
{
    if k < 0 || k >= es.len() {
        None
    } else if es[k].uri == uri {
        Some(k)
    } else {
        find_uri_from(es, uri, k + 1)
    }
}

/// Position of the entry for `uri`.
pub open spec fn find_uri(es: Seq<CachedView>, uri: Seq<char>) -> Option<int> {
    find_uri_from(es, uri, 0)
}

/// `es` without its entry for `uri`.
pub open spec fn without_uri(es: Seq<CachedView>, uri: Seq<char>) -> Seq<CachedView> {
    match find_uri(es, uri) {
        Some(i) => es.remove(i),
        None => es,
    }
}

/// Number of oldest entries evicted, from `k` on, so that `size` more bytes fit.
pub open spec fn evict_count(es: Seq<CachedView>, size: int, max: int, k: int) -> int
    decreases es.len() - k,
{
    if k < 0 || k >= es.len() || total_bytes(es.subrange(k, es.len() as int)) + size <= max {
        if k < 0 { 0 } else { k }
    } else {
        evict_count(es, size, max, k + 1)
    }
}

/// Entries after inserting `content` under `uri`: the old entry for `uri` is replaced;
/// with a byte limit, the oldest entries are evicted until the new one fits, and content
/// larger than the limit is not kept.
pub open spec fn insert_spec(es: Seq<CachedView>, uri: Seq<char>, content: ContentView, size: usize, max: usize) -> Seq<CachedView> {
    let base = without_uri(es, uri);
    let item = CachedView { uri, content, size };
    if max == 0 {
        base.push(item)
    } else {
        let kept = base.subrange(evict_count(base, size as int, max as int, 0), base.len() as int);
        if size > max {
            kept
        } else {
            kept.push(item)
        }
    }
}

/// What a lookup of `uri` answers when its entry is `age_nanos` nanoseconds old: the
/// stored content, unless there is no entry or it has expired.
pub open spec fn answer_at(c: CacheView, uri: Seq<char>, age_nanos: int) -> Option<ContentView> {
    match find_uri(c.entries, uri) {
        None => None,
        Some(i) => if expired_spec(c.ttl_secs, age_nanos) {
            None
        } else {
            Some(c.entries[i].content)
        },
    }
}

/// Entries have distinct URIs.
pub open spec fn uris_distinct(es: Seq<CachedView>) -> bool {
    forall|i: int, j: int| 0 <= i < j < es.len() ==> (#[trigger] es[i]).uri != (#[trigger] es[j]).uri
}

pub proof fn lemma_find_uri_from(es: Seq<CachedView>, uri: Seq<char>, k: int)
    requires
        0 <= k,
    ensures
        match find_uri_from(es, uri, k) {
            Some(i) => k <= i < es.len() && es[i].uri == uri && forall|m: int| k <= m < i ==> es[m].uri != uri,
            None => forall|m: int| k <= m < es.len() ==> es[m].uri != uri,
        },
    decreases es.len() - k,
{
    if k < es.len() && es[k].uri != uri {
        lemma_find_uri_from(es, uri, k + 1);
    }
}

/// In-memory cache for externally resolved content.
#[derive(Debug)]
pub struct ContentCache {
    ttl_secs: u64,
    max_bytes: usize,
    current_bytes: usize,
    entries: Vec<CacheEntry>,
}

spec fn entry_views(v: Seq<CacheEntry>) -> Seq<CachedView> {
    v.map_values(|e: CacheEntry| CachedView { uri: e.uri@, content: e.content@, size: e.size_bytes })
}

impl View for ContentCache {
    type V = CacheView;

    closed spec fn view(&self) -> CacheView {
        CacheView { ttl_secs: self.ttl_secs, max_bytes: self.max_bytes, entries: entry_views(self.entries@) }
    }
}

/// Removing the first entry takes its bytes off the total.
proof fn lemma_total_drop_first(es: Seq<CachedView>)
    requires
        es.len() > 0,
    ensures
        total_bytes(es) == es[0].size + total_bytes(es.drop_first()),
    decreases es.len(),
{
    if es.len() > 1 {
        lemma_total_drop_first(es.drop_last());
        assert(es.drop_last().drop_first() =~= es.drop_first().drop_last());
    } else {
        assert(es.drop_first() =~= Seq::<CachedView>::empty());
        assert(es.drop_last() =~= Seq::<CachedView>::empty());
    }
}

/// Removing entry `i` takes its bytes off the total.
proof fn lemma_total_remove(es: Seq<CachedView>, i: int)
    requires
        0 <= i < es.len(),
    ensures
        total_bytes(es) == es[i].size + total_bytes(es.remove(i)),
    decreases es.len(),
{
    if i == es.len() - 1 {
        assert(es.remove(i) =~= es.drop_last());
    } else {
        lemma_total_remove(es.drop_last(), i);
        assert(es.remove(i).drop_last() =~= es.drop_last().remove(i));
        assert(es.remove(i).last() == es.last());
    }
}

proof fn lemma_total_nonneg(es: Seq<CachedView>)
    ensures
        total_bytes(es) >= 0,
    decreases es.len(),
{
    if es.len() > 0 {
        lemma_total_nonneg(es.drop_last());
    }
}

impl ContentCache {
    #[verifier::type_invariant]
    closed spec fn inv(self) -> bool {
        let es = entry_views(self.entries@);
        &&& self.current_bytes == total_bytes(es)
        &&& uris_distinct(es)
        &&& forall|i: int| 0 <= i < self.entries@.len() ==> (#[trigger] self.entries@[i]).size_bytes
            == approx_size(self.entries@[i].content)
        &&& self.max_bytes > 0 ==> self.current_bytes <= self.max_bytes
    }

    /// An empty cache whose entries expire after `ttl_secs` seconds (never, for 0) and
    /// that holds at most `max_bytes` bytes (no limit, for 0).
    pub fn new(ttl_secs: u64, max_bytes: usize) -> (r: ContentCache)
        ensures
            r@.ttl_secs == ttl_secs,
            r@.max_bytes == max_bytes,
            r@.entries == Seq::<CachedView>::empty(),
    {
        let r = ContentCache {
            ttl_secs,
            max_bytes,
            current_bytes: 0,
            entries: Vec::new(),
        };
        assert(entry_views(r.entries@) =~= Seq::<CachedView>::empty());
        r
    }

    fn position(&self, uri: &str) -> (r: Option<usize>)
        ensures
            match r {
                Some(i) => find_uri(self@.entries, uri@) == Some(i as int) && i < self.entries.len(),
                None => find_uri(self@.entries, uri@) is None,
            },
    {
        let ghost es = self@.entries;
        let mut i: usize = 0;
        while i < self.entries.len()
            invariant
                i <= self.entries.len(),
                es == self@.entries,
                es.len() == self.entries.len(),
                find_uri(es, uri@) == find_uri_from(es, uri@, i as int),
            decreases self.entries.len() - i,
        {
            assert(es[i as int].uri == self.entries@[i as int].uri@);
            if str_eq(self.entries[i].uri.as_str(), uri) {
                return Some(i);
            }
            i = i + 1;
        }
        None
    }

    /// Cached content for `uri` when its entry is `age_nanos` nanoseconds old: the stored
    /// content unless it has expired (see [`answer_at`]).
    pub fn get_at_age(&self, uri: &str, age_nanos: u128) -> (r: Option<&ResolvedContent>)
        ensures
            match r {
                Some(c) => answer_at(self@, uri@, age_nanos as int) == Some(c@),
                None => answer_at(self@, uri@, age_nanos as int) is None,
            },
    {
        match self.position(uri) {
            None => None,
            Some(i) => {
                if expired(self.ttl_secs, age_nanos) {
                    None
                } else {
                    Some(&self.entries[i].content)
                }
            },
        }
    }

    /// Cached content for `uri`, unless it has expired: the answer of [`Self::get_at_age`]
    /// for the entry's age on the clock. Without a TTL nothing expires.
    pub fn get(&self, uri: &str) -> (r: Option<&ResolvedContent>)
        ensures
            match find_uri(self@.entries, uri@) {
                None => r is None,
                Some(i) => exists|age: int|
                    0 <= age && match r {
                        Some(c) => #[trigger] answer_at(self@, uri@, age) == Some(c@),
                        None => answer_at(self@, uri@, age) is None,
                    },
            },
            self@.ttl_secs == 0 && find_uri(self@.entries, uri@) is Some ==> (r matches Some(c)
                && c@ == self@.entries[find_uri(self@.entries, uri@)->0].content),
    {
        match self.position(uri) {
            None => None,
            Some(i) => {
                let age = elapsed_nanos(&self.entries[i].fetched_at);
                let r = self.get_at_age(uri, age);
                assert(0 <= age as int);
                r
            },
        }
    }

    /// Bytes counted for the entries other than `uri`'s.
    pub fn bytes_without(&self, uri: &str) -> (n: usize)
        ensures
            n == total_bytes(without_uri(self@.entries, uri@)),
    {
        proof {
            use_type_invariant(self);
        }
        match self.position(uri) {
            None => self.current_bytes,
            Some(i) => {
                proof {
                    lemma_total_remove(self@.entries, i as int);
                    lemma_total_nonneg(self@.entries.remove(i as int));
                    assert(self@.entries[i as int].size == self.entries@[i as int].size_bytes);
                }
                self.current_bytes - self.entries[i].size_bytes
            },
        }
    }

    pub fn max_bytes(&self) -> (n: usize)
        ensures
            n == self@.max_bytes,
    {
        self.max_bytes
    }

    pub fn len(&self) -> (n: usize)
        ensures
            n == self@.entries.len(),
    {
        self.entries.len()
    }

    pub fn is_empty(&self) -> (b: bool)
        ensures
            b == (self@.entries.len() == 0),
    {
        self.entries.len() == 0
    }

    /// Bytes held; never above the byte limit when there is one.
    pub fn current_bytes(&self) -> (n: usize)
        ensures
            n == total_bytes(self@.entries),
            self@.max_bytes > 0 ==> n <= self@.max_bytes,
    {
        proof {
            use_type_invariant(self);
        }
        self.current_bytes
    }

    /// Store `content` for `uri`, replacing an older entry for it. With a byte limit, the
    /// oldest entries are evicted until it fits; content larger than the limit is not kept.
    #[verifier::spinoff_prover]
    #[verifier::rlimit(40)]
    pub fn insert(&mut self, uri: String, content: ResolvedContent)
        requires
            old(self)@.max_bytes == 0 ==> total_bytes(without_uri(old(self)@.entries, uri@))
                + approx_size(content) <= usize::MAX,
        ensures
            final(self)@.ttl_secs == old(self)@.ttl_secs,
            final(self)@.max_bytes == old(self)@.max_bytes,
            final(self)@.entries == insert_spec(
                old(self)@.entries,
                uri@,
                content@,
                approx_size(content),
                old(self)@.max_bytes,
            ),
    {
        let mut taken = ContentCache {
            ttl_secs: self.ttl_secs,
            max_bytes: self.max_bytes,
            current_bytes: 0,
            entries: Vec::new(),
        };
        assert(entry_views(taken.entries@) =~= Seq::<CachedView>::empty());
        std::mem::swap(self, &mut taken);
        proof {
            use_type_invariant(&taken);
        }
        let ghost es = entry_views(taken.entries@);
        assert(es == old(self)@.entries);
        let ContentCache { ttl_secs, max_bytes, current_bytes, entries } = taken;
        let mut entries = entries;
        let mut current = current_bytes;
        let size_bytes = content.approximate_size_bytes();
        proof {
            lemma_find_uri_from(es, uri@, 0);
        }
        let mut i: usize = 0;
        while i < entries.len() && !str_eq(entries[i].uri.as_str(), uri.as_str())
            invariant
                i <= entries.len(),
                es == entry_views(entries@),
                find_uri(es, uri@) == find_uri_from(es, uri@, i as int),
            decreases entries.len() - i,
        {
            assert(es[i as int].uri == entries@[i as int].uri@);
            i = i + 1;
        }
        let found = i < entries.len();
        proof {
            if found {
                assert(es[i as int].uri == entries@[i as int].uri@);
            }
        }
        let ghost old_entries = entries@;
        if found {
            let removed = entries.remove(i);
            proof {
                lemma_total_remove(es, i as int);
                lemma_total_nonneg(es.remove(i as int));
                assert(removed == old_entries[i as int]);
                assert(es[i as int].size == removed.size_bytes);
                assert(entry_views(entries@) =~= es.remove(i as int));
            }
            current = current - removed.size_bytes;
        } else {
            assert(entry_views(entries@) =~= es);
        }
        let ghost base = entry_views(entries@);
        assert(base == without_uri(es, uri@));
        assert(uris_distinct(base)) by {
            if found {
                assert forall|a: int, b: int| 0 <= a < b < base.len() implies (#[trigger] base[a]).uri != (#[trigger] base[b]).uri by {
                    let a0 = if a < i { a } else { a + 1 };
                    let b0 = if b < i { b } else { b + 1 };
                    assert(base[a] == es[a0] && base[b] == es[b0]);
                }
            }
        }
        assert(forall|m: int| 0 <= m < base.len() ==> base[m].uri != uri@) by {
            if found {
                assert forall|m: int| 0 <= m < base.len() implies base[m].uri != uri@ by {
                    let m0 = if m < i { m } else { m + 1 };
                    assert(base[m] == es[m0]);
                    if m0 != i {
                        assert(es[m0].uri != es[i as int].uri);
                    }
                }
            }
        }
        assert(forall|m: int| 0 <= m < entries@.len() ==> (#[trigger] entries@[m]).size_bytes == approx_size(entries@[m].content)) by {
            if found {
                assert forall|m: int| 0 <= m < entries@.len() implies (#[trigger] entries@[m]).size_bytes == approx_size(entries@[m].content) by {
                    let m0 = if m < i { m } else { m + 1 };
                    assert(entries@[m] == old_entries[m0]);
                }
            }
        }
        let ghost mut drop: int = 0;
        assert(base.subrange(0, base.len() as int) =~= base);
        if max_bytes > 0 {
            while (current as u128) + (size_bytes as u128) > (max_bytes as u128) && entries.len() > 0
                invariant
                    0 <= drop <= base.len(),
                    entry_views(entries@) == base.subrange(drop, base.len() as int),
                    current == total_bytes(base.subrange(drop, base.len() as int)),
                    evict_count(base, size_bytes as int, max_bytes as int, 0) == evict_count(
                        base,
                        size_bytes as int,
                        max_bytes as int,
                        drop,
                    ),
                    forall|m: int| 0 <= m < entries@.len() ==> (#[trigger] entries@[m]).size_bytes
                        == approx_size(entries@[m].content),
                    max_bytes > 0,
                decreases entries.len(),
            {
                let ghost cur = entry_views(entries@);
                let ghost prev_e = entries@;
                let oldest = entries.remove(0);
                proof {
                    lemma_total_drop_first(cur);
                    assert(entry_views(entries@) =~= cur.drop_first());
                    assert(base.subrange(drop + 1, base.len() as int) =~= cur.drop_first());
                    assert(cur[0].size == oldest.size_bytes);
                    assert forall|m: int| 0 <= m < entries@.len() implies (#[trigger] entries@[m]).size_bytes
                        == approx_size(entries@[m].content) by {
                        assert(entries@[m] == prev_e[m + 1]);
                    }
                    lemma_total_nonneg(cur.drop_first());
                    drop = drop + 1;
                }
                current = current - oldest.size_bytes;
            }
            proof {
                lemma_total_nonneg(base.subrange(drop, base.len() as int));
            }
        }
        let ghost k = evict_count(base, size_bytes as int, max_bytes as int, 0);
        assert(max_bytes > 0 ==> k == drop);
        if max_bytes > 0 && size_bytes > max_bytes {
            assert(entries@.len() == 0);
            assert(entry_views(entries@) =~= Seq::<CachedView>::empty());
            *self = ContentCache { ttl_secs, max_bytes, current_bytes: current, entries };
            return;
        }
        let ghost kept = entry_views(entries@);
        let ghost prev_e = entries@;
        let entry = CacheEntry { uri, content, fetched_at: now(), size_bytes };
        let ghost item = CachedView { uri: entry.uri@, content: entry.content@, size: size_bytes };
        entries.push(entry);
        proof {
            assert(entry_views(entries@) =~= kept.push(item));
            assert(kept.push(item).drop_last() =~= kept);
            assert forall|m: int| 0 <= m < entries@.len() implies (#[trigger] entries@[m]).size_bytes
                == approx_size(entries@[m].content) by {
                if m < prev_e.len() {
                    assert(entries@[m] == prev_e[m]);
                }
            }
            let nv = kept.push(item);
            assert forall|a: int, b: int| 0 <= a < b < nv.len() implies (#[trigger] nv[a]).uri != (#[trigger] nv[b]).uri by {
                let a0 = a + drop;
                assert(nv[a] == base[a0]);
                if b < kept.len() {
                    assert(nv[b] == base[b + drop]);
                } else {
                    assert(nv[b] == item);
                }
            }
            if max_bytes == 0 {
                assert(kept =~= base);
            }
        }
        *self = ContentCache { ttl_secs, max_bytes, current_bytes: current + size_bytes, entries };
    }
}


/// What is inserted can be read back: unless it is larger than the byte limit, the entry
/// found for the URI after an insert is the newest one, holding the inserted content.
pub proof fn law_insert_then_find(
    es: Seq<CachedView>,
    uri: Seq<char>,
    content: ContentView,
    size: usize,
    max: usize,
)
    requires
        uris_distinct(es),
        max == 0 || size <= max,
    ensures
        find_uri(insert_spec(es, uri, content, size, max), uri) == Some(
            insert_spec(es, uri, content, size, max).len() - 1,
        ),
        insert_spec(es, uri, content, size, max).last() == (CachedView { uri, content, size }),
{
    lemma_find_uri_from(es, uri, 0);
    let base = without_uri(es, uri);
    assert forall|m: int| 0 <= m < base.len() implies base[m].uri != uri by {
        if let Some(i) = find_uri(es, uri) {
            let m0 = if m < i { m } else { m + 1 };
            assert(base[m] == es[m0]);
            if m0 != i {
                if m0 < i {
                    assert(es[m0].uri != es[i].uri);
                } else {
                    assert(es[i].uri != es[m0].uri);
                }
            }
        }
    }
    let kept = if max == 0 {
        base
    } else {
        base.subrange(evict_count(base, size as int, max as int, 0), base.len() as int)
    };
    if max != 0 {
        lemma_evict_count_range(base, size as int, max as int, 0);
    }
    let r = kept.push(CachedView { uri, content, size });
    assert(r == insert_spec(es, uri, content, size, max));
    lemma_find_uri_from(r, uri, 0);
    if let Some(j) = find_uri(r, uri) {
        if j < kept.len() {
            let k = evict_count(base, size as int, max as int, 0);
            if max == 0 {
                assert(r[j] == base[j]);
            } else {
                assert(r[j] == base[j + k]);
            }
        }
    }
}

pub proof fn lemma_evict_count_range(es: Seq<CachedView>, size: int, max: int, k: int)
    requires
        0 <= k <= es.len(),
    ensures
        k <= evict_count(es, size, max, k) <= es.len(),
    decreases es.len() - k,
{
    if k < es.len() && total_bytes(es.subrange(k, es.len() as int)) + size > max {
        lemma_evict_count_range(es, size, max, k + 1);
    }
}



} // verus!
