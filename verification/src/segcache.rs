//! The segment proxy cache: a TTL- and capacity-bounded store of
//! downloaded video segments, keyed by URL. Entries are immutable once
//! inserted; eviction drops stale entries and, at capacity, the oldest.

use vstd::prelude::*;

use crate::strutil::str_eq;

verus! {

/// One cached segment: its URL, the time it was stored, and its bytes.
pub struct SegmentCacheEntry {
    pub url: String,
    pub stored_at: u64,
    pub bytes: Vec<u8>,
}

/// A TTL+capacity bounded segment store, oldest entries first.
pub struct SegmentCache {
    pub entries: Vec<SegmentCacheEntry>,
    pub capacity: usize,
    pub ttl: u64,
}

/// An entry is fresh at `now` while its age is within the TTL.
pub open spec fn entry_fresh(e: SegmentCacheEntry, now: u64, ttl: u64) -> bool {
    e.stored_at <= now && now - e.stored_at < ttl
}

/// The first entry stored for `url`, if any.
pub open spec fn spec_find(entries: Seq<SegmentCacheEntry>, url: Seq<char>) -> Option<
    SegmentCacheEntry,
>
    decreases entries.len(),
{
    if entries.len() == 0 {
        None
    } else if entries[0].url@ == url {
        Some(entries[0])
    } else {
        spec_find(entries.skip(1), url)
    }
}

/// What a lookup at `now` returns: the bytes stored for `url`, provided
/// the entry is still fresh.
pub open spec fn spec_get(c: SegmentCache, url: Seq<char>, now: u64) -> Option<Seq<u8>> {
    match spec_find(c.entries@, url) {
        Some(e) => if entry_fresh(e, now, c.ttl) {
            Some(e.bytes@)
        } else {
            None
        },
        None => None,
    }
}

/// The entries that survive an insert for `url` at `now`: fresh ones with
/// a different URL.
pub open spec fn spec_kept(
    entries: Seq<SegmentCacheEntry>,
    url: Seq<char>,
    now: u64,
    ttl: u64,
) -> Seq<SegmentCacheEntry> {
    entries.filter(|e: SegmentCacheEntry| entry_fresh(e, now, ttl) && e.url@ != url)
}

impl SegmentCache {
    /// An empty cache with the given bounds.
    pub fn new(capacity: usize, ttl: u64) -> (r: SegmentCache)
        requires
            capacity >= 1,
        ensures
            r.entries@.len() == 0,
            r.capacity == capacity,
            r.ttl == ttl,
    {
        SegmentCache { entries: Vec::new(), capacity, ttl }
    }

    /// Serves the cached bytes for `url` when present and fresh.
    pub fn get(&self, url: &str, now: u64) -> (r: Option<Vec<u8>>)
        ensures
            match (r, spec_get(*self, url@, now)) {
                (Some(a), Some(b)) => a@ == b,
                (None, None) => true,
                _ => false,
            },
    {
        let n = self.entries.len();
        let mut i: usize = 0;
        proof {
            assert(self.entries@.skip(0) =~= self.entries@);
        }
        while i < n
            invariant
                n == self.entries@.len(),
                0 <= i <= n,
                spec_find(self.entries@, url@) == spec_find(self.entries@.skip(i as int), url@),
            decreases n - i,
        {
            proof {
                assert(self.entries@.skip(i as int)[0] == self.entries@[i as int]);
                assert(self.entries@.skip(i as int).skip(1) =~= self.entries@.skip(i as int + 1));
            }
            let e = &self.entries[i];
            if str_eq(e.url.as_str(), url) {
                if e.stored_at <= now && now - e.stored_at < self.ttl {
                    return Some(clone_bytes_seg(&e.bytes));
                } else {
                    return None;
                }
            }
            i += 1;
        }
        proof {
            assert(self.entries@.skip(n as int) =~= Seq::<SegmentCacheEntry>::empty());
        }
        None
    }

    /// Stores the bytes fetched for `url`: stale entries and any previous
    /// entry for the same URL are dropped; at capacity the oldest entry is
    /// evicted; the new entry goes last. The capacity bound always holds
    /// afterwards.
    pub fn insert(&mut self, url: &str, bytes: Vec<u8>, now: u64)
        requires
            old(self).capacity >= 1,
        ensures
            final(self).capacity == old(self).capacity,
            final(self).ttl == old(self).ttl,
            final(self).entries@.len() <= old(self).capacity,
            ({
                let kept = spec_kept(old(self).entries@, url@, now, old(self).ttl);
                let bounded = if kept.len() >= old(self).capacity {
                    kept.skip(kept.len() - (old(self).capacity - 1))
                } else {
                    kept
                };
                &&& final(self).entries@.len() == bounded.len() + 1
                &&& final(self).entries@.take(bounded.len() as int) == bounded
                &&& final(self).entries@.last().url@ == url@
                &&& final(self).entries@.last().stored_at == now
                &&& final(self).entries@.last().bytes@ == bytes@
            }),
    {
        let ttl = self.ttl;
        let capacity = self.capacity;
        let mut old_entries: Vec<SegmentCacheEntry> = Vec::new();
        core::mem::swap(&mut self.entries, &mut old_entries);
        let ghost orig = old_entries@;
        let n = old_entries.len();
        let mut kept: Vec<SegmentCacheEntry> = Vec::new();
        let mut i: usize = 0;
        proof {
            assert(orig.take(0int).filter(
                |e: SegmentCacheEntry| entry_fresh(e, now, ttl) && e.url@ != url@,
            ) =~= Seq::<SegmentCacheEntry>::empty());
            assert(old_entries@ =~= orig.skip(0));
        }
        while i < n
            invariant
                n == orig.len(),
                ttl == old(self).ttl,
                0 <= i <= n,
                old_entries@ =~= orig.skip(i as int),
                kept@ == spec_kept(orig.take(i as int), url@, now, ttl),
            decreases n - i,
        {
            proof {
                assert(orig.skip(i as int)[0] == orig[i as int]);
                assert(orig.skip(i as int).skip(1) =~= orig.skip(i as int + 1));
                assert(orig.take(i as int + 1).drop_last() =~= orig.take(i as int));
                reveal_with_fuel(Seq::filter, 2);
                assert(orig.take(i as int + 1).last() == orig[i as int]);
            }
            let e = old_entries.remove(0);
            let fresh = e.stored_at <= now && now - e.stored_at < ttl;
            if fresh && !str_eq(e.url.as_str(), url) {
                kept.push(e);
            }
            i += 1;
        }
        proof {
            assert(orig.take(n as int) =~= orig);
            assert(kept@ == spec_kept(orig, url@, now, ttl));
        }
        let ghost kept0 = kept@;
        if kept.len() >= capacity {
            let target = capacity - 1;
            while kept.len() > target
                invariant
                    target == old(self).capacity - 1,
                    target <= kept@.len() <= kept0.len(),
                    kept@ =~= kept0.skip(kept0.len() - kept@.len()),
                decreases kept@.len(),
            {
                proof {
                    let m = kept@.len();
                    assert(kept0.skip(kept0.len() - m).skip(1) =~= kept0.skip(
                        kept0.len() - (m - 1),
                    ));
                }
                kept.remove(0);
            }
            proof {
                assert(kept@.len() == old(self).capacity - 1);
                assert(kept@ =~= kept0.skip(kept0.len() - (old(self).capacity - 1)));
            }
        }
        let entry = SegmentCacheEntry { url: url.to_owned(), stored_at: now, bytes };
        kept.push(entry);
        self.entries = kept;
        proof {
            let bounded = if kept0.len() >= old(self).capacity {
                kept0.skip(kept0.len() - (old(self).capacity - 1))
            } else {
                kept0
            };
            assert(self.entries@.take(bounded.len() as int) =~= bounded);
        }
    }
}

/// A byte-for-byte copy of a cached payload.
fn clone_bytes_seg(v: &Vec<u8>) -> (r: Vec<u8>)
    ensures
        r@ == v@,
{
    let mut r: Vec<u8> = Vec::new();
    let n = v.len();
    let mut i: usize = 0;
    while i < n
        invariant
            n == v@.len(),
            0 <= i <= n,
            r@ == v@.take(i as int),
        decreases n - i,
    {
        r.push(v[i]);
        proof {
            assert(r@ =~= v@.take(i as int + 1));
        }
        i += 1;
    }
    proof {
        assert(v@.take(n as int) =~= v@);
    }
    r
}

} // verus!
