//! The in-memory shape of the persistent catalog cache and its freshness
//! rule. Reading and writing the on-disk file, and fetching from the
//! registry, happen outside the core; the core only decides which entries
//! are still fresh against the configured age limit.
use vstd::prelude::*;

use crate::crates::Crate;

verus! {

/// One cached crate with the moment it was last fetched, as a Unix
/// timestamp in seconds.
#[derive(Clone, Debug)]
pub struct CrateCacheEntry {
    pub krate: Crate,
    pub last_fetched_at: i64,
}

/// Whether an entry fetched at `fetched` is still fresh at `now` under a
/// validity window of `validity_secs`.
pub open spec fn entry_fresh(fetched: int, validity_secs: int, now: int) -> bool {
    now - fetched < validity_secs
}

/// The entries that are still fresh, in order.
pub open spec fn fresh_entries(
    s: Seq<(String, CrateCacheEntry)>,
    validity_secs: int,
    now: int,
) -> Seq<(String, CrateCacheEntry)>
    decreases s.len(),
{
    if s.len() == 0 {
        Seq::<(String, CrateCacheEntry)>::empty()
    } else if entry_fresh(s[0].1.last_fetched_at as int, validity_secs, now) {
        seq![s[0]] + fresh_entries(s.drop_first(), validity_secs, now)
    } else {
        fresh_entries(s.drop_first(), validity_secs, now)
    }
}

/// The cached crates, keyed by name.
pub struct CrateCache {
    pub entries: Vec<(String, CrateCacheEntry)>,
}

impl CrateCache {
    /// An empty cache.
    pub fn new() -> (r: CrateCache)
        ensures
            r.entries@ == Seq::<(String, CrateCacheEntry)>::empty(),
    {
        CrateCache { entries: Vec::new() }
    }

    /// How many crates are cached.
    pub fn size(&self) -> (r: usize)
        ensures
            r == self.entries@.len(),
    {
        self.entries.len()
    }

    /// Whether the entry fetched at `fetched` is fresh at `now`.
    pub fn is_fresh(fetched: i64, validity_secs: i64, now: i64) -> (r: bool)
        ensures
            r == entry_fresh(fetched as int, validity_secs as int, now as int),
    {
        (now as i128) - (fetched as i128) < (validity_secs as i128)
    }

    /// Drop every entry whose age at `now` has reached the validity
    /// window; the fresh entries stay, in order.
    pub fn filter_expired_entries(&mut self, validity_secs: i64, now: i64)
        ensures
            final(self).entries@ == fresh_entries(
                old(self).entries@,
                validity_secs as int,
                now as int,
            ),
    {
        let ghost orig = self.entries@;
        let n = self.entries.len();
        let mut kept: Vec<(String, CrateCacheEntry)> = Vec::new();
        proof {
            assert(orig.len() == n as int);
            assert(orig.skip(0) =~= orig);
        }
        let mut i: usize = 0;
        while self.entries.len() > 0
            invariant
                orig.len() <= usize::MAX,
                i + self.entries@.len() == orig.len(),
                self.entries@ == orig.skip(i as int),
                kept@ + fresh_entries(self.entries@, validity_secs as int, now as int)
                    == fresh_entries(orig, validity_secs as int, now as int),
            decreases self.entries@.len(),
        {
            let head = self.entries.remove(0);
            proof {
                assert(orig.skip(i as int)[0] == orig[i as int]);
                assert(orig.skip(i as int).drop_first() =~= orig.skip(i as int + 1));
            }
            if Self::is_fresh(head.1.last_fetched_at, validity_secs, now) {
                kept.push(head);
            }
            proof {
                assert(kept@ + fresh_entries(self.entries@, validity_secs as int, now as int)
                    =~= fresh_entries(orig, validity_secs as int, now as int));
            }
            i = i + 1;
        }
        proof {
            assert(fresh_entries(self.entries@, validity_secs as int, now as int) =~= Seq::<(
                String,
                CrateCacheEntry,
            )>::empty());
        }
        self.entries = kept;
        proof {
            assert(self.entries@ =~= fresh_entries(orig, validity_secs as int, now as int));
        }
    }
}

} // verus!
