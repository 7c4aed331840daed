//! Scan results kept per directory for a limited time.

use vstd::prelude::*;
use crate::entry::{FileInfo, FileInfoView, entries_view, copy_entries};
use crate::path::{DirPath, PathView};

verus! {

/// How long a scan result stays valid, in milliseconds (five minutes).
pub const CACHE_TTL_MS: u64 = 300_000;

/// One stored scan result.
pub struct CacheEntry {
    pub file_list: Vec<FileInfo>,
    pub total_size: u64,
    /// When the scan completed, in milliseconds on the caller's clock.
    pub timestamp_ms: u64,
}

/// The mathematical value of a `CacheEntry`.
pub struct CacheEntryView {
    pub entries: Seq<FileInfoView>,
    pub total_size: u64,
    pub timestamp_ms: u64,
}

impl View for CacheEntry {
    type V = CacheEntryView;

    open spec fn view(&self) -> CacheEntryView {
        CacheEntryView {
            entries: entries_view(self.file_list@),
            total_size: self.total_size,
            timestamp_ms: self.timestamp_ms,
        }
    }
}

/// A result stored at `timestamp_ms` is still valid at `now_ms`.
pub open spec fn is_fresh(e: CacheEntryView, now_ms: u64) -> bool {
    now_ms < e.timestamp_ms + CACHE_TTL_MS
}

impl CacheEntry {
    /// An equal entry.
    pub fn copy(&self) -> (r: CacheEntry)
        ensures
            r@ == self@,
    {
        CacheEntry {
            file_list: copy_entries(&self.file_list),
            total_size: self.total_size,
            timestamp_ms: self.timestamp_ms,
        }
    }
}

/// A stored result with the directory it belongs to.
pub struct CacheSlot {
    pub path: DirPath,
    pub entry: CacheEntry,
}

/// The map that a list of slots stands for: a later slot for a path hides
/// an earlier one.
pub open spec fn slots_map(s: Seq<CacheSlot>) -> Map<PathView, CacheEntryView>
    decreases s.len(),
{
    if s.len() == 0 {
        Map::empty()
    } else {
        slots_map(s.drop_last()).insert(s.last().path@, s.last().entry@)
    }
}

/// Scan results by directory path. The results are kept as a list of
/// slots whose paths are compared name by name, so that what the cache holds
/// can be stated as a map over path values; a hash map keyed by a path of
/// strings would leave its contents unstated.
pub struct ScanCache {
    pub slots: Vec<CacheSlot>,
}

impl View for ScanCache {
    type V = Map<PathView, CacheEntryView>;

    open spec fn view(&self) -> Map<PathView, CacheEntryView> {
        slots_map(self.slots@)
    }
}

/// What a lookup of `p` at `now_ms` finds in `m`.
pub open spec fn lookup_spec(m: Map<PathView, CacheEntryView>, p: PathView, now_ms: u64) -> Option<CacheEntryView> {
    if m.contains_key(p) && is_fresh(m[p], now_ms) {
        Some(m[p])
    } else {
        None
    }
}

impl ScanCache {
    /// An empty cache.
    pub fn new() -> (r: ScanCache)
        ensures
            r@ == Map::<PathView, CacheEntryView>::empty(),
    {
        ScanCache { slots: Vec::new() }
    }

    /// The result stored for `path`, if there is one that is still valid at
    /// `now_ms`. A stale one is left in place.
    pub fn lookup(&self, path: &DirPath, now_ms: u64) -> (r: Option<CacheEntry>)
        ensures
            r matches Some(e) ==> lookup_spec(self@, path@, now_ms) == Some(e@),
            r is None ==> lookup_spec(self@, path@, now_ms) is None,
    {
        let mut i: usize = self.slots.len();
        assert(self.slots@.subrange(0, i as int) =~= self.slots@);
        while i > 0
            invariant
                i <= self.slots.len(),
                slots_map(self.slots@.subrange(0, i as int)).contains_key(path@) == self@.contains_key(path@),
                self@.contains_key(path@) ==> slots_map(self.slots@.subrange(0, i as int))[path@] == self@[path@],
            decreases i,
        {
            assert(self.slots@.subrange(0, i as int).drop_last() =~= self.slots@.subrange(0, i - 1));
            if self.slots[i - 1].path.equals(path) {
                assert(self.slots@.subrange(0, i as int).last() == self.slots@[i - 1]);
                let e = &self.slots[i - 1].entry;
                if now_ms < e.timestamp_ms || now_ms - e.timestamp_ms < CACHE_TTL_MS {
                    return Some(e.copy());
                }
                return None;
            }
            i = i - 1;
        }
        assert(self.slots@.subrange(0, 0) =~= Seq::<CacheSlot>::empty());
        None
    }

    /// Forgets the result stored for `path`, if any.
    pub fn invalidate(&mut self, path: &DirPath)
        ensures
            final(self)@ == old(self)@.remove(path@),
    {
        let mut old_slots: Vec<CacheSlot> = Vec::new();
        std::mem::swap(&mut self.slots, &mut old_slots);
        let mut i: usize = 0;
        assert(old_slots@.subrange(0, 0) =~= Seq::<CacheSlot>::empty());
        assert(self@ =~= slots_map(old_slots@.subrange(0, 0)).remove(path@));
        while i < old_slots.len()
            invariant
                i <= old_slots.len(),
                old_slots@ == old(self).slots@,
                self@ == slots_map(old_slots@.subrange(0, i as int)).remove(path@),
            decreases old_slots.len() - i,
        {
            assert(old_slots@.subrange(0, i + 1).drop_last() =~= old_slots@.subrange(0, i as int));
            let slot = &old_slots[i];
            if !slot.path.equals(path) {
                let kept = CacheSlot { path: slot.path.copy(), entry: slot.entry.copy() };
                let ghost before = self.slots@;
                self.slots.push(kept);
                assert(self.slots@.drop_last() =~= before);
                assert(self@ =~= slots_map(old_slots@.subrange(0, i + 1)).remove(path@));
            } else {
                assert(self@ =~= slots_map(old_slots@.subrange(0, i + 1)).remove(path@));
            }
            i = i + 1;
        }
        assert(old_slots@.subrange(0, old_slots.len() as int) =~= old_slots@);
    }

    /// Stores `file_list` and `total_size` as the result for `path`,
    /// completed at `now_ms`, in place of any earlier one.
    pub fn store(&mut self, path: &DirPath, file_list: Vec<FileInfo>, total_size: u64, now_ms: u64)
        ensures
            final(self)@ == old(self)@.insert(
                path@,
                CacheEntryView { entries: entries_view(file_list@), total_size, timestamp_ms: now_ms },
            ),
    {
        self.invalidate(path);
        let ghost before = self.slots@;
        let slot = CacheSlot { path: path.copy(), entry: CacheEntry { file_list, total_size, timestamp_ms: now_ms } };
        self.slots.push(slot);
        assert(self.slots@.drop_last() =~= before);
        assert(self@ =~= old(self)@.insert(
                path@,
                CacheEntryView { entries: entries_view(file_list@), total_size, timestamp_ms: now_ms },
            ));
    }
}

/// A result stored at `t0` is found again, unchanged, by a lookup at any
/// time `t1` before the time-to-live has run out.
pub proof fn lemma_lookup_within_ttl(m: Map<PathView, CacheEntryView>, p: PathView, e: CacheEntryView, t1: u64)
    requires
        e.timestamp_ms <= t1 < e.timestamp_ms + CACHE_TTL_MS,
    ensures
        lookup_spec(m.insert(p, e), p, t1) == Some(e),
{
}

/// Once the time-to-live has run out, a lookup no longer finds the result.
pub proof fn lemma_lookup_after_ttl(m: Map<PathView, CacheEntryView>, p: PathView, e: CacheEntryView, t1: u64)
    requires
        t1 >= e.timestamp_ms + CACHE_TTL_MS,
    ensures
        lookup_spec(m.insert(p, e), p, t1) is None,
{
}

/// After the result for `p` is invalidated, no lookup finds one.
pub proof fn lemma_lookup_after_invalidate(m: Map<PathView, CacheEntryView>, p: PathView, t: u64)
    ensures
        lookup_spec(m.remove(p), p, t) is None,
{
}

} // verus!
