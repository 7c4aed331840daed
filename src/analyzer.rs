//! The browsing session: where the user is, what is listed there, and how
//! scans, searches, navigation and deletions change it.

use vstd::prelude::*;
use vstd::string::*;
use crate::cache::{CacheEntryView, ScanCache, lookup_spec, CACHE_TTL_MS, lemma_lookup_within_ttl};
use crate::entry::{FileInfo, FileInfoView, entries_view, sizes_sum, copy_entries, total_of, binary_size_text, format_size_binary};
use crate::path::{DirPath, PathView, is_within, parent_of, lemma_parent_of_root_is_outside};
use crate::sort::{sorted_from, sorted_entries, lemma_sort_of_sorted_is_same};
use crate::text::{lower_of, contains_seq, to_lower, chars_of, contains_exec};
use crate::tree::{SizeTree, tree_size, capped, calculate_dir_size};

verus! {

/// Entries below this many bytes are hidden unless everything is shown.
pub const MIN_SIZE_FILTER: u64 = 102_400;

/// How often an automatic refresh comes due, in milliseconds.
pub const AUTO_REFRESH_MS: u64 = 30_000;

/// What a listing of a directory found for one child: its name, whether it
/// is a directory, and what lies under it (for a file, its length).
pub struct ListedChild {
    pub name: String,
    pub is_dir: bool,
    pub contents: SizeTree,
}

/// The filters and the order applied to a scan.
#[derive(Clone, Copy, PartialEq, Eq, Structural)]
pub struct FilterConfig {
    pub min_size_filter: u64,
    pub show_all: bool,
    pub show_hidden: bool,
    pub sort_by_size: bool,
}

/// Why a deletion failed: the message of the failed removal, for a
/// directory or for a file.
pub enum DeleteError {
    Directory(String),
    File(String),
}

/// A name that starts with a dot.
pub open spec fn is_hidden(name: Seq<char>) -> bool {
    name.len() > 0 && name[0] == '.'
}

/// The size that a scan reports for a child.
pub open spec fn child_size(c: ListedChild) -> u64 {
    capped(tree_size(c.contents))
}

/// A child survives the hidden-name and the size filters.
pub open spec fn is_shown(c: ListedChild, cfg: FilterConfig) -> bool {
    &&& cfg.show_hidden || !is_hidden(c.name@)
    &&& cfg.show_all || child_size(c) >= cfg.min_size_filter
}

/// The entry that a scan of `dir` makes of a child.
pub open spec fn entry_of(dir: PathView, c: ListedChild) -> FileInfoView {
    FileInfoView {
        path: PathView { anchor: dir.anchor, parts: dir.parts.push(c.name@) },
        size: child_size(c),
        is_dir: c.is_dir,
        name: c.name@,
    }
}

/// The entries that a scan of `dir` keeps of a listing, in listing order.
pub open spec fn shown_entries(dir: PathView, s: Seq<ListedChild>, cfg: FilterConfig) -> Seq<FileInfoView>
    decreases s.len(),
{
    if s.len() == 0 {
        Seq::empty()
    } else {
        let r = shown_entries(dir, s.drop_last(), cfg);
        if is_shown(s.last(), cfg) {
            r.push(entry_of(dir, s.last()))
        } else {
            r
        }
    }
}

/// An entry matches a search query: its lower-cased name contains the
/// lower-cased query.
pub open spec fn search_matches(e: FileInfoView, q: Seq<char>) -> bool {
    contains_seq(lower_of(e.name), lower_of(q))
}

/// The entries of `s` that match the query `q`, in order.
pub open spec fn search_result(s: Seq<FileInfoView>, q: Seq<char>) -> Seq<FileInfoView>
    decreases s.len(),
{
    if s.len() == 0 {
        Seq::empty()
    } else {
        let r = search_result(s.drop_last(), q);
        if search_matches(s.last(), q) {
            r.push(s.last())
        } else {
            r
        }
    }
}

/// The entries of `s` at another path than `p`, in order.
pub open spec fn without_path(s: Seq<FileInfoView>, p: PathView) -> Seq<FileInfoView>
    decreases s.len(),
{
    if s.len() == 0 {
        Seq::empty()
    } else {
        let r = without_path(s.drop_last(), p);
        if s.last().path != p {
            r.push(s.last())
        } else {
            r
        }
    }
}

/// The value of an optional path.
pub open spec fn opt_path(o: Option<DirPath>) -> Option<PathView> {
    match o {
        Some(p) => Some(p@),
        None => None,
    }
}

/// A browsing session over one root directory.
pub struct DiskAnalyzer {
    pub root_path: Option<DirPath>,
    pub current_path: Option<DirPath>,
    /// The entries of the current directory, in display order.
    pub file_list: Vec<FileInfo>,
    /// The entries of `file_list` that match `search_query`.
    pub filtered_list: Vec<FileInfo>,
    pub search_query: String,
    pub total_size: u64,
    pub config: FilterConfig,
    pub cache: ScanCache,
    pub auto_refresh: bool,
    pub last_refresh_ms: u64,
}

/// The same place, filters, query and refresh settings.
pub open spec fn same_settings(a: DiskAnalyzer, b: DiskAnalyzer) -> bool {
    &&& opt_path(a.root_path) == opt_path(b.root_path)
    &&& opt_path(a.current_path) == opt_path(b.current_path)
    &&& a.search_query@ == b.search_query@
    &&& a.config == b.config
    &&& a.auto_refresh == b.auto_refresh
    &&& a.last_refresh_ms == b.last_refresh_ms
}

/// The same lists, total and cache.
pub open spec fn same_contents(a: DiskAnalyzer, b: DiskAnalyzer) -> bool {
    &&& entries_view(a.file_list@) == entries_view(b.file_list@)
    &&& entries_view(a.filtered_list@) == entries_view(b.filtered_list@)
    &&& a.total_size == b.total_size
    &&& a.cache@ == b.cache@
}

/// The same query, filters and refresh settings.
pub open spec fn same_filters(a: DiskAnalyzer, b: DiskAnalyzer) -> bool {
    &&& a.search_query@ == b.search_query@
    &&& a.config == b.config
    &&& a.auto_refresh == b.auto_refresh
    &&& a.last_refresh_ms == b.last_refresh_ms
}

/// `after` is what starting a scan of `dir` at `now_ms` makes of `before`:
/// a result of the cache that is still valid is taken, sorted and searched,
/// and no listing is needed; otherwise the list is emptied and a listing is
/// needed. The cache itself is kept.
pub open spec fn scanned(before: DiskAnalyzer, after: DiskAnalyzer, dir: PathView, now_ms: u64, needs_listing: bool) -> bool {
    &&& after.cache@ == before.cache@
    &&& match lookup_spec(before.cache@, dir, now_ms) {
        Some(e) => {
            &&& !needs_listing
            &&& sorted_from(e.entries, entries_view(after.file_list@), before.config.sort_by_size)
            &&& after.total_size == e.total_size
            &&& entries_view(after.filtered_list@) == search_result(entries_view(after.file_list@), before.search_query@)
        },
        None => {
            &&& needs_listing
            &&& after.file_list@.len() == 0
            &&& entries_view(after.filtered_list@) == entries_view(before.filtered_list@)
            &&& after.total_size == before.total_size
        },
    }
}

impl DiskAnalyzer {
    /// Once a root is chosen the current directory is the root or lies
    /// below it; before that there is neither.
    pub open spec fn wf(&self) -> bool {
        match (self.root_path, self.current_path) {
            (Some(r), Some(c)) => is_within(c@, r@),
            (None, None) => true,
            _ => false,
        }
    }

    /// A session with no root yet, default filters and sorting by size.
    pub fn new(now_ms: u64) -> (r: DiskAnalyzer)
        ensures
            r.wf(),
            r.root_path is None,
            r.file_list@.len() == 0,
            r.filtered_list@.len() == 0,
            r.search_query@.len() == 0,
            r.total_size == 0,
            r.config == (FilterConfig { min_size_filter: MIN_SIZE_FILTER, show_all: false, show_hidden: false, sort_by_size: true }),
            r.cache@ == Map::<PathView, CacheEntryView>::empty(),
            !r.auto_refresh,
            r.last_refresh_ms == now_ms,
    {
        DiskAnalyzer {
            root_path: None,
            current_path: None,
            file_list: Vec::new(),
            filtered_list: Vec::new(),
            search_query: String::new(),
            total_size: 0,
            config: FilterConfig { min_size_filter: MIN_SIZE_FILTER, show_all: false, show_hidden: false, sort_by_size: true },
            cache: ScanCache::new(),
            auto_refresh: false,
            last_refresh_ms: now_ms,
        }
    }

    /// Puts `file_list` in display order.
    pub fn sort_files(&mut self)
        ensures
            sorted_from(entries_view(old(self).file_list@), entries_view(final(self).file_list@), old(self).config.sort_by_size),
            same_settings(*final(self), *old(self)),
            entries_view(final(self).filtered_list@) == entries_view(old(self).filtered_list@),
            final(self).total_size == old(self).total_size,
            final(self).cache@ == old(self).cache@,
    {
        let sorted = sorted_entries(&self.file_list, self.config.sort_by_size);
        self.file_list = sorted;
    }

    /// Sets `filtered_list` to the entries of `file_list` that match the
    /// search query; an empty query keeps them all.
    pub fn update_search(&mut self)
        ensures
            entries_view(final(self).filtered_list@) == search_result(entries_view(old(self).file_list@), old(self).search_query@),
            old(self).search_query@.len() == 0 ==> entries_view(final(self).filtered_list@) == entries_view(old(self).file_list@),
            same_settings(*final(self), *old(self)),
            entries_view(final(self).file_list@) == entries_view(old(self).file_list@),
            final(self).total_size == old(self).total_size,
            final(self).cache@ == old(self).cache@,
    {
        let q = chars_of(&to_lower(&self.search_query));
        let ghost list = entries_view(self.file_list@);
        let mut r: Vec<FileInfo> = Vec::new();
        let mut i: usize = 0;
        while i < self.file_list.len()
            invariant
                i <= self.file_list.len(),
                list == entries_view(self.file_list@),
                q@ == lower_of(self.search_query@),
                self.search_query@.len() == 0 ==> q@.len() == 0,
                entries_view(r@) == search_result(list.subrange(0, i as int), self.search_query@),
                self.search_query@.len() == 0 ==> entries_view(r@) == list.subrange(0, i as int),
            decreases self.file_list.len() - i,
        {
            assert(list.subrange(0, i + 1).drop_last() =~= list.subrange(0, i as int));
            let ghost before = r@;
            let name = chars_of(&to_lower(&self.file_list[i].name));
            if contains_exec(&name, &q) {
                r.push(self.file_list[i].copy());
                assert(entries_view(r@) =~= entries_view(before).push(list[i as int]));
            } else {
                proof {
                    if self.search_query@.len() == 0 {
                        assert(name@.subrange(0, 0 + q.len()) =~= q@);
                    }
                }
            }
            assert(list.subrange(0, i + 1) =~= list.subrange(0, i as int).push(list[i as int]));
            i = i + 1;
        }
        assert(list.subrange(0, list.len() as int) =~= list);
        self.filtered_list = r;
    }

    /// Starts a scan of the current directory at `now_ms`. A result of the
    /// cache that is still valid is taken, sorted and searched, and no
    /// listing is needed; otherwise the list is emptied and the caller is
    /// to list the directory and hand the listing to `finish_scan`.
    /// Without a current directory nothing happens.
    pub fn begin_scan(&mut self, now_ms: u64) -> (needs_listing: bool)
        ensures
            same_settings(*final(self), *old(self)),
            final(self).cache@ == old(self).cache@,
            old(self).current_path is None ==> !needs_listing && same_contents(*final(self), *old(self)),
            old(self).current_path matches Some(c) ==> scanned(*old(self), *final(self), c@, now_ms, needs_listing),
    {
        let current = match &self.current_path {
            Some(c) => c.copy(),
            None => return false,
        };
        match self.cache.lookup(&current, now_ms) {
            Some(e) => {
                self.file_list = e.file_list;
                self.total_size = e.total_size;
                self.sort_files();
                self.update_search();
                false
            },
            None => {
                self.file_list = Vec::new();
                true
            },
        }
    }

    /// Completes a scan of the current directory with what listing it found
    /// (`None` where the directory could not be listed), at `now_ms`. The
    /// children that pass the filters become the list, in display order;
    /// their sizes are summed into the total; the result is stored in the
    /// cache and searched. An unreadable directory gives an empty list and
    /// a zero total, and nothing is stored. Without a current directory
    /// nothing happens.
    pub fn finish_scan(&mut self, listing: Option<Vec<ListedChild>>, now_ms: u64)
        ensures
            same_settings(*final(self), *old(self)),
            old(self).current_path is None ==> same_contents(*final(self), *old(self)),
            old(self).current_path matches Some(c) ==> match listing {
                Some(children) => {
                    let shown = shown_entries(c@, children@, old(self).config);
                    &&& sorted_from(shown, entries_view(final(self).file_list@), old(self).config.sort_by_size)
                    &&& final(self).total_size == capped(sizes_sum(shown))
                    &&& final(self).cache@ == old(self).cache@.insert(
                        c@,
                        CacheEntryView { entries: entries_view(final(self).file_list@), total_size: final(self).total_size, timestamp_ms: now_ms },
                    )
                    &&& entries_view(final(self).filtered_list@) == search_result(entries_view(final(self).file_list@), old(self).search_query@)
                },
                None => {
                    &&& final(self).file_list@.len() == 0
                    &&& final(self).total_size == 0
                    &&& final(self).cache@ == old(self).cache@
                    &&& final(self).filtered_list@.len() == 0
                },
            },
    {
        let current = match &self.current_path {
            Some(c) => c.copy(),
            None => return,
        };
        let children = match listing {
            Some(children) => children,
            None => {
                self.file_list = Vec::new();
                self.total_size = 0;
                self.update_search();
                assert(search_result(Seq::<FileInfoView>::empty(), self.search_query@) == Seq::<FileInfoView>::empty());
                return;
            },
        };
        let cfg = self.config;
        let mut files: Vec<FileInfo> = Vec::new();
        let mut i: usize = 0;
        while i < children.len()
            invariant
                i <= children.len(),
                entries_view(files@) == shown_entries(current@, children@.subrange(0, i as int), cfg),
            decreases children.len() - i,
        {
            assert(children@.subrange(0, i + 1).drop_last() =~= children@.subrange(0, i as int));
            let c = &children[i];
            let size = calculate_dir_size(&c.contents);
            let name: &str = c.name.as_str();
            let hidden = name.unicode_len() > 0 && name.get_char(0) == '.';
            let ghost before = files@;
            if (cfg.show_hidden || !hidden) && (cfg.show_all || size >= cfg.min_size_filter) {
                files.push(FileInfo { path: current.join(&c.name), size, is_dir: c.is_dir, name: c.name.clone() });
                assert(entries_view(files@) =~= entries_view(before).push(entry_of(current@, children@[i as int])));
            }
            i = i + 1;
        }
        assert(children@.subrange(0, children.len() as int) =~= children@);
        let total = total_of(&files);
        self.file_list = sorted_entries(&files, cfg.sort_by_size);
        self.total_size = total;
        let stored = copy_entries(&self.file_list);
        self.cache.store(&current, stored, total, now_ms);
        self.update_search();
    }

    /// Chooses `path` as the root and the current directory, and starts a
    /// scan of it (see `begin_scan`).
    pub fn set_root(&mut self, path: DirPath, now_ms: u64) -> (needs_listing: bool)
        ensures
            final(self).wf(),
            opt_path(final(self).root_path) == Some(path@),
            opt_path(final(self).current_path) == Some(path@),
            same_filters(*final(self), *old(self)),
            scanned(*old(self), *final(self), path@, now_ms, needs_listing),
    {
        let root = path.copy();
        self.root_path = Some(root);
        self.current_path = Some(path);
        assert(is_within(path@, path@)) by {
            assert(path@.parts.subrange(0, path@.parts.len() as int) =~= path@.parts);
        }
        self.begin_scan(now_ms)
    }

    /// Makes `path`, which lies within the root, the current directory and
    /// starts a scan of it (see `begin_scan`).
    pub fn navigate_to(&mut self, path: DirPath, now_ms: u64) -> (needs_listing: bool)
        requires
            old(self).wf(),
            old(self).root_path matches Some(r) && is_within(path@, r@),
        ensures
            final(self).wf(),
            opt_path(final(self).root_path) == opt_path(old(self).root_path),
            opt_path(final(self).current_path) == Some(path@),
            same_filters(*final(self), *old(self)),
            scanned(*old(self), *final(self), path@, now_ms, needs_listing),
    {
        self.current_path = Some(path);
        self.begin_scan(now_ms)
    }

    /// Moves to the parent of the current directory and starts a scan of it
    /// (see `begin_scan`), where that parent exists and lies within the
    /// root. Otherwise nothing changes and no listing is needed.
    pub fn go_up(&mut self, now_ms: u64) -> (needs_listing: bool)
        requires
            old(self).wf(),
        ensures
            final(self).wf(),
            opt_path(final(self).root_path) == opt_path(old(self).root_path),
            final(self).cache@ == old(self).cache@,
            old(self).root_path matches Some(r) && old(self).current_path matches Some(c) && c@ == r@
                ==> !needs_listing && same_settings(*final(self), *old(self)) && same_contents(*final(self), *old(self)),
            match (old(self).root_path, old(self).current_path) {
                (Some(r), Some(c)) => match parent_of(c@) {
                    Some(p) => if is_within(p, r@) {
                        &&& opt_path(final(self).current_path) == Some(p)
                        &&& same_filters(*final(self), *old(self))
                        &&& scanned(*old(self), *final(self), p, now_ms, needs_listing)
                    } else {
                        !needs_listing && same_settings(*final(self), *old(self)) && same_contents(*final(self), *old(self))
                    },
                    None => !needs_listing && same_settings(*final(self), *old(self)) && same_contents(*final(self), *old(self)),
                },
                _ => !needs_listing && same_settings(*final(self), *old(self)) && same_contents(*final(self), *old(self)),
            },
    {
        proof {
            if self.root_path is Some {
                lemma_parent_of_root_is_outside(self.root_path.unwrap()@);
            }
        }
        let parent = match &self.current_path {
            Some(c) => c.parent(),
            None => None,
        };
        match parent {
            Some(p) => {
                let inside = match &self.root_path {
                    Some(r) => p.starts_with(r),
                    None => true,
                };
                if inside {
                    self.navigate_to(p, now_ms)
                } else {
                    false
                }
            },
            None => false,
        }
    }

    /// Completes the deletion of `item`, a child of the current directory,
    /// once the caller has tried to remove it from disk (`removed`: a
    /// directory with all its contents, a file alone). On failure nothing
    /// changes and the error says which kind of removal failed. On success
    /// the cached result for the current directory is dropped, every entry
    /// at the item's path leaves the list, the search is applied again and
    /// the total is the sum of what is left.
    pub fn delete_item(&mut self, item: &FileInfo, removed: Result<(), String>) -> (r: Result<(), DeleteError>)
        ensures
            removed is Err ==> same_settings(*final(self), *old(self)) && same_contents(*final(self), *old(self)),
            removed matches Err(e) ==> (item.is_dir ==> (r matches Err(DeleteError::Directory(m)) && m@ == e@)),
            removed matches Err(e) ==> (!item.is_dir ==> (r matches Err(DeleteError::File(m)) && m@ == e@)),
            removed is Ok ==> {
                let rest = without_path(entries_view(old(self).file_list@), item.path@);
                &&& r is Ok
                &&& same_settings(*final(self), *old(self))
                &&& entries_view(final(self).file_list@) == rest
                &&& entries_view(final(self).filtered_list@) == search_result(rest, old(self).search_query@)
                &&& final(self).total_size == capped(sizes_sum(rest))
                &&& final(self).cache@ == match old(self).current_path {
                    Some(c) => old(self).cache@.remove(c@),
                    None => old(self).cache@,
                }
            },
    {
        match removed {
            Err(e) => {
                if item.is_dir {
                    return Err(DeleteError::Directory(e));
                } else {
                    return Err(DeleteError::File(e));
                }
            },
            Ok(()) => {},
        }
        match &self.current_path {
            Some(c) => {
                let c = c.copy();
                self.cache.invalidate(&c);
            },
            None => {},
        }
        let ghost list = entries_view(self.file_list@);
        let mut kept: Vec<FileInfo> = Vec::new();
        let mut i: usize = 0;
        while i < self.file_list.len()
            invariant
                i <= self.file_list.len(),
                list == entries_view(self.file_list@),
                entries_view(kept@) == without_path(list.subrange(0, i as int), item.path@),
            decreases self.file_list.len() - i,
        {
            assert(list.subrange(0, i + 1).drop_last() =~= list.subrange(0, i as int));
            if !self.file_list[i].path.equals(&item.path) {
                let ghost before = kept@;
                kept.push(self.file_list[i].copy());
                assert(entries_view(kept@) =~= entries_view(before).push(list[i as int]));
            }
            i = i + 1;
        }
        assert(list.subrange(0, list.len() as int) =~= list);
        self.file_list = kept;
        self.update_search();
        self.total_size = total_of(&self.file_list);
        Ok(())
    }

    /// The total size of the current list as text in binary units.
    pub fn total_size_text(&self) -> (r: String)
        ensures
            r@ == binary_size_text(self.total_size),
    {
        format_size_binary(self.total_size)
    }

    /// Performs an automatic refresh where one is due at `now_ms` (see
    /// `refresh_due`): records `now_ms` as the time of the last refresh and
    /// starts a scan of the current directory (see `begin_scan`). Where
    /// none is due nothing changes and no listing is needed.
    pub fn tick(&mut self, now_ms: u64) -> (needs_listing: bool)
        ensures
            !(old(self).auto_refresh && now_ms > old(self).last_refresh_ms + AUTO_REFRESH_MS)
                ==> !needs_listing && same_settings(*final(self), *old(self)) && same_contents(*final(self), *old(self)),
            old(self).auto_refresh && now_ms > old(self).last_refresh_ms + AUTO_REFRESH_MS ==> {
                &&& final(self).last_refresh_ms == now_ms
                &&& opt_path(final(self).root_path) == opt_path(old(self).root_path)
                &&& opt_path(final(self).current_path) == opt_path(old(self).current_path)
                &&& final(self).search_query@ == old(self).search_query@
                &&& final(self).config == old(self).config
                &&& final(self).auto_refresh == old(self).auto_refresh
                &&& old(self).current_path is None ==> !needs_listing && same_contents(*final(self), *old(self))
                &&& old(self).current_path matches Some(c) ==> scanned(*old(self), *final(self), c@, now_ms, needs_listing)
            },
    {
        if !self.refresh_due(now_ms) {
            return false;
        }
        self.last_refresh_ms = now_ms;
        self.begin_scan(now_ms)
    }

    /// An automatic refresh is due at `now_ms`: it is switched on and more
    /// than thirty seconds have passed since the last one.
    pub fn refresh_due(&self, now_ms: u64) -> (r: bool)
        ensures
            r == (self.auto_refresh && now_ms > self.last_refresh_ms + AUTO_REFRESH_MS),
    {
        self.auto_refresh && now_ms > self.last_refresh_ms && now_ms - self.last_refresh_ms > AUTO_REFRESH_MS
    }
}

/// With everything shown switched off, no entry of a scan is smaller than
/// the minimum size.
pub proof fn lemma_min_size_respected(dir: PathView, s: Seq<ListedChild>, cfg: FilterConfig)
    requires
        !cfg.show_all,
    ensures
        forall|k: int| 0 <= k < shown_entries(dir, s, cfg).len() ==> #[trigger] shown_entries(dir, s, cfg)[k].size >= cfg.min_size_filter,
    decreases s.len(),
{
    if s.len() > 0 {
        lemma_min_size_respected(dir, s.drop_last(), cfg);
        let r = shown_entries(dir, s.drop_last(), cfg);
        assert forall|k: int| 0 <= k < shown_entries(dir, s, cfg).len() implies #[trigger] shown_entries(dir, s, cfg)[k].size >= cfg.min_size_filter by {
            if k < r.len() {
                assert(shown_entries(dir, s, cfg)[k] == r[k]);
            }
        }
    }
}

/// With everything shown, the minimum size makes no difference; showing
/// hidden names too, every child of the listing is kept.
pub proof fn lemma_show_all_ignores_size(dir: PathView, s: Seq<ListedChild>, cfg: FilterConfig, min_size: u64)
    requires
        cfg.show_all,
    ensures
        shown_entries(dir, s, cfg) == shown_entries(dir, s, FilterConfig { min_size_filter: min_size, ..cfg }),
        cfg.show_hidden ==> shown_entries(dir, s, cfg) == s.map_values(|c: ListedChild| entry_of(dir, c)),
    decreases s.len(),
{
    if s.len() > 0 {
        lemma_show_all_ignores_size(dir, s.drop_last(), cfg, min_size);
        assert(s.drop_last().map_values(|c: ListedChild| entry_of(dir, c)).push(entry_of(dir, s.last()))
            =~= s.map_values(|c: ListedChild| entry_of(dir, c)));
    } else {
        assert(s.map_values(|c: ListedChild| entry_of(dir, c)) =~= Seq::<FileInfoView>::empty());
    }
}

/// A search keeps exactly the entries that match, in their order: every
/// entry it returns matches, and every matching entry is returned.
pub proof fn lemma_search_is_exact(s: Seq<FileInfoView>, q: Seq<char>)
    ensures
        forall|k: int| 0 <= k < search_result(s, q).len() ==> search_matches(#[trigger] search_result(s, q)[k], q) && s.contains(search_result(s, q)[k]),
        forall|k: int| 0 <= k < s.len() && search_matches(#[trigger] s[k], q) ==> search_result(s, q).contains(s[k]),
    decreases s.len(),
{
    if s.len() > 0 {
        lemma_search_is_exact(s.drop_last(), q);
        let r = search_result(s.drop_last(), q);
        assert forall|k: int| 0 <= k < search_result(s, q).len() implies search_matches(#[trigger] search_result(s, q)[k], q) && s.contains(search_result(s, q)[k]) by {
            if k < r.len() {
                assert(search_result(s, q)[k] == r[k]);
                let w = choose|w: int| 0 <= w < s.drop_last().len() && s.drop_last()[w] == r[k];
                assert(s[w] == r[k]);
            } else {
                assert(s[s.len() - 1] == s.last());
            }
        }
        assert forall|k: int| 0 <= k < s.len() && search_matches(#[trigger] s[k], q) implies search_result(s, q).contains(s[k]) by {
            if k < s.len() - 1 {
                assert(s.drop_last()[k] == s[k]);
                let w = choose|w: int| 0 <= w < r.len() && r[w] == s[k];
                assert(search_result(s, q)[w] == s[k]);
            } else {
                assert(search_result(s, q)[search_result(s, q).len() - 1] == s[k]);
            }
        }
    }
}

/// A query that is empty once lower-cased keeps every entry, in order.
pub proof fn lemma_empty_query_keeps_all(s: Seq<FileInfoView>, q: Seq<char>)
    requires
        lower_of(q).len() == 0,
    ensures
        search_result(s, q) == s,
    decreases s.len(),
{
    if s.len() > 0 {
        lemma_empty_query_keeps_all(s.drop_last(), q);
        assert(lower_of(s.last().name).subrange(0, 0 + lower_of(q).len() as int) =~= lower_of(q));
        assert(s.drop_last().push(s.last()) =~= s);
    }
}

/// After a deletion no entry is left at the deleted path.
pub proof fn lemma_deleted_path_is_gone(s: Seq<FileInfoView>, p: PathView)
    ensures
        forall|k: int| 0 <= k < without_path(s, p).len() ==> (#[trigger] without_path(s, p)[k]).path != p,
    decreases s.len(),
{
    if s.len() > 0 {
        lemma_deleted_path_is_gone(s.drop_last(), p);
        let r = without_path(s.drop_last(), p);
        assert forall|k: int| 0 <= k < without_path(s, p).len() implies (#[trigger] without_path(s, p)[k]).path != p by {
            if k < r.len() {
                assert(without_path(s, p)[k] == r[k]);
            }
        }
    }
}

/// A scan repeated on the same directory before the time-to-live has run
/// out is answered from the cache, with no listing, and gives the list that
/// the first scan stored.
pub proof fn lemma_rescan_within_ttl_repeats(
    m: Map<PathView, CacheEntryView>,
    dir: PathView,
    shown: Seq<FileInfoView>,
    list: Seq<FileInfoView>,
    total: u64,
    t0: u64,
    t1: u64,
    by_size: bool,
    again: Seq<FileInfoView>,
)
    requires
        sorted_from(shown, list, by_size),
        t0 <= t1 < t0 + CACHE_TTL_MS,
        sorted_from(list, again, by_size),
    ensures
        lookup_spec(m.insert(dir, CacheEntryView { entries: list, total_size: total, timestamp_ms: t0 }), dir, t1)
            == Some(CacheEntryView { entries: list, total_size: total, timestamp_ms: t0 }),
        again == list,
{
    lemma_lookup_within_ttl(m, dir, CacheEntryView { entries: list, total_size: total, timestamp_ms: t0 }, t1);
    lemma_sort_of_sorted_is_same(shown, list, again, by_size);
}

} // verus!
