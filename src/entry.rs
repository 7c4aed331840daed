//! One child of a scanned directory.

use vstd::prelude::*;
use crate::path::{DirPath, PathView};

verus! {

/// A child of a scanned directory: where it is, what it is called, how many
/// bytes it holds (recursively, for a directory) and whether it is a
/// directory.
pub struct FileInfo {
    pub path: DirPath,
    pub size: u64,
    pub is_dir: bool,
    pub name: String,
}

/// The mathematical value of a `FileInfo`.
pub struct FileInfoView {
    pub path: PathView,
    pub size: u64,
    pub is_dir: bool,
    pub name: Seq<char>,
}

impl View for FileInfo {
    type V = FileInfoView;

    open spec fn view(&self) -> FileInfoView {
        FileInfoView { path: self.path@, size: self.size, is_dir: self.is_dir, name: self.name@ }
    }
}

/// The values of a list of entries.
pub open spec fn entries_view(s: Seq<FileInfo>) -> Seq<FileInfoView> {
    s.map_values(|e: FileInfo| e@)
}

/// The sum of the sizes of a list of entries.
pub open spec fn sizes_sum(s: Seq<FileInfoView>) -> nat
    decreases s.len(),
{
    if s.len() == 0 {
        0
    } else {
        sizes_sum(s.drop_last()) + s.last().size as nat
    }
}

/// The text that `humansize::format_size` gives for `n` bytes in binary
/// units (such as `488.28 KiB`).
pub uninterp spec fn binary_size_text(n: u64) -> Seq<char>;

/// Relies on `humansize::format_size` with the `BINARY` options: the text
/// depends on the number alone.
#[verifier::external_body]
pub(crate) fn format_size_binary(n: u64) -> (r: String)
    ensures
        r@ == binary_size_text(n),
{
    humansize::format_size(n, humansize::BINARY)
}

impl FileInfo {
    /// The size of the entry as text in binary units.
    pub fn size_text(&self) -> (r: String)
        ensures
            r@ == binary_size_text(self.size),
    {
        format_size_binary(self.size)
    }

    /// An entry from its parts.
    pub fn new(path: DirPath, size: u64, is_dir: bool, name: String) -> (r: FileInfo)
        ensures
            r@ == (FileInfoView { path: path@, size, is_dir, name: name@ }),
    {
        FileInfo { path, size, is_dir, name }
    }

    /// An equal entry.
    pub fn copy(&self) -> (r: FileInfo)
        ensures
            r@ == self@,
    {
        FileInfo { path: self.path.copy(), size: self.size, is_dir: self.is_dir, name: self.name.clone() }
    }
}

/// An equal list of entries.
pub fn copy_entries(v: &Vec<FileInfo>) -> (r: Vec<FileInfo>)
    ensures
        entries_view(r@) == entries_view(v@),
{
    let mut r: Vec<FileInfo> = Vec::new();
    let mut i: usize = 0;
    while i < v.len()
        invariant
            i <= v.len(),
            r@.len() == i,
            forall|k: int| 0 <= k < i ==> r@[k]@ == v@[k]@,
        decreases v.len() - i,
    {
        r.push(v[i].copy());
        i = i + 1;
    }
    assert(entries_view(r@) =~= entries_view(v@));
    r
}

/// The sum of the sizes of `v`, capped at the largest 64-bit value.
pub fn total_of(v: &Vec<FileInfo>) -> (r: u64)
    ensures
        r == crate::tree::capped(sizes_sum(entries_view(v@))),
{
    let mut acc: u64 = 0;
    let mut i: usize = 0;
    while i < v.len()
        invariant
            i <= v.len(),
            acc == crate::tree::capped(sizes_sum(entries_view(v@).subrange(0, i as int))),
        decreases v.len() - i,
    {
        assert(entries_view(v@).subrange(0, i + 1).drop_last() =~= entries_view(v@).subrange(0, i as int));
        acc = acc.saturating_add(v[i].size);
        i = i + 1;
    }
    assert(entries_view(v@).subrange(0, v.len() as int) =~= entries_view(v@));
    acc
}

} // verus!
