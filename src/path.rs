//! Directory paths as an anchor (a root such as `/`, or nothing for a
//! relative path) followed by a list of names.

use vstd::prelude::*;

verus! {

/// The mathematical value of a path.
pub struct PathView {
    pub anchor: Seq<char>,
    pub parts: Seq<Seq<char>>,
}

/// `root` is `p` itself or one of its ancestors.
pub open spec fn is_within(p: PathView, root: PathView) -> bool {
    &&& p.anchor == root.anchor
    &&& root.parts.len() <= p.parts.len()
    &&& p.parts.subrange(0, root.parts.len() as int) == root.parts
}

/// The parent of `p`: none where `p` ends at its anchor.
pub open spec fn parent_of(p: PathView) -> Option<PathView> {
    if p.parts.len() == 0 {
        None
    } else {
        Some(PathView { anchor: p.anchor, parts: p.parts.drop_last() })
    }
}

/// The characters of each name.
pub open spec fn names(v: Seq<String>) -> Seq<Seq<char>> {
    v.map_values(|s: String| s@)
}

/// A path to a directory or file.
pub struct DirPath {
    pub anchor: String,
    pub parts: Vec<String>,
}

impl View for DirPath {
    type V = PathView;

    open spec fn view(&self) -> PathView {
        PathView { anchor: self.anchor@, parts: names(self.parts@) }
    }
}

fn copy_names(v: &Vec<String>, n: usize) -> (r: Vec<String>)
    requires
        n <= v.len(),
    ensures
        names(r@) == names(v@.subrange(0, n as int)),
{
    let mut r: Vec<String> = Vec::new();
    let mut i: usize = 0;
    while i < n
        invariant
            i <= n,
            n <= v.len(),
            r@.len() == i,
            forall|k: int| 0 <= k < i ==> r@[k]@ == v@[k]@,
        decreases n - i,
    {
        let s = v[i].clone();
        r.push(s);
        i = i + 1;
    }
    assert(names(r@) =~= names(v@.subrange(0, n as int)));
    r
}

fn names_equal(a: &Vec<String>, b: &Vec<String>, n: usize) -> (r: bool)
    requires
        n <= a.len(),
        n <= b.len(),
    ensures
        r == (names(a@.subrange(0, n as int)) == names(b@.subrange(0, n as int))),
{
    let mut i: usize = 0;
    while i < n
        invariant
            i <= n,
            n <= a.len(),
            n <= b.len(),
            forall|k: int| 0 <= k < i ==> a@[k]@ == b@[k]@,
        decreases n - i,
    {
        if a[i] != b[i] {
            assert(names(a@.subrange(0, n as int))[i as int] != names(b@.subrange(0, n as int))[i as int]);
            return false;
        }
        i = i + 1;
    }
    assert(names(a@.subrange(0, n as int)) =~= names(b@.subrange(0, n as int)));
    true
}

impl DirPath {
    /// A path from its anchor and its names.
    pub fn new(anchor: String, parts: Vec<String>) -> (r: DirPath)
        ensures
            r.anchor@ == anchor@,
            r.parts@ == parts@,
    {
        DirPath { anchor, parts }
    }

    /// An equal path.
    pub fn copy(&self) -> (r: DirPath)
        ensures
            r@ == self@,
    {
        let anchor = self.anchor.clone();
        let parts = copy_names(&self.parts, self.parts.len());
        assert(self.parts@.subrange(0, self.parts@.len() as int) =~= self.parts@);
        DirPath { anchor, parts }
    }

    /// Whether the two paths are equal.
    pub fn equals(&self, other: &DirPath) -> (r: bool)
        ensures
            r == (self@ == other@),
    {
        if self.anchor != other.anchor || self.parts.len() != other.parts.len() {
            assert(self@.anchor != other@.anchor || self@.parts.len() != other@.parts.len());
            return false;
        }
        let r = names_equal(&self.parts, &other.parts, self.parts.len());
        assert(self.parts@.subrange(0, self.parts@.len() as int) =~= self.parts@);
        assert(other.parts@.subrange(0, other.parts@.len() as int) =~= other.parts@);
        r
    }

    /// Whether `root` is this path or one of its ancestors.
    pub fn starts_with(&self, root: &DirPath) -> (r: bool)
        ensures
            r == is_within(self@, root@),
    {
        if self.anchor != root.anchor || root.parts.len() > self.parts.len() {
            return false;
        }
        let r = names_equal(&self.parts, &root.parts, root.parts.len());
        assert(root.parts@.subrange(0, root.parts@.len() as int) =~= root.parts@);
        assert(names(self.parts@).subrange(0, root.parts@.len() as int)
            =~= self.parts@.subrange(0, root.parts@.len() as int).map_values(|s: String| s@));
        r
    }

    /// The directory that holds this path, if any.
    pub fn parent(&self) -> (r: Option<DirPath>)
        ensures
            r.is_none() == parent_of(self@).is_none(),
            r.is_some() ==> parent_of(self@) == Some(r.unwrap()@),
    {
        if self.parts.len() == 0 {
            return None;
        }
        let anchor = self.anchor.clone();
        let parts = copy_names(&self.parts, self.parts.len() - 1);
        let r = DirPath { anchor, parts };
        assert(r@.parts =~= self@.parts.drop_last());
        Some(r)
    }

    /// The path of the child called `name`.
    pub fn join(&self, name: &String) -> (r: DirPath)
        ensures
            r@ == (PathView { anchor: self@.anchor, parts: self@.parts.push(name@) }),
    {
        let mut r = self.copy();
        r.parts.push(name.clone());
        assert(r@.parts =~= self@.parts.push(name@));
        r
    }
}

/// The parent of a root lies outside it: going up from the root is refused.
pub proof fn lemma_parent_of_root_is_outside(root: PathView)
    ensures
        parent_of(root) matches Some(p) ==> !is_within(p, root),
{
}

} // verus!
