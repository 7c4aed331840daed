//! Aggregate sizes over a directory tree that has been read from disk.

use vstd::prelude::*;

verus! {

/// What a walk of the filesystem found at one place: a regular file with its
/// byte length, a directory with its readable children, or something that
/// could not be read (it counts for nothing).
pub enum SizeTree {
    File(u64),
    Dir(Vec<SizeTree>),
    Unreadable,
}

/// The total number of bytes under `t`.
pub open spec fn tree_size(t: SizeTree) -> nat
    decreases t,
{
    match t {
        SizeTree::File(n) => n as nat,
        SizeTree::Dir(children) => forest_size(children@),
        SizeTree::Unreadable => 0,
    }
}

/// The sum of the sizes of the trees in `s`.
pub open spec fn forest_size(s: Seq<SizeTree>) -> nat
    decreases s,
{
    if s.len() == 0 {
        0
    } else {
        forest_size(s.drop_last()) + tree_size(s.last())
    }
}

/// `n` where it fits in 64 bits, the largest 64-bit value otherwise.
pub open spec fn capped(n: nat) -> u64 {
    if n > u64::MAX {
        u64::MAX
    } else {
        n as u64
    }
}

/// A directory's aggregate size is the sum of the aggregate sizes of its
/// direct children; a file's is its length; an unreadable child adds nothing.
pub proof fn lemma_dir_size_is_sum_of_children(children: Seq<SizeTree>)
    ensures
        forest_size(children) == children.fold_left(0nat, |acc: nat, c: SizeTree| acc + tree_size(c)),
    decreases children.len(),
{
    if children.len() > 0 {
        lemma_dir_size_is_sum_of_children(children.drop_last());
    }
}

/// The aggregate size of `t`, capped at the largest 64-bit value.
pub fn calculate_dir_size(t: &SizeTree) -> (r: u64)
    ensures
        r == capped(tree_size(*t)),
    decreases t,
{
    match t {
        SizeTree::File(n) => *n,
        SizeTree::Unreadable => 0,
        SizeTree::Dir(children) => {
            let mut acc: u64 = 0;
            let mut i: usize = 0;
            while i < children.len()
                invariant
                    i <= children.len(),
                    acc == capped(forest_size(children@.subrange(0, i as int))),
                    *t == SizeTree::Dir(*children),
                decreases children.len() - i,
            {
                proof {
                    assert(children@.subrange(0, i + 1).drop_last() =~= children@.subrange(0, i as int));
                    assert(decreases_to!(*t => t->Dir_0));
                    assert(decreases_to!(*children => children[i as int]));
                }
                let part = calculate_dir_size(&children[i]);
                acc = acc.saturating_add(part);
                i = i + 1;
            }
            assert(children@.subrange(0, children.len() as int) =~= children@);
            acc
        },
    }
}

} // verus!
