//! Ordering of entries: directories first, then by descending size or by
//! case-insensitive name, ties kept in listing order.

use vstd::prelude::*;
use crate::entry::{FileInfo, FileInfoView, entries_view};
use crate::text::{lower_of, lex_le, lemma_lex_total, lemma_lex_trans, to_lower, chars_of, lex_le_exec};

verus! {

/// `a` may stand before `b`: a directory before a file; within one kind the
/// larger first (`by_size`) or the name that comes first once lower-cased.
pub open spec fn goes_before(a: FileInfoView, b: FileInfoView, by_size: bool) -> bool {
    if a.is_dir != b.is_dir {
        a.is_dir
    } else if by_size {
        a.size >= b.size
    } else {
        lex_le(lower_of(a.name), lower_of(b.name))
    }
}

/// Some position of `perm` holds `k`.
pub open spec fn hits(perm: Seq<int>, k: int) -> bool {
    exists|j: int| 0 <= j < perm.len() && perm[j] == k
}

/// Some position among the first `n` of `order` holds `k`.
pub open spec fn placed(order: Seq<usize>, n: int, k: int) -> bool {
    exists|j: int| 0 <= j < n && order[j] == k
}

/// `out` is `input` reordered by `perm` (`out[j]` is `input[perm[j]]`), in
/// order, with entries that tie kept in their order in `input`.
pub open spec fn is_stable_sort(
    input: Seq<FileInfoView>,
    out: Seq<FileInfoView>,
    perm: Seq<int>,
    by_size: bool,
) -> bool {
    &&& out.len() == input.len()
    &&& perm.len() == input.len()
    &&& forall|j: int| 0 <= j < out.len() ==> 0 <= #[trigger] perm[j] < input.len() && out[j] == input[perm[j]]
    &&& forall|j: int, l: int| 0 <= j < l < out.len() ==> #[trigger] perm[j] != #[trigger] perm[l]
    &&& forall|k: int| 0 <= k < input.len() ==> #[trigger] hits(perm, k)
    &&& forall|j: int, l: int| 0 <= j < l < out.len() ==> goes_before(#[trigger] out[j], #[trigger] out[l], by_size)
    &&& forall|j: int, l: int|
        0 <= j < l < out.len() && goes_before(#[trigger] out[l], #[trigger] out[j], by_size) ==> perm[j] < perm[l]
}

/// `out` is a stable sort of `input`.
pub open spec fn sorted_from(input: Seq<FileInfoView>, out: Seq<FileInfoView>, by_size: bool) -> bool {
    exists|perm: Seq<int>| is_stable_sort(input, out, perm, by_size)
}

/// The order is total.
pub proof fn lemma_goes_before_total(a: FileInfoView, b: FileInfoView, by_size: bool)
    ensures
        goes_before(a, b, by_size) || goes_before(b, a, by_size),
{
    lemma_lex_total(lower_of(a.name), lower_of(b.name));
}

/// The order is transitive.
pub proof fn lemma_goes_before_trans(a: FileInfoView, b: FileInfoView, c: FileInfoView, by_size: bool)
    requires
        goes_before(a, b, by_size),
        goes_before(b, c, by_size),
    ensures
        goes_before(a, c, by_size),
{
    if a.is_dir == b.is_dir && b.is_dir == c.is_dir && !by_size {
        lemma_lex_trans(lower_of(a.name), lower_of(b.name), lower_of(c.name));
    }
}

/// A sort puts every directory before every file, whatever the order
/// within each kind.
pub proof fn lemma_sort_puts_dirs_first(input: Seq<FileInfoView>, out: Seq<FileInfoView>, by_size: bool)
    requires
        sorted_from(input, out, by_size),
    ensures
        forall|j: int, l: int| 0 <= j < l < out.len() && (#[trigger] out[l]).is_dir ==> (#[trigger] out[j]).is_dir,
{
    let perm = choose|perm: Seq<int>| is_stable_sort(input, out, perm, by_size);
    assert forall|j: int, l: int| 0 <= j < l < out.len() && (#[trigger] out[l]).is_dir implies (#[trigger] out[j]).is_dir by {
        assert(goes_before(out[j], out[l], by_size));
    }
}

/// A sort keeps entries that tie in the order they were listed in: where
/// `input[i]` and `input[j]`, `i < j`, are of one kind and have equal keys,
/// the first stands before the second in the result.
pub proof fn lemma_sort_is_stable(input: Seq<FileInfoView>, out: Seq<FileInfoView>, by_size: bool, i: int, j: int)
    requires
        sorted_from(input, out, by_size),
        0 <= i < j < input.len(),
        goes_before(input[i], input[j], by_size),
        goes_before(input[j], input[i], by_size),
    ensures
        exists|a: int, b: int| 0 <= a < b < out.len() && out[a] == input[i] && out[b] == input[j],
{
    let perm = choose|perm: Seq<int>| is_stable_sort(input, out, perm, by_size);
    assert(hits(perm, i));
    assert(hits(perm, j));
    let a = choose|a: int| 0 <= a < perm.len() && perm[a] == i;
    let b = choose|b: int| 0 <= b < perm.len() && perm[b] == j;
    assert(out[a] == input[i]);
    assert(out[b] == input[j]);
    if b < a {
        assert(goes_before(out[a], out[b], by_size));
        assert(perm[b] < perm[a]);
    }
    assert(a != b);
    assert(0 <= a < b < out.len() && out[a] == input[i] && out[b] == input[j]);
}

fn goes_before_exec(a: &FileInfo, ka: &Vec<char>, b: &FileInfo, kb: &Vec<char>, by_size: bool) -> (r: bool)
    requires
        ka@ == lower_of(a.name@),
        kb@ == lower_of(b.name@),
    ensures
        r == goes_before(a@, b@, by_size),
{
    if a.is_dir != b.is_dir {
        a.is_dir
    } else if by_size {
        a.size >= b.size
    } else {
        lex_le_exec(ka, kb)
    }
}

/// `v` in order: a stable sort by `goes_before`.
pub fn sorted_entries(v: &Vec<FileInfo>, by_size: bool) -> (r: Vec<FileInfo>)
    ensures
        sorted_from(entries_view(v@), entries_view(r@), by_size),
{
    let ghost input = entries_view(v@);
    let n = v.len();
    let mut keys: Vec<Vec<char>> = Vec::new();
    let mut i: usize = 0;
    while i < n
        invariant
            n == v.len(),
            i <= n,
            keys@.len() == i,
            forall|k: int| 0 <= k < i ==> (#[trigger] keys@[k])@ == lower_of(v@[k].name@),
        decreases n - i,
    {
        let low = to_lower(&v[i].name);
        keys.push(chars_of(&low));
        i = i + 1;
    }
    let mut order: Vec<usize> = Vec::new();
    i = 0;
    while i < n
        invariant
            n == v.len(),
            input == entries_view(v@),
            keys@.len() == n,
            forall|k: int| 0 <= k < n ==> (#[trigger] keys@[k])@ == lower_of(v@[k].name@),
            i <= n,
            order@.len() == i,
            forall|j: int| 0 <= j < i ==> #[trigger] order@[j] < i,
            forall|j: int, l: int| 0 <= j < l < i ==> #[trigger] order@[j] != #[trigger] order@[l],
            forall|k: int| 0 <= k < i ==> #[trigger] placed(order@, i as int, k),
            forall|j: int, l: int|
                0 <= j < l < i ==> goes_before(
                    input[#[trigger] order@[j] as int],
                    input[#[trigger] order@[l] as int],
                    by_size,
                ),
            forall|j: int, l: int|
                0 <= j < l < i && goes_before(
                    input[#[trigger] order@[l] as int],
                    input[#[trigger] order@[j] as int],
                    by_size,
                ) ==> order@[j] < order@[l],
        decreases n - i,
    {
        let mut p: usize = i;
        while p > 0 && !goes_before_exec(&v[order[p - 1]], &keys[order[p - 1]], &v[i], &keys[i], by_size)
            invariant
                n == v.len(),
                input == entries_view(v@),
                keys@.len() == n,
                forall|k: int| 0 <= k < n ==> (#[trigger] keys@[k])@ == lower_of(v@[k].name@),
                i < n,
                order@.len() == i,
                forall|j: int| 0 <= j < i ==> #[trigger] order@[j] < i,
                p <= i,
                forall|q: int| p <= q < i ==> !goes_before(input[#[trigger] order@[q] as int], input[i as int], by_size),
            decreases p,
        {
            p = p - 1;
        }
        proof {
            assert forall|q: int| 0 <= q < p implies goes_before(input[#[trigger] order@[q] as int], input[i as int], by_size) by {
                if q < p - 1 {
                    assert(goes_before(input[order@[q] as int], input[order@[p - 1] as int], by_size));
                    lemma_goes_before_trans(input[order@[q] as int], input[order@[p - 1] as int], input[i as int], by_size);
                }
            }
            assert forall|q: int| p <= q < i implies goes_before(input[i as int], input[#[trigger] order@[q] as int], by_size) by {
                lemma_goes_before_total(input[i as int], input[order@[q] as int], by_size);
            }
        }
        let ghost old_order = order@;
        order.insert(p, i);
        proof {
            assert(order@ == old_order.insert(p as int, i));
            assert forall|k: int| 0 <= k < i + 1 implies #[trigger] placed(order@, i + 1, k) by {
                if k < i {
                    assert(placed(old_order, i as int, k));
                    let w = choose|w: int| 0 <= w < i && old_order[w] == k;
                    if w < p {
                        assert(order@[w] == k);
                    } else {
                        assert(order@[w + 1] == k);
                    }
                } else {
                    assert(order@[p as int] == k);
                }
            }
            assert forall|j: int| 0 <= j < i + 1 implies #[trigger] order@[j] < i + 1 by {
                if j < p { assert(order@[j] == old_order[j]); }
                else if j > p { assert(order@[j] == old_order[j - 1]); }
            }
            assert forall|j: int, l: int| 0 <= j < l < i + 1 implies #[trigger] order@[j] != #[trigger] order@[l] && goes_before(
                    input[order@[j] as int],
                    input[order@[l] as int],
                    by_size,
                ) && (goes_before(
                    input[order@[l] as int],
                    input[order@[j] as int],
                    by_size,
                ) ==> order@[j] < order@[l]) by {
                let oj = if j < p { j } else { j - 1 };
                let ol = if l <= p { l } else { l - 1 };
                if j < p { assert(order@[j] == old_order[j]); }
                else if j > p { assert(order@[j] == old_order[j - 1]); }
                if l < p { assert(order@[l] == old_order[l]); }
                else if l > p { assert(order@[l] == old_order[l - 1]); }
                if j != p && l != p {
                    assert(old_order[oj] != old_order[ol]);
                    assert(goes_before(input[old_order[oj] as int], input[old_order[ol] as int], by_size));
                } else if j == p {
                    assert(old_order[ol] < i);
                } else {
                    assert(old_order[oj] < i);
                }
            }
        }
        i = i + 1;
    }
    let mut r: Vec<FileInfo> = Vec::new();
    let mut j: usize = 0;
    let ghost full_order = order@;
    while j < n
        invariant
            n == v.len(),
            order@.len() == n,
            order@ == full_order,
            forall|k: int| 0 <= k < n ==> #[trigger] order@[k] < n,
            j <= n,
            r@.len() == j,
            forall|k: int| 0 <= k < j ==> (#[trigger] r@[k])@ == v@[order@[k] as int]@,
        decreases n - j,
    {
        r.push(v[order[j]].copy());
        j = j + 1;
    }
    proof {
        let perm = order@.map_values(|k: usize| k as int);
        let out = entries_view(r@);
        assert forall|j: int| 0 <= j < out.len() implies 0 <= #[trigger] perm[j] < input.len() && out[j] == input[perm[j]] by {
        }
        assert forall|j: int, l: int| 0 <= j < l < out.len() implies goes_before(#[trigger] out[j], #[trigger] out[l], by_size) by {
            assert(goes_before(input[order@[j] as int], input[order@[l] as int], by_size));
        }
        assert forall|j: int, l: int| 0 <= j < l < out.len() implies #[trigger] perm[j] != #[trigger] perm[l] by {
            assert(order@[j] != order@[l]);
        }
        assert forall|j: int, l: int|
            0 <= j < l < out.len() && goes_before(#[trigger] out[l], #[trigger] out[j], by_size) implies perm[j] < perm[l] by {
            assert(goes_before(input[order@[l] as int], input[order@[j] as int], by_size));
        }
        assert forall|k: int| 0 <= k < input.len() implies #[trigger] hits(perm, k) by {
            assert(placed(order@, n as int, k));
            let w = choose|w: int| 0 <= w < n && order@[w] == k;
            assert(perm[w] == k);
        }
        assert(is_stable_sort(input, out, perm, by_size));
    }
    r
}

proof fn lemma_increasing_bounds(perm: Seq<int>, n: int, j: int)
    requires
        perm.len() == n,
        0 <= j < n,
        forall|i: int| 0 <= i < n ==> 0 <= #[trigger] perm[i] < n,
        forall|i: int, l: int| 0 <= i < l < n ==> #[trigger] perm[i] < #[trigger] perm[l],
    ensures
        perm[j] >= j,
    decreases j,
{
    if j > 0 {
        lemma_increasing_bounds(perm, n, j - 1);
        assert(perm[j - 1] < perm[j]);
    }
}

proof fn lemma_increasing_bounds_above(perm: Seq<int>, n: int, j: int)
    requires
        perm.len() == n,
        0 <= j < n,
        forall|i: int| 0 <= i < n ==> 0 <= #[trigger] perm[i] < n,
        forall|i: int, l: int| 0 <= i < l < n ==> #[trigger] perm[i] < #[trigger] perm[l],
    ensures
        perm[j] <= j,
    decreases n - j,
{
    if j < n - 1 {
        lemma_increasing_bounds_above(perm, n, j + 1);
        assert(perm[j] < perm[j + 1]);
    }
}

proof fn lemma_increasing_is_identity(perm: Seq<int>, n: int)
    requires
        perm.len() == n,
        forall|j: int| 0 <= j < n ==> 0 <= #[trigger] perm[j] < n,
        forall|j: int, l: int| 0 <= j < l < n ==> #[trigger] perm[j] < #[trigger] perm[l],
    ensures
        forall|j: int| 0 <= j < n ==> #[trigger] perm[j] == j,
{
    assert forall|j: int| 0 <= j < n implies #[trigger] perm[j] == j by {
        lemma_increasing_bounds(perm, n, j);
        lemma_increasing_bounds_above(perm, n, j);
    }
}

/// Sorting a list that a sort produced, in the same order, changes
/// nothing.
pub proof fn lemma_sort_of_sorted_is_same(
    input: Seq<FileInfoView>,
    sorted: Seq<FileInfoView>,
    out: Seq<FileInfoView>,
    by_size: bool,
)
    requires
        sorted_from(input, sorted, by_size),
        sorted_from(sorted, out, by_size),
    ensures
        out == sorted,
{
    let p0 = choose|perm: Seq<int>| is_stable_sort(input, sorted, perm, by_size);
    let perm = choose|perm: Seq<int>| is_stable_sort(sorted, out, perm, by_size);
    let n = out.len() as int;
    assert forall|j: int, l: int| 0 <= j < l < n implies #[trigger] perm[j] < #[trigger] perm[l] by {
        if !goes_before(out[l], out[j], by_size) {
            if perm[l] < perm[j] {
                assert(goes_before(sorted[perm[l]], sorted[perm[j]], by_size));
            }
            assert(perm[j] != perm[l]);
        }
    }
    lemma_increasing_is_identity(perm, n);
    assert forall|j: int| 0 <= j < n implies out[j] == sorted[j] by {
        assert(perm[j] == j);
    }
    assert(out =~= sorted);
}

} // verus!
