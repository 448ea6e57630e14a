//! The max-heap of accounts by remainder that deleveraging draws its largest remainders from.
//! It lives in the engine's working storage, as a list of account indices.
use vstd::prelude::*;

use crate::state::RiskEngine;
use crate::types::MAX_ACCOUNTS;
use crate::wide::U128;

verus! {

broadcast use crate::wide::group_wide;

/// Whether account `a` comes before account `b`: by larger remainder, then by lower index.
pub open spec fn better(rem: Seq<U128>, a: u16, b: u16) -> bool {
    rem[a as int]@ > rem[b as int]@ || (rem[a as int]@ == rem[b as int]@ && a < b)
}

pub open spec fn parent(c: int) -> int {
    (c - 1) / 2
}

/// Whether the entry at `c` does not come before its parent.
pub open spec fn in_order(rem: Seq<U128>, idx: Seq<u16>, c: int) -> bool {
    !better(rem, idx[c], idx[parent(c)])
}

/// Whether the heap order holds below all positions from `lo` on.
pub open spec fn heap_from(rem: Seq<U128>, idx: Seq<u16>, size: int, lo: int) -> bool {
    forall|c: int| 0 < c < size && parent(c) >= lo ==> #[trigger] in_order(rem, idx, c)
}

/// The accounts in the heap.
pub open spec fn members(idx: Seq<u16>, size: int) -> Set<u16> {
    idx.take(size).to_set()
}

/// Whether the first `size` entries are distinct accounts.
pub open spec fn entries_ok(idx: Seq<u16>, size: int) -> bool {
    &&& 0 <= size <= idx.len()
    &&& forall|k: int| 0 <= k < size ==> #[trigger] idx[k] < MAX_ACCOUNTS
    &&& forall|j: int, k: int| 0 <= j < k < size ==> idx[j] != idx[k]
}

/// Whether two lists hold the same entries, and differ only in the order of the first `size`.
pub open spec fn reordered(a: Seq<u16>, b: Seq<u16>, size: int) -> bool {
    &&& a.len() == b.len()
    &&& members(a, size) == members(b, size)
    &&& forall|k: int| size <= k < a.len() ==> a[k] == b[k]
}

proof fn lemma_members(idx: Seq<u16>, size: int)
    requires
        0 <= size <= idx.len(),
    ensures
        forall|k: int| 0 <= k < size ==> members(idx, size).contains(#[trigger] idx[k]),
        forall|v: u16|
            members(idx, size).contains(v) ==> exists|k: int| 0 <= k < size && idx[k] == v,
{
    let t = idx.take(size);
    assert forall|k: int| 0 <= k < size implies members(idx, size).contains(
        #[trigger] idx[k],
    ) by {
        assert(t[k] == idx[k]);
    }
    assert forall|v: u16| members(idx, size).contains(v) implies exists|k: int|
        0 <= k < size && idx[k] == v by {
        let k = choose|k: int| 0 <= k < t.len() && t[k] == v;
        assert(idx[k] == v);
    }
}

/// Swapping two of the entries reorders them.
proof fn lemma_swap(a: Seq<u16>, b: Seq<u16>, i: int, j: int, size: int)
    requires
        entries_ok(a, size),
        0 <= i < size,
        0 <= j < size,
        b == a.update(i, a[j]).update(j, a[i]),
    ensures
        entries_ok(b, size),
        reordered(a, b, size),
{
    lemma_members(a, size);
    lemma_members(b, size);
    assert forall|v: u16| members(a, size).contains(v) <==> members(b, size).contains(v) by {
        if members(a, size).contains(v) {
            let k = choose|k: int| 0 <= k < size && a[k] == v;
            let l = if k == i {
                j
            } else if k == j {
                i
            } else {
                k
            };
            assert(b[l] == v);
        }
        if members(b, size).contains(v) {
            let k = choose|k: int| 0 <= k < size && b[k] == v;
            let l = if k == i {
                j
            } else if k == j {
                i
            } else {
                k
            };
            assert(a[l] == v);
        }
    }
    assert(members(a, size) =~= members(b, size));
}

/// In a heap no entry comes before the root.
proof fn lemma_root_is_first(rem: Seq<U128>, idx: Seq<u16>, size: int, c: int)
    requires
        heap_from(rem, idx, size, 0),
        0 <= c < size,
    ensures
        !better(rem, idx[c], idx[0]),
    decreases c,
{
    if c > 0 {
        assert(in_order(rem, idx, c));
        lemma_root_is_first(rem, idx, size, parent(c));
    }
}

/// The heap order holds below all positions from `start` on but for `pos`, and the children
/// of `pos` do not come before its parent.
spec fn heap_but_for(rem: Seq<U128>, idx: Seq<u16>, size: int, start: int, pos: int) -> bool {
    &&& forall|c: int|
        0 < c < size && parent(c) >= start && parent(c) != pos ==> #[trigger] in_order(
            rem,
            idx,
            c,
        )
    &&& forall|c: int|
        0 < c < size && parent(c) == pos && pos > start ==> !better(
            rem,
            #[trigger] idx[c],
            idx[parent(pos)],
        )
}

/// Whether `best` is the child of `pos` that comes first.
spec fn first_child(rem: Seq<U128>, idx: Seq<u16>, size: int, pos: int, best: int) -> bool {
    &&& best == 2 * pos + 1 || best == 2 * pos + 2
    &&& best < size
    &&& !better(rem, idx[2 * pos + 1], idx[best])
    &&& 2 * pos + 2 < size ==> !better(rem, idx[2 * pos + 2], idx[best])
}

proof fn lemma_sift_done(
    rem: Seq<U128>,
    idx: Seq<u16>,
    size: int,
    start: int,
    pos: int,
    best: int,
)
    requires
        0 <= start <= pos < size,
        heap_but_for(rem, idx, size, start, pos),
        2 * pos + 1 >= size || (first_child(rem, idx, size, pos, best) && better(
            rem,
            idx[pos],
            idx[best],
        )),
    ensures
        heap_from(rem, idx, size, start),
{
    assert forall|c: int| 0 < c < size && parent(c) >= start implies #[trigger] in_order(
        rem,
        idx,
        c,
    ) by {
        if parent(c) == pos {
            assert(c == 2 * pos + 1 || c == 2 * pos + 2);
        }
    }
}

proof fn lemma_sift_step(
    rem: Seq<U128>,
    a: Seq<u16>,
    b: Seq<u16>,
    size: int,
    start: int,
    pos: int,
    best: int,
)
    requires
        0 <= start <= pos < size <= a.len(),
        heap_but_for(rem, a, size, start, pos),
        first_child(rem, a, size, pos, best),
        !better(rem, a[pos], a[best]),
        b == a.update(pos, a[best]).update(best, a[pos]),
    ensures
        heap_but_for(rem, b, size, start, best),
{
    assert forall|c: int|
        0 < c < size && parent(c) >= start && parent(c) != best implies #[trigger] in_order(
        rem,
        b,
        c,
    ) by {
        if parent(c) == pos {
            assert(c == 2 * pos + 1 || c == 2 * pos + 2);
        } else if c == pos {
            assert(!better(rem, a[best], a[parent(pos)]));
        } else {
            assert(c != best);
            assert(in_order(rem, a, c));
        }
    }
    assert forall|c: int| 0 < c < size && parent(c) == best implies !better(
        rem,
        #[trigger] b[c],
        b[parent(best)],
    ) by {
        assert(in_order(rem, a, c));
    }
}

/// Whether account `a` comes before account `b`.
fn comes_first(rem: &Vec<U128>, a: u16, b: u16) -> (r: bool)
    requires
        a < rem@.len(),
        b < rem@.len(),
    ensures
        r == better(rem@, a, b),
{
    let ra: u128 = rem[a as usize].get();
    let rb: u128 = rem[b as usize].get();
    ra > rb || (ra == rb && a < b)
}

/// Moves the entry at `start` down until the heap order holds from there on.
fn sift_down(rem: &Vec<U128>, idx: &mut Vec<u16>, size: usize, start: usize)
    requires
        rem@.len() == MAX_ACCOUNTS,
        old(idx)@.len() == MAX_ACCOUNTS,
        entries_ok(old(idx)@, size as int),
        start < size,
        heap_from(rem@, old(idx)@, size as int, start + 1),
    ensures
        entries_ok(final(idx)@, size as int),
        reordered(old(idx)@, final(idx)@, size as int),
        heap_from(rem@, final(idx)@, size as int, start as int),
{
    let mut pos: usize = start;
    loop
        invariant_except_break
            heap_but_for(rem@, idx@, size as int, start as int, pos as int),
        invariant
            start <= pos < size,
            rem@.len() == MAX_ACCOUNTS,
            idx@.len() == MAX_ACCOUNTS,
            entries_ok(idx@, size as int),
            reordered(old(idx)@, idx@, size as int),
        ensures
            heap_from(rem@, idx@, size as int, start as int),
        decreases size - pos,
    {
        let left: usize = 2 * pos + 1;
        if left >= size {
            proof {
                lemma_sift_done(rem@, idx@, size as int, start as int, pos as int, 0);
            }
            break;
        }
        let right: usize = left + 1;
        let mut best: usize = left;
        if right < size && comes_first(rem, idx[right], idx[left]) {
            best = right;
        }
        assert(first_child(rem@, idx@, size as int, pos as int, best as int));
        if comes_first(rem, idx[pos], idx[best]) {
            proof {
                lemma_sift_done(rem@, idx@, size as int, start as int, pos as int, best as int);
            }
            break;
        }
        let ghost before = idx@;
        let at_pos: u16 = idx[pos];
        let at_best: u16 = idx[best];
        idx[pos] = at_best;
        idx[best] = at_pos;
        proof {
            lemma_swap(before, idx@, pos as int, best as int, size as int);
            lemma_sift_step(
                rem@,
                before,
                idx@,
                size as int,
                start as int,
                pos as int,
                best as int,
            );
        }
        pos = best;
    }
}

/// Takes the root out of a heap of `size` entries.
fn pop_root(rem: &Vec<U128>, idx: &mut Vec<u16>, size: usize) -> (r: u16)
    requires
        rem@.len() == MAX_ACCOUNTS,
        old(idx)@.len() == MAX_ACCOUNTS,
        size > 0,
        entries_ok(old(idx)@, size as int),
        heap_from(rem@, old(idx)@, size as int, 0),
    ensures
        final(idx)@.len() == MAX_ACCOUNTS,
        entries_ok(final(idx)@, size - 1),
        heap_from(rem@, final(idx)@, size - 1, 0),
        members(old(idx)@, size as int).contains(r),
        members(final(idx)@, size - 1) == members(old(idx)@, size as int).remove(r),
        first_of(rem@, r, members(final(idx)@, size - 1)),
{
    let ghost before = idx@;
    let best: u16 = idx[0];
    let rest: usize = size - 1;
    if rest > 0 {
        let last: u16 = idx[rest];
        idx[0] = last;
        proof {
            let moved = idx@;
            assert forall|c: int| 0 < c < rest && parent(c) >= 1 implies #[trigger] in_order(
                rem@,
                moved,
                c,
            ) by {
                assert(in_order(rem@, before, c));
            }
            lemma_moved(before, moved, size as int);
        }
        sift_down(rem, idx, rest, 0);
    } else {
        proof {
            lemma_single(before);
        }
    }
    proof {
        lemma_members(before, size as int);
        assert forall|v: u16| members(before, size as int).remove(best).contains(v) implies better(
            rem@,
            best,
            v,
        ) by {
            let k = choose|k: int| 0 <= k < size && before[k] == v;
            lemma_root_is_first(rem@, before, size as int, k);
        }
    }
    best
}

/// Whether account `a` comes before all of `others`.
pub open spec fn first_of(rem: Seq<U128>, a: u16, others: Set<u16>) -> bool {
    forall|v: u16| #[trigger] others.contains(v) ==> better(rem, a, v)
}

impl RiskEngine {
    /// Whether account `a` comes before account `b`.
    pub fn adl_heap_better(&self, a: u16, b: u16) -> (r: bool)
        requires
            self.wf(),
            a < MAX_ACCOUNTS,
            b < MAX_ACCOUNTS,
        ensures
            r == better(self.adl_remainder_scratch@, a, b),
    {
        comes_first(&self.adl_remainder_scratch, a, b)
    }

    /// Moves the entry at `pos` down until the heap order holds from there on.
    pub fn adl_sift_down(&mut self, heap_size: usize, pos: usize)
        requires
            old(self).wf(),
            entries_ok(old(self).adl_idx_scratch@, heap_size as int),
            pos < heap_size,
            heap_from(
                old(self).adl_remainder_scratch@,
                old(self).adl_idx_scratch@,
                heap_size as int,
                pos + 1,
            ),
        ensures
            final(self)@ == old(self)@,
            final(self).wf(),
            final(self).adl_remainder_scratch@ == old(self).adl_remainder_scratch@,
            entries_ok(final(self).adl_idx_scratch@, heap_size as int),
            reordered(old(self).adl_idx_scratch@, final(self).adl_idx_scratch@, heap_size as int),
            heap_from(
                final(self).adl_remainder_scratch@,
                final(self).adl_idx_scratch@,
                heap_size as int,
                pos as int,
            ),
    {
        sift_down(&self.adl_remainder_scratch, &mut self.adl_idx_scratch, heap_size, pos);
    }

    /// Puts the first `heap_size` entries in heap order.
    pub fn adl_build_heap(&mut self, heap_size: usize)
        requires
            old(self).wf(),
            entries_ok(old(self).adl_idx_scratch@, heap_size as int),
        ensures
            final(self)@ == old(self)@,
            final(self).wf(),
            final(self).adl_remainder_scratch@ == old(self).adl_remainder_scratch@,
            entries_ok(final(self).adl_idx_scratch@, heap_size as int),
            reordered(old(self).adl_idx_scratch@, final(self).adl_idx_scratch@, heap_size as int),
            heap_from(
                final(self).adl_remainder_scratch@,
                final(self).adl_idx_scratch@,
                heap_size as int,
                0,
            ),
    {
        if heap_size < 2 {
            return;
        }
        let mut i: usize = (heap_size - 2) / 2 + 1;
        while i > 0
            invariant
                i <= (heap_size - 2) / 2 + 1,
                heap_size >= 2,
                self.wf(),
                self@ == old(self)@,
                self.adl_remainder_scratch@ == old(self).adl_remainder_scratch@,
                entries_ok(self.adl_idx_scratch@, heap_size as int),
                reordered(old(self).adl_idx_scratch@, self.adl_idx_scratch@, heap_size as int),
                heap_from(
                    self.adl_remainder_scratch@,
                    self.adl_idx_scratch@,
                    heap_size as int,
                    i as int,
                ),
            decreases i,
        {
            i -= 1;
            self.adl_sift_down(heap_size, i);
        }
    }

    /// Takes the first account out of the heap: it comes before all that remain.
    pub fn adl_pop_max(&mut self, heap_size: &mut usize) -> (r: u16)
        requires
            old(self).wf(),
            *old(heap_size) > 0,
            entries_ok(old(self).adl_idx_scratch@, *old(heap_size) as int),
            heap_from(
                old(self).adl_remainder_scratch@,
                old(self).adl_idx_scratch@,
                *old(heap_size) as int,
                0,
            ),
        ensures
            *final(heap_size) == *old(heap_size) - 1,
            final(self)@ == old(self)@,
            final(self).wf(),
            final(self).adl_remainder_scratch@ == old(self).adl_remainder_scratch@,
            entries_ok(final(self).adl_idx_scratch@, *final(heap_size) as int),
            heap_from(
                final(self).adl_remainder_scratch@,
                final(self).adl_idx_scratch@,
                *final(heap_size) as int,
                0,
            ),
            members(old(self).adl_idx_scratch@, *old(heap_size) as int).contains(r),
            members(final(self).adl_idx_scratch@, *final(heap_size) as int) == members(
                old(self).adl_idx_scratch@,
                *old(heap_size) as int,
            ).remove(r),
            first_of(
                old(self).adl_remainder_scratch@,
                r,
                members(final(self).adl_idx_scratch@, *final(heap_size) as int),
            ),
    {
        let best: u16 = pop_root(
            &self.adl_remainder_scratch,
            &mut self.adl_idx_scratch,
            *heap_size,
        );
        *heap_size = *heap_size - 1;
        best
    }
}

/// With the last entry moved to the front, the old front entry is gone.
proof fn lemma_moved(before: Seq<u16>, moved: Seq<u16>, n: int)
    requires
        n >= 2,
        entries_ok(before, n),
        moved == before.update(0, before[n - 1]),
    ensures
        entries_ok(moved, n - 1),
        members(moved, n - 1) == members(before, n).remove(before[0]),
{
    lemma_members(before, n);
    lemma_members(moved, n - 1);
    assert forall|v: u16|
        members(moved, n - 1).contains(v) <==> members(before, n).remove(before[0]).contains(v) by {
        if members(moved, n - 1).contains(v) {
            let k = choose|k: int| 0 <= k < n - 1 && moved[k] == v;
            let l = if k == 0 {
                n - 1
            } else {
                k
            };
            assert(before[l] == v);
        }
        if members(before, n).remove(before[0]).contains(v) {
            let k = choose|k: int| 0 <= k < n && before[k] == v;
            let l = if k == n - 1 {
                0
            } else {
                k
            };
            assert(moved[l] == v);
        }
    }
    assert(members(moved, n - 1) =~= members(before, n).remove(before[0]));
}

proof fn lemma_single(before: Seq<u16>)
    requires
        entries_ok(before, 1),
    ensures
        members(before, 0) == members(before, 1).remove(before[0]),
{
    lemma_members(before, 1);
    lemma_members(before, 0);
    assert(members(before, 0) =~= members(before, 1).remove(before[0]));
}

} // verus!
