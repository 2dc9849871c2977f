//! A bump allocator over one contiguous address range.
//!
//! The allocator hands out addresses from `[next, end)`, moving `next`
//! forward past every block it grants.  It never reuses memory: releasing a
//! block does nothing.
use vstd::arithmetic::power2::is_pow2;
use vstd::prelude::*;

verus! {

/// The first address at or above `addr` that is a multiple of `align`.
pub open spec fn align_up(addr: int, align: int) -> int {
    if addr % align == 0 {
        addr
    } else {
        addr + (align - addr % align)
    }
}

/// Whether a block of `size` bytes aligned to `align` can be carved out of
/// the range `[next, end)`.
pub open spec fn fits(next: int, end: int, size: int, align: int) -> bool {
    align_up(next, align) + size <= end
}

/// `align_up` gives the least multiple of `align` that is not below `addr`.
pub proof fn lemma_align_up(addr: int, align: int)
    requires
        0 <= addr,
        0 < align,
    ensures
        align_up(addr, align) % align == 0,
        addr <= align_up(addr, align) < addr + align,
        forall|a: int| #![trigger a % align] addr <= a && a % align == 0 ==> align_up(addr, align) <= a,
{
    let r = addr % align;
    assert(0 <= r < align);
    assert(addr == (addr / align) * align + r) by (nonlinear_arith)
        requires
            0 < align,
            r == addr % align,
    ;
    if r != 0 {
        let q = addr / align;
        assert(align_up(addr, align) == (q + 1) * align) by (nonlinear_arith)
            requires
                addr == q * align + r,
                align_up(addr, align) == addr + (align - r),
        ;
        assert(((q + 1) * align) % align == 0) by (nonlinear_arith)
            requires
                0 < align,
        ;
        assert forall|a: int| #![trigger a % align] addr <= a && a % align == 0 implies align_up(
            addr,
            align,
        ) <= a by {
            let k = a / align;
            assert(a == k * align) by (nonlinear_arith)
                requires
                    0 < align,
                    a % align == 0,
                    k == a / align,
            ;
            assert(q * align < k * align) by (nonlinear_arith)
                requires
                    addr == q * align + r,
                    0 < r,
                    addr <= a,
                    a == k * align,
            ;
            assert(q < k) by (nonlinear_arith)
                requires
                    q * align < k * align,
                    0 < align,
            ;
            assert((q + 1) * align <= k * align) by (nonlinear_arith)
                requires
                    q + 1 <= k,
                    0 < align,
            ;
        }
    }
}

/// Two blocks granted one after the other never overlap: the second starts
/// at or after the end of the first, and both lie inside the range.
pub proof fn lemma_successive_blocks_disjoint(
    next: int,
    end: int,
    size1: int,
    align1: int,
    size2: int,
    align2: int,
)
    requires
        0 <= next,
        0 <= size1,
        0 <= size2,
        0 < align1,
        0 < align2,
        fits(next, end, size1, align1),
        fits(align_up(next, align1) + size1, end, size2, align2),
    ensures
        next <= align_up(next, align1),
        align_up(next, align1) + size1 <= align_up(align_up(next, align1) + size1, align2),
        align_up(align_up(next, align1) + size1, align2) + size2 <= end,
{
    lemma_align_up(next, align1);
    lemma_align_up(align_up(next, align1) + size1, align2);
}

/// Byte-sized, byte-aligned blocks are granted back to back: each one starts
/// at the next free address, and one fits exactly while that address is below
/// the end of the range.
pub proof fn lemma_unit_blocks(next: int, end: int)
    ensures
        align_up(next, 1) == next,
        fits(next, end, 1, 1) <==> next < end,
{
}

/// The next free address after the requests `reqs`, each a (size,
/// alignment) pair, are granted in turn starting from the free address
/// `next`.
pub open spec fn bump_after(next: int, reqs: Seq<(int, int)>) -> int
    decreases reqs.len(),
{
    if reqs.len() == 0 {
        next
    } else {
        align_up(bump_after(next, reqs.drop_last()), reqs.last().1) + reqs.last().0
    }
}

/// The address granted to request `i` of `reqs`, starting from `next`.
pub open spec fn grant_at(next: int, reqs: Seq<(int, int)>, i: int) -> int {
    align_up(bump_after(next, reqs.take(i)), reqs[i].1)
}

/// Every request has a size of zero or more and a positive alignment.
pub open spec fn valid_requests(reqs: Seq<(int, int)>) -> bool {
    forall|i: int| 0 <= i < reqs.len() ==> 0 <= #[trigger] reqs[i].0 && 0 < reqs[i].1
}

/// Every request of `reqs` fits in `[.., end)` when its turn comes.
pub open spec fn all_fit(next: int, end: int, reqs: Seq<(int, int)>) -> bool {
    forall|i: int|
        #![trigger reqs[i]]
        0 <= i < reqs.len() ==> fits(bump_after(next, reqs.take(i)), end, reqs[i].0, reqs[i].1)
}

/// Granting request `k` moves the next free address to the end of its block.
proof fn lemma_bump_step(next: int, reqs: Seq<(int, int)>, k: int)
    requires
        0 <= k < reqs.len(),
    ensures
        bump_after(next, reqs.take(k + 1)) == grant_at(next, reqs, k) + reqs[k].0,
{
    let t = reqs.take(k + 1);
    assert(t.drop_last() =~= reqs.take(k));
    assert(t.last() == reqs[k]);
}

/// The next free address never moves backwards.
proof fn lemma_bump_monotone(next: int, reqs: Seq<(int, int)>, i: int, j: int)
    requires
        0 <= next,
        valid_requests(reqs),
        0 <= i <= j <= reqs.len(),
    ensures
        next <= bump_after(next, reqs.take(i)) <= bump_after(next, reqs.take(j)),
    decreases j,
{
    if j == 0 {
        assert(reqs.take(0) =~= Seq::<(int, int)>::empty());
    } else {
        lemma_bump_monotone(next, reqs, 0, j - 1);
        if i < j {
            lemma_bump_monotone(next, reqs, i, j - 1);
        }
        lemma_bump_step(next, reqs, j - 1);
        let r = reqs[j - 1];
        lemma_align_up(bump_after(next, reqs.take(j - 1)), r.1);
    }
}

/// Any sequence of requests granted one after the other gets blocks that are
/// aligned, lie inside the range, come in increasing address order and never
/// overlap; each block starts where `alloc_block` puts it from the state the
/// earlier requests left, and the next free address ends inside the range.
pub proof fn lemma_grants_disjoint(next: int, end: int, reqs: Seq<(int, int)>)
    requires
        0 <= next <= end,
        valid_requests(reqs),
        all_fit(next, end, reqs),
    ensures
        forall|i: int|
            0 <= i < reqs.len() ==> {
                &&& next <= #[trigger] grant_at(next, reqs, i)
                &&& grant_at(next, reqs, i) + reqs[i].0 <= end
                &&& grant_at(next, reqs, i) % reqs[i].1 == 0
                &&& bump_after(next, reqs.take(i + 1)) == grant_at(next, reqs, i) + reqs[i].0
            },
        forall|i: int, j: int|
            0 <= i < j < reqs.len() ==> #[trigger] grant_at(next, reqs, i) + reqs[i].0 <= #[trigger] grant_at(
                next,
                reqs,
                j,
            ),
        next <= bump_after(next, reqs) <= end,
{
    assert forall|i: int| 0 <= i < reqs.len() implies {
        &&& next <= #[trigger] grant_at(next, reqs, i)
        &&& grant_at(next, reqs, i) + reqs[i].0 <= end
        &&& grant_at(next, reqs, i) % reqs[i].1 == 0
        &&& bump_after(next, reqs.take(i + 1)) == grant_at(next, reqs, i) + reqs[i].0
    } by {
        lemma_bump_monotone(next, reqs, 0, i);
        lemma_bump_step(next, reqs, i);
        let r = reqs[i];
        lemma_align_up(bump_after(next, reqs.take(i)), r.1);
    }
    assert forall|i: int, j: int| 0 <= i < j < reqs.len() implies #[trigger] grant_at(next, reqs, i)
        + reqs[i].0 <= #[trigger] grant_at(next, reqs, j) by {
        lemma_bump_step(next, reqs, i);
        lemma_bump_monotone(next, reqs, i + 1, j);
        lemma_bump_monotone(next, reqs, 0, j);
        let r = reqs[j];
        lemma_align_up(bump_after(next, reqs.take(j)), r.1);
    }
    assert(reqs.take(reqs.len() as int) =~= reqs);
    lemma_bump_monotone(next, reqs, 0, reqs.len() as int);
    if reqs.len() > 0 {
        let k = reqs.len() - 1;
        lemma_bump_step(next, reqs, k);
        let r = reqs[k];
        assert(fits(bump_after(next, reqs.take(k)), end, r.0, r.1));
    }
}

/// A bump allocator that grants blocks from the address range `[cur, end)`.
#[derive(Clone, Copy)]
pub struct InnerAlloc {
    cur: usize,
    end: usize,
}

impl InnerAlloc {
    #[verifier::type_invariant]
    spec fn inv(self) -> bool {
        self.cur <= self.end
    }

    /// The next free address.
    pub closed spec fn next(&self) -> int {
        self.cur as int
    }

    /// One past the last address of the range.
    pub closed spec fn end(&self) -> int {
        self.end as int
    }

    /// The allocator after it grants a block of `size` bytes aligned to
    /// `align`: its next free address moves to the end of the block.
    pub closed spec fn bumped(self, size: int, align: int) -> InnerAlloc {
        InnerAlloc { cur: (align_up(self.cur as int, align) + size) as usize, end: self.end }
    }

    /// Where `bumped` puts the next free address, when the block fits.
    pub proof fn lemma_bumped(self, size: int, align: int)
        requires
            0 <= self.next(),
            0 <= size,
            0 < align,
            fits(self.next(), self.end(), size, align),
        ensures
            self.bumped(size, align).next() == align_up(self.next(), align) + size,
            self.bumped(size, align).end() == self.end(),
    {
        lemma_align_up(self.next(), align);
    }

    /// An allocator over the `size` bytes that start at address `from`.
    pub fn new(from: usize, size: usize) -> (a: Self)
        requires
            from + size <= usize::MAX,
        ensures
            a.next() == from,
            a.end() == from + size,
    {
        InnerAlloc { cur: from, end: from + size }
    }

    /// An allocator over the memory of `buf`.
    pub fn new_with_buf(buf: &mut [u8]) -> (a: Self)
        ensures
            0 < a.next(),
            a.end() - a.next() == old(buf)@.len(),
            final(buf)@ == old(buf)@,
    {
        let ptr = slice_addr(buf);
        InnerAlloc { cur: ptr, end: ptr + buf.len() }
    }

    /// Grants a block of `size` bytes aligned to `align`: the least address at
    /// or above the next free one that is a multiple of `align`.  The next free
    /// address moves to the end of the block.
    pub fn alloc_block(&mut self, size: usize, align: usize) -> (addr: usize)
        requires
            is_pow2(align as int),
            fits(old(self).next(), old(self).end(), size as int, align as int),
        ensures
            addr == align_up(old(self).next(), align as int),
            final(self).next() == addr + size,
            final(self).end() == old(self).end(),
            *final(self) == old(self).bumped(size as int, align as int),
    {
        proof {
            use_type_invariant(&*self);
            reveal(is_pow2);
        }
        let cur = self.cur;
        let rem = cur % align;
        let next = if rem == 0 { cur } else { cur + (align - rem) };
        self.cur = next + size;
        next
    }

    /// Grants a block as `alloc_block` does when it fits in what is left of the
    /// range; otherwise grants nothing and leaves the allocator unchanged.
    pub fn try_alloc_block(&mut self, size: usize, align: usize) -> (r: Option<usize>)
        requires
            is_pow2(align as int),
        ensures
            r is Some <==> fits(old(self).next(), old(self).end(), size as int, align as int),
            r matches Some(addr) ==> addr == align_up(old(self).next(), align as int)
                && final(self).next() == addr + size,
            r is None ==> final(self).next() == old(self).next(),
            final(self).end() == old(self).end(),
            r is Some ==> *final(self) == old(self).bumped(size as int, align as int),
            r is None ==> *final(self) == *old(self),
    {
        proof {
            use_type_invariant(&*self);
            reveal(is_pow2);
        }
        let cur = self.cur;
        let rem = cur % align;
        let next = if rem == 0 {
            Some(cur)
        } else {
            cur.checked_add(align - rem)
        };
        match next {
            None => None,
            Some(next) => match next.checked_add(size) {
                None => None,
                Some(stop) => {
                    if stop <= self.end {
                        Some(self.alloc_block(size, align))
                    } else {
                        None
                    }
                },
            },
        }
    }

    /// The next free address and the end of the range always satisfy `next <= end`.
    pub fn bounds(&self) -> (r: (usize, usize))
        ensures
            r.0 == self.next(),
            r.1 == self.end(),
            self.next() <= self.end(),
    {
        proof {
            use_type_invariant(self);
        }
        (self.cur, self.end)
    }
}

/// The address of the first byte of `buf`, read with `<[u8]>::as_ptr` and the
/// pointer's `addr`.  Where the buffer lives is up to the machine, so the
/// address itself is left open; what holds of every outcome is that a slice's
/// pointer is never null (references are non-null, and an empty slice points
/// at a dangling non-null address), and that a slice never wraps around the
/// address space (the `std::ptr` documentation on allocations: base plus size
/// never exceeds `usize::MAX`).
#[verifier::external_body]
fn slice_addr(buf: &[u8]) -> (addr: usize)
    ensures
        0 < addr,
        addr + buf@.len() <= usize::MAX,
{
    buf.as_ptr().addr()
}

} // verus!
