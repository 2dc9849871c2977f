//! The allocator that serves a thread: the system allocator, or a bump
//! allocator installed over a memory slot.
//!
//! The slot that records the choice is owned by the caller (a thread-local
//! cell in a program); every decision about it is made here.
use crate::inner_alloc::{
    align_up, all_fit, bump_after, fits, lemma_grants_disjoint, valid_requests, InnerAlloc,
};
use vstd::arithmetic::power2::is_pow2;
use vstd::prelude::*;

verus! {

/// Which allocator serves requests.
pub enum Alloc {
    System,
    Inner(InnerAlloc),
}

/// What became of an allocation request.
pub enum Grant {
    /// The system allocator serves the request.
    System,
    /// The installed bump allocator granted a block at this address.
    Block(usize),
    /// The installed bump allocator has no room left for the request.
    Exhausted,
}

impl Alloc {
    /// The installed bump allocator, if there is one.
    pub open spec fn installed(self) -> Option<InnerAlloc> {
        match self {
            Alloc::System => None,
            Alloc::Inner(inner) => Some(inner),
        }
    }

    /// The slot after it routes a request for `size` bytes aligned to
    /// `align`: an installed bump allocator that has room grants the block.
    pub open spec fn serve(self, size: int, align: int) -> Alloc {
        match self {
            Alloc::System => Alloc::System,
            Alloc::Inner(inner) => if fits(inner.next(), inner.end(), size, align) {
                Alloc::Inner(inner.bumped(size, align))
            } else {
                Alloc::Inner(inner)
            },
        }
    }

    /// The slot after it routes the requests `reqs`, (size, alignment)
    /// pairs, in turn.
    pub open spec fn serve_all(self, reqs: Seq<(int, int)>) -> Alloc
        decreases reqs.len(),
    {
        if reqs.len() == 0 {
            self
        } else {
            self.serve_all(reqs.drop_last()).serve(reqs.last().0, reqs.last().1)
        }
    }

    /// Routes a request for `size` bytes aligned to `align`: to the system
    /// allocator, or to the installed bump allocator, which either grants a
    /// block or has no room for it.
    pub fn alloc_block(&mut self, size: usize, align: usize) -> (g: Grant)
        requires
            is_pow2(align as int),
        ensures
            match *old(self) {
                Alloc::System => g is System && *final(self) == Alloc::System,
                Alloc::Inner(inner) => {
                    &&& *final(self) matches Alloc::Inner(after)
                    &&& after.end() == inner.end()
                    &&& if fits(inner.next(), inner.end(), size as int, align as int) {
                        &&& g == Grant::Block(align_up(inner.next(), align as int) as usize)
                        &&& after.next() == align_up(inner.next(), align as int) + size
                    } else {
                        &&& g is Exhausted
                        &&& after.next() == inner.next()
                    }
                },
            },
            *final(self) == old(self).serve(size as int, align as int),
    {
        match self {
            Alloc::System => Grant::System,
            Alloc::Inner(inner) => match inner.try_alloc_block(size, align) {
                Some(addr) => Grant::Block(addr),
                None => Grant::Exhausted,
            },
        }
    }

    /// Whether a block released now goes back to the system allocator; a
    /// bump allocator never takes memory back.
    pub fn dealloc_to_system(&self) -> (r: bool)
        ensures
            r == (*self is System),
    {
        match self {
            Alloc::System => true,
            Alloc::Inner(_) => false,
        }
    }
}

/// Installing `inner`, routing any requests that all fit, then taking the
/// allocator back hands out `inner` advanced past every block it granted,
/// over the same range; with no request in between, `inner` itself.
pub proof fn lemma_take_after_serving(inner: InnerAlloc, reqs: Seq<(int, int)>)
    requires
        0 <= inner.next() <= inner.end(),
        valid_requests(reqs),
        all_fit(inner.next(), inner.end(), reqs),
    ensures
        Alloc::Inner(inner).serve_all(reqs).installed() matches Some(back) && back.next()
            == bump_after(inner.next(), reqs) && back.end() == inner.end(),
        Alloc::Inner(inner).serve_all(Seq::empty()).installed() == Some(inner),
    decreases reqs.len(),
{
    if reqs.len() > 0 {
        let k = reqs.len() - 1;
        let front = reqs.drop_last();
        assert forall|i: int| 0 <= i < front.len() implies 0 <= #[trigger] front[i].0 && 0
            < front[i].1 by {
            assert(front[i] == reqs[i]);
        }
        assert forall|i: int| #![trigger front[i]] 0 <= i < front.len() implies fits(
            bump_after(inner.next(), front.take(i)),
            inner.end(),
            front[i].0,
            front[i].1,
        ) by {
            assert(front.take(i) =~= reqs.take(i));
            assert(front[i] == reqs[i]);
        }
        lemma_take_after_serving(inner, front);
        lemma_grants_disjoint(inner.next(), inner.end(), front);
        let back = Alloc::Inner(inner).serve_all(front).installed().unwrap();
        assert(reqs.take(k) =~= front);
        let r = reqs[k];
        assert(fits(bump_after(inner.next(), reqs.take(k)), inner.end(), r.0, r.1));
        back.lemma_bumped(r.0, r.1);
    }
}

/// Installs `inner` as the allocator that serves requests.
pub fn set_inner(current: &mut Alloc, inner: InnerAlloc)
    ensures
        *final(current) == Alloc::Inner(inner),
{
    *current = Alloc::Inner(inner);
}

/// Puts the system allocator back in charge and hands out the bump
/// allocator that was installed, if any.
pub fn take_inner(current: &mut Alloc) -> (prev: Option<InnerAlloc>)
    ensures
        *final(current) == Alloc::System,
        prev == old(current).installed(),
{
    let mut prev = Alloc::System;
    std::mem::swap(&mut prev, current);
    match prev {
        Alloc::System => None,
        Alloc::Inner(inner) => Some(inner),
    }
}

/// Installs `inner`, runs `f` with it in charge, then puts the system
/// allocator back in charge and hands out the bump allocator that `f` left
/// installed, if any.
///
/// `f` receives the allocator slot (which then holds `inner`) and gives back
/// the slot as it leaves it.
pub fn run_with_inner<R, F: FnOnce(Alloc) -> (R, Alloc)>(
    current: &mut Alloc,
    inner: InnerAlloc,
    f: F,
) -> (r: (R, Option<InnerAlloc>))
    requires
        f.requires((Alloc::Inner(inner),)),
    ensures
        *final(current) == Alloc::System,
        exists|left: Alloc|
            {
                &&& #[trigger] f.ensures((Alloc::Inner(inner),), (r.0, left))
                &&& r.1 == left.installed()
            },
{
    set_inner(current, inner);
    let mut state = Alloc::System;
    std::mem::swap(&mut state, current);
    let (res, left) = f(state);
    let ghost left_seen = left;
    *current = left;
    let back = take_inner(current);
    let r = (res, back);
    assert(f.ensures((Alloc::Inner(inner),), (r.0, left_seen)));
    r
}

} // verus!
