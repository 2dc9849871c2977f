//! Allocation inside fixed memory slots: a bump allocator, the switch that
//! decides which allocator serves the current thread, and the bookkeeping of
//! a store of equally sized shared-memory slots.
use vstd::prelude::*;

pub mod inner_alloc;
pub mod store;
pub mod switch;

use crate::switch::{set_inner, take_inner, Alloc};

verus! {

/// Runs `f` with the system allocator in charge, then puts back the bump
/// allocator that was installed before, if there was one.
///
/// `f` receives the allocator slot (which then holds the system allocator)
/// and gives back the slot as it leaves it.  When no bump allocator was
/// installed beforehand, the slot keeps what `f` left in it.
pub fn in_global<R, F: FnOnce(Alloc) -> (R, Alloc)>(current: &mut Alloc, f: F) -> (r: R)
    requires
        f.requires((Alloc::System,)),
    ensures
        exists|left: Alloc|
            {
                &&& #[trigger] f.ensures((Alloc::System,), (r, left))
                &&& *final(current) == match old(current).installed() {
                    Some(inner) => Alloc::Inner(inner),
                    None => left,
                }
            },
{
    let cur = take_inner(current);
    let (r, left) = f(Alloc::System);
    *current = left;
    if let Some(inner) = cur {
        set_inner(current, inner);
    }
    r
}

} // verus!
