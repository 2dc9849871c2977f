//! The bookkeeping of a store of equally sized memory slots that live in one
//! shared-memory object mapped at a base address.
//!
//! Slot `i` covers the bytes `[i * slot_size, (i + 1) * slot_size)` of the
//! object.  Free slots are kept on a stack: the most recently freed slot is
//! the next one handed out.
use crate::inner_alloc::{align_up, lemma_align_up};
use rand::distr::Alphanumeric;
use rand::rngs::StdRng;
use rand::{Rng, SeedableRng};
use vstd::prelude::*;

verus! {

/// The number of characters in the name of a store's shared-memory object.
pub const NAME_LEN: usize = 30;

/// An ASCII letter or digit.
pub open spec fn is_alphanumeric(c: char) -> bool {
    ||| ('a' <= c && c <= 'z')
    ||| ('A' <= c && c <= 'Z')
    ||| ('0' <= c && c <= '9')
}

/// A valid name for a store's shared-memory object.
pub open spec fn is_store_name(name: Seq<char>) -> bool {
    &&& name.len() == NAME_LEN
    &&& forall|i: int| 0 <= i < name.len() ==> is_alphanumeric(#[trigger] name[i])
}

/// A string of `len` characters drawn at random from the ASCII letters and
/// digits: a `StdRng` seeded by `SeedableRng::try_from_os_rng`, sampled
/// through `Rng::sample_iter` with the `Alphanumeric` distribution.  Seeding
/// fails, and nothing is drawn, when the operating system has no randomness to
/// give; a seeded `StdRng` never reseeds, so sampling cannot fail.  The
/// characters depend on chance and are left open; their number and alphabet
/// are not.
#[verifier::external_body]
fn random_alphanumeric(len: usize) -> (s: Option<String>)
    ensures
        s matches Some(s) ==> s@.len() == len && forall|i: int|
            0 <= i < len ==> is_alphanumeric(#[trigger] s@[i]),
{
    match StdRng::try_from_os_rng() {
        Err(_) => None,
        Ok(rng) => Some(rng.sample_iter(&Alphanumeric).take(len).map(char::from).collect()),
    }
}

/// A fresh random name for a store's shared-memory object, or nothing when
/// no randomness is available.
pub fn fresh_store_name() -> (name: Option<String>)
    ensures
        name matches Some(n) ==> is_store_name(n@),
{
    random_alphanumeric(NAME_LEN)
}

/// Whether a store of `slots` slots of at least `slot_size` bytes each,
/// rounded up to whole pages of `page_size` bytes, has a size that fits in
/// `usize`.
pub open spec fn geometry_fits(slot_size: int, slots: int, page_size: int) -> bool {
    &&& page_size > 0
    &&& align_up(slot_size, page_size) <= usize::MAX
    &&& slots * align_up(slot_size, page_size) <= usize::MAX
}

/// What a store needs before its shared-memory object is created.
pub struct StorePlan {
    /// The size of one slot, a whole number of pages.
    pub slot_size: usize,
    /// The number of slots.
    pub slots: usize,
    /// The size of the shared-memory object: `slots * slot_size`.
    pub total_mem: usize,
    /// The name of the shared-memory object.
    pub file_name: String,
}

/// Why a store could not be laid out.
pub enum PlanError {
    /// The page size is zero, or the store's size does not fit in `usize`.
    TooLarge,
    /// No random name could be drawn for the shared-memory object.
    NoRandomness,
}

impl StorePlan {
    /// Lays out a store of `slots` slots of at least `slot_size` bytes, each
    /// rounded up to the next multiple of `page_size`, whose shared-memory
    /// object is called `file_name`.
    pub fn with_name(slot_size: usize, slots: usize, page_size: usize, file_name: String) -> (p:
        Self)
        requires
            geometry_fits(slot_size as int, slots as int, page_size as int),
        ensures
            p.slot_size == align_up(slot_size as int, page_size as int),
            p.slots == slots,
            p.total_mem == slots * p.slot_size,
            p.file_name@ == file_name@,
    {
        let rem = slot_size % page_size;
        let rounded = if rem == 0 {
            slot_size
        } else {
            slot_size + (page_size - rem)
        };
        let total_mem = slots * rounded;
        StorePlan { slot_size: rounded, slots, total_mem, file_name }
    }

    /// Whether a store of `slots` slots of at least `slot_size` bytes,
    /// rounded up to whole pages of `page_size` bytes, can be laid out: the
    /// page size is not zero and the store's size fits in `usize`.
    pub fn layout_fits(slot_size: usize, slots: usize, page_size: usize) -> (r: bool)
        ensures
            r == geometry_fits(slot_size as int, slots as int, page_size as int),
    {
        if page_size == 0 {
            return false;
        }
        let rem = slot_size % page_size;
        let rounded = if rem == 0 {
            Some(slot_size)
        } else {
            slot_size.checked_add(page_size - rem)
        };
        match rounded {
            None => false,
            Some(rounded) => slots.checked_mul(rounded).is_some(),
        }
    }

    /// Lays out a store under the name `drawn`, the outcome of drawing a
    /// name: a plan exactly when a name was drawn, carrying that very name.
    pub fn from_draw(slot_size: usize, slots: usize, page_size: usize, drawn: Option<String>) -> (p:
        Option<Self>)
        requires
            geometry_fits(slot_size as int, slots as int, page_size as int),
        ensures
            p is Some <==> drawn is Some,
            p matches Some(p) ==> {
                &&& p.slot_size == align_up(slot_size as int, page_size as int)
                &&& p.slots == slots
                &&& p.total_mem == slots * p.slot_size
                &&& p.file_name@ == drawn->0@
            },
    {
        match drawn {
            None => None,
            Some(name) => Some(StorePlan::with_name(slot_size, slots, page_size, name)),
        }
    }

    /// Lays out a store under the name `drawn`: `TooLarge` exactly when the
    /// layout does not fit, `NoRandomness` exactly when it fits but no name
    /// was drawn, and otherwise the plan, carrying the drawn name.
    pub fn try_from_draw(
        slot_size: usize,
        slots: usize,
        page_size: usize,
        drawn: Option<String>,
    ) -> (p: Result<Self, PlanError>)
        ensures
            p matches Err(PlanError::TooLarge) <==> !geometry_fits(
                slot_size as int,
                slots as int,
                page_size as int,
            ),
            p matches Err(PlanError::NoRandomness) <==> geometry_fits(
                slot_size as int,
                slots as int,
                page_size as int,
            ) && drawn is None,
            p is Ok <==> geometry_fits(slot_size as int, slots as int, page_size as int)
                && drawn is Some,
            p matches Ok(p) ==> {
                &&& p.slot_size == align_up(slot_size as int, page_size as int)
                &&& p.slots == slots
                &&& p.total_mem == slots * p.slot_size
                &&& p.file_name@ == drawn->0@
            },
    {
        if !StorePlan::layout_fits(slot_size, slots, page_size) {
            return Err(PlanError::TooLarge);
        }
        match StorePlan::from_draw(slot_size, slots, page_size, drawn) {
            None => Err(PlanError::NoRandomness),
            Some(p) => Ok(p),
        }
    }

    /// Lays out a store as `with_name` does, under a fresh random name; lays
    /// out nothing when no name can be drawn.
    pub fn new(slot_size: usize, slots: usize, page_size: usize) -> (p: Option<Self>)
        requires
            geometry_fits(slot_size as int, slots as int, page_size as int),
        ensures
            p matches Some(p) ==> {
                &&& p.slot_size == align_up(slot_size as int, page_size as int)
                &&& p.slots == slots
                &&& p.total_mem == slots * p.slot_size
                &&& is_store_name(p.file_name@)
            },
    {
        StorePlan::from_draw(slot_size, slots, page_size, fresh_store_name())
    }

    /// Lays out a store as `new` does when the page size is not zero and the
    /// store's size fits in `usize`; otherwise reports `TooLarge`.  A name is
    /// drawn only for a layout that fits.
    pub fn try_new(slot_size: usize, slots: usize, page_size: usize) -> (p: Result<Self, PlanError>)
        ensures
            p matches Err(PlanError::TooLarge) <==> !geometry_fits(
                slot_size as int,
                slots as int,
                page_size as int,
            ),
            p matches Ok(p) ==> {
                &&& p.slot_size == align_up(slot_size as int, page_size as int)
                &&& p.slots == slots
                &&& p.total_mem == slots * p.slot_size
                &&& is_store_name(p.file_name@)
            },
    {
        if !StorePlan::layout_fits(slot_size, slots, page_size) {
            return Err(PlanError::TooLarge);
        }
        StorePlan::try_from_draw(slot_size, slots, page_size, fresh_store_name())
    }
}

/// A store's slots are the requested size rounded up to the least whole
/// number of pages: a multiple of the page size, never smaller than asked,
/// less than one page larger, and no larger than any other page multiple
/// that holds the request; the whole store fits in `usize`.
pub proof fn lemma_plan_layout(slot_size: int, slots: int, page_size: int)
    requires
        0 <= slot_size,
        0 <= slots,
        geometry_fits(slot_size, slots, page_size),
    ensures
        align_up(slot_size, page_size) % page_size == 0,
        slot_size <= align_up(slot_size, page_size) < slot_size + page_size,
        forall|m: int|
            #![trigger m % page_size]
            slot_size <= m && m % page_size == 0 ==> align_up(slot_size, page_size) <= m,
        slots * align_up(slot_size, page_size) <= usize::MAX,
{
    lemma_align_up(slot_size, page_size);
}

/// The abstract state of a store.
pub struct StoreView {
    pub slot_size: nat,
    pub slot_count: nat,
    pub base: nat,
    pub free: Seq<usize>,
    pub allocated: Seq<usize>,
    pub shared_mem_fd: i32,
    pub file_name: Seq<char>,
}

impl StoreView {
    /// The offset in the shared-memory object of slot `slot`.
    pub open spec fn offset(self, slot: int) -> int {
        slot * self.slot_size
    }
}

/// The slot bookkeeping of a store whose shared-memory object is mapped at
/// `base`.
pub struct StoreState {
    slot_size: usize,
    slot_count: usize,
    free_slots: Vec<usize>,
    shared_mem_fd: i32,
    base: usize,
    file_name: String,
    allocated: Vec<usize>,
}

impl View for StoreState {
    type V = StoreView;

    closed spec fn view(&self) -> StoreView {
        StoreView {
            slot_size: self.slot_size as nat,
            slot_count: self.slot_count as nat,
            base: self.base as nat,
            free: self.free_slots@,
            allocated: self.allocated@,
            shared_mem_fd: self.shared_mem_fd,
            file_name: self.file_name@,
        }
    }
}

impl StoreState {
    #[verifier::type_invariant]
    spec fn inv(self) -> bool {
        &&& self.base + self.slot_count * self.slot_size <= usize::MAX
        &&& self.free_slots@.no_duplicates()
        &&& forall|i: int| 0 <= i < self.free_slots@.len() ==> #[trigger] self.free_slots@[i] < self.slot_count
    }
}


impl StoreState {
    /// The bookkeeping of a freshly mapped store laid out by `plan`, whose
    /// shared-memory object is open as `shared_mem_fd` and mapped at `base`.
    /// Every slot starts free, the last one on top of the stack.
    pub fn new(plan: StorePlan, shared_mem_fd: i32, base: usize) -> (s: Self)
        requires
            plan.total_mem == plan.slots * plan.slot_size,
            base + plan.total_mem <= usize::MAX,
        ensures
            s@.slot_size == plan.slot_size,
            s@.slot_count == plan.slots,
            s@.base == base,
            s@.free == Seq::new(plan.slots as nat, |i: int| i as usize),
            s@.allocated == Seq::<usize>::empty(),
            s@.shared_mem_fd == shared_mem_fd,
            s@.file_name == plan.file_name@,
    {
        let mut free_slots: Vec<usize> = Vec::new();
        let mut i: usize = 0;
        while i < plan.slots
            invariant
                i <= plan.slots,
                free_slots@ == Seq::new(i as nat, |k: int| k as usize),
            decreases plan.slots - i,
        {
            free_slots.push(i);
            i = i + 1;
        }
        let s = StoreState {
            slot_size: plan.slot_size,
            slot_count: plan.slots,
            free_slots,
            shared_mem_fd,
            base,
            file_name: plan.file_name,
            allocated: Vec::new(),
        };
        s
    }

    /// The size of one slot.
    pub fn slot_size(&self) -> (r: usize)
        ensures
            r == self@.slot_size,
    {
        self.slot_size
    }

    /// The number of slots.
    pub fn slot_count(&self) -> (r: usize)
        ensures
            r == self@.slot_count,
    {
        self.slot_count
    }

    /// The descriptor of the shared-memory object.
    pub fn shared_mem_fd(&self) -> (r: i32)
        ensures
            r == self@.shared_mem_fd,
    {
        self.shared_mem_fd
    }

    /// The name of the shared-memory object.
    pub fn file_name(&self) -> (r: &String)
        ensures
            r@ == self@.file_name,
    {
        &self.file_name
    }

    /// Takes the slot on top of the free stack, if any slot is free.  The
    /// slot handed out is a slot of the store and is no longer free.
    pub fn allocate(&mut self) -> (r: Option<usize>)
        ensures
            old(self)@.free.len() == 0 ==> r is None && final(self)@ == old(self)@,
            old(self)@.free.len() > 0 ==> {
                &&& r == Some(old(self)@.free.last())
                &&& final(self)@ == (StoreView { free: old(self)@.free.drop_last(), ..old(self)@ })
                &&& old(self)@.free.last() < old(self)@.slot_count
                &&& !final(self)@.free.contains(old(self)@.free.last())
            },
    {
        proof {
            use_type_invariant(&*self);
        }
        let mut free_slots: Vec<usize> = Vec::new();
        std::mem::swap(&mut free_slots, &mut self.free_slots);
        let r = free_slots.pop();
        proof {
            if old(self)@.free.len() > 0 {
                let f = old(self)@.free;
                assert(f.last() == f[f.len() - 1]);
                assert forall|k: int| 0 <= k < f.drop_last().len() implies f.drop_last()[k] != f.last() by {
                    assert(f.drop_last()[k] == f[k]);
                }
                assert forall|k: int| 0 <= k < f.drop_last().len() implies #[trigger] f.drop_last()[k] < self.slot_count by {
                    assert(f.drop_last()[k] == f[k]);
                }
            }
        }
        std::mem::swap(&mut free_slots, &mut self.free_slots);
        r
    }

    /// Records that the store mapped a slot at address `addr` on its own
    /// behalf; the mapping is released with the store.
    pub fn record_mapping(&mut self, addr: usize)
        ensures
            final(self)@ == (StoreView { allocated: old(self)@.allocated.push(addr), ..old(self)@ }),
    {
        proof {
            use_type_invariant(&*self);
        }
        let mut allocated: Vec<usize> = Vec::new();
        std::mem::swap(&mut allocated, &mut self.allocated);
        allocated.push(addr);
        std::mem::swap(&mut allocated, &mut self.allocated);
    }

    /// The offset of slot `slot` in the shared-memory object.
    pub fn slot_offset(&self, slot: usize) -> (r: usize)
        requires
            slot < self@.slot_count,
        ensures
            r == self@.offset(slot as int),
            r + self@.slot_size <= self@.slot_count * self@.slot_size,
    {
        proof {
            use_type_invariant(self);
            lemma_slot_in_store(slot as int, self.slot_count as int, self.slot_size as int);
        }
        slot * self.slot_size
    }

    /// Takes a free slot to receive a copy of slot `slot_from`, if any slot
    /// is free.  The copy itself is made by whoever owns the memory.  When
    /// `slot_from` is in use, the slot handed out is another one.
    pub fn clone_slot(&mut self, slot_from: usize) -> (r: Option<usize>)
        requires
            slot_from < old(self)@.slot_count,
        ensures
            old(self)@.free.len() == 0 ==> r is None && final(self)@ == old(self)@,
            old(self)@.free.len() > 0 ==> {
                &&& r == Some(old(self)@.free.last())
                &&& final(self)@ == (StoreView { free: old(self)@.free.drop_last(), ..old(self)@ })
                &&& !old(self)@.free.contains(slot_from) ==> old(self)@.free.last() != slot_from
            },
    {
        self.allocate()
    }

    /// Whether slot `slot` is a slot of the store that is not free, so that
    /// it may be given back.
    pub fn can_free(&self, slot: usize) -> (r: bool)
        ensures
            r == (slot < self@.slot_count && !self@.free.contains(slot)),
    {
        if slot >= self.slot_count {
            return false;
        }
        let mut i: usize = 0;
        while i < self.free_slots.len()
            invariant
                i <= self.free_slots@.len(),
                forall|k: int| 0 <= k < i ==> self.free_slots@[k] != slot,
            decreases self.free_slots@.len() - i,
        {
            if self.free_slots[i] == slot {
                return false;
            }
            i = i + 1;
        }
        true
    }

    /// Gives slot `slot` back: it goes on top of the free stack.
    pub fn free_slot(&mut self, slot: usize)
        requires
            slot < old(self)@.slot_count,
            !old(self)@.free.contains(slot),
        ensures
            final(self)@ == (StoreView { free: old(self)@.free.push(slot), ..old(self)@ }),
    {
        proof {
            use_type_invariant(&*self);
        }
        let mut free_slots: Vec<usize> = Vec::new();
        std::mem::swap(&mut free_slots, &mut self.free_slots);
        free_slots.push(slot);
        proof {
            let f = old(self)@.free;
            let g = f.push(slot);
            assert forall|i: int, j: int| 0 <= i < g.len() && 0 <= j < g.len() && i != j implies g[i] != g[j] by {
                if i < f.len() && j < f.len() {
                    assert(g[i] == f[i] && g[j] == f[j]);
                } else if i < f.len() {
                    assert(g[i] == f[i]);
                    assert(f.contains(f[i]));
                } else {
                    assert(g[j] == f[j]);
                    assert(f.contains(f[j]));
                }
            }
            assert forall|i: int| 0 <= i < g.len() implies #[trigger] g[i] < self.slot_count by {
                if i < f.len() {
                    assert(g[i] == f[i]);
                }
            }
        }
        std::mem::swap(&mut free_slots, &mut self.free_slots);
    }

    /// The mappings to release when the store goes away, as (address,
    /// length) pairs: first the store's own mapping, over as many slots as
    /// are free, then each mapping recorded with `record_mapping`, one slot
    /// long.
    pub fn release_plan(&self) -> (r: Vec<(usize, usize)>)
        ensures
            r@.len() == self@.allocated.len() + 1,
            r@[0] == (self@.base as usize, (self@.free.len() * self@.slot_size) as usize),
            forall|i: int| 0 <= i < self@.allocated.len() ==> #[trigger] r@[i + 1] == (self@.allocated[i], self@.slot_size as usize),
    {
        proof {
            use_type_invariant(self);
            lemma_free_fit(self.free_slots@, self.slot_count as int, self.slot_size as int);
        }
        let mut r: Vec<(usize, usize)> = Vec::new();
        r.push((self.base, self.free_slots.len() * self.slot_size));
        let mut i: usize = 0;
        while i < self.allocated.len()
            invariant
                i <= self.allocated@.len(),
                r@.len() == i + 1,
                r@[0] == (self@.base as usize, (self@.free.len() * self@.slot_size) as usize),
                forall|k: int| 0 <= k < i ==> #[trigger] r@[k + 1] == (self@.allocated[k], self@.slot_size as usize),
            decreases self.allocated@.len() - i,
        {
            r.push((self.allocated[i], self.slot_size));
            i = i + 1;
        }
        r
    }
}

/// A slot of the store ends no later than the store does.
pub proof fn lemma_slot_in_store(slot: int, slot_count: int, slot_size: int)
    requires
        0 <= slot < slot_count,
        0 <= slot_size,
    ensures
        0 <= slot * slot_size,
        slot * slot_size + slot_size <= slot_count * slot_size,
{
    assert(slot * slot_size + slot_size <= slot_count * slot_size) by (nonlinear_arith)
        requires
            0 <= slot < slot_count,
            0 <= slot_size,
    ;
    assert(0 <= slot * slot_size) by (nonlinear_arith)
        requires
            0 <= slot,
            0 <= slot_size,
    ;
}

/// Distinct slots of a store cover disjoint byte ranges of its
/// shared-memory object.
pub proof fn lemma_slots_disjoint(v: StoreView, i: int, j: int)
    requires
        0 <= i < v.slot_count,
        0 <= j < v.slot_count,
        i != j,
    ensures
        v.offset(i) + v.slot_size <= v.offset(j) || v.offset(j) + v.slot_size <= v.offset(i),
{
    let s = v.slot_size as int;
    if i < j {
        assert(i * s + s <= j * s) by (nonlinear_arith)
            requires
                i < j,
                0 <= s,
        ;
    } else {
        assert(j * s + s <= i * s) by (nonlinear_arith)
            requires
                j < i,
                0 <= s,
        ;
    }
}

/// Giving back the slot that `allocate` just handed out restores the free
/// stack as it was.
pub proof fn lemma_free_undoes_allocate(free: Seq<usize>)
    requires
        free.len() > 0,
    ensures
        free.drop_last().push(free.last()) == free,
{
    assert(free.drop_last().push(free.last()) =~= free);
}

/// A stack of distinct slots of a store holds no more slots than the store
/// has, so their combined size fits in the store.
proof fn lemma_free_fit(free: Seq<usize>, slot_count: int, slot_size: int)
    requires
        free.no_duplicates(),
        forall|i: int| 0 <= i < free.len() ==> #[trigger] free[i] < slot_count,
        0 <= slot_count,
        0 <= slot_size,
    ensures
        free.len() * slot_size <= slot_count * slot_size,
{
    let s = free.to_set();
    let all = vstd::set_lib::set_int_range(0, slot_count);
    free.unique_seq_to_set();
    assert forall|x: usize| s.contains(x) implies all.contains(x as int) by {
        let i = free.index_of(x);
        assert(free[i] == x);
    }
    let si = s.map(|x: usize| x as int);
    assert(si.subset_of(all));
    vstd::set_lib::lemma_int_range(0, slot_count);
    assert(si.len() == s.len()) by {
        vstd::set_lib::lemma_map_size(s, si, |x: usize| x as int);
    }
    vstd::set_lib::lemma_len_subset(si, all);
    assert(free.len() <= slot_count);
    assert(free.len() * slot_size <= slot_count * slot_size) by (nonlinear_arith)
        requires
            free.len() <= slot_count,
            0 <= slot_size,
    ;
}

} // verus!
