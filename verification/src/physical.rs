//! The kernel's physical memory: a buddy allocator over the frames that the
//! boot loader reports as available.
use crate::buddy::{after_push, after_split, first_nonempty, frame_range_ok, page_class, release_ranges, Buddy, NUM_SIZE_CLASS};
use crate::page::{page_bytes, Frame, PageSize};
use core::ops::Range;
use vstd::prelude::*;

verus! {

/// The physical memory manager.
pub struct PhysicalMemory {
    resource: Buddy,
}

impl View for PhysicalMemory {
    type V = Seq<Seq<usize>>;

    closed spec fn view(&self) -> Seq<Seq<usize>> {
        self.resource@
    }
}

impl PhysicalMemory {
    pub closed spec fn wf(&self) -> bool {
        self.resource.wf()
    }

    pub proof fn lemma_wf(&self)
        requires
            self.wf(),
        ensures
            crate::buddy::lists_ok(self@),
    {
    }

    /// A manager with no free memory yet.
    pub fn new() -> (r: Self)
        ensures
            r.wf(),
            r@ == Seq::new(NUM_SIZE_CLASS as nat, |i: int| Seq::<usize>::empty()),
    {
        PhysicalMemory { resource: Buddy::new() }
    }

    /// Hands the available frame ranges to the allocator.
    pub fn init(&mut self, frames: &[Range<Frame>])
        requires
            old(self).wf(),
            forall|i: int| 0 <= i < frames@.len() ==> frame_range_ok(#[trigger] frames@[i]),
        ensures
            final(self).wf(),
            final(self)@ == release_ranges(old(self)@, frames@),
    {
        self.resource.init(frames);
    }

    /// Takes a free `S`-sized frame.
    pub fn acquire<S: PageSize>(&mut self) -> (r: Option<Frame<S>>)
        requires
            old(self).wf(),
        ensures
            final(self).wf(),
            ({
                let c = page_class::<S>();
                let k = first_nonempty(old(self)@, c);
                if k == NUM_SIZE_CLASS {
                    r.is_none() && final(self)@ == old(self)@
                } else {
                    &&& r.is_some()
                    &&& r.unwrap().wf()
                    &&& r.unwrap().start_value() == old(self)@[k as int].last()
                    &&& final(self)@ == after_split(old(self)@, c, k, old(self)@[k as int].last() as int)
                }
            }),
    {
        self.resource.acquire::<S>()
    }

    /// The number of free bytes.
    pub fn free_byte_count(&self) -> (r: u128)
        requires
            self.wf(),
        ensures
            r == crate::buddy::free_bytes(self@),
    {
        self.resource.free_byte_count()
    }

    /// Returns a frame.
    pub fn release<S: PageSize>(&mut self, frame: Frame<S>)
        requires
            old(self).wf(),
            frame.wf(),
            frame.start_value() > 0,
            frame.start_value() + page_bytes::<S>() <= usize::MAX + 1,
        ensures
            final(self).wf(),
            final(self)@ == after_push(old(self)@, frame.start_value(), page_class::<S>()),
    {
        self.resource.release(frame)
    }
}

} // verus!
