//! Split virtqueues: the descriptor table, the ring of descriptors offered
//! to the device, and the ring of descriptors the device has used.
use vstd::prelude::*;
use crate::address::{Address, Physical, Virtual};

verus! {

/// The number of descriptors in a queue.
pub const QUEUE_SIZE: usize = 128;

/// The flags of a descriptor.
#[derive(Clone, Copy, PartialEq, Eq, Structural)]
pub struct VirtQueueDescFlags {
    pub bits: u16,
}

impl VirtQueueDescFlags {
    /// No flag.
    pub fn none() -> (r: Self)
        ensures
            r.bits == 0,
    {
        VirtQueueDescFlags { bits: 0 }
    }

    /// The buffer continues in the descriptor named by `next`.
    pub fn next() -> (r: Self)
        ensures
            r.bits == 1,
    {
        VirtQueueDescFlags { bits: 1 }
    }

    /// The device writes the buffer (otherwise it reads it).
    pub fn write() -> (r: Self)
        ensures
            r.bits == 2,
    {
        VirtQueueDescFlags { bits: 2 }
    }

    /// The buffer holds a table of descriptors.
    pub fn indirect() -> (r: Self)
        ensures
            r.bits == 4,
    {
        VirtQueueDescFlags { bits: 4 }
    }

    /// Both sets of flags.
    pub fn union(self, other: Self) -> (r: Self)
        ensures
            r.bits == self.bits | other.bits,
    {
        VirtQueueDescFlags { bits: self.bits | other.bits }
    }
}

/// One descriptor: a buffer in physical memory.
#[derive(Clone, Copy)]
pub struct VirtQueueDesc {
    pub addr: Address<Physical>,
    pub len: u32,
    pub flags: VirtQueueDescFlags,
    pub next: u16,
}

/// The ring of descriptor chains offered to the device.
pub struct VirtQueueAvail {
    pub flags: u16,
    pub index: u16,
    pub ring: Vec<u16>,
    pub used_event: u16,
}

/// One chain the device has finished with, and the bytes it wrote.
#[derive(Clone, Copy)]
pub struct VirtQueueUsedElem {
    pub id: u32,
    pub len: u32,
}

/// The ring of descriptor chains the device has used.
pub struct VirtQueueUsed {
    pub flags: u16,
    pub index: u16,
    pub ring: Vec<VirtQueueUsedElem>,
    pub avail_event: u16,
}

/// A virtqueue and the physical addresses of its three parts.
pub struct VirtQueue {
    pub desc: Vec<VirtQueueDesc>,
    pub avail: VirtQueueAvail,
    pub used: VirtQueueUsed,
    pub desc_base: Address<Physical>,
    pub avail_base: Address<Physical>,
    pub used_base: Address<Physical>,
    pub free_desc: u16,
    pub desc_virtual_ptrs: Vec<Address<Virtual>>,
}

impl VirtQueue {
    /// The tables have their fixed sizes.
    pub open spec fn wf(&self) -> bool {
        &&& self.desc@.len() == QUEUE_SIZE
        &&& self.avail.ring@.len() == QUEUE_SIZE
        &&& self.used.ring@.len() == QUEUE_SIZE
        &&& self.desc_virtual_ptrs@.len() == QUEUE_SIZE
    }

    /// A queue over the three fresh pages at `desc_base`, `avail_base` and
    /// `used_base`: every descriptor links to the next one, and both rings
    /// are empty.
    pub fn new(
        desc_base: Address<Physical>,
        avail_base: Address<Physical>,
        used_base: Address<Physical>,
    ) -> (r: Self)
        ensures
            r.wf(),
            r.free_desc == 0,
            forall|i: int| 0 <= i < QUEUE_SIZE ==> #[trigger] r.desc@[i].next == i + 1,
            r.avail.index == 0,
            r.avail.flags == 0,
            r.used.index == 0,
            r.desc_base == desc_base,
            r.avail_base == avail_base,
            r.used_base == used_base,
    {
        let mut desc: Vec<VirtQueueDesc> = Vec::new();
        let mut ring: Vec<u16> = Vec::new();
        let mut used_ring: Vec<VirtQueueUsedElem> = Vec::new();
        let mut ptrs: Vec<Address<Virtual>> = Vec::new();
        let mut i: usize = 0;
        while i < QUEUE_SIZE
            invariant
                i <= QUEUE_SIZE,
                desc@.len() == i,
                ring@.len() == i,
                used_ring@.len() == i,
                ptrs@.len() == i,
                forall|k: int| 0 <= k < i ==> #[trigger] desc@[k].next == k + 1,
            decreases QUEUE_SIZE - i,
        {
            desc.push(
                VirtQueueDesc {
                    addr: Address::zero(),
                    len: 0,
                    flags: VirtQueueDescFlags::none(),
                    next: (i + 1) as u16,
                },
            );
            ring.push(0);
            used_ring.push(VirtQueueUsedElem { id: 0, len: 0 });
            ptrs.push(Address::zero());
            i = i + 1;
        }
        VirtQueue {
            desc,
            avail: VirtQueueAvail { flags: 0, index: 0, ring, used_event: 0 },
            used: VirtQueueUsed { flags: 0, index: 0, ring: used_ring, avail_event: 0 },
            desc_base,
            avail_base,
            used_base,
            free_desc: 0,
            desc_virtual_ptrs: ptrs,
        }
    }

    /// The number of descriptors.
    pub fn size(&self) -> (r: usize)
        ensures
            r == QUEUE_SIZE,
    {
        QUEUE_SIZE
    }

    /// Where the descriptor table is in physical memory.
    pub fn desc_start(&self) -> (r: Address<Physical>)
        ensures
            r == self.desc_base,
    {
        self.desc_base
    }

    /// Where the available ring is in physical memory.
    pub fn avail_start(&self) -> (r: Address<Physical>)
        ensures
            r == self.avail_base,
    {
        self.avail_base
    }

    /// Where the used ring is in physical memory.
    pub fn used_start(&self) -> (r: Address<Physical>)
        ensures
            r == self.used_base,
    {
        self.used_base
    }

    /// Hands out the first free descriptor; the free list moves on to the
    /// descriptor it links to.
    fn find_desc(&mut self) -> (r: u16)
        requires
            old(self).wf(),
            old(self).free_desc < QUEUE_SIZE,
        ensures
            final(self).wf(),
            r == old(self).free_desc,
            final(self).free_desc == old(self).desc@[r as int].next,
            final(self).desc == old(self).desc,
            final(self).avail == old(self).avail,
            final(self).used == old(self).used,
            final(self).desc_virtual_ptrs == old(self).desc_virtual_ptrs,
            final(self).desc_base == old(self).desc_base,
            final(self).avail_base == old(self).avail_base,
            final(self).used_base == old(self).used_base,
    {
        let desc = self.free_desc;
        self.free_desc = self.desc[desc as usize].next;
        desc
    }

    /// Describes the buffer of `len` bytes at `addr` in the first free
    /// descriptor, and returns that descriptor's index.
    pub fn push(&mut self, addr: Address<Physical>, len: u32, flags: VirtQueueDescFlags) -> (r: usize)
        requires
            old(self).wf(),
            old(self).free_desc < QUEUE_SIZE,
        ensures
            final(self).wf(),
            r == old(self).free_desc,
            final(self).free_desc == old(self).desc@[r as int].next,
            final(self).desc@ == old(self).desc@.update(
                r as int,
                (VirtQueueDesc { addr: addr, len: len, flags: flags, next: old(self).desc@[r as int].next }),
            ),
            final(self).avail == old(self).avail,
            final(self).used == old(self).used,
            final(self).desc_virtual_ptrs == old(self).desc_virtual_ptrs,
            final(self).desc_base == old(self).desc_base,
            final(self).avail_base == old(self).avail_base,
            final(self).used_base == old(self).used_base,
    {
        let desc = self.find_desc() as usize;
        let next = self.desc[desc].next;
        self.desc.set(desc, VirtQueueDesc { addr, len, flags, next });
        desc
    }

    /// Offers the chain starting at `desc` to the device in the next slot
    /// of the available ring.
    pub fn update_avail(&mut self, desc: u16)
        requires
            old(self).wf(),
            old(self).avail.index < QUEUE_SIZE,
        ensures
            final(self).wf(),
            final(self).avail.ring@ == old(self).avail.ring@.update(old(self).avail.index as int, desc),
            final(self).avail.index == old(self).avail.index + 1,
            final(self).avail.flags == old(self).avail.flags,
            final(self).avail.used_event == old(self).avail.used_event,
            final(self).desc == old(self).desc,
            final(self).used == old(self).used,
            final(self).free_desc == old(self).free_desc,
            final(self).desc_virtual_ptrs == old(self).desc_virtual_ptrs,
            final(self).desc_base == old(self).desc_base,
            final(self).avail_base == old(self).avail_base,
            final(self).used_base == old(self).used_base,
    {
        let idx = self.avail.index as usize;
        self.avail.ring.set(idx, desc);
        self.avail.index = self.avail.index + 1;
    }
}

} // verus!
