//! Flags of page mappings.
use vstd::prelude::*;

verus! {

/// A set of page mapping flags, as bits of a machine word.
#[derive(Copy, Clone, PartialEq, Eq, Structural)]
pub struct PageFlags {
    bits: usize,
}

/// The mapping maps a 4KiB page.
pub const PAGE_4K: usize = 0b00;

/// The mapping maps a 2MiB page.
pub const PAGE_2M: usize = 0b01;

/// The mapping maps a 1GiB page.
pub const PAGE_1G: usize = 0b10;

/// The mapping is present.
pub const PRESENT: usize = 0b1 << 2;

/// The page was accessed.
pub const ACCESSED: usize = 0b1 << 3;

/// Only the kernel may access the page.
pub const KERNEL: usize = 0b1 << 4;

/// The page may not be written.
pub const NO_WRITE: usize = 0b1 << 5;

/// The page may not be executed.
pub const NO_EXEC: usize = 0b1 << 6;

/// The page is not cached.
pub const NO_CACHE: usize = 0b1 << 7;

/// Every defined flag.
pub const ALL_FLAGS: usize = 0xff;

impl PageFlags {
    pub closed spec fn spec_bits(self) -> usize {
        self.bits
    }

    /// The flags whose bits are set in `bits`, ignoring undefined bits.
    pub fn from_bits_truncate(bits: usize) -> (r: Self)
        ensures
            r.spec_bits() == bits & ALL_FLAGS,
    {
        PageFlags { bits: bits & ALL_FLAGS }
    }

    /// The flags with exactly the bits `bits`.
    pub fn from_bits_retain(bits: usize) -> (r: Self)
        ensures
            r.spec_bits() == bits,
    {
        PageFlags { bits }
    }

    /// The present flag alone.
    pub fn present() -> (r: Self)
        ensures
            r.spec_bits() == PRESENT,
    {
        PageFlags { bits: PRESENT }
    }

    pub fn empty() -> (r: Self)
        ensures
            r.spec_bits() == 0,
    {
        PageFlags { bits: 0 }
    }

    pub fn bits(&self) -> (r: usize)
        ensures
            r == self.spec_bits(),
    {
        self.bits
    }

    /// The union of two sets of flags.
    pub fn union(self, other: Self) -> (r: Self)
        ensures
            r.spec_bits() == self.spec_bits() | other.spec_bits(),
    {
        PageFlags { bits: self.bits | other.bits }
    }

    /// Whether every flag of `other` is in `self`.
    pub fn contains(&self, other: Self) -> (r: bool)
        ensures
            r == (self.spec_bits() & other.spec_bits() == other.spec_bits()),
    {
        self.bits & other.bits == other.bits
    }

    /// Flags of user stack pages: present, accessed, not executable.
    pub fn user_stack_flags() -> (r: Self)
        ensures
            r.spec_bits() == PRESENT | ACCESSED | NO_EXEC,
            r.spec_bits() == 0x4c,
    {
        proof {
            assert(PRESENT | ACCESSED | NO_EXEC == 0x4c) by (bit_vector);
        }
        PageFlags { bits: PRESENT | ACCESSED | NO_EXEC }
    }

    /// Flags of user code pages: present and accessed.
    pub fn user_code_flags() -> (r: Self)
        ensures
            r.spec_bits() == PRESENT | ACCESSED,
            r.spec_bits() == 0xc,
    {
        proof {
            assert(PRESENT | ACCESSED == 0xc) by (bit_vector);
        }
        PageFlags { bits: PRESENT | ACCESSED }
    }
}

} // verus!
