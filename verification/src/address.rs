//! Virtual and physical addresses.
use core::marker::PhantomData;
use vstd::prelude::*;

verus! {

/// Marker for the kind of memory an address lives in.
pub trait MemoryKind: Copy + Clone + PartialOrd + Ord + PartialEq + Eq + core::hash::Hash {
}

/// Virtual memory.
#[derive(Copy, Clone, PartialOrd, Ord, PartialEq, Eq, Hash)]
pub struct Virtual;

impl MemoryKind for Virtual {
}

/// Physical memory.
#[derive(Copy, Clone, PartialOrd, Ord, PartialEq, Eq, Hash)]
pub struct Physical;

impl MemoryKind for Physical {
}

/// A machine address, tagged with its kind of memory.
#[derive(Copy, PartialOrd, Ord, PartialEq, Eq, Hash)]
pub struct Address<K: MemoryKind = Virtual>(usize, PhantomData<K>);

impl<K: MemoryKind> Clone for Address<K> {
    fn clone(&self) -> (r: Self)
        ensures
            r == *self,
    {
        *self
    }
}

impl<K: MemoryKind> Address<K> {
    /// The numeric value of the address.
    pub closed spec fn value(self) -> usize {
        self.0
    }

    /// The address with numeric value `v`.
    pub closed spec fn spec_new(v: usize) -> Self {
        Address(v, PhantomData)
    }

    pub fn new(v: usize) -> (r: Self)
        ensures
            r.value() == v,
    {
        Address(v, PhantomData)
    }

    pub proof fn lemma_spec_new(v: usize)
        ensures
            Self::spec_new(v).value() == v,
    {
    }

    pub fn zero() -> (r: Self)
        ensures
            r.value() == 0,
    {
        Address(0, PhantomData)
    }

    pub fn is_zero(&self) -> (r: bool)
        ensures
            r == (self.value() == 0),
    {
        self.0 == 0
    }

    pub fn as_usize(&self) -> (r: usize)
        ensures
            r == self.value(),
    {
        self.0
    }

    pub fn from_usize(v: usize) -> (r: Self)
        ensures
            r.value() == v,
    {
        Address(v, PhantomData)
    }

    /// `self + rhs`; the sum must stay within the address space.
    pub fn add_usize(self, rhs: usize) -> (r: Self)
        requires
            self.value() + rhs <= usize::MAX,
        ensures
            r.value() == self.value() + rhs,
    {
        Address(self.0 + rhs, PhantomData)
    }

    /// `self - rhs`; the difference must not go below zero.
    pub fn sub_usize(self, rhs: usize) -> (r: Self)
        requires
            self.value() >= rhs,
        ensures
            r.value() == self.value() - rhs,
    {
        Address(self.0 - rhs, PhantomData)
    }

    /// The distance `self - rhs` in bytes.
    pub fn diff(self, rhs: Self) -> (r: usize)
        requires
            self.value() >= rhs.value(),
        ensures
            r == self.value() - rhs.value(),
    {
        self.0 - rhs.0
    }

    /// Proof that two addresses with the same value are the same address.
    pub proof fn lemma_value_injective(a: Self, b: Self)
        requires
            a.value() == b.value(),
        ensures
            a == b,
    {
    }
}

} // verus!
