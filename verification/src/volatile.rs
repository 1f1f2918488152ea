//! A cell for a device register: every access reads or writes the value.
//!
//! Besides the value, a register remembers (as ghost state) every value
//! written to it, in order, so that the contracts of drivers can state the
//! exact sequence of writes a device sees.
use vstd::prelude::*;

verus! {

/// A register holding a `T`.
pub struct Volatile<T: Copy> {
    value: T,
    log: Ghost<Seq<T>>,
}

impl<T: Copy> View for Volatile<T> {
    type V = T;

    closed spec fn view(&self) -> T {
        self.value
    }
}

impl<T: Copy> Volatile<T> {
    /// The values written to the register, oldest first.
    pub closed spec fn writes(&self) -> Seq<T> {
        self.log@
    }

    pub fn new(t: T) -> (r: Self)
        ensures
            r@ == t,
            r.writes() == Seq::<T>::empty(),
    {
        Volatile { value: t, log: Ghost(Seq::empty()) }
    }

    /// Reads the register.
    pub fn get(&self) -> (r: T)
        ensures
            r == self@,
    {
        self.value
    }

    /// Writes the register.
    pub fn set(&mut self, value: T)
        ensures
            final(self)@ == value,
            final(self).writes() == old(self).writes().push(value),
    {
        self.value = value;
        self.log = Ghost(self.log@.push(value));
    }

    /// Reads the register, and writes back `f` of the value read.
    pub fn update(&mut self, f: impl Fn(T) -> T)
        requires
            call_requires(f, (old(self)@,)),
        ensures
            call_ensures(f, (old(self)@,), final(self)@),
            final(self).writes() == old(self).writes().push(final(self)@),
    {
        let t = self.get();
        self.set(f(t));
    }
}

/// The writes made to the registers of one device, oldest first (ghost
/// state): each names the register, by an `R`, and the value written.
/// It lets a driver's contract state the order of writes across registers.
pub struct WriteLog<R> {
    log: Ghost<Seq<(R, u32)>>,
}

impl<R> WriteLog<R> {
    /// The writes recorded, oldest first.
    pub closed spec fn writes(&self) -> Seq<(R, u32)> {
        self.log@
    }

    /// A log with no write yet.
    pub fn new() -> (r: Self)
        ensures
            r.writes() == Seq::<(R, u32)>::empty(),
    {
        WriteLog { log: Ghost(Seq::empty()) }
    }

    /// Records that `v` was written to `reg`.
    pub(crate) fn record(&mut self, reg: Ghost<R>, v: u32)
        ensures
            final(self).writes() == old(self).writes().push((reg@, v)),
    {
        self.log = Ghost(self.log@.push((reg@, v)));
    }
}

} // verus!
