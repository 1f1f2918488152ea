//! Default-sized and huge pages of virtual or physical memory.
use crate::address::{Address, MemoryKind, Physical, Virtual};
use core::marker::PhantomData;
use vstd::arithmetic::power2::*;
use vstd::bits::*;
use vstd::prelude::*;

verus! {

/// A page size: pages are `2^log_size` bytes and aligned to their size.
pub trait PageSize: Copy + Clone + PartialOrd + Ord + PartialEq + Eq + core::hash::Hash {
    /// Binary logarithm of the page size.
    spec fn spec_log_size() -> nat;

    proof fn lemma_log_size_range()
        ensures
            12 <= Self::spec_log_size() <= 30,
    ;

    fn log_size() -> (r: usize)
        ensures
            r == Self::spec_log_size(),
    ;

    /// A short human readable name of the size.
    fn name() -> &'static str;
}

/// The size of a page in bytes.
pub open spec fn page_bytes<S: PageSize>() -> nat {
    pow2(S::spec_log_size())
}

pub proof fn lemma_page_bytes<S: PageSize>()
    ensures
        4096 <= page_bytes::<S>() <= 0x4000_0000,
        page_bytes::<S>() < usize::MAX,
        page_bytes::<S>() == pow2(S::spec_log_size()),
        S::spec_log_size() < usize::BITS,
{
    S::lemma_log_size_range();
    lemma2_to64();
    if S::spec_log_size() > 12 {
        lemma_pow2_strictly_increases(12, S::spec_log_size());
    }
    if S::spec_log_size() < 30 {
        lemma_pow2_strictly_increases(S::spec_log_size(), 30);
    }
}

/// Returns `2^S::log_size()`.
pub fn page_size<S: PageSize>() -> (r: usize)
    ensures
        r == page_bytes::<S>(),
{
    let l = S::log_size();
    proof {
        lemma_page_bytes::<S>();
        lemma_usize_shl_is_mul(1, l);
    }
    1usize << l
}

/// 4KiB pages.
#[derive(Copy, Clone, PartialOrd, Ord, PartialEq, Eq, Hash)]
pub struct Size4K;

impl PageSize for Size4K {
    open spec fn spec_log_size() -> nat {
        12
    }

    proof fn lemma_log_size_range() {
    }

    fn log_size() -> (r: usize) {
        12
    }

    fn name() -> (r: &'static str)
        ensures
            r@ == "4K"@,
    {
        "4K"
    }
}

/// 2MiB pages.
#[derive(Copy, Clone, PartialOrd, Ord, PartialEq, Eq, Hash)]
pub struct Size2M;

impl PageSize for Size2M {
    open spec fn spec_log_size() -> nat {
        21
    }

    proof fn lemma_log_size_range() {
    }

    fn log_size() -> (r: usize) {
        21
    }

    fn name() -> (r: &'static str)
        ensures
            r@ == "2M"@,
    {
        "2M"
    }
}

/// Whether `a` is a multiple of the size of `S`-pages.
pub open spec fn is_page_aligned<S: PageSize>(a: int) -> bool {
    a % (page_bytes::<S>() as int) == 0
}

/// An `S`-sized page of `K` memory, identified by its (aligned) start address.
#[derive(Copy, PartialOrd, Ord, PartialEq, Eq, Hash)]
pub struct Page<S: PageSize = Size4K, K: MemoryKind = Virtual>(Address<K>, PhantomData<S>);

impl<S: PageSize, K: MemoryKind> Clone for Page<S, K> {
    fn clone(&self) -> (r: Self)
        ensures
            r == *self,
    {
        *self
    }
}

/// A page of physical memory.
pub type Frame<S = Size4K> = Page<S, Physical>;

proof fn lemma_mask_is_mod(a: usize, l: usize)
    requires
        l < usize::BITS,
    ensures
        a & (((1usize << l) - 1) as usize) == (a as nat) % pow2(l as nat),
        a & !(((1usize << l) - 1) as usize) == (a as nat) - (a as nat) % pow2(l as nat),
        (1usize << l) == pow2(l as nat),
{
    lemma_usize_pow2_no_overflow(l as nat);
    lemma_usize_shl_is_mul(1, l);
    lemma_low_bits_mask_values();
    let m: usize = ((1usize << l) - 1) as usize;
    assert(m == low_bits_mask(l as nat));
    lemma_usize_low_bits_mask_is_mod(a, l as nat);
    assert((a & !m) + (a & m) == a) by (bit_vector);
}

impl<S: PageSize, K: MemoryKind> Page<S, K> {
    /// The start address of the page.
    pub closed spec fn start_value(self) -> usize {
        self.0.value()
    }

    /// The invariant of pages: the start address is aligned to the page size.
    pub open spec fn wf(self) -> bool {
        is_page_aligned::<S>(self.start_value() as int)
    }

    pub fn zero() -> (r: Self)
        ensures
            r.start_value() == 0,
            r.wf(),
    {
        proof {
            lemma_page_bytes::<S>();
            vstd::arithmetic::div_mod::lemma_small_mod(0, page_bytes::<S>());
        }
        Page(Address::zero(), PhantomData)
    }

    pub fn is_zero(&self) -> (r: bool)
        ensures
            r == (self.start_value() == 0),
    {
        self.0.is_zero()
    }

    pub fn start(&self) -> (r: Address<K>)
        ensures
            r.value() == self.start_value(),
    {
        self.0
    }

    /// The first address past the page.
    pub fn end(&self) -> (r: Address<K>)
        requires
            self.start_value() + page_bytes::<S>() <= usize::MAX,
        ensures
            r.value() == self.start_value() + page_bytes::<S>(),
    {
        self.0.add_usize(page_size::<S>())
    }

    /// Rounds `a` down to the page boundary.
    pub fn align(a: Address<K>) -> (r: Address<K>)
        ensures
            r.value() == a.value() - (a.value() as nat) % page_bytes::<S>(),
            is_page_aligned::<S>(r.value() as int),
    {
        let l = S::log_size();
        proof {
            lemma_page_bytes::<S>();
            lemma_mask_is_mod(a.value(), l);
            let p = page_bytes::<S>() as int;
            vstd::arithmetic::div_mod::lemma_fundamental_div_mod(a.value() as int, p);
            vstd::arithmetic::div_mod::lemma_mod_multiples_basic(a.value() as int / p, p);
        }
        let mask = (1usize << l) - 1;
        Address::new(a.as_usize() & !mask)
    }

    pub fn is_aligned(a: Address<K>) -> (r: bool)
        ensures
            r == is_page_aligned::<S>(a.value() as int),
    {
        let l = S::log_size();
        proof {
            lemma_page_bytes::<S>();
            lemma_mask_is_mod(a.value(), l);
        }
        let mask = (1usize << l) - 1;
        (a.as_usize() & mask) == 0
    }

    /// The page containing `a`.
    pub fn of(a: Address<K>) -> (r: Self)
        ensures
            r.start_value() == a.value() - (a.value() as nat) % page_bytes::<S>(),
            r.wf(),
    {
        Page(Self::align(a), PhantomData)
    }

    /// The page starting at `a`, which must be page aligned.
    pub fn new(a: Address<K>) -> (r: Self)
        requires
            is_page_aligned::<S>(a.value() as int),
        ensures
            r.start_value() == a.value(),
            r.wf(),
    {
        Page(a, PhantomData)
    }

    /// Rounds `a` up to the next page boundary.
    pub fn align_up<M: MemoryKind>(a: Address<M>) -> (r: Address<M>)
        requires
            a.value() + page_bytes::<S>() - 1 <= usize::MAX,
        ensures
            is_page_aligned::<S>(r.value() as int),
            a.value() <= r.value() < a.value() + page_bytes::<S>(),
            r.value() == round_up(a.value() as nat, page_bytes::<S>()),
    {
        let l = S::log_size();
        let size = page_size::<S>();
        proof {
            lemma_page_bytes::<S>();
        }
        let v0 = a.as_usize() + (size - 1);
        proof {
            lemma_page_bytes::<S>();
            lemma_mask_is_mod(v0, l);
            lemma_round_up(a.value() as nat, page_bytes::<S>());
        }
        let v = v0 & !(size - 1);
        Address::new(v)
    }

    /// The number of pages from `start` up to `end`, or `None` when `end` lies before `start`.
    pub fn steps_between(start: &Self, end: &Self) -> (r: Option<usize>)
        requires
            start.wf(),
            end.wf(),
        ensures
            start.start_value() > end.start_value() ==> r.is_none(),
            start.start_value() <= end.start_value() ==> r == Some(
                ((end.start_value() - start.start_value()) as nat / page_bytes::<S>()) as usize,
            ),
    {
        if start.0.as_usize() > end.0.as_usize() {
            None
        } else {
            let d = end.0.diff(start.0);
            let l = S::log_size();
            proof {
                lemma_page_bytes::<S>();
                lemma_usize_shr_is_div(d, l);
            }
            Some(d >> l)
        }
    }

    /// The page `count` pages after `start`.
    pub fn forward_checked(start: Self, count: usize) -> (r: Option<Self>)
        requires
            start.start_value() + count * page_bytes::<S>() <= usize::MAX,
        ensures
            r.is_some(),
            r.unwrap().start_value() == start.start_value() + count * page_bytes::<S>(),
    {
        let l = S::log_size();
        proof {
            lemma_page_bytes::<S>();
            lemma_usize_shl_is_mul(count, l);
        }
        let off = count << l;
        Some(Page(start.0.add_usize(off), PhantomData))
    }

    /// The page `count` pages before `start`.
    pub fn backward_checked(start: Self, count: usize) -> (r: Option<Self>)
        requires
            count * page_bytes::<S>() <= start.start_value(),
        ensures
            r.is_some(),
            r.unwrap().start_value() == start.start_value() - count * page_bytes::<S>(),
    {
        let l = S::log_size();
        proof {
            lemma_page_bytes::<S>();
            lemma_usize_shl_is_mul(count, l);
        }
        let off = count << l;
        Some(Page(start.0.sub_usize(off), PhantomData))
    }

    /// The page value starting at address `v`.
    pub closed spec fn at(v: usize) -> Self {
        Page(Address::<K>::spec_new(v), PhantomData)
    }

    pub proof fn lemma_at(v: usize)
        ensures
            Self::at(v).start_value() == v,
    {
        Address::<K>::lemma_spec_new(v);
    }

    /// The page starting at `a`, whatever its alignment.
    pub fn from_start(a: Address<K>) -> (r: Self)
        ensures
            r.start_value() == a.value(),
    {
        Page(a, PhantomData)
    }

    /// Proof that two pages with the same start are the same page.
    pub proof fn lemma_start_injective(a: Self, b: Self)
        requires
            a.start_value() == b.start_value(),
        ensures
            a == b,
    {
        Address::<K>::lemma_value_injective(a.0, b.0);
    }
}

/// The least multiple of `p` that is at least `a`.
pub open spec fn round_up(a: nat, p: nat) -> nat
    recommends
        p > 0,
{
    if a % p == 0 {
        a
    } else {
        (a - a % p + p) as nat
    }
}

pub proof fn lemma_round_up(a: nat, p: nat)
    requires
        p > 0,
    ensures
        round_up(a, p) % p == 0,
        a <= round_up(a, p) < a + p,
        round_up(a, p) == (a + p - 1) - (a + p - 1) % (p as int),
{
    let b = (a + p - 1) as int;
    let q = a as int / p as int;
    let r = a as int % p as int;
    vstd::arithmetic::div_mod::lemma_fundamental_div_mod(a as int, p as int);
    if r == 0 {
        assert(b == q * p + (p - 1));
        vstd::arithmetic::div_mod::lemma_fundamental_div_mod_converse(b, p as int, q, p - 1);
        vstd::arithmetic::div_mod::lemma_fundamental_div_mod_converse(a as int, p as int, q, 0);
    } else {
        assert(b == (q + 1) * p + (r - 1)) by (nonlinear_arith)
            requires
                a == q * p + r,
                b == a + p - 1,
        ;
        assert((a - r + p) == (q + 1) * p + 0) by (nonlinear_arith)
            requires
                a == q * p + r,
        ;
        vstd::arithmetic::div_mod::lemma_fundamental_div_mod_converse(b, p as int, q + 1, r - 1);
        vstd::arithmetic::div_mod::lemma_fundamental_div_mod_converse(
            (a - r + p) as int,
            p as int,
            q + 1,
            0,
        );
    }
}

} // verus!
