//! Four-level page tables.
//!
//! A table has 512 entries; the entries of tables above the last level
//! point at tables of the next level or, at level 2, map a 2MiB block.
//! Level-1 entries map 4KiB pages.
use crate::address::{Address, Physical, Virtual};
use crate::buddy::{cell_bytes, first_nonempty, free_bytes, lemma_allocate_conserves_bytes, lemma_first_nonempty, lists_ok, NUM_SIZE_CLASS, after_split, free_bytes_below};
use crate::memory::{PageFlags, PRESENT};
use crate::page::{lemma_page_bytes, page_bytes, Frame, Page, PageSize, Size4K};
use crate::physical::PhysicalMemory;
use vstd::arithmetic::power2::*;
use vstd::arithmetic::div_mod::{lemma_breakdown, lemma_div_denominator};
use vstd::bits::*;
use vstd::prelude::*;

verus! {

/// Number of entries of a table.
pub const ENTRIES: usize = 512;

/// The lowest address bit that indexes a table of `level`.
pub open spec fn level_shift(level: nat) -> nat {
    (12 + 9 * (level - 1)) as nat
}

/// The index of `a` in a table of `level`.
pub open spec fn index_of(level: nat, a: nat) -> nat {
    (a / pow2(level_shift(level))) % 512
}

/// The index of `a` in a table of `level` (4 for the root, 1 for the last).
pub fn get_index(level: usize, a: Address<Virtual>) -> (r: usize)
    requires
        1 <= level <= 4,
    ensures
        r == index_of(level as nat, a.value() as nat),
        r < ENTRIES,
{
    let shift: u64 = (12 + 9 * (level - 1)) as u64;
    let v = a.as_usize() as u64;
    proof {
        lemma_u64_shr_is_div(v, shift);
        lemma_u64_low_bits_mask_is_mod(v >> shift, 9);
        lemma2_to64();
        lemma_low_bits_mask_values();
    }
    ((v >> shift) & 0x1ff) as usize
}

/// The address, in the recursive mapping, of the table that entry `index`
/// of the table at `table_address` points to: the table address shifted up
/// one level with `index` as its page number, cut to 48 bits unless the
/// table lies in the upper half of the address space.
fn next_table_address(table_address: u64, index: u64) -> (r: u64)
    requires
        index < 512,
    ensures
        table_address < 0x1_0000_0000_0000 ==> r == ((table_address << 9u64) | (index << 12u64))
            & 0x0000_ffff_ffff_ffffu64,
        table_address >= 0x1_0000_0000_0000 ==> r == (table_address << 9u64) | (index << 12u64),
{
    let mut a = (table_address << 9) | (index << 12);
    proof {
        assert(table_address & (0xffffu64 << 48u64) == 0 <==> table_address < 0x1_0000_0000_0000)
            by (bit_vector);
    }
    if table_address & (0xffff << 48) == 0 {
        a = a & 0x0000_ffff_ffff_ffff;
    }
    a
}

/// A page table entry: the address it points at, its flags, and whether it
/// points at a table of the next level.
#[derive(Copy, Clone, PartialEq, Eq, Structural)]
pub struct PageTableEntry {
    pub address: usize,
    pub flags: usize,
    pub table: bool,
}

/// The entry that maps nothing.
pub open spec fn empty_entry() -> PageTableEntry {
    PageTableEntry { address: 0, flags: 0, table: false }
}

impl PageTableEntry {
    pub open spec fn spec_present(self) -> bool {
        self.flags & PRESENT != 0
    }

    pub open spec fn spec_is_block(self) -> bool {
        self.spec_present() && !self.table
    }

    /// An entry that maps nothing.
    pub fn empty() -> (r: Self)
        ensures
            r == empty_entry(),
            !r.spec_present(),
    {
        proof {
            assert(0usize & PRESENT == 0) by (bit_vector);
        }
        PageTableEntry { address: 0, flags: 0, table: false }
    }

    pub fn present(&self) -> (r: bool)
        ensures
            r == self.spec_present(),
    {
        self.flags & PRESENT != 0
    }

    /// A present entry that maps memory rather than pointing at a table.
    pub fn is_block(&self) -> (r: bool)
        ensures
            r == self.spec_is_block(),
    {
        self.present() && !self.table
    }

    pub fn is_empty(&self) -> (r: bool)
        ensures
            r == (self.address == 0 && self.flags == 0 && !self.table),
    {
        self.address == 0 && self.flags == 0 && !self.table
    }
}


/// What a write does to the entry it reaches: replace it, or give it new
/// flags.
#[derive(Copy, Clone)]
pub enum EntryOp {
    Replace(PageTableEntry),
    Flags(usize),
}

/// The entry after `op`.
pub open spec fn apply_op(op: EntryOp, e: PageTableEntry) -> PageTableEntry {
    match op {
        EntryOp::Replace(n) => n,
        EntryOp::Flags(f) => PageTableEntry { address: e.address, flags: f, table: e.table },
    }
}

/// `op` keeps entries well formed: new entries are 4KiB aligned leaves, and
/// new flags are present.
pub open spec fn op_ok(op: EntryOp) -> bool {
    match op {
        EntryOp::Replace(n) => n.address % 4096 == 0 && !n.table && n.flags & PRESENT != 0,
        EntryOp::Flags(f) => f & PRESENT != 0,
    }
}

/// `a` and `b` go through the same entries from `level` down to `target`.
pub open spec fn same_path(a: nat, b: nat, level: nat, target: nat) -> bool {
    forall|l: nat| target <= l <= level ==> #[trigger] index_of(l, a) == index_of(l, b)
}

/// On a walk down to level 1 that meets no block, the entry found for any
/// `b` that goes through the same entries as `a` is the level-1 entry of
/// `a`'s walk, which is never a table entry.
proof fn lemma_lookup_is_target(node: TableNode, a: nat, b: nat)
    requires
        node.wf(),
        same_path(a, b, 4, 1),
        !node.hits_block(a, 1),
    ensures
        node.lookup(b) matches Some(e) ==> e == node.target_entry(a, 1),
        !node.target_entry(a, 1).table,
    decreases node.level,
{
    let l = node.level as nat;
    assert(index_of(l, a) == index_of(l, b));
    let i = index_of(l, a) as int;
    let e = node.entries@[i];
    assert(e.address % 4096 == 0);
    if node.level > 1 && e.spec_present() && e.table {
        let c = *node.children@[i].unwrap();
        lemma_lookup_is_target(c, a, b);
    }
}

/// A write below a table adds at most one table per level.
proof fn lemma_tables_needed_bound(node: TableNode, a: nat, target: nat)
    requires
        node.wf(),
    ensures
        node.tables_needed(a, target) <= node.spec_level(),
        target <= node.spec_level() ==> node.tables_needed(a, target) <= node.spec_level() - target,
    decreases node.level,
{
    let i = index_of(node.level as nat, a) as int;
    let e = node.entries@[i];
    if node.level > target && e.spec_present() && e.table {
        let c = *node.children@[i].unwrap();
        lemma_tables_needed_bound(c, a, target);
    }
}

/// Every entry a walk finds is 4KiB aligned.
proof fn lemma_lookup_aligned(node: TableNode, a: nat)
    requires
        node.wf(),
        node.lookup(a).is_some(),
    ensures
        node.lookup(a).unwrap().address % 4096 == 0,
    decreases node.level,
{
    let i = index_of(node.level as nat, a) as int;
    let e = node.entries@[i];
    if node.level == 2 && e.spec_is_block() {
    } else if node.level <= 1 {
    } else if e.spec_present() && e.table {
        let c = *node.children@[i].unwrap();
        lemma_lookup_aligned(c, a);
    }
}

/// The walk indices of `x` at the four levels determine its 4KiB page
/// number modulo `2^36`.
proof fn lemma_path_digits(x: nat)
    ensures
        (x / 4096) as int % 0x10_0000_0000 == index_of(1, x) + 512 * index_of(2, x) + 512 * 512 * index_of(3, x)
            + 512 * 512 * 512 * index_of(4, x),
{
    lemma2_to64();
    lemma2_to64_rest();
    let xi = x as int;
    let p = xi / 4096;
    lemma_div_denominator(xi, 4096, 512);
    lemma_div_denominator(xi, 2097152, 512);
    lemma_div_denominator(xi, 1073741824, 512);
    assert(p >= 0) by {
        vstd::arithmetic::div_mod::lemma_div_pos_is_pos(xi, 4096);
    }
    let p1 = p / 512;
    let p2 = p1 / 512;
    let p3 = p2 / 512;
    lemma_div_denominator(p, 512, 512);
    lemma_div_denominator(p, 262144, 512);
    lemma_div_denominator(xi, 4096, 262144);
    lemma_div_denominator(xi, 4096, 134217728);
    assert(xi / 2097152 == p1);
    assert(xi / 1073741824 == p2);
    assert(xi / 549755813888 == p3);
    assert(p1 >= 0 && p2 >= 0) by {
        vstd::arithmetic::div_mod::lemma_div_pos_is_pos(p, 512);
        vstd::arithmetic::div_mod::lemma_div_pos_is_pos(p1, 512);
    }
    lemma_breakdown(p, 512, 0x800_0000);
    lemma_breakdown(p1, 512, 0x4_0000);
    lemma_breakdown(p2, 512, 512);
    assert(index_of(1, x) == p % 512);
    assert(index_of(2, x) == p1 % 512);
    assert(index_of(3, x) == p2 % 512);
    assert(index_of(4, x) == p3 % 512);
    assert(p % 0x10_0000_0000 == 512 * (p1 % 0x800_0000) + p % 512);
    assert(p1 % 0x800_0000 == 512 * (p2 % 0x4_0000) + p1 % 512);
    assert(p2 % 0x4_0000 == 512 * (p3 % 512) + p2 % 512);
    assert((x / 4096) as int == p);
    let (a, b, c, d) = (p % 512, p1 % 512, p2 % 512, p3 % 512);
    assert(p % 0x10_0000_0000 == a + 512 * b + 512 * 512 * c + 512 * 512 * 512 * d) by (nonlinear_arith)
        requires
            p % 0x10_0000_0000 == 512 * (p1 % 0x800_0000) + a,
            p1 % 0x800_0000 == 512 * (p2 % 0x4_0000) + b,
            p2 % 0x4_0000 == 512 * d + c,
    ;
}

/// Two 4KiB pages less than `2^48` bytes apart share no address: no
/// address walks like both.
proof fn lemma_pages_apart(p: nat, q: nat, b: nat)
    requires
        p % 4096 == 0,
        q % 4096 == 0,
        p < q,
        q - p < 0x1_0000_0000_0000,
        same_path(p, b, 4, 1),
    ensures
        !same_path(q, b, 4, 1),
{
    if same_path(q, b, 4, 1) {
        assert(index_of(1, p) == index_of(1, q) && index_of(2, p) == index_of(2, q)
            && index_of(3, p) == index_of(3, q) && index_of(4, p) == index_of(4, q)) by {
            assert(index_of(1, p) == index_of(1, b) && index_of(1, q) == index_of(1, b));
            assert(index_of(2, p) == index_of(2, b) && index_of(2, q) == index_of(2, b));
            assert(index_of(3, p) == index_of(3, b) && index_of(3, q) == index_of(3, b));
            assert(index_of(4, p) == index_of(4, b) && index_of(4, q) == index_of(4, b));
        }
        lemma_path_digits(p);
        lemma_path_digits(q);
        let pp = p as int / 4096;
        let qq = q as int / 4096;
        vstd::arithmetic::div_mod::lemma_fundamental_div_mod(p as int, 4096);
        vstd::arithmetic::div_mod::lemma_fundamental_div_mod(q as int, 4096);
        assert(0 < qq - pp < 0x10_0000_0000);
        vstd::arithmetic::div_mod::lemma_mod_equivalence(qq, pp, 0x10_0000_0000);
        vstd::arithmetic::div_mod::lemma_small_mod((qq - pp) as nat, 0x10_0000_0000);
    }
}

/// A page table of some level, with the tables its entries point at.
pub struct TableNode {
    level: usize,
    entries: Vec<PageTableEntry>,
    children: Vec<Option<Box<TableNode>>>,
}

impl TableNode {
    pub closed spec fn spec_level(&self) -> nat {
        self.level as nat
    }

    /// The entry of `index`.
    pub closed spec fn entry(&self, index: int) -> PageTableEntry {
        self.entries@[index]
    }

    /// The table entry `index` points at.
    pub closed spec fn child(&self, index: int) -> Option<Box<TableNode>> {
        self.children@[index]
    }

    /// The table's invariant: 512 entries; an entry points at a table of the
    /// next level exactly when it is present and marked as a table; tables
    /// above level 2 hold only table entries; every address is 4KiB aligned.
    pub closed spec fn wf(&self) -> bool {
        self.wf_rec()
    }

    spec fn wf_rec(&self) -> bool
        decreases self.level,
    {
        &&& 1 <= self.level <= 4
        &&& self.entries@.len() == ENTRIES
        &&& self.children@.len() == ENTRIES
        &&& forall|i: int|
            0 <= i < ENTRIES ==> {
                let e = #[trigger] self.entries@[i];
                &&& e.address % 4096 == 0
                &&& self.level == 1 ==> !e.table
                &&& self.level >= 3 && e.spec_present() ==> e.table
                &&& e.table ==> e.spec_present()
                &&& (e.spec_present() && e.table) <==> self.children@[i].is_some()
            }
        &&& forall|i: int|
            0 <= i < ENTRIES ==> match #[trigger] self.children@[i] {
                Some(c) => c.level + 1 == self.level && c.wf_rec(),
                None => true,
            }
    }

    /// What a walk for `a` from this table finds: the level-1 entry, a
    /// level-2 block, or nothing when a table on the way is missing.
    pub closed spec fn lookup(&self, a: nat) -> Option<PageTableEntry> {
        self.lookup_rec(a)
    }

    spec fn lookup_rec(&self, a: nat) -> Option<PageTableEntry>
        decreases self.level,
    {
        let i = index_of(self.level as nat, a) as int;
        let e = self.entries@[i];
        if self.level == 2 && e.spec_is_block() {
            Some(e)
        } else if self.level <= 1 {
            Some(e)
        } else if e.spec_present() && e.table {
            match self.children@[i] {
                Some(c) => if c.level < self.level {
                    c.lookup_rec(a)
                } else {
                    None
                },
                None => None,
            }
        } else {
            None
        }
    }

    /// The translation of `a`: the mapped address (the entry's address plus
    /// the offset of `a` in its 4KiB page) and the flags.
    pub open spec fn translation(&self, a: nat) -> Option<(nat, usize)> {
        match self.lookup(a) {
            Some(e) => if e.spec_present() {
                Some(((e.address + a % 4096) as nat, e.flags))
            } else {
                None
            },
            None => None,
        }
    }


    /// The entry at `target` level on the walk for `a`, or an empty entry
    /// when the walk stops above it.
    pub closed spec fn target_entry(&self, a: nat, target: nat) -> PageTableEntry {
        self.target_entry_rec(a, target)
    }

    spec fn target_entry_rec(&self, a: nat, target: nat) -> PageTableEntry
        decreases self.level,
    {
        let i = index_of(self.level as nat, a) as int;
        let e = self.entries@[i];
        if self.level <= target {
            e
        } else if e.spec_present() && e.table {
            match self.children@[i] {
                Some(c) => if c.level < self.level {
                    c.target_entry_rec(a, target)
                } else {
                    empty_entry()
                },
                None => empty_entry(),
            }
        } else {
            empty_entry()
        }
    }

    /// How many tables a write for `a` at `target` level has to create.
    pub closed spec fn tables_needed(&self, a: nat, target: nat) -> nat {
        self.tables_needed_rec(a, target)
    }

    spec fn tables_needed_rec(&self, a: nat, target: nat) -> nat
        decreases self.level,
    {
        let i = index_of(self.level as nat, a) as int;
        let e = self.entries@[i];
        if self.level <= target {
            0
        } else if e.spec_present() && e.table {
            match self.children@[i] {
                Some(c) => if c.level < self.level {
                    c.tables_needed_rec(a, target)
                } else {
                    0
                },
                None => 0,
            }
        } else {
            (self.level - target) as nat
        }
    }

    /// Whether the walk for `a` meets a 2MiB block before reaching `target`.
    pub closed spec fn hits_block(&self, a: nat, target: nat) -> bool {
        self.hits_block_rec(a, target)
    }

    spec fn hits_block_rec(&self, a: nat, target: nat) -> bool
        decreases self.level,
    {
        let i = index_of(self.level as nat, a) as int;
        let e = self.entries@[i];
        if self.level <= target {
            false
        } else if self.level == 2 && e.spec_is_block() {
            true
        } else if e.spec_present() && e.table {
            match self.children@[i] {
                Some(c) => if c.level < self.level {
                    c.hits_block_rec(a, target)
                } else {
                    false
                },
                None => false,
            }
        } else {
            false
        }
    }

    /// Whether the walk for `a` stops exactly at `target` level: through
    /// tables down to a level-1 entry, or at a level-2 block.
    pub closed spec fn reaches(&self, a: nat, target: nat) -> bool {
        self.reaches_rec(a, target)
    }

    spec fn reaches_rec(&self, a: nat, target: nat) -> bool
        decreases self.level,
    {
        let i = index_of(self.level as nat, a) as int;
        let e = self.entries@[i];
        if self.level == target {
            target == 1 || e.spec_is_block()
        } else if self.level > target && e.spec_present() && e.table {
            match self.children@[i] {
                Some(c) => if c.level < self.level {
                    c.reaches_rec(a, target)
                } else {
                    false
                },
                None => false,
            }
        } else {
            false
        }
    }

    /// The level-`level` entry of the walk for `a` (a copy).
    fn get_entry(&self, a: Address<Virtual>) -> (r: Option<PageTableEntry>)
        requires
            self.wf(),
        ensures
            r == self.lookup(a.value() as nat),
        decreases self.level,
    {
        let index = get_index(self.level, a);
        let e = self.entries[index];
        if self.level == 2 && e.is_block() {
            return Some(e);
        }
        if self.level == 1 {
            return Some(e);
        }
        if e.present() && e.table {
            proof {
                assert(self.children@[index as int].is_some());
            }
            match &self.children[index] {
                Some(c) => c.get_entry(a),
                None => None,
            }
        } else {
            None
        }
    }

    /// Whether the walk for `a` meets a 2MiB block above `target`, and how
    /// many tables a write at `target` would add.
    fn walk_needs(&self, a: Address<Virtual>, target: usize) -> (r: (bool, usize))
        requires
            self.wf(),
            1 <= target,
        ensures
            r.0 == self.hits_block(a.value() as nat, target as nat),
            r.1 == self.tables_needed(a.value() as nat, target as nat),
            r.1 <= self.spec_level(),
            target <= self.spec_level() ==> r.1 <= self.spec_level() - target,
        decreases self.level,
    {
        let index = get_index(self.level, a);
        let e = self.entries[index];
        if self.level <= target {
            return (false, 0);
        }
        if self.level == 2 && e.is_block() {
            proof {
                assert(self.tables_needed(a.value() as nat, target as nat) <= self.spec_level()) by {
                    if e.spec_present() && e.table {
                        let c = *self.children@[index as int].unwrap();
                        lemma_tables_needed_bound(c, a.value() as nat, target as nat);
                    }
                }
            }
            return (true, if e.present() && e.table { 0 } else { self.level - target });
        }
        if e.present() && e.table {
            proof {
                assert(self.children@[index as int].is_some());
            }
            match &self.children[index] {
                Some(c) => c.walk_needs(a, target),
                None => (false, 0),
            }
        } else {
            (false, self.level - target)
        }
    }

    /// tables with frames from `alloc`, and applies `op` to it.
    fn write_entry(
        &mut self,
        a: Address<Virtual>,
        target: usize,
        op: EntryOp,
        alloc: &mut PhysicalMemory,
    )
        requires
            old(self).wf(),
            1 <= target <= 2,
            target <= old(self).spec_level(),
            !old(self).hits_block(a.value() as nat, target as nat),
            op_ok(op),
            old(alloc).wf(),
            free_bytes(old(alloc)@) >= old(self).tables_needed(a.value() as nat, target as nat)
                * 4096,
        ensures
            final(self).wf(),
            final(self).spec_level() == old(self).spec_level(),
            final(alloc).wf(),
            free_bytes(final(alloc)@) + old(self).tables_needed(a.value() as nat, target as nat)
                * 4096 == free_bytes(old(alloc)@),
            ({
                let ne = apply_op(op, old(self).target_entry(a.value() as nat, target as nat));
                let lv = old(self).spec_level();
                &&& !ne.table ==> forall|b: nat|
                    same_path(a.value() as nat, b, lv, target as nat) ==> #[trigger] final(self).lookup(b) == Some(ne)
                &&& ne.table ==> forall|b: nat|
                    #[trigger] final(self).translation(b) == old(self).translation(b)
                &&& forall|b: nat|
                    !same_path(a.value() as nat, b, lv, target as nat) ==> #[trigger] final(self).translation(b) == old(self).translation(b)
            }),
            target == 1 ==> forall|b: nat| #[trigger] final(self).hits_block(b, 1) == old(self).hits_block(b, 1),
            !apply_op(op, old(self).target_entry(a.value() as nat, target as nat)).table ==> final(self).reaches(
                a.value() as nat,
                target as nat,
            ),
        decreases old(self).level,
    {
        let index = get_index(self.level, a);
        let ghost av = a.value() as nat;
        let ghost lv = self.level as nat;
        if self.level == target {
            let old_e = self.entries[index];
            let ne = match op {
                EntryOp::Replace(n) => n,
                EntryOp::Flags(f) => PageTableEntry { address: old_e.address, flags: f, table: old_e.table },
            };
            self.entries.set(index, ne);
            if !ne.table {
                self.children.set(index, None);
            }
            proof {
                assert(ne == apply_op(op, old(self).target_entry(av, target as nat)));
                assert forall|b: nat| !ne.table && same_path(av, b, lv, target as nat) implies #[trigger] self.lookup(b) == Some(ne) by {
                    assert(index_of(lv, av) == index_of(lv, b));
                    if target == 2 {
                        assert(ne.flags & PRESENT != 0);
                    }
                }
                assert forall|b: nat| ne.table implies #[trigger] self.translation(b) == old(self).translation(b) by {
                    if index_of(lv, b) == index {
                        assert(old_e.table);
                    }
                }
                assert forall|b: nat| !same_path(av, b, lv, target as nat) implies #[trigger] self.translation(b) == old(self).translation(b) by {
                    if index_of(lv, b) == index {
                        assert(same_path(av, b, lv, target as nat));
                    }
                }
                assert(target == 1 ==> forall|b: nat| #[trigger] self.hits_block(b, 1) == old(self).hits_block(b, 1));
                if !ne.table {
                    assert(self.entries@[index as int] == ne);
                    if target == 2 {
                        assert(ne.flags & PRESENT != 0);
                    }
                    assert(self.reaches(av, target as nat));
                }
            }
            return ;
        }
        let e = self.entries[index];
        if !(e.present() && e.table) {
            proof {
                alloc.lemma_wf();
                crate::buddy::lemma_free_bytes_nonempty(alloc@, NUM_SIZE_CLASS as nat);
                lemma_allocate_conserves_bytes(alloc@, 0);
                lemma2_to64();
            }
            let frame = alloc.acquire::<Size4K>().unwrap();
            proof {
                lemma2_to64();
            }
            self.entries.set(
                index,
                PageTableEntry { address: frame.start().as_usize(), flags: PRESENT, table: true },
            );
            let new_child = TableNode::new_empty(self.level - 1);
            self.children.set(index, Some(Box::new(new_child)));
            proof {
                let ci = index_of((lv - 1) as nat, av) as int;
                assert(new_child.entry(ci) == empty_entry());
                assert(0usize & PRESENT == 0) by (bit_vector);
                assert(PRESENT & PRESENT != 0) by (bit_vector);
                assert(self.entries@[index as int].spec_present());
                assert(!new_child.hits_block(av, target as nat));
                assert(new_child.target_entry(av, target as nat) == empty_entry());
                assert(new_child.tables_needed(av, target as nat) == (lv - 1 - target) as nat);
                assert(old(self).tables_needed(av, target as nat) == (lv - target) as nat);
                assert(old(self).target_entry(av, target as nat) == empty_entry());
            }
        }
        let ghost mid = *self;
        let ghost mid_alloc = alloc@;
        let mut child_opt: Option<Box<TableNode>> = None;
        self.children.set_and_swap(index, &mut child_opt);
        let mut child = child_opt.unwrap();
        let ghost child_before = *child;
        proof {
            assert(mid.children@[index as int] == Some(child));
            assert(child_before.spec_level() + 1 == lv);
            assert(mid.entries@[index as int].spec_present() && mid.entries@[index as int].table);
            if e.spec_present() && e.table {
                assert(child_before == *old(self).children@[index as int].unwrap());
                assert(!child_before.hits_block(av, target as nat));
            } else {
                assert(!child_before.hits_block(av, target as nat));
                assert(child_before.target_entry(av, target as nat) == empty_entry());
                assert(child_before.tables_needed(av, target as nat) == (lv - 1 - target) as nat);
                assert(forall|b: nat| #[trigger] child_before.translation(b).is_none());
            }
        }
        child.write_entry(a, target, op, alloc);
        self.children.set(index, Some(child));
        proof {
            let child_after = *child;
            assert(self.entries@ == mid.entries@);
            assert forall|b: nat| index_of(lv, b) != index implies #[trigger] self.lookup(b) == old(self).lookup(b) by {
            }
            assert forall|b: nat| index_of(lv, b) == index implies #[trigger] self.lookup(b) == child_after.lookup(b) by {
            }
            if e.spec_present() && e.table {
                assert forall|b: nat| index_of(lv, b) == index implies #[trigger] old(self).lookup(b) == child_before.lookup(b) by {
                }
            } else {
                assert forall|b: nat| index_of(lv, b) == index implies #[trigger] old(self).translation(b) == None::<(nat, usize)> by {
                }
            }
            assert forall|b: nat| same_path(av, b, lv, target as nat) implies same_path(av, b, (lv - 1) as nat, target as nat) && index_of(lv, b) == index by {
                assert(index_of(lv, av) == index_of(lv, b));
            }
            let ne = apply_op(op, old(self).target_entry(av, target as nat));
            assert(ne == apply_op(op, child_before.target_entry(av, target as nat)));
            assert(free_bytes(alloc@) + old(self).tables_needed(av, target as nat) * 4096 == free_bytes(old(alloc)@));
            assert forall|b: nat| index_of(lv, b) == index && !same_path(av, b, lv, target as nat) implies !same_path(av, b, (lv - 1) as nat, target as nat) by {
                if same_path(av, b, (lv - 1) as nat, target as nat) {
                    assert forall|l: nat| target <= l <= lv implies #[trigger] index_of(l, av) == index_of(l, b) by {
                        if l < lv {
                            assert(index_of(l, av) == index_of(l, b));
                        }
                    }
                }
            }
            assert(!ne.table ==> forall|b: nat| same_path(av, b, lv, target as nat) ==> #[trigger] self.lookup(b) == Some(ne));
            assert forall|b: nat| index_of(lv, b) == index implies #[trigger] child_before.translation(b) == old(self).translation(b) by {
                if e.spec_present() && e.table {
                    assert(old(self).lookup(b) == child_before.lookup(b));
                } else {
                    assert(old(self).translation(b) == None::<(nat, usize)>);
                    assert(child_before.translation(b).is_none());
                }
            }
            assert forall|b: nat| ne.table implies #[trigger] self.translation(b) == old(self).translation(b) by {
                if index_of(lv, b) == index {
                    assert(self.lookup(b) == child_after.lookup(b));
                    assert(child_after.translation(b) == child_before.translation(b));
                    assert(child_before.translation(b) == old(self).translation(b));
                } else {
                    assert(self.lookup(b) == old(self).lookup(b));
                }
            }
            assert forall|b: nat| !same_path(av, b, lv, target as nat) implies #[trigger] self.translation(b) == old(self).translation(b) by {
                if index_of(lv, b) == index {
                    assert(!same_path(av, b, (lv - 1) as nat, target as nat));
                    assert(self.lookup(b) == child_after.lookup(b));
                    assert(child_after.translation(b) == child_before.translation(b));
                    assert(child_before.translation(b) == old(self).translation(b));
                } else {
                    assert(self.lookup(b) == old(self).lookup(b));
                }
            }
            if !ne.table {
                assert(child_after.reaches(av, target as nat));
                assert(self.entries@[index as int].spec_present() && self.entries@[index as int].table);
                assert(self.children@[index as int] == Some(child));
                assert(self.reaches(av, target as nat));
            }
            if target == 1 {
                assert forall|b: nat| #[trigger] self.hits_block(b, 1) == old(self).hits_block(b, 1) by {
                    if index_of(lv, b) == index {
                        assert(child_after.hits_block(b, 1) == child_before.hits_block(b, 1));
                        if e.spec_present() && e.table {
                            assert(old(self).hits_block(b, 1) == child_before.hits_block(b, 1));
                        } else {
                            assert(!old(self).hits_block(b, 1));
                            assert(!child_before.hits_block(b, 1)) by {
                                let k = index_of((lv - 1) as nat, b) as int;
                                assert(0 <= k < 512);
                                assert(child_before.entry(k) == empty_entry());
                            }
                        }
                        assert(!self.entries@[index as int].spec_is_block());
                        assert(self.hits_block(b, 1) == child_after.hits_block(b, 1));
                    } else {
                        assert(self.entries@[index_of(lv, b) as int] == old(self).entries@[index_of(lv, b) as int]);
                        assert(self.children@[index_of(lv, b) as int] == old(self).children@[index_of(lv, b) as int]);
                    }
                }
            }
        }
    }


    /// Clears the `target`-level entry on the walk for `a`, which must end
    /// exactly there.
    fn clear_entry(&mut self, a: Address<Virtual>, target: usize)
        requires
            old(self).wf(),
            1 <= target <= 2,
            target <= old(self).spec_level(),
            old(self).reaches(a.value() as nat, target as nat),
        ensures
            final(self).wf(),
            final(self).spec_level() == old(self).spec_level(),
            forall|b: nat|
                same_path(a.value() as nat, b, old(self).spec_level(), target as nat)
                    ==> #[trigger] final(self).translation(b).is_none(),
            forall|b: nat|
                !same_path(a.value() as nat, b, old(self).spec_level(), target as nat)
                    ==> #[trigger] final(self).translation(b) == old(self).translation(b),
        decreases old(self).level,
    {
        let index = get_index(self.level, a);
        let ghost av = a.value() as nat;
        let ghost lv = self.level as nat;
        if self.level == target {
            self.entries.set(index, PageTableEntry::empty());
            self.children.set(index, None);
            proof {
                assert(0usize & PRESENT == 0) by (bit_vector);
                assert forall|b: nat| same_path(av, b, lv, target as nat) implies #[trigger] self.translation(b).is_none() by {
                    assert(index_of(lv, av) == index_of(lv, b));
                }
                assert forall|b: nat| !same_path(av, b, lv, target as nat) implies #[trigger] self.translation(b) == old(self).translation(b) by {
                    if index_of(lv, b) == index {
                        assert(same_path(av, b, lv, target as nat));
                    }
                }
                assert(target == 1 ==> forall|b: nat| #[trigger] self.hits_block(b, 1) == old(self).hits_block(b, 1));
            }
            return ;
        }
        let ghost mid = *self;
        proof {
            assert(self.entries@[index as int].spec_present() && self.entries@[index as int].table);
            assert(self.children@[index as int].is_some());
        }
        let mut child_opt: Option<Box<TableNode>> = None;
        self.children.set_and_swap(index, &mut child_opt);
        let mut child = child_opt.unwrap();
        let ghost child_before = *child;
        proof {
            assert(child_before.spec_level() + 1 == lv);
            assert(child_before.reaches(av, target as nat));
        }
        child.clear_entry(a, target);
        self.children.set(index, Some(child));
        proof {
            let child_after = *child;
            assert(self.entries@ == mid.entries@);
            assert forall|b: nat| index_of(lv, b) != index implies #[trigger] self.lookup(b) == old(self).lookup(b) by {
            }
            assert forall|b: nat| index_of(lv, b) == index implies #[trigger] self.lookup(b) == child_after.lookup(b) by {
            }
            assert forall|b: nat| index_of(lv, b) == index implies #[trigger] old(self).lookup(b) == child_before.lookup(b) by {
            }
            assert forall|b: nat| same_path(av, b, lv, target as nat) implies #[trigger] self.translation(b).is_none() by {
                assert(index_of(lv, av) == index_of(lv, b));
                assert(same_path(av, b, (lv - 1) as nat, target as nat));
                assert(child_after.translation(b).is_none());
                assert(self.lookup(b) == child_after.lookup(b));
            }
            assert forall|b: nat| !same_path(av, b, lv, target as nat) implies #[trigger] self.translation(b) == old(self).translation(b) by {
                if index_of(lv, b) == index {
                    if same_path(av, b, (lv - 1) as nat, target as nat) {
                        assert forall|l: nat| target <= l <= lv implies #[trigger] index_of(l, av) == index_of(l, b) by {
                            if l < lv {
                                assert(index_of(l, av) == index_of(l, b));
                            }
                        }
                    }
                    assert(self.lookup(b) == child_after.lookup(b));
                    assert(child_after.translation(b) == child_before.translation(b));
                    assert(old(self).lookup(b) == child_before.lookup(b));
                } else {
                    assert(self.lookup(b) == old(self).lookup(b));
                }
            }
        }
    }

    /// A table of `level` with no entries.
    pub fn new_empty(level: usize) -> (r: Self)
        requires
            1 <= level <= 4,
        ensures
            r.wf(),
            r.spec_level() == level,
            forall|a: nat| r.translation(a).is_none(),
            forall|i: int| 0 <= i < ENTRIES ==> #[trigger] r.entry(i) == empty_entry(),
    {
        let mut entries: Vec<PageTableEntry> = Vec::new();
        let mut children: Vec<Option<Box<TableNode>>> = Vec::new();
        let mut i: usize = 0;
        while i < ENTRIES
            invariant
                i <= ENTRIES,
                entries@.len() == i,
                children@.len() == i,
                forall|j: int| 0 <= j < i ==> #[trigger] entries@[j] == empty_entry(),
                forall|j: int| 0 <= j < i ==> (#[trigger] children@[j]).is_none(),
            decreases ENTRIES - i,
        {
            entries.push(PageTableEntry::empty());
            children.push(None);
            i = i + 1;
        }
        let r = TableNode { level, entries, children };
        proof {
            assert(0usize & PRESENT == 0) by (bit_vector);
            assert(r.wf());
            assert forall|a: nat| r.translation(a).is_none() by {
                let k = index_of(level as nat, a) as int;
                assert(0 <= k < 512);
                assert(r.entries@[k] == empty_entry());
            }
        }
        r
    }

    /// A copy of the table and of every table below it: it walks every
    /// address as this one does.
    fn deep_copy(&self) -> (r: Self)
        requires
            self.wf(),
        ensures
            r.wf(),
            r.level == self.level,
            r.entries@ == self.entries@,
            forall|a: nat| #[trigger] r.lookup(a) == self.lookup(a),
        decreases self.level,
    {
        let mut entries: Vec<PageTableEntry> = Vec::new();
        let mut children: Vec<Option<Box<TableNode>>> = Vec::new();
        let mut i: usize = 0;
        while i < ENTRIES
            invariant
                self.wf(),
                i <= ENTRIES,
                entries@.len() == i,
                children@.len() == i,
                forall|j: int| 0 <= j < i ==> #[trigger] entries@[j] == self.entries@[j],
                forall|j: int|
                    0 <= j < i ==> match (#[trigger] children@[j], self.children@[j]) {
                        (Some(c), Some(d)) => c.wf_rec() && c.level == d.level && forall|a: nat|
                            #[trigger] c.lookup_rec(a) == d.lookup_rec(a),
                        (None, None) => true,
                        _ => false,
                    },
            decreases ENTRIES - i,
        {
            entries.push(self.entries[i]);
            match &self.children[i] {
                Some(c) => {
                    proof {
                        assert(c.level + 1 == self.level);
                    }
                    let d = c.deep_copy();
                    let ghost before = children@;
                    children.push(Some(Box::new(d)));
                    proof {
                        assert(d.wf_rec());
                        assert(forall|a: nat| #[trigger] d.lookup_rec(a) == c.lookup_rec(a)) by {
                            assert forall|a: nat| #[trigger] d.lookup_rec(a) == c.lookup_rec(a) by {
                                assert(d.lookup(a) == c.lookup(a));
                            }
                        }
                        assert(forall|j: int| 0 <= j < i ==> children@[j] == before[j]);
                    }
                },
                None => {
                    let ghost before = children@;
                    children.push(None);
                    proof {
                        assert(forall|j: int| 0 <= j < i ==> children@[j] == before[j]);
                    }
                },
            }
            i = i + 1;
        }
        let r = TableNode { level: self.level, entries, children };
        proof {
            assert(r.entries@ =~= self.entries@);
            assert forall|a: nat| #[trigger] r.lookup(a) == self.lookup(a) by {
                let k = index_of(self.level as nat, a) as int;
                assert(0 <= k < 512);
                match (r.children@[k], self.children@[k]) {
                    (Some(c), Some(d)) => {
                        assert(c.lookup_rec(a) == d.lookup_rec(a));
                    },
                    _ => {},
                }
            }
        }
        r
    }
}


/// The table level at which pages of size `S` are mapped.
pub open spec fn page_level<S: PageSize>() -> nat {
    if S::spec_log_size() == 12 {
        1
    } else {
        2
    }
}

/// Page sizes that page tables map: 4KiB and 2MiB.
pub open spec fn mappable<S: PageSize>() -> bool {
    S::spec_log_size() == 12 || S::spec_log_size() == 21
}

fn page_level_of<S: PageSize>() -> (r: usize)
    requires
        mappable::<S>(),
    ensures
        r == page_level::<S>(),
{
    if S::log_size() == 12 {
        1
    } else {
        2
    }
}

/// A frame's address is 4KiB aligned.
proof fn lemma_frame_4k<S: PageSize, K: crate::address::MemoryKind>(f: Page<S, K>)
    requires
        f.wf(),
    ensures
        f.start_value() % 4096 == 0,
{
    S::lemma_log_size_range();
    lemma2_to64();
    crate::buddy::lemma_align_down(f.start_value() as int, 12, S::spec_log_size());
}

/// A 4KiB-aligned machine word leaves room for an in-page offset.
proof fn lemma_aligned_room(x: usize)
    requires
        x % 4096 == 0,
    ensures
        x + 4095 <= usize::MAX,
{
    crate::buddy::lemma_pow2_word();
    lemma2_to64();
    let m = usize::MAX + 1;
    assert(m % 4096 == 0) by {
        crate::buddy::lemma_align_down(pow2(usize::BITS as nat) as int, 12, usize::BITS as nat);
        vstd::arithmetic::div_mod::lemma_mod_self_0(pow2(usize::BITS as nat) as int);
    }
    let q = x / 4096;
    let n = m / 4096;
    assert(x == 4096 * q);
    assert(m == 4096 * n);
    assert(q < n) by (nonlinear_arith)
        requires
            x == 4096 * q,
            m == 4096 * n,
            x < m,
    ;
    assert(x + 4096 <= m) by (nonlinear_arith)
        requires
            x == 4096 * q,
            m == 4096 * n,
            q < n,
    ;
}

/// The entry that maps `frame` with `flags`, present.
pub open spec fn leaf_entry(frame: nat, flags: usize) -> PageTableEntry {
    PageTableEntry { address: frame as usize, flags: flags | PRESENT, table: false }
}

/// The magic page where frames are mapped temporarily.
pub const MAGIC_PAGE: u64 = 0x0000_1234_5600_0000;

/// A user address space: the root (level-4) table.
pub struct UserPageTable {
    root: TableNode,
}

/// A page mapped temporarily at the magic page.
pub struct TemporaryKernelPage<S: PageSize>(pub Page<S>);

impl UserPageTable {
    pub closed spec fn wf(&self) -> bool {
        self.root.wf() && self.root.spec_level() == 4
    }

    /// The translation of virtual address `a`.
    pub closed spec fn translation(&self, a: nat) -> Option<(nat, usize)> {
        self.root.translation(a)
    }

    /// Tables a write for `a` at `target` level needs.
    pub closed spec fn tables_needed(&self, a: nat, target: nat) -> nat {
        self.root.tables_needed(a, target)
    }

    /// Whether a 2MiB block lies on the way to `a`.
    pub closed spec fn hits_block(&self, a: nat, target: nat) -> bool {
        self.root.hits_block(a, target)
    }

    /// Whether the walk for `a` ends exactly at `target` level.
    pub closed spec fn reaches(&self, a: nat, target: nat) -> bool {
        self.root.reaches(a, target)
    }

    /// The entry a write for `a` at `target` level reaches.
    pub closed spec fn target_entry(&self, a: nat, target: nat) -> PageTableEntry {
        self.root.target_entry(a, target)
    }

    /// A write at `target` level needs at most one new table per level
    /// between the root and `target`.
    pub proof fn lemma_tables_needed(&self, a: nat, target: nat)
        requires
            self.wf(),
            1 <= target <= 4,
        ensures
            self.tables_needed(a, target) <= 4 - target,
    {
        lemma_tables_needed_bound(self.root, a, target);
    }

    /// An address space with nothing mapped: no block on any walk, and
    /// every table still to be made.
    pub fn new() -> (r: Self)
        ensures
            r.wf(),
            forall|a: nat| #[trigger] r.translation(a).is_none(),
            forall|a: nat, t: nat| !#[trigger] r.hits_block(a, t),
            forall|a: nat, t: nat| 1 <= t <= 4 ==> #[trigger] r.tables_needed(a, t) == 4 - t,
    {
        let r = UserPageTable { root: TableNode::new_empty(4) };
        proof {
            assert(0usize & PRESENT == 0) by (bit_vector);
            assert forall|a: nat, t: nat|
                !#[trigger] r.hits_block(a, t) && (1 <= t <= 4 ==> r.tables_needed(a, t) == 4 - t) by {
                let k = index_of(4, a) as int;
                assert(0 <= k < 512);
                assert(r.root.entry(k) == empty_entry());
                assert(r.root.entries@[k] == empty_entry());
            }
            assert forall|a: nat, t: nat| 1 <= t <= 4 implies #[trigger] r.tables_needed(a, t) == 4 - t by {
                let k = index_of(4, a) as int;
                assert(0 <= k < 512);
                assert(r.root.entry(k) == empty_entry());
                assert(r.root.entries@[k] == empty_entry());
                assert(r.root.level == 4);
            }
        }
        r
    }

    /// The index of `a` in a table of `level`.
    pub fn get_index(level: usize, a: Address<Virtual>) -> (r: usize)
        requires
            1 <= level <= 4,
        ensures
            r == index_of(level as nat, a.value() as nat),
    {
        get_index(level, a)
    }

    /// Translates a virtual address to the physical address and flags it
    /// is mapped with.
    pub fn translate(&self, a: Address<Virtual>) -> (r: Option<(Address<Physical>, PageFlags)>)
        requires
            self.wf(),
        ensures
            match self.translation(a.value() as nat) {
                Some((p, f)) => r.is_some() && r.unwrap().0.value() == p && r.unwrap().1.spec_bits() == f,
                None => r.is_none(),
            },
    {
        let entry = match self.root.get_entry(a) {
            Some(e) => e,
            None => return None,
        };
        if entry.present() {
            proof {
                let i = index_of(1, a.value() as nat);
                lemma_lookup_aligned(self.root, a.value() as nat);
                lemma_aligned_room(entry.address);
                let av: usize = a.value();
                assert(av & 0xfff == av % 4096) by (bit_vector);
            }
            let page_offset = a.as_usize() & 0xfff;
            Some((Address::new(entry.address + page_offset), PageFlags::from_bits_retain(entry.flags)))
        } else {
            None
        }
    }

    /// Maps `page` to `frame` with `flags` (made present); the entry must
    /// not be mapped yet. Missing tables take frames from `alloc`.
    pub fn map<S: PageSize>(
        &mut self,
        page: Page<S>,
        frame: Frame<S>,
        flags: PageFlags,
        alloc: &mut PhysicalMemory,
    ) -> (r: Page<S>)
        requires
            old(self).wf(),
            mappable::<S>(),
            frame.wf(),
            S::spec_log_size() != 12 ==> flags.spec_bits() & 0b10 == 0,
            !old(self).hits_block(page.start_value() as nat, page_level::<S>()),
            forall|b: nat|
                same_path(page.start_value() as nat, b, 4, page_level::<S>()) ==> #[trigger] old(self).translation(b).is_none(),
            old(alloc).wf(),
            free_bytes(old(alloc)@) >= old(self).tables_needed(
                page.start_value() as nat,
                page_level::<S>(),
            ) * 4096,
        ensures
            final(self).reaches(page.start_value() as nat, page_level::<S>()),
            r == page,
            final(self).wf(),
            final(alloc).wf(),
            free_bytes(final(alloc)@) + old(self).tables_needed(
                page.start_value() as nat,
                page_level::<S>(),
            ) * 4096 == free_bytes(old(alloc)@),
            forall|b: nat|
                same_path(page.start_value() as nat, b, 4, page_level::<S>()) ==> #[trigger] final(self).translation(b) == Some(
                    (
                        (frame.start_value() + b % 4096) as nat,
                        flags.spec_bits() | PRESENT,
                    ),
                ),
            forall|b: nat|
                !same_path(page.start_value() as nat, b, 4, page_level::<S>()) ==> #[trigger] final(self).translation(b) == old(self).translation(b),
            page_level::<S>() == 1 ==> forall|b: nat| #[trigger] final(self).hits_block(b, 1) == old(self).hits_block(b, 1),
    {
        self.remap(page, frame, flags, alloc)
    }

    /// Maps `page` to `frame` with `flags` (made present), replacing any
    /// mapping. Missing tables take frames from `alloc`.
    pub fn remap<S: PageSize>(
        &mut self,
        page: Page<S>,
        frame: Frame<S>,
        flags: PageFlags,
        alloc: &mut PhysicalMemory,
    ) -> (r: Page<S>)
        requires
            old(self).wf(),
            mappable::<S>(),
            frame.wf(),
            S::spec_log_size() != 12 ==> flags.spec_bits() & 0b10 == 0,
            !old(self).hits_block(page.start_value() as nat, page_level::<S>()),
            old(alloc).wf(),
            free_bytes(old(alloc)@) >= old(self).tables_needed(
                page.start_value() as nat,
                page_level::<S>(),
            ) * 4096,
        ensures
            final(self).reaches(page.start_value() as nat, page_level::<S>()),
            r == page,
            final(self).wf(),
            final(alloc).wf(),
            free_bytes(final(alloc)@) + old(self).tables_needed(
                page.start_value() as nat,
                page_level::<S>(),
            ) * 4096 == free_bytes(old(alloc)@),
            forall|b: nat|
                same_path(page.start_value() as nat, b, 4, page_level::<S>()) ==> #[trigger] final(self).translation(b) == Some(
                    (
                        (frame.start_value() + b % 4096) as nat,
                        flags.spec_bits() | PRESENT,
                    ),
                ),
            forall|b: nat|
                !same_path(page.start_value() as nat, b, 4, page_level::<S>()) ==> #[trigger] final(self).translation(b) == old(self).translation(b),
            page_level::<S>() == 1 ==> forall|b: nat| #[trigger] final(self).hits_block(b, 1) == old(self).hits_block(b, 1),
    {
        let target = page_level_of::<S>();
        let ghost fb0 = flags.spec_bits();
        let flags = flags.union(PageFlags::present());
        proof {
            lemma_frame_4k(frame);
            assert((fb0 | PRESENT) & PRESENT != 0) by (bit_vector);
        }
        let entry = PageTableEntry { address: frame.start().as_usize(), flags: flags.bits(), table: false };
        self.root.write_entry(page.start(), target, EntryOp::Replace(entry), alloc);
        page
    }

    /// Gives the `page`'s entry the flags `flags` (made present), keeping
    /// the address it maps. Missing tables take frames from `alloc`.
    pub fn update_flags<S: PageSize>(&mut self, page: Page<S>, flags: PageFlags, alloc: &mut PhysicalMemory) -> (r: Page<S>)
        requires
            old(self).wf(),
            mappable::<S>(),
            S::spec_log_size() != 12 ==> flags.spec_bits() & 0b10 == 0,
            !old(self).hits_block(page.start_value() as nat, page_level::<S>()),
            old(alloc).wf(),
            free_bytes(old(alloc)@) >= old(self).tables_needed(
                page.start_value() as nat,
                page_level::<S>(),
            ) * 4096,
        ensures
            r == page,
            final(self).wf(),
            final(alloc).wf(),
            free_bytes(final(alloc)@) + old(self).tables_needed(
                page.start_value() as nat,
                page_level::<S>(),
            ) * 4096 == free_bytes(old(alloc)@),
            ({
                let e = old(self).target_entry(page.start_value() as nat, page_level::<S>());
                &&& !e.table ==> forall|b: nat|
                    same_path(page.start_value() as nat, b, 4, page_level::<S>()) ==> #[trigger] final(self).translation(b) == Some(
                        ((e.address + b % 4096) as nat, flags.spec_bits() | PRESENT),
                    )
                &&& e.table ==> forall|b: nat|
                    #[trigger] final(self).translation(b) == old(self).translation(b)
            }),
            forall|b: nat|
                !same_path(page.start_value() as nat, b, 4, page_level::<S>()) ==> #[trigger] final(self).translation(b) == old(self).translation(b),
            page_level::<S>() == 1 ==> forall|b: nat|
                same_path(page.start_value() as nat, b, 4, 1) ==> match #[trigger] old(self).translation(b) {
                    Some((p, f)) => final(self).translation(b) == Some((p, flags.spec_bits() | PRESENT)),
                    None => true,
                },
    {
        let target = page_level_of::<S>();
        let ghost fb0 = flags.spec_bits();
        let ghost root0 = self.root;
        let flags = flags.union(PageFlags::present());
        proof {
            assert((fb0 | PRESENT) & PRESENT != 0) by (bit_vector);
        }
        self.root.write_entry(page.start(), target, EntryOp::Flags(flags.bits()), alloc);
        proof {
            if page_level::<S>() == 1 {
                let a = page.start_value() as nat;
                assert forall|b: nat| same_path(a, b, 4, 1) implies match #[trigger] root0.translation(b) {
                    Some((p, f)) => self.root.translation(b) == Some((p, fb0 | PRESENT)),
                    None => true,
                } by {
                    lemma_lookup_is_target(root0, a, b);
                }
            }
        }
        page
    }

    /// Removes the mapping of `page`, which must be mapped at its size.
    pub fn unmap<S: PageSize>(&mut self, page: Page<S>)
        requires
            old(self).wf(),
            mappable::<S>(),
            old(self).reaches(page.start_value() as nat, page_level::<S>()),
        ensures
            final(self).wf(),
            forall|b: nat|
                same_path(page.start_value() as nat, b, 4, page_level::<S>()) ==> #[trigger] final(self).translation(b).is_none(),
            forall|b: nat|
                !same_path(page.start_value() as nat, b, 4, page_level::<S>()) ==> #[trigger] final(self).translation(b) == old(self).translation(b),
    {
        let target = page_level_of::<S>();
        self.root.clear_entry(page.start(), target);
    }

    /// Maps the frame at the virtual page with the same address.
    pub fn identity_map<S: PageSize>(&mut self, frame: Frame<S>, flags: PageFlags, alloc: &mut PhysicalMemory) -> (r: Page<S>)
        requires
            old(self).wf(),
            mappable::<S>(),
            frame.wf(),
            S::spec_log_size() != 12 ==> flags.spec_bits() & 0b10 == 0,
            !old(self).hits_block(frame.start_value() as nat, page_level::<S>()),
            forall|b: nat|
                same_path(frame.start_value() as nat, b, 4, page_level::<S>()) ==> #[trigger] old(self).translation(b).is_none(),
            old(alloc).wf(),
            free_bytes(old(alloc)@) >= old(self).tables_needed(
                frame.start_value() as nat,
                page_level::<S>(),
            ) * 4096,
        ensures
            r.start_value() == frame.start_value(),
            final(self).wf(),
            final(alloc).wf(),
            free_bytes(final(alloc)@) + old(self).tables_needed(
                frame.start_value() as nat,
                page_level::<S>(),
            ) * 4096 == free_bytes(old(alloc)@),
            forall|b: nat|
                same_path(frame.start_value() as nat, b, 4, page_level::<S>()) ==> #[trigger] final(self).translation(b) == Some(
                    ((frame.start_value() + b % 4096) as nat, flags.spec_bits() | PRESENT),
                ),
            forall|b: nat|
                !same_path(frame.start_value() as nat, b, 4, page_level::<S>()) ==> #[trigger] final(self).translation(b) == old(self).translation(b),
    {
        let page = Page::<S, Virtual>::new(Address::new(frame.start().as_usize()));
        self.map(page, frame, flags, alloc)
    }

    /// Maps `frame` at the magic page, for the kernel to reach it
    /// temporarily.
    pub fn map_temporarily<S: PageSize>(&mut self, frame: Frame<S>, flags: PageFlags, alloc: &mut PhysicalMemory) -> (r: TemporaryKernelPage<S>)
        requires
            old(self).wf(),
            mappable::<S>(),
            MAGIC_PAGE <= usize::MAX,
            frame.wf(),
            S::spec_log_size() != 12 ==> flags.spec_bits() & 0b10 == 0,
            !old(self).hits_block(MAGIC_PAGE as nat, page_level::<S>()),
            forall|b: nat|
                same_path(MAGIC_PAGE as nat, b, 4, page_level::<S>()) ==> #[trigger] old(self).translation(b).is_none(),
            old(alloc).wf(),
            free_bytes(old(alloc)@) >= old(self).tables_needed(MAGIC_PAGE as nat, page_level::<S>())
                * 4096,
        ensures
            final(self).reaches(MAGIC_PAGE as nat, page_level::<S>()),
            r.0.start_value() == MAGIC_PAGE,
            final(self).wf(),
            final(alloc).wf(),
            free_bytes(final(alloc)@) + old(self).tables_needed(MAGIC_PAGE as nat, page_level::<S>())
                * 4096 == free_bytes(old(alloc)@),
            forall|b: nat|
                same_path(MAGIC_PAGE as nat, b, 4, page_level::<S>()) ==> #[trigger] final(self).translation(b) == Some(
                    ((frame.start_value() + b % 4096) as nat, flags.spec_bits() | PRESENT),
                ),
            forall|b: nat|
                !same_path(MAGIC_PAGE as nat, b, 4, page_level::<S>()) ==> #[trigger] final(self).translation(b) == old(self).translation(b),
    {
        let magic = MAGIC_PAGE as usize;
        proof {
            lemma_page_bytes::<S>();
            lemma2_to64();
            assert(MAGIC_PAGE % 0x1000000 == 0);
            if S::spec_log_size() == 12 {
                assert(pow2(12) == 4096);
            } else {
                assert(pow2(21) == 0x200000) by {
                    lemma2_to64();
                }
            }
        }
        let page = Page::<S, Virtual>::new(Address::new(magic));
        self.map(page, frame, flags, alloc);
        TemporaryKernelPage(page)
    }
}

impl<S: PageSize> TemporaryKernelPage<S> {
    /// Ends the temporary mapping in `pt`, the table it was made in: the
    /// magic page no longer translates, and nothing else changes.
    pub fn release(self, pt: &mut UserPageTable)
        requires
            old(pt).wf(),
            mappable::<S>(),
            old(pt).reaches(self.0.start_value() as nat, page_level::<S>()),
        ensures
            final(pt).wf(),
            forall|b: nat|
                same_path(self.0.start_value() as nat, b, 4, page_level::<S>()) ==> #[trigger] final(pt).translation(b).is_none(),
            forall|b: nat|
                !same_path(self.0.start_value() as nat, b, 4, page_level::<S>()) ==> #[trigger] final(pt).translation(b) == old(pt).translation(b),
    {
        pt.unmap(self.0);
    }
}


/// The kernel's address space: the root (level-4) table.
pub struct PageTable {
    root: TableNode,
}

impl PageTable {
    pub closed spec fn wf(&self) -> bool {
        self.root.wf() && self.root.spec_level() == 4
    }

    pub closed spec fn translation(&self, a: nat) -> Option<(nat, usize)> {
        self.root.translation(a)
    }

    pub closed spec fn tables_needed(&self, a: nat, target: nat) -> nat {
        self.root.tables_needed(a, target)
    }

    pub closed spec fn hits_block(&self, a: nat, target: nat) -> bool {
        self.root.hits_block(a, target)
    }

    /// An address space with nothing mapped.
    pub fn new() -> (r: Self)
        ensures
            r.wf(),
            forall|a: nat| #[trigger] r.translation(a).is_none(),
    {
        PageTable { root: TableNode::new_empty(4) }
    }

    /// The index of `a` in a table of `level`.
    pub fn get_index(level: usize, a: Address<Virtual>) -> (r: usize)
        requires
            1 <= level <= 4,
        ensures
            r == index_of(level as nat, a.value() as nat),
    {
        get_index(level, a)
    }

    /// Maps `page` to `frame` with `flags` (made present), creating the
    /// missing tables with frames from `alloc`.
    pub fn map<S: PageSize>(&mut self, page: Page<S>, frame: Frame<S>, flags: PageFlags, alloc: &mut PhysicalMemory) -> (r: Page<S>)
        requires
            old(self).wf(),
            mappable::<S>(),
            frame.wf(),
            !old(self).hits_block(page.start_value() as nat, page_level::<S>()),
            old(alloc).wf(),
            free_bytes(old(alloc)@) >= old(self).tables_needed(
                page.start_value() as nat,
                page_level::<S>(),
            ) * 4096,
        ensures
            r == page,
            final(self).wf(),
            final(alloc).wf(),
            free_bytes(final(alloc)@) + old(self).tables_needed(
                page.start_value() as nat,
                page_level::<S>(),
            ) * 4096 == free_bytes(old(alloc)@),
            forall|b: nat|
                same_path(page.start_value() as nat, b, 4, page_level::<S>()) ==> #[trigger] final(self).translation(b) == Some(
                    ((frame.start_value() + b % 4096) as nat, flags.spec_bits() | PRESENT),
                ),
            forall|b: nat|
                !same_path(page.start_value() as nat, b, 4, page_level::<S>()) ==> #[trigger] final(self).translation(b) == old(self).translation(b),
            page_level::<S>() == 1 ==> forall|b: nat| #[trigger] final(self).hits_block(b, 1) == old(self).hits_block(b, 1),
    {
        let target = page_level_of::<S>();
        let ghost fb0 = flags.spec_bits();
        let flags = flags.union(PageFlags::present());
        proof {
            lemma_frame_4k(frame);
            assert((fb0 | PRESENT) & PRESENT != 0) by (bit_vector);
        }
        let entry = PageTableEntry { address: frame.start().as_usize(), flags: flags.bits(), table: false };
        self.root.write_entry(page.start(), target, EntryOp::Replace(entry), alloc);
        page
    }

    /// Maps the frame at the virtual page with the same address.
    pub fn identity_map<S: PageSize>(&mut self, frame: Frame<S>, flags: PageFlags, alloc: &mut PhysicalMemory) -> (r: Page<S>)
        requires
            old(self).wf(),
            mappable::<S>(),
            frame.wf(),
            !old(self).hits_block(frame.start_value() as nat, page_level::<S>()),
            old(alloc).wf(),
            free_bytes(old(alloc)@) >= old(self).tables_needed(
                frame.start_value() as nat,
                page_level::<S>(),
            ) * 4096,
        ensures
            r.start_value() == frame.start_value(),
            final(self).wf(),
            final(alloc).wf(),
            forall|b: nat|
                same_path(frame.start_value() as nat, b, 4, page_level::<S>()) ==> #[trigger] final(self).translation(b) == Some(
                    ((frame.start_value() + b % 4096) as nat, flags.spec_bits() | PRESENT),
                ),
            forall|b: nat|
                !same_path(frame.start_value() as nat, b, 4, page_level::<S>()) ==> #[trigger] final(self).translation(b) == old(self).translation(b),
    {
        let page = Page::<S, Virtual>::new(Address::new(frame.start().as_usize()));
        self.map(page, frame, flags, alloc)
    }
}

/// What the CPU holds that a temporary switch of address space touches:
/// the frame of the active root table, and whether IRQs are enabled.
#[derive(Clone, Copy, PartialEq, Eq, Structural, Debug)]
pub struct CpuState {
    pub page_table: usize,
    pub irq_enabled: bool,
}

/// A change the caller makes to the CPU.
#[derive(Clone, Copy, PartialEq, Eq, Structural, Debug)]
pub enum CpuAction {
    DisableIrq,
    EnableIrq,
    SetPageTable(usize),
}

/// The CPU after one action.
pub open spec fn apply_action(s: CpuState, a: CpuAction) -> CpuState {
    match a {
        CpuAction::DisableIrq => CpuState { irq_enabled: false, ..s },
        CpuAction::EnableIrq => CpuState { irq_enabled: true, ..s },
        CpuAction::SetPageTable(f) => CpuState { page_table: f, ..s },
    }
}

/// The CPU after the actions, in order.
pub open spec fn apply_actions(s: CpuState, acts: Seq<CpuAction>) -> CpuState
    decreases acts.len(),
{
    if acts.len() == 0 {
        s
    } else {
        apply_actions(apply_action(s, acts[0]), acts.drop_first())
    }
}

/// A temporary switch to the root table in frame `new`, made while the
/// CPU ran on `old` with IRQs `irq_enabled`.
#[derive(Clone, Copy, PartialEq, Eq, Structural, Debug)]
pub struct PageTables {
    pub old: usize,
    pub new: usize,
    pub irq_enabled: bool,
}

/// What switching to the table in `frame` does: IRQs off if they were on,
/// then the table changed if it is another one.
pub open spec fn enter_actions(cpu: CpuState, frame: usize) -> Seq<CpuAction> {
    (if cpu.irq_enabled { seq![CpuAction::DisableIrq] } else { Seq::empty() }) + (if cpu.page_table != frame {
        seq![CpuAction::SetPageTable(frame)]
    } else {
        Seq::empty()
    })
}

/// What ending the switch `g` does: the old table back if it was another
/// one, then IRQs on if they were on.
pub open spec fn restore_actions(g: PageTables) -> Seq<CpuAction> {
    (if g.old != g.new { seq![CpuAction::SetPageTable(g.old)] } else { Seq::empty() }) + (if g.irq_enabled {
        seq![CpuAction::EnableIrq]
    } else {
        Seq::empty()
    })
}

impl PageTable {
    /// Makes the table held in frame `frame` the active one until the
    /// switch is ended, with IRQs off meanwhile; `cpu` is the CPU now. The
    /// switch, and the actions to take on the CPU.
    pub fn enable_temporarily(&self, frame: usize, cpu: CpuState) -> (r: (PageTables, Vec<CpuAction>))
        ensures
            r.0 == (PageTables { old: cpu.page_table, new: frame, irq_enabled: cpu.irq_enabled }),
            r.1@ == enter_actions(cpu, frame),
    {
        let g = PageTables { old: cpu.page_table, new: frame, irq_enabled: cpu.irq_enabled };
        let mut acts: Vec<CpuAction> = Vec::new();
        if g.irq_enabled {
            acts.push(CpuAction::DisableIrq);
        }
        if g.old != g.new {
            acts.push(CpuAction::SetPageTable(g.new));
        }
        proof {
            assert(acts@ =~= enter_actions(cpu, frame));
        }
        (g, acts)
    }
}

impl PageTables {
    /// Ends the switch: the actions to take on the CPU.
    pub fn restore(&self) -> (r: Vec<CpuAction>)
        ensures
            r@ == restore_actions(*self),
    {
        let mut acts: Vec<CpuAction> = Vec::new();
        if self.old != self.new {
            acts.push(CpuAction::SetPageTable(self.old));
        }
        if self.irq_enabled {
            acts.push(CpuAction::EnableIrq);
        }
        proof {
            assert(acts@ =~= restore_actions(*self));
        }
        acts
    }
}

impl PageTable {
    /// Makes root entry `index` the same as `other`'s, with copies of the
    /// tables below it: addresses under that entry translate as in
    /// `other`, the rest as before.
    pub fn copy_entry(&mut self, other: &PageTable, index: usize)
        requires
            old(self).wf(),
            other.wf(),
            index < ENTRIES,
        ensures
            final(self).wf(),
            forall|b: nat| index_of(4, b) == index ==> #[trigger] final(self).translation(b) == other.translation(b),
            forall|b: nat| index_of(4, b) != index ==> #[trigger] final(self).translation(b) == old(self).translation(b),
    {
        let e = other.root.entries[index];
        let child = match &other.root.children[index] {
            Some(c) => {
                proof {
                    assert(c.level + 1 == other.root.level);
                }
                Some(Box::new(c.deep_copy()))
            },
            None => None,
        };
        let ghost old_root = self.root;
        self.root.entries.set(index, e);
        self.root.children.set(index, child);
        proof {
            let r = self.root;
            let o = other.root;
            assert forall|i: int| 0 <= i < ENTRIES implies match #[trigger] r.children@[i] {
                Some(c) => c.level + 1 == r.level && c.wf_rec(),
                None => true,
            } by {
                if i != index {
                    assert(r.children@[i] == old_root.children@[i]);
                }
            }
            assert forall|i: int| 0 <= i < ENTRIES implies {
                let e = #[trigger] r.entries@[i];
                &&& e.address % 4096 == 0
                &&& r.level == 1 ==> !e.table
                &&& r.level >= 3 && e.spec_present() ==> e.table
                &&& e.table ==> e.spec_present()
                &&& (e.spec_present() && e.table) <==> r.children@[i].is_some()
            } by {
                if i != index {
                    assert(r.entries@[i] == old_root.entries@[i]);
                    assert(r.children@[i] == old_root.children@[i]);
                } else {
                    assert(r.entries@[i] == o.entries@[i]);
                }
            }
            assert(r.wf());
            assert forall|b: nat| index_of(4, b) == index implies #[trigger] self.translation(b) == other.translation(b) by {
                match (r.children@[index as int], o.children@[index as int]) {
                    (Some(c), Some(d)) => {
                        assert(c.lookup(b) == d.lookup(b));
                    },
                    _ => {},
                }
                assert(r.lookup(b) == o.lookup(b));
            }
            assert forall|b: nat| index_of(4, b) != index implies #[trigger] self.translation(b) == old(self).translation(b) by {
                let k = index_of(4, b) as int;
                assert(r.entries@[k] == old_root.entries@[k]);
                assert(r.children@[k] == old_root.children@[k]);
                assert(r.lookup(b) == old_root.lookup(b));
            }
        }
    }
}

/// Where the kernel's own root table is, once it is known.
pub struct KernelMemoryMapper {
    pub page_table: Option<usize>,
}

impl KernelMemoryMapper {
    /// Not yet told where the kernel's table is.
    pub fn new() -> (r: Self)
        ensures
            r.page_table is None,
    {
        KernelMemoryMapper { page_table: None }
    }

    /// Records the frame of the kernel's root table (the one active at
    /// start-up).
    pub fn init(&mut self, frame: usize)
        ensures
            final(self).page_table == Some(frame),
    {
        self.page_table = Some(frame);
    }

    /// Switches to the kernel's table `table` for a while; see
    /// [`PageTable::enable_temporarily`].
    pub fn with_kernel_page_table(&self, table: &PageTable, cpu: CpuState) -> (r: (PageTables, Vec<CpuAction>))
        requires
            self.page_table is Some,
        ensures
            r.0 == (PageTables { old: cpu.page_table, new: self.page_table->0, irq_enabled: cpu.irq_enabled }),
            r.1@ == enter_actions(cpu, self.page_table->0),
    {
        let frame = match self.page_table {
            Some(f) => f,
            None => 0,
        };
        table.enable_temporarily(frame, cpu)
    }

    /// Maps `page` to `frame` in the kernel's table `table`, with the
    /// kernel's table switched in meanwhile; see [`PageTable::map`].
    pub fn map_fixed<S: PageSize>(&self, table: &mut PageTable, page: Page<S>, frame: Frame<S>, flags: PageFlags, alloc: &mut PhysicalMemory)
        requires
            self.page_table is Some,
            old(table).wf(),
            mappable::<S>(),
            frame.wf(),
            !old(table).hits_block(page.start_value() as nat, page_level::<S>()),
            old(alloc).wf(),
            free_bytes(old(alloc)@) >= old(table).tables_needed(page.start_value() as nat, page_level::<S>()) * 4096,
        ensures
            final(table).wf(),
            final(alloc).wf(),
            forall|b: nat|
                same_path(page.start_value() as nat, b, 4, page_level::<S>()) ==> #[trigger] final(table).translation(b) == Some(
                    ((frame.start_value() + b % 4096) as nat, flags.spec_bits() | PRESENT),
                ),
            forall|b: nat|
                !same_path(page.start_value() as nat, b, 4, page_level::<S>()) ==> #[trigger] final(table).translation(b) == old(table).translation(b),
    {
        table.map(page, frame, flags, alloc);
    }
}

/// The actions of two runs one after the other.
proof fn lemma_apply_concat(s: CpuState, a: Seq<CpuAction>, b: Seq<CpuAction>)
    ensures
        apply_actions(s, a + b) == apply_actions(apply_actions(s, a), b),
    decreases a.len(),
{
    if a.len() > 0 {
        assert((a + b).drop_first() =~= a.drop_first() + b);
        lemma_apply_concat(apply_action(s, a[0]), a.drop_first(), b);
    } else {
        assert(a + b =~= b);
    }
}

/// A single action, or none.
proof fn lemma_apply_short(s: CpuState, a: CpuAction)
    ensures
        apply_actions(s, seq![a]) == apply_action(s, a),
        apply_actions(s, Seq::<CpuAction>::empty()) == s,
{
    assert(seq![a].drop_first() =~= Seq::<CpuAction>::empty());
    assert(apply_actions(apply_action(s, a), Seq::<CpuAction>::empty()) == apply_action(s, a));
}

/// Law: while a temporary switch is on, the CPU runs the switched-to table
/// with IRQs off; ending it puts the CPU back as it was before.
pub proof fn lemma_switch_then_restore(cpu: CpuState, frame: usize)
    ensures
        apply_actions(cpu, enter_actions(cpu, frame)) == (CpuState { page_table: frame, irq_enabled: false }),
        apply_actions(
            apply_actions(cpu, enter_actions(cpu, frame)),
            restore_actions(PageTables { old: cpu.page_table, new: frame, irq_enabled: cpu.irq_enabled }),
        ) == cpu,
{
    let d: Seq<CpuAction> = if cpu.irq_enabled { seq![CpuAction::DisableIrq] } else { Seq::empty() };
    let t: Seq<CpuAction> = if cpu.page_table != frame { seq![CpuAction::SetPageTable(frame)] } else { Seq::empty() };
    lemma_apply_concat(cpu, d, t);
    let mid = apply_actions(cpu, d);
    assert(mid == CpuState { irq_enabled: false, ..cpu }) by {
        lemma_apply_short(cpu, CpuAction::DisableIrq);
    }
    let inside = apply_actions(mid, t);
    assert(inside == CpuState { page_table: frame, irq_enabled: false }) by {
        lemma_apply_short(mid, CpuAction::SetPageTable(frame));
    }
    let g = PageTables { old: cpu.page_table, new: frame, irq_enabled: cpu.irq_enabled };
    let p: Seq<CpuAction> = if g.old != g.new { seq![CpuAction::SetPageTable(g.old)] } else { Seq::empty() };
    let e: Seq<CpuAction> = if g.irq_enabled { seq![CpuAction::EnableIrq] } else { Seq::empty() };
    lemma_apply_concat(inside, p, e);
    let back = apply_actions(inside, p);
    assert(back == CpuState { page_table: cpu.page_table, irq_enabled: false }) by {
        lemma_apply_short(inside, CpuAction::SetPageTable(g.old));
    }
    assert(apply_actions(back, e) == cpu) by {
        lemma_apply_short(back, CpuAction::EnableIrq);
    }
}


/// Why mapping a run of pages stopped: no memory for a frame or a table, or
/// a 2MiB block on the way to a page. The kernel halts on either.
#[derive(Clone, Copy, PartialEq, Eq, Structural, Debug)]
pub enum MapError {
    OutOfMemory,
    BlockInTheWay,
}

/// The start of the `i`-th 4KiB page from `start`.
pub open spec fn nth_page(start: nat, i: int) -> nat {
    (start + i * 4096) as nat
}

impl PageTable {
    /// Maps the `n` 4KiB pages from `start`, each to a fresh frame taken
    /// from `alloc`, with `flags` made present; the frames, in page order.
    /// Missing tables take frames from `alloc` too.
    pub fn map_pages(&mut self, start: Page<Size4K>, n: usize, flags: PageFlags, alloc: &mut PhysicalMemory) -> (r: Result<Vec<Frame<Size4K>>, MapError>)
        requires
            old(self).wf(),
            old(alloc).wf(),
            start.wf(),
            start.start_value() + n * 4096 <= usize::MAX,
            n * 4096 <= 0x1_0000_0000_0000,
        ensures
            final(self).wf(),
            final(alloc).wf(),
            free_bytes(final(alloc)@) <= free_bytes(old(alloc)@),
            r matches Ok(frames) ==> frames@.len() == n && forall|i: int| 0 <= i < n ==> (#[trigger] frames@[i]).wf(),
            r matches Ok(frames) ==> forall|i: int, b: nat|
                0 <= i < n && #[trigger] same_path(nth_page(start.start_value() as nat, i), b, 4, 1)
                    ==> final(self).translation(b) == Some(
                    ((frames@[i].start_value() + b % 4096) as nat, flags.spec_bits() | PRESENT),
                ),
            r is Ok ==> forall|b: nat|
                (forall|i: int| 0 <= i < n ==> !#[trigger] same_path(nth_page(start.start_value() as nat, i), b, 4, 1))
                    ==> #[trigger] final(self).translation(b) == old(self).translation(b),
            r == Err::<Vec<Frame<Size4K>>, MapError>(MapError::OutOfMemory) ==> free_bytes(old(alloc)@) < 16384 * n,
            r == Err::<Vec<Frame<Size4K>>, MapError>(MapError::BlockInTheWay) ==> exists|i: int|
                0 <= i < n && #[trigger] old(self).hits_block(nth_page(start.start_value() as nat, i), 1),
            free_bytes(old(alloc)@) >= 16384 * n && (forall|i: int|
                0 <= i < n ==> !#[trigger] old(self).hits_block(nth_page(start.start_value() as nat, i), 1)) ==> r is Ok,
    {
        let s0 = start.start().as_usize();
        let ghost sv = s0 as nat;
        let mut frames: Vec<Frame<Size4K>> = Vec::new();
        let mut i: usize = 0;
        proof {
            lemma2_to64();
        }
        while i < n
            invariant
                i <= n,
                s0 == start.start_value(),
                sv == s0,
                s0 % 4096 == 0,
                s0 + n * 4096 <= usize::MAX,
                n * 4096 <= 0x1_0000_0000_0000,
                self.wf(),
                alloc.wf(),
                frames@.len() == i,
                forall|j: int| 0 <= j < i ==> (#[trigger] frames@[j]).wf(),
                free_bytes(alloc@) <= free_bytes(old(alloc)@),
                free_bytes(alloc@) + 16384 * i >= free_bytes(old(alloc)@),
                forall|j: int, b: nat|
                    0 <= j < i && #[trigger] same_path(nth_page(sv, j), b, 4, 1) ==> self.translation(b) == Some(
                        ((frames@[j].start_value() + b % 4096) as nat, flags.spec_bits() | PRESENT),
                    ),
                forall|b: nat|
                    (forall|j: int| 0 <= j < i ==> !#[trigger] same_path(nth_page(sv, j), b, 4, 1))
                        ==> #[trigger] self.translation(b) == old(self).translation(b),
                forall|b: nat| #[trigger] self.hits_block(b, 1) == old(self).hits_block(b, 1),
            decreases n - i,
        {
            proof {
                lemma2_to64();
                lemma_page_bytes::<Size4K>();
                assert(i * 4096 <= n * 4096) by (nonlinear_arith)
                    requires
                        i <= n,
                ;
                assert((s0 + i * 4096) % 4096 == 0) by (nonlinear_arith)
                    requires
                        s0 % 4096 == 0,
                ;
            }
            let addr: usize = s0 + i * 4096;
            let page = Page::<Size4K, Virtual>::new(Address::new(addr));
            let (blocked, need) = self.root.walk_needs(page.start(), 1);
            if blocked {
                proof {
                    assert(addr as nat == nth_page(sv, i as int));
                    assert(self.hits_block(nth_page(sv, i as int), 1));
                    assert(old(self).hits_block(nth_page(sv, i as int), 1));
                }
                return Err(MapError::BlockInTheWay);
            }
            let avail = alloc.free_byte_count();
            if avail < (need as u128 + 1) * 4096 {
                proof {
                    assert(16384 * i + 16384 <= 16384 * n) by (nonlinear_arith)
                        requires
                            i < n,
                    ;
                }
                return Err(MapError::OutOfMemory);
            }
            let ghost before = alloc@;
            proof {
                alloc.lemma_wf();
                crate::buddy::lemma_free_bytes_nonempty(alloc@, NUM_SIZE_CLASS as nat);
                lemma_allocate_conserves_bytes(alloc@, 0);
            }
            let frame = alloc.acquire::<Size4K>().unwrap();
            let ghost self_before = *self;
            self.map(page, frame, flags, alloc);
            proof {
                let pv = addr as nat;
                assert(pv == nth_page(sv, i as int));
                let fr = frames@.push(frame);
                assert forall|j: int, b: nat|
                    0 <= j < i + 1 && #[trigger] same_path(nth_page(sv, j), b, 4, 1) implies self.translation(b) == Some(
                        ((fr[j].start_value() + b % 4096) as nat, flags.spec_bits() | PRESENT),
                    ) by {
                    if j < i {
                        assert(fr[j] == frames@[j]);
                        assert((i - j) * 4096 <= n * 4096) by (nonlinear_arith)
                            requires
                                0 <= j < i,
                                i <= n,
                        ;
                        assert(nth_page(sv, j) % 4096 == 0 && nth_page(sv, j) < pv) by (nonlinear_arith)
                            requires
                                sv % 4096 == 0,
                                0 <= j < i,
                                pv == sv + i * 4096,
                        ;
                        lemma_pages_apart(nth_page(sv, j), pv, b);
                        assert(self_before.translation(b) == Some(
                            ((frames@[j].start_value() + b % 4096) as nat, flags.spec_bits() | PRESENT),
                        ));
                    }
                }
                assert forall|b: nat|
                    (forall|j: int| 0 <= j < i + 1 ==> !#[trigger] same_path(nth_page(sv, j), b, 4, 1))
                        implies #[trigger] self.translation(b) == old(self).translation(b) by {
                    assert(!same_path(nth_page(sv, i as int), b, 4, 1));
                    assert(forall|j: int| 0 <= j < i ==> !#[trigger] same_path(nth_page(sv, j), b, 4, 1));
                }
                assert forall|j: int| 0 <= j < i + 1 implies (#[trigger] fr[j]).wf() by {
                    if j < i {
                        assert(fr[j] == frames@[j]);
                    }
                }
            }
            frames.push(frame);
            i = i + 1;
        }
        Ok(frames)
    }
}

/// Adding less than 4KiB to a 4KiB-aligned address stays in the same
/// `2^s`-block, for `s >= 12`.
proof fn lemma_same_block(p: nat, offset: nat, s: nat)
    requires
        p % 4096 == 0,
        offset < 4096,
        s >= 12,
    ensures
        (p + offset) / pow2(s) == p / pow2(s),
{
    lemma2_to64();
    let d = pow2(s);
    let d2 = pow2((s - 12) as nat);
    lemma_pow2_adds(12, (s - 12) as nat);
    lemma_pow2_pos((s - 12) as nat);
    assert(d == 4096 * d2);
    let q = p / d;
    let r = p % d;
    vstd::arithmetic::div_mod::lemma_fundamental_div_mod(p as int, d as int);
    vstd::arithmetic::div_mod::lemma_mod_mod(p as int, 4096, d2 as int);
    assert(r % 4096 == 0);
    let k = r / 4096;
    vstd::arithmetic::div_mod::lemma_fundamental_div_mod(r as int, 4096);
    assert(r + offset < d) by (nonlinear_arith)
        requires
            r == 4096 * k + 0,
            r < d,
            d == 4096 * d2,
            offset < 4096,
            k >= 0,
    {
        if k >= d2 {
            vstd::arithmetic::mul::lemma_mul_inequality(d2 as int, k as int, 4096);
        }
    }
    vstd::arithmetic::div_mod::lemma_fundamental_div_mod_converse(
        (p + offset) as int,
        d as int,
        q as int,
        (r + offset) as int,
    );
}

/// Law: after mapping a page, every address in it translates to the same
/// offset in the frame, and every address outside keeps its translation.
pub proof fn lemma_map_then_translate<S: PageSize>(
    before: UserPageTable,
    after: UserPageTable,
    page: Page<S>,
    frame: Frame<S>,
    flags: PageFlags,
    offset: nat,
)
    requires
        mappable::<S>(),
        S::spec_log_size() == 12,
        page.wf(),
        offset < 4096,
        forall|b: nat|
            same_path(page.start_value() as nat, b, 4, page_level::<S>()) ==> #[trigger] after.translation(b) == Some(
                ((frame.start_value() + b % 4096) as nat, flags.spec_bits() | PRESENT),
            ),
    ensures
        after.translation((page.start_value() + offset) as nat) == Some(
            ((frame.start_value() + offset) as nat, flags.spec_bits() | PRESENT),
        ),
{
    let p = page.start_value() as nat;
    let b = (p + offset) as nat;
    lemma2_to64();
    assert(p % 4096 == 0);
    assert forall|l: nat| 1 <= l <= 4 implies #[trigger] index_of(l, p) == index_of(l, b) by {
        lemma_same_block(p, offset, level_shift(l));
    }
    vstd::arithmetic::div_mod::lemma_fundamental_div_mod_converse(b as int, 4096, (p / 4096) as int, offset as int);
}

/// Law: a page just mapped can be unmapped (the mapping reaches its
/// entry), and unmapping it leaves its addresses untranslated and every
/// other address translated as before the mapping.
pub proof fn lemma_map_then_unmap<S: PageSize>(
    before: UserPageTable,
    mapped: UserPageTable,
    after: UserPageTable,
    page: Page<S>,
    frame: Frame<S>,
    flags: PageFlags,
)
    requires
        mappable::<S>(),
        mapped.reaches(page.start_value() as nat, page_level::<S>()),
        forall|b: nat|
            same_path(page.start_value() as nat, b, 4, page_level::<S>()) ==> #[trigger] mapped.translation(b) == Some(
                ((frame.start_value() + b % 4096) as nat, flags.spec_bits() | PRESENT),
            ),
        forall|b: nat|
            !same_path(page.start_value() as nat, b, 4, page_level::<S>()) ==> #[trigger] mapped.translation(b) == before.translation(b),
        forall|b: nat|
            same_path(page.start_value() as nat, b, 4, page_level::<S>()) ==> #[trigger] after.translation(b).is_none(),
        forall|b: nat|
            !same_path(page.start_value() as nat, b, 4, page_level::<S>()) ==> #[trigger] after.translation(b) == mapped.translation(b),
    ensures
        forall|b: nat|
            same_path(page.start_value() as nat, b, 4, page_level::<S>()) ==> #[trigger] after.translation(b).is_none(),
        forall|b: nat|
            !same_path(page.start_value() as nat, b, 4, page_level::<S>()) ==> #[trigger] after.translation(b) == before.translation(b),
{
}

} // verus!
