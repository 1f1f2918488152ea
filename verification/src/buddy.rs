//! A buddy allocator for physical memory.
//!
//! Free cells are kept in one LIFO list per size class; class `c` holds
//! cells of `2^(c + 12)` bytes, each aligned to its size.
use crate::address::{Address, Physical};
use crate::page::{lemma_page_bytes, page_bytes, Frame, Page, PageSize};
use core::ops::Range;
use vstd::arithmetic::power2::*;
use vstd::bits::*;
use vstd::prelude::*;

verus! {

/// Binary logarithm of the size of the smallest cell (a 4KiB frame).
pub const LOG_MIN_CELL: usize = 12;

/// Binary logarithm of the size of the address space.
pub const LOG_MAX_ADDRESS_SPACE_SIZE: usize = 48;

/// Number of size classes.
pub const NUM_SIZE_CLASS: usize = 37;

/// Bytes in a cell of size class `c`.
pub open spec fn cell_bytes(c: nat) -> nat {
    pow2(c + 12)
}

/// A cell of class `c` starting at `a` is well placed: non-null, aligned to
/// its size and inside the machine's address space.
pub open spec fn cell_ok(a: int, c: nat) -> bool {
    &&& a > 0
    &&& a % (cell_bytes(c) as int) == 0
    &&& a + cell_bytes(c) <= usize::MAX + 1
}

/// The free lists are well formed: one list per class, every cell well placed.
pub open spec fn lists_ok(lists: Seq<Seq<usize>>) -> bool {
    &&& lists.len() == NUM_SIZE_CLASS
    &&& forall|c: int, i: int|
        0 <= c < lists.len() && 0 <= i < lists[c].len() ==> cell_ok(
            #[trigger] lists[c][i] as int,
            c as nat,
        )
}

/// The first class at or above `from` whose list is non-empty, or
/// `NUM_SIZE_CLASS` when there is none.
pub open spec fn first_nonempty(lists: Seq<Seq<usize>>, from: nat) -> nat
    decreases NUM_SIZE_CLASS - from,
{
    if from >= NUM_SIZE_CLASS {
        NUM_SIZE_CLASS as nat
    } else if lists[from as int].len() > 0 {
        from
    } else {
        first_nonempty(lists, from + 1)
    }
}

/// The lists after taking the top cell `unit` of class `k` and splitting it
/// down to class `req`: the upper halves `unit + cell_bytes(j)` for
/// `req <= j < k` are pushed to their classes.
pub open spec fn after_split(lists: Seq<Seq<usize>>, req: nat, k: nat, unit: int) -> Seq<Seq<usize>> {
    Seq::new(
        lists.len(),
        |j: int|
            if j == k {
                lists[j].drop_last()
            } else if req <= j < k {
                lists[j].push((unit + cell_bytes(j as nat)) as usize)
            } else {
                lists[j]
            },
    )
}

/// The lists after pushing `cell` onto the list of class `c`.
pub open spec fn after_push(lists: Seq<Seq<usize>>, cell: usize, c: nat) -> Seq<Seq<usize>> {
    lists.update(c as int, lists[c as int].push(cell))
}

/// Total number of bytes in the free lists of the classes below `n`.
pub open spec fn free_bytes_below(lists: Seq<Seq<usize>>, n: nat) -> nat
    decreases n,
{
    if n == 0 {
        0
    } else {
        free_bytes_below(lists, (n - 1) as nat) + lists[n - 1].len() * cell_bytes((n - 1) as nat)
    }
}

/// Total number of free bytes.
pub open spec fn free_bytes(lists: Seq<Seq<usize>>) -> nat {
    free_bytes_below(lists, NUM_SIZE_CLASS as nat)
}

/// `k` is the least `k` with `n <= 2^k`.
pub open spec fn is_ceil_log2(n: nat, k: nat) -> bool {
    &&& n <= pow2(k)
    &&& k == 0 || pow2((k - 1) as nat) < n
}

/// Binary logarithm, rounded down.
pub open spec fn log2_floor(n: nat) -> nat
    decreases n,
{
    if n <= 1 {
        0
    } else {
        1 + log2_floor(n / 2)
    }
}

/// The largest `k <= bound` such that `a` is a multiple of `2^k`.
pub open spec fn max_align_log(a: nat, bound: nat) -> nat
    decreases bound,
{
    if bound == 0 || a % pow2(bound) == 0 {
        bound
    } else {
        max_align_log(a, (bound - 1) as nat)
    }
}

/// The binary logarithm of the first block when `[start, start + size)` is
/// cut greedily: the largest power of two that fits in `size` and to which
/// `start` is aligned.
pub open spec fn block_log(start: nat, size: nat) -> nat {
    max_align_log(start, log2_floor(size))
}

/// The greedy cut of `[start, start + size)` into aligned power-of-two
/// blocks, as `(address, class)` pairs in address order.
pub open spec fn decompose(start: nat, size: nat) -> Seq<(nat, nat)>
    decreases size,
{
    let l = block_log(start, size);
    if size < 4096 || l < 12 || pow2(l) == 0 || pow2(l) > size {
        Seq::empty()
    } else {
        seq![(start, (l - 12) as nat)] + decompose(start + pow2(l), (size - pow2(l)) as nat)
    }
}

/// The lists after pushing each block of `blocks` in order.
pub open spec fn push_all(lists: Seq<Seq<usize>>, blocks: Seq<(nat, nat)>) -> Seq<Seq<usize>>
    decreases blocks.len(),
{
    if blocks.len() == 0 {
        lists
    } else {
        push_all(after_push(lists, blocks[0].0 as usize, blocks[0].1), blocks.drop_first())
    }
}


/// A well placed cell is well placed at every smaller class.
pub proof fn lemma_cell_ok_down(a: int, k: nat, j: nat)
    requires
        cell_ok(a, k),
        j <= k,
    ensures
        cell_ok(a, j),
{
    lemma_align_down(a, j + 12, k + 12);
    if j < k {
        lemma_pow2_strictly_increases(j + 12, k + 12);
    }
}

/// A multiple of `2^m` is a multiple of `2^n` for every `n <= m`.
pub proof fn lemma_align_down(a: int, n: nat, m: nat)
    requires
        n <= m,
        a % (pow2(m) as int) == 0,
    ensures
        a % (pow2(n) as int) == 0,
{
    lemma_pow2_pos(n);
    lemma_pow2_pos((m - n) as nat);
    lemma_pow2_adds(n, (m - n) as nat);
    vstd::arithmetic::div_mod::lemma_mod_mod(a, pow2(n) as int, pow2((m - n) as nat) as int);
    vstd::arithmetic::div_mod::lemma_small_mod(0, pow2(n));
}

/// `2^usize::BITS` is one past the largest machine word.
pub proof fn lemma_pow2_word()
    ensures
        pow2(usize::BITS as nat) == usize::MAX + 1,
{
    lemma2_to64();
    lemma2_to64_rest();
}

/// A well placed cell of class `c` has a size that a machine word holds.
pub proof fn lemma_cell_class_bound(a: int, c: nat)
    requires
        cell_ok(a, c),
    ensures
        c + 12 < usize::BITS,
        cell_bytes(c) <= usize::MAX,
{
    lemma_pow2_word();
    if c + 12 > usize::BITS {
        lemma_pow2_strictly_increases(usize::BITS as nat, c + 12);
    }
}

/// The upper half of a well placed cell, at every class below, is well placed.
pub proof fn lemma_split_cell_ok(unit: int, k: nat, j: nat)
    requires
        cell_ok(unit, k),
        j < k,
    ensures
        cell_ok(unit + cell_bytes(j), j),
        unit + 2 * cell_bytes(j) <= unit + cell_bytes(k),
{
    lemma_align_down(unit, j + 12, k + 12);
    lemma_pow2_pos(j + 12);
    lemma_pow2_unfold(j + 13);
    if j + 13 < k + 12 {
        lemma_pow2_strictly_increases(j + 13, k + 12);
    }
    vstd::arithmetic::div_mod::lemma_mod_add_multiples_vanish(unit, pow2(j + 12) as int);
}


/// `log2_floor(n)` is the exponent of the largest power of two not above `n`.
pub proof fn lemma_log2_floor(n: nat)
    requires
        n >= 1,
    ensures
        pow2(log2_floor(n)) <= n < pow2(log2_floor(n) + 1),
    decreases n,
{
    lemma_pow2_unfold(log2_floor(n) + 1);
    if n <= 1 {
        lemma2_to64();
    } else {
        lemma_log2_floor(n / 2);
        lemma_pow2_unfold(log2_floor(n / 2) + 1);
    }
}

/// Any `f` with `2^f <= n < 2^(f+1)` is `log2_floor(n)`.
pub proof fn lemma_log2_floor_unique(n: nat, f: nat)
    requires
        pow2(f) <= n < pow2(f + 1),
    ensures
        log2_floor(n) == f,
{
    lemma_pow2_pos(f);
    lemma_log2_floor(n);
    let g = log2_floor(n);
    if g < f {
        if g + 1 < f {
            lemma_pow2_strictly_increases(g + 1, f);
        }
    } else if g > f {
        if f + 1 < g {
            lemma_pow2_strictly_increases(f + 1, g);
        }
    }
}

/// `max_align_log` picks an exponent at most `bound` to which `a` is
/// aligned, and it is at least `12` when `a` is 4KiB aligned and `bound >= 12`.
pub proof fn lemma_max_align_log(a: nat, bound: nat)
    ensures
        max_align_log(a, bound) <= bound,
        max_align_log(a, bound) == 0 || a % pow2(max_align_log(a, bound)) == 0,
        a % 4096 == 0 && bound >= 12 ==> max_align_log(a, bound) >= 12,
        forall|j: nat|
            max_align_log(a, bound) < j <= bound ==> #[trigger] (a % pow2(j)) != 0,
    decreases bound,
{
    if bound == 0 || a % pow2(bound) == 0 {
    } else {
        lemma_max_align_log(a, (bound - 1) as nat);
        if bound == 12 {
            lemma2_to64();
        }
    }
}

/// The first block of the greedy cut of a 4KiB-aligned range.
pub proof fn lemma_decompose_step(start: nat, size: nat)
    requires
        start % 4096 == 0,
        size % 4096 == 0,
        size >= 4096,
    ensures
        ({
            let l = block_log(start, size);
            &&& 12 <= l <= log2_floor(size)
            &&& 0 < pow2(l) <= size
            &&& start % pow2(l) == 0
            &&& pow2(l) % 4096 == 0
            &&& decompose(start, size) == seq![(start, (l - 12) as nat)] + decompose(
                start + pow2(l),
                (size - pow2(l)) as nat,
            )
        }),
{
    let l = block_log(start, size);
    lemma2_to64();
    lemma_log2_floor(size);
    let f = log2_floor(size);
    if f < 12 {
        lemma_pow2_strictly_increases(f + 1, 12);
        if f + 1 == 12 {
        }
    }
    assert(f >= 12) by {
        if f < 12 {
            if f + 1 < 12 {
                lemma_pow2_strictly_increases(f + 1, 12);
            }
        }
    }
    lemma_max_align_log(start, f);
    lemma_pow2_pos(l);
    if l < f {
        lemma_pow2_strictly_increases(l, f);
    }
    lemma_align_down(pow2(l) as int, 12, l);
    assert(pow2(l) as int % pow2(l) as int == 0) by {
        vstd::arithmetic::div_mod::lemma_mod_self_0(pow2(l) as int);
    }
}

/// Pushing a sequence whose first block is `b` pushes `b` first.
pub proof fn lemma_push_all_cons(lists: Seq<Seq<usize>>, b: (nat, nat), rest: Seq<(nat, nat)>)
    ensures
        push_all(lists, seq![b] + rest) == push_all(after_push(lists, b.0 as usize, b.1), rest),
{
    let s = seq![b] + rest;
    assert(s.drop_first() =~= rest);
}


/// `blocks` cut `[start, start + size)` into consecutive pieces, in address
/// order, each a cell aligned to its own size.
pub open spec fn tiles(blocks: Seq<(nat, nat)>, start: nat, size: nat) -> bool
    decreases blocks.len(),
{
    if blocks.len() == 0 {
        size == 0
    } else {
        &&& blocks[0].0 == start
        &&& start % cell_bytes(blocks[0].1) == 0
        &&& cell_bytes(blocks[0].1) <= size
        &&& tiles(
            blocks.drop_first(),
            start + cell_bytes(blocks[0].1),
            (size - cell_bytes(blocks[0].1)) as nat,
        )
    }
}

/// The greedy cut of a 4KiB-aligned range tiles the range exactly.
pub proof fn lemma_decompose_tiles(start: nat, size: nat)
    requires
        start % 4096 == 0,
        size % 4096 == 0,
    ensures
        tiles(decompose(start, size), start, size),
    decreases size,
{
    if size == 0 {
        lemma2_to64();
        assert(decompose(start, size) =~= Seq::empty());
    } else {
        if size < 4096 {
            vstd::arithmetic::div_mod::lemma_small_mod(size, 4096);
        }
        lemma_decompose_step(start, size);
        let l = block_log(start, size);
        lemma_align_down(start as int, 12, l);
        vstd::arithmetic::div_mod::lemma_add_mod_noop(start as int, pow2(l) as int, 4096);
        vstd::arithmetic::div_mod::lemma_sub_mod_noop(size as int, pow2(l) as int, 4096);
        lemma_decompose_tiles(start + pow2(l), (size - pow2(l)) as nat);
        let d = decompose(start, size);
        assert(d.drop_first() =~= decompose(start + pow2(l), (size - pow2(l)) as nat));
    }
}

/// Law: freeing a 4KiB-aligned range pushes cells that cut the range into
/// consecutive pieces, each aligned to its own size and together exactly
/// the range, and keeps every cell that was free before where it was.
pub proof fn lemma_release_range_partitions(lists: Seq<Seq<usize>>, start: nat, size: nat)
    requires
        lists_ok(lists),
        start % 4096 == 0,
        size % 4096 == 0,
        size <= pow2(LOG_MAX_ADDRESS_SPACE_SIZE as nat),
    ensures
        tiles(decompose(start, size), start, size),
        ({
            let after = push_all(lists, decompose(start, size));
            &&& after.len() == lists.len()
            &&& forall|c: int| 0 <= c < lists.len() ==> #[trigger] after[c].len() >= lists[c].len()
            &&& forall|c: int, i: int|
                0 <= c < lists.len() && 0 <= i < lists[c].len() ==> #[trigger] after[c][i] == lists[c][i]
        }),
{
    lemma_decompose_tiles(start, size);
    let blocks = decompose(start, size);
    lemma_tiles_cells_fit(blocks, start, size);
    assert forall|k: int| 0 <= k < blocks.len() implies #[trigger] blocks[k].1 < lists.len() by {
        if blocks[k].1 + 12 > LOG_MAX_ADDRESS_SPACE_SIZE {
            lemma_pow2_strictly_increases(LOG_MAX_ADDRESS_SPACE_SIZE as nat, blocks[k].1 + 12);
        }
    }
    lemma_push_all_keeps(lists, blocks);
}

/// Every cell of a tiling fits in the tiled size.
proof fn lemma_tiles_cells_fit(blocks: Seq<(nat, nat)>, start: nat, size: nat)
    requires
        tiles(blocks, start, size),
    ensures
        forall|k: int| 0 <= k < blocks.len() ==> cell_bytes(#[trigger] blocks[k].1) <= size,
    decreases blocks.len(),
{
    if blocks.len() > 0 {
        let c = cell_bytes(blocks[0].1);
        let rest = blocks.drop_first();
        lemma_tiles_cells_fit(rest, start + c, (size - c) as nat);
        assert forall|k: int| 0 <= k < blocks.len() implies cell_bytes(#[trigger] blocks[k].1) <= size by {
            if k > 0 {
                assert(blocks[k] == rest[k - 1]);
            }
        }
    }
}

/// Pushing cells keeps the cells already on the lists where they were.
proof fn lemma_push_all_keeps(lists: Seq<Seq<usize>>, blocks: Seq<(nat, nat)>)
    requires
        forall|k: int| 0 <= k < blocks.len() ==> #[trigger] blocks[k].1 < lists.len(),
    ensures
        ({
            let after = push_all(lists, blocks);
            &&& after.len() == lists.len()
            &&& forall|c: int| 0 <= c < lists.len() ==> #[trigger] after[c].len() >= lists[c].len()
            &&& forall|c: int, i: int|
                0 <= c < lists.len() && 0 <= i < lists[c].len() ==> #[trigger] after[c][i] == lists[c][i]
        }),
    decreases blocks.len(),
{
    if blocks.len() > 0 {
        let next = after_push(lists, blocks[0].0 as usize, blocks[0].1);
        let rest = blocks.drop_first();
        assert forall|k: int| 0 <= k < rest.len() implies #[trigger] rest[k].1 < next.len() by {
            assert(rest[k] == blocks[k + 1]);
        }
        lemma_push_all_keeps(next, rest);
        let after = push_all(lists, blocks);
        assert(after == push_all(next, rest));
        assert(blocks[0].1 < lists.len());
        assert(next.len() == lists.len());
        assert forall|c: int| 0 <= c < lists.len() implies #[trigger] after[c].len() >= lists[c].len() by {
            if c == blocks[0].1 {
                assert(next[c] == lists[c].push(blocks[0].0 as usize));
            } else {
                assert(next[c] == lists[c]);
            }
            assert(after[c].len() >= next[c].len());
        }
        assert forall|c: int, i: int|
            0 <= c < lists.len() && 0 <= i < lists[c].len() implies #[trigger] after[c][i] == lists[c][i] by {
            if c == blocks[0].1 {
                assert(next[c] == lists[c].push(blocks[0].0 as usize));
            } else {
                assert(next[c] == lists[c]);
            }
            assert(next[c][i] == lists[c][i]);
            assert(after[c][i] == next[c][i]);
        }
    }
}

/// Pushing a cell adds its size to the free bytes.
pub proof fn lemma_free_bytes_push(lists: Seq<Seq<usize>>, cell: usize, c: nat, n: nat)
    requires
        c < lists.len(),
        n <= lists.len(),
    ensures
        free_bytes_below(after_push(lists, cell, c), n) == free_bytes_below(lists, n) + (
        if n > c {
            cell_bytes(c)
        } else {
            0
        }),
    decreases n,
{
    if n > 0 {
        lemma_free_bytes_push(lists, cell, c, (n - 1) as nat);
        let j = (n - 1) as nat;
        let len = lists[j as int].len();
        if j == c {
            assert(len * cell_bytes(j) + cell_bytes(j) == (len + 1) * cell_bytes(j))
                by (nonlinear_arith);
        }
    }
}

/// Splitting a cell of class `k` down to class `req` removes exactly
/// `cell_bytes(req)` bytes from the free lists.
pub proof fn lemma_free_bytes_split(lists: Seq<Seq<usize>>, req: nat, k: nat, unit: int, n: nat)
    requires
        req <= k < lists.len(),
        lists[k as int].len() > 0,
        n <= lists.len(),
    ensures
        free_bytes_below(after_split(lists, req, k, unit), n) == free_bytes_below(lists, n) + (
        if n <= req {
            0int
        } else if n <= k {
            pow2(n + 12) - pow2(req + 12)
        } else {
            0 - pow2(req + 12)
        }),
    decreases n,
{
    if n > 0 {
        lemma_free_bytes_split(lists, req, k, unit, (n - 1) as nat);
        let j = (n - 1) as nat;
        let len = lists[j as int].len();
        let after = after_split(lists, req, k, unit);
        lemma_pow2_unfold(n + 12);
        if j == k {
            assert(after[j as int].len() == len - 1);
            assert((len - 1) * cell_bytes(j) + cell_bytes(j) == len * cell_bytes(j))
                by (nonlinear_arith);
        } else if req <= j < k {
            assert(after[j as int].len() == len + 1);
            assert(len * cell_bytes(j) + cell_bytes(j) == (len + 1) * cell_bytes(j))
                by (nonlinear_arith);
        } else {
            assert(after[j as int] == lists[j as int]);
        }
    }
}

/// Law: a cell taken by the allocator leaves the free memory smaller by
/// exactly the size of the requested class.
pub proof fn lemma_allocate_conserves_bytes(lists: Seq<Seq<usize>>, req: nat)
    requires
        lists_ok(lists),
        req < NUM_SIZE_CLASS,
        first_nonempty(lists, req) < NUM_SIZE_CLASS,
    ensures
        ({
            let k = first_nonempty(lists, req);
            free_bytes(after_split(lists, req, k, lists[k as int].last() as int)) + cell_bytes(req)
                == free_bytes(lists)
        }),
{
    let k = first_nonempty(lists, req);
    lemma_first_nonempty(lists, req);
    lemma_free_bytes_split(lists, req, k, lists[k as int].last() as int, NUM_SIZE_CLASS as nat);
}

/// `first_nonempty` finds a non-empty class at or above `from`, with only
/// empty classes between.
pub proof fn lemma_first_nonempty(lists: Seq<Seq<usize>>, from: nat)
    requires
        lists.len() == NUM_SIZE_CLASS,
    ensures
        from <= NUM_SIZE_CLASS ==> from <= first_nonempty(lists, from),
        first_nonempty(lists, from) <= NUM_SIZE_CLASS,
        first_nonempty(lists, from) < NUM_SIZE_CLASS ==> lists[first_nonempty(
            lists,
            from,
        ) as int].len() > 0,
        forall|j: nat|
            from <= j < first_nonempty(lists, from) ==> #[trigger] lists[j as int].len() == 0,
    decreases NUM_SIZE_CLASS - from,
{
    if from < NUM_SIZE_CLASS && lists[from as int].len() == 0 {
        lemma_first_nonempty(lists, from + 1);
    }
}

/// With any free byte, some class has a free cell.
pub proof fn lemma_free_bytes_nonempty(lists: Seq<Seq<usize>>, n: nat)
    requires
        lists.len() == NUM_SIZE_CLASS,
        n <= NUM_SIZE_CLASS,
        free_bytes_below(lists, n) > 0,
    ensures
        first_nonempty(lists, 0) < NUM_SIZE_CLASS,
    decreases n,
{
    lemma_first_nonempty(lists, 0);
    if n > 0 {
        if lists[n - 1].len() == 0 {
            lemma_free_bytes_nonempty(lists, (n - 1) as nat);
        } else {
            if first_nonempty(lists, 0) == NUM_SIZE_CLASS {
                assert(lists[(n - 1) as nat as int].len() == 0);
            }
        }
    }
}

/// Law: releasing a cell adds its size to the free memory.
pub proof fn lemma_release_conserves_bytes(lists: Seq<Seq<usize>>, cell: usize, c: nat)
    requires
        lists_ok(lists),
        c < NUM_SIZE_CLASS,
    ensures
        free_bytes(after_push(lists, cell, c)) == free_bytes(lists) + cell_bytes(c),
{
    lemma_free_bytes_push(lists, cell, c, NUM_SIZE_CLASS as nat);
}

/// Law: releasing a range adds exactly its length to the free memory.
pub proof fn lemma_release_range_conserves_bytes(lists: Seq<Seq<usize>>, start: nat, size: nat)
    requires
        lists.len() == NUM_SIZE_CLASS,
        start % 4096 == 0,
        size % 4096 == 0,
        size < pow2(LOG_MAX_ADDRESS_SPACE_SIZE as nat),
    ensures
        free_bytes(push_all(lists, decompose(start, size))) == free_bytes(lists) + size,
    decreases size,
{
    if size == 0 {
        lemma2_to64();
        assert(decompose(start, size) =~= Seq::empty());
    } else {
        if size < 4096 {
            vstd::arithmetic::div_mod::lemma_small_mod(size, 4096);
        }
        lemma_decompose_step(start, size);
        let l = block_log(start, size);
        lemma_log2_floor(size);
        if log2_floor(size) >= 48 {
            if log2_floor(size) > 48 {
                lemma_pow2_strictly_increases(48, log2_floor(size));
            }
        }
        lemma_align_down(start as int, 12, l);
        vstd::arithmetic::div_mod::lemma_add_mod_noop(start as int, pow2(l) as int, 4096);
        vstd::arithmetic::div_mod::lemma_sub_mod_noop(size as int, pow2(l) as int, 4096);
        let rest = decompose(start + pow2(l), (size - pow2(l)) as nat);
        let pushed = after_push(lists, start as usize, (l - 12) as nat);
        lemma_push_all_cons(lists, (start, (l - 12) as nat), rest);
        lemma_free_bytes_push(lists, start as usize, (l - 12) as nat, NUM_SIZE_CLASS as nat);
        lemma_release_range_conserves_bytes(pushed, start + pow2(l), (size - pow2(l)) as nat);
    }
}

/// Law: a cell released and then taken again by an allocation of the same
/// class is the cell that was released, and the free lists are as before.
pub proof fn lemma_release_then_allocate(lists: Seq<Seq<usize>>, cell: usize, c: nat)
    requires
        lists_ok(lists),
        c < NUM_SIZE_CLASS,
    ensures
        ({
            let pushed = after_push(lists, cell, c);
            let k = first_nonempty(pushed, c);
            &&& k == c
            &&& pushed[k as int].last() == cell
            &&& after_split(pushed, c, k, cell as int) == lists
        }),
{
    let pushed = after_push(lists, cell, c);
    assert(pushed[c as int].len() > 0);
    assert(lists[c as int].push(cell).drop_last() =~= lists[c as int]);
    assert(after_split(pushed, c, c, cell as int) =~= lists);
}


/// The byte ranges `[a, a + sa)` and `[b, b + sb)` share no byte.
pub open spec fn apart(a: int, sa: int, b: int, sb: int) -> bool {
    a + sa <= b || b + sb <= a
}

/// No two free cells share a byte.
pub open spec fn cells_apart(lists: Seq<Seq<usize>>) -> bool {
    forall|c: int, i: int, d: int, j: int|
        0 <= c < lists.len() && 0 <= i < lists[c].len() && 0 <= d < lists.len() && 0 <= j < lists[d].len()
            && (c != d || i != j) ==> #[trigger] apart(
            lists[c][i] as int,
            cell_bytes(c as nat) as int,
            lists[d][j] as int,
            cell_bytes(d as nat) as int,
        )
}

/// Cells grow with their class.
proof fn lemma_cell_bytes_grow(a: nat, b: nat)
    requires
        a <= b,
    ensures
        cell_bytes(a) <= cell_bytes(b),
{
    if a < b {
        lemma_pow2_strictly_increases(a + 12, b + 12);
    }
}

/// Law: taking the top cell `a` of class `k` for a request of class `c`
/// (the first non-empty class at or above `c`) and splitting it keeps the
/// free cells from sharing a byte; the cell handed out shares no byte with
/// any cell still free; and a byte range apart from every free cell before
/// stays apart from every free cell after, and from the cell handed out.
pub proof fn lemma_split_keeps_apart(lists: Seq<Seq<usize>>, c: nat, x: int, sx: int)
    requires
        lists_ok(lists),
        cells_apart(lists),
        c < NUM_SIZE_CLASS,
        first_nonempty(lists, c) < NUM_SIZE_CLASS,
    ensures
        ({
            let k = first_nonempty(lists, c);
            let a = lists[k as int].last();
            let mid = after_split(lists, c, k, a as int);
            &&& cells_apart(mid)
            &&& forall|d: int, j: int|
                0 <= d < mid.len() && 0 <= j < mid[d].len() ==> #[trigger] apart(
                    a as int,
                    cell_bytes(c) as int,
                    mid[d][j] as int,
                    cell_bytes(d as nat) as int,
                )
            &&& (forall|d: int, j: int|
                0 <= d < lists.len() && 0 <= j < lists[d].len() ==> #[trigger] apart(
                    x,
                    sx,
                    lists[d][j] as int,
                    cell_bytes(d as nat) as int,
                )) ==> apart(x, sx, a as int, cell_bytes(c) as int) && forall|d: int, j: int|
                0 <= d < mid.len() && 0 <= j < mid[d].len() ==> #[trigger] apart(
                    x,
                    sx,
                    mid[d][j] as int,
                    cell_bytes(d as nat) as int,
                )
        }),
{
    let k = first_nonempty(lists, c);
    lemma_first_nonempty(lists, c);
    let n = lists[k as int].len();
    let a = lists[k as int].last();
    let mid = after_split(lists, c, k, a as int);
    lemma_cell_bytes_grow(c, k);
    assert(cell_ok(a as int, k));
    // Where each free cell of `mid` lies: an old cell other than `a`, or a
    // split half inside `[a, a + cell_bytes(k))` above `a + cell_bytes(c)`.
    assert forall|d: int, j: int| 0 <= d < mid.len() && 0 <= j < mid[d].len() implies {
        ||| (c <= d < k && j == lists[d].len() && mid[d][j] == a + cell_bytes(d as nat)
            && a + cell_bytes(c) <= a + cell_bytes(d as nat)
            && a + 2 * cell_bytes(d as nat) <= a + cell_bytes(k))
        ||| (j < lists[d].len() && mid[d][j] == lists[d][j] && !(d == k && j == n - 1))
    } by {
        if c <= d < k {
            lemma_split_cell_ok(a as int, k, d as nat);
            lemma_cell_bytes_grow(c, d as nat);
            assert(mid[d] == lists[d].push((a + cell_bytes(d as nat)) as usize));
        } else if d == k {
            assert(mid[d] == lists[d].drop_last());
        } else {
            assert(mid[d] == lists[d]);
        }
    }
    assert forall|d: int, j: int| 0 <= d < mid.len() && 0 <= j < mid[d].len() implies #[trigger] apart(
        a as int,
        cell_bytes(c) as int,
        mid[d][j] as int,
        cell_bytes(d as nat) as int,
    ) by {
        if j < lists[d].len() && mid[d][j] == lists[d][j] && !(d == k && j == n - 1) {
            assert(apart(lists[k as int][n - 1] as int, cell_bytes(k) as int, lists[d][j] as int, cell_bytes(d as nat) as int));
        }
    }
    assert forall|d1: int, j1: int, d2: int, j2: int|
        0 <= d1 < mid.len() && 0 <= j1 < mid[d1].len() && 0 <= d2 < mid.len() && 0 <= j2 < mid[d2].len()
            && (d1 != d2 || j1 != j2) implies #[trigger] apart(
            mid[d1][j1] as int,
            cell_bytes(d1 as nat) as int,
            mid[d2][j2] as int,
            cell_bytes(d2 as nat) as int,
        ) by {
        let old1 = j1 < lists[d1].len() && mid[d1][j1] == lists[d1][j1] && !(d1 == k && j1 == n - 1);
        let old2 = j2 < lists[d2].len() && mid[d2][j2] == lists[d2][j2] && !(d2 == k && j2 == n - 1);
        if old1 && old2 {
            assert(apart(lists[d1][j1] as int, cell_bytes(d1 as nat) as int, lists[d2][j2] as int, cell_bytes(d2 as nat) as int));
        } else if old1 {
            assert(apart(lists[k as int][n - 1] as int, cell_bytes(k) as int, lists[d1][j1] as int, cell_bytes(d1 as nat) as int));
        } else if old2 {
            assert(apart(lists[k as int][n - 1] as int, cell_bytes(k) as int, lists[d2][j2] as int, cell_bytes(d2 as nat) as int));
        } else {
            if d1 < d2 {
                lemma_cell_bytes_grow((d1 + 1) as nat, d2 as nat);
                lemma_pow2_unfold((d1 + 13) as nat);
            } else if d2 < d1 {
                lemma_cell_bytes_grow((d2 + 1) as nat, d1 as nat);
                lemma_pow2_unfold((d2 + 13) as nat);
            }
        }
    }
    if forall|d: int, j: int|
        0 <= d < lists.len() && 0 <= j < lists[d].len() ==> #[trigger] apart(
            x,
            sx,
            lists[d][j] as int,
            cell_bytes(d as nat) as int,
        ) {
        assert(apart(x, sx, lists[k as int][n - 1] as int, cell_bytes(k) as int));
        assert forall|d: int, j: int| 0 <= d < mid.len() && 0 <= j < mid[d].len() implies #[trigger] apart(
            x,
            sx,
            mid[d][j] as int,
            cell_bytes(d as nat) as int,
        ) by {
            if j < lists[d].len() && mid[d][j] == lists[d][j] && !(d == k && j == n - 1) {
                assert(apart(x, sx, lists[d][j] as int, cell_bytes(d as nat) as int));
            }
        }
    }
}

/// Law: while no two free cells share a byte, two allocations in a row, of
/// classes `c1` and then `c2`, hand out cells that share no byte. (Releasing
/// a cell that is still free breaks the premise.)
pub proof fn lemma_allocations_apart(lists: Seq<Seq<usize>>, c1: nat, c2: nat)
    requires
        lists_ok(lists),
        cells_apart(lists),
        c1 < NUM_SIZE_CLASS,
        c2 < NUM_SIZE_CLASS,
        first_nonempty(lists, c1) < NUM_SIZE_CLASS,
        first_nonempty(
            after_split(lists, c1, first_nonempty(lists, c1), lists[first_nonempty(lists, c1) as int].last() as int),
            c2,
        ) < NUM_SIZE_CLASS,
    ensures
        ({
            let k1 = first_nonempty(lists, c1);
            let a = lists[k1 as int].last();
            let mid = after_split(lists, c1, k1, a as int);
            let k2 = first_nonempty(mid, c2);
            apart(a as int, cell_bytes(c1) as int, mid[k2 as int].last() as int, cell_bytes(c2) as int)
        }),
{
    let k1 = first_nonempty(lists, c1);
    lemma_first_nonempty(lists, c1);
    let n1 = lists[k1 as int].len();
    let a = lists[k1 as int].last();
    let mid = after_split(lists, c1, k1, a as int);
    let k2 = first_nonempty(mid, c2);
    lemma_first_nonempty(mid, c2);
    let b = mid[k2 as int].last();
    lemma_cell_bytes_grow(c1, k1);
    lemma_cell_bytes_grow(c2, k2);
    assert(cell_ok(a as int, k1));
    if c1 <= k2 && k2 < k1 {
        lemma_cell_bytes_grow(c1, k2);
        lemma_split_cell_ok(a as int, k1, k2);
        assert(mid[k2 as int] == lists[k2 as int].push((a + cell_bytes(k2)) as usize));
        assert(b == a + cell_bytes(k2));
    } else if k2 == k1 {
        assert(mid[k2 as int] == lists[k1 as int].drop_last());
        assert(b == lists[k1 as int][n1 - 2]);
        assert(apart(
            lists[k1 as int][n1 - 1] as int,
            cell_bytes(k1) as int,
            lists[k1 as int][n1 - 2] as int,
            cell_bytes(k1) as int,
        ));
    } else {
        assert(mid[k2 as int] == lists[k2 as int]);
        let n2 = lists[k2 as int].len();
        assert(apart(
            lists[k1 as int][n1 - 1] as int,
            cell_bytes(k1) as int,
            lists[k2 as int][n2 - 1] as int,
            cell_bytes(k2) as int,
        ));
    }
}

/// A range of frames that the allocator can take over: non-null, ordered and
/// inside the address space.
pub open spec fn frame_range_ok(r: Range<Frame>) -> bool {
    &&& r.start.wf()
    &&& r.end.wf()
    &&& 0 < r.start.start_value() <= r.end.start_value()
    &&& r.end.start_value() <= pow2(LOG_MAX_ADDRESS_SPACE_SIZE as nat)
    &&& r.end.start_value() - r.start.start_value() <= pow2((usize::BITS - 1) as nat)
}

/// The lists after releasing each range of `ranges` in order.
pub open spec fn release_ranges(lists: Seq<Seq<usize>>, ranges: Seq<Range<Frame>>) -> Seq<Seq<usize>>
    decreases ranges.len(),
{
    if ranges.len() == 0 {
        lists
    } else {
        let r = ranges[0];
        release_ranges(
            push_all(
                lists,
                decompose(
                    r.start.start_value() as nat,
                    (r.end.start_value() - r.start.start_value()) as nat,
                ),
            ),
            ranges.drop_first(),
        )
    }
}

/// The size class of `S`-sized pages.
pub open spec fn page_class<S: PageSize>() -> nat {
    (S::spec_log_size() - 12) as nat
}

/// Any `k` with `2^(k-1) < 2^l <= 2^k` is `l`.
pub proof fn lemma_ceil_log2_pow2(l: nat, k: nat)
    requires
        is_ceil_log2(pow2(l), k),
    ensures
        k == l,
{
    if k < l {
        lemma_pow2_strictly_increases(k, l);
    } else if k > l {
        if (k - 1) as nat > l {
            lemma_pow2_strictly_increases(l, (k - 1) as nat);
        }
    }
}

/// A buddy allocator over physical memory.
pub struct Buddy {
    table: Vec<Vec<usize>>,
}

impl View for Buddy {
    type V = Seq<Seq<usize>>;

    closed spec fn view(&self) -> Seq<Seq<usize>> {
        self.table@.map_values(|l: Vec<usize>| l@)
    }
}

impl Buddy {
    /// The allocator's invariant.
    pub open spec fn wf(&self) -> bool {
        lists_ok(self@)
    }

    /// An allocator with no free memory.
    pub fn new() -> (r: Self)
        ensures
            r.wf(),
            r@ == Seq::new(NUM_SIZE_CLASS as nat, |i: int| Seq::<usize>::empty()),
    {
        let mut table: Vec<Vec<usize>> = Vec::new();
        let mut i: usize = 0;
        while i < NUM_SIZE_CLASS
            invariant
                i <= NUM_SIZE_CLASS,
                table.len() == i,
                forall|j: int| 0 <= j < i ==> (#[trigger] table@[j])@ == Seq::<usize>::empty(),
            decreases NUM_SIZE_CLASS - i,
        {
            table.push(Vec::new());
            i = i + 1;
        }
        let r = Buddy { table };
        assert(r@ =~= Seq::new(NUM_SIZE_CLASS as nat, |i: int| Seq::<usize>::empty()));
        r
    }

    /// Bytes in a cell of class `size_class`.
    fn size(size_class: usize) -> (r: usize)
        requires
            size_class + 12 < usize::BITS,
        ensures
            r == cell_bytes(size_class as nat),
            r > 0,
    {
        proof {
            lemma_pow2_pos((size_class + 12) as nat);
            lemma_usize_pow2_no_overflow((size_class + 12) as nat);
            lemma_usize_shl_is_mul(1, (size_class + 12) as usize);
        }
        1usize << (size_class + LOG_MIN_CELL)
    }

    /// The class of the smallest cell that holds `size` bytes.
    fn size_class(size: usize) -> (r: usize)
        requires
            4096 <= size,
            size <= pow2((usize::BITS - 1) as nat),
        ensures
            is_ceil_log2(size as nat, (r + 12) as nat),
            r + 12 < usize::BITS,
    {
        let mut l: usize = 0;
        let mut p: usize = 1;
        proof {
            lemma2_to64();
        }
        while p < size
            invariant
                p == pow2(l as nat),
                l < usize::BITS,
                l == 0 || pow2((l - 1) as nat) < size,
                size <= pow2((usize::BITS - 1) as nat),
            decreases usize::BITS - l,
        {
            proof {
                lemma_pow2_unfold((l + 1) as nat);
                lemma_usize_pow2_no_overflow((usize::BITS - 1) as nat);
                if l >= usize::BITS - 1 {
                    if l > usize::BITS - 1 {
                        lemma_pow2_strictly_increases((usize::BITS - 1) as nat, l as nat);
                    }
                    assert(false);
                }
                if l + 1 < usize::BITS - 1 {
                    lemma_pow2_strictly_increases((l + 1) as nat, (usize::BITS - 1) as nat);
                }
            }
            p = p * 2;
            l = l + 1;
        }
        proof {
            assert(pow2(11) == 2048) by {
                lemma2_to64();
            }
            if l < 12 {
                if l < 11 {
                    lemma_pow2_strictly_increases(l as nat, 11);
                }
            }
        }
        l - LOG_MIN_CELL
    }

    /// Pushes `cell` on the free list of `size_class`.
    fn push(&mut self, cell: usize, size_class: usize)
        requires
            old(self).wf(),
            size_class < NUM_SIZE_CLASS,
            cell_ok(cell as int, size_class as nat),
        ensures
            final(self).wf(),
            final(self)@ == after_push(old(self)@, cell, size_class as nat),
    {
        self.table[size_class].push(cell);
        proof {
            assert(self@ =~= after_push(old(self)@, cell, size_class as nat));
        }
    }

    /// Pops the top cell of the free list of `size_class`.
    fn pop(&mut self, size_class: usize) -> (r: Option<usize>)
        requires
            old(self).wf(),
            size_class < NUM_SIZE_CLASS,
        ensures
            final(self).wf(),
            old(self)@[size_class as int].len() == 0 ==> r.is_none() && final(self)@ == old(self)@,
            old(self)@[size_class as int].len() > 0 ==> r == Some(old(self)@[size_class as int].last())
                && final(self)@ == old(self)@.update(
                size_class as int,
                old(self)@[size_class as int].drop_last(),
            ),
    {
        proof {
            assert(self.table@[size_class as int]@ == self@[size_class as int]);
        }
        if self.table[size_class].len() == 0 {
            return None;
        }
        let cell = self.table[size_class].pop();
        proof {
            assert(self@ =~= old(self)@.update(
                size_class as int,
                old(self)@[size_class as int].drop_last(),
            ));
        }
        cell
    }

    /// Cuts a cell of class `parent_size_class` into its two halves.
    fn split_cell(&mut self, parent: usize, parent_size_class: usize) -> (r: (usize, usize))
        requires
            1 <= parent_size_class < NUM_SIZE_CLASS,
            cell_ok(parent as int, parent_size_class as nat),
        ensures
            final(self)@ == old(self)@,
            r.0 == parent,
            r.1 == parent + cell_bytes((parent_size_class - 1) as nat),
    {
        proof {
            lemma_cell_class_bound(parent as int, parent_size_class as nat);
            lemma_split_cell_ok(parent as int, parent_size_class as nat, (parent_size_class - 1) as nat);
        }
        let child_size_class = parent_size_class - 1;
        let unit1 = parent;
        let unit2 = parent + Self::size(child_size_class);
        (unit1, unit2)
    }

    /// Takes a cell from the first non-empty class at or above
    /// `request_size_class` and splits it down to the requested class.
    fn allocate_cell_slow(&mut self, request_size_class: usize) -> (r: Option<usize>)
        requires
            old(self).wf(),
            request_size_class < NUM_SIZE_CLASS,
        ensures
            final(self).wf(),
            ({
                let k = first_nonempty(old(self)@, request_size_class as nat);
                if k == NUM_SIZE_CLASS {
                    r.is_none() && final(self)@ == old(self)@
                } else {
                    r == Some(old(self)@[k as int].last()) && final(self)@ == after_split(
                        old(self)@,
                        request_size_class as nat,
                        k,
                        old(self)@[k as int].last() as int,
                    )
                }
            }),
    {
        let ghost old_lists = self@;
        let mut size_class = request_size_class;
        while size_class < NUM_SIZE_CLASS
            invariant
                self.wf(),
                self@ == old_lists,
                old_lists == old(self)@,
                request_size_class <= size_class <= NUM_SIZE_CLASS,
                first_nonempty(old_lists, request_size_class as nat) == first_nonempty(
                    old_lists,
                    size_class as nat,
                ),
            decreases NUM_SIZE_CLASS - size_class,
        {
            if let Some(unit) = self.pop(size_class) {
                let ghost k = size_class as nat;
                proof {
                    assert(first_nonempty(old_lists, k) == k);
                    assert(cell_ok(
                        old_lists[k as int][old_lists[k as int].len() - 1] as int,
                        k,
                    ));
                    assert(cell_ok(unit as int, k));
                    assert(self@ =~= after_split(old_lists, k, k, unit as int));
                }
                let mut parent_size_class = size_class;
                while parent_size_class > request_size_class
                    invariant
                        self.wf(),
                        request_size_class <= parent_size_class <= k,
                        k < NUM_SIZE_CLASS,
                        cell_ok(unit as int, k),
                        old_lists.len() == NUM_SIZE_CLASS,
                        old_lists == old(self)@,
                        old_lists[k as int].len() > 0,
                        unit == old_lists[k as int].last(),
                        first_nonempty(old_lists, request_size_class as nat) == k,
                        self@ == after_split(old_lists, parent_size_class as nat, k, unit as int),
                    decreases parent_size_class,
                {
                    proof {
                        lemma_cell_ok_down(unit as int, k, parent_size_class as nat);
                    }
                    let (unit1, unit2) = self.split_cell(unit, parent_size_class);
                    let child_size_class = parent_size_class - 1;
                    proof {
                        lemma_split_cell_ok(unit as int, k, child_size_class as nat);
                    }
                    self.push(unit2, child_size_class);
                    proof {
                        assert(self@ =~= after_split(
                            old_lists,
                            child_size_class as nat,
                            k,
                            unit as int,
                        ));
                    }
                    parent_size_class = child_size_class;
                }
                return Some(unit);
            }
            proof {
                assert(old_lists[size_class as int].len() == 0);
                assert(first_nonempty(old_lists, size_class as nat) == first_nonempty(
                    old_lists,
                    (size_class + 1) as nat,
                ));
            }
            size_class = size_class + 1;
        }
        None
    }

    /// Takes a cell of class `size_class`, splitting a larger one when the
    /// class has no free cell.
    fn allocate_cell(&mut self, size_class: usize) -> (r: Option<usize>)
        requires
            old(self).wf(),
            size_class < NUM_SIZE_CLASS,
        ensures
            final(self).wf(),
            ({
                let k = first_nonempty(old(self)@, size_class as nat);
                if k == NUM_SIZE_CLASS {
                    r.is_none() && final(self)@ == old(self)@
                } else {
                    r == Some(old(self)@[k as int].last()) && final(self)@ == after_split(
                        old(self)@,
                        size_class as nat,
                        k,
                        old(self)@[k as int].last() as int,
                    )
                }
            }),
    {
        let ghost old_lists = self@;
        if let Some(cell) = self.pop(size_class) {
            proof {
                assert(self@ =~= after_split(old_lists, size_class as nat, size_class as nat, cell as int));
            }
            return Some(cell);
        }
        self.allocate_cell_slow(size_class)
    }

    /// Returns a cell to the free list of its class.
    fn release_cell(&mut self, cell: usize, size_class: usize)
        requires
            old(self).wf(),
            size_class < NUM_SIZE_CLASS,
            cell_ok(cell as int, size_class as nat),
        ensures
            final(self).wf(),
            final(self)@ == after_push(old(self)@, cell, size_class as nat),
    {
        self.push(cell, size_class);
    }

    /// The largest class at most `max_class` to which `addr` is aligned.
    fn align_class(addr: usize, max_class: usize) -> (r: usize)
        requires
            addr % 4096 == 0,
            max_class + 12 < usize::BITS,
        ensures
            r + 12 == max_align_log(addr as nat, (max_class + 12) as nat),
            r <= max_class,
    {
        let mut sc = max_class;
        proof {
            lemma2_to64();
        }
        while sc > 0 && addr % Self::size(sc) != 0
            invariant
                sc <= max_class,
                max_class + 12 < usize::BITS,
                addr % 4096 == 0,
                max_align_log(addr as nat, (max_class + 12) as nat) == max_align_log(
                    addr as nat,
                    (sc + 12) as nat,
                ),
            decreases sc,
        {
            sc = sc - 1;
        }
        sc
    }

    /// Frees the range `[start, start + size)` by cutting it greedily into
    /// the largest aligned cells and pushing them in address order.
    fn release_contiguous(&mut self, start: usize, size: usize)
        requires
            old(self).wf(),
            start > 0,
            start % 4096 == 0,
            size % 4096 == 0,
            start + size <= usize::MAX,
            start + size <= pow2(LOG_MAX_ADDRESS_SPACE_SIZE as nat),
            size <= pow2((usize::BITS - 1) as nat),
        ensures
            final(self).wf(),
            final(self)@ == push_all(old(self)@, decompose(start as nat, size as nat)),
    {
        let ghost target = push_all(self@, decompose(start as nat, size as nat));
        let limit = start + size;
        let mut start = start;
        let mut size = size;
        proof {
            lemma2_to64();
            lemma_pow2_word();
        }
        while start < limit
            invariant
                self.wf(),
                start > 0,
                start % 4096 == 0,
                size % 4096 == 0,
                limit == start + size,
                limit <= usize::MAX,
                limit <= pow2(LOG_MAX_ADDRESS_SPACE_SIZE as nat),
                size <= pow2((usize::BITS - 1) as nat),
                push_all(self@, decompose(start as nat, size as nat)) == target,
            decreases size,
        {
            let ghost n = size as nat;
            let ghost f = log2_floor(n);
            let ghost l = block_log(start as nat, n);
            proof {
                if n < 4096 {
                    vstd::arithmetic::div_mod::lemma_small_mod(n, 4096);
                }
                lemma_decompose_step(start as nat, n);
                lemma_log2_floor(n);
                lemma2_to64();
                if f >= 48 {
                    if f > 48 {
                        lemma_pow2_strictly_increases(48, f);
                    }
                    assert(false);
                }
            }
            let curr_size_class = Self::size_class(size);
            let prev_size_class = if size == Self::size(curr_size_class) {
                proof {
                    lemma_pow2_unfold((curr_size_class + 13) as nat);
                    lemma_log2_floor_unique(n, (curr_size_class + 12) as nat);
                }
                curr_size_class
            } else {
                proof {
                    let c = (curr_size_class + 12) as nat;
                    if curr_size_class == 0 {
                        assert(pow2(12) == 4096);
                        assert(false);
                    }
                    lemma_pow2_unfold(c);
                    lemma_log2_floor_unique(n, (c - 1) as nat);
                }
                curr_size_class - 1
            };
            let size_class = Self::align_class(start, prev_size_class);
            proof {
                assert(size_class + 12 == l);
                assert(cell_ok(start as int, size_class as nat));
            }
            let end = start + Self::size(size_class);
            let ghost before = self@;
            self.release_cell(start, size_class);
            proof {
                lemma_push_all_cons(
                    before,
                    (start as nat, size_class as nat),
                    decompose(end as nat, (n - pow2(l)) as nat),
                );
            }
            start = end;
            size = limit - end;
        }
    }

    /// Takes over the frames of every range, in order.
    pub fn init(&mut self, frames: &[Range<Frame>])
        requires
            old(self).wf(),
            forall|i: int| 0 <= i < frames@.len() ==> frame_range_ok(#[trigger] frames@[i]),
        ensures
            final(self).wf(),
            final(self)@ == release_ranges(old(self)@, frames@),
    {
        let ghost target = release_ranges(self@, frames@);
        let mut i: usize = 0;
        proof {
            assert(frames@.skip(0) =~= frames@);
        }
        while i < frames.len()
            invariant
                self.wf(),
                i <= frames@.len(),
                forall|j: int| 0 <= j < frames@.len() ==> frame_range_ok(#[trigger] frames@[j]),
                release_ranges(self@, frames@.skip(i as int)) == target,
            decreases frames@.len() - i,
        {
            let range = &frames[i];
            let start = range.start.start();
            let end = range.end.start();
            proof {
                assert(frame_range_ok(frames@[i as int]));
                lemma2_to64();
                let s0 = start.value() as int;
                let e0 = end.value() as int;
                vstd::arithmetic::div_mod::lemma_sub_mod_noop(e0, s0, 4096);
                let rest = frames@.skip(i as int);
                assert(rest.drop_first() =~= frames@.skip(i + 1));
                lemma_pow2_word();
                if 48 > usize::BITS {
                    lemma_pow2_strictly_increases(usize::BITS as nat, 48);
                }
            }
            self.release_contiguous(start.as_usize(), end.diff(start));
            i = i + 1;
        }
        proof {
            assert(frames@.skip(i as int) =~= Seq::<Range<Frame>>::empty());
        }
    }

    /// Takes a free `S`-sized frame, if any class at or above its size has
    /// a free cell.
    pub fn acquire<S: PageSize>(&mut self) -> (r: Option<Frame<S>>)
        requires
            old(self).wf(),
        ensures
            final(self).wf(),
            ({
                let c = page_class::<S>();
                let k = first_nonempty(old(self)@, c);
                if k == NUM_SIZE_CLASS {
                    r.is_none() && final(self)@ == old(self)@
                } else {
                    &&& r.is_some()
                    &&& r.unwrap().wf()
                    &&& r.unwrap().start_value() == old(self)@[k as int].last()
                    &&& final(self)@ == after_split(old(self)@, c, k, old(self)@[k as int].last() as int)
                }
            }),
    {
        let size = crate::page::page_size::<S>();
        proof {
            lemma_page_bytes::<S>();
            lemma2_to64();
            S::lemma_log_size_range();
            if S::spec_log_size() < usize::BITS - 1 {
                lemma_pow2_strictly_increases(S::spec_log_size(), (usize::BITS - 1) as nat);
            }
        }
        let size_class = Self::size_class(size);
        proof {
            lemma_ceil_log2_pow2(S::spec_log_size(), (size_class + 12) as nat);
            lemma_first_nonempty(self@, size_class as nat);
        }
        let ghost old_lists = self@;
        match self.allocate_cell(size_class) {
            Some(addr) => {
                proof {
                    let k = first_nonempty(old_lists, size_class as nat);
                    assert(cell_ok(
                        old_lists[k as int][old_lists[k as int].len() - 1] as int,
                        k,
                    ));
                    lemma_align_down(addr as int, S::spec_log_size(), k + 12);
                }
                Some(Page::new(Address::new(addr)))
            },
            None => None,
        }
    }

    /// Returns an `S`-sized frame to the free list of its class.
    pub fn release<S: PageSize>(&mut self, frame: Frame<S>)
        requires
            old(self).wf(),
            frame.wf(),
            frame.start_value() > 0,
            frame.start_value() + page_bytes::<S>() <= usize::MAX + 1,
        ensures
            final(self).wf(),
            final(self)@ == after_push(old(self)@, frame.start_value(), page_class::<S>()),
    {
        let size = crate::page::page_size::<S>();
        proof {
            lemma_page_bytes::<S>();
            lemma2_to64();
            S::lemma_log_size_range();
            if S::spec_log_size() < usize::BITS - 1 {
                lemma_pow2_strictly_increases(S::spec_log_size(), (usize::BITS - 1) as nat);
            }
        }
        let size_class = Self::size_class(size);
        proof {
            lemma_ceil_log2_pow2(S::spec_log_size(), (size_class + 12) as nat);
        }
        self.release_cell(frame.start().as_usize(), size_class);
    }
}

impl Buddy {
    /// The number of free bytes.
    pub fn free_byte_count(&self) -> (r: u128)
        requires
            self.wf(),
        ensures
            r == free_bytes(self@),
    {
        let mut total: u128 = 0;
        let mut cell: u128 = 4096;
        let mut c: usize = 0;
        proof {
            lemma2_to64();
        }
        while c < NUM_SIZE_CLASS
            invariant
                c <= NUM_SIZE_CLASS,
                self.wf(),
                total == free_bytes_below(self@, c as nat),
                cell == cell_bytes(c as nat),
                cell <= 0x2_0000_0000_0000,
                total <= c * 0x1_0000_0000_0000_0000 * cell,
            decreases NUM_SIZE_CLASS - c,
        {
            let len = self.table[c].len();
            proof {
                assert(self@[c as int] == self.table@[c as int]@);
                assert(len * cell <= 0x1_0000_0000_0000_0000 * cell) by (nonlinear_arith)
                    requires
                        len < 0x1_0000_0000_0000_0000,
                ;
                assert(len * cell < 0x1_0000_0000_0000_0000 * 0x2_0000_0000_0001) by (nonlinear_arith)
                    requires
                        len < 0x1_0000_0000_0000_0000,
                        cell <= 0x2_0000_0000_0000,
                ;
                assert(c * 0x1_0000_0000_0000_0000 * cell <= 37 * 0x1_0000_0000_0000_0000 * 0x2_0000_0000_0000) by (nonlinear_arith)
                    requires
                        c <= 37,
                        cell <= 0x2_0000_0000_0000,
                ;
                lemma2_to64();
                lemma2_to64_rest();
                lemma_pow2_unfold(c as nat + 13);
                if c + 1 < NUM_SIZE_CLASS {
                    lemma_pow2_strictly_increases(c as nat + 13, 49);
                }
                assert((c + 1) * 0x1_0000_0000_0000_0000 * cell <= (c + 1) * 0x1_0000_0000_0000_0000 * (2 * cell))
                    by (nonlinear_arith)
                    requires
                        cell >= 0,
                ;
                assert((c + 1) * 0x1_0000_0000_0000_0000 * cell == c * 0x1_0000_0000_0000_0000 * cell
                    + 0x1_0000_0000_0000_0000 * cell) by (nonlinear_arith);
            }
            total = total + (len as u128) * cell;
            c = c + 1;
            cell = cell * 2;
        }
        total
    }
}

} // verus!
