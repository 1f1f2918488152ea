//! A monotone (bump) allocator of physical frames.
use crate::address::{Address, Physical};
use crate::buddy::LOG_MAX_ADDRESS_SPACE_SIZE;
use crate::page::{lemma_page_bytes, lemma_round_up, page_bytes, page_size, round_up, Frame, Page, PageSize, Size4K};
use core::ops::Range;
use vstd::arithmetic::power2::*;
use vstd::prelude::*;

verus! {

/// Start and end addresses of a range of frames.
pub open spec fn range_bounds(r: Range<Frame>) -> (nat, nat) {
    (r.start.start_value() as nat, r.end.start_value() as nat)
}

/// The highest address a range may reach.
pub open spec fn top() -> nat {
    pow2(LOG_MAX_ADDRESS_SPACE_SIZE as nat)
}

/// The result of acquiring `count` pages of `bytes` bytes each, from the
/// state `(cursor, limit, index)` over the ranges `rs`: the next state and
/// the `[start, end)` handed out, if any.
///
/// Pages are handed out from the cursor, rounded up to the page size, as
/// long as they end at or before the limit; otherwise the allocator moves
/// to the start of the next range and tries again.
pub open spec fn acquire_outcome(
    cursor: Option<nat>,
    limit: Option<nat>,
    index: nat,
    rs: Seq<(nat, nat)>,
    bytes: nat,
    count: nat,
) -> (Option<nat>, Option<nat>, nat, Option<(nat, nat)>)
    decreases rs.len() - index,
{
    let fits = match (cursor, limit) {
        (Some(c), Some(l)) => round_up(c, bytes) + count * bytes <= l,
        _ => false,
    };
    if fits {
        let s = round_up(cursor.unwrap(), bytes);
        let e = s + count * bytes;
        (Some(e), limit, index, Some((s, e)))
    } else if index + 1 < rs.len() {
        acquire_outcome(
            Some(rs[index + 1 as int].0),
            Some(rs[index + 1 as int].1),
            index + 1,
            rs,
            bytes,
            count,
        )
    } else {
        (cursor, limit, index + 1, None)
    }
}


/// The ranges are in ascending order and do not overlap.
pub open spec fn ascending(rs: Seq<(nat, nat)>) -> bool {
    forall|k: int| 0 <= k < rs.len() ==> #[trigger] rs[k].0 <= rs[k].1 && (k + 1 < rs.len() ==> rs[k].1 <= rs[k + 1].0)
}

/// A state inside range `i`: the cursor is at most the limit, which is the
/// range's end.
pub open spec fn in_range(c: nat, l: nat, i: nat, rs: Seq<(nat, nat)>) -> bool {
    i < rs.len() && l == rs[i as int].1 && c <= l
}

/// What an acquisition from a state inside a range hands out starts at or
/// after the cursor, and leaves a state inside a range whose cursor is the
/// end of what it handed out.
proof fn lemma_outcome_after(c: nat, l: nat, i: nat, rs: Seq<(nat, nat)>, b: nat, n: nat)
    requires
        ascending(rs),
        in_range(c, l, i, rs),
        b > 0,
    ensures
        ({
            let o = acquire_outcome(Some(c), Some(l), i, rs, b, n);
            o.3 matches Some((s, e)) ==> c <= s && s <= e && o.0 == Some(e) && o.1 is Some && in_range(
                e,
                o.1->0,
                o.2,
                rs,
            )
        }),
    decreases rs.len() - i,
{
    lemma_round_up(c, b);
    let fits = round_up(c, b) + n * b <= l;
    if !fits && i + 1 < rs.len() {
        let j = (i + 1) as int;
        assert(rs[i as int].0 <= rs[i as int].1);
        assert(rs[j].0 <= rs[j].1);
        assert(rs[i as int].1 <= rs[j].0);
        assert(rs[j].0 <= rs[j].1);
        lemma_outcome_after(rs[j].0, rs[j].1, (i + 1) as nat, rs, b, n);
    }
}

/// Law: over ascending ranges, two acquisitions in a row never hand out
/// overlapping frames: the second starts at or after the end of the first.
pub proof fn lemma_acquires_do_not_overlap(
    c: nat,
    l: nat,
    i: nat,
    rs: Seq<(nat, nat)>,
    b1: nat,
    n1: nat,
    b2: nat,
    n2: nat,
)
    requires
        ascending(rs),
        in_range(c, l, i, rs),
        b1 > 0,
        b2 > 0,
    ensures
        ({
            let o1 = acquire_outcome(Some(c), Some(l), i, rs, b1, n1);
            let o2 = acquire_outcome(o1.0, o1.1, o1.2, rs, b2, n2);
            o1.3 matches Some((s1, e1)) ==> (o2.3 matches Some((s2, e2)) ==> s1 <= e1 <= s2)
        }),
{
    lemma_outcome_after(c, l, i, rs, b1, n1);
    let o1 = acquire_outcome(Some(c), Some(l), i, rs, b1, n1);
    if let Some((s1, e1)) = o1.3 {
        lemma_outcome_after(e1, o1.1->0, o1.2, rs, b2, n2);
    }
}

/// The range an allocator at range index `i` hands out from: range `i`,
/// or the last range once every range has been tried.
pub open spec fn current(i: nat, rs: Seq<(nat, nat)>) -> int {
    if i < rs.len() {
        i as int
    } else {
        rs.len() - 1
    }
}

/// A state from which acquisitions hand out frames in order: the cursor
/// lies in the current range and the limit is that range's end.
pub open spec fn state_ok(c: nat, l: nat, i: nat, rs: Seq<(nat, nat)>) -> bool {
    &&& rs.len() > 0
    &&& rs[current(i, rs)].0 <= c <= l
    &&& l == rs[current(i, rs)].1
}

/// `[s, e)` lies inside one of the ranges `rs`.
pub open spec fn inside_some(s: nat, e: nat, rs: Seq<(nat, nat)>) -> bool {
    exists|k: int| 0 <= k < rs.len() && #[trigger] rs[k].0 <= s && e <= rs[k].1
}

/// What acquiring `reqs` in turn (each a page size and a page count) hands
/// out, from the state `(c, l, i)` over the ranges `rs`.
pub open spec fn acquire_all(
    c: Option<nat>,
    l: Option<nat>,
    i: nat,
    rs: Seq<(nat, nat)>,
    reqs: Seq<(nat, nat)>,
) -> Seq<Option<(nat, nat)>>
    decreases reqs.len(),
{
    if reqs.len() == 0 {
        Seq::empty()
    } else {
        let o = acquire_outcome(c, l, i, rs, reqs[0].0, reqs[0].1);
        seq![o.3] + acquire_all(o.0, o.1, o.2, rs, reqs.drop_first())
    }
}

/// One acquisition from a good state leaves a good state whose cursor is
/// not below the old one, and hands out frames inside a range, from the
/// old cursor on, up to the new cursor.
proof fn lemma_outcome_ordered(c: nat, l: nat, i: nat, rs: Seq<(nat, nat)>, b: nat, n: nat)
    requires
        ascending(rs),
        state_ok(c, l, i, rs),
        b > 0,
    ensures
        ({
            let o = acquire_outcome(Some(c), Some(l), i, rs, b, n);
            &&& o.0 is Some && o.1 is Some
            &&& state_ok(o.0->0, o.1->0, o.2, rs)
            &&& c <= o.0->0
            &&& o.3 matches Some((s, e)) ==> c <= s <= e && e == o.0->0 && inside_some(s, e, rs)
        }),
    decreases rs.len() - i,
{
    lemma_round_up(c, b);
    let fits = round_up(c, b) + n * b <= l;
    let k = current(i, rs);
    assert(rs[k].0 <= rs[k].1);
    if fits {
        let s = round_up(c, b);
        let e = s + n * b;
        assert(rs[k].0 <= s && e <= rs[k].1);
    } else if i + 1 < rs.len() {
        let j = (i + 1) as int;
        assert(rs[j].0 <= rs[j].1);
        assert(rs[i as int].1 <= rs[j].0);
        lemma_outcome_ordered(rs[j].0, rs[j].1, (i + 1) as nat, rs, b, n);
    }
}

/// Law: over ascending ranges, from a good state (such as the one `init`
/// leaves), any sequence of acquisitions hands out frames that lie inside
/// the ranges, each from the cursor on, and each ending at or before the
/// start of every later one: no two of them overlap.
pub proof fn lemma_acquisitions_in_order(c: nat, l: nat, i: nat, rs: Seq<(nat, nat)>, reqs: Seq<(nat, nat)>)
    requires
        ascending(rs),
        state_ok(c, l, i, rs),
        forall|k: int| 0 <= k < reqs.len() ==> #[trigger] reqs[k].0 > 0,
    ensures
        ({
            let out = acquire_all(Some(c), Some(l), i, rs, reqs);
            &&& out.len() == reqs.len()
            &&& forall|k: int|
                0 <= k < out.len() ==> (#[trigger] out[k] matches Some((s, e)) ==> c <= s <= e && inside_some(s, e, rs))
            &&& forall|j: int, k: int|
                0 <= j < k < out.len() ==> (#[trigger] out[j] matches Some((s1, e1)) ==> (#[trigger] out[k] matches Some((s2, e2)) ==> e1 <= s2))
        }),
    decreases reqs.len(),
{
    if reqs.len() > 0 {
        assert(reqs[0].0 > 0);
        lemma_outcome_ordered(c, l, i, rs, reqs[0].0, reqs[0].1);
        let o = acquire_outcome(Some(c), Some(l), i, rs, reqs[0].0, reqs[0].1);
        let rest = reqs.drop_first();
        assert forall|k: int| 0 <= k < rest.len() implies #[trigger] rest[k].0 > 0 by {
            assert(rest[k] == reqs[k + 1]);
        }
        lemma_acquisitions_in_order(o.0->0, o.1->0, o.2, rs, rest);
        let tail = acquire_all(o.0, o.1, o.2, rs, rest);
        let out = acquire_all(Some(c), Some(l), i, rs, reqs);
        assert(out == seq![o.3] + tail);
        assert forall|k: int| 0 <= k < out.len() implies (#[trigger] out[k] matches Some((s, e)) ==> c <= s <= e
            && inside_some(s, e, rs)) by {
            if k > 0 {
                assert(out[k] == tail[k - 1]);
            }
        }
        assert forall|j: int, k: int| 0 <= j < k < out.len() implies (#[trigger] out[j] matches Some((s1, e1))
            ==> (#[trigger] out[k] matches Some((s2, e2)) ==> e1 <= s2)) by {
            assert(out[k] == tail[k - 1]);
            if j > 0 {
                assert(out[j] == tail[j - 1]);
            }
        }
    }
}

/// A monotone allocator over a list of frame ranges.
pub struct Monotone {
    cursor: Option<Frame>,
    limit: Option<Frame>,
    range_index: usize,
    all_frames: &'static [Range<Frame>],
}

/// The address of an optional frame.
pub open spec fn opt_start(f: Option<Frame>) -> Option<nat> {
    match f {
        Some(p) => Some(p.start_value() as nat),
        None => None,
    }
}

impl Monotone {
    pub closed spec fn cursor_view(&self) -> Option<nat> {
        opt_start(self.cursor)
    }

    pub closed spec fn limit_view(&self) -> Option<nat> {
        opt_start(self.limit)
    }

    pub closed spec fn index_view(&self) -> nat {
        self.range_index as nat
    }

    pub closed spec fn ranges_view(&self) -> Seq<(nat, nat)> {
        self.all_frames@.map_values(|r: Range<Frame>| range_bounds(r))
    }

    /// The allocator's invariant: every range, the cursor and the limit are
    /// 4KiB aligned and inside the address space.
    pub closed spec fn wf(&self) -> bool {
        &&& forall|i: int|
            0 <= i < self.all_frames@.len() ==> {
                let r = #[trigger] self.all_frames@[i];
                r.start.wf() && r.end.wf() && r.start.start_value() <= top() && r.end.start_value()
                    <= top()
            }
        &&& self.cursor matches Some(c) ==> c.wf() && c.start_value() <= top()
        &&& self.limit matches Some(l) ==> l.wf() && l.start_value() <= top()
    }

    /// An allocator with no ranges.
    pub fn new() -> (r: Self)
        ensures
            r.wf(),
            r.cursor_view().is_none(),
            r.limit_view().is_none(),
            r.index_view() == 0,
            r.ranges_view() == Seq::<(nat, nat)>::empty(),
    {
        let r = Self { cursor: None, limit: None, range_index: 0, all_frames: &[] };
        proof {
            assert(r.ranges_view() =~= Seq::<(nat, nat)>::empty());
        }
        r
    }

    /// Starts allocating from the first of `frames`.
    pub fn init(&mut self, frames: &'static [Range<Frame>])
        requires
            frames@.len() > 0,
            forall|i: int|
                0 <= i < frames@.len() ==> {
                    let r = #[trigger] frames@[i];
                    r.start.wf() && r.end.wf() && r.start.start_value() <= top()
                        && r.end.start_value() <= top()
                },
        ensures
            final(self).wf(),
            final(self).cursor_view() == Some(range_bounds(frames@[0]).0),
            final(self).limit_view() == Some(range_bounds(frames@[0]).1),
            final(self).index_view() == 0,
            final(self).ranges_view() == frames@.map_values(|r: Range<Frame>| range_bounds(r)),
    {
        let first_start = frames[0].start;
        let first_end = frames[0].end;
        proof {
            assert(frames@[0].start.wf());
        }
        self.cursor = Some(first_start);
        self.limit = Some(first_end);
        self.range_index = 0;
        self.all_frames = frames;
    }

    /// Moves to the next range and acquires from it.
    fn acquire_slow<S: PageSize>(&mut self, count: usize) -> (r: Result<Range<Frame<S>>, ()>)
        requires
            old(self).wf(),
            old(self).index_view() < usize::MAX,
        ensures
            final(self).wf(),
            final(self).ranges_view() == old(self).ranges_view(),
            ({
                let rs = old(self).ranges_view();
                let i = old(self).index_view() + 1;
                let o = if i < rs.len() {
                    acquire_outcome(
                        Some(rs[i as int].0),
                        Some(rs[i as int].1),
                        i,
                        rs,
                        page_bytes::<S>(),
                        count as nat,
                    )
                } else {
                    (old(self).cursor_view(), old(self).limit_view(), i, None)
                };
                &&& final(self).cursor_view() == o.0
                &&& final(self).limit_view() == o.1
                &&& final(self).index_view() == o.2
                &&& match o.3 {
                    Some((s, e)) => r.is_ok() && r.unwrap().start.start_value() == s
                        && r.unwrap().end.start_value() == e,
                    None => r.is_err(),
                }
            }),
        decreases old(self).ranges_view().len() - old(self).index_view(), 0nat,
    {
        self.range_index = self.range_index + 1;
        let (range_start, range_end) = match self.all_frames.get(self.range_index) {
            Some(r) => (r.start, r.end),
            None => return Err(()),
        };
        proof {
            assert(self.all_frames@[self.range_index as int].start.wf());
        }
        self.cursor = Some(range_start);
        self.limit = Some(range_end);
        self.acquire(count)
    }

    /// Acquires `count` consecutive `S`-sized frames.
    pub fn acquire<S: PageSize>(&mut self, count: usize) -> (r: Result<Range<Frame<S>>, ()>)
        requires
            old(self).wf(),
            old(self).index_view() < usize::MAX,
        ensures
            final(self).wf(),
            final(self).ranges_view() == old(self).ranges_view(),
            ({
                let o = acquire_outcome(
                    old(self).cursor_view(),
                    old(self).limit_view(),
                    old(self).index_view(),
                    old(self).ranges_view(),
                    page_bytes::<S>(),
                    count as nat,
                );
                &&& final(self).cursor_view() == o.0
                &&& final(self).limit_view() == o.1
                &&& final(self).index_view() == o.2
                &&& match o.3 {
                    Some((s, e)) => r.is_ok() && r.unwrap().start.start_value() == s
                        && r.unwrap().end.start_value() == e,
                    None => r.is_err(),
                }
            }),
        decreases old(self).ranges_view().len() - old(self).index_view(), 1nat,
    {
        proof {
            lemma_page_bytes::<S>();
            lemma_page_bytes::<Size4K>();
        }
        if let (Some(cursor), Some(limit)) = (self.cursor, self.limit) {
            proof {
                lemma_round_up(cursor.start_value() as nat, page_bytes::<S>());
            }
            // A request whose start or end would pass the largest address
            // cannot fit below the limit either.
            let size = page_size::<S>();
            let c = cursor.start().as_usize();
            let rem = c % size;
            proof {
                assert(rem <= c) by (nonlinear_arith)
                    requires
                        rem == c % size,
                        size > 0,
                ;
            }
            let start: usize = if rem == 0 {
                c
            } else {
                match (c - rem).checked_add(size) {
                    Some(v) => v,
                    None => return self.acquire_slow(count),
                }
            };
            let bytes = match count.checked_mul(size) {
                Some(n) => n,
                None => return self.acquire_slow(count),
            };
            if start.checked_add(bytes).is_none() {
                return self.acquire_slow(count);
            }
            proof {
                assert(start == round_up(c as nat, page_bytes::<S>()));
            }
            let aligned_start = Frame::<S>::new(Address::<Physical>::new(start));
            let end = Page::forward_checked(aligned_start, count).unwrap();
            if end.start().as_usize() <= limit.start().as_usize() {
                proof {
                    let l = S::spec_log_size();
                    S::lemma_log_size_range();
                    let st = aligned_start.start_value() as int;
                    crate::buddy::lemma_align_down(st, 12, l);
                    lemma_pow2_adds(12, (l - 12) as nat);
                    let q = count * pow2((l - 12) as nat);
                    assert(count * page_bytes::<S>() == q * pow2(12)) by (nonlinear_arith)
                        requires
                            page_bytes::<S>() == pow2(12) * pow2((l - 12) as nat),
                            q == count * pow2((l - 12) as nat),
                    ;
                    vstd::arithmetic::div_mod::lemma_mod_multiples_basic(q as int, pow2(12) as int);
                    vstd::arithmetic::div_mod::lemma_add_mod_noop(st, q * pow2(12), pow2(12) as int);
                    lemma2_to64();
                }
                self.cursor = Some(Frame::new(end.start()));
                return Ok(aligned_start..end);
            } else {
                self.acquire_slow(count)
            }
        } else {
            self.acquire_slow(count)
        }
    }

    /// Frames handed out are never taken back.
    pub fn release<S: PageSize>(&mut self, frames: Range<Frame<S>>) -> (r: Result<(), ()>)
        ensures
            r.is_ok(),
            *final(self) == *old(self),
    {
        Ok(())
    }
}

} // verus!
