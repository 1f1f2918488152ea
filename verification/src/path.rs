//! Canonical absolute paths, resolved against a working directory.
use vstd::prelude::*;

verus! {

/// The path separator.
pub const SLASH: u8 = 0x2f;

/// The byte `.`.
pub const DOT: u8 = 0x2e;

/// The segments of a path read so far, and the segment being read.
pub open spec fn scan_step(st: (Seq<Seq<u8>>, Seq<u8>), c: u8) -> (Seq<Seq<u8>>, Seq<u8>) {
    if c == SLASH {
        if st.1.len() > 0 {
            (st.0.push(st.1), Seq::empty())
        } else {
            (st.0, Seq::empty())
        }
    } else {
        (st.0, st.1.push(c))
    }
}

/// Scanning the first `n` bytes of `x`.
pub open spec fn scan(x: Seq<u8>, n: nat) -> (Seq<Seq<u8>>, Seq<u8>)
    decreases n,
{
    if n == 0 || n > x.len() {
        (Seq::empty(), Seq::empty())
    } else {
        scan_step(scan(x, (n - 1) as nat), x[n - 1])
    }
}

/// The non-empty pieces of `x` between slashes, in order.
pub open spec fn segments(x: Seq<u8>) -> Seq<Seq<u8>> {
    let st = scan(x, x.len());
    if st.1.len() > 0 {
        st.0.push(st.1)
    } else {
        st.0
    }
}

/// The segment `.`.
pub open spec fn is_dot(s: Seq<u8>) -> bool {
    s == seq![DOT]
}

/// The segment `..`.
pub open spec fn is_dot_dot(s: Seq<u8>) -> bool {
    s == seq![DOT, DOT]
}

/// The directory stack after walking the first `n` segments of `segs` from
/// `start`: `.` stays, `..` goes up (an error above the root), any other
/// segment goes down.
pub open spec fn resolve(start: Seq<Seq<u8>>, segs: Seq<Seq<u8>>, n: nat) -> Option<Seq<Seq<u8>>>
    decreases n,
{
    if n == 0 || n > segs.len() {
        Some(start)
    } else {
        match resolve(start, segs, (n - 1) as nat) {
            None => None,
            Some(buf) => {
                let seg = segs[n - 1];
                if is_dot(seg) {
                    Some(buf)
                } else if is_dot_dot(seg) {
                    if buf.len() > 0 {
                        Some(buf.drop_last())
                    } else {
                        None
                    }
                } else {
                    Some(buf.push(seg))
                }
            },
        }
    }
}

/// `/` followed by the segments joined with `/`; `/` alone for none.
pub open spec fn join_path(buf: Seq<Seq<u8>>) -> Seq<u8>
    decreases buf.len(),
{
    if buf.len() == 0 {
        seq![SLASH]
    } else if buf.len() == 1 {
        seq![SLASH] + buf[0]
    } else {
        join_path(buf.drop_last()) + seq![SLASH] + buf.last()
    }
}

/// What `canonicalize` gives for `s` in working directory `cwd`.
pub open spec fn canonical(cwd: Seq<u8>, s: Seq<u8>) -> Option<Seq<u8>> {
    if s.len() > 0 && s[0] == SLASH {
        Some(s)
    } else {
        match resolve(segments(cwd), segments(s), segments(s).len()) {
            Some(buf) => Some(join_path(buf)),
            None => None,
        }
    }
}

/// Splits a path into its non-empty segments.
pub fn split_segments(x: &[u8]) -> (r: Vec<Vec<u8>>)
    ensures
        r@.map_values(|v: Vec<u8>| v@) == segments(x@),
{
    let mut acc: Vec<Vec<u8>> = Vec::new();
    let mut cur: Vec<u8> = Vec::new();
    let mut i: usize = 0;
    while i < x.len()
        invariant
            i <= x@.len(),
            (acc@.map_values(|v: Vec<u8>| v@), cur@) == scan(x@, i as nat),
        decreases x@.len() - i,
    {
        let c = x[i];
        let ghost before = (acc@.map_values(|v: Vec<u8>| v@), cur@);
        if c == SLASH {
            if cur.len() > 0 {
                let seg = cur;
                acc.push(seg);
                cur = Vec::new();
                proof {
                    assert(acc@.map_values(|v: Vec<u8>| v@) =~= before.0.push(before.1));
                }
            } else {
                cur = Vec::new();
            }
        } else {
            cur.push(c);
        }
        proof {
            assert(cur@ =~= scan_step(before, c).1);
        }
        i = i + 1;
    }
    if cur.len() > 0 {
        let ghost before = acc@.map_values(|v: Vec<u8>| v@);
        acc.push(cur);
        proof {
            assert(acc@.map_values(|v: Vec<u8>| v@) =~= before.push(scan(x@, x@.len()).1));
        }
    }
    proof {
        assert(x@.len() == i);
    }
    acc
}

fn is_dot_exec(s: &Vec<u8>) -> (r: bool)
    ensures
        r == is_dot(s@),
{
    let r = s.len() == 1 && s[0] == DOT;
    proof {
        if r {
            assert(s@ =~= seq![DOT]);
        }
    }
    r
}

fn is_dot_dot_exec(s: &Vec<u8>) -> (r: bool)
    ensures
        r == is_dot_dot(s@),
{
    let r = s.len() == 2 && s[0] == DOT && s[1] == DOT;
    proof {
        if r {
            assert(s@ =~= seq![DOT, DOT]);
        }
    }
    r
}

/// Joins segments into an absolute path.
pub fn join_segments(buf: &Vec<Vec<u8>>) -> (r: Vec<u8>)
    ensures
        r@ == join_path(buf@.map_values(|v: Vec<u8>| v@)),
{
    let ghost bv = buf@.map_values(|v: Vec<u8>| v@);
    let mut out: Vec<u8> = Vec::new();
    if buf.len() == 0 {
        out.push(SLASH);
        proof {
            assert(out@ =~= seq![SLASH]);
        }
        return out;
    }
    let mut i: usize = 0;
    while i < buf.len()
        invariant
            bv == buf@.map_values(|v: Vec<u8>| v@),
            i <= buf@.len(),
            i == 0 ==> out@ == Seq::<u8>::empty(),
            i > 0 ==> out@ == join_path(bv.take(i as int)),
        decreases buf@.len() - i,
    {
        let seg = &buf[i];
        out.push(SLASH);
        let mut j: usize = 0;
        let ghost start = out@;
        while j < seg.len()
            invariant
                j <= seg@.len(),
                out@ == start + seg@.take(j as int),
            decreases seg@.len() - j,
        {
            out.push(seg[j]);
            proof {
                assert(seg@.take(j + 1) =~= seg@.take(j as int).push(seg@[j as int]));
            }
            j = j + 1;
        }
        proof {
            assert(seg@.take(j as int) =~= seg@);
            let t = bv.take(i + 1);
            assert(t.drop_last() =~= bv.take(i as int));
            assert(t.last() == seg@);
            if i == 0 {
                assert(t.len() == 1);
                assert(out@ =~= seq![SLASH] + t[0]);
            } else {
                assert(out@ =~= join_path(t.drop_last()) + seq![SLASH] + t.last());
            }
        }
        i = i + 1;
    }
    proof {
        assert(bv.take(i as int) =~= bv);
    }
    out
}

/// Once walking the segments has failed, walking further fails too.
proof fn lemma_resolve_stays_none(start: Seq<Seq<u8>>, segs: Seq<Seq<u8>>, i: nat, n: nat)
    requires
        0 < i <= n <= segs.len(),
        resolve(start, segs, i) is None,
    ensures
        resolve(start, segs, n) is None,
    decreases n - i,
{
    if i < n {
        lemma_resolve_stays_none(start, segs, i, (n - 1) as nat);
    }
}

/// Resolves `s` against the working directory `cwd`, which starts with a
/// slash. Absolute paths are returned as they are; relative ones are
/// walked from `cwd`, and going above the root is an error.
pub fn canonicalize(cwd: &[u8], s: &[u8]) -> (r: Result<Vec<u8>, ()>)
    requires
        cwd@.len() > 0 && cwd@[0] == SLASH,
    ensures
        match canonical(cwd@, s@) {
            Some(p) => r.is_ok() && r.unwrap()@ == p,
            None => r.is_err(),
        },
{
    if s.len() > 0 && s[0] == SLASH {
        let mut out: Vec<u8> = Vec::new();
        let mut i: usize = 0;
        while i < s.len()
            invariant
                i <= s@.len(),
                out@ == s@.take(i as int),
            decreases s@.len() - i,
        {
            out.push(s[i]);
            proof {
                assert(s@.take(i + 1) =~= s@.take(i as int).push(s@[i as int]));
            }
            i = i + 1;
        }
        proof {
            assert(s@.take(i as int) =~= s@);
        }
        return Ok(out);
    }
    let mut buf = split_segments(cwd);
    let segs = split_segments(s);
    let ghost start = buf@.map_values(|v: Vec<u8>| v@);
    let ghost sv = segs@.map_values(|v: Vec<u8>| v@);
    let mut i: usize = 0;
    while i < segs.len()
        invariant
            i <= segs@.len(),
            sv == segs@.map_values(|v: Vec<u8>| v@),
            start == segments(cwd@),
            sv == segments(s@),
            !(s@.len() > 0 && s@[0] == SLASH),
            resolve(start, sv, i as nat) == Some(buf@.map_values(|v: Vec<u8>| v@)),
        decreases segs@.len() - i,
    {
        let seg = &segs[i];
        let ghost before = buf@.map_values(|v: Vec<u8>| v@);
        if is_dot_exec(seg) {
        } else if is_dot_dot_exec(seg) {
            if buf.len() > 0 {
                buf.pop();
                proof {
                    assert(buf@.map_values(|v: Vec<u8>| v@) =~= before.drop_last());
                }
            } else {
                proof {
                    assert(sv[i as int] == seg@);
                    assert(resolve(start, sv, (i + 1) as nat) is None);
                    lemma_resolve_stays_none(start, sv, (i + 1) as nat, sv.len());
                }
                return Err(());
            }
        } else {
            buf.push(seg.clone());
            proof {
                assert(buf@.map_values(|v: Vec<u8>| v@) =~= before.push(sv[i as int]));
            }
        }
        i = i + 1;
    }
    Ok(join_segments(&buf))
}

/// Law: a canonical relative path is made of plain segments: none is
/// empty, `.` or `..`.
pub proof fn lemma_resolved_segments_plain(start: Seq<Seq<u8>>, segs: Seq<Seq<u8>>, n: nat)
    requires
        forall|k: int| 0 <= k < start.len() ==> #[trigger] start[k].len() > 0 && !is_dot(start[k]) && !is_dot_dot(start[k]),
        forall|k: int| 0 <= k < segs.len() ==> #[trigger] segs[k].len() > 0,
    ensures
        resolve(start, segs, n) matches Some(buf) ==> forall|k: int|
            0 <= k < buf.len() ==> #[trigger] buf[k].len() > 0 && !is_dot(buf[k]) && !is_dot_dot(buf[k]),
    decreases n,
{
    if n > 0 && n <= segs.len() {
        lemma_resolved_segments_plain(start, segs, (n - 1) as nat);
        if let Some(prev) = resolve(start, segs, (n - 1) as nat) {
            let seg = segs[n - 1];
            if !is_dot(seg) && !is_dot_dot(seg) {
                let buf = prev.push(seg);
                assert forall|k: int| 0 <= k < buf.len() implies #[trigger] buf[k].len() > 0
                    && !is_dot(buf[k]) && !is_dot_dot(buf[k]) by {
                    if k < prev.len() {
                        assert(buf[k] == prev[k]);
                    }
                }
            } else if is_dot_dot(seg) && prev.len() > 0 {
                let buf = prev.drop_last();
                assert forall|k: int| 0 <= k < buf.len() implies #[trigger] buf[k].len() > 0
                    && !is_dot(buf[k]) && !is_dot_dot(buf[k]) by {
                    assert(buf[k] == prev[k]);
                }
            }
        }
    }
}


/// A segment as canonical paths hold them: not empty, and without a slash.
pub open spec fn plain(seg: Seq<u8>) -> bool {
    seg.len() > 0 && forall|j: int| 0 <= j < seg.len() ==> #[trigger] seg[j] != SLASH
}

/// Every segment is plain.
pub open spec fn all_plain(buf: Seq<Seq<u8>>) -> bool {
    forall|k: int| 0 <= k < buf.len() ==> #[trigger] plain(buf[k])
}

/// Two slashes side by side at `i`.
pub open spec fn double_slash_at(s: Seq<u8>, i: int) -> bool {
    s[i] == SLASH && s[i + 1] == SLASH
}

/// No two slashes of `s` are side by side.
pub open spec fn no_double_slash(s: Seq<u8>) -> bool {
    forall|i: int| 0 <= i < s.len() - 1 ==> !#[trigger] double_slash_at(s, i)
}

proof fn lemma_scan_plain(x: Seq<u8>, n: nat)
    ensures
        all_plain(scan(x, n).0),
        forall|j: int| 0 <= j < scan(x, n).1.len() ==> #[trigger] scan(x, n).1[j] != SLASH,
    decreases n,
{
    if n > 0 && n <= x.len() {
        lemma_scan_plain(x, (n - 1) as nat);
        let st = scan(x, (n - 1) as nat);
        let c = x[n - 1];
        if c == SLASH {
            if st.1.len() > 0 {
                let b = st.0.push(st.1);
                assert forall|k: int| 0 <= k < b.len() implies #[trigger] plain(b[k]) by {
                    if k < st.0.len() {
                        assert(b[k] == st.0[k]);
                    }
                }
            }
        } else {
            let cur = st.1.push(c);
            assert forall|j: int| 0 <= j < cur.len() implies #[trigger] cur[j] != SLASH by {
                if j < st.1.len() {
                    assert(cur[j] == st.1[j]);
                }
            }
        }
    }
}

/// The segments of a path are plain.
pub proof fn lemma_segments_plain(x: Seq<u8>)
    ensures
        all_plain(segments(x)),
{
    lemma_scan_plain(x, x.len());
    let st = scan(x, x.len());
    if st.1.len() > 0 {
        let b = st.0.push(st.1);
        assert forall|k: int| 0 <= k < b.len() implies #[trigger] plain(b[k]) by {
            if k < st.0.len() {
                assert(b[k] == st.0[k]);
            }
        }
    }
}

/// Walking plain segments from plain segments gives plain segments.
pub proof fn lemma_resolve_plain(start: Seq<Seq<u8>>, segs: Seq<Seq<u8>>, n: nat)
    requires
        all_plain(start),
        all_plain(segs),
    ensures
        resolve(start, segs, n) matches Some(buf) ==> all_plain(buf),
    decreases n,
{
    if n > 0 && n <= segs.len() {
        lemma_resolve_plain(start, segs, (n - 1) as nat);
        if let Some(prev) = resolve(start, segs, (n - 1) as nat) {
            let seg = segs[n - 1];
            if !is_dot(seg) && !is_dot_dot(seg) {
                let buf = prev.push(seg);
                assert forall|k: int| 0 <= k < buf.len() implies #[trigger] plain(buf[k]) by {
                    if k < prev.len() {
                        assert(buf[k] == prev[k]);
                    }
                }
            } else if is_dot_dot(seg) && prev.len() > 0 {
                let buf = prev.drop_last();
                assert forall|k: int| 0 <= k < buf.len() implies #[trigger] plain(buf[k]) by {
                    assert(buf[k] == prev[k]);
                }
            }
        }
    }
}

/// Joining plain segments gives a path that starts with a slash, has no
/// two slashes side by side, and ends with a slash only when it is `/`.
pub proof fn lemma_join_shape(buf: Seq<Seq<u8>>)
    requires
        all_plain(buf),
    ensures
        join_path(buf).len() > 0,
        join_path(buf)[0] == SLASH,
        no_double_slash(join_path(buf)),
        buf.len() > 0 ==> join_path(buf).last() != SLASH,
    decreases buf.len(),
{
    let j = join_path(buf);
    if buf.len() == 0 {
    } else if buf.len() == 1 {
        assert(plain(buf[0]));
        assert forall|i: int| 0 <= i < j.len() - 1 implies !#[trigger] double_slash_at(j, i) by {
            assert(j[i + 1] == buf[0][i]);
        }
        assert(j.last() == buf[0].last());
    } else {
        let d = buf.drop_last();
        assert forall|k: int| 0 <= k < d.len() implies #[trigger] plain(d[k]) by {
            assert(d[k] == buf[k]);
        }
        lemma_join_shape(d);
        let jd = join_path(d);
        let last = buf.last();
        assert(plain(buf[buf.len() - 1]));
        assert(j == jd + seq![SLASH] + last);
        assert forall|i: int| 0 <= i < j.len() - 1 implies !#[trigger] double_slash_at(j, i) by {
            if i < jd.len() - 1 {
                assert(j[i] == jd[i]);
                assert(j[i + 1] == jd[i + 1]);
                assert(!double_slash_at(jd, i));
            } else if i == jd.len() - 1 {
                assert(j[i] == jd.last());
            } else {
                assert(j[i + 1] == last[i + 1 - jd.len() - 1]);
            }
        }
        assert(j.last() == last.last());
    }
}

/// Law: resolving a relative path against a working directory gives a
/// path that starts with a slash and has no two slashes side by side, so
/// it can be walked.
pub proof fn lemma_canonical_shape(cwd: Seq<u8>, s: Seq<u8>)
    requires
        !(s.len() > 0 && s[0] == SLASH),
        canonical(cwd, s) is Some,
    ensures
        canonical(cwd, s)->0.len() > 0,
        canonical(cwd, s)->0[0] == SLASH,
        no_double_slash(canonical(cwd, s)->0),
{
    lemma_segments_plain(cwd);
    lemma_segments_plain(s);
    lemma_resolve_plain(segments(cwd), segments(s), segments(s).len());
    let buf = resolve(segments(cwd), segments(s), segments(s).len())->0;
    lemma_join_shape(buf);
}


/// Law: resolving is idempotent: a resolved path resolves to itself, from
/// any working directory.
pub proof fn lemma_canonical_idempotent(cwd: Seq<u8>, other: Seq<u8>, s: Seq<u8>)
    requires
        canonical(cwd, s) is Some,
    ensures
        canonical(other, canonical(cwd, s)->0) == canonical(cwd, s),
{
    if !(s.len() > 0 && s[0] == SLASH) {
        lemma_canonical_shape(cwd, s);
    }
}

/// Scanning a piece without slashes collects it as the segment being read.
proof fn lemma_scan_no_slash(x: Seq<u8>, n: nat)
    requires
        n <= x.len(),
        forall|i: int| 0 <= i < x.len() ==> x[i] != SLASH,
    ensures
        scan(x, n) == (Seq::<Seq<u8>>::empty(), x.take(n as int)),
    decreases n,
{
    if n > 0 {
        lemma_scan_no_slash(x, (n - 1) as nat);
        assert(x.take(n as int) =~= x.take(n - 1).push(x[n - 1]));
    } else {
        assert(x.take(0) =~= Seq::<u8>::empty());
    }
}

/// Law: a segment other than `.` and `..`, one that starts with a dot
/// included, goes one directory down: resolving it in `cwd` gives the
/// directories of `cwd` followed by the segment.
pub proof fn lemma_plain_segment_goes_down(cwd: Seq<u8>, seg: Seq<u8>)
    requires
        seg.len() > 0,
        forall|i: int| 0 <= i < seg.len() ==> seg[i] != SLASH,
        !(seg.len() == 1 && seg[0] == 0x2e),
        !(seg.len() == 2 && seg[0] == 0x2e && seg[1] == 0x2e),
    ensures
        canonical(cwd, seg) == Some(join_path(segments(cwd).push(seg))),
        segments(cwd).len() > 0 ==> canonical(cwd, seg) == Some(
            join_path(segments(cwd)) + seq![SLASH] + seg,
        ),
        segments(cwd).len() == 0 ==> canonical(cwd, seg) == Some(seq![SLASH] + seg),
{
    lemma_scan_no_slash(seg, seg.len());
    assert(seg.take(seg.len() as int) =~= seg);
    assert(segments(seg) =~= seq![seg]);
    if seg == seq![DOT] {
        assert(seg[0] == DOT);
    }
    if seg == seq![DOT, DOT] {
        assert(seg[0] == DOT && seg[1] == DOT);
    }
    let start = segments(cwd);
    assert(resolve(start, seq![seg], 0) == Some(start));
    assert(resolve(start, seq![seg], 1) == Some(start.push(seg)));
    let b = start.push(seg);
    assert(b.drop_last() =~= start);
    if start.len() == 0 {
        assert(b =~= seq![seg]);
    }
}

/// Law: `.` stays in `cwd`, `..` goes up one directory (and is an error
/// at the root), and an absolute path is its own resolution.
pub proof fn lemma_dots_and_absolute(cwd: Seq<u8>, s: Seq<u8>)
    ensures
        canonical(cwd, seq![0x2eu8]) == Some(join_path(segments(cwd))),
        segments(cwd).len() > 0 ==> canonical(cwd, seq![0x2eu8, 0x2eu8]) == Some(
            join_path(segments(cwd).drop_last()),
        ),
        segments(cwd).len() == 0 ==> canonical(cwd, seq![0x2eu8, 0x2eu8]) is None,
        s.len() > 0 && s[0] == 0x2f ==> canonical(cwd, s) == Some(s),
{
    let d = seq![0x2eu8];
    let dd = seq![0x2eu8, 0x2eu8];
    lemma_scan_no_slash(d, 1);
    lemma_scan_no_slash(dd, 2);
    assert(d.take(1) =~= d);
    assert(dd.take(2) =~= dd);
    assert(segments(d) =~= seq![d]);
    assert(segments(dd) =~= seq![dd]);
    let start = segments(cwd);
    assert(resolve(start, seq![d], 0) == Some(start));
    assert(resolve(start, seq![dd], 0) == Some(start));
}

} // verus!
