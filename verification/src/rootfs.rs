//! The root file system: a table of entries held in memory, each a
//! directory, a file with its bytes, or a mount point.
use vstd::prelude::*;
use crate::vfs::{FileSystem, Node, NodeView, Stat, ROOT_FS, SLASH};

verus! {

/// What an entry of the root file system is.
pub enum EntryKind {
    Dir,
    File(Vec<u8>),
    Mount(usize),
}

/// An entry as the specifications see it.
pub enum KindView {
    Dir,
    File(Seq<u8>),
    Mount(usize),
}

impl View for EntryKind {
    type V = KindView;

    open spec fn view(&self) -> KindView {
        match self {
            EntryKind::Dir => KindView::Dir,
            EntryKind::File(d) => KindView::File(d@),
            EntryKind::Mount(k) => KindView::Mount(*k),
        }
    }
}

/// An entry: its full path (`/` then the names, the root directory being
/// `/`) and what it is.
pub struct RamEntry {
    pub path: Vec<u8>,
    pub kind: EntryKind,
}

/// The root file system.
pub struct RootFS {
    pub entries: Vec<RamEntry>,
}

/// The entries as the specifications see them.
pub open spec fn table(entries: Seq<RamEntry>) -> Seq<(Seq<u8>, KindView)> {
    entries.map_values(|e: RamEntry| (e.path@, e.kind@))
}

/// The first entry at `path`, from index `i` on.
pub open spec fn find_from(t: Seq<(Seq<u8>, KindView)>, path: Seq<u8>, i: int) -> Option<KindView>
    decreases t.len() - i,
{
    if i < 0 || i >= t.len() {
        None
    } else if t[i].0 == path {
        Some(t[i].1)
    } else {
        find_from(t, path, i + 1)
    }
}

/// The entry at `path`.
pub open spec fn find(t: Seq<(Seq<u8>, KindView)>, path: Seq<u8>) -> Option<KindView> {
    find_from(t, path, 0)
}

/// The path of `entry` in the directory whose path is `dir`.
pub open spec fn join(dir: Seq<u8>, entry: Seq<u8>) -> Seq<u8> {
    dir + seq![SLASH] + entry
}

/// The path under which a node's directory is listed: the root node's
/// empty path stands for `/`.
pub open spec fn dir_path(p: Seq<u8>) -> Seq<u8> {
    if p.len() == 0 {
        seq![SLASH]
    } else {
        p
    }
}

/// The name of the child of the directory `dir` at `path`, if it is one:
/// what follows `dir` and a slash, without a further slash.
pub open spec fn child_name(dir: Seq<u8>, path: Seq<u8>) -> Option<Seq<u8>> {
    let base = if dir == seq![SLASH] { Seq::<u8>::empty() } else { dir };
    if path.len() > base.len() + 1 && path.take(base.len() as int) == base && path[base.len() as int] == SLASH
        && forall|j: int| base.len() + 1 <= j < path.len() ==> path[j] != SLASH {
        Some(path.skip(base.len() as int + 1))
    } else {
        None
    }
}

/// The names of the children of `dir`, in table order.
pub open spec fn children(t: Seq<(Seq<u8>, KindView)>, dir: Seq<u8>, n: int) -> Seq<Seq<u8>>
    decreases n,
{
    if n <= 0 || n > t.len() {
        Seq::empty()
    } else {
        match child_name(dir, t[n - 1].0) {
            Some(name) => children(t, dir, n - 1).push(name),
            None => children(t, dir, n - 1),
        }
    }
}

/// The bytes read from `data` at `offset` into a buffer of `len` bytes.
pub open spec fn read_count(data: Seq<u8>, offset: int, len: int) -> int {
    if offset >= data.len() {
        0
    } else if data.len() - offset < len {
        data.len() - offset
    } else {
        len
    }
}

fn bytes_eq(a: &Vec<u8>, b: &Vec<u8>) -> (r: bool)
    ensures
        r == (a@ == b@),
{
    if a.len() != b.len() {
        return false;
    }
    let mut i: usize = 0;
    while i < a.len()
        invariant
            i <= a@.len(),
            a@.len() == b@.len(),
            forall|k: int| 0 <= k < i ==> a@[k] == b@[k],
        decreases a@.len() - i,
    {
        if a[i] != b[i] {
            return false;
        }
        i = i + 1;
    }
    proof {
        assert(a@ =~= b@);
    }
    true
}

fn join_exec(dir: &Vec<u8>, entry: &[u8]) -> (r: Vec<u8>)
    ensures
        r@ == join(dir@, entry@),
{
    let mut out = dir.clone();
    out.push(SLASH);
    let ghost base = out@;
    proof {
        assert(base =~= dir@ + seq![SLASH]);
    }
    let mut i: usize = 0;
    while i < entry.len()
        invariant
            i <= entry@.len(),
            out@ == base + entry@.take(i as int),
        decreases entry@.len() - i,
    {
        out.push(entry[i]);
        proof {
            assert(entry@.take(i + 1) =~= entry@.take(i as int).push(entry@[i as int]));
        }
        i = i + 1;
    }
    proof {
        assert(entry@.take(i as int) =~= entry@);
    }
    out
}

impl RootFS {
    /// The entries as the specifications see them.
    pub open spec fn spec_table(&self) -> Seq<(Seq<u8>, KindView)> {
        table(self.entries@)
    }

    /// A root file system with only its root directory.
    pub fn new() -> (r: Self)
        ensures
            r.spec_table() == seq![(seq![SLASH], KindView::Dir)],
    {
        let mut root: Vec<u8> = Vec::new();
        root.push(SLASH);
        let mut entries: Vec<RamEntry> = Vec::new();
        entries.push(RamEntry { path: root, kind: EntryKind::Dir });
        let r = RootFS { entries };
        proof {
            assert(r.spec_table() =~= seq![(seq![SLASH], KindView::Dir)]);
        }
        r
    }

    /// Adds an entry at `path`.
    pub fn add(&mut self, path: Vec<u8>, kind: EntryKind)
        ensures
            final(self).spec_table() == old(self).spec_table().push((path@, kind@)),
    {
        let ghost p = path@;
        let ghost k = kind@;
        self.entries.push(RamEntry { path, kind });
        proof {
            assert(self.spec_table() =~= old(self).spec_table().push((p, k)));
        }
    }

    /// The index of the first entry at `path`.
    fn find_index(&self, path: &Vec<u8>) -> (r: Option<usize>)
        ensures
            match r {
                Some(i) => i < self.entries@.len() && find(self.spec_table(), path@) == Some(
                    self.spec_table()[i as int].1,
                ) && self.spec_table()[i as int].0 == path@ && forall|j: int|
                    0 <= j < i ==> self.spec_table()[j].0 != path@,
                None => find(self.spec_table(), path@) is None,
            },
    {
        let mut i: usize = 0;
        while i < self.entries.len()
            invariant
                i <= self.entries@.len(),
                find(self.spec_table(), path@) == find_from(self.spec_table(), path@, i as int),
                forall|j: int| 0 <= j < i ==> self.spec_table()[j].0 != path@,
            decreases self.entries@.len() - i,
        {
            if bytes_eq(&self.entries[i].path, path) {
                return Some(i);
            }
            i = i + 1;
        }
        None
    }

    /// What `stat` says of a kind of entry.
    pub open spec fn stat_of_kind(k: KindView) -> Stat {
        Stat {
            fs: ROOT_FS,
            mount: match k {
                KindView::Mount(key) => Some(key),
                _ => None,
            },
            is_dir: k is Dir,
        }
    }
}

impl RootFS {
    /// What reading `node` at `offset` into a buffer holding `buf` gives:
    /// for a file, the bytes from `offset`, as many as fit in the buffer and
    /// the file holds; for anything else, nothing.
    pub open spec fn read_result(&self, node: NodeView, offset: usize, buf: Seq<u8>) -> (Option<usize>, Seq<u8>) {
        match find(self.spec_table(), node.path) {
            Some(KindView::File(d)) => {
                let n = read_count(d, offset as int, buf.len() as int);
                if offset >= d.len() {
                    (Some(n as usize), buf)
                } else {
                    (Some(n as usize), d.subrange(offset as int, offset + n) + buf.skip(n))
                }
            },
            _ => (None, buf),
        }
    }
}

impl FileSystem for RootFS {
    open spec fn stat_of(&self, parent: NodeView, entry: Seq<u8>) -> Option<Stat> {
        match find(self.spec_table(), join(parent.path, entry)) {
            Some(k) => Some(Self::stat_of_kind(k)),
            None => None,
        }
    }

    open spec fn open_of(&self, parent: NodeView, entry: Seq<u8>) -> Option<NodeView> {
        match find(self.spec_table(), join(parent.path, entry)) {
            Some(k) => Some(
                NodeView {
                    name: entry,
                    path: join(parent.path, entry),
                    fs: ROOT_FS,
                    mount: Self::stat_of_kind(k).mount,
                    block: 0,
                    offset: 0,
                },
            ),
            None => None,
        }
    }

    open spec fn entries_of(&self, node: NodeView) -> Option<Seq<Seq<u8>>> {
        match find(self.spec_table(), dir_path(node.path)) {
            Some(KindView::Dir) => Some(
                children(self.spec_table(), dir_path(node.path), self.spec_table().len() as int),
            ),
            _ => None,
        }
    }

    open spec fn mount_of(&self, parent: NodeView, entry: Seq<u8>, key: usize) -> Option<NodeView> {
        Some(
            NodeView {
                name: entry,
                path: join(parent.path, entry),
                fs: ROOT_FS,
                mount: Some(key),
                block: 0,
                offset: 0,
            },
        )
    }

    fn stat(&self, parent: &Node, entry: &[u8]) -> (r: Option<Stat>) {
        let path = join_exec(&parent.path, entry);
        match self.find_index(&path) {
            Some(i) => {
                let (mount, is_dir) = match &self.entries[i].kind {
                    EntryKind::Dir => (None, true),
                    EntryKind::File(_) => (None, false),
                    EntryKind::Mount(k) => (Some(*k), false),
                };
                Some(Stat { fs: ROOT_FS, mount, is_dir })
            },
            None => None,
        }
    }

    fn open(&self, parent: &Node, entry: &[u8]) -> (r: Option<Node>) {
        let path = join_exec(&parent.path, entry);
        match self.find_index(&path) {
            Some(i) => {
                let mount = match &self.entries[i].kind {
                    EntryKind::Mount(k) => Some(*k),
                    _ => None,
                };
                let name = crate::vfs::copy_range(entry, 0, entry.len());
                proof {
                    assert(name@ =~= entry@);
                }
                Some(Node { name, path, fs: ROOT_FS, mount, block: 0, offset: 0 })
            },
            None => None,
        }
    }

    /// Closing a file changes nothing here.
    open spec fn close_of(&self, node: NodeView) -> Self {
        *self
    }

    fn close(&mut self, node: &Node) {
    }

    /// A file gives the bytes from `offset`, as many as fit in the buffer
    /// and the file holds; anything else gives nothing.
    open spec fn read_gives(&self, node: NodeView, offset: usize, buf: Seq<u8>, r: Option<usize>, after: Seq<u8>) -> bool {
        (r, after) == self.read_result(node, offset, buf)
    }

    /// The root file system is read-only.
    open spec fn write_gives(&self, node: NodeView, offset: usize, buf: Seq<u8>, r: Option<usize>) -> bool {
        r is None
    }

    fn read(&self, node: &Node, offset: usize, buf: &mut [u8]) -> (r: Option<usize>)
    {
        let i = match self.find_index(&node.path) {
            Some(i) => i,
            None => return None,
        };
        match &self.entries[i].kind {
            EntryKind::File(data) => {
                proof {
                    assert(self.spec_table()[i as int].1 == KindView::File(data@));
                }
                if offset >= data.len() {
                    return Some(0);
                }
                let avail = data.len() - offset;
                let n = if avail < buf.len() {
                    avail
                } else {
                    buf.len()
                };
                let mut k: usize = 0;
                while k < n
                    invariant
                        k <= n,
                        n <= buf@.len(),
                        buf@.len() == old(buf)@.len(),
                        offset + n <= data@.len(),
                        data@.len() <= usize::MAX,
                        buf@ == data@.subrange(offset as int, offset + k) + old(buf)@.skip(k as int),
                    decreases n - k,
                {
                    buf[k] = data[offset + k];
                    proof {
                        assert(buf@ =~= data@.subrange(offset as int, offset + k + 1) + old(buf)@.skip(k + 1));
                    }
                    k = k + 1;
                }
                Some(n)
            },
            _ => None,
        }
    }

    /// The root file system cannot be written.
    fn write(&self, node: &Node, offset: usize, buf: &[u8]) -> (r: Option<usize>) {
        None
    }

    fn read_dir(&self, node: &Node) -> (r: Option<Vec<Vec<u8>>>) {
        let mut dir = node.path.clone();
        if dir.len() == 0 {
            dir.push(SLASH);
        }
        proof {
            assert(dir@ =~= dir_path(node@.path));
        }
        match self.find_index(&dir) {
            Some(i) => {
                match &self.entries[i].kind {
                    EntryKind::Dir => {},
                    _ => return None,
                }
            },
            None => return None,
        }
        let mut names: Vec<Vec<u8>> = Vec::new();
        let mut k: usize = 0;
        while k < self.entries.len()
            invariant
                k <= self.entries@.len(),
                names@.map_values(|e: Vec<u8>| e@) == children(self.spec_table(), dir@, k as int),
            decreases self.entries@.len() - k,
        {
            let ghost before = names@.map_values(|e: Vec<u8>| e@);
            match child_of(&dir, &self.entries[k].path) {
                Some(name) => {
                    names.push(name);
                    proof {
                        assert(names@.map_values(|e: Vec<u8>| e@) =~= before.push(
                            child_name(dir@, self.spec_table()[k as int].0)->0,
                        ));
                    }
                },
                None => {},
            }
            k = k + 1;
        }
        Some(names)
    }

    fn mount(&mut self, parent: &Node, entry: &[u8], key: usize) -> (r: Option<Node>)
        ensures
            find(final(self).spec_table(), join(parent@.path, entry@)) == Some(KindView::Mount(key)),
    {
        let path = join_exec(&parent.path, entry);
        let name = crate::vfs::copy_range(entry, 0, entry.len());
        proof {
            assert(name@ =~= entry@);
        }
        let p2 = path.clone();
        proof {
            assert(p2@ =~= path@);
        }
        match self.find_index(&path) {
            Some(i) => {
                let ghost t0 = self.spec_table();
                self.entries.set(i, RamEntry { path: p2, kind: EntryKind::Mount(key) });
                proof {
                    lemma_find_update(t0, path@, i as int, (path@, KindView::Mount(key)));
                    assert(self.spec_table() =~= t0.update(i as int, (path@, KindView::Mount(key))));
                }
            },
            None => {
                let ghost t0 = self.spec_table();
                self.add(p2, EntryKind::Mount(key));
                proof {
                    lemma_find_push(t0, path@, (path@, KindView::Mount(key)));
                }
            },
        }
        Some(Node { name, path, fs: ROOT_FS, mount: Some(key), block: 0, offset: 0 })
    }
}

/// Replacing the first entry at `path` changes what is found there.
proof fn lemma_find_update(t: Seq<(Seq<u8>, KindView)>, path: Seq<u8>, i: int, e: (Seq<u8>, KindView))
    requires
        0 <= i < t.len(),
        e.0 == path,
        t[i].0 == path,
        forall|j: int| 0 <= j < i ==> t[j].0 != path,
    ensures
        find(t.update(i, e), path) == Some(e.1),
{
    lemma_find_from_prefix(t.update(i, e), path, 0, i);
}

/// Searching from `k` finds nothing before `i` when no entry there matches.
proof fn lemma_find_from_prefix(t: Seq<(Seq<u8>, KindView)>, path: Seq<u8>, k: int, i: int)
    requires
        0 <= k <= i < t.len(),
        t[i].0 == path,
        forall|j: int| k <= j < i ==> t[j].0 != path,
    ensures
        find_from(t, path, k) == Some(t[i].1),
    decreases i - k,
{
    if k < i {
        lemma_find_from_prefix(t, path, k + 1, i);
    }
}

/// Adding an entry at a path not yet in the table makes it found there.
proof fn lemma_find_push(t: Seq<(Seq<u8>, KindView)>, path: Seq<u8>, e: (Seq<u8>, KindView))
    requires
        e.0 == path,
        find(t, path) is None,
    ensures
        find(t.push(e), path) == Some(e.1),
{
    lemma_find_none(t, path, 0);
    lemma_find_from_prefix(t.push(e), path, 0, t.len() as int);
}

/// A path that is not found matches no entry.
proof fn lemma_find_none(t: Seq<(Seq<u8>, KindView)>, path: Seq<u8>, k: int)
    requires
        0 <= k,
        find_from(t, path, k) is None,
    ensures
        forall|j: int| k <= j < t.len() ==> t[j].0 != path,
    decreases t.len() - k,
{
    if k < t.len() {
        lemma_find_none(t, path, k + 1);
    }
}

/// The name of the child of `dir` at `path`, if it is one.
fn child_of(dir: &Vec<u8>, path: &Vec<u8>) -> (r: Option<Vec<u8>>)
    ensures
        match child_name(dir@, path@) {
            Some(n) => r is Some && r->0@ == n,
            None => r is None,
        },
{
    let is_root = dir.len() == 1 && dir[0] == SLASH;
    let blen: usize = if is_root {
        0
    } else {
        dir.len()
    };
    proof {
        if is_root {
            assert(dir@ =~= seq![SLASH]);
        } else {
            assert(dir@ != seq![SLASH]);
        }
    }
    if path.len() <= blen || path.len() - blen <= 1 {
        return None;
    }
    let mut i: usize = 0;
    while i < blen
        invariant
            i <= blen,
            blen < path@.len(),
            (if dir@ == seq![SLASH] { 0 } else { dir@.len() }) == blen,
            forall|k: int| 0 <= k < i ==> path@[k] == dir@[k],
        decreases blen - i,
    {
        if path[i] != dir[i] {
            proof {
                let base = if dir@ == seq![SLASH] { Seq::<u8>::empty() } else { dir@ };
                assert(path@.take(base.len() as int)[i as int] != base[i as int]);
            }
            return None;
        }
        i = i + 1;
    }
    if path[blen] != SLASH {
        return None;
    }
    let mut j: usize = blen + 1;
    while j < path.len()
        invariant
            blen + 1 <= j <= path@.len(),
            forall|k: int| blen + 1 <= k < j ==> path@[k] != SLASH,
            (if dir@ == seq![SLASH] { 0 } else { dir@.len() }) == blen,
        decreases path@.len() - j,
    {
        if path[j] == SLASH {
            proof {
                let base = if dir@ == seq![SLASH] { Seq::<u8>::empty() } else { dir@ };
                assert(base.len() == blen);
                assert(base.len() + 1 <= j < path@.len() && path@[j as int] == SLASH);
            }
            return None;
        }
        j = j + 1;
    }
    let name = crate::vfs::copy_range(path.as_slice(), blen + 1, path.len());
    proof {
        let base = if dir@ == seq![SLASH] { Seq::<u8>::empty() } else { dir@ };
        assert(base.len() == blen);
        assert(path@.take(blen as int) =~= base);
        assert(name@ =~= path@.skip(blen + 1));
    }
    Some(name)
}

} // verus!
