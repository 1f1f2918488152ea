//! The virtual file system: walking absolute paths through directories and
//! mount points, opening files, and mounting file systems.
//!
//! Paths are UTF-8 byte strings. The file systems themselves are reached
//! through the [`FileSystem`] trait; a node names the file system it
//! belongs to by number.
use vstd::prelude::*;
use crate::path::{double_slash_at, no_double_slash};

verus! {

/// The byte `/`.
pub const SLASH: u8 = 0x2f;

/// The number of the root file system.
pub const ROOT_FS: usize = 0;

/// The number of mount points.
pub const MOUNT_POINTS: usize = 32;

/// A node as the specifications see it.
pub struct NodeView {
    pub name: Seq<u8>,
    pub path: Seq<u8>,
    pub fs: usize,
    pub mount: Option<usize>,
    pub block: usize,
    pub offset: usize,
}

/// A file, directory or mount point of some file system: its name, its
/// path below the file system's root, the file system, and the mount
/// point it leads to, if any.
pub struct Node {
    pub name: Vec<u8>,
    pub path: Vec<u8>,
    pub fs: usize,
    pub mount: Option<usize>,
    pub block: usize,
    pub offset: usize,
}

impl View for Node {
    type V = NodeView;

    open spec fn view(&self) -> NodeView {
        NodeView {
            name: self.name@,
            path: self.path@,
            fs: self.fs,
            mount: self.mount,
            block: self.block,
            offset: self.offset,
        }
    }
}

impl Node {
    /// A node with the same contents.
    pub fn duplicate(&self) -> (r: Node)
        ensures
            r@ == self@,
    {
        let name = self.name.clone();
        let path = self.path.clone();
        proof {
            assert(name@ =~= self.name@);
            assert(path@ =~= self.path@);
        }
        Node { name, path, fs: self.fs, mount: self.mount, block: self.block, offset: self.offset }
    }
}

/// What a file system says of an entry: whether it is a directory, and the
/// mount point it is, if it is one.
#[derive(Clone, Copy, PartialEq, Eq, Structural)]
pub struct Stat {
    pub fs: usize,
    pub mount: Option<usize>,
    pub is_dir: bool,
}

/// The file systems known to the kernel, each addressed by its number.
pub trait FileSystem {
    /// What `stat` says of `entry` in the directory `parent`.
    spec fn stat_of(&self, parent: NodeView, entry: Seq<u8>) -> Option<Stat>;

    /// What `open` gives for `entry` in the directory `parent`.
    spec fn open_of(&self, parent: NodeView, entry: Seq<u8>) -> Option<NodeView>;

    /// Describes `entry` in the directory `parent`, if it exists.
    fn stat(&self, parent: &Node, entry: &[u8]) -> (r: Option<Stat>)
        ensures
            r == self.stat_of(parent@, entry@),
    ;

    /// Opens `entry` in the directory `parent`.
    fn open(&self, parent: &Node, entry: &[u8]) -> (r: Option<Node>)
        ensures
            r matches Some(n) ==> self.open_of(parent@, entry@) == Some(n@),
            r is None ==> self.open_of(parent@, entry@) is None,
    ;

    /// The file system once the open file `node` is closed.
    spec fn close_of(&self, node: NodeView) -> Self where Self: Sized;

    /// Closes the open file `node`. A file system may keep state for the
    /// files it has open, so closing one may change it.
    fn close(&mut self, node: &Node) where Self: Sized
        ensures
            *final(self) == old(self).close_of(node@),
    ;

    /// Whether reading `node` at `offset` into a buffer holding `buf` may
    /// give `r` (the number of bytes read, if the read succeeds) and leave
    /// the buffer holding `after`.
    spec fn read_gives(&self, node: NodeView, offset: usize, buf: Seq<u8>, r: Option<usize>, after: Seq<u8>) -> bool;

    /// Reads from `node` at `offset` into `buf`; the number of bytes read.
    fn read(&self, node: &Node, offset: usize, buf: &mut [u8]) -> (r: Option<usize>)
        ensures
            final(buf)@.len() == old(buf)@.len(),
            self.read_gives(node@, offset, old(buf)@, r, final(buf)@),
    ;

    /// Whether writing the bytes `buf` to `node` at `offset` may give `r`:
    /// the number of bytes written, if the write succeeds.
    spec fn write_gives(&self, node: NodeView, offset: usize, buf: Seq<u8>, r: Option<usize>) -> bool;

    /// Writes `buf` to `node` at `offset`; the number of bytes written.
    fn write(&self, node: &Node, offset: usize, buf: &[u8]) -> (r: Option<usize>)
        ensures
            self.write_gives(node@, offset, buf@, r),
    ;

    /// The names in the directory `node`, if it is one.
    spec fn entries_of(&self, node: NodeView) -> Option<Seq<Seq<u8>>>;

    /// Lists the directory `node`.
    fn read_dir(&self, node: &Node) -> (r: Option<Vec<Vec<u8>>>)
        ensures
            r matches Some(es) ==> self.entries_of(node@) == Some(es@.map_values(|e: Vec<u8>| e@)),
            r is None ==> self.entries_of(node@) is None,
    ;

    /// What `mount` gives for `entry` in the directory `parent` and the
    /// mount point numbered `key`.
    spec fn mount_of(&self, parent: NodeView, entry: Seq<u8>, key: usize) -> Option<NodeView>;

    /// Makes `entry` in the directory `parent` the mount point numbered
    /// `key`, and returns its node.
    fn mount(&mut self, parent: &Node, entry: &[u8], key: usize) -> (r: Option<Node>)
        ensures
            r matches Some(n) ==> old(self).mount_of(parent@, entry@, key) == Some(n@),
            r is None ==> old(self).mount_of(parent@, entry@, key) is None,
    ;
}

/// A file system mounted on a node of another.
pub struct MountPoint {
    pub parent: Node,
    pub root: Node,
    pub dev: usize,
    pub fs: usize,
}

/// The root directory of the root file system.
pub open spec fn root_view() -> NodeView {
    NodeView { name: seq![SLASH], path: Seq::empty(), fs: ROOT_FS, mount: None, block: 0, offset: 0 }
}

/// The root directory of the root file system.
pub fn root_node() -> (r: Node)
    ensures
        r@ == root_view(),
{
    let mut name: Vec<u8> = Vec::new();
    name.push(SLASH);
    proof {
        assert(name@ =~= seq![SLASH]);
    }
    Node { name, path: Vec::new(), fs: ROOT_FS, mount: None, block: 0, offset: 0 }
}

/// The index of the first slash in `s` at or after `i`, if there is one.
pub open spec fn first_slash_from(s: Seq<u8>, i: int) -> Option<int>
    decreases s.len() - i,
{
    if i < 0 || i >= s.len() {
        None
    } else if s[i] == SLASH {
        Some(i)
    } else {
        first_slash_from(s, i + 1)
    }
}

/// The index of the first slash in `s`, if there is one.
pub open spec fn first_slash(s: Seq<u8>) -> Option<int> {
    first_slash_from(s, 0)
}

proof fn lemma_first_slash_from(s: Seq<u8>, i: int)
    requires
        0 <= i,
    ensures
        match first_slash_from(s, i) {
            Some(k) => i <= k < s.len() && s[k] == SLASH && forall|j: int| i <= j < k ==> s[j] != SLASH,
            None => forall|j: int| i <= j < s.len() ==> s[j] != SLASH,
        },
    decreases s.len() - i,
{
    if i < s.len() && s[i] != SLASH {
        lemma_first_slash_from(s, i + 1);
    }
}

/// The path split at its first slash, or the whole path and nothing.
pub open spec fn split_first(s: Seq<u8>) -> (Seq<u8>, Seq<u8>) {
    match first_slash(s) {
        Some(i) => (s.take(i), s.skip(i + 1)),
        None => (s, Seq::empty()),
    }
}

/// The node of the directory `entry` inside `parent`.
pub open spec fn child_view(parent: NodeView, entry: Seq<u8>) -> NodeView {
    NodeView {
        name: entry,
        path: parent.path + seq![SLASH] + entry,
        fs: parent.fs,
        mount: parent.mount,
        block: parent.block,
        offset: parent.offset,
    }
}

/// The root of the file system mounted at `key`, if any.
pub open spec fn mount_root(mounts: Seq<Option<MountPoint>>, key: usize) -> Option<NodeView> {
    if key < mounts.len() {
        match mounts[key as int] {
            Some(m) => Some(m.root@),
            None => None,
        }
    } else {
        None
    }
}

/// Where walking the relative `path` from `parent` ends: the directory
/// holding the last entry walked, and that entry. Directories are entered;
/// a mount point leads to the root of the file system mounted there; an
/// entry that is neither ends the walk.
pub open spec fn locate<F: FileSystem>(
    fs: F,
    mounts: Seq<Option<MountPoint>>,
    parent: NodeView,
    path: Seq<u8>,
) -> Option<(NodeView, Seq<u8>)>
    decreases path.len(),
{
    let (entry, rest) = split_first(path);
    match fs.stat_of(parent, entry) {
        None => None,
        Some(st) => {
            if rest.len() == 0 {
                Some((parent, entry))
            } else if st.is_dir {
                if rest.len() < path.len() {
                    locate(fs, mounts, child_view(parent, entry), rest)
                } else {
                    None
                }
            } else {
                match st.mount {
                    Some(key) => match mount_root(mounts, key) {
                        Some(root) => if rest.len() < path.len() {
                            locate(fs, mounts, root, rest)
                        } else {
                            None
                        },
                        None => None,
                    },
                    None => Some((parent, entry)),
                }
            }
        },
    }
}

/// Whether walking the relative `path` from `parent` can be done: it does
/// not start with a slash, and every directory or mount point the walk
/// goes through is followed by an entry, not by a second slash.
pub open spec fn locate_ok<F: FileSystem>(
    fs: F,
    mounts: Seq<Option<MountPoint>>,
    parent: NodeView,
    path: Seq<u8>,
) -> bool
    decreases path.len(),
{
    let (entry, rest) = split_first(path);
    &&& !absolute(path)
    &&& match fs.stat_of(parent, entry) {
        None => true,
        Some(st) => if rest.len() == 0 {
            true
        } else if st.is_dir {
            rest.len() < path.len() && locate_ok(fs, mounts, child_view(parent, entry), rest)
        } else {
            match st.mount {
                Some(key) => match mount_root(mounts, key) {
                    Some(root) => rest.len() < path.len() && locate_ok(fs, mounts, root, rest),
                    None => true,
                },
                None => true,
            }
        },
    }
}

/// Whether mounting at the relative `path` below `parent` can be done: it
/// does not start with a slash, and every directory the walk enters is
/// followed by an entry, not by a second slash.
pub open spec fn mount_ok<F: FileSystem>(fs: F, parent: NodeView, path: Seq<u8>) -> bool
    decreases path.len(),
{
    let (entry, rest) = split_first(path);
    &&& !absolute(path)
    &&& match fs.stat_of(parent, entry) {
        Some(st) => st.is_dir && rest.len() > 0 ==> rest.len() < path.len() && mount_ok(
            fs,
            child_view(parent, entry),
            rest,
        ),
        None => true,
    }
}

/// A relative path with no two slashes side by side can be walked, and
/// mounted at, from anywhere.
pub proof fn lemma_relative_walks<F: FileSystem>(
    fs: F,
    mounts: Seq<Option<MountPoint>>,
    parent: NodeView,
    path: Seq<u8>,
)
    requires
        relative_path(path),
    ensures
        locate_ok(fs, mounts, parent, path),
        mount_ok(fs, parent, path),
    decreases path.len(),
{
    lemma_split_relative(path);
    let (entry, rest) = split_first(path);
    if rest.len() > 0 {
        lemma_relative_walks(fs, mounts, child_view(parent, entry), rest);
        match fs.stat_of(parent, entry) {
            Some(st) => match st.mount {
                Some(key) => match mount_root(mounts, key) {
                    Some(root) => lemma_relative_walks(fs, mounts, root, rest),
                    None => {},
                },
                None => {},
            },
            None => {},
        }
    }
}

/// The first slash of `s`.
fn find_slash(s: &[u8]) -> (r: Option<usize>)
    ensures
        match r {
            Some(i) => first_slash(s@) == Some(i as int) && i < s@.len(),
            None => first_slash(s@) is None,
        },
{
    let mut i: usize = 0;
    while i < s.len()
        invariant
            i <= s@.len(),
            first_slash(s@) == first_slash_from(s@, i as int),
        decreases s@.len() - i,
    {
        if s[i] == SLASH {
            return Some(i);
        }
        i = i + 1;
    }
    None
}

/// Copies `s[from..to]`.
pub fn copy_range(s: &[u8], from: usize, to: usize) -> (r: Vec<u8>)
    requires
        from <= to <= s@.len(),
    ensures
        r@ == s@.subrange(from as int, to as int),
{
    let mut out: Vec<u8> = Vec::new();
    let mut i: usize = from;
    while i < to
        invariant
            from <= i <= to,
            to <= s@.len(),
            out@ == s@.subrange(from as int, i as int),
        decreases to - i,
    {
        out.push(s[i]);
        proof {
            assert(s@.subrange(from as int, i + 1) =~= s@.subrange(from as int, i as int).push(
                s@[i as int],
            ));
        }
        i = i + 1;
    }
    out
}

/// Splits `s` at its first slash.
pub fn split_once(s: &[u8]) -> (r: (Vec<u8>, Vec<u8>))
    ensures
        (r.0@, r.1@) == split_first(s@),
{
    match find_slash(s) {
        Some(i) => {
            let n = s.len();
            let a = copy_range(s, 0, i);
            let b = copy_range(s, i + 1, n);
            proof {
                assert(a@ =~= s@.take(i as int));
                assert(b@ =~= s@.skip(i + 1));
            }
            (a, b)
        },
        None => {
            let a = copy_range(s, 0, s.len());
            proof {
                assert(a@ =~= s@);
            }
            (a, Vec::new())
        },
    }
}

/// The node of the directory `entry` inside `parent`.
fn child_node(parent: &Node, entry: &Vec<u8>) -> (r: Node)
    ensures
        r@ == child_view(parent@, entry@),
{
    let mut path = parent.path.clone();
    path.push(SLASH);
    let mut i: usize = 0;
    let ghost base = path@;
    proof {
        assert(base =~= parent.path@ + seq![SLASH]);
    }
    while i < entry.len()
        invariant
            i <= entry@.len(),
            path@ == base + entry@.take(i as int),
        decreases entry@.len() - i,
    {
        path.push(entry[i]);
        proof {
            assert(entry@.take(i + 1) =~= entry@.take(i as int).push(entry@[i as int]));
        }
        i = i + 1;
    }
    proof {
        assert(entry@.take(i as int) =~= entry@);
    }
    let name = entry.clone();
    proof {
        assert(name@ =~= entry@);
    }
    Node {
        name,
        path,
        fs: parent.fs,
        mount: parent.mount,
        block: parent.block,
        offset: parent.offset,
    }
}

/// Walks the relative `path` from `parent`; see [`locate`]. A mount point
/// whose number lies past the end of the mount table ends the walk with
/// nothing found.
pub fn vfs_locate_node<F: FileSystem>(
    fs: &F,
    mounts: &Vec<Option<MountPoint>>,
    parent: &Node,
    path: &[u8],
) -> (r: Option<(Node, Vec<u8>)>)
    requires
        locate_ok(*fs, mounts@, parent@, path@),
    ensures
        match r {
            Some((n, e)) => locate(*fs, mounts@, parent@, path@) == Some((n@, e@)),
            None => locate(*fs, mounts@, parent@, path@) is None,
        },
    decreases path@.len(),
{
    let (entry, rest) = split_once(path);
    let st = match fs.stat(parent, entry.as_slice()) {
        Some(st) => st,
        None => return None,
    };
    if rest.len() == 0 {
        return Some((parent.duplicate(), entry));
    }
    if st.is_dir {
        let child = child_node(parent, &entry);
        vfs_locate_node(fs, mounts, &child, rest.as_slice())
    } else {
        match st.mount {
            Some(key) => {
                if key >= mounts.len() {
                    return None;
                }
                match &mounts[key] {
                    Some(m) => {
                        vfs_locate_node(fs, mounts, &m.root, rest.as_slice())
                    },
                    None => None,
                }
            },
            None => Some((parent.duplicate(), entry)),
        }
    }
}


/// Whether byte `b` is an ASCII white-space character.
pub open spec fn ascii_space(b: u8) -> bool {
    b == 0x09 || b == 0x0a || b == 0x0b || b == 0x0c || b == 0x0d || b == 0x20
}

/// The length of the UTF-8 encoding of a white-space character that starts
/// at `i` in `s`, or 0 if none does. White space is Unicode's: tab to
/// carriage return, space, U+0085, U+00A0, U+1680, U+2000 to U+200A,
/// U+2028, U+2029, U+202F, U+205F and U+3000.
pub open spec fn space_len_at(s: Seq<u8>, i: int) -> int {
    if 0 <= i < s.len() && ascii_space(s[i]) {
        1
    } else if 0 <= i && i + 1 < s.len() && s[i] == 0xc2 && (s[i + 1] == 0x85 || s[i + 1] == 0xa0) {
        2
    } else if 0 <= i && i + 2 < s.len() && (
        (s[i] == 0xe1 && s[i + 1] == 0x9a && s[i + 2] == 0x80)
        || (s[i] == 0xe2 && s[i + 1] == 0x80 && ((0x80 <= s[i + 2] && s[i + 2] <= 0x8a) || s[i + 2] == 0xa8 || s[i + 2] == 0xa9 || s[i + 2] == 0xaf))
        || (s[i] == 0xe2 && s[i + 1] == 0x81 && s[i + 2] == 0x9f)
        || (s[i] == 0xe3 && s[i + 1] == 0x80 && s[i + 2] == 0x80)) {
        3
    } else {
        0
    }
}

/// The length of a white-space character that ends just before `j` and
/// starts at or after `lo`, or 0 if none does.
pub open spec fn space_len_before(s: Seq<u8>, lo: int, j: int) -> int {
    if j - 1 >= lo && space_len_at(s, j - 1) == 1 {
        1
    } else if j - 2 >= lo && space_len_at(s, j - 2) == 2 {
        2
    } else if j - 3 >= lo && space_len_at(s, j - 3) == 3 {
        3
    } else {
        0
    }
}

/// The end of the white space that starts at `i`.
pub open spec fn skip_space(s: Seq<u8>, i: int) -> int
    decreases s.len() - i,
{
    if 0 <= i < s.len() && space_len_at(s, i) > 0 {
        skip_space(s, i + space_len_at(s, i))
    } else {
        i
    }
}

/// The start of the white space that ends at `j`, not going below `lo`.
pub open spec fn skip_space_back(s: Seq<u8>, lo: int, j: int) -> int
    decreases j - lo,
{
    if j > lo && space_len_before(s, lo, j) > 0 {
        skip_space_back(s, lo, j - space_len_before(s, lo, j))
    } else {
        j
    }
}

/// `s` without leading and trailing white space.
pub open spec fn trimmed(s: Seq<u8>) -> Seq<u8> {
    let lo = skip_space(s, 0);
    s.subrange(lo, skip_space_back(s, lo, s.len() as int))
}

/// The length of the white-space character at `i`.
fn space_len_at_exec(s: &[u8], i: usize) -> (r: usize)
    requires
        i < s@.len(),
    ensures
        r == space_len_at(s@, i as int),
{
    let n = s.len();
    let b = s[i];
    if b == 0x09 || b == 0x0a || b == 0x0b || b == 0x0c || b == 0x0d || b == 0x20 {
        return 1;
    }
    if i + 1 < n && b == 0xc2 && (s[i + 1] == 0x85 || s[i + 1] == 0xa0) {
        return 2;
    }
    if n - i > 2 {
        let c = s[i + 1];
        let d = s[i + 2];
        if (b == 0xe1 && c == 0x9a && d == 0x80) || (b == 0xe2 && c == 0x80 && ((0x80 <= d && d
            <= 0x8a) || d == 0xa8 || d == 0xa9 || d == 0xaf)) || (b == 0xe2 && c == 0x81 && d
            == 0x9f) || (b == 0xe3 && c == 0x80 && d == 0x80) {
            return 3;
        }
    }
    0
}

/// The bounds of `s` without leading and trailing white space, as
/// `str::trim` finds them.
pub fn trim_bounds(s: &[u8]) -> (r: (usize, usize))
    ensures
        r.0 <= r.1 <= s@.len(),
        s@.subrange(r.0 as int, r.1 as int) == trimmed(s@),
{
    let n = s.len();
    let mut lo: usize = 0;
    while lo < n && space_len_at_exec(s, lo) > 0
        invariant
            lo <= n,
            n == s@.len(),
            skip_space(s@, 0) == skip_space(s@, lo as int),
        decreases n - lo,
    {
        lo = lo + space_len_at_exec(s, lo);
    }
    let mut hi: usize = n;
    loop
        invariant
            lo <= hi <= n,
            n == s@.len(),
            skip_space(s@, 0) == lo,
            skip_space_back(s@, lo as int, n as int) == skip_space_back(s@, lo as int, hi as int),
        ensures
            lo <= hi <= n,
            skip_space_back(s@, lo as int, hi as int) == hi,
            skip_space_back(s@, lo as int, n as int) == hi,
        decreases hi - lo,
    {
        if hi == lo {
            break;
        }
        let k: usize = if hi - 1 >= lo && space_len_at_exec(s, hi - 1) == 1 {
            1
        } else if hi - lo >= 2 && space_len_at_exec(s, hi - 2) == 2 {
            2
        } else if hi - lo >= 3 && space_len_at_exec(s, hi - 3) == 3 {
            3
        } else {
            0
        };
        proof {
            assert(k == space_len_before(s@, lo as int, hi as int));
        }
        if k == 0 {
            break;
        }
        hi = hi - k;
    }
    (lo, hi)
}

/// The relative path `vfs_locate_node_from_path` walks for the absolute
/// `path`: without surrounding white space, one trailing slash, and the
/// leading slash.
pub open spec fn stripped(path: Seq<u8>) -> Seq<u8> {
    let t = trimmed(path);
    let t1 = if t.len() > 0 && t.last() == SLASH {
        t.drop_last()
    } else {
        t
    };
    if t1.len() > 0 && t1[0] == SLASH {
        t1.drop_first()
    } else {
        t1
    }
}

/// The relative path to walk for the absolute `path`.
fn strip_path(path: &[u8]) -> (r: Vec<u8>)
    ensures
        r@ == stripped(path@),
{
    let (lo, hi) = trim_bounds(path);
    let mut lo = lo;
    let mut hi = hi;
    if hi > lo && path[hi - 1] == SLASH {
        hi = hi - 1;
    }
    if hi > lo && path[lo] == SLASH {
        lo = lo + 1;
    }
    let r = copy_range(path, lo, hi);
    proof {
        let t = trimmed(path@);
        assert(r@ =~= stripped(path@));
    }
    r
}

/// Whether `path` starts with a slash.
pub open spec fn absolute(path: Seq<u8>) -> bool {
    path.len() > 0 && path[0] == SLASH
}

/// Walks the absolute `path` from the root directory; see [`locate`].
pub fn vfs_locate_node_from_path<F: FileSystem>(
    fs: &F,
    mounts: &Vec<Option<MountPoint>>,
    path: &[u8],
) -> (r: Option<(Node, Vec<u8>)>)
    requires
        absolute(path@),
        locate_ok(*fs, mounts@, root_view(), stripped(path@)),
    ensures
        match r {
            Some((n, e)) => locate(*fs, mounts@, root_view(), stripped(path@)) == Some((n@, e@)),
            None => locate(*fs, mounts@, root_view(), stripped(path@)) is None,
        },
{
    let rel = strip_path(path);
    let root = root_node();
    vfs_locate_node(fs, mounts, &root, rel.as_slice())
}

/// The path `/`.
pub open spec fn is_root_path(path: Seq<u8>) -> bool {
    path == seq![SLASH]
}

/// What `vfs_open` gives for `path`.
pub open spec fn open_path<F: FileSystem>(fs: F, mounts: Seq<Option<MountPoint>>, path: Seq<u8>) -> Option<
    NodeView,
> {
    if !absolute(path) {
        None
    } else if is_root_path(path) {
        Some(root_view())
    } else {
        match locate(fs, mounts, root_view(), stripped(path)) {
            Some((parent, entry)) => fs.open_of(parent, entry),
            None => None,
        }
    }
}

/// Opens the file or directory at `path`. A relative path opens nothing;
/// `/` is the root directory.
pub fn vfs_open<F: FileSystem>(fs: &F, mounts: &Vec<Option<MountPoint>>, path: &[u8]) -> (r: Option<
    Node,
>)
    requires
        absolute(path@) && !is_root_path(path@) ==> locate_ok(*fs, mounts@, root_view(), stripped(path@)),
    ensures
        match r {
            Some(n) => open_path(*fs, mounts@, path@) == Some(n@),
            None => open_path(*fs, mounts@, path@) is None,
        },
{
    if !(path.len() > 0 && path[0] == SLASH) {
        return None;
    }
    if path.len() == 1 {
        proof {
            assert(path@ =~= seq![SLASH]);
        }
        return Some(root_node());
    }
    proof {
        assert(!is_root_path(path@));
    }
    let rel = strip_path(path);
    let root = root_node();
    match vfs_locate_node(fs, mounts, &root, rel.as_slice()) {
        Some((parent, entry)) => fs.open(&parent, entry.as_slice()),
        None => None,
    }
}

/// Whether `path` names a directory or a mount point.
pub open spec fn dir_or_mnt<F: FileSystem>(fs: F, mounts: Seq<Option<MountPoint>>, path: Seq<u8>) -> bool {
    match locate(fs, mounts, root_view(), stripped(path)) {
        Some((parent, entry)) => match fs.stat_of(parent, entry) {
            Some(st) => st.is_dir || st.mount is Some,
            None => false,
        },
        None => false,
    }
}

/// Whether the absolute `path` names a directory or a mount point.
pub fn dir_or_mnt_exists<F: FileSystem>(fs: &F, mounts: &Vec<Option<MountPoint>>, path: &[u8]) -> (r:
    bool)
    requires
        absolute(path@),
        locate_ok(*fs, mounts@, root_view(), stripped(path@)),
    ensures
        r == dir_or_mnt(*fs, mounts@, path@),
{
    let (parent, entry) = match vfs_locate_node_from_path(fs, mounts, path) {
        Some(x) => x,
        None => return false,
    };
    match fs.stat(&parent, entry.as_slice()) {
        Some(st) => st.is_dir || st.mount.is_some(),
        None => false,
    }
}


/// Where mounting at the relative `path` below `parent` takes place: the
/// directory and the entry that becomes the mount point. The walk enters
/// directories; it stops at the first entry that is not one, or at a last
/// entry that does not exist yet. A directory as the last entry, or a
/// missing entry on the way, cannot be mounted on.
pub open spec fn mount_target<F: FileSystem>(fs: F, parent: NodeView, path: Seq<u8>) -> Option<
    (NodeView, Seq<u8>),
>
    decreases path.len(),
{
    let (entry, rest) = split_first(path);
    match fs.stat_of(parent, entry) {
        Some(st) => {
            if st.is_dir {
                if rest.len() == 0 {
                    None
                } else if rest.len() < path.len() {
                    mount_target(fs, child_view(parent, entry), rest)
                } else {
                    None
                }
            } else {
                Some((parent, entry))
            }
        },
        None => if rest.len() == 0 {
            Some((parent, entry))
        } else {
            None
        },
    }
}

/// The root of a file system mounted on the node `n`: the same node,
/// belonging to file system `fs_id` and leading to no further mount.
pub open spec fn mounted_root(n: NodeView, fs_id: usize) -> NodeView {
    NodeView { mount: None, fs: fs_id, ..n }
}

/// What mounting file system `fs_id` at `path` below `parent` as mount
/// point `key` gives: the mount point's node and the new root.
pub open spec fn mount_result<F: FileSystem>(
    fs: F,
    parent: NodeView,
    path: Seq<u8>,
    fs_id: usize,
    key: usize,
) -> Option<(NodeView, NodeView)> {
    match mount_target(fs, parent, path) {
        Some((p, e)) => match fs.mount_of(p, e, key) {
            Some(n) => Some((n, mounted_root(n, fs_id))),
            None => None,
        },
        None => None,
    }
}

/// Mounts file system `fs_id` at the relative `path` below `parent` as
/// mount point `key`; see [`mount_target`].
pub fn vfs_mount_impl<F: FileSystem>(
    fs: &mut F,
    parent: &Node,
    path: &[u8],
    dev: usize,
    fs_id: usize,
    key: usize,
) -> (r: Option<(Node, Node)>)
    requires
        mount_ok(*old(fs), parent@, path@),
    ensures
        match r {
            Some((p, root)) => mount_result(*old(fs), parent@, path@, fs_id, key) == Some((p@, root@)),
            None => mount_result(*old(fs), parent@, path@, fs_id, key) is None,
        },
        mount_target(*old(fs), parent@, path@) is None ==> *final(fs) == *old(fs),
    decreases path@.len(),
{
    let (entry, rest) = split_once(path);
    match fs.stat(parent, entry.as_slice()) {
        Some(st) => {
            if st.is_dir {
                if rest.len() == 0 {
                    None
                } else {
                    let child = child_node(parent, &entry);
                    vfs_mount_impl(fs, &child, rest.as_slice(), dev, fs_id, key)
                }
            } else {
                mount_here(fs, parent, &entry, fs_id, key)
            }
        },
        None => {
            if rest.len() == 0 {
                mount_here(fs, parent, &entry, fs_id, key)
            } else {
                None
            }
        },
    }
}

/// Mounts at `entry` in `parent`: the mount point's node, and the root of
/// the mounted file system.
fn mount_here<F: FileSystem>(fs: &mut F, parent: &Node, entry: &Vec<u8>, fs_id: usize, key: usize) -> (r:
    Option<(Node, Node)>)
    ensures
        match r {
            Some((p, root)) => old(fs).mount_of(parent@, entry@, key) == Some(p@) && root@ == mounted_root(p@, fs_id),
            None => old(fs).mount_of(parent@, entry@, key) is None,
        },
{
    let p = match fs.mount(parent, entry.as_slice(), key) {
        Some(p) => p,
        None => return None,
    };
    let mut root = p.duplicate();
    root.mount = None;
    root.fs = fs_id;
    Some((p, root))
}

/// The path below the root that `vfs_mount` walks: what follows the
/// first slash.
pub open spec fn mount_path(path: Seq<u8>) -> Seq<u8> {
    split_first(path).1
}

/// The first free slot of the mount table, if any.
pub open spec fn first_free(mounts: Seq<Option<MountPoint>>) -> Option<int> {
    if exists|i: int| 0 <= i < mounts.len() && mounts[i] is None {
        Some(choose|i: int| 0 <= i < mounts.len() && mounts[i] is None && forall|j: int| 0 <= j < i ==> mounts[j] is Some)
    } else {
        None
    }
}

/// The mount table `after` is `before` with slot `i` holding the mount of
/// file system `fs_id` on device `dev`, between mount point `p` and root
/// `root`.
pub open spec fn mount_recorded(
    before: Seq<Option<MountPoint>>,
    after: Seq<Option<MountPoint>>,
    i: int,
    p: NodeView,
    root: NodeView,
    dev: usize,
    fs_id: usize,
) -> bool {
    &&& after.len() == before.len()
    &&& forall|j: int| 0 <= j < before.len() && j != i ==> #[trigger] after[j] == before[j]
    &&& after[i] is Some
    &&& after[i]->0.parent@ == p
    &&& after[i]->0.root@ == root
    &&& after[i]->0.dev == dev
    &&& after[i]->0.fs == fs_id
}

/// The view of an optional node.
pub open spec fn view_of(r: Option<Node>) -> Option<NodeView> {
    match r {
        Some(n) => Some(n@),
        None => None,
    }
}

/// The outcome of mounting file system `fs_id` on device `dev` at `path`
/// with mount table `before`: the root directory and a full table mount
/// nothing; else the first free slot records the mount if mounting at the
/// path succeeds, and the result is the new root.
pub open spec fn mount_outcome<F: FileSystem>(
    fs: F,
    before: Seq<Option<MountPoint>>,
    after: Seq<Option<MountPoint>>,
    path: Seq<u8>,
    dev: usize,
    fs_id: usize,
    r: Option<NodeView>,
) -> bool {
    if is_root_path(path) {
        r is None && after == before
    } else {
        match first_free(before) {
            None => r is None && after == before,
            Some(i) => match mount_result(fs, root_view(), mount_path(path), fs_id, i as usize) {
                None => r is None && after == before,
                Some((p, root)) => r == Some(root) && mount_recorded(before, after, i, p, root, dev, fs_id),
            },
        }
    }
}

/// Mounting file system `fs_id` at `path` with mount table `mounts`
/// succeeds.
pub open spec fn mount_succeeds<F: FileSystem>(
    fs: F,
    mounts: Seq<Option<MountPoint>>,
    path: Seq<u8>,
    fs_id: usize,
) -> bool {
    &&& !is_root_path(path)
    &&& first_free(mounts) matches Some(i) && mount_result(fs, root_view(), mount_path(path), fs_id, i as usize) is Some
}

/// Mounts file system `fs_id` on device `dev` at the absolute `path`, in
/// the first free slot of the mount table, and returns the new root. The
/// root directory cannot be mounted on; a full table mounts nothing.
pub fn vfs_mount<F: FileSystem>(
    fs: &mut F,
    mounts: &mut Vec<Option<MountPoint>>,
    path: &[u8],
    dev: usize,
    fs_id: usize,
) -> (r: Option<Node>)
    requires
        absolute(path@),
        mount_ok(*old(fs), root_view(), mount_path(path@)),
    ensures
        mount_outcome(*old(fs), old(mounts)@, final(mounts)@, path@, dev, fs_id, view_of(r)),
{
    if path.len() == 1 {
        proof {
            assert(path@ =~= seq![SLASH]);
        }
        return None;
    }
    proof {
        assert(!is_root_path(path@));
    }
    let mut i: usize = 0;
    while i < mounts.len()
        invariant
            i <= mounts@.len(),
            forall|j: int| 0 <= j < i ==> #[trigger] mounts@[j] is Some,
            *fs == *old(fs),
            mounts@ == old(mounts)@,
            absolute(path@),
            !is_root_path(path@),
            mount_ok(*old(fs), root_view(), mount_path(path@)),
        decreases mounts@.len() - i,
    {
        if mounts[i].is_none() {
            proof {
                let k = choose|k: int| 0 <= k < mounts@.len() && mounts@[k] is None && forall|j: int| 0 <= j < k ==> mounts@[j] is Some;
                assert(k == i as int) by {
                    if k < i {
                        assert(mounts@[k] is Some);
                    }
                    if k > i {
                        assert(mounts@[i as int] is Some);
                    }
                }
            }
            let (_, rel) = split_once(path);
            let root = root_node();
            let (parent, new_root) = match vfs_mount_impl(fs, &root, rel.as_slice(), dev, fs_id, i) {
                Some(x) => x,
                None => return None,
            };
            let result = new_root.duplicate();
            mounts.set(i, Some(MountPoint { parent, root: new_root, dev, fs: fs_id }));
            return Some(result);
        }
        i = i + 1;
    }
    None
}

/// A relative path as walking takes it: it does not start with a slash,
/// and no two slashes are adjacent (an empty entry stops the walk).
pub open spec fn relative_path(s: Seq<u8>) -> bool {
    &&& !(s.len() > 0 && s[0] == SLASH)
    &&& no_double_slash(s)
}


/// A character that starts with a slash byte is not white space.
proof fn lemma_slash_not_space(s: Seq<u8>, i: int)
    requires
        0 <= i < s.len(),
        s[i] == SLASH,
    ensures
        space_len_at(s, i) == 0,
{
}

/// Walking back over white space from `j` never passes a position `lo`
/// whose character is not white space.
proof fn lemma_skip_back_stops(s: Seq<u8>, lo: int, j: int)
    requires
        0 <= lo < j <= s.len(),
        space_len_at(s, lo) == 0,
    ensures
        skip_space_back(s, lo, j) > lo,
    decreases j - lo,
{
    let k = space_len_before(s, lo, j);
    if k > 0 {
        assert(j - k != lo);
        lemma_skip_back_stops(s, lo, j - k);
    }
}

proof fn lemma_skip_back_bounds(s: Seq<u8>, lo: int, j: int)
    requires
        lo <= j,
    ensures
        lo <= skip_space_back(s, lo, j) <= j,
    decreases j - lo,
{
    let k = space_len_before(s, lo, j);
    if j > lo && k > 0 {
        lemma_skip_back_bounds(s, lo, j - k);
    }
}

/// Law: an absolute path with no two slashes side by side strips to a
/// relative path that can be walked.
pub proof fn lemma_stripped_relative(p: Seq<u8>)
    requires
        absolute(p),
        no_double_slash(p),
    ensures
        relative_path(stripped(p)),
{
    lemma_slash_not_space(p, 0);
    assert(skip_space(p, 0) == 0);
    lemma_skip_back_stops(p, 0, p.len() as int);
    lemma_skip_back_bounds(p, 0, p.len() as int);
    let hi = skip_space_back(p, 0, p.len() as int);
    let t = trimmed(p);
    assert(t == p.subrange(0, hi));
    assert(t[0] == SLASH);
    assert forall|i: int| 0 <= i < t.len() - 1 implies !#[trigger] double_slash_at(t, i) by {
        assert(t[i] == p[i]);
        assert(t[i + 1] == p[i + 1]);
        assert(!double_slash_at(p, i));
    }
    let t1 = if t.len() > 0 && t.last() == SLASH {
        t.drop_last()
    } else {
        t
    };
    assert forall|i: int| 0 <= i < t1.len() - 1 implies !#[trigger] double_slash_at(t1, i) by {
        assert(t1[i] == t[i]);
        assert(t1[i + 1] == t[i + 1]);
        assert(!double_slash_at(t, i));
    }
    if t1.len() > 0 && t1[0] == SLASH {
        let t2 = t1.drop_first();
        if t2.len() > 0 {
            assert(t2[0] == t1[1]);
            assert(!double_slash_at(t1, 0));
        }
        assert forall|i: int| 0 <= i < t2.len() - 1 implies !#[trigger] double_slash_at(t2, i) by {
            assert(t2[i] == t1[i + 1]);
            assert(t2[i + 1] == t1[i + 2]);
            assert(!double_slash_at(t1, i + 1));
        }
    }
}

/// What follows the first slash of a relative path is a shorter relative
/// path.
proof fn lemma_split_relative(path: Seq<u8>)
    requires
        relative_path(path),
    ensures
        relative_path(split_first(path).1),
        split_first(path).1.len() == 0 || split_first(path).1.len() < path.len(),
{
    lemma_first_slash_from(path, 0);
    if let Some(i) = first_slash(path) {
        let rest = path.skip(i + 1);
        if rest.len() > 0 {
            assert(!double_slash_at(path, i));
            assert(rest[0] == path[i + 1]);
        }
        assert forall|k: int| 0 <= k < rest.len() - 1 implies !#[trigger] double_slash_at(rest, k) by {
            assert(!double_slash_at(path, i + 1 + k));
            assert(rest[k] == path[i + 1 + k]);
            assert(rest[k + 1] == path[i + 1 + k + 1]);
        }
    }
}

} // verus!
