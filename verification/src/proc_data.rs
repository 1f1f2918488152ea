//! What the virtual file system keeps for each process: its working
//! directory and its table of open files.
use vstd::prelude::*;
use crate::path::{canonical, canonicalize, lemma_canonical_shape, SLASH};
use crate::vfs::{
    absolute, dir_or_mnt, dir_or_mnt_exists, is_root_path, lemma_relative_walks, lemma_stripped_relative, locate_ok, mount_ok, root_view, mount_outcome,
    mount_path, mount_root, mount_succeeds, open_path, relative_path, stripped, vfs_mount, vfs_open,
    view_of, FileSystem, MountPoint, Node, NodeView,
};

verus! {

/// The number of open files a process can have.
pub const MAX_FILES: usize = 16;

/// The descriptors 0, 1 and 2 are the terminal, and cannot be closed.
pub const STDIO_FILES: usize = 3;

/// An open file: its node and the position of the next read or write.
pub struct FileDescriptor {
    pub node: Node,
    pub offset: usize,
}

/// A process's working directory and open files. `files` is the next
/// descriptor to hand out; it goes down again when a file is closed.
pub struct ProcData {
    pub nodes: Vec<Option<FileDescriptor>>,
    pub cwd: Vec<u8>,
    pub files: usize,
}

/// The number of open descriptors in `s`.
pub open spec fn count_open(s: Seq<Option<FileDescriptor>>) -> nat
    decreases s.len(),
{
    if s.len() == 0 {
        0
    } else {
        count_open(s.drop_last()) + (if s.last() is Some {
            1nat
        } else {
            0nat
        })
    }
}

proof fn lemma_count_update(s: Seq<Option<FileDescriptor>>, i: int, v: Option<FileDescriptor>)
    requires
        0 <= i < s.len(),
    ensures
        count_open(s.update(i, v)) + (if s[i] is Some {
            1int
        } else {
            0int
        }) == count_open(s) + (if v is Some {
            1int
        } else {
            0int
        }),
    decreases s.len(),
{
    let u = s.update(i, v);
    if i == s.len() - 1 {
        assert(u.drop_last() =~= s.drop_last());
    } else {
        lemma_count_update(s.drop_last(), i, v);
        assert(u.drop_last() =~= s.drop_last().update(i, v));
    }
}

/// The path of the serial terminal.
pub open spec fn tty_path() -> Seq<u8> {
    seq![0x2fu8, 0x64, 0x65, 0x76, 0x2f, 0x74, 0x74, 0x79, 0x2e, 0x73, 0x65, 0x72, 0x69, 0x61, 0x6c]
}

fn tty_path_exec() -> (r: Vec<u8>)
    ensures
        r@ == tty_path(),
{
    let r: Vec<u8> = vec![0x2fu8, 0x64, 0x65, 0x76, 0x2f, 0x74, 0x74, 0x79, 0x2e, 0x73, 0x65, 0x72, 0x69, 0x61, 0x6c];
    proof {
        assert(r@ =~= tty_path());
    }
    r
}

/// The bytes of an optional byte string.
pub open spec fn bytes_of(o: Option<&[u8]>) -> Option<Seq<u8>> {
    match o {
        Some(c) => Some(c@),
        None => None,
    }
}

/// The working directory a new process starts in: the one it was given,
/// else the one it inherits, else the root.
pub open spec fn start_cwd(cwd: Seq<u8>, inherited: Option<Seq<u8>>) -> Seq<u8> {
    if cwd.len() > 0 {
        cwd
    } else {
        match inherited {
            Some(c) => c,
            None => seq![SLASH],
        }
    }
}

/// Law: a working directory given explicitly is the one a new process
/// starts in, whatever it would inherit; an inherited one is used only when
/// none is given, and the root when there is neither.
pub proof fn lemma_given_cwd_wins(cwd: Seq<u8>, inherited: Option<Seq<u8>>)
    ensures
        cwd.len() > 0 ==> start_cwd(cwd, inherited) == cwd,
        cwd.len() == 0 && inherited is Some ==> start_cwd(cwd, inherited) == inherited->0,
        cwd.len() == 0 && inherited is None ==> start_cwd(cwd, inherited) == seq![SLASH],
{
}

/// Where opening `path` from the working directory `cwd` ends: the node
/// opened, if any.
pub open spec fn open_target<F: FileSystem>(
    fs: F,
    mounts: Seq<Option<MountPoint>>,
    cwd: Seq<u8>,
    path: Seq<u8>,
) -> Option<NodeView> {
    match canonical(cwd, path) {
        Some(c) => open_path(fs, mounts, c),
        None => None,
    }
}

/// The node an open file refers to: a mount point stands for the root of
/// the file system mounted there.
pub open spec fn through_mount(mounts: Seq<Option<MountPoint>>, n: NodeView) -> NodeView {
    match n.mount {
        Some(k) => mount_root(mounts, k)->0,
        None => n,
    }
}

impl ProcData {
    /// There is a slot for every descriptor, and at least as many handed
    /// out as are open.
    pub open spec fn wf(&self) -> bool {
        &&& self.nodes@.len() == MAX_FILES
        &&& self.files >= count_open(self.nodes@)
    }

    /// The data of a new process: its working directory, and the terminal
    /// open as descriptors 0, 1 and 2.
    pub fn new<F: FileSystem>(
        fs: &F,
        mounts: &Vec<Option<MountPoint>>,
        cwd: &[u8],
        inherited: Option<&[u8]>,
    ) -> (r: Self)
        requires
            open_path(*fs, mounts@, tty_path()) is Some,
        ensures
            r.wf(),
            r.cwd@ == start_cwd(cwd@, bytes_of(inherited)),
            cwd@.len() > 0 ==> r.cwd@ == cwd@,
            cwd@.len() == 0 ==> match inherited {
                Some(c) => r.cwd@ == c@,
                None => r.cwd@ == seq![SLASH],
            },
            r.files == STDIO_FILES,
            forall|i: int|
                0 <= i < STDIO_FILES ==> (#[trigger] r.nodes@[i] matches Some(d) && d.offset == 0
                    && Some(d.node@) == open_path(*fs, mounts@, tty_path())),
            forall|i: int| STDIO_FILES <= i < MAX_FILES ==> #[trigger] r.nodes@[i] is None,
    {
        let start: Vec<u8> = if cwd.len() > 0 {
            crate::vfs::copy_range(cwd, 0, cwd.len())
        } else {
            match inherited {
                Some(c) => crate::vfs::copy_range(c, 0, c.len()),
                None => {
                    let mut v: Vec<u8> = Vec::new();
                    v.push(SLASH);
                    v
                },
            }
        };
        proof {
            assert(cwd@.subrange(0, cwd@.len() as int) =~= cwd@);
            if let Some(c) = inherited {
                assert(c@.subrange(0, c@.len() as int) =~= c@);
            }
            assert(start@ =~= start_cwd(cwd@, bytes_of(inherited)));
        }
        let tty = tty_path_exec();
        proof {
            assert(absolute(tty@));
            assert(!is_root_path(tty@));
            assert(crate::path::no_double_slash(tty@)) by {
                assert forall|i: int| 0 <= i < tty@.len() - 1 implies !#[trigger] crate::path::double_slash_at(
                    tty@,
                    i,
                ) by {
                    if i == 0 {
                        assert(tty@[1] == 0x64);
                    }
                    if i == 4 {
                        assert(tty@[5] == 0x74);
                    }
                }
            }
            lemma_stripped_relative(tty@);
            lemma_relative_walks(*fs, mounts@, root_view(), stripped(tty@));
        }
        let stdio = vfs_open(fs, mounts, tty.as_slice()).unwrap();
        let mut nodes: Vec<Option<FileDescriptor>> = Vec::new();
        let mut i: usize = 0;
        while i < MAX_FILES
            invariant
                i <= MAX_FILES,
                nodes@.len() == i,
                Some(stdio@) == open_path(*fs, mounts@, tty_path()),
                forall|k: int|
                    0 <= k < i && k < STDIO_FILES ==> (#[trigger] nodes@[k] matches Some(d)
                        && d.offset == 0 && d.node@ == stdio@),
                forall|k: int| STDIO_FILES <= k < i ==> #[trigger] nodes@[k] is None,
                count_open(nodes@) == if i < STDIO_FILES {
                    i
                } else {
                    STDIO_FILES
                },
            decreases MAX_FILES - i,
        {
            let ghost before = nodes@;
            if i < STDIO_FILES {
                nodes.push(Some(FileDescriptor { node: stdio.duplicate(), offset: 0 }));
            } else {
                nodes.push(None);
            }
            proof {
                assert(nodes@.drop_last() =~= before);
            }
            i = i + 1;
        }
        ProcData { nodes, cwd: start, files: STDIO_FILES }
    }

    /// Resolves `s` against the working directory; see [`canonical`].
    pub fn canonicalize(&self, s: &[u8]) -> (r: Result<Vec<u8>, ()>)
        requires
            absolute(self.cwd@),
        ensures
            match canonical(self.cwd@, s@) {
                Some(p) => r is Ok && r->Ok_0@ == p,
                None => r is Err,
            },
    {
        canonicalize(self.cwd.as_slice(), s)
    }

    /// Changes the working directory to `path`, resolved against the
    /// current one, if it names a directory or a mount point.
    pub fn set_cwd<F: FileSystem>(
        &mut self,
        fs: &F,
        mounts: &Vec<Option<MountPoint>>,
        path: &[u8],
    ) -> (r: Result<(), ()>)
        requires
            absolute(old(self).cwd@),
            absolute(path@) ==> locate_ok(*fs, mounts@, root_view(), stripped(path@)),
        ensures
            cwd_set(*fs, mounts@, *old(self), *final(self), path@, r is Ok),
    {
        let c = match self.canonicalize(path) {
            Ok(c) => c,
            Err(_) => return Err(()),
        };
        proof {
            if !absolute(path@) {
                lemma_canonical_shape(self.cwd@, path@);
                lemma_stripped_relative(c@);
                lemma_relative_walks(*fs, mounts@, root_view(), stripped(c@));
            }
        }
        if !dir_or_mnt_exists(fs, mounts, c.as_slice()) {
            return Err(());
        }
        self.cwd = c;
        Ok(())
    }

    /// Opens `path`, resolved against the working directory, as the next
    /// descriptor; -1 if it cannot be resolved or opened. A mount point
    /// opens the root of the file system mounted there.
    pub fn open_file<F: FileSystem>(
        &mut self,
        fs: &F,
        mounts: &Vec<Option<MountPoint>>,
        path: &[u8],
    ) -> (r: isize)
        requires
            old(self).wf(),
            can_open(*fs, mounts@, *old(self), path@),
        ensures
            final(self).wf(),
            final(self).cwd == old(self).cwd,
            opened(open_target(*fs, mounts@, old(self).cwd@, path@), mounts@, *old(self), *final(self), r),
    {
        let c = match self.canonicalize(path) {
            Ok(c) => c,
            Err(_) => return -1,
        };
        proof {
            if !absolute(path@) {
                lemma_canonical_shape(self.cwd@, path@);
                lemma_stripped_relative(c@);
                lemma_relative_walks(*fs, mounts@, root_view(), stripped(c@));
            }
        }
        let node = match vfs_open(fs, mounts, c.as_slice()) {
            Some(node) => node,
            None => return -1,
        };
        let node = match node.mount {
            Some(k) => mounts[k].as_ref().unwrap().root.duplicate(),
            None => node,
        };
        let fd = self.files;
        let ghost before = self.nodes@;
        self.nodes.set(fd, Some(FileDescriptor { node, offset: 0 }));
        proof {
            lemma_count_update(before, fd as int, self.nodes@[fd as int]);
        }
        self.files = self.files + 1;
        fd as isize
    }

    /// Closes descriptor `fd`: 0 if it was open, and its node is then closed
    /// in `fs`; -1 if it was not or is one of the terminal's.
    pub fn close_file<F: FileSystem>(&mut self, fs: &mut F, fd: usize) -> (r: isize)
        requires
            old(self).wf(),
            fd >= STDIO_FILES ==> fd < MAX_FILES,
        ensures
            final(self).wf(),
            final(self).cwd == old(self).cwd,
            closed(*old(fs), *final(fs), *old(self), *final(self), fd, r),
    {
        if fd < STDIO_FILES {
            return -1;
        }
        let mut slot: Option<FileDescriptor> = None;
        let ghost before = self.nodes@;
        self.nodes.set_and_swap(fd, &mut slot);
        match slot {
            Some(d) => {
                proof {
                    lemma_count_update(before, fd as int, None);
                }
                self.files = self.files - 1;
                fs.close(&d.node);
                0
            },
            None => {
                proof {
                    assert(self.nodes@ =~= before);
                }
                -1
            },
        }
    }

    /// Moves the position of open file `fd` on by `n` bytes; a position
    /// past the largest machine word wraps round to the start.
    fn advance(&mut self, fd: usize, n: usize)
        requires
            old(self).wf(),
            fd < MAX_FILES,
            old(self).nodes@[fd as int] is Some,
        ensures
            final(self).wf(),
            final(self).cwd == old(self).cwd,
            final(self).files == old(self).files,
            final(self).nodes@.len() == MAX_FILES,
            forall|i: int| 0 <= i < MAX_FILES && i != fd ==> #[trigger] final(self).nodes@[i] == old(self).nodes@[i],
            final(self).nodes@[fd as int] is Some,
            final(self).nodes@[fd as int]->0.node == old(self).nodes@[fd as int]->0.node,
            final(self).nodes@[fd as int]->0.offset == (old(self).nodes@[fd as int]->0.offset + n) % (usize::MAX as int + 1),
    {
        let mut slot: Option<FileDescriptor> = None;
        let ghost before = self.nodes@;
        self.nodes.set_and_swap(fd, &mut slot);
        let mut d = slot.unwrap();
        d.offset = d.offset.wrapping_add(n);
        self.nodes.set(fd, Some(d));
        proof {
            lemma_count_update(before, fd as int, None);
            lemma_count_update(before.update(fd as int, None), fd as int, self.nodes@[fd as int]);
            assert(self.nodes@ =~= before.update(fd as int, None).update(fd as int, self.nodes@[fd as int]));
        }
    }

    /// Reads from open file `fd` at its position into `buf`, and moves the
    /// position on by the bytes read (wrapping past the largest machine
    /// word); -1 if `fd` is not open or the read fails.
    pub fn read_file<F: FileSystem>(&mut self, fs: &F, fd: usize, buf: &mut [u8]) -> (r: isize)
        requires
            old(self).wf(),
            fd < MAX_FILES,
        ensures
            final(self).wf(),
            final(self).cwd == old(self).cwd,
            final(self).files == old(self).files,
            old(self).nodes@[fd as int] is None ==> r == -1 && final(self).nodes@ == old(self).nodes@
                && final(buf)@ == old(buf)@,
            old(self).nodes@[fd as int] matches Some(d) ==> exists|res: Option<usize>|
                fs.read_gives(d.node@, d.offset, old(buf)@, res, final(buf)@)
                    && #[trigger] transferred(old(self).nodes@, final(self).nodes@, fd as int, res, r),
    {
        let (node, offset) = match &self.nodes[fd] {
            Some(d) => (d.node.duplicate(), d.offset),
            None => return -1,
        };
        let res = fs.read(&node, offset, buf);
        match res {
            None => {
                assert(transferred(old(self).nodes@, self.nodes@, fd as int, res, -1isize));
                -1
            },
            Some(v) => {
                self.advance(fd, v);
                proof {
                    assert((v as isize) as usize == v) by (bit_vector);
                    assert(transferred(old(self).nodes@, self.nodes@, fd as int, res, v as isize));
                }
                #[verifier::truncate]
                (v as isize)
            },
        }
    }

    /// Writes `buf` to open file `fd` at its position, and moves the
    /// position on by the bytes written (wrapping past the largest machine
    /// word); -1 if `fd` is not open or the write fails.
    pub fn write_file<F: FileSystem>(&mut self, fs: &F, fd: usize, buf: &[u8]) -> (r: isize)
        requires
            old(self).wf(),
            fd < MAX_FILES,
        ensures
            final(self).wf(),
            final(self).cwd == old(self).cwd,
            final(self).files == old(self).files,
            old(self).nodes@[fd as int] is None ==> r == -1 && final(self).nodes@ == old(self).nodes@,
            old(self).nodes@[fd as int] matches Some(d) ==> exists|res: Option<usize>|
                fs.write_gives(d.node@, d.offset, buf@, res)
                    && #[trigger] transferred(old(self).nodes@, final(self).nodes@, fd as int, res, r),
    {
        let (node, offset) = match &self.nodes[fd] {
            Some(d) => (d.node.duplicate(), d.offset),
            None => return -1,
        };
        let res = fs.write(&node, offset, buf);
        match res {
            None => {
                assert(transferred(old(self).nodes@, self.nodes@, fd as int, res, -1isize));
                -1
            },
            Some(v) => {
                self.advance(fd, v);
                proof {
                    assert((v as isize) as usize == v) by (bit_vector);
                    assert(transferred(old(self).nodes@, self.nodes@, fd as int, res, v as isize));
                }
                #[verifier::truncate]
                (v as isize)
            },
        }
    }

    /// Copies the working directory into `buf`; its length, or -1 if it
    /// does not fit.
    pub fn get_cwd(&self, buf: &mut [u8]) -> (r: isize)
        ensures
            cwd_copied(self.cwd@, old(buf)@, final(buf)@, r),
    {
        let n = self.cwd.len();
        if n > buf.len() {
            return -1;
        }
        let mut i: usize = 0;
        while i < n
            invariant
                n == self.cwd@.len(),
                n <= buf@.len(),
                i <= n,
                buf@.len() == old(buf)@.len(),
                buf@ == self.cwd@.take(i as int) + old(buf)@.skip(i as int),
            decreases n - i,
        {
            buf[i] = self.cwd[i];
            proof {
                assert(buf@ =~= self.cwd@.take(i + 1) + old(buf)@.skip(i + 1));
            }
            i = i + 1;
        }
        proof {
            assert(self.cwd@.take(i as int) =~= self.cwd@);
        }
        n as isize
    }
}


/// Opening `path` from `d` cannot fail for want of a slot or a mounted
/// file system, and the path can be walked.
pub open spec fn can_open<F: FileSystem>(
    fs: F,
    mounts: Seq<Option<MountPoint>>,
    d: ProcData,
    path: Seq<u8>,
) -> bool {
    &&& absolute(d.cwd@)
    &&& absolute(path) && !is_root_path(path) ==> locate_ok(fs, mounts, root_view(), stripped(path))
    &&& open_target(fs, mounts, d.cwd@, path) matches Some(n) ==> d.files < MAX_FILES && (
    n.mount matches Some(k) ==> mount_root(mounts, k) is Some)
}

/// The outcome of opening the node `target` (if any) from `before`:
/// nothing found gives -1 and no change; else the node, through its mount
/// point, becomes descriptor `files`, and `files` goes up by one.
pub open spec fn opened(
    target: Option<NodeView>,
    mounts: Seq<Option<MountPoint>>,
    before: ProcData,
    after: ProcData,
    r: isize,
) -> bool {
    &&& after.cwd == before.cwd
    &&& match target {
        None => r == -1 && after.nodes@ == before.nodes@ && after.files == before.files,
        Some(n) => {
            &&& r == before.files as isize
            &&& after.files == before.files + 1
            &&& after.nodes@.len() == MAX_FILES
            &&& forall|i: int|
                0 <= i < MAX_FILES && i != before.files ==> #[trigger] after.nodes@[i] == before.nodes@[i]
            &&& after.nodes@[before.files as int] is Some
            &&& after.nodes@[before.files as int]->0.offset == 0
            &&& after.nodes@[before.files as int]->0.node@ == through_mount(mounts, n)
        },
    }
}

/// The outcome of closing descriptor `fd`: the terminal's cannot be
/// closed (-1); closing one that is not open gives -1; else its node is
/// handed to the file system's `close` (which turns `fs0` into `fs1`), it
/// is gone, `files` goes down by one, and the result is 0.
pub open spec fn closed<F: FileSystem>(fs0: F, fs1: F, before: ProcData, after: ProcData, fd: usize, r: isize) -> bool {
    &&& fs1 == (if fd >= STDIO_FILES && before.nodes@[fd as int] is Some {
        fs0.close_of(before.nodes@[fd as int]->0.node@)
    } else {
        fs0
    })
    &&& after.cwd == before.cwd
    &&& fd < STDIO_FILES ==> r == -1 && after.nodes@ == before.nodes@ && after.files == before.files
    &&& fd >= STDIO_FILES && before.nodes@[fd as int] is None ==> r == -1 && after.nodes@
        == before.nodes@ && after.files == before.files
    &&& fd >= STDIO_FILES && before.nodes@[fd as int] is Some ==> r == 0 && after.nodes@
        == before.nodes@.update(fd as int, None) && after.files == before.files - 1
}

/// The outcome of changing the working directory to `path`: it succeeds
/// exactly when `path` resolves to a directory or mount point, which then
/// becomes the working directory; the open files do not change.
pub open spec fn cwd_set<F: FileSystem>(
    fs: F,
    mounts: Seq<Option<MountPoint>>,
    before: ProcData,
    after: ProcData,
    path: Seq<u8>,
    ok: bool,
) -> bool {
    &&& after.nodes == before.nodes
    &&& after.files == before.files
    &&& match canonical(before.cwd@, path) {
        Some(c) => if dir_or_mnt(fs, mounts, c) {
            ok && after.cwd@ == c
        } else {
            !ok && after.cwd@ == before.cwd@
        },
        None => !ok && after.cwd@ == before.cwd@,
    }
}

/// The outcome of copying the working directory `cwd` into a buffer: -1
/// and no change if it does not fit, else its length and the buffer
/// starting with it.
pub open spec fn cwd_copied(cwd: Seq<u8>, before: Seq<u8>, after: Seq<u8>, r: isize) -> bool {
    &&& cwd.len() > before.len() ==> r == -1 && after == before
    &&& cwd.len() <= before.len() ==> r == cwd.len() as isize && after == cwd + before.skip(
        cwd.len() as int,
    )
}

/// The outcome of a read or write on open file `fd` whose file-system call
/// gave `res`: -1 with nothing changed when it failed; else the count,
/// with the position of `fd` moved on by it (wrapping past the largest
/// machine word) and every other descriptor unchanged.
pub open spec fn transferred(
    before: Seq<Option<FileDescriptor>>,
    after: Seq<Option<FileDescriptor>>,
    fd: int,
    res: Option<usize>,
    r: isize,
) -> bool {
    match res {
        None => r == -1 && after == before,
        Some(v) => {
            &&& r == v as isize
            &&& after.len() == before.len()
            &&& after[fd] is Some
            &&& after[fd]->0.node == before[fd]->0.node
            &&& after[fd]->0.offset == (before[fd]->0.offset + v) % (usize::MAX as int + 1)
            &&& forall|i: int| 0 <= i < before.len() && i != fd ==> #[trigger] after[i] == before[i]
        },
    }
}


/// A request to the virtual file system from a process. Reads, directory
/// listings and the working directory go into the caller's buffer; writes
/// come from it.
pub enum VFSRequest {
    Open(Vec<u8>),
    Close(usize),
    Read(usize),
    Write(usize),
    ReadDir(usize, usize),
    Mount { path: Vec<u8>, dev: usize, fs: usize },
    GetCwd,
    SetCwd(Vec<u8>),
}

/// The request can be served: descriptors index the table, mounting is
/// privileged and succeeds, and paths can be walked.
pub open spec fn request_ok<F: FileSystem>(
    fs: F,
    mounts: Seq<Option<MountPoint>>,
    d: ProcData,
    privileged: bool,
    request: VFSRequest,
) -> bool {
    match request {
        VFSRequest::Open(p) => can_open(fs, mounts, d, p@),
        VFSRequest::Close(fd) => fd >= STDIO_FILES ==> fd < MAX_FILES,
        VFSRequest::Read(fd) => fd < MAX_FILES,
        VFSRequest::Write(fd) => fd < MAX_FILES,
        VFSRequest::ReadDir(fd, _) => fd < MAX_FILES,
        VFSRequest::Mount { path, dev, fs: id } => privileged && absolute(path@) && mount_ok(
            fs,
            root_view(),
            mount_path(path@),
        ) && mount_succeeds(fs, mounts, path@, id),
        VFSRequest::GetCwd => true,
        VFSRequest::SetCwd(p) => absolute(d.cwd@) && (absolute(p@) ==> locate_ok(fs, mounts, root_view(), stripped(p@))),
    }
}

/// The outcome of listing entry `i` of directory `node` into a buffer: -1
/// if it is no directory, 0 past the last entry, else 1 and the buffer
/// starting with as much of the name as fits.
pub open spec fn listed(entries: Option<Seq<Seq<u8>>>, i: usize, before: Seq<u8>, after: Seq<u8>, r: isize) -> bool {
    match entries {
        None => r == -1 && after == before,
        Some(es) => if i >= es.len() {
            r == 0 && after == before
        } else {
            let name = es[i as int];
            let n = if name.len() < before.len() {
                name.len()
            } else {
                before.len()
            };
            r == 1 && after == name.take(n as int) + before.skip(n as int)
        },
    }
}

/// The virtual file system's entry point for processes.
pub struct VFS;

impl VFS {
    /// Serves `request` for the process whose data is `proc_data`.
    pub fn handle_module_call<F: FileSystem>(
        &self,
        fs: &mut F,
        mounts: &mut Vec<Option<MountPoint>>,
        proc_data: &mut ProcData,
        privileged: bool,
        request: VFSRequest,
        buf: &mut [u8],
    ) -> (r: isize)
        requires
            old(proc_data).wf(),
            request_ok(*old(fs), old(mounts)@, *old(proc_data), privileged, request),
        ensures
            final(proc_data).wf(),
            !(request is Mount || request is Close) ==> *final(fs) == *old(fs),
            !(request is Mount) ==> final(mounts)@ == old(mounts)@,
            !(request is Read || request is ReadDir || request is GetCwd) ==> final(buf)@ == old(buf)@,
            !(request is SetCwd) ==> final(proc_data).cwd == old(proc_data).cwd,
            !(request is Open || request is Close || request is Read || request is Write)
                ==> final(proc_data).nodes == old(proc_data).nodes && final(proc_data).files == old(proc_data).files,
            request matches VFSRequest::Open(p) ==> opened(
                open_target(*old(fs), old(mounts)@, old(proc_data).cwd@, p@),
                old(mounts)@,
                *old(proc_data),
                *final(proc_data),
                r,
            ),
            request matches VFSRequest::Close(fd) ==> closed(*old(fs), *final(fs), *old(proc_data), *final(proc_data), fd, r),
            request matches VFSRequest::Read(fd) ==> final(proc_data).files == old(proc_data).files
                && match old(proc_data).nodes@[fd as int] {
                None => r == -1 && final(proc_data).nodes@ == old(proc_data).nodes@ && final(buf)@ == old(buf)@,
                Some(d) => exists|res: Option<usize>|
                    old(fs).read_gives(d.node@, d.offset, old(buf)@, res, final(buf)@)
                        && #[trigger] transferred(old(proc_data).nodes@, final(proc_data).nodes@, fd as int, res, r),
            },
            request matches VFSRequest::Write(fd) ==> final(proc_data).files == old(proc_data).files
                && match old(proc_data).nodes@[fd as int] {
                None => r == -1 && final(proc_data).nodes@ == old(proc_data).nodes@,
                Some(d) => exists|res: Option<usize>|
                    old(fs).write_gives(d.node@, d.offset, old(buf)@, res)
                        && #[trigger] transferred(old(proc_data).nodes@, final(proc_data).nodes@, fd as int, res, r),
            },
            request matches VFSRequest::ReadDir(fd, i) ==> match old(proc_data).nodes@[fd as int] {
                None => r == -1 && final(buf)@ == old(buf)@,
                Some(d) => listed(old(fs).entries_of(d.node@), i, old(buf)@, final(buf)@, r),
            },
            request matches VFSRequest::Mount { path, dev, fs: id } ==> r == 0 && mount_outcome(
                *old(fs),
                old(mounts)@,
                final(mounts)@,
                path@,
                dev,
                id,
                view_of_root(*old(fs), old(mounts)@, path@, id),
            ),
            request is GetCwd ==> cwd_copied(old(proc_data).cwd@, old(buf)@, final(buf)@, r),
            request matches VFSRequest::SetCwd(p) ==> (r == 0 || r == -1) && cwd_set(
                *old(fs),
                old(mounts)@,
                *old(proc_data),
                *final(proc_data),
                p@,
                r == 0,
            ),
    {
        match request {
            VFSRequest::Open(path) => {
                proc_data.open_file(fs, mounts, path.as_slice())
            },
            VFSRequest::Close(fd) => proc_data.close_file(fs, fd),
            VFSRequest::Read(fd) => proc_data.read_file(fs, fd, buf),
            VFSRequest::Write(fd) => proc_data.write_file(fs, fd, buf),
            VFSRequest::ReadDir(fd, i) => {
                let node = match &proc_data.nodes[fd] {
                    Some(d) => d.node.duplicate(),
                    None => return -1,
                };
                match fs.read_dir(&node) {
                    Some(entries) => {
                        if i >= entries.len() {
                            0
                        } else {
                            copy_prefix(&entries[i], buf);
                            1
                        }
                    },
                    None => -1,
                }
            },
            VFSRequest::Mount { path, dev, fs: id } => {
                let _ = vfs_mount(fs, mounts, path.as_slice(), dev, id);
                0
            },
            VFSRequest::GetCwd => proc_data.get_cwd(buf),
            VFSRequest::SetCwd(path) => match proc_data.set_cwd(fs, mounts, path.as_slice()) {
                Ok(_) => 0,
                Err(_) => -1,
            },
        }
    }
}

/// The root that mounting file system `id` at `path` gives, when it
/// succeeds.
pub open spec fn view_of_root<F: FileSystem>(
    fs: F,
    mounts: Seq<Option<MountPoint>>,
    path: Seq<u8>,
    id: usize,
) -> Option<NodeView> {
    match crate::vfs::first_free(mounts) {
        Some(i) => match crate::vfs::mount_result(fs, crate::vfs::root_view(), mount_path(path), id, i as usize) {
            Some((_, root)) => Some(root),
            None => None,
        },
        None => None,
    }
}

/// Copies as much of `src` as fits to the start of `buf`.
fn copy_prefix(src: &Vec<u8>, buf: &mut [u8])
    ensures
        ({
            let n = if src@.len() < old(buf)@.len() {
                src@.len()
            } else {
                old(buf)@.len()
            };
            final(buf)@ == src@.take(n as int) + old(buf)@.skip(n as int)
        }),
{
    let n = if src.len() < buf.len() {
        src.len()
    } else {
        buf.len()
    };
    let mut i: usize = 0;
    while i < n
        invariant
            n <= src@.len(),
            n <= old(buf)@.len(),
            i <= n,
            buf@.len() == old(buf)@.len(),
            buf@ == src@.take(i as int) + old(buf)@.skip(i as int),
        decreases n - i,
    {
        buf[i] = src[i];
        proof {
            assert(buf@ =~= src@.take(i + 1) + old(buf)@.skip(i + 1));
        }
        i = i + 1;
    }
}

} // verus!
