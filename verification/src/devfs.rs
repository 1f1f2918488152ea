//! The device file system, mounted at `/dev`: one file per registered
//! device. Beside it, the file systems of the kernel as one whole that
//! hands each request to the file system a node belongs to.
use vstd::prelude::*;
use crate::rootfs::{find, join, read_count, KindView, RootFS};
use crate::vfs::{FileSystem, Node, NodeView, Stat};

verus! {

/// The number of the device file system.
pub const DEV_FS: usize = 1;

/// The path the device file system is mounted at.
pub open spec fn dev_path() -> Seq<u8> {
    seq![0x2fu8, 0x64, 0x65, 0x76]
}

/// A device that can be read and written as a file.
pub trait Device {
    /// Reads from the device at `offset` into `buf`.
    fn read(&self, offset: usize, buf: &mut [u8]) -> (r: Option<usize>)
        ensures
            final(buf)@.len() == old(buf)@.len(),
    ;

    /// Writes `buf` to the device at `offset`.
    fn write(&self, offset: usize, buf: &[u8]) -> (r: Option<usize>);
}

/// A registered device: its name and the device.
pub struct DevEntry<D: Device> {
    pub name: Vec<u8>,
    pub device: D,
}

/// The device file system.
pub struct DevFS<D: Device> {
    pub devices: Vec<DevEntry<D>>,
}

/// Whether a device of name `name` is registered.
pub open spec fn has_device<D: Device>(devices: Seq<DevEntry<D>>, name: Seq<u8>) -> bool {
    exists|i: int| 0 <= i < devices.len() && #[trigger] devices[i].name@ == name
}

fn same_bytes(a: &[u8], b: &[u8]) -> (r: bool)
    ensures
        r == (a@ == b@),
{
    if a.len() != b.len() {
        return false;
    }
    let mut i: usize = 0;
    while i < a.len()
        invariant
            i <= a@.len(),
            a@.len() == b@.len(),
            forall|k: int| 0 <= k < i ==> a@[k] == b@[k],
        decreases a@.len() - i,
    {
        if a[i] != b[i] {
            return false;
        }
        i = i + 1;
    }
    proof {
        assert(a@ =~= b@);
    }
    true
}

impl<D: Device> DevFS<D> {
    /// A device file system with no devices.
    pub fn new() -> (r: Self)
        ensures
            r.devices@.len() == 0,
    {
        DevFS { devices: Vec::new() }
    }

    /// Registers `device` under `name`, in place of a device registered
    /// under that name before.
    pub fn register(&mut self, name: Vec<u8>, device: D)
        ensures
            has_device(final(self).devices@, name@),
            has_device(old(self).devices@, name@) ==> final(self).devices@.len() == old(self).devices@.len(),
            !has_device(old(self).devices@, name@) ==> final(self).devices@ == old(self).devices@.push(
                (DevEntry { name, device }),
            ),
            forall|n: Seq<u8>| n != name@ ==> (has_device(final(self).devices@, n) <==> has_device(old(self).devices@, n)),
    {
        match self.find(name.as_slice()) {
            Some(i) => {
                let ghost old_devices = self.devices@;
                let ghost nm = name@;
                self.devices.set(i, DevEntry { name, device });
                proof {
                    assert(self.devices@[i as int].name@ == nm);
                    assert forall|n: Seq<u8>| n != nm implies (has_device(self.devices@, n) <==> has_device(old_devices, n)) by {
                        if has_device(self.devices@, n) {
                            let k = choose|k: int| 0 <= k < self.devices@.len() && #[trigger] self.devices@[k].name@ == n;
                            assert(k != i);
                            assert(old_devices[k].name@ == n);
                        }
                        if has_device(old_devices, n) {
                            let k = choose|k: int| 0 <= k < old_devices.len() && #[trigger] old_devices[k].name@ == n;
                            assert(old_devices[i as int].name@ == nm);
                            assert(k != i);
                            assert(self.devices@[k].name@ == n);
                        }
                    }
                }
            },
            None => {
                let ghost old_devices = self.devices@;
                let ghost nm = name@;
                self.devices.push(DevEntry { name, device });
                proof {
                    let last = (self.devices@.len() - 1) as int;
                    assert(self.devices@[last].name@ == nm);
                    assert forall|n: Seq<u8>| n != nm implies (has_device(self.devices@, n) <==> has_device(old_devices, n)) by {
                        if has_device(self.devices@, n) {
                            let k = choose|k: int| 0 <= k < self.devices@.len() && #[trigger] self.devices@[k].name@ == n;
                            assert(k != last);
                            assert(old_devices[k].name@ == n);
                        }
                        if has_device(old_devices, n) {
                            let k = choose|k: int| 0 <= k < old_devices.len() && #[trigger] old_devices[k].name@ == n;
                            assert(self.devices@[k].name@ == n);
                        }
                    }
                }
            },
        }
    }

    /// The index of the first device named `name`.
    fn find(&self, name: &[u8]) -> (r: Option<usize>)
        ensures
            match r {
                Some(i) => i < self.devices@.len() && self.devices@[i as int].name@ == name@,
                None => !has_device(self.devices@, name@),
            },
    {
        let mut i: usize = 0;
        while i < self.devices.len()
            invariant
                i <= self.devices@.len(),
                forall|k: int| 0 <= k < i ==> #[trigger] self.devices@[k].name@ != name@,
            decreases self.devices@.len() - i,
        {
            if same_bytes(self.devices[i].name.as_slice(), name) {
                return Some(i);
            }
            i = i + 1;
        }
        None
    }

    /// What `stat` says of `entry` in `parent`: a plain file, when
    /// `parent` is `/dev` and the device is registered.
    pub open spec fn stat_spec(&self, parent: NodeView, entry: Seq<u8>) -> Option<Stat> {
        if parent.path == dev_path() && has_device(self.devices@, entry) {
            Some(Stat { fs: DEV_FS, mount: None, is_dir: false })
        } else {
            None
        }
    }

    /// What `open` gives for `entry` in `parent`: the device's file, when
    /// the device is registered.
    pub open spec fn open_spec(&self, parent: NodeView, entry: Seq<u8>) -> Option<NodeView> {
        if has_device(self.devices@, entry) {
            Some(
                NodeView {
                    name: entry,
                    path: join(parent.path, entry),
                    fs: DEV_FS,
                    mount: None,
                    block: 0,
                    offset: 0,
                },
            )
        } else {
            None
        }
    }

    pub fn stat(&self, parent: &Node, entry: &[u8]) -> (r: Option<Stat>)
        ensures
            r == self.stat_spec(parent@, entry@),
    {
        let dev: [u8; 4] = [0x2f, 0x64, 0x65, 0x76];
        proof {
            assert(dev@ =~= dev_path());
        }
        if !same_bytes(parent.path.as_slice(), dev.as_slice()) {
            return None;
        }
        match self.find(entry) {
            Some(_) => Some(Stat { fs: DEV_FS, mount: None, is_dir: false }),
            None => None,
        }
    }

    pub fn open(&self, parent: &Node, entry: &[u8]) -> (r: Option<Node>)
        ensures
            match r {
                Some(n) => self.open_spec(parent@, entry@) == Some(n@),
                None => self.open_spec(parent@, entry@) is None,
            },
    {
        match self.find(entry) {
            Some(_) => {
                let mut path = parent.path.clone();
                path.push(0x2f);
                let mut i: usize = 0;
                let ghost base = path@;
                proof {
                    assert(base =~= parent.path@ + seq![0x2fu8]);
                }
                while i < entry.len()
                    invariant
                        i <= entry@.len(),
                        path@ == base + entry@.take(i as int),
                    decreases entry@.len() - i,
                {
                    path.push(entry[i]);
                    proof {
                        assert(entry@.take(i + 1) =~= entry@.take(i as int).push(entry@[i as int]));
                    }
                    i = i + 1;
                }
                proof {
                    assert(entry@.take(i as int) =~= entry@);
                }
                let name = crate::vfs::copy_range(entry, 0, entry.len());
                proof {
                    assert(name@ =~= entry@);
                }
                Some(Node { name, path, fs: DEV_FS, mount: None, block: 0, offset: 0 })
            },
            None => None,
        }
    }

    /// Whether reading the device a node names may give `r` and leave the
    /// buffer holding `after`: the buffer keeps its length, and nothing is
    /// read when no device of that name is registered.
    pub open spec fn read_gives(&self, node: NodeView, buf: Seq<u8>, r: Option<usize>, after: Seq<u8>) -> bool {
        &&& after.len() == buf.len()
        &&& !has_device(self.devices@, node.name) ==> r is None && after == buf
    }

    /// Whether writing to the device a node names may give `r`: nothing is
    /// written when no device of that name is registered.
    pub open spec fn write_gives(&self, node: NodeView, r: Option<usize>) -> bool {
        !has_device(self.devices@, node.name) ==> r is None
    }

    /// Reads the device a node names; `None` if it is not registered.
    pub fn read(&self, node: &Node, offset: usize, buf: &mut [u8]) -> (r: Option<usize>)
        ensures
            final(buf)@.len() == old(buf)@.len(),
            self.read_gives(node@, old(buf)@, r, final(buf)@),
    {
        match self.find(node.name.as_slice()) {
            Some(i) => self.devices[i].device.read(offset, buf),
            None => None,
        }
    }

    /// Writes to the device a node names; `None` if it is not registered.
    pub fn write(&self, node: &Node, offset: usize, buf: &[u8]) -> (r: Option<usize>)
        ensures
            self.write_gives(node@, r),
    {
        match self.find(node.name.as_slice()) {
            Some(i) => self.devices[i].device.write(offset, buf),
            None => None,
        }
    }
}

/// The kernel's file systems: the root file system and the device file
/// system. Each request goes to the file system of the node it is about.
pub struct FileSystems<D: Device> {
    pub root: RootFS,
    pub dev: DevFS<D>,
}

impl<D: Device> FileSystem for FileSystems<D> {
    open spec fn stat_of(&self, parent: NodeView, entry: Seq<u8>) -> Option<Stat> {
        if parent.fs == DEV_FS {
            self.dev.stat_spec(parent, entry)
        } else {
            self.root.stat_of(parent, entry)
        }
    }

    open spec fn open_of(&self, parent: NodeView, entry: Seq<u8>) -> Option<NodeView> {
        if parent.fs == DEV_FS {
            self.dev.open_spec(parent, entry)
        } else {
            self.root.open_of(parent, entry)
        }
    }

    open spec fn entries_of(&self, node: NodeView) -> Option<Seq<Seq<u8>>> {
        if node.fs == DEV_FS {
            None
        } else {
            self.root.entries_of(node)
        }
    }

    open spec fn mount_of(&self, parent: NodeView, entry: Seq<u8>, key: usize) -> Option<NodeView> {
        if parent.fs == DEV_FS {
            None
        } else {
            self.root.mount_of(parent, entry, key)
        }
    }

    fn stat(&self, parent: &Node, entry: &[u8]) -> (r: Option<Stat>) {
        if parent.fs == DEV_FS {
            self.dev.stat(parent, entry)
        } else {
            self.root.stat(parent, entry)
        }
    }

    fn open(&self, parent: &Node, entry: &[u8]) -> (r: Option<Node>) {
        if parent.fs == DEV_FS {
            self.dev.open(parent, entry)
        } else {
            self.root.open(parent, entry)
        }
    }

    /// Closing a file changes nothing here.
    open spec fn close_of(&self, node: NodeView) -> Self {
        *self
    }

    fn close(&mut self, node: &Node) {
    }

    open spec fn read_gives(&self, node: NodeView, offset: usize, buf: Seq<u8>, r: Option<usize>, after: Seq<u8>) -> bool {
        if node.fs == DEV_FS {
            self.dev.read_gives(node, buf, r, after)
        } else {
            self.root.read_gives(node, offset, buf, r, after)
        }
    }

    open spec fn write_gives(&self, node: NodeView, offset: usize, buf: Seq<u8>, r: Option<usize>) -> bool {
        if node.fs == DEV_FS {
            self.dev.write_gives(node, r)
        } else {
            self.root.write_gives(node, offset, buf, r)
        }
    }

    fn read(&self, node: &Node, offset: usize, buf: &mut [u8]) -> (r: Option<usize>) {
        if node.fs == DEV_FS {
            self.dev.read(node, offset, buf)
        } else {
            self.root.read(node, offset, buf)
        }
    }

    fn write(&self, node: &Node, offset: usize, buf: &[u8]) -> (r: Option<usize>) {
        if node.fs == DEV_FS {
            self.dev.write(node, offset, buf)
        } else {
            self.root.write(node, offset, buf)
        }
    }

    fn read_dir(&self, node: &Node) -> (r: Option<Vec<Vec<u8>>>) {
        if node.fs == DEV_FS {
            None
        } else {
            self.root.read_dir(node)
        }
    }

    fn mount(&mut self, parent: &Node, entry: &[u8], key: usize) -> (r: Option<Node>) {
        if parent.fs == DEV_FS {
            None
        } else {
            self.root.mount(parent, entry, key)
        }
    }
}

} // verus!
