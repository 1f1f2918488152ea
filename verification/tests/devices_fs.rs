use proton::devfs::{DevFS, Device, FileSystems, DEV_FS};
use proton::kernel::DeviceManager;
use proton::proc_data::ProcData;
use proton::rootfs::{EntryKind, RootFS};
use proton::vfs::{vfs_mount, vfs_open, FileSystem, MountPoint};

/// A device that reads as a repeated letter and accepts any write.
struct Letters(u8);

impl Device for Letters {
    fn read(&self, _offset: usize, buf: &mut [u8]) -> Option<usize> {
        for b in buf.iter_mut() {
            *b = self.0;
        }
        Some(buf.len())
    }
    fn write(&self, _offset: usize, buf: &[u8]) -> Option<usize> {
        Some(buf.len())
    }
}

fn kernel_fs() -> (FileSystems<Letters>, Vec<Option<MountPoint>>) {
    let mut root = RootFS::new();
    root.add(b"/etc".to_vec(), EntryKind::Dir);
    let mut dev = DevFS::new();
    let dm = DeviceManager {};
    assert_eq!(dm.handle_module_call(&mut dev, true, b"tty.serial".to_vec(), Letters(b'a')), 0);
    let mut fs = FileSystems { root, dev };
    let mut mounts: Vec<Option<MountPoint>> = (0..32).map(|_| None).collect();
    let devroot = vfs_mount(&mut fs, &mut mounts, b"/dev", 0, DEV_FS).unwrap();
    assert_eq!(devroot.fs, DEV_FS);
    assert_eq!(devroot.path, b"/dev".to_vec());
    (fs, mounts)
}

#[test]
fn devices_appear_under_dev() {
    let (fs, mounts) = kernel_fs();
    let tty = vfs_open(&fs, &mounts, b"/dev/tty.serial").unwrap();
    assert_eq!(tty.fs, DEV_FS);
    assert_eq!(tty.path, b"/dev/tty.serial".to_vec());
    let mut buf = [0u8; 3];
    assert_eq!(fs.read(&tty, 0, &mut buf), Some(3));
    assert_eq!(&buf, b"aaa");
    assert!(vfs_open(&fs, &mounts, b"/dev/missing").is_none());
}

#[test]
fn processes_get_the_terminal() {
    let (fs, mounts) = kernel_fs();
    let mut pd = ProcData::new(&fs, &mounts, b"/etc", None);
    let mut buf = [0u8; 2];
    assert_eq!(pd.read_file(&fs, 0, &mut buf), 2);
    assert_eq!(&buf, b"aa");
    assert_eq!(pd.write_file(&fs, 1, b"hello"), 5);
    assert_eq!(pd.nodes[1].as_ref().unwrap().offset, 5);
}

#[test]
fn registering_a_device_again_replaces_it() {
    let mut dev: DevFS<Letters> = DevFS::new();
    dev.register(b"x".to_vec(), Letters(b'1'));
    dev.register(b"x".to_vec(), Letters(b'2'));
    assert_eq!(dev.devices.len(), 1);
    assert_eq!(dev.devices[0].device.0, b'2');
}
