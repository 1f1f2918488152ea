use proton::path::canonicalize;
use proton::proc_data::{ProcData, VFSRequest, VFS};
use proton::rootfs::{EntryKind, RootFS};
use proton::vfs::{
    dir_or_mnt_exists, root_node, split_once, trim_bounds, vfs_locate_node_from_path, vfs_mount,
    vfs_open, FileSystem, MountPoint,
};

fn sample_fs() -> RootFS {
    let mut fs = RootFS::new();
    fs.add(b"/etc".to_vec(), EntryKind::Dir);
    fs.add(b"/etc/hello.txt".to_vec(), EntryKind::File(b"Hello world from file!".to_vec()));
    fs.add(b"/home".to_vec(), EntryKind::Dir);
    fs.add(b"/home/user".to_vec(), EntryKind::Dir);
    fs.add(b"/dev".to_vec(), EntryKind::Dir);
    fs.add(b"/dev/tty.serial".to_vec(), EntryKind::File(Vec::new()));
    fs
}

fn no_mounts() -> Vec<Option<MountPoint>> {
    (0..32).map(|_| None).collect()
}

#[test]
fn canonicalize_relative_paths() {
    assert_eq!(canonicalize(b"/home/user", b"docs/../notes/./a.txt"), Ok(b"/home/user/notes/a.txt".to_vec()));
    assert_eq!(canonicalize(b"/", b"a//b/"), Ok(b"/a/b".to_vec()));
    assert_eq!(canonicalize(b"/home", b".."), Ok(b"/".to_vec()));
    assert_eq!(canonicalize(b"/", b".."), Err(()));
    assert_eq!(canonicalize(b"/home", b""), Ok(b"/home".to_vec()));
}

#[test]
fn canonicalize_keeps_absolute_paths() {
    assert_eq!(canonicalize(b"/home", b"/etc/../x"), Ok(b"/etc/../x".to_vec()));
}

#[test]
fn split_at_first_slash() {
    assert_eq!(split_once(b"etc/hello.txt"), (b"etc".to_vec(), b"hello.txt".to_vec()));
    assert_eq!(split_once(b"etc"), (b"etc".to_vec(), Vec::new()));
    assert_eq!(split_once(b"a/b/c"), (b"a".to_vec(), b"b/c".to_vec()));
}

#[test]
fn trim_unicode_white_space() {
    let s = " \t/etc\u{a0}\u{3000}".as_bytes();
    let (lo, hi) = trim_bounds(s);
    assert_eq!(&s[lo..hi], b"/etc");
    let all = "  \u{2003} ".as_bytes();
    let (lo, hi) = trim_bounds(all);
    assert_eq!(lo, hi);
}

#[test]
fn locate_and_open_files() {
    let fs = sample_fs();
    let mounts = no_mounts();
    let (parent, entry) = vfs_locate_node_from_path(&fs, &mounts, b"/etc/hello.txt").unwrap();
    assert_eq!(parent.path, b"/etc".to_vec());
    assert_eq!(entry, b"hello.txt".to_vec());
    let node = vfs_open(&fs, &mounts, b"/etc/hello.txt").unwrap();
    assert_eq!(node.path, b"/etc/hello.txt".to_vec());
    assert_eq!(node.name, b"hello.txt".to_vec());
    assert!(vfs_open(&fs, &mounts, b"/etc/missing").is_none());
    assert!(vfs_open(&fs, &mounts, b"etc/hello.txt").is_none());
    assert_eq!(vfs_open(&fs, &mounts, b"/").unwrap().name, b"/".to_vec());
    assert_eq!(vfs_open(&fs, &mounts, b"/etc/ ").unwrap().path, b"/etc".to_vec());
    assert!(vfs_open(&fs, &mounts, b" /etc/").is_none());
}

#[test]
fn directories_and_mount_points_exist() {
    let fs = sample_fs();
    let mounts = no_mounts();
    assert!(dir_or_mnt_exists(&fs, &mounts, b"/home/user"));
    assert!(dir_or_mnt_exists(&fs, &mounts, b"/home/user/"));
    assert!(!dir_or_mnt_exists(&fs, &mounts, b"/etc/hello.txt"));
    assert!(!dir_or_mnt_exists(&fs, &mounts, b"/nowhere"));
}

#[test]
fn mounting_a_file_system() {
    let mut fs = sample_fs();
    let mut mounts = no_mounts();
    assert!(vfs_mount(&mut fs, &mut mounts, b"/", 0, 1).is_none());
    let root = vfs_mount(&mut fs, &mut mounts, b"/mnt", 3, 1).unwrap();
    assert_eq!(root.fs, 1);
    assert_eq!(root.mount, None);
    assert_eq!(root.path, b"/mnt".to_vec());
    let m = mounts[0].as_ref().unwrap();
    assert_eq!(m.dev, 3);
    assert_eq!(m.fs, 1);
    assert_eq!(m.parent.mount, Some(0));
    assert!(dir_or_mnt_exists(&fs, &mounts, b"/mnt"));
    assert!(vfs_mount(&mut fs, &mut mounts, b"/etc", 0, 1).is_none());
}

#[test]
fn process_file_table() {
    let mut fs = sample_fs();
    let mounts = no_mounts();
    let mut pd = ProcData::new(&fs, &mounts, b"", Some(&b"/home"[..]));
    assert_eq!(pd.cwd, b"/home".to_vec());
    assert_eq!(pd.files, 3);
    assert!(pd.nodes[0].is_some() && pd.nodes[2].is_some() && pd.nodes[3].is_none());
    let fd = pd.open_file(&fs, &mounts, b"/etc/hello.txt");
    assert_eq!(fd, 3);
    assert_eq!(pd.files, 4);
    let mut buf = [0u8; 8];
    assert_eq!(pd.read_file(&fs, 3, &mut buf), 8);
    assert_eq!(&buf, b"Hello wo");
    assert_eq!(pd.nodes[3].as_ref().unwrap().offset, 8);
    assert_eq!(pd.read_file(&fs, 3, &mut buf), 8);
    assert_eq!(&buf, b"rld from");
    assert_eq!(pd.write_file(&fs, 3, b"x"), -1);
    assert_eq!(pd.read_file(&fs, 5, &mut buf), -1);
    assert_eq!(pd.open_file(&fs, &mounts, b"missing"), -1);
    assert_eq!(pd.close_file(&mut fs, 1), -1);
    assert_eq!(pd.close_file(&mut fs, 3), 0);
    assert_eq!(pd.close_file(&mut fs, 3), -1);
    assert_eq!(pd.files, 3);
}

#[test]
fn process_working_directory() {
    let fs = sample_fs();
    let mounts = no_mounts();
    let mut pd = ProcData::new(&fs, &mounts, b"/", None);
    assert_eq!(pd.set_cwd(&fs, &mounts, b"home/user"), Ok(()));
    assert_eq!(pd.cwd, b"/home/user".to_vec());
    assert_eq!(pd.set_cwd(&fs, &mounts, b"../../etc/hello.txt"), Err(()));
    assert_eq!(pd.cwd, b"/home/user".to_vec());
    assert_eq!(pd.set_cwd(&fs, &mounts, b"../../../.."), Err(()));
    let mut small = [0u8; 4];
    assert_eq!(pd.get_cwd(&mut small), -1);
    let mut buf = [0u8; 16];
    assert_eq!(pd.get_cwd(&mut buf), 10);
    assert_eq!(&buf[..10], b"/home/user");
}

#[test]
fn module_calls() {
    let mut fs = sample_fs();
    let mut mounts = no_mounts();
    let mut pd = ProcData::new(&fs, &mounts, b"/", None);
    let vfs = VFS;
    let mut buf = [0u8; 16];
    let fd = vfs.handle_module_call(&mut fs, &mut mounts, &mut pd, false, VFSRequest::Open(b"etc/hello.txt".to_vec()), &mut buf);
    assert_eq!(fd, 3);
    assert_eq!(vfs.handle_module_call(&mut fs, &mut mounts, &mut pd, false, VFSRequest::Read(3), &mut buf), 16);
    assert_eq!(&buf, b"Hello world from");
    assert_eq!(vfs.handle_module_call(&mut fs, &mut mounts, &mut pd, false, VFSRequest::Write(9), &mut buf), -1);
    let dir = vfs.handle_module_call(&mut fs, &mut mounts, &mut pd, false, VFSRequest::Open(b"/etc".to_vec()), &mut buf);
    assert_eq!(dir, 4);
    let mut names = [0u8; 4];
    assert_eq!(vfs.handle_module_call(&mut fs, &mut mounts, &mut pd, false, VFSRequest::ReadDir(4, 0), &mut names), 1);
    assert_eq!(&names, b"hell");
    assert_eq!(vfs.handle_module_call(&mut fs, &mut mounts, &mut pd, false, VFSRequest::ReadDir(4, 1), &mut names), 0);
    assert_eq!(vfs.handle_module_call(&mut fs, &mut mounts, &mut pd, false, VFSRequest::ReadDir(0, 0), &mut names), -1);
    assert_eq!(vfs.handle_module_call(&mut fs, &mut mounts, &mut pd, false, VFSRequest::SetCwd(b"etc".to_vec()), &mut buf), 0);
    let mut cwd = [0u8; 8];
    assert_eq!(vfs.handle_module_call(&mut fs, &mut mounts, &mut pd, false, VFSRequest::GetCwd, &mut cwd), 4);
    assert_eq!(&cwd[..4], b"/etc");
    assert_eq!(vfs.handle_module_call(&mut fs, &mut mounts, &mut pd, true, VFSRequest::Mount { path: b"/mnt".to_vec(), dev: 0, fs: 1 }, &mut buf), 0);
    assert!(mounts[0].is_some());
    assert_eq!(vfs.handle_module_call(&mut fs, &mut mounts, &mut pd, false, VFSRequest::Close(3), &mut buf), 0);
}

#[test]
fn read_text_file() {
    let mut fs = sample_fs();
    let mounts = no_mounts();
    let mut pd = ProcData::new(&fs, &mounts, b"/", None);
    let file = pd.open_file(&fs, &mounts, b"/etc/hello.txt");
    assert!(file >= 3);
    let mut buf = [0u8; 32];
    let len = pd.read_file(&fs, file as usize, &mut buf);
    let s = core::str::from_utf8(&buf[0..len as usize]);
    assert_eq!(s, Ok("Hello world from file!"));
    assert_eq!(pd.close_file(&mut fs, file as usize), 0);
}

#[test]
fn root_ramfs_read_text_file() {
    let fs = sample_fs();
    let etc = vfs_open(&fs, &no_mounts(), b"/etc").unwrap();
    let file = fs.open(&etc, b"hello.txt").unwrap();
    let mut buf = [0u8; 64];
    let n = fs.read(&file, 0, &mut buf).unwrap();
    let s = core::str::from_utf8(&buf[..n]).unwrap();
    assert_eq!(s, "Hello world from file!");
}

#[test]
fn root_directory_listing() {
    let fs = sample_fs();
    let root = root_node();
    let names = fs.read_dir(&root).unwrap();
    assert_eq!(names, vec![b"etc".to_vec(), b"home".to_vec(), b"dev".to_vec()]);
    let home = vfs_open(&fs, &no_mounts(), b"/home").unwrap();
    assert_eq!(fs.read_dir(&home).unwrap(), vec![b"user".to_vec()]);
    let hello = vfs_open(&fs, &no_mounts(), b"/etc/hello.txt").unwrap();
    assert!(fs.read_dir(&hello).is_none());
    let st = fs.stat(&root, b"dev").unwrap();
    assert!(st.is_dir);
    assert_eq!(st.mount, None);
    assert!(fs.stat(&root, b"nothing").is_none());
}

#[test]
fn resolved_paths_resolve_to_themselves() {
    let c = canonicalize(b"/home/user", b"../x/./y").unwrap();
    assert_eq!(c, b"/home/x/y".to_vec());
    assert_eq!(canonicalize(b"/etc", &c), Ok(c.clone()));
    assert!(!c.windows(2).any(|w| w == b"//"));
}

#[test]
fn double_slashes_after_files_and_missing_entries() {
    let fs = sample_fs();
    let mounts = no_mounts();
    // The walk stops at a missing entry or a file before a second slash.
    assert!(vfs_open(&fs, &mounts, b"/missing//x").is_none());
    assert!(!dir_or_mnt_exists(&fs, &mounts, b"/missing//x"));
    let (parent, entry) = vfs_locate_node_from_path(&fs, &mounts, b"/etc/hello.txt//x").unwrap();
    assert_eq!(parent.path, b"/etc".to_vec());
    assert_eq!(entry, b"hello.txt".to_vec());
    // Mounting at a file followed by two slashes mounts at the file.
    let mut fs = sample_fs();
    let mut mounts = no_mounts();
    let root = vfs_mount(&mut fs, &mut mounts, b"/etc/hello.txt//x", 0, 1).unwrap();
    assert_eq!(root.path, b"/etc/hello.txt".to_vec());
    assert!(vfs_mount(&mut fs, &mut mounts, b"/missing//x", 0, 1).is_none());
}
