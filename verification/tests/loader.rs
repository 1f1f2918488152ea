use proton::address::{Address, Physical};
use proton::elf::{load_elf, page_image, parse_elf, plan_image, ElfError, UserTask, USER_STACK_END, USER_STACK_PAGES, USER_STACK_START};
use proton::memory::PageFlags;
use proton::page::{Frame, Page, Size4K};
use proton::page_table::PageTable;
use proton::physical::PhysicalMemory;

fn frame(v: usize) -> Frame {
    Page::new(Address::<Physical>::new(v))
}

fn put(buf: &mut Vec<u8>, at: usize, bytes: &[u8]) {
    buf[at..at + bytes.len()].copy_from_slice(bytes);
}

/// A 64-bit ELF file with the given program headers: (type, offset, vaddr, filesz).
fn elf64(entry: u64, headers: &[(u32, u64, u64, u64)], len: usize) -> Vec<u8> {
    let mut b = vec![0u8; len];
    put(&mut b, 0, &[0x7f, b'E', b'L', b'F', 2, 1, 1]);
    put(&mut b, 0x10, &2u16.to_le_bytes());
    put(&mut b, 0x12, &0xb7u16.to_le_bytes());
    put(&mut b, 0x14, &1u32.to_le_bytes());
    put(&mut b, 0x18, &entry.to_le_bytes());
    put(&mut b, 0x20, &64u64.to_le_bytes());
    put(&mut b, 0x34, &64u16.to_le_bytes());
    put(&mut b, 0x36, &56u16.to_le_bytes());
    put(&mut b, 0x38, &(headers.len() as u16).to_le_bytes());
    for (i, h) in headers.iter().enumerate() {
        let at = 64 + i * 56;
        put(&mut b, at, &h.0.to_le_bytes());
        put(&mut b, at + 8, &h.1.to_le_bytes());
        put(&mut b, at + 16, &h.2.to_le_bytes());
        put(&mut b, at + 24, &h.2.to_le_bytes());
        put(&mut b, at + 32, &h.3.to_le_bytes());
        put(&mut b, at + 40, &h.3.to_le_bytes());
    }
    b
}

#[test]
fn plan_covers_all_load_segments() {
    let data = elf64(0x400000, &[(1, 0xe8, 0x400000, 0x10), (4, 0, 0, 0), (1, 0xf8, 0x402ff8, 0x8)], 0x100);
    let plan = load_elf(&data).unwrap();
    assert_eq!(plan.entry, 0x400000);
    assert_eq!(plan.start, 0x400000);
    assert_eq!(plan.end, 0x403000);
    assert_eq!(plan.pages, 3);
    assert_eq!(plan.copies.len(), 2);
    assert_eq!(plan.copies[1].vaddr, 0x402ff8);
    assert_eq!(plan.copies[1].offset, 0xf8);
}

#[test]
fn segment_bytes_land_in_their_pages() {
    let mut data = elf64(0x400000, &[(1, 0xe8, 0x400000, 0x10), (1, 0xf0, 0x400004, 0x4), (1, 0xf8, 0x402ffc, 0x8)], 0x100);
    for (i, b) in data.iter_mut().enumerate().skip(0xe8) {
        *b = i as u8;
    }
    let plan = load_elf(&data).unwrap();
    let first = page_image(&data, &plan, 0);
    assert_eq!(first.len(), 4096);
    assert_eq!(first[0], Some(0xe8));
    assert_eq!(first[3], Some(0xeb));
    // The later segment overwrites the bytes it shares with the earlier one.
    assert_eq!(first[4], Some(0xf0));
    assert_eq!(first[7], Some(0xf3));
    assert_eq!(first[8], Some(0xf0));
    assert_eq!(first[0xf], Some(0xf7));
    assert_eq!(first[0x10], None);
    let middle = page_image(&data, &plan, 1);
    assert!(middle.iter().all(|b| b.is_none()));
    let last = page_image(&data, &plan, 2);
    assert_eq!(last[0xffb], None);
    assert_eq!(last[0xffc], Some(0xf8));
    assert_eq!(last[0xfff], Some(0xfb));
    assert_eq!(plan.pages, 4);
    let next = page_image(&data, &plan, 3);
    assert_eq!(next[0], Some(0xfc));
    assert_eq!(next[3], Some(0xff));
    assert_eq!(next[4], None);
}

#[test]
fn plan_rounds_to_pages() {
    let data = elf64(0x401234, &[(1, 0xb0, 0x401234, 0x20)], 0x100);
    let plan = load_elf(&data).unwrap();
    assert_eq!(plan.start, 0x401000);
    assert_eq!(plan.end, 0x402000);
    assert_eq!(plan.pages, 1);
}

#[test]
fn loader_errors() {
    let mut bad = elf64(0, &[(1, 0, 0, 0)], 0x100);
    bad[1] = b'X';
    assert_eq!(load_elf(&bad).err(), Some(ElfError::Parse));
    let mut elf32 = elf64(0, &[], 0x100);
    elf32[4] = 1;
    assert_eq!(load_elf(&elf32).err(), Some(ElfError::Elf32));
    let none = elf64(0, &[(4, 0, 0, 0)], 0x100);
    assert_eq!(load_elf(&none).err(), Some(ElfError::NoLoadSegment));
    let short = elf64(0, &[(1, 0xf0, 0x1000, 0x20)], 0x100);
    assert_eq!(load_elf(&short).err(), Some(ElfError::Truncated));
    let high = elf64(0, &[(1, 0, 0xffff_ffff_ffff_f800, 0x10)], 0x100);
    assert_eq!(load_elf(&high).err(), Some(ElfError::Overflow));
    assert_eq!(load_elf(&[1, 2, 3]).err(), Some(ElfError::Parse));
}

#[test]
fn user_stack_layout() {
    assert_eq!(USER_STACK_START, 0x111900000);
    assert_eq!(USER_STACK_END, USER_STACK_START + USER_STACK_PAGES * 4096);
}

#[test]
fn program_and_stack_get_mapped() {
    let data = elf64(0x400000, &[(1, 0xe8, 0x400000, 0x10), (1, 0xf8, 0x402ff8, 0x8)], 0x100);
    let task = UserTask::new(data);
    let plan = task.load_elf().unwrap();
    let mut mem = PhysicalMemory::new();
    mem.init(&vec![frame(0x100000)..frame(0x140000)]);
    let mut pt = PageTable::new();
    let code = task.map_program(&mut pt, &plan, &mut mem).unwrap();
    assert_eq!(code.len(), 3);
    let before = mem.free_byte_count();
    let stack = UserTask::setup_user_stack(&mut pt, &mut mem).unwrap();
    assert_eq!(stack.len(), USER_STACK_PAGES as usize);
    // Four stack frames, and two new tables below the level-3 table the
    // program's pages already use.
    assert_eq!(mem.free_byte_count(), before - 6 * 4096);
}

#[test]
fn user_address_space_shares_the_kernel_entry() {
    let mut mem = PhysicalMemory::new();
    mem.init(&vec![frame(0x100000)..frame(0x140000)]);
    let mut kernel = PageTable::new();
    let kpage = Page::<Size4K>::new(proton::address::Address::new(0x8000_0000));
    kernel.map_pages(kpage, 1, PageFlags::present(), &mut mem).unwrap();
    let mut user = UserTask::setup_user_pagetable(&kernel, 0x8000_0000);
    let before = mem.free_byte_count();
    // The tables above the kernel's pages came with the copied entry.
    user.map_pages(Page::new(proton::address::Address::new(0x8000_1000)), 1, PageFlags::present(), &mut mem).unwrap();
    assert_eq!(mem.free_byte_count(), before - 4096);
    // Elsewhere the user table starts empty.
    user.map_pages(Page::new(proton::address::Address::new(0x80_0000_0000)), 1, PageFlags::present(), &mut mem).unwrap();
    assert_eq!(mem.free_byte_count(), before - 5 * 4096);
}

#[test]
fn headers_read_at_any_offset() {
    // A program header table at an odd offset is read all the same.
    let mut data = elf64(0x400000, &[], 0x200);
    put(&mut data, 0x20, &65u64.to_le_bytes());
    put(&mut data, 0x38, &1u16.to_le_bytes());
    put(&mut data, 65, &1u32.to_le_bytes());
    put(&mut data, 65 + 8, &0x100u64.to_le_bytes());
    put(&mut data, 65 + 16, &0x400000u64.to_le_bytes());
    put(&mut data, 65 + 32, &0x10u64.to_le_bytes());
    let img = parse_elf(&data).unwrap();
    assert!(img.is64);
    assert_eq!(img.entry, 0x400000);
    assert_eq!(img.segments.len(), 1);
    assert_eq!(img.segments[0].offset, 0x100);
    assert_eq!(img.segments[0].vaddr, 0x400000);
    assert!(img.segments[0].load);
    let plan = plan_image(&img, 0x200).unwrap();
    assert_eq!(plan.pages, 1);
    assert_eq!(plan_image(&img, 0x104).err(), Some(ElfError::Truncated));
    // A table that runs past the end of the file holds no headers.
    put(&mut data, 0x38, &10u16.to_le_bytes());
    assert_eq!(parse_elf(&data).unwrap().segments.len(), 0);
    assert_eq!(load_elf(&data).err(), Some(ElfError::NoLoadSegment));
}
