use core::ops::Range;
use proton::address::{Address, Physical, Virtual};
use proton::buddy::Buddy;
use proton::memory::PageFlags;
use proton::monotone::Monotone;
use proton::page::{Frame, Page, Size2M, Size4K};
use proton::page_table::{get_index, CpuAction, CpuState, KernelMemoryMapper, MapError, PageTable, PageTables, UserPageTable};
use proton::physical::PhysicalMemory;

fn frame(v: usize) -> Frame {
    Page::new(Address::<Physical>::new(v))
}

#[test]
fn address_arithmetic() {
    let a = Address::<Virtual>::new(0x1000);
    assert!(!a.is_zero());
    assert!(Address::<Virtual>::zero().is_zero());
    assert_eq!(a.add_usize(0x234).as_usize(), 0x1234);
    assert_eq!(a.sub_usize(0x1000).as_usize(), 0);
    assert_eq!(Address::<Virtual>::new(0x5000).diff(a), 0x4000);
    assert_eq!(Address::<Physical>::from_usize(7).as_usize(), 7);
}

#[test]
fn page_alignment() {
    let a = Address::<Virtual>::new(0x1234);
    assert_eq!(Page::<Size4K>::align(a).as_usize(), 0x1000);
    assert_eq!(Page::<Size4K>::align_up(a).as_usize(), 0x2000);
    assert_eq!(Page::<Size4K>::align_up(Address::<Virtual>::new(0x3000)).as_usize(), 0x3000);
    assert!(!Page::<Size4K>::is_aligned(a));
    assert!(Page::<Size4K>::is_aligned(Address::<Virtual>::new(0x7000)));
    assert_eq!(Page::<Size2M>::align(Address::<Virtual>::new(0x3f_ffff)).as_usize(), 0x20_0000);
    let p = Page::<Size4K>::of(a);
    assert_eq!(p.start().as_usize(), 0x1000);
    assert_eq!(p.end().as_usize(), 0x2000);
    assert!(Page::<Size4K>::zero().is_zero());
}

#[test]
fn page_steps() {
    let p = Page::<Size4K>::new(Address::new(0x4000));
    let q = Page::<Size4K>::new(Address::new(0x9000));
    assert_eq!(Page::steps_between(&p, &q), Some(5));
    assert_eq!(Page::steps_between(&q, &p), None);
    assert_eq!(Page::forward_checked(p, 5).unwrap().start().as_usize(), 0x9000);
    assert_eq!(Page::backward_checked(q, 5).unwrap().start().as_usize(), 0x4000);
}

#[test]
fn buddy_splits_and_returns_cells() {
    let mut b = Buddy::new();
    let ranges = vec![frame(0x10000)..frame(0x20000)];
    b.init(&ranges);
    let f1 = b.acquire::<Size4K>().unwrap();
    let f2 = b.acquire::<Size4K>().unwrap();
    assert_eq!(f1.start().as_usize(), 0x10000);
    assert_eq!(f2.start().as_usize(), 0x11000);
    b.release(f1);
    let f3 = b.acquire::<Size4K>().unwrap();
    assert_eq!(f3.start().as_usize(), 0x10000);
}

#[test]
fn buddy_runs_out() {
    let mut b = Buddy::new();
    let ranges = vec![frame(0x10000)..frame(0x12000)];
    b.init(&ranges);
    assert!(b.acquire::<Size4K>().is_some());
    assert!(b.acquire::<Size4K>().is_some());
    assert!(b.acquire::<Size4K>().is_none());
    assert!(b.acquire::<Size2M>().is_none());
}

#[test]
fn buddy_frames_are_distinct_and_aligned() {
    let mut b = Buddy::new();
    let ranges = vec![frame(0x3000)..frame(0x40000)];
    b.init(&ranges);
    let mut seen = Vec::new();
    while let Some(f) = b.acquire::<Size4K>() {
        let v = f.start().as_usize();
        assert_eq!(v % 0x1000, 0);
        assert!(v >= 0x3000 && v < 0x40000);
        assert!(!seen.contains(&v));
        seen.push(v);
    }
    assert_eq!(seen.len(), (0x40000 - 0x3000) / 0x1000);
}

#[test]
fn physical_memory_acquire_release() {
    let mut m = PhysicalMemory::new();
    let ranges = vec![frame(0x100000)..frame(0x104000)];
    m.init(&ranges);
    let a = m.acquire::<Size4K>().unwrap();
    m.release(a);
    let b = m.acquire::<Size4K>().unwrap();
    assert_eq!(a.start().as_usize(), b.start().as_usize());
}

#[test]
fn physical_memory_acquisitions_share_no_byte() {
    let mut m = PhysicalMemory::new();
    let ranges = vec![frame(0x100000)..frame(0x104000)];
    m.init(&ranges);
    let a = m.acquire::<Size4K>().unwrap().start().as_usize();
    let b = m.acquire::<Size4K>().unwrap().start().as_usize();
    let c = m.acquire::<Size4K>().unwrap().start().as_usize();
    for (x, y) in [(a, b), (a, c), (b, c)] {
        assert!(x + 0x1000 <= y || y + 0x1000 <= x);
    }
}

#[test]
fn monotone_hands_out_consecutive_frames() {
    let frames: &'static [Range<Frame>] = Box::leak(vec![frame(0x10000)..frame(0x14000), frame(0x20000)..frame(0x30000)].into_boxed_slice());
    let mut m = Monotone::new();
    m.init(frames);
    let r1 = m.acquire::<Size4K>(2).unwrap();
    assert_eq!(r1.start.start().as_usize(), 0x10000);
    assert_eq!(r1.end.start().as_usize(), 0x12000);
    let r2 = m.acquire::<Size4K>(2).unwrap();
    assert_eq!(r2.start.start().as_usize(), 0x12000);
    let r3 = m.acquire::<Size4K>(1).unwrap();
    assert_eq!(r3.start.start().as_usize(), 0x20000);
}

#[test]
fn page_table_indices() {
    let a = Address::<Virtual>::new(0x0000_7f12_3456_7000);
    assert_eq!(get_index(4, a), (0x0000_7f12_3456_7000usize >> 39) & 0x1ff);
    assert_eq!(get_index(3, a), (0x0000_7f12_3456_7000usize >> 30) & 0x1ff);
    assert_eq!(get_index(2, a), (0x0000_7f12_3456_7000usize >> 21) & 0x1ff);
    assert_eq!(get_index(1, a), (0x0000_7f12_3456_7000usize >> 12) & 0x1ff);
    assert_eq!(UserPageTable::get_index(1, Address::new(0x5000)), 5);
}

#[test]
fn page_table_map_translate_unmap() {
    let mut mem = PhysicalMemory::new();
    let ranges = vec![frame(0x100000)..frame(0x140000)];
    mem.init(&ranges);
    let mut pt = UserPageTable::new();
    assert!(pt.translate(Address::new(0x400123)).is_none());
    let page = Page::<Size4K>::new(Address::new(0x400000));
    let f = Page::<Size4K, Physical>::new(Address::new(0x80000));
    pt.map(page, f, PageFlags::user_code_flags(), &mut mem);
    let (p, _flags) = pt.translate(Address::new(0x400123)).unwrap();
    assert_eq!(p.as_usize(), 0x80123);
    assert!(pt.translate(Address::new(0x401000)).is_none());
    pt.unmap(page);
    assert!(pt.translate(Address::new(0x400123)).is_none());
}

#[test]
fn updating_flags_keeps_the_frame() {
    let mut mem = PhysicalMemory::new();
    let ranges = vec![frame(0x100000)..frame(0x140000)];
    mem.init(&ranges);
    let mut pt = UserPageTable::new();
    let page = Page::<Size4K>::new(Address::new(0x400000));
    let f = Page::<Size4K, Physical>::new(Address::new(0x80000));
    pt.map(page, f, PageFlags::user_code_flags(), &mut mem);
    pt.update_flags(page, PageFlags::user_stack_flags(), &mut mem);
    let (p, flags) = pt.translate(Address::new(0x400123)).unwrap();
    assert_eq!(p.as_usize(), 0x80123);
    assert_eq!(flags.bits(), 0x4c);
    assert!(pt.translate(Address::new(0x401000)).is_none());
}

#[test]
fn acquiring_past_the_largest_address_moves_on() {
    let frames: &'static [Range<Frame>] = Box::leak(vec![frame(0x10000)..frame(0x12000), frame(0x20000)..frame(0x21000)].into_boxed_slice());
    let mut m = Monotone::new();
    m.init(frames);
    assert!(m.acquire::<Size4K>(usize::MAX).is_err());
    let frames2: &'static [Range<Frame>] = Box::leak(vec![frame(0x10000)..frame(0x12000), frame(0x20000)..frame(0x21000)].into_boxed_slice());
    let mut m2 = Monotone::new();
    m2.init(frames2);
    let r = m2.acquire::<Size4K>(1).unwrap();
    assert_eq!(r.start.start().as_usize(), 0x10000);
    assert!(m2.acquire::<Size4K>(2).is_err());
}

#[test]
fn page_flags_for_user_memory() {
    assert_eq!(PageFlags::user_stack_flags().bits(), 0x4c);
    assert_eq!(PageFlags::user_code_flags().bits(), 0x0c);
    assert!(PageFlags::user_code_flags().contains(PageFlags::present()));
    assert_eq!(PageFlags::from_bits_truncate(0x1ff).bits(), 0xff);
    assert_eq!(PageFlags::empty().union(PageFlags::present()).bits(), 0x4);
}

#[test]
fn monotone_runs_out() {
    let frames: &'static [Range<Frame>] = Box::leak(vec![frame(0x10000)..frame(0x12000)].into_boxed_slice());
    let mut m = Monotone::new();
    m.init(frames);
    assert!(m.acquire::<Size4K>(3).is_err());
    let r = m.acquire::<Size4K>(2).unwrap();
    assert_eq!(r.start.start().as_usize(), 0x10000);
    assert!(m.release(r).is_ok());
}

#[test]
fn temporary_switch_is_undone() {
    let table = PageTable::new();
    let cpu = CpuState { page_table: 0x8000, irq_enabled: true };
    let (g, enter) = table.enable_temporarily(0x9000, cpu);
    assert_eq!(g, PageTables { old: 0x8000, new: 0x9000, irq_enabled: true });
    assert_eq!(enter, vec![CpuAction::DisableIrq, CpuAction::SetPageTable(0x9000)]);
    assert_eq!(g.restore(), vec![CpuAction::SetPageTable(0x8000), CpuAction::EnableIrq]);
    // Same table, IRQs already off: nothing to do either way.
    let (g, enter) = table.enable_temporarily(0x8000, CpuState { page_table: 0x8000, irq_enabled: false });
    assert!(enter.is_empty());
    assert!(g.restore().is_empty());
}

#[test]
fn runs_of_pages_take_frames_and_tables() {
    let mut mem = PhysicalMemory::new();
    let ranges = vec![frame(0x100000)..frame(0x140000)];
    mem.init(&ranges);
    assert_eq!(mem.free_byte_count(), 0x40000);
    let mut pt = PageTable::new();
    let start = Page::<Size4K>::new(Address::new(0x40_0000));
    let frames = pt.map_pages(start, 3, PageFlags::user_code_flags(), &mut mem).unwrap();
    assert_eq!(frames.len(), 3);
    // Three frames for the pages and three tables on the way to them.
    assert_eq!(mem.free_byte_count(), 0x40000 - 6 * 4096);
    assert_ne!(frames[0].start().as_usize(), frames[1].start().as_usize());
    // The next run shares all its tables.
    let more = pt.map_pages(Page::new(Address::new(0x40_3000)), 2, PageFlags::user_code_flags(), &mut mem).unwrap();
    assert_eq!(more.len(), 2);
    assert_eq!(mem.free_byte_count(), 0x40000 - 8 * 4096);
}

#[test]
fn runs_of_pages_stop_when_memory_runs_out() {
    let mut mem = PhysicalMemory::new();
    let ranges = vec![frame(0x100000)..frame(0x103000)];
    mem.init(&ranges);
    let mut pt = PageTable::new();
    let start = Page::<Size4K>::new(Address::new(0x40_0000));
    assert_eq!(pt.map_pages(start, 1, PageFlags::user_code_flags(), &mut mem).err(), Some(MapError::OutOfMemory));
    let mut mem = PhysicalMemory::new();
    mem.init(&vec![frame(0x100000)..frame(0x104000)]);
    assert_eq!(pt.map_pages(start, 1, PageFlags::user_code_flags(), &mut mem).map(|f| f.len()), Ok(1));
    assert_eq!(mem.free_byte_count(), 0);
}

#[test]
fn pages_under_a_block_are_refused() {
    let mut mem = PhysicalMemory::new();
    mem.init(&vec![frame(0x100000)..frame(0x140000)]);
    let mut pt = PageTable::new();
    let block = Page::<Size2M>::new(Address::new(0x20_0000));
    pt.map(block, Page::<Size2M, Physical>::new(Address::new(0x4000_0000)), PageFlags::present(), &mut mem);
    let inside = Page::<Size4K>::new(Address::new(0x20_1000));
    assert_eq!(pt.map_pages(inside, 1, PageFlags::user_code_flags(), &mut mem).err(), Some(MapError::BlockInTheWay));
}

#[test]
fn kernel_mapper_switches_to_the_kernel_table() {
    let mut mapper = KernelMemoryMapper::new();
    assert!(mapper.page_table.is_none());
    mapper.init(0x7000);
    let mut table = PageTable::new();
    let (g, acts) = mapper.with_kernel_page_table(&table, CpuState { page_table: 0x9000, irq_enabled: false });
    assert_eq!(g, PageTables { old: 0x9000, new: 0x7000, irq_enabled: false });
    assert_eq!(acts, vec![CpuAction::SetPageTable(0x7000)]);
    assert_eq!(g.restore(), vec![CpuAction::SetPageTable(0x9000)]);
    let mut mem = PhysicalMemory::new();
    mem.init(&vec![frame(0x100000)..frame(0x140000)]);
    let page = Page::<Size4K>::new(Address::new(0x8000_0000));
    mapper.map_fixed(&mut table, page, Page::<Size4K, Physical>::new(Address::new(0x5000)), PageFlags::present(), &mut mem);
    // Three tables were made on the way.
    assert_eq!(mem.free_byte_count(), 0x40000 - 3 * 4096);
}

#[test]
fn page_sizes_have_names() {
    use_names();
}

fn use_names() {
    assert_eq!(<Size4K as proton::page::PageSize>::name(), "4K");
    assert_eq!(<Size2M as proton::page::PageSize>::name(), "2M");
}

#[test]
fn temporary_kernel_pages_are_unmapped_on_release() {
    let mut mem = PhysicalMemory::new();
    mem.init(&vec![frame(0x100000)..frame(0x140000)]);
    let mut pt = UserPageTable::new();
    let f = Page::<Size4K, Physical>::new(Address::new(0x7000));
    let tmp = pt.map_temporarily(f, PageFlags::user_code_flags(), &mut mem);
    assert_eq!(tmp.0.start().as_usize(), 0x1234_5600_0000);
    let (p, _) = pt.translate(Address::new(0x1234_5600_0010)).unwrap();
    assert_eq!(p.as_usize(), 0x7010);
    tmp.release(&mut pt);
    assert!(pt.translate(Address::new(0x1234_5600_0010)).is_none());
}
