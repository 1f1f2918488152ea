//! Loading a user program: the parts of an ELF image to map and copy.
use vstd::prelude::*;
use crate::address::{Address, Virtual};
use crate::memory::{PageFlags, PRESENT};
use crate::page::{Frame, Page, Size4K};
use crate::page_table::{index_of, nth_page, same_path, MapError, PageTable};
use crate::physical::PhysicalMemory;
use crate::buddy::free_bytes;

verus! {

/// The size of a page the program is mapped in.
pub const LOAD_PAGE_BYTES: u64 = 4096;

/// The highest end of a segment that can still be rounded up to a page.
pub const MAX_SEGMENT_END: u64 = 0xffff_ffff_ffff_f000;

/// The first page of a user task's stack.
pub const USER_STACK_START: u64 = 0x1_1190_0000;

/// The pages of a user task's stack.
pub const USER_STACK_PAGES: u64 = 4;

/// The end of a user task's stack.
pub const USER_STACK_END: u64 = 0x1_1190_4000;

/// One program header: whether it is a loadable segment, where its bytes
/// are in the file, where they go, and how many there are.
#[derive(Clone, Copy, PartialEq, Eq, Structural)]
pub struct Segment {
    pub load: bool,
    pub offset: u64,
    pub vaddr: u64,
    pub filesz: u64,
}

/// An ELF file as the loader reads it.
pub struct ElfImage {
    pub is64: bool,
    pub entry: u64,
    pub segments: Vec<Segment>,
}

/// An ELF file as the specifications see it.
pub struct ElfImageView {
    pub is64: bool,
    pub entry: u64,
    pub segments: Seq<Segment>,
}

impl View for ElfImage {
    type V = ElfImageView;

    open spec fn view(&self) -> ElfImageView {
        ElfImageView { is64: self.is64, entry: self.entry, segments: self.segments@ }
    }
}

/// The bytes of the header of a 32-bit ELF file.
pub const ELF32_HEADER_BYTES: usize = 52;

/// The bytes of the header of a 64-bit ELF file.
pub const ELF64_HEADER_BYTES: usize = 64;

/// The bytes of a program header of a 64-bit ELF file.
pub const PROGRAM_HEADER_BYTES: usize = 56;

/// The class byte of a 32-bit file.
pub const CLASS_32: u8 = 1;

/// The class byte of a 64-bit file.
pub const CLASS_64: u8 = 2;

/// The type of a loadable segment.
pub const PT_LOAD: u32 = 1;

/// The little-endian 16-bit word at `at`.
pub open spec fn le16(d: Seq<u8>, at: int) -> nat {
    (d[at] + 256 * d[at + 1]) as nat
}

/// The little-endian 32-bit word at `at`.
pub open spec fn le32(d: Seq<u8>, at: int) -> nat {
    le16(d, at) + 65536 * le16(d, at + 2)
}

/// The little-endian 64-bit word at `at`.
pub open spec fn le64(d: Seq<u8>, at: int) -> nat {
    le32(d, at) + 4294967296 * le32(d, at + 4)
}

/// Whether `data` starts with the ELF magic bytes.
pub open spec fn has_elf_magic(data: Seq<u8>) -> bool {
    data.len() >= 4 && data[0] == 0x7f && data[1] == 0x45 && data[2] == 0x4c && data[3] == 0x46
}

/// The program header of a 64-bit file at byte `at`: its type (at 0),
/// file offset (at 8), address (at 16) and size in the file (at 32).
pub open spec fn program_header_at(d: Seq<u8>, at: int) -> Segment {
    Segment {
        load: le32(d, at) == PT_LOAD,
        offset: le64(d, at + 8) as u64,
        vaddr: le64(d, at + 16) as u64,
        filesz: le64(d, at + 32) as u64,
    }
}

/// The program headers of a 64-bit file: `phnum` (at 56) headers from
/// `phoff` (at 32), when the table lies inside the file, and none
/// otherwise.
pub open spec fn program_headers(d: Seq<u8>) -> Seq<Segment> {
    let phoff = le64(d, 32);
    let phnum = le16(d, 56);
    if phoff + phnum * PROGRAM_HEADER_BYTES <= d.len() {
        Seq::new(phnum, |k: int| program_header_at(d, phoff + k * PROGRAM_HEADER_BYTES))
    } else {
        Seq::empty()
    }
}

/// The ELF file that the bytes `data` hold, read as a little-endian file:
/// `None` for fewer bytes than a 32-bit header, no magic, an unknown
/// class, or fewer bytes than the header's size says (at 52 in a 64-bit
/// header, at 40 in a 32-bit one). A 64-bit file gives its entry point (at
/// 24) and program headers; of a 32-bit file only its class is read.
pub open spec fn elf_image(data: Seq<u8>) -> Option<ElfImageView> {
    if data.len() < ELF32_HEADER_BYTES || !has_elf_magic(data) {
        None
    } else if data[4] == CLASS_64 {
        if data.len() < ELF64_HEADER_BYTES || data.len() < le16(data, 52) {
            None
        } else {
            Some(ElfImageView { is64: true, entry: le64(data, 24) as u64, segments: program_headers(data) })
        }
    } else if data[4] == CLASS_32 {
        if data.len() < le16(data, 40) {
            None
        } else {
            Some(ElfImageView { is64: false, entry: 0, segments: Seq::empty() })
        }
    } else {
        None
    }
}

/// The little-endian 16-bit word at `at`.
fn read_le16(d: &[u8], at: usize) -> (r: u64)
    requires
        at + 2 <= d.len(),
    ensures
        r == le16(d@, at as int),
{
    d[at] as u64 + 256 * (d[at + 1] as u64)
}

/// The little-endian 32-bit word at `at`.
fn read_le32(d: &[u8], at: usize) -> (r: u64)
    requires
        at + 4 <= d.len(),
    ensures
        r == le32(d@, at as int),
        r < 0x1_0000_0000,
{
    read_le16(d, at) + 65536 * read_le16(d, at + 2)
}

/// The little-endian 64-bit word at `at`.
fn read_le64(d: &[u8], at: usize) -> (r: u64)
    requires
        at + 8 <= d.len(),
    ensures
        r == le64(d@, at as int),
{
    let lo = read_le32(d, at);
    let hi = read_le32(d, at + 4);
    proof {
        assert(hi * 4294967296 <= 0xffff_ffff * 4294967296) by (nonlinear_arith)
            requires
                hi < 0x1_0000_0000,
        ;
    }
    lo + 4294967296 * hi
}

/// Law: a 64-bit file's entry point is the little-endian 64-bit word at
/// byte 24 of the file, whatever its program headers say.
pub proof fn lemma_entry_is_header_word(data: Seq<u8>)
    requires
        elf_image(data) is Some,
        elf_image(data)->0.is64,
    ensures
        elf_image(data)->0.entry as int == data[24] as int + data[25] as int * 0x100 + data[26] as int * 0x1_0000
                + data[27] as int * 0x100_0000 + data[28] as int * 0x1_0000_0000
                + data[29] as int * 0x100_0000_0000 + data[30] as int * 0x1_0000_0000_0000
                + data[31] as int * 0x100_0000_0000_0000,
{
    let w = le64(data, 24);
    assert(le16(data, 24) < 0x1_0000 && le16(data, 26) < 0x1_0000);
    assert(le16(data, 28) < 0x1_0000 && le16(data, 30) < 0x1_0000);
    assert(le32(data, 24) < 0x1_0000_0000 && le32(data, 28) < 0x1_0000_0000);
    assert(w < 0x1_0000_0000_0000_0000) by (nonlinear_arith)
        requires
            w == le32(data, 24) + 4294967296 * le32(data, 28),
            le32(data, 24) < 0x1_0000_0000,
            le32(data, 28) < 0x1_0000_0000,
    ;
    assert((w as u64) as int == w);
}

/// Law: a file is read only when it starts with the ELF magic; it is a
/// 64-bit file exactly when its class byte (at 4) is 2; and a 64-bit file
/// has, when the table lies inside the file, one segment per program
/// header (their number at 56, the table at the offset at 32, 56 bytes
/// each), whose type, file offset, address and size are the little-endian
/// words at 0, 8, 16 and 32 of its header, and no segment otherwise.
pub proof fn lemma_image_read_from_headers(data: Seq<u8>)
    requires
        elf_image(data) is Some,
    ensures
        data.len() >= 52,
        data[0] == 0x7f && data[1] == 0x45 && data[2] == 0x4c && data[3] == 0x46,
        elf_image(data)->0.is64 <==> data[4] == 2,
        ({
            let img = elf_image(data)->0;
            let phoff = le64(data, 32);
            let phnum = le16(data, 56);
            img.is64 ==> if phoff + phnum * 56 <= data.len() {
                &&& img.segments.len() == phnum
                &&& forall|k: int| 0 <= k < phnum ==> {
                    let at = phoff + k * 56;
                    &&& (#[trigger] img.segments[k]).load == (le32(data, at) == 1)
                    &&& img.segments[k].offset == le64(data, at + 8)
                    &&& img.segments[k].vaddr == le64(data, at + 16)
                    &&& img.segments[k].filesz == le64(data, at + 32)
                }
            } else {
                img.segments.len() == 0
            }
        }),
{
    let img = elf_image(data)->0;
    let phoff = le64(data, 32);
    let phnum = le16(data, 56);
    if img.is64 && phoff + phnum * 56 <= data.len() {
        assert forall|k: int| 0 <= k < phnum implies {
            let at = phoff + k * 56;
            &&& (#[trigger] img.segments[k]).load == (le32(data, at) == 1)
            &&& img.segments[k].offset == le64(data, at + 8)
            &&& img.segments[k].vaddr == le64(data, at + 16)
            &&& img.segments[k].filesz == le64(data, at + 32)
        } by {
            let at = phoff + k * 56;
            lemma_word_bounds(data, at + 8);
            lemma_word_bounds(data, at + 16);
            lemma_word_bounds(data, at + 32);
        }
    }
}

/// A little-endian 64-bit word fits in 64 bits.
proof fn lemma_word_bounds(d: Seq<u8>, at: int)
    ensures
        le64(d, at) < 0x1_0000_0000_0000_0000,
{
    assert(le16(d, at) < 0x1_0000 && le16(d, at + 2) < 0x1_0000);
    assert(le16(d, at + 4) < 0x1_0000 && le16(d, at + 6) < 0x1_0000);
    assert(le32(d, at) < 0x1_0000_0000 && le32(d, at + 4) < 0x1_0000_0000);
    assert(le64(d, at) < 0x1_0000_0000_0000_0000) by (nonlinear_arith)
        requires
            le64(d, at) == le32(d, at) + 4294967296 * le32(d, at + 4),
            le32(d, at) < 0x1_0000_0000,
            le32(d, at + 4) < 0x1_0000_0000,
    ;
}

/// Reads the ELF file in `data`; see [`elf_image`]. The headers are read
/// byte by byte in the file's (little-endian) byte order, so the result
/// depends on the bytes alone: neither on the host's byte order nor on
/// where the buffer lies in memory, as a reader that views the buffer as
/// header structs would.
pub fn parse_elf(data: &[u8]) -> (r: Option<ElfImage>)
    ensures
        match r {
            Some(img) => elf_image(data@) == Some(img@),
            None => elf_image(data@) is None,
        },
        match r {
            Some(img) => img.is64 ==> img.entry as int == data@[24] as int + data@[25] as int * 0x100 + data@[26] as int * 0x1_0000
                + data@[27] as int * 0x100_0000 + data@[28] as int * 0x1_0000_0000
                + data@[29] as int * 0x100_0000_0000 + data@[30] as int * 0x1_0000_0000_0000
                + data@[31] as int * 0x100_0000_0000_0000,
            None => true,
        },
{
    proof {
        if let Some(img) = elf_image(data@) {
            if img.is64 {
                lemma_entry_is_header_word(data@);
            }
        }
    }
    let n = data.len();
    if n < ELF32_HEADER_BYTES {
        return None;
    }
    if !(data[0] == 0x7f && data[1] == 0x45 && data[2] == 0x4c && data[3] == 0x46) {
        return None;
    }
    if data[4] == CLASS_64 {
        if n < ELF64_HEADER_BYTES || (n as u64) < read_le16(data, 52) {
            return None;
        }
        let entry = read_le64(data, 24);
        let phoff = read_le64(data, 32);
        let phnum = read_le16(data, 56);
        let mut segments: Vec<Segment> = Vec::new();
        let fits = phoff <= n as u64 && phnum * 56 <= n as u64 - phoff;
        if fits {
            let base = phoff as usize;
            let count = phnum as usize;
            let mut k: usize = 0;
            while k < count
                invariant
                    k <= count,
                    count == le16(data@, 56),
                    base == le64(data@, 32),
                    base + count * 56 <= data.len(),
                    segments@.len() == k,
                    forall|j: int| 0 <= j < k ==> #[trigger] segments@[j] == program_header_at(data@, base + j * 56),
                decreases count - k,
            {
                proof {
                    assert(base + k * 56 + 56 <= data.len()) by (nonlinear_arith)
                        requires
                            k < count,
                            base + count * 56 <= data.len(),
                    ;
                }
                let at = base + k * 56;
                let t = read_le32(data, at);
                let seg = Segment {
                    load: t == PT_LOAD as u64,
                    offset: read_le64(data, at + 8),
                    vaddr: read_le64(data, at + 16),
                    filesz: read_le64(data, at + 32),
                };
                segments.push(seg);
                k = k + 1;
            }
            proof {
                assert(segments@ =~= program_headers(data@));
            }
        } else {
            proof {
                assert(segments@ =~= program_headers(data@));
            }
        }
        Some(ElfImage { is64: true, entry, segments })
    } else if data[4] == CLASS_32 {
        if (n as u64) < read_le16(data, 40) {
            return None;
        }
        Some(ElfImage { is64: false, entry: 0, segments: Vec::new() })
    } else {
        None
    }
}

/// Why a program cannot be loaded.
#[derive(Clone, Copy, PartialEq, Eq, Structural, Debug)]
pub enum ElfError {
    /// The bytes are not an ELF file.
    Parse,
    /// The file is a 32-bit one.
    Elf32,
    /// The file has nothing to load.
    NoLoadSegment,
    /// A segment ends too close to the top of the address space.
    Overflow,
    /// A segment's bytes go past the end of the file.
    Truncated,
}

/// The end of segment `s` in memory.
pub open spec fn seg_end(s: Segment) -> int {
    s.vaddr + s.filesz
}

/// Some segment is loadable.
pub open spec fn has_load(segs: Seq<Segment>) -> bool {
    exists|k: int| 0 <= k < segs.len() && #[trigger] segs[k].load
}

/// Every loadable segment ends where a page can still follow.
pub open spec fn ends_fit(segs: Seq<Segment>) -> bool {
    forall|k: int| 0 <= k < segs.len() && #[trigger] segs[k].load ==> seg_end(segs[k]) <= MAX_SEGMENT_END
}

/// Every loadable segment's bytes lie inside a file of `len` bytes.
pub open spec fn in_file(segs: Seq<Segment>, len: int) -> bool {
    forall|k: int| 0 <= k < segs.len() && #[trigger] segs[k].load ==> segs[k].offset + segs[k].filesz <= len
}

/// What to do to load a program: map the pages from `start` to `end`
/// (`pages` of them), copy the bytes of each segment in `copies`, and jump
/// to `entry`.
pub struct LoadPlan {
    pub entry: u64,
    pub start: u64,
    pub end: u64,
    pub pages: u64,
    pub copies: Vec<Segment>,
}

/// `lo` is the lowest start and `hi` the highest end of the loadable
/// segments of `segs`.
pub open spec fn load_bounds(segs: Seq<Segment>, lo: int, hi: int) -> bool {
    &&& exists|k: int| 0 <= k < segs.len() && segs[k].load && #[trigger] segs[k].vaddr == lo
    &&& exists|k: int| 0 <= k < segs.len() && segs[k].load && #[trigger] seg_end(segs[k]) == hi
    &&& forall|k: int|
        0 <= k < segs.len() && #[trigger] segs[k].load ==> lo <= segs[k].vaddr && seg_end(segs[k]) <= hi
}

/// `x` rounded down to a page.
pub open spec fn page_floor(x: int) -> int {
    x - x % (LOAD_PAGE_BYTES as int)
}

/// `x` rounded up to a page.
pub open spec fn page_ceil(x: int) -> int {
    if x % (LOAD_PAGE_BYTES as int) == 0 {
        x
    } else {
        x - x % (LOAD_PAGE_BYTES as int) + LOAD_PAGE_BYTES
    }
}

/// `p` is the plan for the program headers `segs` with entry `entry`: the
/// mapped range runs from the lowest start of a loadable segment, rounded
/// down to a page, to the highest end, rounded up; the copies are the
/// loadable segments in order.
pub open spec fn plan_for(segs: Seq<Segment>, entry: u64, p: LoadPlan) -> bool {
    &&& exists|lo: int, hi: int|
        #[trigger] load_bounds(segs, lo, hi) && p.start == page_floor(lo) && p.end == page_ceil(hi)
    &&& p.entry == entry
    &&& p.pages * LOAD_PAGE_BYTES == p.end - p.start
    &&& p.copies@ == segs.filter(|s: Segment| s.load)
}

/// The plan for loading a 64-bit program with headers `img`: see
/// [`plan_for`].
pub fn load_plan(img: &ElfImage) -> (r: LoadPlan)
    requires
        has_load(img.segments@),
        ends_fit(img.segments@),
    ensures
        plan_for(img.segments@, img.entry, r),
{
    let segs = &img.segments;
    let mut lo: u64 = 0;
    let mut hi: u64 = 0;
    let mut found = false;
    let mut copies: Vec<Segment> = Vec::new();
    let mut i: usize = 0;
    while i < segs.len()
        invariant
            i <= segs@.len(),
            ends_fit(segs@),
            found <==> has_load(segs@.take(i as int)),
            found ==> (exists|k: int| 0 <= k < i && segs@[k].load && #[trigger] segs@[k].vaddr == lo),
            found ==> (exists|k: int| 0 <= k < i && segs@[k].load && #[trigger] seg_end(segs@[k]) == hi),
            found ==> (forall|k: int| 0 <= k < i && #[trigger] segs@[k].load ==> lo <= segs@[k].vaddr && seg_end(segs@[k]) <= hi),
            copies@ == segs@.take(i as int).filter(|s: Segment| s.load),
        decreases segs@.len() - i,
    {
        let s = segs[i];
        proof {
            assert(segs@.take(i + 1).drop_last() =~= segs@.take(i as int));
            assert(segs@.take(i + 1).last() == s);
            segs@.take(i as int).lemma_filter_push(s, |s: Segment| s.load);
            assert(segs@.take(i as int).push(s) =~= segs@.take(i + 1));
        }
        if s.load {
            proof {
                assert(s == segs@[i as int]);
                assert(seg_end(s) <= MAX_SEGMENT_END);
            }
            let end = s.vaddr + s.filesz;
            if !found {
                proof {
                    assert forall|k: int| 0 <= k < i implies !#[trigger] segs@[k].load by {
                        if segs@[k].load {
                            assert(segs@.take(i as int)[k].load);
                        }
                    }
                }
                lo = s.vaddr;
                hi = end;
                found = true;
            } else {
                if s.vaddr < lo {
                    lo = s.vaddr;
                }
                if end > hi {
                    hi = end;
                }
            }
            copies.push(s);
            proof {
                assert(segs@.take(i + 1)[i as int].load);
            }
        } else {
            proof {
                if has_load(segs@.take(i + 1)) {
                    let k = choose|k: int| 0 <= k < i + 1 && #[trigger] segs@.take(i + 1)[k].load;
                    assert(segs@.take(i as int)[k].load);
                }
            }
        }
        i = i + 1;
    }
    proof {
        assert(segs@.take(i as int) =~= segs@);
    }
    let start = lo - lo % LOAD_PAGE_BYTES;
    let rem = hi % LOAD_PAGE_BYTES;
    let end = if rem == 0 {
        hi
    } else {
        hi - rem + LOAD_PAGE_BYTES
    };
    proof {
        assert(start <= lo <= hi <= end);
        assert(start % LOAD_PAGE_BYTES == 0) by (nonlinear_arith)
            requires start == lo - lo % LOAD_PAGE_BYTES;
        assert(end % LOAD_PAGE_BYTES == 0) by (nonlinear_arith)
            requires end == (if rem == 0 { hi as int } else { hi - rem + LOAD_PAGE_BYTES }), rem == hi % LOAD_PAGE_BYTES;
    }
    let pages = (end - start) / LOAD_PAGE_BYTES;
    proof {
        assert(load_bounds(segs@, lo as int, hi as int));
    }
    proof {
        assert(pages * LOAD_PAGE_BYTES == end - start) by (nonlinear_arith)
            requires
                pages == ((end - start) as u64) / LOAD_PAGE_BYTES,
                start % LOAD_PAGE_BYTES == 0,
                end % LOAD_PAGE_BYTES == 0,
                start <= end,
        ;
    }
    LoadPlan { entry: img.entry, start, end, pages, copies }
}

/// The outcome of planning the load of the image `img` from a file of
/// `file_len` bytes: it must be a 64-bit file with something to load, whose
/// loadable segments lie in the file and end below the last page of the
/// address space.
pub open spec fn planned(img: ElfImageView, file_len: int, r: Result<LoadPlan, ElfError>) -> bool {
    if !img.is64 {
        r == Err::<LoadPlan, ElfError>(ElfError::Elf32)
    } else if !has_load(img.segments) {
        r == Err::<LoadPlan, ElfError>(ElfError::NoLoadSegment)
    } else if !ends_fit(img.segments) {
        r == Err::<LoadPlan, ElfError>(ElfError::Overflow)
    } else if !in_file(img.segments, file_len) {
        r == Err::<LoadPlan, ElfError>(ElfError::Truncated)
    } else {
        r is Ok && plan_for(img.segments, img.entry, r->Ok_0)
    }
}

/// Reads the program in `data` and plans its loading; see [`parse_elf`]
/// and [`plan_image`].
pub fn load_elf(data: &[u8]) -> (r: Result<LoadPlan, ElfError>)
    ensures
        match elf_image(data@) {
            None => r == Err::<LoadPlan, ElfError>(ElfError::Parse),
            Some(img) => planned(img, data@.len() as int, r),
        },
        match r {
            Ok(p) => p.entry as int == data@[24] as int + data@[25] as int * 0x100 + data@[26] as int * 0x1_0000
                + data@[27] as int * 0x100_0000 + data@[28] as int * 0x1_0000_0000
                + data@[29] as int * 0x100_0000_0000 + data@[30] as int * 0x1_0000_0000_0000
                + data@[31] as int * 0x100_0000_0000_0000,
            Err(_) => true,
        },
{
    proof {
        if let Some(img) = elf_image(data@) {
            if img.is64 {
                lemma_entry_is_header_word(data@);
            }
        }
    }
    match parse_elf(data) {
        Some(img) => plan_image(&img, data.len() as u64),
        None => Err(ElfError::Parse),
    }
}

/// What the program holds at address `addr` once the bytes of every
/// segment of `copies` have been copied in order: the byte of the last
/// segment that covers `addr`, or none when no segment covers it (the page
/// then keeps what its frame held).
pub open spec fn loaded_byte(data: Seq<u8>, copies: Seq<Segment>, addr: int) -> Option<u8>
    decreases copies.len(),
{
    if copies.len() == 0 {
        None
    } else {
        let s = copies.last();
        if s.vaddr <= addr < s.vaddr + s.filesz {
            Some(data[s.offset + (addr - s.vaddr)])
        } else {
            loaded_byte(data, copies.drop_last(), addr)
        }
    }
}

/// Every segment of `copies` takes its bytes from inside a file of `len`
/// bytes, and ends inside the address space.
pub open spec fn copies_fit(copies: Seq<Segment>, len: int) -> bool {
    forall|k: int|
        0 <= k < copies.len() ==> #[trigger] copies[k].offset + copies[k].filesz <= len
            && copies[k].vaddr + copies[k].filesz <= u64::MAX
}

/// The bytes that copying the segments of `plan` out of `data` puts in the
/// program's page `page` (counted from `plan.start`), one per byte of the
/// page: `None` for a byte no segment covers.
pub fn page_image(data: &[u8], plan: &LoadPlan, page: u64) -> (r: Vec<Option<u8>>)
    requires
        page < plan.pages,
        plan.start + plan.pages * 4096 <= u64::MAX,
        copies_fit(plan.copies@, data@.len() as int),
    ensures
        r@.len() == 4096,
        forall|k: int|
            0 <= k < 4096 ==> #[trigger] r@[k] == loaded_byte(data@, plan.copies@, plan.start + page * 4096 + k),
{
    proof {
        assert(page * 4096 + 4096 <= plan.pages * 4096) by (nonlinear_arith)
            requires
                page < plan.pages,
        ;
    }
    let base: u64 = plan.start + page * 4096;
    let copies = &plan.copies;
    let mut out: Vec<Option<u8>> = Vec::new();
    let mut k: usize = 0;
    while k < 4096
        invariant
            k <= 4096,
            out@.len() == k,
            forall|i: int| 0 <= i < k ==> #[trigger] out@[i] == None::<u8>,
        decreases 4096 - k,
    {
        out.push(None);
        k = k + 1;
    }
    let mut j: usize = 0;
    while j < copies.len()
        invariant
            j <= copies@.len(),
            base + 4096 <= u64::MAX,
            copies_fit(copies@, data@.len() as int),
            out@.len() == 4096,
            forall|i: int| 0 <= i < 4096 ==> #[trigger] out@[i] == loaded_byte(data@, copies@.take(j as int), base + i),
        decreases copies@.len() - j,
    {
        let s = copies[j];
        proof {
            let t = copies@.take(j + 1);
            assert(t.drop_last() =~= copies@.take(j as int));
            assert(t.last() == s);
            assert(s.offset + s.filesz <= data@.len() && s.vaddr + s.filesz <= u64::MAX);
        }
        let mut i: usize = 0;
        while i < 4096
            invariant
                i <= 4096,
                j < copies@.len(),
                s == copies@[j as int],
                base + 4096 <= u64::MAX,
                s.offset + s.filesz <= data.len(),
                data@.len() == data.len(),
                s.vaddr + s.filesz <= u64::MAX,
                out@.len() == 4096,
                forall|q: int| 0 <= q < i ==> #[trigger] out@[q] == loaded_byte(data@, copies@.take(j + 1), base + q),
                forall|q: int| i <= q < 4096 ==> #[trigger] out@[q] == loaded_byte(data@, copies@.take(j as int), base + q),
            decreases 4096 - i,
        {
            let addr: u64 = base + i as u64;
            proof {
                let t = copies@.take(j + 1);
                assert(t.drop_last() =~= copies@.take(j as int));
                assert(t.last() == s);
            }
            if s.vaddr <= addr && addr < s.vaddr + s.filesz {
                assert(s.offset + (addr - s.vaddr) < data.len() <= usize::MAX <= u64::MAX);
                let at: u64 = s.offset + (addr - s.vaddr);
                out.set(i, Some(data[at as usize]));
            }
            i = i + 1;
        }
        j = j + 1;
    }
    proof {
        assert(copies@.take(copies@.len() as int) =~= copies@);
    }
    out
}

/// Plans the load of the parsed image `img` of a file of `file_len` bytes;
/// see [`planned`].
pub fn plan_image(img: &ElfImage, file_len: u64) -> (r: Result<LoadPlan, ElfError>)
    ensures
        planned(img@, file_len as int, r),
{
    if !img.is64 {
        return Err(ElfError::Elf32);
    }
    let segs = &img.segments;
    let n = file_len;
    let mut any = false;
    let mut fit = true;
    let mut inside = true;
    let mut i: usize = 0;
    while i < segs.len()
        invariant
            i <= segs@.len(),
            n == file_len,
            any <==> has_load(segs@.take(i as int)),
            fit <==> ends_fit(segs@.take(i as int)),
            inside <==> in_file(segs@.take(i as int), n as int),
        decreases segs@.len() - i,
    {
        let s = segs[i];
        proof {
            let t = segs@.take(i + 1);
            assert(t[i as int] == s);
            assert forall|k: int| 0 <= k < i implies #[trigger] t[k] == segs@.take(i as int)[k] by {}
        }
        if s.load {
            any = true;
            if s.vaddr > MAX_SEGMENT_END || s.filesz > MAX_SEGMENT_END - s.vaddr {
                fit = false;
            }
            if s.offset > n || s.filesz > n - s.offset {
                inside = false;
            }
        }
        proof {
            let t = segs@.take(i + 1);
            let p = segs@.take(i as int);
            if has_load(t) && !s.load {
                let k = choose|k: int| 0 <= k < i + 1 && #[trigger] t[k].load;
                assert(p[k].load);
            }
            if has_load(p) {
                let k = choose|k: int| 0 <= k < i && #[trigger] p[k].load;
                assert(t[k].load);
            }
            if s.load {
                assert(t[i as int].load);
            }
            if !ends_fit(t) {
                let k = choose|k: int| 0 <= k < t.len() && #[trigger] t[k].load && !(seg_end(t[k]) <= MAX_SEGMENT_END);
                if k < i {
                    assert(p[k].load);
                }
            }
            if !ends_fit(p) {
                let k = choose|k: int| 0 <= k < p.len() && #[trigger] p[k].load && !(seg_end(p[k]) <= MAX_SEGMENT_END);
                assert(t[k] == p[k]);
            }
            if !in_file(t, n as int) {
                let k = choose|k: int| 0 <= k < t.len() && #[trigger] t[k].load && !(t[k].offset + t[k].filesz <= n);
                if k < i {
                    assert(p[k].load);
                }
            }
            if !in_file(p, n as int) {
                let k = choose|k: int| 0 <= k < p.len() && #[trigger] p[k].load && !(p[k].offset + p[k].filesz <= n);
                assert(t[k] == p[k]);
            }
        }
        i = i + 1;
    }
    proof {
        assert(segs@.take(i as int) =~= segs@);
    }
    if !any {
        return Err(ElfError::NoLoadSegment);
    }
    if !fit {
        return Err(ElfError::Overflow);
    }
    if !inside {
        return Err(ElfError::Truncated);
    }
    Ok(load_plan(img))
}


/// A user program to run as a task: its ELF file.
pub struct UserTask {
    pub elf_data: Vec<u8>,
}

impl UserTask {
    pub fn new(elf_data: Vec<u8>) -> (r: Self)
        ensures
            r.elf_data@ == elf_data@,
    {
        UserTask { elf_data }
    }

    /// How to load the task's program; see [`load_elf`].
    pub fn load_elf(&self) -> (r: Result<LoadPlan, ElfError>)
        ensures
            match elf_image(self.elf_data@) {
                None => r == Err::<LoadPlan, ElfError>(ElfError::Parse),
                Some(img) => planned(img, self.elf_data@.len() as int, r),
            },
    {
        load_elf(self.elf_data.as_slice())
    }

    /// Maps the program's pages of `plan` into `page_table`, user code
    /// pages backed by fresh frames from `alloc`; the frames, in page
    /// order, for the program's bytes to be copied into.
    pub fn map_program(&self, page_table: &mut PageTable, plan: &LoadPlan, alloc: &mut PhysicalMemory) -> (r: Result<Vec<Frame<Size4K>>, MapError>)
        requires
            old(page_table).wf(),
            old(alloc).wf(),
            plan.start % 4096 == 0,
            plan.start + plan.pages * 4096 <= usize::MAX,
            plan.pages * 4096 <= 0x1_0000_0000_0000,
        ensures
            final(page_table).wf(),
            final(alloc).wf(),
            r matches Ok(frames) ==> frames@.len() == plan.pages && forall|i: int, b: nat|
                0 <= i < plan.pages && #[trigger] same_path(nth_page(plan.start as nat, i), b, 4, 1)
                    ==> final(page_table).translation(b) == Some(((frames@[i].start_value() + b % 4096) as nat, PRESENT | 0b1000)),
            r is Ok ==> forall|b: nat|
                (forall|i: int| 0 <= i < plan.pages ==> !#[trigger] same_path(nth_page(plan.start as nat, i), b, 4, 1))
                    ==> #[trigger] final(page_table).translation(b) == old(page_table).translation(b),
            r == Err::<Vec<Frame<Size4K>>, MapError>(MapError::OutOfMemory) ==> free_bytes(old(alloc)@) < 16384 * plan.pages,
            r == Err::<Vec<Frame<Size4K>>, MapError>(MapError::BlockInTheWay) ==> exists|i: int|
                0 <= i < plan.pages && #[trigger] old(page_table).hits_block(nth_page(plan.start as nat, i), 1),
    {
        proof {
            vstd::arithmetic::power2::lemma2_to64();
        }
        let start = Page::<Size4K, Virtual>::new(Address::new(plan.start as usize));
        let flags = PageFlags::user_code_flags();
        proof {
            assert(PRESENT | 0b1000usize == 0xc) by (bit_vector);
            assert(0xcusize | PRESENT == 0xc) by (bit_vector);
        }
        page_table.map_pages(start, plan.pages as usize, flags, alloc)
    }

    /// A new address space for the task: nothing mapped but the root entry
    /// that covers the kernel's memory, which starts at `kernel_start`; it
    /// translates as in the kernel's table `kernel`.
    pub fn setup_user_pagetable(kernel: &PageTable, kernel_start: usize) -> (r: PageTable)
        requires
            kernel.wf(),
        ensures
            r.wf(),
            forall|b: nat|
                index_of(4, b) == index_of(4, kernel_start as nat) ==> #[trigger] r.translation(b) == kernel.translation(b),
            forall|b: nat| index_of(4, b) != index_of(4, kernel_start as nat) ==> (#[trigger] r.translation(b)) is None,
    {
        let mut table = PageTable::new();
        let index = PageTable::get_index(4, Address::new(kernel_start));
        table.copy_entry(kernel, index);
        table
    }

    /// Maps the user stack, `USER_STACK_PAGES` pages from
    /// `USER_STACK_START`, into `page_table` with fresh frames from `alloc`;
    /// the frames, in page order.
    pub fn setup_user_stack(page_table: &mut PageTable, alloc: &mut PhysicalMemory) -> (r: Result<Vec<Frame<Size4K>>, MapError>)
        requires
            old(page_table).wf(),
            old(alloc).wf(),
            USER_STACK_END <= usize::MAX,
        ensures
            final(page_table).wf(),
            final(alloc).wf(),
            r matches Ok(frames) ==> frames@.len() == USER_STACK_PAGES && forall|i: int, b: nat|
                0 <= i < USER_STACK_PAGES && #[trigger] same_path(nth_page(USER_STACK_START as nat, i), b, 4, 1)
                    ==> final(page_table).translation(b) == Some(((frames@[i].start_value() + b % 4096) as nat, 0x4cusize)),
            r is Ok ==> forall|b: nat|
                (forall|i: int| 0 <= i < USER_STACK_PAGES ==> !#[trigger] same_path(nth_page(USER_STACK_START as nat, i), b, 4, 1))
                    ==> #[trigger] final(page_table).translation(b) == old(page_table).translation(b),
            r == Err::<Vec<Frame<Size4K>>, MapError>(MapError::OutOfMemory) ==> free_bytes(old(alloc)@) < 16384 * USER_STACK_PAGES,
            r == Err::<Vec<Frame<Size4K>>, MapError>(MapError::BlockInTheWay) ==> exists|i: int|
                0 <= i < USER_STACK_PAGES && #[trigger] old(page_table).hits_block(nth_page(USER_STACK_START as nat, i), 1),
    {
        proof {
            vstd::arithmetic::power2::lemma2_to64();
            assert(USER_STACK_START < USER_STACK_END);
            assert((USER_STACK_START as usize) as int == 0x1_1190_0000);
            assert(0x1_1190_0000int % 4096 == 0);
        }
        let start = Page::<Size4K, Virtual>::new(Address::new(USER_STACK_START as usize));
        let flags = PageFlags::user_stack_flags();
        proof {
            assert(0x4cusize | PRESENT == 0x4c) by (bit_vector);
        }
        page_table.map_pages(start, USER_STACK_PAGES as usize, flags, alloc)
    }
}

} // verus!
