//! Loading the kernel ELF image: which frames of the image are mapped at which
//! pages, which part of each segment is zero-filled, and how much virtual
//! address space the loaded image spans.
use vstd::prelude::*;

use crate::addr::{
    align_up, canonical, lemma_page_floor_monotone, checked_phys_addr, checked_virt_addr, lemma_page_size_power_of_two,
    page_ceil, page_floor, page_start, same_half, PAGE_BYTES, PHYS_ADDR_LIMIT,
};

verus! {

/// ELF file type of an executable (`ET_EXEC`).
pub const ELF_TYPE_EXECUTABLE: u16 = 2;

/// Start address of the highest 4 KiB page of the virtual address space.
pub const LAST_PAGE_ADDR: u64 = 0xFFFF_FFFF_FFFF_F000;

/// Page table flag bit that marks a page as a private copy made by the loader.
pub const COPIED_FLAG: u64 = 0x200;

/// Type of a program header.
#[derive(Clone, Copy, Debug, PartialEq, Eq, Structural)]
pub enum SegmentKind {
    /// `PT_LOAD`.
    Load,
    /// `PT_DYNAMIC`.
    Dynamic,
    /// Any other known type.
    Other,
    /// A type value the ELF reader rejects.
    Invalid,
}

/// One program header of the kernel image, as plain values.
#[derive(Clone, Copy, Debug, PartialEq, Eq, Structural)]
pub struct SegmentHeader {
    pub kind: SegmentKind,
    /// Offset of the segment's data in the file.
    pub offset: u64,
    /// Virtual address at which the segment is loaded.
    pub virtual_addr: u64,
    /// Bytes of the segment stored in the file.
    pub file_size: u64,
    /// Bytes of the segment in memory.
    pub mem_size: u64,
}

/// What the loader reads of a kernel ELF image.
pub struct KernelImage {
    /// ELF file type (`e_type`).
    pub elf_type: u16,
    /// Entry point (`e_entry`).
    pub entry_point: u64,
    /// The program headers, in file order.
    pub segments: Vec<SegmentHeader>,
}

/// Why a kernel image cannot be loaded.
#[derive(Clone, Copy, Debug, PartialEq, Eq, Structural)]
pub enum LoadError {
    /// The ELF file type is not `EXEC`.
    NotExecutable,
    /// A program header has a type the ELF reader rejects.
    InvalidSegmentType,
    /// The image has a dynamic segment.
    DynamicSegment,
    /// An address of a loadable segment leaves the physical or the canonical
    /// virtual address space.
    AddressOutOfRange,
    /// The entry point is not a canonical virtual address.
    NonCanonicalEntryPoint,
}

/// The part of a page that must be zeroed in place: bytes `offset..4096` of
/// the page that holds the end of the file data.
#[derive(Clone, Copy, Debug, PartialEq, Eq, Structural)]
pub struct PartialZero {
    pub page: u64,
    pub offset: u64,
}

/// How the memory of a segment beyond its file data is provided.
#[derive(Clone, Copy, Debug, PartialEq, Eq, Structural)]
pub struct BssPlan {
    /// The tail of the last file page that must be zeroed, if it is not empty.
    pub partial: Option<PartialZero>,
    /// First page to back with a fresh zeroed frame.
    pub first_page: u64,
    /// Last page to back with a fresh zeroed frame; none when below `first_page`.
    pub last_page: u64,
}

/// How one loadable segment is placed.
#[derive(Clone, Copy, Debug, PartialEq, Eq, Structural)]
pub struct SegmentPlan {
    /// First frame of the image that holds file data of the segment.
    pub first_frame: u64,
    /// Last such frame; none when below `first_frame`.
    pub last_frame: u64,
    /// Page at which `first_frame` is mapped; the frame `first_frame + i * 4096`
    /// is mapped at `first_page + i * 4096`.
    pub first_page: u64,
    /// Zero-filled memory beyond the file data, if the segment has any.
    pub bss: Option<BssPlan>,
}

/// The placement of the whole kernel.
pub struct KernelLoadPlan {
    /// One plan per loadable segment, in file order.
    pub segments: Vec<SegmentPlan>,
    /// The kernel's entry point.
    pub entry_point: u64,
}

/// A run of pages from `first` to `last` that the paging code can step through
/// and offset into: every address between them is canonical.
pub open spec fn page_span_ok(first: int, last: int) -> bool {
    last <= u64::MAX && same_half(first as u64, last as u64)
}

/// The frames, and the page of the first frame, for the file data of a
/// loadable segment; `None` when one of the addresses involved is out of range.
pub open spec fn load_part(kernel_offset: u64, s: SegmentHeader) -> Option<(u64, u64, u64)> {
    let p0 = kernel_offset + s.offset;
    let pend = p0 + s.file_size;
    if p0 >= PHYS_ADDR_LIMIT || pend >= PHYS_ADDR_LIMIT || pend < 1 || !canonical(s.virtual_addr) {
        None
    } else {
        let first_frame = page_floor(p0);
        let last_frame = page_floor(pend - 1);
        let first_page = page_floor(s.virtual_addr as int);
        if last_frame >= first_frame && !page_span_ok(first_page, first_page + (last_frame - first_frame)) {
            None
        } else {
            Some((first_frame as u64, last_frame as u64, first_page as u64))
        }
    }
}

/// The zero-filled part of a segment: `Some(None)` when the segment has no
/// memory beyond its file data, `None` when an address is out of range.
pub open spec fn bss_part(s: SegmentHeader) -> Option<Option<BssPlan>> {
    if s.mem_size <= s.file_size {
        Some(None)
    } else {
        let zero_start = s.virtual_addr + s.file_size;
        let zero_end = s.virtual_addr + s.mem_size;
        if zero_start > u64::MAX || !canonical(zero_start as u64) || zero_end > u64::MAX || !canonical(
            zero_end as u64,
        ) {
            None
        } else {
            let first = page_ceil(zero_start);
            let last = page_floor(zero_end - 1);
            if first > u64::MAX || !canonical(first as u64) || !canonical((zero_end - 1) as u64) {
                None
            } else if first <= last && !(same_half(first as u64, last as u64) && (last == LAST_PAGE_ADDR
                || canonical((last + 4096) as u64))) {
                None
            } else {
                let partial = zero_start % 4096;
                Some(
                    Some(
                        BssPlan {
                            partial: if partial != 0 {
                                Some(PartialZero { page: page_floor(zero_start - 1) as u64, offset: partial as u64 })
                            } else {
                                None
                            },
                            first_page: first as u64,
                            last_page: last as u64,
                        },
                    ),
                )
            }
        }
    }
}

/// The placement of one loadable segment, `None` when an address is out of range.
#[verifier::opaque]
pub open spec fn segment_plan(kernel_offset: u64, s: SegmentHeader) -> Option<SegmentPlan> {
    match (load_part(kernel_offset, s), bss_part(s)) {
        (Some((first_frame, last_frame, first_page)), Some(bss)) => Some(
            SegmentPlan { first_frame, last_frame, first_page, bss },
        ),
        _ => None,
    }
}

/// The plans of the loadable segments among `segs`, taken in order; the first
/// header that cannot be loaded decides the error.
pub open spec fn plan_segments(kernel_offset: u64, segs: Seq<SegmentHeader>) -> Result<
    Seq<SegmentPlan>,
    LoadError,
>
    decreases segs.len(),
{
    if segs.len() == 0 {
        Ok(Seq::empty())
    } else {
        match plan_segments(kernel_offset, segs.drop_last()) {
            Err(e) => Err(e),
            Ok(plans) => {
                let s = segs.last();
                match s.kind {
                    SegmentKind::Invalid => Err(LoadError::InvalidSegmentType),
                    SegmentKind::Dynamic => Err(LoadError::DynamicSegment),
                    SegmentKind::Other => Ok(plans),
                    SegmentKind::Load => match segment_plan(kernel_offset, s) {
                        Some(p) => Ok(plans.push(p)),
                        None => Err(LoadError::AddressOutOfRange),
                    },
                }
            },
        }
    }
}

/// The placement of the kernel: its segments' plans and its entry point.
pub open spec fn kernel_plan(image_type: u16, entry: u64, segs: Seq<SegmentHeader>, kernel_offset: u64) -> Result<
    (Seq<SegmentPlan>, u64),
    LoadError,
> {
    if image_type != ELF_TYPE_EXECUTABLE {
        Err(LoadError::NotExecutable)
    } else {
        match plan_segments(kernel_offset, segs) {
            Err(e) => Err(e),
            Ok(plans) => if canonical(entry) {
                Ok((plans, entry))
            } else {
                Err(LoadError::NonCanonicalEntryPoint)
            },
        }
    }
}

/// Places the file data of a loadable segment whose data starts at physical
/// address `kernel_offset + segment.offset`.
fn plan_load_part(kernel_offset: u64, segment: &SegmentHeader) -> (r: Option<(u64, u64, u64)>)
    ensures
        r == load_part(kernel_offset, *segment),
{
    let p0 = match kernel_offset.checked_add(segment.offset) {
        Some(p) => p,
        None => return None,
    };
    let p0 = match checked_phys_addr(p0) {
        Some(p) => p,
        None => return None,
    };
    let pend = match p0.checked_add(segment.file_size) {
        Some(p) => p,
        None => return None,
    };
    let pend = match checked_phys_addr(pend) {
        Some(p) => p,
        None => return None,
    };
    if pend < 1 {
        return None;
    }
    let vaddr = match checked_virt_addr(segment.virtual_addr) {
        Some(v) => v,
        None => return None,
    };
    let first_frame = page_start(p0);
    let last_frame = page_start(pend - 1);
    let first_page = page_start(vaddr);
    if last_frame >= first_frame {
        let span = last_frame - first_frame;
        let last_page = match first_page.checked_add(span) {
            Some(p) => p,
            None => return None,
        };
        if checked_virt_addr(last_page).is_none() {
            return None;
        }
        if (first_page < 0x0000_8000_0000_0000) != (last_page < 0x0000_8000_0000_0000) {
            return None;
        }
        proof {
            lemma_floor_canonical(vaddr);
        }
    }
    Some((first_frame, last_frame, first_page))
}

/// The page holding a canonical address is canonical and in the same half.
proof fn lemma_floor_canonical(a: u64)
    requires
        canonical(a),
    ensures
        canonical(page_floor(a as int) as u64),
        same_half(a, page_floor(a as int) as u64),
        page_floor(a as int) >= 0,
{
}

/// Places the zero-filled memory of a segment beyond its file data.
fn plan_bss_part(segment: &SegmentHeader) -> (r: Option<Option<BssPlan>>)
    ensures
        r == bss_part(*segment),
{
    if segment.mem_size <= segment.file_size {
        return Some(None);
    }
    let zero_start = match segment.virtual_addr.checked_add(segment.file_size) {
        Some(z) => z,
        None => return None,
    };
    let zero_start = match checked_virt_addr(zero_start) {
        Some(z) => z,
        None => return None,
    };
    let zero_end = match segment.virtual_addr.checked_add(segment.mem_size) {
        Some(z) => z,
        None => return None,
    };
    let zero_end = match checked_virt_addr(zero_end) {
        Some(z) => z,
        None => return None,
    };
    proof {
        lemma_page_size_power_of_two();
    }
    if zero_start % PAGE_BYTES != 0 && zero_start - zero_start % PAGE_BYTES > u64::MAX - PAGE_BYTES {
        return None;
    }
    let first = align_up(zero_start, PAGE_BYTES);
    if checked_virt_addr(first).is_none() {
        return None;
    }
    let end_minus_one = zero_end - 1;
    if checked_virt_addr(end_minus_one).is_none() {
        return None;
    }
    let last = page_start(end_minus_one);
    if first <= last {
        if (first < 0x0000_8000_0000_0000) != (last < 0x0000_8000_0000_0000) {
            return None;
        }
        if checked_virt_addr(last).is_none() {
            return None;
        }
        if last != LAST_PAGE_ADDR && checked_virt_addr(last + PAGE_BYTES).is_none() {
            return None;
        }
    }
    let partial = zero_start % PAGE_BYTES;
    let partial_zero = if partial != 0 {
        Some(PartialZero { page: page_start(zero_start - 1), offset: partial })
    } else {
        None
    };
    Some(Some(BssPlan { partial: partial_zero, first_page: first, last_page: last }))
}

/// Places one loadable segment whose data starts at physical address
/// `kernel_offset + segment.offset`; `None` when an address is out of range.
pub fn plan_load_segment(kernel_offset: u64, segment: &SegmentHeader) -> (r: Option<SegmentPlan>)
    ensures
        r == segment_plan(kernel_offset, *segment),
        r is Some ==> ({
            let p0 = kernel_offset + segment.offset;
            let last_byte = p0 + segment.file_size - 1;
            &&& r->0.first_frame == p0 - p0 % 4096
            &&& r->0.last_frame == last_byte - last_byte % 4096
            &&& r->0.first_page == segment.virtual_addr - segment.virtual_addr % 4096
        }),
{
    proof {
        if segment_plan(kernel_offset, *segment) is Some {
            lemma_segment_frames(kernel_offset, *segment);
        }
    }
    let load = plan_load_part(kernel_offset, segment);
    let bss = plan_bss_part(segment);
    proof {
        reveal(segment_plan);
    }
    match (load, bss) {
        (Some((first_frame, last_frame, first_page)), Some(bss)) => Some(
            SegmentPlan { first_frame, last_frame, first_page, bss },
        ),
        _ => None,
    }
}

/// Plans the placement of the kernel image whose file starts at physical
/// address `kernel_offset`: checks that the image is an executable without
/// dynamic segments, places each loadable segment in file order, and checks
/// the entry point.
pub fn load_kernel(kernel: &KernelImage, kernel_offset: u64) -> (r: Result<KernelLoadPlan, LoadError>)
    ensures
        kernel.elf_type != 2 ==> r matches Err(LoadError::NotExecutable),
        kernel.elf_type == 2 && plan_segments(kernel_offset, kernel.segments@) is Ok ==> ({
            let e = kernel.entry_point;
            &&& (e < 0x0000_8000_0000_0000 || e >= 0xffff_8000_0000_0000) ==> r is Ok && r->Ok_0.entry_point == e
                && r->Ok_0.segments@ == plan_segments(kernel_offset, kernel.segments@)->Ok_0
            &&& !(e < 0x0000_8000_0000_0000 || e >= 0xffff_8000_0000_0000) ==> r matches Err(
                LoadError::NonCanonicalEntryPoint,
            )
        }),
        match r {
            Ok(plan) => kernel_plan(kernel.elf_type, kernel.entry_point, kernel.segments@, kernel_offset)
                == Ok::<(Seq<SegmentPlan>, u64), LoadError>((plan.segments@, plan.entry_point)),
            Err(e) => kernel_plan(kernel.elf_type, kernel.entry_point, kernel.segments@, kernel_offset)
                == Err::<(Seq<SegmentPlan>, u64), LoadError>(e),
        },
{
    if kernel.elf_type != ELF_TYPE_EXECUTABLE {
        return Err(LoadError::NotExecutable);
    }
    let ghost segs = kernel.segments@;
    let mut plans: Vec<SegmentPlan> = Vec::new();
    let mut i: usize = 0;
    while i < kernel.segments.len()
        invariant
            0 <= i <= segs.len(),
            segs == kernel.segments@,
            kernel.elf_type == ELF_TYPE_EXECUTABLE,
            plan_segments(kernel_offset, segs.take(i as int)) == Ok::<Seq<SegmentPlan>, LoadError>(plans@),
        decreases segs.len() - i,
    {
        let segment = kernel.segments[i];
        proof {
            assert(segs.take(i as int + 1).drop_last() =~= segs.take(i as int));
            assert(segs.take(i as int + 1).last() == segment);
        }
        match segment.kind {
            SegmentKind::Invalid => {
                proof {
                    assert(plan_segments(kernel_offset, segs.take(i as int + 1)) == Err::<Seq<SegmentPlan>, LoadError>(LoadError::InvalidSegmentType));
                    lemma_plan_segments_error_persists(kernel_offset, segs, i as int + 1);
                }
                return Err(LoadError::InvalidSegmentType);
            },
            SegmentKind::Dynamic => {
                proof {
                    assert(plan_segments(kernel_offset, segs.take(i as int + 1)) == Err::<Seq<SegmentPlan>, LoadError>(LoadError::DynamicSegment));
                    lemma_plan_segments_error_persists(kernel_offset, segs, i as int + 1);
                }
                return Err(LoadError::DynamicSegment);
            },
            SegmentKind::Other => {},
            SegmentKind::Load => {
                match plan_load_segment(kernel_offset, &segment) {
                    Some(p) => plans.push(p),
                    None => {
                        proof {
                            assert(plan_segments(kernel_offset, segs.take(i as int + 1)) == Err::<Seq<SegmentPlan>, LoadError>(LoadError::AddressOutOfRange));
                            lemma_plan_segments_error_persists(kernel_offset, segs, i as int + 1);
                        }
                        return Err(LoadError::AddressOutOfRange);
                    },
                }
            },
        }
        i = i + 1;
    }
    proof {
        assert(segs.take(i as int) =~= segs);
    }
    if checked_virt_addr(kernel.entry_point).is_none() {
        return Err(LoadError::NonCanonicalEntryPoint);
    }
    Ok(KernelLoadPlan { segments: plans, entry_point: kernel.entry_point })
}

/// Once a prefix of the headers fails, the whole list fails with the same error.
proof fn lemma_plan_segments_error_persists(kernel_offset: u64, segs: Seq<SegmentHeader>, j: int)
    requires
        0 <= j <= segs.len(),
        plan_segments(kernel_offset, segs.take(j)) is Err,
    ensures
        plan_segments(kernel_offset, segs) == plan_segments(kernel_offset, segs.take(j)),
    decreases segs.len(),
{
    if j < segs.len() {
        let shorter = segs.drop_last();
        assert(segs.take(j) =~= shorter.take(j));
        lemma_plan_segments_error_persists(kernel_offset, shorter, j);
    } else {
        assert(segs.take(j) =~= segs);
    }
}

/// Largest end address (`virtual_addr + mem_size`) of the loadable segments,
/// `None` when there are none.
pub open spec fn max_load_end(segs: Seq<SegmentHeader>) -> Option<int>
    decreases segs.len(),
{
    if segs.len() == 0 {
        None
    } else {
        let rest = max_load_end(segs.drop_last());
        let s = segs.last();
        if s.kind == SegmentKind::Load {
            let e = s.virtual_addr + s.mem_size;
            match rest {
                None => Some(e),
                Some(m) => Some(if e > m { e } else { m }),
            }
        } else {
            rest
        }
    }
}

/// Smallest start address of the loadable segments, `None` when there are none.
pub open spec fn min_load_start(segs: Seq<SegmentHeader>) -> Option<int>
    decreases segs.len(),
{
    if segs.len() == 0 {
        None
    } else {
        let rest = min_load_start(segs.drop_last());
        let s = segs.last();
        if s.kind == SegmentKind::Load {
            let v = s.virtual_addr as int;
            match rest {
                None => Some(v),
                Some(m) => Some(if v < m { v } else { m }),
            }
        } else {
            rest
        }
    }
}

/// The end address of every loadable segment fits in a `u64`.
pub open spec fn load_ends_fit(segs: Seq<SegmentHeader>) -> bool {
    forall|i: int|
        0 <= i < segs.len() && (#[trigger] segs[i]).kind == SegmentKind::Load ==> segs[i].virtual_addr
            + segs[i].mem_size <= u64::MAX
}

/// Value of an optional bound, 0 when absent.
pub open spec fn or_zero(v: Option<int>) -> int {
    match v {
        Some(x) => x,
        None => 0,
    }
}

/// Span of virtual memory the loadable segments occupy: `(size, lowest start)`,
/// where size runs from the lowest start to the highest end; `(0, 0)` without
/// loadable segments.
pub fn calc_memory_requirements(elf: &KernelImage) -> (r: (u64, u64))
    requires
        load_ends_fit(elf.segments@),
    ensures
        r.0 == or_zero(max_load_end(elf.segments@)) - or_zero(min_load_start(elf.segments@)),
        r.1 == or_zero(min_load_start(elf.segments@)),
{
    let ghost segs = elf.segments@;
    let mut max_addr: Option<u64> = None;
    let mut min_addr: Option<u64> = None;
    let mut i: usize = 0;
    while i < elf.segments.len()
        invariant
            0 <= i <= segs.len(),
            segs == elf.segments@,
            load_ends_fit(segs),
            max_addr.is_some() == min_addr.is_some(),
            max_load_end(segs.take(i as int)) == (match max_addr {
                Some(m) => Some(m as int),
                None => None::<int>,
            }),
            min_load_start(segs.take(i as int)) == (match min_addr {
                Some(m) => Some(m as int),
                None => None::<int>,
            }),
            max_addr.is_some() ==> min_addr.unwrap() <= max_addr.unwrap(),
        decreases segs.len() - i,
    {
        let segment = elf.segments[i];
        proof {
            assert(segs.take(i as int + 1).drop_last() =~= segs.take(i as int));
            assert(segs.take(i as int + 1).last() == segment);
        }
        if segment.kind == SegmentKind::Load {
            assert(segs[i as int].kind == SegmentKind::Load);
            let end = segment.virtual_addr + segment.mem_size;
            let start = segment.virtual_addr;
            max_addr = match max_addr {
                None => Some(end),
                Some(m) => Some(if end > m { end } else { m }),
            };
            min_addr = match min_addr {
                None => Some(start),
                Some(m) => Some(if start < m { start } else { m }),
            };
        }
        i = i + 1;
    }
    proof {
        assert(segs.take(i as int) =~= segs);
    }
    let max_addr = match max_addr {
        Some(m) => m,
        None => 0,
    };
    let min_addr = match min_addr {
        Some(m) => m,
        None => 0,
    };
    let size = max_addr - min_addr;
    (size, min_addr)
}

/// The flags with which a page is remapped to a private copy of its frame, or
/// `None` when the page already is such a copy and is used as it is.
pub fn private_copy_flags(flags: u64) -> (r: Option<u64>)
    ensures
        r == (if flags & COPIED_FLAG == COPIED_FLAG {
            None::<u64>
        } else {
            Some(flags | COPIED_FLAG)
        }),
{
    if flags & COPIED_FLAG == COPIED_FLAG {
        None
    } else {
        Some(flags | COPIED_FLAG)
    }
}

/// Placement law of the file data: when the segment's physical data start and
/// its virtual address have the same offset within a page (as ELF requires of
/// loadable segments), each byte of the file data lies in one of the planned
/// frames, and that frame is mapped at the page of the byte's virtual address.
pub proof fn lemma_file_bytes_land_at_their_address(kernel_offset: u64, s: SegmentHeader, o: int)
    requires
        segment_plan(kernel_offset, s) is Some,
        (kernel_offset + s.offset) % 4096 == s.virtual_addr % 4096,
        0 <= o < s.file_size,
    ensures
        ({
            let p = segment_plan(kernel_offset, s)->0;
            let frame = page_floor(kernel_offset + s.offset + o);
            &&& p.first_frame <= frame <= p.last_frame
            &&& p.first_page + (frame - p.first_frame) == page_floor(s.virtual_addr + o)
        }),
{
    reveal(segment_plan);
    let p0 = kernel_offset + s.offset;
    let v = s.virtual_addr as int;
    lemma_page_floor_monotone(p0, p0 + o);
    lemma_page_floor_monotone(p0 + o, p0 + s.file_size - 1);
    assert((p0 + o) % 4096 == (v + o) % 4096) by (nonlinear_arith)
        requires
            p0 % 4096 == v % 4096,
            p0 >= 0,
            v >= 0,
            o >= 0,
    ;
}

/// Zero-fill law: every address from the end of the file data to the end of
/// the segment in memory is covered either by the zeroed tail of the last file
/// page or by a fresh page, the zeroed tail starts exactly at the end of the
/// file data, and the fresh pages lie above the file data and below the end of
/// the segment.
pub proof fn lemma_zero_fill_covers_bss(kernel_offset: u64, s: SegmentHeader, a: int)
    requires
        segment_plan(kernel_offset, s) is Some,
        s.mem_size > s.file_size,
        s.virtual_addr + s.file_size <= a < s.virtual_addr + s.mem_size,
    ensures
        ({
            let b = segment_plan(kernel_offset, s)->0.bss;
            &&& b is Some
            &&& b->0.first_page >= s.virtual_addr + s.file_size
            &&& b->0.last_page < s.virtual_addr + s.mem_size
            &&& (match b->0.partial {
                Some(z) => z.page + z.offset == s.virtual_addr + s.file_size && 0 < z.offset < 4096,
                None => (s.virtual_addr + s.file_size) % 4096 == 0,
            })
            &&& ((b->0.partial matches Some(z) && page_floor(a) == z.page && a % 4096 >= z.offset)
                || (b->0.first_page <= page_floor(a) <= b->0.last_page))
        }),
{
    lemma_segment_plan_bss(kernel_offset, s);
    lemma_bss_part_covers(s, a);
}

/// The zero-fill part of a planned segment is its `bss_part`.
proof fn lemma_segment_plan_bss(kernel_offset: u64, s: SegmentHeader)
    requires
        segment_plan(kernel_offset, s) is Some,
    ensures
        bss_part(s) is Some,
        segment_plan(kernel_offset, s)->0.bss == bss_part(s)->0,
{
    reveal(segment_plan);
}

proof fn lemma_bss_part_covers(s: SegmentHeader, a: int)
    requires
        bss_part(s) is Some,
        s.mem_size > s.file_size,
        s.virtual_addr + s.file_size <= a < s.virtual_addr + s.mem_size,
    ensures
        ({
            let b = bss_part(s)->0;
            &&& b is Some
            &&& b->0.first_page >= s.virtual_addr + s.file_size
            &&& b->0.last_page < s.virtual_addr + s.mem_size
            &&& (match b->0.partial {
                Some(z) => z.page + z.offset == s.virtual_addr + s.file_size && 0 < z.offset < 4096,
                None => (s.virtual_addr + s.file_size) % 4096 == 0,
            })
            &&& ((b->0.partial matches Some(z) && page_floor(a) == z.page && a % 4096 >= z.offset)
                || (b->0.first_page <= page_floor(a) <= b->0.last_page))
        }),
{
    let zs = s.virtual_addr + s.file_size;
    let ze = s.virtual_addr + s.mem_size;
    lemma_page_floor_monotone(a, ze - 1);
    if zs % 4096 != 0 {
        lemma_page_floor_monotone(zs - 1, a);
        assert(page_floor(zs - 1) == page_floor(zs));
    }
}

/// Bounds of the loadable segments: the lowest start is at most every
/// loadable segment's start, the highest end at least every end, and both are
/// attained by some loadable segment.
pub proof fn lemma_load_bounds(segs: Seq<SegmentHeader>)
    ensures
        max_load_end(segs) is Some <==> min_load_start(segs) is Some,
        max_load_end(segs) is Some <==> exists|i: int| 0 <= i < segs.len() && (#[trigger] segs[i]).kind == SegmentKind::Load,
        forall|i: int|
            0 <= i < segs.len() && (#[trigger] segs[i]).kind == SegmentKind::Load ==> min_load_start(segs)->0
                <= segs[i].virtual_addr && segs[i].virtual_addr + segs[i].mem_size <= max_load_end(segs)->0,
        max_load_end(segs) is Some ==> exists|i: int|
            0 <= i < segs.len() && (#[trigger] segs[i]).kind == SegmentKind::Load && segs[i].virtual_addr
                + segs[i].mem_size == max_load_end(segs)->0,
        min_load_start(segs) is Some ==> exists|i: int|
            0 <= i < segs.len() && (#[trigger] segs[i]).kind == SegmentKind::Load && segs[i].virtual_addr
                == min_load_start(segs)->0,
    decreases segs.len(),
{
    if segs.len() > 0 {
        let shorter = segs.drop_last();
        lemma_load_bounds(shorter);
        let l = segs.len() - 1;
        assert(segs[l] == segs.last());
        assert forall|i: int| 0 <= i < shorter.len() implies #[trigger] shorter[i] == segs[i] by {}
        if max_load_end(shorter) is Some {
            let wmax = choose|i: int|
                0 <= i < shorter.len() && (#[trigger] shorter[i]).kind == SegmentKind::Load && shorter[i].virtual_addr
                    + shorter[i].mem_size == max_load_end(shorter)->0;
            let wmin = choose|i: int|
                0 <= i < shorter.len() && (#[trigger] shorter[i]).kind == SegmentKind::Load && shorter[i].virtual_addr
                    == min_load_start(shorter)->0;
            assert(segs[wmax] == shorter[wmax]);
            assert(segs[wmin] == shorter[wmin]);
        }
        assert forall|i: int|
            0 <= i < segs.len() && (#[trigger] segs[i]).kind == SegmentKind::Load implies min_load_start(segs)->0
                <= segs[i].virtual_addr && segs[i].virtual_addr + segs[i].mem_size <= max_load_end(segs)->0 by {
            if i < l {
                assert(shorter[i] == segs[i]);
            }
        }
        if max_load_end(segs) is Some && max_load_end(shorter) is None {
            assert(segs[l].kind == SegmentKind::Load);
        }
        if exists|i: int| 0 <= i < segs.len() && (#[trigger] segs[i]).kind == SegmentKind::Load {
            let w = choose|i: int| 0 <= i < segs.len() && (#[trigger] segs[i]).kind == SegmentKind::Load;
            if w < l {
                assert(shorter[w] == segs[w]);
            }
        }
    }
}

/// `calc_memory_requirements` spans every loadable segment: the lowest start
/// is at most each segment's start and start plus size at least each
/// segment's end.
pub proof fn lemma_memory_requirements_cover(segs: Seq<SegmentHeader>, i: int)
    requires
        0 <= i < segs.len(),
        segs[i].kind == SegmentKind::Load,
    ensures
        or_zero(min_load_start(segs)) <= segs[i].virtual_addr,
        segs[i].virtual_addr + segs[i].mem_size <= or_zero(min_load_start(segs)) + (or_zero(max_load_end(segs))
            - or_zero(min_load_start(segs))),
{
    lemma_load_bounds(segs);
}

/// Remapping law of private copies: the new flags keep every other flag and
/// carry the copy mark, and a page so marked is never copied again.
pub proof fn lemma_private_copy_flags(flags: u64)
    requires
        flags & COPIED_FLAG != COPIED_FLAG,
    ensures
        (flags | COPIED_FLAG) & COPIED_FLAG == COPIED_FLAG,
        (flags | COPIED_FLAG) & !COPIED_FLAG == flags & !COPIED_FLAG,
        flags | COPIED_FLAG != flags,
{
    assert((flags | 0x200u64) & 0x200u64 == 0x200u64) by (bit_vector);
    assert((flags | 0x200u64) & !0x200u64 == flags & !0x200u64) by (bit_vector);
    assert(flags & 0x200u64 != 0x200u64 ==> (flags | 0x200u64) != flags) by (bit_vector);
}

/// Every loadable header of `a` has a loadable header in `b` with the same
/// start address and memory size.
pub open spec fn load_extents_within(a: Seq<SegmentHeader>, b: Seq<SegmentHeader>) -> bool {
    forall|i: int|
        0 <= i < a.len() && (#[trigger] a[i]).kind == SegmentKind::Load ==> exists|j: int|
            0 <= j < b.len() && (#[trigger] b[j]).kind == SegmentKind::Load && b[j].virtual_addr == a[i].virtual_addr
                && b[j].mem_size == a[i].mem_size
}

/// Order law of `calc_memory_requirements`: only the start addresses and
/// memory sizes of the loadable headers matter. Two header lists whose
/// loadable headers agree on these (in any order, any number of times) get the
/// same answer, whatever their other headers are.
pub proof fn lemma_memory_requirements_ignore_order(a: Seq<SegmentHeader>, b: Seq<SegmentHeader>)
    requires
        load_extents_within(a, b),
        load_extents_within(b, a),
    ensures
        or_zero(min_load_start(a)) == or_zero(min_load_start(b)),
        or_zero(max_load_end(a)) - or_zero(min_load_start(a)) == or_zero(max_load_end(b)) - or_zero(
            min_load_start(b),
        ),
{
    lemma_load_bounds(a);
    lemma_load_bounds(b);
    lemma_load_bounds_agree(a, b);
    lemma_load_bounds_agree(b, a);
}

/// One direction of the order law: the bounds of `a` are within those of `b`.
proof fn lemma_load_bounds_agree(a: Seq<SegmentHeader>, b: Seq<SegmentHeader>)
    requires
        load_extents_within(a, b),
    ensures
        max_load_end(a) is Some ==> max_load_end(b) is Some && max_load_end(a)->0 <= max_load_end(b)->0,
        min_load_start(a) is Some ==> min_load_start(b) is Some && min_load_start(b)->0 <= min_load_start(a)->0,
{
    lemma_load_bounds(a);
    lemma_load_bounds(b);
    if max_load_end(a) is Some {
        let i = choose|i: int|
            0 <= i < a.len() && (#[trigger] a[i]).kind == SegmentKind::Load && a[i].virtual_addr + a[i].mem_size
                == max_load_end(a)->0;
        let j = choose|j: int|
            0 <= j < b.len() && (#[trigger] b[j]).kind == SegmentKind::Load && b[j].virtual_addr == a[i].virtual_addr
                && b[j].mem_size == a[i].mem_size;
        assert(b[j].kind == SegmentKind::Load);
    }
    if min_load_start(a) is Some {
        let i = choose|i: int|
            0 <= i < a.len() && (#[trigger] a[i]).kind == SegmentKind::Load && a[i].virtual_addr == min_load_start(
                a,
            )->0;
        let j = choose|j: int|
            0 <= j < b.len() && (#[trigger] b[j]).kind == SegmentKind::Load && b[j].virtual_addr == a[i].virtual_addr
                && b[j].mem_size == a[i].mem_size;
        assert(b[j].kind == SegmentKind::Load);
    }
}

/// What translating a page of the kernel's table found, as plain values.
#[derive(Clone, Copy, Debug, PartialEq, Eq, Structural)]
pub enum Translation {
    /// Mapped to a 4 KiB frame with the given flag bits.
    Mapped4KiB { frame: u64, flags: u64 },
    /// Mapped to a larger frame.
    MappedHuge,
    /// Not mapped.
    NotMapped,
    /// Mapped to a frame address the table cannot hold.
    InvalidFrameAddress,
}

/// How to obtain a private, writable copy of a mapped page.
#[derive(Clone, Copy, Debug, PartialEq, Eq, Structural)]
pub enum CopyStep {
    /// The page already maps a private copy: use this frame.
    UseFrame(u64),
    /// Copy `frame` to a fresh frame and remap the page to it with `flags`.
    CopyFrame { frame: u64, flags: u64 },
}

/// Why a page cannot be made private.
#[derive(Clone, Copy, Debug, PartialEq, Eq, Structural)]
pub enum CopyError {
    /// The page is not mapped.
    NotMapped,
    /// The page maps something the loader never maps: a huge frame or an
    /// invalid frame address.
    Unexpected,
}

/// Decides how the page whose translation is `t` is made private: a page
/// already marked as a copy keeps its frame; any other 4 KiB page is copied
/// and remapped with the copy mark added.
pub fn private_copy_step(t: Translation) -> (r: Result<CopyStep, CopyError>)
    ensures
        r == (match t {
            Translation::Mapped4KiB { frame, flags } => if flags & COPIED_FLAG == COPIED_FLAG {
                Ok(CopyStep::UseFrame(frame))
            } else {
                Ok(CopyStep::CopyFrame { frame, flags: flags | COPIED_FLAG })
            },
            Translation::NotMapped => Err(CopyError::NotMapped),
            _ => Err(CopyError::Unexpected),
        }),
{
    match t {
        Translation::Mapped4KiB { frame, flags } => match private_copy_flags(flags) {
            None => Ok(CopyStep::UseFrame(frame)),
            Some(new_flags) => Ok(CopyStep::CopyFrame { frame, flags: new_flags }),
        },
        Translation::NotMapped => Err(CopyError::NotMapped),
        Translation::MappedHuge => Err(CopyError::Unexpected),
        Translation::InvalidFrameAddress => Err(CopyError::Unexpected),
    }
}

/// Acceptance law of `load_kernel`: an image that is not an executable is
/// refused as such; for an executable whose headers all plan, the answer is
/// `Ok` with the image's own entry point exactly when that entry point lies in
/// the lower half below 2^47 or the upper half from 2^64 - 2^47, and
/// `NonCanonicalEntryPoint` otherwise.
pub proof fn lemma_kernel_plan_entry_point(image_type: u16, entry: u64, segs: Seq<SegmentHeader>, kernel_offset: u64)
    ensures
        image_type != 2 ==> kernel_plan(image_type, entry, segs, kernel_offset) == Err::<(Seq<SegmentPlan>, u64), LoadError>(
            LoadError::NotExecutable,
        ),
        image_type == 2 && plan_segments(kernel_offset, segs) is Ok ==> {
            &&& (entry < 0x0000_8000_0000_0000 || entry >= 0xffff_8000_0000_0000) ==> kernel_plan(
                image_type,
                entry,
                segs,
                kernel_offset,
            ) == Ok::<(Seq<SegmentPlan>, u64), LoadError>((plan_segments(kernel_offset, segs)->Ok_0, entry))
            &&& !(entry < 0x0000_8000_0000_0000 || entry >= 0xffff_8000_0000_0000) ==> kernel_plan(
                image_type,
                entry,
                segs,
                kernel_offset,
            ) == Err::<(Seq<SegmentPlan>, u64), LoadError>(LoadError::NonCanonicalEntryPoint)
        },
{
}

/// Frame law of a planned segment, over the input addresses: the image frames
/// run from the frame holding the first file byte (`kernel_offset + offset`)
/// to the frame holding the address just below the end of the file data
/// (`kernel_offset + offset + file_size - 1`), and they are mapped from the
/// page holding the segment's virtual address on.
pub proof fn lemma_segment_frames(kernel_offset: u64, s: SegmentHeader)
    requires
        segment_plan(kernel_offset, s) is Some,
    ensures
        ({
            let p = segment_plan(kernel_offset, s)->0;
            let p0 = kernel_offset + s.offset;
            let last_byte = p0 + s.file_size - 1;
            &&& 0 <= p0 && p0 + s.file_size < 0x0010_0000_0000_0000 && p0 + s.file_size >= 1
            &&& p.first_frame == p0 - p0 % 4096
            &&& p.last_frame == last_byte - last_byte % 4096
            &&& p.first_page == s.virtual_addr - s.virtual_addr % 4096
        }),
{
    reveal(segment_plan);
}

/// Exactness law of the image frames: when the segment has file data, an
/// aligned frame lies between `first_frame` and `last_frame` exactly when it
/// holds at least one byte of the file data; without file data at a page
/// boundary no image frame is planned.
pub proof fn lemma_frames_hold_file_bytes(kernel_offset: u64, s: SegmentHeader, f: int)
    requires
        segment_plan(kernel_offset, s) is Some,
        f % 4096 == 0,
    ensures
        ({
            let p = segment_plan(kernel_offset, s)->0;
            let p0 = kernel_offset + s.offset;
            &&& s.file_size > 0 ==> ((p.first_frame <= f <= p.last_frame) <==> exists|o: int|
                0 <= o < s.file_size && #[trigger] page_floor(p0 + o) == f)
            &&& (s.file_size == 0 && p0 % 4096 == 0) ==> p.last_frame < p.first_frame
        }),
{
    lemma_segment_frames(kernel_offset, s);
    let p = segment_plan(kernel_offset, s)->0;
    let p0 = kernel_offset + s.offset;
    if s.file_size > 0 {
        if p.first_frame <= f <= p.last_frame {
            let o = if f <= p0 { 0 } else { f - p0 };
            assert(0 <= o < s.file_size);
            assert(page_floor(p0 + o) == f);
        }
        if exists|o: int| 0 <= o < s.file_size && #[trigger] page_floor(p0 + o) == f {
            let o = choose|o: int| 0 <= o < s.file_size && #[trigger] page_floor(p0 + o) == f;
            lemma_page_floor_monotone(p0, p0 + o);
            lemma_page_floor_monotone(p0 + o, p0 + s.file_size - 1);
        }
    }
}

} // verus!
