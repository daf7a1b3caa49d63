//! Building the memory image of an ELF64 binary.
//!
//! Loading maps every loadable segment, page by page, onto fresh frames of a
//! [`FrameProvider`], and then fills the mapped range: the segment's bytes
//! from the file first, zero bytes after them up to the segment's size in
//! memory. The address space that is built is handed in by the caller, who
//! must hold it exclusively while the load runs.
//!
//! Every loadable segment is mapped readable and writable at kernel
//! privilege, whatever access flags its descriptor carries.

use vstd::prelude::*;
use vstd::slice::slice_subrange;
use crate::elf::{Elf64Header, Elf64ProgramHeader, PT_LOAD};
use crate::memory::{
    AddressSpace,
    FrameProvider,
    FrameProviderView,
    PageAttr,
    PageView,
    byte_at,
    bytes_at,
    is_mapped,
    lemma_bytes_at_extends,
    lemma_overlay_wf,
    overlay,
    page_index,
    pages_wf,
    range_mapped,
    region_valid,
    zeroed_page,
    zeros,
};
use crate::paging::{
    ATTR_MASK,
    PAGE_SIZE,
    is_page_aligned,
    lemma_page_floor_unique,
    lemma_page_of_address,
    page_base,
    page_floor,
    pages_spanned,
};

verus! {

/// Why an image was not loaded.
#[derive(Debug, Clone, Copy, PartialEq, Eq, Structural)]
pub enum LoadError {
    /// The buffer does not start with a header this loader takes.
    InvalidHeader,
    /// A loadable segment names bytes outside the file, is larger in the file
    /// than in memory, or ends beyond the last page boundary below the top of
    /// the address range.
    MalformedSegment,
    /// The provider ran out of frames.
    OutOfFrames,
    /// A page of a loadable segment was mapped already.
    MappingConflict,
}

/// Whether the loader acts on a segment.
pub open spec fn is_loadable(ph: Elf64ProgramHeader) -> bool {
    ph.p_type == PT_LOAD
}

/// Whether a loadable segment can be placed: its bytes lie inside a file of
/// `len` bytes, it is at least as large in memory as in the file, and the
/// page boundary that closes its range is an address.
pub open spec fn segment_well_formed(ph: Elf64ProgramHeader, len: int) -> bool {
    &&& ph.p_filesz <= ph.p_memsz
    &&& ph.p_offset + ph.p_filesz <= len
    &&& ph.p_vaddr + ph.p_memsz + ATTR_MASK <= u64::MAX
}

/// First address of the first page of a segment.
pub open spec fn segment_base(ph: Elf64ProgramHeader) -> int {
    page_floor(ph.p_vaddr as int)
}

/// Number of pages a segment takes.
pub open spec fn segment_page_count(ph: Elf64ProgramHeader) -> int {
    pages_spanned(ph.p_vaddr as int, ph.p_memsz as int)
}

/// The byte a loaded segment leaves at virtual address `addr` of its page
/// range: the file's byte where the address lies in the file-backed part, and
/// zero elsewhere.
pub open spec fn segment_byte(ph: Elf64ProgramHeader, data: Seq<u8>, addr: int) -> u8 {
    if ph.p_vaddr <= addr < ph.p_vaddr + ph.p_filesz {
        data[ph.p_offset + (addr - ph.p_vaddr)]
    } else {
        0u8
    }
}

/// Page `i` of a loaded segment, whose frames start at physical address
/// `first_frame`.
pub open spec fn segment_page(
    ph: Elf64ProgramHeader,
    data: Seq<u8>,
    first_frame: int,
    i: int,
) -> PageView {
    PageView {
        vbase: (segment_base(ph) + PAGE_SIZE * i) as u64,
        phys: (first_frame + PAGE_SIZE * i) as u64,
        attr: PageAttr::ReadWriteKernel,
        bytes: Seq::new(
            PAGE_SIZE as nat,
            |k: int| segment_byte(ph, data, segment_base(ph) + PAGE_SIZE * i + k),
        ),
    }
}

/// The pages of a loaded segment, lowest address first.
pub open spec fn segment_pages(ph: Elf64ProgramHeader, data: Seq<u8>, first_frame: int) -> Seq<
    PageView,
> {
    Seq::new(segment_page_count(ph) as nat, |i: int| segment_page(ph, data, first_frame, i))
}

/// Whether one of the first `limit` pages of a segment is mapped already.
pub open spec fn segment_conflict(pages: Seq<PageView>, ph: Elf64ProgramHeader, limit: int) -> bool {
    exists|i: int|
        0 <= i < segment_page_count(ph) && i < limit && is_mapped(
            pages,
            #[trigger] segment_page_address(ph, i),
        )
}

/// First address of page `i` of a segment.
pub open spec fn segment_page_address(ph: Elf64ProgramHeader, i: int) -> int {
    segment_base(ph) + PAGE_SIZE * i
}

/// A provider after it handed out `count` frames.
pub open spec fn frames_after(frames: FrameProviderView, count: int) -> FrameProviderView {
    FrameProviderView {
        next: (frames.next + PAGE_SIZE * count) as u64,
        remaining: (frames.remaining - count) as u64,
        issued: (frames.issued + count) as u64,
    }
}

/// Whether a provider in state `before` can have come to state `after` by
/// handing out frames, and in no other way.
pub open spec fn frames_taken(before: FrameProviderView, after: FrameProviderView) -> bool {
    &&& before.issued <= after.issued
    &&& after.issued - before.issued <= before.remaining
    &&& after == frames_after(before, after.issued - before.issued)
}

/// What loading one segment does to the mappings and to the provider.
///
/// A segment that is not loadable changes nothing. A loadable one is checked
/// first; then its pages are taken in order, each needing a frame and then a
/// free page, so that of a lack of frames and a page mapped already the one
/// met first decides the error.
pub open spec fn load_segment_spec(
    ph: Elf64ProgramHeader,
    data: Seq<u8>,
    pages: Seq<PageView>,
    frames: FrameProviderView,
) -> Result<(Seq<PageView>, FrameProviderView), LoadError> {
    if !is_loadable(ph) {
        Ok((pages, frames))
    } else if !segment_well_formed(ph, data.len() as int) {
        Err(LoadError::MalformedSegment)
    } else if segment_conflict(pages, ph, frames.remaining as int) {
        Err(LoadError::MappingConflict)
    } else if frames.remaining < segment_page_count(ph) {
        Err(LoadError::OutOfFrames)
    } else {
        Ok(
            (
                pages + segment_pages(ph, data, frames.next as int),
                frames_after(frames, segment_page_count(ph)),
            ),
        )
    }
}

/// What loading the segments `segs`, in order, does to the mappings and to the
/// provider: the first segment that fails ends the load with its error.
pub open spec fn load_segments_spec(
    segs: Seq<Elf64ProgramHeader>,
    data: Seq<u8>,
    pages: Seq<PageView>,
    frames: FrameProviderView,
) -> Result<(Seq<PageView>, FrameProviderView), LoadError>
    decreases segs.len(),
{
    if segs.len() == 0 {
        Ok((pages, frames))
    } else {
        match load_segment_spec(segs[0], data, pages, frames) {
            Err(e) => Err(e),
            Ok((pages, frames)) => load_segments_spec(segs.drop_first(), data, pages, frames),
        }
    }
}

/// What [`load_elf`] does for the image `data`: the entry address, the
/// mappings and the provider after a successful load, or the error.
pub open spec fn load_spec(data: Seq<u8>, pages: Seq<PageView>, frames: FrameProviderView) -> Result<
    (u64, Seq<PageView>, FrameProviderView),
    LoadError,
> {
    match Elf64Header::parse_spec(data) {
        None => Err(LoadError::InvalidHeader),
        Some(header) => match load_segments_spec(
            Elf64ProgramHeader::table(data, header, header.phnum as nat),
            data,
            pages,
            frames,
        ) {
            Err(e) => Err(e),
            Ok((pages, frames)) => Ok((header.entry, pages, frames)),
        },
    }
}

/// The address at which execution of a loaded image starts.
pub fn entry_point(header: &Elf64Header) -> (entry: u64)
    ensures
        entry == header.entry,
{
    header.entry
}

/// Checks a loadable segment against a file of `len` bytes.
pub fn check_segment(ph: &Elf64ProgramHeader, len: usize) -> (ok: bool)
    ensures
        ok == segment_well_formed(*ph, len as int),
{
    if ph.p_filesz > ph.p_memsz {
        return false;
    }
    if ph.p_offset > len as u64 || ph.p_filesz > len as u64 - ph.p_offset {
        return false;
    }
    if ph.p_memsz > u64::MAX - ATTR_MASK {
        return false;
    }
    ph.p_vaddr <= u64::MAX - ATTR_MASK - ph.p_memsz
}

/// Loads one segment into `space`.
///
/// A segment that is not loadable is passed over: nothing is mapped, nothing
/// is asked of `frames`, nothing is written. For a loadable one, every page of
/// its range is mapped onto a fresh frame, and only then are the mapped pages
/// filled. After an error `space` may hold some of the segment's pages; the
/// mappings it held before are as they were.
pub fn load_segment(
    data: &[u8],
    ph: &Elf64ProgramHeader,
    space: &mut AddressSpace,
    frames: &mut FrameProvider,
) -> (res: Result<(), LoadError>)
    requires
        old(space).wf(),
        old(frames).wf(),
    ensures
        final(space).wf(),
        final(frames).wf(),
        old(space)@.is_prefix_of(final(space)@),
        frames_taken(old(frames)@, final(frames)@),
        match load_segment_spec(*ph, data@, old(space)@, old(frames)@) {
            Ok((pages, provider)) => res is Ok && final(space)@ == pages && final(frames)@
                == provider,
            Err(e) => res == Err::<(), LoadError>(e),
        },
        res == Err::<(), LoadError>(LoadError::MalformedSegment) ==> final(space)@ == old(space)@
            && final(frames)@ == old(frames)@,
        !is_loadable(*ph) ==> res is Ok && final(space)@ == old(space)@ && final(frames)@ == old(
            frames,
        )@,
{
    if ph.p_type != PT_LOAD {
        return Ok(());
    }
    if !check_segment(ph, data.len()) {
        return Err(LoadError::MalformedSegment);
    }
    let start: u64 = page_base(ph.p_vaddr);
    let end: u64 = page_base(ph.p_vaddr + ph.p_memsz + ATTR_MASK);
    let count: u64 = (end - start) / PAGE_SIZE;
    let ghost first_frame: int = frames@.next as int;
    let mut i: u64 = 0;
    while i < count
        invariant
            space.wf(),
            frames.wf(),
            old(frames).wf(),
            is_loadable(*ph),
            segment_well_formed(*ph, data@.len() as int),
            i <= count,
            count == segment_page_count(*ph),
            start == segment_base(*ph),
            start + PAGE_SIZE * count <= u64::MAX,
            first_frame == old(frames)@.next,
            i <= old(frames)@.remaining,
            frames@ == frames_after(old(frames)@, i as int),
            space@ == old(space)@ + blank_pages(*ph, first_frame, i as int),
            !segment_conflict(old(space)@, *ph, i as int),
        decreases count - i,
    {
        let frame = match frames.allocate() {
            Some(frame) => frame,
            None => {
                return Err(LoadError::OutOfFrames);
            },
        };
        let vbase: u64 = start + i * PAGE_SIZE;
        proof {
            lemma_blank_pages_elsewhere(*ph, old(space)@, first_frame, i as int, i as int);
        }
        match space.map_page(vbase, frame, PageAttr::ReadWriteKernel) {
            Ok(()) => {},
            Err(_) => {
                return Err(LoadError::MappingConflict);
            },
        }
        i = i + 1;
    }
    let src = slice_subrange(data, ph.p_offset as usize, (ph.p_offset + ph.p_filesz) as usize);
    proof {
        lemma_blank_pages_cover(*ph, old(space)@, first_frame);
    }
    let ghost mapped = space@;
    space.store(ph.p_vaddr, src);
    proof {
        lemma_overlay_wf(mapped, ph.p_vaddr as int, src@);
    }
    space.clear(ph.p_vaddr + ph.p_filesz, ph.p_memsz - ph.p_filesz);
    proof {
        lemma_filled_pages(*ph, data@, old(space)@, first_frame);
    }
    Ok(())
}

/// Loads the segments `segments` of the image `data` into `space`, in order.
///
/// The first segment that fails ends the load with its error; `space` may
/// then hold part of the image. The mappings that `space` held before the call
/// are never touched.
pub fn load_segments(
    data: &[u8],
    segments: &[Elf64ProgramHeader],
    space: &mut AddressSpace,
    frames: &mut FrameProvider,
) -> (res: Result<(), LoadError>)
    requires
        old(space).wf(),
        old(frames).wf(),
    ensures
        final(space).wf(),
        final(frames).wf(),
        old(space)@.is_prefix_of(final(space)@),
        frames_taken(old(frames)@, final(frames)@),
        match load_segments_spec(segments@, data@, old(space)@, old(frames)@) {
            Ok((pages, provider)) => res is Ok && final(space)@ == pages && final(frames)@
                == provider,
            Err(e) => res == Err::<(), LoadError>(e),
        },
        res != Err::<(), LoadError>(LoadError::InvalidHeader),
{
    assert(segments@.skip(0) =~= segments@);
    let mut i: usize = 0;
    while i < segments.len()
        invariant
            space.wf(),
            frames.wf(),
            old(frames).wf(),
            i <= segments@.len(),
            old(space)@.is_prefix_of(space@),
            frames_taken(old(frames)@, frames@),
            load_segments_spec(segments@, data@, old(space)@, old(frames)@) == load_segments_spec(
                segments@.skip(i as int),
                data@,
                space@,
                frames@,
            ),
        decreases segments@.len() - i,
    {
        let ghost taken = frames@;
        proof {
            assert(segments@.skip(i as int).drop_first() =~= segments@.skip(i + 1));
        }
        let loaded = load_segment(data, &segments[i], space, frames);
        proof {
            lemma_frames_taken_twice(old(frames)@, taken, frames@);
        }
        match loaded {
            Ok(()) => {},
            Err(e) => {
                return Err(e);
            },
        }
        i = i + 1;
    }
    Ok(())
}

/// Loads the ELF64 image `data` into `space`, taking frames from `frames`,
/// and returns the address at which its execution starts.
///
/// The load either completes or fails as a whole: after an error `space` may
/// hold part of the image and must not be run. The mappings that `space`
/// held before the call are never touched.
pub fn load_elf(data: &[u8], space: &mut AddressSpace, frames: &mut FrameProvider) -> (res: Result<
    u64,
    LoadError,
>)
    requires
        old(space).wf(),
        old(frames).wf(),
    ensures
        final(space).wf(),
        final(frames).wf(),
        old(space)@.is_prefix_of(final(space)@),
        frames_taken(old(frames)@, final(frames)@),
        match load_spec(data@, old(space)@, old(frames)@) {
            Ok((entry, pages, provider)) => res == Ok::<u64, LoadError>(entry) && final(space)@
                == pages && final(frames)@ == provider,
            Err(e) => res == Err::<u64, LoadError>(e),
        },
        res == Err::<u64, LoadError>(LoadError::InvalidHeader) ==> final(space)@ == old(space)@
            && final(frames)@ == old(frames)@,
{
    let header = match Elf64Header::parse(data) {
        Some(header) => header,
        None => {
            return Err(LoadError::InvalidHeader);
        },
    };
    let segments = Elf64ProgramHeader::parse_all(data, &header);
    match load_segments(data, segments.as_slice(), space, frames) {
        Ok(()) => Ok(entry_point(&header)),
        Err(e) => Err(e),
    }
}

/// The first `count` pages of a segment as they are right after mapping:
/// each on its own fresh frame, all zero.
spec fn blank_pages(ph: Elf64ProgramHeader, first_frame: int, count: int) -> Seq<PageView> {
    Seq::new(
        count as nat,
        |i: int|
            PageView {
                vbase: (segment_base(ph) + PAGE_SIZE * i) as u64,
                phys: (first_frame + PAGE_SIZE * i) as u64,
                attr: PageAttr::ReadWriteKernel,
                bytes: zeroed_page(),
            },
    )
}

/// Page `i` of a segment is none of its first `count` pages when `i` is not
/// below `count`: it is mapped after those were mapped only if it was mapped
/// before.
proof fn lemma_blank_pages_elsewhere(
    ph: Elf64ProgramHeader,
    pages: Seq<PageView>,
    first_frame: int,
    count: int,
    i: int,
)
    requires
        0 <= count <= i,
        segment_base(ph) + PAGE_SIZE * (i + 1) <= u64::MAX + 1,
    ensures
        is_mapped(pages + blank_pages(ph, first_frame, count), segment_page_address(ph, i))
            == is_mapped(pages, segment_page_address(ph, i)),
{
    let all = pages + blank_pages(ph, first_frame, count);
    let target = segment_page_address(ph, i);
    if is_mapped(pages, target) {
        let p = page_index(pages, target);
        assert(all[p].vbase == target);
    }
    if is_mapped(all, target) {
        let p = page_index(all, target);
        assert(p < pages.len());
    }
}

/// Once all pages of a well-formed segment are mapped, every address of the
/// segment lies in a mapped page.
proof fn lemma_blank_pages_cover(ph: Elf64ProgramHeader, pages: Seq<PageView>, first_frame: int)
    requires
        ph.p_vaddr + ph.p_memsz + ATTR_MASK <= u64::MAX,
    ensures
        range_mapped(
            pages + blank_pages(ph, first_frame, segment_page_count(ph)),
            ph.p_vaddr as int,
            ph.p_memsz as int,
        ),
{
    let blank = blank_pages(ph, first_frame, segment_page_count(ph));
    let all = pages + blank;
    assert forall|a: int| ph.p_vaddr <= a < ph.p_vaddr + ph.p_memsz implies is_mapped(
        all,
        #[trigger] page_floor(a),
    ) by {
        let i = (page_floor(a) - segment_base(ph)) / 4096;
        lemma_page_of_address(ph.p_vaddr as int, ph.p_memsz as int, a);
        assert(all[pages.len() + i] == blank[i]);
    }
}

/// Filling the freshly mapped pages of a segment, file bytes first and zero
/// bytes after them, gives the pages of the loaded segment and leaves every
/// other page as it was.
proof fn lemma_filled_pages(
    ph: Elf64ProgramHeader,
    data: Seq<u8>,
    pages: Seq<PageView>,
    first_frame: int,
)
    requires
        pages_wf(pages),
        segment_well_formed(ph, data.len() as int),
        !segment_conflict(pages, ph, segment_page_count(ph)),
    ensures
        overlay(
            overlay(
                pages + blank_pages(ph, first_frame, segment_page_count(ph)),
                ph.p_vaddr as int,
                data.subrange(ph.p_offset as int, ph.p_offset + ph.p_filesz),
            ),
            ph.p_vaddr + ph.p_filesz,
            zeros((ph.p_memsz - ph.p_filesz) as nat),
        ) == pages + segment_pages(ph, data, first_frame),
{
    let count = segment_page_count(ph);
    let blank = blank_pages(ph, first_frame, count);
    let file = data.subrange(ph.p_offset as int, ph.p_offset + ph.p_filesz);
    let copied = overlay(pages + blank, ph.p_vaddr as int, file);
    let filled = overlay(copied, ph.p_vaddr + ph.p_filesz, zeros((ph.p_memsz - ph.p_filesz) as nat));
    let target = pages + segment_pages(ph, data, first_frame);
    assert forall|p: int| 0 <= p < filled.len() implies filled[p] == target[p] by {
        if p < pages.len() {
            assert forall|k: int| 0 <= k < PAGE_SIZE implies filled[p].bytes[k]
                == pages[p].bytes[k] by {
                let a = pages[p].vbase + k;
                if ph.p_vaddr <= a < ph.p_vaddr + ph.p_memsz {
                    lemma_page_floor_unique(pages[p].vbase as int, a);
                    let i = (pages[p].vbase - segment_base(ph)) / 4096;
                    lemma_page_of_address(ph.p_vaddr as int, ph.p_memsz as int, a);
                    assert(segment_page_address(ph, i) == pages[p].vbase);
                }
            }
            assert(filled[p].bytes =~= pages[p].bytes);
        } else {
            assert(filled[p].bytes =~= target[p].bytes);
        }
    }
}

/// A segment that starts on a page boundary and whose size in memory is a
/// whole number of pages takes exactly that many pages.
pub proof fn lemma_whole_pages(ph: Elf64ProgramHeader, n: int)
    requires
        is_page_aligned(ph.p_vaddr as int),
        0 <= n,
        ph.p_memsz == PAGE_SIZE * n,
    ensures
        segment_page_count(ph) == n,
        segment_base(ph) == ph.p_vaddr,
{
}

/// Loading a segment asks for one frame per page of its range and installs
/// one mapping per page: page `i` of the range is mapped onto the `i`-th frame
/// handed out, and nothing else is mapped or handed out.
pub proof fn lemma_one_frame_per_page(
    ph: Elf64ProgramHeader,
    data: Seq<u8>,
    pages: Seq<PageView>,
    frames: FrameProviderView,
)
    requires
        is_loadable(ph),
        region_valid(frames.next, frames.remaining),
        frames.issued + frames.remaining <= u64::MAX,
        load_segment_spec(ph, data, pages, frames) is Ok,
    ensures
        load_segment_spec(ph, data, pages, frames) matches Ok((after, provider)) && {
            &&& after.len() == pages.len() + segment_page_count(ph)
            &&& after.take(pages.len() as int) == pages
            &&& provider.issued == frames.issued + segment_page_count(ph)
            &&& provider.remaining == frames.remaining - segment_page_count(ph)
            &&& forall|i: int|
                0 <= i < segment_page_count(ph) ==> {
                    &&& (#[trigger] after[pages.len() + i]).vbase == segment_page_address(ph, i)
                    &&& after[pages.len() + i].phys == frames.next + PAGE_SIZE * i
                    &&& after[pages.len() + i].attr == PageAttr::ReadWriteKernel
                }
        },
{
}

/// Loading a segment leaves an address space an address space and keeps
/// every mapping it had, in place and unchanged.
pub proof fn lemma_load_segment_keeps(
    ph: Elf64ProgramHeader,
    data: Seq<u8>,
    pages: Seq<PageView>,
    frames: FrameProviderView,
)
    requires
        pages_wf(pages),
        load_segment_spec(ph, data, pages, frames) is Ok,
    ensures
        load_segment_spec(ph, data, pages, frames) matches Ok((after, _)) && pages_wf(after)
            && pages.is_prefix_of(after),
{
    if is_loadable(ph) {
        let fresh = segment_pages(ph, data, frames.next as int);
        let after = pages + fresh;
        assert forall|i: int| 0 <= i < after.len() implies is_page_aligned(
            (#[trigger] after[i]).vbase as int,
        ) && after[i].bytes.len() == PAGE_SIZE by {
            if i >= pages.len() {
                assert(after[i] == fresh[i - pages.len()]);
            }
        }
        assert forall|i: int, j: int|
            0 <= i < after.len() && 0 <= j < after.len() && (#[trigger] after[i]).vbase == (
            #[trigger] after[j]).vbase implies i == j by {
            if i <= j {
                lemma_fresh_page_is_new(ph, data, pages, frames, i, j);
            } else {
                lemma_fresh_page_is_new(ph, data, pages, frames, j, i);
            }
        }
    }
}

proof fn lemma_fresh_page_is_new(
    ph: Elf64ProgramHeader,
    data: Seq<u8>,
    pages: Seq<PageView>,
    frames: FrameProviderView,
    i: int,
    j: int,
)
    requires
        pages_wf(pages),
        is_loadable(ph),
        load_segment_spec(ph, data, pages, frames) is Ok,
        0 <= i < pages.len() + segment_page_count(ph),
        0 <= j < pages.len() + segment_page_count(ph),
        (pages + segment_pages(ph, data, frames.next as int))[i].vbase == (pages + segment_pages(
            ph,
            data,
            frames.next as int,
        ))[j].vbase,
        i <= j,
    ensures
        i == j,
{
    let fresh = segment_pages(ph, data, frames.next as int);
    let after = pages + fresh;
    if j >= pages.len() {
        assert(after[j].vbase == segment_page_address(ph, j - pages.len()));
    }
}

/// After a segment was loaded, the memory it names reads back as the image
/// says: each address of the segment holds the file's byte where the segment
/// is backed by the file, and zero above that.
pub proof fn lemma_segment_reads_back(
    ph: Elf64ProgramHeader,
    data: Seq<u8>,
    pages: Seq<PageView>,
    frames: FrameProviderView,
)
    requires
        pages_wf(pages),
        is_loadable(ph),
        load_segment_spec(ph, data, pages, frames) is Ok,
    ensures
        load_segment_spec(ph, data, pages, frames) matches Ok((after, _)) && {
            &&& range_mapped(after, ph.p_vaddr as int, ph.p_memsz as int)
            &&& forall|a: int|
                ph.p_vaddr <= a < ph.p_vaddr + ph.p_memsz ==> #[trigger] byte_at(after, a) == Some(
                    segment_byte(ph, data, a),
                )
            &&& bytes_at(after, ph.p_vaddr as int, ph.p_filesz as int) == data.subrange(
                ph.p_offset as int,
                ph.p_offset + ph.p_filesz,
            )
            &&& bytes_at(after, ph.p_vaddr + ph.p_filesz, ph.p_memsz - ph.p_filesz) == zeros(
                (ph.p_memsz - ph.p_filesz) as nat,
            )
        },
{
    lemma_load_segment_keeps(ph, data, pages, frames);
    let fresh = segment_pages(ph, data, frames.next as int);
    let after = pages + fresh;
    assert forall|a: int| ph.p_vaddr <= a < ph.p_vaddr + ph.p_memsz implies is_mapped(
        after,
        #[trigger] page_floor(a),
    ) && byte_at(after, a) == Some(segment_byte(ph, data, a)) by {
        let i = (page_floor(a) - segment_base(ph)) / 4096;
        lemma_page_of_address(ph.p_vaddr as int, ph.p_memsz as int, a);
        assert(after[pages.len() + i] == segment_page(ph, data, frames.next as int, i));
    }
    assert(bytes_at(after, ph.p_vaddr as int, ph.p_filesz as int) =~= data.subrange(
        ph.p_offset as int,
        ph.p_offset + ph.p_filesz,
    ));
    assert(bytes_at(after, ph.p_vaddr + ph.p_filesz, ph.p_memsz - ph.p_filesz) =~= zeros(
        (ph.p_memsz - ph.p_filesz) as nat,
    ));
}

/// Loading a sequence of segments leaves an address space an address space
/// and keeps every mapping it had, in place and unchanged.
pub proof fn lemma_load_segments_keep(
    segs: Seq<Elf64ProgramHeader>,
    data: Seq<u8>,
    pages: Seq<PageView>,
    frames: FrameProviderView,
)
    requires
        pages_wf(pages),
        load_segments_spec(segs, data, pages, frames) is Ok,
    ensures
        load_segments_spec(segs, data, pages, frames) matches Ok((after, _)) && pages_wf(after)
            && pages.is_prefix_of(after),
    decreases segs.len(),
{
    if segs.len() > 0 {
        lemma_load_segment_keeps(segs[0], data, pages, frames);
        match load_segment_spec(segs[0], data, pages, frames) {
            Ok((mid, provider)) => {
                lemma_load_segments_keep(segs.drop_first(), data, mid, provider);
            },
            Err(_) => {},
        }
    }
}

/// After a successful load, the memory of every loadable segment reads back
/// as the image says, whatever was loaded after it: the bytes from the file
/// at the segment's address, and zero bytes after them up to its size in
/// memory.
pub proof fn lemma_loaded_segments_read_back(
    segs: Seq<Elf64ProgramHeader>,
    data: Seq<u8>,
    pages: Seq<PageView>,
    frames: FrameProviderView,
    s: int,
)
    requires
        pages_wf(pages),
        load_segments_spec(segs, data, pages, frames) is Ok,
        0 <= s < segs.len(),
        is_loadable(segs[s]),
    ensures
        load_segments_spec(segs, data, pages, frames) matches Ok((after, _)) && {
            &&& range_mapped(after, segs[s].p_vaddr as int, segs[s].p_memsz as int)
            &&& bytes_at(after, segs[s].p_vaddr as int, segs[s].p_filesz as int) == data.subrange(
                segs[s].p_offset as int,
                segs[s].p_offset + segs[s].p_filesz,
            )
            &&& bytes_at(
                after,
                segs[s].p_vaddr + segs[s].p_filesz,
                segs[s].p_memsz - segs[s].p_filesz,
            ) == zeros((segs[s].p_memsz - segs[s].p_filesz) as nat)
        },
    decreases segs.len(),
{
    lemma_load_segment_keeps(segs[0], data, pages, frames);
    match load_segment_spec(segs[0], data, pages, frames) {
        Ok((mid, provider)) => {
            if s == 0 {
                let ph = segs[0];
                lemma_segment_reads_back(ph, data, pages, frames);
                lemma_load_segments_keep(segs.drop_first(), data, mid, provider);
                match load_segments_spec(segs.drop_first(), data, mid, provider) {
                    Ok((after, _)) => {
                        assert(range_mapped(
                            mid,
                            ph.p_vaddr + ph.p_filesz,
                            ph.p_memsz - ph.p_filesz,
                        ));
                        lemma_bytes_at_extends(
                            mid,
                            after,
                            ph.p_vaddr as int,
                            ph.p_memsz as int,
                        );
                        lemma_bytes_at_extends(
                            mid,
                            after,
                            ph.p_vaddr as int,
                            ph.p_filesz as int,
                        );
                        lemma_bytes_at_extends(
                            mid,
                            after,
                            ph.p_vaddr + ph.p_filesz,
                            ph.p_memsz - ph.p_filesz,
                        );
                    },
                    Err(_) => {},
                }
            } else {
                lemma_loaded_segments_read_back(segs.drop_first(), data, mid, provider, s - 1);
            }
        },
        Err(_) => {},
    }
}

/// After a successful load of an image, the memory of each of its loadable
/// segments reads back as the image says: the segment's bytes from the file
/// at its address, and zero bytes after them up to its size in memory.
pub proof fn lemma_loaded_image_reads_back(
    data: Seq<u8>,
    pages: Seq<PageView>,
    frames: FrameProviderView,
    s: int,
)
    requires
        pages_wf(pages),
        load_spec(data, pages, frames) is Ok,
        Elf64Header::parse_spec(data) matches Some(header) && 0 <= s
            < Elf64ProgramHeader::table(data, header, header.phnum as nat).len() && is_loadable(
            Elf64ProgramHeader::table(data, header, header.phnum as nat)[s],
        ),
    ensures
        Elf64Header::parse_spec(data) matches Some(header) && load_spec(data, pages, frames)
            matches Ok((entry, after, _)) && {
            let ph = Elf64ProgramHeader::table(data, header, header.phnum as nat)[s];
            &&& entry == header.entry
            &&& pages_wf(after)
            &&& bytes_at(after, ph.p_vaddr as int, ph.p_filesz as int) == data.subrange(
                ph.p_offset as int,
                ph.p_offset + ph.p_filesz,
            )
            &&& bytes_at(after, ph.p_vaddr + ph.p_filesz, ph.p_memsz - ph.p_filesz) == zeros(
                (ph.p_memsz - ph.p_filesz) as nat,
            )
        },
{
    let header = Elf64Header::parse_spec(data).unwrap();
    let segs = Elf64ProgramHeader::table(data, header, header.phnum as nat);
    lemma_load_segments_keep(segs, data, pages, frames);
    lemma_loaded_segments_read_back(segs, data, pages, frames, s);
}

/// Segments that are not loadable leave no trace: with such a segment put
/// anywhere into the table, a load maps the same pages onto the same frames,
/// writes the same bytes, and ends in the same way.
pub proof fn lemma_unloadable_segment_is_skipped(
    segs: Seq<Elf64ProgramHeader>,
    ph: Elf64ProgramHeader,
    k: int,
    data: Seq<u8>,
    pages: Seq<PageView>,
    frames: FrameProviderView,
)
    requires
        0 <= k <= segs.len(),
        !is_loadable(ph),
    ensures
        load_segments_spec(segs.insert(k, ph), data, pages, frames) == load_segments_spec(
            segs,
            data,
            pages,
            frames,
        ),
    decreases k,
{
    let with = segs.insert(k, ph);
    if k == 0 {
        assert(with.drop_first() =~= segs);
    } else {
        assert(with[0] == segs[0]);
        assert(with.drop_first() =~= segs.drop_first().insert(k - 1, ph));
        match load_segment_spec(segs[0], data, pages, frames) {
            Ok((mid, provider)) => {
                lemma_unloadable_segment_is_skipped(
                    segs.drop_first(),
                    ph,
                    k - 1,
                    data,
                    mid,
                    provider,
                );
            },
            Err(_) => {},
        }
    }
}

/// Frames taken in two steps are frames taken.
proof fn lemma_frames_taken_twice(a: FrameProviderView, b: FrameProviderView, c: FrameProviderView)
    requires
        region_valid(a.next, a.remaining),
        a.issued + a.remaining <= u64::MAX,
        frames_taken(a, b),
        frames_taken(b, c),
    ensures
        frames_taken(a, c),
{
}

} // verus!
