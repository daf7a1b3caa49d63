//! Physical frames, the provider that hands them out, and the address space
//! they are mapped into.
//!
//! An [`AddressSpace`] is an explicit handle: whoever builds or reads a
//! program's memory is given the one it works on. It owns every frame that
//! was mapped into it, and all access to the bytes behind a virtual address
//! goes through it and is checked against the mappings it holds.

use vstd::prelude::*;
use crate::paging::{PAGE_SIZE, is_page_aligned, page_floor, page_base, lemma_page_floor_unique};

verus! {

/// Protection of a mapping.
#[derive(Debug, Clone, Copy, PartialEq, Eq, Structural)]
pub enum PageAttr {
    /// Readable and writable at kernel privilege.
    ReadWriteKernel,
    /// Readable and writable at kernel privilege, uncached, for device memory.
    ReadWriteIo,
}

/// Why a mapping was not installed.
#[derive(Debug, Clone, Copy, PartialEq, Eq, Structural)]
pub enum MapError {
    /// The virtual address is not the start of a page.
    Misaligned,
    /// The page already has a mapping.
    AlreadyMapped,
}

/// The contents of a frame that has never been written: a page of zero bytes.
pub open spec fn zeroed_page() -> Seq<u8> {
    Seq::new(PAGE_SIZE as nat, |k: int| 0u8)
}

/// What a [`Frame`] is: where it lies in physical memory and what it holds.
pub struct FrameView {
    pub base: u64,
    pub bytes: Seq<u8>,
}

/// One page of physical memory, owned by whoever holds the value.
///
/// Frames come from a [`FrameProvider`] and nowhere else, and there is no way
/// to write to one before it is mapped, so a frame is always page-aligned and
/// zero-filled.
pub struct Frame {
    base: u64,
    bytes: Vec<u8>,
}

impl View for Frame {
    type V = FrameView;

    closed spec fn view(&self) -> FrameView {
        FrameView { base: self.base, bytes: self.bytes@ }
    }
}

impl Frame {
    /// A frame starts on a page boundary and holds a page of zero bytes.
    pub open spec fn wf(&self) -> bool {
        &&& is_page_aligned(self@.base as int)
        &&& self@.bytes == zeroed_page()
    }

    /// Physical address of the frame's first byte.
    pub fn base(&self) -> (base: u64)
        ensures
            base == self@.base,
    {
        self.base
    }
}

/// What a [`FrameProvider`] is: the address of the next frame it hands out,
/// how many it still has, and how many it has handed out.
pub struct FrameProviderView {
    pub next: u64,
    pub remaining: u64,
    pub issued: u64,
}

/// Hands out the frames of one contiguous region of physical memory, lowest
/// address first. A frame that was handed out never comes back.
pub struct FrameProvider {
    next: u64,
    remaining: u64,
    issued: u64,
}

impl View for FrameProvider {
    type V = FrameProviderView;

    closed spec fn view(&self) -> FrameProviderView {
        FrameProviderView { next: self.next, remaining: self.remaining, issued: self.issued }
    }
}

/// Whether the region of `frames` frames that starts at `base` is one a
/// provider can be made for: it starts on a page boundary and ends inside the
/// physical address range.
pub open spec fn region_valid(base: u64, frames: u64) -> bool {
    &&& is_page_aligned(base as int)
    &&& base + PAGE_SIZE * frames <= u64::MAX
}

impl FrameProvider {
    /// The frames still to be handed out form a valid region, and the count of
    /// those handed out can still grow by each of them.
    pub open spec fn wf(&self) -> bool {
        &&& region_valid(self@.next, self@.remaining)
        &&& self@.issued + self@.remaining <= u64::MAX
    }

    /// A provider for the `frames` frames that start at physical address
    /// `base`; `None` where that is no valid region.
    pub fn new(base: u64, frames: u64) -> (res: Option<FrameProvider>)
        ensures
            res is Some <==> region_valid(base, frames),
            res matches Some(p) ==> p.wf() && p@ == (FrameProviderView {
                next: base,
                remaining: frames,
                issued: 0,
            }),
    {
        if base != page_base(base) {
            return None;
        }
        if frames > (u64::MAX - base) / PAGE_SIZE {
            return None;
        }
        Some(FrameProvider { next: base, remaining: frames, issued: 0 })
    }

    /// Number of frames that can still be handed out.
    pub fn remaining(&self) -> (n: u64)
        ensures
            n == self@.remaining,
    {
        self.remaining
    }

    /// Number of frames handed out so far.
    pub fn issued(&self) -> (n: u64)
        ensures
            n == self@.issued,
    {
        self.issued
    }

    /// Hands out the next frame, zero-filled; `None` once the region is used
    /// up, and then nothing changes.
    pub fn allocate(&mut self) -> (res: Option<Frame>)
        requires
            old(self).wf(),
        ensures
            final(self).wf(),
            res is Some <==> old(self)@.remaining > 0,
            res is None ==> final(self)@ == old(self)@,
            res matches Some(frame) ==> {
                &&& frame.wf()
                &&& frame@.base == old(self)@.next
                &&& final(self)@ == (FrameProviderView {
                    next: (old(self)@.next + PAGE_SIZE) as u64,
                    remaining: (old(self)@.remaining - 1) as u64,
                    issued: (old(self)@.issued + 1) as u64,
                })
            },
    {
        if self.remaining == 0 {
            return None;
        }
        let bytes: Vec<u8> = vec![0u8; 4096];
        assert(bytes@ =~= zeroed_page());
        let frame = Frame { base: self.next, bytes };
        self.next = self.next + PAGE_SIZE;
        self.remaining = self.remaining - 1;
        self.issued = self.issued + 1;
        Some(frame)
    }
}

/// One installed mapping: the page at virtual address `vbase` is backed by the
/// frame at physical address `phys`, which holds `bytes`.
pub struct PageView {
    pub vbase: u64,
    pub phys: u64,
    pub attr: PageAttr,
    pub bytes: Seq<u8>,
}

/// Whether a sequence of mappings can be an address space: every page starts
/// on a page boundary and holds a page of bytes, and no page is mapped twice.
pub open spec fn pages_wf(pages: Seq<PageView>) -> bool {
    &&& forall|i: int|
        0 <= i < pages.len() ==> is_page_aligned((#[trigger] pages[i]).vbase as int)
            && pages[i].bytes.len() == PAGE_SIZE
    &&& forall|i: int, j: int|
        0 <= i < pages.len() && 0 <= j < pages.len() && (#[trigger] pages[i]).vbase
            == (#[trigger] pages[j]).vbase ==> i == j
}

/// Whether the page that starts at `vbase` has a mapping.
pub open spec fn is_mapped(pages: Seq<PageView>, vbase: int) -> bool {
    exists|i: int| 0 <= i < pages.len() && (#[trigger] pages[i]).vbase == vbase
}

/// Position of the mapping of the page that starts at `vbase`.
pub open spec fn page_index(pages: Seq<PageView>, vbase: int) -> int
    recommends
        is_mapped(pages, vbase),
{
    choose|i: int| 0 <= i < pages.len() && (#[trigger] pages[i]).vbase == vbase
}

/// The byte at virtual address `addr`, if its page is mapped.
pub open spec fn byte_at(pages: Seq<PageView>, addr: int) -> Option<u8> {
    let base = page_floor(addr);
    if is_mapped(pages, base) {
        Some(pages[page_index(pages, base)].bytes[addr - base])
    } else {
        None
    }
}

/// Whether each of the `len` addresses from `addr` on is an address, and in a
/// mapped page.
pub open spec fn range_mapped(pages: Seq<PageView>, addr: int, len: int) -> bool {
    &&& addr + len <= u64::MAX + 1
    &&& forall|a: int| addr <= a < addr + len ==> is_mapped(pages, #[trigger] page_floor(a))
}

/// The `len` bytes from virtual address `addr` on.
pub open spec fn bytes_at(pages: Seq<PageView>, addr: int, len: int) -> Seq<u8>
    recommends
        range_mapped(pages, addr, len),
{
    Seq::new(len as nat, |k: int| byte_at(pages, addr + k).unwrap())
}

/// The mappings `pages` after `content` was stored from virtual address
/// `addr` on: each byte whose address lies in the stored range holds the byte
/// of `content` for that address, and every other byte is as before.
pub open spec fn overlay(pages: Seq<PageView>, addr: int, content: Seq<u8>) -> Seq<PageView> {
    Seq::new(
        pages.len(),
        |i: int|
            PageView {
                vbase: pages[i].vbase,
                phys: pages[i].phys,
                attr: pages[i].attr,
                bytes: Seq::new(
                    PAGE_SIZE as nat,
                    |k: int|
                        if addr <= pages[i].vbase + k < addr + content.len() {
                            content[pages[i].vbase + k - addr]
                        } else {
                            pages[i].bytes[k]
                        },
                ),
            },
    )
}

/// What [`AddressSpace::map_page`] answers for the page at `vbase`.
pub open spec fn map_result(pages: Seq<PageView>, vbase: u64) -> Result<(), MapError> {
    if !is_page_aligned(vbase as int) {
        Err(MapError::Misaligned)
    } else if is_mapped(pages, vbase as int) {
        Err(MapError::AlreadyMapped)
    } else {
        Ok(())
    }
}

struct MappedPage {
    vbase: u64,
    phys: u64,
    attr: PageAttr,
    bytes: Vec<u8>,
}

impl MappedPage {
    spec fn model(self) -> PageView {
        PageView { vbase: self.vbase, phys: self.phys, attr: self.attr, bytes: self.bytes@ }
    }
}

/// A virtual address space: the mappings installed so far, in the order in
/// which they were installed, together with the frames behind them.
pub struct AddressSpace {
    pages: Vec<MappedPage>,
}

impl View for AddressSpace {
    type V = Seq<PageView>;

    closed spec fn view(&self) -> Seq<PageView> {
        Seq::new(self.pages@.len(), |i: int| self.pages@[i].model())
    }
}

impl AddressSpace {
    /// The mappings form an address space.
    pub open spec fn wf(&self) -> bool {
        pages_wf(self@)
    }

    /// An address space with no mapping.
    pub fn new() -> (space: AddressSpace)
        ensures
            space.wf(),
            space@ == Seq::<PageView>::empty(),
    {
        AddressSpace { pages: Vec::new() }
    }

    /// Number of mappings installed.
    pub fn page_count(&self) -> (n: usize)
        ensures
            n == self@.len(),
    {
        self.pages.len()
    }

    fn find(&self, vbase: u64) -> (res: Option<usize>)
        ensures
            res is Some <==> is_mapped(self@, vbase as int),
            res matches Some(i) ==> i < self@.len() && self@[i as int].vbase == vbase,
    {
        let mut i: usize = 0;
        while i < self.pages.len()
            invariant
                i <= self.pages@.len(),
                forall|j: int| 0 <= j < i ==> (#[trigger] self@[j]).vbase != vbase,
            decreases self.pages@.len() - i,
        {
            if self.pages[i].vbase == vbase {
                return Some(i);
            }
            i = i + 1;
        }
        None
    }

    fn locate(&self, addr: u64, hint: usize) -> (idx: usize)
        requires
            is_mapped(self@, page_floor(addr as int)),
        ensures
            idx < self@.len(),
            self@[idx as int].vbase == page_floor(addr as int),
    {
        let base: u64 = page_base(addr);
        if hint < self.pages.len() && self.pages[hint].vbase == base {
            return hint;
        }
        let mut i: usize = 0;
        loop
            invariant
                i < self.pages.len(),
                base == page_floor(addr as int),
                is_mapped(self@, base as int),
                forall|j: int| 0 <= j < i ==> (#[trigger] self@[j]).vbase != base,
            decreases self.pages@.len() - i,
        {
            if self.pages[i].vbase == base {
                return i;
            }
            i = i + 1;
        }
    }

    /// Whether the page that starts at `vbase` has a mapping.
    pub fn is_page_mapped(&self, vbase: u64) -> (mapped: bool)
        ensures
            mapped == is_mapped(self@, vbase as int),
    {
        self.find(vbase).is_some()
    }

    /// Physical address of the frame behind the page that starts at `vbase`.
    pub fn frame_of(&self, vbase: u64) -> (phys: Option<u64>)
        requires
            self.wf(),
        ensures
            phys == if is_mapped(self@, vbase as int) {
                Some(self@[page_index(self@, vbase as int)].phys)
            } else {
                None
            },
    {
        match self.find(vbase) {
            Some(i) => Some(self.pages[i].phys),
            None => None,
        }
    }

    /// Protection of the mapping of the page that starts at `vbase`.
    pub fn protection(&self, vbase: u64) -> (attr: Option<PageAttr>)
        requires
            self.wf(),
        ensures
            attr == if is_mapped(self@, vbase as int) {
                Some(self@[page_index(self@, vbase as int)].attr)
            } else {
                None
            },
    {
        match self.find(vbase) {
            Some(i) => Some(self.pages[i].attr),
            None => None,
        }
    }

    /// Installs a mapping from the page that starts at `vbase` to `frame`,
    /// and takes the frame over. Fails, and changes nothing, where `vbase` is
    /// no page boundary or the page is mapped already.
    pub fn map_page(&mut self, vbase: u64, frame: Frame, attr: PageAttr) -> (res: Result<
        (),
        MapError,
    >)
        requires
            old(self).wf(),
            frame.wf(),
        ensures
            final(self).wf(),
            res == map_result(old(self)@, vbase),
            res is Err ==> final(self)@ == old(self)@,
            res is Ok ==> final(self)@ == old(self)@.push(
                PageView { vbase, phys: frame@.base, attr, bytes: frame@.bytes },
            ),
    {
        if vbase != page_base(vbase) {
            return Err(MapError::Misaligned);
        }
        if self.find(vbase).is_some() {
            return Err(MapError::AlreadyMapped);
        }
        let page = MappedPage { vbase, phys: frame.base, attr, bytes: frame.bytes };
        self.pages.push(page);
        assert(self@ =~= old(self)@.push(
            PageView { vbase, phys: frame@.base, attr, bytes: frame@.bytes },
        ));
        Ok(())
    }

    /// Whether each of the `len` addresses from `addr` on lies in a mapped
    /// page.
    pub fn is_range_mapped(&self, addr: u64, len: u64) -> (mapped: bool)
        ensures
            mapped == range_mapped(self@, addr as int, len as int),
    {
        if len == 0 {
            return true;
        }
        if len - 1 > u64::MAX - addr {
            return false;
        }
        let last: u64 = addr + (len - 1);
        let last_base: u64 = page_base(last);
        let mut base: u64 = page_base(addr);
        loop
            invariant
                0 < len,
                last == addr + len - 1,
                last_base == page_floor(last as int),
                is_page_aligned(base as int),
                page_floor(addr as int) <= base <= last_base,
                forall|a: int| addr <= a < base ==> is_mapped(self@, #[trigger] page_floor(a)),
            decreases last_base - base,
        {
            if self.find(base).is_none() {
                proof {
                    // the first address of the range that lies in this page
                    let a: int = if base < addr {
                        addr as int
                    } else {
                        base as int
                    };
                    lemma_page_floor_unique(base as int, a);
                }
                return false;
            }
            proof {
                assert forall|a: int| base <= a < base + PAGE_SIZE implies page_floor(a)
                    == base by {
                    lemma_page_floor_unique(base as int, a);
                }
            }
            if base == last_base {
                return true;
            }
            base = base + PAGE_SIZE;
        }
    }

    /// The byte at virtual address `addr`; `None` where its page is not
    /// mapped.
    pub fn read_byte(&self, addr: u64) -> (res: Option<u8>)
        requires
            self.wf(),
        ensures
            res == byte_at(self@, addr as int),
    {
        let base: u64 = page_base(addr);
        match self.find(base) {
            Some(i) => {
                let off: usize = (addr - base) as usize;
                Some(self.pages[i].bytes[off])
            },
            None => None,
        }
    }

    /// The `len` bytes from virtual address `addr` on; `None` where one of
    /// them is not in a mapped page.
    pub fn read_bytes(&self, addr: u64, len: u64) -> (res: Option<Vec<u8>>)
        requires
            self.wf(),
        ensures
            res is Some <==> range_mapped(self@, addr as int, len as int),
            res matches Some(bytes) ==> bytes@ == bytes_at(self@, addr as int, len as int),
    {
        if !self.is_range_mapped(addr, len) {
            return None;
        }
        let mut out: Vec<u8> = Vec::new();
        let mut hint: usize = 0;
        let mut i: u64 = 0;
        while i < len
            invariant
                self.wf(),
                range_mapped(self@, addr as int, len as int),
                i <= len,
                out@ == bytes_at(self@, addr as int, i as int),
            decreases len - i,
        {
            let a: u64 = addr + i;
            hint = self.locate(a, hint);
            let off: usize = (a - self.pages[hint].vbase) as usize;
            out.push(self.pages[hint].bytes[off]);
            i = i + 1;
        }
        Some(out)
    }

    /// Stores `src` from virtual address `addr` on. Returns whether it did:
    /// where one of the addresses is not in a mapped page, nothing is
    /// written.
    pub fn write_bytes(&mut self, addr: u64, src: &[u8]) -> (written: bool)
        requires
            old(self).wf(),
        ensures
            final(self).wf(),
            written == range_mapped(old(self)@, addr as int, src@.len() as int),
            written ==> final(self)@ == overlay(old(self)@, addr as int, src@),
            !written ==> final(self)@ == old(self)@,
    {
        if !self.is_range_mapped(addr, src.len() as u64) {
            return false;
        }
        self.store(addr, src);
        true
    }

    /// Stores `len` zero bytes from virtual address `addr` on. Returns whether
    /// it did: where one of the addresses is not in a mapped page, nothing is
    /// written.
    pub fn zero_bytes(&mut self, addr: u64, len: u64) -> (written: bool)
        requires
            old(self).wf(),
        ensures
            final(self).wf(),
            written == range_mapped(old(self)@, addr as int, len as int),
            written ==> final(self)@ == overlay(old(self)@, addr as int, zeros(len as nat)),
            !written ==> final(self)@ == old(self)@,
    {
        if !self.is_range_mapped(addr, len) {
            return false;
        }
        self.clear(addr, len);
        true
    }

    /// Stores `src` from virtual address `addr` on, into pages that are known
    /// to be mapped.
    pub(crate) fn store(&mut self, addr: u64, src: &[u8])
        requires
            old(self).wf(),
            range_mapped(old(self)@, addr as int, src@.len() as int),
        ensures
            final(self).wf(),
            final(self)@ == overlay(old(self)@, addr as int, src@),
    {
        let len: usize = src.len();
        proof {
            lemma_overlay_nothing(self@, addr as int);
            assert(src@.take(0) =~= Seq::<u8>::empty());
        }
        let mut hint: usize = 0;
        let mut i: usize = 0;
        while i < len
            invariant
                old(self).wf(),
                range_mapped(old(self)@, addr as int, len as int),
                len == src@.len(),
                i <= len,
                self@ == overlay(old(self)@, addr as int, src@.take(i as int)),
            decreases len - i,
        {
            let a: u64 = addr + i as u64;
            proof {
                lemma_overlay_wf(old(self)@, addr as int, src@.take(i as int));
            }
            let ghost before = self@;
            hint = self.locate(a, hint);
            let off: usize = (a - self.pages[hint].vbase) as usize;
            self.pages[hint].bytes[off] = src[i];
            proof {
                assert(self@ =~= before.update(
                    hint as int,
                    PageView {
                        vbase: before[hint as int].vbase,
                        phys: before[hint as int].phys,
                        attr: before[hint as int].attr,
                        bytes: before[hint as int].bytes.update(off as int, src@[i as int]),
                    },
                ));
                lemma_overlay_push(
                    old(self)@,
                    addr as int,
                    src@.take(i as int),
                    src@[i as int],
                    hint as int,
                );
                assert(src@.take(i as int).push(src@[i as int]) =~= src@.take(i + 1));
            }
            i = i + 1;
        }
        proof {
            assert(src@.take(len as int) =~= src@);
            lemma_overlay_wf(old(self)@, addr as int, src@);
        }
    }

    /// Stores `len` zero bytes from virtual address `addr` on, into pages that
    /// are known to be mapped.
    pub(crate) fn clear(&mut self, addr: u64, len: u64)
        requires
            old(self).wf(),
            range_mapped(old(self)@, addr as int, len as int),
        ensures
            final(self).wf(),
            final(self)@ == overlay(old(self)@, addr as int, zeros(len as nat)),
    {
        proof {
            lemma_overlay_nothing(self@, addr as int);
            assert(zeros(0) =~= Seq::<u8>::empty());
        }
        let mut hint: usize = 0;
        let mut i: u64 = 0;
        while i < len
            invariant
                old(self).wf(),
                range_mapped(old(self)@, addr as int, len as int),
                i <= len,
                self@ == overlay(old(self)@, addr as int, zeros(i as nat)),
            decreases len - i,
        {
            let a: u64 = addr + i;
            proof {
                lemma_overlay_wf(old(self)@, addr as int, zeros(i as nat));
            }
            let ghost before = self@;
            hint = self.locate(a, hint);
            let off: usize = (a - self.pages[hint].vbase) as usize;
            self.pages[hint].bytes[off] = 0;
            proof {
                assert(self@ =~= before.update(
                    hint as int,
                    PageView {
                        vbase: before[hint as int].vbase,
                        phys: before[hint as int].phys,
                        attr: before[hint as int].attr,
                        bytes: before[hint as int].bytes.update(off as int, 0u8),
                    },
                ));
                lemma_overlay_push(old(self)@, addr as int, zeros(i as nat), 0u8, hint as int);
                assert(zeros(i as nat).push(0u8) =~= zeros((i + 1) as nat));
            }
            i = i + 1;
        }
        proof {
            lemma_overlay_wf(old(self)@, addr as int, zeros(len as nat));
        }
    }
}

/// `len` zero bytes.
pub open spec fn zeros(len: nat) -> Seq<u8> {
    Seq::new(len, |k: int| 0u8)
}

/// Storing nothing changes nothing.
pub proof fn lemma_overlay_nothing(pages: Seq<PageView>, addr: int)
    requires
        pages_wf(pages),
    ensures
        overlay(pages, addr, Seq::<u8>::empty()) == pages,
{
    let after = overlay(pages, addr, Seq::<u8>::empty());
    assert forall|i: int| 0 <= i < pages.len() implies after[i] == pages[i] by {
        assert(after[i].bytes =~= pages[i].bytes);
    }
}

/// Storing into an address space leaves it an address space, with the same
/// pages mapped to the same frames.
pub proof fn lemma_overlay_wf(pages: Seq<PageView>, addr: int, content: Seq<u8>)
    requires
        pages_wf(pages),
    ensures
        pages_wf(overlay(pages, addr, content)),
        forall|vbase: int| is_mapped(overlay(pages, addr, content), vbase) == is_mapped(pages, vbase),
{
    let after = overlay(pages, addr, content);
    assert forall|vbase: int| is_mapped(after, vbase) == is_mapped(pages, vbase) by {
        if is_mapped(pages, vbase) {
            let i = page_index(pages, vbase);
            assert(after[i].vbase == vbase);
        }
        if is_mapped(after, vbase) {
            let i = page_index(after, vbase);
            assert(pages[i].vbase == vbase);
        }
    }
}

/// Storing one byte more is storing that byte into the page that holds its
/// address.
proof fn lemma_overlay_push(pages: Seq<PageView>, addr: int, content: Seq<u8>, value: u8, idx: int)
    requires
        pages_wf(pages),
        0 <= idx < pages.len(),
        pages[idx].vbase == page_floor(addr + content.len()),
    ensures
        overlay(pages, addr, content.push(value)) == overlay(pages, addr, content).update(
            idx,
            PageView {
                vbase: pages[idx].vbase,
                phys: pages[idx].phys,
                attr: pages[idx].attr,
                bytes: overlay(pages, addr, content)[idx].bytes.update(
                    addr + content.len() - pages[idx].vbase,
                    value,
                ),
            },
        ),
{
    let a = addr + content.len();
    let before = overlay(pages, addr, content);
    let after = overlay(pages, addr, content.push(value));
    let stored = before.update(
        idx,
        PageView {
            vbase: pages[idx].vbase,
            phys: pages[idx].phys,
            attr: pages[idx].attr,
            bytes: before[idx].bytes.update(a - pages[idx].vbase, value),
        },
    );
    assert forall|i: int| 0 <= i < pages.len() implies after[i] == stored[i] by {
        assert forall|k: int| 0 <= k < PAGE_SIZE implies after[i].bytes[k] == stored[i].bytes[k] by {
            if pages[i].vbase + k == a {
                lemma_page_floor_unique(pages[i].vbase as int, a);
            }
        }
        assert(after[i].bytes =~= stored[i].bytes);
    }
}

/// Mappings that are installed later do not change what is read from the
/// pages that were mapped before.
pub proof fn lemma_bytes_at_extends(pages: Seq<PageView>, all: Seq<PageView>, addr: int, len: int)
    requires
        pages.is_prefix_of(all),
        pages_wf(all),
        0 <= len,
        range_mapped(pages, addr, len),
    ensures
        range_mapped(all, addr, len),
        bytes_at(all, addr, len) == bytes_at(pages, addr, len),
{
    assert forall|a: int| addr <= a < addr + len implies is_mapped(all, #[trigger] page_floor(a))
        && byte_at(all, a) == byte_at(pages, a) by {
        let base = page_floor(a);
        let p = page_index(pages, base);
        assert(all[p] == pages[p]);
        assert(page_index(all, base) == p);
    }
}

} // verus!
