//! Page-granularity arithmetic on virtual addresses.

use vstd::prelude::*;

verus! {

/// Size of a page, and of a physical frame, in bytes.
pub const PAGE_SIZE: u64 = 4096;

/// The bits of an address that select a byte inside its page.
pub const ATTR_MASK: u64 = 0xFFF;

/// Whether `addr` is the first address of a page.
pub open spec fn is_page_aligned(addr: int) -> bool {
    addr % 4096 == 0
}

/// The first address of the page that holds `addr`.
pub open spec fn page_floor(addr: int) -> int {
    addr - addr % 4096
}

/// The first page boundary at or after `addr`.
pub open spec fn page_ceil(addr: int) -> int {
    page_floor(addr + 4095)
}

/// Number of pages in the page-aligned range that covers the `size` bytes
/// from `addr` on: from the floor of `addr` to the ceiling of `addr + size`.
pub open spec fn pages_spanned(addr: int, size: int) -> int {
    (page_ceil(addr + size) - page_floor(addr)) / 4096
}

/// Rounds `addr` down to a page boundary.
pub fn page_base(addr: u64) -> (base: u64)
    ensures
        base == page_floor(addr as int),
        base <= addr < base + PAGE_SIZE,
        is_page_aligned(base as int),
{
    let base: u64 = addr & !ATTR_MASK;
    assert(addr & !0xFFFu64 == addr - addr % 4096) by (bit_vector);
    base
}

/// The floor of an address is the one page boundary that is at most a page
/// below it.
pub proof fn lemma_page_floor_unique(base: int, addr: int)
    requires
        is_page_aligned(base),
        base <= addr < base + 4096,
    ensures
        page_floor(addr) == base,
{
}

/// The page range of a segment covers every byte of it, starts and ends on
/// page boundaries, and wastes less than a page at either end.
pub proof fn lemma_page_range_covers(addr: int, size: int)
    requires
        0 <= addr,
        0 <= size,
    ensures
        is_page_aligned(page_floor(addr)),
        is_page_aligned(page_ceil(addr + size)),
        page_floor(addr) <= addr,
        addr + size <= page_ceil(addr + size),
        addr - page_floor(addr) < 4096,
        page_ceil(addr + size) - (addr + size) < 4096,
        0 <= pages_spanned(addr, size),
        page_floor(addr) + 4096 * pages_spanned(addr, size) == page_ceil(addr + size),
{
}

/// Every address of a segment lies in one of the pages of its range: the
/// floor of the address is page `i` of the range, counted from the floor of
/// the segment's first address, for an `i` below the number of pages spanned.
pub proof fn lemma_page_of_address(addr: int, size: int, a: int)
    requires
        0 <= addr <= a < addr + size,
    ensures
        0 <= (page_floor(a) - page_floor(addr)) / 4096 < pages_spanned(addr, size),
        page_floor(addr) + 4096 * ((page_floor(a) - page_floor(addr)) / 4096) == page_floor(a),
{
}

} // verus!
