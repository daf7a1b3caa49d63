use wasabi::memory::{AddressSpace, FrameProvider, MapError, PageAttr};

#[test]
fn provider_needs_a_page_aligned_base() {
    assert!(FrameProvider::new(0x1000, 4).is_some());
    assert!(FrameProvider::new(0, 0).is_some());
    assert!(FrameProvider::new(0x1001, 4).is_none());
    assert!(FrameProvider::new(0xFFF, 0).is_none());
}

#[test]
fn provider_region_must_end_inside_the_address_range() {
    // 0xFFFF_FFFF_FFFF_E000 + 4096 <= u64::MAX, but two frames are not.
    assert!(FrameProvider::new(0xFFFF_FFFF_FFFF_E000, 1).is_some());
    assert!(FrameProvider::new(0xFFFF_FFFF_FFFF_E000, 2).is_none());
    assert!(FrameProvider::new(0, u64::MAX / 4096).is_some());
    assert!(FrameProvider::new(0, u64::MAX / 4096 + 1).is_none());
    assert!(FrameProvider::new(0x1000, u64::MAX).is_none());
}

#[test]
fn provider_hands_out_consecutive_frames() {
    let mut p = FrameProvider::new(0x10_0000, 3).unwrap();
    assert_eq!(p.remaining(), 3);
    assert_eq!(p.issued(), 0);
    let a = p.allocate().unwrap();
    let b = p.allocate().unwrap();
    let c = p.allocate().unwrap();
    assert_eq!(a.base(), 0x10_0000);
    assert_eq!(b.base(), 0x10_1000);
    assert_eq!(c.base(), 0x10_2000);
    assert_eq!(p.remaining(), 0);
    assert_eq!(p.issued(), 3);
}

#[test]
fn provider_that_is_used_up_hands_out_nothing() {
    let mut p = FrameProvider::new(0x10_0000, 1).unwrap();
    assert!(p.allocate().is_some());
    assert!(p.allocate().is_none());
    assert!(p.allocate().is_none());
    assert_eq!(p.remaining(), 0);
    assert_eq!(p.issued(), 1);
    let mut empty = FrameProvider::new(0x10_0000, 0).unwrap();
    assert!(empty.allocate().is_none());
    assert_eq!(empty.issued(), 0);
}

#[test]
fn new_address_space_maps_nothing() {
    let space = AddressSpace::new();
    assert_eq!(space.page_count(), 0);
    assert!(!space.is_page_mapped(0));
    assert!(!space.is_page_mapped(0x1000));
    assert_eq!(space.read_byte(0x1000), None);
    assert_eq!(space.frame_of(0x1000), None);
    assert_eq!(space.protection(0x1000), None);
}

#[test]
fn mapped_page_reads_as_zero() {
    let mut p = FrameProvider::new(0x20_0000, 2).unwrap();
    let mut space = AddressSpace::new();
    assert_eq!(space.map_page(0x4000, p.allocate().unwrap(), PageAttr::ReadWriteKernel), Ok(()));
    assert_eq!(space.page_count(), 1);
    assert!(space.is_page_mapped(0x4000));
    assert!(!space.is_page_mapped(0x3000));
    assert!(!space.is_page_mapped(0x5000));
    assert!(!space.is_page_mapped(0x4001));
    assert_eq!(space.frame_of(0x4000), Some(0x20_0000));
    assert_eq!(space.protection(0x4000), Some(PageAttr::ReadWriteKernel));
    assert_eq!(space.read_byte(0x4000), Some(0));
    assert_eq!(space.read_byte(0x4FFF), Some(0));
    assert_eq!(space.read_byte(0x3FFF), None);
    assert_eq!(space.read_byte(0x5000), None);
    assert_eq!(space.read_bytes(0x4000, 4096), Some(vec![0u8; 4096]));
}

#[test]
fn mapping_records_its_protection() {
    let mut p = FrameProvider::new(0x20_0000, 2).unwrap();
    let mut space = AddressSpace::new();
    space.map_page(0x4000, p.allocate().unwrap(), PageAttr::ReadWriteIo).unwrap();
    space.map_page(0x8000, p.allocate().unwrap(), PageAttr::ReadWriteKernel).unwrap();
    assert_eq!(space.protection(0x4000), Some(PageAttr::ReadWriteIo));
    assert_eq!(space.protection(0x8000), Some(PageAttr::ReadWriteKernel));
    assert_eq!(space.frame_of(0x8000), Some(0x20_1000));
}

#[test]
fn mapping_a_mapped_page_fails_and_changes_nothing() {
    let mut p = FrameProvider::new(0x20_0000, 2).unwrap();
    let mut space = AddressSpace::new();
    space.map_page(0x4000, p.allocate().unwrap(), PageAttr::ReadWriteKernel).unwrap();
    assert!(space.write_bytes(0x4010, b"kept"));
    let r = space.map_page(0x4000, p.allocate().unwrap(), PageAttr::ReadWriteIo);
    assert_eq!(r, Err(MapError::AlreadyMapped));
    assert_eq!(space.page_count(), 1);
    assert_eq!(space.frame_of(0x4000), Some(0x20_0000));
    assert_eq!(space.protection(0x4000), Some(PageAttr::ReadWriteKernel));
    assert_eq!(space.read_bytes(0x4010, 4), Some(b"kept".to_vec()));
}

#[test]
fn mapping_at_an_unaligned_address_fails() {
    let mut p = FrameProvider::new(0x20_0000, 2).unwrap();
    let mut space = AddressSpace::new();
    let r = space.map_page(0x4001, p.allocate().unwrap(), PageAttr::ReadWriteKernel);
    assert_eq!(r, Err(MapError::Misaligned));
    assert_eq!(space.page_count(), 0);
    // an unaligned address inside a mapped page is misaligned, not mapped twice
    space.map_page(0x4000, p.allocate().unwrap(), PageAttr::ReadWriteKernel).unwrap();
    let mut q = FrameProvider::new(0x30_0000, 1).unwrap();
    let r = space.map_page(0x4800, q.allocate().unwrap(), PageAttr::ReadWriteKernel);
    assert_eq!(r, Err(MapError::Misaligned));
}

fn two_pages_with_a_hole() -> AddressSpace {
    // pages at 0x1000, 0x2000 and 0x4000; 0x3000 is a hole
    let mut p = FrameProvider::new(0x20_0000, 3).unwrap();
    let mut space = AddressSpace::new();
    // installed out of address order on purpose
    space.map_page(0x2000, p.allocate().unwrap(), PageAttr::ReadWriteKernel).unwrap();
    space.map_page(0x4000, p.allocate().unwrap(), PageAttr::ReadWriteKernel).unwrap();
    space.map_page(0x1000, p.allocate().unwrap(), PageAttr::ReadWriteKernel).unwrap();
    space
}

#[test]
fn range_is_mapped_only_if_every_page_is() {
    let space = two_pages_with_a_hole();
    assert!(space.is_range_mapped(0x1000, 0x2000));
    assert!(space.is_range_mapped(0x1FFF, 2));
    assert!(space.is_range_mapped(0x2FFF, 1));
    assert!(!space.is_range_mapped(0x2FFF, 2));
    assert!(!space.is_range_mapped(0x0FFF, 2));
    assert!(!space.is_range_mapped(0x1000, 0x2001));
    assert!(!space.is_range_mapped(0x2000, 0x3000));
    assert!(space.is_range_mapped(0x4000, 0x1000));
    assert!(!space.is_range_mapped(0x3000, 1));
}

#[test]
fn empty_range_is_always_mapped() {
    let space = two_pages_with_a_hole();
    assert!(space.is_range_mapped(0x3000, 0));
    assert!(space.is_range_mapped(0, 0));
    assert!(space.is_range_mapped(u64::MAX, 0));
    assert_eq!(space.read_bytes(0x3000, 0), Some(Vec::new()));
}

#[test]
fn range_that_passes_the_top_of_the_address_range_is_not_mapped() {
    let mut p = FrameProvider::new(0x20_0000, 1).unwrap();
    let mut space = AddressSpace::new();
    space.map_page(0xFFFF_FFFF_FFFF_F000, p.allocate().unwrap(), PageAttr::ReadWriteKernel)
        .unwrap();
    assert!(space.is_range_mapped(0xFFFF_FFFF_FFFF_F000, 0x1000));
    assert!(space.is_range_mapped(u64::MAX, 1));
    assert!(!space.is_range_mapped(u64::MAX, 2));
    assert!(!space.is_range_mapped(0xFFFF_FFFF_FFFF_F000, 0x1001));
    assert!(!space.is_range_mapped(0xFFFF_FFFF_FFFF_F000, u64::MAX));
    assert!(space.write_bytes(u64::MAX, &[7]));
    assert_eq!(space.read_byte(u64::MAX), Some(7));
    assert!(!space.write_bytes(u64::MAX, &[7, 8]));
}

#[test]
fn written_bytes_read_back_across_a_page_boundary() {
    let mut space = two_pages_with_a_hole();
    let text: Vec<u8> = (0..100u8).collect();
    assert!(space.write_bytes(0x1FD0, &text));
    assert_eq!(space.read_bytes(0x1FD0, 100), Some(text.clone()));
    assert_eq!(space.read_byte(0x1FCF), Some(0));
    assert_eq!(space.read_byte(0x1FD0), Some(0));
    assert_eq!(space.read_byte(0x1FD1), Some(1));
    assert_eq!(space.read_byte(0x1FFF), Some(0x2F));
    assert_eq!(space.read_byte(0x2000), Some(0x30));
    assert_eq!(space.read_byte(0x2033), Some(99));
    assert_eq!(space.read_byte(0x2034), Some(0));
    // the page at 0x4000 is untouched
    assert_eq!(space.read_bytes(0x4000, 4096), Some(vec![0u8; 4096]));
}

#[test]
fn write_into_a_hole_writes_nothing() {
    let mut space = two_pages_with_a_hole();
    assert!(!space.write_bytes(0x2FFE, &[1, 2, 3, 4]));
    assert_eq!(space.read_bytes(0x2FFE, 2), Some(vec![0, 0]));
    assert!(!space.write_bytes(0x3000, &[1]));
    assert!(!space.write_bytes(0x0FFF, &[1, 2]));
    assert_eq!(space.read_byte(0x1000), Some(0));
    assert!(space.write_bytes(0x3000, &[]));
}

#[test]
fn read_from_a_hole_is_none() {
    let mut space = two_pages_with_a_hole();
    assert!(space.write_bytes(0x2FFE, &[1, 2]));
    assert_eq!(space.read_bytes(0x2FFE, 2), Some(vec![1, 2]));
    assert_eq!(space.read_bytes(0x2FFE, 3), None);
    assert_eq!(space.read_bytes(0x3000, 1), None);
    assert_eq!(space.read_bytes(0x3FFF, 2), None);
}

#[test]
fn zeroing_clears_exactly_the_range() {
    let mut space = two_pages_with_a_hole();
    assert!(space.write_bytes(0x1FF0, &[0xAB; 32]));
    assert!(space.zero_bytes(0x1FF8, 16));
    let mut expected = vec![0xABu8; 32];
    for b in &mut expected[8..24] {
        *b = 0;
    }
    assert_eq!(space.read_bytes(0x1FF0, 32), Some(expected));
}

#[test]
fn zeroing_a_hole_clears_nothing() {
    let mut space = two_pages_with_a_hole();
    assert!(space.write_bytes(0x2FF0, &[0xAB; 16]));
    assert!(!space.zero_bytes(0x2FF0, 17));
    assert_eq!(space.read_bytes(0x2FF0, 16), Some(vec![0xAB; 16]));
    assert!(space.zero_bytes(0x3000, 0));
}
