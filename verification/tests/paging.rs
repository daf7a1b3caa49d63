use wasabi::paging::{page_base, ATTR_MASK, PAGE_SIZE};

#[test]
fn page_constants() {
    assert_eq!(PAGE_SIZE, 4096);
    assert_eq!(ATTR_MASK, 0xFFF);
}

#[test]
fn page_base_rounds_down() {
    assert_eq!(page_base(0), 0);
    assert_eq!(page_base(1), 0);
    assert_eq!(page_base(0xFFF), 0);
    assert_eq!(page_base(0x1000), 0x1000);
    assert_eq!(page_base(0x1234), 0x1000);
    assert_eq!(page_base(0x1FFF), 0x1000);
    assert_eq!(page_base(u64::MAX), 0xFFFF_FFFF_FFFF_F000);
}
