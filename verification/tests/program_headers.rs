use wasabi::elf::{Elf64Header, Elf64ProgramHeader};

fn header(phoff: u64, phentsize: u16, phnum: u16) -> Vec<u8> {
    let mut h = vec![0u8; 64];
    h[0..4].copy_from_slice(&[0x7f, b'E', b'L', b'F']);
    h[4] = 2;
    h[18..20].copy_from_slice(&0x3Eu16.to_le_bytes());
    h[32..40].copy_from_slice(&phoff.to_le_bytes());
    h[54..56].copy_from_slice(&phentsize.to_le_bytes());
    h[56..58].copy_from_slice(&phnum.to_le_bytes());
    h
}

fn entry(seed: u64) -> Vec<u8> {
    let mut e = Vec::new();
    e.extend_from_slice(&(seed as u32 + 1).to_le_bytes()); // p_type
    e.extend_from_slice(&(seed as u32 + 2).to_le_bytes()); // p_flags
    e.extend_from_slice(&(seed * 0x1_0000_0001 + 3).to_le_bytes()); // p_offset
    e.extend_from_slice(&(seed * 0x1_0000_0001 + 4).to_le_bytes()); // p_vaddr
    e.extend_from_slice(&(seed * 0x1_0000_0001 + 5).to_le_bytes()); // p_paddr
    e.extend_from_slice(&(seed * 0x1_0000_0001 + 6).to_le_bytes()); // p_filesz
    e.extend_from_slice(&(seed * 0x1_0000_0001 + 7).to_le_bytes()); // p_memsz
    e.extend_from_slice(&(seed * 0x1_0000_0001 + 8).to_le_bytes()); // p_align
    e
}

fn assert_entry(ph: &Elf64ProgramHeader, seed: u64) {
    assert_eq!(ph.p_type, seed as u32 + 1);
    assert_eq!(ph.p_flags, seed as u32 + 2);
    assert_eq!(ph.p_offset, seed * 0x1_0000_0001 + 3);
    assert_eq!(ph.p_vaddr, seed * 0x1_0000_0001 + 4);
    assert_eq!(ph.p_paddr, seed * 0x1_0000_0001 + 5);
    assert_eq!(ph.p_filesz, seed * 0x1_0000_0001 + 6);
    assert_eq!(ph.p_memsz, seed * 0x1_0000_0001 + 7);
    assert_eq!(ph.p_align, seed * 0x1_0000_0001 + 8);
}

fn parse(data: &[u8]) -> Vec<Elf64ProgramHeader> {
    let h = Elf64Header::parse(data).unwrap();
    Elf64ProgramHeader::parse_all(data, &h)
}

#[test]
fn table_is_decoded_in_order() {
    let mut data = header(64, 56, 3);
    data.extend(entry(10));
    data.extend(entry(20));
    data.extend(entry(30));
    let table = parse(&data);
    assert_eq!(table.len(), 3);
    assert_entry(&table[0], 10);
    assert_entry(&table[1], 20);
    assert_entry(&table[2], 30);
}

#[test]
fn empty_table() {
    let data = header(64, 56, 0);
    assert!(parse(&data).is_empty());
}

#[test]
fn table_at_an_odd_offset() {
    let mut data = header(67, 56, 2);
    data.extend_from_slice(&[0xCC; 3]);
    data.extend(entry(1));
    data.extend(entry(2));
    let table = parse(&data);
    assert_eq!(table.len(), 2);
    assert_entry(&table[0], 1);
    assert_entry(&table[1], 2);
}

#[test]
fn entries_past_the_end_are_left_out() {
    let mut data = header(64, 56, 4);
    data.extend(entry(1));
    data.extend(entry(2));
    data.extend_from_slice(&entry(3)[..55]); // one byte short
    let table = parse(&data);
    assert_eq!(table.len(), 2);
    assert_entry(&table[0], 1);
    assert_entry(&table[1], 2);
}

#[test]
fn entry_that_ends_exactly_at_the_end_is_kept() {
    let mut data = header(64, 56, 5);
    data.extend(entry(1));
    data.extend(entry(2));
    assert_eq!(data.len(), 64 + 2 * 56);
    let table = parse(&data);
    assert_eq!(table.len(), 2);
    assert_entry(&table[1], 2);
}

#[test]
fn table_that_starts_past_the_end_is_empty() {
    let data = header(1000, 56, 3);
    assert!(parse(&data).is_empty());
    let data = header(u64::MAX, 56, 3);
    assert!(parse(&data).is_empty());
    let data = header(u64::MAX - 10, 0xFFFF, 0xFFFF);
    assert!(parse(&data).is_empty());
}

#[test]
fn entries_may_be_wider_than_the_record() {
    let mut data = header(64, 64, 3);
    for seed in [4u64, 5, 6] {
        data.extend(entry(seed));
        data.extend_from_slice(&[0xEE; 8]);
    }
    let table = parse(&data);
    assert_eq!(table.len(), 3);
    assert_entry(&table[0], 4);
    assert_entry(&table[1], 5);
    assert_entry(&table[2], 6);
}

#[test]
fn wide_entry_whose_extent_passes_the_end_is_left_out() {
    let mut data = header(64, 64, 2);
    data.extend(entry(4));
    data.extend_from_slice(&[0xEE; 8]);
    data.extend(entry(5)); // the record is there, its last 8 bytes are not
    let table = parse(&data);
    assert_eq!(table.len(), 1);
    assert_entry(&table[0], 4);
}

#[test]
fn narrow_entries_are_decoded_from_their_start() {
    // A stride below the record size: records overlap, and one is decoded
    // only where the whole record lies inside the buffer.
    let mut data = header(64, 8, 3);
    data.extend(entry(9));
    data.extend_from_slice(&[0u8; 8]);
    let table = parse(&data);
    // starts at 64, 72, 80; the buffer ends at 128: 64+56 and 72+56 fit.
    assert_eq!(table.len(), 2);
    assert_entry(&table[0], 9);
    assert_eq!(table[1].p_type, (9 * 0x1_0000_0001u64 + 3) as u32);
}

#[test]
fn zero_sized_entries_repeat_the_first_record() {
    let mut data = header(64, 0, 3);
    data.extend(entry(2));
    let table = parse(&data);
    assert_eq!(table.len(), 3);
    for ph in &table {
        assert_entry(ph, 2);
    }
}

#[test]
fn table_may_overlap_the_header() {
    let data = header(0, 56, 1);
    let table = parse(&data);
    assert_eq!(table.len(), 1);
    assert_eq!(table[0].p_type, u32::from_le_bytes([0x7f, b'E', b'L', b'F']));
}
