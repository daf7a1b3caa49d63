use wasabi::elf::{
    Elf64Header, ELF_CLASS_64, ELF_HEADER_SIZE, ELF_MACHINE_X86_64, ELF_MAGIC, PF_R, PF_W, PF_X,
    PROGRAM_HEADER_SIZE, PT_LOAD, PT_NULL,
};

fn valid_header() -> Vec<u8> {
    let mut h = vec![0u8; 64];
    h[0..4].copy_from_slice(&[0x7f, b'E', b'L', b'F']);
    h[4] = 2; // class
    h[5] = 1; // endian
    h[6] = 1; // version
    h[7] = 3; // os abi
    for (i, b) in h[8..15].iter_mut().enumerate() {
        *b = 0xA0 + i as u8;
    }
    h[15] = 0xEE;
    h[16..18].copy_from_slice(&2u16.to_le_bytes()); // type
    h[18..20].copy_from_slice(&0x3Eu16.to_le_bytes()); // machine
    h[20..24].copy_from_slice(&0x0102_0304u32.to_le_bytes()); // version2
    h[24..32].copy_from_slice(&0x0000_0000_0040_1000u64.to_le_bytes()); // entry
    h[32..40].copy_from_slice(&64u64.to_le_bytes()); // phoff
    h[40..48].copy_from_slice(&0x1122_3344_5566_7788u64.to_le_bytes()); // shoff
    h[48..52].copy_from_slice(&0xDEAD_BEEFu32.to_le_bytes()); // flags
    h[52..54].copy_from_slice(&64u16.to_le_bytes()); // ehsize
    h[54..56].copy_from_slice(&56u16.to_le_bytes()); // phentsize
    h[56..58].copy_from_slice(&3u16.to_le_bytes()); // phnum
    h[58..60].copy_from_slice(&64u16.to_le_bytes()); // shentsize
    h[60..62].copy_from_slice(&7u16.to_le_bytes()); // shnum
    h[62..64].copy_from_slice(&6u16.to_le_bytes()); // shstrndx
    h
}

#[test]
fn format_constants() {
    assert_eq!(ELF_MAGIC, [0x7f, b'E', b'L', b'F']);
    assert_eq!(ELF_CLASS_64, 2);
    assert_eq!(ELF_MACHINE_X86_64, 0x3E);
    assert_eq!(ELF_HEADER_SIZE, 64);
    assert_eq!(PROGRAM_HEADER_SIZE, 56);
    assert_eq!(PT_NULL, 0);
    assert_eq!(PT_LOAD, 1);
    assert_eq!(PF_X, 1);
    assert_eq!(PF_W, 2);
    assert_eq!(PF_R, 4);
}

#[test]
fn every_short_buffer_is_rejected() {
    let full = valid_header();
    for len in 0..64 {
        assert!(Elf64Header::parse(&full[..len]).is_none(), "length {}", len);
    }
}

#[test]
fn header_of_exactly_the_fixed_size_is_accepted() {
    assert!(Elf64Header::parse(&valid_header()).is_some());
}

#[test]
fn header_fields_come_from_their_places() {
    let h = Elf64Header::parse(&valid_header()).unwrap();
    assert_eq!(h.magic, [0x7f, 0x45, 0x4c, 0x46]);
    assert_eq!(h.class, 2);
    assert_eq!(h.endian, 1);
    assert_eq!(h.version, 1);
    assert_eq!(h.os_abi, 3);
    assert_eq!(h._padding, [0xA0, 0xA1, 0xA2, 0xA3, 0xA4, 0xA5, 0xA6]);
    assert_eq!(h.elf_type, 2);
    assert_eq!(h.machine, 0x3E);
    assert_eq!(h.version2, 0x0102_0304);
    assert_eq!(h.entry, 0x40_1000);
    assert_eq!(h.phoff, 64);
    assert_eq!(h.shoff, 0x1122_3344_5566_7788);
    assert_eq!(h.flags, 0xDEAD_BEEF);
    assert_eq!(h.ehsize, 64);
    assert_eq!(h.phentsize, 56);
    assert_eq!(h.phnum, 3);
    assert_eq!(h.shentsize, 64);
    assert_eq!(h.shnum, 7);
    assert_eq!(h.shstrndx, 6);
}

#[test]
fn bytes_after_the_header_do_not_matter() {
    let mut data = valid_header();
    let expected = Elf64Header::parse(&data).unwrap();
    data.extend_from_slice(&[0xFF; 100]);
    let h = Elf64Header::parse(&data).unwrap();
    assert_eq!(h.entry, expected.entry);
    assert_eq!(h.phnum, expected.phnum);
}

#[test]
fn wrong_signature_is_rejected() {
    for at in 0..4 {
        let mut data = valid_header();
        data[at] ^= 0x01;
        assert!(Elf64Header::parse(&data).is_none(), "byte {}", at);
    }
    let mut data = valid_header();
    data[0..4].copy_from_slice(b"MZ\x90\x00");
    assert!(Elf64Header::parse(&data).is_none());
}

#[test]
fn every_other_class_is_rejected() {
    for class in 0..=255u8 {
        let mut data = valid_header();
        data[4] = class;
        assert_eq!(Elf64Header::parse(&data).is_some(), class == 2, "class {}", class);
    }
}

#[test]
fn other_machines_are_rejected() {
    for machine in [0u16, 3, 0x28, 0x3D, 0x3F, 0xB7, 0xF3, 0x3E00, 0x013E, 0xFFFF] {
        let mut data = valid_header();
        data[18..20].copy_from_slice(&machine.to_le_bytes());
        assert!(Elf64Header::parse(&data).is_none(), "machine {:#x}", machine);
    }
}

#[test]
fn fields_that_are_not_checked_may_hold_anything() {
    let mut data = valid_header();
    data[5] = 2; // big-endian marker
    data[6] = 0;
    data[16..18].copy_from_slice(&0xFFFFu16.to_le_bytes());
    let h = Elf64Header::parse(&data).unwrap();
    assert_eq!(h.endian, 2);
    assert_eq!(h.version, 0);
    assert_eq!(h.elf_type, 0xFFFF);
}
