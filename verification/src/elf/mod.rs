//! The ELF64 file header and program-header table.
//!
//! Both records have a fixed byte layout. Decoding is a total function of the
//! bytes: the header is either accepted with every field taken from its place,
//! or rejected as a whole, and the program-header table yields exactly the
//! entries that lie inside the buffer.

pub mod loader;

use vstd::prelude::*;
use crate::bytes::{le_u16, le_u32, le_u64, read_u16, read_u32, read_u64};

verus! {

/// The four bytes every ELF image starts with.
pub const ELF_MAGIC: [u8; 4] = [0x7f, 0x45, 0x4c, 0x46];

/// The class byte of a 64-bit image.
pub const ELF_CLASS_64: u8 = 2;

/// The machine field of an x86-64 image.
pub const ELF_MACHINE_X86_64: u16 = 0x3E;

/// Number of bytes taken by the file header.
pub const ELF_HEADER_SIZE: usize = 64;

/// Number of bytes taken by one decoded program-header record.
pub const PROGRAM_HEADER_SIZE: usize = 56;

/// Segment type of an unused table entry.
pub const PT_NULL: u32 = 0;

/// Segment type of a loadable segment.
pub const PT_LOAD: u32 = 1;

/// Segment flag: executable.
pub const PF_X: u32 = 1;

/// Segment flag: writable.
pub const PF_W: u32 = 2;

/// Segment flag: readable.
pub const PF_R: u32 = 4;

/// The ELF64 file header, field by field in file order.
#[derive(Debug, Clone, Copy)]
pub struct Elf64Header {
    pub magic: [u8; 4],
    pub class: u8,
    pub endian: u8,
    pub version: u8,
    pub os_abi: u8,
    pub _padding: [u8; 7],
    pub elf_type: u16,
    pub machine: u16,
    pub version2: u32,
    pub entry: u64,
    pub phoff: u64,
    pub shoff: u64,
    pub flags: u32,
    pub ehsize: u16,
    pub phentsize: u16,
    pub phnum: u16,
    pub shentsize: u16,
    pub shnum: u16,
    pub shstrndx: u16,
}

impl Elf64Header {
    /// The header whose fields are read from the first 64 bytes of `bytes`.
    ///
    /// Bytes 8 to 14 are the padding after the ABI byte; byte 15 belongs to no
    /// field.
    pub open spec fn decode(bytes: Seq<u8>) -> Elf64Header
        recommends
            bytes.len() >= ELF_HEADER_SIZE,
    {
        Elf64Header {
            magic: [bytes[0], bytes[1], bytes[2], bytes[3]],
            class: bytes[4],
            endian: bytes[5],
            version: bytes[6],
            os_abi: bytes[7],
            _padding: [bytes[8], bytes[9], bytes[10], bytes[11], bytes[12], bytes[13], bytes[14]],
            elf_type: le_u16(bytes, 16),
            machine: le_u16(bytes, 18),
            version2: le_u32(bytes, 20),
            entry: le_u64(bytes, 24),
            phoff: le_u64(bytes, 32),
            shoff: le_u64(bytes, 40),
            flags: le_u32(bytes, 48),
            ehsize: le_u16(bytes, 52),
            phentsize: le_u16(bytes, 54),
            phnum: le_u16(bytes, 56),
            shentsize: le_u16(bytes, 58),
            shnum: le_u16(bytes, 60),
            shstrndx: le_u16(bytes, 62),
        }
    }

    /// Whether `bytes` starts with the ELF signature.
    pub open spec fn has_magic(bytes: Seq<u8>) -> bool {
        &&& bytes.len() >= 4
        &&& bytes[0] == 0x7f
        &&& bytes[1] == 0x45
        &&& bytes[2] == 0x4c
        &&& bytes[3] == 0x46
    }

    /// Whether `bytes` holds a header this loader takes: long enough, with the
    /// signature, of the 64-bit class and for the x86-64 machine.
    pub open spec fn accepts(bytes: Seq<u8>) -> bool {
        &&& bytes.len() >= ELF_HEADER_SIZE
        &&& Self::has_magic(bytes)
        &&& bytes[4] == ELF_CLASS_64
        &&& le_u16(bytes, 18) == ELF_MACHINE_X86_64
    }

    /// What [`Elf64Header::parse`] returns for `bytes`.
    pub open spec fn parse_spec(bytes: Seq<u8>) -> Option<Elf64Header> {
        if Self::accepts(bytes) {
            Some(Self::decode(bytes))
        } else {
            None
        }
    }

    /// Decodes and validates the file header at the start of `data`.
    ///
    /// There is no lenient mode: a short buffer, a wrong signature, a class
    /// other than 64-bit or a machine other than x86-64 each reject the image.
    pub fn parse(data: &[u8]) -> (res: Option<Self>)
        ensures
            res == Self::parse_spec(data@),
            data@.len() < ELF_HEADER_SIZE ==> res is None,
            !Self::has_magic(data@) ==> res is None,
            data@.len() > 4 && data@[4] != ELF_CLASS_64 ==> res is None,
            data@.len() >= 20 && le_u16(data@, 18) != ELF_MACHINE_X86_64 ==> res is None,
    {
        if data.len() < ELF_HEADER_SIZE {
            return None;
        }
        let header = Elf64Header {
            magic: [data[0], data[1], data[2], data[3]],
            class: data[4],
            endian: data[5],
            version: data[6],
            os_abi: data[7],
            _padding: [data[8], data[9], data[10], data[11], data[12], data[13], data[14]],
            elf_type: read_u16(data, 16),
            machine: read_u16(data, 18),
            version2: read_u32(data, 20),
            entry: read_u64(data, 24),
            phoff: read_u64(data, 32),
            shoff: read_u64(data, 40),
            flags: read_u32(data, 48),
            ehsize: read_u16(data, 52),
            phentsize: read_u16(data, 54),
            phnum: read_u16(data, 56),
            shentsize: read_u16(data, 58),
            shnum: read_u16(data, 60),
            shstrndx: read_u16(data, 62),
        };
        if header.magic[0] != ELF_MAGIC[0] || header.magic[1] != ELF_MAGIC[1]
            || header.magic[2] != ELF_MAGIC[2] || header.magic[3] != ELF_MAGIC[3] {
            return None;
        }
        if header.class != ELF_CLASS_64 {
            return None;
        }
        if header.machine != ELF_MACHINE_X86_64 {
            return None;
        }
        Some(header)
    }
}

/// One entry of the program-header table: a segment descriptor.
#[derive(Debug, Clone, Copy)]
pub struct Elf64ProgramHeader {
    /// Segment type; only [`PT_LOAD`] segments are loaded.
    pub p_type: u32,
    /// Access flags, a combination of [`PF_R`], [`PF_W`] and [`PF_X`].
    pub p_flags: u32,
    /// Offset of the segment's bytes in the file.
    pub p_offset: u64,
    /// Virtual address the segment is placed at.
    pub p_vaddr: u64,
    /// Physical address; not used by the loader.
    pub p_paddr: u64,
    /// Number of bytes the segment takes in the file.
    pub p_filesz: u64,
    /// Number of bytes the segment takes in memory.
    pub p_memsz: u64,
    /// Requested alignment.
    pub p_align: u64,
}

impl Elf64ProgramHeader {
    /// The record whose fields are read from the 56 bytes of `bytes` that
    /// start at `at`.
    pub open spec fn decode(bytes: Seq<u8>, at: int) -> Elf64ProgramHeader
        recommends
            0 <= at,
            at + PROGRAM_HEADER_SIZE <= bytes.len(),
    {
        Elf64ProgramHeader {
            p_type: le_u32(bytes, at),
            p_flags: le_u32(bytes, at + 4),
            p_offset: le_u64(bytes, at + 8),
            p_vaddr: le_u64(bytes, at + 16),
            p_paddr: le_u64(bytes, at + 24),
            p_filesz: le_u64(bytes, at + 32),
            p_memsz: le_u64(bytes, at + 40),
            p_align: le_u64(bytes, at + 48),
        }
    }

    /// File offset at which table entry `index` starts.
    pub open spec fn entry_start(header: Elf64Header, index: int) -> int {
        header.phoff + index * header.phentsize
    }

    /// Whether table entry `index` lies inside a buffer of `len` bytes: both
    /// the extent the header declares for it and the record that is decoded
    /// from its start end at or before `len`.
    pub open spec fn entry_fits(len: int, header: Elf64Header, index: int) -> bool {
        &&& Self::entry_start(header, index) + header.phentsize <= len
        &&& Self::entry_start(header, index) + PROGRAM_HEADER_SIZE <= len
    }

    /// The decoded entries among the first `count` of the table, in table
    /// order, without those that do not fit in `bytes`.
    pub open spec fn table(bytes: Seq<u8>, header: Elf64Header, count: nat) -> Seq<
        Elf64ProgramHeader,
    >
        decreases count,
    {
        if count == 0 {
            Seq::empty()
        } else {
            let before = Self::table(bytes, header, (count - 1) as nat);
            if Self::entry_fits(bytes.len() as int, header, count - 1) {
                before.push(Self::decode(bytes, Self::entry_start(header, count - 1)))
            } else {
                before
            }
        }
    }

    /// How many of the first `count` table entries fit in a buffer of `len`
    /// bytes.
    pub open spec fn fitting(len: int, header: Elf64Header, count: nat) -> nat
        decreases count,
    {
        if count == 0 {
            0
        } else if Self::entry_fits(len, header, count - 1) {
            Self::fitting(len, header, (count - 1) as nat) + 1
        } else {
            Self::fitting(len, header, (count - 1) as nat)
        }
    }

    /// Decodes the program-header table that `header` describes.
    ///
    /// An entry that reaches past the end of `data` is left out; the entries
    /// that fit are returned in table order. The table may start at any
    /// offset.
    pub fn parse_all(data: &[u8], header: &Elf64Header) -> (res: Vec<Self>)
        ensures
            res@ == Self::table(data@, *header, header.phnum as nat),
            res@.len() == Self::fitting(data@.len() as int, *header, header.phnum as nat),
    {
        let mut headers: Vec<Self> = Vec::new();
        let len: u128 = data.len() as u128;
        let offset: u128 = header.phoff as u128;
        let size: u128 = header.phentsize as u128;
        let mut i: u16 = 0;
        while i < header.phnum
            invariant
                i <= header.phnum,
                len == data.len(),
                data.len() == data@.len(),
                offset == header.phoff,
                size == header.phentsize,
                headers@ == Self::table(data@, *header, i as nat),
                headers@.len() == Self::fitting(data@.len() as int, *header, i as nat),
            decreases header.phnum - i,
        {
            assert(i * size <= 0xffff * 0xffff) by (nonlinear_arith)
                requires
                    0 <= i <= 0xffff,
                    0 <= size <= 0xffff,
            ;
            let start: u128 = offset + (i as u128) * size;
            if start + size <= len && start + (PROGRAM_HEADER_SIZE as u128) <= len {
                let at: usize = start as usize;
                let ph = Elf64ProgramHeader {
                    p_type: read_u32(data, at),
                    p_flags: read_u32(data, at + 4),
                    p_offset: read_u64(data, at + 8),
                    p_vaddr: read_u64(data, at + 16),
                    p_paddr: read_u64(data, at + 24),
                    p_filesz: read_u64(data, at + 32),
                    p_memsz: read_u64(data, at + 40),
                    p_align: read_u64(data, at + 48),
                };
                headers.push(ph);
            }
            i = i + 1;
        }
        headers
    }
}

/// Every entry of the decoded table is the decoding of a table entry that
/// fits in the buffer, and the entries keep the order of their indices.
pub proof fn lemma_table_entries_fit(bytes: Seq<u8>, header: Elf64Header, count: nat, k: int)
    requires
        0 <= k < Elf64ProgramHeader::table(bytes, header, count).len(),
    ensures
        exists|i: int|
            0 <= i < count && Elf64ProgramHeader::entry_fits(bytes.len() as int, header, i)
                && Elf64ProgramHeader::fitting(bytes.len() as int, header, i as nat) == k
                && #[trigger] Elf64ProgramHeader::decode(
                bytes,
                Elf64ProgramHeader::entry_start(header, i),
            ) == Elf64ProgramHeader::table(bytes, header, count)[k],
    decreases count,
{
    lemma_table_len(bytes, header, count);
    if count > 0 {
        let before = Elf64ProgramHeader::table(bytes, header, (count - 1) as nat);
        lemma_table_len(bytes, header, (count - 1) as nat);
        if k < before.len() {
            lemma_table_entries_fit(bytes, header, (count - 1) as nat, k);
        } else {
            let i = count - 1;
            assert(Elf64ProgramHeader::decode(bytes, Elf64ProgramHeader::entry_start(header, i))
                == Elf64ProgramHeader::table(bytes, header, count)[k]);
        }
    }
}

/// The decoded table has one entry for each table entry that fits.
pub proof fn lemma_table_len(bytes: Seq<u8>, header: Elf64Header, count: nat)
    ensures
        Elf64ProgramHeader::table(bytes, header, count).len() == Elf64ProgramHeader::fitting(
            bytes.len() as int,
            header,
            count,
        ),
        Elf64ProgramHeader::fitting(bytes.len() as int, header, count) <= count,
    decreases count,
{
    if count > 0 {
        lemma_table_len(bytes, header, (count - 1) as nat);
    }
}

/// An entry that reaches past the end of the buffer costs nothing but itself:
/// every table entry that fits is decoded, and stands in the result at the
/// position given by the number of fitting entries before it.
pub proof fn lemma_fitting_entry_is_kept(bytes: Seq<u8>, header: Elf64Header, count: nat, i: int)
    requires
        0 <= i < count,
        Elf64ProgramHeader::entry_fits(bytes.len() as int, header, i),
    ensures
        Elf64ProgramHeader::fitting(bytes.len() as int, header, i as nat)
            < Elf64ProgramHeader::table(bytes, header, count).len(),
        Elf64ProgramHeader::table(bytes, header, count)[Elf64ProgramHeader::fitting(
            bytes.len() as int,
            header,
            i as nat,
        ) as int] == Elf64ProgramHeader::decode(bytes, Elf64ProgramHeader::entry_start(header, i)),
    decreases count,
{
    lemma_table_len(bytes, header, count);
    lemma_table_len(bytes, header, (count - 1) as nat);
    if i < count - 1 {
        lemma_fitting_entry_is_kept(bytes, header, (count - 1) as nat, i);
    }
}

/// A header that is accepted is no longer accepted once its class byte is
/// changed to anything but the 64-bit class.
pub proof fn lemma_altered_class_is_rejected(bytes: Seq<u8>, class: u8)
    requires
        Elf64Header::accepts(bytes),
        class != ELF_CLASS_64,
    ensures
        Elf64Header::parse_spec(bytes.update(4, class)) is None,
{
}

/// A header that is accepted is no longer accepted once the two bytes of its
/// machine field are changed to encode anything but x86-64.
pub proof fn lemma_altered_machine_is_rejected(bytes: Seq<u8>, low: u8, high: u8)
    requires
        Elf64Header::accepts(bytes),
        low != 0x3E || high != 0,
    ensures
        Elf64Header::parse_spec(bytes.update(18, low).update(19, high)) is None,
{
}

/// A header that is accepted is no longer accepted once one of its four
/// signature bytes is changed.
pub proof fn lemma_altered_magic_is_rejected(bytes: Seq<u8>, at: int, value: u8)
    requires
        Elf64Header::accepts(bytes),
        0 <= at < 4,
        value != bytes[at],
    ensures
        Elf64Header::parse_spec(bytes.update(at, value)) is None,
{
}

} // verus!
