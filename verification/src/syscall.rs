//! The system-call boundary.
//!
//! A running program traps into the kernel with a call number and three
//! arguments. [`handle_syscall`] decides what the call comes to: the value
//! handed back to the program, or the end of the program, and what the
//! console is told. It keeps no state between calls.
//!
//! Only `print` and `exit` do what their names say. The calls for setting up
//! thread-local storage and for mapping memory are compatibility shims that
//! answer with fixed values, and every unknown call reports success, so that
//! programs which do not depend on the outcome can go on.

use vstd::prelude::*;
use vstd::utf8::valid_utf8;
use crate::memory::{AddressSpace, PageView, bytes_at, range_mapped};

verus! {

/// Call number of `print`: write bytes to a stream.
pub const SYSCALL_PRINT: u64 = 1;

/// Call number of `exit`: end the calling program.
pub const SYSCALL_EXIT: u64 = 60;

/// Call number of the architecture-specific control call, which programs use
/// to set the base of their thread-local storage.
pub const SYSCALL_ARCH_PRCTL: u64 = 158;

/// Call number of the memory-map request.
pub const SYSCALL_MMAP: u64 = 9;

/// Stream identifier of the standard output.
pub const STDOUT: u64 = 1;

/// Stream identifier of the standard error output.
pub const STDERR: u64 = 2;

/// The value handed back for a call that failed.
pub const SYSCALL_FAILED: u64 = 0xFFFF_FFFF_FFFF_FFFF;

/// How a system call ends.
#[derive(Debug, Clone, Copy, PartialEq, Eq, Structural)]
pub enum SyscallOutcome {
    /// The call returns this value to the program.
    Return(u64),
    /// The call does not return: the program has ended with this exit code.
    Exit(u64),
}

/// One thing the console is told.
#[derive(Debug, PartialEq, Eq)]
pub enum ConsoleRecord {
    /// Text a program printed, as UTF-8 bytes.
    Text(Vec<u8>),
    /// A program ended with this exit code.
    Exited { code: u64 },
    /// A program asked for the architecture-specific control call, which was
    /// ignored.
    ArchControlIgnored,
    /// A program asked for `len` bytes of memory to be mapped at `addr`, which
    /// was refused.
    MemoryMapRefused { addr: u64, len: u64 },
    /// A program made a call with a number that is not known.
    UnknownSyscall { number: u64 },
}

/// What a [`ConsoleRecord`] says.
pub enum ConsoleRecordView {
    Text(Seq<u8>),
    Exited { code: u64 },
    ArchControlIgnored,
    MemoryMapRefused { addr: u64, len: u64 },
    UnknownSyscall { number: u64 },
}

impl View for ConsoleRecord {
    type V = ConsoleRecordView;

    open spec fn view(&self) -> ConsoleRecordView {
        match *self {
            ConsoleRecord::Text(bytes) => ConsoleRecordView::Text(bytes@),
            ConsoleRecord::Exited { code } => ConsoleRecordView::Exited { code },
            ConsoleRecord::ArchControlIgnored => ConsoleRecordView::ArchControlIgnored,
            ConsoleRecord::MemoryMapRefused { addr, len } => ConsoleRecordView::MemoryMapRefused {
                addr,
                len,
            },
            ConsoleRecord::UnknownSyscall { number } => ConsoleRecordView::UnknownSyscall {
                number,
            },
        }
    }
}

/// Whether a record is one a console takes: text must be well-formed UTF-8.
pub open spec fn record_wf(record: ConsoleRecordView) -> bool {
    record matches ConsoleRecordView::Text(bytes) ==> valid_utf8(bytes)
}

/// The console: everything it was told, oldest first. Nothing is ever taken
/// back from it, and all text on it is well-formed UTF-8.
pub struct Console {
    records: Vec<ConsoleRecord>,
}

impl View for Console {
    type V = Seq<ConsoleRecordView>;

    closed spec fn view(&self) -> Seq<ConsoleRecordView> {
        Seq::new(self.records@.len(), |i: int| self.records@[i]@)
    }
}

/// `core::str::from_utf8`, asked only whether it accepts: the answer is yes
/// exactly for the byte sequences that are well-formed UTF-8.
#[verifier::external_body]
fn is_utf8(bytes: &[u8]) -> (ok: bool)
    ensures
        ok == valid_utf8(bytes@),
{
    core::str::from_utf8(bytes).is_ok()
}

impl Console {
    /// Every record is one a console takes.
    pub open spec fn wf(&self) -> bool {
        forall|i: int| 0 <= i < self@.len() ==> record_wf(#[trigger] self@[i])
    }

    /// A console that was told nothing yet.
    pub fn new() -> (console: Console)
        ensures
            console.wf(),
            console@ == Seq::<ConsoleRecordView>::empty(),
    {
        Console { records: Vec::new() }
    }

    /// Number of records.
    pub fn len(&self) -> (n: usize)
        ensures
            n == self@.len(),
    {
        self.records.len()
    }

    /// The record at position `i`, counted from the oldest.
    pub fn get(&self, i: usize) -> (res: Option<&ConsoleRecord>)
        ensures
            res is Some <==> i < self@.len(),
            res matches Some(record) ==> record@ == self@[i as int],
    {
        if i < self.records.len() {
            Some(&self.records[i])
        } else {
            None
        }
    }

    /// Appends a record, unless it is text that is not well-formed UTF-8.
    /// Returns whether the record was taken.
    pub fn write(&mut self, record: ConsoleRecord) -> (taken: bool)
        requires
            old(self).wf(),
        ensures
            final(self).wf(),
            taken == record_wf(record@),
            final(self)@ == if taken {
                old(self)@.push(record@)
            } else {
                old(self)@
            },
    {
        let taken = match &record {
            ConsoleRecord::Text(bytes) => is_utf8(bytes.as_slice()),
            _ => true,
        };
        if taken {
            self.push(record);
        }
        taken
    }

    fn push(&mut self, record: ConsoleRecord)
        requires
            old(self).wf(),
            record_wf(record@),
        ensures
            final(self).wf(),
            final(self)@ == old(self)@.push(record@),
    {
        self.records.push(record);
    }
}

/// Whether a `print` call is carried out: the stream is the standard output
/// or the standard error output, each of the `len` bytes at `addr` lies in a
/// mapped page of the program's address space, and together they are
/// well-formed UTF-8.
pub open spec fn print_accepted(stream: u64, addr: u64, len: u64, pages: Seq<PageView>) -> bool {
    &&& stream == STDOUT || stream == STDERR
    &&& range_mapped(pages, addr as int, len as int)
    &&& valid_utf8(bytes_at(pages, addr as int, len as int))
}

/// How the call `num` with arguments `arg1`, `arg2`, `arg3` ends for a program
/// whose address space holds `pages`.
pub open spec fn syscall_outcome(
    num: u64,
    arg1: u64,
    arg2: u64,
    arg3: u64,
    pages: Seq<PageView>,
) -> SyscallOutcome {
    if num == SYSCALL_PRINT {
        if print_accepted(arg1, arg2, arg3, pages) {
            SyscallOutcome::Return(arg3)
        } else {
            SyscallOutcome::Return(0)
        }
    } else if num == SYSCALL_EXIT {
        SyscallOutcome::Exit(arg1)
    } else if num == SYSCALL_MMAP {
        SyscallOutcome::Return(SYSCALL_FAILED)
    } else {
        SyscallOutcome::Return(0)
    }
}

/// What the console is told for the call `num` with arguments `arg1`, `arg2`,
/// `arg3`; `None` for a `print` call that is not carried out.
pub open spec fn syscall_record(
    num: u64,
    arg1: u64,
    arg2: u64,
    arg3: u64,
    pages: Seq<PageView>,
) -> Option<ConsoleRecordView> {
    if num == SYSCALL_PRINT {
        if print_accepted(arg1, arg2, arg3, pages) {
            Some(ConsoleRecordView::Text(bytes_at(pages, arg2 as int, arg3 as int)))
        } else {
            None
        }
    } else if num == SYSCALL_EXIT {
        Some(ConsoleRecordView::Exited { code: arg1 })
    } else if num == SYSCALL_ARCH_PRCTL {
        Some(ConsoleRecordView::ArchControlIgnored)
    } else if num == SYSCALL_MMAP {
        Some(ConsoleRecordView::MemoryMapRefused { addr: arg1, len: arg2 })
    } else {
        Some(ConsoleRecordView::UnknownSyscall { number: num })
    }
}

/// Carries out `print`: the `len` bytes at `addr` in `space` go to the console
/// if they can be read and are well-formed UTF-8. Returns `len` then, and 0
/// where the stream is not one that is printed or the bytes are not text.
pub fn print(stream: u64, addr: u64, len: u64, space: &AddressSpace, console: &mut Console) -> (written:
    u64)
    requires
        space.wf(),
        old(console).wf(),
    ensures
        final(console).wf(),
        written == if print_accepted(stream, addr, len, space@) {
            len
        } else {
            0
        },
        final(console)@ == if print_accepted(stream, addr, len, space@) {
            old(console)@.push(ConsoleRecordView::Text(bytes_at(space@, addr as int, len as int)))
        } else {
            old(console)@
        },
{
    if stream != STDOUT && stream != STDERR {
        return 0;
    }
    match space.read_bytes(addr, len) {
        Some(bytes) => {
            if is_utf8(bytes.as_slice()) {
                console.push(ConsoleRecord::Text(bytes));
                len
            } else {
                0
            }
        },
        None => 0,
    }
}

/// Serves one system call of a program that runs in `space`.
///
/// | number | call | what happens |
/// |---|---|---|
/// | 1 | print | see [`print`] |
/// | 60 | exit | the exit code `arg1` is recorded and the program ends |
/// | 158 | thread-local storage setup | ignored with a warning; returns 0 |
/// | 9 | memory map | refused with a warning; returns all ones |
/// | other | | reported; returns 0 |
pub fn handle_syscall(
    num: u64,
    arg1: u64,
    arg2: u64,
    arg3: u64,
    space: &AddressSpace,
    console: &mut Console,
) -> (outcome: SyscallOutcome)
    requires
        space.wf(),
        old(console).wf(),
    ensures
        final(console).wf(),
        outcome == syscall_outcome(num, arg1, arg2, arg3, space@),
        final(console)@ == match syscall_record(num, arg1, arg2, arg3, space@) {
            Some(record) => old(console)@.push(record),
            None => old(console)@,
        },
        num == SYSCALL_MMAP ==> outcome == SyscallOutcome::Return(SYSCALL_FAILED),
        num == SYSCALL_ARCH_PRCTL ==> outcome == SyscallOutcome::Return(0),
        num == SYSCALL_EXIT ==> outcome == SyscallOutcome::Exit(arg1),
        num != SYSCALL_PRINT && num != SYSCALL_EXIT && num != SYSCALL_MMAP ==> outcome
            == SyscallOutcome::Return(0),
        outcome is Exit <==> num == SYSCALL_EXIT,
{
    if num == SYSCALL_PRINT {
        SyscallOutcome::Return(print(arg1, arg2, arg3, space, console))
    } else if num == SYSCALL_EXIT {
        console.push(ConsoleRecord::Exited { code: arg1 });
        SyscallOutcome::Exit(arg1)
    } else if num == SYSCALL_ARCH_PRCTL {
        console.push(ConsoleRecord::ArchControlIgnored);
        SyscallOutcome::Return(0)
    } else if num == SYSCALL_MMAP {
        console.push(ConsoleRecord::MemoryMapRefused { addr: arg1, len: arg2 });
        SyscallOutcome::Return(SYSCALL_FAILED)
    } else {
        console.push(ConsoleRecord::UnknownSyscall { number: num });
        SyscallOutcome::Return(0)
    }
}

} // verus!
