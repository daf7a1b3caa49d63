//! Loading core of a small kernel: decoding of 64-bit ELF images, construction
//! of the address space an image runs in, and the system-call boundary that a
//! running image traps into.

pub mod bytes;
pub mod elf;
pub mod paging;
pub mod memory;
pub mod syscall;

use vstd::prelude::*;

verus! {

/// Entry point of the kernel, called once by the boot glue.
///
/// The kernel has no work of its own to do at boot: images are loaded and
/// system calls are served on request. The caller idles once this returns.
pub fn efi_main() {
}

} // verus!
