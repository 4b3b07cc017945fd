//! Memory-management core of a small x86-64 kernel.
//!
//! - [`memory`]: addresses, frames and pages; page tables and their
//!   entries; the allocator of physical frames from the boot memory map;
//!   address translation through the four levels of page tables; and the
//!   mapping of pages.
//! - [`allocator`]: the kernel heap, how its pages are mapped, and the
//!   bump allocator that serves it.
//! - [`interrupts`]: the numbers of the hardware interrupts.
//! - [`vga_buffer`]: the text screen and its writer.
//!
//! The page tables are held as values, each under the frame in which it
//! lies, so that what translation and mapping do is stated and proved
//! over them. A kernel that walks the tables in its memory reads the
//! entries itself and hands each to a [`memory::translate::PageWalk`],
//! which says what the entry means and what to read next.

pub mod allocator;
pub mod interrupts;
pub mod memory;
pub mod vga_buffer;
