//! The core of a small x86-64 operating system: PCI configuration-space
//! enumeration and MSI programming, a framebuffer pixel writer, glyph
//! renderer and scrolling text console, ELF kernel loading, the firmware
//! memory-map file format, and the xHCI controller bring-up sequence.

use vstd::prelude::*;

pub mod bringup;
pub mod console;
pub mod font;
pub mod graphics;
pub mod loader;
pub mod memmap;
pub mod pci;

verus! {

} // verus!
