//! A CHIP-8 virtual machine: a fixed 16-bit instruction set interpreted
//! against 4096 bytes of memory, sixteen 8-bit registers, a bounded call
//! stack, two saturating timers, a 64 x 32 monochrome frame buffer and a
//! single-key input latch. The instruction semantics are stated as a
//! mathematical transition function and every engine operation is proved
//! against it.

pub mod cpu;
pub mod decode;
pub mod keyboard;
pub mod laws;
pub mod video;
