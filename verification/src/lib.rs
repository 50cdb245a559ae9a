//! A verified CHIP-8 interpreter core: a 4096-byte memory seeded with the
//! font table, a 64x32 XOR-composited monochrome display, a one-key keypad
//! model and a delay timer behind a mediating bus, and the
//! fetch-decode-execute cycle itself. The machine's step semantics are
//! stated as a specification-level interpreter (`cpu::cycle`), the
//! executable interpreter is proved to implement it, and the laws module
//! derives the headline properties from that specification.

pub mod bus;
pub mod cpu;
pub mod display;
pub mod keyboard;
pub mod laws;
pub mod machine;
pub mod ram;
