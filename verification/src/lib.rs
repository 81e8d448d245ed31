//! Core of a small 8-bit virtual machine: registers, memory, call stack,
//! delay timer, and a monochrome XOR-blitting framebuffer, with the
//! fetch-decode-execute cycle that drives them.

pub mod consts;
pub mod cpu;
pub mod display;
pub mod emulator;
