//! A verified interpreter for a small 8-bit virtual machine: 4096 bytes of
//! memory, 16 general registers, a 16-entry call stack, two countdown timers,
//! a 16-key pad and a 64x32 monochrome framebuffer, driven one instruction at
//! a time by a fetch-decode-execute step.
//!
//! The machine state and the step driver live in [`emulator`]; the handler
//! for each instruction family lives in [`opcodes`]. Every handler carries a
//! contract that pins down the whole machine state after the instruction, via
//! the ghost view [`emulator::EmuView`].

pub mod emulator;
pub mod opcodes;
