//! An interpreter for the sixteen-bit virtual machine of the Synacor
//! challenge: an instruction decoder, a memory and register address space,
//! a value stack and line-buffered input that can suspend and resume; with
//! the program image codec, and helpers for the text adventure that the
//! challenge program hosts.
pub mod codec;
pub mod input;
pub mod opcode;
pub mod vm;
pub mod theorems;
pub mod room;
pub mod coins;
