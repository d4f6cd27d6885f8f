//! An interpreter for the CHIP-8 virtual machine.
//!
//! The machine has 4096 bytes of memory, sixteen 8-bit registers, a call stack, a bitmap display,
//! two countdown timers and a 16-key pad. [`chip8::Chip8`] holds its state and executes one
//! instruction per step; [`model::MachineState`] is the mathematical model that every contract
//! is stated over.
//!
//! - [`model`]: the state and the meaning of every instruction, as mathematical functions.
//! - [`chip8`]: the executable machine, each function proved against the model.
//! - [`decode`]: the fields of an instruction word.
//! - [`screen`]: display geometry, sprite rows, pixel lookups and text rendering.
//! - [`font`]: the built-in hexadecimal glyphs.
//! - [`error`]: the typed results of loading and stepping.
//! - [`laws`]: what holds of every machine, proved over the model.
//! - [`clock`] and [`entropy`]: the wall clock and the random source, taken on trust.
pub mod chip8;
pub mod clock;
pub mod decode;
pub mod entropy;
pub mod error;
pub mod font;
pub mod laws;
pub mod model;
pub mod screen;
