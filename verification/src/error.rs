//! Typed results of loading and stepping the machine.
use vstd::prelude::*;

verus! {

/// Why a load or a step could not be carried out.
#[derive(Clone, Copy, Debug, PartialEq, Eq, Structural)]
pub enum Chip8Error {
    /// The program image does not fit between its origin and the end of memory.
    ProgramTooLarge,
    /// The program counter does not leave room for a two-byte instruction.
    ProgramCounterOutOfRange,
    /// A call was made with every usable stack slot taken.
    StackOverflow,
    /// A return was made with an empty stack.
    StackUnderflow,
    /// An indexed memory transfer reaches past the end of memory.
    MemoryOutOfRange,
    /// A key index outside `0..16` was used.
    KeyOutOfRange,
    /// The instruction word matches no known instruction; the word is carried along.
    UnknownOpcode(u16),
}

/// What a step that did not fail has done.
#[derive(Clone, Copy, Debug, PartialEq, Eq, Structural)]
pub enum StepOutcome {
    /// One instruction was executed.
    Advanced,
    /// The machine is halted: either it was already, or this step executed the halt sentinel.
    Halted,
    /// The machine sits on a wait-for-key instruction and no key is held down.
    WaitingForKey,
}

} // verus!
