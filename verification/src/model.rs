//! The mathematical model of the machine.
//!
//! [`MachineState`] holds the state as plain mathematical values. Each instruction is a function
//! from one state to a [`Step`]: the next state and the typed result of the instruction.
//! [`MachineState::step`] is the whole fetch-decode-execute cycle. Every executable function of
//! the interpreter is specified by one of the functions in this file.
use crate::decode::{spec_family, spec_kk, spec_n, spec_nnn, spec_word, spec_x, spec_y};
use crate::error::{Chip8Error, StepOutcome};
use crate::font::{CHIP_DIGITS, GLYPH_BYTES};
use crate::screen::{spec_screen_height, spec_screen_width, sprite_mask};
use vstd::prelude::*;

verus! {

/// Number of addressable bytes.
pub const MEMORY_SIZE: usize = 4096;

/// Where a program is loaded by default.
pub const PROGRAM_ORIGIN: usize = 0x200;

/// Where a program is loaded in the alternate ("ETI") placement.
pub const ETI_ORIGIN: usize = 0x600;

/// Index of the flags register, which receives carry, borrow and collision.
pub const FLAGS: usize = 0xF;

/// The timers run when more than this many milliseconds have passed since they last did: one
/// tick of the 60 Hz clock.
pub const TIMER_INTERVAL_MILLIS: u128 = 16;

/// Highest value the stack pointer can take: the stack pointer is the index of the most recently
/// pushed return address, and slot 0 stays unused.
pub const STACK_TOP: usize = 15;

/// The state of the machine.
pub struct MachineState {
    /// 4096 bytes; the font sits at `0..80`.
    pub memory: Seq<u8>,
    /// Address of the next instruction.
    pub program_counter: int,
    /// The sixteen general registers; register 0xF doubles as the flags register.
    pub registers: Seq<u8>,
    /// Base address for indexed memory access.
    pub index_register: u16,
    /// Sixteen return addresses.
    pub stack: Seq<u16>,
    /// Index of the most recently pushed return address; 0 means the stack is empty.
    pub stack_pointer: int,
    pub delay_timer: u8,
    pub sound_timer: u8,
    /// Which of the sixteen keys are held down.
    pub keys: Seq<bool>,
    /// 64 rows of 128 bits.
    pub display: Seq<u128>,
    pub high_resolution: bool,
    /// Set by every draw, cleared by the host once it has shown the frame.
    pub needs_redraw: bool,
    /// Once set, stepping does nothing.
    pub halted: bool,
}

/// A state together with the typed result of the instruction or step that led to it.
pub struct Step {
    pub state: MachineState,
    pub result: Result<StepOutcome, Chip8Error>,
}

/// Memory as it is before any program is loaded: the font, then zeros.
pub open spec fn initial_memory() -> Seq<u8> {
    Seq::new(
        MEMORY_SIZE as nat,
        |a: int|
            if a < 80 {
                CHIP_DIGITS[a]
            } else {
                0u8
            },
    )
}

/// Whether the timers are due when the clock says that `elapsed_millis` milliseconds have passed
/// since they last ran. A clock that has gone backwards gives no reading, and the timers are not
/// due then.
pub open spec fn interval_passed(elapsed_millis: Option<u128>) -> bool {
    match elapsed_millis {
        Some(millis) => millis > TIMER_INTERVAL_MILLIS,
        None => false,
    }
}

/// `value` reduced modulo 256.
pub open spec fn wrap8(value: int) -> u8 {
    (value % 256) as u8
}

/// `value` reduced modulo 65536.
pub open spec fn wrap16(value: int) -> u16 {
    (value % 65536) as u16
}

impl MachineState {
    /// The sizes of the parts are right and the stack pointer is within the stack.
    pub open spec fn well_formed(self) -> bool {
        &&& self.memory.len() == MEMORY_SIZE
        &&& self.registers.len() == 16
        &&& self.stack.len() == 16
        &&& self.keys.len() == 16
        &&& self.display.len() == 64
        &&& 0 <= self.program_counter
        &&& 0 <= self.stack_pointer <= STACK_TOP
    }

    /// There is room for a two-byte instruction at the program counter.
    pub open spec fn can_fetch(self) -> bool {
        self.program_counter + 1 < self.memory.len()
    }

    /// The state of a machine that was just made: the font in memory, everything else zero.
    pub open spec fn initial() -> MachineState {
        MachineState {
            memory: initial_memory(),
            program_counter: 0,
            registers: Seq::new(16, |i: int| 0u8),
            index_register: 0,
            stack: Seq::new(16, |i: int| 0u16),
            stack_pointer: 0,
            delay_timer: 0,
            sound_timer: 0,
            keys: Seq::new(16, |i: int| false),
            display: Seq::new(64, |i: int| 0u128),
            high_resolution: false,
            needs_redraw: false,
            halted: false,
        }
    }

    /// The program image fits between `origin` and the end of memory.
    pub open spec fn fits(self, origin: int, code: Seq<u8>) -> bool {
        origin + code.len() <= self.memory.len()
    }

    /// Loader: `code` copied to memory from `origin` on, and the program counter set to `origin`.
    pub open spec fn load(self, origin: int, code: Seq<u8>) -> MachineState
        recommends
            self.fits(origin, code),
    {
        MachineState {
            memory: Seq::new(
                self.memory.len(),
                |a: int|
                    if origin <= a < origin + code.len() {
                        code[a - origin]
                    } else {
                        self.memory[a]
                    },
            ),
            program_counter: origin,
            ..self
        }
    }

    /// One key pressed or released by the host.
    pub open spec fn set_key(self, index: int, pressed: bool) -> MachineState {
        MachineState { keys: self.keys.update(index, pressed), ..self }
    }

    /// The instruction word at the program counter.
    pub open spec fn fetch(self) -> u16
        recommends
            self.can_fetch(),
    {
        spec_word(self.memory[self.program_counter], self.memory[self.program_counter + 1])
    }

    /// An instruction that is done and lets the machine go on.
    pub open spec fn done(self) -> Step {
        Step { state: self, result: Ok(StepOutcome::Advanced) }
    }

    /// An instruction that cannot be carried out: the state is left as it was.
    pub open spec fn fault(self, error: Chip8Error) -> Step {
        Step { state: self, result: Err(error) }
    }

    pub open spec fn with_register(self, x: int, value: u8) -> MachineState {
        MachineState { registers: self.registers.update(x, value), ..self }
    }

    /// The flags register written first, then register `x`: where `x` is the flags register
    /// itself, the value wins over the flag.
    pub open spec fn with_flag_and_register(self, flag: u8, x: int, value: u8) -> MachineState {
        MachineState {
            registers: self.registers.update(FLAGS as int, flag).update(x, value),
            ..self
        }
    }

    pub open spec fn with_program_counter(self, target: int) -> MachineState {
        MachineState { program_counter: target, ..self }
    }

    pub open spec fn with_index(self, value: u16) -> MachineState {
        MachineState { index_register: value, ..self }
    }

    /// The program counter moved past one more instruction if `condition` holds.
    pub open spec fn skip_if(self, condition: bool) -> MachineState {
        if condition {
            self.with_program_counter(self.program_counter + 2)
        } else {
            self
        }
    }

    /// `0x00E0`: every row of the display zero.
    pub open spec fn clear_screen(self) -> MachineState {
        MachineState { display: Seq::new(64, |r: int| 0u128), ..self }
    }

    /// `0x00EE`: the program counter taken from the top of the stack, and the stack popped.
    pub open spec fn ret(self) -> Step {
        if self.stack_pointer == 0 {
            self.fault(Chip8Error::StackUnderflow)
        } else {
            MachineState {
                program_counter: self.stack[self.stack_pointer] as int,
                stack_pointer: self.stack_pointer - 1,
                ..self
            }.done()
        }
    }

    /// Any other word of family 0: the halt sentinel.
    pub open spec fn halt(self) -> MachineState {
        MachineState { halted: true, ..self }
    }

    /// Family 0: clear screen, return, or halt.
    pub open spec fn zero_family(self, word: u16) -> Step {
        if word == 0x00E0 {
            self.clear_screen().done()
        } else if word == 0x00EE {
            self.ret()
        } else {
            Step { state: self.halt(), result: Ok(StepOutcome::Halted) }
        }
    }

    /// `0x2nnn`: the address of the call instruction pushed, and the program counter set to
    /// `target`.
    pub open spec fn call(self, target: int) -> Step {
        if self.stack_pointer >= STACK_TOP {
            self.fault(Chip8Error::StackOverflow)
        } else {
            MachineState {
                stack_pointer: self.stack_pointer + 1,
                stack: self.stack.update(self.stack_pointer + 1, self.program_counter as u16),
                program_counter: target,
                ..self
            }.done()
        }
    }

    /// Family 8: register-to-register arithmetic and logic, selected by the low nibble.
    pub open spec fn arithmetic(self, word: u16) -> Step {
        let x = spec_x(word) as int;
        let vx = self.registers[x];
        let vy = self.registers[spec_y(word) as int];
        let mode = spec_n(word);
        if mode == 0x0 {
            self.with_register(x, vy).done()
        } else if mode == 0x1 {
            self.with_register(x, vx | vy).done()
        } else if mode == 0x2 {
            self.with_register(x, vx & vy).done()
        } else if mode == 0x3 {
            self.with_register(x, vx ^ vy).done()
        } else if mode == 0x4 {
            self.with_flag_and_register(
                if vx + vy > 255 {
                    1
                } else {
                    0
                },
                x,
                wrap8(vx + vy),
            ).done()
        } else if mode == 0x5 {
            self.with_flag_and_register(
                if vx > vy {
                    1
                } else {
                    0
                },
                x,
                wrap8(vx - vy),
            ).done()
        } else if mode == 0x6 {
            self.with_flag_and_register((vx % 2) as u8, x, (vx / 2) as u8).done()
        } else if mode == 0x7 {
            self.with_flag_and_register(
                if vx < vy {
                    1
                } else {
                    0
                },
                x,
                wrap8(vx - vy),
            ).done()
        } else if mode == 0xE {
            self.with_flag_and_register((vx / 128) as u8, x, wrap8(vx * 2)).done()
        } else {
            self.fault(Chip8Error::UnknownOpcode(word))
        }
    }

    /// Number of sprite rows that a draw of `n` rows finds in memory from the index register on.
    pub open spec fn sprite_rows(self, n: int) -> int {
        if self.index_register as int >= self.memory.len() {
            0
        } else if self.index_register + n > self.memory.len() {
            self.memory.len() - self.index_register
        } else {
            n
        }
    }

    /// The mask of sprite row `i`, placed at column `x`.
    pub open spec fn sprite_row_mask(self, x: u8, i: int) -> u128 {
        sprite_mask(
            self.memory[self.index_register + i],
            x,
            spec_screen_width(self.high_resolution) as int,
        )
    }

    /// The buffer row that sprite row `i` is drawn on, for a sprite whose first row is at `y`:
    /// rows wrap around the bottom of the screen.
    pub open spec fn target_row(self, y: u8, i: int) -> int {
        (y + i) % (spec_screen_height(self.high_resolution) as int)
    }

    /// Sprite row `i` lights a pixel that is lit already.
    pub open spec fn row_collides(self, x: u8, y: u8, i: int) -> bool {
        self.display[self.target_row(y, i)] & self.sprite_row_mask(x, i) != 0
    }

    /// One of the first `rows` sprite rows lights a pixel that is lit already.
    pub open spec fn collides(self, x: u8, y: u8, rows: int) -> bool {
        exists|i: int| 0 <= i < rows && #[trigger] self.row_collides(x, y, i)
    }

    /// Buffer row `r` after the first `rows` sprite rows were drawn: the sprite row that lands on
    /// it, if there is one, is combined with it by exclusive or.
    pub open spec fn drawn_row(self, x: u8, y: u8, rows: int, r: int) -> u128 {
        let height = spec_screen_height(self.high_resolution) as int;
        let i = (r - y) % height;
        if 0 <= r < height && i < rows {
            self.display[r] ^ self.sprite_row_mask(x, i)
        } else {
            self.display[r]
        }
    }

    /// The first `rows` rows of the sprite at the index register drawn at (`x`, `y`). The flags
    /// register is set to 1 on a collision and left alone otherwise.
    pub open spec fn draw_rows(self, x: u8, y: u8, rows: int) -> MachineState {
        MachineState {
            display: Seq::new(64, |r: int| self.drawn_row(x, y, rows, r)),
            registers: if self.collides(x, y, rows) {
                self.registers.update(FLAGS as int, 1)
            } else {
                self.registers
            },
            needs_redraw: true,
            ..self
        }
    }

    /// Drawing sprite row `i` after the first `i` rows: the row lands on a buffer row that no
    /// earlier sprite row has touched, and no other buffer row changes.
    pub proof fn lemma_draw_next_row(self, x: u8, y: u8, i: int)
        requires
            self.well_formed(),
            0 <= i < 15,
        ensures
            0 <= self.target_row(y, i) < spec_screen_height(self.high_resolution),
            self.drawn_row(x, y, i, self.target_row(y, i)) == self.display[self.target_row(y, i)],
            self.drawn_row(x, y, i + 1, self.target_row(y, i)) == self.display[self.target_row(
                y,
                i,
            )] ^ self.sprite_row_mask(x, i),
            forall|r: int|
                r != self.target_row(y, i) ==> self.drawn_row(x, y, i + 1, r) == self.drawn_row(
                    x,
                    y,
                    i,
                    r,
                ),
            self.collides(x, y, i + 1) <==> self.collides(x, y, i) || self.row_collides(x, y, i),
    {
        let height = spec_screen_height(self.high_resolution) as int;
        let t = self.target_row(y, i);
        lemma_row_offsets(height, y as int, i, t);
        assert forall|r: int| r != t implies self.drawn_row(x, y, i + 1, r) == self.drawn_row(
            x,
            y,
            i,
            r,
        ) by {
            if 0 <= r < height {
                lemma_row_offsets(height, y as int, i, r);
            }
        }
        if self.collides(x, y, i + 1) {
            let j = choose|j: int| 0 <= j < i + 1 && #[trigger] self.row_collides(x, y, j);
            if j < i {
                assert(self.collides(x, y, i));
            }
        }
        if self.collides(x, y, i) {
            let j = choose|j: int| 0 <= j < i && #[trigger] self.row_collides(x, y, j);
            assert(0 <= j < i + 1 && self.row_collides(x, y, j));
        }
        if self.row_collides(x, y, i) {
            assert(0 <= i < i + 1 && self.row_collides(x, y, i));
        }
    }

    /// `0xDxyn`: a sprite of `n` rows drawn at (`x`, `y`), as far as memory holds it.
    pub open spec fn draw(self, x: u8, y: u8, n: int) -> MachineState
        recommends
            0 <= n <= 15,
    {
        self.draw_rows(x, y, self.sprite_rows(n))
    }

    /// Family E: skips that depend on the key named by register `x`.
    pub open spec fn key_family(self, word: u16) -> Step {
        let key = self.registers[spec_x(word) as int];
        let mode = spec_kk(word);
        if mode != 0x9E && mode != 0xA1 {
            self.fault(Chip8Error::UnknownOpcode(word))
        } else if key >= 16 {
            self.fault(Chip8Error::KeyOutOfRange)
        } else if mode == 0x9E {
            self.skip_if(self.keys[key as int]).done()
        } else {
            self.skip_if(!self.keys[key as int]).done()
        }
    }

    /// Key `k` is held down and no key with a smaller index is.
    pub open spec fn is_lowest_pressed(self, k: int) -> bool {
        &&& 0 <= k < 16
        &&& self.keys[k]
        &&& forall|j: int| 0 <= j < k ==> !#[trigger] self.keys[j]
    }

    pub open spec fn any_key_pressed(self) -> bool {
        exists|k: int| 0 <= k < 16 && #[trigger] self.keys[k]
    }

    /// The smallest index of a key that is held down.
    pub open spec fn lowest_pressed(self) -> int
        recommends
            self.any_key_pressed(),
    {
        choose|k: int| self.is_lowest_pressed(k)
    }

    /// `0xFx0A`: register `x` receives the lowest key that is held down; while none is, the machine
    /// stays on the instruction.
    pub open spec fn wait_for_key(self, x: int) -> Step {
        if self.any_key_pressed() {
            self.with_register(x, self.lowest_pressed() as u8).done()
        } else {
            Step { state: self, result: Ok(StepOutcome::WaitingForKey) }
        }
    }

    /// `0xFx33`: the hundreds, tens and ones of register `x` written to memory at the index
    /// register.
    pub open spec fn store_decimal(self, x: int) -> Step {
        let value = self.registers[x];
        let base = self.index_register as int;
        if base + 2 >= self.memory.len() {
            self.fault(Chip8Error::MemoryOutOfRange)
        } else {
            MachineState {
                memory: self.memory.update(base, (value / 100) as u8).update(
                    base + 1,
                    ((value / 10) % 10) as u8,
                ).update(base + 2, (value % 10) as u8),
                ..self
            }.done()
        }
    }

    /// `0xFx55`: registers `0..x` written to memory from the index register on. Register `x`
    /// itself is not written.
    pub open spec fn store_registers(self, x: int) -> Step {
        let base = self.index_register as int;
        if x > 0 && base + x > self.memory.len() {
            self.fault(Chip8Error::MemoryOutOfRange)
        } else {
            MachineState {
                memory: Seq::new(
                    self.memory.len(),
                    |a: int|
                        if base <= a < base + x {
                            self.registers[a - base]
                        } else {
                            self.memory[a]
                        },
                ),
                ..self
            }.done()
        }
    }

    /// `0xFx65`: registers `0..x` read from memory from the index register on. Register `x`
    /// itself is not read.
    pub open spec fn load_registers(self, x: int) -> Step {
        let base = self.index_register as int;
        if x > 0 && base + x > self.memory.len() {
            self.fault(Chip8Error::MemoryOutOfRange)
        } else {
            MachineState {
                registers: Seq::new(
                    16,
                    |r: int|
                        if r < x {
                            self.memory[base + r]
                        } else {
                            self.registers[r]
                        },
                ),
                ..self
            }.done()
        }
    }

    /// Family F: timers, index register and memory transfers, selected by the low byte.
    pub open spec fn f_family(self, word: u16) -> Step {
        let x = spec_x(word) as int;
        let vx = self.registers[x];
        let mode = spec_kk(word);
        if mode == 0x07 {
            self.with_register(x, self.delay_timer).done()
        } else if mode == 0x0A {
            self.wait_for_key(x)
        } else if mode == 0x15 {
            MachineState { delay_timer: vx, ..self }.done()
        } else if mode == 0x18 {
            MachineState { sound_timer: vx, ..self }.done()
        } else if mode == 0x1E {
            self.with_index(wrap16(self.index_register + vx)).done()
        } else if mode == 0x29 {
            self.with_index((vx * GLYPH_BYTES) as u16).done()
        } else if mode == 0x33 {
            self.store_decimal(x)
        } else if mode == 0x55 {
            self.store_registers(x)
        } else if mode == 0x65 {
            self.load_registers(x)
        } else {
            self.fault(Chip8Error::UnknownOpcode(word))
        }
    }

    /// The instruction `word` executed, before the program counter moves on by the width of the
    /// instruction. `random` is the byte that a random instruction uses. The register skips of
    /// families 5 and 9 do not look at the low nibble.
    pub open spec fn execute(self, word: u16, random: u8) -> Step {
        let family = spec_family(word);
        let x = spec_x(word) as int;
        let y = spec_y(word) as int;
        let kk = spec_kk(word);
        let nnn = spec_nnn(word);
        let vx = self.registers[x];
        let vy = self.registers[y];
        if family == 0x0 {
            self.zero_family(word)
        } else if family == 0x1 {
            self.with_program_counter(nnn as int).done()
        } else if family == 0x2 {
            self.call(nnn as int)
        } else if family == 0x3 {
            self.skip_if(vx == kk).done()
        } else if family == 0x4 {
            self.skip_if(vx != kk).done()
        } else if family == 0x5 {
            self.skip_if(vx == vy).done()
        } else if family == 0x6 {
            self.with_register(x, kk).done()
        } else if family == 0x7 {
            self.with_register(x, wrap8(vx + kk)).done()
        } else if family == 0x8 {
            self.arithmetic(word)
        } else if family == 0x9 {
            self.skip_if(vx != vy).done()
        } else if family == 0xA {
            self.with_index(nnn).done()
        } else if family == 0xB {
            self.with_program_counter(nnn + self.registers[0]).done()
        } else if family == 0xC {
            self.with_register(x, random & kk).done()
        } else if family == 0xD {
            self.draw(vx, vy, spec_n(word) as int).done()
        } else if family == 0xE {
            self.key_family(word)
        } else {
            self.f_family(word)
        }
    }

    /// Timer governor: both timers count down by one and stop at zero.
    pub open spec fn tick_timers(self) -> MachineState {
        MachineState {
            delay_timer: if self.delay_timer > 0 {
                (self.delay_timer - 1) as u8
            } else {
                0
            },
            sound_timer: if self.sound_timer > 0 {
                (self.sound_timer - 1) as u8
            } else {
                0
            },
            ..self
        }
    }

    pub open spec fn tick_timers_if(self, due: bool) -> MachineState {
        if due {
            self.tick_timers()
        } else {
            self
        }
    }

    /// What the engine does once the instruction at the program counter gave `executed`:
    /// - an instruction that went through, the halt sentinel and an unknown instruction let the
    ///   timers run and move the program counter on by 2, whatever the instruction did to it;
    /// - a wait for a key lets the timers run and leaves the program counter on the instruction;
    /// - any other error halts the machine and changes nothing else.
    pub open spec fn finish(self, executed: Step, timer_due: bool) -> Step {
        match executed.result {
            Ok(StepOutcome::WaitingForKey) => Step {
                state: executed.state.tick_timers_if(timer_due),
                result: executed.result,
            },
            Ok(_) | Err(Chip8Error::UnknownOpcode(_)) => {
                let ran = executed.state.tick_timers_if(timer_due);
                Step {
                    state: ran.with_program_counter(ran.program_counter + 2),
                    result: executed.result,
                }
            },
            Err(_) => Step { state: self.halt(), result: executed.result },
        }
    }

    /// The instruction `word` leaves the sizes of the parts alone and keeps the stack pointer
    /// within the stack; the program counter it leaves fits in 16 bits.
    pub proof fn lemma_execute_well_formed(self, word: u16, random: u8)
        requires
            self.well_formed(),
            self.can_fetch(),
        ensures
            self.execute(word, random).state.well_formed(),
            self.execute(word, random).state.program_counter <= 0xFFFF,
            self.execute(word, random).result is Err ==> self.execute(word, random).state == self,
    {
    }

    /// A step leaves a well-formed machine well-formed.
    pub proof fn lemma_step_well_formed(self, random: u8, timer_due: bool)
        requires
            self.well_formed(),
        ensures
            self.step(random, timer_due).state.well_formed(),
    {
        if !self.halted && self.can_fetch() {
            self.lemma_execute_well_formed(self.fetch(), random);
        }
    }

    /// `next` is what one step gives for some random byte and some state of the clock.
    #[verifier::opaque]
    pub open spec fn may_step_to(self, next: Step) -> bool {
        exists|random: u8, timer_due: bool| #[trigger] self.step(random, timer_due) == next
    }

    /// One fetch-decode-execute cycle. `random` is the byte that a random instruction uses;
    /// `timer_due` says whether a tick of the 60 Hz clock has passed since the timers last ran.
    pub open spec fn step(self, random: u8, timer_due: bool) -> Step {
        if self.halted {
            Step { state: self, result: Ok(StepOutcome::Halted) }
        } else if !self.can_fetch() {
            Step { state: self.halt(), result: Err(Chip8Error::ProgramCounterOutOfRange) }
        } else {
            self.finish(self.execute(self.fetch(), random), timer_due)
        }
    }
}

/// On a screen `height` rows high, a sprite whose first row is at `y` puts its row `i` on buffer
/// row `(y + i) % height`, and on no other.
pub proof fn lemma_row_offsets(height: int, y: int, i: int, r: int)
    requires
        height == 32 || height == 64,
        0 <= y,
        0 <= i < height,
        0 <= r < height,
    ensures
        0 <= (y + i) % height < height,
        (r - y) % height == i <==> r == (y + i) % height,
{
    if height == 32 {
        assert((r - y) % 32 == i <==> r == (y + i) % 32);
    } else {
        assert((r - y) % 64 == i <==> r == (y + i) % 64);
    }
}

/// One pair of outside inputs for each step of a run: the random byte and whether the timers are
/// due.
pub type StepInputs = Seq<(u8, bool)>;

/// Where a run of several steps has led, and the error that ended it, if one did.
pub struct Run {
    pub state: MachineState,
    pub error: Option<Chip8Error>,
}

/// Steps taken one after the other, one for each pair of `inputs`, up to the first error.
pub open spec fn run_steps(start: MachineState, inputs: StepInputs) -> Run
    decreases inputs.len(),
{
    if inputs.len() == 0 {
        Run { state: start, error: None }
    } else {
        let before = run_steps(start, inputs.drop_last());
        if before.error is Some {
            before
        } else {
            let last = before.state.step(inputs.last().0, inputs.last().1);
            Run {
                state: last.state,
                error: match last.result {
                    Ok(_) => None,
                    Err(e) => Some(e),
                },
            }
        }
    }
}

/// A run that has gone without error so far, taken one step further.
pub proof fn lemma_run_one_more(
    start: MachineState,
    inputs: StepInputs,
    random: u8,
    timer_due: bool,
)
    requires
        run_steps(start, inputs).error is None,
    ensures
        run_steps(start, inputs.push((random, timer_due))).state == run_steps(
            start,
            inputs,
        ).state.step(random, timer_due).state,
        run_steps(start, inputs.push((random, timer_due))).error == match run_steps(
            start,
            inputs,
        ).state.step(random, timer_due).result {
            Ok(_) => None::<Chip8Error>,
            Err(e) => Some(e),
        },
{
    let longer = inputs.push((random, timer_due));
    assert(longer.drop_last() =~= inputs);
    assert(longer.last() == (random, timer_due));
}

/// A run that has gone without error so far, taken one step further with outside inputs that are
/// not known: some run that is one step longer leads to what the step gave.
pub proof fn lemma_run_may_step(start: MachineState, inputs: StepInputs, next: Step) -> (longer:
    StepInputs)
    requires
        run_steps(start, inputs).error is None,
        run_steps(start, inputs).state.may_step_to(next),
    ensures
        longer.len() == inputs.len() + 1,
        run_steps(start, longer) == (Run {
            state: next.state,
            error: match next.result {
                Ok(_) => None,
                Err(e) => Some(e),
            },
        }),
{
    reveal(MachineState::may_step_to);
    let before = run_steps(start, inputs).state;
    let (random, timer_due) = choose|random: u8, timer_due: bool| #[trigger]
        before.step(random, timer_due) == next;
    lemma_run_one_more(start, inputs, random, timer_due);
    inputs.push((random, timer_due))
}

} // verus!
