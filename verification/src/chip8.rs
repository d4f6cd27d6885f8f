//! The interpreter: the machine state and the instructions that change it.
use crate::decode::{family, kk, n, nnn, word, x, y};
use crate::entropy::{random_byte, thread_rng};
use crate::error::{Chip8Error, StepOutcome};
pub use crate::font::CHIP_DIGITS;
use crate::font::GLYPH_BYTES;
use crate::model::{
    initial_memory, interval_passed, lemma_run_may_step, run_steps, wrap8, MachineState, Run, Step,
    StepInputs, ETI_ORIGIN, FLAGS, MEMORY_SIZE, PROGRAM_ORIGIN, STACK_TOP, TIMER_INTERVAL_MILLIS,
};
use crate::screen::{
    position_sprite_row, render_text, screen_height, screen_width, sprite_mask, text_line,
};
use rand::rngs::ThreadRng;
use std::time::SystemTime;
use vstd::prelude::*;

verus! {

/// A CHIP-8 machine.
///
/// The host writes `keys` before a step and reads `display`, `high_res`, `need_draw` and
/// `is_halted` after it; it clears `need_draw` once it has shown the frame. `high_res` is a
/// configuration flag: no instruction changes it.
pub struct Chip8 {
    pub program_counter: usize,
    pub stack_pointer: usize,
    pub registers: [u8; 16],
    pub reg_i: u16,
    pub ram: Vec<u8>,
    pub stack: [u16; 16],
    pub keys: [bool; 16],
    pub display: [u128; 64],
    pub reg_st: u8,
    pub reg_dt: u8,
    pub is_halted: bool,
    /// Where the random instruction gets its bytes from.
    pub rng: ThreadRng,
    pub high_res: bool,
    pub need_draw: bool,
    /// When the timers last ran.
    pub timer: SystemTime,
}

impl View for Chip8 {
    type V = MachineState;

    open spec fn view(&self) -> MachineState {
        MachineState {
            memory: self.ram@,
            program_counter: self.program_counter as int,
            registers: self.registers@,
            index_register: self.reg_i,
            stack: self.stack@,
            stack_pointer: self.stack_pointer as int,
            delay_timer: self.reg_dt,
            sound_timer: self.reg_st,
            keys: self.keys@,
            display: self.display@,
            high_resolution: self.high_res,
            needs_redraw: self.need_draw,
            halted: self.is_halted,
        }
    }
}

impl Default for Chip8 {
    /// The same machine as [`Chip8::new`] makes.
    fn default() -> (emu: Chip8)
        ensures
            emu@ == MachineState::initial(),
            emu.wf(),
    {
        Chip8::new()
    }
}

impl Chip8 {
    /// Memory has its full size and the stack pointer is within the stack.
    pub open spec fn wf(&self) -> bool {
        self@.well_formed()
    }

    /// A machine with the font in memory and everything else zero.
    pub fn new() -> (emu: Chip8)
        ensures
            emu@ == MachineState::initial(),
            emu.wf(),
    {
        let emu = Chip8 {
            program_counter: 0,
            stack_pointer: 0,
            registers: [0; 16],
            reg_i: 0,
            ram: Chip8::init(),
            stack: [0; 16],
            keys: [false; 16],
            display: [0; 64],
            reg_st: 0,
            reg_dt: 0,
            is_halted: false,
            rng: thread_rng(),
            high_res: false,
            need_draw: false,
            timer: SystemTime::now(),
        };
        assert(emu@.registers =~= MachineState::initial().registers);
        assert(emu@.stack =~= MachineState::initial().stack);
        assert(emu@.keys =~= MachineState::initial().keys);
        assert(emu@.display =~= MachineState::initial().display);
        emu
    }

    /// Fresh memory: the font at `0..80`, zeros after it.
    pub fn init() -> (mem: Vec<u8>)
        ensures
            mem@ == initial_memory(),
    {
        let mut mem: Vec<u8> = Vec::with_capacity(MEMORY_SIZE);
        let mut i: usize = 0;
        while i < MEMORY_SIZE
            invariant
                i <= MEMORY_SIZE,
                mem@.len() == i,
                forall|a: int| 0 <= a < i ==> mem@[a] == initial_memory()[a],
            decreases MEMORY_SIZE - i,
        {
            if i < 80 {
                mem.push(CHIP_DIGITS[i]);
            } else {
                mem.push(0);
            }
            i += 1;
        }
        assert(mem@ =~= initial_memory());
        mem
    }

    /// Puts the machine back into the state that [`Chip8::new`] makes. The random source is kept.
    pub fn reset(&mut self)
        ensures
            final(self)@ == MachineState::initial(),
            final(self).wf(),
            final(self).rng == old(self).rng,
    {
        let fresh = Chip8::new();
        self.program_counter = fresh.program_counter;
        self.stack_pointer = fresh.stack_pointer;
        self.registers = fresh.registers;
        self.reg_i = fresh.reg_i;
        self.ram = fresh.ram;
        self.stack = fresh.stack;
        self.keys = fresh.keys;
        self.display = fresh.display;
        self.reg_st = fresh.reg_st;
        self.reg_dt = fresh.reg_dt;
        self.is_halted = fresh.is_halted;
        self.high_res = fresh.high_res;
        self.need_draw = fresh.need_draw;
        self.timer = fresh.timer;
    }

    /// Records that the host sees key `index` pressed or released. An index outside `0..16` is
    /// refused and changes nothing.
    pub fn set_key(&mut self, index: usize, pressed: bool) -> (result: Result<(), Chip8Error>)
        ensures
            match result {
                Ok(()) => index < 16 && final(self)@ == old(self)@.set_key(index as int, pressed),
                Err(e) => index >= 16 && e == Chip8Error::KeyOutOfRange && *final(self) == *old(
                    self,
                ),
            },
    {
        if index < 16 {
            self.keys[index] = pressed;
            Ok(())
        } else {
            Err(Chip8Error::KeyOutOfRange)
        }
    }

    /// Copies `code` into memory from `origin` on and sets the program counter to `origin`. An
    /// image that does not fit is refused and changes nothing.
    pub fn load(&mut self, origin: usize, code: Vec<u8>) -> (result: Result<(), Chip8Error>)
        requires
            old(self).wf(),
        ensures
            final(self).wf(),
            match result {
                Ok(()) => old(self)@.fits(origin as int, code@) && final(self)@ == old(self)@.load(
                    origin as int,
                    code@,
                ),
                Err(e) => !old(self)@.fits(origin as int, code@) && e
                    == Chip8Error::ProgramTooLarge && *final(self) == *old(self),
            },
    {
        if origin > MEMORY_SIZE || code.len() > MEMORY_SIZE - origin {
            return Err(Chip8Error::ProgramTooLarge);
        }
        let ghost before = self@;
        let mut i: usize = 0;
        while i < code.len()
            invariant
                i <= code.len(),
                origin + code.len() <= MEMORY_SIZE,
                self.ram@.len() == MEMORY_SIZE,
                forall|a: int|
                    0 <= a < MEMORY_SIZE ==> self.ram@[a] == if origin <= a < origin + i {
                        code@[a - origin]
                    } else {
                        before.memory[a]
                    },
                self@ == (MachineState { memory: self.ram@, ..before }),
            decreases code.len() - i,
        {
            self.ram[origin + i] = code[i];
            i += 1;
        }
        self.program_counter = origin;
        assert(self@.memory =~= before.load(origin as int, code@).memory);
        Ok(())
    }

    /// Loads a program at the standard origin, 0x200.
    pub fn load_code(&mut self, code: Vec<u8>) -> (result: Result<&mut Self, Chip8Error>)
        requires
            old(self).wf(),
        ensures
            match result {
                Ok(emu) => {
                    &&& old(self)@.fits(PROGRAM_ORIGIN as int, code@)
                    &&& emu@ == old(self)@.load(PROGRAM_ORIGIN as int, code@)
                    &&& emu.wf()
                    &&& *final(self) == *final(emu)
                },
                Err(e) => {
                    &&& !old(self)@.fits(PROGRAM_ORIGIN as int, code@)
                    &&& e == Chip8Error::ProgramTooLarge
                    &&& *final(self) == *old(self)
                },
            },
    {
        match self.load(PROGRAM_ORIGIN, code) {
            Ok(()) => Ok(self),
            Err(e) => Err(e),
        }
    }

    /// Loads a program at the alternate origin, 0x600.
    pub fn load_code_eti(&mut self, code: Vec<u8>) -> (result: Result<&mut Self, Chip8Error>)
        requires
            old(self).wf(),
        ensures
            match result {
                Ok(emu) => {
                    &&& old(self)@.fits(ETI_ORIGIN as int, code@)
                    &&& emu@ == old(self)@.load(ETI_ORIGIN as int, code@)
                    &&& emu.wf()
                    &&& *final(self) == *final(emu)
                },
                Err(e) => {
                    &&& !old(self)@.fits(ETI_ORIGIN as int, code@)
                    &&& e == Chip8Error::ProgramTooLarge
                    &&& *final(self) == *old(self)
                },
            },
    {
        match self.load(ETI_ORIGIN, code) {
            Ok(()) => Ok(self),
            Err(e) => Err(e),
        }
    }

    /// Runs up to `ticks` steps with the machine's own random source and clock. The run ends
    /// early when a step fails, with that step's error, or when the machine halts.
    pub fn run(&mut self, ticks: usize) -> (result: Result<(), Chip8Error>)
        requires
            old(self).wf(),
        ensures
            final(self).wf(),
            exists|inputs: StepInputs|
                {
                    &&& inputs.len() <= ticks
                    &&& #[trigger] run_steps(old(self)@, inputs) == (Run {
                        state: final(self)@,
                        error: match result {
                            Ok(()) => None,
                            Err(e) => Some(e),
                        },
                    })
                    &&& inputs.len() < ticks ==> result is Err || final(self)@.halted
                },
    {
        let ghost start = self@;
        let ghost mut inputs: StepInputs = Seq::empty();
        let mut done: usize = 0;
        while done < ticks
            invariant
                done <= ticks,
                self.wf(),
                start == old(self)@,
                inputs.len() == done,
                run_steps(start, inputs) == (Run { state: self@, error: None }),
            decreases ticks - done,
        {
            if self.is_halted {
                return Ok(());
            }
            let outcome = self.tick();
            proof {
                inputs = lemma_run_may_step(start, inputs, Step { state: self@, result: outcome });
            }
            done += 1;
            if let Err(e) = outcome {
                return Err(e);
            }
        }
        Ok(())
    }

    /// One step with the machine's own random source and clock: a random instruction draws its
    /// byte from `rng`, and once the instruction is executed the timers run if more than 16 ms
    /// have passed since they last did.
    pub fn tick(&mut self) -> (result: Result<StepOutcome, Chip8Error>)
        requires
            old(self).wf(),
        ensures
            final(self).wf(),
            old(self)@.may_step_to(Step { state: final(self)@, result }),
    {
        let ghost before = self@;
        if self.is_halted {
            assert(before.may_step_to(Step { state: self@, result: Ok(StepOutcome::Halted) })) by {
                reveal(MachineState::may_step_to);
                assert(before.step(0, false) == (Step {
                    state: self@,
                    result: Ok(StepOutcome::Halted),
                }));
            }
            return Ok(StepOutcome::Halted);
        }
        if self.program_counter >= MEMORY_SIZE - 1 {
            self.is_halted = true;
            assert(before.may_step_to(
                Step { state: self@, result: Err(Chip8Error::ProgramCounterOutOfRange) },
            )) by {
                reveal(MachineState::may_step_to);
                assert(before.step(0, false) == (Step {
                    state: self@,
                    result: Err(Chip8Error::ProgramCounterOutOfRange),
                }));
            }
            return Err(Chip8Error::ProgramCounterOutOfRange);
        }
        let random: u8 = if self.ram[self.program_counter] >> 4 == 0xC {
            random_byte(&mut self.rng)
        } else {
            0
        };
        proof {
            before.lemma_execute_well_formed(before.fetch(), random);
        }
        let executed = self.process_instructions(random);
        let elapsed_millis = self.elapsed_millis();
        let timer_due = self.timer_due(elapsed_millis);
        let result = self.finish(executed, timer_due);
        assert(before.may_step_to(Step { state: self@, result })) by {
            reveal(MachineState::may_step_to);
            assert(before.step(random, timer_due) == (Step { state: self@, result }));
        }
        result
    }

    /// One step with the outside inputs given by the caller: `random` is the byte that a random
    /// instruction uses, and the timers run if `timer_due` is set.
    pub fn step(&mut self, random: u8, timer_due: bool) -> (result: Result<StepOutcome, Chip8Error>)
        requires
            old(self).wf(),
        ensures
            final(self).wf(),
            final(self)@ == old(self)@.step(random, timer_due).state,
            result == old(self)@.step(random, timer_due).result,
    {
        if self.is_halted {
            return Ok(StepOutcome::Halted);
        }
        if self.program_counter >= MEMORY_SIZE - 1 {
            self.is_halted = true;
            return Err(Chip8Error::ProgramCounterOutOfRange);
        }
        proof {
            self@.lemma_execute_well_formed(self@.fetch(), random);
        }
        let executed = self.process_instructions(random);
        self.finish(executed, timer_due)
    }

    /// What follows the instruction: the timers, if they are due, and the move to the next
    /// instruction; or the halt, where the instruction could not be carried out.
    fn finish(&mut self, executed: Result<StepOutcome, Chip8Error>, timer_due: bool) -> (result:
        Result<StepOutcome, Chip8Error>)
        requires
            old(self).wf(),
            old(self)@.program_counter <= 0xFFFF,
        ensures
            final(self).wf(),
            result == executed,
            final(self)@ == old(self)@.finish(
                Step { state: old(self)@, result: executed },
                timer_due,
            ).state,
    {
        match executed {
            Ok(StepOutcome::WaitingForKey) => {
                if timer_due {
                    self.process_timers();
                }
            },
            Ok(_) | Err(Chip8Error::UnknownOpcode(_)) => {
                if timer_due {
                    self.process_timers();
                }
                self.program_counter += 2;
            },
            Err(_) => {
                self.is_halted = true;
            },
        }
        executed
    }

    /// Whether the timers are due, given the milliseconds that the clock says have passed since
    /// they last ran: they are after more than 16 ms, and never on a clock that has gone
    /// backwards. Where they are due, the time is taken anew; where not, it is kept.
    fn timer_due(&mut self, elapsed_millis: Option<u128>) -> (due: bool)
        ensures
            due == interval_passed(elapsed_millis),
            final(self)@ == old(self)@,
            final(self).rng == old(self).rng,
            !due ==> final(self).timer == old(self).timer,
    {
        match elapsed_millis {
            Some(millis) => {
                if millis > TIMER_INTERVAL_MILLIS {
                    self.timer = SystemTime::now();
                    true
                } else {
                    false
                }
            },
            None => false,
        }
    }

    /// Reads the clock: the whole milliseconds that have passed since the timers last ran, or
    /// nothing where the clock has gone backwards.
    fn elapsed_millis(&self) -> (elapsed_millis: Option<u128>) {
        match self.timer.elapsed() {
            Ok(elapsed) => Some(elapsed.as_millis()),
            Err(_) => None,
        }
    }

    /// Timer governor: both timers count down by one and stop at zero.
    pub fn process_timers(&mut self)
        ensures
            final(self)@ == old(self)@.tick_timers(),
    {
        if self.reg_dt > 0 {
            self.reg_dt -= 1;
        }
        if self.reg_st > 0 {
            self.reg_st -= 1;
        }
    }

    /// Fetches the instruction at the program counter and hands it to the handler of its family.
    fn process_instructions(&mut self, random: u8) -> (result: Result<StepOutcome, Chip8Error>)
        requires
            old(self).wf(),
            old(self)@.can_fetch(),
        ensures
            final(self)@ == old(self)@.execute(old(self)@.fetch(), random).state,
            result == old(self)@.execute(old(self)@.fetch(), random).result,
    {
        let b1 = self.ram[self.program_counter];
        let b2 = self.ram[self.program_counter + 1];
        let instruction = word(b1, b2);
        match family(instruction) {
            0x0 => self.instruction_zero(instruction),
            0x1 => {
                self.instruction_jump(instruction);
                Ok(StepOutcome::Advanced)
            },
            0x2 => self.instruction_call(instruction),
            0x3 => {
                self.instruction_skip(instruction);
                Ok(StepOutcome::Advanced)
            },
            0x4 => {
                self.instruction_skip_ne(instruction);
                Ok(StepOutcome::Advanced)
            },
            0x5 => {
                self.instruction_skip2(instruction);
                Ok(StepOutcome::Advanced)
            },
            0x6 => {
                self.instruction_set(instruction);
                Ok(StepOutcome::Advanced)
            },
            0x7 => {
                self.instruction_add(instruction);
                Ok(StepOutcome::Advanced)
            },
            0x8 => self.instruction_set_math(instruction),
            0x9 => {
                self.instruction_skip_ne2(instruction);
                Ok(StepOutcome::Advanced)
            },
            0xA => {
                self.instruction_set_reg_i(instruction);
                Ok(StepOutcome::Advanced)
            },
            0xB => {
                self.instruction_jump_offset(instruction);
                Ok(StepOutcome::Advanced)
            },
            0xC => {
                self.instruction_rand(instruction, random);
                Ok(StepOutcome::Advanced)
            },
            0xD => {
                self.instruction_draw(instruction);
                Ok(StepOutcome::Advanced)
            },
            0xE => self.instruction_key(instruction),
            _ => self.instruction_f(instruction),
        }
    }

    /// Family 8: register-to-register arithmetic and logic.
    fn instruction_set_math(&mut self, instruction: u16) -> (result: Result<
        StepOutcome,
        Chip8Error,
    >)
        ensures
            final(self)@ == old(self)@.arithmetic(instruction).state,
            result == old(self)@.arithmetic(instruction).result,
    {
        let reg = x(instruction);
        let reg2 = y(instruction);
        let m = n(instruction);
        let vx = self.registers[reg];
        let vy = self.registers[reg2];
        let ghost before = self@;
        match m {
            0x0 => {
                self.registers[reg] = vy;
            },
            0x1 => {
                self.registers[reg] = vx | vy;
            },
            0x2 => {
                self.registers[reg] = vx & vy;
            },
            0x3 => {
                self.registers[reg] = vx ^ vy;
            },
            0x4 => {
                let sum: u16 = vx as u16 + vy as u16;
                self.registers[FLAGS] = if sum > 255 {
                    1
                } else {
                    0
                };
                self.registers[reg] = vx.wrapping_add(vy);
            },
            0x5 => {
                self.registers[FLAGS] = if vx > vy {
                    1
                } else {
                    0
                };
                self.registers[reg] = vx.wrapping_sub(vy);
            },
            0x6 => {
                assert(vx & 0x1 == vx % 2 && vx >> 1 == vx / 2) by (bit_vector);
                self.registers[FLAGS] = vx & 0x1;
                self.registers[reg] = vx >> 1;
            },
            0x7 => {
                self.registers[FLAGS] = if vx < vy {
                    1
                } else {
                    0
                };
                self.registers[reg] = vx.wrapping_sub(vy);
            },
            0xE => {
                assert((vx & 0x80) >> 7 == vx / 128 && vx << 1 == (vx * 2) % 256) by (bit_vector);
                self.registers[FLAGS] = (vx & 0x80) >> 7;
                self.registers[reg] = vx << 1;
            },
            _ => {
                return Err(Chip8Error::UnknownOpcode(instruction));
            },
        }
        assert(self@ == before.arithmetic(instruction).state);
        Ok(StepOutcome::Advanced)
    }

    /// The lowest key that is held down, if any is.
    fn lowest_pressed_key(&self) -> (found: Option<u8>)
        ensures
            match found {
                Some(k) => self@.any_key_pressed() && self@.lowest_pressed() == k,
                None => !self@.any_key_pressed(),
            },
    {
        let mut k: u8 = 0;
        while k < 16
            invariant
                k <= 16,
                forall|j: int| 0 <= j < k ==> !#[trigger] self@.keys[j],
            decreases 16 - k,
        {
            if self.keys[k as usize] {
                proof {
                    assert(self@.keys[k as int]);
                    assert(self@.is_lowest_pressed(k as int));
                    let chosen = self@.lowest_pressed();
                    assert(self@.is_lowest_pressed(chosen));
                    if chosen < k {
                        assert(!self@.keys[chosen]);
                    }
                    if k < chosen {
                        assert(!self@.keys[k as int]);
                    }
                }
                return Some(k);
            }
            k += 1;
        }
        None
    }

    /// Family F: timers, index register and memory transfers.
    fn instruction_f(&mut self, instruction: u16) -> (result: Result<StepOutcome, Chip8Error>)
        requires
            old(self).wf(),
        ensures
            final(self)@ == old(self)@.f_family(instruction).state,
            result == old(self)@.f_family(instruction).result,
    {
        let reg = x(instruction);
        let mode = kk(instruction);
        let vx = self.registers[reg];
        let base = self.reg_i as usize;
        let ghost before = self@;
        match mode {
            0x07 => {
                self.registers[reg] = self.reg_dt;
            },
            0x0A => {
                match self.lowest_pressed_key() {
                    Some(key) => {
                        self.registers[reg] = key;
                    },
                    None => {
                        return Ok(StepOutcome::WaitingForKey);
                    },
                }
            },
            0x15 => {
                self.reg_dt = vx;
            },
            0x18 => {
                self.reg_st = vx;
            },
            0x1E => {
                self.reg_i = self.reg_i.wrapping_add(vx as u16);
            },
            0x29 => {
                self.reg_i = vx as u16 * GLYPH_BYTES;
            },
            0x33 => {
                if base + 2 >= MEMORY_SIZE {
                    return Err(Chip8Error::MemoryOutOfRange);
                }
                self.ram[base] = vx / 100;
                self.ram[base + 1] = (vx / 10) % 10;
                self.ram[base + 2] = vx % 10;
            },
            0x55 => {
                if reg > 0 && base + reg > MEMORY_SIZE {
                    return Err(Chip8Error::MemoryOutOfRange);
                }
                let mut r: usize = 0;
                while r < reg
                    invariant
                        r <= reg < 16,
                        reg == 0 || base + reg <= MEMORY_SIZE,
                        base == before.index_register,
                        before.well_formed(),
                        self.ram@.len() == MEMORY_SIZE,
                        forall|a: int|
                            0 <= a < MEMORY_SIZE ==> self.ram@[a] == if base <= a < base + r {
                                before.registers[a - base]
                            } else {
                                before.memory[a]
                            },
                        self@ == (MachineState { memory: self.ram@, ..before }),
                    decreases reg - r,
                {
                    self.ram[base + r] = self.registers[r];
                    r += 1;
                }
                assert(self@.memory =~= before.store_registers(reg as int).state.memory);
            },
            0x65 => {
                if reg > 0 && base + reg > MEMORY_SIZE {
                    return Err(Chip8Error::MemoryOutOfRange);
                }
                let mut r: usize = 0;
                while r < reg
                    invariant
                        r <= reg < 16,
                        reg == 0 || base + reg <= MEMORY_SIZE,
                        base == before.index_register,
                        before.well_formed(),
                        forall|k: int|
                            0 <= k < 16 ==> self.registers@[k] == if k < r {
                                before.memory[base + k]
                            } else {
                                before.registers[k]
                            },
                        self@ == (MachineState { registers: self.registers@, ..before }),
                    decreases reg - r,
                {
                    self.registers[r] = self.ram[base + r];
                    r += 1;
                }
                assert(self@.registers =~= before.load_registers(reg as int).state.registers);
            },
            _ => {
                return Err(Chip8Error::UnknownOpcode(instruction));
            },
        }
        Ok(StepOutcome::Advanced)
    }

    /// Family E: skips that depend on a key.
    fn instruction_key(&mut self, instruction: u16) -> (result: Result<StepOutcome, Chip8Error>)
        requires
            old(self)@.can_fetch(),
            old(self).wf(),
        ensures
            final(self)@ == old(self)@.key_family(instruction).state,
            result == old(self)@.key_family(instruction).result,
    {
        let reg = x(instruction);
        let mode = kk(instruction);
        let k = self.registers[reg];
        if mode != 0x9E && mode != 0xA1 {
            return Err(Chip8Error::UnknownOpcode(instruction));
        }
        if k >= 16 {
            return Err(Chip8Error::KeyOutOfRange);
        }
        match mode {
            0x9E => {
                if self.keys[k as usize] {
                    self.program_counter += 2;
                }
            },
            _ => {
                if !self.keys[k as usize] {
                    self.program_counter += 2;
                }
            },
        }
        Ok(StepOutcome::Advanced)
    }

    /// `0xDxyn`: draws the sprite at the index register at the position held in two registers.
    fn instruction_draw(&mut self, instruction: u16)
        requires
            old(self).wf(),
        ensures
            final(self)@ == old(self)@.draw(
                old(self)@.registers[x(instruction) as int],
                old(self)@.registers[y(instruction) as int],
                n(instruction) as int,
            ),
    {
        let regx = x(instruction);
        let regy = y(instruction);
        let x = self.registers[regx];
        let y = self.registers[regy];
        let n = n(instruction);
        self.draw_sprite(x, y, n);
    }

    /// Draws up to `size` rows of the sprite at the index register with its top left corner at
    /// (`x`, `y`): each row is combined with the display by exclusive or, wrapping around the
    /// right and bottom edges. The flags register becomes 1 if a lit pixel is hit and is left
    /// alone otherwise.
    pub fn draw_sprite(&mut self, x: u8, y: u8, size: u16)
        requires
            old(self).wf(),
            size <= 15,
        ensures
            final(self)@ == old(self)@.draw(x, y, size as int),
    {
        let ghost start = self@;
        let height = screen_height(self.high_res);
        let base = self.reg_i as usize;
        let rows: usize = if base >= MEMORY_SIZE {
            0
        } else if size as usize > MEMORY_SIZE - base {
            MEMORY_SIZE - base
        } else {
            size as usize
        };
        self.need_draw = true;
        assert(self@.display =~= start.draw_rows(x, y, 0).display);
        let mut i: usize = 0;
        while i < rows
            invariant
                i <= rows <= 15,
                base == start.index_register,
                rows == 0 || base + rows <= MEMORY_SIZE,
                height == screen_height(start.high_resolution),
                start.well_formed(),
                self@ == start.draw_rows(x, y, i as int),
            decreases rows - i,
        {
            let data = self.translate_sprite_row(self.ram[base + i], x);
            let r = (y as usize + i) % height;
            let orig = self.display[r];
            self.display[r] = orig ^ data;
            if orig & data != 0 {
                self.registers[FLAGS] = 1;
            }
            proof {
                start.lemma_draw_next_row(x, y, i as int);
                assert(r == start.target_row(y, i as int));
                assert(orig == start.display[r as int]);
                assert(data == start.sprite_row_mask(x, i as int));
                assert(self@.display =~= start.draw_rows(x, y, i + 1).display);
                assert(self@.registers =~= start.draw_rows(x, y, i + 1).registers);
            }
            i += 1;
        }
    }

    /// The frame as text, one line for each pixel row: `#` for a lit pixel, a blank for a dark
    /// one. There are 32 lines of 64 characters in low resolution and 64 lines of 128 in high
    /// resolution.
    pub fn display_lines(&self) -> (lines: Vec<String>)
        ensures
            lines@.len() == screen_height(self@.high_resolution),
            forall|r: int|
                0 <= r < lines@.len() ==> (#[trigger] lines@[r])@ == text_line(
                    self@.display[r],
                    screen_width(self@.high_resolution) as int,
                ),
    {
        render_text(&self.display, self.high_res)
    }

    /// Places an 8-pixel sprite row at column `x` of a display row in the current resolution.
    pub fn translate_sprite_row(&self, row: u8, x: u8) -> (mask: u128)
        ensures
            mask == sprite_mask(row, x, screen_width(self.high_res) as int),
    {
        position_sprite_row(row, x, self.high_res)
    }

    /// `0xCxkk`: register `x` receives `random` masked with `kk`.
    fn instruction_rand(&mut self, instruction: u16, random: u8)
        ensures
            final(self)@ == old(self)@.with_register(
                x(instruction) as int,
                random & kk(instruction),
            ),
    {
        let reg = x(instruction);
        let kk = kk(instruction);
        self.registers[reg] = random & kk;
    }

    /// `0xBnnn`: jumps to `nnn` plus register 0.
    fn instruction_jump_offset(&mut self, instruction: u16)
        ensures
            final(self)@ == old(self)@.with_program_counter(
                nnn(instruction) + old(self)@.registers[0],
            ),
    {
        let addr = nnn(instruction);
        self.program_counter = (addr + self.registers[0] as u16) as usize;
    }

    /// `0xAnnn`: the index register receives `nnn`.
    fn instruction_set_reg_i(&mut self, instruction: u16)
        ensures
            final(self)@ == old(self)@.with_index(nnn(instruction)),
    {
        self.reg_i = nnn(instruction);
    }

    /// `0x9xy0`: skips the next instruction if registers `x` and `y` differ.
    fn instruction_skip_ne2(&mut self, instruction: u16)
        requires
            old(self)@.can_fetch(),
            old(self).wf(),
        ensures
            final(self)@ == old(self)@.skip_if(
                old(self)@.registers[x(instruction) as int] != old(self)@.registers[y(
                    instruction,
                ) as int],
            ),
    {
        let reg = x(instruction);
        let reg2 = y(instruction);
        if self.registers[reg] != self.registers[reg2] {
            self.program_counter += 2;
        }
    }

    /// `0x7xkk`: adds `kk` to register `x`, modulo 256; the flags register is not touched.
    fn instruction_add(&mut self, instruction: u16)
        ensures
            final(self)@ == old(self)@.with_register(
                x(instruction) as int,
                wrap8(old(self)@.registers[x(instruction) as int] + kk(instruction)),
            ),
    {
        let reg = x(instruction);
        let v = kk(instruction);
        let rv = self.registers[reg];
        self.registers[reg] = rv.wrapping_add(v);
    }

    /// `0x6xkk`: register `x` receives `kk`.
    fn instruction_set(&mut self, instruction: u16)
        ensures
            final(self)@ == old(self)@.with_register(x(instruction) as int, kk(instruction)),
    {
        let reg = x(instruction);
        let v = kk(instruction);
        self.registers[reg] = v;
    }

    /// `0x4xkk`: skips the next instruction if register `x` differs from `kk`.
    fn instruction_skip_ne(&mut self, instruction: u16)
        requires
            old(self)@.can_fetch(),
            old(self).wf(),
        ensures
            final(self)@ == old(self)@.skip_if(
                old(self)@.registers[x(instruction) as int] != kk(instruction),
            ),
    {
        let reg = x(instruction);
        let v = kk(instruction);
        if self.registers[reg] != v {
            self.program_counter += 2;
        }
    }

    /// `0x3xkk`: skips the next instruction if register `x` equals `kk`.
    fn instruction_skip(&mut self, instruction: u16)
        requires
            old(self)@.can_fetch(),
            old(self).wf(),
        ensures
            final(self)@ == old(self)@.skip_if(
                old(self)@.registers[x(instruction) as int] == kk(instruction),
            ),
    {
        let reg = x(instruction);
        let v = kk(instruction);
        if self.registers[reg] == v {
            self.program_counter += 2;
        }
    }

    /// `0x5xy0`: skips the next instruction if registers `x` and `y` are equal.
    fn instruction_skip2(&mut self, instruction: u16)
        requires
            old(self)@.can_fetch(),
            old(self).wf(),
        ensures
            final(self)@ == old(self)@.skip_if(
                old(self)@.registers[x(instruction) as int] == old(self)@.registers[y(
                    instruction,
                ) as int],
            ),
    {
        let reg = x(instruction);
        let reg2 = y(instruction);
        if self.registers[reg] == self.registers[reg2] {
            self.program_counter += 2;
        }
    }

    /// `0x2nnn`: pushes the address of this instruction and jumps to `nnn`. With the stack full
    /// the call is refused.
    fn instruction_call(&mut self, instruction: u16) -> (result: Result<StepOutcome, Chip8Error>)
        requires
            old(self)@.can_fetch(),
            old(self).wf(),
        ensures
            final(self)@ == old(self)@.call(nnn(instruction) as int).state,
            result == old(self)@.call(nnn(instruction) as int).result,
    {
        let addr = nnn(instruction);
        if self.stack_pointer >= STACK_TOP {
            return Err(Chip8Error::StackOverflow);
        }
        self.stack_pointer += 1;
        self.stack[self.stack_pointer] = self.program_counter as u16;
        self.program_counter = addr as usize;
        Ok(StepOutcome::Advanced)
    }

    /// `0x1nnn`: jumps to `nnn`.
    fn instruction_jump(&mut self, instruction: u16)
        ensures
            final(self)@ == old(self)@.with_program_counter(nnn(instruction) as int),
    {
        let addr = nnn(instruction);
        self.program_counter = addr as usize;
    }

    /// Family 0: clear screen, return, or halt on any other word.
    pub fn instruction_zero(&mut self, instruction: u16) -> (result: Result<
        StepOutcome,
        Chip8Error,
    >)
        requires
            old(self).wf(),
        ensures
            final(self)@ == old(self)@.zero_family(instruction).state,
            result == old(self)@.zero_family(instruction).result,
    {
        match instruction {
            0x00E0 => {
                self.instruction_clear();
                Ok(StepOutcome::Advanced)
            },
            0x00EE => self.instruction_ret(),
            _ => {
                self.is_halted = true;
                Ok(StepOutcome::Halted)
            },
        }
    }

    /// `0x00E0`: clears the display.
    fn instruction_clear(&mut self)
        ensures
            final(self)@ == old(self)@.clear_screen(),
    {
        self.display = [0; 64];
        assert(self@.display =~= old(self)@.clear_screen().display);
    }

    /// `0x00EE`: returns to the address on top of the stack. With the stack empty the return is
    /// refused.
    fn instruction_ret(&mut self) -> (result: Result<StepOutcome, Chip8Error>)
        requires
            old(self).wf(),
        ensures
            final(self)@ == old(self)@.ret().state,
            result == old(self)@.ret().result,
    {
        if self.stack_pointer == 0 {
            return Err(Chip8Error::StackUnderflow);
        }
        self.program_counter = self.stack[self.stack_pointer] as usize;
        self.stack_pointer -= 1;
        Ok(StepOutcome::Advanced)
    }
}

} // verus!
