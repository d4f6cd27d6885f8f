//! Laws of the machine, proved over the model.
//!
//! Each proof function here states something that holds of every machine, whatever the random
//! byte and the state of the clock are.
use crate::error::{Chip8Error, StepOutcome};
use crate::model::{lemma_row_offsets, MachineState, MEMORY_SIZE, STACK_TOP};
use crate::screen::{lit, pixel_lit, spec_screen_height, spec_screen_width, sprite_mask};
use vstd::prelude::*;

verus! {

/// The machine is running and the instruction at its program counter is made of the bytes
/// `high` and `low`.
pub open spec fn next_instruction(m: MachineState, high: int, low: int) -> bool {
    &&& !m.halted
    &&& m.can_fetch()
    &&& m.memory[m.program_counter] == high
    &&& m.memory[m.program_counter + 1] == low
}

/// Pixel `k` of a sprite row, counted from the left, is set.
pub open spec fn sprite_bit(row: u8, k: int) -> bool {
    (row >> ((7 - k) as u8)) & 1u8 == 1u8
}

/// Sprite row `i` lights a pixel that is dark.
pub open spec fn lights_dark_pixel(m: MachineState, x: u8, y: u8, i: int) -> bool {
    m.sprite_row_mask(x, i) & !m.display[m.target_row(y, i)] != 0
}

/// Loading puts the program where the next fetch finds it: memory holds the image from `origin`
/// on, every other byte is as before, and the program counter is `origin`. Registers, stack,
/// timers, keys and display are not touched.
pub proof fn law_load_places_program(m: MachineState, origin: int, code: Seq<u8>)
    requires
        m.well_formed(),
        0 <= origin,
        m.fits(origin, code),
    ensures
        m.load(origin, code).well_formed(),
        m.load(origin, code).program_counter == origin,
        forall|i: int| 0 <= i < code.len() ==> m.load(origin, code).memory[origin + i] == code[i],
        forall|a: int|
            0 <= a < origin || origin + code.len() <= a < MEMORY_SIZE ==> m.load(
                origin,
                code,
            ).memory[a] == m.memory[a],
        m.load(origin, code) == (MachineState {
            memory: m.load(origin, code).memory,
            program_counter: origin,
            ..m
        }),
{
}

/// Load immediate: loading the instruction `6xkk` and stepping once leaves `kk` in register `x`
/// and the program counter 2 past the instruction.
pub proof fn law_load_immediate(
    m: MachineState,
    origin: int,
    x: int,
    kk: u8,
    random: u8,
    timer_due: bool,
)
    requires
        m.well_formed(),
        !m.halted,
        0 <= x < 16,
        0 <= origin,
        origin + 2 <= MEMORY_SIZE,
    ensures
        ({
            let loaded = m.load(origin, seq![(0x60 + x) as u8, kk]);
            let after = loaded.step(random, timer_due);
            &&& after.result == Ok::<StepOutcome, Chip8Error>(StepOutcome::Advanced)
            &&& after.state.registers[x] == kk
            &&& after.state.program_counter == origin + 2
        }),
{
    let code = seq![(0x60 + x) as u8, kk];
    let loaded = m.load(origin, code);
    law_load_places_program(m, origin, code);
    assert(loaded.memory[origin + 0] == code[0]);
    assert(loaded.memory[origin + 1] == code[1]);
    lemma_fields(0x60 + x, kk as int);
}

/// Jump: one step on `1nnn` leaves the program counter at `nnn + 2`: the engine moves it on by
/// the width of the instruction after the jump has set it.
pub proof fn law_jump(m: MachineState, nnn: int, random: u8, timer_due: bool)
    requires
        m.well_formed(),
        0 <= nnn < 4096,
        next_instruction(m, 0x10 + nnn / 256, nnn % 256),
    ensures
        m.step(random, timer_due).result == Ok::<StepOutcome, Chip8Error>(StepOutcome::Advanced),
        m.step(random, timer_due).state.program_counter == nnn + 2,
{
    lemma_fields(0x10 + nnn / 256, nnn % 256);
}

/// Call: one step on `2nnn` with room on the stack leaves the program counter at `nnn + 2`, the
/// stack one deeper, and the address of the call instruction on top of it.
pub proof fn law_call(m: MachineState, nnn: int, random: u8, timer_due: bool)
    requires
        m.well_formed(),
        0 <= nnn < 4096,
        next_instruction(m, 0x20 + nnn / 256, nnn % 256),
        m.stack_pointer < STACK_TOP,
    ensures
        m.step(random, timer_due).result == Ok::<StepOutcome, Chip8Error>(StepOutcome::Advanced),
        m.step(random, timer_due).state.program_counter == nnn + 2,
        m.step(random, timer_due).state.stack_pointer == m.stack_pointer + 1,
        m.step(random, timer_due).state.stack[m.stack_pointer + 1] == m.program_counter,
{
    lemma_fields(0x20 + nnn / 256, nnn % 256);
}

/// Call, then return: where the instruction that the call lands on is a return, the two steps
/// leave the program counter 2 past the call instruction and the stack as deep as it was.
pub proof fn law_call_then_return(
    m: MachineState,
    nnn: int,
    random: u8,
    timer_due: bool,
    random2: u8,
    timer_due2: bool,
)
    requires
        m.well_formed(),
        0 <= nnn,
        nnn + 3 < MEMORY_SIZE,
        next_instruction(m, 0x20 + nnn / 256, nnn % 256),
        m.stack_pointer < STACK_TOP,
        m.memory[nnn + 2] == 0x00,
        m.memory[nnn + 3] == 0xEE,
    ensures
        ({
            let called = m.step(random, timer_due);
            let returned = called.state.step(random2, timer_due2);
            &&& called.result == Ok::<StepOutcome, Chip8Error>(StepOutcome::Advanced)
            &&& returned.result == Ok::<StepOutcome, Chip8Error>(StepOutcome::Advanced)
            &&& returned.state.program_counter == m.program_counter + 2
            &&& returned.state.stack_pointer == m.stack_pointer
        }),
{
    law_call(m, nnn, random, timer_due);
    lemma_fields(0x20 + nnn / 256, nnn % 256);
    lemma_fields(0x00, 0xEE);
    let called = m.step(random, timer_due).state;
    assert(called.memory == m.memory);
    assert(next_instruction(called, 0x00, 0xEE));
}

/// Skip if equal: one step on `3xkk` moves the program counter on by 4 where register `x` holds
/// `kk`, and by 2 where it does not.
pub proof fn law_skip_if_equal(m: MachineState, x: int, kk: u8, random: u8, timer_due: bool)
    requires
        m.well_formed(),
        0 <= x < 16,
        next_instruction(m, 0x30 + x, kk as int),
    ensures
        m.step(random, timer_due).result == Ok::<StepOutcome, Chip8Error>(StepOutcome::Advanced),
        m.step(random, timer_due).state.program_counter == m.program_counter + if m.registers[x]
            == kk {
            4int
        } else {
            2int
        },
{
    lemma_fields(0x30 + x, kk as int);
}

/// Add with carry: one step on `8xy4` leaves the sum modulo 256 in register `x`. Where `x` is not
/// the flags register, the flags register holds 1 if the sum is above 255 and 0 if not.
pub proof fn law_add_with_carry(m: MachineState, x: int, y: int, random: u8, timer_due: bool)
    requires
        m.well_formed(),
        0 <= x < 16,
        0 <= y < 16,
        next_instruction(m, 0x80 + x, y * 16 + 4),
    ensures
        m.step(random, timer_due).result == Ok::<StepOutcome, Chip8Error>(StepOutcome::Advanced),
        m.step(random, timer_due).state.registers[x] == (m.registers[x] + m.registers[y]) % 256,
        x != 0xF ==> m.step(random, timer_due).state.registers[0xF] == if m.registers[x]
            + m.registers[y] > 255 {
            1int
        } else {
            0int
        },
{
    lemma_fields(0x80 + x, y * 16 + 4);
}

/// Shift left: one step on `8xyE` leaves twice the value modulo 256 in register `x`. Where `x`
/// is not the flags register, the flags register holds the bit that was shifted out.
pub proof fn law_shift_left(m: MachineState, x: int, y: int, random: u8, timer_due: bool)
    requires
        m.well_formed(),
        0 <= x < 16,
        0 <= y < 16,
        next_instruction(m, 0x80 + x, y * 16 + 0xE),
    ensures
        m.step(random, timer_due).result == Ok::<StepOutcome, Chip8Error>(StepOutcome::Advanced),
        m.step(random, timer_due).state.registers[x] == (m.registers[x] * 2) % 256,
        x != 0xF ==> m.step(random, timer_due).state.registers[0xF] == if m.registers[x] >= 128 {
            1int
        } else {
            0int
        },
{
    lemma_fields(0x80 + x, y * 16 + 0xE);
}

/// Binary-coded decimal: one step on `Fx33` with room in memory writes three decimal digits at
/// the index register, most significant first, that make up the value of register `x`.
pub proof fn law_decimal_digits(m: MachineState, x: int, random: u8, timer_due: bool)
    requires
        m.well_formed(),
        0 <= x < 16,
        next_instruction(m, 0xF0 + x, 0x33),
        m.index_register + 2 < MEMORY_SIZE,
    ensures
        ({
            let after = m.step(random, timer_due);
            let base = m.index_register as int;
            &&& after.result == Ok::<StepOutcome, Chip8Error>(StepOutcome::Advanced)
            &&& after.state.memory[base] < 10
            &&& after.state.memory[base + 1] < 10
            &&& after.state.memory[base + 2] < 10
            &&& after.state.memory[base] * 100 + after.state.memory[base + 1] * 10
                + after.state.memory[base + 2] == m.registers[x]
        }),
{
    lemma_fields(0xF0 + x, 0x33);
}

/// Clear screen: one step on `00E0` leaves every row of the display zero and every pixel dark,
/// whatever was drawn before.
pub proof fn law_clear_screen(m: MachineState, random: u8, timer_due: bool)
    requires
        m.well_formed(),
        next_instruction(m, 0x00, 0xE0),
    ensures
        m.step(random, timer_due).result == Ok::<StepOutcome, Chip8Error>(StepOutcome::Advanced),
        forall|r: int| 0 <= r < 64 ==> #[trigger] m.step(random, timer_due).state.display[r] == 0,
        forall|col: int, row: int|
            !pixel_lit(
                m.step(random, timer_due).state.display,
                m.step(random, timer_due).state.high_resolution,
                col,
                row,
            ),
{
    lemma_fields(0x00, 0xE0);
    let after = m.step(random, timer_due).state;
    assert forall|col: int, row: int|
        !pixel_lit(after.display, after.high_resolution, col, row) by {
        if 0 <= col < 128 && 0 <= row < 64 {
            assert(after.display[row] == 0);
            lemma_dark_row(col as u8);
        }
    }
}

/// A halted machine stays as it is: a step changes nothing and reports that the machine is
/// halted.
pub proof fn law_halted_machine_stays(m: MachineState, random: u8, timer_due: bool)
    requires
        m.halted,
    ensures
        m.step(random, timer_due).state == m,
        m.step(random, timer_due).result == Ok::<StepOutcome, Chip8Error>(StepOutcome::Halted),
{
}

/// No step changes the resolution, and a step that fails with anything but an unknown
/// instruction halts the machine and changes nothing else.
pub proof fn law_step_failure_halts(m: MachineState, random: u8, timer_due: bool)
    requires
        m.well_formed(),
    ensures
        m.step(random, timer_due).state.high_resolution == m.high_resolution,
        m.step(random, timer_due).result matches Err(e) && !(e is UnknownOpcode) ==> m.step(
            random,
            timer_due,
        ).state == m.halt(),
{
    if !m.halted && m.can_fetch() {
        m.lemma_execute_well_formed(m.fetch(), random);
    }
}

/// Horizontal wraparound: a sprite row placed at column `x` lights column `col` exactly when one
/// of its eight pixels is set and lands there, counting columns modulo the width of the screen.
pub proof fn law_sprite_row_wraps(row: u8, x: u8, high_resolution: bool, col: int)
    requires
        0 <= col < 128,
    ensures
        lit(sprite_mask(row, x, spec_screen_width(high_resolution) as int), col) <==> exists|k: int|
            0 <= k < 8 && #[trigger] sprite_bit(row, k) && (x + k) % (spec_screen_width(
                high_resolution,
            ) as int) == col,
{
    let c = col as u8;
    if high_resolution {
        lemma_mask_columns_high(row, x, c);
    } else {
        lemma_mask_columns_low(row, x, c);
    }
    let width = spec_screen_width(high_resolution) as int;
    if lit(sprite_mask(row, x, width), col) {
        let k = if sprite_bit(row, 0) && (x + 0) % width == col {
            0int
        } else if sprite_bit(row, 1) && (x + 1) % width == col {
            1
        } else if sprite_bit(row, 2) && (x + 2) % width == col {
            2
        } else if sprite_bit(row, 3) && (x + 3) % width == col {
            3
        } else if sprite_bit(row, 4) && (x + 4) % width == col {
            4
        } else if sprite_bit(row, 5) && (x + 5) % width == col {
            5
        } else if sprite_bit(row, 6) && (x + 6) % width == col {
            6
        } else {
            7
        };
        assert(0 <= k < 8 && sprite_bit(row, k) && (x + k) % width == col);
    }
}

/// Drawing combines by exclusive or, pixel by pixel: on the buffer row that sprite row `i` lands
/// on, a pixel changes exactly where the placed sprite row has a set pixel.
pub proof fn law_draw_toggles_pixels(m: MachineState, x: u8, y: u8, n: int, i: int, col: int)
    requires
        m.well_formed(),
        0 <= n <= 15,
        0 <= i < m.sprite_rows(n),
        0 <= col < 128,
    ensures
        lit(m.draw(x, y, n).display[m.target_row(y, i)], col) == (lit(
            m.display[m.target_row(y, i)],
            col,
        ) != lit(m.sprite_row_mask(x, i), col)),
{
    let t = m.target_row(y, i);
    lemma_row_offsets(spec_screen_height(m.high_resolution) as int, y as int, i, t);
    let a = m.display[t];
    let b = m.sprite_row_mask(x, i);
    let c = col as u8;
    assert(m.draw(x, y, n).display[t] == a ^ b);
    assert(c < 128 ==> ((a ^ b) & (1u128 << ((127 - c) as u128)) != 0) == ((a & (1u128 << ((127
        - c) as u128)) != 0) != (b & (1u128 << ((127 - c) as u128)) != 0))) by (bit_vector);
}

/// Drawing a sprite twice at the same place restores the display. The second draw reports a
/// collision exactly where the first one lit a pixel that was dark: then it sets the flags
/// register to 1, and otherwise it leaves the flags register as the first draw left it.
pub proof fn law_draw_twice_restores(m: MachineState, x: u8, y: u8, n: int)
    requires
        m.well_formed(),
        0 <= n <= 15,
    ensures
        m.draw(x, y, n).draw(x, y, n).display == m.display,
        m.draw(x, y, n).collides(x, y, m.sprite_rows(n)) <==> exists|i: int|
            0 <= i < m.sprite_rows(n) && #[trigger] lights_dark_pixel(m, x, y, i),
        m.draw(x, y, n).draw(x, y, n).registers == if m.draw(x, y, n).collides(
            x,
            y,
            m.sprite_rows(n),
        ) {
            m.draw(x, y, n).registers.update(0xF, 1)
        } else {
            m.draw(x, y, n).registers
        },
{
    let rows = m.sprite_rows(n);
    let once = m.draw(x, y, n);
    let twice = once.draw(x, y, n);
    assert(once.sprite_rows(n) == rows);
    assert forall|r: int| 0 <= r < 64 implies twice.display[r] == m.display[r] by {
        let a = m.display[r];
        let height = spec_screen_height(m.high_resolution) as int;
        let b = m.sprite_row_mask(x, (r - y) % height);
        assert(once.sprite_row_mask(x, (r - y) % height) == b);
        assert((a ^ b) ^ b == a) by (bit_vector);
    }
    assert(twice.display =~= m.display);
    assert forall|i: int| 0 <= i < rows implies (once.row_collides(x, y, i) <==> lights_dark_pixel(
        m,
        x,
        y,
        i,
    )) by {
        let t = m.target_row(y, i);
        lemma_row_offsets(spec_screen_height(m.high_resolution) as int, y as int, i, t);
        let a = m.display[t];
        let b = m.sprite_row_mask(x, i);
        assert(once.target_row(y, i) == t);
        assert(once.sprite_row_mask(x, i) == b);
        assert(once.display[t] == a ^ b);
        assert(((a ^ b) & b != 0) <==> (b & !a != 0)) by (bit_vector);
    }
    if once.collides(x, y, rows) {
        let i = choose|i: int| 0 <= i < rows && #[trigger] once.row_collides(x, y, i);
        assert(lights_dark_pixel(m, x, y, i));
    }
    if exists|i: int| 0 <= i < rows && #[trigger] lights_dark_pixel(m, x, y, i) {
        let i = choose|i: int| 0 <= i < rows && #[trigger] lights_dark_pixel(m, x, y, i);
        assert(once.row_collides(x, y, i));
    }
}

/// How the fields of an instruction word come out of its two bytes.
proof fn lemma_fields(high: int, low: int)
    requires
        0 <= high < 256,
        0 <= low < 256,
    ensures
        crate::decode::spec_word(high as u8, low as u8) == high * 256 + low,
        crate::decode::spec_family(crate::decode::spec_word(high as u8, low as u8)) == high / 16,
        crate::decode::spec_x(crate::decode::spec_word(high as u8, low as u8)) == high % 16,
        crate::decode::spec_y(crate::decode::spec_word(high as u8, low as u8)) == low / 16,
        crate::decode::spec_n(crate::decode::spec_word(high as u8, low as u8)) == low % 16,
        crate::decode::spec_kk(crate::decode::spec_word(high as u8, low as u8)) == low,
        crate::decode::spec_nnn(crate::decode::spec_word(high as u8, low as u8)) == (high % 16)
            * 256 + low,
{
}

/// No column of an empty row is lit.
proof fn lemma_dark_row(col: u8)
    requires
        col < 128,
    ensures
        !lit(0, col as int),
{
    assert(0u128 & (1u128 << ((127 - col) as u128)) == 0) by (bit_vector);
}

proof fn lemma_mask_columns_high(row: u8, x: u8, col: u8)
    requires
        col < 128,
    ensures
        lit(sprite_mask(row, x, 128), col as int) <==> {
            ||| sprite_bit(row, 0) && (x + 0) % 128 == col
            ||| sprite_bit(row, 1) && (x + 1) % 128 == col
            ||| sprite_bit(row, 2) && (x + 2) % 128 == col
            ||| sprite_bit(row, 3) && (x + 3) % 128 == col
            ||| sprite_bit(row, 4) && (x + 4) % 128 == col
            ||| sprite_bit(row, 5) && (x + 5) % 128 == col
            ||| sprite_bit(row, 6) && (x + 6) % 128 == col
            ||| sprite_bit(row, 7) && (x + 7) % 128 == col
        },
{
    assert(col < 128 ==> (lit(sprite_mask(row, x, 128), col as int) <==> {
        ||| sprite_bit(row, 0) && (x + 0) % 128 == col
        ||| sprite_bit(row, 1) && (x + 1) % 128 == col
        ||| sprite_bit(row, 2) && (x + 2) % 128 == col
        ||| sprite_bit(row, 3) && (x + 3) % 128 == col
        ||| sprite_bit(row, 4) && (x + 4) % 128 == col
        ||| sprite_bit(row, 5) && (x + 5) % 128 == col
        ||| sprite_bit(row, 6) && (x + 6) % 128 == col
        ||| sprite_bit(row, 7) && (x + 7) % 128 == col
    })) by (bit_vector);
}

proof fn lemma_mask_columns_low(row: u8, x: u8, col: u8)
    requires
        col < 128,
    ensures
        lit(sprite_mask(row, x, 64), col as int) <==> {
            ||| sprite_bit(row, 0) && (x + 0) % 64 == col
            ||| sprite_bit(row, 1) && (x + 1) % 64 == col
            ||| sprite_bit(row, 2) && (x + 2) % 64 == col
            ||| sprite_bit(row, 3) && (x + 3) % 64 == col
            ||| sprite_bit(row, 4) && (x + 4) % 64 == col
            ||| sprite_bit(row, 5) && (x + 5) % 64 == col
            ||| sprite_bit(row, 6) && (x + 6) % 64 == col
            ||| sprite_bit(row, 7) && (x + 7) % 64 == col
        },
{
    assert(col < 128 ==> (lit(sprite_mask(row, x, 64), col as int) <==> {
        ||| sprite_bit(row, 0) && (x + 0) % 64 == col
        ||| sprite_bit(row, 1) && (x + 1) % 64 == col
        ||| sprite_bit(row, 2) && (x + 2) % 64 == col
        ||| sprite_bit(row, 3) && (x + 3) % 64 == col
        ||| sprite_bit(row, 4) && (x + 4) % 64 == col
        ||| sprite_bit(row, 5) && (x + 5) % 64 == col
        ||| sprite_bit(row, 6) && (x + 6) % 64 == col
        ||| sprite_bit(row, 7) && (x + 7) % 64 == col
    })) by (bit_vector);
}

} // verus!
