//! Instruction words and their fields.
//!
//! An instruction is two bytes, big-endian. Its highest nibble selects the opcode family; the
//! other nibbles are read as a register index `x`, a register index `y`, a nibble literal `n`,
//! a byte literal `kk` or an address literal `nnn`, depending on the family.
use vstd::prelude::*;

verus! {

/// The instruction word made of two consecutive bytes.
pub open spec fn spec_word(high: u8, low: u8) -> u16 {
    (high * 256 + low) as u16
}

/// Opcode family: bits 12–15.
pub open spec fn spec_family(word: u16) -> u8 {
    (word as int / 4096) as u8
}

/// Register index `x`: bits 8–11.
pub open spec fn spec_x(word: u16) -> usize {
    ((word as int / 256) % 16) as usize
}

/// Register index `y`: bits 4–7.
pub open spec fn spec_y(word: u16) -> usize {
    ((word as int / 16) % 16) as usize
}

/// Nibble literal `n`: bits 0–3.
pub open spec fn spec_n(word: u16) -> u16 {
    (word as int % 16) as u16
}

/// Byte literal `kk`: bits 0–7.
pub open spec fn spec_kk(word: u16) -> u8 {
    (word as int % 256) as u8
}

/// Address literal `nnn`: bits 0–11.
pub open spec fn spec_nnn(word: u16) -> u16 {
    (word as int % 4096) as u16
}

#[verifier::when_used_as_spec(spec_word)]
pub fn word(high: u8, low: u8) -> (w: u16)
    ensures
        w == spec_word(high, low),
{
    let h: u16 = high as u16;
    let l: u16 = low as u16;
    assert((h << 8) | l == h * 256 + l) by (bit_vector)
        requires
            h < 256,
            l < 256,
    ;
    (h << 8) | l
}

#[verifier::when_used_as_spec(spec_family)]
pub fn family(word: u16) -> (f: u8)
    ensures
        f == spec_family(word),
        f < 16,
{
    assert(word >> 12 == word / 4096) by (bit_vector);
    (word >> 12) as u8
}

#[verifier::when_used_as_spec(spec_x)]
pub fn x(word: u16) -> (r: usize)
    ensures
        r == spec_x(word),
        r < 16,
{
    assert((word & 0x0F00) >> 8 == (word / 256) % 16) by (bit_vector);
    ((word & 0x0F00) >> 8) as usize
}

#[verifier::when_used_as_spec(spec_y)]
pub fn y(word: u16) -> (r: usize)
    ensures
        r == spec_y(word),
        r < 16,
{
    assert((word & 0x00F0) >> 4 == (word / 16) % 16) by (bit_vector);
    ((word & 0x00F0) >> 4) as usize
}

#[verifier::when_used_as_spec(spec_n)]
pub fn n(word: u16) -> (r: u16)
    ensures
        r == spec_n(word),
        r < 16,
{
    assert(word & 0x000F == word % 16) by (bit_vector);
    word & 0x000F
}

#[verifier::when_used_as_spec(spec_kk)]
pub fn kk(word: u16) -> (r: u8)
    ensures
        r == spec_kk(word),
{
    assert(word & 0x00FF == word % 256) by (bit_vector);
    (word & 0x00FF) as u8
}

#[verifier::when_used_as_spec(spec_nnn)]
pub fn nnn(word: u16) -> (r: u16)
    ensures
        r == spec_nnn(word),
        r < 4096,
{
    assert(word & 0x0FFF == word % 4096) by (bit_vector);
    word & 0x0FFF
}

} // verus!
