//! The random source and the draws the simulation makes from it.
//!
//! The source hands out words of 32 bits and yes-or-no answers. What a draw
//! makes of a word is computed here and verified for every word.

use crate::fixed::{wrap_upto, wrapped_upto, PI, SCALE, TAU};
use rand::Rng;
use rand::RngCore;
use rand_chacha::ChaCha8Rng;
use vstd::prelude::*;

verus! {

/// The random source, `rand_chacha::ChaCha8Rng`: opaque to the verifier.
#[verifier::external_type_specification]
#[verifier::external_body]
pub struct ExChaCha8Rng(ChaCha8Rng);

/// Calls `rand::RngCore::next_u32`, which returns the next 32 random bits of
/// the source. Nothing is claimed of the result.
#[verifier::external_body]
pub(crate) fn draw_word(rng: &mut ChaCha8Rng) -> (word: u32) {
    rng.next_u32()
}

/// Calls `rand::Rng::gen_ratio`, which returns `true` with probability
/// `numerator / denominator`. Of the outcome only the two certain cases are
/// claimed: never `true` for a zero numerator, always `true` when the
/// numerator equals the denominator. The inputs on which `gen_ratio` panics
/// are excluded.
#[verifier::external_body]
pub(crate) fn draw_ratio(rng: &mut ChaCha8Rng, numerator: u32, denominator: u32) -> (hit: bool)
    requires
        denominator > 0,
        numerator <= denominator,
    ensures
        numerator == 0 ==> !hit,
        numerator == denominator ==> hit,
{
    rng.gen_ratio(numerator, denominator)
}

/// The number at least zero and less than one that the upper 24 bits of a
/// word stand for.
pub open spec fn unit_of(word: u32) -> int {
    (word / 0x100) * SCALE / 0x100_0000
}

/// The number from minus one to one, both included, that the upper 23 bits
/// of a word stand for.
pub open spec fn signed_unit_of(word: u32) -> int {
    (word / 0x200) * (2 * SCALE) / 0x7f_ffff - SCALE
}

/// The direction, above minus half a turn and up to half a turn, that the
/// upper 23 bits of a word stand for.
pub open spec fn rotation_of(word: u32) -> int {
    wrapped_upto((word / 0x200) * TAU / 0x80_0000, -PI as int, PI as int)
}

/// `value` is a number from minus one to one that some word stands for.
pub open spec fn is_signed_unit(value: i64) -> bool {
    exists|word: u32| value == #[trigger] signed_unit_of(word)
}

/// `value` is a number at least zero and less than one that some word
/// stands for.
pub open spec fn is_unit(value: i64) -> bool {
    exists|word: u32| value == #[trigger] unit_of(word)
}

/// `value` is a direction that some word stands for.
pub open spec fn is_rotation(value: i64) -> bool {
    exists|word: u32| value == #[trigger] rotation_of(word)
}

/// The number at least zero and less than one that a word stands for.
pub fn word_to_unit(word: u32) -> (unit: i64)
    ensures
        unit == unit_of(word),
        0 <= unit < SCALE,
{
    let top: i64 = (word / 0x100) as i64;
    assert(0 <= top <= 0xff_ffff);
    assert(0 <= top * SCALE <= 0xff_ffff * SCALE) by (nonlinear_arith)
        requires
            0 <= top <= 0xff_ffff,
            SCALE == 1_000_000,
    ;
    top * SCALE / 0x100_0000
}

/// The number from minus one to one that a word stands for.
pub fn word_to_signed_unit(word: u32) -> (unit: i64)
    ensures
        unit == signed_unit_of(word),
        -SCALE <= unit <= SCALE,
{
    let top: i64 = (word / 0x200) as i64;
    assert(0 <= top <= 0x7f_ffff);
    assert(0 <= top * (2 * SCALE) <= 0x7f_ffff * (2 * SCALE)) by (nonlinear_arith)
        requires
            0 <= top <= 0x7f_ffff,
            SCALE == 1_000_000,
    ;
    top * (2 * SCALE) / 0x7f_ffff - SCALE
}

/// The direction that a word stands for.
pub fn word_to_rotation(word: u32) -> (rotation: i64)
    ensures
        rotation == rotation_of(word),
        -PI < rotation <= PI,
{
    let top: i64 = (word / 0x200) as i64;
    assert(0 <= top <= 0x7f_ffff);
    assert(0 <= top * TAU <= 0x7f_ffff * TAU) by (nonlinear_arith)
        requires
            0 <= top <= 0x7f_ffff,
            TAU == 6_283_186,
    ;
    wrap_upto(top * TAU / 0x80_0000, -PI, PI)
}

/// A number drawn uniformly, at least zero and less than one.
pub fn draw_unit(rng: &mut ChaCha8Rng) -> (unit: i64)
    ensures
        is_unit(unit),
        0 <= unit < SCALE,
{
    let word: u32 = draw_word(rng);
    let unit: i64 = word_to_unit(word);
    assert(unit == unit_of(word));
    unit
}

/// A number drawn uniformly from minus one to one.
pub fn draw_signed_unit(rng: &mut ChaCha8Rng) -> (unit: i64)
    ensures
        is_signed_unit(unit),
        -SCALE <= unit <= SCALE,
{
    let word: u32 = draw_word(rng);
    let unit: i64 = word_to_signed_unit(word);
    assert(unit == signed_unit_of(word));
    unit
}

/// A direction drawn uniformly.
pub fn draw_rotation(rng: &mut ChaCha8Rng) -> (rotation: i64)
    ensures
        is_rotation(rotation),
        -PI < rotation <= PI,
{
    let word: u32 = draw_word(rng);
    let rotation: i64 = word_to_rotation(word);
    assert(rotation == rotation_of(word));
    rotation
}

} // verus!
