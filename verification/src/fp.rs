//! IEEE 754 single-precision arithmetic on stored bit patterns.
//!
//! Energies, coordinates and direction cosines live on disk as little-endian
//! 32-bit floating-point values. Verified code keeps them as their raw `u32`
//! bit patterns; the four arithmetic steps the format needs are delegated to
//! the hardware float unit behind the trusted functions below. Each result is
//! determined by the operand bit patterns alone — IEEE 754 fixes the rounding
//! of every numeric case, and a given target's NaN-propagation rule fixes the
//! rest — so it is named by an uninterpreted spec function.

use byteorder::{ByteOrder, LittleEndian};
use vstd::prelude::*;

verus! {

/// Bit pattern of the IEEE 754 single-precision sum of the values with bit
/// patterns `a` and `b`.
pub uninterp spec fn add_bits(a: u32, b: u32) -> u32;

/// Bit pattern of the IEEE 754 single-precision product of the values with
/// bit patterns `a` and `b`.
pub uninterp spec fn mul_bits(a: u32, b: u32) -> u32;

/// Bit pattern of the smaller of the two single-precision values with bit
/// patterns `a` and `b`, as the standard library's `min` on them returns it.
pub uninterp spec fn min_bits(a: u32, b: u32) -> u32;

/// Bit pattern of the larger of the two single-precision values with bit
/// patterns `a` and `b`, as the standard library's `max` on them returns it.
pub uninterp spec fn max_bits(a: u32, b: u32) -> u32;

/// Relies on `+` for 32-bit floats (IEEE 754 addition, a pure function of the
/// operand bit patterns). `byteorder::LittleEndian`'s `write_u32`, `read_f32`,
/// `write_f32` and `read_u32` only convert between bit patterns and values.
#[verifier::external_body]
pub(crate) fn fadd(a: u32, b: u32) -> (r: u32)
    ensures
        r == add_bits(a, b),
{
    let mut buf = [0u8; 8];
    LittleEndian::write_u32(&mut buf[0..4], a);
    LittleEndian::write_u32(&mut buf[4..8], b);
    let s = LittleEndian::read_f32(&buf[0..4]) + LittleEndian::read_f32(&buf[4..8]);
    LittleEndian::write_f32(&mut buf[0..4], s);
    LittleEndian::read_u32(&buf[0..4])
}

/// Relies on `*` for 32-bit floats (IEEE 754 multiplication, a pure function
/// of the operand bit patterns). `byteorder::LittleEndian`'s `write_u32`,
/// `read_f32`, `write_f32` and `read_u32` only convert between bit patterns
/// and values.
#[verifier::external_body]
pub(crate) fn fmul(a: u32, b: u32) -> (r: u32)
    ensures
        r == mul_bits(a, b),
{
    let mut buf = [0u8; 8];
    LittleEndian::write_u32(&mut buf[0..4], a);
    LittleEndian::write_u32(&mut buf[4..8], b);
    let p = LittleEndian::read_f32(&buf[0..4]) * LittleEndian::read_f32(&buf[4..8]);
    LittleEndian::write_f32(&mut buf[0..4], p);
    LittleEndian::read_u32(&buf[0..4])
}

/// Relies on `min` for 32-bit floats, a pure function of the operand bit
/// patterns. `byteorder::LittleEndian`'s `write_u32`, `read_f32`, `write_f32`
/// and `read_u32` only convert between bit patterns and values.
#[verifier::external_body]
pub(crate) fn fmin(a: u32, b: u32) -> (r: u32)
    ensures
        r == min_bits(a, b),
{
    let mut buf = [0u8; 8];
    LittleEndian::write_u32(&mut buf[0..4], a);
    LittleEndian::write_u32(&mut buf[4..8], b);
    let m = LittleEndian::read_f32(&buf[0..4]).min(LittleEndian::read_f32(&buf[4..8]));
    LittleEndian::write_f32(&mut buf[0..4], m);
    LittleEndian::read_u32(&buf[0..4])
}

/// Relies on `max` for 32-bit floats, a pure function of the operand bit
/// patterns. `byteorder::LittleEndian`'s `write_u32`, `read_f32`, `write_f32`
/// and `read_u32` only convert between bit patterns and values.
#[verifier::external_body]
pub(crate) fn fmax(a: u32, b: u32) -> (r: u32)
    ensures
        r == max_bits(a, b),
{
    let mut buf = [0u8; 8];
    LittleEndian::write_u32(&mut buf[0..4], a);
    LittleEndian::write_u32(&mut buf[4..8], b);
    let m = LittleEndian::read_f32(&buf[0..4]).max(LittleEndian::read_f32(&buf[4..8]));
    LittleEndian::write_f32(&mut buf[0..4], m);
    LittleEndian::read_u32(&buf[0..4])
}

} // verus!
