//! Floating-point values travel through the library as IEEE-754 binary64 bit
//! patterns. The arithmetic, conversions and text forms of such numbers are
//! supplied by the caller through a *float host*: a function from a
//! [`FloatTask`] to a [`FloatReply`]. Contracts that depend on those answers
//! are stated for every model of the host (see [`follows`]).

use vstd::prelude::*;
use crate::expr::BinaryOp;

verus! {

/// A floating-point computation that the library asks its float host to perform.
#[derive(Debug, Clone, PartialEq)]
pub enum FloatTask {
    /// Parse a decimal literal (`digits[.digits][e[+|-]digits]`).
    Parse(String),
    /// Convert an integer to the nearest binary64 value.
    FromInteger(i64),
    /// Apply an arithmetic operator (`Add`, `Subtract`, `Multiply`, `Divide`, `Modulo`).
    Arithmetic(BinaryOp, u64, u64),
    /// The `Debug` text of a number (as in `2000.0`).
    DebugText(u64),
    /// The `Display` text of a number (as in `2000`).
    DisplayText(u64),
}

/// The float host's answer: a bit pattern, a text, or `Invalid` when a
/// literal does not parse.
#[derive(Debug, Clone, PartialEq)]
pub enum FloatReply {
    Number(u64),
    Text(String),
    Invalid,
}

pub enum SpecFloatTask {
    Parse(Seq<char>),
    FromInteger(i64),
    Arithmetic(BinaryOp, u64, u64),
    DebugText(u64),
    DisplayText(u64),
}

pub enum SpecFloatReply {
    Number(u64),
    Text(Seq<char>),
    Invalid,
}

impl View for FloatTask {
    type V = SpecFloatTask;

    open spec fn view(&self) -> SpecFloatTask {
        match self {
            FloatTask::Parse(s) => SpecFloatTask::Parse(s@),
            FloatTask::FromInteger(i) => SpecFloatTask::FromInteger(*i),
            FloatTask::Arithmetic(op, a, b) => SpecFloatTask::Arithmetic(*op, *a, *b),
            FloatTask::DebugText(b) => SpecFloatTask::DebugText(*b),
            FloatTask::DisplayText(b) => SpecFloatTask::DisplayText(*b),
        }
    }
}

impl View for FloatReply {
    type V = SpecFloatReply;

    open spec fn view(&self) -> SpecFloatReply {
        match self {
            FloatReply::Number(b) => SpecFloatReply::Number(*b),
            FloatReply::Text(s) => SpecFloatReply::Text(s@),
            FloatReply::Invalid => SpecFloatReply::Invalid,
        }
    }
}

/// The float host may be asked any task.
pub open spec fn host_ready<F: Fn(FloatTask) -> FloatReply>(host: &F) -> bool {
    forall|t: FloatTask| call_requires(*host, (t,))
}

/// `model` describes every answer the host can give.
pub open spec fn follows<F: Fn(FloatTask) -> FloatReply>(
    host: &F,
    model: spec_fn(SpecFloatTask) -> SpecFloatReply,
) -> bool {
    forall|t: FloatTask, r: FloatReply| #[trigger] call_ensures(*host, (t,), r) ==> r@ == model(t@)
}

/// Asks the float host to perform `task`.
pub fn ask<F: Fn(FloatTask) -> FloatReply>(host: &F, task: FloatTask) -> (reply: FloatReply)
    requires
        host_ready(host),
    ensures
        forall|m: spec_fn(SpecFloatTask) -> SpecFloatReply|
            follows(host, m) ==> reply@ == m(task@),
{
    let ghost t = task;
    let reply = host(task);
    proof {
        assert(call_ensures(*host, (t,), reply));
    }
    reply
}

/// The sign bit.
pub open spec fn sign_bit(bits: u64) -> bool {
    (bits >> 63u64) == 1
}

/// The magnitude bits (everything but the sign).
pub open spec fn magnitude(bits: u64) -> u64 {
    bits & 0x7fff_ffff_ffff_ffffu64
}

/// The exponent field is all ones (an infinity or a NaN).
pub open spec fn exponent_all_ones(bits: u64) -> bool {
    (bits >> 52u64) & 0x7ffu64 == 0x7ffu64
}

/// A finite number (neither infinite nor NaN).
pub open spec fn is_finite(bits: u64) -> bool {
    !exponent_all_ones(bits)
}

/// Not a number.
pub open spec fn is_nan(bits: u64) -> bool {
    exponent_all_ones(bits) && (bits & 0x000f_ffff_ffff_ffffu64) != 0
}

/// Positive or negative zero.
pub open spec fn is_zero(bits: u64) -> bool {
    magnitude(bits) == 0
}

/// The negated number (the sign bit flipped).
pub open spec fn negated(bits: u64) -> u64 {
    bits ^ 0x8000_0000_0000_0000u64
}

/// An integer that orders non-NaN numbers as their values do (both zeros map to 0).
pub open spec fn order_key(bits: u64) -> int {
    if sign_bit(bits) {
        -(magnitude(bits) as int)
    } else {
        magnitude(bits) as int
    }
}

/// Three-way comparison of two numbers: `None` when either is NaN,
/// otherwise `Some(-1)`, `Some(0)` or `Some(1)`.
pub open spec fn float_compare(a: u64, b: u64) -> Option<int> {
    if is_nan(a) || is_nan(b) {
        None
    } else if order_key(a) < order_key(b) {
        Some(-1)
    } else if order_key(a) == order_key(b) {
        Some(0)
    } else {
        Some(1)
    }
}

pub fn float_is_finite(bits: u64) -> (finite: bool)
    ensures
        finite == is_finite(bits),
{
    (bits >> 52u64) & 0x7ffu64 != 0x7ffu64
}

pub fn float_is_zero(bits: u64) -> (zero: bool)
    ensures
        zero == is_zero(bits),
{
    bits & 0x7fff_ffff_ffff_ffffu64 == 0
}

pub fn float_negate(bits: u64) -> (n: u64)
    ensures
        n == negated(bits),
{
    bits ^ 0x8000_0000_0000_0000u64
}

/// Negation keeps a number finite.
pub proof fn lemma_negated_finite(bits: u64)
    ensures
        is_finite(negated(bits)) == is_finite(bits),
{
    assert(((bits ^ 0x8000_0000_0000_0000u64) >> 52u64) & 0x7ffu64 == (bits >> 52u64) & 0x7ffu64)
        by (bit_vector);
}

fn float_order_key(bits: u64) -> (key: i64)
    ensures
        key as int == order_key(bits),
{
    let mag = bits & 0x7fff_ffff_ffff_ffffu64;
    assert(bits & 0x7fff_ffff_ffff_ffffu64 <= 0x7fff_ffff_ffff_ffffu64) by (bit_vector);
    if (bits >> 63u64) == 1 {
        -(mag as i64)
    } else {
        mag as i64
    }
}

/// IEEE-754 ordering of two numbers.
pub fn float_three_way(a: u64, b: u64) -> (c: Option<i8>)
    ensures
        match (c, float_compare(a, b)) {
            (Some(x), Some(y)) => x as int == y,
            (None, None) => true,
            _ => false,
        },
{
    let nan_a = (a >> 52u64) & 0x7ffu64 == 0x7ffu64 && (a & 0x000f_ffff_ffff_ffffu64) != 0;
    let nan_b = (b >> 52u64) & 0x7ffu64 == 0x7ffu64 && (b & 0x000f_ffff_ffff_ffffu64) != 0;
    if nan_a || nan_b {
        return None;
    }
    let ka = float_order_key(a);
    let kb = float_order_key(b);
    if ka < kb {
        Some(-1)
    } else if ka == kb {
        Some(0)
    } else {
        Some(1)
    }
}

} // verus!
