//! Cross-function laws of the data plane, stated and proved once over the
//! conversion tables that binding and readback use.

use vstd::prelude::*;
use vstd::arithmetic::power2::pow2;
use crate::value::{Value, ValueType};
use crate::convert::{elem_of_value, value_of_elem};
use crate::floatbits::{f32_promote_bits, lemma_demote_promote};

verus! {

/// The bind-and-read-back round trip. A column bound to an integer
/// element type and read straight back yields, for every row whose value
/// is an integer within the type's range, exactly that integer; a column
/// of 64-bit float type returns every value bit for bit, whatever it is.
pub proof fn lemma_bind_readback_round_trip(v: Value, t: ValueType)
    requires
        match v {
            Value::Integer(i) => match t {
                ValueType::Uint8 => 0 <= i < 0x100,
                ValueType::Uint16 => 0 <= i < 0x10000,
                ValueType::Uint32 => 0 <= i < 0x100000000,
                ValueType::Uint64 => i >= 0,
                ValueType::Int8 => -0x80 <= i < 0x80,
                ValueType::Int16 => -0x8000 <= i < 0x8000,
                ValueType::Int32 => -0x80000000 <= i < 0x80000000,
                ValueType::Int64 => true,
                _ => false,
            },
            Value::Double(_) => t == ValueType::Float64,
            Value::Text(_) => false,
        },
    ensures
        elem_of_value(v, t) matches Some(x) && value_of_elem(x, t) == Some(v),
{
    match v {
        Value::Integer(i) => {
            match t {
                ValueType::Int8 => {
                    assert(((((i as i8) as u8) as u64) as u8) as i8 == i as i8) by (bit_vector);
                    assert((i as i8) as i64 == i) by (bit_vector)
                        requires
                            -0x80 <= i < 0x80,
                    ;
                },
                ValueType::Int16 => {
                    assert(((((i as i16) as u16) as u64) as u16) as i16 == i as i16)
                        by (bit_vector);
                    assert((i as i16) as i64 == i) by (bit_vector)
                        requires
                            -0x8000 <= i < 0x8000,
                    ;
                },
                ValueType::Int32 => {
                    assert(((((i as i32) as u32) as u64) as u32) as i32 == i as i32)
                        by (bit_vector);
                    assert((i as i32) as i64 == i) by (bit_vector)
                        requires
                            -0x80000000 <= i < 0x80000000,
                    ;
                },
                ValueType::Int64 => {
                    assert((i as u64) as i64 == i) by (bit_vector);
                },
                _ => {},
            }
        },
        _ => {},
    }
}

/// The bind-and-read-back round trip for a 32-bit float column: a cell
/// whose 64-bit pattern is the widening of a 32-bit pattern narrows on
/// binding to exactly that pattern, and widens back on readback to the
/// very same cell — exact for every value the 32-bit type represents. A
/// cell between two 32-bit values narrows to the nearest, ties to even;
/// how far that neighbour lies is a statement about real-number distance
/// that the bit-level model does not carry.
pub proof fn lemma_f32_bind_readback_round_trip(c: u32)
    ensures
        f32_promote_bits(c) < pow2(64),
        elem_of_value(Value::Double((f32_promote_bits(c)) as u64), ValueType::Float32) == Some(
            (c as u64),
        ),
        value_of_elem(c as u64, ValueType::Float32) == Some(
            Value::Double((f32_promote_bits(c)) as u64),
        ),
{
    lemma_demote_promote(c);
    assert((c as u64) as u32 == c);
}

} // verus!
