//! The two conversion tables of the data plane: a row value into a device
//! element of a chosen element type, and a device element back into a row
//! value. Elements are carried as bit patterns in a machine word, low
//! `N` bits for an `N`-bit element type.

use vstd::prelude::*;
use crate::value::{Value, ValueType, value_type_of_cl_name, value_type_from_cl_name};
use crate::floatbits::{
    f64_cast_unsigned,
    f64_cast_signed,
    f64_cast_to_unsigned,
    f64_cast_to_signed,
    f32_bits_of_i64,
    f64_bits_of_i64,
    i64_to_f32_bits,
    i64_to_f64_bits,
    f32_promote_bits,
    f32_promote,
    f64_demote_bits,
    f64_demote,
};

verus! {

/// A fatal fault of the data plane, carrying the name involved.
#[derive(Debug, PartialEq)]
pub enum PipelineError {
    /// A text value stood in a column bound to a numeric device buffer.
    Binding(String),
    /// No source of the precedence chain yields the named scalar argument.
    MissingConstant(String),
    /// A 64-bit unsigned element read back does not fit a signed value.
    Overflow(String),
    /// A kernel argument reports an element type name that is not known.
    UnknownBufferType(String),
}

impl Clone for PipelineError {
    fn clone(&self) -> (res: Self)
        ensures
            res == self,
    {
        match self {
            PipelineError::Binding(s) => PipelineError::Binding(s.clone()),
            PipelineError::MissingConstant(s) => PipelineError::MissingConstant(s.clone()),
            PipelineError::Overflow(s) => PipelineError::Overflow(s.clone()),
            PipelineError::UnknownBufferType(s) => PipelineError::UnknownBufferType(s.clone()),
        }
    }
}

/// Does the word `x` hold a well-formed element pattern of type `t`: the
/// bits above the element width are clear.
pub open spec fn elem_in_range(t: ValueType, x: u64) -> bool {
    match t {
        ValueType::Uint8 => x < 0x100,
        ValueType::Int8 => x < 0x100,
        ValueType::Uint16 => x < 0x10000,
        ValueType::Int16 => x < 0x10000,
        ValueType::Uint32 => x < 0x100000000,
        ValueType::Int32 => x < 0x100000000,
        ValueType::Float32 => x < 0x100000000,
        ValueType::Uint64 => true,
        ValueType::Int64 => true,
        ValueType::Float64 => true,
    }
}

/// The element pattern a row value binds to under element type `t`: an
/// integer is truncated to an integer element's width, or encoded as the
/// nearest float; a 64-bit float value is truncated toward zero with
/// saturation for an integer element, narrowed for a 32-bit float element
/// and kept as it stands for a 64-bit one. A text value has no element.
pub open spec fn elem_of_value(v: Value, t: ValueType) -> Option<u64> {
    match v {
        Value::Integer(i) => Some(
            match t {
                ValueType::Uint8 => (i as u8) as u64,
                ValueType::Uint16 => (i as u16) as u64,
                ValueType::Uint32 => (i as u32) as u64,
                ValueType::Uint64 => i as u64,
                ValueType::Int8 => ((i as i8) as u8) as u64,
                ValueType::Int16 => ((i as i16) as u16) as u64,
                ValueType::Int32 => ((i as i32) as u32) as u64,
                ValueType::Int64 => i as u64,
                ValueType::Float32 => f32_bits_of_i64(i as int) as u64,
                ValueType::Float64 => f64_bits_of_i64(i as int) as u64,
            },
        ),
        Value::Double(b) => Some(
            match t {
                ValueType::Uint8 => f64_cast_unsigned(b, 0xff) as u64,
                ValueType::Uint16 => f64_cast_unsigned(b, 0xffff) as u64,
                ValueType::Uint32 => f64_cast_unsigned(b, 0xffffffff) as u64,
                ValueType::Uint64 => f64_cast_unsigned(b, 0xffffffffffffffff) as u64,
                ValueType::Int8 => ((f64_cast_signed(b, -0x80, 0x7f) as i8) as u8) as u64,
                ValueType::Int16 => ((f64_cast_signed(b, -0x8000, 0x7fff) as i16) as u16) as u64,
                ValueType::Int32 => ((f64_cast_signed(b, -0x80000000, 0x7fffffff) as i32)
                    as u32) as u64,
                ValueType::Int64 => (f64_cast_signed(
                    b,
                    -0x8000000000000000,
                    0x7fffffffffffffff,
                ) as i64) as u64,
                ValueType::Float32 => f64_demote_bits(b) as u64,
                ValueType::Float64 => b,
            },
        ),
        Value::Text(_) => None,
    }
}

/// Converts a row value into an element pattern of type `t`. A text value
/// is the one rejected input: numeric kernels cannot take it, and silent
/// substitution would hide a configuration fault.
pub fn value_to_elem(v: &Value, t: ValueType, column: &String) -> (r: Result<u64, PipelineError>)
    ensures
        r is Ok <==> !(*v matches Value::Text(_)),
        r matches Ok(x) ==> Some(x) == elem_of_value(*v, t) && elem_in_range(t, x),
        r matches Err(e) ==> e matches PipelineError::Binding(c) && c@ == column@,
{
    match v {
        Value::Integer(i) => {
            let x: u64 = match t {
                ValueType::Uint8 => (#[verifier::truncate] (*i as u8)) as u64,
                ValueType::Uint16 => (#[verifier::truncate] (*i as u16)) as u64,
                ValueType::Uint32 => (#[verifier::truncate] (*i as u32)) as u64,
                ValueType::Uint64 => #[verifier::truncate] (*i as u64),
                ValueType::Int8 => ((#[verifier::truncate] (*i as i8)) as u8) as u64,
                ValueType::Int16 => ((#[verifier::truncate] (*i as i16)) as u16) as u64,
                ValueType::Int32 => ((#[verifier::truncate] (*i as i32)) as u32) as u64,
                ValueType::Int64 => #[verifier::truncate] (*i as u64),
                ValueType::Float32 => i64_to_f32_bits(*i) as u64,
                ValueType::Float64 => i64_to_f64_bits(*i),
            };
            Ok(x)
        },
        Value::Double(b) => {
            let x: u64 = match t {
                ValueType::Uint8 => f64_cast_to_unsigned(*b, 0xff),
                ValueType::Uint16 => f64_cast_to_unsigned(*b, 0xffff),
                ValueType::Uint32 => f64_cast_to_unsigned(*b, 0xffffffff),
                ValueType::Uint64 => f64_cast_to_unsigned(*b, 0xffffffffffffffff),
                ValueType::Int8 => ((f64_cast_to_signed(*b, -0x80, 0x7f) as i8) as u8) as u64,
                ValueType::Int16 => ((f64_cast_to_signed(*b, -0x8000, 0x7fff) as i16)
                    as u16) as u64,
                ValueType::Int32 => ((f64_cast_to_signed(*b, -0x80000000, 0x7fffffff) as i32)
                    as u32) as u64,
                ValueType::Int64 => f64_cast_to_signed(
                    *b,
                    -0x8000000000000000,
                    0x7fffffffffffffff,
                ) as u64,
                ValueType::Float32 => f64_demote(*b) as u64,
                ValueType::Float64 => *b,
            };
            Ok(x)
        },
        Value::Text(_) => Err(PipelineError::Binding(column.clone())),
    }
}

/// The row value an element pattern reads back as: integer elements widen
/// to a 64-bit integer, sign extended for the signed types, and float
/// elements become 64-bit float values. A 64-bit unsigned element above
/// the signed range has no value.
pub open spec fn value_of_elem(x: u64, t: ValueType) -> Option<Value> {
    match t {
        ValueType::Uint8 => Some(Value::Integer(x as i64)),
        ValueType::Uint16 => Some(Value::Integer(x as i64)),
        ValueType::Uint32 => Some(Value::Integer(x as i64)),
        ValueType::Uint64 => if x <= 0x7fffffffffffffff {
            Some(Value::Integer(x as i64))
        } else {
            None
        },
        ValueType::Int8 => Some(Value::Integer(((x as u8) as i8) as i64)),
        ValueType::Int16 => Some(Value::Integer(((x as u16) as i16) as i64)),
        ValueType::Int32 => Some(Value::Integer(((x as u32) as i32) as i64)),
        ValueType::Int64 => Some(Value::Integer(x as i64)),
        ValueType::Float32 => Some(Value::Double(f32_promote_bits(x as u32) as u64)),
        ValueType::Float64 => Some(Value::Double(x)),
    }
}

/// Reads an element pattern back as a row value.
pub fn elem_to_value(x: u64, t: ValueType) -> (r: Option<Value>)
    requires
        elem_in_range(t, x),
    ensures
        r == value_of_elem(x, t),
{
    match t {
        ValueType::Uint8 => Some(Value::Integer(x as i64)),
        ValueType::Uint16 => Some(Value::Integer(x as i64)),
        ValueType::Uint32 => Some(Value::Integer(x as i64)),
        ValueType::Uint64 => {
            if x <= 0x7fffffffffffffff {
                Some(Value::Integer(x as i64))
            } else {
                None
            }
        },
        ValueType::Int8 => Some(Value::Integer(((x as u8) as i8) as i64)),
        ValueType::Int16 => Some(Value::Integer(((x as u16) as i16) as i64)),
        ValueType::Int32 => Some(Value::Integer(((x as u32) as i32) as i64)),
        ValueType::Int64 => Some(Value::Integer(#[verifier::truncate] (x as i64))),
        ValueType::Float32 => Some(Value::Double(f32_promote(x as u32))),
        ValueType::Float64 => Some(Value::Double(x)),
    }
}

/// A resolved scalar kernel argument: an element pattern with its type.
#[derive(Clone, Copy, Debug, PartialEq)]
pub struct ScalarArg {
    pub et: ValueType,
    pub bits: u64,
}

/// The element type a scalar argument takes: the reported device type
/// name where it is known, and otherwise a 64-bit type fitting the value.
pub open spec fn effective_scalar_type(hint: Option<ValueType>, v: Value) -> ValueType {
    match hint {
        Some(t) => t,
        None => if v matches Value::Double(_) {
            ValueType::Float64
        } else {
            ValueType::Int64
        },
    }
}

/// Converts a resolved constant into a scalar argument for the device
/// type name the kernel reports. An unknown type name falls back to a
/// 64-bit type fitting the value; a text value is rejected.
pub fn scalar_from_value(v: &Value, cl_type_name: &str, name: &String) -> (r: Result<
    ScalarArg,
    PipelineError,
>)
    ensures
        r is Ok <==> !(*v matches Value::Text(_)),
        r matches Ok(s) ==> {
            let et = effective_scalar_type(value_type_of_cl_name(cl_type_name@), *v);
            s.et == et && Some(s.bits) == elem_of_value(*v, et) && elem_in_range(et, s.bits)
        },
        r matches Err(e) ==> e matches PipelineError::Binding(c) && c@ == name@,
{
    let et = match value_type_from_cl_name(cl_type_name) {
        Some(t) => t,
        None => match v {
            Value::Double(_) => ValueType::Float64,
            _ => ValueType::Int64,
        },
    };
    match value_to_elem(v, et, name) {
        Ok(bits) => Ok(ScalarArg { et, bits }),
        Err(e) => Err(e),
    }
}

} // verus!
