//! The tagged scalar carried by the row table, the ten element types a
//! device buffer can hold, and the read/write marking of a bound column.

use vstd::prelude::*;
use vstd::string::StrSliceExecFns;
use vstd::string::StringExecFns;
use crate::text::{lower_seq, str_eq, str_eq_lowered};

verus! {

broadcast use vstd::string::group_string_axioms;

/// Element type of a device buffer or of a scalar kernel argument.
#[derive(Clone, Copy, Debug, PartialEq, Eq, Structural)]
pub enum ValueType {
    Uint8,
    Uint16,
    Uint32,
    Uint64,
    Int8,
    Int16,
    Int32,
    Int64,
    Float32,
    Float64,
}

impl Default for ValueType {
    /// The element type assumed when a kernel reports none that is known.
    fn default() -> (r: Self)
        ensures
            r == ValueType::Float64,
    {
        ValueType::Float64
    }
}

/// The element type named by `s` once ASCII lower-cased: the primitive
/// names `u8` through `f64` and the spelled-out aliases.
pub open spec fn value_type_of_name(s: Seq<char>) -> Option<ValueType> {
    let l = lower_seq(s);
    if l == "uint8"@ {
        Some(ValueType::Uint8)
    } else if l == "uint16"@ {
        Some(ValueType::Uint16)
    } else if l == "uint32"@ {
        Some(ValueType::Uint32)
    } else if l == "uint64"@ {
        Some(ValueType::Uint64)
    } else if l == "u8"@ {
        Some(ValueType::Uint8)
    } else if l == "u16"@ {
        Some(ValueType::Uint16)
    } else if l == "u32"@ {
        Some(ValueType::Uint32)
    } else if l == "u64"@ {
        Some(ValueType::Uint64)
    } else if l == "int8"@ {
        Some(ValueType::Int8)
    } else if l == "int16"@ {
        Some(ValueType::Int16)
    } else if l == "int32"@ {
        Some(ValueType::Int32)
    } else if l == "int64"@ {
        Some(ValueType::Int64)
    } else if l == "i8"@ {
        Some(ValueType::Int8)
    } else if l == "i16"@ {
        Some(ValueType::Int16)
    } else if l == "i32"@ {
        Some(ValueType::Int32)
    } else if l == "i64"@ {
        Some(ValueType::Int64)
    } else if l == "float"@ {
        Some(ValueType::Float32)
    } else if l == "float32"@ {
        Some(ValueType::Float32)
    } else if l == "f32"@ {
        Some(ValueType::Float32)
    } else if l == "double"@ {
        Some(ValueType::Float64)
    } else if l == "f64"@ {
        Some(ValueType::Float64)
    } else {
        None
    }
}

impl ValueType {
    /// Reads an element-type name, ignoring ASCII case.
    pub fn maybe_from_str(str_val: &str) -> (r: Option<ValueType>)
        ensures
            r == value_type_of_name(str_val@),
    {
        if str_eq_lowered(str_val, "uint8") {
            Some(ValueType::Uint8)
        } else if str_eq_lowered(str_val, "uint16") {
            Some(ValueType::Uint16)
        } else if str_eq_lowered(str_val, "uint32") {
            Some(ValueType::Uint32)
        } else if str_eq_lowered(str_val, "uint64") {
            Some(ValueType::Uint64)
        } else if str_eq_lowered(str_val, "u8") {
            Some(ValueType::Uint8)
        } else if str_eq_lowered(str_val, "u16") {
            Some(ValueType::Uint16)
        } else if str_eq_lowered(str_val, "u32") {
            Some(ValueType::Uint32)
        } else if str_eq_lowered(str_val, "u64") {
            Some(ValueType::Uint64)
        } else if str_eq_lowered(str_val, "int8") {
            Some(ValueType::Int8)
        } else if str_eq_lowered(str_val, "int16") {
            Some(ValueType::Int16)
        } else if str_eq_lowered(str_val, "int32") {
            Some(ValueType::Int32)
        } else if str_eq_lowered(str_val, "int64") {
            Some(ValueType::Int64)
        } else if str_eq_lowered(str_val, "i8") {
            Some(ValueType::Int8)
        } else if str_eq_lowered(str_val, "i16") {
            Some(ValueType::Int16)
        } else if str_eq_lowered(str_val, "i32") {
            Some(ValueType::Int32)
        } else if str_eq_lowered(str_val, "i64") {
            Some(ValueType::Int64)
        } else if str_eq_lowered(str_val, "float") {
            Some(ValueType::Float32)
        } else if str_eq_lowered(str_val, "float32") {
            Some(ValueType::Float32)
        } else if str_eq_lowered(str_val, "f32") {
            Some(ValueType::Float32)
        } else if str_eq_lowered(str_val, "double") {
            Some(ValueType::Float64)
        } else if str_eq_lowered(str_val, "f64") {
            Some(ValueType::Float64)
        } else {
            None
        }
    }
}

/// The element type behind a kernel-reported argument type name, with any
/// trailing `*` already removed: the names the device compiler reports.
pub open spec fn value_type_of_cl_name(s: Seq<char>) -> Option<ValueType> {
    if s == "uchar"@ {
        Some(ValueType::Uint8)
    } else if s == "ushort"@ {
        Some(ValueType::Uint16)
    } else if s == "uint"@ {
        Some(ValueType::Uint32)
    } else if s == "ulong"@ {
        Some(ValueType::Uint64)
    } else if s == "char"@ {
        Some(ValueType::Int8)
    } else if s == "short"@ {
        Some(ValueType::Int16)
    } else if s == "int"@ {
        Some(ValueType::Int32)
    } else if s == "long"@ {
        Some(ValueType::Int64)
    } else if s == "float"@ {
        Some(ValueType::Float32)
    } else if s == "double"@ {
        Some(ValueType::Float64)
    } else {
        None
    }
}

/// Reads a device type name such as `uchar` or `double`, exactly.
pub fn value_type_from_cl_name(s: &str) -> (r: Option<ValueType>)
    ensures
        r == value_type_of_cl_name(s@),
{
    if str_eq(s, "uchar") {
        Some(ValueType::Uint8)
    } else if str_eq(s, "ushort") {
        Some(ValueType::Uint16)
    } else if str_eq(s, "uint") {
        Some(ValueType::Uint32)
    } else if str_eq(s, "ulong") {
        Some(ValueType::Uint64)
    } else if str_eq(s, "char") {
        Some(ValueType::Int8)
    } else if str_eq(s, "short") {
        Some(ValueType::Int16)
    } else if str_eq(s, "int") {
        Some(ValueType::Int32)
    } else if str_eq(s, "long") {
        Some(ValueType::Int64)
    } else if str_eq(s, "float") {
        Some(ValueType::Float32)
    } else if str_eq(s, "double") {
        Some(ValueType::Float64)
    } else {
        None
    }
}

/// A value held by one cell of the row table. A `Double` carries the
/// IEEE-754 bit pattern of the 64-bit value, so that cells round-trip
/// bit-exactly through the table; reading the number itself is left to
/// callers that can hold one.
#[derive(Debug, PartialEq)]
pub enum Value {
    Integer(i64),
    Double(u64),
    Text(String),
}

/// Is the text one or more decimal digits?
pub open spec fn all_decimal_digits(s: Seq<char>) -> bool {
    s.len() > 0 && forall|i: int| 0 <= i < s.len() ==> ('0' <= #[trigger] s[i] && s[i] <= '9')
}

/// The number decimal digit text names, most significant digit first.
pub open spec fn decimal_value(s: Seq<char>) -> int
    decreases s.len(),
{
    if s.len() == 0 {
        0
    } else {
        decimal_value(s.drop_last()) * 10 + (s.last() as int - 48)
    }
}

/// The integer free text names, if it is one: an optional sign, then
/// decimal digits, within the signed 64-bit range — anything else is no
/// integer and moves on to the later stages of value reading.
pub open spec fn parsed_i64(s: Seq<char>) -> Option<i64> {
    let negative = s.len() > 0 && s[0] == '-';
    let ds = if s.len() > 0 && (s[0] == '-' || s[0] == '+') {
        s.skip(1)
    } else {
        s
    };
    if !all_decimal_digits(ds) {
        None
    } else {
        let v = if negative {
            -decimal_value(ds)
        } else {
            decimal_value(ds)
        };
        if -0x8000000000000000 <= v <= 0x7fffffffffffffff {
            Some(v as i64)
        } else {
            None
        }
    }
}

proof fn lemma_decimal_value_nonneg(s: Seq<char>)
    requires
        forall|i: int| 0 <= i < s.len() ==> ('0' <= #[trigger] s[i] && s[i] <= '9'),
    ensures
        decimal_value(s) >= 0,
    decreases s.len(),
{
    if s.len() > 0 {
        assert(forall|i: int|
            0 <= i < s.drop_last().len() ==> #[trigger] s.drop_last()[i] == s[i]);
        lemma_decimal_value_nonneg(s.drop_last());
    }
}

proof fn lemma_decimal_prefix_le(s: Seq<char>, j: int)
    requires
        0 <= j <= s.len(),
        forall|i: int| 0 <= i < s.len() ==> ('0' <= #[trigger] s[i] && s[i] <= '9'),
    ensures
        decimal_value(s.subrange(0, j)) <= decimal_value(s),
    decreases s.len(),
{
    if j == s.len() {
        assert(s.subrange(0, j) =~= s);
    } else {
        assert(forall|i: int|
            0 <= i < s.drop_last().len() ==> #[trigger] s.drop_last()[i] == s[i]);
        lemma_decimal_value_nonneg(s.drop_last());
        assert(s.drop_last().subrange(0, j) =~= s.subrange(0, j));
        lemma_decimal_prefix_le(s.drop_last(), j);
    }
}

impl Value {
    /// The first stage of reading a value from free text, in the defined
    /// order — integer, then 64-bit float, else text. Decimal-integer
    /// text becomes an Integer here, exactly when the text is one within
    /// the signed 64-bit range; on nothing, the caller goes on to the
    /// float and text stages, which the core does not hold.
    pub fn from_integer_text(str_val: &str) -> (r: Option<Value>)
        ensures
            match parsed_i64(str_val@) {
                Some(i) => r == Some(Value::Integer(i)),
                None => r is None,
            },
    {
        let n = str_val.unicode_len();
        if n == 0 {
            return None;
        }
        let c0 = str_val.get_char(0);
        let negative = c0 == '-';
        let start: usize = if c0 == '-' || c0 == '+' {
            1
        } else {
            0
        };
        let ghost ds = if str_val@[0] == '-' || str_val@[0] == '+' {
            str_val@.skip(1)
        } else {
            str_val@
        };
        proof {
            assert(ds =~= str_val@.subrange(start as int, n as int));
        }
        if start == n {
            return None;
        }
        let limit: u64 = if negative {
            0x8000000000000000
        } else {
            0x7fffffffffffffff
        };
        let mut mag: u64 = 0;
        let mut i = start;
        while i < n
            invariant
                start <= i <= n,
                start < n,
                n == str_val@.len(),
                (str_val@[0] == '-' || str_val@[0] == '+') <==> start == 1,
                start == 0 || start == 1,
                negative == (str_val@[0] == '-'),
                ds == (if str_val@[0] == '-' || str_val@[0] == '+' {
                    str_val@.skip(1)
                } else {
                    str_val@
                }),
                ds == str_val@.subrange(start as int, n as int),
                ds.len() == n - start,
                limit == (if negative {
                    0x8000000000000000u64
                } else {
                    0x7fffffffffffffffu64
                }),
                forall|j: int|
                    start <= j < i ==> ('0' <= #[trigger] str_val@[j] && str_val@[j] <= '9'),
                mag as int == decimal_value(str_val@.subrange(start as int, i as int)),
                mag <= limit,
            decreases n - i,
        {
            let c = str_val.get_char(i);
            let u = c as u32;
            if u < 48 || u > 57 {
                proof {
                    assert(ds[i - start as int] == str_val@[i as int]);
                    assert(!all_decimal_digits(ds));
                }
                return None;
            }
            let d = (u - 48) as u64;
            let next = (mag as u128) * 10 + (d as u128);
            let ghost pre = str_val@.subrange(start as int, i as int);
            let ghost post = str_val@.subrange(start as int, i as int + 1);
            proof {
                assert(post.drop_last() =~= pre);
                assert(post.last() == str_val@[i as int]);
                assert(next as int == decimal_value(post));
            }
            if next > limit as u128 {
                proof {
                    if all_decimal_digits(ds) {
                        assert(forall|j: int|
                            0 <= j < ds.len() ==> #[trigger] ds[j] == str_val@[j + start]);
                        assert(ds.subrange(0, i + 1 - start as int) =~= post);
                        lemma_decimal_prefix_le(ds, i + 1 - start as int);
                        assert(decimal_value(ds) > limit);
                    }
                }
                return None;
            }
            mag = next as u64;
            i += 1;
        }
        proof {
            assert(str_val@.subrange(start as int, n as int) =~= ds);
            assert(forall|j: int| 0 <= j < ds.len() ==> #[trigger] ds[j] == str_val@[j + start]);
            assert(all_decimal_digits(ds));
        }
        if negative {
            Some(Value::Integer((-(mag as i128)) as i64))
        } else {
            Some(Value::Integer(mag as i64))
        }
    }
}

impl Clone for Value {
    fn clone(&self) -> (res: Self)
        ensures
            res == self,
    {
        match self {
            Value::Integer(i) => Value::Integer(*i),
            Value::Double(b) => Value::Double(*b),
            Value::Text(s) => Value::Text(s.clone()),
        }
    }
}

/// Read/write marking of a bound column.
#[derive(Debug, PartialEq)]
pub enum RWColumn {
    Read(String),
    Write(String),
    ReadWrite(String),
}

impl Clone for RWColumn {
    fn clone(&self) -> (res: Self)
        ensures
            res == self,
    {
        match self {
            RWColumn::Read(s) => RWColumn::Read(s.clone()),
            RWColumn::Write(s) => RWColumn::Write(s.clone()),
            RWColumn::ReadWrite(s) => RWColumn::ReadWrite(s.clone()),
        }
    }
}

impl RWColumn {
    /// Reads a column marking: `r:` marks read-only and `w:` write;
    /// anything else, with or without an `rw:` prefix, marks read-write.
    pub fn from_str(str_val: &str) -> (r: RWColumn)
        ensures
            (str_val@.len() >= 2 && str_val@.subrange(0, 2) == "r:"@) ==> (r matches
                RWColumn::Read(t) && t@ == str_val@.skip(2)),
            (str_val@.len() >= 2 && str_val@.subrange(0, 2) == "w:"@) ==> (r matches
                RWColumn::Write(t) && t@ == str_val@.skip(2)),
            (!(str_val@.len() >= 2 && (str_val@.subrange(0, 2) == "r:"@ || str_val@.subrange(0, 2)
                == "w:"@)) && str_val@.len() >= 3 && str_val@.subrange(0, 3) == "rw:"@) ==> (r
                matches RWColumn::ReadWrite(t) && t@ == str_val@.skip(3)),
            (!(str_val@.len() >= 2 && (str_val@.subrange(0, 2) == "r:"@ || str_val@.subrange(0, 2)
                == "w:"@)) && !(str_val@.len() >= 3 && str_val@.subrange(0, 3) == "rw:"@)) ==> (r
                matches RWColumn::ReadWrite(t) && t@ == str_val@),
    {
        proof {
            reveal_strlit("r:");
            reveal_strlit("w:");
            reveal_strlit("rw:");
            assert("r:"@[0] == 'r');
            assert("w:"@[0] == 'w');
            assert("r:"@ != "w:"@);
        }
        let n = str_val.unicode_len();
        proof {
            if n >= 2 {
                assert(str_val@.skip(2) =~= str_val@.subrange(2, str_val@.len() as int));
            }
            if n >= 3 {
                assert(str_val@.skip(3) =~= str_val@.subrange(3, str_val@.len() as int));
            }
        }
        if n >= 2 && str_eq(str_val.substring_char(0, 2), "r:") {
            RWColumn::Read(String::from_str(str_val.substring_char(2, n)))
        } else if n >= 2 && str_eq(str_val.substring_char(0, 2), "w:") {
            RWColumn::Write(String::from_str(str_val.substring_char(2, n)))
        } else if n >= 3 && str_eq(str_val.substring_char(0, 3), "rw:") {
            RWColumn::ReadWrite(String::from_str(str_val.substring_char(3, n)))
        } else {
            RWColumn::ReadWrite(String::from_str(str_val))
        }
    }
}

} // verus!
