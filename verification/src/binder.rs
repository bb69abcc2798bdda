//! The column binder: projects the row table into a typed buffer for one
//! pointer argument of a kernel. The argument's name is matched against a
//! row's columns exactly first, then lower-cased, then upper-cased; a row
//! that lacks the column contributes a zero and counts as one warning.

use vstd::prelude::*;
use crate::value::{Value, value_type_from_cl_name, value_type_of_cl_name};
use crate::text::{lower_seq, upper_seq, trim_stars, trimmed_stars};
use crate::table::{Row, lookup};
use crate::buffer::{TypedBuffer, bind_values};
use crate::convert::{elem_of_value, PipelineError};

verus! {

/// The value a kernel argument named `name` reads from a row: the column
/// matched case-exactly, else lower-cased, else upper-cased, else zero.
pub open spec fn looked_up(cells: Seq<(String, Value)>, name: Seq<char>) -> Value {
    match lookup(cells, name) {
        Some(v) => v,
        None => match lookup(cells, lower_seq(name)) {
            Some(v) => v,
            None => match lookup(cells, upper_seq(name)) {
                Some(v) => v,
                None => Value::Integer(0),
            },
        },
    }
}

/// Does the row lack the column under all three spellings?
pub open spec fn column_missing(cells: Seq<(String, Value)>, name: Seq<char>) -> bool {
    lookup(cells, name) is None && lookup(cells, lower_seq(name)) is None && lookup(
        cells,
        upper_seq(name),
    ) is None
}

/// How many rows of the table lack the column under all three spellings.
pub open spec fn missing_count(t: Seq<Row>, name: Seq<char>) -> int
    decreases t.len(),
{
    if t.len() == 0 {
        0
    } else {
        missing_count(t.drop_last(), name) + if column_missing(t.last()@, name) {
            1int
        } else {
            0int
        }
    }
}

proof fn lemma_missing_count_bounds(t: Seq<Row>, name: Seq<char>)
    ensures
        0 <= missing_count(t, name) <= t.len(),
    decreases t.len(),
{
    if t.len() > 0 {
        lemma_missing_count_bounds(t.drop_last(), name);
    }
}

/// Projects one column out of the table: the value each row holds for
/// `name` under the fallback order, with a zero for each row that lacks
/// it, and the count of such rows.
pub fn extract_column(table: &Vec<Row>, name: &String) -> (r: (Vec<Value>, u64))
    ensures
        r.0@.len() == table@.len(),
        forall|i: int|
            0 <= i < table@.len() ==> #[trigger] r.0@[i] == looked_up(table@[i]@, name@),
        r.1 as int == missing_count(table@, name@),
{
    let n = table.len();
    let mut values: Vec<Value> = Vec::new();
    let mut warnings: u64 = 0;
    let mut i: usize = 0;
    while i < n
        invariant
            i <= n,
            n == table@.len(),
            values@.len() == i,
            forall|j: int|
                0 <= j < i ==> #[trigger] values@[j] == looked_up(table@[j]@, name@),
            warnings as int == missing_count(table@.subrange(0, i as int), name@),
        decreases n - i,
    {
        let ghost pre = table@.subrange(0, i as int);
        let ghost post = table@.subrange(0, i as int + 1);
        proof {
            assert(post.drop_last() =~= pre);
            assert(post.last() == table@[i as int]);
            lemma_missing_count_bounds(pre, name@);
        }
        let row = &table[i];
        match row.get(name) {
            Some(v) => {
                values.push(v.clone());
            },
            None => {
                match row.get_lowered(name) {
                    Some(v) => {
                        values.push(v.clone());
                    },
                    None => {
                        match row.get_uppered(name) {
                            Some(v) => {
                                values.push(v.clone());
                            },
                            None => {
                                values.push(Value::Integer(0));
                                warnings += 1;
                            },
                        }
                    },
                }
            },
        }
        i += 1;
    }
    proof {
        assert(table@.subrange(0, n as int) =~= table@);
    }
    (values, warnings)
}

/// Binds one pointer argument: resolves the reported type name with its
/// trailing `*` removed, projects the column, and fills a fresh typed
/// buffer through the staging block. The buffer is read-write unless the
/// argument is input-only. An unknown element type name and a text value
/// in the column are the two fatal faults.
pub fn bind_column(table: &Vec<Row>, name: &String, cl_type: &str, is_constant: bool) -> (r:
    Result<(TypedBuffer, u64), PipelineError>)
    ensures
        r matches Ok(p) ==> {
            &&& value_type_of_cl_name(trimmed_stars(cl_type@)) matches Some(t) && p.0.et == t
            &&& p.0.read_write == !is_constant
            &&& p.0.wf()
            &&& p.0.data@.len() == table@.len()
            &&& forall|i: int|
                0 <= i < table@.len() ==> Some(#[trigger] p.0.data@[i]) == elem_of_value(
                    looked_up(table@[i]@, name@),
                    p.0.et,
                )
            &&& p.1 as int == missing_count(table@, name@)
        },
        r is Ok <==> (value_type_of_cl_name(trimmed_stars(cl_type@)) is Some && (forall|i: int|
            0 <= i < table@.len() ==> !(looked_up(#[trigger] table@[i]@, name@) matches Value::Text(
                _,
            )))),
        r matches Err(e) ==> match e {
            PipelineError::UnknownBufferType(t) => t@ == trimmed_stars(cl_type@)
                && value_type_of_cl_name(trimmed_stars(cl_type@)) is None,
            PipelineError::Binding(c) => c@ == name@ && (exists|i: int|
                0 <= i < table@.len() && (looked_up(#[trigger] table@[i]@, name@) matches
                    Value::Text(_))),
            _ => false,
        },
{
    let trimmed = trim_stars(cl_type);
    let et = match value_type_from_cl_name(trimmed) {
        Some(t) => t,
        None => {
            return Err(PipelineError::UnknownBufferType(String::from_str(trimmed)));
        },
    };
    let (values, warnings) = extract_column(table, name);
    proof {
        assert forall|i: int|
            0 <= i < table@.len() implies #[trigger] values@[i] == looked_up(
            table@[i]@,
            name@,
        ) by {}
        assert forall|i: int|
            0 <= i < table@.len() implies values@[i] == looked_up(
            #[trigger] table@[i]@,
            name@,
        ) by {}
    }
    match bind_values(&values, et, !is_constant, name) {
        Ok(buf) => Ok((buf, warnings)),
        Err(e) => Err(e),
    }
}

} // verus!
