//! The verified core of the comma-separated output: the union of every
//! column name over the whole table, sorted, and per-row cell selection
//! in that order. Rendering a 64-bit float cell's text is the one step
//! left to the surrounding program.

use vstd::prelude::*;
use vstd::string::StrSliceExecFns;
use crate::table::Row;
use crate::value::Value;
use crate::text::{int_dec_rep, format_i64};

verus! {

/// Lexicographic order on text by character code, a prefix first.
pub open spec fn seq_char_le(a: Seq<char>, b: Seq<char>) -> bool
    decreases a.len(),
{
    if a.len() == 0 {
        true
    } else if b.len() == 0 {
        false
    } else if a[0] != b[0] {
        (a[0] as int) < (b[0] as int)
    } else {
        seq_char_le(a.drop_first(), b.drop_first())
    }
}

proof fn lemma_seq_char_le_total(a: Seq<char>, b: Seq<char>)
    ensures
        seq_char_le(a, b) || seq_char_le(b, a),
    decreases a.len(),
{
    if a.len() == 0 || b.len() == 0 {
    } else if a[0] != b[0] {
    } else {
        lemma_seq_char_le_total(a.drop_first(), b.drop_first());
    }
}

proof fn lemma_seq_char_le_skip(a: Seq<char>, b: Seq<char>, i: int)
    requires
        0 <= i <= a.len(),
        i <= b.len(),
        forall|j: int| 0 <= j < i ==> a[j] == b[j],
    ensures
        seq_char_le(a, b) == seq_char_le(a.skip(i), b.skip(i)),
    decreases i,
{
    if i > 0 {
        assert(a[0] == b[0]);
        assert(forall|j: int| 0 <= j < i - 1 ==> #[trigger] a.drop_first()[j] == a[j + 1]);
        assert(forall|j: int| 0 <= j < i - 1 ==> #[trigger] b.drop_first()[j] == b[j + 1]);
        lemma_seq_char_le_skip(a.drop_first(), b.drop_first(), i - 1);
        assert(a.drop_first().skip(i - 1) =~= a.skip(i));
        assert(b.drop_first().skip(i - 1) =~= b.skip(i));
    } else {
        assert(a.skip(0) =~= a);
        assert(b.skip(0) =~= b);
    }
}

/// Compares two pieces of text lexicographically.
pub fn str_le(a: &str, b: &str) -> (r: bool)
    ensures
        r == seq_char_le(a@, b@),
{
    let n = a.unicode_len();
    let m = b.unicode_len();
    let mut i: usize = 0;
    while i < n && i < m
        invariant
            n == a@.len(),
            m == b@.len(),
            i <= n,
            i <= m,
            forall|j: int| 0 <= j < i ==> a@[j] == b@[j],
        decreases n - i,
    {
        let ca = a.get_char(i);
        let cb = b.get_char(i);
        if ca != cb {
            proof {
                lemma_seq_char_le_skip(a@, b@, i as int);
                assert(a@.skip(i as int)[0] == a@[i as int]);
                assert(b@.skip(i as int)[0] == b@[i as int]);
            }
            return (ca as u32) < (cb as u32);
        }
        i += 1;
    }
    proof {
        lemma_seq_char_le_skip(a@, b@, i as int);
        if i == n {
            assert(a@.skip(i as int).len() == 0);
        } else {
            assert(b@.skip(i as int).len() == 0);
            assert(a@.skip(i as int).len() > 0);
        }
    }
    n <= m
}

/// Does some row of the table hold a column of this name?
pub open spec fn key_in_table(t: Seq<Row>, k: Seq<char>) -> bool {
    exists|i: int, j: int|
        #![auto]
        0 <= i < t.len() && 0 <= j < t[i]@.len() && t[i]@[j].0@ == k
}

/// Does the list hold a name reading as `k`?
pub open spec fn contains_name(s: Seq<String>, k: Seq<char>) -> bool {
    exists|p: int| 0 <= p < s.len() && (#[trigger] s[p])@ == k
}

fn names_contain(names: &Vec<String>, k: &String) -> (r: bool)
    ensures
        r == contains_name(names@, k@),
{
    let n = names.len();
    let mut p: usize = 0;
    while p < n
        invariant
            p <= n,
            n == names@.len(),
            forall|q: int| 0 <= q < p ==> (#[trigger] names@[q])@ != k@,
        decreases n - p,
    {
        if names[p].eq(k) {
            return true;
        }
        p += 1;
    }
    false
}

/// Every column name the table mentions, each once, sorted
/// lexicographically: the header of the comma-separated output.
pub fn sorted_column_union(table: &Vec<Row>) -> (r: Vec<String>)
    ensures
        forall|p: int, q: int| 0 <= p < q < r@.len() ==> seq_char_le(r@[p]@, r@[q]@),
        forall|p: int, q: int| 0 <= p < q < r@.len() ==> r@[p]@ != r@[q]@,
        forall|p: int| 0 <= p < r@.len() ==> key_in_table(table@, (#[trigger] r@[p])@),
        forall|k: Seq<char>| key_in_table(table@, k) ==> contains_name(r@, k),
{
    let nrows = table.len();
    let mut names: Vec<String> = Vec::new();
    let mut i: usize = 0;
    while i < nrows
        invariant
            i <= nrows,
            nrows == table@.len(),
            forall|p: int, q: int| 0 <= p < q < names@.len() ==> names@[p]@ != names@[q]@,
            forall|p: int| 0 <= p < names@.len() ==> key_in_table(table@, (#[trigger] names@[p])@),
            forall|ii: int, jj: int|
                #![auto]
                0 <= ii < i && 0 <= jj < table@[ii]@.len() ==> contains_name(
                    names@,
                    table@[ii]@[jj].0@,
                ),
        decreases nrows - i,
    {
        let row_len = table[i].cells.len();
        let mut j: usize = 0;
        while j < row_len
            invariant
                j <= row_len,
                i < nrows,
                nrows == table@.len(),
                row_len == table@[i as int]@.len(),
                forall|p: int, q: int| 0 <= p < q < names@.len() ==> names@[p]@ != names@[q]@,
                forall|p: int|
                    0 <= p < names@.len() ==> key_in_table(table@, (#[trigger] names@[p])@),
                forall|ii: int, jj: int|
                    #![auto]
                    0 <= ii < i && 0 <= jj < table@[ii]@.len() ==> contains_name(
                        names@,
                        table@[ii]@[jj].0@,
                    ),
                forall|jj: int|
                    #![auto]
                    0 <= jj < j ==> contains_name(names@, table@[i as int]@[jj].0@),
            decreases row_len - j,
        {
            let key = &table[i].cells[j].0;
            if !names_contain(&names, key) {
                let ghost before = names@;
                names.push(key.clone());
                proof {
                    assert(names@[before.len() as int]@ == key@);
                    assert(key_in_table(table@, key@));
                    assert(forall|p: int|
                        0 <= p < before.len() ==> #[trigger] names@[p] == before[p]);
                    assert forall|kk: Seq<char>|
                        contains_name(before, kk) implies contains_name(names@, kk) by {
                        let w = choose|p: int| 0 <= p < before.len() && (#[trigger] before[p])@
                            == kk;
                        assert(names@[w]@ == kk);
                    }
                }
            }
            j += 1;
        }
        i += 1;
    }

    // selection sort on the collected names
    let mut rest = names;
    let mut out: Vec<String> = Vec::new();
    while rest.len() > 0
        invariant
            forall|p: int, q: int| 0 <= p < q < out@.len() ==> seq_char_le(out@[p]@, out@[q]@),
            forall|p: int, q: int|
                0 <= p < out@.len() && 0 <= q < rest@.len() ==> seq_char_le(out@[p]@, rest@[q]@),
            forall|p: int, q: int| 0 <= p < q < out@.len() ==> out@[p]@ != out@[q]@,
            forall|p: int, q: int| 0 <= p < q < rest@.len() ==> rest@[p]@ != rest@[q]@,
            forall|p: int, q: int|
                0 <= p < out@.len() && 0 <= q < rest@.len() ==> out@[p]@ != rest@[q]@,
            forall|p: int| 0 <= p < out@.len() ==> key_in_table(table@, (#[trigger] out@[p])@),
            forall|p: int| 0 <= p < rest@.len() ==> key_in_table(table@, (#[trigger] rest@[p])@),
            forall|k: Seq<char>|
                key_in_table(table@, k) ==> contains_name(out@, k) || contains_name(rest@, k),
        decreases rest@.len(),
    {
        let n = rest.len();
        let mut min_i: usize = 0;
        proof {
            lemma_seq_char_le_total(rest@[0]@, rest@[0]@);
        }
        let mut p: usize = 1;
        while p < n
            invariant
                1 <= p <= n,
                n == rest@.len(),
                min_i < p,
                forall|q: int| 0 <= q < p ==> seq_char_le(rest@[min_i as int]@, (#[trigger] rest@[q])@),
            decreases n - p,
        {
            if str_le(rest[p].as_str(), rest[min_i].as_str()) {
                proof {
                    lemma_seq_char_le_total(rest@[p as int]@, rest@[min_i as int]@);
                    assert forall|q: int|
                        0 <= q < p + 1 implies seq_char_le(
                        rest@[p as int]@,
                        (#[trigger] rest@[q])@,
                    ) by {
                        if q == p {
                            lemma_seq_char_le_total(rest@[p as int]@, rest@[p as int]@);
                        } else {
                            lemma_seq_char_le_trans(
                                rest@[p as int]@,
                                rest@[min_i as int]@,
                                rest@[q]@,
                            );
                        }
                    }
                }
                min_i = p;
            } else {
                proof {
                    lemma_seq_char_le_total(rest@[p as int]@, rest@[min_i as int]@);
                }
            }
            p += 1;
        }
        let ghost rest0 = rest@;
        let ghost out0 = out@;
        let chosen = rest.swap_remove(min_i);
        out.push(chosen);
        proof {
            assert(rest@ =~= rest0.update(min_i as int, rest0.last()).drop_last());
            assert forall|q: int| 0 <= q < rest@.len() implies key_in_table(
                table@,
                (#[trigger] rest@[q])@,
            ) && seq_char_le(chosen@, rest@[q]@) by {
                if q == min_i && min_i < rest0.len() - 1 {
                    assert(rest@[q] == rest0.last());
                } else {
                    assert(rest@[q] == rest0[q]);
                }
            }
            assert forall|k: Seq<char>|
                key_in_table(table@, k) implies contains_name(out@, k) || contains_name(
                rest@,
                k,
            ) by {
                if contains_name(out0, k) {
                    let w = choose|pp: int| 0 <= pp < out0.len() && (#[trigger] out0[pp])@ == k;
                    assert(out@[w]@ == k);
                } else {
                    let w = choose|pp: int| 0 <= pp < rest0.len() && (#[trigger] rest0[pp])@ == k;
                    if w == min_i {
                        assert(out@[out0.len() as int]@ == k);
                    } else if w == rest0.len() - 1 {
                        if min_i < rest0.len() - 1 {
                            assert(rest@[min_i as int]@ == k);
                        } else {
                            assert(out@[out0.len() as int]@ == k);
                        }
                    } else {
                        assert(rest@[w]@ == k);
                    }
                }
            }
            assert forall|pp: int, q: int|
                0 <= pp < out@.len() && 0 <= q < rest@.len() implies out@[pp]@ != rest@[q]@ by {
                if q == min_i && min_i < rest0.len() - 1 {
                    assert(rest@[q] == rest0.last());
                } else {
                    assert(rest@[q] == rest0[q]);
                }
            }
        }
    }
    out
}

proof fn lemma_seq_char_le_trans(a: Seq<char>, b: Seq<char>, c: Seq<char>)
    requires
        seq_char_le(a, b),
        seq_char_le(b, c),
    ensures
        seq_char_le(a, c),
    decreases a.len(),
{
    if a.len() == 0 {
    } else if b.len() == 0 {
    } else if c.len() == 0 {
    } else {
        if a[0] == b[0] && b[0] == c[0] {
            lemma_seq_char_le_trans(a.drop_first(), b.drop_first(), c.drop_first());
        }
    }
}

/// The text one cell contributes to the output: an integer in decimal,
/// text as it stands. A 64-bit float cell has no text here: the
/// surrounding program renders the number.
pub fn csv_cell_text(v: &Value) -> (r: Option<String>)
    ensures
        match *v {
            Value::Integer(i) => r matches Some(s) && s@ == int_dec_rep(i as int),
            Value::Text(_) => (*v matches Value::Text(t) && r matches Some(s) && s@ == t@),
            Value::Double(_) => r is None,
        },
{
    match v {
        Value::Integer(i) => Some(format_i64(*i)),
        Value::Text(s) => Some(s.clone()),
        Value::Double(_) => None,
    }
}

/// The row's cells under the given header, in header order: the value of
/// each named column, or nothing where the row lacks it.
pub fn row_cells(row: &Row, header: &Vec<String>) -> (r: Vec<Option<Value>>)
    ensures
        r@.len() == header@.len(),
        forall|p: int|
            0 <= p < header@.len() ==> #[trigger] r@[p] == row.spec_get((header@[p])@),
{
    let n = header.len();
    let mut out: Vec<Option<Value>> = Vec::new();
    let mut p: usize = 0;
    while p < n
        invariant
            p <= n,
            n == header@.len(),
            out@.len() == p,
            forall|q: int| 0 <= q < p ==> #[trigger] out@[q] == row.spec_get((header@[q])@),
        decreases n - p,
    {
        match row.get(&header[p]) {
            Some(v) => out.push(Some(v.clone())),
            None => out.push(None),
        }
        p += 1;
    }
    out
}

} // verus!
