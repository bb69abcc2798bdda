//! Per-entity display colours, computed once from the initial row table
//! and index parallel to it. The colour text itself is read by an outside
//! CSS colour parser; everything around that call is verified.

use vstd::prelude::*;
use crate::table::{Row, lookup};
use crate::value::Value;
use crate::text::{int_dec_rep, format_i64};

verus! {

/// The 8-bit RGBA colour the colour-parsing crate reads out of a piece of
/// CSS colour text, when the text is a valid colour.
pub uninterp spec fn css_rgba8_of(s: Seq<char>) -> Option<(u8, u8, u8, u8)>;

/// Relies on csscolorparser::parse and Color::to_rgba8: the parsed colour
/// depends on the text alone.
#[verifier::external_body]
fn parse_css_color(s: &String) -> (r: Option<(u8, u8, u8, u8)>)
    ensures
        r == css_rgba8_of(s@),
{
    match csscolorparser::parse(s.as_str()) {
        Ok(c) => {
            let rgba = c.to_rgba8();
            Some((rgba[0], rgba[1], rgba[2], rgba[3]))
        },
        Err(_) => None,
    }
}

/// Opaque black: the colour of an entity without a readable colour cell.
pub open spec fn black_rgba8() -> (u8, u8, u8, u8) {
    (0u8, 0u8, 0u8, 255u8)
}

/// The display colour one row yields: the colour attribute's text, or an
/// integer cell's decimal text, put through the CSS parser; black when
/// the cell is absent, is no valid colour, or holds a 64-bit float, whose
/// decimal text the core does not render.
pub open spec fn entity_color(cells: Seq<(String, Value)>, attr: Seq<char>) -> (u8, u8, u8, u8) {
    match lookup(cells, attr) {
        Some(Value::Text(s)) => match css_rgba8_of(s@) {
            Some(c) => c,
            None => black_rgba8(),
        },
        Some(Value::Integer(i)) => match css_rgba8_of(int_dec_rep(i as int)) {
            Some(c) => c,
            None => black_rgba8(),
        },
        _ => black_rgba8(),
    }
}

/// Computes the per-entity static colour array from the initial table:
/// one colour per row, in row order, never revisited during stepping.
pub fn entity_colors(table: &Vec<Row>, color_attr: &String) -> (r: Vec<(u8, u8, u8, u8)>)
    ensures
        r@.len() == table@.len(),
        forall|i: int|
            0 <= i < table@.len() ==> #[trigger] r@[i] == entity_color(table@[i]@, color_attr@),
{
    let n = table.len();
    let mut out: Vec<(u8, u8, u8, u8)> = Vec::new();
    let mut i: usize = 0;
    while i < n
        invariant
            i <= n,
            n == table@.len(),
            out@.len() == i,
            forall|j: int|
                0 <= j < i ==> #[trigger] out@[j] == entity_color(table@[j]@, color_attr@),
        decreases n - i,
    {
        let c = match table[i].get(color_attr) {
            Some(Value::Text(s)) => {
                match parse_css_color(s) {
                    Some(c) => c,
                    None => (0u8, 0u8, 0u8, 255u8),
                }
            },
            Some(Value::Integer(v)) => {
                let text = format_i64(*v);
                match parse_css_color(&text) {
                    Some(c) => c,
                    None => (0u8, 0u8, 0u8, 255u8),
                }
            },
            _ => (0u8, 0u8, 0u8, 255u8),
        };
        out.push(c);
        i += 1;
    }
    out
}

} // verus!
