//! The typed device buffer of the model and the bounded staging block all
//! transfers go through. A buffer holds one element pattern per row; a
//! transfer moves at most `STAGING_BLOCK_LEN` elements at a time, so host
//! residency stays bounded however many rows there are.

use vstd::prelude::*;
use crate::value::{Value, ValueType};
use crate::convert::{elem_in_range, elem_of_value, value_to_elem, PipelineError};
use crate::STAGING_BLOCK_LEN;

verus! {

/// A device buffer of the accelerator model: one element pattern per row,
/// of one element type, marked read-write unless it backs an input-only
/// argument.
#[derive(Debug)]
pub struct TypedBuffer {
    pub et: ValueType,
    pub read_write: bool,
    pub data: Vec<u64>,
}

impl TypedBuffer {
    /// Every element pattern fits the element type's width.
    pub open spec fn wf(&self) -> bool {
        forall|i: int| 0 <= i < self.data@.len() ==> elem_in_range(self.et, #[trigger] self.data@[i])
    }
}

/// One blocking block write: copies `count` elements of the staging block
/// `src` into `dest` starting at `offset`, leaving the rest alone.
pub fn write_block(dest: &mut Vec<u64>, offset: usize, src: &Vec<u64>, count: usize)
    requires
        offset + count <= old(dest)@.len(),
        count <= src@.len(),
    ensures
        final(dest)@.len() == old(dest)@.len(),
        forall|j: int| offset <= j < offset + count ==> final(dest)@[j] == src@[j - offset],
        forall|j: int|
            0 <= j < old(dest)@.len() && !(offset <= j < offset + count) ==> final(dest)@[j] == old(
                dest,
            )@[j],
{
    let dest_len = dest.len();
    let mut j: usize = 0;
    while j < count
        invariant
            j <= count,
            offset + count <= dest_len,
            dest_len == dest@.len(),
            count <= src@.len(),
            dest@.len() == old(dest)@.len(),
            forall|p: int| offset <= p < offset + j ==> dest@[p] == src@[p - offset],
            forall|p: int|
                0 <= p < dest@.len() && !(offset <= p < offset + j) ==> dest@[p] == old(dest)@[p],
        decreases count - j,
    {
        let v = src[j];
        dest[offset + j] = v;
        j += 1;
    }
}

/// One blocking block read: copies `count` elements of `src` starting at
/// `offset` into the front of the staging block `dest`.
pub fn read_block(src: &Vec<u64>, offset: usize, dest: &mut Vec<u64>, count: usize)
    requires
        offset + count <= src@.len(),
        count <= old(dest)@.len(),
    ensures
        final(dest)@.len() == old(dest)@.len(),
        forall|j: int| 0 <= j < count ==> final(dest)@[j] == src@[offset + j],
        forall|j: int| count <= j < old(dest)@.len() ==> final(dest)@[j] == old(dest)@[j],
{
    let src_len = src.len();
    let mut j: usize = 0;
    while j < count
        invariant
            j <= count,
            offset + count <= src_len,
            src_len == src@.len(),
            count <= dest@.len(),
            dest@.len() == old(dest)@.len(),
            forall|p: int| 0 <= p < j ==> dest@[p] == src@[offset + p],
            forall|p: int| j <= p < dest@.len() ==> dest@[p] == old(dest)@[p],
        decreases count - j,
    {
        let v = src[offset + j];
        dest[j] = v;
        j += 1;
    }
}

/// Binds a column of row values to a fresh typed buffer. The values are
/// converted one by one into the bounded staging block; whenever the
/// block fills, or the rows end, its valid prefix is written out and the
/// buffer offset advances. The buffer is marked read-write unless the
/// argument is input-only. A text value is a fatal binding fault.
pub fn bind_values(values: &Vec<Value>, et: ValueType, read_write: bool, column: &String) -> (r:
    Result<TypedBuffer, PipelineError>)
    ensures
        r matches Ok(buf) ==> buf.et == et && buf.read_write == read_write && buf.wf()
            && buf.data@.len() == values@.len() && (forall|i: int|
            0 <= i < values@.len() ==> Some(#[trigger] buf.data@[i]) == elem_of_value(
                values@[i],
                et,
            )),
        r is Ok <==> (forall|i: int|
            0 <= i < values@.len() ==> !(#[trigger] values@[i] matches Value::Text(_))),
        r matches Err(e) ==> e matches PipelineError::Binding(c) && c@ == column@ && (exists|i: int|
            0 <= i < values@.len() && (#[trigger] values@[i] matches Value::Text(_))),
{
    let n = values.len();
    let mut data: Vec<u64> = vec![0u64; n];
    let mut staging: Vec<u64> = vec![0u64; STAGING_BLOCK_LEN];
    let mut stage_fill: usize = 0;
    let mut dev_offset: usize = 0;
    let mut i: usize = 0;
    proof {
        assert(data@.len() == n);
    }
    while i < n
        invariant
            i <= n,
            n == values@.len(),
            data@.len() == n,
            staging@.len() == STAGING_BLOCK_LEN,
            stage_fill < STAGING_BLOCK_LEN,
            i == dev_offset + stage_fill,
            forall|j: int|
                0 <= j < dev_offset ==> Some(#[trigger] data@[j]) == elem_of_value(values@[j], et)
                    && elem_in_range(et, data@[j]),
            forall|j: int|
                0 <= j < stage_fill ==> Some(#[trigger] staging@[j]) == elem_of_value(
                    values@[dev_offset + j],
                    et,
                ) && elem_in_range(et, staging@[j]),
            forall|j: int| 0 <= j < i ==> !(#[trigger] values@[j] matches Value::Text(_)),
        decreases n - i,
    {
        let x = match value_to_elem(&values[i], et, column) {
            Ok(x) => x,
            Err(e) => {
                return Err(e);
            },
        };
        staging[stage_fill] = x;
        stage_fill += 1;
        i += 1;
        if stage_fill == STAGING_BLOCK_LEN {
            write_block(&mut data, dev_offset, &staging, stage_fill);
            dev_offset += stage_fill;
            stage_fill = 0;
        }
    }
    if stage_fill > 0 {
        write_block(&mut data, dev_offset, &staging, stage_fill);
        dev_offset += stage_fill;
        stage_fill = 0;
    }
    let buf = TypedBuffer { et, read_write, data };
    proof {
        assert(buf.wf());
    }
    Ok(buf)
}

} // verus!
