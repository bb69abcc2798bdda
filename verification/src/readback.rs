//! The readback marshaller: walks every read-write registry buffer in
//! blocks of the bounded staging size and writes each element back into
//! the row named after the buffer's column. Row count never changes; a
//! column no read-write buffer is named after is never touched.

use vstd::prelude::*;
use crate::table::Row;
use crate::buffer::{TypedBuffer, read_block};
use crate::convert::{value_of_elem, elem_to_value, PipelineError};
use crate::registry::{NamedBuffer, SharedBufferRegistry};
use crate::{STAGING_BLOCK_LEN, staging_chunk_len};

verus! {

/// Is some read-write entry named after the column `key`?
pub open spec fn rw_names_contain(entries: Seq<NamedBuffer>, key: Seq<char>) -> bool {
    exists|e: int|
        0 <= e < entries.len() && (#[trigger] entries[e]).buffer.read_write && entries[e].name@
            == key
}

/// Is entry `e` the only read-write entry of its name?
pub open spec fn rw_unique_name(entries: Seq<NamedBuffer>, e: int) -> bool {
    forall|e2: int|
        0 <= e2 < entries.len() && e2 != e && (#[trigger] entries[e2]).buffer.read_write
            ==> entries[e2].name@ != entries[e].name@
}

/// The first `upto` read-write entries that are alone under their name
/// have their column updated from their buffer, row by row.
pub open spec fn rw_columns_updated(table: Seq<Row>, entries: Seq<NamedBuffer>, upto: int) -> bool {
    forall|e: int, i: int|
        #![auto]
        0 <= e < upto && 0 <= i < table.len() && entries[e].buffer.read_write && rw_unique_name(
            entries,
            e,
        ) ==> table[i].spec_get(entries[e].name@) == value_of_elem(
            entries[e].buffer.data@[i],
            entries[e].buffer.et,
        )
}

/// Marshals one buffer back into the table: block by block through the
/// staging array, each element written into its row under `name`.
pub fn readback_buffer(table: &mut Vec<Row>, name: &String, buffer: &TypedBuffer) -> (r: Result<
    (),
    PipelineError,
>)
    requires
        buffer.wf(),
        buffer.data@.len() == old(table)@.len(),
    ensures
        final(table)@.len() == old(table)@.len(),
        forall|i: int, key: Seq<char>|
            0 <= i < old(table)@.len() && key != name@
                ==> (#[trigger] final(table)@[i].spec_get(key)) == old(table)@[i].spec_get(key),
        r is Ok ==> forall|i: int|
            0 <= i < old(table)@.len() ==> (#[trigger] final(table)@[i].spec_get(name@))
                == value_of_elem(buffer.data@[i], buffer.et),
        r is Ok <==> (forall|i: int|
            0 <= i < old(table)@.len() ==> value_of_elem(
                #[trigger] buffer.data@[i],
                buffer.et,
            ) is Some),
        r matches Err(e) ==> e matches PipelineError::Overflow(c) && c@ == name@,
{
    let n = table.len();
    let mut staging: Vec<u64> = vec![0u64; STAGING_BLOCK_LEN];
    let mut offset: usize = 0;
    while offset < n
        invariant
            offset <= n,
            n == table@.len(),
            n == old(table)@.len(),
            n == buffer.data@.len(),
            buffer.wf(),
            staging@.len() == STAGING_BLOCK_LEN,
            forall|i: int|
                0 <= i < offset ==> (#[trigger] table@[i].spec_get(name@)) == value_of_elem(
                    buffer.data@[i],
                    buffer.et,
                ),
            forall|i: int|
                0 <= i < offset ==> value_of_elem(#[trigger] buffer.data@[i], buffer.et) is Some,
            forall|i: int, key: Seq<char>|
                0 <= i < n && key != name@ ==> (#[trigger] table@[i].spec_get(key)) == old(
                    table,
                )@[i].spec_get(key),
        decreases n - offset,
    {
        let chunk = staging_chunk_len(n, offset);
        read_block(&buffer.data, offset, &mut staging, chunk);
        let mut j: usize = 0;
        while j < chunk
            invariant
                j <= chunk,
                offset + chunk <= n,
                n == table@.len(),
                n == old(table)@.len(),
                n == buffer.data@.len(),
                buffer.wf(),
                staging@.len() == STAGING_BLOCK_LEN,
                chunk <= STAGING_BLOCK_LEN,
                forall|p: int| 0 <= p < chunk ==> staging@[p] == buffer.data@[offset + p],
                forall|i: int|
                    0 <= i < offset + j ==> (#[trigger] table@[i].spec_get(name@))
                        == value_of_elem(buffer.data@[i], buffer.et),
                forall|i: int|
                    0 <= i < offset + j ==> value_of_elem(
                        #[trigger] buffer.data@[i],
                        buffer.et,
                    ) is Some,
                forall|i: int, key: Seq<char>|
                    0 <= i < n && key != name@ ==> (#[trigger] table@[i].spec_get(key)) == old(
                        table,
                    )@[i].spec_get(key),
            decreases chunk - j,
        {
            let x = staging[j];
            let v = match elem_to_value(x, buffer.et) {
                Some(v) => v,
                None => {
                    return Err(PipelineError::Overflow(name.clone()));
                },
            };
            table[offset + j].set(name, v);
            j += 1;
        }
        offset += chunk;
    }
    Ok(())
}

/// Marshals every read-write registry buffer back into the table. Row
/// count is unchanged; a column no read-write entry is named after keeps
/// every value; a column owned by a single read-write entry ends up equal
/// to that entry's buffer, element by element.
pub fn readback_registry(reg: &SharedBufferRegistry, table: &mut Vec<Row>) -> (r: Result<
    (),
    PipelineError,
>)
    requires
        reg.buffers_wf(old(table)@.len() as int),
    ensures
        final(table)@.len() == old(table)@.len(),
        forall|i: int, key: Seq<char>|
            0 <= i < old(table)@.len() && !rw_names_contain(reg.entries@, key)
                ==> (#[trigger] final(table)@[i].spec_get(key)) == old(table)@[i].spec_get(key),
        r is Ok ==> rw_columns_updated(final(table)@, reg.entries@, reg.entries@.len() as int),
        r is Ok <==> (forall|e: int, i: int|
            #![auto]
            0 <= e < reg.entries@.len() && 0 <= i < old(table)@.len()
                && reg.entries@[e].buffer.read_write ==> value_of_elem(
                reg.entries@[e].buffer.data@[i],
                reg.entries@[e].buffer.et,
            ) is Some),
        r matches Err(err) ==> err matches PipelineError::Overflow(c) && (exists|e: int, i: int|
            #![auto]
            0 <= e < reg.entries@.len() && 0 <= i < old(table)@.len()
                && reg.entries@[e].buffer.read_write && c@ == reg.entries@[e].name@
                && value_of_elem(
                reg.entries@[e].buffer.data@[i],
                reg.entries@[e].buffer.et,
            ) is None),
{
    let ne = reg.entries.len();
    let n = table.len();
    let mut e: usize = 0;
    while e < ne
        invariant
            e <= ne,
            ne == reg.entries@.len(),
            n == old(table)@.len(),
            table@.len() == n,
            reg.buffers_wf(n as int),
            forall|i: int, key: Seq<char>|
                0 <= i < n && !rw_names_contain(reg.entries@, key) ==> (#[trigger] table@[i].spec_get(
                    key,
                )) == old(table)@[i].spec_get(key),
            rw_columns_updated(table@, reg.entries@, e as int),
            forall|ee: int, i: int|
                #![auto]
                0 <= ee < e && 0 <= i < n && reg.entries@[ee].buffer.read_write ==> value_of_elem(
                    reg.entries@[ee].buffer.data@[i],
                    reg.entries@[ee].buffer.et,
                ) is Some,
        decreases ne - e,
    {
        let entry = &reg.entries[e];
        if entry.buffer.read_write {
            let ghost before = table@;
            match readback_buffer(table, &entry.name, &entry.buffer) {
                Ok(_) => {},
                Err(err) => {
                    return Err(err);
                },
            }
            proof {
                assert(rw_names_contain(reg.entries@, reg.entries@[e as int].name@));
                assert forall|ee: int, i: int|
                    #![auto]
                    0 <= ee < e + 1 && 0 <= i < n && reg.entries@[ee].buffer.read_write
                        && rw_unique_name(reg.entries@, ee) implies table@[i].spec_get(
                    reg.entries@[ee].name@,
                ) == value_of_elem(
                    reg.entries@[ee].buffer.data@[i],
                    reg.entries@[ee].buffer.et,
                ) by {
                    if ee < e {
                        assert(reg.entries@[ee].name@ != reg.entries@[e as int].name@);
                        assert(before[i].spec_get(reg.entries@[ee].name@) == value_of_elem(
                            reg.entries@[ee].buffer.data@[i],
                            reg.entries@[ee].buffer.et,
                        ));
                    }
                }
            }
        }
        e += 1;
    }
    Ok(())
}

} // verus!
