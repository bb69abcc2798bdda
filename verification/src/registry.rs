//! Kernel descriptors, the constant resolver, and the shared-buffer
//! registry: one deduplicated pool of typed buffers keyed by column name
//! and element type, with a per-kernel binding list in argument order.

use vstd::prelude::*;
use crate::value::{Value, ValueType, value_type_of_cl_name};
use crate::text::trimmed_stars;
use crate::table::{Row, lookup, lemma_lookup_skip};
use crate::convert::{
    elem_of_value,
    effective_scalar_type,
    scalar_from_value,
    ScalarArg,
    PipelineError,
};
use crate::buffer::TypedBuffer;
use crate::binder::{looked_up, missing_count, bind_column};
use crate::text::trim_stars;

verus! {

/// One formal parameter of a compiled kernel, as its introspection
/// reports it: name, device type name (a pointer type keeps its `*`),
/// whether it is a bulk device buffer, and whether it is input-only.
pub struct KernelArgDescriptor {
    pub name: String,
    pub cl_type: String,
    pub is_pointer: bool,
    pub is_constant: bool,
}

impl Clone for KernelArgDescriptor {
    fn clone(&self) -> (res: Self)
        ensures
            res.name@ == self.name@,
            res.cl_type@ == self.cl_type@,
            res.is_pointer == self.is_pointer,
            res.is_constant == self.is_constant,
    {
        KernelArgDescriptor {
            name: self.name.clone(),
            cl_type: self.cl_type.clone(),
            is_pointer: self.is_pointer,
            is_constant: self.is_constant,
        }
    }
}

/// One scalar constant a kernel document declares: name, declared element
/// type, and value.
pub struct DataConstantValue {
    pub name: String,
    pub v_type: ValueType,
    pub value: Value,
}

/// A compiled kernel's metadata: its name, its arguments in declaration
/// order, and its local scalar constants.
pub struct KernelDescriptor {
    pub name: String,
    pub args: Vec<KernelArgDescriptor>,
    pub data_constants: Vec<DataConstantValue>,
}

/// A buffer of the registry together with the column name it is bound to.
#[derive(Debug)]
pub struct NamedBuffer {
    pub name: String,
    pub buffer: TypedBuffer,
}

/// What one argument position of a kernel is bound to: a registry index
/// for a pointer argument, an inline scalar for a constant argument.
#[derive(Debug)]
pub enum ArgBinding {
    Buffer(usize),
    Scalar(ScalarArg),
}

/// The deduplicated pool of typed buffers and the per-kernel binding
/// lists into it.
#[derive(Debug)]
pub struct SharedBufferRegistry {
    pub entries: Vec<NamedBuffer>,
    pub bindings: Vec<Vec<ArgBinding>>,
}

/// The value the CLI overrides give the named constant: the last
/// `name=value` pair wins.
pub open spec fn lookup_last(cli: Seq<(String, Value)>, name: Seq<char>) -> Option<Value>
    decreases cli.len(),
{
    if cli.len() == 0 {
        None
    } else if cli.last().0@ == name {
        Some(cli.last().1)
    } else {
        lookup_last(cli.drop_last(), name)
    }
}

/// The value the kernel-local constants give: the first declaration of
/// the name wins.
pub open spec fn lookup_kernel_constant(kc: Seq<DataConstantValue>, name: Seq<char>) -> Option<
    Value,
>
    decreases kc.len(),
{
    if kc.len() == 0 {
        None
    } else if kc[0].name@ == name {
        Some(kc[0].value)
    } else {
        lookup_kernel_constant(kc.drop_first(), name)
    }
}

/// The precedence chain of the constant resolver, highest first: the
/// command-line overrides, then the control document's scalar table, then
/// the kernel-local constants.
pub open spec fn resolved_constant(
    cli: Seq<(String, Value)>,
    sc: Seq<(String, Value)>,
    kc: Seq<DataConstantValue>,
    name: Seq<char>,
) -> Option<Value> {
    match lookup_last(cli, name) {
        Some(v) => Some(v),
        None => match lookup(sc, name) {
            Some(v) => Some(v),
            None => lookup_kernel_constant(kc, name),
        },
    }
}

proof fn lemma_lookup_kc_skip(kc: Seq<DataConstantValue>, name: Seq<char>, i: int)
    requires
        0 <= i <= kc.len(),
        forall|j: int| 0 <= j < i ==> #[trigger] kc[j].name@ != name,
    ensures
        lookup_kernel_constant(kc, name) == lookup_kernel_constant(kc.skip(i), name),
    decreases i,
{
    if i > 0 {
        assert(forall|j: int|
            0 <= j < i - 1 ==> #[trigger] kc.drop_first()[j].name@ == kc[j + 1].name@);
        lemma_lookup_kc_skip(kc.drop_first(), name, i - 1);
        assert(kc.drop_first().skip(i - 1) =~= kc.skip(i));
    } else {
        assert(kc.skip(0) =~= kc);
    }
}

/// Resolves a scalar argument's value through the precedence chain.
pub fn resolve_constant(
    cli: &Vec<(String, Value)>,
    sc: &Vec<(String, Value)>,
    kc: &Vec<DataConstantValue>,
    name: &String,
) -> (r: Option<Value>)
    ensures
        r == resolved_constant(cli@, sc@, kc@, name@),
{
    let mut found: Option<Value> = None;
    let n_cli = cli.len();
    let mut i: usize = 0;
    while i < n_cli
        invariant
            i <= n_cli,
            n_cli == cli@.len(),
            found == lookup_last(cli@.subrange(0, i as int), name@),
        decreases n_cli - i,
    {
        let ghost pre = cli@.subrange(0, i as int);
        let ghost post = cli@.subrange(0, i as int + 1);
        proof {
            assert(post.drop_last() =~= pre);
            assert(post.last() == cli@[i as int]);
        }
        if cli[i].0.eq(name) {
            found = Some(cli[i].1.clone());
        }
        i += 1;
    }
    proof {
        assert(cli@.subrange(0, n_cli as int) =~= cli@);
    }
    if let Some(v) = found {
        return Some(v);
    }
    let n_sc = sc.len();
    let mut j: usize = 0;
    while j < n_sc
        invariant
            j <= n_sc,
            n_sc == sc@.len(),
            lookup_last(cli@, name@) is None,
            forall|p: int| 0 <= p < j ==> #[trigger] sc@[p].0@ != name@,
        decreases n_sc - j,
    {
        if sc[j].0.eq(name) {
            proof {
                lemma_lookup_skip(sc@, name@, j as int);
                assert(sc@.skip(j as int)[0] == sc@[j as int]);
            }
            return Some(sc[j].1.clone());
        }
        j += 1;
    }
    proof {
        lemma_lookup_skip(sc@, name@, n_sc as int);
        assert(sc@.skip(n_sc as int) =~= Seq::<(String, Value)>::empty());
    }
    let n_kc = kc.len();
    let mut p: usize = 0;
    while p < n_kc
        invariant
            p <= n_kc,
            n_kc == kc@.len(),
            lookup_last(cli@, name@) is None,
            lookup(sc@, name@) is None,
            forall|q: int| 0 <= q < p ==> #[trigger] kc@[q].name@ != name@,
        decreases n_kc - p,
    {
        if kc[p].name.eq(name) {
            proof {
                lemma_lookup_kc_skip(kc@, name@, p as int);
                assert(kc@.skip(p as int)[0] == kc@[p as int]);
            }
            return Some(kc[p].value.clone());
        }
        p += 1;
    }
    proof {
        lemma_lookup_kc_skip(kc@, name@, n_kc as int);
        assert(kc@.skip(n_kc as int) =~= Seq::<DataConstantValue>::empty());
    }
    None
}

/// Resolves one constant argument to a scalar of the argument's element
/// type. An unresolved name and a text value are the two fatal faults.
pub fn resolve_scalar_arg(
    cli: &Vec<(String, Value)>,
    sc: &Vec<(String, Value)>,
    kc: &Vec<DataConstantValue>,
    name: &String,
    cl_type: &str,
) -> (r: Result<ScalarArg, PipelineError>)
    ensures
        r matches Ok(s) ==> resolved_constant(cli@, sc@, kc@, name@) matches Some(v) && s.et
            == effective_scalar_type(value_type_of_cl_name(trimmed_stars(cl_type@)), v) && Some(
            s.bits,
        ) == elem_of_value(v, s.et),
        r is Ok <==> (resolved_constant(cli@, sc@, kc@, name@) matches Some(v) && !(v matches
            Value::Text(_))),
        r matches Err(e) ==> match e {
            PipelineError::MissingConstant(n) => n@ == name@ && resolved_constant(
                cli@,
                sc@,
                kc@,
                name@,
            ) is None,
            PipelineError::Binding(n) => n@ == name@ && (resolved_constant(
                cli@,
                sc@,
                kc@,
                name@,
            ) matches Some(v) && v matches Value::Text(_)),
            _ => false,
        },
{
    let v = match resolve_constant(cli, sc, kc, name) {
        Some(v) => v,
        None => {
            return Err(PipelineError::MissingConstant(name.clone()));
        },
    };
    let trimmed = trim_stars(cl_type);
    scalar_from_value(&v, trimmed, name)
}

/// Shape of one binding: a pointer argument carries a registry index of
/// matching column name and element type; a constant argument carries an
/// inline scalar.
pub open spec fn binding_shape_ok(
    entries: Seq<NamedBuffer>,
    kernels: Seq<KernelDescriptor>,
    k: int,
    a: int,
    b: ArgBinding,
) -> bool {
    let arg = kernels[k].args@[a];
    match b {
        ArgBinding::Buffer(idx) => arg.is_pointer && idx < entries.len() && entries[
            idx as int
        ].name@ == arg.name@ && Some(entries[idx as int].buffer.et) == value_type_of_cl_name(
            trimmed_stars(arg.cl_type@),
        ),
        ArgBinding::Scalar(_) => !arg.is_pointer,
    }
}

/// The scalar bound at a constant position is exactly the resolved value
/// converted to the argument's element type.
pub open spec fn scalar_binding_exact(
    kernels: Seq<KernelDescriptor>,
    cli: Seq<(String, Value)>,
    sc: Seq<(String, Value)>,
    k: int,
    a: int,
    b: ArgBinding,
) -> bool {
    match b {
        ArgBinding::Scalar(s) => {
            let arg = kernels[k].args@[a];
            resolved_constant(cli, sc, kernels[k].data_constants@, arg.name@) matches Some(v)
                && s.et == effective_scalar_type(
                value_type_of_cl_name(trimmed_stars(arg.cl_type@)),
                v,
            ) && Some(s.bits) == elem_of_value(v, s.et)
        },
        _ => true,
    }
}

/// The buffer of a registry entry holds exactly the column it is named
/// after, converted element by element.
pub open spec fn entry_content_exact(table: Seq<Row>, e: NamedBuffer) -> bool {
    forall|i: int|
        0 <= i < table.len() ==> Some(#[trigger] e.buffer.data@[i]) == elem_of_value(
            looked_up(table[i]@, e.name@),
            e.buffer.et,
        )
}

/// A fault that stops the registry build at one argument position: an
/// unknown element type or a text value in the column for a pointer
/// argument; an unresolved name or a text value for a constant argument.
pub open spec fn arg_fault(
    table: Seq<Row>,
    kernels: Seq<KernelDescriptor>,
    cli: Seq<(String, Value)>,
    sc: Seq<(String, Value)>,
    k: int,
    a: int,
) -> bool {
    let arg = kernels[k].args@[a];
    if arg.is_pointer {
        value_type_of_cl_name(trimmed_stars(arg.cl_type@)) is None || (exists|i: int|
            0 <= i < table.len() && (looked_up((#[trigger] table[i])@, arg.name@) matches
                Value::Text(_)))
    } else {
        match resolved_constant(cli, sc, kernels[k].data_constants@, arg.name@) {
            Some(v) => v matches Value::Text(_),
            None => true,
        }
    }
}

/// Does some pointer argument name a column some row lacks?
pub open spec fn any_missing(table: Seq<Row>, kernels: Seq<KernelDescriptor>) -> bool {
    exists|k: int, a: int|
        #![auto]
        0 <= k < kernels.len() && 0 <= a < kernels[k].args@.len() && kernels[k].args@[a].is_pointer
            && missing_count(table, kernels[k].args@[a].name@) != 0
}

/// Every registry entry was created for some pointer argument of matching
/// name and element type, and is read-write exactly when that argument is
/// not input-only.
pub open spec fn rw_provenance(entries: Seq<NamedBuffer>, kernels: Seq<KernelDescriptor>) -> bool {
    forall|e: int|
        0 <= e < entries.len() ==> (exists|kk: int, aa: int|
            #![auto]
            0 <= kk < kernels.len() && 0 <= aa < kernels[kk].args@.len()
                && kernels[kk].args@[aa].is_pointer && (#[trigger] entries[e]).name@
                == kernels[kk].args@[aa].name@ && Some(entries[e].buffer.et)
                == value_type_of_cl_name(trimmed_stars(kernels[kk].args@[aa].cl_type@))
                && entries[e].buffer.read_write == !kernels[kk].args@[aa].is_constant)
}

impl SharedBufferRegistry {
    /// No two registry entries share a column name and an element type.
    pub open spec fn entries_unique(&self) -> bool {
        forall|i: int, j: int|
            0 <= i < j < self.entries@.len() ==> !((#[trigger] self.entries@[i]).name@ == (
            #[trigger] self.entries@[j]).name@ && self.entries@[i].buffer.et
                == self.entries@[j].buffer.et)
    }

    /// Every buffer holds one well-formed element per row.
    pub open spec fn buffers_wf(&self, rows: int) -> bool {
        forall|e: int|
            0 <= e < self.entries@.len() ==> (#[trigger] self.entries@[e]).buffer.wf()
                && self.entries@[e].buffer.data@.len() == rows
    }

    /// One binding list per kernel, one binding per argument in
    /// declaration order, each well shaped.
    pub open spec fn bindings_wf(&self, kernels: Seq<KernelDescriptor>) -> bool {
        &&& self.bindings@.len() == kernels.len()
        &&& forall|k: int|
            0 <= k < kernels.len() ==> (#[trigger] self.bindings@[k])@.len()
                == kernels[k].args@.len()
        &&& forall|k: int, a: int|
            0 <= k < kernels.len() && 0 <= a < kernels[k].args@.len() ==> binding_shape_ok(
                self.entries@,
                kernels,
                k,
                a,
                #[trigger] self.bindings@[k]@[a],
            )
    }
}

/// Finds the registry entry of the given column name and element type.
fn find_entry(entries: &Vec<NamedBuffer>, name: &String, et: ValueType) -> (r: Option<usize>)
    ensures
        r matches Some(idx) ==> idx < entries@.len() && entries@[idx as int].name@ == name@
            && entries@[idx as int].buffer.et == et,
        r is None ==> forall|e: int|
            0 <= e < entries@.len() ==> !((#[trigger] entries@[e]).name@ == name@
                && entries@[e].buffer.et == et),
{
    let n = entries.len();
    let mut e: usize = 0;
    while e < n
        invariant
            e <= n,
            n == entries@.len(),
            forall|p: int|
                0 <= p < e ==> !((#[trigger] entries@[p]).name@ == name@ && entries@[p].buffer.et
                    == et),
        decreases n - e,
    {
        if entries[e].name.eq(name) && entries[e].buffer.et == et {
            return Some(e);
        }
        e += 1;
    }
    None
}

fn sat_add_u64(a: u64, b: u64) -> (r: u64)
    ensures
        (r == 0) <==> (a == 0 && b == 0),
{
    if a > u64::MAX - b {
        u64::MAX
    } else {
        a + b
    }
}

/// Builds the shared-buffer registry once, before stepping: kernels in
/// declaration order, arguments in declaration order. Each pointer
/// argument binds its column to a typed buffer; a buffer whose column
/// name and element type are already registered is discarded in favour of
/// the registered one, so kernels that share a column share bytes. Each
/// constant argument resolves through the precedence chain to an inline
/// scalar. The second result counts the rows that lacked a named column.
pub fn build_registry(
    table: &Vec<Row>,
    kernels: &Vec<KernelDescriptor>,
    cli: &Vec<(String, Value)>,
    sc: &Vec<(String, Value)>,
) -> (r: Result<(SharedBufferRegistry, u64), PipelineError>)
    ensures
        r matches Ok(p) ==> {
            &&& p.0.entries_unique()
            &&& p.0.buffers_wf(table@.len() as int)
            &&& p.0.bindings_wf(kernels@)
            &&& rw_provenance(p.0.entries@, kernels@)
            &&& forall|e: int|
                0 <= e < p.0.entries@.len() ==> entry_content_exact(
                    table@,
                    #[trigger] p.0.entries@[e],
                )
            &&& forall|k: int, a: int|
                0 <= k < kernels@.len() && 0 <= a < kernels@[k].args@.len()
                    ==> scalar_binding_exact(
                    kernels@,
                    cli@,
                    sc@,
                    k,
                    a,
                    #[trigger] p.0.bindings@[k]@[a],
                )
            &&& ((p.1 == 0) <==> !any_missing(table@, kernels@))
        },
        r is Ok <==> (forall|k: int, a: int|
            #![auto]
            0 <= k < kernels@.len() && 0 <= a < kernels@[k].args@.len() ==> !arg_fault(
                table@,
                kernels@,
                cli@,
                sc@,
                k,
                a,
            )),
        r matches Err(e) ==> (exists|k: int, a: int|
            #![auto]
            0 <= k < kernels@.len() && 0 <= a < kernels@[k].args@.len() && arg_fault(
                table@,
                kernels@,
                cli@,
                sc@,
                k,
                a,
            )),
{
    let rows = table.len();
    let nk = kernels.len();
    let mut entries: Vec<NamedBuffer> = Vec::new();
    let mut bindings: Vec<Vec<ArgBinding>> = Vec::new();
    let mut warnings: u64 = 0;
    let mut k: usize = 0;
    while k < nk
        invariant
            k <= nk,
            nk == kernels@.len(),
            rows == table@.len(),
            bindings@.len() == k,
            forall|kk: int|
                0 <= kk < k ==> (#[trigger] bindings@[kk])@.len() == kernels@[kk].args@.len(),
            forall|kk: int, aa: int|
                0 <= kk < k && 0 <= aa < kernels@[kk].args@.len() ==> binding_shape_ok(
                    entries@,
                    kernels@,
                    kk,
                    aa,
                    #[trigger] bindings@[kk]@[aa],
                ) && scalar_binding_exact(kernels@, cli@, sc@, kk, aa, bindings@[kk]@[aa]),
            forall|i: int, j: int|
                0 <= i < j < entries@.len() ==> !((#[trigger] entries@[i]).name@ == (
                #[trigger] entries@[j]).name@ && entries@[i].buffer.et == entries@[j].buffer.et),
            forall|e: int|
                0 <= e < entries@.len() ==> (#[trigger] entries@[e]).buffer.wf()
                    && entries@[e].buffer.data@.len() == rows && entry_content_exact(
                    table@,
                    entries@[e],
                ),
            rw_provenance(entries@, kernels@),
            forall|kk: int, aa: int|
                #![auto]
                0 <= kk < k && 0 <= aa < kernels@[kk].args@.len() ==> !arg_fault(
                    table@,
                    kernels@,
                    cli@,
                    sc@,
                    kk,
                    aa,
                ),
            warnings == 0 ==> (forall|kk: int, aa: int|
                #![auto]
                0 <= kk < k && 0 <= aa < kernels@[kk].args@.len()
                    && kernels@[kk].args@[aa].is_pointer ==> missing_count(
                    table@,
                    kernels@[kk].args@[aa].name@,
                ) == 0),
            warnings != 0 ==> any_missing(table@, kernels@),
        decreases nk - k,
    {
        let na = kernels[k].args.len();
        let mut binds: Vec<ArgBinding> = Vec::new();
        let mut a: usize = 0;
        while a < na
            invariant
                a <= na,
                k < nk,
                nk == kernels@.len(),
                na == kernels@[k as int].args@.len(),
                rows == table@.len(),
                binds@.len() == a,
                bindings@.len() == k,
                forall|kk: int|
                    0 <= kk < k ==> (#[trigger] bindings@[kk])@.len() == kernels@[kk].args@.len(),
                forall|kk: int, aa: int|
                    0 <= kk < k && 0 <= aa < kernels@[kk].args@.len() ==> binding_shape_ok(
                        entries@,
                        kernels@,
                        kk,
                        aa,
                        #[trigger] bindings@[kk]@[aa],
                    ) && scalar_binding_exact(kernels@, cli@, sc@, kk, aa, bindings@[kk]@[aa]),
                forall|aa: int|
                    0 <= aa < a ==> binding_shape_ok(
                        entries@,
                        kernels@,
                        k as int,
                        aa,
                        #[trigger] binds@[aa],
                    ) && scalar_binding_exact(kernels@, cli@, sc@, k as int, aa, binds@[aa]),
                forall|i: int, j: int|
                    0 <= i < j < entries@.len() ==> !((#[trigger] entries@[i]).name@ == (
                    #[trigger] entries@[j]).name@ && entries@[i].buffer.et
                        == entries@[j].buffer.et),
                forall|e: int|
                    0 <= e < entries@.len() ==> (#[trigger] entries@[e]).buffer.wf()
                        && entries@[e].buffer.data@.len() == rows && entry_content_exact(
                        table@,
                        entries@[e],
                    ),
                rw_provenance(entries@, kernels@),
                forall|kk: int, aa: int|
                    #![auto]
                    0 <= kk < k && 0 <= aa < kernels@[kk].args@.len() ==> !arg_fault(
                        table@,
                        kernels@,
                        cli@,
                        sc@,
                        kk,
                        aa,
                    ),
                forall|aa: int|
                    #![auto]
                    0 <= aa < a ==> !arg_fault(table@, kernels@, cli@, sc@, k as int, aa),
                warnings == 0 ==> (forall|kk: int, aa: int|
                    #![auto]
                    0 <= kk < k && 0 <= aa < kernels@[kk].args@.len()
                        && kernels@[kk].args@[aa].is_pointer ==> missing_count(
                        table@,
                        kernels@[kk].args@[aa].name@,
                    ) == 0),
                warnings == 0 ==> (forall|aa: int|
                    #![auto]
                    0 <= aa < a && kernels@[k as int].args@[aa].is_pointer ==> missing_count(
                        table@,
                        kernels@[k as int].args@[aa].name@,
                    ) == 0),
                warnings != 0 ==> any_missing(table@, kernels@),
            decreases na - a,
        {
            let arg = &kernels[k].args[a];
            if arg.is_pointer {
                let (buf, warn) = match bind_column(
                    table,
                    &arg.name,
                    arg.cl_type.as_str(),
                    arg.is_constant,
                ) {
                    Ok(p) => p,
                    Err(e) => {
                        proof {
                            assert(arg_fault(table@, kernels@, cli@, sc@, k as int, a as int));
                        }
                        return Err(e);
                    },
                };
                warnings = sat_add_u64(warnings, warn);
                proof {
                    if warn != 0 {
                        assert(missing_count(table@, kernels@[k as int].args@[a as int].name@)
                            != 0);
                        assert(any_missing(table@, kernels@));
                    }
                }
                let et = buf.et;
                match find_entry(&entries, &arg.name, et) {
                    Some(idx) => {
                        binds.push(ArgBinding::Buffer(idx));
                    },
                    None => {
                        let idx = entries.len();
                        let ghost entries0 = entries@;
                        entries.push(NamedBuffer { name: arg.name.clone(), buffer: buf });
                        proof {
                            assert(forall|e: int|
                                0 <= e < entries0.len() ==> #[trigger] entries@[e]
                                    == entries0[e]);
                        }
                        binds.push(ArgBinding::Buffer(idx));
                    },
                }
            } else {
                let s = match resolve_scalar_arg(
                    cli,
                    sc,
                    &kernels[k].data_constants,
                    &arg.name,
                    arg.cl_type.as_str(),
                ) {
                    Ok(s) => s,
                    Err(e) => {
                        proof {
                            assert(arg_fault(table@, kernels@, cli@, sc@, k as int, a as int));
                        }
                        return Err(e);
                    },
                };
                binds.push(ArgBinding::Scalar(s));
            }
            a += 1;
        }
        bindings.push(binds);
        k += 1;
    }
    Ok((SharedBufferRegistry { entries, bindings }, warnings))
}

} // verus!
