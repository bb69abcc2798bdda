//! The lifecycle driver's verified core: the simulation-control settings
//! and their command-line override merge, compute-device selection, the
//! step schedule, and the orchestrator state that owns the table, the
//! registry and the in-flight event list across the step loop.

use vstd::prelude::*;
use vstd::string::StrSliceExecFns;
use crate::value::Value;
use crate::table::Row;
use crate::text::{lower_seq, lowered_contains};
use crate::convert::PipelineError;
use crate::registry::{
    KernelDescriptor, SharedBufferRegistry, build_registry, entry_content_exact,
    scalar_binding_exact, rw_provenance, any_missing, arg_fault,
};
use crate::convert::value_of_elem;
use crate::events::{
    trim_completed_events, prune_spec, pending_ms, completed_indices, below_bound, prune_bound,
    PrunePlan,
};
use crate::readback::readback_registry;

verus! {

/// The simulation-control settings the core consumes. File locations are
/// carried as plain text; the surrounding program does the reading and
/// writing.
pub struct SimControl {
    pub input_data_file_path: String,
    pub output_data_file_path: String,
    pub cl_kernels_file_path: String,
    pub output_animation_file_path: String,
    pub output_animation_width: u32,
    pub output_animation_height: u32,
    pub output_animation_frame_delay: u32,
    pub num_steps: u64,
    pub capture_step_period: u64,
    pub preferred_gpu_name: String,
    pub gis_x_attr_name: String,
    pub gis_y_attr_name: String,
    pub gis_name_attr: String,
    pub gis_color_attr: String,
    pub data_constants: Vec<(String, Value)>,
}

/// The optional command-line counterparts of the control settings: a set
/// field overrides the document's value.
pub struct SimControlOverrides {
    pub input_data_file_path: Option<String>,
    pub output_data_file_path: Option<String>,
    pub cl_kernels_file_path: Option<String>,
    pub output_animation_file_path: Option<String>,
    pub output_animation_width: Option<u32>,
    pub output_animation_height: Option<u32>,
    pub output_animation_frame_delay: Option<u32>,
    pub num_steps: Option<u64>,
    pub capture_step_period: Option<u64>,
    pub preferred_gpu_name: Option<String>,
    pub gis_x_attr_name: Option<String>,
    pub gis_y_attr_name: Option<String>,
    pub gis_name_attr: Option<String>,
    pub gis_color_attr: Option<String>,
}

/// Merges the command-line overrides into the control settings: a field
/// the command line sets wins; every other field, and the scalar table,
/// keeps the document's value.
#[verifier::rlimit(80)]
#[verifier::spinoff_prover]
pub fn inplace_update_simcontrol_from_args(
    simcontrol: &mut SimControl,
    cli_args: &SimControlOverrides,
)
    ensures
        final(simcontrol).input_data_file_path@ == match cli_args.input_data_file_path {
            Some(ref v) => v@,
            None => old(simcontrol).input_data_file_path@,
        },
        final(simcontrol).output_data_file_path@ == match cli_args.output_data_file_path {
            Some(ref v) => v@,
            None => old(simcontrol).output_data_file_path@,
        },
        final(simcontrol).cl_kernels_file_path@ == match cli_args.cl_kernels_file_path {
            Some(ref v) => v@,
            None => old(simcontrol).cl_kernels_file_path@,
        },
        final(simcontrol).output_animation_file_path@ == match cli_args.output_animation_file_path {
            Some(ref v) => v@,
            None => old(simcontrol).output_animation_file_path@,
        },
        final(simcontrol).output_animation_width == match cli_args.output_animation_width {
            Some(v) => v,
            None => old(simcontrol).output_animation_width,
        },
        final(simcontrol).output_animation_height == match cli_args.output_animation_height {
            Some(v) => v,
            None => old(simcontrol).output_animation_height,
        },
        final(simcontrol).output_animation_frame_delay == match cli_args
            .output_animation_frame_delay {
            Some(v) => v,
            None => old(simcontrol).output_animation_frame_delay,
        },
        final(simcontrol).num_steps == match cli_args.num_steps {
            Some(v) => v,
            None => old(simcontrol).num_steps,
        },
        final(simcontrol).capture_step_period == match cli_args.capture_step_period {
            Some(v) => v,
            None => old(simcontrol).capture_step_period,
        },
        final(simcontrol).preferred_gpu_name@ == match cli_args.preferred_gpu_name {
            Some(ref v) => v@,
            None => old(simcontrol).preferred_gpu_name@,
        },
        final(simcontrol).gis_x_attr_name@ == match cli_args.gis_x_attr_name {
            Some(ref v) => v@,
            None => old(simcontrol).gis_x_attr_name@,
        },
        final(simcontrol).gis_y_attr_name@ == match cli_args.gis_y_attr_name {
            Some(ref v) => v@,
            None => old(simcontrol).gis_y_attr_name@,
        },
        final(simcontrol).gis_name_attr@ == match cli_args.gis_name_attr {
            Some(ref v) => v@,
            None => old(simcontrol).gis_name_attr@,
        },
        final(simcontrol).gis_color_attr@ == match cli_args.gis_color_attr {
            Some(ref v) => v@,
            None => old(simcontrol).gis_color_attr@,
        },
        final(simcontrol).data_constants == old(simcontrol).data_constants,
{
    if let Some(v) = &cli_args.preferred_gpu_name {
        simcontrol.preferred_gpu_name = v.clone();
    }
    if let Some(v) = &cli_args.input_data_file_path {
        simcontrol.input_data_file_path = v.clone();
    }
    if let Some(v) = &cli_args.output_data_file_path {
        simcontrol.output_data_file_path = v.clone();
    }
    if let Some(v) = &cli_args.num_steps {
        simcontrol.num_steps = *v;
    }
    if let Some(v) = &cli_args.capture_step_period {
        simcontrol.capture_step_period = *v;
    }
    if let Some(v) = &cli_args.cl_kernels_file_path {
        simcontrol.cl_kernels_file_path = v.clone();
    }
    if let Some(v) = &cli_args.output_animation_file_path {
        simcontrol.output_animation_file_path = v.clone();
    }
    if let Some(v) = &cli_args.output_animation_width {
        simcontrol.output_animation_width = *v;
    }
    if let Some(v) = &cli_args.output_animation_height {
        simcontrol.output_animation_height = *v;
    }
    if let Some(v) = &cli_args.output_animation_frame_delay {
        simcontrol.output_animation_frame_delay = *v;
    }
    if let Some(v) = &cli_args.gis_x_attr_name {
        simcontrol.gis_x_attr_name = v.clone();
    }
    if let Some(v) = &cli_args.gis_y_attr_name {
        simcontrol.gis_y_attr_name = v.clone();
    }
    if let Some(v) = &cli_args.gis_name_attr {
        simcontrol.gis_name_attr = v.clone();
    }
    if let Some(v) = &cli_args.gis_color_attr {
        simcontrol.gis_color_attr = v.clone();
    }
}

/// What the driver learned of one compute device: its reported name and
/// the two capacity figures the default choice goes by.
pub struct DeviceInfo {
    pub name: String,
    pub max_compute_units: u32,
    pub max_work_group_size: u64,
}

/// The outcome of device selection: list-and-exit was asked for, a device
/// index was chosen, or there is no device at all.
#[derive(Debug)]
pub enum DeviceChoice {
    Listing,
    Chosen(usize),
    NoDevices,
}

/// A device's default-choice score: compute units times work-group size.
pub open spec fn device_score(d: DeviceInfo) -> int {
    d.max_compute_units * d.max_work_group_size
}

/// Does the device's name, ASCII lower-cased, contain the preference?
pub open spec fn device_name_matches(d: DeviceInfo, pref: Seq<char>) -> bool {
    crate::text::has_substring(lower_seq(d.name@), pref)
}

fn score_of(d: &DeviceInfo) -> (s: u128)
    ensures
        s as int == device_score(*d),
{
    proof {
        assert((d.max_compute_units as int) * (d.max_work_group_size as int)
            < 0x100000000000000000000000000000000) by (nonlinear_arith)
            requires
                d.max_compute_units < 0x100000000,
                d.max_work_group_size < 0x10000000000000000,
        ;
    }
    (d.max_compute_units as u128) * (d.max_work_group_size as u128)
}

/// Selects the compute device. The literal `list` asks for an enumeration
/// and nothing else; a non-empty preference picks the first device whose
/// lower-cased name contains it; otherwise the first device maximising
/// compute units times work-group size wins, and with no device at all
/// the selection fails.
pub fn select_device(devices: &Vec<DeviceInfo>, lower_pref: &String) -> (r: DeviceChoice)
    ensures
        lower_pref@ == "list"@ ==> r is Listing,
        r matches DeviceChoice::Chosen(i) ==> i < devices@.len(),
        (lower_pref@ != "list"@ && lower_pref@.len() > 0 && (exists|i: int|
            0 <= i < devices@.len() && device_name_matches(#[trigger] devices@[i], lower_pref@)))
            ==> (r matches DeviceChoice::Chosen(i) && device_name_matches(
            devices@[i as int],
            lower_pref@,
        ) && (forall|j: int|
            0 <= j < i ==> !device_name_matches(#[trigger] devices@[j], lower_pref@))),
        (lower_pref@ != "list"@ && !(lower_pref@.len() > 0 && (exists|i: int|
            0 <= i < devices@.len() && device_name_matches(#[trigger] devices@[i], lower_pref@))))
            ==> (if devices@.len() == 0 {
            r is NoDevices
        } else {
            r matches DeviceChoice::Chosen(i) && (forall|j: int|
                0 <= j < devices@.len() ==> device_score(#[trigger] devices@[j]) <= device_score(
                    devices@[i as int],
                )) && (forall|j: int|
                0 <= j < i ==> device_score(#[trigger] devices@[j]) < device_score(
                    devices@[i as int],
                ))
        }),
{
    proof {
        reveal_strlit("list");
    }
    let n = devices.len();
    if lower_pref.as_str().unicode_len() > 0 {
        if crate::text::str_eq(lower_pref.as_str(), "list") {
            return DeviceChoice::Listing;
        }
        let mut i: usize = 0;
        while i < n
            invariant
                i <= n,
                n == devices@.len(),
                lower_pref@ != "list"@,
                lower_pref@.len() > 0,
                forall|j: int|
                    0 <= j < i ==> !device_name_matches(#[trigger] devices@[j], lower_pref@),
            decreases n - i,
        {
            if lowered_contains(devices[i].name.as_str(), lower_pref.as_str()) {
                return DeviceChoice::Chosen(i);
            }
            i += 1;
        }
    }
    if n == 0 {
        return DeviceChoice::NoDevices;
    }
    let mut best_i: usize = 0;
    let mut best: u128 = score_of(&devices[0]);
    let mut i: usize = 1;
    while i < n
        invariant
            1 <= i <= n,
            n == devices@.len(),
            best_i < i,
            best as int == device_score(devices@[best_i as int]),
            forall|j: int| 0 <= j < i ==> device_score(#[trigger] devices@[j]) <= best as int,
            forall|j: int| 0 <= j < best_i ==> device_score(#[trigger] devices@[j]) < best as int,
        decreases n - i,
    {
        let score = score_of(&devices[i]);
        if score > best {
            best = score;
            best_i = i;
        }
        i += 1;
    }
    DeviceChoice::Chosen(best_i)
}

/// Is a frame captured at this step: the step index is a whole multiple
/// of the capture period.
pub fn should_capture(step: u64, capture_period: u64) -> (r: bool)
    requires
        capture_period > 0,
    ensures
        r == (step % capture_period == 0),
{
    step % capture_period == 0
}

/// The orchestrator's state across the step loop: the row table, the
/// shared-buffer registry bound to it, the in-flight event list, and the
/// step counter. Event handles are drawn from a private counter, so no
/// two live events share one.
pub struct SimState {
    pub table: Vec<Row>,
    pub registry: SharedBufferRegistry,
    pub events: Vec<u64>,
    pub next_event_id: u64,
    pub step: u64,
}

impl SimState {
    /// The standing well-formedness of the orchestrator state.
    pub open spec fn wf(&self, kernels: Seq<KernelDescriptor>) -> bool {
        &&& self.registry.entries_unique()
        &&& self.registry.buffers_wf(self.table@.len() as int)
        &&& self.registry.bindings_wf(kernels)
    }

    /// Builds the registry over the table and starts the clock at zero
    /// with no event in flight. The builder's guarantees carry over: every
    /// buffer holds its converted column, every constant position its
    /// resolved scalar, and the warning count is zero exactly when no
    /// bound column was missing. Setup succeeds if and only if no
    /// argument position has a fault.
    pub fn init(
        table: Vec<Row>,
        kernels: &Vec<KernelDescriptor>,
        cli: &Vec<(String, Value)>,
        sc: &Vec<(String, Value)>,
    ) -> (r: Result<(SimState, u64), PipelineError>)
        ensures
            r matches Ok(p) ==> {
                &&& p.0.wf(kernels@)
                &&& p.0.table@ == table@
                &&& p.0.events@.len() == 0
                &&& p.0.next_event_id == 0
                &&& p.0.step == 0
                &&& forall|e: int|
                    0 <= e < p.0.registry.entries@.len() ==> entry_content_exact(
                        table@,
                        #[trigger] p.0.registry.entries@[e],
                    )
                &&& forall|k: int, a: int|
                    0 <= k < kernels@.len() && 0 <= a < kernels@[k].args@.len()
                        ==> scalar_binding_exact(
                        kernels@,
                        cli@,
                        sc@,
                        k,
                        a,
                        #[trigger] p.0.registry.bindings@[k]@[a],
                    )
                &&& rw_provenance(p.0.registry.entries@, kernels@)
                &&& ((p.1 == 0) <==> !any_missing(table@, kernels@))
            },
            r is Ok <==> (forall|k: int, a: int|
                #![auto]
                0 <= k < kernels@.len() && 0 <= a < kernels@[k].args@.len() ==> !arg_fault(
                    table@,
                    kernels@,
                    cli@,
                    sc@,
                    k,
                    a,
                )),
            r matches Err(e) ==> (exists|k: int, a: int|
                #![auto]
                0 <= k < kernels@.len() && 0 <= a < kernels@[k].args@.len() && arg_fault(
                    table@,
                    kernels@,
                    cli@,
                    sc@,
                    k,
                    a,
                )),
    {
        let rows = table.len();
        match build_registry(&table, kernels, cli, sc) {
            Ok((registry, warnings)) => Ok(
                (
                    SimState {
                        table,
                        registry,
                        events: Vec::new(),
                        next_event_id: 0,
                        step: 0,
                    },
                    warnings,
                ),
            ),
            Err(e) => Err(e),
        }
    }

    /// Enqueues one step: one launch per kernel, in declaration order,
    /// each appending a fresh event to the in-flight list. With no rows
    /// there is no work, and nothing is enqueued.
    pub fn enqueue_step(&mut self, kernel_count: usize)
        requires
            old(self).next_event_id + kernel_count <= u64::MAX,
            old(self).step < u64::MAX,
        ensures
            final(self).table@ == old(self).table@,
            final(self).registry == old(self).registry,
            final(self).step == old(self).step + 1,
            old(self).table@.len() == 0 ==> final(self).events@ == old(self).events@
                && final(self).next_event_id == old(self).next_event_id,
            old(self).table@.len() > 0 ==> final(self).events@ == old(self).events@ + Seq::new(
                kernel_count as nat,
                |i: int| (old(self).next_event_id + i) as u64,
            ) && final(self).next_event_id == old(self).next_event_id + kernel_count,
    {
        let ghost evs0 = self.events@;
        let ghost id0 = self.next_event_id;
        if self.table.len() > 0 {
            let mut i: usize = 0;
            while i < kernel_count
                invariant
                    i <= kernel_count,
                    id0 + kernel_count <= u64::MAX,
                    self.next_event_id == id0 + i,
                    self.events@.len() == evs0.len() + i,
                    self.events@ == evs0 + Seq::new(i as nat, |p: int| (id0 + p) as u64),
                    self.table@ == old(self).table@,
                    self.registry == old(self).registry,
                    self.step == old(self).step,
                decreases kernel_count - i,
            {
                let ghost before = self.events@;
                self.events.push(self.next_event_id);
                self.next_event_id += 1;
                i += 1;
                proof {
                    assert(self.events@ =~= evs0 + Seq::new(i as nat, |p: int| (id0 + p) as u64));
                }
            }
        }
        self.step += 1;
    }

    /// Prunes completed events out of the in-flight list, given one
    /// completion flag per event. The returned plan names the pass —
    /// a clear, or the removed indices in application order — so that a
    /// parallel list of raw handles can have the identical pass applied
    /// rather than a re-derived one.
    pub fn prune(&mut self, completed: &Vec<bool>) -> (plan: PrunePlan)
        requires
            completed@.len() == old(self).events@.len(),
        ensures
            final(self).table@ == old(self).table@,
            final(self).registry == old(self).registry,
            final(self).step == old(self).step,
            final(self).next_event_id == old(self).next_event_id,
            final(self).events@ == prune_spec(old(self).events@, completed@),
            pending_ms(old(self).events@, completed@) <= final(self).events@.to_multiset(),
            (forall|j: int| 0 <= j < completed@.len() ==> completed@[j])
                ==> final(self).events@.len() == 0,
            plan matches PrunePlan::ClearAll <==> completed_indices(completed@).len() == old(
                self,
            ).events@.len(),
            plan matches PrunePlan::SwapRemovals(v) ==> v@.map_values(|u: usize| u as int)
                == below_bound(
                completed_indices(completed@),
                prune_bound(
                    old(self).events@.len() as int,
                    completed_indices(completed@).len() as int,
                ),
            ),
            plan matches PrunePlan::SwapRemovals(v) ==> (forall|p: int|
                0 <= p < v@.len() ==> ((#[trigger] v@[p]) as int) < prune_bound(
                    old(self).events@.len() as int,
                    completed_indices(completed@).len() as int,
                )),
    {
        trim_completed_events(&mut self.events, completed)
    }

    /// Is the in-flight list drained?
    pub fn drained(&self) -> (r: bool)
        ensures
            r == (self.events@.len() == 0),
    {
        self.events.len() == 0
    }

    /// Overwrites one registry buffer with what the device computed for
    /// it, leaving its length, type and marking alone: the model's view
    /// of a kernel's writes.
    pub fn apply_kernel_output(&mut self, entry: usize, new_data: Vec<u64>)
        requires
            entry < old(self).registry.entries@.len(),
            new_data@.len() == old(self).registry.entries@[entry as int].buffer.data@.len(),
            forall|i: int|
                0 <= i < new_data@.len() ==> crate::convert::elem_in_range(
                    old(self).registry.entries@[entry as int].buffer.et,
                    #[trigger] new_data@[i],
                ),
        ensures
            final(self).table@ == old(self).table@,
            final(self).events@ == old(self).events@,
            final(self).step == old(self).step,
            final(self).registry.bindings@ == old(self).registry.bindings@,
            final(self).registry.entries@.len() == old(self).registry.entries@.len(),
            forall|e: int|
                0 <= e < old(self).registry.entries@.len() && e != entry
                    ==> (#[trigger] final(self).registry.entries@[e]) == old(
                    self,
                ).registry.entries@[e],
            final(self).registry.entries@[entry as int].name@ == old(
                self,
            ).registry.entries@[entry as int].name@,
            final(self).registry.entries@[entry as int].buffer.et == old(
                self,
            ).registry.entries@[entry as int].buffer.et,
            final(self).registry.entries@[entry as int].buffer.read_write == old(
                self,
            ).registry.entries@[entry as int].buffer.read_write,
            final(self).registry.entries@[entry as int].buffer.data@ == new_data@,
    {
        let slot = &mut self.registry.entries[entry];
        slot.buffer.data = new_data;
    }

    /// Marshals every read-write registry buffer back into the table:
    /// the capture-boundary and shutdown readback. Row count is constant,
    /// and the marshal succeeds if and only if every read-write element
    /// reads back as a row value.
    pub fn readback(&mut self) -> (r: Result<(), PipelineError>)
        requires
            old(self).registry.buffers_wf(old(self).table@.len() as int),
        ensures
            final(self).table@.len() == old(self).table@.len(),
            final(self).registry == old(self).registry,
            final(self).events@ == old(self).events@,
            final(self).step == old(self).step,
            r is Ok ==> crate::readback::rw_columns_updated(
                final(self).table@,
                old(self).registry.entries@,
                old(self).registry.entries@.len() as int,
            ),
            forall|i: int, key: Seq<char>|
                0 <= i < old(self).table@.len() && !crate::readback::rw_names_contain(
                    old(self).registry.entries@,
                    key,
                ) ==> (#[trigger] final(self).table@[i].spec_get(key)) == old(
                    self,
                ).table@[i].spec_get(key),
            r is Ok <==> (forall|e: int, i: int|
                #![auto]
                0 <= e < old(self).registry.entries@.len() && 0 <= i < old(self).table@.len()
                    && old(self).registry.entries@[e].buffer.read_write ==> value_of_elem(
                    old(self).registry.entries@[e].buffer.data@[i],
                    old(self).registry.entries@[e].buffer.et,
                ) is Some),
            r matches Err(err) ==> err matches PipelineError::Overflow(c) && (exists|e: int, i: int|
                #![auto]
                0 <= e < old(self).registry.entries@.len() && 0 <= i < old(self).table@.len()
                    && old(self).registry.entries@[e].buffer.read_write && c@ == old(
                    self,
                ).registry.entries@[e].name@ && value_of_elem(
                    old(self).registry.entries@[e].buffer.data@[i],
                    old(self).registry.entries@[e].buffer.et,
                ) is None),
    {
        readback_registry(&self.registry, &mut self.table)
    }
}

} // verus!
