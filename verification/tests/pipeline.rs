use dataplane::value::{Value, ValueType};
use dataplane::table::Row;
use dataplane::buffer::bind_values;
use dataplane::registry::{
    KernelArgDescriptor, KernelDescriptor, DataConstantValue, ArgBinding, build_registry,
    resolve_scalar_arg,
};
use dataplane::events::{trim_completed_events, PrunePlan};
use dataplane::driver::{SimState, DeviceInfo, DeviceChoice, select_device, should_capture,
    SimControl, SimControlOverrides, inplace_update_simcontrol_from_args};
use dataplane::convert::PipelineError;

fn row_of(pairs: &[(&str, i64)]) -> Row {
    let mut r = Row::new();
    for (k, v) in pairs {
        r.set(&k.to_string(), Value::Integer(*v));
    }
    r
}

fn ptr_arg(name: &str, cl_type: &str) -> KernelArgDescriptor {
    KernelArgDescriptor {
        name: name.to_string(),
        cl_type: cl_type.to_string(),
        is_pointer: true,
        is_constant: false,
    }
}

fn const_arg(name: &str, cl_type: &str) -> KernelArgDescriptor {
    KernelArgDescriptor {
        name: name.to_string(),
        cl_type: cl_type.to_string(),
        is_pointer: false,
        is_constant: true,
    }
}

fn kernel(name: &str, args: Vec<KernelArgDescriptor>) -> KernelDescriptor {
    KernelDescriptor { name: name.to_string(), args, data_constants: vec![] }
}

fn get_int(row: &Row, key: &str) -> i64 {
    match row.get(&key.to_string()) {
        Some(Value::Integer(i)) => *i,
        other => panic!("expected an integer cell, got {:?}", other),
    }
}

#[test]
fn registry_dedup_and_binding_arity() {
    // kernel a uses X and Y; kernel b uses Y and X: two entries, shared
    let table = vec![row_of(&[("X", 1), ("Y", 0)])];
    let kernels = vec![
        kernel("a", vec![ptr_arg("X", "int*"), ptr_arg("Y", "int*")]),
        kernel("b", vec![ptr_arg("Y", "int*"), ptr_arg("X", "int*")]),
    ];
    let (reg, warnings) = build_registry(&table, &kernels, &vec![], &vec![]).unwrap();
    assert_eq!(warnings, 0);
    assert_eq!(reg.entries.len(), 2);
    assert_eq!(reg.bindings.len(), 2);
    assert_eq!(reg.bindings[0].len(), 2);
    assert_eq!(reg.bindings[1].len(), 2);
    let idx = |k: usize, a: usize| match reg.bindings[k][a] {
        ArgBinding::Buffer(i) => i,
        _ => panic!("expected a buffer binding"),
    };
    assert_eq!(idx(0, 0), idx(1, 1));
    assert_eq!(idx(0, 1), idx(1, 0));
    assert_ne!(idx(0, 0), idx(0, 1));
    // same name under a different element type stays a distinct entry
    let kernels2 = vec![
        kernel("a", vec![ptr_arg("X", "int*")]),
        kernel("b", vec![ptr_arg("X", "float*")]),
    ];
    let (reg2, _) = build_registry(&table, &kernels2, &vec![], &vec![]).unwrap();
    assert_eq!(reg2.entries.len(), 2);
}

#[test]
fn unknown_pointer_type_is_fatal() {
    let table = vec![row_of(&[("X", 1)])];
    let kernels = vec![kernel("a", vec![ptr_arg("X", "float16*")])];
    let err = build_registry(&table, &kernels, &vec![], &vec![]).unwrap_err();
    assert_eq!(err, PipelineError::UnknownBufferType("float16".to_string()));
}

#[test]
fn missing_column_binds_zeros_with_warning() {
    let table = vec![row_of(&[("X", 1)]), row_of(&[("X", 2)])];
    let kernels = vec![kernel("a", vec![ptr_arg("Z", "int*")])];
    let (reg, warnings) = build_registry(&table, &kernels, &vec![], &vec![]).unwrap();
    assert_eq!(warnings, 2);
    assert_eq!(reg.entries[0].buffer.data, vec![0, 0]);
}

#[test]
fn column_lookup_falls_back_by_case() {
    // argument x finds column X through the upper-cased fallback
    let table = vec![row_of(&[("X", 7)])];
    let kernels = vec![kernel("a", vec![ptr_arg("x", "int*")])];
    let (reg, warnings) = build_registry(&table, &kernels, &vec![], &vec![]).unwrap();
    assert_eq!(warnings, 0);
    assert_eq!(reg.entries[0].buffer.data, vec![7]);
}

#[test]
fn constant_resolution_precedence() {
    let kc = vec![DataConstantValue {
        name: "K".to_string(),
        v_type: ValueType::Int32,
        value: Value::Integer(9),
    }];
    let sc = vec![("K".to_string(), Value::Integer(5))];
    let cli = vec![("K".to_string(), Value::Integer(2))];
    let name = "K".to_string();
    // the command line wins over the control document over the kernel
    let s = resolve_scalar_arg(&cli, &sc, &kc, &name, "int").unwrap();
    assert_eq!(s.bits, 2);
    let s = resolve_scalar_arg(&vec![], &sc, &kc, &name, "int").unwrap();
    assert_eq!(s.bits, 5);
    let s = resolve_scalar_arg(&vec![], &vec![], &kc, &name, "int").unwrap();
    assert_eq!(s.bits, 9);
    let err = resolve_scalar_arg(&vec![], &vec![], &vec![], &name, "int").unwrap_err();
    assert_eq!(err, PipelineError::MissingConstant("K".to_string()));
    // repeated command-line overrides: the last one wins
    let cli2 = vec![
        ("K".to_string(), Value::Integer(3)),
        ("K".to_string(), Value::Integer(4)),
    ];
    let s = resolve_scalar_arg(&cli2, &sc, &kc, &name, "int").unwrap();
    assert_eq!(s.bits, 4);
}

#[test]
fn constant_argument_binds_inline_scalar() {
    let table = vec![row_of(&[("X", 1)])];
    let mut k = kernel("a", vec![ptr_arg("X", "int*"), const_arg("K", "int")]);
    k.data_constants.push(DataConstantValue {
        name: "K".to_string(),
        v_type: ValueType::Int32,
        value: Value::Integer(9),
    });
    let (reg, _) = build_registry(&table, &vec![k], &vec![], &vec![]).unwrap();
    match reg.bindings[0][1] {
        ArgBinding::Scalar(s) => {
            assert_eq!(s.et, ValueType::Int32);
            assert_eq!(s.bits, 9);
        },
        _ => panic!("expected an inline scalar"),
    }
}

#[test]
fn staging_block_boundaries() {
    // one element: the block-end path and the buffer-end path both run
    for n in [1usize, 8191, 8192, 8193] {
        let values: Vec<Value> = (0..n).map(|i| Value::Integer(i as i64)).collect();
        let buf = bind_values(&values, ValueType::Int64, true, &"X".to_string()).unwrap();
        assert_eq!(buf.data.len(), n);
        assert_eq!(buf.data[0], 0);
        assert_eq!(buf.data[n - 1], (n - 1) as u64);
        if n > 8192 {
            assert_eq!(buf.data[8191], 8191);
            assert_eq!(buf.data[8192], 8192);
        }
    }
}

#[test]
fn prune_respects_swap_remove_bound() {
    // completed entries at the tail are left for a later pass; the plan
    // names exactly the applied removals
    let mut events: Vec<u64> = vec![10, 11, 12, 13];
    let plan = trim_completed_events(&mut events, &vec![true, false, true, false]);
    assert_eq!(events, vec![13, 11, 12]);
    assert_eq!(plan, PrunePlan::SwapRemovals(vec![0]));

    // a removal bound of len - completed keeps unscanned entries valid
    let mut events: Vec<u64> = vec![10, 11, 12];
    let plan = trim_completed_events(&mut events, &vec![false, true, true]);
    assert_eq!(events, vec![10, 11, 12]);
    assert_eq!(plan, PrunePlan::SwapRemovals(vec![]));

    // when every event has completed, the plan is an outright clear
    let mut events: Vec<u64> = vec![10, 11, 12];
    let plan = trim_completed_events(&mut events, &vec![true, true, true]);
    assert_eq!(events, Vec::<u64>::new());
    assert_eq!(plan, PrunePlan::ClearAll);
}

#[test]
fn zero_rows_enqueue_no_work() {
    let table: Vec<Row> = vec![];
    let kernels = vec![kernel("a", vec![ptr_arg("X", "int*")])];
    let (mut sim, _) = SimState::init(table, &kernels, &vec![], &vec![]).unwrap();
    for _ in 0..5 {
        sim.enqueue_step(1);
    }
    assert_eq!(sim.events.len(), 0);
    assert!(sim.drained());
    assert_eq!(sim.step, 5);
}

#[test]
fn event_stream_drains_after_the_loop() {
    let table = vec![row_of(&[("X", 0)])];
    let kernels = vec![kernel("a", vec![ptr_arg("X", "int*")])];
    let (mut sim, _) = SimState::init(table, &kernels, &vec![], &vec![]).unwrap();
    for s in 0..100u64 {
        sim.enqueue_step(1);
        assert!(!should_capture(s, 1000) || s == 0);
    }
    assert_eq!(sim.events.len(), 100);
    let all_done = vec![true; sim.events.len()];
    let plan = sim.prune(&all_done);
    assert_eq!(plan, PrunePlan::ClearAll);
    assert!(sim.drained());
}

#[test]
fn identity_kernel_returns_the_input() {
    let table = vec![row_of(&[("X", 3)]), row_of(&[("X", -2)]), row_of(&[("X", 7)])];
    let kernels = vec![kernel("copy", vec![ptr_arg("X", "int*")])];
    let (mut sim, _) = SimState::init(table, &kernels, &vec![], &vec![]).unwrap();
    for s in 0..5u64 {
        sim.enqueue_step(1);
        assert!(should_capture(s, 1));
        sim.readback().unwrap();
    }
    assert_eq!(sim.table.len(), 3);
    assert_eq!(get_int(&sim.table[0], "X"), 3);
    assert_eq!(get_int(&sim.table[1], "X"), -2);
    assert_eq!(get_int(&sim.table[2], "X"), 7);
}

#[test]
fn increment_kernel_adds_one_per_step() {
    let table = vec![row_of(&[("X", 0)]), row_of(&[("X", 0)])];
    let kernels = vec![kernel("inc", vec![ptr_arg("X", "int*")])];
    let (mut sim, _) = SimState::init(table, &kernels, &vec![], &vec![]).unwrap();
    for _ in 0..10 {
        sim.enqueue_step(1);
        let bumped: Vec<u64> = sim.registry.entries[0].buffer.data.iter().map(|x| x + 1).collect();
        sim.apply_kernel_output(0, bumped);
    }
    sim.readback().unwrap();
    assert_eq!(get_int(&sim.table[0], "X"), 10);
    assert_eq!(get_int(&sim.table[1], "X"), 10);
}

#[test]
fn two_kernel_pipeline_shares_buffers() {
    // kernel a writes Y = X * 2; kernel b writes X = Y + 1
    let table = vec![row_of(&[("X", 1), ("Y", 0)])];
    let kernels = vec![
        kernel("a", vec![ptr_arg("X", "int*"), ptr_arg("Y", "int*")]),
        kernel("b", vec![ptr_arg("Y", "int*"), ptr_arg("X", "int*")]),
    ];
    let (mut sim, _) = SimState::init(table, &kernels, &vec![], &vec![]).unwrap();
    for _ in 0..3 {
        sim.enqueue_step(2);
        let x: Vec<u64> = sim.registry.entries[0].buffer.data.clone();
        let y2: Vec<u64> = x.iter().map(|v| v * 2).collect();
        sim.apply_kernel_output(1, y2);
        let y: Vec<u64> = sim.registry.entries[1].buffer.data.clone();
        let x2: Vec<u64> = y.iter().map(|v| v + 1).collect();
        sim.apply_kernel_output(0, x2);
    }
    sim.readback().unwrap();
    assert_eq!(get_int(&sim.table[0], "X"), 15);
    assert_eq!(get_int(&sim.table[0], "Y"), 14);
}

#[test]
fn readback_adds_missing_column_and_keeps_row_count() {
    // the kernel reads Z, which the table lacks: zeros go in, the kernel's
    // output comes back as a fresh column, and X is untouched
    let table = vec![row_of(&[("X", 5)]), row_of(&[("X", 6)])];
    let kernels = vec![kernel("a", vec![ptr_arg("Z", "int*")])];
    let (mut sim, warnings) = SimState::init(table, &kernels, &vec![], &vec![]).unwrap();
    assert_eq!(warnings, 2);
    sim.enqueue_step(1);
    let out: Vec<u64> = sim.registry.entries[0].buffer.data.iter().enumerate().map(
        |(i, x)| x + 40 + i as u64,
    ).collect();
    sim.apply_kernel_output(0, out);
    sim.readback().unwrap();
    assert_eq!(sim.table.len(), 2);
    assert_eq!(get_int(&sim.table[0], "Z"), 40);
    assert_eq!(get_int(&sim.table[1], "Z"), 41);
    assert_eq!(get_int(&sim.table[0], "X"), 5);
    assert_eq!(get_int(&sim.table[1], "X"), 6);
}

#[test]
fn readback_overflow_is_fatal() {
    let table = vec![row_of(&[("X", 1)])];
    let kernels = vec![kernel("a", vec![ptr_arg("X", "ulong*")])];
    let (mut sim, _) = SimState::init(table, &kernels, &vec![], &vec![]).unwrap();
    sim.apply_kernel_output(0, vec![u64::MAX]);
    let err = sim.readback().unwrap_err();
    assert_eq!(err, PipelineError::Overflow("X".to_string()));
}

#[test]
fn text_value_in_bound_column_is_fatal() {
    let mut row = row_of(&[]);
    row.set(&"X".to_string(), Value::Text("oops".to_string()));
    let kernels = vec![kernel("a", vec![ptr_arg("X", "int*")])];
    let err = build_registry(&vec![row], &kernels, &vec![], &vec![]).unwrap_err();
    assert_eq!(err, PipelineError::Binding("X".to_string()));
}

fn device(name: &str, units: u32, wg: u64) -> DeviceInfo {
    DeviceInfo { name: name.to_string(), max_compute_units: units, max_work_group_size: wg }
}

#[test]
fn device_selection() {
    let devices = vec![
        device("Slow iGPU", 4, 64),
        device("Big dGPU", 64, 1024),
        device("Radeon Thing", 32, 256),
    ];
    match select_device(&devices, &"radeon".to_string()) {
        DeviceChoice::Chosen(i) => assert_eq!(i, 2),
        other => panic!("unexpected choice {:?}", choice_name(&other)),
    }
    match select_device(&devices, &"".to_string()) {
        DeviceChoice::Chosen(i) => assert_eq!(i, 1),
        other => panic!("unexpected choice {:?}", choice_name(&other)),
    }
    assert!(matches!(select_device(&devices, &"list".to_string()), DeviceChoice::Listing));
    assert!(matches!(select_device(&vec![], &"".to_string()), DeviceChoice::NoDevices));
}

fn choice_name(c: &DeviceChoice) -> &'static str {
    match c {
        DeviceChoice::Listing => "listing",
        DeviceChoice::Chosen(_) => "chosen",
        DeviceChoice::NoDevices => "no devices",
    }
}

#[test]
fn cli_overrides_win_over_the_document() {
    let mut sc = SimControl {
        input_data_file_path: "in.csv".to_string(),
        output_data_file_path: "out.json".to_string(),
        cl_kernels_file_path: "k.toml".to_string(),
        output_animation_file_path: "anim.mp4".to_string(),
        output_animation_width: 1280,
        output_animation_height: 960,
        output_animation_frame_delay: 250,
        num_steps: 64,
        capture_step_period: 10,
        preferred_gpu_name: "".to_string(),
        gis_x_attr_name: "X".to_string(),
        gis_y_attr_name: "Y".to_string(),
        gis_name_attr: "".to_string(),
        gis_color_attr: "".to_string(),
        data_constants: vec![],
    };
    let overrides = SimControlOverrides {
        input_data_file_path: None,
        output_data_file_path: Some("elsewhere.csv".to_string()),
        cl_kernels_file_path: None,
        output_animation_file_path: None,
        output_animation_width: None,
        output_animation_height: None,
        output_animation_frame_delay: None,
        num_steps: Some(5),
        capture_step_period: None,
        preferred_gpu_name: None,
        gis_x_attr_name: None,
        gis_y_attr_name: None,
        gis_name_attr: None,
        gis_color_attr: None,
    };
    inplace_update_simcontrol_from_args(&mut sc, &overrides);
    assert_eq!(sc.output_data_file_path.as_str(), "elsewhere.csv");
    assert_eq!(sc.num_steps, 5);
    assert_eq!(sc.input_data_file_path.as_str(), "in.csv");
    assert_eq!(sc.capture_step_period, 10);
}
