use iox_input::batching::{BatchBuffer, BATCH_SIZE};
use iox_input::completer::{get_command_completer, subcommands, CommandNode};
use iox_input::dispatch::{encode_batch, DispatchAction, Dispatcher, MAX_TASKS};
use iox_input::line_protocol::{Meta, Metric};
use iox_input::schema_index::{get_schema_map, schema, Schemas};

fn s(x: &str) -> String {
    x.to_string()
}

fn record(name: &str, time: Vec<u128>, value: &[&str]) -> Metric {
    Metric {
        meta: Meta { name: s(name), uuid: s("u"), tags: vec![vec![s("host"), s("h1")]] },
        time,
        value: value.iter().map(|v| s(v)).collect(),
    }
}

#[test]
fn four_hundred_fifty_lines_make_three_batches() {
    let mut buffer = BatchBuffer::new(BATCH_SIZE);
    let mut batches: Vec<Vec<String>> = Vec::new();
    for i in 0..450 {
        if let Some(b) = buffer.push_line(format!("line {}", i)) {
            batches.push(b);
        }
    }
    if let Some(b) = buffer.finish() {
        batches.push(b);
    }
    let sizes: Vec<usize> = batches.iter().map(|b| b.len()).collect();
    assert_eq!(sizes, vec![200, 200, 50]);
    assert_eq!(batches[2][49], "line 449");
    assert_eq!(batches[1][0], "line 200");
}

#[test]
fn exact_multiple_leaves_nothing_to_flush() {
    let mut buffer = BatchBuffer::new(2);
    assert_eq!(buffer.push_line(s("a")), None);
    assert_eq!(buffer.push_line(s("b")), Some(vec![s("a"), s("b")]));
    assert_eq!(buffer.finish(), None);
}

#[test]
fn in_flight_never_exceeds_cap() {
    let mut d = Dispatcher::new(MAX_TASKS);
    let mut spawned = 0;
    let mut batches = 0;
    while batches < 100 {
        match d.offer_batch() {
            DispatchAction::Spawn => {
                spawned += 1;
                batches += 1;
            }
            _ => d.task_completed(1, true),
        }
        assert!(d.in_flight() <= 16);
    }
    assert_eq!(spawned, 100);
    while d.input_ended() == DispatchAction::WaitForAny {
        d.task_completed(1, true);
    }
    assert_eq!(d.input_ended(), DispatchAction::Done);
    assert_eq!(d.encoded_total(), 100);
}

#[test]
fn seventeenth_batch_waits() {
    let mut d = Dispatcher::new(MAX_TASKS);
    for _ in 0..16 {
        assert_eq!(d.offer_batch(), DispatchAction::Spawn);
    }
    assert_eq!(d.offer_batch(), DispatchAction::WaitForAny);
    assert_eq!(d.in_flight(), 16);
}

#[test]
fn failed_write_does_not_block_later_batches() {
    let mut d = Dispatcher::new(1);
    assert_eq!(d.offer_batch(), DispatchAction::Spawn);
    assert_eq!(d.offer_batch(), DispatchAction::WaitForAny);
    d.task_completed(3, false);
    assert_eq!(d.encoded_total(), 3);
    assert_eq!(d.offer_batch(), DispatchAction::Spawn);
    d.task_completed(2, true);
    assert_eq!(d.encoded_total(), 5);
    assert_eq!(d.input_ended(), DispatchAction::Done);
}

#[test]
fn batch_counts_only_encoded_records() {
    let index = get_schema_map(&Schemas {
        schema: vec![schema { measurement: s("node_cpu_mem"), metrics: vec![s("node_cpu_cores")] }],
    });
    let records = vec![
        Some(record("node_cpu_cores", vec![1000], &["4"])),
        Some(record("unknown_metric", vec![1], &["1"])),
        None,
        Some(record("node_cpu_cores", vec![1, 2], &["1"])),
        Some(record("node_cpu_cores", vec![2, 3], &["5", "6"])),
    ];
    let batch = encode_batch(&records, &index);
    assert_eq!(batch.encoded, 2);
    assert_eq!(
        batch.lines,
        vec![
            s("node_cpu_mem,host=h1 node_cpu_cores=4 1000000000"),
            s("node_cpu_mem,host=h1 node_cpu_cores=5 2000000"),
            s("node_cpu_mem,host=h1 node_cpu_cores=6 3000000"),
        ]
    );
}

#[test]
fn unmapped_record_leaves_counter_alone() {
    let index = get_schema_map(&Schemas { schema: vec![] });
    let batch = encode_batch(&vec![Some(record("unknown_metric", vec![1], &["1"]))], &index);
    assert_eq!(batch.encoded, 0);
    assert!(batch.lines.is_empty());
    let mut d = Dispatcher::new(MAX_TASKS);
    d.offer_batch();
    d.task_completed(batch.encoded, true);
    assert_eq!(d.encoded_total(), 0);
}

fn node(name: &str, children: Vec<CommandNode>) -> CommandNode {
    CommandNode { name: s(name), children }
}

#[test]
fn completion_table_lists_nested_commands() {
    let app = node(
        "iox_input",
        vec![
            node("iox_input", vec![]),
            node("uselog", vec![node("syslog", vec![]), node("businesslog", vec![])]),
        ],
    );
    let rows = subcommands(&app);
    let flat: Vec<(usize, String, Vec<String>)> =
        rows.iter().map(|r| (r.level, r.command_name.clone(), r.subcommands.clone())).collect();
    assert_eq!(
        flat,
        vec![
            (1, s("iox_input"), vec![]),
            (1, s("uselog"), vec![s("syslog"), s("businesslog")]),
            (0, s("iox_input"), vec![s("iox_input"), s("uselog")]),
        ]
    );
    let deeper = node("root", vec![node("a", vec![node("b", vec![node("c", vec![])])])]);
    let completer = get_command_completer(&deeper);
    let names: Vec<(usize, String)> =
        completer.subcommands.iter().map(|r| (r.level, r.command_name.clone())).collect();
    assert_eq!(names, vec![(2, s("b")), (1, s("a")), (0, s("root"))]);
}

#[test]
fn batches_keep_input_order_across_boundaries() {
    let mut buffer = BatchBuffer::new(3);
    let mut out: Vec<String> = Vec::new();
    let mut sizes: Vec<usize> = Vec::new();
    for i in 0..7 {
        if let Some(b) = buffer.push_line(format!("{}", i)) {
            sizes.push(b.len());
            out.extend(b);
        }
    }
    if let Some(b) = buffer.finish() {
        sizes.push(b.len());
        out.extend(b);
    }
    assert_eq!(sizes, vec![3, 3, 1]);
    let expected: Vec<String> = (0..7).map(|i| format!("{}", i)).collect();
    assert_eq!(out, expected);
}

#[test]
fn in_flight_stays_within_cap_at_every_step() {
    let mut d = Dispatcher::new(MAX_TASKS);
    for round in 0..200 {
        if round % 3 == 2 && d.in_flight() > 0 {
            d.task_completed(0, round % 2 == 0);
        } else {
            let before = d.in_flight();
            if d.offer_batch() == DispatchAction::Spawn {
                assert!(before < MAX_TASKS);
                assert_eq!(d.in_flight(), before + 1);
            } else {
                assert_eq!(before, MAX_TASKS);
            }
        }
        assert!(d.in_flight() <= MAX_TASKS);
    }
}
