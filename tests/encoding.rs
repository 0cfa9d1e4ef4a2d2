use iox_input::line_protocol::{format_to_lp, tag_fragment, EncodeError, Meta, Metric};
use iox_input::schema_index::{get_schema_map, schema, SchemaIndex, Schemas};

fn s(x: &str) -> String {
    x.to_string()
}

fn index_of(pairs: &[(&str, &[&str])]) -> SchemaIndex {
    let mut entries = Vec::new();
    for (measurement, metrics) in pairs {
        entries.push(schema {
            measurement: s(measurement),
            metrics: metrics.iter().map(|m| s(m)).collect(),
        });
    }
    get_schema_map(&Schemas { schema: entries })
}

fn metric(name: &str, tags: &[(&str, &str)], time: Vec<u128>, value: &[&str]) -> Metric {
    Metric {
        meta: Meta {
            name: s(name),
            uuid: s("u1"),
            tags: tags.iter().map(|(k, v)| vec![s(k), s(v)]).collect(),
        },
        time,
        value: value.iter().map(|v| s(v)).collect(),
    }
}

#[test]
fn end_to_end_single_sample() {
    let index = index_of(&[("node_cpu_mem", &["node_cpu_cores"])]);
    let m = metric("node_cpu_cores", &[("host", "h1")], vec![1000], &[&4.0f64.to_string()]);
    let lines = format_to_lp(&m, &index).unwrap();
    assert_eq!(lines, vec![s("node_cpu_mem,host=h1 node_cpu_cores=4 1000000000")]);
}

#[test]
fn unmapped_metric_gives_no_lines() {
    let index = index_of(&[("node_cpu_mem", &["node_cpu_cores"])]);
    let m = metric("unknown_metric", &[], vec![1], &["1"]);
    assert_eq!(format_to_lp(&m, &index), Ok(vec![]));
}

#[test]
fn unmapped_metric_skips_validation() {
    let index = index_of(&[("node_cpu_mem", &["node_cpu_cores"])]);
    let m = metric("unknown_metric", &[], vec![1, 2], &["1"]);
    assert_eq!(format_to_lp(&m, &index), Ok(vec![]));
}

#[test]
fn one_line_per_sample_in_order() {
    let index = index_of(&[("pod_load", &["pod_load1", "pod_load5"])]);
    let m = metric(
        "pod_load5",
        &[("pod", "p1"), ("ns", "default")],
        vec![1, 2, 3],
        &["0.5", "1.25", "3"],
    );
    let lines = format_to_lp(&m, &index).unwrap();
    assert_eq!(
        lines,
        vec![
            s("pod_load,pod=p1,ns=default pod_load5=0.5 1000000"),
            s("pod_load,pod=p1,ns=default pod_load5=1.25 2000000"),
            s("pod_load,pod=p1,ns=default pod_load5=3 3000000"),
        ]
    );
}

#[test]
fn space_in_tag_value_is_escaped() {
    let index = index_of(&[("app_meta", &["app_kube_pod_info"])]);
    let m = metric("app_kube_pod_info", &[("name", "my pod x"), ("k", "v")], vec![7], &["1"]);
    let lines = format_to_lp(&m, &index).unwrap();
    assert_eq!(lines, vec![s("app_meta,name=my\\ pod\\ x,k=v app_kube_pod_info=1 7000000")]);
}

#[test]
fn tag_fragment_splits_back_into_pairs() {
    let tags = vec![vec![s("a"), s("x y")], vec![s("b"), s("z")], vec![s("c"), s(" lead")]];
    let frag = tag_fragment(&tags);
    assert_eq!(frag, "a=x\\ y,b=z,c=\\ lead");
    let pieces: Vec<(String, String)> = frag
        .split(',')
        .map(|p| {
            let (k, v) = p.split_once('=').unwrap();
            (s(k), v.replace("\\ ", " "))
        })
        .collect();
    assert_eq!(
        pieces,
        vec![(s("a"), s("x y")), (s("b"), s("z")), (s("c"), s(" lead"))]
    );
}

#[test]
fn empty_tags_give_no_stray_comma() {
    let index = index_of(&[("proc", &["proc_num"])]);
    let m = metric("proc_num", &[], vec![5], &["12"]);
    assert_eq!(format_to_lp(&m, &index).unwrap(), vec![s("proc proc_num=12 5000000")]);
    assert_eq!(tag_fragment(&vec![]), "");
}

#[test]
fn encoding_twice_gives_the_same_lines() {
    let index = index_of(&[("node_disk", &["node_disk_io_util"])]);
    let m = metric("node_disk_io_util", &[("dev", "sda 1")], vec![10, 20], &["0.1", "0.2"]);
    let first = format_to_lp(&m, &index);
    let second = format_to_lp(&m, &index);
    assert_eq!(first, second);
    assert_eq!(first.unwrap().len(), 2);
}

#[test]
fn mismatched_arrays_are_rejected() {
    let index = index_of(&[("proc", &["proc_num"])]);
    let m = metric("proc_num", &[], vec![1, 2], &["1"]);
    assert_eq!(format_to_lp(&m, &index), Err(EncodeError::LengthMismatch));
}

#[test]
fn short_tag_is_rejected() {
    let index = index_of(&[("proc", &["proc_num"])]);
    let mut m = metric("proc_num", &[], vec![1], &["1"]);
    m.meta.tags.push(vec![s("only_key")]);
    assert_eq!(format_to_lp(&m, &index), Err(EncodeError::MalformedTag));
}

#[test]
fn timestamp_beyond_128_bits_in_nanoseconds_is_written_in_full() {
    let index = index_of(&[("proc", &["proc_num"])]);
    let t = u128::MAX / 1_000_000 + 1;
    let m = metric("proc_num", &[("host", "h 1")], vec![t, u128::MAX], &["1", "2"]);
    assert_eq!(
        format_to_lp(&m, &index),
        Ok(vec![
            format!("proc,host=h\\ 1 proc_num=1 {}000000", t),
            format!("proc,host=h\\ 1 proc_num=2 {}000000", u128::MAX),
        ])
    );
}

#[test]
fn largest_timestamp_is_written_in_full() {
    let index = index_of(&[("proc", &["proc_num"])]);
    let t = u128::MAX / 1_000_000;
    let m = metric("proc_num", &[], vec![t, 0], &["1", "2"]);
    let lines = format_to_lp(&m, &index).unwrap();
    assert_eq!(lines[0], format!("proc proc_num=1 {}", t * 1_000_000));
    assert_eq!(lines[1], s("proc proc_num=2 0"));
}

#[test]
fn later_schema_entry_wins() {
    let index = index_of(&[("first", &["m1", "m2"]), ("second", &["m2"])]);
    assert_eq!(index.resolve(&s("m1")), Some(&s("first")));
    assert_eq!(index.resolve(&s("m2")), Some(&s("second")));
    assert_eq!(index.resolve(&s("m3")), None);
}

#[test]
fn index_insert_overwrites() {
    let mut index = SchemaIndex::empty();
    assert_eq!(index.resolve(&s("a")), None);
    index.insert(s("a"), s("x"));
    index.insert(s("a"), s("y"));
    assert_eq!(index.resolve(&s("a")), Some(&s("y")));
}
