use pprof_stats::model::{Function, Label, Line, TimingError};
use pprof_stats::stats::Stats;
use pprof_stats::types::{StackFrame, StackTrace};
use pprof_stats::wire::put_varint;

const MS: u64 = 1_000_000;

fn frame(name: &str, path: &str, lineno: u32) -> StackFrame {
    StackFrame {
        name: name.to_string(),
        relative_path: path.to_string(),
        absolute_path: None,
        lineno,
    }
}

fn trace(frames: Vec<StackFrame>, time_ms: u64) -> StackTrace {
    StackTrace { trace: frames, pid: None, thread_id: None, time: Some(time_ms * MS) }
}

#[test]
fn three_traces_share_locations() {
    let mut stats = Stats::new();
    stats.record(&trace(vec![frame("f1", "a.rb", 10)], 0)).unwrap();
    stats.record(&trace(vec![frame("f1", "a.rb", 20)], 5)).unwrap();
    stats.record(&trace(vec![frame("f1", "a.rb", 10)], 12)).unwrap();
    assert_eq!(stats.locations().len(), 2);
    assert_eq!(stats.functions().len(), 1);
    let samples = stats.samples();
    assert_eq!(samples.len(), 3);
    let values: Vec<i64> = samples.iter().map(|s| s.value[0]).collect();
    assert_eq!(values, vec![0, 5, 7]);
    assert_eq!(samples[0].location_id, samples[2].location_id);
    assert_ne!(samples[0].location_id, samples[1].location_id);
    assert_eq!(stats.locations()[0].line, vec![Line { function_id: 1, line: 10 }]);
    assert_eq!(stats.locations()[1].line, vec![Line { function_id: 1, line: 20 }]);
}

#[test]
fn new_profile_has_fixed_strings() {
    let stats = Stats::new();
    assert_eq!(stats.string_table(), &vec!["".to_string(), "wall".to_string(), "ms".to_string()]);
    assert!(stats.functions().is_empty());
    assert!(stats.locations().is_empty());
    assert!(stats.samples().is_empty());
}

#[test]
fn first_sample_is_zero() {
    let mut stats = Stats::new();
    stats.record(&trace(vec![frame("f", "a.rb", 1)], 1_000)).unwrap();
    assert_eq!(stats.samples()[0].value, vec![0]);
}

#[test]
fn first_sample_without_time_is_zero() {
    let mut stats = Stats::new();
    let t = StackTrace { trace: vec![frame("f", "a.rb", 1)], pid: None, thread_id: None, time: None };
    stats.record(&t).unwrap();
    assert_eq!(stats.samples()[0].value, vec![0]);
}

#[test]
fn clock_is_read_when_time_is_absent() {
    let mut stats = Stats::new();
    stats.record(&trace(vec![], 0)).unwrap();
    let t = StackTrace { trace: vec![], pid: None, thread_id: None, time: None };
    stats.record(&t).unwrap();
    assert!(stats.samples()[1].value[0] > 0);
}

#[test]
fn earlier_time_is_refused() {
    let mut stats = Stats::new();
    stats.record(&trace(vec![frame("f", "a.rb", 1)], 10)).unwrap();
    let before = stats.serialize();
    let r = stats.record(&trace(vec![frame("g", "b.rb", 2)], 9));
    assert_eq!(r, Err(TimingError { previous: 10 * MS, time: 9 * MS }));
    assert_eq!(stats.samples().len(), 1);
    assert_eq!(stats.serialize(), before);
}

#[test]
fn equal_time_is_accepted() {
    let mut stats = Stats::new();
    stats.record(&trace(vec![], 10)).unwrap();
    stats.record(&trace(vec![], 10)).unwrap();
    assert_eq!(stats.samples()[1].value, vec![0]);
}

#[test]
fn delta_is_whole_milliseconds() {
    let mut stats = Stats::new();
    stats.record_at(&trace(vec![], 0), 1_500_000).unwrap();
    stats.record_at(&trace(vec![], 0), 4_400_000).unwrap();
    assert_eq!(stats.samples()[1].value, vec![2]);
}

#[test]
fn interning_does_not_grow_strings() {
    let mut stats = Stats::new();
    stats.record(&trace(vec![frame("f", "a.rb", 1)], 0)).unwrap();
    let n = stats.string_table().len();
    assert_eq!(n, 5);
    stats.record(&trace(vec![frame("f", "a.rb", 2), frame("a.rb", "f", 3)], 1)).unwrap();
    assert_eq!(stats.string_table().len(), n);
    assert_eq!(stats.functions()[0], Function { id: 1, name: 3, filename: 4 });
    assert_eq!(stats.functions()[1], Function { id: 2, name: 4, filename: 3 });
}

#[test]
fn shared_frame_has_one_location() {
    let mut stats = Stats::new();
    stats.record(&trace(vec![frame("leaf", "a.rb", 3), frame("main", "m.rb", 1)], 0)).unwrap();
    stats.record(&trace(vec![frame("other", "b.rb", 7), frame("main", "m.rb", 1)], 1)).unwrap();
    assert_eq!(stats.locations().len(), 3);
    let samples = stats.samples();
    assert_eq!(samples[0].location_id, vec![1, 2]);
    assert_eq!(samples[1].location_id, vec![3, 2]);
}

#[test]
fn repeated_frame_in_one_trace() {
    let mut stats = Stats::new();
    stats.record(&trace(vec![frame("r", "a.rb", 4), frame("r", "a.rb", 4)], 0)).unwrap();
    assert_eq!(stats.locations().len(), 1);
    assert_eq!(stats.samples()[0].location_id, vec![1, 1]);
}

#[test]
fn absolute_path_is_ignored() {
    let mut stats = Stats::new();
    let mut a = frame("f", "a.rb", 1);
    a.absolute_path = Some("/x/a.rb".to_string());
    let mut b = frame("f", "a.rb", 1);
    b.absolute_path = Some("/y/a.rb".to_string());
    assert!(a == b);
    stats.record(&trace(vec![a], 0)).unwrap();
    stats.record(&trace(vec![b], 1)).unwrap();
    assert_eq!(stats.locations().len(), 1);
}

#[test]
fn ids_are_positive_and_distinct() {
    let mut stats = Stats::new();
    stats.record(&trace(vec![frame("a", "x.rb", 1), frame("b", "x.rb", 2)], 0)).unwrap();
    stats.record(&trace(vec![frame("c", "y.rb", 1), frame("a", "x.rb", 9)], 1)).unwrap();
    let fids: Vec<u64> = stats.functions().iter().map(|f| f.id).collect();
    assert_eq!(fids, vec![1, 2, 3]);
    let lids: Vec<u64> = stats.locations().iter().map(|l| l.id).collect();
    assert_eq!(lids, vec![1, 2, 3, 4]);
    assert_eq!(stats.locations()[3].line, vec![Line { function_id: 1, line: 9 }]);
}

#[test]
fn labels_pid_before_thread_id() {
    let mut stats = Stats::new();
    let t = StackTrace { trace: vec![], pid: Some(42), thread_id: Some(7), time: Some(0) };
    stats.record(&t).unwrap();
    assert_eq!(stats.samples()[0].label, vec![Label { key: 3, num: 42 }, Label { key: 4, num: 7 }]);
    assert_eq!(stats.string_table()[3], "pid");
    assert_eq!(stats.string_table()[4], "thread_id");
    let u = StackTrace { trace: vec![], pid: None, thread_id: Some(8), time: Some(1) };
    stats.record(&u).unwrap();
    assert_eq!(stats.samples()[1].label, vec![Label { key: 4, num: 8 }]);
    assert_eq!(stats.string_table().len(), 5);
}

#[test]
fn serialize_empty_profile() {
    let stats = Stats::new();
    let expected: Vec<u8> = vec![
        0x0a, 0x04, 0x08, 0x01, 0x10, 0x02, 0x32, 0x00, 0x32, 0x04, b'w', b'a', b'l', b'l', 0x32,
        0x02, b'm', b's',
    ];
    assert_eq!(stats.serialize(), expected);
}

#[test]
fn serialize_one_sample() {
    let mut stats = Stats::new();
    let t = StackTrace { trace: vec![frame("f", "a", 300)], pid: Some(1), thread_id: None, time: Some(0) };
    stats.record(&t).unwrap();
    let expected: Vec<u8> = vec![
        0x0a, 0x04, 0x08, 0x01, 0x10, 0x02, // sample type
        0x12, 0x0c, 0x0a, 0x01, 0x01, 0x12, 0x01, 0x00, 0x1a, 0x04, 0x08, 0x05, 0x18, 0x01, // sample
        0x22, 0x09, 0x08, 0x01, 0x22, 0x05, 0x08, 0x01, 0x10, 0xac, 0x02, // location
        0x2a, 0x06, 0x08, 0x01, 0x10, 0x03, 0x20, 0x04, // function
        0x32, 0x00, 0x32, 0x04, b'w', b'a', b'l', b'l', 0x32, 0x02, b'm', b's', 0x32, 0x01, b'f',
        0x32, 0x01, b'a', 0x32, 0x03, b'p', b'i', b'd',
    ];
    assert_eq!(stats.serialize(), expected);
}

#[test]
fn serialize_is_deterministic() {
    let build = || {
        let mut stats = Stats::new();
        stats.record(&trace(vec![frame("f1", "a.rb", 10)], 0)).unwrap();
        stats.record(&trace(vec![frame("f2", "b.rb", 20), frame("f1", "a.rb", 10)], 5)).unwrap();
        stats
    };
    let a = build();
    let b = build();
    assert_eq!(a.serialize(), b.serialize());
    assert_eq!(a.serialize(), a.serialize());
}

#[test]
fn varint_bytes() {
    let mut out = Vec::new();
    put_varint(&mut out, 0);
    put_varint(&mut out, 127);
    put_varint(&mut out, 128);
    put_varint(&mut out, 300);
    assert_eq!(out, vec![0x00, 0x7f, 0x80, 0x01, 0xac, 0x02]);
    let mut big = Vec::new();
    put_varint(&mut big, u64::MAX);
    assert_eq!(big, vec![0xff, 0xff, 0xff, 0xff, 0xff, 0xff, 0xff, 0xff, 0xff, 0x01]);
}

#[test]
fn room_check() {
    let stats = Stats::new();
    assert!(stats.has_room_for(&trace(vec![frame("f", "a", 1)], 0)));
}
