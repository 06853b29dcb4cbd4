use ullam::chunking::chunks_by_duration;
use ullam::config::{string_set, PreprocessorConfig};
use ullam::grouping::{process_chunk, ChunkSamples};
use ullam::preprocess::{first_non_numeric_field, process, process_with_config};
use ullam::preprocess::FlightPhase;
use ullam::time::Duration;
use ullam::value::{f64_bits_equal, LogEntry, LogField, LogValue};

fn entry(name: &str, micros: Option<u64>, fields: Vec<(&str, LogValue)>) -> LogEntry {
    LogEntry {
        id: 0,
        name: name.to_string(),
        timestamp: micros.map(Duration::from_micros),
        fields: fields
            .into_iter()
            .map(|(n, v)| LogField { name: n.to_string(), value: v })
            .collect(),
    }
}

fn names(chunk: &[LogEntry]) -> Vec<String> {
    chunk.iter().map(|e| e.name.clone()).collect()
}

fn no_ignores() -> vstd::hash_set::StringHashSet {
    string_set(vec![])
}

#[test]
fn chunks_split_at_window_boundary() {
    let entries = vec![
        entry("A", Some(0), vec![]),
        entry("B", Some(10_000_000), vec![]),
        entry("C", Some(20_000_000), vec![]),
        entry("D", Some(20_000_001), vec![]),
        entry("E", Some(45_000_000), vec![]),
    ];
    let chunks = chunks_by_duration(entries, Duration::from_secs(20), &no_ignores());
    assert_eq!(chunks.len(), 3);
    assert_eq!(names(&chunks[0]), vec!["A", "B", "C"]);
    assert_eq!(names(&chunks[1]), vec!["D"]);
    assert_eq!(names(&chunks[2]), vec!["E"]);
}

#[test]
fn chunks_drop_ignored_messages_even_without_timestamp() {
    let entries = vec![
        entry("FMT", None, vec![]),
        entry("A", Some(5), vec![]),
        entry("PARM", None, vec![]),
        entry("B", Some(6), vec![]),
    ];
    let ignore = string_set(vec!["FMT".to_string(), "PARM".to_string()]);
    let chunks = chunks_by_duration(entries, Duration::from_secs(1), &ignore);
    assert_eq!(chunks.len(), 1);
    assert_eq!(names(&chunks[0]), vec!["A", "B"]);
}

#[test]
fn chunks_of_empty_stream() {
    let chunks = chunks_by_duration(vec![], Duration::from_secs(1), &no_ignores());
    assert!(chunks.is_empty());
}

#[test]
fn chunks_treat_earlier_timestamps_as_in_window() {
    let entries = vec![
        entry("A", Some(100_000_000), vec![]),
        entry("B", Some(1), vec![]),
        entry("C", Some(100_000_001), vec![]),
    ];
    let chunks = chunks_by_duration(entries, Duration::from_micros(1), &no_ignores());
    assert_eq!(chunks.len(), 1);
    assert_eq!(names(&chunks[0]), vec!["A", "B", "C"]);
}

#[test]
fn chunk_windows_start_at_first_message_of_window() {
    // Each window is measured from its own first message, not from a grid.
    let entries = vec![
        entry("A", Some(0), vec![]),
        entry("B", Some(3), vec![]),
        entry("C", Some(5), vec![]),
        entry("D", Some(8), vec![]),
        entry("E", Some(9), vec![]),
    ];
    let chunks = chunks_by_duration(entries, Duration::from_micros(4), &no_ignores());
    assert_eq!(chunks.len(), 2);
    assert_eq!(names(&chunks[0]), vec!["A", "B"]);
    assert_eq!(names(&chunks[1]), vec!["C", "D", "E"]);
}

fn sets() -> (
    vstd::hash_set::StringHashSet,
    vstd::hash_set::StringHashSet,
    vstd::hash_map::StringHashMap<vstd::hash_set::StringHashSet>,
) {
    let config = PreprocessorConfig::default();
    (config.snapshoting_fields, config.ignore_fields, config.msg_with_ignored_fields)
}

fn samples_of<'a>(res: &'a ChunkSamples, msg: &str, field: &str) -> Option<&'a Vec<LogValue>> {
    res.windows
        .iter()
        .find(|w| w.msg == msg)
        .and_then(|w| w.fields.iter().find(|f| f.field == field))
        .map(|f| &f.values)
}

#[test]
fn process_chunk_sorts_fields() {
    let (snap, ign, per) = sets();
    let chunk = vec![
        entry(
            "MODE",
            Some(1_000),
            vec![("TimeUS", LogValue::U64(1)), ("Mode", LogValue::U64(5)), ("Rsn", LogValue::U64(1))],
        ),
        entry("ATT", Some(2_000), vec![("Roll", LogValue::I64(3)), ("Default", LogValue::I64(9))]),
        entry("MODE", Some(3_000), vec![("Mode", LogValue::U64(5)), ("Mode", LogValue::U64(6))]),
        entry("ATT", Some(4_000), vec![("Roll", LogValue::I64(4))]),
        entry("PIDP", Some(5_000), vec![("I", LogValue::U64(1)), ("P", LogValue::I64(2))]),
    ];
    let res = process_chunk(chunk, Duration::from_secs(20), &snap, &ign, &per);
    assert_eq!(res.timestamp.as_nanos(), 1_000_000);
    assert_eq!(res.duration.as_nanos(), 20_000_000_000);
    // Snapshots: distinct pairs per message type, first appearance kept.
    assert_eq!(res.snapshots.len(), 1);
    let mode = &res.snapshots[0];
    assert_eq!(mode.msg, "MODE");
    assert_eq!(mode.fields.len(), 3);
    assert_eq!(mode.fields[0].0, "Mode");
    assert!(matches!(mode.fields[0].1, LogValue::U64(5)));
    assert_eq!(mode.fields[1].0, "Rsn");
    assert!(matches!(mode.fields[2].1, LogValue::U64(6)));
    // Samples: everything else but ignored fields.
    let roll = samples_of(&res, "ATT", "Roll").expect("roll samples");
    assert_eq!(roll.len(), 2);
    assert!(matches!(roll[0], LogValue::I64(3)));
    assert!(matches!(roll[1], LogValue::I64(4)));
    assert!(samples_of(&res, "ATT", "Default").is_none());
    assert!(samples_of(&res, "MODE", "TimeUS").is_none());
    assert!(samples_of(&res, "PIDP", "I").is_none());
    assert!(samples_of(&res, "PIDP", "P").is_some());
}

#[test]
fn process_chunk_timestamp_defaults_to_zero() {
    let (snap, ign, per) = sets();
    let res = process_chunk(vec![], Duration::from_secs(1), &snap, &ign, &per);
    assert_eq!(res.timestamp.as_nanos(), 0);
    assert!(res.windows.is_empty() && res.snapshots.is_empty());
    let res = process_chunk(vec![entry("X", None, vec![])], Duration::from_secs(1), &snap, &ign, &per);
    assert_eq!(res.timestamp.as_nanos(), 0);
}

#[test]
fn snapshot_of_nan_is_kept_each_time() {
    let (snap, ign, per) = sets();
    let nan = f64::NAN.to_bits();
    let chunk = vec![
        entry("PARM", Some(1), vec![("Value", LogValue::F64(nan))]),
        entry("PARM", Some(2), vec![("Value", LogValue::F64(nan))]),
        entry("PARM", Some(3), vec![("Value", LogValue::F64(0.0f64.to_bits()))]),
        entry("PARM", Some(4), vec![("Value", LogValue::F64((-0.0f64).to_bits()))]),
    ];
    let res = process_chunk(chunk, Duration::from_secs(1), &snap, &ign, &per);
    // NaN equals nothing, so both are kept; -0.0 equals 0.0, so it is not.
    assert_eq!(res.snapshots[0].fields.len(), 3);
}

#[test]
fn process_with_config_windows_and_groups() {
    let entries = vec![
        entry("FMT", None, vec![]),
        entry("ATT", Some(0), vec![("Roll", LogValue::I64(1))]),
        entry("ATT", Some(1_000_000), vec![("Roll", LogValue::I64(2))]),
        entry("ATT", Some(3_000_000), vec![("Roll", LogValue::I64(3))]),
    ];
    let config = PreprocessorConfig::default().window_duration_set(Duration::from_secs(2));
    let res = process_with_config(entries, config);
    assert_eq!(res.len(), 2);
    assert_eq!(samples_of(&res[0], "ATT", "Roll").unwrap().len(), 2);
    assert_eq!(res[1].timestamp.as_nanos(), 3_000_000_000);
    assert_eq!(samples_of(&res[1], "ATT", "Roll").unwrap().len(), 1);
}

#[test]
fn process_uses_default_twenty_second_windows() {
    let entries = vec![
        entry("ATT", Some(0), vec![("Roll", LogValue::I64(1))]),
        entry("GPS", None, vec![]),
        entry("ATT", Some(20_000_000), vec![("Roll", LogValue::I64(2))]),
        entry("ATT", Some(20_000_001), vec![("Roll", LogValue::I64(3))]),
    ];
    let res = process(entries);
    assert_eq!(res.len(), 2);
    assert_eq!(res[0].duration.as_nanos(), 20_000_000_000);
}

#[test]
fn default_config_contents() {
    let c = PreprocessorConfig::default();
    assert_eq!(c.window_duration.as_nanos(), 20_000_000_000);
    for m in ["FMT", "FMTU", "FMU", "UNIT", "MULT", "FILE", "MSG", "VER", "GPS", "PARM"] {
        assert!(c.messages_to_ignore.contains(m));
    }
    assert!(!c.messages_to_ignore.contains("ATT"));
    for f in ["Mode", "Name", "Value", "ModeNum", "Rsn"] {
        assert!(c.snapshoting_fields.contains(f));
    }
    assert!(c.ignore_fields.contains("TimeUS") && c.ignore_fields.contains("Default"));
    assert!(c.msg_with_ignored_fields.get("PIDP").unwrap().contains("I"));
    assert!(c.msg_with_ignored_fields.get("PIDR").is_none());
}

#[test]
fn config_builders_replace_one_setting() {
    let c = PreprocessorConfig::default()
        .messages_to_ignore(vec!["X".to_string(), "X".to_string()])
        .snapshoting_fields(vec!["S".to_string()])
        .ignore_fields(vec![]);
    assert!(c.messages_to_ignore.contains("X"));
    assert_eq!(c.messages_to_ignore.len(), 1);
    assert!(!c.messages_to_ignore.contains("FMT"));
    assert!(c.snapshoting_fields.contains("S") && !c.snapshoting_fields.contains("Mode"));
    assert!(c.ignore_fields.is_empty());
    assert_eq!(c.window_duration.as_nanos(), 20_000_000_000);
}

#[test]
fn float_equality_on_bits() {
    assert!(f64_bits_equal(0.0f64.to_bits(), (-0.0f64).to_bits()));
    assert!(!f64_bits_equal(f64::NAN.to_bits(), f64::NAN.to_bits()));
    assert!(f64_bits_equal(1.5f64.to_bits(), 1.5f64.to_bits()));
    assert!(!f64_bits_equal(1.5f64.to_bits(), 2.5f64.to_bits()));
    assert!(f64_bits_equal(f64::INFINITY.to_bits(), f64::INFINITY.to_bits()));
    let a = LogValue::String("x".to_string());
    assert!(a.equals(&LogValue::String("x".to_string())));
    assert!(!a.equals(&LogValue::U64(1)));
    assert!(LogValue::Array(vec![1, 2]).equals(&LogValue::Array(vec![1, 2])));
    assert!(!LogValue::Array(vec![1, 2]).equals(&LogValue::Array(vec![1])));
    assert!(!LogValue::String("x".to_string()).is_numeric());
    assert!(LogValue::Time(Duration::zero()).is_numeric());
}

#[test]
fn flight_phase_names() {
    assert_eq!(FlightPhase::Stabilize.as_str(), "STABILIZE");
    assert_eq!(FlightPhase::Rtl.as_str(), "RTL");
    assert_eq!(FlightPhase::Unknown.as_str(), "UNKNOWN");
}

#[test]
fn value_equality_is_symmetric_and_reflexive_off_nan() {
    let values = vec![
        LogValue::F64(0.0f64.to_bits()),
        LogValue::F64((-0.0f64).to_bits()),
        LogValue::F64(f64::NAN.to_bits()),
        LogValue::U64(3),
        LogValue::I64(3),
        LogValue::String("x".to_string()),
        LogValue::Array(vec![1]),
    ];
    for a in &values {
        for b in &values {
            assert_eq!(a.equals(b), b.equals(a));
        }
    }
    for (i, a) in values.iter().enumerate() {
        assert_eq!(a.equals(a), i != 2);
    }
}

#[test]
fn non_numeric_samples_are_found_first_in_stream_order() {
    let config = PreprocessorConfig::default();
    let entries = vec![
        entry("MSG", Some(0), vec![("Message", LogValue::String("armed".to_string()))]),
        entry("MODE", Some(1), vec![("Mode", LogValue::String("LOITER".to_string()))]),
        entry("ATT", Some(2), vec![("Roll", LogValue::I64(1))]),
    ];
    assert!(first_non_numeric_field(&entries, &config).is_none());
    let entries = vec![
        entry("ATT", Some(0), vec![("Roll", LogValue::I64(1))]),
        entry("CMD", Some(1), vec![("TimeUS", LogValue::Array(vec![1])), ("Cmd", LogValue::Array(vec![2]))]),
        entry("ERR", Some(2), vec![("Subsys", LogValue::String("x".to_string()))]),
    ];
    assert_eq!(first_non_numeric_field(&entries, &config), Some("Cmd".to_string()));
}
