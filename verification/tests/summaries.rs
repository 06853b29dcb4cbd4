use ullam::aggregate::{
    signal_order, Correlation, Coverage, Event, FlightAggregation, FlightInfo, FlightPhase,
    Observation, ObservationCategory, PhaseType, Severity, ShownEvent, Signal, TimeRange,
};
use ullam::preprocess::{NumericStats, WindowIrRecord};
use ullam::text::{text_less, text_order, TextBlock};
use ullam::time::Duration;

fn s(text: &str) -> String {
    text.to_string()
}

fn signal(message: &str, field: &str, count: u64) -> Signal {
    Signal {
        message: s(message),
        field: s(field),
        unit: None,
        min: s("0.000000"),
        max: s("1.000000"),
        mean: s("0.500000"),
        stddev: s("0.100000"),
        count,
        first: None,
        last: None,
    }
}

#[test]
fn text_order_is_lexicographic() {
    assert!(text_less("ATT", "GPS"));
    assert!(!text_less("GPS", "ATT"));
    assert!(text_less("GPS", "GPS2"));
    assert!(!text_less("GPS", "GPS"));
    assert!(text_less("", "a"));
    assert!(text_less("Z", "a"));
    assert!(text_less("a", "é"));
}

#[test]
fn signals_are_ordered_by_message_then_field() {
    let signals = vec![
        signal("GPS", "Spd", 1),
        signal("ATT", "Roll", 2),
        signal("GPS", "Alt", 3),
        signal("ATT", "Pitch", 4),
        signal("GPS", "Alt", 5),
    ];
    assert_eq!(signal_order(&signals), vec![3, 1, 2, 4, 0]);
    assert_eq!(signal_order(&vec![]), Vec::<usize>::new());
}

#[test]
fn summary_lines() {
    let phase = FlightPhase {
        phase_type: PhaseType::Takeoff,
        time_range: TimeRange { start: s("1.000"), end: s("2.500") },
        mode: Some(s("LOITER")),
        evidence: vec![s("RCIN.C3 high"), s("ALT rising")],
    };
    assert_eq!(phase.render(), "PHASE takeoff 1.000..2.500s mode=LOITER evidence=RCIN.C3 high; ALT rising\n");
    let event = ShownEvent {
        event: Event {
            timestamp: Duration::from_millis(12_500),
            event_type: s("DISARM"),
            description: s("vehicle disarmed"),
            severity: Severity::Warning,
            evidence: vec![],
        },
        seconds: s("12.500"),
    };
    assert_eq!(event.render(), "EVENT 12.500s DISARM severity=warning vehicle disarmed\n");
    let observation = Observation {
        time_range: TimeRange { start: s("0.000"), end: s("3.000") },
        category: ObservationCategory::Vibration,
        description: s("high"),
        evidence: vec![s("VIBE.VibeZ")],
    };
    assert_eq!(observation.render(), "OBS 0.000..3.000s category=vibration high evidence=VIBE.VibeZ\n");
    let correlation = Correlation {
        time_range: TimeRange { start: s("0.000"), end: s("1.000") },
        input: s("RCIN.C1"),
        response: s("ATT.Roll"),
        relationship: s("follows"),
        lag_seconds: Some(s("0.120")),
        strength: None,
        evidence: vec![],
    };
    assert_eq!(correlation.render(), "CORR 0.000..1.000s RCIN.C1 -> ATT.Roll relationship=follows lag=0.120s\n");
    let mut sig = signal("BAT", "Volt", 42);
    sig.unit = Some(s("V"));
    sig.last = Some(s("11.100000"));
    assert_eq!(
        sig.render(),
        "SIGNAL BAT.Volt unit=V 0.000000..1.000000 μ=0.500000 o=0.100000 n=42 last=11.100000\n"
    );
    let info = FlightInfo { start_time: s("0.000"), duration: s("60.000"), vehicle_type: None, firmware: Some(s("4.5")) };
    assert_eq!(info.render(), "  start=0.000s\n  duration=60.000s\n  firmware=4.5\n");
}

#[test]
fn full_summary() {
    let summary = FlightAggregation {
        schema_version: s("1"),
        flight: FlightInfo { start_time: s("0.000"), duration: s("10.000"), vehicle_type: Some(s("copter")), firmware: None },
        phases: vec![FlightPhase {
            phase_type: PhaseType::Cruise,
            time_range: TimeRange { start: s("1.000"), end: s("9.000") },
            mode: None,
            evidence: vec![],
        }],
        events: vec![],
        observations: vec![],
        correlations: vec![],
        signals: vec![signal("GPS", "Spd", 7), signal("ATT", "Roll", 9)],
        coverage: Coverage { available_messages: vec![s("ATT"), s("GPS")], missing_messages: vec![] },
    };
    let expected = String::new()
        + "FLIGHT\n  schema=1\n  start=0.000s\n  duration=10.000s\n  vehicle=copter\n"
        + "\nPHASES\nPHASE cruise 1.000..9.000s\n\n"
        + "\nSIGNALS\n"
        + "SIGNAL ATT.Roll 0.000000..1.000000 μ=0.500000 o=0.100000 n=9\n\n"
        + "SIGNAL GPS.Spd 0.000000..1.000000 μ=0.500000 o=0.100000 n=7\n\n"
        + "\nCOVERAGE\n  available=ATT,GPS\n";
    assert_eq!(summary.render(), expected);
}

#[test]
fn window_block_lists_fields_by_name() {
    let stats = |count: usize| NumericStats {
        min: s("-1.000000"),
        max: s("1.000000"),
        mean: s("0.000000"),
        stddev: s("0.500000"),
        count,
        oscillation_index: s("0.500000"),
    };
    let record = WindowIrRecord {
        msg: s("ATT"),
        stats: vec![(s("Yaw"), stats(3)), (s("Pitch"), stats(2)), (s("DesRoll"), stats(1))],
    };
    assert_eq!(
        record.render(),
        "W ATT\n  DesRoll -1.000000..1.000000 μ=0.000000 o=0.500000 n=1 osc=0.500000\n  Pitch -1.000000..1.000000 μ=0.000000 o=0.500000 n=2 osc=0.500000\n  Yaw -1.000000..1.000000 μ=0.000000 o=0.500000 n=3 osc=0.500000\n"
    );
    let empty = WindowIrRecord { msg: s("GPS"), stats: vec![] };
    assert_eq!(empty.render(), "W GPS\n");
}

#[test]
fn text_order_sorts_stably() {
    let keys = vec![s("b"), s("a"), s("b"), s(""), s("a")];
    assert_eq!(text_order(&keys), vec![3, 1, 4, 0, 2]);
}

#[test]
fn summary_text_does_not_depend_on_signal_order() {
    let summary = |signals: Vec<Signal>| FlightAggregation {
        schema_version: s("1"),
        flight: FlightInfo { start_time: s("0.000"), duration: s("1.000"), vehicle_type: None, firmware: None },
        phases: vec![],
        events: vec![],
        observations: vec![],
        correlations: vec![],
        signals,
        coverage: Coverage { available_messages: vec![], missing_messages: vec![] },
    };
    let a = summary(vec![signal("GPS", "Spd", 1), signal("ATT", "Roll", 2), signal("ATT", "Pitch", 3)]);
    let b = summary(vec![signal("ATT", "Pitch", 3), signal("GPS", "Spd", 1), signal("ATT", "Roll", 2)]);
    assert_eq!(a.render(), b.render());
}
