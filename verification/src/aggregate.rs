use vstd::prelude::*;
use vstd::string::*;

use crate::text::{
    append_framed, append_optional, decimal, decimal_string, framed, join_strings, joined, optional_text,
    index_listed, lists_each_index, render_all, section, string_views, str_eq, text_less, text_lt, texts, TextBlock,
};
use crate::text::{lemma_text_lt_irreflexive, lemma_text_lt_total, lemma_text_lt_transitive};
use crate::text::{lemma_listed_line_occurs, lemma_occurs_in_transitive, lemma_seven_parts, occurs_in};
use crate::time::Duration;

verus! {

/// The kind of a phase in a flight summary.
pub enum PhaseType {
    Preflight,
    Takeoff,
    Climb,
    Cruise,
    Maneuver,
    Descent,
    Landing,
    Postflight,
    Unknown,
}

impl PhaseType {
    pub open spec fn label(&self) -> Seq<char> {
        match self {
            PhaseType::Preflight => "preflight"@,
            PhaseType::Takeoff => "takeoff"@,
            PhaseType::Climb => "climb"@,
            PhaseType::Cruise => "cruise"@,
            PhaseType::Maneuver => "maneuver"@,
            PhaseType::Descent => "descent"@,
            PhaseType::Landing => "landing"@,
            PhaseType::Postflight => "postflight"@,
            PhaseType::Unknown => "unknown"@,
        }
    }

    /// The lower-case name under which the phase is shown and serialised.
    pub fn as_str(&self) -> (res: &'static str)
        ensures
            res@ == self.label(),
    {
        match self {
            PhaseType::Preflight => "preflight",
            PhaseType::Takeoff => "takeoff",
            PhaseType::Climb => "climb",
            PhaseType::Cruise => "cruise",
            PhaseType::Maneuver => "maneuver",
            PhaseType::Descent => "descent",
            PhaseType::Landing => "landing",
            PhaseType::Postflight => "postflight",
            PhaseType::Unknown => "unknown",
        }
    }
}

/// How serious an event is.
pub enum Severity {
    Info,
    Warning,
    Critical,
}

impl Severity {
    pub open spec fn label(&self) -> Seq<char> {
        match self {
            Severity::Info => "info"@,
            Severity::Warning => "warning"@,
            Severity::Critical => "critical"@,
        }
    }

    pub fn as_str(&self) -> (res: &'static str)
        ensures
            res@ == self.label(),
    {
        match self {
            Severity::Info => "info",
            Severity::Warning => "warning",
            Severity::Critical => "critical",
        }
    }
}

/// A notable event of a flight.
pub struct Event {
    pub timestamp: Duration,
    pub event_type: String,
    pub description: String,
    pub severity: Severity,
    pub evidence: Vec<String>,
}

/// The subsystem an observation is about.
pub enum ObservationCategory {
    Attitude,
    Navigation,
    Estimator,
    Gps,
    Imu,
    Vibration,
    Power,
    Rc,
    Motor,
    Control,
    System,
    Other,
}

impl ObservationCategory {
    pub open spec fn label(&self) -> Seq<char> {
        match self {
            ObservationCategory::Attitude => "attitude"@,
            ObservationCategory::Navigation => "navigation"@,
            ObservationCategory::Estimator => "estimator"@,
            ObservationCategory::Gps => "gps"@,
            ObservationCategory::Imu => "imu"@,
            ObservationCategory::Vibration => "vibration"@,
            ObservationCategory::Power => "power"@,
            ObservationCategory::Rc => "rc"@,
            ObservationCategory::Motor => "motor"@,
            ObservationCategory::Control => "control"@,
            ObservationCategory::System => "system"@,
            ObservationCategory::Other => "other"@,
        }
    }

    pub fn as_str(&self) -> (res: &'static str)
        ensures
            res@ == self.label(),
    {
        match self {
            ObservationCategory::Attitude => "attitude",
            ObservationCategory::Navigation => "navigation",
            ObservationCategory::Estimator => "estimator",
            ObservationCategory::Gps => "gps",
            ObservationCategory::Imu => "imu",
            ObservationCategory::Vibration => "vibration",
            ObservationCategory::Power => "power",
            ObservationCategory::Rc => "rc",
            ObservationCategory::Motor => "motor",
            ObservationCategory::Control => "control",
            ObservationCategory::System => "system",
            ObservationCategory::Other => "other",
        }
    }
}

/// Which message types a summary found in the log and which it missed.
pub struct Coverage {
    pub available_messages: Vec<String>,
    pub missing_messages: Vec<String>,
}

impl TextBlock for Coverage {
    /// The coverage block of a flight summary: the available messages on one
    /// line, the missing ones on a second line when there are any.
    open spec fn text(&self) -> Seq<char> {
        "  available="@ + joined(string_views(self.available_messages@), ","@) + "\n"@ + section(
            self.missing_messages@.len() > 0,
            "  missing="@,
            joined(string_views(self.missing_messages@), ","@) + "\n"@,
        )
    }

    fn render(&self) -> (res: String) {
        let mut out = String::from_str("  available=");
        let available = join_strings(&self.available_messages, ",");
        out.append(available.as_str());
        out.append("\n");
        let ghost first = out@;
        if self.missing_messages.len() > 0 {
            out.append("  missing=");
            let missing = join_strings(&self.missing_messages, ",");
            out.append(missing.as_str());
            out.append("\n");
            assert(out@ =~= first + ("  missing="@ + (joined(string_views(self.missing_messages@), ","@) + "\n"@)));
        } else {
            assert(out@ =~= first + Seq::<char>::empty());
        }
        out
    }
}


/// ` evidence=` and the evidence joined with `; `, when there is any.
pub open spec fn evidence_suffix(evidence: Seq<String>) -> Seq<char> {
    section(evidence.len() > 0, " evidence="@, joined(string_views(evidence), "; "@))
}

fn append_evidence(out: &mut String, evidence: &Vec<String>)
    ensures
        final(out)@ == old(out)@ + evidence_suffix(evidence@),
{
    let ghost start = out@;
    if evidence.len() > 0 {
        out.append(" evidence=");
        let joined_text = join_strings(evidence, "; ");
        out.append(joined_text.as_str());
        assert(out@ =~= start + (" evidence="@ + joined(string_views(evidence@), "; "@)));
    } else {
        assert(out@ =~= start + Seq::<char>::empty());
    }
}

/// A span of flight time. Its ends are given as the text they are shown
/// with: seconds with three decimals.
pub struct TimeRange {
    pub start: String,
    pub end: String,
}

/// What a summary knows of the flight as a whole. The start and the
/// duration are given as the text they are shown with: seconds with three
/// decimals.
pub struct FlightInfo {
    pub start_time: String,
    pub duration: String,
    pub vehicle_type: Option<String>,
    pub firmware: Option<String>,
}

impl TextBlock for FlightInfo {
    /// The start and duration lines, then the vehicle and firmware lines
    /// when they are known.
    open spec fn text(&self) -> Seq<char> {
        "  start="@ + self.start_time@ + "s\n"@ + "  duration="@ + self.duration@ + "s\n"@ + optional_text(
            self.vehicle_type,
            "  vehicle="@,
            "\n"@,
        ) + optional_text(self.firmware, "  firmware="@, "\n"@)
    }

    fn render(&self) -> (res: String) {
        let mut out = String::from_str("  start=");
        out.append(self.start_time.as_str());
        out.append("s\n");
        out.append("  duration=");
        out.append(self.duration.as_str());
        out.append("s\n");
        append_optional(&mut out, &self.vehicle_type, "  vehicle=", "\n");
        append_optional(&mut out, &self.firmware, "  firmware=", "\n");
        out
    }
}

/// A phase of the flight.
pub struct FlightPhase {
    pub phase_type: PhaseType,
    pub time_range: TimeRange,
    pub mode: Option<String>,
    pub evidence: Vec<String>,
}

impl TextBlock for FlightPhase {
    /// `PHASE <type> <start>..<end>s`, the mode and the evidence when there
    /// are any, and a line break.
    open spec fn text(&self) -> Seq<char> {
        "PHASE "@ + self.phase_type.label() + " "@ + self.time_range.start@ + ".."@ + self.time_range.end@ + "s"@
            + optional_text(self.mode, " mode="@, ""@) + evidence_suffix(self.evidence@) + "\n"@
    }

    fn render(&self) -> (res: String) {
        let mut out = String::from_str("PHASE ");
        out.append(self.phase_type.as_str());
        out.append(" ");
        out.append(self.time_range.start.as_str());
        out.append("..");
        out.append(self.time_range.end.as_str());
        out.append("s");
        append_optional(&mut out, &self.mode, " mode=", "");
        append_evidence(&mut out, &self.evidence);
        out.append("\n");
        out
    }
}

/// An event together with the text its time is shown with: seconds with
/// three decimals.
pub struct ShownEvent {
    pub event: Event,
    pub seconds: String,
}

impl TextBlock for ShownEvent {
    /// `EVENT <seconds>s <type> severity=<severity> <description>`, the
    /// evidence when there is any, and a line break.
    open spec fn text(&self) -> Seq<char> {
        "EVENT "@ + self.seconds@ + "s "@ + self.event.event_type@ + " severity="@ + self.event.severity.label() + " "@
            + self.event.description@ + evidence_suffix(self.event.evidence@) + "\n"@
    }

    fn render(&self) -> (res: String) {
        let mut out = String::from_str("EVENT ");
        out.append(self.seconds.as_str());
        out.append("s ");
        out.append(self.event.event_type.as_str());
        out.append(" severity=");
        out.append(self.event.severity.as_str());
        out.append(" ");
        out.append(self.event.description.as_str());
        append_evidence(&mut out, &self.event.evidence);
        out.append("\n");
        out
    }
}

/// Something noticed about one subsystem over a span of the flight.
pub struct Observation {
    pub time_range: TimeRange,
    pub category: ObservationCategory,
    pub description: String,
    pub evidence: Vec<String>,
}

impl TextBlock for Observation {
    /// `OBS <start>..<end>s category=<category> <description>`, the evidence
    /// when there is any, and a line break.
    open spec fn text(&self) -> Seq<char> {
        "OBS "@ + self.time_range.start@ + ".."@ + self.time_range.end@ + "s category="@ + self.category.label() + " "@
            + self.description@ + evidence_suffix(self.evidence@) + "\n"@
    }

    fn render(&self) -> (res: String) {
        let mut out = String::from_str("OBS ");
        out.append(self.time_range.start.as_str());
        out.append("..");
        out.append(self.time_range.end.as_str());
        out.append("s category=");
        out.append(self.category.as_str());
        out.append(" ");
        out.append(self.description.as_str());
        append_evidence(&mut out, &self.evidence);
        out.append("\n");
        out
    }
}

/// How one signal responded to another over a span of the flight. The lag
/// (seconds) and the strength are given as the text they are shown with,
/// with three decimals.
pub struct Correlation {
    pub time_range: TimeRange,
    pub input: String,
    pub response: String,
    pub relationship: String,
    pub lag_seconds: Option<String>,
    pub strength: Option<String>,
    pub evidence: Vec<String>,
}

impl TextBlock for Correlation {
    /// `CORR <start>..<end>s <input> -> <response> relationship=<relationship>`,
    /// the lag, the strength and the evidence when there are any, and a line
    /// break.
    open spec fn text(&self) -> Seq<char> {
        "CORR "@ + self.time_range.start@ + ".."@ + self.time_range.end@ + "s "@ + self.input@ + " -> "@ + self.response@
            + " relationship="@ + self.relationship@ + optional_text(self.lag_seconds, " lag="@, "s"@) + optional_text(
            self.strength,
            " strength="@,
            ""@,
        ) + evidence_suffix(self.evidence@) + "\n"@
    }

    fn render(&self) -> (res: String) {
        let mut out = String::from_str("CORR ");
        out.append(self.time_range.start.as_str());
        out.append("..");
        out.append(self.time_range.end.as_str());
        out.append("s ");
        out.append(self.input.as_str());
        out.append(" -> ");
        out.append(self.response.as_str());
        out.append(" relationship=");
        out.append(self.relationship.as_str());
        append_optional(&mut out, &self.lag_seconds, " lag=", "s");
        append_optional(&mut out, &self.strength, " strength=", "");
        append_evidence(&mut out, &self.evidence);
        out.append("\n");
        out
    }
}

/// Statistics of one field of one message. The statistics are given as the
/// text they are shown with, with six decimals.
pub struct Signal {
    pub message: String,
    pub field: String,
    pub unit: Option<String>,
    pub min: String,
    pub max: String,
    pub mean: String,
    pub stddev: String,
    pub count: u64,
    pub first: Option<String>,
    pub last: Option<String>,
}

impl TextBlock for Signal {
    /// `SIGNAL <message>.<field>`, the unit when known, the range, mean,
    /// standard deviation and count, the first and last values when known,
    /// and a line break.
    open spec fn text(&self) -> Seq<char> {
        "SIGNAL "@ + self.message@ + "."@ + self.field@ + optional_text(self.unit, " unit="@, ""@) + " "@ + self.min@
            + ".."@ + self.max@ + " μ="@ + self.mean@ + " o="@ + self.stddev@ + " n="@ + decimal(self.count as nat)
            + optional_text(self.first, " first="@, ""@) + optional_text(self.last, " last="@, ""@) + "\n"@
    }

    fn render(&self) -> (res: String) {
        let mut out = String::from_str("SIGNAL ");
        out.append(self.message.as_str());
        out.append(".");
        out.append(self.field.as_str());
        append_optional(&mut out, &self.unit, " unit=", "");
        out.append(" ");
        out.append(self.min.as_str());
        out.append("..");
        out.append(self.max.as_str());
        out.append(" μ=");
        out.append(self.mean.as_str());
        out.append(" o=");
        out.append(self.stddev.as_str());
        out.append(" n=");
        let count = decimal_string(self.count);
        out.append(count.as_str());
        append_optional(&mut out, &self.first, " first=", "");
        append_optional(&mut out, &self.last, " last=", "");
        out.append("\n");
        out
    }
}

/// Whether signal `x` is listed before signal `y`: by message, then by field.
pub open spec fn signal_before(x: Signal, y: Signal) -> bool {
    text_lt(x.message@, y.message@) || (x.message@ == y.message@ && text_lt(x.field@, y.field@))
}

proof fn lemma_signal_before_irreflexive(x: Signal)
    ensures
        !signal_before(x, x),
{
    lemma_text_lt_irreflexive(x.message@);
    lemma_text_lt_irreflexive(x.field@);
}

proof fn lemma_signal_before_transitive(x: Signal, y: Signal, z: Signal)
    requires
        signal_before(x, y),
        signal_before(y, z),
    ensures
        signal_before(x, z),
{
    if text_lt(x.message@, y.message@) && text_lt(y.message@, z.message@) {
        lemma_text_lt_transitive(x.message@, y.message@, z.message@);
    } else if x.message@ == y.message@ && y.message@ == z.message@ {
        lemma_text_lt_transitive(x.field@, y.field@, z.field@);
    }
}

/// Not coming before another signal is transitive: the order of signals is
/// total.
proof fn lemma_signal_not_before_transitive(x: Signal, y: Signal, z: Signal)
    requires
        !signal_before(x, y),
        !signal_before(y, z),
    ensures
        !signal_before(x, z),
{
    lemma_text_lt_total(x.message@, y.message@);
    lemma_text_lt_total(y.message@, z.message@);
    lemma_text_lt_total(x.field@, y.field@);
    lemma_text_lt_total(y.field@, z.field@);
    if signal_before(x, z) {
        if signal_before(y, x) {
            if signal_before(z, y) {
                lemma_signal_before_transitive(z, y, x);
                lemma_signal_before_transitive(x, z, x);
                lemma_signal_before_irreflexive(x);
            } else {
                lemma_signal_before_transitive(x, z, y);
            }
        } else if signal_before(z, y) {
            lemma_signal_before_transitive(z, y, z);
            lemma_signal_before_irreflexive(z);
            lemma_signal_before_transitive(x, z, y);
        }
    }
}

/// Whether `order` puts `signals` in the order they are listed in: by
/// message, then by field, signals with the same message and field in the
/// order they were given.
pub open spec fn in_signal_order(signals: Seq<Signal>, order: Seq<usize>) -> bool {
    &&& lists_each_index(order, signals.len())
    &&& forall|a: int, b: int|
        0 <= a < b < order.len() ==> !signal_before(#[trigger] signals[order[b] as int], #[trigger] signals[order[a] as int])
    &&& forall|a: int, b: int|
        0 <= a < b < order.len() && !signal_before(signals[order[a] as int], signals[order[b] as int]) ==> order[a] < order[b]
}

fn signal_less(x: &Signal, y: &Signal) -> (res: bool)
    ensures
        res == signal_before(*x, *y),
{
    if text_less(x.message.as_str(), y.message.as_str()) {
        true
    } else if str_eq(x.message.as_str(), y.message.as_str()) {
        text_less(x.field.as_str(), y.field.as_str())
    } else {
        false
    }
}

/// The order the signals of a summary are listed in: by message, then by
/// field, those with equal message and field as they were given.
pub fn signal_order(signals: &Vec<Signal>) -> (order: Vec<usize>)
    ensures
        in_signal_order(signals@, order@),
{
    let ghost s = signals@;
    let mut order: Vec<usize> = Vec::new();
    let mut i: usize = 0;
    while i < signals.len()
        invariant
            s == signals@,
            i <= s.len(),
            order@.len() == i,
            forall|k: int| 0 <= k < order@.len() ==> order@[k] < i,
            forall|a: int, b: int| 0 <= a < b < order@.len() ==> order@[a] != order@[b],
            forall|k: int| 0 <= k < i ==> #[trigger] index_listed(order@, k),
            forall|a: int, b: int|
                0 <= a < b < order@.len() ==> !signal_before(#[trigger] s[order@[b] as int], #[trigger] s[order@[a] as int]),
            forall|a: int, b: int|
                0 <= a < b < order@.len() && !signal_before(s[order@[a] as int], s[order@[b] as int]) ==> order@[a] < order@[b],
        decreases s.len() - i,
    {
        let mut pos: usize = order.len();
        while pos > 0 && signal_less(&signals[i], &signals[order[pos - 1]])
            invariant
                s == signals@,
                i < s.len(),
                pos <= order@.len(),
                order@.len() == i,
                forall|k: int| 0 <= k < order@.len() ==> order@[k] < i,
                forall|b: int| pos <= b < order@.len() ==> signal_before(s[i as int], #[trigger] s[order@[b] as int]),
            decreases pos,
        {
            pos = pos - 1;
        }
        proof {
            if pos > 0 {
                let p = s[order@[pos - 1] as int];
                assert(!signal_before(s[i as int], p));
                assert forall|a: int| 0 <= a < pos implies !signal_before(s[i as int], #[trigger] s[order@[a] as int]) by {
                    if a < pos - 1 {
                        assert(!signal_before(p, s[order@[a] as int]));
                        lemma_signal_not_before_transitive(s[i as int], p, s[order@[a] as int]);
                    }
                }
            }
            assert forall|b: int| pos <= b < order@.len() implies !signal_before(#[trigger] s[order@[b] as int], s[i as int]) by {
                assert(signal_before(s[i as int], s[order@[b] as int]));
                if signal_before(s[order@[b] as int], s[i as int]) {
                    lemma_signal_before_transitive(s[i as int], s[order@[b] as int], s[i as int]);
                    lemma_signal_before_irreflexive(s[i as int]);
                }
            }
        }
        let ghost old_order = order@;
        order.insert(pos, i);
        proof {
            let o = order@;
            assert(o == old_order.insert(pos as int, i));
            assert forall|k: int| 0 <= k < o.len() implies o[k] < i + 1 by {
                if k < pos {
                    assert(o[k] == old_order[k]);
                } else if k > pos {
                    assert(o[k] == old_order[k - 1]);
                }
            }
            assert forall|k: int| 0 <= k < i + 1 implies #[trigger] index_listed(o, k) by {
                if k == i {
                    assert(o[pos as int] == i);
                } else {
                    assert(index_listed(old_order, k));
                    let j = choose|j: int| 0 <= j < old_order.len() && #[trigger] old_order[j] == k;
                    if j < pos {
                        assert(o[j] == k);
                    } else {
                        assert(o[j + 1] == k);
                    }
                }
            }
            assert forall|a: int, b: int| 0 <= a < b < o.len() implies o[a] != o[b] && !signal_before(
                #[trigger] s[o[b] as int],
                #[trigger] s[o[a] as int],
            ) && (!signal_before(s[o[a] as int], s[o[b] as int]) ==> o[a] < o[b]) by {
                let oa = if a < pos { a } else { a - 1 };
                let ob = if b < pos { b } else { b - 1 };
                if a == pos {
                    assert(o[a] == i);
                    assert(o[b] == old_order[ob]);
                    assert(!signal_before(s[old_order[ob] as int], s[i as int]));
                    assert(signal_before(s[i as int], s[old_order[ob] as int]));
                } else if b == pos {
                    assert(o[b] == i);
                    assert(o[a] == old_order[oa]);
                    assert(!signal_before(s[i as int], s[old_order[oa] as int]));
                } else {
                    assert(o[a] == old_order[oa]);
                    assert(o[b] == old_order[ob]);
                    assert(oa < ob);
                }
            }
        }
        i = i + 1;
    }
    order
}

/// Whether no two signals share both message and field.
pub open spec fn distinct_keys(signals: Seq<Signal>) -> bool {
    forall|i: int, j: int|
        0 <= i < j < signals.len() ==> !(#[trigger] signals[i].message@ == #[trigger] signals[j].message@
            && signals[i].field@ == signals[j].field@)
}

/// Whether `order` lists every index of `signals` once, none after one that
/// it should come before.
pub open spec fn sorted_listing(signals: Seq<Signal>, order: Seq<usize>) -> bool {
    &&& lists_each_index(order, signals.len())
    &&& forall|a: int, b: int|
        0 <= a < b < order.len() ==> !signal_before(#[trigger] signals[order[b] as int], #[trigger] signals[order[a] as int])
}

/// With distinct keys, a sorted listing puts every signal strictly before
/// the ones that follow it.
proof fn lemma_sorted_listing_strict(signals: Seq<Signal>, order: Seq<usize>, a: int, b: int)
    requires
        distinct_keys(signals),
        sorted_listing(signals, order),
        0 <= a < b < order.len(),
    ensures
        signal_before(signals[order[a] as int], signals[order[b] as int]),
{
    let x = signals[order[a] as int];
    let y = signals[order[b] as int];
    assert(!signal_before(y, x));
    let (i, j) = if order[a] < order[b] { (order[a] as int, order[b] as int) } else { (order[b] as int, order[a] as int) };
    assert(!(signals[i].message@ == signals[j].message@ && signals[i].field@ == signals[j].field@));
    lemma_text_lt_total(x.message@, y.message@);
    lemma_text_lt_total(x.field@, y.field@);
}

/// Two sorted listings of signals with distinct keys agree up to `i`.
proof fn lemma_sorted_listings_agree(signals: Seq<Signal>, o1: Seq<usize>, o2: Seq<usize>, i: int)
    requires
        distinct_keys(signals),
        sorted_listing(signals, o1),
        sorted_listing(signals, o2),
        0 <= i <= signals.len(),
    ensures
        forall|k: int| 0 <= k < i ==> o1[k] == o2[k],
    decreases i,
{
    if i > 0 {
        let m = i - 1;
        lemma_sorted_listings_agree(signals, o1, o2, m);
        let x = o1[m];
        let y = o2[m];
        if x != y {
            assert(index_listed(o2, x as int));
            let jx = choose|j: int| 0 <= j < o2.len() && #[trigger] o2[j] == x as int;
            assert(index_listed(o1, y as int));
            let jy = choose|j: int| 0 <= j < o1.len() && #[trigger] o1[j] == y as int;
            if jx < m {
                assert(o1[jx] == x);
            }
            if jy < m {
                assert(o2[jy] == y);
            }
            assert(jx > m && jy > m);
            lemma_sorted_listing_strict(signals, o2, m, jx);
            lemma_sorted_listing_strict(signals, o1, m, jy);
            lemma_signal_before_transitive(signals[x as int], signals[y as int], signals[x as int]);
            lemma_signal_before_irreflexive(signals[x as int]);
        }
    }
}

/// A summary is shown the same whatever order its signals come in: when the
/// signals of `b` are those of `a` in another order (`b`'s `k`th is `a`'s
/// `perm[k]`th), no two share a message and field, and the rest of the two
/// summaries is the same, both are shown as the same text.
pub proof fn lemma_summary_ignores_signal_order(
    a: FlightAggregation,
    b: FlightAggregation,
    perm: Seq<usize>,
    order_a: Seq<usize>,
    order_b: Seq<usize>,
)
    requires
        a.schema_version@ == b.schema_version@,
        a.flight == b.flight,
        a.phases@ == b.phases@,
        a.events@ == b.events@,
        a.observations@ == b.observations@,
        a.correlations@ == b.correlations@,
        a.coverage == b.coverage,
        lists_each_index(perm, a.signals@.len()),
        b.signals@.len() == a.signals@.len(),
        forall|k: int| 0 <= k < b.signals@.len() ==> b.signals@[k] == a.signals@[#[trigger] perm[k] as int],
        distinct_keys(a.signals@),
        in_signal_order(a.signals@, order_a),
        in_signal_order(b.signals@, order_b),
    ensures
        a.text_in_order(order_a) == b.text_in_order(order_b),
{
    let sa = a.signals@;
    let sb = b.signals@;
    let n = sa.len();
    let q = order_b.map_values(|j: usize| perm[j as int]);
    assert forall|k: int| 0 <= k < n implies #[trigger] index_listed(q, k) by {
        assert(index_listed(perm, k));
        let j = choose|j: int| 0 <= j < perm.len() && #[trigger] perm[j] == k;
        assert(index_listed(order_b, j));
        let j2 = choose|j2: int| 0 <= j2 < order_b.len() && #[trigger] order_b[j2] == j;
        assert(q[j2] == k);
    }
    assert forall|x: int, y: int| 0 <= x < y < q.len() implies q[x] != q[y] by {
        assert(order_b[x] != order_b[y]);
        if order_b[x] < order_b[y] {
            assert(perm[order_b[x] as int] != perm[order_b[y] as int]);
        } else {
            assert(perm[order_b[y] as int] != perm[order_b[x] as int]);
        }
    }
    assert forall|x: int| 0 <= x < q.len() implies sa[q[x] as int] == sb[order_b[x] as int] by {
        assert(sb[order_b[x] as int] == sa[perm[order_b[x] as int] as int]);
    }
    assert forall|x: int, y: int| 0 <= x < y < q.len() implies !signal_before(
        #[trigger] sa[q[y] as int],
        #[trigger] sa[q[x] as int],
    ) by {
        assert(sa[q[x] as int] == sb[order_b[x] as int]);
        assert(sa[q[y] as int] == sb[order_b[y] as int]);
    }
    assert(sorted_listing(sa, q));
    assert(sorted_listing(sa, order_a));
    lemma_sorted_listings_agree(sa, order_a, q, n as int);
    assert(ordered_texts(sa, order_a) =~= ordered_texts(sb, order_b)) by {
        assert forall|x: int| 0 <= x < n implies ordered_texts(sa, order_a)[x] == ordered_texts(sb, order_b)[x] by {
            assert(order_a[x] == q[x]);
            assert(sa[q[x] as int] == sb[order_b[x] as int]);
        }
    }
}

/// The summary of a flight that the first model pass writes for one window
/// of the log.
pub struct FlightAggregation {
    pub schema_version: String,
    pub flight: FlightInfo,
    pub phases: Vec<FlightPhase>,
    pub events: Vec<ShownEvent>,
    pub observations: Vec<Observation>,
    pub correlations: Vec<Correlation>,
    /// The signal statistics, in any order.
    pub signals: Vec<Signal>,
    pub coverage: Coverage,
}

/// The texts of the signals taken in `order`.
pub open spec fn ordered_texts(signals: Seq<Signal>, order: Seq<usize>) -> Seq<Seq<char>> {
    order.map_values(|k: usize| signals[k as int].text())
}

impl FlightAggregation {
    /// The summary with its signals listed in `order`: the flight, then the
    /// phases, events, observations, correlations and signals, each section
    /// only when it has entries, each entry followed by a blank line, and
    /// the coverage.
    pub open spec fn text_in_order(&self, order: Seq<usize>) -> Seq<char> {
        "FLIGHT\n  schema="@ + self.schema_version@ + "\n"@ + self.flight.text() + section(
            self.phases@.len() > 0,
            "\nPHASES\n"@,
            framed(texts(self.phases@), ""@, "\n"@),
        ) + section(self.events@.len() > 0, "\nEVENTS\n"@, framed(texts(self.events@), ""@, "\n"@)) + section(
            self.observations@.len() > 0,
            "\nOBSERVATIONS\n"@,
            framed(texts(self.observations@), ""@, "\n"@),
        ) + section(
            self.correlations@.len() > 0,
            "\nCORRELATIONS\n"@,
            framed(texts(self.correlations@), ""@, "\n"@),
        ) + section(
            self.signals@.len() > 0,
            "\nSIGNALS\n"@,
            framed(ordered_texts(self.signals@, order), ""@, "\n"@),
        ) + "\nCOVERAGE\n"@ + self.coverage.text()
    }

    /// The summary, with its signals listed by message, then field.
    pub fn render(&self) -> (res: String)
        ensures
            exists|order: Seq<usize>| in_signal_order(self.signals@, order) && res@ == self.text_in_order(order),
    {
        let order = signal_order(&self.signals);
        let mut out = String::from_str("FLIGHT\n  schema=");
        out.append(self.schema_version.as_str());
        out.append("\n");
        let flight = self.flight.render();
        out.append(flight.as_str());
        append_blocks(&mut out, &self.phases, "\nPHASES\n");
        append_blocks(&mut out, &self.events, "\nEVENTS\n");
        append_blocks(&mut out, &self.observations, "\nOBSERVATIONS\n");
        append_blocks(&mut out, &self.correlations, "\nCORRELATIONS\n");
        append_signals(&mut out, &self.signals, &order);
        out.append("\nCOVERAGE\n");
        let coverage = self.coverage.render();
        out.append(coverage.as_str());
        assert(out@ == self.text_in_order(order@));
        out
    }
}

/// Appends `heading` and each item's text followed by a line break, when
/// there are items.
fn append_blocks<T: TextBlock>(out: &mut String, items: &Vec<T>, heading: &str)
    ensures
        final(out)@ == old(out)@ + section(items@.len() > 0, heading@, framed(texts(items@), ""@, "\n"@)),
{
    let ghost start = out@;
    if items.len() > 0 {
        out.append(heading);
        let blocks = render_all(items);
        append_framed(out, &blocks, "", "\n");
        assert(out@ =~= start + (heading@ + framed(texts(items@), ""@, "\n"@)));
    } else {
        assert(out@ =~= start + Seq::<char>::empty());
    }
}

fn append_signals(out: &mut String, signals: &Vec<Signal>, order: &Vec<usize>)
    requires
        lists_each_index(order@, signals@.len()),
    ensures
        final(out)@ == old(out)@ + section(
            signals@.len() > 0,
            "\nSIGNALS\n"@,
            framed(ordered_texts(signals@, order@), ""@, "\n"@),
        ),
{
    let ghost start = out@;
    if signals.len() > 0 {
        out.append("\nSIGNALS\n");
        let mut lines: Vec<String> = Vec::new();
        let mut i: usize = 0;
        while i < order.len()
            invariant
                lists_each_index(order@, signals@.len()),
                i <= order@.len(),
                lines@.len() == i,
                string_views(lines@) == ordered_texts(signals@, order@).take(i as int),
            decreases order@.len() - i,
        {
            let line = signals[order[i]].render();
            assert(ordered_texts(signals@, order@)[i as int] == signals@[order@[i as int] as int].text());
            lines.push(line);
            i = i + 1;
            assert(string_views(lines@) =~= ordered_texts(signals@, order@).take(i as int));
        }
        assert(ordered_texts(signals@, order@).take(order@.len() as int) =~= ordered_texts(signals@, order@));
        append_framed(out, &lines, "", "\n");
        assert(out@ =~= start + ("\nSIGNALS\n"@ + framed(ordered_texts(signals@, order@), ""@, "\n"@)));
    } else {
        assert(out@ =~= start + Seq::<char>::empty());
    }
}

/// Each PhaseType is shown by its own name, and no two share one.
pub proof fn lemma_phase_type_labels()
    ensures
        PhaseType::Preflight.label() == "preflight"@,
        PhaseType::Takeoff.label() == "takeoff"@,
        PhaseType::Climb.label() == "climb"@,
        PhaseType::Cruise.label() == "cruise"@,
        PhaseType::Maneuver.label() == "maneuver"@,
        PhaseType::Descent.label() == "descent"@,
        PhaseType::Landing.label() == "landing"@,
        PhaseType::Postflight.label() == "postflight"@,
        PhaseType::Unknown.label() == "unknown"@,
        forall|a: PhaseType, b: PhaseType| #[trigger] a.label() == #[trigger] b.label() ==> a == b,
{
    reveal_strlit("preflight");
    reveal_strlit("takeoff");
    reveal_strlit("climb");
    reveal_strlit("cruise");
    reveal_strlit("maneuver");
    reveal_strlit("descent");
    reveal_strlit("landing");
    reveal_strlit("postflight");
    reveal_strlit("unknown");
    assert forall|a: PhaseType, b: PhaseType| #[trigger] a.label() == #[trigger] b.label() implies a == b by {
        if a != b {
            match a {
                PhaseType::Preflight => {
                    assert(a.label() =~= "preflight"@);
                    assert(a.label().len() == 9 && a.label()[0] == 'p' && a.label()[1] == 'r');
                },
                PhaseType::Takeoff => {
                    assert(a.label() =~= "takeoff"@);
                    assert(a.label().len() == 7 && a.label()[0] == 't' && a.label()[1] == 'a');
                },
                PhaseType::Climb => {
                    assert(a.label() =~= "climb"@);
                    assert(a.label().len() == 5 && a.label()[0] == 'c' && a.label()[1] == 'l');
                },
                PhaseType::Cruise => {
                    assert(a.label() =~= "cruise"@);
                    assert(a.label().len() == 6 && a.label()[0] == 'c' && a.label()[1] == 'r');
                },
                PhaseType::Maneuver => {
                    assert(a.label() =~= "maneuver"@);
                    assert(a.label().len() == 8 && a.label()[0] == 'm' && a.label()[1] == 'a');
                },
                PhaseType::Descent => {
                    assert(a.label() =~= "descent"@);
                    assert(a.label().len() == 7 && a.label()[0] == 'd' && a.label()[1] == 'e');
                },
                PhaseType::Landing => {
                    assert(a.label() =~= "landing"@);
                    assert(a.label().len() == 7 && a.label()[0] == 'l' && a.label()[1] == 'a');
                },
                PhaseType::Postflight => {
                    assert(a.label() =~= "postflight"@);
                    assert(a.label().len() == 10 && a.label()[0] == 'p' && a.label()[1] == 'o');
                },
                PhaseType::Unknown => {
                    assert(a.label() =~= "unknown"@);
                    assert(a.label().len() == 7 && a.label()[0] == 'u' && a.label()[1] == 'n');
                },
            }
            match b {
                PhaseType::Preflight => {
                    assert(b.label() =~= "preflight"@);
                    assert(b.label().len() == 9 && b.label()[0] == 'p' && b.label()[1] == 'r');
                },
                PhaseType::Takeoff => {
                    assert(b.label() =~= "takeoff"@);
                    assert(b.label().len() == 7 && b.label()[0] == 't' && b.label()[1] == 'a');
                },
                PhaseType::Climb => {
                    assert(b.label() =~= "climb"@);
                    assert(b.label().len() == 5 && b.label()[0] == 'c' && b.label()[1] == 'l');
                },
                PhaseType::Cruise => {
                    assert(b.label() =~= "cruise"@);
                    assert(b.label().len() == 6 && b.label()[0] == 'c' && b.label()[1] == 'r');
                },
                PhaseType::Maneuver => {
                    assert(b.label() =~= "maneuver"@);
                    assert(b.label().len() == 8 && b.label()[0] == 'm' && b.label()[1] == 'a');
                },
                PhaseType::Descent => {
                    assert(b.label() =~= "descent"@);
                    assert(b.label().len() == 7 && b.label()[0] == 'd' && b.label()[1] == 'e');
                },
                PhaseType::Landing => {
                    assert(b.label() =~= "landing"@);
                    assert(b.label().len() == 7 && b.label()[0] == 'l' && b.label()[1] == 'a');
                },
                PhaseType::Postflight => {
                    assert(b.label() =~= "postflight"@);
                    assert(b.label().len() == 10 && b.label()[0] == 'p' && b.label()[1] == 'o');
                },
                PhaseType::Unknown => {
                    assert(b.label() =~= "unknown"@);
                    assert(b.label().len() == 7 && b.label()[0] == 'u' && b.label()[1] == 'n');
                },
            }
        }
    }
}

/// Each Severity is shown by its own name, and no two share one.
pub proof fn lemma_severity_labels()
    ensures
        Severity::Info.label() == "info"@,
        Severity::Warning.label() == "warning"@,
        Severity::Critical.label() == "critical"@,
        forall|a: Severity, b: Severity| #[trigger] a.label() == #[trigger] b.label() ==> a == b,
{
    reveal_strlit("info");
    reveal_strlit("warning");
    reveal_strlit("critical");
    assert forall|a: Severity, b: Severity| #[trigger] a.label() == #[trigger] b.label() implies a == b by {
        if a != b {
            match a {
                Severity::Info => {
                    assert(a.label() =~= "info"@);
                    assert(a.label().len() == 4 && a.label()[0] == 'i' && a.label()[1] == 'n');
                },
                Severity::Warning => {
                    assert(a.label() =~= "warning"@);
                    assert(a.label().len() == 7 && a.label()[0] == 'w' && a.label()[1] == 'a');
                },
                Severity::Critical => {
                    assert(a.label() =~= "critical"@);
                    assert(a.label().len() == 8 && a.label()[0] == 'c' && a.label()[1] == 'r');
                },
            }
            match b {
                Severity::Info => {
                    assert(b.label() =~= "info"@);
                    assert(b.label().len() == 4 && b.label()[0] == 'i' && b.label()[1] == 'n');
                },
                Severity::Warning => {
                    assert(b.label() =~= "warning"@);
                    assert(b.label().len() == 7 && b.label()[0] == 'w' && b.label()[1] == 'a');
                },
                Severity::Critical => {
                    assert(b.label() =~= "critical"@);
                    assert(b.label().len() == 8 && b.label()[0] == 'c' && b.label()[1] == 'r');
                },
            }
        }
    }
}

/// Each ObservationCategory is shown by its own name, and no two share one.
pub proof fn lemma_observation_category_labels()
    ensures
        ObservationCategory::Attitude.label() == "attitude"@,
        ObservationCategory::Navigation.label() == "navigation"@,
        ObservationCategory::Estimator.label() == "estimator"@,
        ObservationCategory::Gps.label() == "gps"@,
        ObservationCategory::Imu.label() == "imu"@,
        ObservationCategory::Vibration.label() == "vibration"@,
        ObservationCategory::Power.label() == "power"@,
        ObservationCategory::Rc.label() == "rc"@,
        ObservationCategory::Motor.label() == "motor"@,
        ObservationCategory::Control.label() == "control"@,
        ObservationCategory::System.label() == "system"@,
        ObservationCategory::Other.label() == "other"@,
        forall|a: ObservationCategory, b: ObservationCategory| #[trigger] a.label() == #[trigger] b.label() ==> a == b,
{
    reveal_strlit("attitude");
    reveal_strlit("navigation");
    reveal_strlit("estimator");
    reveal_strlit("gps");
    reveal_strlit("imu");
    reveal_strlit("vibration");
    reveal_strlit("power");
    reveal_strlit("rc");
    reveal_strlit("motor");
    reveal_strlit("control");
    reveal_strlit("system");
    reveal_strlit("other");
    assert forall|a: ObservationCategory, b: ObservationCategory| #[trigger] a.label() == #[trigger] b.label() implies a == b by {
        if a != b {
            match a {
                ObservationCategory::Attitude => {
                    assert(a.label() =~= "attitude"@);
                    assert(a.label().len() == 8 && a.label()[0] == 'a' && a.label()[1] == 't');
                },
                ObservationCategory::Navigation => {
                    assert(a.label() =~= "navigation"@);
                    assert(a.label().len() == 10 && a.label()[0] == 'n' && a.label()[1] == 'a');
                },
                ObservationCategory::Estimator => {
                    assert(a.label() =~= "estimator"@);
                    assert(a.label().len() == 9 && a.label()[0] == 'e' && a.label()[1] == 's');
                },
                ObservationCategory::Gps => {
                    assert(a.label() =~= "gps"@);
                    assert(a.label().len() == 3 && a.label()[0] == 'g' && a.label()[1] == 'p');
                },
                ObservationCategory::Imu => {
                    assert(a.label() =~= "imu"@);
                    assert(a.label().len() == 3 && a.label()[0] == 'i' && a.label()[1] == 'm');
                },
                ObservationCategory::Vibration => {
                    assert(a.label() =~= "vibration"@);
                    assert(a.label().len() == 9 && a.label()[0] == 'v' && a.label()[1] == 'i');
                },
                ObservationCategory::Power => {
                    assert(a.label() =~= "power"@);
                    assert(a.label().len() == 5 && a.label()[0] == 'p' && a.label()[1] == 'o');
                },
                ObservationCategory::Rc => {
                    assert(a.label() =~= "rc"@);
                    assert(a.label().len() == 2 && a.label()[0] == 'r' && a.label()[1] == 'c');
                },
                ObservationCategory::Motor => {
                    assert(a.label() =~= "motor"@);
                    assert(a.label().len() == 5 && a.label()[0] == 'm' && a.label()[1] == 'o');
                },
                ObservationCategory::Control => {
                    assert(a.label() =~= "control"@);
                    assert(a.label().len() == 7 && a.label()[0] == 'c' && a.label()[1] == 'o');
                },
                ObservationCategory::System => {
                    assert(a.label() =~= "system"@);
                    assert(a.label().len() == 6 && a.label()[0] == 's' && a.label()[1] == 'y');
                },
                ObservationCategory::Other => {
                    assert(a.label() =~= "other"@);
                    assert(a.label().len() == 5 && a.label()[0] == 'o' && a.label()[1] == 't');
                },
            }
            match b {
                ObservationCategory::Attitude => {
                    assert(b.label() =~= "attitude"@);
                    assert(b.label().len() == 8 && b.label()[0] == 'a' && b.label()[1] == 't');
                },
                ObservationCategory::Navigation => {
                    assert(b.label() =~= "navigation"@);
                    assert(b.label().len() == 10 && b.label()[0] == 'n' && b.label()[1] == 'a');
                },
                ObservationCategory::Estimator => {
                    assert(b.label() =~= "estimator"@);
                    assert(b.label().len() == 9 && b.label()[0] == 'e' && b.label()[1] == 's');
                },
                ObservationCategory::Gps => {
                    assert(b.label() =~= "gps"@);
                    assert(b.label().len() == 3 && b.label()[0] == 'g' && b.label()[1] == 'p');
                },
                ObservationCategory::Imu => {
                    assert(b.label() =~= "imu"@);
                    assert(b.label().len() == 3 && b.label()[0] == 'i' && b.label()[1] == 'm');
                },
                ObservationCategory::Vibration => {
                    assert(b.label() =~= "vibration"@);
                    assert(b.label().len() == 9 && b.label()[0] == 'v' && b.label()[1] == 'i');
                },
                ObservationCategory::Power => {
                    assert(b.label() =~= "power"@);
                    assert(b.label().len() == 5 && b.label()[0] == 'p' && b.label()[1] == 'o');
                },
                ObservationCategory::Rc => {
                    assert(b.label() =~= "rc"@);
                    assert(b.label().len() == 2 && b.label()[0] == 'r' && b.label()[1] == 'c');
                },
                ObservationCategory::Motor => {
                    assert(b.label() =~= "motor"@);
                    assert(b.label().len() == 5 && b.label()[0] == 'm' && b.label()[1] == 'o');
                },
                ObservationCategory::Control => {
                    assert(b.label() =~= "control"@);
                    assert(b.label().len() == 7 && b.label()[0] == 'c' && b.label()[1] == 'o');
                },
                ObservationCategory::System => {
                    assert(b.label() =~= "system"@);
                    assert(b.label().len() == 6 && b.label()[0] == 's' && b.label()[1] == 'y');
                },
                ObservationCategory::Other => {
                    assert(b.label() =~= "other"@);
                    assert(b.label().len() == 5 && b.label()[0] == 'o' && b.label()[1] == 't');
                },
            }
        }
    }
}

/// A summary shows all its sections: it opens with the flight block and
/// closes with the coverage, and each of its phases, events, observations,
/// correlations and signals, when there are any, is shown under its
/// heading, one entry after the other in order.
#[verifier::rlimit(40)]
pub proof fn lemma_summary_sections(a: FlightAggregation, order: Seq<usize>)
    requires
        lists_each_index(order, a.signals@.len()),
    ensures
        ("FLIGHT\n  schema="@ + a.schema_version@ + "\n"@ + a.flight.text()).is_prefix_of(a.text_in_order(order)),
        ("\nCOVERAGE\n"@ + a.coverage.text()).is_suffix_of(a.text_in_order(order)),
        a.phases@.len() > 0 ==> occurs_in(
            a.text_in_order(order),
            "\nPHASES\n"@ + framed(texts(a.phases@), ""@, "\n"@),
        ),
        a.events@.len() > 0 ==> occurs_in(
            a.text_in_order(order),
            "\nEVENTS\n"@ + framed(texts(a.events@), ""@, "\n"@),
        ),
        a.observations@.len() > 0 ==> occurs_in(
            a.text_in_order(order),
            "\nOBSERVATIONS\n"@ + framed(texts(a.observations@), ""@, "\n"@),
        ),
        a.correlations@.len() > 0 ==> occurs_in(
            a.text_in_order(order),
            "\nCORRELATIONS\n"@ + framed(texts(a.correlations@), ""@, "\n"@),
        ),
        a.signals@.len() > 0 ==> occurs_in(
            a.text_in_order(order),
            "\nSIGNALS\n"@ + framed(ordered_texts(a.signals@, order), ""@, "\n"@),
        ),
{
    let t = a.text_in_order(order);
    let head = "FLIGHT\n  schema="@ + a.schema_version@ + "\n"@ + a.flight.text();
    let fp = framed(texts(a.phases@), ""@, "\n"@);
    let fe = framed(texts(a.events@), ""@, "\n"@);
    let fo = framed(texts(a.observations@), ""@, "\n"@);
    let fc = framed(texts(a.correlations@), ""@, "\n"@);
    let fs = framed(ordered_texts(a.signals@, order), ""@, "\n"@);
    let sp = section(a.phases@.len() > 0, "\nPHASES\n"@, fp);
    let se = section(a.events@.len() > 0, "\nEVENTS\n"@, fe);
    let so = section(a.observations@.len() > 0, "\nOBSERVATIONS\n"@, fo);
    let sc = section(a.correlations@.len() > 0, "\nCORRELATIONS\n"@, fc);
    let ss = section(a.signals@.len() > 0, "\nSIGNALS\n"@, fs);
    let tail = "\nCOVERAGE\n"@ + a.coverage.text();
    assert(t == head + sp + se + so + sc + ss + tail);
    lemma_seven_parts(head, sp, se, so, sc, ss, tail);
}

/// A summary leaves nothing out: the line of every phase, event,
/// observation, correlation and signal it holds is in its text.
pub proof fn lemma_summary_shows_every_entry(a: FlightAggregation, order: Seq<usize>)
    requires
        lists_each_index(order, a.signals@.len()),
    ensures
        forall|k: int| 0 <= k < a.phases@.len() ==> occurs_in(a.text_in_order(order), #[trigger] a.phases@[k].text()),
        forall|k: int| 0 <= k < a.events@.len() ==> occurs_in(a.text_in_order(order), #[trigger] a.events@[k].text()),
        forall|k: int|
            0 <= k < a.observations@.len() ==> occurs_in(a.text_in_order(order), #[trigger] a.observations@[k].text()),
        forall|k: int|
            0 <= k < a.correlations@.len() ==> occurs_in(a.text_in_order(order), #[trigger] a.correlations@[k].text()),
        forall|k: int| 0 <= k < a.signals@.len() ==> occurs_in(a.text_in_order(order), #[trigger] a.signals@[k].text()),
{
    let t = a.text_in_order(order);
    lemma_summary_sections(a, order);
    let sp = "\nPHASES\n"@ + framed(texts(a.phases@), ""@, "\n"@);
    let se = "\nEVENTS\n"@ + framed(texts(a.events@), ""@, "\n"@);
    let so = "\nOBSERVATIONS\n"@ + framed(texts(a.observations@), ""@, "\n"@);
    let sc = "\nCORRELATIONS\n"@ + framed(texts(a.correlations@), ""@, "\n"@);
    let ss = "\nSIGNALS\n"@ + framed(ordered_texts(a.signals@, order), ""@, "\n"@);
    assert forall|k: int| 0 <= k < a.phases@.len() implies occurs_in(t, #[trigger] a.phases@[k].text()) by {
        assert(texts(a.phases@)[k] == a.phases@[k].text());
        lemma_listed_line_occurs("\nPHASES\n"@, texts(a.phases@), k);
        lemma_occurs_in_transitive(t, sp, a.phases@[k].text());
    }
    assert forall|k: int| 0 <= k < a.events@.len() implies occurs_in(t, #[trigger] a.events@[k].text()) by {
        assert(texts(a.events@)[k] == a.events@[k].text());
        lemma_listed_line_occurs("\nEVENTS\n"@, texts(a.events@), k);
        lemma_occurs_in_transitive(t, se, a.events@[k].text());
    }
    assert forall|k: int| 0 <= k < a.observations@.len() implies occurs_in(t, #[trigger] a.observations@[k].text()) by {
        assert(texts(a.observations@)[k] == a.observations@[k].text());
        lemma_listed_line_occurs("\nOBSERVATIONS\n"@, texts(a.observations@), k);
        lemma_occurs_in_transitive(t, so, a.observations@[k].text());
    }
    assert forall|k: int| 0 <= k < a.correlations@.len() implies occurs_in(t, #[trigger] a.correlations@[k].text()) by {
        assert(texts(a.correlations@)[k] == a.correlations@[k].text());
        lemma_listed_line_occurs("\nCORRELATIONS\n"@, texts(a.correlations@), k);
        lemma_occurs_in_transitive(t, sc, a.correlations@[k].text());
    }
    assert forall|k: int| 0 <= k < a.signals@.len() implies occurs_in(t, #[trigger] a.signals@[k].text()) by {
        assert(index_listed(order, k));
        let m = choose|m: int| 0 <= m < order.len() && #[trigger] order[m] == k;
        assert(ordered_texts(a.signals@, order)[m] == a.signals@[k].text());
        lemma_listed_line_occurs("\nSIGNALS\n"@, ordered_texts(a.signals@, order), m);
        lemma_occurs_in_transitive(t, ss, a.signals@[k].text());
    }
}

} // verus!
