use vstd::prelude::*;
use vstd::string::*;
use vstd::hash_map::StringHashMap;
use vstd::hash_set::StringHashSet;

use crate::chunking::{
    chunk_views, chunks_by_duration, is_window_partition, kept_have_timestamps, not_ignored,
};
use crate::config::PreprocessorConfig;
use crate::grouping::{
    chunk_start, entry_fields_numeric, field_sets, fold_entries, process_chunk, route, sampled_fields_numeric,
    snapshots_store, windows_store, ChunkSamples, Route,
};
use crate::text::{
    append_framed, decimal, decimal_string, framed, in_text_order, string_views, text_order,
};
use crate::value::{is_numeric, LogEntry, LogField};

verus! {

/// `res[i]` is the sorted form of the `i`-th window of the stream.
pub open spec fn samples_of_windows(
    res: Seq<ChunkSamples>,
    chunks: Seq<Seq<LogEntry>>,
    window: nat,
    snap: Set<Seq<char>>,
    ign: Set<Seq<char>>,
    per_msg: Map<Seq<char>, Set<Seq<char>>>,
) -> bool {
    &&& res.len() == chunks.len()
    &&& forall|i: int|
        0 <= i < res.len() ==> {
            &&& (#[trigger] res[i]).timestamp@ == chunk_start(chunks[i])
            &&& res[i].duration@ == window
            &&& snapshots_store(res[i].snapshots@, fold_entries(chunks[i], snap, ign, per_msg).0)
            &&& windows_store(res[i].windows@, fold_entries(chunks[i], snap, ign, per_msg).1)
        }
}

/// Every message that is not ignored holds a number in each field that is
/// routed to statistics.
pub open spec fn kept_fields_numeric(
    entries: Seq<LogEntry>,
    ignore: Set<Seq<char>>,
    snap: Set<Seq<char>>,
    ign: Set<Seq<char>>,
    per_msg: Map<Seq<char>, Set<Seq<char>>>,
) -> bool {
    forall|i: int|
        0 <= i < entries.len() && !ignore.contains(entries[i].name@) ==> entry_fields_numeric(
            #[trigger] entries[i],
            snap,
            ign,
            per_msg,
        )
}

proof fn lemma_flatten_contains(chunks: Seq<Seq<LogEntry>>, c: int, k: int)
    requires
        0 <= c < chunks.len(),
        0 <= k < chunks[c].len(),
    ensures
        chunks.flatten().contains(chunks[c][k]),
    decreases c,
{
    if c == 0 {
        assert(chunks.flatten()[k] == chunks[0][k]);
    } else {
        lemma_flatten_contains(chunks.drop_first(), c - 1, k);
        let rest = chunks.drop_first().flatten();
        let j = choose|j: int| 0 <= j < rest.len() && rest[j] == chunks[c][k];
        assert(chunks.flatten()[chunks[0].len() + j] == rest[j]);
    }
}

/// Each window of a stream whose kept messages sample only numbers samples
/// only numbers.
proof fn lemma_window_fields_numeric(
    source: Seq<LogEntry>,
    ignore: Set<Seq<char>>,
    chunks: Seq<Seq<LogEntry>>,
    window: nat,
    c: int,
    snap: Set<Seq<char>>,
    ign: Set<Seq<char>>,
    per_msg: Map<Seq<char>, Set<Seq<char>>>,
)
    requires
        is_window_partition(source.filter(not_ignored(ignore)), chunks, window),
        kept_fields_numeric(source, ignore, snap, ign, per_msg),
        0 <= c < chunks.len(),
    ensures
        sampled_fields_numeric(chunks[c], snap, ign, per_msg),
{
    reveal(is_window_partition);
    let pred = not_ignored(ignore);
    let kept = source.filter(pred);
    assert forall|k: int| 0 <= k < chunks[c].len() implies entry_fields_numeric(
        #[trigger] chunks[c][k],
        snap,
        ign,
        per_msg,
    ) by {
        let e = chunks[c][k];
        lemma_flatten_contains(chunks, c, k);
        assert(kept.contains(e));
        let m = choose|m: int| 0 <= m < kept.len() && kept[m] == e;
        source.lemma_filter_pred(pred, m);
        source.lemma_filter_contains_rev(pred, e);
        let t = choose|t: int| 0 <= t < source.len() && source[t] == e;
        assert(!ignore.contains(source[t].name@));
    }
}

/// The name of the first field, in stream order, that a message which is
/// not ignored routes to statistics although it holds no number; `None`
/// when there is none.
pub fn first_non_numeric_field(source: &Vec<LogEntry>, config: &PreprocessorConfig) -> (res: Option<String>)
    ensures
        res is None <==> kept_fields_numeric(
            source@,
            config.messages_to_ignore@,
            config.snapshoting_fields@,
            config.ignore_fields@,
            field_sets(config.msg_with_ignored_fields),
        ),
        res matches Some(name) ==> exists|i: int, j: int|
            {
                &&& 0 <= i < source@.len()
                &&& !config.messages_to_ignore@.contains(source@[i].name@)
                &&& 0 <= j < source@[i].fields@.len()
                &&& route(
                    source@[i].name@,
                    #[trigger] source@[i].fields@[j].name@,
                    config.snapshoting_fields@,
                    config.ignore_fields@,
                    field_sets(config.msg_with_ignored_fields),
                ) is Stat
                &&& !is_numeric(source@[i].fields@[j].value)
                &&& name@ == source@[i].fields@[j].name@
            },
{
    let ghost ignore = config.messages_to_ignore@;
    let ghost snap = config.snapshoting_fields@;
    let ghost ign = config.ignore_fields@;
    let ghost per_msg = field_sets(config.msg_with_ignored_fields);
    let mut i: usize = 0;
    while i < source.len()
        invariant
            i <= source@.len(),
            ignore == config.messages_to_ignore@,
            snap == config.snapshoting_fields@,
            ign == config.ignore_fields@,
            per_msg == field_sets(config.msg_with_ignored_fields),
            forall|k: int|
                0 <= k < i && !ignore.contains(source@[k].name@) ==> entry_fields_numeric(
                    #[trigger] source@[k],
                    snap,
                    ign,
                    per_msg,
                ),
        decreases source@.len() - i,
    {
        let entry = &source[i];
        if !config.messages_to_ignore.contains(entry.name.as_str()) {
            let mut j: usize = 0;
            while j < entry.fields.len()
                invariant
                    i < source@.len(),
                    *entry == source@[i as int],
                    ignore == config.messages_to_ignore@,
                    !ignore.contains(source@[i as int].name@),
                    j <= entry.fields@.len(),
                    snap == config.snapshoting_fields@,
                    ign == config.ignore_fields@,
                    per_msg == field_sets(config.msg_with_ignored_fields),
                    forall|l: int|
                        0 <= l < j && route(entry.name@, #[trigger] entry.fields@[l].name@, snap, ign, per_msg) is Stat
                            ==> is_numeric(entry.fields@[l].value),
                decreases entry.fields@.len() - j,
            {
                let field: &LogField = &entry.fields[j];
                let per_msg_skip = match config.msg_with_ignored_fields.get(entry.name.as_str()) {
                    Some(set) => set.contains(field.name.as_str()),
                    None => false,
                };
                let sampled = !(config.ignore_fields.contains(field.name.as_str()) || per_msg_skip)
                    && !config.snapshoting_fields.contains(field.name.as_str());
                assert(sampled == (route(entry.name@, field.name@, snap, ign, per_msg) is Stat));
                if sampled && !field.value.is_numeric() {
                    let name = field.name.clone();
                    proof {
                        let e = source@[i as int];
                        assert(e.fields@[j as int].name@ == name@);
                        assert(route(e.name@, e.fields@[j as int].name@, snap, ign, per_msg) is Stat);
                        assert(!is_numeric(e.fields@[j as int].value));
                        assert(!entry_fields_numeric(e, snap, ign, per_msg));
                        assert(!kept_fields_numeric(source@, ignore, snap, ign, per_msg));
                    }
                    return Some(name);
                }
                j = j + 1;
            }
        }
        i = i + 1;
    }
    None
}

/// Preprocesses a message stream: drops the ignored messages, cuts the rest
/// into windows of the configured length and sorts the fields of each window
/// into snapshots and samples.
pub fn process_with_config(source: Vec<LogEntry>, config: PreprocessorConfig) -> (res: Vec<ChunkSamples>)
    requires
        config.window_duration@ != 0,
        kept_have_timestamps(source@, config.messages_to_ignore@),
        kept_fields_numeric(
            source@,
            config.messages_to_ignore@,
            config.snapshoting_fields@,
            config.ignore_fields@,
            field_sets(config.msg_with_ignored_fields),
        ),
    ensures
        exists|chunks: Seq<Seq<LogEntry>>|
            {
                &&& is_window_partition(
                    source@.filter(not_ignored(config.messages_to_ignore@)),
                    chunks,
                    config.window_duration@,
                )
                &&& samples_of_windows(
                    res@,
                    chunks,
                    config.window_duration@,
                    config.snapshoting_fields@,
                    config.ignore_fields@,
                    field_sets(config.msg_with_ignored_fields),
                )
            },
{
    let PreprocessorConfig {
        window_duration,
        messages_to_ignore,
        snapshoting_fields,
        ignore_fields,
        msg_with_ignored_fields,
    } = config;
    let ghost source_view = source@;
    let chunks = chunks_by_duration(source, window_duration, &messages_to_ignore);
    let ghost views = chunk_views(chunks@);
    let ghost input = chunks@;
    let mut res: Vec<ChunkSamples> = Vec::new();
    for chunk in it: chunks.into_iter()
        invariant
            it.seq() == input,
            views == chunk_views(input),
            is_window_partition(
                source_view.filter(not_ignored(messages_to_ignore@)),
                views,
                window_duration@,
            ),
            kept_fields_numeric(
                source_view,
                messages_to_ignore@,
                snapshoting_fields@,
                ignore_fields@,
                field_sets(msg_with_ignored_fields),
            ),
            samples_of_windows(
                res@,
                views.take(it.index() as int),
                window_duration@,
                snapshoting_fields@,
                ignore_fields@,
                field_sets(msg_with_ignored_fields),
            ),
    {
        let ghost idx = it.index() as int;
        assert(chunk == input[idx]);
        assert(views[idx] == chunk@);
        proof {
            lemma_window_fields_numeric(
                source_view,
                messages_to_ignore@,
                views,
                window_duration@,
                idx,
                snapshoting_fields@,
                ignore_fields@,
                field_sets(msg_with_ignored_fields),
            );
        }
        let samples = process_chunk(
            chunk,
            window_duration,
            &snapshoting_fields,
            &ignore_fields,
            &msg_with_ignored_fields,
        );
        res.push(samples);
        proof {
            assert(views.take(idx + 1) =~= views.take(idx).push(views[idx]));
        }
    }
    proof {
        assert(views.take(views.len() as int) =~= views);
    }
    res
}

/// Preprocesses a message stream with the default settings.
pub fn process(source: Vec<LogEntry>) -> (res: Vec<ChunkSamples>)
    requires
        kept_have_timestamps(
            source@,
            set!["FMT"@, "FMTU"@, "FMU"@, "UNIT"@, "MULT"@, "FILE"@, "MSG"@, "VER"@, "GPS"@, "PARM"@],
        ),
        kept_fields_numeric(
            source@,
            set!["FMT"@, "FMTU"@, "FMU"@, "UNIT"@, "MULT"@, "FILE"@, "MSG"@, "VER"@, "GPS"@, "PARM"@],
            set!["Mode"@, "Name"@, "Value"@, "ModeNum"@, "Rsn"@],
            set!["TimeUS"@, "Default"@],
            map!["PIDP"@ => set!["I"@]],
        ),
    ensures
        exists|chunks: Seq<Seq<LogEntry>>|
            {
                &&& is_window_partition(
                    source@.filter(
                        not_ignored(
                            set![
                                "FMT"@, "FMTU"@, "FMU"@, "UNIT"@, "MULT"@, "FILE"@, "MSG"@, "VER"@, "GPS"@, "PARM"@
                            ],
                        ),
                    ),
                    chunks,
                    20_000_000_000,
                )
                &&& samples_of_windows(
                    res@,
                    chunks,
                    20_000_000_000,
                    set!["Mode"@, "Name"@, "Value"@, "ModeNum"@, "Rsn"@],
                    set!["TimeUS"@, "Default"@],
                    map!["PIDP"@ => set!["I"@]],
                )
            },
{
    let config = PreprocessorConfig::default();
    process_with_config(source, config)
}


/// The phase of flight the preprocessor names.
pub enum FlightPhase {
    Stabilize,
    Loiter,
    Rtl,
    Flip,
    Crashing,
    Unknown,
}

impl FlightPhase {
    pub open spec fn label(&self) -> Seq<char> {
        match self {
            FlightPhase::Stabilize => "STABILIZE"@,
            FlightPhase::Loiter => "LOITER"@,
            FlightPhase::Rtl => "RTL"@,
            FlightPhase::Flip => "FLIP"@,
            FlightPhase::Crashing => "CRASHING"@,
            FlightPhase::Unknown => "UNKNOWN"@,
        }
    }

    /// The upper-case name of the phase.
    pub fn as_str(&self) -> (res: &'static str)
        ensures
            res@ == self.label(),
    {
        match self {
            FlightPhase::Stabilize => "STABILIZE",
            FlightPhase::Loiter => "LOITER",
            FlightPhase::Rtl => "RTL",
            FlightPhase::Flip => "FLIP",
            FlightPhase::Crashing => "CRASHING",
            FlightPhase::Unknown => "UNKNOWN",
        }
    }
}


/// Statistics of the samples of one field over a window. The numbers other
/// than the count are given as the text they are shown with: six decimals.
pub struct NumericStats {
    pub min: String,
    pub max: String,
    pub mean: String,
    pub stddev: String,
    pub count: usize,
    pub oscillation_index: String,
}

/// The line of one field in a window block: its name, range, mean, standard
/// deviation, count and oscillation index.
pub open spec fn stats_line(field: Seq<char>, stats: NumericStats) -> Seq<char> {
    "  "@ + field + " "@ + stats.min@ + ".."@ + stats.max@ + " μ="@ + stats.mean@ + " o="@ + stats.stddev@ + " n="@
        + decimal(stats.count as nat) + " osc="@ + stats.oscillation_index@ + "\n"@
}

fn render_stats_line(field: &String, stats: &NumericStats) -> (res: String)
    ensures
        res@ == stats_line(field@, *stats),
{
    let mut out = String::from_str("  ");
    out.append(field.as_str());
    out.append(" ");
    out.append(stats.min.as_str());
    out.append("..");
    out.append(stats.max.as_str());
    out.append(" μ=");
    out.append(stats.mean.as_str());
    out.append(" o=");
    out.append(stats.stddev.as_str());
    out.append(" n=");
    let count = decimal_string(stats.count as u64);
    out.append(count.as_str());
    out.append(" osc=");
    out.append(stats.oscillation_index.as_str());
    out.append("\n");
    out
}

/// The statistics of the sampled fields of one message over a window, one
/// entry per field, in any order.
pub struct WindowIrRecord {
    pub msg: String,
    pub stats: Vec<(String, NumericStats)>,
}

pub open spec fn field_names(stats: Seq<(String, NumericStats)>) -> Seq<Seq<char>> {
    stats.map_values(|e: (String, NumericStats)| e.0@)
}

/// The lines of the fields taken in `order`.
pub open spec fn ordered_lines(stats: Seq<(String, NumericStats)>, order: Seq<usize>) -> Seq<Seq<char>> {
    order.map_values(|k: usize| stats_line(stats[k as int].0@, stats[k as int].1))
}

impl WindowIrRecord {
    /// `W <message>` and the line of each field, the fields taken in `order`.
    pub open spec fn text_in_order(&self, order: Seq<usize>) -> Seq<char> {
        "W "@ + self.msg@ + "\n"@ + framed(ordered_lines(self.stats@, order), ""@, ""@)
    }

    /// The window block, its fields listed by name.
    pub fn render(&self) -> (res: String)
        ensures
            exists|order: Seq<usize>|
                in_text_order(field_names(self.stats@), order) && res@ == self.text_in_order(order),
    {
        let mut names: Vec<String> = Vec::new();
        let mut i: usize = 0;
        while i < self.stats.len()
            invariant
                i <= self.stats@.len(),
                names@.len() == i,
                string_views(names@) == field_names(self.stats@).take(i as int),
            decreases self.stats@.len() - i,
        {
            let name = self.stats[i].0.clone();
            names.push(name);
            i = i + 1;
            assert(string_views(names@) =~= field_names(self.stats@).take(i as int));
        }
        assert(field_names(self.stats@).take(self.stats@.len() as int) =~= field_names(self.stats@));
        let order = text_order(&names);
        let mut lines: Vec<String> = Vec::new();
        let mut k: usize = 0;
        while k < order.len()
            invariant
                in_text_order(field_names(self.stats@), order@),
                k <= order@.len(),
                lines@.len() == k,
                string_views(lines@) == ordered_lines(self.stats@, order@).take(k as int),
            decreases order@.len() - k,
        {
            let entry = &self.stats[order[k]];
            let line = render_stats_line(&entry.0, &entry.1);
            lines.push(line);
            k = k + 1;
            assert(string_views(lines@) =~= ordered_lines(self.stats@, order@).take(k as int));
        }
        assert(ordered_lines(self.stats@, order@).take(order@.len() as int) =~= ordered_lines(self.stats@, order@));
        let mut out = String::from_str("W ");
        out.append(self.msg.as_str());
        out.append("\n");
        append_framed(&mut out, &lines, "", "");
        assert(out@ == self.text_in_order(order@));
        out
    }
}

/// Each FlightPhase is shown by its own name, and no two share one.
pub proof fn lemma_flight_phase_labels()
    ensures
        FlightPhase::Stabilize.label() == "STABILIZE"@,
        FlightPhase::Loiter.label() == "LOITER"@,
        FlightPhase::Rtl.label() == "RTL"@,
        FlightPhase::Flip.label() == "FLIP"@,
        FlightPhase::Crashing.label() == "CRASHING"@,
        FlightPhase::Unknown.label() == "UNKNOWN"@,
        forall|a: FlightPhase, b: FlightPhase| #[trigger] a.label() == #[trigger] b.label() ==> a == b,
{
    reveal_strlit("STABILIZE");
    reveal_strlit("LOITER");
    reveal_strlit("RTL");
    reveal_strlit("FLIP");
    reveal_strlit("CRASHING");
    reveal_strlit("UNKNOWN");
    assert forall|a: FlightPhase, b: FlightPhase| #[trigger] a.label() == #[trigger] b.label() implies a == b by {
        if a != b {
            match a {
                FlightPhase::Stabilize => {
                    assert(a.label() =~= "STABILIZE"@);
                    assert(a.label().len() == 9 && a.label()[0] == 'S' && a.label()[1] == 'T');
                },
                FlightPhase::Loiter => {
                    assert(a.label() =~= "LOITER"@);
                    assert(a.label().len() == 6 && a.label()[0] == 'L' && a.label()[1] == 'O');
                },
                FlightPhase::Rtl => {
                    assert(a.label() =~= "RTL"@);
                    assert(a.label().len() == 3 && a.label()[0] == 'R' && a.label()[1] == 'T');
                },
                FlightPhase::Flip => {
                    assert(a.label() =~= "FLIP"@);
                    assert(a.label().len() == 4 && a.label()[0] == 'F' && a.label()[1] == 'L');
                },
                FlightPhase::Crashing => {
                    assert(a.label() =~= "CRASHING"@);
                    assert(a.label().len() == 8 && a.label()[0] == 'C' && a.label()[1] == 'R');
                },
                FlightPhase::Unknown => {
                    assert(a.label() =~= "UNKNOWN"@);
                    assert(a.label().len() == 7 && a.label()[0] == 'U' && a.label()[1] == 'N');
                },
            }
            match b {
                FlightPhase::Stabilize => {
                    assert(b.label() =~= "STABILIZE"@);
                    assert(b.label().len() == 9 && b.label()[0] == 'S' && b.label()[1] == 'T');
                },
                FlightPhase::Loiter => {
                    assert(b.label() =~= "LOITER"@);
                    assert(b.label().len() == 6 && b.label()[0] == 'L' && b.label()[1] == 'O');
                },
                FlightPhase::Rtl => {
                    assert(b.label() =~= "RTL"@);
                    assert(b.label().len() == 3 && b.label()[0] == 'R' && b.label()[1] == 'T');
                },
                FlightPhase::Flip => {
                    assert(b.label() =~= "FLIP"@);
                    assert(b.label().len() == 4 && b.label()[0] == 'F' && b.label()[1] == 'L');
                },
                FlightPhase::Crashing => {
                    assert(b.label() =~= "CRASHING"@);
                    assert(b.label().len() == 8 && b.label()[0] == 'C' && b.label()[1] == 'R');
                },
                FlightPhase::Unknown => {
                    assert(b.label() =~= "UNKNOWN"@);
                    assert(b.label().len() == 7 && b.label()[0] == 'U' && b.label()[1] == 'N');
                },
            }
        }
    }
}

} // verus!
