use vstd::prelude::*;
use vstd::hash_map::StringHashMap;
use vstd::hash_set::StringHashSet;

use crate::time::Duration;
use crate::value::{is_numeric, log_value_eq, LogEntry, LogField, LogValue};

verus! {

/// The distinct snapshotted `(field, value)` pairs of one message type.
pub struct SnapshotIrRecord {
    pub msg: String,
    pub fields: Vec<(String, LogValue)>,
}

/// The numeric samples of one field of one message type, in stream order.
pub struct FieldSamples {
    pub field: String,
    pub values: Vec<LogValue>,
}

/// The sampled fields of one message type.
pub struct WindowSamples {
    pub msg: String,
    pub fields: Vec<FieldSamples>,
}

/// A chunk of the stream sorted into snapshots and per-field samples, ready
/// for statistics.
pub struct ChunkSamples {
    pub timestamp: Duration,
    pub duration: Duration,
    pub windows: Vec<WindowSamples>,
    pub snapshots: Vec<SnapshotIrRecord>,
}

/// Where a field of a message goes.
pub enum Route {
    /// Ignored.
    Skip,
    /// Kept as a distinct `(field, value)` snapshot.
    Snapshot,
    /// Sampled for statistics.
    Stat,
}

/// Field-name sets of the chunk processing: fields to snapshot, fields to
/// ignore everywhere, and fields to ignore per message type.
pub open spec fn route(
    msg: Seq<char>,
    field: Seq<char>,
    snap: Set<Seq<char>>,
    ign: Set<Seq<char>>,
    per_msg: Map<Seq<char>, Set<Seq<char>>>,
) -> Route {
    if ign.contains(field) || (per_msg.contains_key(msg) && per_msg[msg].contains(field)) {
        Route::Skip
    } else if snap.contains(field) {
        Route::Snapshot
    } else {
        Route::Stat
    }
}

/// The per-message ignored field names of a configuration map.
pub open spec fn field_sets(m: StringHashMap<StringHashSet>) -> Map<Seq<char>, Set<Seq<char>>> {
    m@.map_values(|s: StringHashSet| s@)
}

pub type SnapModel = Map<Seq<char>, Seq<(Seq<char>, LogValue)>>;

pub type StatModel = Map<Seq<char>, Map<Seq<char>, Seq<LogValue>>>;

/// Whether `pairs` already holds a pair equal to `(name, v)`.
pub open spec fn holds_pair(pairs: Seq<(Seq<char>, LogValue)>, name: Seq<char>, v: LogValue) -> bool {
    exists|i: int| 0 <= i < pairs.len() && pairs[i].0 == name && log_value_eq(#[trigger] pairs[i].1, v)
}

pub open spec fn snap_add(s: SnapModel, msg: Seq<char>, name: Seq<char>, v: LogValue) -> SnapModel {
    let cur = if s.contains_key(msg) { s[msg] } else { Seq::empty() };
    if holds_pair(cur, name, v) {
        s.insert(msg, cur)
    } else {
        s.insert(msg, cur.push((name, v)))
    }
}

pub open spec fn stat_add(s: StatModel, msg: Seq<char>, name: Seq<char>, v: LogValue) -> StatModel {
    let inner = if s.contains_key(msg) { s[msg] } else { Map::empty() };
    let vals = if inner.contains_key(name) { inner[name] } else { Seq::empty() };
    s.insert(msg, inner.insert(name, vals.push(v)))
}

/// The effect of one field of message `msg` on the chunk's snapshots and samples.
pub open spec fn field_step(
    st: (SnapModel, StatModel),
    msg: Seq<char>,
    f: LogField,
    snap: Set<Seq<char>>,
    ign: Set<Seq<char>>,
    per_msg: Map<Seq<char>, Set<Seq<char>>>,
) -> (SnapModel, StatModel) {
    match route(msg, f.name@, snap, ign, per_msg) {
        Route::Skip => st,
        Route::Snapshot => (snap_add(st.0, msg, f.name@, f.value), st.1),
        Route::Stat => (st.0, stat_add(st.1, msg, f.name@, f.value)),
    }
}

pub open spec fn fold_fields(
    st: (SnapModel, StatModel),
    msg: Seq<char>,
    fields: Seq<LogField>,
    snap: Set<Seq<char>>,
    ign: Set<Seq<char>>,
    per_msg: Map<Seq<char>, Set<Seq<char>>>,
) -> (SnapModel, StatModel)
    decreases fields.len(),
{
    if fields.len() == 0 {
        st
    } else {
        field_step(
            fold_fields(st, msg, fields.drop_last(), snap, ign, per_msg),
            msg,
            fields.last(),
            snap,
            ign,
            per_msg,
        )
    }
}

/// Snapshots and samples of a sequence of messages, field by field in stream order.
pub open spec fn fold_entries(
    entries: Seq<LogEntry>,
    snap: Set<Seq<char>>,
    ign: Set<Seq<char>>,
    per_msg: Map<Seq<char>, Set<Seq<char>>>,
) -> (SnapModel, StatModel)
    decreases entries.len(),
{
    if entries.len() == 0 {
        (Map::empty(), Map::empty())
    } else {
        fold_fields(
            fold_entries(entries.drop_last(), snap, ign, per_msg),
            entries.last().name@,
            entries.last().fields@,
            snap,
            ign,
            per_msg,
        )
    }
}

/// Every field of message `e` that is routed to statistics holds a number.
pub open spec fn entry_fields_numeric(
    e: LogEntry,
    snap: Set<Seq<char>>,
    ign: Set<Seq<char>>,
    per_msg: Map<Seq<char>, Set<Seq<char>>>,
) -> bool {
    forall|j: int|
        0 <= j < e.fields@.len() && route(e.name@, #[trigger] e.fields@[j].name@, snap, ign, per_msg) is Stat
            ==> is_numeric(e.fields@[j].value)
}

/// Every field of `entries` that is routed to statistics holds a number.
pub open spec fn sampled_fields_numeric(
    entries: Seq<LogEntry>,
    snap: Set<Seq<char>>,
    ign: Set<Seq<char>>,
    per_msg: Map<Seq<char>, Set<Seq<char>>>,
) -> bool {
    forall|i: int| 0 <= i < entries.len() ==> entry_fields_numeric(#[trigger] entries[i], snap, ign, per_msg)
}

pub open spec fn pair_views(v: Seq<(String, LogValue)>) -> Seq<(Seq<char>, LogValue)> {
    v.map_values(|p: (String, LogValue)| (p.0@, p.1))
}

/// `records` stores `model`: one record per message type, each with the
/// model's pairs.
pub open spec fn snapshots_store(records: Seq<SnapshotIrRecord>, model: SnapModel) -> bool {
    &&& forall|i: int, j: int|
        0 <= i < records.len() && 0 <= j < records.len() && i != j ==> #[trigger] records[i].msg@
            != #[trigger] records[j].msg@
    &&& forall|i: int|
        0 <= i < records.len() ==> model.contains_key(#[trigger] records[i].msg@) && model[records[i].msg@]
            == pair_views(records[i].fields@)
    &&& forall|k: Seq<char>|
        #[trigger] model.contains_key(k) ==> exists|i: int| 0 <= i < records.len() && #[trigger] records[i].msg@ == k
}

pub open spec fn samples_store(samples: Seq<FieldSamples>, model: Map<Seq<char>, Seq<LogValue>>) -> bool {
    &&& forall|i: int, j: int|
        0 <= i < samples.len() && 0 <= j < samples.len() && i != j ==> #[trigger] samples[i].field@
            != #[trigger] samples[j].field@
    &&& forall|i: int|
        0 <= i < samples.len() ==> model.contains_key(#[trigger] samples[i].field@) && model[samples[i].field@]
            == samples[i].values@
    &&& forall|k: Seq<char>|
        #[trigger] model.contains_key(k) ==> exists|i: int| 0 <= i < samples.len() && #[trigger] samples[i].field@ == k
}

/// `windows` stores `model`: one entry per message type, each storing the
/// model's per-field samples.
pub open spec fn windows_store(windows: Seq<WindowSamples>, model: StatModel) -> bool {
    &&& forall|i: int, j: int|
        0 <= i < windows.len() && 0 <= j < windows.len() && i != j ==> #[trigger] windows[i].msg@
            != #[trigger] windows[j].msg@
    &&& forall|i: int|
        0 <= i < windows.len() ==> model.contains_key(#[trigger] windows[i].msg@) && samples_store(
            windows[i].fields@,
            model[windows[i].msg@],
        )
    &&& forall|k: Seq<char>|
        #[trigger] model.contains_key(k) ==> exists|i: int| 0 <= i < windows.len() && #[trigger] windows[i].msg@ == k
}

fn find_snapshot(records: &Vec<SnapshotIrRecord>, msg: &String) -> (res: Option<usize>)
    ensures
        match res {
            Some(i) => i < records@.len() && records@[i as int].msg@ == msg@,
            None => forall|i: int| 0 <= i < records@.len() ==> #[trigger] records@[i].msg@ != msg@,
        },
{
    let mut i: usize = 0;
    while i < records.len()
        invariant
            i <= records@.len(),
            forall|j: int| 0 <= j < i ==> #[trigger] records@[j].msg@ != msg@,
        decreases records@.len() - i,
    {
        if records[i].msg == *msg {
            return Some(i);
        }
        i = i + 1;
    }
    None
}

fn find_window(windows: &Vec<WindowSamples>, msg: &String) -> (res: Option<usize>)
    ensures
        match res {
            Some(i) => i < windows@.len() && windows@[i as int].msg@ == msg@,
            None => forall|i: int| 0 <= i < windows@.len() ==> #[trigger] windows@[i].msg@ != msg@,
        },
{
    let mut i: usize = 0;
    while i < windows.len()
        invariant
            i <= windows@.len(),
            forall|j: int| 0 <= j < i ==> #[trigger] windows@[j].msg@ != msg@,
        decreases windows@.len() - i,
    {
        if windows[i].msg == *msg {
            return Some(i);
        }
        i = i + 1;
    }
    None
}

fn find_field(samples: &Vec<FieldSamples>, name: &String) -> (res: Option<usize>)
    ensures
        match res {
            Some(i) => i < samples@.len() && samples@[i as int].field@ == name@,
            None => forall|i: int| 0 <= i < samples@.len() ==> #[trigger] samples@[i].field@ != name@,
        },
{
    let mut i: usize = 0;
    while i < samples.len()
        invariant
            i <= samples@.len(),
            forall|j: int| 0 <= j < i ==> #[trigger] samples@[j].field@ != name@,
        decreases samples@.len() - i,
    {
        if samples[i].field == *name {
            return Some(i);
        }
        i = i + 1;
    }
    None
}

fn holds_pair_exec(pairs: &Vec<(String, LogValue)>, name: &String, v: &LogValue) -> (res: bool)
    ensures
        res == holds_pair(pair_views(pairs@), name@, *v),
{
    let ghost views = pair_views(pairs@);
    let mut i: usize = 0;
    while i < pairs.len()
        invariant
            i <= pairs@.len(),
            views == pair_views(pairs@),
            forall|j: int| 0 <= j < i ==> !(views[j].0 == name@ && log_value_eq(#[trigger] views[j].1, *v)),
        decreases pairs@.len() - i,
    {
        let ghost vi = views[i as int];
        if pairs[i].0 == *name && pairs[i].1.equals(v) {
            assert(views[i as int].0 == name@ && log_value_eq(views[i as int].1, *v));
            return true;
        }
        i = i + 1;
    }
    false
}

/// Adds a snapshotted pair for message type `msg`, unless an equal pair is
/// already there.
fn add_snapshot(
    records: &mut Vec<SnapshotIrRecord>,
    msg: &String,
    name: String,
    v: LogValue,
    Ghost(model): Ghost<SnapModel>,
)
    requires
        snapshots_store(old(records)@, model),
    ensures
        snapshots_store(final(records)@, snap_add(model, msg@, name@, v)),
{
    let ghost new_model = snap_add(model, msg@, name@, v);
    match find_snapshot(records, msg) {
        None => {
            let mut fields: Vec<(String, LogValue)> = Vec::new();
            let ghost pair_view = (name@, v);
            fields.push((name, v));
            let rec = SnapshotIrRecord { msg: msg.clone(), fields };
            proof {
                assert(!model.contains_key(msg@));
                assert(pair_views(rec.fields@) =~= seq![pair_view]);
                assert(!holds_pair(Seq::empty(), pair_view.0, pair_view.1));
                assert(new_model[msg@] =~= seq![pair_view]);
            }
            let ghost old_records = records@;
            records.push(rec);
            proof {
                assert forall|k: Seq<char>| #[trigger] new_model.contains_key(k) implies exists|i: int|
                    0 <= i < records@.len() && #[trigger] records@[i].msg@ == k by {
                    if k == msg@ {
                        assert(records@[old_records.len() as int].msg@ == k);
                    } else {
                        assert(model.contains_key(k));
                        let i = choose|i: int| 0 <= i < old_records.len() && #[trigger] old_records[i].msg@ == k;
                        assert(records@[i].msg@ == k);
                    }
                }
            }
        },
        Some(i) => {
            let ghost orig = records@;
            let mut rec = records.remove(i);
            let ghost old_fields = rec.fields@;
            let ghost pair_view = (name@, v);
            if !holds_pair_exec(&rec.fields, &name, &v) {
                rec.fields.push((name, v));
                proof {
                    assert(pair_views(rec.fields@) =~= pair_views(old_fields).push(pair_view));
                }
            }
            let ghost old_records = records@;
            records.insert(i, rec);
            proof {
                assert(records@ =~= orig.update(i as int, rec));
                assert(model.contains_key(msg@));
                assert(new_model[msg@] == pair_views(rec.fields@));
                assert forall|k: Seq<char>| #[trigger] new_model.contains_key(k) implies exists|j: int|
                    0 <= j < records@.len() && #[trigger] records@[j].msg@ == k by {
                    if k == msg@ {
                        assert(records@[i as int].msg@ == k);
                    } else {
                        assert(model.contains_key(k));
                        let j = choose|j: int| 0 <= j < orig.len() && #[trigger] orig[j].msg@ == k;
                        assert(records@[j].msg@ == k);
                    }
                }
            }
        },
    }
}

pub open spec fn samples_push(
    model: Map<Seq<char>, Seq<LogValue>>,
    name: Seq<char>,
    v: LogValue,
) -> Map<Seq<char>, Seq<LogValue>> {
    let vals = if model.contains_key(name) { model[name] } else { Seq::empty() };
    model.insert(name, vals.push(v))
}

fn add_field_sample(
    samples: &mut Vec<FieldSamples>,
    name: String,
    v: LogValue,
    Ghost(model): Ghost<Map<Seq<char>, Seq<LogValue>>>,
)
    requires
        samples_store(old(samples)@, model),
    ensures
        samples_store(final(samples)@, samples_push(model, name@, v)),
{
    let ghost new_model = samples_push(model, name@, v);
    let ghost key = name@;
    match find_field(samples, &name) {
        None => {
            let mut values: Vec<LogValue> = Vec::new();
            values.push(v);
            let ghost old_samples = samples@;
            samples.push(FieldSamples { field: name, values });
            proof {
                assert(!model.contains_key(key));
                assert(new_model[key] =~= seq![v]);
                assert forall|k: Seq<char>| #[trigger] new_model.contains_key(k) implies exists|i: int|
                    0 <= i < samples@.len() && #[trigger] samples@[i].field@ == k by {
                    if k == key {
                        assert(samples@[old_samples.len() as int].field@ == k);
                    } else {
                        let i = choose|i: int| 0 <= i < old_samples.len() && #[trigger] old_samples[i].field@ == k;
                        assert(samples@[i].field@ == k);
                    }
                }
            }
        },
        Some(i) => {
            let ghost orig = samples@;
            let mut entry = samples.remove(i);
            entry.values.push(v);
            samples.insert(i, entry);
            proof {
                assert(samples@ =~= orig.update(i as int, entry));
                assert(model.contains_key(key));
                assert forall|k: Seq<char>| #[trigger] new_model.contains_key(k) implies exists|j: int|
                    0 <= j < samples@.len() && #[trigger] samples@[j].field@ == k by {
                    if k == key {
                        assert(samples@[i as int].field@ == k);
                    } else {
                        let j = choose|j: int| 0 <= j < orig.len() && #[trigger] orig[j].field@ == k;
                        assert(samples@[j].field@ == k);
                    }
                }
            }
        },
    }
}

/// Adds a sample of field `name` of message type `msg`.
fn add_sample(
    windows: &mut Vec<WindowSamples>,
    msg: &String,
    name: String,
    v: LogValue,
    Ghost(model): Ghost<StatModel>,
)
    requires
        windows_store(old(windows)@, model),
    ensures
        windows_store(final(windows)@, stat_add(model, msg@, name@, v)),
{
    let ghost new_model = stat_add(model, msg@, name@, v);
    match find_window(windows, msg) {
        None => {
            let mut fields: Vec<FieldSamples> = Vec::new();
            proof {
                assert(!model.contains_key(msg@));
                assert(samples_store(fields@, Map::empty()));
            }
            add_field_sample(&mut fields, name, v, Ghost(Map::empty()));
            let ghost old_windows = windows@;
            windows.push(WindowSamples { msg: msg.clone(), fields });
            proof {
                assert(samples_push(Map::empty(), name@, v) == new_model[msg@]);
                assert forall|k: Seq<char>| #[trigger] new_model.contains_key(k) implies exists|i: int|
                    0 <= i < windows@.len() && #[trigger] windows@[i].msg@ == k by {
                    if k == msg@ {
                        assert(windows@[old_windows.len() as int].msg@ == k);
                    } else {
                        let i = choose|i: int| 0 <= i < old_windows.len() && #[trigger] old_windows[i].msg@ == k;
                        assert(windows@[i].msg@ == k);
                    }
                }
            }
        },
        Some(i) => {
            let ghost orig = windows@;
            let mut w = windows.remove(i);
            proof {
                assert(model.contains_key(msg@));
                assert(samples_store(w.fields@, model[msg@]));
            }
            add_field_sample(&mut w.fields, name, v, Ghost(model[msg@]));
            windows.insert(i, w);
            proof {
                assert(windows@ =~= orig.update(i as int, w));
                assert(samples_push(model[msg@], name@, v) == new_model[msg@]);
                assert forall|k: Seq<char>| #[trigger] new_model.contains_key(k) implies exists|j: int|
                    0 <= j < windows@.len() && #[trigger] windows@[j].msg@ == k by {
                    if k == msg@ {
                        assert(windows@[i as int].msg@ == k);
                    } else {
                        let j = choose|j: int| 0 <= j < orig.len() && #[trigger] orig[j].msg@ == k;
                        assert(windows@[j].msg@ == k);
                    }
                }
            }
        },
    }
}

/// The timestamp of a chunk: that of its first message, zero when the first
/// message has none or the chunk is empty.
pub open spec fn chunk_start(entries: Seq<LogEntry>) -> nat {
    if entries.len() > 0 && entries[0].timestamp is Some {
        entries[0].timestamp.unwrap()@
    } else {
        0
    }
}

/// Sorts the fields of a chunk of messages: ignored fields are dropped,
/// snapshot fields are kept once per distinct `(field, value)` pair per
/// message type, and every other field is sampled per message type and field
/// name, in stream order. Every sampled field must hold a number: a string
/// or an array has no statistics.
pub fn process_chunk(
    source: Vec<LogEntry>,
    duration: Duration,
    snapshoting_fields: &StringHashSet,
    ignore_fields: &StringHashSet,
    msg_with_ignored_fields: &StringHashMap<StringHashSet>,
) -> (res: ChunkSamples)
    requires
        sampled_fields_numeric(
            source@,
            snapshoting_fields@,
            ignore_fields@,
            field_sets(*msg_with_ignored_fields),
        ),
    ensures
        res.timestamp@ == chunk_start(source@),
        res.duration@ == duration@,
        snapshots_store(
            res.snapshots@,
            fold_entries(source@, snapshoting_fields@, ignore_fields@, field_sets(*msg_with_ignored_fields)).0,
        ),
        windows_store(
            res.windows@,
            fold_entries(source@, snapshoting_fields@, ignore_fields@, field_sets(*msg_with_ignored_fields)).1,
        ),
{
    let ghost input = source@;
    let ghost snap = snapshoting_fields@;
    let ghost ign = ignore_fields@;
    let ghost per_msg = field_sets(*msg_with_ignored_fields);
    let timestamp = if source.len() > 0 {
        match source[0].timestamp {
            Some(t) => t,
            None => Duration::zero(),
        }
    } else {
        Duration::zero()
    };
    let mut snapshots: Vec<SnapshotIrRecord> = Vec::new();
    let mut windows: Vec<WindowSamples> = Vec::new();
    proof {
        assert(fold_entries(input.take(0), snap, ign, per_msg) == (
            Map::<Seq<char>, Seq<(Seq<char>, LogValue)>>::empty(),
            Map::<Seq<char>, Map<Seq<char>, Seq<LogValue>>>::empty(),
        ));
    }
    for msg in it: source.into_iter()
        invariant
            it.seq() == input,
            snap == snapshoting_fields@,
            ign == ignore_fields@,
            per_msg == field_sets(*msg_with_ignored_fields),
            snapshots_store(snapshots@, fold_entries(input.take(it.index() as int), snap, ign, per_msg).0),
            windows_store(windows@, fold_entries(input.take(it.index() as int), snap, ign, per_msg).1),
    {
        let ghost idx = it.index() as int;
        let ghost before = fold_entries(input.take(idx), snap, ign, per_msg);
        assert(input.take(idx + 1).drop_last() =~= input.take(idx));
        assert(msg == input[idx]);
        let LogEntry { id: _, name, timestamp: _, fields } = msg;
        let ghost field_input = fields@;
        for field in fit: fields.into_iter()
            invariant
                fit.seq() == field_input,
                snap == snapshoting_fields@,
                ign == ignore_fields@,
                per_msg == field_sets(*msg_with_ignored_fields),
                snapshots_store(
                    snapshots@,
                    fold_fields(before, name@, field_input.take(fit.index() as int), snap, ign, per_msg).0,
                ),
                windows_store(
                    windows@,
                    fold_fields(before, name@, field_input.take(fit.index() as int), snap, ign, per_msg).1,
                ),
        {
            let ghost j = fit.index() as int;
            let ghost cur = fold_fields(before, name@, field_input.take(j), snap, ign, per_msg);
            assert(field_input.take(j + 1).drop_last() =~= field_input.take(j));
            assert(field == field_input[j]);
            let per_msg_skip = match msg_with_ignored_fields.get(name.as_str()) {
                Some(set) => set.contains(field.name.as_str()),
                None => false,
            };
            if ignore_fields.contains(field.name.as_str()) || per_msg_skip {
            } else if snapshoting_fields.contains(field.name.as_str()) {
                let LogField { name: field_name, value } = field;
                add_snapshot(&mut snapshots, &name, field_name, value, Ghost(cur.0));
            } else {
                let LogField { name: field_name, value } = field;
                add_sample(&mut windows, &name, field_name, value, Ghost(cur.1));
            }
        }
        proof {
            assert(field_input.take(field_input.len() as int) =~= field_input);
        }
    }
    proof {
        assert(input.take(input.len() as int) =~= input);
    }
    ChunkSamples { timestamp, duration, windows, snapshots }
}

/// No two pairs of `pairs` are equal.
pub open spec fn pairs_distinct(pairs: Seq<(Seq<char>, LogValue)>) -> bool {
    forall|i: int, j: int|
        0 <= i < j < pairs.len() ==> !(pairs[i].0 == pairs[j].0 && log_value_eq(
            #[trigger] pairs[i].1,
            #[trigger] pairs[j].1,
        ))
}

pub open spec fn snapshots_distinct(m: SnapModel) -> bool {
    forall|k: Seq<char>| #[trigger] m.contains_key(k) ==> pairs_distinct(m[k])
}

proof fn lemma_snap_add_distinct(m: SnapModel, msg: Seq<char>, name: Seq<char>, v: LogValue)
    requires
        snapshots_distinct(m),
    ensures
        snapshots_distinct(snap_add(m, msg, name, v)),
{
    let cur = if m.contains_key(msg) { m[msg] } else { Seq::empty() };
    if !holds_pair(cur, name, v) {
        let next = cur.push((name, v));
        assert forall|i: int, j: int| 0 <= i < j < next.len() implies !(next[i].0 == next[j].0
            && log_value_eq(#[trigger] next[i].1, #[trigger] next[j].1)) by {
            if j == cur.len() {
                assert(!(cur[i].0 == name && log_value_eq(cur[i].1, v)));
            } else {
                assert(next[i] == cur[i] && next[j] == cur[j]);
            }
        }
    }
}

proof fn lemma_fold_fields_distinct(
    st: (SnapModel, StatModel),
    msg: Seq<char>,
    fields: Seq<LogField>,
    snap: Set<Seq<char>>,
    ign: Set<Seq<char>>,
    per_msg: Map<Seq<char>, Set<Seq<char>>>,
)
    requires
        snapshots_distinct(st.0),
    ensures
        snapshots_distinct(fold_fields(st, msg, fields, snap, ign, per_msg).0),
    decreases fields.len(),
{
    if fields.len() > 0 {
        lemma_fold_fields_distinct(st, msg, fields.drop_last(), snap, ign, per_msg);
        let before = fold_fields(st, msg, fields.drop_last(), snap, ign, per_msg);
        let f = fields.last();
        if route(msg, f.name@, snap, ign, per_msg) is Snapshot {
            lemma_snap_add_distinct(before.0, msg, f.name@, f.value);
        }
    }
}

/// A snapshot never repeats itself: within the snapshots of a message type
/// no two `(field, value)` pairs are equal.
pub proof fn lemma_snapshots_distinct(
    entries: Seq<LogEntry>,
    snap: Set<Seq<char>>,
    ign: Set<Seq<char>>,
    per_msg: Map<Seq<char>, Set<Seq<char>>>,
)
    ensures
        snapshots_distinct(fold_entries(entries, snap, ign, per_msg).0),
    decreases entries.len(),
{
    if entries.len() > 0 {
        lemma_snapshots_distinct(entries.drop_last(), snap, ign, per_msg);
        lemma_fold_fields_distinct(
            fold_entries(entries.drop_last(), snap, ign, per_msg),
            entries.last().name@,
            entries.last().fields@,
            snap,
            ign,
            per_msg,
        );
    }
}

/// Whether the snapshots of message type `msg` hold `(name, v)`: a pair of
/// that field name whose value is `v` or equals it.
pub open spec fn snapshot_kept(m: SnapModel, msg: Seq<char>, name: Seq<char>, v: LogValue) -> bool {
    &&& m.contains_key(msg)
    &&& exists|k: int|
        0 <= k < m[msg].len() && m[msg][k].0 == name && (#[trigger] m[msg][k].1 == v || log_value_eq(
            m[msg][k].1,
            v,
        ))
}

/// Whether the samples of field `name` of message type `msg` hold `v`.
pub open spec fn sample_kept(m: StatModel, msg: Seq<char>, name: Seq<char>, v: LogValue) -> bool {
    &&& m.contains_key(msg)
    &&& m[msg].contains_key(name)
    &&& m[msg][name].contains(v)
}

/// Whether the field `f` of message type `msg` is accounted for in `st`:
/// nothing for a skipped field, its pair for a snapshot field, its value
/// for a sampled one.
pub open spec fn field_kept(
    st: (SnapModel, StatModel),
    msg: Seq<char>,
    f: LogField,
    snap: Set<Seq<char>>,
    ign: Set<Seq<char>>,
    per_msg: Map<Seq<char>, Set<Seq<char>>>,
) -> bool {
    match route(msg, f.name@, snap, ign, per_msg) {
        Route::Skip => true,
        Route::Snapshot => snapshot_kept(st.0, msg, f.name@, f.value),
        Route::Stat => sample_kept(st.1, msg, f.name@, f.value),
    }
}

/// A later field never takes away what an earlier one put in.
proof fn lemma_field_step_keeps(
    st: (SnapModel, StatModel),
    msg: Seq<char>,
    f: LogField,
    msg2: Seq<char>,
    g: LogField,
    snap: Set<Seq<char>>,
    ign: Set<Seq<char>>,
    per_msg: Map<Seq<char>, Set<Seq<char>>>,
)
    requires
        field_kept(st, msg, f, snap, ign, per_msg),
    ensures
        field_kept(field_step(st, msg2, g, snap, ign, per_msg), msg, f, snap, ign, per_msg),
{
    let next = field_step(st, msg2, g, snap, ign, per_msg);
    match route(msg, f.name@, snap, ign, per_msg) {
        Route::Skip => {},
        Route::Snapshot => {
            let k = choose|k: int|
                0 <= k < st.0[msg].len() && st.0[msg][k].0 == f.name@ && (#[trigger] st.0[msg][k].1 == f.value
                    || log_value_eq(st.0[msg][k].1, f.value));
            assert(next.0.contains_key(msg));
            assert(next.0[msg][k] == st.0[msg][k]);
        },
        Route::Stat => {
            let vals = st.1[msg][f.name@];
            let k = choose|k: int| 0 <= k < vals.len() && vals[k] == f.value;
            assert(next.1[msg][f.name@][k] == f.value);
        },
    }
}

/// A field puts in its own pair or value.
proof fn lemma_field_step_adds(
    st: (SnapModel, StatModel),
    msg: Seq<char>,
    f: LogField,
    snap: Set<Seq<char>>,
    ign: Set<Seq<char>>,
    per_msg: Map<Seq<char>, Set<Seq<char>>>,
)
    ensures
        field_kept(field_step(st, msg, f, snap, ign, per_msg), msg, f, snap, ign, per_msg),
{
    let next = field_step(st, msg, f, snap, ign, per_msg);
    match route(msg, f.name@, snap, ign, per_msg) {
        Route::Skip => {},
        Route::Snapshot => {
            let cur = if st.0.contains_key(msg) { st.0[msg] } else { Seq::empty() };
            if holds_pair(cur, f.name@, f.value) {
                let k = choose|k: int| 0 <= k < cur.len() && cur[k].0 == f.name@ && log_value_eq(#[trigger] cur[k].1, f.value);
                assert(next.0[msg][k] == cur[k]);
                assert(log_value_eq(next.0[msg][k].1, f.value));
            } else {
                assert(next.0[msg][cur.len() as int] == (f.name@, f.value));
                assert(next.0[msg][cur.len() as int].1 == f.value);
            }
            assert(snapshot_kept(next.0, msg, f.name@, f.value));
        },
        Route::Stat => {
            let vals = next.1[msg][f.name@];
            assert(vals[vals.len() - 1] == f.value);
            assert(vals.contains(f.value));
        },
    }
}

proof fn lemma_fold_fields_keeps(
    st: (SnapModel, StatModel),
    msg2: Seq<char>,
    fields: Seq<LogField>,
    msg: Seq<char>,
    f: LogField,
    snap: Set<Seq<char>>,
    ign: Set<Seq<char>>,
    per_msg: Map<Seq<char>, Set<Seq<char>>>,
)
    requires
        field_kept(st, msg, f, snap, ign, per_msg),
    ensures
        field_kept(fold_fields(st, msg2, fields, snap, ign, per_msg), msg, f, snap, ign, per_msg),
    decreases fields.len(),
{
    if fields.len() > 0 {
        lemma_fold_fields_keeps(st, msg2, fields.drop_last(), msg, f, snap, ign, per_msg);
        lemma_field_step_keeps(
            fold_fields(st, msg2, fields.drop_last(), snap, ign, per_msg),
            msg,
            f,
            msg2,
            fields.last(),
            snap,
            ign,
            per_msg,
        );
    }
}

proof fn lemma_fold_fields_adds(
    st: (SnapModel, StatModel),
    msg: Seq<char>,
    fields: Seq<LogField>,
    j: int,
    snap: Set<Seq<char>>,
    ign: Set<Seq<char>>,
    per_msg: Map<Seq<char>, Set<Seq<char>>>,
)
    requires
        0 <= j < fields.len(),
    ensures
        field_kept(fold_fields(st, msg, fields, snap, ign, per_msg), msg, fields[j], snap, ign, per_msg),
    decreases fields.len(),
{
    let before = fold_fields(st, msg, fields.drop_last(), snap, ign, per_msg);
    if j == fields.len() - 1 {
        lemma_field_step_adds(before, msg, fields.last(), snap, ign, per_msg);
    } else {
        lemma_fold_fields_adds(st, msg, fields.drop_last(), j, snap, ign, per_msg);
        assert(fields.drop_last()[j] == fields[j]);
        lemma_field_step_keeps(before, msg, fields[j], msg, fields.last(), snap, ign, per_msg);
    }
}

/// Nothing of a window is lost: every snapshot field of every message
/// leaves a pair of its name with its value (or an equal one) among the
/// snapshots of its message type, and every sampled field leaves its value
/// among the samples of its message type and field name. A pair is left
/// out only when one with the same field name and an equal value is there.
pub proof fn lemma_every_field_is_kept(
    entries: Seq<LogEntry>,
    snap: Set<Seq<char>>,
    ign: Set<Seq<char>>,
    per_msg: Map<Seq<char>, Set<Seq<char>>>,
    i: int,
    j: int,
)
    requires
        0 <= i < entries.len(),
        0 <= j < entries[i].fields@.len(),
    ensures
        ({
            let e = entries[i];
            let f = e.fields@[j];
            let st = fold_entries(entries, snap, ign, per_msg);
            &&& route(e.name@, f.name@, snap, ign, per_msg) is Snapshot ==> snapshot_kept(st.0, e.name@, f.name@, f.value)
            &&& route(e.name@, f.name@, snap, ign, per_msg) is Stat ==> sample_kept(st.1, e.name@, f.name@, f.value)
        }),
    decreases entries.len(),
{
    let last = entries.last();
    let before = fold_entries(entries.drop_last(), snap, ign, per_msg);
    let e = entries[i];
    let f = e.fields@[j];
    if i == entries.len() - 1 {
        lemma_fold_fields_adds(before, last.name@, last.fields@, j, snap, ign, per_msg);
    } else {
        lemma_every_field_is_kept(entries.drop_last(), snap, ign, per_msg, i, j);
        assert(entries.drop_last()[i] == e);
        assert(field_kept(before, e.name@, f, snap, ign, per_msg));
        lemma_fold_fields_keeps(before, last.name@, last.fields@, e.name@, f, snap, ign, per_msg);
    }
}

/// The sorted records of a window lose no field either: whenever the
/// records store the window's snapshots and samples (as `process_chunk`
/// returns them), each snapshot field of a message is found, under its name
/// and with its value or an equal one, in the record of its message type,
/// and each sampled field's value among the samples of its message type
/// and field name.
pub proof fn lemma_every_field_is_recorded(
    entries: Seq<LogEntry>,
    snap: Set<Seq<char>>,
    ign: Set<Seq<char>>,
    per_msg: Map<Seq<char>, Set<Seq<char>>>,
    snapshots: Seq<SnapshotIrRecord>,
    windows: Seq<WindowSamples>,
    i: int,
    j: int,
)
    requires
        0 <= i < entries.len(),
        0 <= j < entries[i].fields@.len(),
        snapshots_store(snapshots, fold_entries(entries, snap, ign, per_msg).0),
        windows_store(windows, fold_entries(entries, snap, ign, per_msg).1),
    ensures
        ({
            let e = entries[i];
            let f = e.fields@[j];
            &&& route(e.name@, f.name@, snap, ign, per_msg) is Snapshot ==> exists|r: int, k: int|
                0 <= r < snapshots.len() && #[trigger] snapshots[r].msg@ == e.name@ && 0 <= k
                    < snapshots[r].fields@.len() && #[trigger] snapshots[r].fields@[k].0@ == f.name@ && (
                snapshots[r].fields@[k].1 == f.value || log_value_eq(snapshots[r].fields@[k].1, f.value))
            &&& route(e.name@, f.name@, snap, ign, per_msg) is Stat ==> exists|r: int, k: int|
                0 <= r < windows.len() && #[trigger] windows[r].msg@ == e.name@ && 0 <= k
                    < windows[r].fields@.len() && #[trigger] windows[r].fields@[k].field@ == f.name@
                    && windows[r].fields@[k].values@.contains(f.value)
        }),
{
    let e = entries[i];
    let f = e.fields@[j];
    let st = fold_entries(entries, snap, ign, per_msg);
    lemma_every_field_is_kept(entries, snap, ign, per_msg, i, j);
    if route(e.name@, f.name@, snap, ign, per_msg) is Snapshot {
        assert(st.0.contains_key(e.name@));
        let r = choose|r: int| 0 <= r < snapshots.len() && #[trigger] snapshots[r].msg@ == e.name@;
        let pairs = st.0[e.name@];
        assert(pairs == pair_views(snapshots[r].fields@));
        let k = choose|k: int|
            0 <= k < pairs.len() && pairs[k].0 == f.name@ && (#[trigger] pairs[k].1 == f.value || log_value_eq(
                pairs[k].1,
                f.value,
            ));
        assert(pairs[k] == (snapshots[r].fields@[k].0@, snapshots[r].fields@[k].1));
    }
    if route(e.name@, f.name@, snap, ign, per_msg) is Stat {
        assert(st.1.contains_key(e.name@));
        let r = choose|r: int| 0 <= r < windows.len() && #[trigger] windows[r].msg@ == e.name@;
        let inner = st.1[e.name@];
        assert(samples_store(windows[r].fields@, inner));
        assert(inner.contains_key(f.name@));
        let k = choose|k: int| 0 <= k < windows[r].fields@.len() && #[trigger] windows[r].fields@[k].field@ == f.name@;
        assert(inner[f.name@] == windows[r].fields@[k].values@);
    }
}

} // verus!
