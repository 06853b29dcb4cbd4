use vstd::prelude::*;
use vstd::hash_map::StringHashMap;
use vstd::hash_set::StringHashSet;
use vstd::string::*;

use crate::grouping::field_sets;
use crate::time::Duration;

verus! {

/// Settings of the preprocessing stage.
pub struct PreprocessorConfig {
    pub window_duration: Duration,
    /// Messages that are dropped.
    pub messages_to_ignore: StringHashSet,
    /// Fields that are snapshotted rather than summarised.
    pub snapshoting_fields: StringHashSet,
    /// Fields that are dropped.
    pub ignore_fields: StringHashSet,
    /// Fields that are dropped in particular messages.
    pub msg_with_ignored_fields: StringHashMap<StringHashSet>,
}

/// The set of the contents of `names`.
pub open spec fn name_set(names: Seq<String>) -> Set<Seq<char>> {
    names.map_values(|s: String| s@).to_set()
}

/// Builds a set from names; duplicates collapse.
pub fn string_set(names: Vec<String>) -> (res: StringHashSet)
    ensures
        res@ == name_set(names@),
{
    let ghost input = names@;
    let mut set = StringHashSet::new();
    for name in it: names.into_iter()
        invariant
            it.seq() == input,
            set@ == name_set(input.take(it.index() as int)),
    {
        let ghost idx = it.index() as int;
        proof {
            assert(input.take(idx + 1).map_values(|s: String| s@) =~= input.take(idx).map_values(
                |s: String| s@,
            ).push(name@));
            input.take(idx).map_values(|s: String| s@).lemma_push_to_set_commute(name@);
        }
        set.insert(name);
    }
    proof {
        assert(input.take(input.len() as int) =~= input);
    }
    set
}

fn strings_of(names: &[&str]) -> (res: Vec<String>)
    ensures
        res@.map_values(|s: String| s@) == names@.map_values(|s: &str| s@),
{
    let mut out: Vec<String> = Vec::new();
    let mut i: usize = 0;
    while i < names.len()
        invariant
            i <= names@.len(),
            out@.len() == i,
            forall|j: int| 0 <= j < i ==> (#[trigger] out@[j])@ == names@[j]@,
        decreases names@.len() - i,
    {
        out.push(String::from_str(names[i]));
        i = i + 1;
    }
    assert(out@.map_values(|s: String| s@) =~= names@.map_values(|s: &str| s@));
    out
}

/// The messages the default configuration drops: formats, units,
/// multipliers, files, texts, versions, GPS and parameters.
pub fn default_messages_to_ignore() -> (res: Vec<String>)
    ensures
        res@.map_values(|s: String| s@) == seq![
            "FMT"@, "FMTU"@, "FMU"@, "UNIT"@, "MULT"@, "FILE"@, "MSG"@, "VER"@, "GPS"@, "PARM"@
        ],
{
    let names: [&str; 10] = ["FMT", "FMTU", "FMU", "UNIT", "MULT", "FILE", "MSG", "VER", "GPS", "PARM"];
    let res = strings_of(&names);
    assert(names@.map_values(|s: &str| s@) =~= seq![
        "FMT"@, "FMTU"@, "FMU"@, "UNIT"@, "MULT"@, "FILE"@, "MSG"@, "VER"@, "GPS"@, "PARM"@
    ]);
    res
}

/// The fields the default configuration snapshots.
pub fn default_snapshoting_fields() -> (res: Vec<String>)
    ensures
        res@.map_values(|s: String| s@) == seq!["Mode"@, "Name"@, "Value"@, "ModeNum"@, "Rsn"@],
{
    let names: [&str; 5] = ["Mode", "Name", "Value", "ModeNum", "Rsn"];
    let res = strings_of(&names);
    assert(names@.map_values(|s: &str| s@) =~= seq!["Mode"@, "Name"@, "Value"@, "ModeNum"@, "Rsn"@]);
    res
}

/// The fields the default configuration drops everywhere.
pub fn default_ignore_fields() -> (res: Vec<String>)
    ensures
        res@.map_values(|s: String| s@) == seq!["TimeUS"@, "Default"@],
{
    let names: [&str; 2] = ["TimeUS", "Default"];
    let res = strings_of(&names);
    assert(names@.map_values(|s: &str| s@) =~= seq!["TimeUS"@, "Default"@]);
    res
}

/// The fields the default configuration drops per message: `I` of `PIDP`.
pub fn default_msg_with_ignored_fields() -> (res: Vec<(String, Vec<String>)>)
    ensures
        res@.len() == 1,
        res@[0].0@ == "PIDP"@,
        res@[0].1@.map_values(|s: String| s@) == seq!["I"@],
{
    let names: [&str; 1] = ["I"];
    let fields = strings_of(&names);
    assert(names@.map_values(|s: &str| s@) =~= seq!["I"@]);
    let mut res: Vec<(String, Vec<String>)> = Vec::new();
    res.push((String::from_str("PIDP"), fields));
    res
}

/// A per-message field map from pairs of a message name and its field
/// names; a later pair for the same message replaces an earlier one.
pub fn field_set_map(pairs: Vec<(String, Vec<String>)>) -> (res: StringHashMap<StringHashSet>)
    ensures
        field_sets(res) == pair_map(pairs@),
{
    let ghost input = pairs@;
    let mut map: StringHashMap<StringHashSet> = StringHashMap::new();
    for pair in it: pairs.into_iter()
        invariant
            it.seq() == input,
            field_sets(map) == pair_map(input.take(it.index() as int)),
    {
        let ghost idx = it.index() as int;
        assert(input.take(idx + 1).drop_last() =~= input.take(idx));
        let (name, fields) = pair;
        let set = string_set(fields);
        map.insert(name, set);
        assert(field_sets(map) =~= pair_map(input.take(idx + 1)));
    }
    assert(input.take(input.len() as int) =~= input);
    map
}

/// The map of name sets that a sequence of pairs describes, later pairs
/// taking precedence.
pub open spec fn pair_map(pairs: Seq<(String, Vec<String>)>) -> Map<Seq<char>, Set<Seq<char>>>
    decreases pairs.len(),
{
    if pairs.len() == 0 {
        Map::empty()
    } else {
        pair_map(pairs.drop_last()).insert(pairs.last().0@, name_set(pairs.last().1@))
    }
}

impl Default for PreprocessorConfig {
    /// Twenty-second windows; format, parameter, text and GPS messages
    /// dropped; mode, name, value and reason fields snapshotted; `TimeUS`
    /// and `Default` fields dropped; the `I` field of `PIDP` dropped.
    fn default() -> (res: Self)
        ensures
            res.window_duration@ == 20_000_000_000,
            res.messages_to_ignore@ == set![
                "FMT"@, "FMTU"@, "FMU"@, "UNIT"@, "MULT"@, "FILE"@, "MSG"@, "VER"@, "GPS"@, "PARM"@
            ],
            res.snapshoting_fields@ == set!["Mode"@, "Name"@, "Value"@, "ModeNum"@, "Rsn"@],
            res.ignore_fields@ == set!["TimeUS"@, "Default"@],
            field_sets(res.msg_with_ignored_fields) == map!["PIDP"@ => set!["I"@]],
    {
        let messages_to_ignore = string_set(default_messages_to_ignore());
        let snapshoting_fields = string_set(default_snapshoting_fields());
        let ignore_fields = string_set(default_ignore_fields());
        let pairs = default_msg_with_ignored_fields();
        let ghost pv = pairs@;
        let msg_with_ignored_fields = field_set_map(pairs);
        proof {
            let m = seq!["FMT"@, "FMTU"@, "FMU"@, "UNIT"@, "MULT"@, "FILE"@, "MSG"@, "VER"@, "GPS"@, "PARM"@];
            assert(m.to_set() =~= set![
                "FMT"@, "FMTU"@, "FMU"@, "UNIT"@, "MULT"@, "FILE"@, "MSG"@, "VER"@, "GPS"@, "PARM"@
            ]) by {
                assert(m[0] == "FMT"@ && m[1] == "FMTU"@ && m[2] == "FMU"@ && m[3] == "UNIT"@);
                assert(m[4] == "MULT"@ && m[5] == "FILE"@ && m[6] == "MSG"@ && m[7] == "VER"@);
                assert(m[8] == "GPS"@ && m[9] == "PARM"@);
            }
            let f = seq!["Mode"@, "Name"@, "Value"@, "ModeNum"@, "Rsn"@];
            assert(f.to_set() =~= set!["Mode"@, "Name"@, "Value"@, "ModeNum"@, "Rsn"@]) by {
                assert(f[0] == "Mode"@ && f[1] == "Name"@ && f[2] == "Value"@ && f[3] == "ModeNum"@);
                assert(f[4] == "Rsn"@);
            }
            let g = seq!["TimeUS"@, "Default"@];
            assert(g.to_set() =~= set!["TimeUS"@, "Default"@]) by {
                assert(g[0] == "TimeUS"@ && g[1] == "Default"@);
            }
            let h = seq!["I"@];
            assert(h.to_set() =~= set!["I"@]) by {
                assert(h[0] == "I"@);
            }
            assert(pv.drop_last() =~= Seq::<(String, Vec<String>)>::empty());
            assert(name_set(pv[0].1@) =~= set!["I"@]);
            assert(pair_map(pv.drop_last()) == Map::<Seq<char>, Set<Seq<char>>>::empty());
            assert(pv.last() == pv[0]);
            assert(pair_map(pv) == Map::<Seq<char>, Set<Seq<char>>>::empty().insert("PIDP"@, name_set(pv[0].1@)));
            assert(field_sets(msg_with_ignored_fields) =~= map!["PIDP"@ => set!["I"@]]);
        }
        PreprocessorConfig {
            window_duration: Duration::from_secs(20),
            messages_to_ignore,
            snapshoting_fields,
            ignore_fields,
            msg_with_ignored_fields,
        }
    }
}

impl PreprocessorConfig {
    /// Replaces the window length.
    pub fn window_duration_set(self, window_duration: Duration) -> (res: Self)
        ensures
            res.window_duration == window_duration,
            res.messages_to_ignore == self.messages_to_ignore,
            res.snapshoting_fields == self.snapshoting_fields,
            res.ignore_fields == self.ignore_fields,
            res.msg_with_ignored_fields == self.msg_with_ignored_fields,
    {
        let mut this = self;
        this.window_duration = window_duration;
        this
    }

    /// Replaces the set of dropped messages.
    pub fn messages_to_ignore(self, messages_to_ignore: Vec<String>) -> (res: Self)
        ensures
            res.window_duration == self.window_duration,
            res.messages_to_ignore@ == name_set(messages_to_ignore@),
            res.snapshoting_fields == self.snapshoting_fields,
            res.ignore_fields == self.ignore_fields,
            res.msg_with_ignored_fields == self.msg_with_ignored_fields,
    {
        let mut this = self;
        this.messages_to_ignore = string_set(messages_to_ignore);
        this
    }

    /// Replaces the set of snapshotted fields.
    pub fn snapshoting_fields(self, snapshoting_fields: Vec<String>) -> (res: Self)
        ensures
            res.window_duration == self.window_duration,
            res.messages_to_ignore == self.messages_to_ignore,
            res.snapshoting_fields@ == name_set(snapshoting_fields@),
            res.ignore_fields == self.ignore_fields,
            res.msg_with_ignored_fields == self.msg_with_ignored_fields,
    {
        let mut this = self;
        this.snapshoting_fields = string_set(snapshoting_fields);
        this
    }

    /// Replaces the set of dropped fields.
    pub fn ignore_fields(self, ignore_fields: Vec<String>) -> (res: Self)
        ensures
            res.window_duration == self.window_duration,
            res.messages_to_ignore == self.messages_to_ignore,
            res.snapshoting_fields == self.snapshoting_fields,
            res.ignore_fields@ == name_set(ignore_fields@),
            res.msg_with_ignored_fields == self.msg_with_ignored_fields,
    {
        let mut this = self;
        this.ignore_fields = string_set(ignore_fields);
        this
    }
}

} // verus!
