use vstd::prelude::*;
use vstd::hash_set::StringHashSet;

use crate::time::{saturating_diff, Duration};
use crate::value::LogEntry;

verus! {

broadcast use vstd::seq_lib::group_seq_properties;

/// Whether a message survives the ignore list.
pub open spec fn not_ignored(ignore: Set<Seq<char>>) -> spec_fn(LogEntry) -> bool {
    |e: LogEntry| !ignore.contains(e.name@)
}

/// The timestamp of a message, in nanoseconds.
pub open spec fn stamp(e: LogEntry) -> nat {
    e.timestamp.unwrap()@
}

pub open spec fn chunk_views(chunks: Seq<Vec<LogEntry>>) -> Seq<Seq<LogEntry>> {
    chunks.map_values(|c: Vec<LogEntry>| c@)
}

/// `chunks` cuts `kept` into consecutive windows: a window starts with a
/// message and takes every following message whose timestamp lies at most
/// `window` after that first one (earlier timestamps count as no distance);
/// the first message beyond the window starts the next one.
#[verifier::opaque]
pub open spec fn is_window_partition(kept: Seq<LogEntry>, chunks: Seq<Seq<LogEntry>>, window: nat) -> bool {
    &&& chunks.flatten() == kept
    &&& forall|c: int| 0 <= c < chunks.len() ==> #[trigger] chunks[c].len() > 0
    &&& forall|c: int, j: int|
        0 <= c < chunks.len() && 0 <= j < chunks[c].len() ==> saturating_diff(
            stamp(#[trigger] chunks[c][j]),
            stamp(chunks[c][0]),
        ) <= window
    &&& forall|c: int|
        0 < c < chunks.len() ==> saturating_diff(
            stamp(#[trigger] chunks[c][0]),
            stamp(chunks[c - 1][0]),
        ) > window
}

/// Every message that is not ignored carries a timestamp.
pub open spec fn kept_have_timestamps(entries: Seq<LogEntry>, ignore: Set<Seq<char>>) -> bool {
    forall|i: int|
        0 <= i < entries.len() && !ignore.contains(#[trigger] entries[i].name@)
            ==> entries[i].timestamp is Some
}

/// Splits a message stream into windows of `window` length, dropping the
/// messages whose name is in `msg_to_ignore`.
pub fn chunks_by_duration(
    entries: Vec<LogEntry>,
    window: Duration,
    msg_to_ignore: &StringHashSet,
) -> (res: Vec<Vec<LogEntry>>)
    requires
        kept_have_timestamps(entries@, msg_to_ignore@),
    ensures
        is_window_partition(
            entries@.filter(not_ignored(msg_to_ignore@)),
            chunk_views(res@),
            window@,
        ),
{
    let ghost input = entries@;
    let ghost pred = not_ignored(msg_to_ignore@);
    let mut chunks: Vec<Vec<LogEntry>> = Vec::new();
    let mut chunk: Vec<LogEntry> = Vec::new();
    let mut start = Duration::zero();
    for item in it: entries.into_iter()
        invariant
            it.seq() == input,
            kept_have_timestamps(input, msg_to_ignore@),
            pred == not_ignored(msg_to_ignore@),
            chunk_views(chunks@).flatten() + chunk@ == input.take(it.index() as int).filter(pred),
            forall|c: int| 0 <= c < chunks@.len() ==> #[trigger] chunks@[c]@.len() > 0,
            chunk@.len() == 0 ==> chunks@.len() == 0,
            chunk@.len() > 0 ==> start@ == stamp(chunk@[0]),
            forall|j: int| 0 <= j < chunk@.len() ==> saturating_diff(
                stamp(#[trigger] chunk@[j]),
                stamp(chunk@[0]),
            ) <= window@,
            forall|c: int, j: int|
                0 <= c < chunks@.len() && 0 <= j < chunks@[c]@.len() ==> saturating_diff(
                    stamp(#[trigger] chunks@[c]@[j]),
                    stamp(chunks@[c]@[0]),
                ) <= window@,
            forall|c: int|
                0 < c < chunks@.len() ==> saturating_diff(
                    stamp(#[trigger] chunks@[c]@[0]),
                    stamp(chunks@[c - 1]@[0]),
                ) > window@,
            chunks@.len() > 0 && chunk@.len() > 0 ==> saturating_diff(
                stamp(chunk@[0]),
                stamp(chunks@[chunks@.len() - 1]@[0]),
            ) > window@,
            forall|k: int| 0 <= k < chunk@.len() ==> (#[trigger] chunk@[k]).timestamp is Some,
    {
        let ghost idx = it.index() as int;
        assert(input.take(idx + 1).drop_last() =~= input.take(idx));
        assert(input.take(idx + 1).last() == input[idx]);
        assert(item == input[idx]);
        let ghost prefix_before = chunk_views(chunks@).flatten() + chunk@;
        if !msg_to_ignore.contains(item.name.as_str()) {
            assert(!msg_to_ignore@.contains(input[idx].name@));
            let ts = match item.timestamp {
                Some(t) => t,
                None => {
                    proof {
                        assert(false);
                    }
                    Duration::zero()
                },
            };
            let ghost old_chunks = chunks@;
            let ghost old_chunk = chunk@;
            if chunk.len() == 0 {
                start = ts;
                chunk.push(item);
            } else if ts.saturating_sub(&start).le(&window) {
                chunk.push(item);
            } else {
                let mut done: Vec<LogEntry> = Vec::new();
                std::mem::swap(&mut done, &mut chunk);
                chunks.push(done);
                start = ts;
                chunk.push(item);
                proof {
                    assert(chunk_views(chunks@) =~= chunk_views(old_chunks).push(old_chunk));
                    chunk_views(old_chunks).lemma_flatten_push(old_chunk);
                }
            }
        }
        proof {
            reveal_with_fuel(Seq::<_>::filter, 1);
            if pred(input[idx]) {
                assert(input.take(idx + 1).filter(pred) == input.take(idx).filter(pred).push(input[idx]));
                assert(chunk_views(chunks@).flatten() + chunk@ =~= prefix_before.push(input[idx]));
            } else {
                assert(input.take(idx + 1).filter(pred) == input.take(idx).filter(pred));
            }
            assert(chunk_views(chunks@).flatten() + chunk@ =~= input.take(idx + 1).filter(pred));
        }
    }
    let ghost pre_chunks = chunks@;
    if chunk.len() > 0 {
        let ghost last = chunk@;
        chunks.push(chunk);
        proof {
            assert(chunk_views(chunks@) =~= chunk_views(pre_chunks).push(last));
            chunk_views(pre_chunks).lemma_flatten_push(last);
        }
    }
    proof {
        reveal(is_window_partition);
        reveal_with_fuel(Seq::<_>::filter, 1);
        assert(input.take(input.len() as int) =~= input);
    }
    chunks
}

/// Peeling the first window off a partition leaves a partition of the rest
/// of the stream.
proof fn lemma_partition_first(kept: Seq<LogEntry>, a: Seq<Seq<LogEntry>>, window: nat)
    requires
        is_window_partition(kept, a, window),
        a.len() > 0,
    ensures
        a[0].len() > 0,
        a[0].len() <= kept.len(),
        a[0] == kept.take(a[0].len() as int),
        a.len() == 1 ==> kept.len() == a[0].len(),
        a.len() > 1 ==> kept.len() > a[0].len() && kept[a[0].len() as int] == a[1][0],
        is_window_partition(kept.skip(a[0].len() as int), a.drop_first(), window),
        a[0][0] == kept[0],
        forall|j: int| 0 <= j < a[0].len() ==> saturating_diff(stamp(#[trigger] a[0][j]), stamp(a[0][0])) <= window,
        a.len() > 1 ==> saturating_diff(stamp(a[1][0]), stamp(a[0][0])) > window,
{
    reveal(is_window_partition);
    let ra = a.drop_first();
    let n = a[0].len() as int;
    assert(a.flatten() == a[0] + ra.flatten());
    assert(a[0].len() > 0);
    assert(a[0] =~= kept.take(n));
    assert(ra.flatten() =~= kept.skip(n));
    if ra.len() > 0 {
        assert(ra.flatten() == ra[0] + ra.drop_first().flatten());
        assert(ra[0] == a[1]);
        assert(a[1].len() > 0);
        assert(kept[n] == ra.flatten()[0]);
    } else {
        assert(ra.flatten().len() == 0);
    }
    assert forall|c: int| 0 <= c < ra.len() implies #[trigger] ra[c].len() > 0 by {
        assert(ra[c] == a[c + 1]);
    }
    assert forall|c: int, j: int| 0 <= c < ra.len() && 0 <= j < ra[c].len() implies
        saturating_diff(stamp(#[trigger] ra[c][j]), stamp(ra[c][0])) <= window by {
        assert(ra[c] == a[c + 1]);
    }
    assert forall|c: int| 0 < c < ra.len() implies
        saturating_diff(stamp(#[trigger] ra[c][0]), stamp(ra[c - 1][0])) > window by {
        assert(ra[c] == a[c + 1]);
        assert(ra[c - 1] == a[c]);
    }
}

/// Windowing is determined by the stream: two cuts of the same message
/// sequence that both satisfy `is_window_partition` for the same window are
/// the same cut.
pub proof fn lemma_window_partition_unique(
    kept: Seq<LogEntry>,
    a: Seq<Seq<LogEntry>>,
    b: Seq<Seq<LogEntry>>,
    window: nat,
)
    requires
        is_window_partition(kept, a, window),
        is_window_partition(kept, b, window),
    ensures
        a == b,
    decreases a.len(),
{
    if a.len() == 0 || b.len() == 0 {
        reveal(is_window_partition);
        if a.len() == 0 {
            assert(kept.len() == 0);
        }
        if b.len() == 0 {
            assert(kept.len() == 0);
        }
        if a.len() > 0 {
            lemma_partition_first(kept, a, window);
        }
        if b.len() > 0 {
            lemma_partition_first(kept, b, window);
        }
        assert(a =~= b);
    } else {
        lemma_partition_first(kept, a, window);
        lemma_partition_first(kept, b, window);
        let n = a[0].len() as int;
        let m = b[0].len() as int;
        if n < m {
            assert(kept[n] == b[0][n]);
            assert(saturating_diff(stamp(b[0][n]), stamp(b[0][0])) <= window);
        }
        if m < n {
            assert(kept[m] == a[0][m]);
            assert(saturating_diff(stamp(a[0][m]), stamp(a[0][0])) <= window);
        }
        assert(n == m);
        lemma_window_partition_unique(kept.skip(n), a.drop_first(), b.drop_first(), window);
        assert(a =~= seq![a[0]] + a.drop_first());
        assert(b =~= seq![b[0]] + b.drop_first());
    }
}

} // verus!
