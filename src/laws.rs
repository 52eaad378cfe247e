//! Properties of recording and serializing that hold of every profile.
use vstd::prelude::*;
use crate::encode::profile_bytes;
use crate::model::{StatsView, TimingError, lemma_intern, lemma_record, recorded};
use crate::types::{FrameView, TraceView};

verus! {

/// Determinism: the same trace recorded at the same time on the same profile
/// gives the same profile, and the same profile serializes to the same bytes;
/// so a fixed sequence of recordings always yields the same output.
pub proof fn lemma_deterministic(a: StatsView, b: StatsView, t: TraceView, time: u64)
    requires
        a == b,
    ensures
        a.record(t, time) == b.record(t, time),
        profile_bytes(a) == profile_bytes(b),
        forall|na: StatsView, ra: Result<(), TimingError>, nb: StatsView, rb: Result<(), TimingError>|
            recorded(a, t, time, na, ra) && recorded(b, t, time, nb, rb) ==> na == nb && ra == rb
                && profile_bytes(na) == profile_bytes(nb),
{
}

/// Interning a string twice leaves the table as the first time left it and
/// gives the same index both times; a string already present is not added.
pub proof fn lemma_intern_idempotent(v: StatsView, s: Seq<char>)
    requires
        v.wf(),
        v.strings.len() < i64::MAX,
    ensures
        ({
            let (v1, i) = v.intern(s);
            let (v2, j) = v1.intern(s);
            &&& v2 == v1
            &&& j == i
            &&& v.strings.contains(s) ==> v1 == v
        }),
{
    let (v1, i) = v.intern(s);
    lemma_intern(v, s);
    assert(v1.strings.contains(s));
    let k = v1.strings.index_of(s);
    assert(k == i);
}

/// Two recorded traces that share a frame leave one location for that frame,
/// and both samples refer to it by the same id.
pub proof fn lemma_shared_frame(
    v: StatsView,
    t1: TraceView,
    time1: u64,
    t2: TraceView,
    time2: u64,
    a: int,
    b: int,
)
    requires
        v.wf(),
        v.has_room(t1.frames.len()),
        v.record(t1, time1) is Ok,
        v.record(t1, time1)->Ok_0.has_room(t2.frames.len()),
        v.record(t1, time1)->Ok_0.record(t2, time2) is Ok,
        0 <= a < t1.frames.len(),
        0 <= b < t2.frames.len(),
        t1.frames[a] == t2.frames[b],
    ensures
        ({
            let v2 = v.record(t1, time1)->Ok_0.record(t2, time2)->Ok_0;
            let n = v.samples.len() as int;
            let id = v2.samples[n].location_id[a];
            &&& v2.samples.len() == n + 2
            &&& id == v2.samples[n + 1].location_id[b]
            &&& 1 <= id <= v2.locations.len()
            &&& v2.frames[id - 1] == t1.frames[a]
            &&& forall|k: int|
                0 <= k < v2.frames.len() && #[trigger] v2.frames[k] == t1.frames[a] ==> k == id - 1
        }),
{
    let v1 = v.record(t1, time1)->Ok_0;
    lemma_record(v, t1, time1);
    let v2 = v1.record(t2, time2)->Ok_0;
    lemma_record(v1, t2, time2);
    let n = v.samples.len() as int;
    let s1 = v1.samples.last();
    assert(v2.samples[n] == s1);
    let id1 = s1.location_id[a];
    let id2 = v2.samples[n + 1].location_id[b];
    assert(v2.frames[id1 - 1] == v1.frames[id1 - 1]);
    assert(v2.frames.no_duplicates());
}

/// Every function id and every location id is at least 1, and no two
/// entries of a table share one.
pub proof fn lemma_ids_positive_unique(v: StatsView)
    requires
        v.wf(),
    ensures
        forall|i: int| 0 <= i < v.functions.len() ==> #[trigger] v.functions[i].id >= 1,
        forall|i: int, j: int|
            0 <= i < v.functions.len() && 0 <= j < v.functions.len() && i != j ==> #[trigger] v.functions[i].id
                != #[trigger] v.functions[j].id,
        forall|i: int| 0 <= i < v.locations.len() ==> #[trigger] v.locations[i].id >= 1,
        forall|i: int, j: int|
            0 <= i < v.locations.len() && 0 <= j < v.locations.len() && i != j ==> #[trigger] v.locations[i].id
                != #[trigger] v.locations[j].id,
{
    assert forall|i: int| 0 <= i < v.locations.len() implies #[trigger] v.locations[i].id == i + 1 by {
        assert(v.location_ok(i));
    }
}

/// A trace whose time is earlier than that of the trace recorded before it
/// is refused with a `TimingError`, and the samples stay as they were.
pub proof fn lemma_time_goes_forward(
    v: StatsView,
    t1: TraceView,
    time1: u64,
    t2: TraceView,
    time2: u64,
)
    requires
        v.wf(),
        v.record(t1, time1) is Ok,
        time2 < time1,
    ensures
        ({
            let v1 = v.record(t1, time1)->Ok_0;
            &&& v1.record(t2, time2) == Err::<StatsView, TimingError>(
                TimingError { previous: time1, time: time2 },
            )
            &&& forall|next: StatsView, r: Result<(), TimingError>|
                #[trigger] recorded(v1, t2, time2, next, r) ==> r is Err && next == v1
                    && next.samples.len() == v1.samples.len()
        }),
{
}

/// The first sample recorded always has the value 0.
pub proof fn lemma_first_sample_zero(v: StatsView, t: TraceView, time: u64)
    requires
        v.wf(),
        v.has_room(t.frames.len()),
        v.samples.len() == 0,
    ensures
        v.record(t, time) is Ok,
        v.record(t, time)->Ok_0.samples.len() == 1,
        v.record(t, time)->Ok_0.samples[0].value == seq![0i64],
{
    lemma_record(v, t, time);
}

} // verus!
