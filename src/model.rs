//! The records of a pprof profile, and the abstract state of a profile being
//! accumulated, with one spec function per step of recording a stack trace.
use vstd::prelude::*;
use crate::types::{FrameView, TraceView};

verus! {

/// A function: a name in a source file, both as string table indices.
#[derive(Clone, Copy, Debug, PartialEq, Eq, Structural)]
pub struct Function {
    pub id: u64,
    pub name: i64,
    pub filename: i64,
}

/// One source line of a location.
#[derive(Clone, Copy, Debug, PartialEq, Eq, Structural)]
pub struct Line {
    pub function_id: u64,
    pub line: i64,
}

/// A numeric label of a sample; `key` is a string table index.
#[derive(Clone, Copy, Debug, PartialEq, Eq, Structural)]
pub struct Label {
    pub key: i64,
    pub num: i64,
}

/// A call site.
#[derive(Debug)]
pub struct Location {
    pub id: u64,
    pub line: Vec<Line>,
}

pub struct LocationView {
    pub id: u64,
    pub line: Seq<Line>,
}

impl View for Location {
    type V = LocationView;

    open spec fn view(&self) -> LocationView {
        LocationView { id: self.id, line: self.line@ }
    }
}

/// One observation: a call stack as location ids, innermost first, its values
/// and its labels.
#[derive(Debug)]
pub struct Sample {
    pub location_id: Vec<u64>,
    pub value: Vec<i64>,
    pub label: Vec<Label>,
}

pub struct SampleView {
    pub location_id: Seq<u64>,
    pub value: Seq<i64>,
    pub label: Seq<Label>,
}

impl View for Sample {
    type V = SampleView;

    open spec fn view(&self) -> SampleView {
        SampleView { location_id: self.location_id@, value: self.value@, label: self.label@ }
    }
}

/// A stack trace whose time is earlier than that of the sample before it.
#[derive(Clone, Copy, Debug, PartialEq, Eq, Structural)]
pub struct TimingError {
    /// The time of the sample before, in nanoseconds since the Unix epoch.
    pub previous: u64,
    /// The time of the rejected trace.
    pub time: u64,
}

/// `p` is a prefix of `s`.
pub open spec fn is_prefix<A>(p: Seq<A>, s: Seq<A>) -> bool {
    p.len() <= s.len() && forall|i: int| 0 <= i < p.len() ==> #[trigger] s[i] == p[i]
}

/// The abstract state of a profile: its tables, the frames behind its
/// locations, and the time of the last sample.
pub struct StatsView {
    pub strings: Seq<Seq<char>>,
    pub functions: Seq<Function>,
    pub locations: Seq<LocationView>,
    /// `frames[i]` is the frame of `locations[i]`.
    pub frames: Seq<FrameView>,
    pub samples: Seq<SampleView>,
    pub prev_time: Option<u64>,
}

impl StatsView {
    /// A fresh profile: the string table holds "", "wall" and "ms".
    pub open spec fn initial() -> StatsView {
        StatsView {
            strings: seq![""@, "wall"@, "ms"@],
            functions: Seq::empty(),
            locations: Seq::empty(),
            frames: Seq::empty(),
            samples: Seq::empty(),
            prev_time: None,
        }
    }

    /// `f` names the function `name` in the file `path`.
    pub open spec fn names_function(self, f: Function, name: Seq<char>, path: Seq<char>) -> bool {
        &&& 0 <= f.name < self.strings.len()
        &&& 0 <= f.filename < self.strings.len()
        &&& self.strings[f.name as int] == name
        &&& self.strings[f.filename as int] == path
    }

    pub open spec fn location_ok(self, i: int) -> bool {
        let loc = self.locations[i];
        let fr = self.frames[i];
        &&& loc.id == i + 1
        &&& loc.line.len() == 1
        &&& loc.line[0].line == fr.lineno as i64
        &&& 1 <= loc.line[0].function_id <= self.functions.len()
        &&& self.names_function(
            self.functions[loc.line[0].function_id - 1],
            fr.name,
            fr.relative_path,
        )
    }

    pub open spec fn sample_ok(self, s: SampleView) -> bool {
        &&& s.value.len() == 1
        &&& forall|j: int|
            0 <= j < s.location_id.len() ==> 1 <= #[trigger] s.location_id[j]
                <= self.locations.len()
        &&& forall|j: int| 0 <= j < s.label.len() ==> 0 <= #[trigger] s.label[j].key < self.strings.len()
    }

    /// The invariant of the tables: fixed first strings, no string twice, ids
    /// that are positions plus one, one function per name and file, one
    /// location per frame, and references that resolve.
    pub open spec fn wf(self) -> bool {
        &&& self.strings.len() >= 3
        &&& self.strings[0] == ""@
        &&& self.strings[1] == "wall"@
        &&& self.strings[2] == "ms"@
        &&& self.strings.no_duplicates()
        &&& self.strings.len() <= i64::MAX
        &&& self.functions.len() < u64::MAX
        &&& forall|i: int|
            0 <= i < self.functions.len() ==> {
                let f = #[trigger] self.functions[i];
                &&& f.id == i + 1
                &&& 0 <= f.name < self.strings.len()
                &&& 0 <= f.filename < self.strings.len()
            }
        &&& forall|i: int, j: int|
            0 <= i < self.functions.len() && 0 <= j < self.functions.len() && i != j ==> !(
            self.strings[#[trigger] self.functions[i].name as int] == self.strings[self.functions[j].name as int]
                && self.strings[self.functions[i].filename as int] == self.strings[#[trigger] self.functions[j].filename as int])
        &&& self.frames.len() == self.locations.len()
        &&& self.locations.len() < u64::MAX
        &&& self.frames.no_duplicates()
        &&& forall|i: int| 0 <= i < self.locations.len() ==> #[trigger] self.location_ok(i)
        &&& forall|i: int| 0 <= i < self.samples.len() ==> #[trigger] self.sample_ok(self.samples[i])
        &&& (self.prev_time is None <==> self.samples.len() == 0)
    }

    /// Room in the tables for one more trace of `n` frames: every new string,
    /// function and location gets an index or id that fits its type.
    pub open spec fn has_room(self, n: nat) -> bool {
        &&& self.strings.len() + 2 * n + 2 <= i64::MAX
        &&& self.functions.len() + n < u64::MAX
        &&& self.locations.len() + n < u64::MAX
    }

    /// The state grew from `prev`: every table of `prev` is a prefix of its own.
    pub open spec fn extends(self, prev: StatsView) -> bool {
        &&& is_prefix(prev.strings, self.strings)
        &&& is_prefix(prev.functions, self.functions)
        &&& is_prefix(prev.locations, self.locations)
        &&& is_prefix(prev.frames, self.frames)
        &&& is_prefix(prev.samples, self.samples)
    }

    /// The index of `s` in the string table, after adding it if it is absent.
    pub open spec fn intern(self, s: Seq<char>) -> (StatsView, i64) {
        if self.strings.contains(s) {
            (self, self.strings.index_of(s) as i64)
        } else {
            (StatsView { strings: self.strings.push(s), ..self }, self.strings.len() as i64)
        }
    }

    pub open spec fn has_function(self, name: Seq<char>, path: Seq<char>) -> bool {
        exists|i: int|
            0 <= i < self.functions.len() && self.names_function(
                #[trigger] self.functions[i],
                name,
                path,
            )
    }

    pub open spec fn function_index(self, name: Seq<char>, path: Seq<char>) -> int {
        choose|i: int|
            0 <= i < self.functions.len() && self.names_function(
                #[trigger] self.functions[i],
                name,
                path,
            )
    }

    /// The id of the function `name` in `path`, after adding it if it is
    /// absent; a new function's id is the table's length plus one.
    pub open spec fn resolve_function(self, name: Seq<char>, path: Seq<char>) -> (StatsView, u64) {
        if self.has_function(name, path) {
            (self, (self.function_index(name, path) + 1) as u64)
        } else {
            let (v1, ni) = self.intern(name);
            let (v2, pi) = v1.intern(path);
            let id = (self.functions.len() + 1) as u64;
            (
                StatsView {
                    functions: v2.functions.push(Function { id, name: ni, filename: pi }),
                    ..v2
                },
                id,
            )
        }
    }

    /// The id of the location of `fr`, after adding it if it is absent; a new
    /// location's id is the table's length plus one.
    pub open spec fn resolve_location(self, fr: FrameView) -> (StatsView, u64) {
        if self.frames.contains(fr) {
            (self, (self.frames.index_of(fr) + 1) as u64)
        } else {
            let (v1, fid) = self.resolve_function(fr.name, fr.relative_path);
            let id = (self.locations.len() + 1) as u64;
            let loc = LocationView {
                id,
                line: seq![Line { function_id: fid, line: fr.lineno as i64 }],
            };
            (StatsView { frames: v1.frames.push(fr), locations: v1.locations.push(loc), ..v1 }, id)
        }
    }

    /// The location ids of `frs`, resolved in order.
    pub open spec fn resolve_locations(self, frs: Seq<FrameView>) -> (StatsView, Seq<u64>)
        decreases frs.len(),
    {
        if frs.len() == 0 {
            (self, Seq::empty())
        } else {
            let (v1, ids) = self.resolve_locations(frs.drop_last());
            let (v2, id) = v1.resolve_location(frs.last());
            (v2, ids.push(id))
        }
    }

    /// The labels of a sample: "pid" first, then "thread_id", each where present.
    pub open spec fn labels(self, pid: Option<i32>, thread_id: Option<u64>) -> (StatsView, Seq<Label>) {
        let (v1, l1) = match pid {
            Some(p) => {
                let (v, k) = self.intern("pid"@);
                (v, seq![Label { key: k, num: p as i64 }])
            },
            None => (self, Seq::empty()),
        };
        match thread_id {
            Some(t) => {
                let (v2, k) = v1.intern("thread_id"@);
                (v2, l1.push(Label { key: k, num: t as i64 }))
            },
            None => (v1, l1),
        }
    }

    /// Whole milliseconds from the last sample to `time`; 0 for the first sample.
    pub open spec fn delta_ms(self, time: u64) -> i64 {
        match self.prev_time {
            Some(p) => ((time - p) / 1_000_000) as i64,
            None => 0,
        }
    }

    /// `time` is earlier than the last sample's.
    pub open spec fn too_early(self, time: u64) -> bool {
        self.prev_time is Some && time < self.prev_time->0
    }

    /// The state after recording `t` at `time`, or the error.
    pub open spec fn record(self, t: TraceView, time: u64) -> Result<StatsView, TimingError> {
        if self.too_early(time) {
            Err(TimingError { previous: self.prev_time->0, time })
        } else {
            let (v1, ids) = self.resolve_locations(t.frames);
            let (v2, labels) = v1.labels(t.pid, t.thread_id);
            let s = SampleView {
                location_id: ids,
                value: seq![self.delta_ms(time)],
                label: labels,
            };
            Ok(StatsView { samples: v2.samples.push(s), prev_time: Some(time), ..v2 })
        }
    }
}

/// `next` and `r` are what recording `t` at `time` on `prev` gives: the new
/// state and `Ok`, or the unchanged state and the error.
pub open spec fn recorded(
    prev: StatsView,
    t: TraceView,
    time: u64,
    next: StatsView,
    r: Result<(), TimingError>,
) -> bool {
    match prev.record(t, time) {
        Ok(w) => next == w && r == Ok::<(), TimingError>(()),
        Err(e) => next == prev && r == Err::<(), TimingError>(e),
    }
}

/// A fresh profile is well formed.
pub proof fn lemma_initial_wf()
    ensures
        StatsView::initial().wf(),
{
    reveal_strlit("");
    reveal_strlit("wall");
    reveal_strlit("ms");
    let v = StatsView::initial();
    assert(v.strings[0].len() == 0);
    assert(v.strings[1].len() == 4);
    assert(v.strings[2].len() == 2);
    assert(v.strings[1][0] != v.strings[2][0]);
}

/// Interning keeps the invariant, only appends to the string table, and
/// gives the index of the string.
pub proof fn lemma_intern(v: StatsView, s: Seq<char>)
    requires
        v.wf(),
        v.strings.len() < i64::MAX,
    ensures
        ({
            let (w, k) = v.intern(s);
            &&& w.wf()
            &&& w.extends(v)
            &&& 0 <= k < w.strings.len()
            &&& w.strings[k as int] == s
            &&& w.strings.len() <= v.strings.len() + 1
            &&& w.functions == v.functions
            &&& w.locations == v.locations
            &&& w.frames == v.frames
            &&& w.samples == v.samples
            &&& w.prev_time == v.prev_time
        }),
{
    let (w, k) = v.intern(s);
    if v.strings.contains(s) {
        let i = v.strings.index_of(s);
    } else {
        assert(w.strings.no_duplicates());
        assert forall|i: int| 0 <= i < w.locations.len() implies #[trigger] w.location_ok(i) by {
            assert(v.location_ok(i));
        }
        assert forall|i: int| 0 <= i < w.samples.len() implies #[trigger] w.sample_ok(w.samples[i]) by {
            assert(v.sample_ok(v.samples[i]));
        }
    }
}

/// With no function named twice, the function found is the one at `i`.
pub proof fn lemma_function_index(v: StatsView, i: int, name: Seq<char>, path: Seq<char>)
    requires
        v.wf(),
        0 <= i < v.functions.len(),
        v.names_function(v.functions[i], name, path),
    ensures
        v.has_function(name, path),
        v.function_index(name, path) == i,
{
    let j = v.function_index(name, path);
    if j != i {
        assert(v.names_function(v.functions[j], name, path));
        assert(false);
    }
}

/// Resolving a function keeps the invariant and gives the id of a function
/// with that name and path.
pub proof fn lemma_resolve_function(v: StatsView, name: Seq<char>, path: Seq<char>)
    requires
        v.wf(),
        v.strings.len() + 2 <= i64::MAX,
        v.functions.len() + 1 < u64::MAX,
    ensures
        ({
            let (w, id) = v.resolve_function(name, path);
            &&& w.wf()
            &&& w.extends(v)
            &&& 1 <= id <= w.functions.len()
            &&& w.names_function(w.functions[id - 1], name, path)
            &&& w.strings.len() <= v.strings.len() + 2
            &&& w.functions.len() <= v.functions.len() + 1
            &&& w.locations == v.locations
            &&& w.frames == v.frames
            &&& w.samples == v.samples
            &&& w.prev_time == v.prev_time
        }),
{
    let (w, id) = v.resolve_function(name, path);
    if !v.has_function(name, path) {
        let (v1, ni) = v.intern(name);
        lemma_intern(v, name);
        let (v2, pi) = v1.intern(path);
        lemma_intern(v1, path);
        assert forall|i: int| 0 <= i < v.functions.len() implies !w.names_function(
            #[trigger] w.functions[i],
            name,
            path,
        ) by {
            assert(!v.names_function(v.functions[i], name, path));
            assert(w.strings[v.functions[i].name as int] == v.strings[v.functions[i].name as int]);
            assert(w.strings[v.functions[i].filename as int] == v.strings[v.functions[i].filename as int]);
        }
        assert forall|i: int, j: int|
            0 <= i < w.functions.len() && 0 <= j < w.functions.len() && i != j implies !(
            w.strings[#[trigger] w.functions[i].name as int] == w.strings[w.functions[j].name as int]
                && w.strings[w.functions[i].filename as int] == w.strings[#[trigger] w.functions[j].filename as int]) by {
            if i < v.functions.len() && j < v.functions.len() {
                assert(v2.functions[i] == w.functions[i]);
                assert(v2.functions[j] == w.functions[j]);
            } else if i < v.functions.len() {
                assert(!w.names_function(w.functions[i], name, path));
            } else {
                assert(!w.names_function(w.functions[j], name, path));
            }
        }
        assert forall|i: int| 0 <= i < w.locations.len() implies #[trigger] w.location_ok(i) by {
            assert(v2.location_ok(i));
            assert(w.functions[w.locations[i].line[0].function_id - 1] == v2.functions[w.locations[i].line[0].function_id - 1]);
        }
        assert forall|i: int| 0 <= i < w.samples.len() implies #[trigger] w.sample_ok(w.samples[i]) by {
            assert(v2.sample_ok(v2.samples[i]));
        }
    } else {
        let i = v.function_index(name, path);
    }
}

/// Resolving a frame keeps the invariant and gives the id of the location
/// of that frame.
pub proof fn lemma_resolve_location(v: StatsView, fr: FrameView)
    requires
        v.wf(),
        v.strings.len() + 2 <= i64::MAX,
        v.functions.len() + 1 < u64::MAX,
        v.locations.len() + 1 < u64::MAX,
    ensures
        ({
            let (w, id) = v.resolve_location(fr);
            &&& w.wf()
            &&& w.extends(v)
            &&& 1 <= id <= w.locations.len()
            &&& w.frames[id - 1] == fr
            &&& w.strings.len() <= v.strings.len() + 2
            &&& w.functions.len() <= v.functions.len() + 1
            &&& w.locations.len() <= v.locations.len() + 1
            &&& w.samples == v.samples
            &&& w.prev_time == v.prev_time
        }),
{
    let (w, id) = v.resolve_location(fr);
    if !v.frames.contains(fr) {
        let (v1, fid) = v.resolve_function(fr.name, fr.relative_path);
        lemma_resolve_function(v, fr.name, fr.relative_path);
        assert(w.frames.no_duplicates());
        assert forall|i: int| 0 <= i < w.locations.len() implies #[trigger] w.location_ok(i) by {
            if i < v.locations.len() {
                assert(v1.location_ok(i));
            }
        }
        assert forall|i: int| 0 <= i < w.samples.len() implies #[trigger] w.sample_ok(w.samples[i]) by {
            assert(v1.sample_ok(v1.samples[i]));
        }
    } else {
        let i = v.frames.index_of(fr);
    }
}

/// Resolving the frames of a trace keeps the invariant and gives, for each
/// frame, the id of its location.
pub proof fn lemma_resolve_locations(v: StatsView, frs: Seq<FrameView>)
    requires
        v.wf(),
        v.strings.len() + 2 * frs.len() <= i64::MAX,
        v.functions.len() + frs.len() < u64::MAX,
        v.locations.len() + frs.len() < u64::MAX,
    ensures
        ({
            let (w, ids) = v.resolve_locations(frs);
            &&& w.wf()
            &&& w.extends(v)
            &&& ids.len() == frs.len()
            &&& forall|j: int|
                0 <= j < ids.len() ==> 1 <= #[trigger] ids[j] <= w.locations.len() && w.frames[ids[j]
                    - 1] == frs[j]
            &&& w.strings.len() <= v.strings.len() + 2 * frs.len()
            &&& w.functions.len() <= v.functions.len() + frs.len()
            &&& w.locations.len() <= v.locations.len() + frs.len()
            &&& w.samples == v.samples
            &&& w.prev_time == v.prev_time
        }),
    decreases frs.len(),
{
    if frs.len() > 0 {
        let (v1, ids) = v.resolve_locations(frs.drop_last());
        lemma_resolve_locations(v, frs.drop_last());
        lemma_resolve_location(v1, frs.last());
        let (w, id) = v1.resolve_location(frs.last());
        assert forall|j: int| 0 <= j < ids.len() implies w.frames[ids[j] - 1] == frs[j] by {
            assert(v1.frames[ids[j] - 1] == frs.drop_last()[j]);
        }
    }
}

/// Labelling keeps the invariant, and every label's key is a string index.
pub proof fn lemma_labels(v: StatsView, pid: Option<i32>, thread_id: Option<u64>)
    requires
        v.wf(),
        v.strings.len() + 2 <= i64::MAX,
    ensures
        ({
            let (w, ls) = v.labels(pid, thread_id);
            &&& w.wf()
            &&& w.extends(v)
            &&& forall|j: int| 0 <= j < ls.len() ==> 0 <= #[trigger] ls[j].key < w.strings.len()
            &&& w.functions == v.functions
            &&& w.locations == v.locations
            &&& w.frames == v.frames
            &&& w.samples == v.samples
            &&& w.prev_time == v.prev_time
        }),
{
    let v1 = match pid {
        Some(p) => {
            lemma_intern(v, "pid"@);
            v.intern("pid"@).0
        },
        None => v,
    };
    if thread_id is Some {
        lemma_intern(v1, "thread_id"@);
    }
}

/// Recording succeeds exactly when the time is not earlier than the last
/// sample's; it keeps the invariant, only appends to the tables, and adds one
/// sample whose location ids point at the trace's frames.
pub proof fn lemma_record(v: StatsView, t: TraceView, time: u64)
    requires
        v.wf(),
        v.has_room(t.frames.len()),
    ensures
        v.record(t, time) is Ok <==> !v.too_early(time),
        v.record(t, time) is Ok ==> ({
            let w = v.record(t, time)->Ok_0;
            let s = w.samples.last();
            &&& w.wf()
            &&& w.extends(v)
            &&& w.samples.len() == v.samples.len() + 1
            &&& s.value == seq![v.delta_ms(time)]
            &&& s.location_id.len() == t.frames.len()
            &&& forall|j: int|
                0 <= j < s.location_id.len() ==> 1 <= #[trigger] s.location_id[j]
                    <= w.locations.len() && w.frames[s.location_id[j] - 1] == t.frames[j]
        }),
{
    if !v.too_early(time) {
        let (v1, ids) = v.resolve_locations(t.frames);
        lemma_resolve_locations(v, t.frames);
        let (v2, labels) = v1.labels(t.pid, t.thread_id);
        lemma_labels(v1, t.pid, t.thread_id);
        let w = v.record(t, time)->Ok_0;
        assert(w.samples.last() == SampleView {
            location_id: ids,
            value: seq![v.delta_ms(time)],
            label: labels,
        });
        assert(v2.sample_ok(w.samples.last()));
        assert forall|i: int| 0 <= i < w.samples.len() implies #[trigger] w.sample_ok(w.samples[i]) by {
            if i < v2.samples.len() {
                assert(v2.sample_ok(v2.samples[i]));
            }
        }
        assert forall|i: int| 0 <= i < w.locations.len() implies #[trigger] w.location_ok(i) by {
            assert(v2.location_ok(i));
        }
        assert(w.wf());
        assert(w.extends(v));
        assert forall|j: int| 0 <= j < ids.len() implies w.frames[ids[j] - 1] == t.frames[j] by {
            assert(v1.frames[ids[j] - 1] == t.frames[j]);
        }
    }
}

} // verus!
