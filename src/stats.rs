//! The profile accumulator.
use vstd::prelude::*;
use crate::model::{
    Function, Label, Line, Location, Sample, SampleView, StatsView, TimingError, lemma_initial_wf,
    lemma_intern, lemma_function_index, lemma_resolve_function, lemma_resolve_location,
    lemma_resolve_locations, lemma_record, recorded,
};
use crate::types::{StackFrame, StackTrace};
use crate::encode::{
    encode_function, encode_location, encode_sample, encode_value_type, functions_bytes,
    locations_bytes, profile_bytes, samples_bytes, strings_bytes,
};
use crate::wire::put_bytes_field;

verus! {

/// Relies on std::time::SystemTime::now for the wall clock, read as
/// nanoseconds since the Unix epoch; `None` where the clock reads before the
/// epoch or past what a `u64` holds. Nothing is promised of the value.
#[verifier::external_body]
fn clock_now() -> (r: Option<u64>) {
    match std::time::SystemTime::now().duration_since(std::time::UNIX_EPOCH) {
        Ok(d) => u64::try_from(d.as_nanos()).ok(),
        Err(_) => None,
    }
}

/// A wall-time profile in the making: interned strings, functions and
/// locations, and one sample per recorded stack trace.
pub struct Stats {
    strings: Vec<String>,
    functions: Vec<Function>,
    locations: Vec<Location>,
    known_frames: Vec<StackFrame>,
    samples: Vec<Sample>,
    prev_time: Option<u64>,
}

impl View for Stats {
    type V = StatsView;

    closed spec fn view(&self) -> StatsView {
        StatsView {
            strings: self.strings@.map_values(|s: String| s@),
            functions: self.functions@,
            locations: self.locations@.map_values(|l: Location| l@),
            frames: self.known_frames@.map_values(|f: StackFrame| f@),
            samples: self.samples@.map_values(|s: Sample| s@),
            prev_time: self.prev_time,
        }
    }
}

impl Stats {
    /// An empty profile whose string table holds "", "wall" and "ms".
    pub fn new() -> (r: Stats)
        ensures
            r@ == StatsView::initial(),
            r@.wf(),
    {
        let r = Stats {
            strings: vec!["".to_owned(), "wall".to_owned(), "ms".to_owned()],
            functions: Vec::new(),
            locations: Vec::new(),
            known_frames: Vec::new(),
            samples: Vec::new(),
            prev_time: None,
        };
        proof {
            lemma_initial_wf();
            assert(r@.strings =~= StatsView::initial().strings);
            assert(r@.locations =~= Seq::empty());
            assert(r@.frames =~= Seq::empty());
            assert(r@.samples =~= Seq::empty());
        }
        r
    }

    /// The index of `text` in the string table, which gets it appended if it
    /// is not there yet.
    fn string_id(&mut self, text: &String) -> (r: i64)
        requires
            old(self)@.wf(),
            old(self)@.strings.len() < i64::MAX,
        ensures
            (final(self)@, r) == old(self)@.intern(text@),
    {
        let mut i: usize = 0;
        while i < self.strings.len()
            invariant
                *self == *old(self),
                self@.wf(),
                self@.strings.len() < i64::MAX,
                i <= self@.strings.len(),
                forall|j: int| 0 <= j < i ==> self@.strings[j] != text@,
            decreases self@.strings.len() - i,
        {
            if self.strings[i] == *text {
                proof {
                    assert(self@.strings[i as int] == text@);
                    assert(self@.strings.contains(text@));
                    let k = self@.strings.index_of(text@);
                    assert(k == i);
                }
                return i as i64;
            }
            i = i + 1;
        }
        proof {
            if self@.strings.contains(text@) {
                let k = self@.strings.index_of(text@);
                assert(false);
            }
        }
        let next_id = self.strings.len() as i64;
        self.strings.push(text.clone());
        proof {
            assert(self@.strings =~= old(self)@.strings.push(text@));
        }
        next_id
    }

    /// A function record for `frame` with the id `id`, its name and path
    /// interned.
    fn new_function(&mut self, id: u64, frame: &StackFrame) -> (r: Function)
        requires
            old(self)@.wf(),
            old(self)@.strings.len() + 2 <= i64::MAX,
        ensures
            ({
                let (v1, ni) = old(self)@.intern(frame.name@);
                let (v2, pi) = v1.intern(frame.relative_path@);
                final(self)@ == v2 && r == Function { id, name: ni, filename: pi }
            }),
    {
        proof {
            lemma_intern(self@, frame.name@);
        }
        let name = self.string_id(&frame.name);
        let filename = self.string_id(&frame.relative_path);
        Function { id, name, filename }
    }

    /// The id of the function of `frame`, found by name and path, or added
    /// with the table's length plus one as its id.
    fn get_or_create_function_id(&mut self, frame: &StackFrame) -> (r: u64)
        requires
            old(self)@.wf(),
            old(self)@.strings.len() + 2 <= i64::MAX,
            old(self)@.functions.len() + 1 < u64::MAX,
        ensures
            (final(self)@, r) == old(self)@.resolve_function(frame.name@, frame.relative_path@),
    {
        let mut i: usize = 0;
        while i < self.functions.len()
            invariant
                *self == *old(self),
                self@.wf(),
                i <= self@.functions.len(),
                forall|j: int|
                    0 <= j < i ==> !self@.names_function(
                        #[trigger] self@.functions[j],
                        frame.name@,
                        frame.relative_path@,
                    ),
            decreases self@.functions.len() - i,
        {
            let f = self.functions[i];
            proof {
                assert(self@.functions[i as int] == f);
                assert(0 <= f.name < self@.strings.len() && 0 <= f.filename < self@.strings.len());
                assert(self@.strings[f.name as int] == self.strings@[f.name as int]@);
                assert(self@.strings[f.filename as int] == self.strings@[f.filename as int]@);
            }
            let n = self.strings.len();
            assert(n == self@.strings.len());
            let ni = f.name as usize;
            let pi = f.filename as usize;
            let same_name = self.strings[ni] == frame.name;
            let same_path = self.strings[pi] == frame.relative_path;
            if same_name && same_path {
                proof {
                    lemma_function_index(self@, i as int, frame.name@, frame.relative_path@);
                }
                return f.id;
            }
            i = i + 1;
        }
        let next_id = self.functions.len() as u64 + 1;
        let f = self.new_function(next_id, frame);
        self.functions.push(f);
        proof {
            let (v1, ni) = old(self)@.intern(frame.name@);
            lemma_intern(old(self)@, frame.name@);
            let (v2, pi) = v1.intern(frame.relative_path@);
            assert(v2.functions == old(self)@.functions);
            assert(self@.functions == v2.functions.push(f));
        }
        next_id
    }

    /// A location record for `frame` with the id `id`: one line, in the
    /// function of `frame`, which is added if it is new.
    fn new_location(&mut self, id: u64, frame: &StackFrame) -> (r: Location)
        requires
            old(self)@.wf(),
            old(self)@.strings.len() + 2 <= i64::MAX,
            old(self)@.functions.len() + 1 < u64::MAX,
        ensures
            ({
                let (v1, fid) = old(self)@.resolve_function(frame.name@, frame.relative_path@);
                &&& final(self)@ == v1
                &&& r@ == crate::model::LocationView {
                    id,
                    line: seq![Line { function_id: fid, line: frame.lineno as i64 }],
                }
            }),
    {
        let new_line = Line {
            function_id: self.get_or_create_function_id(frame),
            line: frame.lineno as i64,
        };
        let r = Location { id, line: vec![new_line] };
        proof {
            assert(r@.line =~= seq![new_line]);
        }
        r
    }

    /// The id of the location of `frame`, found by the frame's identity, or
    /// added with the table's length plus one as its id.
    fn get_or_create_location_id(&mut self, frame: &StackFrame) -> (r: u64)
        requires
            old(self)@.wf(),
            old(self)@.strings.len() + 2 <= i64::MAX,
            old(self)@.functions.len() + 1 < u64::MAX,
            old(self)@.locations.len() + 1 < u64::MAX,
        ensures
            (final(self)@, r) == old(self)@.resolve_location(frame@),
    {
        let mut i: usize = 0;
        while i < self.known_frames.len()
            invariant
                *self == *old(self),
                self@.wf(),
                self@.locations.len() + 1 < u64::MAX,
                i <= self@.frames.len(),
                forall|j: int| 0 <= j < i ==> self@.frames[j] != frame@,
            decreases self@.frames.len() - i,
        {
            if self.known_frames[i] == *frame {
                proof {
                    assert(self@.frames[i as int] == frame@);
                    assert(self@.frames.contains(frame@));
                    let k = self@.frames.index_of(frame@);
                    assert(k == i);
                }
                return (i + 1) as u64;
            }
            i = i + 1;
        }
        proof {
            if self@.frames.contains(frame@) {
                let k = self@.frames.index_of(frame@);
                assert(false);
            }
        }
        let next_id = self.known_frames.len() as u64 + 1;
        let newloc = self.new_location(next_id, frame);
        self.known_frames.push(frame.duplicate());
        self.locations.push(newloc);
        proof {
            let (v1, fid) = old(self)@.resolve_function(frame.name@, frame.relative_path@);
            lemma_resolve_function(old(self)@, frame.name@, frame.relative_path@);
            assert(self@.frames =~= v1.frames.push(frame@));
            assert(self@.locations =~= v1.locations.push(newloc@));
        }
        next_id
    }

    /// The location ids of the frames of `stack`, innermost first.
    fn location_ids(&mut self, stack: &StackTrace) -> (r: Vec<u64>)
        requires
            old(self)@.wf(),
            old(self)@.has_room(stack.trace@.len() as nat),
        ensures
            (final(self)@, r@) == old(self)@.resolve_locations(stack@.frames),
            final(self)@.wf(),
    {
        let mut ids = <Vec<u64>>::new();
        let ghost frames = stack@.frames;
        let mut i: usize = 0;
        proof {
            assert(frames.take(0) =~= Seq::empty());
        }
        while i < stack.trace.len()
            invariant
                i <= stack.trace@.len(),
                frames == stack@.frames,
                old(self)@.wf(),
                old(self)@.has_room(stack.trace@.len() as nat),
                self@.wf(),
                (self@, ids@) == old(self)@.resolve_locations(frames.take(i as int)),
                self@.strings.len() <= old(self)@.strings.len() + 2 * i,
                self@.functions.len() <= old(self)@.functions.len() + i,
                self@.locations.len() <= old(self)@.locations.len() + i,
            decreases stack.trace@.len() - i,
        {
            proof {
                lemma_resolve_location(self@, frames[i as int]);
                assert(frames.take(i + 1).drop_last() =~= frames.take(i as int));
            }
            let id = self.get_or_create_location_id(&stack.trace[i]);
            ids.push(id);
            i = i + 1;
        }
        proof {
            assert(frames.take(i as int) =~= frames);
        }
        ids
    }

    /// The labels of `stack`: its pid, then its thread id, each where present,
    /// keyed by interned names.
    fn labels(&mut self, stack: &StackTrace) -> (r: Vec<Label>)
        requires
            old(self)@.wf(),
            old(self)@.strings.len() + 2 <= i64::MAX,
        ensures
            (final(self)@, r@) == old(self)@.labels(stack.pid, stack.thread_id),
    {
        let mut labels: Vec<Label> = Vec::new();
        if let Some(pid) = stack.pid {
            proof {
                lemma_intern(self@, "pid"@);
            }
            let key = self.string_id(&"pid".to_owned());
            labels.push(Label { key, num: pid as i64 });
            proof {
                assert(labels@ =~= seq![Label { key, num: pid as i64 }]);
            }
        }
        if let Some(thread_id) = stack.thread_id {
            let key = self.string_id(&"thread_id".to_owned());
            labels.push(Label { key, num: thread_id as i64 });
        }
        labels
    }

    /// Appends the sample of `stack` with the value `sample_time`.
    fn add_sample(&mut self, stack: &StackTrace, sample_time: i64)
        requires
            old(self)@.wf(),
            old(self)@.has_room(stack.trace@.len() as nat),
        ensures
            ({
                let (v1, ids) = old(self)@.resolve_locations(stack@.frames);
                let (v2, labels) = v1.labels(stack.pid, stack.thread_id);
                let s = SampleView { location_id: ids, value: seq![sample_time], label: labels };
                final(self)@ == StatsView { samples: v2.samples.push(s), ..v2 }
            }),
    {
        proof {
            lemma_resolve_locations(self@, stack@.frames);
        }
        let location_id = self.location_ids(stack);
        let label = self.labels(stack);
        let s = Sample { location_id, value: vec![sample_time], label };
        let ghost v2 = self@;
        self.samples.push(s);
        proof {
            assert(s@.value =~= seq![sample_time]);
            assert(self@.samples =~= v2.samples.push(s@));
        }
    }

    /// Records `stack` as sampled at `time` (nanoseconds since the Unix
    /// epoch): one sample whose value is the whole milliseconds since the
    /// sample before (0 for the first), or a `TimingError`, with nothing
    /// changed, when `time` is earlier than that sample's.
    pub fn record_at(&mut self, stack: &StackTrace, time: u64) -> (r: Result<(), TimingError>)
        requires
            old(self)@.wf(),
            old(self)@.has_room(stack.trace@.len() as nat),
        ensures
            recorded(old(self)@, stack@, time, final(self)@, r),
            final(self)@.wf(),
    {
        let mut ms_since_last_sample: i64 = 0;
        if let Some(prev_time) = self.prev_time {
            if time < prev_time {
                return Err(TimingError { previous: prev_time, time });
            }
            ms_since_last_sample = ((time - prev_time) / 1_000_000) as i64;
        }
        self.add_sample(stack, ms_since_last_sample);
        self.prev_time = Some(time);
        proof {
            lemma_record(old(self)@, stack@, time);
        }
        Ok(())
    }

    /// Records `stack` as sampled at its own time, or now where it has none
    /// (a clock that cannot be read as nanoseconds since the epoch counts as
    /// the epoch): as `record_at` does at that time.
    pub fn record(&mut self, stack: &StackTrace) -> (r: Result<(), TimingError>)
        requires
            old(self)@.wf(),
            old(self)@.has_room(stack.trace@.len() as nat),
        ensures
            exists|t: u64|
                (stack.time == Some(t) || stack.time is None) && #[trigger] recorded(
                    old(self)@,
                    stack@,
                    t,
                    final(self)@,
                    r,
                ),
            final(self)@.wf(),
    {
        let time = match stack.time {
            Some(t) => t,
            None => match clock_now() {
                Some(t) => t,
                None => 0,
            },
        };
        self.record_at(stack, time)
    }

    /// The profile in the pprof wire format.
    pub fn serialize(&self) -> (r: Vec<u8>)
        ensures
            r@ == profile_bytes(self@),
    {
        let mut out: Vec<u8> = Vec::new();
        let sample_type = encode_value_type(1, 2);
        put_bytes_field(&mut out, 1, sample_type.as_slice());
        let ghost start = out@;
        let mut i: usize = 0;
        while i < self.samples.len()
            invariant
                i <= self@.samples.len(),
                out@ == start + samples_bytes(self@.samples.take(i as int)),
            decreases self@.samples.len() - i,
        {
            let b = encode_sample(&self.samples[i]);
            put_bytes_field(&mut out, 2, b.as_slice());
            proof {
                assert(self@.samples.take(i + 1).drop_last() =~= self@.samples.take(i as int));
                assert(out@ =~= start + samples_bytes(self@.samples.take(i + 1)));
            }
            i = i + 1;
        }
        proof {
            assert(self@.samples.take(i as int) =~= self@.samples);
        }
        let ghost start = out@;
        let mut i: usize = 0;
        while i < self.locations.len()
            invariant
                i <= self@.locations.len(),
                out@ == start + locations_bytes(self@.locations.take(i as int)),
            decreases self@.locations.len() - i,
        {
            let b = encode_location(&self.locations[i]);
            put_bytes_field(&mut out, 4, b.as_slice());
            proof {
                assert(self@.locations.take(i + 1).drop_last() =~= self@.locations.take(i as int));
                assert(out@ =~= start + locations_bytes(self@.locations.take(i + 1)));
            }
            i = i + 1;
        }
        proof {
            assert(self@.locations.take(i as int) =~= self@.locations);
        }
        let ghost start = out@;
        let mut i: usize = 0;
        while i < self.functions.len()
            invariant
                i <= self@.functions.len(),
                out@ == start + functions_bytes(self@.functions.take(i as int)),
            decreases self@.functions.len() - i,
        {
            let b = encode_function(&self.functions[i]);
            put_bytes_field(&mut out, 5, b.as_slice());
            proof {
                assert(self@.functions.take(i + 1).drop_last() =~= self@.functions.take(i as int));
                assert(out@ =~= start + functions_bytes(self@.functions.take(i + 1)));
            }
            i = i + 1;
        }
        proof {
            assert(self@.functions.take(i as int) =~= self@.functions);
        }
        let ghost start = out@;
        let mut i: usize = 0;
        while i < self.strings.len()
            invariant
                i <= self@.strings.len(),
                out@ == start + strings_bytes(self@.strings.take(i as int)),
            decreases self@.strings.len() - i,
        {
            put_bytes_field(&mut out, 6, self.strings[i].as_str().as_bytes());
            proof {
                assert(self@.strings.take(i + 1).drop_last() =~= self@.strings.take(i as int));
                assert(out@ =~= start + strings_bytes(self@.strings.take(i + 1)));
            }
            i = i + 1;
        }
        proof {
            assert(self@.strings.take(i as int) =~= self@.strings);
            assert(out@ =~= profile_bytes(self@));
        }
        out
    }

    /// Whether the tables have room for the frames of `stack`, as `record`
    /// asks.
    pub fn has_room_for(&self, stack: &StackTrace) -> (r: bool)
        ensures
            r == self@.has_room(stack.trace@.len() as nat),
    {
        let n = stack.trace.len() as u64;
        let strings = self.strings.len() as u64;
        let functions = self.functions.len() as u64;
        let locations = self.locations.len() as u64;
        let max_index: u64 = 0x7fff_ffff_ffff_ffff;
        n < max_index / 2 && strings <= max_index - 2 * n - 2 && functions < u64::MAX - n
            && locations < u64::MAX - n
    }

    /// The string table.
    pub fn string_table(&self) -> (r: &Vec<String>)
        ensures
            r@.len() == self@.strings.len(),
            forall|i: int| 0 <= i < r@.len() ==> #[trigger] r@[i]@ == self@.strings[i],
    {
        &self.strings
    }

    /// The function table; function `i` has the id `i + 1`.
    pub fn functions(&self) -> (r: &Vec<Function>)
        ensures
            r@ == self@.functions,
    {
        &self.functions
    }

    /// The location table; location `i` has the id `i + 1`.
    pub fn locations(&self) -> (r: &Vec<Location>)
        ensures
            r@.len() == self@.locations.len(),
            forall|i: int| 0 <= i < r@.len() ==> #[trigger] r@[i]@ == self@.locations[i],
    {
        &self.locations
    }

    /// The samples, in the order recorded.
    pub fn samples(&self) -> (r: &Vec<Sample>)
        ensures
            r@.len() == self@.samples.len(),
            forall|i: int| 0 <= i < r@.len() ==> #[trigger] r@[i]@ == self@.samples[i],
    {
        &self.samples
    }
}

} // verus!
