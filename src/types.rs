//! The sampler's input: stack frames and stack traces.
use vstd::prelude::*;

verus! {

/// One frame of a sampled call stack.
#[derive(Debug)]
pub struct StackFrame {
    pub name: String,
    pub relative_path: String,
    /// Informational only: frames that differ here alone are the same frame.
    pub absolute_path: Option<String>,
    pub lineno: u32,
}

/// What identifies a frame: its function name, its relative path and its line.
pub struct FrameView {
    pub name: Seq<char>,
    pub relative_path: Seq<char>,
    pub lineno: u32,
}

impl View for StackFrame {
    type V = FrameView;

    open spec fn view(&self) -> FrameView {
        FrameView { name: self.name@, relative_path: self.relative_path@, lineno: self.lineno }
    }
}

impl PartialEq for StackFrame {
    fn eq(&self, o: &StackFrame) -> (r: bool) {
        self.lineno == o.lineno && self.name == o.name && self.relative_path == o.relative_path
    }
}

impl vstd::std_specs::cmp::PartialEqSpecImpl for StackFrame {
    open spec fn obeys_eq_spec() -> bool {
        true
    }

    open spec fn eq_spec(&self, o: &StackFrame) -> bool {
        self@ == o@
    }
}

impl StackFrame {
    /// A copy of the frame, the absolute path included.
    pub fn duplicate(&self) -> (r: StackFrame)
        ensures
            r@ == self@,
            r.absolute_path == self.absolute_path,
    {
        let absolute_path = match &self.absolute_path {
            Some(p) => Some(p.clone()),
            None => None,
        };
        StackFrame {
            name: self.name.clone(),
            relative_path: self.relative_path.clone(),
            absolute_path,
            lineno: self.lineno,
        }
    }
}

/// One sampled call stack, innermost frame first.
#[derive(Debug)]
pub struct StackTrace {
    pub trace: Vec<StackFrame>,
    pub pid: Option<i32>,
    pub thread_id: Option<u64>,
    /// When the stack was sampled, in nanoseconds since the Unix epoch.
    pub time: Option<u64>,
}

pub struct TraceView {
    pub frames: Seq<FrameView>,
    pub pid: Option<i32>,
    pub thread_id: Option<u64>,
    pub time: Option<u64>,
}

impl View for StackTrace {
    type V = TraceView;

    open spec fn view(&self) -> TraceView {
        TraceView {
            frames: self.trace@.map_values(|f: StackFrame| f@),
            pid: self.pid,
            thread_id: self.thread_id,
            time: self.time,
        }
    }
}

} // verus!
