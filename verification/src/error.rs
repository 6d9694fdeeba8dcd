//! The error taxonomy: parse errors abort compilation, evaluation errors
//! abort the current render, render errors stand for a sink that refused a
//! write. An error carries a chain of trace lines appended outward from the
//! failure point.

use vstd::prelude::*;

verus! {

/// Which stage refused.
#[derive(Debug, Clone, Copy, PartialEq, Eq)]
pub enum ErrorKind {
    Parse,
    Evaluation,
    Render,
}

/// An error with its trace context, innermost line first.
#[derive(Debug)]
pub struct Error {
    pub kind: ErrorKind,
    pub msg: String,
    pub trace: Vec<String>,
}

/// The views of a sequence of trace lines.
pub open spec fn trace_views(t: Seq<String>) -> Seq<Seq<char>> {
    Seq::new(t.len(), |i: int| t[i]@)
}

impl Error {
    /// A compile-time error: malformed syntax, an unknown name, a missing
    /// closing tag, or trailing arguments.
    pub fn parse(msg: String) -> (r: Error)
        ensures
            r.kind == ErrorKind::Parse,
            r.msg@ == msg@,
            r.trace@.len() == 0,
    {
        Error { kind: ErrorKind::Parse, msg, trace: Vec::new() }
    }

    /// A render-time error: a filter or tag refused its input or arguments.
    pub fn evaluation(msg: String) -> (r: Error)
        ensures
            r.kind == ErrorKind::Evaluation,
            r.msg@ == msg@,
            r.trace@.len() == 0,
    {
        Error { kind: ErrorKind::Evaluation, msg, trace: Vec::new() }
    }

    /// The same error with one more trace line appended outward.
    pub fn with_trace_line(self, line: String) -> (r: Error)
        ensures
            r.kind == self.kind,
            r.msg@ == self.msg@,
            trace_views(r.trace@) =~~= trace_views(self.trace@).push(line@),
    {
        let Error { kind, msg, mut trace } = self;
        trace.push(line);
        Error { kind, msg, trace }
    }
}

} // verus!
