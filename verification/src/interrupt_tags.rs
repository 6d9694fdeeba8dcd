//! The `break` and `continue` tags: each takes no arguments and renders to
//! nothing, raising the matching interrupt signal. Every sequence executor
//! then stops its remaining children; only the enclosing loop absorbs the
//! signal.

use vstd::prelude::*;
use crate::error::{Error, ErrorKind};
use crate::language::Language;
use crate::parser::{TagTokenIter, token_source};
use crate::runtime::InterruptKind;
use crate::template::Renderable;

verus! {

/// The `break` tag plugin.
#[derive(Debug, Clone, Copy, PartialEq, Eq)]
pub struct BreakTag;

impl BreakTag {
    /// The plugin itself; it carries no state.
    pub fn new() -> (r: BreakTag)
        ensures
            r == BreakTag,
    {
        BreakTag
    }

    /// The name this tag is registered under.
    pub fn tag(&self) -> (r: &'static str)
        ensures
            r@ == "break"@,
    {
        "break"
    }

    /// Parse the tag: no arguments are accepted.
    pub fn parse(&self, arguments: TagTokenIter, _options: &Language) -> (r: Result<Renderable,
        Error>)
        ensures
            (r is Ok) == (arguments.pos >= arguments.tokens@.len()),
            r is Ok ==> r->Ok_0 == Renderable::Interrupt(InterruptKind::Break),
            r is Err ==> r->Err_0.kind == ErrorKind::Parse && r->Err_0.msg@
                == "Unexpected token: "@ + token_source(arguments.tokens@[
            arguments.pos as int]@),
    {
        let mut arguments = arguments;
        match arguments.expect_nothing() {
            Result::Ok(()) => Ok(Renderable::Interrupt(InterruptKind::Break)),
            Result::Err(e) => Err(e),
        }
    }
}

/// The `continue` tag plugin.
#[derive(Debug, Clone, Copy, PartialEq, Eq)]
pub struct ContinueTag;

impl ContinueTag {
    /// The plugin itself; it carries no state.
    pub fn new() -> (r: ContinueTag)
        ensures
            r == ContinueTag,
    {
        ContinueTag
    }

    /// The name this tag is registered under.
    pub fn tag(&self) -> (r: &'static str)
        ensures
            r@ == "continue"@,
    {
        "continue"
    }

    /// Parse the tag: no arguments are accepted.
    pub fn parse(&self, arguments: TagTokenIter, _options: &Language) -> (r: Result<Renderable,
        Error>)
        ensures
            (r is Ok) == (arguments.pos >= arguments.tokens@.len()),
            r is Ok ==> r->Ok_0 == Renderable::Interrupt(InterruptKind::Continue),
            r is Err ==> r->Err_0.kind == ErrorKind::Parse && r->Err_0.msg@
                == "Unexpected token: "@ + token_source(arguments.tokens@[
            arguments.pos as int]@),
    {
        let mut arguments = arguments;
        match arguments.expect_nothing() {
            Result::Ok(()) => Ok(Renderable::Interrupt(InterruptKind::Continue)),
            Result::Err(e) => Err(e),
        }
    }
}

} // verus!
