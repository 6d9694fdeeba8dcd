//! The `assign` tag: `{% assign name = filter-chain %}`. Parsing expects an
//! identifier, the literal `=`, a filter-chain expression, and nothing
//! further; any deviation is a parse error naming the missing token kind.
//! Rendering evaluates the chain to an owned value and writes it into the
//! outermost scope, producing no text itself.

use vstd::prelude::*;
use crate::error::{Error, ErrorKind};
use crate::language::Language;
use crate::parser::{TagTokenIter, spec_parse_assign, toks_v, token_source};
use crate::template::{Assign, Renderable};
use crate::value::{Val, val_of};

verus! {

/// The `assign` tag plugin.
#[derive(Debug, Clone, Copy, PartialEq, Eq)]
pub struct AssignTag;

impl AssignTag {
    /// The plugin itself; it carries no state.
    pub fn new() -> (r: AssignTag)
        ensures
            r == AssignTag,
    {
        AssignTag
    }

    /// The name this tag is registered under.
    pub fn tag(&self) -> (r: &'static str)
        ensures
            r@ == "assign"@,
    {
        "assign"
    }

    /// A short description; this tag has none.
    pub fn description(&self) -> (r: &'static str)
        ensures
            r@ == ""@,
    {
        ""
    }

    /// Parse the tag's arguments: an identifier, `=`, a filter chain, then
    /// nothing further. A missing piece is a parse error naming the missing
    /// token kind.
    pub fn parse(&self, arguments: TagTokenIter, options: &Language) -> (r: Result<Renderable,
        Error>)
        ensures
            r is Ok ==> {
                &&& r->Ok_0 is Assign
                &&& arguments.pos < arguments.tokens@.len()
                &&& arguments.tokens@[arguments.pos as int]@ is Ident
                &&& r->Ok_0->Assign_0.dst@ == arguments.tokens@[arguments.pos as int]@->Ident_0
                &&& arguments.tokens@[arguments.pos + 1]@ is AssignOp
            },
            r is Err ==> r->Err_0.kind == ErrorKind::Parse,
            arguments.pos >= arguments.tokens@.len() || !(arguments.tokens@[
            arguments.pos as int]@ is Ident) ==> r is Err && r->Err_0.msg@
                == "Identifier expected."@,
            arguments.pos < arguments.tokens@.len() && arguments.tokens@[
            arguments.pos as int]@ is Ident && (arguments.pos + 1 >= arguments.tokens@.len()
                || !(arguments.tokens@[arguments.pos + 1]@ is AssignOp)) ==> r is Err
                && r->Err_0.msg@ == "Assignment operator \"=\" expected."@,
            arguments.pos + 3 == arguments.tokens@.len() && arguments.tokens@[
            arguments.pos as int]@ is Ident && arguments.tokens@[
            arguments.pos + 1]@ is AssignOp && arguments.tokens@[arguments.pos + 2]@ is IntLit
                ==> r is Ok && r->Ok_0->Assign_0.src.entry is Literal && val_of(
            r->Ok_0->Assign_0.src.entry->Literal_0) == Val::Int(arguments.tokens@[
            arguments.pos + 2]@->IntLit_0) && r->Ok_0->Assign_0.src.filters@.len() == 0,
            arguments.pos + 3 < arguments.tokens@.len() && arguments.tokens@[
            arguments.pos as int]@ is Ident && arguments.tokens@[
            arguments.pos + 1]@ is AssignOp && arguments.tokens@[arguments.pos + 2]@ is IntLit
                && !(arguments.tokens@[arguments.pos + 3]@ is Pipe) ==> r is Err
                && r->Err_0.msg@ == "Unexpected token: "@ + token_source(arguments.tokens@[
            arguments.pos + 3]@),
            match spec_parse_assign(toks_v(arguments.tokens@), arguments.pos as int,
            options.filters.entries@) {
                Option::Some(pr) => r is Ok && r->Ok_0 is Assign
                    && r->Ok_0->Assign_0.dst@ == pr.0 && r->Ok_0->Assign_0.src@ == pr.1,
                Option::None => r is Err,
            },
    {
        let mut arguments = arguments;
        let dst = match arguments.expect_identifier("Identifier expected.") {
            Result::Ok(d) => d,
            Result::Err(e) => {
                return Err(e);
            },
        };
        match arguments.expect_assign_op("Assignment operator \"=\" expected.") {
            Result::Ok(()) => {},
            Result::Err(e) => {
                return Err(e);
            },
        }
        let src = match arguments.expect_filter_chain(options, "FilterChain expected.") {
            Result::Ok(c) => c,
            Result::Err(e) => {
                return Err(e);
            },
        };
        match arguments.expect_nothing() {
            Result::Ok(()) => {},
            Result::Err(e) => {
                return Err(e);
            },
        }
        Ok(Renderable::Assign(Assign { dst, src }))
    }
}

} // verus!
