//! The `if` block: `{% if left %}` or `{% if left <op> right %}`, with a
//! body to the matching closing tag. Without a comparison the condition is
//! the left value's truthiness (nil and false are the only falsy values);
//! with one, equality compares any two values and the ordering operators
//! compare integers only.

use vstd::prelude::*;
use crate::error::{Error, ErrorKind};
use crate::language::Language;
use crate::parser::{SourceElement, TagTokenIter, elems_v, parse_until, spec_parse_if_args, spec_parse_until_v, toks_v};
use crate::template::{Conditional, Renderable, Template};

verus! {

use vstd::string::StringExecFns;

/// The `if` block plugin.
#[derive(Debug, Clone, Copy, PartialEq, Eq)]
pub struct IfBlock;

impl IfBlock {
    /// The plugin itself; it carries no state.
    pub fn new() -> (r: IfBlock)
        ensures
            r == IfBlock,
    {
        IfBlock
    }

    /// The name that opens this block.
    pub fn start_tag(&self) -> (r: &'static str)
        ensures
            r@ == "if"@,
    {
        "if"
    }

    /// The name that closes this block.
    pub fn end_tag(&self) -> (r: &'static str)
        ensures
            r@ == "endif"@,
    {
        "endif"
    }

    /// A short description; this block has none.
    pub fn description(&self) -> (r: &'static str)
        ensures
            r@ == ""@,
    {
        ""
    }

    /// Parse the block: a left expression, an optional comparison against a
    /// right expression, nothing further; the body runs to the matching
    /// closing tag.
    pub fn parse(&self, arguments: TagTokenIter, elements: &Vec<SourceElement>, pos: usize,
        options: &Language) -> (r: Result<(Renderable, usize), Error>)
        requires
            pos <= elements@.len(),
        ensures
            r is Ok ==> pos <= r->Ok_0.1 <= elements@.len() && r->Ok_0.0 is If,
            r is Err ==> r->Err_0.kind == ErrorKind::Parse,
            forall|k: int|
                ({
                    let toks = arguments.tokens@;
                    let p = arguments.pos as int;
                    &&& p + 1 == toks.len()
                    &&& toks[p]@ is Ident
                    &&& toks[p]@->Ident_0 != "true"@
                    &&& toks[p]@->Ident_0 != "false"@
                    &&& toks[p]@->Ident_0 != "nil"@
                    &&& pos <= k < elements@.len()
                    &&& (forall|i: int| pos <= i < k ==> #[trigger] elements@[i] is Raw)
                    &&& (#[trigger] elements@[k]) is TagEl
                    &&& elements@[k]->TagEl_name@ == "endif"@
                }) ==> r is Ok && r->Ok_0.1 == k + 1 && ({
                    let c = r->Ok_0.0->If_0;
                    &&& c.left is Path
                    &&& c.left->Path_0@ == arguments.tokens@[arguments.pos as int]@->Ident_0
                    &&& c.left->Path_1@.len() == 0
                    &&& c.comp is None
                    &&& c.body.elements@.len() == k - pos
                    &&& forall|i: int| 0 <= i < k - pos ==> (#[trigger] c.body.elements@[
                    i]) is Text && c.body.elements@[i]->Text_0@ == elements@[pos + i]->Raw_0@
                }),
            match spec_parse_if_args(toks_v(arguments.tokens@), arguments.pos as int) {
                Option::Some(h) => match spec_parse_until_v(elems_v(elements@), pos as int,
                Some("endif"@), *options) {
                    Option::Some(pr) => r is Ok && r->Ok_0.1 == pr.1 && crate::template::node_v(
                    r->Ok_0.0) == (crate::template::NodeV::If {
                        left: h.0,
                        comp: h.1,
                        body: pr.0,
                    }),
                    Option::None => r is Err,
                },
                Option::None => r is Err,
            },
        decreases elements@.len() - pos, 1nat,
    {
        let mut arguments = arguments;
        let left = match arguments.parse_expression("a condition was expected") {
            Result::Ok(e) => e,
            Result::Err(e) => {
                return Err(e);
            },
        };
        let comp = match arguments.peek_comparison() {
            Option::Some(op) => {
                arguments.take_next();
                let rhs = match arguments.parse_expression(
                "a value must follow a comparison operator") {
                    Result::Ok(e) => e,
                    Result::Err(e) => {
                        return Err(e);
                    },
                };
                Some((op, rhs))
            },
            Option::None => None,
        };
        match arguments.expect_nothing() {
            Result::Ok(()) => {},
            Result::Err(e) => {
                return Err(e);
            },
        }
        let end = String::from_str("endif");
        match parse_until(elements, pos, Some(&end), options) {
            Result::Ok((nodes, newpos)) => Ok((Renderable::If(Conditional {
                left,
                comp,
                body: Template::new(nodes),
            }), newpos)),
            Result::Err(e) => Err(e),
        }
    }
}

} // verus!
