//! The `for` block: `{% for name in source %} body {% endfor %}`, where the
//! source is a value expression (an array, or nil for an empty walk) or an
//! inclusive integer range `(lo..hi)`. Each iteration runs the body in a
//! fresh scope holding the loop variable; the loop owns the interrupt
//! signal — a break stops it, a continue moves to the next item, and either
//! is absorbed here.

use vstd::prelude::*;
use crate::error::{Error, ErrorKind};
use crate::language::Language;
use crate::parser::{SourceElement, TagTokenIter, Token, elems_v, parse_until, spec_parse_for_args, spec_parse_until_v, toks_v};
use crate::template::{ForLoop, ForSource, Renderable, Template};
use crate::value::{Val, val_of};

verus! {

use vstd::string::StringExecFns;

/// The `for` block plugin.
#[derive(Debug, Clone, Copy, PartialEq, Eq)]
pub struct ForBlock;

impl ForBlock {
    /// The plugin itself; it carries no state.
    pub fn new() -> (r: ForBlock)
        ensures
            r == ForBlock,
    {
        ForBlock
    }

    /// The name that opens this block.
    pub fn start_tag(&self) -> (r: &'static str)
        ensures
            r@ == "for"@,
    {
        "for"
    }

    /// The name that closes this block.
    pub fn end_tag(&self) -> (r: &'static str)
        ensures
            r@ == "endfor"@,
    {
        "endfor"
    }

    /// A short description; this block has none.
    pub fn description(&self) -> (r: &'static str)
        ensures
            r@ == ""@,
    {
        ""
    }

    /// Parse the block: a loop variable, the word `in`, a value expression
    /// or `(lo..hi)` range, nothing further; the body runs to the matching
    /// closing tag.
    pub fn parse(&self, arguments: TagTokenIter, elements: &Vec<SourceElement>, pos: usize,
        options: &Language) -> (r: Result<(Renderable, usize), Error>)
        requires
            pos <= elements@.len(),
        ensures
            r is Ok ==> pos <= r->Ok_0.1 <= elements@.len() && r->Ok_0.0 is For,
            r is Err ==> r->Err_0.kind == ErrorKind::Parse,
            forall|k: int|
                ({
                    let toks = arguments.tokens@;
                    let p = arguments.pos as int;
                    &&& p + 7 == toks.len()
                    &&& toks[p]@ is Ident
                    &&& toks[p + 1]@ is Ident
                    &&& toks[p + 1]@->Ident_0 == "in"@
                    &&& toks[p + 2]@ is LParen
                    &&& toks[p + 3]@ is IntLit
                    &&& toks[p + 4]@ is DotDot
                    &&& toks[p + 5]@ is IntLit
                    &&& toks[p + 6]@ is RParen
                    &&& pos <= k < elements@.len()
                    &&& (forall|i: int| pos <= i < k ==> #[trigger] elements@[i] is Raw)
                    &&& (#[trigger] elements@[k]) is TagEl
                    &&& elements@[k]->TagEl_name@ == "endfor"@
                }) ==> r is Ok && r->Ok_0.1 == k + 1 && ({
                    let f = r->Ok_0.0->For_0;
                    let toks = arguments.tokens@;
                    let p = arguments.pos as int;
                    &&& f.var@ == toks[p]@->Ident_0
                    &&& f.source is Range
                    &&& f.source->Range_0 is Literal
                    &&& val_of(f.source->Range_0->Literal_0) == Val::Int(toks[p + 3]@->IntLit_0)
                    &&& f.source->Range_1 is Literal
                    &&& val_of(f.source->Range_1->Literal_0) == Val::Int(toks[p + 5]@->IntLit_0)
                    &&& f.body.elements@.len() == k - pos
                    &&& forall|i: int| 0 <= i < k - pos ==> (#[trigger] f.body.elements@[
                    i]) is Text && f.body.elements@[i]->Text_0@ == elements@[pos + i]->Raw_0@
                }),
            match spec_parse_for_args(toks_v(arguments.tokens@), arguments.pos as int) {
                Option::Some(h) => match spec_parse_until_v(elems_v(elements@), pos as int,
                Some("endfor"@), *options) {
                    Option::Some(pr) => r is Ok && r->Ok_0.1 == pr.1 && crate::template::node_v(
                    r->Ok_0.0) == (crate::template::NodeV::For {
                        var: h.0,
                        source: h.1,
                        body: pr.0,
                    }),
                    Option::None => r is Err,
                },
                Option::None => r is Err,
            },
        decreases elements@.len() - pos, 1nat,
    {
        let mut arguments = arguments;
        let var = match arguments.expect_identifier("Identifier expected.") {
            Result::Ok(v) => v,
            Result::Err(e) => {
                return Err(e);
            },
        };
        match arguments.expect_exact_identifier("in", "\"in\" expected.") {
            Result::Ok(()) => {},
            Result::Err(e) => {
                return Err(e);
            },
        }
        let source = if arguments.peek_is_lparen() {
            arguments.take_next();
            let lo = match arguments.parse_expression("a range needs a lower bound") {
                Result::Ok(e) => e,
                Result::Err(e) => {
                    return Err(e);
                },
            };
            match arguments.expect_next("\"..\" expected.") {
                Result::Ok(Token::DotDot) => {},
                Result::Ok(_) => {
                    return Err(Error::parse(String::from_str("\"..\" expected.")));
                },
                Result::Err(e) => {
                    return Err(e);
                },
            }
            let hi = match arguments.parse_expression("a range needs an upper bound") {
                Result::Ok(e) => e,
                Result::Err(e) => {
                    return Err(e);
                },
            };
            match arguments.expect_next("\")\" expected.") {
                Result::Ok(Token::RParen) => {},
                Result::Ok(_) => {
                    return Err(Error::parse(String::from_str("\")\" expected.")));
                },
                Result::Err(e) => {
                    return Err(e);
                },
            }
            ForSource::Range(lo, hi)
        } else {
            match arguments.parse_expression("a source to iterate was expected") {
                Result::Ok(e) => ForSource::Val(e),
                Result::Err(e) => {
                    return Err(e);
                },
            }
        };
        match arguments.expect_nothing() {
            Result::Ok(()) => {},
            Result::Err(e) => {
                return Err(e);
            },
        }
        let end = String::from_str("endfor");
        match parse_until(elements, pos, Some(&end), options) {
            Result::Ok((nodes, newpos)) => Ok((Renderable::For(ForLoop {
                var,
                source,
                body: Template::new(nodes),
            }), newpos)),
            Result::Err(e) => Err(e),
        }
    }
}

} // verus!
