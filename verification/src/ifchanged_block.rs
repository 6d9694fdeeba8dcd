//! The `ifchanged` block: renders its body into a buffer, compares the
//! text against what this occurrence's register remembers, and emits the
//! buffer only when it is absent or different — updating the register
//! either way. The remembered text persists across sibling iterations of an
//! enclosing loop within one render pass, and resets only because a new
//! render pass starts with an empty register store.

use vstd::prelude::*;
use crate::error::{Error, ErrorKind};
use crate::language::Language;
use crate::parser::{SourceElement, TagTokenIter, elems_v, parse_until, spec_parse_until_v, token_source};
use crate::template::{IfChanged, Renderable, Template};

verus! {

use vstd::string::StringExecFns;

/// The `ifchanged` block plugin.
#[derive(Debug, Clone, Copy, PartialEq, Eq)]
pub struct IfChangedBlock;

impl IfChangedBlock {
    /// The plugin itself; it carries no state.
    pub fn new() -> (r: IfChangedBlock)
        ensures
            r == IfChangedBlock,
    {
        IfChangedBlock
    }

    /// The name that opens this block.
    pub fn start_tag(&self) -> (r: &'static str)
        ensures
            r@ == "ifchanged"@,
    {
        "ifchanged"
    }

    /// The name that closes this block.
    pub fn end_tag(&self) -> (r: &'static str)
        ensures
            r@ == "endifchanged"@,
    {
        "endifchanged"
    }

    /// A short description; this block has none.
    pub fn description(&self) -> (r: &'static str)
        ensures
            r@ == ""@,
    {
        ""
    }

    /// Parse the block: no arguments are accepted, the body runs to the
    /// matching closing tag. The occurrence's position keys its register
    /// slot, so sibling occurrences never share state.
    pub fn parse(&self, arguments: TagTokenIter, elements: &Vec<SourceElement>, pos: usize,
        options: &Language) -> (r: Result<(Renderable, usize), Error>)
        requires
            pos <= elements@.len(),
        ensures
            r is Ok ==> pos <= r->Ok_0.1 <= elements@.len() && r->Ok_0.0 is IfChanged
                && r->Ok_0.0->IfChanged_0.id == pos as u64,
            r is Err ==> r->Err_0.kind == ErrorKind::Parse,
            arguments.pos < arguments.tokens@.len() ==> r is Err && r->Err_0.msg@
                == "Unexpected token: "@ + token_source(arguments.tokens@[
            arguments.pos as int]@),
            forall|k: int|
                (arguments.pos >= arguments.tokens@.len() && pos <= k < elements@.len() && (
                forall|i: int| pos <= i < k ==> #[trigger] elements@[i] is Raw) && (
                #[trigger] elements@[k]) is TagEl && elements@[k]->TagEl_name@
                    == "endifchanged"@) ==> r is Ok && r->Ok_0.1 == k + 1 && ({
                    let body = r->Ok_0.0->IfChanged_0.body.elements@;
                    &&& body.len() == k - pos
                    &&& forall|i: int| 0 <= i < body.len() ==> (#[trigger] body[i]) is Text
                        && body[i]->Text_0@ == elements@[pos + i]->Raw_0@
                }),
            arguments.pos >= arguments.tokens@.len() ==> match spec_parse_until_v(elems_v(
            elements@), pos as int, Some("endifchanged"@), *options) {
                Option::Some(pr) => r is Ok && r->Ok_0.1 == pr.1
                    && crate::template::node_v(r->Ok_0.0) == (crate::template::NodeV::IfChanged {
                    id: pos as int,
                    body: pr.0,
                }),
                Option::None => r is Err,
            },
        decreases elements@.len() - pos, 1nat,
    {
        let mut arguments = arguments;
        match arguments.expect_nothing() {
            Result::Ok(()) => {},
            Result::Err(e) => {
                return Err(e);
            },
        }
        let end = String::from_str("endifchanged");
        match parse_until(elements, pos, Some(&end), options) {
            Result::Ok((nodes, newpos)) => Ok((Renderable::IfChanged(IfChanged {
                id: pos as u64,
                body: Template::new(nodes),
            }), newpos)),
            Result::Err(e) => Err(e),
        }
    }
}

} // verus!
