//! The compiler front end: a lexer that splits template text into raw text,
//! output tags `{{ ... }}` and tags `{% ... %}` and tokenizes their
//! contents; the argument-token combinators plugins parse with; and the
//! recursive-descent driver that consults the language registry to turn the
//! element stream into a tree of renderables.
//!
//! A name registered neither as a tag nor as a block never yields a
//! renderable: it always yields a parse error. A plugin's argument parse
//! that leaves tokens unconsumed when `expect_nothing` is called yields a
//! parse error citing the first unexpected token.

use vstd::prelude::*;
use crate::assign_tag::AssignTag;
use crate::error::{Error, ErrorKind};
use crate::ifchanged_block::IfChangedBlock;
use crate::interrupt_tags::{BreakTag, ContinueTag};
use crate::runtime::InterruptKind;
use crate::expression::{Expression, ExprV, PathSeg, SegV, expr_views, seg_views};
use crate::filter_chain::{ChainV, FilterCall, FilterCallV, FilterChain, fc_views};
use crate::filters::FilterPlugin;
use crate::language::{BlockPlugin, Language, TagPlugin, find_plugin};
use crate::strutil::{dec_str_int, push_char, push_dec_i64, str_to_chars};
use crate::template::{CompOp, ForSourceV, NodeV, Renderable, node_v, nodes_v};
use crate::value::{Val, Value, val_of};

verus! {

use vstd::string::StringExecFns;

/// One lexical token of a tag's or output's contents.
#[derive(Debug)]
pub enum Token {
    Ident(String),
    StrLit(String),
    IntLit(i64),
    Pipe,
    Colon,
    Comma,
    Dot,
    DotDot,
    LBracket,
    RBracket,
    LParen,
    RParen,
    AssignOp,
    Comparison(CompOp),
}

/// The mathematical shape of one token.
pub enum TokenV {
    Ident(Seq<char>),
    StrLit(Seq<char>),
    IntLit(int),
    Pipe,
    Colon,
    Comma,
    Dot,
    DotDot,
    LBracket,
    RBracket,
    LParen,
    RParen,
    AssignOp,
    Comparison(CompOp),
}

impl View for Token {
    type V = TokenV;

    open spec fn view(&self) -> TokenV {
        match *self {
            Token::Ident(ref s) => TokenV::Ident(s@),
            Token::StrLit(ref s) => TokenV::StrLit(s@),
            Token::IntLit(i) => TokenV::IntLit(i as int),
            Token::Pipe => TokenV::Pipe,
            Token::Colon => TokenV::Colon,
            Token::Comma => TokenV::Comma,
            Token::Dot => TokenV::Dot,
            Token::DotDot => TokenV::DotDot,
            Token::LBracket => TokenV::LBracket,
            Token::RBracket => TokenV::RBracket,
            Token::LParen => TokenV::LParen,
            Token::RParen => TokenV::RParen,
            Token::AssignOp => TokenV::AssignOp,
            Token::Comparison(op) => TokenV::Comparison(op),
        }
    }
}

/// The source text of one token.
pub open spec fn token_source(t: TokenV) -> Seq<char> {
    match t {
        TokenV::Ident(s) => s,
        TokenV::StrLit(s) => seq!['"'] + s + seq!['"'],
        TokenV::IntLit(i) => dec_str_int(i),
        TokenV::Pipe => "|"@,
        TokenV::Colon => ":"@,
        TokenV::Comma => ","@,
        TokenV::Dot => "."@,
        TokenV::DotDot => ".."@,
        TokenV::LBracket => "["@,
        TokenV::RBracket => "]"@,
        TokenV::LParen => "("@,
        TokenV::RParen => ")"@,
        TokenV::AssignOp => "="@,
        TokenV::Comparison(op) => match op {
            CompOp::Equals => "=="@,
            CompOp::NotEquals => "!="@,
            CompOp::Less => "<"@,
            CompOp::LessEq => "<="@,
            CompOp::Greater => ">"@,
            CompOp::GreaterEq => ">="@,
        },
    }
}

/// Append the source text of one token to `out`.
fn push_token_source(t: &Token, out: &mut String)
    ensures
        final(out)@ == old(out)@ + token_source(t@),
{
    match t {
        Token::Ident(s) => out.append(s.as_str()),
        Token::StrLit(s) => {
            push_char(out, '"');
            out.append(s.as_str());
            push_char(out, '"');
            assert(out@ =~= old(out)@ + token_source(t@));
        },
        Token::IntLit(i) => push_dec_i64(*i, out),
        Token::Pipe => out.append("|"),
        Token::Colon => out.append(":"),
        Token::Comma => out.append(","),
        Token::Dot => out.append("."),
        Token::DotDot => out.append(".."),
        Token::LBracket => out.append("["),
        Token::RBracket => out.append("]"),
        Token::LParen => out.append("("),
        Token::RParen => out.append(")"),
        Token::AssignOp => out.append("="),
        Token::Comparison(op) => match op {
            CompOp::Equals => out.append("=="),
            CompOp::NotEquals => out.append("!="),
            CompOp::Less => out.append("<"),
            CompOp::LessEq => out.append("<="),
            CompOp::Greater => out.append(">"),
            CompOp::GreaterEq => out.append(">="),
        },
    }
}

/// One element of the split source: raw text, an output tag's tokens, or a
/// tag with its name and argument tokens.
#[derive(Debug)]
pub enum SourceElement {
    Raw(String),
    Output(Vec<Token>),
    TagEl { name: String, args: Vec<Token> },
}

/// The views of a run of tokens.
pub open spec fn toks_v(s: Seq<Token>) -> Seq<TokenV> {
    Seq::new(s.len(), |i: int| s[i]@)
}

/// The path segments a well-formed segment run denotes, from `p` on: each
/// `.key` or `[offset]`/`["key"]` step in order, together with the position
/// after the run; nothing where a segment is begun but malformed.
pub open spec fn spec_parse_segs(toks: Seq<TokenV>, p: int) -> Option<(Seq<SegV>, int)>
    decreases toks.len() - p,
{
    if p < 0 || p >= toks.len() || !(toks[p] is Dot || toks[p] is LBracket) {
        Some((Seq::empty(), p))
    } else if toks[p] is Dot {
        if p + 1 < toks.len() && toks[p + 1] is Ident {
            match spec_parse_segs(toks, p + 2) {
                Option::Some((rest, e)) => Some((seq![SegV::Key(
                toks[p + 1]->Ident_0)] + rest, e)),
                Option::None => None,
            }
        } else {
            None
        }
    } else {
        if p + 1 < toks.len() && (toks[p + 1] is IntLit || toks[p + 1] is StrLit) && p + 2
            < toks.len() && toks[p + 2] is RBracket {
            let seg = if toks[p + 1] is IntLit {
                SegV::Index(toks[p + 1]->IntLit_0)
            } else {
                SegV::Key(toks[p + 1]->StrLit_0)
            };
            match spec_parse_segs(toks, p + 3) {
                Option::Some((rest, e)) => Some((seq![seg] + rest, e)),
                Option::None => None,
            }
        } else {
            None
        }
    }
}

/// The expression a well-formed token run denotes, from `p` on — an
/// integer, string, `true`/`false`/`nil` literal, or a path with its
/// segments — together with the position after it; nothing where no
/// well-formed expression starts at `p`.
pub open spec fn spec_parse_expression(toks: Seq<TokenV>, p: int) -> Option<(ExprV, int)> {
    if p < 0 || p >= toks.len() {
        None
    } else {
        match toks[p] {
            TokenV::IntLit(i) => Some((ExprV::Lit(Val::Int(i)), p + 1)),
            TokenV::StrLit(s) => Some((ExprV::Lit(Val::Str(s)), p + 1)),
            TokenV::Ident(w) => if w == "true"@ {
                Some((ExprV::Lit(Val::Bool(true)), p + 1))
            } else if w == "false"@ {
                Some((ExprV::Lit(Val::Bool(false)), p + 1))
            } else if w == "nil"@ {
                Some((ExprV::Lit(Val::Nil), p + 1))
            } else {
                match spec_parse_segs(toks, p + 1) {
                    Option::Some((segs, e)) => Some((ExprV::Path(w, segs), e)),
                    Option::None => None,
                }
            },
            _ => None,
        }
    }
}

/// The mathematical shape of one source element.
pub enum ElemV {
    Raw(Seq<char>),
    Output(Seq<TokenV>),
    TagEl { name: Seq<char>, args: Seq<TokenV> },
}

impl View for SourceElement {
    type V = ElemV;

    open spec fn view(&self) -> ElemV {
        match *self {
            SourceElement::Raw(ref s) => ElemV::Raw(s@),
            SourceElement::Output(ref t) => ElemV::Output(toks_v(t@)),
            SourceElement::TagEl { ref name, ref args } => ElemV::TagEl {
                name: name@,
                args: toks_v(args@),
            },
        }
    }
}

/// The views of a run of source elements.
pub open spec fn elems_v(s: Seq<SourceElement>) -> Seq<ElemV> {
    Seq::new(s.len(), |i: int| s[i]@)
}

/// A position after `p`, clamped into `p < position <= len` so that the
/// recursions below visibly terminate. A successful parse step always
/// advances and stays in range, so the clamp never changes a reachable
/// result.
pub open spec fn advanced(len: int, p: int, r: int) -> int {
    if p < r && r <= len {
        r
    } else if p + 1 <= len {
        p + 1
    } else {
        len
    }
}

/// The further comma-separated arguments a well-formed token run denotes,
/// from `q` on: nothing begins unless a comma stands at `q`.
pub open spec fn spec_parse_args_rest(toks: Seq<TokenV>, q: int) -> Option<(Seq<ExprV>, int)>
    decreases toks.len() - q,
{
    if q < 0 || q >= toks.len() || !(toks[q] is Comma) {
        Some((Seq::empty(), q))
    } else {
        match spec_parse_expression(toks, q + 1) {
            Option::Some((e, r)) => {
                match spec_parse_args_rest(toks, advanced(toks.len() as int, q, r)) {
                    Option::Some((rest, e2)) => Some((seq![e] + rest, e2)),
                    Option::None => None,
                }
            },
            Option::None => None,
        }
    }
}

/// The filter invocations a well-formed token run denotes, from `q` on —
/// `| name` or `| name: args` for each, the name resolved against the
/// registered filters — together with the position after the run; nothing
/// where a begun invocation is malformed or names an unregistered filter.
pub open spec fn spec_parse_filters_rest(toks: Seq<TokenV>, q: int, freg: Seq<(String,
    FilterPlugin)>) -> Option<(Seq<FilterCallV>, int)>
    decreases toks.len() - q,
{
    if q < 0 || q >= toks.len() || !(toks[q] is Pipe) {
        Some((Seq::empty(), q))
    } else if q + 1 < toks.len() && toks[q + 1] is Ident {
        match find_plugin(freg, toks[q + 1]->Ident_0) {
            Option::Some(plugin) => {
                if q + 2 < toks.len() && toks[q + 2] is Colon {
                    match spec_parse_expression(toks, q + 3) {
                        Option::Some((e0, r0)) => {
                            match spec_parse_args_rest(toks, advanced(toks.len() as int, q,
                            r0)) {
                                Option::Some((more, r1)) => {
                                    match spec_parse_filters_rest(toks, advanced(
                                    toks.len() as int, q, r1), freg) {
                                        Option::Some((fs, e)) => Some((seq![FilterCallV {
                                            filter: plugin,
                                            args: seq![e0] + more,
                                        }] + fs, e)),
                                        Option::None => None,
                                    }
                                },
                                Option::None => None,
                            }
                        },
                        Option::None => None,
                    }
                } else {
                    match spec_parse_filters_rest(toks, advanced(toks.len() as int, q, q + 2),
                    freg) {
                        Option::Some((fs, e)) => Some((seq![FilterCallV {
                            filter: plugin,
                            args: Seq::empty(),
                        }] + fs, e)),
                        Option::None => None,
                    }
                }
            },
            Option::None => None,
        }
    } else {
        None
    }
}

/// The chain a well-formed token run denotes, from `p` on: an entry
/// expression and its filter run, together with the position after it.
pub open spec fn spec_parse_chain(toks: Seq<TokenV>, p: int, freg: Seq<(String,
    FilterPlugin)>) -> Option<(ChainV, int)> {
    match spec_parse_expression(toks, p) {
        Option::Some((e, q)) => match spec_parse_filters_rest(toks, q, freg) {
            Option::Some((fs, r)) => Some((ChainV { entry: e, filters: fs }, r)),
            Option::None => None,
        },
        Option::None => None,
    }
}

/// The assignment a well-formed argument run denotes, from `p` on: the
/// written name and the chain, with nothing left over.
pub open spec fn spec_parse_assign(toks: Seq<TokenV>, p: int, freg: Seq<(String,
    FilterPlugin)>) -> Option<(Seq<char>, ChainV)> {
    if 0 <= p && p < toks.len() && toks[p] is Ident && p + 1 < toks.len() && toks[p
        + 1] is AssignOp {
        match spec_parse_chain(toks, p + 2, freg) {
            Option::Some((c, r)) => if r == toks.len() {
                Some((toks[p]->Ident_0, c))
            } else {
                None
            },
            Option::None => None,
        }
    } else {
        None
    }
}

/// The loop head a well-formed argument run denotes, from `p` on: the loop
/// variable and its source, with nothing left over.
pub open spec fn spec_parse_for_args(toks: Seq<TokenV>, p: int) -> Option<(Seq<char>,
    ForSourceV)> {
    if 0 <= p && p < toks.len() && toks[p] is Ident && p + 1 < toks.len() && toks[p
        + 1] is Ident && toks[p + 1]->Ident_0 == "in"@ {
        let var = toks[p]->Ident_0;
        if p + 2 < toks.len() && toks[p + 2] is LParen {
            match spec_parse_expression(toks, p + 3) {
                Option::Some((lo, r1)) => if r1 < toks.len() && toks[r1] is DotDot {
                    match spec_parse_expression(toks, r1 + 1) {
                        Option::Some((hi, r2)) => if r2 < toks.len() && toks[r2] is RParen && r2
                            + 1 == toks.len() {
                            Some((var, ForSourceV::Range(lo, hi)))
                        } else {
                            None
                        },
                        Option::None => None,
                    }
                } else {
                    None
                },
                Option::None => None,
            }
        } else {
            match spec_parse_expression(toks, p + 2) {
                Option::Some((e, r)) => if r == toks.len() {
                    Some((var, ForSourceV::Val(e)))
                } else {
                    None
                },
                Option::None => None,
            }
        }
    } else {
        None
    }
}

/// The condition a well-formed argument run denotes, from `p` on: the left
/// expression and the optional comparison, with nothing left over.
pub open spec fn spec_parse_if_args(toks: Seq<TokenV>, p: int) -> Option<(ExprV, Option<(CompOp,
    ExprV)>)> {
    match spec_parse_expression(toks, p) {
        Option::Some((left, q)) => if q < toks.len() && toks[q] is Comparison {
            match spec_parse_expression(toks, q + 1) {
                Option::Some((rhs, r)) => if r == toks.len() {
                    Some((left, Some((toks[q]->Comparison_0, rhs))))
                } else {
                    None
                },
                Option::None => None,
            }
        } else if q >= toks.len() {
            Some((left, None))
        } else {
            None
        },
        Option::None => None,
    }
}

/// The node one tag element denotes under a language registry, with the
/// element position after it: a block consumes its body through the
/// matching closing tag, a plain tag consumes nothing further; a name in
/// neither registry, or malformed arguments, denote nothing.
pub open spec fn spec_parse_tag_element_v(name: Seq<char>, args: Seq<TokenV>,
    elems: Seq<ElemV>, pos: int, lang: Language) -> Option<(NodeV, int)>
    decreases elems.len() - pos, 2nat,
{
    if pos < 0 || pos > elems.len() {
        None
    } else {
        match find_plugin(lang.blocks.entries@, name) {
            Option::Some(BlockPlugin::IfChanged(_)) => if args.len() == 0 {
                match spec_parse_until_v(elems, pos, Some("endifchanged"@), lang) {
                    Option::Some((body, np)) => Some((NodeV::IfChanged { id: pos, body }, np)),
                    Option::None => None,
                }
            } else {
                None
            },
            Option::Some(BlockPlugin::For(_)) => match spec_parse_for_args(args, 0) {
                Option::Some((var, srcv)) => match spec_parse_until_v(elems, pos, Some(
                "endfor"@), lang) {
                    Option::Some((body, np)) => Some((NodeV::For { var, source: srcv, body },
                    np)),
                    Option::None => None,
                },
                Option::None => None,
            },
            Option::Some(BlockPlugin::If(_)) => match spec_parse_if_args(args, 0) {
                Option::Some((left, comp)) => match spec_parse_until_v(elems, pos, Some(
                "endif"@), lang) {
                    Option::Some((body, np)) => Some((NodeV::If { left, comp, body }, np)),
                    Option::None => None,
                },
                Option::None => None,
            },
            Option::None => match find_plugin(lang.tags.entries@, name) {
                Option::Some(TagPlugin::Assign(_)) => match spec_parse_assign(args, 0,
                lang.filters.entries@) {
                    Option::Some((dst, c)) => Some((NodeV::Assign { dst, src: c }, pos)),
                    Option::None => None,
                },
                Option::Some(TagPlugin::Break(_)) => if args.len() == 0 {
                    Some((NodeV::Interrupt(InterruptKind::Break), pos))
                } else {
                    None
                },
                Option::Some(TagPlugin::Continue(_)) => if args.len() == 0 {
                    Some((NodeV::Interrupt(InterruptKind::Continue), pos))
                } else {
                    None
                },
                Option::None => None,
            },
        }
    }
}

/// The nodes a run of source elements denotes under a language registry,
/// from `cur` on up to the closing tag named `end` (or, with none expected,
/// the end of the stream), with the position after the run. A missing
/// closing tag, or any element that denotes nothing, denotes nothing.
pub open spec fn spec_parse_until_v(elems: Seq<ElemV>, cur: int, end: Option<Seq<char>>,
    lang: Language) -> Option<(Seq<NodeV>, int)>
    decreases elems.len() - cur, 0nat,
{
    if cur < 0 {
        None
    } else if cur >= elems.len() {
        match end {
            Option::None => Some((Seq::empty(), elems.len() as int)),
            Option::Some(_) => None,
        }
    } else {
        match elems[cur] {
            ElemV::Raw(s) => match spec_parse_until_v(elems, cur + 1, end, lang) {
                Option::Some((rest, e)) => Some((seq![NodeV::Text(s)] + rest, e)),
                Option::None => None,
            },
            ElemV::Output(toks) => match spec_parse_chain(toks, 0, lang.filters.entries@) {
                Option::Some((c, r)) => if r == toks.len() {
                    match spec_parse_until_v(elems, cur + 1, end, lang) {
                        Option::Some((rest, e)) => Some((seq![NodeV::Output(c)] + rest, e)),
                        Option::None => None,
                    }
                } else {
                    None
                },
                Option::None => None,
            },
            ElemV::TagEl { name, args } => if end is Some && name == end->0 {
                Some((Seq::empty(), cur + 1))
            } else {
                match spec_parse_tag_element_v(name, args, elems, cur + 1, lang) {
                    Option::Some((nv, np)) => match spec_parse_until_v(elems, advanced(
                    elems.len() as int, cur, np), end, lang) {
                        Option::Some((rest, e)) => Some((seq![nv] + rest, e)),
                        Option::None => None,
                    },
                    Option::None => None,
                }
            },
        }
    }
}

/// The index of the first character from `p` on that cannot continue an
/// identifier (or `to`).
pub open spec fn spec_scan_ident(cs: Seq<char>, p: int, to: int) -> int
    decreases to - p,
{
    if p < 0 || p >= to || to > cs.len() || !(('a' <= cs[p] && cs[p] <= 'z') || ('A' <= cs[p]
        && cs[p] <= 'Z') || ('0' <= cs[p] && cs[p] <= '9') || cs[p] == '_') {
        p
    } else {
        spec_scan_ident(cs, p + 1, to)
    }
}

/// The index of the first `quote` from `p` on (or `to` when it never
/// comes).
pub open spec fn spec_scan_string(cs: Seq<char>, p: int, to: int, quote: char) -> int
    decreases to - p,
{
    if p < 0 || p >= to || to > cs.len() || cs[p] == quote {
        p
    } else {
        spec_scan_string(cs, p + 1, to, quote)
    }
}

/// The value of a run of digits accumulated onto `acc`, with the position
/// after the run; nothing when the value outgrows 64 bits unsigned.
pub open spec fn spec_num(cs: Seq<char>, p: int, to: int, acc: int) -> Option<(int, int)>
    decreases to - p,
{
    if p < 0 || p >= to || to > cs.len() || !('0' <= cs[p] && cs[p] <= '9') {
        Some((acc, p))
    } else {
        let d = cs[p] as int - '0' as int;
        if acc > (0xffff_ffff_ffff_ffff - d) / 10 {
            None
        } else {
            spec_num(cs, p + 1, to, acc * 10 + d)
        }
    }
}

/// The tokens the characters from `p` to `to` denote; nothing where a
/// number outgrows 64 bits signed, a string never closes, or a character
/// fits no token.
pub open spec fn spec_tokenize_inner(cs: Seq<char>, p: int, to: int) -> Option<Seq<TokenV>>
    decreases to - p,
{
    if p < 0 || to > cs.len() {
        None
    } else if p >= to {
        Some(Seq::empty())
    } else {
        let c = cs[p];
        if c == ' ' || c == '\t' || c == '\n' || c == '\r' {
            spec_tokenize_inner(cs, p + 1, to)
        } else if ('a' <= c && c <= 'z') || ('A' <= c && c <= 'Z') || c == '_' {
            let e = advanced(to, p, spec_scan_ident(cs, p + 1, to));
            match spec_tokenize_inner(cs, e, to) {
                Option::Some(rest) => Some(seq![TokenV::Ident(cs.subrange(p, e))] + rest),
                Option::None => None,
            }
        } else if ('0' <= c && c <= '9') || (c == '-' && p + 1 < to && '0' <= cs[p + 1] && cs[p
            + 1] <= '9') {
            let negative = c == '-';
            let q0 = if negative {
                p + 1
            } else {
                p
            };
            match spec_num(cs, q0 + 1, to, cs[q0] as int - '0' as int) {
                Option::Some((m, e2)) => {
                    let e = advanced(to, p, e2);
                    if negative {
                        if m > 0x8000_0000_0000_0000 {
                            None
                        } else {
                            match spec_tokenize_inner(cs, e, to) {
                                Option::Some(rest) => Some(seq![TokenV::IntLit(-m)] + rest),
                                Option::None => None,
                            }
                        }
                    } else {
                        if m > 0x7fff_ffff_ffff_ffff {
                            None
                        } else {
                            match spec_tokenize_inner(cs, e, to) {
                                Option::Some(rest) => Some(seq![TokenV::IntLit(m)] + rest),
                                Option::None => None,
                            }
                        }
                    }
                },
                Option::None => None,
            }
        } else if c == '\'' || c == '"' {
            let e = spec_scan_string(cs, p + 1, to, c);
            if e >= to || e < p + 1 {
                None
            } else {
                match spec_tokenize_inner(cs, advanced(to, p, e + 1), to) {
                    Option::Some(rest) => Some(seq![TokenV::StrLit(cs.subrange(p + 1, e))]
                        + rest),
                    Option::None => None,
                }
            }
        } else if c == '|' {
            match spec_tokenize_inner(cs, p + 1, to) {
                Option::Some(rest) => Some(seq![TokenV::Pipe] + rest),
                Option::None => None,
            }
        } else if c == ':' {
            match spec_tokenize_inner(cs, p + 1, to) {
                Option::Some(rest) => Some(seq![TokenV::Colon] + rest),
                Option::None => None,
            }
        } else if c == ',' {
            match spec_tokenize_inner(cs, p + 1, to) {
                Option::Some(rest) => Some(seq![TokenV::Comma] + rest),
                Option::None => None,
            }
        } else if c == '.' {
            if p + 1 < to && cs[p + 1] == '.' {
                match spec_tokenize_inner(cs, p + 2, to) {
                    Option::Some(rest) => Some(seq![TokenV::DotDot] + rest),
                    Option::None => None,
                }
            } else {
                match spec_tokenize_inner(cs, p + 1, to) {
                    Option::Some(rest) => Some(seq![TokenV::Dot] + rest),
                    Option::None => None,
                }
            }
        } else if c == '[' {
            match spec_tokenize_inner(cs, p + 1, to) {
                Option::Some(rest) => Some(seq![TokenV::LBracket] + rest),
                Option::None => None,
            }
        } else if c == ']' {
            match spec_tokenize_inner(cs, p + 1, to) {
                Option::Some(rest) => Some(seq![TokenV::RBracket] + rest),
                Option::None => None,
            }
        } else if c == '(' {
            match spec_tokenize_inner(cs, p + 1, to) {
                Option::Some(rest) => Some(seq![TokenV::LParen] + rest),
                Option::None => None,
            }
        } else if c == ')' {
            match spec_tokenize_inner(cs, p + 1, to) {
                Option::Some(rest) => Some(seq![TokenV::RParen] + rest),
                Option::None => None,
            }
        } else if c == '=' {
            if p + 1 < to && cs[p + 1] == '=' {
                match spec_tokenize_inner(cs, p + 2, to) {
                    Option::Some(rest) => Some(seq![TokenV::Comparison(CompOp::Equals)] + rest),
                    Option::None => None,
                }
            } else {
                match spec_tokenize_inner(cs, p + 1, to) {
                    Option::Some(rest) => Some(seq![TokenV::AssignOp] + rest),
                    Option::None => None,
                }
            }
        } else if c == '!' {
            if p + 1 < to && cs[p + 1] == '=' {
                match spec_tokenize_inner(cs, p + 2, to) {
                    Option::Some(rest) => Some(seq![TokenV::Comparison(CompOp::NotEquals)]
                        + rest),
                    Option::None => None,
                }
            } else {
                None
            }
        } else if c == '<' {
            if p + 1 < to && cs[p + 1] == '=' {
                match spec_tokenize_inner(cs, p + 2, to) {
                    Option::Some(rest) => Some(seq![TokenV::Comparison(CompOp::LessEq)] + rest),
                    Option::None => None,
                }
            } else {
                match spec_tokenize_inner(cs, p + 1, to) {
                    Option::Some(rest) => Some(seq![TokenV::Comparison(CompOp::Less)] + rest),
                    Option::None => None,
                }
            }
        } else if c == '>' {
            if p + 1 < to && cs[p + 1] == '=' {
                match spec_tokenize_inner(cs, p + 2, to) {
                    Option::Some(rest) => Some(seq![TokenV::Comparison(CompOp::GreaterEq)]
                        + rest),
                    Option::None => None,
                }
            } else {
                match spec_tokenize_inner(cs, p + 1, to) {
                    Option::Some(rest) => Some(seq![TokenV::Comparison(CompOp::Greater)]
                        + rest),
                    Option::None => None,
                }
            }
        } else {
            None
        }
    }
}

/// The index of the first closing pair `closer` `}` from `j` on, or
/// nothing when none comes before the end.
pub open spec fn spec_find_close(cs: Seq<char>, j: int, closer: char) -> Option<int>
    decreases cs.len() - j,
{
    if j < 0 || j + 1 >= cs.len() {
        None
    } else if cs[j] == closer && cs[j + 1] == '}' {
        Some(j)
    } else {
        spec_find_close(cs, j + 1, closer)
    }
}

/// The index of the first construct opener `{{` or `{%` from `k` on (or
/// the end).
pub open spec fn spec_scan_raw(cs: Seq<char>, k: int) -> int
    decreases cs.len() - k,
{
    if k < 0 || k >= cs.len() {
        cs.len() as int
    } else if cs[k] == '{' && k + 1 < cs.len() && (cs[k + 1] == '{' || cs[k + 1] == '%') {
        k
    } else {
        spec_scan_raw(cs, k + 1)
    }
}

/// The source elements a text denotes, from `i` on: raw runs, output
/// constructs and named tag constructs, each construct's contents
/// tokenized; nothing where a construct never closes, a tag has no
/// leading name, or its contents do not tokenize.
pub open spec fn spec_lex(cs: Seq<char>, i: int) -> Option<Seq<ElemV>>
    decreases cs.len() - i,
{
    if i < 0 {
        None
    } else if i >= cs.len() {
        Some(Seq::empty())
    } else {
        let output_start = cs[i] == '{' && i + 1 < cs.len() && cs[i + 1] == '{';
        let tag_start = cs[i] == '{' && i + 1 < cs.len() && cs[i + 1] == '%';
        if output_start || tag_start {
            let closer = if output_start {
                '}'
            } else {
                '%'
            };
            match spec_find_close(cs, i + 2, closer) {
                Option::Some(close) => {
                    if close < i + 2 {
                        None
                    } else {
                        match spec_tokenize_inner(cs, i + 2, close) {
                            Option::Some(toks) => {
                                match spec_lex(cs, advanced(cs.len() as int, i, close + 2)) {
                                    Option::Some(rest) => {
                                        if output_start {
                                            Some(seq![ElemV::Output(toks)] + rest)
                                        } else if toks.len() > 0 && toks[0] is Ident {
                                            Some(seq![ElemV::TagEl {
                                                name: toks[0]->Ident_0,
                                                args: toks.drop_first(),
                                            }] + rest)
                                        } else {
                                            None
                                        }
                                    },
                                    Option::None => None,
                                }
                            },
                            Option::None => None,
                        }
                    }
                },
                Option::None => None,
            }
        } else {
            let e = spec_scan_raw(cs, i);
            let k2 = if e == i {
                i + 1
            } else {
                e
            };
            let k3 = advanced(cs.len() as int, i, k2);
            match spec_lex(cs, k3) {
                Option::Some(rest) => Some(seq![ElemV::Raw(cs.subrange(i, k3))] + rest),
                Option::None => None,
            }
        }
    }
}

/// Whether a character can start an identifier.
fn is_ident_start(c: char) -> (r: bool)
    ensures
        r == (('a' <= c && c <= 'z') || ('A' <= c && c <= 'Z') || c == '_'),
{
    ('a' <= c && c <= 'z') || ('A' <= c && c <= 'Z') || c == '_'
}

/// Whether a character can continue an identifier.
fn is_ident_char(c: char) -> (r: bool)
    ensures
        r == (('a' <= c && c <= 'z') || ('A' <= c && c <= 'Z') || ('0' <= c && c <= '9') || c
            == '_'),
{
    ('a' <= c && c <= 'z') || ('A' <= c && c <= 'Z') || ('0' <= c && c <= '9') || c == '_'
}

/// Whether a character is a decimal digit.
fn is_digit(c: char) -> (r: bool)
    ensures
        r == ('0' <= c && c <= '9'),
{
    '0' <= c && c <= '9'
}

/// The numeric value of a decimal digit.
fn digit_value(c: char) -> (r: u64)
    requires
        '0' <= c && c <= '9',
    ensures
        r == c as u64 - '0' as u64,
        r < 10,
{
    (c as u32 as u64) - ('0' as u32 as u64)
}

/// The characters from `from` (inclusive) to `to` (exclusive), as a string.
fn chars_to_string(chars: &Vec<char>, from: usize, to: usize) -> (r: String)
    requires
        from <= to <= chars@.len(),
    ensures
        r@ == chars@.subrange(from as int, to as int),
{
    let mut r = String::new();
    let mut i: usize = from;
    proof {
        assert(chars@.subrange(from as int, from as int) =~= Seq::<char>::empty());
    }
    while i < to
        invariant
            from <= i <= to,
            to <= chars@.len(),
            r@ == chars@.subrange(from as int, i as int),
        decreases to - i,
    {
        push_char(&mut r, chars[i]);
        proof {
            assert(chars@.subrange(from as int, i + 1) =~= chars@.subrange(from as int,
            i as int).push(chars@[i as int]));
        }
        i = i + 1;
    }
    r
}

/// Tokenize the contents of one tag or output construct, the characters
/// from `from` to `to`: exactly the tokens `spec_tokenize_inner` denotes,
/// a parse error where it denotes nothing.
#[verifier::rlimit(100)]
fn tokenize_inner(chars: &Vec<char>, from: usize, to: usize) -> (r: Result<Vec<Token>, Error>)
    requires
        from <= to <= chars@.len(),
    ensures
        r is Err ==> r->Err_0.kind == ErrorKind::Parse,
        match spec_tokenize_inner(chars@, from as int, to as int) {
            Option::Some(ts) => r is Ok && toks_v(r->Ok_0@) == ts,
            Option::None => r is Err,
        },
{
    let ghost cs = chars@;
    let mut tokens: Vec<Token> = Vec::new();
    proof {
        assert(toks_v(tokens@) =~= Seq::<TokenV>::empty());
        assert forall|pr: Seq<TokenV>| spec_tokenize_inner(cs, from as int, to as int)
            == Some::<Seq<TokenV>>(pr) implies (toks_v(tokens@) + pr) =~= pr by {}
    }
    let mut p: usize = from;
    while p < to
        invariant
            from <= p <= to,
            to <= chars@.len(),
            cs == chars@,
            match spec_tokenize_inner(cs, p as int, to as int) {
                Option::Some(rest) => spec_tokenize_inner(cs, from as int, to as int) == Some(
                toks_v(tokens@) + rest),
                Option::None => spec_tokenize_inner(cs, from as int, to as int) is None,
            },
        decreases to - p,
    {
        let ghost pp = p as int;
        let ghost toks0 = tokens@;
        let c = chars[p];
        if c == ' ' || c == '\t' || c == '\n' || c == '\r' {
            p = p + 1;
        } else if is_ident_start(c) {
            let start = p;
            p = p + 1;
            while p < to && is_ident_char(chars[p])
                invariant
                    start < p <= to,
                    to <= chars@.len(),
                    cs == chars@,
                    from <= pp < to,
                    start == pp,
                    ('a' <= cs[pp] && cs[pp] <= 'z') || ('A' <= cs[pp] && cs[pp] <= 'Z')
                        || cs[pp] == '_',
                    tokens@ == toks0,
                    match spec_tokenize_inner(cs, pp, to as int) {
                        Option::Some(rest) => spec_tokenize_inner(cs, from as int,
                        to as int) == Some(toks_v(toks0) + rest),
                        Option::None => spec_tokenize_inner(cs, from as int,
                        to as int) is None,
                    },
                    spec_scan_ident(cs, start + 1, to as int) == spec_scan_ident(cs, p as int,
                    to as int),
                decreases to - p,
            {
                p = p + 1;
            }
            proof {
                assert(spec_scan_ident(cs, p as int, to as int) == p as int);
                assert(advanced(to as int, pp, spec_scan_ident(cs, pp + 1, to as int))
                == p as int);
            }
            tokens.push(Token::Ident(chars_to_string(chars, start, p)));
            proof {
                assert(tokens@.drop_last() =~= toks0);
                assert(toks_v(tokens@) =~= toks_v(toks0).push(TokenV::Ident(cs.subrange(pp,
                p as int))));
                assert forall|pr: Seq<TokenV>| spec_tokenize_inner(cs, p as int, to as int)
                    == Some::<Seq<TokenV>>(pr) implies (toks_v(toks0) + (seq![TokenV::Ident(
                cs.subrange(pp, p as int))] + pr)) =~= (toks_v(tokens@) + pr) by {}
            }
        } else if is_digit(c) || (c == '-' && p + 1 < to && is_digit(chars[p + 1])) {
            let negative = c == '-';
            if negative {
                p = p + 1;
            }
            let mut m: u64 = digit_value(chars[p]);
            let ghost m0 = m as int;
            p = p + 1;
            let ghost nstart = p as int;
            while p < to && is_digit(chars[p])
                invariant
                    nstart <= p <= to,
                    to <= chars@.len(),
                    cs == chars@,
                    from <= pp < to,
                    ('0' <= cs[pp] && cs[pp] <= '9') || (cs[pp] == '-' && pp + 1 < to && '0'
                        <= cs[pp + 1] && cs[pp + 1] <= '9'),
                    negative == (cs[pp] == '-'),
                    nstart == if negative {
                        pp + 2
                    } else {
                        pp + 1
                    },
                    m0 == (if negative {
                        cs[pp + 1]
                    } else {
                        cs[pp]
                    }) as int - '0' as int,
                    tokens@ == toks0,
                    match spec_tokenize_inner(cs, pp, to as int) {
                        Option::Some(rest) => spec_tokenize_inner(cs, from as int,
                        to as int) == Some(toks_v(toks0) + rest),
                        Option::None => spec_tokenize_inner(cs, from as int,
                        to as int) is None,
                    },
                    spec_num(cs, nstart, to as int, m0) == spec_num(cs, p as int, to as int,
                    m as int),
                decreases to - p,
            {
                let d = digit_value(chars[p]);
                if m > (0xffff_ffff_ffff_ffff - d) / 10 {
                    proof {
                        assert(spec_num(cs, p as int, to as int, m as int) is None);
                        assert(spec_tokenize_inner(cs, pp, to as int) is None);
                    }
                    return Err(Error::parse(String::from_str(
                    "this number does not fit in 64 bits")));
                }
                m = m * 10 + d;
                p = p + 1;
            }
            proof {
                assert(spec_num(cs, p as int, to as int, m as int) == Some((m as int,
                p as int)));
                assert(advanced(to as int, pp, p as int) == p as int);
            }
            if negative {
                if m > 0x8000_0000_0000_0000 {
                    proof {
                        assert(spec_tokenize_inner(cs, pp, to as int) is None);
                    }
                    return Err(Error::parse(String::from_str(
                    "this number does not fit in 64 bits")));
                }
                tokens.push(Token::IntLit((-(m as i128)) as i64));
                proof {
                    assert(tokens@.last()@ == TokenV::IntLit(-(m as int)));
                }
            } else {
                if m > 0x7fff_ffff_ffff_ffff {
                    proof {
                        assert(spec_tokenize_inner(cs, pp, to as int) is None);
                    }
                    return Err(Error::parse(String::from_str(
                    "this number does not fit in 64 bits")));
                }
                tokens.push(Token::IntLit(m as i64));
                proof {
                    assert(tokens@.last()@ == TokenV::IntLit(m as int));
                }
            }
            proof {
                assert(tokens@.drop_last() =~= toks0);
                assert(toks_v(tokens@) =~= toks_v(toks0).push(tokens@.last()@));
                assert forall|pr: Seq<TokenV>| spec_tokenize_inner(cs, p as int, to as int)
                    == Some::<Seq<TokenV>>(pr) implies (toks_v(toks0) + (seq![
                tokens@.last()@] + pr)) =~= (toks_v(tokens@) + pr) by {}
            }
        } else if c == '\'' || c == '"' {
            let quote = c;
            let start = p + 1;
            p = p + 1;
            while p < to && chars[p] != quote
                invariant
                    start <= p <= to,
                    to <= chars@.len(),
                    cs == chars@,
                    from <= pp < to,
                    start == pp + 1,
                    quote == cs[pp],
                    quote == '\'' || quote == '"',
                    tokens@ == toks0,
                    match spec_tokenize_inner(cs, pp, to as int) {
                        Option::Some(rest) => spec_tokenize_inner(cs, from as int,
                        to as int) == Some(toks_v(toks0) + rest),
                        Option::None => spec_tokenize_inner(cs, from as int,
                        to as int) is None,
                    },
                    spec_scan_string(cs, start as int, to as int, quote) == spec_scan_string(cs,
                    p as int, to as int, quote),
                decreases to - p,
            {
                p = p + 1;
            }
            if p >= to {
                proof {
                    assert(spec_scan_string(cs, p as int, to as int, quote) == p as int);
                    assert(spec_tokenize_inner(cs, pp, to as int) is None);
                }
                return Err(Error::parse(String::from_str("a string was never closed")));
            }
            proof {
                assert(spec_scan_string(cs, p as int, to as int, quote) == p as int);
                assert(advanced(to as int, pp, p + 1) == p + 1);
            }
            tokens.push(Token::StrLit(chars_to_string(chars, start, p)));
            proof {
                assert(tokens@.drop_last() =~= toks0);
                assert(toks_v(tokens@) =~= toks_v(toks0).push(TokenV::StrLit(cs.subrange(pp
                + 1, p as int))));
                assert forall|pr: Seq<TokenV>| spec_tokenize_inner(cs, p + 1, to as int)
                    == Some::<Seq<TokenV>>(pr) implies (toks_v(toks0) + (seq![TokenV::StrLit(
                cs.subrange(pp + 1, p as int))] + pr)) =~= (toks_v(tokens@) + pr) by {}
            }
            p = p + 1;
        } else {
            let one: Option<Token> = if c == '|' {
                Some(Token::Pipe)
            } else if c == ':' {
                Some(Token::Colon)
            } else if c == ',' {
                Some(Token::Comma)
            } else if c == '[' {
                Some(Token::LBracket)
            } else if c == ']' {
                Some(Token::RBracket)
            } else if c == '(' {
                Some(Token::LParen)
            } else if c == ')' {
                Some(Token::RParen)
            } else {
                None
            };
            match one {
                Option::Some(t) => {
                    tokens.push(t);
                    p = p + 1;
                    proof {
                        assert(tokens@.drop_last() =~= toks0);
                        assert(toks_v(tokens@) =~= toks_v(toks0).push(tokens@.last()@));
                        assert forall|pr: Seq<TokenV>| spec_tokenize_inner(cs, p as int,
                        to as int) == Some::<Seq<TokenV>>(pr) implies (toks_v(toks0) + (seq![
                        tokens@.last()@] + pr)) =~= (toks_v(tokens@) + pr) by {}
                    }
                },
                Option::None => {
                    let two_eq = p + 1 < to && chars[p + 1] == '=';
                    let t: Token = if c == '.' {
                        if p + 1 < to && chars[p + 1] == '.' {
                            p = p + 2;
                            Token::DotDot
                        } else {
                            p = p + 1;
                            Token::Dot
                        }
                    } else if c == '=' {
                        if two_eq {
                            p = p + 2;
                            Token::Comparison(CompOp::Equals)
                        } else {
                            p = p + 1;
                            Token::AssignOp
                        }
                    } else if c == '!' {
                        if two_eq {
                            p = p + 2;
                            Token::Comparison(CompOp::NotEquals)
                        } else {
                            proof {
                                assert(spec_tokenize_inner(cs, pp, to as int) is None);
                            }
                            return Err(Error::parse(String::from_str(
                            "a lone \"!\" is not an operator")));
                        }
                    } else if c == '<' {
                        if two_eq {
                            p = p + 2;
                            Token::Comparison(CompOp::LessEq)
                        } else {
                            p = p + 1;
                            Token::Comparison(CompOp::Less)
                        }
                    } else if c == '>' {
                        if two_eq {
                            p = p + 2;
                            Token::Comparison(CompOp::GreaterEq)
                        } else {
                            p = p + 1;
                            Token::Comparison(CompOp::Greater)
                        }
                    } else {
                        proof {
                            assert(spec_tokenize_inner(cs, pp, to as int) is None);
                        }
                        return Err(Error::parse(String::from_str(
                        "unexpected character in a tag")));
                    };
                    tokens.push(t);
                    proof {
                        assert(tokens@.drop_last() =~= toks0);
                        assert(toks_v(tokens@) =~= toks_v(toks0).push(tokens@.last()@));
                        assert forall|pr: Seq<TokenV>| spec_tokenize_inner(cs, p as int,
                        to as int) == Some::<Seq<TokenV>>(pr) implies (toks_v(toks0) + (seq![
                        tokens@.last()@] + pr)) =~= (toks_v(tokens@) + pr) by {}
                    }
                },
            }
        }
    }
    Ok(tokens)
}

/// Split template text into raw text, output constructs and tag constructs,
/// tokenizing the contents of each construct. An opened construct that is
/// never closed, and a tag without a name, are parse errors.
pub fn tokenize(text: &str) -> (r: Result<Vec<SourceElement>, Error>)
    ensures
        r is Err ==> r->Err_0.kind == ErrorKind::Parse,
        text@.len() == 0 ==> r is Ok && r->Ok_0@.len() == 0,
        (text@.len() > 0 && (forall|i: int| 0 <= i < text@.len() ==> text@[i] != '{')) ==> {
            &&& r is Ok
            &&& r->Ok_0@.len() == 1
            &&& r->Ok_0@[0] is Raw
            &&& r->Ok_0@[0]->Raw_0@ == text@
        },
        match spec_lex(text@, 0) {
            Option::Some(es) => r is Ok && elems_v(r->Ok_0@) == es,
            Option::None => r is Err,
        },
{
    let chars = str_to_chars(text);
    let n = chars.len();
    let ghost cs = chars@;
    let ghost plain = n > 0 && (forall|i: int| 0 <= i < chars@.len() ==> chars@[i] != '{');
    let mut elements: Vec<SourceElement> = Vec::new();
    proof {
        assert(elems_v(elements@) =~= Seq::<ElemV>::empty());
        assert forall|pr: Seq<ElemV>| spec_lex(cs, 0) == Some::<Seq<ElemV>>(pr) implies (
        elems_v(elements@) + pr) =~= pr by {}
    }
    let mut i: usize = 0;
    while i < n
        invariant
            i <= n,
            n == chars@.len(),
            chars@ == text@,
            cs == chars@,
            n == 0 ==> elements@.len() == 0,
            plain == (n > 0 && (forall|j: int| 0 <= j < chars@.len() ==> chars@[j] != '{')),
            plain ==> (i == 0 && elements@.len() == 0) || (i == n && elements@.len() == 1
                && elements@[0] is Raw && elements@[0]->Raw_0@ == text@),
            match spec_lex(cs, i as int) {
                Option::Some(rest) => spec_lex(cs, 0) == Some(elems_v(elements@) + rest),
                Option::None => spec_lex(cs, 0) is None,
            },
        decreases n - i,
    {
        let ghost ii = i as int;
        let ghost elems0 = elements@;
        let output_start = chars[i] == '{' && i + 1 < n && chars[i + 1] == '{';
        let tag_start = chars[i] == '{' && i + 1 < n && chars[i + 1] == '%';
        if output_start || tag_start {
            let closer = if output_start {
                '}'
            } else {
                '%'
            };
            proof {
                assert(i + 2 <= n);
            }
            let mut j = i + 2;
            let mut close: usize = 0;
            let mut found = false;
            loop
                invariant_except_break
                    !found,
                invariant
                    i + 2 <= j <= n,
                    n == chars@.len(),
                    n >= 2,
                    cs == chars@,
                    !found ==> spec_find_close(cs, i + 2, closer) == spec_find_close(cs,
                    j as int, closer),
                ensures
                    found ==> i + 2 <= close && close + 1 < n && spec_find_close(cs, i + 2,
                    closer) == Some(close as int),
                    !found ==> spec_find_close(cs, i + 2, closer) is None,
                decreases n - j,
            {
                if j >= n - 1 {
                    proof {
                        assert(spec_find_close(cs, j as int, closer) is None);
                    }
                    break;
                }
                if chars[j] == closer && chars[j + 1] == '}' {
                    close = j;
                    found = true;
                    proof {
                        assert(spec_find_close(cs, j as int, closer) == Some(j as int));
                    }
                    break;
                }
                j = j + 1;
            }
            if !found {
                proof {
                    assert(spec_lex(cs, ii) is None);
                }
                return Err(Error::parse(String::from_str("a construct was never closed")));
            }
            let toks = match tokenize_inner(&chars, i + 2, close) {
                Result::Ok(t) => t,
                Result::Err(e) => {
                    proof {
                        assert(spec_lex(cs, ii) is None);
                    }
                    return Err(e);
                },
            };
            proof {
                assert(advanced(n as int, ii, close + 2) == close + 2);
            }
            if output_start {
                elements.push(SourceElement::Output(toks));
                proof {
                    assert(elems_v(elements@) =~= elems_v(elems0).push(ElemV::Output(toks_v(
                    toks@))));
                    assert forall|pr: Seq<ElemV>| spec_lex(cs, close + 2) == Some::<Seq<
                    ElemV>>(pr) implies (elems_v(elems0) + (seq![ElemV::Output(toks_v(
                    toks@))] + pr)) =~= (elems_v(elements@) + pr) by {}
                }
            } else {
                let mut toks = toks;
                if toks.len() == 0 {
                    proof {
                        assert(spec_lex(cs, ii) is None);
                    }
                    return Err(Error::parse(String::from_str("a tag needs a name")));
                }
                let ghost ts = toks_v(toks@);
                let first = toks.remove(0);
                proof {
                    assert(first@ == ts[0]);
                    assert(toks_v(toks@) =~= ts.drop_first());
                }
                let name = match first {
                    Token::Ident(s) => s,
                    _ => {
                        proof {
                            assert(!(ts[0] is Ident));
                            assert(spec_lex(cs, ii) is None);
                        }
                        return Err(Error::parse(String::from_str("a tag needs a name")));
                    },
                };
                elements.push(SourceElement::TagEl { name, args: toks });
                proof {
                    assert(elems_v(elements@) =~= elems_v(elems0).push(ElemV::TagEl {
                        name: ts[0]->Ident_0,
                        args: ts.drop_first(),
                    }));
                    assert forall|pr: Seq<ElemV>| spec_lex(cs, close + 2) == Some::<Seq<
                    ElemV>>(pr) implies (elems_v(elems0) + (seq![ElemV::TagEl {
                        name: ts[0]->Ident_0,
                        args: ts.drop_first(),
                    }] + pr)) =~= (elems_v(elements@) + pr) by {}
                }
            }
            i = close + 2;
        } else {
            let start = i;
            let mut k = i;
            while k < n && !(chars[k] == '{' && k + 1 < n && (chars[k + 1] == '{' || chars[k + 1]
                == '%'))
                invariant
                    start <= k <= n,
                    n == chars@.len(),
                    cs == chars@,
                    start == ii,
                    spec_scan_raw(cs, ii) == spec_scan_raw(cs, k as int),
                decreases n - k,
            {
                k = k + 1;
            }
            proof {
                assert(spec_scan_raw(cs, k as int) == k as int);
            }
            let k2 = if k == i {
                i + 1
            } else {
                k
            };
            proof {
                assert(advanced(n as int, ii, k2 as int) == k2 as int);
                if plain {
                    assert(i == 0);
                    assert(k == n);
                    assert(chars@.subrange(0, n as int) =~= text@);
                }
            }
            elements.push(SourceElement::Raw(chars_to_string(&chars, start, k2)));
            proof {
                assert(elems_v(elements@) =~= elems_v(elems0).push(ElemV::Raw(cs.subrange(ii,
                k2 as int))));
                assert forall|pr: Seq<ElemV>| spec_lex(cs, k2 as int) == Some::<Seq<ElemV>>(
                pr) implies (elems_v(elems0) + (seq![ElemV::Raw(cs.subrange(ii, k2 as int))]
                    + pr)) =~= (elems_v(elements@) + pr) by {}
            }
            i = k2;
        }
    }
    Ok(elements)
}

/// The argument-token stream a plugin parses: combinators over a
/// pre-tokenized run of tokens.
#[derive(Debug)]
pub struct TagTokenIter {
    pub tokens: Vec<Token>,
    pub pos: usize,
}

impl TagTokenIter {
    /// A stream over `tokens`, at its start.
    pub fn new(tokens: Vec<Token>) -> (r: TagTokenIter)
        ensures
            r.tokens == tokens,
            r.pos == 0,
    {
        TagTokenIter { tokens, pos: 0 }
    }

    /// The next token, consumed from the stream, or nothing when
    /// exhausted; the token comes back as a copy.
    pub fn take_next(&mut self) -> (r: Option<Token>)
        ensures
            final(self).tokens == old(self).tokens,
            old(self).pos < old(self).tokens@.len() ==> {
                &&& r is Some
                &&& r->0@ == old(self).tokens@[old(self).pos as int]@
                &&& final(self).pos == old(self).pos + 1
            },
            old(self).pos >= old(self).tokens@.len() ==> r is None && *final(self) == *old(self),
            old(self).pos <= old(self).tokens@.len() ==> final(self).pos <= old(
            self).tokens@.len(),
    {
        if self.pos < self.tokens.len() {
            let t = token_duplicate(&self.tokens[self.pos]);
            self.pos = self.pos + 1;
            Some(t)
        } else {
            None
        }
    }

    /// Expect any further token; exhaustion is a parse error carrying the
    /// given message.
    pub fn expect_next(&mut self, msg: &str) -> (r: Result<Token, Error>)
        ensures
            final(self).tokens == old(self).tokens,
            (r is Ok) == (old(self).pos < old(self).tokens@.len()),
            r is Ok ==> r->Ok_0@ == old(self).tokens@[old(self).pos as int]@ && final(self).pos
                == old(self).pos + 1,
            r is Err ==> *final(self) == *old(self) && r->Err_0.kind == ErrorKind::Parse
                && r->Err_0.msg@ == msg@,
    {
        match self.take_next() {
            Option::Some(t) => Ok(t),
            Option::None => Err(Error::parse(msg.to_owned())),
        }
    }

    /// Expect an identifier next; anything else is a parse error carrying
    /// the given message.
    pub fn expect_identifier(&mut self, msg: &str) -> (r: Result<String, Error>)
        ensures
            final(self).tokens == old(self).tokens,
            (r is Ok) == (old(self).pos < old(self).tokens@.len()
                && old(self).tokens@[old(self).pos as int]@ is Ident),
            r is Ok ==> r->Ok_0@ == old(self).tokens@[old(self).pos as int]@->Ident_0
                && final(self).pos == old(self).pos + 1,
            r is Err ==> final(self).pos == old(self).pos && r->Err_0.kind == ErrorKind::Parse
                && r->Err_0.msg@ == msg@,
    {
        match self.take_next() {
            Option::Some(Token::Ident(s)) => Ok(s),
            Option::Some(_) => {
                self.pos = self.pos - 1;
                Err(Error::parse(msg.to_owned()))
            },
            Option::None => Err(Error::parse(msg.to_owned())),
        }
    }

    /// Expect the assignment operator `=` next; anything else is a parse
    /// error carrying the given message.
    pub fn expect_assign_op(&mut self, msg: &str) -> (r: Result<(), Error>)
        ensures
            final(self).tokens == old(self).tokens,
            (r is Ok) == (old(self).pos < old(self).tokens@.len()
                && old(self).tokens@[old(self).pos as int]@ is AssignOp),
            r is Ok ==> final(self).pos == old(self).pos + 1,
            r is Err ==> final(self).pos == old(self).pos && r->Err_0.kind == ErrorKind::Parse
                && r->Err_0.msg@ == msg@,
    {
        match self.take_next() {
            Option::Some(Token::AssignOp) => Ok(()),
            Option::Some(_) => {
                self.pos = self.pos - 1;
                Err(Error::parse(msg.to_owned()))
            },
            Option::None => Err(Error::parse(msg.to_owned())),
        }
    }

    /// Expect the exact identifier `word` next; anything else is a parse
    /// error carrying the given message.
    pub fn expect_exact_identifier(&mut self, word: &str, msg: &str) -> (r: Result<(), Error>)
        ensures
            final(self).tokens == old(self).tokens,
            (r is Ok) == (old(self).pos < old(self).tokens@.len()
                && old(self).tokens@[old(self).pos as int]@ is Ident
                && old(self).tokens@[old(self).pos as int]@->Ident_0 == word@),
            r is Ok ==> final(self).pos == old(self).pos + 1,
            r is Err ==> final(self).pos == old(self).pos && r->Err_0.kind == ErrorKind::Parse
                && r->Err_0.msg@ == msg@,
    {
        match self.take_next() {
            Option::Some(Token::Ident(s)) => {
                if crate::runtime::str_equal(&s, &word.to_owned()) {
                    Ok(())
                } else {
                    self.pos = self.pos - 1;
                    Err(Error::parse(msg.to_owned()))
                }
            },
            Option::Some(_) => {
                self.pos = self.pos - 1;
                Err(Error::parse(msg.to_owned()))
            },
            Option::None => Err(Error::parse(msg.to_owned())),
        }
    }

    /// Expect the stream to be exhausted. A token still unconsumed is a
    /// parse error citing that first unexpected token.
    pub fn expect_nothing(&mut self) -> (r: Result<(), Error>)
        ensures
            *final(self) == *old(self),
            (r is Ok) == (old(self).pos >= old(self).tokens@.len()),
            r is Err ==> r->Err_0.kind == ErrorKind::Parse && r->Err_0.msg@ == "Unexpected token: "@
                + token_source(old(self).tokens@[old(self).pos as int]@),
    {
        if self.pos < self.tokens.len() {
            let mut msg = String::from_str("Unexpected token: ");
            push_token_source(&self.tokens[self.pos], &mut msg);
            Err(Error::parse(msg))
        } else {
            Ok(())
        }
    }

    /// Whether the next token exists and is `.` or `[`, the start of a path
    /// segment.
    fn peek_is_segment(&self) -> (r: bool)
        ensures
            r == (self.pos < self.tokens@.len() && (self.tokens@[self.pos as int]@ is Dot
                || self.tokens@[self.pos as int]@ is LBracket)),
    {
        if self.pos < self.tokens.len() {
            match &self.tokens[self.pos] {
                Token::Dot => true,
                Token::LBracket => true,
                _ => false,
            }
        } else {
            false
        }
    }

    /// Whether the next token exists and is `|`.
    fn peek_is_pipe(&self) -> (r: bool)
        ensures
            r == (self.pos < self.tokens@.len() && self.tokens@[self.pos as int]@ is Pipe),
    {
        if self.pos < self.tokens.len() {
            match &self.tokens[self.pos] {
                Token::Pipe => true,
                _ => false,
            }
        } else {
            false
        }
    }

    /// Whether the next token exists and is `:`.
    fn peek_is_colon(&self) -> (r: bool)
        ensures
            r == (self.pos < self.tokens@.len() && self.tokens@[self.pos as int]@ is Colon),
    {
        if self.pos < self.tokens.len() {
            match &self.tokens[self.pos] {
                Token::Colon => true,
                _ => false,
            }
        } else {
            false
        }
    }

    /// Whether the next token exists and is `,`.
    fn peek_is_comma(&self) -> (r: bool)
        ensures
            r == (self.pos < self.tokens@.len() && self.tokens@[self.pos as int]@ is Comma),
    {
        if self.pos < self.tokens.len() {
            match &self.tokens[self.pos] {
                Token::Comma => true,
                _ => false,
            }
        } else {
            false
        }
    }

    /// Whether the next token exists and is `(`.
    pub fn peek_is_lparen(&self) -> (r: bool)
        ensures
            r == (self.pos < self.tokens@.len() && self.tokens@[self.pos as int]@ is LParen),
    {
        if self.pos < self.tokens.len() {
            match &self.tokens[self.pos] {
                Token::LParen => true,
                _ => false,
            }
        } else {
            false
        }
    }

    /// Whether the next token exists and is a comparison operator; gives
    /// the operator back without consuming it.
    pub fn peek_comparison(&self) -> (r: Option<CompOp>)
        ensures
            match r {
                Option::Some(op) => self.pos < self.tokens@.len()
                    && self.tokens@[self.pos as int]@ == TokenV::Comparison(op),
                Option::None => self.pos >= self.tokens@.len()
                    || !(self.tokens@[self.pos as int]@ is Comparison),
            },
    {
        if self.pos < self.tokens.len() {
            match &self.tokens[self.pos] {
                Token::Comparison(op) => Some(*op),
                _ => None,
            }
        } else {
            None
        }
    }

    /// Parse one expression: an integer, string, boolean or nil literal, or
    /// a path with its `.key` and `[..]` segments.
    pub fn parse_expression(&mut self, msg: &str) -> (r: Result<Expression, Error>)
        ensures
            final(self).tokens == old(self).tokens,
            final(self).pos >= old(self).pos,
            old(self).pos <= old(self).tokens@.len() ==> final(self).pos <= old(
            self).tokens@.len(),
            r is Err ==> r->Err_0.kind == ErrorKind::Parse,
            old(self).pos < old(self).tokens@.len() && old(self).tokens@[
            old(self).pos as int]@ is IntLit ==> r is Ok && final(self).pos == old(self).pos + 1
                && r->Ok_0 is Literal && val_of(r->Ok_0->Literal_0) == Val::Int(
            old(self).tokens@[old(self).pos as int]@->IntLit_0),
            old(self).pos < old(self).tokens@.len() && old(self).tokens@[
            old(self).pos as int]@ is StrLit ==> r is Ok && final(self).pos == old(self).pos + 1
                && r->Ok_0 is Literal && val_of(r->Ok_0->Literal_0) == Val::Str(
            old(self).tokens@[old(self).pos as int]@->StrLit_0),
            old(self).pos + 1 == old(self).tokens@.len() && old(self).tokens@[
            old(self).pos as int]@ is Ident ==> r is Ok && final(self).pos == old(self).pos + 1
                && ({
                let w = old(self).tokens@[old(self).pos as int]@->Ident_0;
                &&& (w == "true"@ ==> r->Ok_0 is Literal && val_of(r->Ok_0->Literal_0)
                    == Val::Bool(true))
                &&& (w == "false"@ ==> r->Ok_0 is Literal && val_of(r->Ok_0->Literal_0)
                    == Val::Bool(false))
                &&& (w == "nil"@ ==> r->Ok_0 is Literal && val_of(r->Ok_0->Literal_0)
                    == Val::Nil)
                &&& (w != "true"@ && w != "false"@ && w != "nil"@ ==> r->Ok_0 is Path
                    && r->Ok_0->Path_0@ == w && r->Ok_0->Path_1@.len() == 0)
            }),
            old(self).pos >= old(self).tokens@.len() || !(old(self).tokens@[
            old(self).pos as int]@ is IntLit || old(self).tokens@[old(self).pos as int]@ is StrLit
                || old(self).tokens@[old(self).pos as int]@ is Ident) ==> r is Err,
            match spec_parse_expression(toks_v(old(self).tokens@), old(self).pos as int) {
                Option::Some(pr) => r is Ok && r->Ok_0@ == pr.0 && final(self).pos == pr.1,
                Option::None => r is Err,
            },
    {
        let ghost tv = toks_v(self.tokens@);
        proof {
            assert(forall|j: int| 0 <= j < tv.len() ==> tv[j] == #[trigger] self.tokens@[j]@);
        }
        let first = match self.expect_next(msg) {
            Result::Ok(t) => t,
            Result::Err(e) => {
                return Err(e);
            },
        };
        match first {
            Token::IntLit(i) => Ok(Expression::Literal(Value::Int(i))),
            Token::StrLit(s) => Ok(Expression::Literal(Value::Str(s))),
            Token::Ident(w) => {
                proof {
                    reveal_strlit("true");
                    reveal_strlit("false");
                    reveal_strlit("nil");
                    assert("true"@.len() == 4);
                    assert("nil"@.len() == 3);
                    assert("true"@ != "false"@);
                    assert("true"@ != "nil"@);
                    assert("false"@ != "nil"@);
                }
                if crate::runtime::str_equal(&w, &"true".to_owned()) {
                    return Ok(Expression::Literal(Value::Bool(true)));
                }
                if crate::runtime::str_equal(&w, &"false".to_owned()) {
                    return Ok(Expression::Literal(Value::Bool(false)));
                }
                if crate::runtime::str_equal(&w, &"nil".to_owned()) {
                    return Ok(Expression::Literal(Value::Nil));
                }
                let mut segs: Vec<PathSeg> = Vec::new();
                proof {
                    assert(seg_views(segs@) =~= Seq::<SegV>::empty());
                }
                while self.peek_is_segment()
                    invariant
                        self.pos <= self.tokens@.len(),
                        self.tokens == old(self).tokens,
                        self.pos >= old(self).pos + 1,
                        self.pos == old(self).pos + 1 ==> segs@.len() == 0,
                        old(self).pos < old(self).tokens@.len(),
                        old(self).tokens@[old(self).pos as int]@ is Ident,
                        tv[old(self).pos as int]->Ident_0 != "true"@,
                        tv[old(self).pos as int]->Ident_0 != "false"@,
                        tv[old(self).pos as int]->Ident_0 != "nil"@,
                        tv == toks_v(old(self).tokens@),
                        tv.len() == self.tokens@.len(),
                        forall|j: int| 0 <= j < tv.len() ==> tv[j] == #[trigger] self.tokens@[
                        j]@,
                        match spec_parse_segs(tv, self.pos as int) {
                            Option::Some(pr) => spec_parse_segs(tv, old(self).pos + 1) == Some((
                            seg_views(segs@) + pr.0, pr.1)),
                            Option::None => spec_parse_segs(tv, old(self).pos + 1) is None,
                        },
                    decreases self.tokens@.len() - self.pos,
                {
                    let ghost q = self.pos as int;
                    let ghost segs0 = seg_views(segs@);
                    match self.take_next() {
                        Option::Some(Token::Dot) => {
                            proof {
                                assert(tv[q] is Dot);
                            }
                            let key = match self.expect_identifier("a key must follow \".\"") {
                                Result::Ok(k) => k,
                                Result::Err(e) => {
                                    proof {
                                        assert(spec_parse_segs(tv, q) is None);
                                    }
                                    return Err(e);
                                },
                            };
                            segs.push(PathSeg::Key(key));
                            proof {
                                assert(seg_views(segs@) =~= segs0.push(SegV::Key(key@)));
                                assert forall|pr: (Seq<SegV>, int)|
                                    spec_parse_segs(tv, q + 2) == Some::<(Seq<SegV>,
                                int)>(pr) implies (segs0 + (seq![SegV::Key(tv[q + 1]->Ident_0)]
                                    + pr.0)) =~= (seg_views(segs@) + pr.0) by {}
                            }
                        },
                        _ => {
                            proof {
                                assert(tv[q] is LBracket);
                            }
                            let inner = match self.expect_next(
                            "an offset or key must follow \"[\"") {
                                Result::Ok(t) => t,
                                Result::Err(e) => {
                                    proof {
                                        assert(spec_parse_segs(tv, q) is None);
                                    }
                                    return Err(e);
                                },
                            };
                            let ghost newseg: SegV;
                            match inner {
                                Token::IntLit(i) => {
                                    proof {
                                        newseg = SegV::Index(i as int);
                                    }
                                    segs.push(PathSeg::Index(i));
                                },
                                Token::StrLit(s) => {
                                    proof {
                                        newseg = SegV::Key(s@);
                                    }
                                    segs.push(PathSeg::Key(s));
                                },
                                _ => {
                                    proof {
                                        assert(spec_parse_segs(tv, q) is None);
                                    }
                                    return Err(Error::parse(String::from_str(
                                    "an offset or key must follow \"[\"")));
                                },
                            }
                            proof {
                                assert(seg_views(segs@) =~= segs0.push(newseg));
                            }
                            match self.expect_next("\"]\" expected.") {
                                Result::Ok(Token::RBracket) => {
                                    proof {
                                        assert(tv[q + 2] is RBracket);
                                        assert forall|pr: (Seq<SegV>, int)|
                                            spec_parse_segs(tv, q + 3) == Some::<(Seq<SegV>,
                                        int)>(pr) implies (segs0 + (seq![newseg] + pr.0)) =~= (
                                        seg_views(segs@) + pr.0) by {}
                                    }
                                },
                                Result::Ok(_) => {
                                    proof {
                                        assert(spec_parse_segs(tv, q) is None);
                                    }
                                    return Err(Error::parse(String::from_str("\"]\" expected.")));
                                },
                                Result::Err(e) => {
                                    proof {
                                        assert(spec_parse_segs(tv, q) is None);
                                    }
                                    return Err(e);
                                },
                            }
                        },
                    }
                }
                proof {
                    assert(spec_parse_segs(tv, self.pos as int) == Some((Seq::<SegV>::empty(),
                    self.pos as int)));
                    assert(seg_views(segs@) + Seq::<SegV>::empty() =~= seg_views(segs@));
                }
                Ok(Expression::Path(w, segs))
            },
            _ => Err(Error::parse(msg.to_owned())),
        }
    }

    /// Parse a filter-chain expression: an entry expression, then `| name`
    /// or `| name: args` for each filter, each name resolved against the
    /// language's filter registry — an unknown filter name is a parse
    /// error.
    pub fn expect_filter_chain(&mut self, options: &Language, msg: &str) -> (r: Result<
        FilterChain, Error>)
        ensures
            final(self).tokens == old(self).tokens,
            old(self).pos <= old(self).tokens@.len() ==> final(self).pos <= old(
            self).tokens@.len(),
            r is Err ==> r->Err_0.kind == ErrorKind::Parse,
            match spec_parse_chain(toks_v(old(self).tokens@), old(self).pos as int,
            options.filters.entries@) {
                Option::Some(pr) => r is Ok && r->Ok_0@ == pr.0 && final(self).pos == pr.1,
                Option::None => r is Err,
            },
    {
        let ghost tv = toks_v(self.tokens@);
        let ghost freg = options.filters.entries@;
        proof {
            assert(forall|j: int| 0 <= j < tv.len() ==> tv[j] == #[trigger] self.tokens@[j]@);
        }
        let entry = match self.parse_expression(msg) {
            Result::Ok(e) => e,
            Result::Err(e) => {
                return Err(e);
            },
        };
        proof {
            assert(self.pos <= self.tokens@.len());
        }
        let mut filters: Vec<FilterCall> = Vec::new();
        let ghost entry_end = self.pos;
        proof {
            assert(fc_views(filters@) =~= Seq::<FilterCallV>::empty());
            assert forall|pr: (Seq<FilterCallV>, int)| spec_parse_filters_rest(tv,
            entry_end as int, freg) == Some::<(Seq<FilterCallV>, int)>(pr) implies (fc_views(
            filters@) + pr.0) =~= pr.0 by {}
        }
        while self.peek_is_pipe()
            invariant
                self.pos <= self.tokens@.len(),
                self.tokens == old(self).tokens,
                self.pos >= entry_end,
                tv == toks_v(old(self).tokens@),
                tv.len() == self.tokens@.len(),
                forall|j: int| 0 <= j < tv.len() ==> tv[j] == #[trigger] self.tokens@[j]@,
                freg == options.filters.entries@,
                spec_parse_expression(tv, old(self).pos as int) == Some((entry@,
                entry_end as int)),
                match spec_parse_filters_rest(tv, self.pos as int, freg) {
                    Option::Some(pr) => spec_parse_filters_rest(tv, entry_end as int, freg)
                        == Some((fc_views(filters@) + pr.0, pr.1)),
                    Option::None => spec_parse_filters_rest(tv, entry_end as int, freg) is None,
                },
            decreases self.tokens@.len() - self.pos,
        {
            let ghost pipe_pos = self.pos;
            let ghost filters0 = fc_views(filters@);
            self.take_next();
            let name = match self.expect_identifier("a filter name must follow \"|\"") {
                Result::Ok(n) => n,
                Result::Err(e) => {
                    proof {
                        assert(spec_parse_filters_rest(tv, pipe_pos as int, freg) is None);
                        assert(spec_parse_chain(tv, old(self).pos as int, freg) is None);
                    }
                    return Err(e);
                },
            };
            let plugin = match options.filters.lookup(&name) {
                Option::Some(p) => p,
                Option::None => {
                    proof {
                        assert(spec_parse_filters_rest(tv, pipe_pos as int, freg) is None);
                        assert(spec_parse_chain(tv, old(self).pos as int, freg) is None);
                    }
                    let mut m = String::from_str("Unknown filter: ");
                    m.append(name.as_str());
                    return Err(Error::parse(m));
                },
            };
            let mut args: Vec<Expression> = Vec::new();
            if self.peek_is_colon() {
                self.take_next();
                let first = match self.parse_expression("an argument must follow \":\"") {
                    Result::Ok(e) => e,
                    Result::Err(e) => {
                        proof {
                            assert(spec_parse_expression(tv, pipe_pos + 3) is None);
                            assert(spec_parse_filters_rest(tv, pipe_pos as int, freg) is None);
                            assert(spec_parse_chain(tv, old(self).pos as int, freg) is None);
                        }
                        return Err(e);
                    },
                };
                let ghost args_start = self.pos;
                args.push(first);
                proof {
                    assert(advanced(tv.len() as int, pipe_pos as int, args_start as int)
                    == args_start as int);
                    assert(expr_views(args@).drop_first() =~= Seq::<ExprV>::empty());
                    assert forall|pr: (Seq<ExprV>, int)| spec_parse_args_rest(tv,
                    args_start as int) == Some::<(Seq<ExprV>, int)>(pr) implies (expr_views(
                    args@).drop_first() + pr.0) =~= pr.0 by {}
                }
                while self.peek_is_comma()
                    invariant
                        self.pos <= self.tokens@.len(),
                        self.tokens == old(self).tokens,
                        self.pos > pipe_pos,
                        tv == toks_v(old(self).tokens@),
                        tv.len() == self.tokens@.len(),
                        forall|j: int| 0 <= j < tv.len() ==> tv[j] == #[trigger] self.tokens@[
                        j]@,
                        freg == options.filters.entries@,
                        spec_parse_expression(tv, old(self).pos as int) == Some((entry@,
                        entry_end as int)),
                        entry_end <= pipe_pos < tv.len(),
                        tv[pipe_pos as int] is Pipe,
                        pipe_pos + 1 < tv.len(),
                        tv[pipe_pos + 1] is Ident,
                        find_plugin(freg, tv[pipe_pos + 1]->Ident_0) == Some(plugin),
                        pipe_pos + 2 < tv.len(),
                        tv[pipe_pos + 2] is Colon,
                        pipe_pos + 3 <= args_start <= tv.len(),
                        args@.len() >= 1,
                        spec_parse_expression(tv, pipe_pos + 3) == Some((args@[0]@,
                        args_start as int)),
                        match spec_parse_filters_rest(tv, pipe_pos as int, freg) {
                            Option::Some(pr) => spec_parse_filters_rest(tv, entry_end as int,
                            freg) == Some((filters0 + pr.0, pr.1)),
                            Option::None => spec_parse_filters_rest(tv, entry_end as int,
                            freg) is None,
                        },
                        filters0 == fc_views(filters@),
                        match spec_parse_args_rest(tv, self.pos as int) {
                            Option::Some(pr) => spec_parse_args_rest(tv, args_start as int)
                                == Some((expr_views(args@).drop_first() + pr.0, pr.1)),
                            Option::None => spec_parse_args_rest(tv,
                            args_start as int) is None,
                        },
                    decreases self.tokens@.len() - self.pos,
                {
                    let ghost q2 = self.pos;
                    let ghost args_before = args@;
                    self.take_next();
                    let next = match self.parse_expression("an argument must follow \",\"") {
                        Result::Ok(e) => e,
                        Result::Err(e) => {
                            proof {
                                assert(spec_parse_args_rest(tv, q2 as int) is None);
                                assert(spec_parse_args_rest(tv, args_start as int) is None);
                                assert(spec_parse_filters_rest(tv, pipe_pos as int,
                                freg) is None);
                                assert(spec_parse_chain(tv, old(self).pos as int,
                                freg) is None);
                            }
                            return Err(e);
                        },
                    };
                    args.push(next);
                    proof {
                        assert(advanced(tv.len() as int, q2 as int, self.pos as int)
                        == self.pos as int);
                        assert(expr_views(args@).drop_first() =~= expr_views(
                        args_before).drop_first().push(next@));
                        assert forall|pr: (Seq<ExprV>, int)| spec_parse_args_rest(tv,
                        self.pos as int) == Some::<(Seq<ExprV>, int)>(pr) implies (expr_views(
                        args_before).drop_first() + (seq![next@] + pr.0)) =~= (expr_views(
                        args@).drop_first() + pr.0) by {}
                        assert(args@[0]@ == args_before[0]@);
                    }
                }
            }
            let ghost argsv = expr_views(args@);
            let ghost args_end = self.pos;
            filters.push(FilterCall { filter: plugin, args });
            proof {
                assert(fc_views(filters@) =~= filters0.push(FilterCallV {
                    filter: plugin,
                    args: argsv,
                }));
                if pipe_pos + 2 < tv.len() && tv[pipe_pos + 2] is Colon {
                    assert((seq![argsv[0]] + argsv.drop_first()) =~= argsv);
                } else {
                    assert(argsv =~= Seq::<ExprV>::empty());
                }
                assert(advanced(tv.len() as int, pipe_pos as int, args_end as int)
                == args_end as int);
                assert forall|pr: (Seq<FilterCallV>, int)| spec_parse_filters_rest(tv,
                args_end as int, freg) == Some::<(Seq<FilterCallV>, int)>(pr) implies (filters0
                    + (seq![FilterCallV { filter: plugin, args: argsv }] + pr.0)) =~= (fc_views(
                filters@) + pr.0) by {}
            }
        }
        proof {
            assert(spec_parse_filters_rest(tv, self.pos as int, freg) == Some((
            Seq::<FilterCallV>::empty(), self.pos as int)));
            assert(fc_views(filters@) + Seq::<FilterCallV>::empty() =~= fc_views(filters@));
        }
        Ok(FilterChain::new(entry, filters))
    }
}

/// A copy of one token with the same shape.
fn token_duplicate(t: &Token) -> (r: Token)
    ensures
        r@ == t@,
{
    match t {
        Token::Ident(s) => Token::Ident(s.clone()),
        Token::StrLit(s) => Token::StrLit(s.clone()),
        Token::IntLit(i) => Token::IntLit(*i),
        Token::Pipe => Token::Pipe,
        Token::Colon => Token::Colon,
        Token::Comma => Token::Comma,
        Token::Dot => Token::Dot,
        Token::DotDot => Token::DotDot,
        Token::LBracket => Token::LBracket,
        Token::RBracket => Token::RBracket,
        Token::LParen => Token::LParen,
        Token::RParen => Token::RParen,
        Token::AssignOp => Token::AssignOp,
        Token::Comparison(op) => Token::Comparison(*op),
    }
}

/// Turn one tag element into a renderable, consulting the language
/// registry: blocks parse their body from the elements after `pos` and
/// hand back the position after their closing tag. A name registered
/// neither as a tag nor as a block never yields a renderable — it always
/// yields a parse error.
pub fn parse_tag_element(name: &String, args: Vec<Token>, elements: &Vec<SourceElement>,
    pos: usize, options: &Language) -> (r: Result<(Renderable, usize), Error>)
    requires
        pos <= elements@.len(),
    ensures
        r is Ok ==> pos <= r->Ok_0.1 <= elements@.len(),
        r is Err ==> r->Err_0.kind == ErrorKind::Parse,
        find_plugin(options.tags.entries@, name@) is None && find_plugin(
        options.blocks.entries@, name@) is None ==> r is Err,
        find_plugin(options.blocks.entries@, name@) is None && find_plugin(
        options.tags.entries@, name@) == Some(TagPlugin::Break(BreakTag)) && args@.len() == 0
            ==> r is Ok && r->Ok_0.0 == Renderable::Interrupt(InterruptKind::Break)
            && r->Ok_0.1 == pos,
        find_plugin(options.blocks.entries@, name@) is None && find_plugin(
        options.tags.entries@, name@) == Some(TagPlugin::Continue(ContinueTag)) && args@.len()
            == 0 ==> r is Ok && r->Ok_0.0 == Renderable::Interrupt(InterruptKind::Continue)
            && r->Ok_0.1 == pos,
        find_plugin(options.blocks.entries@, name@) is None && find_plugin(
        options.tags.entries@, name@) == Some(TagPlugin::Assign(AssignTag)) && args@.len() == 3
            && args@[0]@ is Ident && args@[1]@ is AssignOp && args@[2]@ is IntLit ==> r is Ok
            && r->Ok_0.1 == pos && ({
            let a = r->Ok_0.0->Assign_0;
            &&& r->Ok_0.0 is Assign
            &&& a.dst@ == args@[0]@->Ident_0
            &&& a.src.entry is Literal
            &&& val_of(a.src.entry->Literal_0) == Val::Int(args@[2]@->IntLit_0)
            &&& a.src.filters@.len() == 0
        }),
        forall|k: int|
            (find_plugin(options.blocks.entries@, name@) == Some(BlockPlugin::IfChanged(
            IfChangedBlock)) && args@.len() == 0 && pos <= k < elements@.len() && (forall|i: int|
                pos <= i < k ==> #[trigger] elements@[i] is Raw) && (#[trigger] elements@[
            k]) is TagEl && elements@[k]->TagEl_name@ == "endifchanged"@) ==> r is Ok
                && r->Ok_0.1 == k + 1 && r->Ok_0.0 is IfChanged && ({
                let body = r->Ok_0.0->IfChanged_0.body.elements@;
                &&& body.len() == k - pos
                &&& forall|i: int| 0 <= i < body.len() ==> (#[trigger] body[i]) is Text
                    && body[i]->Text_0@ == elements@[pos + i]->Raw_0@
            }),
        match spec_parse_tag_element_v(name@, toks_v(args@), elems_v(elements@), pos as int,
        *options) {
            Option::Some(pr) => r is Ok && node_v(r->Ok_0.0) == pr.0 && r->Ok_0.1 == pr.1,
            Option::None => r is Err,
        },
    decreases elements@.len() - pos, 2nat,
{
    match options.blocks.lookup(name) {
        Option::Some(BlockPlugin::IfChanged(b)) => b.parse(TagTokenIter::new(args), elements,
        pos, options),
        Option::Some(BlockPlugin::For(b)) => b.parse(TagTokenIter::new(args), elements, pos,
        options),
        Option::Some(BlockPlugin::If(b)) => b.parse(TagTokenIter::new(args), elements, pos,
        options),
        Option::None => {
            match options.tags.lookup(name) {
                Option::Some(TagPlugin::Assign(t)) => {
                    match t.parse(TagTokenIter::new(args), options) {
                        Result::Ok(node) => Ok((node, pos)),
                        Result::Err(e) => Err(e),
                    }
                },
                Option::Some(TagPlugin::Break(t)) => {
                    match t.parse(TagTokenIter::new(args), options) {
                        Result::Ok(node) => Ok((node, pos)),
                        Result::Err(e) => Err(e),
                    }
                },
                Option::Some(TagPlugin::Continue(t)) => {
                    match t.parse(TagTokenIter::new(args), options) {
                        Result::Ok(node) => Ok((node, pos)),
                        Result::Err(e) => Err(e),
                    }
                },
                Option::None => {
                    let mut m = String::from_str("Unknown tag: ");
                    m.append(name.as_str());
                    Err(Error::parse(m))
                },
            }
        },
    }
}

/// Parse elements from `start` into renderables until the closing tag
/// named `end_name` (or, with none expected, the end of the stream),
/// consulting the language registry for every tag. The position handed
/// back is just after the closing tag. A missing closing tag is a parse
/// error.
#[verifier::rlimit(80)]
pub fn parse_until(elements: &Vec<SourceElement>, start: usize, end_name: Option<&String>,
    options: &Language) -> (r: Result<(Vec<Renderable>, usize), Error>)
    requires
        start <= elements@.len(),
    ensures
        r is Ok ==> start <= r->Ok_0.1 <= elements@.len(),
        r is Err ==> r->Err_0.kind == ErrorKind::Parse,
        start >= elements@.len() && end_name is None ==> r is Ok && r->Ok_0.0@.len() == 0,
        (end_name is None && (forall|i: int| start <= i < elements@.len()
            ==> #[trigger] elements@[i] is Raw)) ==> {
            &&& r is Ok
            &&& r->Ok_0.0@.len() == elements@.len() - start
            &&& forall|i: int| 0 <= i < r->Ok_0.0@.len() ==> (#[trigger] r->Ok_0.0@[i]) is Text
                && r->Ok_0.0@[i]->Text_0@ == elements@[start + i]->Raw_0@
        },
        forall|k: int|
            (end_name is Some && start <= k < elements@.len() && (forall|i: int|
                start <= i < k ==> #[trigger] elements@[i] is Raw) && (#[trigger] elements@[
            k]) is TagEl && elements@[k]->TagEl_name@ == end_name->0@) ==> r is Ok
                && r->Ok_0.1 == k + 1 && r->Ok_0.0@.len() == k - start && (forall|i: int|
                0 <= i < k - start ==> (#[trigger] r->Ok_0.0@[i]) is Text
                && r->Ok_0.0@[i]->Text_0@ == elements@[start + i]->Raw_0@),
        match spec_parse_until_v(elems_v(elements@), start as int, (match end_name {
            Option::Some(s) => Option::Some(s@),
            Option::None => Option::None,
        }), *options) {
            Option::Some(pr) => r is Ok && nodes_v(r->Ok_0.0@) == pr.0 && r->Ok_0.1 == pr.1,
            Option::None => r is Err,
        },
    decreases elements@.len() - start, 0nat,
{
    let ghost all_raw = end_name is None && (forall|i: int| start <= i < elements@.len()
        ==> #[trigger] elements@[i] is Raw);
    let ghost ev = elems_v(elements@);
    let ghost endv: Option<Seq<char>> = match end_name {
        Option::Some(s) => Option::Some(s@),
        Option::None => Option::None,
    };
    let mut nodes: Vec<Renderable> = Vec::new();
    proof {
        assert(forall|j: int| 0 <= j < ev.len() ==> ev[j] == #[trigger] elements@[j]@);
        assert(nodes_v(nodes@) =~= Seq::<NodeV>::empty());
        assert forall|pr: (Seq<NodeV>, int)| spec_parse_until_v(ev, start as int, endv,
        *options) == Some::<(Seq<NodeV>, int)>(pr) implies (nodes_v(nodes@) + pr.0) =~= pr.0
        by {}
    }
    let mut cur = start;
    let n = elements.len();
    while cur < n
        invariant
            start <= cur,
            n == elements@.len(),
            all_raw == (end_name is None && (forall|i: int| start <= i < elements@.len()
                ==> #[trigger] elements@[i] is Raw)),
            all_raw ==> cur <= n && nodes@.len() == cur - start && (forall|i: int|
                0 <= i < nodes@.len() ==> (#[trigger] nodes@[i]) is Text && nodes@[i]->Text_0@
                == elements@[start + i]->Raw_0@),
            forall|k: int|
                (end_name is Some && start <= k < n && (forall|i: int| start <= i < k
                    ==> #[trigger] elements@[i] is Raw) && (#[trigger] elements@[k]) is TagEl
                    && elements@[k]->TagEl_name@ == end_name->0@) ==> cur <= k && nodes@.len()
                    == cur - start && (forall|i: int| 0 <= i < nodes@.len()
                    ==> (#[trigger] nodes@[i]) is Text && nodes@[i]->Text_0@ == elements@[
                start + i]->Raw_0@),
            ev == elems_v(elements@),
            ev.len() == n,
            forall|j: int| 0 <= j < ev.len() ==> ev[j] == #[trigger] elements@[j]@,
            endv == (match end_name {
                Option::Some(s) => Option::Some(s@),
                Option::None => Option::None::<Seq<char>>,
            }),
            match spec_parse_until_v(ev, cur as int, endv, *options) {
                Option::Some(pr) => spec_parse_until_v(ev, start as int, endv, *options)
                    == Some((nodes_v(nodes@) + pr.0, pr.1)),
                Option::None => spec_parse_until_v(ev, start as int, endv,
                *options) is None,
            },
        decreases n - cur,
    {
        let ghost nodes0 = nodes@;
        match &elements[cur] {
            SourceElement::Raw(s) => {
                proof {
                    assert(ev[cur as int] == ElemV::Raw(s@));
                }
                nodes.push(Renderable::Text(s.clone()));
                proof {
                    assert(nodes@.drop_last() =~= nodes0);
                    assert(nodes_v(nodes@) == nodes_v(nodes@.drop_last()).push(node_v(
                    nodes@.last())));
                    assert(nodes_v(nodes@) =~= nodes_v(nodes0).push(NodeV::Text(s@)));
                    assert forall|pr: (Seq<NodeV>, int)| spec_parse_until_v(ev, cur + 1, endv,
                    *options) == Some::<(Seq<NodeV>, int)>(pr) implies (nodes_v(nodes0) + (seq![
                    NodeV::Text(s@)] + pr.0)) =~= (nodes_v(nodes@) + pr.0) by {}
                }
                cur = cur + 1;
            },
            SourceElement::Output(toks) => {
                proof {
                    assert(ev[cur as int] == ElemV::Output(toks_v(toks@)));
                }
                let mut it = TagTokenIter::new(duplicate_tokens(toks));
                proof {
                    assert(toks_v(it.tokens@) =~= toks_v(toks@));
                }
                let chain = match it.expect_filter_chain(options, "an expression was expected") {
                    Result::Ok(c) => c,
                    Result::Err(e) => {
                        proof {
                            assert(spec_parse_until_v(ev, cur as int, endv, *options) is None);
                        }
                        return Err(e);
                    },
                };
                match it.expect_nothing() {
                    Result::Ok(()) => {},
                    Result::Err(e) => {
                        proof {
                            assert(spec_parse_until_v(ev, cur as int, endv, *options) is None);
                        }
                        return Err(e);
                    },
                }
                nodes.push(Renderable::Output(chain));
                proof {
                    assert(nodes@.drop_last() =~= nodes0);
                    assert(nodes_v(nodes@) == nodes_v(nodes@.drop_last()).push(node_v(
                    nodes@.last())));
                    assert(nodes_v(nodes@) =~= nodes_v(nodes0).push(NodeV::Output(chain@)));
                    assert forall|pr: (Seq<NodeV>, int)| spec_parse_until_v(ev, cur + 1, endv,
                    *options) == Some::<(Seq<NodeV>, int)>(pr) implies (nodes_v(nodes0) + (seq![
                    NodeV::Output(chain@)] + pr.0)) =~= (nodes_v(nodes@) + pr.0) by {}
                }
                cur = cur + 1;
            },
            SourceElement::TagEl { name, args } => {
                proof {
                    assert(ev[cur as int] == (ElemV::TagEl { name: name@, args: toks_v(
                    args@) }));
                }
                match end_name {
                    Option::Some(end) => {
                        if crate::runtime::str_equal(name, end) {
                            proof {
                                assert(spec_parse_until_v(ev, cur as int, endv, *options)
                                == Some((Seq::<NodeV>::empty(), cur + 1)));
                                assert(nodes_v(nodes@) + Seq::<NodeV>::empty() =~= nodes_v(
                                nodes@));
                            }
                            return Ok((nodes, cur + 1));
                        }
                    },
                    Option::None => {},
                }
                let dup = duplicate_tokens(args);
                proof {
                    assert(toks_v(dup@) =~= toks_v(args@));
                }
                match parse_tag_element(name, dup, elements, cur + 1, options) {
                    Result::Ok((node, newpos)) => {
                        proof {
                            assert(newpos >= cur + 1);
                            assert(advanced(ev.len() as int, cur as int, newpos as int)
                            == newpos as int);
                        }
                        nodes.push(node);
                        proof {
                            assert(nodes@.drop_last() =~= nodes0);
                            assert(nodes_v(nodes@) == nodes_v(nodes@.drop_last()).push(node_v(
                            nodes@.last())));
                            assert(nodes_v(nodes@) =~= nodes_v(nodes0).push(node_v(node)));
                            assert forall|pr: (Seq<NodeV>, int)| spec_parse_until_v(ev,
                            newpos as int, endv, *options) == Some::<(Seq<NodeV>,
                            int)>(pr) implies (nodes_v(nodes0) + (seq![node_v(node)] + pr.0))
                            =~= (nodes_v(nodes@) + pr.0) by {}
                        }
                        cur = newpos;
                    },
                    Result::Err(e) => {
                        proof {
                            assert(spec_parse_until_v(ev, cur as int, endv, *options) is None);
                        }
                        return Err(e);
                    },
                }
            },
        }
    }
    match end_name {
        Option::Some(end) => {
            let mut m = String::from_str("the closing tag \"");
            m.append(end.as_str());
            m.append("\" is missing");
            Err(Error::parse(m))
        },
        Option::None => Ok((nodes, n)),
    }
}

/// A copy of a token run, each token with the same shape.
fn duplicate_tokens(toks: &Vec<Token>) -> (r: Vec<Token>)
    ensures
        r@.len() == toks@.len(),
        forall|i: int| 0 <= i < toks@.len() ==> r@[i]@ == #[trigger] toks@[i]@,
{
    let mut r: Vec<Token> = Vec::new();
    let mut i: usize = 0;
    let n = toks.len();
    while i < n
        invariant
            i <= n,
            n == toks@.len(),
            r@.len() == i,
            forall|j: int| 0 <= j < i ==> r@[j]@ == #[trigger] toks@[j]@,
        decreases n - i,
    {
        r.push(token_duplicate(&toks[i]));
        i = i + 1;
    }
    r
}

/// Compile template text against a language registry: the lexed elements,
/// parsed to the end of the stream. The compiled tree is exactly what the
/// spec-level lexer and parser denote; no partial tree ever comes back —
/// the first offending construct aborts compilation.
pub fn parse(text: &str, options: &Language) -> (r: Result<Vec<Renderable>, Error>)
    ensures
        r is Err ==> r->Err_0.kind == ErrorKind::Parse,
        text@.len() == 0 ==> r is Ok && r->Ok_0@.len() == 0,
        (text@.len() > 0 && (forall|i: int| 0 <= i < text@.len() ==> text@[i] != '{')) ==> {
            &&& r is Ok
            &&& r->Ok_0@.len() == 1
            &&& r->Ok_0@[0] is Text
            &&& r->Ok_0@[0]->Text_0@ == text@
        },
        match spec_lex(text@, 0) {
            Option::Some(es) => match spec_parse_until_v(es, 0, None, *options) {
                Option::Some(pr) => r is Ok && nodes_v(r->Ok_0@) == pr.0,
                Option::None => r is Err,
            },
            Option::None => r is Err,
        },
{
    let elements = match tokenize(text) {
        Result::Ok(e) => e,
        Result::Err(e) => {
            return Err(e);
        },
    };
    match parse_until(&elements, 0, None, options) {
        Result::Ok((nodes, _)) => Ok(nodes),
        Result::Err(e) => Err(e),
    }
}

} // verus!
