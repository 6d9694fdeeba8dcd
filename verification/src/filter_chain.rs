//! A `Value` expression with its filter pipeline: an entry expression whose
//! result is threaded, in declaration order, through each filter. A failing
//! filter aborts the chain at once, wrapping its error with the filter's
//! source form and the display form of the value that was fed into it.
//!
//! A chain also renders back to source-equivalent surface syntax,
//! `entry | filter1 | filter2`, used in diagnostics.

use vstd::prelude::*;
use crate::error::{Error, ErrorKind, trace_views};
use crate::expression::{Expression, ExprV, PathSeg, SegV, ValueCow, eval_expr, expr_views, seg_views};
use crate::filters::{FilterPlugin, apply_filter, filter_name, filter_ok, filter_out};
use crate::runtime::Runtime;
use crate::runtime::RtState;
use crate::strutil::{dec_str_int, push_dec_i64, push_char};
use crate::value::{Val, Value, val_of, view_seq, render_of, lemma_view_seq};

verus! {

use vstd::string::StringExecFns;

/// One compiled filter invocation: the filter and its argument expressions.
#[derive(Debug)]
pub struct FilterCall {
    pub filter: FilterPlugin,
    pub args: Vec<Expression>,
}

/// A `Value` expression: an entry expression and its ordered filters.
#[derive(Debug)]
pub struct FilterChain {
    pub entry: Expression,
    pub filters: Vec<FilterCall>,
}

/// The mathematical shape of one filter invocation.
#[verifier::ext_equal]
pub struct FilterCallV {
    pub filter: FilterPlugin,
    pub args: Seq<ExprV>,
}

impl View for FilterCall {
    type V = FilterCallV;

    open spec fn view(&self) -> FilterCallV {
        FilterCallV { filter: self.filter, args: expr_views(self.args@) }
    }
}

/// The views of a filter pipeline.
pub open spec fn fc_views(s: Seq<FilterCall>) -> Seq<FilterCallV> {
    Seq::new(s.len(), |i: int| s[i]@)
}

/// The mathematical shape of a chain.
#[verifier::ext_equal]
pub struct ChainV {
    pub entry: ExprV,
    pub filters: Seq<FilterCallV>,
}

impl View for FilterChain {
    type V = ChainV;

    open spec fn view(&self) -> ChainV {
        ChainV { entry: self.entry@, filters: fc_views(self.filters@) }
    }
}

/// The source form of a literal: strings quoted, nil written out, anything
/// else as its display form.
pub open spec fn lit_source(v: Val) -> Seq<char> {
    match v {
        Val::Str(s) => seq!['"'] + s + seq!['"'],
        Val::Nil => "nil"@,
        _ => render_of(v),
    }
}

/// The source form of one path segment, in canonical shape: `.key` for a
/// key, `[offset]` for an offset.
pub open spec fn seg_source(s: SegV) -> Seq<char> {
    match s {
        SegV::Key(k) => seq!['.'] + k,
        SegV::Index(i) => seq!['['] + dec_str_int(i) + seq![']'],
    }
}

/// The source form of a run of path segments.
pub open spec fn segs_source(s: Seq<SegV>) -> Seq<char>
    decreases s.len(),
{
    if s.len() == 0 {
        Seq::empty()
    } else {
        segs_source(s.drop_last()) + seg_source(s.last())
    }
}

/// The source form of an expression.
pub open spec fn expr_source(e: Expression) -> Seq<char> {
    match e {
        Expression::Literal(v) => lit_source(val_of(v)),
        Expression::Path(root, segs) => root@ + segs_source(seg_views(segs@)),
    }
}

/// The source forms of filter arguments, comma-separated.
pub open spec fn args_source(s: Seq<Expression>) -> Seq<char>
    decreases s.len(),
{
    if s.len() == 0 {
        Seq::empty()
    } else if s.len() == 1 {
        expr_source(s[0])
    } else {
        args_source(s.drop_last()) + ", "@ + expr_source(s.last())
    }
}

/// The source form of one filter invocation: its name, then `: args` when
/// it has arguments.
pub open spec fn filter_source(f: FilterCall) -> Seq<char> {
    if f.args@.len() == 0 {
        filter_name(f.filter)
    } else {
        filter_name(f.filter) + ": "@ + args_source(f.args@)
    }
}

/// The source forms of a filter pipeline, each filter after a ` | `.
pub open spec fn filters_source(s: Seq<FilterCall>) -> Seq<char>
    decreases s.len(),
{
    if s.len() == 0 {
        Seq::empty()
    } else {
        filters_source(s.drop_last()) + " | "@ + filter_source(s.last())
    }
}

/// The source form of a whole chain: `entry | filter1 | filter2`.
pub open spec fn chain_source(fc: FilterChain) -> Seq<char> {
    expr_source(fc.entry) + filters_source(fc.filters@)
}

/// The values of a run of argument expressions in a state.
pub open spec fn eval_args(args: Seq<Expression>, st: RtState) -> Seq<Val> {
    Seq::new(args.len(), |i: int| eval_expr(args[i], st))
}

/// How a filter pipeline ends: the final value, or the index of the first
/// refusing filter and the value that was fed into it.
pub enum ChainRes {
    Good(Val),
    Fail { at: int, input: Val },
}

/// Thread `v` through the filters from `fs`, numbering them from `base`:
/// the first refusal wins, later filters never run.
pub open spec fn run_filters(v: Val, fs: Seq<FilterCall>, st: RtState, base: int) -> ChainRes
    decreases fs.len(),
{
    if fs.len() == 0 {
        ChainRes::Good(v)
    } else {
        let argv = eval_args(fs[0].args@, st);
        if !filter_ok(fs[0].filter, v, argv) {
            ChainRes::Fail { at: base, input: v }
        } else {
            run_filters(filter_out(fs[0].filter, v, argv), fs.drop_first(), st, base + 1)
        }
    }
}

/// How a whole chain ends in a state.
pub open spec fn chain_res(fc: FilterChain, st: RtState) -> ChainRes {
    run_filters(eval_expr(fc.entry, st), fc.filters@, st, 0)
}

/// Append the source form of an expression to `out`.
pub fn push_expr_source(e: &Expression, out: &mut String)
    ensures
        final(out)@ == old(out)@ + expr_source(*e),
{
    match e {
        Expression::Literal(v) => {
            match v {
                crate::value::Value::Str(s) => {
                    push_char(out, '"');
                    out.append(s.as_str());
                    push_char(out, '"');
                    assert(out@ =~= old(out)@ + expr_source(*e));
                },
                crate::value::Value::Nil => {
                    out.append("nil");
                },
                _ => {
                    proof {
                        crate::value::lemma_val_kind(*v);
                    }
                    v.render_to_string(out);
                },
            }
        },
        Expression::Path(root, segs) => {
            out.append(root.as_str());
            let ghost views = seg_views(segs@);
            let ghost start = out@;
            let mut i: usize = 0;
            let n = segs.len();
            proof {
                assert(views.take(0) =~= Seq::<SegV>::empty());
            }
            while i < n
                invariant
                    i <= n,
                    n == segs@.len(),
                    views == seg_views(segs@),
                    views.len() == n,
                    forall|j: int| 0 <= j < n ==> #[trigger] views[j] == segs@[j]@,
                    out@ == start + segs_source(views.take(i as int)),
                decreases n - i,
            {
                match &segs[i] {
                    PathSeg::Key(k) => {
                        push_char(out, '.');
                        out.append(k.as_str());
                    },
                    PathSeg::Index(x) => {
                        push_char(out, '[');
                        push_dec_i64(*x, out);
                        push_char(out, ']');
                    },
                }
                proof {
                    let t = views.take(i + 1);
                    assert(t.drop_last() =~= views.take(i as int));
                    assert(t.last() == views[i as int]);
                    assert(segs_source(t) == segs_source(t.drop_last()) + seg_source(t.last()));
                    assert(out@ =~= start + segs_source(views.take(i + 1)));
                }
                i = i + 1;
            }
            proof {
                assert(views.take(n as int) =~= views);
            }
        },
    }
}

/// Append the name a filter is written with to `out`.
fn push_filter_name(f: &FilterPlugin, out: &mut String)
    ensures
        final(out)@ == old(out)@ + filter_name(*f),
{
    match f {
        FilterPlugin::Size(_) => out.append("size"),
        FilterPlugin::Append(_) => out.append("append"),
    }
}

/// Append the source form of one filter invocation to `out`.
pub fn push_filter_source(f: &FilterCall, out: &mut String)
    ensures
        final(out)@ == old(out)@ + filter_source(*f),
{
    push_filter_name(&f.filter, out);
    if f.args.len() == 0 {
        return;
    }
    out.append(": ");
    let ghost start = out@;
    let mut i: usize = 0;
    let n = f.args.len();
    proof {
        assert(f.args@.take(0) =~= Seq::<Expression>::empty());
    }
    while i < n
        invariant
            i <= n,
            n == f.args@.len(),
            n > 0,
            out@ == start + args_source(f.args@.take(i as int)),
        decreases n - i,
    {
        if i > 0 {
            out.append(", ");
        }
        push_expr_source(&f.args[i], out);
        proof {
            let t = f.args@.take(i + 1);
            assert(t.drop_last() =~= f.args@.take(i as int));
            assert(t.last() == f.args@[i as int]);
            if i == 0 {
                assert(args_source(t) == expr_source(f.args@[0]));
            } else {
                assert(args_source(t) == args_source(t.drop_last()) + ", "@ + expr_source(
                t.last()));
            }
            assert(out@ =~= start + args_source(f.args@.take(i + 1)));
        }
        i = i + 1;
    }
    proof {
        assert(f.args@.take(n as int) =~= f.args@);
    }
}

impl FilterChain {
    /// Create a new expression from its entry and its filters.
    pub fn new(entry: Expression, filters: Vec<FilterCall>) -> (r: FilterChain)
        ensures
            r.entry == entry,
            r.filters == filters,
    {
        FilterChain { entry, filters }
    }

    /// The source-equivalent surface syntax of this chain.
    pub fn source_string(&self) -> (r: String)
        ensures
            r@ == chain_source(*self),
    {
        let mut out = String::new();
        push_expr_source(&self.entry, &mut out);
        let ghost start = out@;
        let mut i: usize = 0;
        let n = self.filters.len();
        proof {
            assert(self.filters@.take(0) =~= Seq::<FilterCall>::empty());
        }
        while i < n
            invariant
                i <= n,
                n == self.filters@.len(),
                out@ == start + filters_source(self.filters@.take(i as int)),
            decreases n - i,
        {
            out.append(" | ");
            push_filter_source(&self.filters[i], &mut out);
            proof {
                let t = self.filters@.take(i + 1);
                assert(t.drop_last() =~= self.filters@.take(i as int));
                assert(t.last() == self.filters@[i as int]);
                assert(filters_source(t) == filters_source(t.drop_last()) + " | "@
                + filter_source(t.last()));
                assert(out@ =~= start + filters_source(self.filters@.take(i + 1)));
            }
            i = i + 1;
        }
        proof {
            assert(self.filters@.take(n as int) =~= self.filters@);
        }
        out
    }

    /// Process the chain within the runtime's state: evaluate the entry
    /// (borrowed where possible — a bare variable reference copies
    /// nothing), then run each filter in declaration order. The first
    /// refusal aborts the chain, its error wrapped with the filter's source
    /// form and the display form of its input; a value that passed through
    /// at least one filter is always owned, since a filter is free to build
    /// new structures.
    pub fn evaluate<'s>(&'s self, runtime: &'s Runtime) -> (r: Result<ValueCow<'s>, Error>)
        ensures
            (r is Ok) == (chain_res(*self, runtime@) is Good),
            r is Ok ==> chain_res(*self, runtime@) == ChainRes::Good(r->Ok_0@),
            r is Ok && self.filters@.len() > 0 ==> r->Ok_0 is Owned,
            r is Ok && self.filters@.len() == 0 && self.entry is Literal ==> r->Ok_0 is Borrowed,
            r is Ok && self.filters@.len() == 0 && r->Ok_0 is Owned ==> r->Ok_0->Owned_0
                == Value::Nil,
            r is Err ==> {
                &&& chain_res(*self, runtime@) is Fail
                &&& r->Err_0.kind == ErrorKind::Evaluation
                &&& r->Err_0.msg@ == "Filter error"@
                &&& trace_views(r->Err_0.trace@) =~~= seq![
                    "filter: "@ + filter_source(self.filters@[chain_res(*self, runtime@)->at]),
                    "input: "@ + render_of(chain_res(*self, runtime@)->input),
                ]
            },
    {
        let ghost st = runtime@;
        let ghost fs = self.filters@;
        let ghost entry_v = eval_expr(self.entry, st);
        let mut cur: ValueCow<'s> = self.entry.evaluate(runtime);
        let mut i: usize = 0;
        let n = self.filters.len();
        proof {
            assert(fs.skip(0) =~= fs);
        }
        while i < n
            invariant
                i <= n,
                n == fs.len(),
                fs == self.filters@,
                st == runtime@,
                entry_v == eval_expr(self.entry, st),
                run_filters(entry_v, fs, st, 0) == run_filters(cur@, fs.skip(i as int), st,
                i as int),
                i > 0 ==> cur is Owned,
                i == 0 && self.entry is Literal ==> cur is Borrowed,
                i == 0 && cur is Owned ==> cur->Owned_0 == Value::Nil,
            decreases n - i,
        {
            let f = &self.filters[i];
            let ghost argv_spec = eval_args(f.args@, st);
            let mut argv: Vec<Value> = Vec::new();
            let mut j: usize = 0;
            let m = f.args.len();
            proof {
                lemma_view_seq(argv@);
                assert(view_seq(argv@) =~= argv_spec.take(0));
            }
            while j < m
                invariant
                    j <= m,
                    m == f.args@.len(),
                    st == runtime@,
                    argv_spec == eval_args(f.args@, st),
                    argv_spec.len() == m,
                    view_seq(argv@) =~= argv_spec.take(j as int),
                    argv@.len() == j,
                decreases m - j,
            {
                let ghost prev = argv@;
                let v = f.args[j].evaluate(runtime).into_owned();
                argv.push(v);
                proof {
                    assert(argv@.drop_last() =~= prev);
                    assert(view_seq(argv@) == view_seq(argv@.drop_last()).push(val_of(
                    argv@.last())));
                    assert(argv_spec.take(j + 1).drop_last() =~= argv_spec.take(j as int));
                    assert(view_seq(argv@) =~= argv_spec.take(j + 1));
                }
                j = j + 1;
            }
            proof {
                assert(argv_spec.take(m as int) =~= argv_spec);
                assert(view_seq(argv@) =~= argv_spec);
            }
            match apply_filter(&f.filter, cur.as_value(), &argv) {
                Result::Ok(v) => {
                    proof {
                        assert(fs.skip(i as int)[0] == fs[i as int]);
                        assert(fs.skip(i as int).drop_first() =~= fs.skip(i + 1));
                        assert(filter_ok(fs[i as int].filter, cur@, argv_spec));
                        assert(run_filters(cur@, fs.skip(i as int), st, i as int)
                        == run_filters(filter_out(fs[i as int].filter, cur@, argv_spec),
                        fs.skip(i + 1), st, i + 1));
                        assert(val_of(v) == filter_out(fs[i as int].filter, cur@, argv_spec));
                    }
                    cur = ValueCow::Owned(v);
                },
                Result::Err(_) => {
                    proof {
                        assert(fs.skip(i as int)[0] == fs[i as int]);
                        assert(!filter_ok(fs[i as int].filter, cur@, argv_spec));
                        assert(run_filters(cur@, fs.skip(i as int), st, i as int)
                        == (ChainRes::Fail { at: i as int, input: cur@ }));
                    }
                    let mut filter_line = String::from_str("filter: ");
                    push_filter_source(f, &mut filter_line);
                    let mut input_line = String::from_str("input: ");
                    cur.as_value().render_to_string(&mut input_line);
                    let err = Error::evaluation(String::from_str("Filter error"))
                        .with_trace_line(filter_line)
                        .with_trace_line(input_line);
                    proof {
                        assert(trace_views(err.trace@) =~~= seq![
                            "filter: "@ + filter_source(fs[i as int]),
                            "input: "@ + render_of(cur@),
                        ]);
                    }
                    return Err(err);
                },
            }
            i = i + 1;
        }
        proof {
            assert(fs.skip(n as int) =~= Seq::<FilterCall>::empty());
        }
        Ok(cur)
    }
}

} // verus!
