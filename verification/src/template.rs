//! The executable tree. `Renderable` is the capability every node has:
//! render into an output sink, reading and writing runtime state. `Template`
//! is the generic ordered-sequence executor, reused as the whole-document
//! root and as every block's body: it renders its children strictly in
//! order and stops — without clearing the signal — as soon as a child has
//! raised an interrupt.
//!
//! The meaning of every node is given by the spec interpreter `node_sem` /
//! `seq_sem` / `for_sem`, and each render function is proved to produce
//! exactly that outcome: the same text, the same final state, the same
//! verdict.

use vstd::prelude::*;
use crate::error::{Error, ErrorKind, trace_views};
use crate::expression::{Expression, ExprV, eval_expr};
use crate::filter_chain::{ChainV, FilterChain, ChainRes, chain_res, chain_source, filter_source};
use crate::runtime::{InterruptKind, Runtime, RtState};
use crate::value::{Val, Value, val_of, val_equiv, view_seq, render_of, lemma_view_seq};

verus! {

use vstd::string::StringExecFns;

/// An ordered sequence of executable nodes; the document root and every
/// block body.
#[derive(Debug)]
pub struct Template {
    pub elements: Vec<Renderable>,
}

/// The compiled `assign` tag: evaluate a chain, write the result into the
/// outermost scope.
#[derive(Debug)]
pub struct Assign {
    pub dst: String,
    pub src: FilterChain,
}

/// The compiled `ifchanged` block: a body and the register slot that
/// remembers the last text this occurrence produced.
#[derive(Debug)]
pub struct IfChanged {
    pub id: u64,
    pub body: Template,
}

/// Where a loop's items come from: a value expression or an inclusive
/// integer range.
#[derive(Debug)]
pub enum ForSource {
    Val(Expression),
    Range(Expression, Expression),
}

/// The compiled `for` block.
#[derive(Debug)]
pub struct ForLoop {
    pub var: String,
    pub source: ForSource,
    pub body: Template,
}

/// A comparison operator of an `if` condition.
#[derive(Debug, Clone, Copy, PartialEq, Eq)]
pub enum CompOp {
    Equals,
    NotEquals,
    Less,
    LessEq,
    Greater,
    GreaterEq,
}

/// The compiled `if` block: a condition, optionally comparing against a
/// right-hand side, and a body.
#[derive(Debug)]
pub struct Conditional {
    pub left: Expression,
    pub comp: Option<(CompOp, Expression)>,
    pub body: Template,
}

/// One executable node.
#[derive(Debug)]
pub enum Renderable {
    Text(String),
    Output(FilterChain),
    Assign(Assign),
    IfChanged(IfChanged),
    For(ForLoop),
    If(Conditional),
    Interrupt(InterruptKind),
}

/// The mathematical shape of a loop's source.
pub enum ForSourceV {
    Val(ExprV),
    Range(ExprV, ExprV),
}

impl View for ForSource {
    type V = ForSourceV;

    open spec fn view(&self) -> ForSourceV {
        match *self {
            ForSource::Val(ref e) => ForSourceV::Val(e@),
            ForSource::Range(ref lo, ref hi) => ForSourceV::Range(lo@, hi@),
        }
    }
}

/// The mathematical shape of one executable node.
pub enum NodeV {
    Text(Seq<char>),
    Output(ChainV),
    Assign { dst: Seq<char>, src: ChainV },
    IfChanged { id: int, body: Seq<NodeV> },
    For { var: Seq<char>, source: ForSourceV, body: Seq<NodeV> },
    If { left: ExprV, comp: Option<(CompOp, ExprV)>, body: Seq<NodeV> },
    Interrupt(InterruptKind),
}

/// The mathematical shape of one node.
pub open spec fn node_v(n: Renderable) -> NodeV
    decreases n,
{
    match n {
        Renderable::Text(s) => NodeV::Text(s@),
        Renderable::Output(fc) => NodeV::Output(fc@),
        Renderable::Assign(a) => NodeV::Assign { dst: a.dst@, src: a.src@ },
        Renderable::IfChanged(b) => NodeV::IfChanged {
            id: b.id as int,
            body: nodes_v(b.body.elements@),
        },
        Renderable::For(f) => NodeV::For {
            var: f.var@,
            source: f.source@,
            body: nodes_v(f.body.elements@),
        },
        Renderable::If(c) => NodeV::If {
            left: c.left@,
            comp: match c.comp {
                Option::None => None,
                Option::Some((op, ref e)) => Some((op, e@)),
            },
            body: nodes_v(c.body.elements@),
        },
        Renderable::Interrupt(k) => NodeV::Interrupt(k),
    }
}

/// The shapes of a run of nodes, node by node.
pub open spec fn nodes_v(s: Seq<Renderable>) -> Seq<NodeV>
    decreases s,
{
    if s.len() == 0 {
        Seq::empty()
    } else {
        nodes_v(s.drop_last()).push(node_v(s.last()))
    }
}

impl View for Renderable {
    type V = NodeV;

    open spec fn view(&self) -> NodeV {
        node_v(*self)
    }
}

pub broadcast proof fn lemma_nodes_v(s: Seq<Renderable>)
    ensures
        (#[trigger] nodes_v(s)).len() == s.len(),
        forall|i: int| 0 <= i < s.len() ==> nodes_v(s)[i] == node_v(#[trigger] s[i]),
    decreases s,
{
    if s.len() > 0 {
        lemma_nodes_v(s.drop_last());
        assert(nodes_v(s) == nodes_v(s.drop_last()).push(node_v(s.last())));
        assert forall|i: int| 0 <= i < s.len() implies nodes_v(s)[i] == node_v(
        #[trigger] s[i]) by {
            assert(nodes_v(s) == nodes_v(s.drop_last()).push(node_v(s.last())));
            if i < s.len() - 1 {
                assert(s.drop_last()[i] == s[i]);
                assert(nodes_v(s)[i] == nodes_v(s.drop_last())[i]);
            } else {
                assert(s.last() == s[i]);
            }
        }
    }
}

/// The outcome of rendering: the state afterwards, the text written, and
/// whether it succeeded. On failure the text already written stays — output
/// streams, it is never rolled back.
#[verifier::ext_equal]
pub struct Sem {
    pub st: RtState,
    pub out: Seq<char>,
    pub ok: bool,
}

/// The same outcome with text in front of it.
pub open spec fn sem_append(prefix: Seq<char>, s: Sem) -> Sem {
    Sem { st: s.st, out: prefix + s.out, ok: s.ok }
}

/// Liquid truthiness: nil and false are the only falsy values.
pub open spec fn truthy(v: Val) -> bool {
    !(v is Nil || v == Val::Bool(false))
}

/// One integer comparison.
pub open spec fn int_cmp(op: CompOp, x: int, y: int) -> bool {
    match op {
        CompOp::Equals => x == y,
        CompOp::NotEquals => x != y,
        CompOp::Less => x < y,
        CompOp::LessEq => x <= y,
        CompOp::Greater => x > y,
        CompOp::GreaterEq => x >= y,
    }
}

/// What an `if` condition decides: equality on any values, ordering only
/// between integers — anything else is an evaluation error (nothing to
/// decide).
pub open spec fn cond_sem(c: Conditional, st: RtState) -> Option<bool> {
    match c.comp {
        Option::None => Some(truthy(eval_expr(c.left, st))),
        Option::Some((op, rhs)) => {
            let a = eval_expr(c.left, st);
            let b = eval_expr(rhs, st);
            match op {
                CompOp::Equals => Some(val_equiv(a, b)),
                CompOp::NotEquals => Some(!val_equiv(a, b)),
                _ => if a is Int && b is Int {
                    Some(int_cmp(op, a->Int_0, b->Int_0))
                } else {
                    None
                },
            }
        },
    }
}

/// The items a loop walks: an array's elements, an inclusive integer
/// range, nothing for nil — anything else is an evaluation error.
pub open spec fn for_items(src: ForSource, st: RtState) -> Option<Seq<Val>> {
    match src {
        ForSource::Val(e) => match eval_expr(e, st) {
            Val::Arr(a) => Some(a),
            Val::Nil => Some(Seq::empty()),
            _ => None,
        },
        ForSource::Range(e1, e2) => {
            let a = eval_expr(e1, st);
            let b = eval_expr(e2, st);
            if a is Int && b is Int {
                let lo = a->Int_0;
                let hi = b->Int_0;
                if lo <= hi {
                    Some(Seq::new((hi - lo + 1) as nat, |k: int| Val::Int(lo + k)))
                } else {
                    Some(Seq::empty())
                }
            } else {
                None
            }
        },
    }
}

/// The meaning of one node in a state.
pub open spec fn node_sem(n: Renderable, st: RtState) -> Sem
    decreases n, 0nat,
{
    match n {
        Renderable::Text(s) => Sem { st, out: s@, ok: true },
        Renderable::Output(fc) => match chain_res(fc, st) {
            ChainRes::Good(v) => Sem { st, out: render_of(v), ok: true },
            ChainRes::Fail { .. } => Sem { st, out: Seq::empty(), ok: false },
        },
        Renderable::Assign(a) => match chain_res(a.src, st) {
            ChainRes::Good(v) => Sem {
                st: st.set_global(a.dst@, v),
                out: Seq::empty(),
                ok: true,
            },
            ChainRes::Fail { .. } => Sem { st, out: Seq::empty(), ok: false },
        },
        Renderable::Interrupt(k) => Sem {
            st: st.with_interrupt(Some(k)),
            out: Seq::empty(),
            ok: true,
        },
        Renderable::IfChanged(b) => {
            let r = seq_sem(b.body.elements@, st);
            if !r.ok {
                Sem { st: r.st, out: Seq::empty(), ok: false }
            } else {
                let changed = r.st.reg_lookup(b.id) != Some(r.out);
                let st2 = r.st.reg_set(b.id, Some(r.out));
                Sem { st: st2, out: if changed { r.out } else { Seq::empty() }, ok: true }
            }
        },
        Renderable::If(c) => match cond_sem(c, st) {
            Option::None => Sem { st, out: Seq::empty(), ok: false },
            Option::Some(b) => if b {
                seq_sem(c.body.elements@, st)
            } else {
                Sem { st, out: Seq::empty(), ok: true }
            },
        },
        Renderable::For(f) => match for_items(f.source, st) {
            Option::None => Sem { st, out: Seq::empty(), ok: false },
            Option::Some(items) => for_sem(f.var@, items, f.body, st),
        },
    }
}

/// The meaning of an ordered sequence of nodes: children render strictly
/// in order; after each child, a raised interrupt stops the sequence at
/// once, passed through uncleared.
pub open spec fn seq_sem(ns: Seq<Renderable>, st: RtState) -> Sem
    decreases ns, 0nat,
{
    if ns.len() == 0 {
        Sem { st, out: Seq::empty(), ok: true }
    } else {
        let r0 = node_sem(ns[0], st);
        if !r0.ok {
            r0
        } else if r0.st.interrupt is Some {
            r0
        } else {
            sem_append(r0.out, seq_sem(ns.drop_first(), r0.st))
        }
    }
}

/// The meaning of a loop over its items: each iteration runs the body in a
/// fresh scope holding the loop variable; a break interrupt is absorbed
/// and stops the loop, a continue interrupt is absorbed and moves to the
/// next item.
pub open spec fn for_sem(var: Seq<char>, items: Seq<Val>, body: Template, st: RtState) -> Sem
    decreases body, items.len(),
{
    if items.len() == 0 {
        Sem { st, out: Seq::empty(), ok: true }
    } else {
        let st1 = st.push_frame().set_local(var, items[0]);
        let r = seq_sem(body.elements@, st1);
        let st2 = r.st.pop_frame();
        if !r.ok {
            Sem { st: st2, out: r.out, ok: false }
        } else {
            match st2.interrupt {
                Option::Some(InterruptKind::Break) => Sem {
                    st: st2.with_interrupt(None),
                    out: r.out,
                    ok: true,
                },
                Option::Some(InterruptKind::Continue) => sem_append(
                    r.out,
                    for_sem(var, items.drop_first(), body, st2.with_interrupt(None)),
                ),
                Option::None => sem_append(r.out, for_sem(var, items.drop_first(), body, st2)),
            }
        }
    }
}

/// Whether a value decides an `if` without a comparison.
fn truthy_value(v: &Value) -> (r: bool)
    ensures
        r == truthy(val_of(*v)),
{
    match v {
        Value::Nil => false,
        Value::Bool(b) => *b,
        _ => {
            proof {
                crate::value::lemma_val_kind(*v);
            }
            true
        },
    }
}

impl Template {
    /// Create an executable template block from its children.
    pub fn new(elements: Vec<Renderable>) -> (r: Template)
        ensures
            r.elements == elements,
    {
        Template { elements }
    }

    /// Render every child in order into `out`, stopping — interrupt signal
    /// left as it is — as soon as a child has raised one.
    pub fn render_to(&self, out: &mut String, runtime: &mut Runtime) -> (r: Result<(), Error>)
        requires
            old(runtime).wf(),
        ensures
            final(runtime).wf(),
            final(runtime)@ =~~= seq_sem(self.elements@, old(runtime)@).st,
            final(out)@ == old(out)@ + seq_sem(self.elements@, old(runtime)@).out,
            (r is Ok) == seq_sem(self.elements@, old(runtime)@).ok,
            r is Err ==> r->Err_0.kind == ErrorKind::Evaluation,
        decreases self,
    {
        let ghost st0 = old(runtime)@;
        let ghost elems = self.elements@;
        let ghost mut written: Seq<char> = Seq::empty();
        let mut i: usize = 0;
        let n = self.elements.len();
        proof {
            assert(elems.skip(0) =~= elems);
            assert(out@ =~= old(out)@ + written);
        }
        while i < n
            invariant
                i <= n,
                n == elems.len(),
                elems == self.elements@,
                st0 == old(runtime)@,
                runtime.wf(),
                out@ == old(out)@ + written,
                seq_sem(elems, st0) =~~= sem_append(written, seq_sem(elems.skip(i as int),
                runtime@)),
            decreases n - i,
        {
            proof {
                assert(decreases_to!(*self => self.elements));
                assert(decreases_to!(self.elements => self.elements@));
                assert(decreases_to!(self.elements@ => self.elements@[i as int]));
            }
            let ghost st_iter = runtime@;
            let el = &self.elements[i];
            let ghost r0 = node_sem(elems[i as int], st_iter);
            proof {
                assert(elems.skip(i as int)[0] == elems[i as int]);
                assert(elems.skip(i as int).drop_first() =~= elems.skip(i + 1));
            }
            match el.render_to(out, runtime) {
                Result::Ok(()) => {},
                Result::Err(e) => {
                    proof {
                        written = written + r0.out;
                        assert(seq_sem(elems.skip(i as int), st_iter) =~~= r0);
                    }
                    return Err(e);
                },
            }
            proof {
                written = written + r0.out;
            }
            match runtime.interrupt() {
                Option::Some(_) => {
                    proof {
                        assert(seq_sem(elems.skip(i as int), st_iter) =~~= r0);
                    }
                    return Ok(());
                },
                Option::None => {},
            }
            proof {
                assert(seq_sem(elems.skip(i as int), st_iter) =~~= sem_append(r0.out, seq_sem(
                elems.skip(i + 1), runtime@)));
            }
            i = i + 1;
        }
        proof {
            assert(elems.skip(n as int) =~= Seq::<Renderable>::empty());
        }
        Ok(())
    }

    /// Render the whole template against a runtime, collecting the output.
    /// Text produced before a failure is part of that failure's context and
    /// is not returned.
    pub fn render(&self, runtime: &mut Runtime) -> (r: Result<String, Error>)
        requires
            old(runtime).wf(),
        ensures
            final(runtime).wf(),
            final(runtime)@ =~~= seq_sem(self.elements@, old(runtime)@).st,
            (r is Ok) == seq_sem(self.elements@, old(runtime)@).ok,
            r is Ok ==> r->Ok_0@ == seq_sem(self.elements@, old(runtime)@).out,
            r is Err ==> r->Err_0.kind == ErrorKind::Evaluation,
    {
        let mut out = String::new();
        match self.render_to(&mut out, runtime) {
            Result::Ok(()) => Ok(out),
            Result::Err(e) => Err(e),
        }
    }
}

impl Renderable {
    /// Render this node into `out`, reading and writing runtime state; the
    /// outcome is exactly `node_sem`.
    #[verifier::rlimit(60)]
    pub fn render_to(&self, out: &mut String, runtime: &mut Runtime) -> (r: Result<(), Error>)
        requires
            old(runtime).wf(),
        ensures
            final(runtime).wf(),
            final(runtime)@ =~~= node_sem(*self, old(runtime)@).st,
            final(out)@ == old(out)@ + node_sem(*self, old(runtime)@).out,
            (r is Ok) == node_sem(*self, old(runtime)@).ok,
            r is Err ==> r->Err_0.kind == ErrorKind::Evaluation,
            r is Err && *self is Output ==> r->Err_0.msg@ == "Filter error"@ && ({
                let res = chain_res(self->Output_0, old(runtime)@);
                trace_views(r->Err_0.trace@) =~~= seq![
                    "filter: "@ + filter_source(self->Output_0.filters@[res->at]),
                    "input: "@ + render_of(res->input),
                ]
            }),
            r is Err && *self is Assign ==> r->Err_0.msg@ == "Filter error"@ && ({
                let res = chain_res(self->Assign_0.src, old(runtime)@);
                trace_views(r->Err_0.trace@) =~~= seq![
                    "filter: "@ + filter_source(self->Assign_0.src.filters@[res->at]),
                    "input: "@ + render_of(res->input),
                    "{% assign "@ + self->Assign_0.dst@ + " = "@ + chain_source(
                    self->Assign_0.src) + "%}"@,
                ]
            }),
            r is Err && *self is IfChanged ==> trace_views(r->Err_0.trace@).len() >= 1
                && trace_views(r->Err_0.trace@).last() == "{% ifchanged %}"@,
        decreases self,
    {
        match self {
            Renderable::Text(s) => {
                out.append(s.as_str());
                Ok(())
            },
            Renderable::Output(fc) => {
                match fc.evaluate(runtime) {
                    Result::Ok(cow) => {
                        cow.as_value().render_to_string(out);
                        Ok(())
                    },
                    Result::Err(e) => {
                        assert(out@ =~= old(out)@ + node_sem(*self, old(runtime)@).out);
                        Err(e)
                    },
                }
            },
            Renderable::Assign(a) => {
                match a.src.evaluate(runtime) {
                    Result::Ok(cow) => {
                        let value = cow.into_owned();
                        runtime.set_global(a.dst.clone(), value);
                        Ok(())
                    },
                    Result::Err(e) => {
                        let mut line = String::from_str("{% assign ");
                        line.append(a.dst.as_str());
                        line.append(" = ");
                        let src = a.src.source_string();
                        line.append(src.as_str());
                        line.append("%}");
                        proof {
                            assert(line@ =~= "{% assign "@ + a.dst@ + " = "@ + chain_source(
                            a.src) + "%}"@);
                        }
                        let e2 = e.with_trace_line(line);
                        proof {
                            assert(trace_views(e2.trace@).last() == line@);
                        }
                        Err(e2)
                    },
                }
            },
            Renderable::Interrupt(k) => {
                runtime.set_interrupt(*k);
                Ok(())
            },
            Renderable::IfChanged(b) => {
                proof {
                    assert(decreases_to!(*self => self->IfChanged_0));
                    assert(decreases_to!(self->IfChanged_0 => self->IfChanged_0.body));
                }
                let mut buf = String::new();
                let ghost body_r = seq_sem(b.body.elements@, old(runtime)@);
                match b.body.render_to(&mut buf, runtime) {
                    Result::Ok(()) => {},
                    Result::Err(e) => {
                        let e2 = e.with_trace_line(String::from_str("{% ifchanged %}"));
                        proof {
                            assert(trace_views(e2.trace@).last() == "{% ifchanged %}"@);
                        }
                        return Err(e2);
                    },
                }
                let mut st = runtime.get_register(b.id);
                let changed = st.has_changed(buf.as_str());
                runtime.set_register(b.id, st);
                if changed {
                    out.append(buf.as_str());
                }
                Ok(())
            },
            Renderable::If(c) => {
                proof {
                    assert(decreases_to!(*self => self->If_0));
                    assert(decreases_to!(self->If_0 => self->If_0.body));
                }
                let truth: bool = match &c.comp {
                    Option::None => {
                        let cow = c.left.evaluate(runtime);
                        truthy_value(cow.as_value())
                    },
                    Option::Some((op, rhs)) => {
                        let ac = c.left.evaluate(runtime);
                        let bc = rhs.evaluate(runtime);
                        match op {
                            CompOp::Equals => ac.as_value().equals(bc.as_value()),
                            CompOp::NotEquals => !ac.as_value().equals(bc.as_value()),
                            _ => {
                                match (ac.as_value(), bc.as_value()) {
                                    (Value::Int(x), Value::Int(y)) => {
                                        match op {
                                            CompOp::Less => *x < *y,
                                            CompOp::LessEq => *x <= *y,
                                            CompOp::Greater => *x > *y,
                                            _ => *x >= *y,
                                        }
                                    },
                                    _ => {
                                        proof {
                                            let av = eval_expr(c.left, old(runtime)@);
                                            let bv = eval_expr(*rhs, old(runtime)@);
                                            assert(!(av is Int && bv is Int));
                                        }
                                        return Err(Error::evaluation(String::from_str(
                                        "if: only integers compare by order")));
                                    },
                                }
                            },
                        }
                    },
                };
                if truth {
                    c.body.render_to(out, runtime)
                } else {
                    Ok(())
                }
            },
            Renderable::For(f) => {
                proof {
                    assert(decreases_to!(*self => self->For_0));
                    assert(decreases_to!(self->For_0 => self->For_0.body));
                }
                let ghost st0 = old(runtime)@;
                let items: Vec<Value> = match &f.source {
                    ForSource::Val(e) => {
                        let cow = e.evaluate(runtime);
                        let cv = cow.as_value();
                        match cv {
                            Value::Array(arr) => {
                                proof {
                                    lemma_view_seq(arr@);
                                }
                                let mut items: Vec<Value> = Vec::new();
                                let mut k: usize = 0;
                                let m = arr.len();
                                let ghost target = for_items(f.source, st0)->0;
                                proof {
                                    assert(target =~= view_seq(arr@));
                                    assert(view_seq(items@) =~= target.take(0));
                                }
                                while k < m
                                    invariant
                                        k <= m,
                                        m == arr@.len(),
                                        target.len() == m,
                                        items@.len() == k,
                                        view_seq(items@) =~= target.take(k as int),
                                        forall|j: int| 0 <= j < m ==> target[j]
                                        == #[trigger] arr@[j]@,
                                    decreases m - k,
                                {
                                    let ghost prev = items@;
                                    items.push(arr[k].duplicate());
                                    proof {
                                        assert(items@.drop_last() =~= prev);
                                        assert(view_seq(items@) == view_seq(
                                        items@.drop_last()).push(val_of(items@.last())));
                                        assert(target.take(k + 1).drop_last() =~= target.take(
                                        k as int));
                                        assert(view_seq(items@) =~= target.take(k + 1));
                                    }
                                    k = k + 1;
                                }
                                proof {
                                    assert(target.take(m as int) =~= target);
                                }
                                items
                            },
                            Value::Nil => {
                                let items: Vec<Value> = Vec::new();
                                proof {
                                    assert(view_seq(items@) =~= for_items(f.source, st0)->0);
                                }
                                items
                            },
                            _ => {
                                proof {
                                    crate::value::lemma_val_kind(*cv);
                                }
                                return Err(Error::evaluation(String::from_str(
                                "for: cannot iterate this value")));
                            },
                        }
                    },
                    ForSource::Range(e1, e2) => {
                        let ac = e1.evaluate(runtime);
                        let av = ac.as_value();
                        let lo: i64 = match av {
                            Value::Int(x) => *x,
                            _ => {
                                proof {
                                    crate::value::lemma_val_kind(*av);
                                }
                                return Err(Error::evaluation(String::from_str(
                                "for: a range bound must be an integer")));
                            },
                        };
                        let bc = e2.evaluate(runtime);
                        let bv = bc.as_value();
                        let hi: i64 = match bv {
                            Value::Int(x) => *x,
                            _ => {
                                proof {
                                    crate::value::lemma_val_kind(*bv);
                                }
                                return Err(Error::evaluation(String::from_str(
                                "for: a range bound must be an integer")));
                            },
                        };
                        let ghost target = for_items(f.source, st0)->0;
                        let mut items: Vec<Value> = Vec::new();
                        if lo <= hi {
                            proof {
                                assert(target.len() == hi - lo + 1);
                                assert(view_seq(items@) =~= target.take(0));
                            }
                            let mut k: i64 = lo;
                            loop
                                invariant_except_break
                                    lo <= k <= hi,
                                    target.len() == hi - lo + 1,
                                    (forall|j: int| 0 <= j < target.len() ==> #[trigger] target[j]
                                    == Val::Int(lo + j)),
                                    items@.len() == k - lo,
                                    view_seq(items@) =~= target.take(k - lo),
                                ensures
                                    view_seq(items@) =~= target,
                                decreases hi - k,
                            {
                                let ghost prev = items@;
                                items.push(Value::Int(k));
                                proof {
                                    assert(items@.drop_last() =~= prev);
                                    assert(view_seq(items@) == view_seq(
                                    items@.drop_last()).push(val_of(items@.last())));
                                    assert(target.take(k - lo + 1).drop_last() =~= target.take(
                                    k - lo));
                                    assert(view_seq(items@) =~= target.take(k - lo + 1));
                                }
                                if k == hi {
                                    proof {
                                        assert(target.take(k - lo + 1) =~= target);
                                    }
                                    break;
                                }
                                k = k + 1;
                            }
                        } else {
                            proof {
                                assert(view_seq(items@) =~= target);
                            }
                        }
                        items
                    },
                };
                let ghost items_spec = for_items(f.source, st0)->0;
                proof {
                    lemma_view_seq(items@);
                    assert(view_seq(items@) == items_spec);
                }
                let ghost mut written: Seq<char> = Seq::empty();
                let mut idx: usize = 0;
                let cnt = items.len();
                proof {
                    assert(items_spec.skip(0) =~= items_spec);
                    assert(out@ =~= old(out)@ + written);
                }
                while idx < cnt
                    invariant
                        idx <= cnt,
                        cnt == items@.len(),
                        st0 == old(runtime)@,
                        for_items(f.source, st0) == Some(items_spec),
                        items_spec == view_seq(items@),
                        items_spec.len() == cnt,
                        forall|j: int| 0 <= j < cnt ==> items_spec[j] == #[trigger] items@[j]@,
                        runtime.wf(),
                        out@ == old(out)@ + written,
                        for_sem(f.var@, items_spec, *(&self->For_0.body), st0) =~~= sem_append(
                        written, for_sem(f.var@, items_spec.skip(idx as int),
                        *(&self->For_0.body), runtime@)),
                        *self == Renderable::For(*f),
                    decreases cnt - idx,
                {
                    proof {
                        assert(decreases_to!(*self => self->For_0));
                        assert(decreases_to!(self->For_0 => self->For_0.body));
                    }
                    let ghost st_iter = runtime@;
                    proof {
                        assert(items_spec.skip(idx as int)[0] == items_spec[idx as int]);
                        assert(items_spec.skip(idx as int).drop_first() =~= items_spec.skip(
                        idx + 1));
                    }
                    runtime.push_frame();
                    let item = items[idx].duplicate();
                    runtime.set_local(f.var.clone(), item);
                    let ghost st1 = runtime@;
                    proof {
                        assert(st1 =~~= st_iter.push_frame().set_local(f.var@,
                        items_spec[idx as int]));
                    }
                    let ghost body_r = seq_sem(f.body.elements@, st1);
                    let res = f.body.render_to(out, runtime);
                    runtime.pop_frame();
                    proof {
                        written = written + body_r.out;
                        assert(runtime@ =~~= body_r.st.pop_frame());
                    }
                    match res {
                        Result::Ok(()) => {},
                        Result::Err(e) => {
                            proof {
                                assert(for_sem(f.var@, items_spec.skip(idx as int), f.body,
                                st_iter) =~~= (Sem { st: body_r.st.pop_frame(), out: body_r.out,
                                ok: false }));
                            }
                            return Err(e);
                        },
                    }
                    match runtime.interrupt() {
                        Option::Some(InterruptKind::Break) => {
                            runtime.clear_interrupt();
                            proof {
                                assert(for_sem(f.var@, items_spec.skip(idx as int), f.body,
                                st_iter) =~~= (Sem {
                                    st: body_r.st.pop_frame().with_interrupt(None),
                                    out: body_r.out,
                                    ok: true,
                                }));
                            }
                            return Ok(());
                        },
                        Option::Some(InterruptKind::Continue) => {
                            runtime.clear_interrupt();
                            proof {
                                assert(for_sem(f.var@, items_spec.skip(idx as int), f.body,
                                st_iter) =~~= sem_append(body_r.out, for_sem(f.var@,
                                items_spec.skip(idx + 1), f.body,
                                body_r.st.pop_frame().with_interrupt(None))));
                                assert(runtime@ =~~= body_r.st.pop_frame().with_interrupt(None));
                            }
                        },
                        Option::None => {
                            proof {
                                assert(for_sem(f.var@, items_spec.skip(idx as int), f.body,
                                st_iter) =~~= sem_append(body_r.out, for_sem(f.var@,
                                items_spec.skip(idx + 1), f.body, body_r.st.pop_frame())));
                            }
                        },
                    }
                    idx = idx + 1;
                }
                proof {
                    assert(items_spec.skip(cnt as int) =~= Seq::<Val>::empty());
                }
                Ok(())
            },
        }
    }
}

} // verus!
