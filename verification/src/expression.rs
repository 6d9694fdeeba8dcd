//! Path and literal expressions. A literal evaluates to its embedded value,
//! borrowed; a path resolves its root against the runtime's scope stack,
//! innermost frame first, then applies each index or key segment with the
//! value model's permissive indexing — every miss degrades to nil, never to
//! an error.

use vstd::prelude::*;
use crate::alist::{alist_find, lemma_alist_find_at, lemma_alist_find_none};
use crate::runtime::{Runtime, RtState};
use crate::value::{Val, Value, val_of, view_seq, view_pairs, lemma_view_seq, lemma_view_pairs};

verus! {

/// One step of a path: an object key or an array offset.
#[derive(Debug)]
pub enum PathSeg {
    Key(String),
    Index(i64),
}

/// The mathematical shape of a path segment.
pub enum SegV {
    Key(Seq<char>),
    Index(int),
}

impl View for PathSeg {
    type V = SegV;

    open spec fn view(&self) -> SegV {
        match *self {
            PathSeg::Key(ref k) => SegV::Key(k@),
            PathSeg::Index(i) => SegV::Index(i as int),
        }
    }
}

/// The views of a sequence of path segments.
pub open spec fn seg_views(s: Seq<PathSeg>) -> Seq<SegV> {
    Seq::new(s.len(), |i: int| s[i]@)
}

/// One indexing step. An array takes a non-negative offset, or a negative
/// one counted from its end; an object takes a key. Everything else — a
/// missing key, an offset out of range, indexing a scalar — yields nil.
pub open spec fn index_val(v: Val, seg: SegV) -> Val {
    match seg {
        SegV::Index(i) => match v {
            Val::Arr(a) => {
                let j = if i >= 0 {
                    i
                } else {
                    a.len() + i
                };
                if 0 <= j < a.len() {
                    a[j]
                } else {
                    Val::Nil
                }
            },
            _ => Val::Nil,
        },
        SegV::Key(k) => match v {
            Val::Obj(o) => match alist_find(o, k) {
                Option::Some(x) => x,
                Option::None => Val::Nil,
            },
            _ => Val::Nil,
        },
    }
}

/// All indexing steps of a path, applied in order.
pub open spec fn apply_segs(v: Val, segs: Seq<SegV>) -> Val
    decreases segs.len(),
{
    if segs.len() == 0 {
        v
    } else {
        apply_segs(index_val(v, segs[0]), segs.drop_first())
    }
}

/// Applying one more segment indexes the result so far.
pub proof fn lemma_apply_segs_snoc(v: Val, s: Seq<SegV>, x: SegV)
    ensures
        apply_segs(v, s.push(x)) == index_val(apply_segs(v, s), x),
    decreases s.len(),
{
    if s.len() == 0 {
        assert(s.push(x)[0] == x);
        assert(s.push(x).drop_first() =~= Seq::<SegV>::empty());
        assert(apply_segs(v, s.push(x)) == apply_segs(index_val(v, x), s.push(x).drop_first()));
        assert(apply_segs(index_val(v, x), s.push(x).drop_first()) == index_val(v, x));
        assert(apply_segs(v, s) == v);
    } else {
        assert(s.push(x)[0] == s[0]);
        assert(s.push(x).drop_first() =~= s.drop_first().push(x));
        assert(apply_segs(v, s.push(x)) == apply_segs(index_val(v, s[0]),
        s.push(x).drop_first()));
        assert(apply_segs(v, s.push(x)) == apply_segs(index_val(v, s[0]),
        s.drop_first().push(x)));
        lemma_apply_segs_snoc(index_val(v, s[0]), s.drop_first(), x);
        assert(apply_segs(v, s) == apply_segs(index_val(v, s[0]), s.drop_first()));
    }
}

/// A borrowed-or-owned value handle: evaluating a bare variable reference
/// borrows from existing state and copies nothing; a computed result is
/// carried owned.
#[derive(Debug)]
pub enum ValueCow<'a> {
    Borrowed(&'a Value),
    Owned(Value),
}

impl<'a> View for ValueCow<'a> {
    type V = Val;

    open spec fn view(&self) -> Val {
        match *self {
            ValueCow::Borrowed(v) => val_of(*v),
            ValueCow::Owned(ref v) => val_of(*v),
        }
    }
}

impl<'a> ValueCow<'a> {
    /// A read-only view of the carried value.
    pub fn as_value<'b>(&'b self) -> (r: &'b Value)
        ensures
            val_of(*r) == self@,
    {
        match self {
            ValueCow::Borrowed(v) => *v,
            ValueCow::Owned(v) => v,
        }
    }

    /// The carried value, copied only if it was borrowed.
    pub fn into_owned(self) -> (r: Value)
        ensures
            val_of(r) == self@,
    {
        match self {
            ValueCow::Borrowed(v) => v.duplicate(),
            ValueCow::Owned(v) => v,
        }
    }
}

/// A literal value or a variable path.
#[derive(Debug)]
pub enum Expression {
    Literal(Value),
    Path(String, Vec<PathSeg>),
}

/// The mathematical shape of an expression.
pub enum ExprV {
    Lit(Val),
    Path(Seq<char>, Seq<SegV>),
}

impl View for Expression {
    type V = ExprV;

    open spec fn view(&self) -> ExprV {
        match *self {
            Expression::Literal(ref v) => ExprV::Lit(val_of(*v)),
            Expression::Path(ref root, ref segs) => ExprV::Path(root@, seg_views(segs@)),
        }
    }
}

/// The views of a run of expressions.
pub open spec fn expr_views(s: Seq<Expression>) -> Seq<ExprV> {
    Seq::new(s.len(), |i: int| s[i]@)
}

/// What an expression evaluates to in a given runtime state: a literal is
/// itself; a path reads its root from the scope stack (nil when unbound)
/// and indexes through its segments, degrading to nil at every miss.
pub open spec fn eval_expr(e: Expression, st: RtState) -> Val {
    match e {
        Expression::Literal(v) => val_of(v),
        Expression::Path(root, segs) => apply_segs(st.lookup_or_nil(root@), seg_views(segs@)),
    }
}

/// One indexing step on a value, borrowed: nothing to return means the step
/// degraded to nil.
fn index_value<'a>(v: &'a Value, seg: &PathSeg) -> (r: Option<&'a Value>)
    ensures
        match r {
            Option::Some(c) => index_val(val_of(*v), seg@) == val_of(*c),
            Option::None => index_val(val_of(*v), seg@) == Val::Nil,
        },
{
    match (v, seg) {
        (Value::Array(a), PathSeg::Index(i)) => {
            proof {
                lemma_view_seq(a@);
                assert(val_of(*v) == Val::Arr(view_seq(a@)));
            }
            if *i >= 0 {
                if (*i as u64) < (a.len() as u64) {
                    let j = *i as usize;
                    proof {
                        assert(j as int == *i as int);
                        assert(view_seq(a@)[j as int] == a@[j as int]@);
                    }
                    Some(&a[j])
                } else {
                    None
                }
            } else {
                let m: u64 = (-((*i) as i128)) as u64;
                proof {
                    assert(m as int == -(*i as int));
                }
                if m <= a.len() as u64 {
                    let j = a.len() - (m as usize);
                    proof {
                        assert(j as int == view_seq(a@).len() + (*i as int));
                        assert(view_seq(a@)[j as int] == a@[j as int]@);
                    }
                    Some(&a[j])
                } else {
                    None
                }
            }
        },
        (Value::Object(o), PathSeg::Key(k)) => {
            proof {
                lemma_view_pairs(o@);
                assert(val_of(*v) == Val::Obj(view_pairs(o@)));
            }
            let ghost ov = view_pairs(o@);
            let mut i: usize = 0;
            let n = o.len();
            while i < n
                invariant
                    i <= n,
                    n == o@.len(),
                    ov == view_pairs(o@),
                    ov.len() == n,
                    val_of(*v) == Val::Obj(ov),
                    *seg == PathSeg::Key(*k),
                    forall|j: int| 0 <= j < i ==> (#[trigger] ov[j]).0 != k@,
                    forall|j: int| 0 <= j < n ==> #[trigger] ov[j] == (o@[j].0@, val_of(
                    o@[j].1)),
                decreases n - i,
            {
                if crate::runtime::str_equal(&o[i].0, k) {
                    proof {
                        lemma_alist_find_at(ov, k@, i as int);
                        assert(ov[i as int] == (o@[i as int].0@, val_of(o@[i as int].1)));
                        assert(index_val(val_of(*v), seg@) == val_of(o@[i as int].1));
                    }
                    return Some(&o[i].1);
                }
                i = i + 1;
            }
            proof {
                lemma_alist_find_none(ov, k@);
            }
            None
        },
        _ => {
            proof {
                crate::value::lemma_val_kind(*v);
            }
            None
        },
    }
}

impl Expression {
    /// Evaluate against the runtime's scope stack: a literal comes back
    /// borrowed with no copy; a path walk borrows into existing state and
    /// reads nil at any miss.
    pub fn evaluate<'s>(&'s self, runtime: &'s Runtime) -> (r: ValueCow<'s>)
        ensures
            r@ == eval_expr(*self, runtime@),
            self is Literal ==> r is Borrowed,
            r is Owned ==> r->Owned_0 == Value::Nil,
    {
        match self {
            Expression::Literal(v) => ValueCow::Borrowed(v),
            Expression::Path(root, segs) => {
                let ghost rootv = runtime@.lookup_or_nil(root@);
                let ghost views = seg_views(segs@);
                let mut cur: Option<&Value> = runtime.get_ref(root);
                proof {
                    assert(views.take(0) =~= Seq::<SegV>::empty());
                }
                let mut i: usize = 0;
                let n = segs.len();
                while i < n
                    invariant
                        i <= n,
                        n == segs@.len(),
                        views == seg_views(segs@),
                        views.len() == n,
                        forall|j: int| 0 <= j < n ==> #[trigger] views[j] == segs@[j]@,
                        match cur {
                            Option::Some(c) => apply_segs(rootv, views.take(i as int)) == val_of(
                            *c),
                            Option::None => apply_segs(rootv, views.take(i as int)) == Val::Nil,
                        },
                    decreases n - i,
                {
                    proof {
                        assert(views.take(i + 1) =~= views.take(i as int).push(views[i as int]));
                        lemma_apply_segs_snoc(rootv, views.take(i as int), views[i as int]);
                    }
                    cur = match cur {
                        Option::Some(c) => index_value(c, &segs[i]),
                        Option::None => None,
                    };
                    i = i + 1;
                }
                proof {
                    assert(views.take(n as int) =~= views);
                }
                match cur {
                    Option::Some(c) => ValueCow::Borrowed(c),
                    Option::None => ValueCow::Owned(Value::Nil),
                }
            },
        }
    }
}

} // verus!
