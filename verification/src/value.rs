//! The dynamic value model: a tagged union of nil, scalars (bool, 64-bit
//! integer, string), ordered arrays and insertion-ordered objects.
//!
//! `Val` is the mathematical shape of a value; every contract in the crate
//! speaks of it through `Value::view`. Indexing is deliberately permissive:
//! a missing key, an out-of-range offset or indexing into a scalar yields
//! nil rather than an error.

use vstd::prelude::*;
use crate::alist::{alist_find, lemma_alist_find_at, lemma_alist_find_none};
use crate::strutil::{dec_str_int, push_dec_i64, push_char};

verus! {

use vstd::string::StringExecFns;

/// The mathematical shape of a runtime value.
#[verifier::ext_equal]
pub enum Val {
    Nil,
    Bool(bool),
    Int(int),
    Str(Seq<char>),
    Date { y: int, m: int, d: int },
    Arr(Seq<Val>),
    Obj(Seq<(Seq<char>, Val)>),
}

/// A runtime value. Immutable once produced by evaluation; deep copies are
/// made explicitly with `duplicate`.
#[derive(Debug, PartialEq)]
pub enum Value {
    Nil,
    Bool(bool),
    Int(i64),
    Str(String),
    Date { year: i64, month: i64, day: i64 },
    Array(Vec<Value>),
    Object(Vec<(String, Value)>),
}

/// The mathematical shape of one value.
pub open spec fn val_of(v: Value) -> Val
    decreases v,
{
    match v {
        Value::Nil => Val::Nil,
        Value::Bool(b) => Val::Bool(b),
        Value::Int(i) => Val::Int(i as int),
        Value::Str(s) => Val::Str(s@),
        Value::Date { year, month, day } => Val::Date {
            y: year as int,
            m: month as int,
            d: day as int,
        },
        Value::Array(a) => Val::Arr(view_seq(a@)),
        Value::Object(o) => Val::Obj(view_pairs(o@)),
    }
}

/// Views of a sequence of values, element by element.
pub open spec fn view_seq(s: Seq<Value>) -> Seq<Val>
    decreases s,
{
    if s.len() == 0 {
        Seq::empty()
    } else {
        view_seq(s.drop_last()).push(val_of(s.last()))
    }
}

/// Views of a sequence of key/value pairs, pair by pair.
pub open spec fn view_pairs(s: Seq<(String, Value)>) -> Seq<(Seq<char>, Val)>
    decreases s,
{
    if s.len() == 0 {
        Seq::empty()
    } else {
        view_pairs(s.drop_last()).push((s.last().0@, val_of(s.last().1)))
    }
}

impl View for Value {
    type V = Val;

    open spec fn view(&self) -> Val {
        val_of(*self)
    }
}

pub broadcast proof fn lemma_view_seq(s: Seq<Value>)
    ensures
        (#[trigger] view_seq(s)).len() == s.len(),
        forall|i: int| 0 <= i < s.len() ==> view_seq(s)[i] == #[trigger] s[i]@,
    decreases s,
{
    if s.len() > 0 {
        lemma_view_seq(s.drop_last());
        assert(view_seq(s) == view_seq(s.drop_last()).push(s.last()@));
        assert(view_seq(s).len() == view_seq(s.drop_last()).len() + 1);
        assert forall|i: int| 0 <= i < s.len() implies view_seq(s)[i] == #[trigger] s[i]@ by {
            assert(view_seq(s) == view_seq(s.drop_last()).push(s.last()@));
            if i < s.len() - 1 {
                assert(s.drop_last()[i] == s[i]);
                assert(view_seq(s)[i] == view_seq(s.drop_last())[i]);
            } else {
                assert(s.last() == s[i]);
                assert(view_seq(s)[i] == s.last()@);
            }
        }
    }
}

pub broadcast proof fn lemma_view_pairs(s: Seq<(String, Value)>)
    ensures
        (#[trigger] view_pairs(s)).len() == s.len(),
        forall|i: int| 0 <= i < s.len() ==> view_pairs(s)[i] == ((#[trigger] s[i]).0@, s[i].1@),
    decreases s,
{
    if s.len() > 0 {
        lemma_view_pairs(s.drop_last());
        assert(view_pairs(s) == view_pairs(s.drop_last()).push((s.last().0@, s.last().1@)));
        assert(view_pairs(s).len() == view_pairs(s.drop_last()).len() + 1);
        assert forall|i: int| 0 <= i < s.len() implies view_pairs(s)[i] == ((#[trigger] s[i]).0@,
        s[i].1@) by {
            assert(view_pairs(s) == view_pairs(s.drop_last()).push((s.last().0@, s.last().1@)));
            if i < s.len() - 1 {
                assert(s.drop_last()[i] == s[i]);
                assert(view_pairs(s)[i] == view_pairs(s.drop_last())[i]);
            } else {
                assert(s.last() == s[i]);
                assert(view_pairs(s)[i] == (s.last().0@, s.last().1@));
            }
        }
    }
}

/// Taking one more element extends the viewed sequence by that element's view.
pub proof fn lemma_view_seq_take_step(s: Seq<Value>, i: int)
    requires
        0 <= i < s.len(),
    ensures
        view_seq(s.take(i + 1)) == view_seq(s.take(i)).push(s[i]@),
{
    assert(s.take(i + 1).drop_last() =~= s.take(i));
    assert(s.take(i + 1).last() == s[i]);
    assert(view_seq(s.take(i + 1)) == view_seq(s.take(i + 1).drop_last()).push(
    s.take(i + 1).last()@));
}

/// Taking one more pair extends the viewed pair sequence by that pair's view.
pub proof fn lemma_view_pairs_take_step(s: Seq<(String, Value)>, i: int)
    requires
        0 <= i < s.len(),
    ensures
        view_pairs(s.take(i + 1)) == view_pairs(s.take(i)).push((s[i].0@, s[i].1@)),
{
    assert(s.take(i + 1).drop_last() =~= s.take(i));
    assert(s.take(i + 1).last() == s[i]);
    assert(view_pairs(s.take(i + 1)) == view_pairs(s.take(i + 1).drop_last()).push((
    s.take(i + 1).last().0@, s.take(i + 1).last().1@)));
}

/// A value and its view always have the same kind.
pub proof fn lemma_val_kind(v: Value)
    ensures
        val_of(v) is Nil <==> v is Nil,
        val_of(v) is Bool <==> v is Bool,
        val_of(v) is Int <==> v is Int,
        val_of(v) is Str <==> v is Str,
        val_of(v) is Date <==> v is Date,
        val_of(v) is Arr <==> v is Array,
        val_of(v) is Obj <==> v is Object,
{
    match v {
        Value::Nil => {},
        Value::Bool(_) => {},
        Value::Int(_) => {},
        Value::Str(_) => {},
        Value::Date { .. } => {},
        Value::Array(_) => {},
        Value::Object(_) => {},
    }
}

/// Structural equivalence of values, with objects compared as mappings:
/// two objects are equivalent when each one's keys all resolve in the
/// other, to equivalent values (resolution is by first match, as indexing
/// reads them). Insertion order never matters; everything else compares
/// structurally.
pub open spec fn val_equiv(a: Val, b: Val) -> bool
    decreases a,
{
    match (a, b) {
        (Val::Arr(x), Val::Arr(y)) => x.len() == y.len() && (forall|i: int|
            0 <= i < x.len() ==> val_equiv(#[trigger] x[i], y[i])),
        (Val::Obj(x), Val::Obj(y)) => {
            &&& forall|i: int|
                0 <= i < x.len() ==> match crate::alist::alist_find(y, (#[trigger] x[i]).0) {
                    Option::Some(v2) => val_equiv(x[i].1, v2),
                    Option::None => false,
                }
            &&& forall|i: int| 0 <= i < y.len() ==> crate::alist::alist_find(x, (
            #[trigger] y[i]).0) is Some
        },
        _ => a == b,
    }
}

/// A month or day number in two digits, a zero in front of a single digit.
pub open spec fn dec_str_two(x: int) -> Seq<char> {
    if 0 <= x < 10 {
        seq!['0'] + dec_str_int(x)
    } else {
        dec_str_int(x)
    }
}

/// The display form of a value: nil shows as nothing, booleans as `true` or
/// `false`, integers in decimal, strings as themselves, dates as
/// `year-month-day` with two-digit month and day, arrays as their elements'
/// display forms run together, and objects as nothing.
pub open spec fn render_of(v: Val) -> Seq<char>
    decreases v,
{
    match v {
        Val::Nil => Seq::empty(),
        Val::Bool(b) => if b {
            "true"@
        } else {
            "false"@
        },
        Val::Int(i) => dec_str_int(i),
        Val::Str(s) => s,
        Val::Date { y, m, d } => dec_str_int(y) + "-"@ + dec_str_two(m) + "-"@ + dec_str_two(d),
        Val::Arr(a) => render_concat(a),
        Val::Obj(_) => Seq::empty(),
    }
}

/// Whether a year has the leap day.
pub open spec fn is_leap_year(y: int) -> bool {
    y % 4 == 0 && (y % 100 != 0 || y % 400 == 0)
}

/// How many days a month of a year has.
pub open spec fn days_in_month(y: int, m: int) -> int {
    if m == 2 {
        if is_leap_year(y) {
            29
        } else {
            28
        }
    } else if m == 4 || m == 6 || m == 9 || m == 11 {
        30
    } else {
        31
    }
}

/// The calendar invariant of a date value.
pub open spec fn date_wf(y: int, m: int, d: int) -> bool {
    1 <= m <= 12 && 1 <= d <= days_in_month(y, m)
}

/// Display forms of a sequence of values, run together in order.
pub open spec fn render_concat(a: Seq<Val>) -> Seq<char>
    decreases a,
{
    if a.len() == 0 {
        Seq::empty()
    } else {
        render_concat(a.drop_last()) + render_of(a.last())
    }
}

impl Value {
    /// A deep copy with the same view.
    pub fn duplicate(&self) -> (r: Value)
        ensures
            r@ == self@,
        decreases self,
    {
        match self {
            Value::Nil => Value::Nil,
            Value::Bool(b) => Value::Bool(*b),
            Value::Int(i) => Value::Int(*i),
            Value::Str(s) => Value::Str(s.clone()),
            Value::Date { year, month, day } => Value::Date {
                year: *year,
                month: *month,
                day: *day,
            },
            Value::Array(a) => {
                let mut out: Vec<Value> = Vec::new();
                let mut i: usize = 0;
                while i < a.len()
                    invariant
                        i <= a.len(),
                        *self == Value::Array(*a),
                        view_seq(out@) =~= view_seq(a@.take(i as int)),
                        out@.len() == i,
                    decreases a.len() - i,
                {
                    proof {
                        assert(decreases_to!(*self => self->Array_0));
                        assert(decreases_to!(self->Array_0 => self->Array_0@));
                        assert(decreases_to!(self->Array_0@ => self->Array_0@[i as int]));
                        assert(decreases_to!(*self => a@[i as int]));
                    }
                    let ghost prev = out@;
                    out.push(a[i].duplicate());
                    proof {
                        lemma_view_seq_take_step(a@, i as int);
                        assert(out@.drop_last() =~= prev);
                        assert(view_seq(out@) == view_seq(out@.drop_last()).push(out@.last()@));
                        assert(out@.last()@ == a@[i as int]@);
                        assert(view_seq(out@) =~= view_seq(a@.take(i + 1)));
                    }
                    i = i + 1;
                }
                proof {
                    assert(a@.take(a@.len() as int) =~= a@);
                }
                Value::Array(out)
            },
            Value::Object(o) => {
                let mut out: Vec<(String, Value)> = Vec::new();
                let mut i: usize = 0;
                while i < o.len()
                    invariant
                        i <= o.len(),
                        *self == Value::Object(*o),
                        view_pairs(out@) =~= view_pairs(o@.take(i as int)),
                        out@.len() == i,
                    decreases o.len() - i,
                {
                    proof {
                        assert(decreases_to!(*self => self->Object_0));
                        assert(decreases_to!(self->Object_0 => self->Object_0@));
                        assert(decreases_to!(self->Object_0@ => self->Object_0@[i as int]));
                        assert(decreases_to!(self->Object_0@[i as int] => self->Object_0@[i as int].1));
                        assert(decreases_to!(*self => o@[i as int].1));
                    }
                    let ghost prev = out@;
                    let pair = (o[i].0.clone(), o[i].1.duplicate());
                    out.push(pair);
                    proof {
                        lemma_view_pairs_take_step(o@, i as int);
                        assert(out@.drop_last() =~= prev);
                        assert(view_pairs(out@) == view_pairs(out@.drop_last()).push((
                        out@.last().0@, out@.last().1@)));
                        assert(out@.last().0@ == o@[i as int].0@);
                        assert(out@.last().1@ == o@[i as int].1@);
                        assert(view_pairs(out@) =~= view_pairs(o@.take(i + 1)));
                    }
                    i = i + 1;
                }
                proof {
                    assert(o@.take(o@.len() as int) =~= o@);
                }
                Value::Object(out)
            },
        }
    }

    /// Append the display form of this value to `out`.
    pub fn render_to_string(&self, out: &mut String)
        ensures
            final(out)@ == old(out)@ + render_of(self@),
        decreases self,
    {
        match self {
            Value::Nil => {
                assert(out@ =~= old(out)@ + render_of(self@));
            },
            Value::Bool(b) => {
                if *b {
                    out.append("true");
                } else {
                    out.append("false");
                }
            },
            Value::Int(i) => {
                push_dec_i64(*i, out);
            },
            Value::Str(s) => {
                out.append(s.as_str());
            },
            Value::Date { year, month, day } => {
                proof {
                    reveal_strlit("-");
                    assert("-"@ =~= seq!['-']);
                }
                push_dec_i64(*year, out);
                push_char(out, '-');
                if 0 <= *month && *month < 10 {
                    push_char(out, '0');
                }
                push_dec_i64(*month, out);
                push_char(out, '-');
                if 0 <= *day && *day < 10 {
                    push_char(out, '0');
                }
                push_dec_i64(*day, out);
                assert(out@ =~= old(out)@ + render_of(self@));
            },
            Value::Array(a) => {
                let ghost start = out@;
                let mut i: usize = 0;
                while i < a.len()
                    invariant
                        i <= a.len(),
                        *self == Value::Array(*a),
                        out@ == start + render_concat(view_seq(a@.take(i as int))),
                    decreases a.len() - i,
                {
                    proof {
                        assert(decreases_to!(*self => self->Array_0));
                        assert(decreases_to!(self->Array_0 => self->Array_0@));
                        assert(decreases_to!(self->Array_0@ => self->Array_0@[i as int]));
                        assert(decreases_to!(*self => a@[i as int]));
                    }
                    a[i].render_to_string(out);
                    proof {
                        lemma_view_seq_take_step(a@, i as int);
                        let v0 = view_seq(a@.take(i as int));
                        let v1 = view_seq(a@.take(i + 1));
                        assert(v1.drop_last() =~= v0);
                        assert(v1.last() == a@[i as int]@);
                        assert(render_concat(v1) == render_concat(v1.drop_last()) + render_of(
                        v1.last()));
                    }
                    i = i + 1;
                }
                proof {
                    assert(a@.take(a@.len() as int) =~= a@);
                }
            },
            Value::Object(_) => {
                assert(out@ =~= old(out)@ + render_of(self@));
            },
        }
    }

    /// Whether two values are equivalent: nil and scalars structurally,
    /// arrays pairwise, and objects as mappings — insertion order never
    /// matters, and a key resolves by first match, as indexing reads it.
    pub fn equals(&self, other: &Value) -> (r: bool)
        ensures
            r == val_equiv(self@, other@),
        decreases self,
    {
        match (self, other) {
            (Value::Nil, Value::Nil) => {
                assert(self@ is Nil);
                assert(other@ is Nil);
                true
            },
            (Value::Bool(a), Value::Bool(b)) => {
                assert(*self == Value::Bool(*a));
                assert(*other == Value::Bool(*b));
                let r = *a == *b;
                assert(r == val_equiv(self@, other@));
                r
            },
            (Value::Int(a), Value::Int(b)) => {
                assert(*self == Value::Int(*a));
                assert(*other == Value::Int(*b));
                let r = *a == *b;
                assert(r == val_equiv(self@, other@));
                r
            },
            (Value::Str(a), Value::Str(b)) => {
                assert(*self == Value::Str(*a));
                assert(*other == Value::Str(*b));
                let r = *a == *b;
                assert(r == val_equiv(self@, other@));
                r
            },
            (
                Value::Date { year: y1, month: m1, day: d1 },
                Value::Date { year: y2, month: m2, day: d2 },
            ) => {
                assert(*self == Value::Date { year: *y1, month: *m1, day: *d1 });
                assert(*other == Value::Date { year: *y2, month: *m2, day: *d2 });
                *y1 == *y2 && *m1 == *m2 && *d1 == *d2
            },
            (Value::Array(a), Value::Array(b)) => {
                proof {
                    lemma_view_seq(a@);
                    lemma_view_seq(b@);
                }
                if a.len() != b.len() {
                    return false;
                }
                let mut i: usize = 0;
                while i < a.len()
                    invariant
                        i <= a.len(),
                        a@.len() == b@.len(),
                        *self == Value::Array(*a),
                        *other == Value::Array(*b),
                        forall|j: int| 0 <= j < i ==> val_equiv(#[trigger] view_seq(a@)[j],
                        view_seq(b@)[j]),
                        view_seq(a@).len() == a@.len(),
                        view_seq(b@).len() == b@.len(),
                        forall|j: int| 0 <= j < a@.len() ==> view_seq(a@)[j] == #[trigger] a@[
                        j]@,
                        forall|j: int| 0 <= j < b@.len() ==> view_seq(b@)[j] == #[trigger] b@[
                        j]@,
                    decreases a.len() - i,
                {
                    proof {
                        assert(decreases_to!(*self => self->Array_0));
                        assert(decreases_to!(self->Array_0 => self->Array_0@));
                        assert(decreases_to!(self->Array_0@ => self->Array_0@[i as int]));
                        assert(decreases_to!(*self => a@[i as int]));
                    }
                    if !a[i].equals(&b[i]) {
                        assert(!val_equiv(view_seq(a@)[i as int], view_seq(b@)[i as int]));
                        return false;
                    }
                    i = i + 1;
                }
                true
            },
            (Value::Object(a), Value::Object(b)) => {
                proof {
                    lemma_view_pairs(a@);
                    lemma_view_pairs(b@);
                }
                let ghost av = view_pairs(a@);
                let ghost bv = view_pairs(b@);
                let mut i: usize = 0;
                while i < a.len()
                    invariant
                        i <= a@.len(),
                        *self == Value::Object(*a),
                        *other == Value::Object(*b),
                        av == view_pairs(a@),
                        bv == view_pairs(b@),
                        av.len() == a@.len(),
                        bv.len() == b@.len(),
                        forall|j: int| 0 <= j < a@.len() ==> av[j] == ((#[trigger] a@[j]).0@,
                        val_of(a@[j].1)),
                        forall|j: int| 0 <= j < b@.len() ==> bv[j] == ((#[trigger] b@[j]).0@,
                        val_of(b@[j].1)),
                        forall|j: int| 0 <= j < i ==> alist_find(bv, (
                        #[trigger] av[j]).0) is Some && val_equiv(av[j].1, alist_find(bv,
                        av[j].0)->0),
                    decreases a@.len() - i,
                {
                    let mut ei: usize = 0;
                    let n2 = b.len();
                    let mut found = false;
                    loop
                        invariant_except_break
                            !found,
                        invariant
                            ei <= n2,
                            i < a@.len(),
                            n2 == b@.len(),
                            *self == Value::Object(*a),
                            *other == Value::Object(*b),
                            av == view_pairs(a@),
                            bv == view_pairs(b@),
                            av.len() == a@.len(),
                            bv.len() == b@.len(),
                            forall|j: int| 0 <= j < a@.len() ==> av[j] == ((
                            #[trigger] a@[j]).0@, val_of(a@[j].1)),
                            forall|j: int| 0 <= j < b@.len() ==> bv[j] == ((
                            #[trigger] b@[j]).0@, val_of(b@[j].1)),
                            forall|j2: int| 0 <= j2 < ei ==> (#[trigger] bv[j2]).0 != av[
                            i as int].0,
                        ensures
                            found ==> alist_find(bv, av[i as int].0) is Some && val_equiv(av[
                            i as int].1, alist_find(bv, av[i as int].0)->0),
                            !found ==> forall|j2: int| 0 <= j2 < bv.len() ==> (
                            #[trigger] bv[j2]).0 != av[i as int].0,
                        decreases n2 - ei,
                    {
                        if ei >= n2 {
                            break;
                        }
                        if crate::runtime::str_equal(&b[ei].0, &a[i].0) {
                            proof {
                                lemma_alist_find_at(bv, av[i as int].0, ei as int);
                            }
                            proof {
                                assert(decreases_to!(*self => self->Object_0));
                                assert(decreases_to!(self->Object_0 => self->Object_0@));
                                assert(decreases_to!(self->Object_0@ => self->Object_0@[
                                i as int]));
                                assert(decreases_to!(self->Object_0@[
                                i as int] => self->Object_0@[i as int].1));
                                assert(decreases_to!(*self => a@[i as int].1));
                            }
                            if !a[i].1.equals(&b[ei].1) {
                                proof {
                                    assert(alist_find(bv, av[i as int].0) == Some(val_of(b@[
                                    ei as int].1)));
                                    assert(!val_equiv(self@, other@));
                                }
                                return false;
                            }
                            found = true;
                            break;
                        }
                        proof {
                            assert(bv[ei as int].0 != av[i as int].0);
                        }
                        ei = ei + 1;
                    }
                    if !found {
                        proof {
                            lemma_alist_find_none(bv, av[i as int].0);
                            assert(!val_equiv(self@, other@));
                        }
                        return false;
                    }
                    i = i + 1;
                }
                let mut j: usize = 0;
                while j < b.len()
                    invariant
                        j <= b@.len(),
                        *self == Value::Object(*a),
                        *other == Value::Object(*b),
                        av == view_pairs(a@),
                        bv == view_pairs(b@),
                        av.len() == a@.len(),
                        bv.len() == b@.len(),
                        forall|j2: int| 0 <= j2 < a@.len() ==> av[j2] == ((
                        #[trigger] a@[j2]).0@, val_of(a@[j2].1)),
                        forall|j2: int| 0 <= j2 < b@.len() ==> bv[j2] == ((
                        #[trigger] b@[j2]).0@, val_of(b@[j2].1)),
                        forall|j2: int| 0 <= j2 < av.len() ==> alist_find(bv, (
                        #[trigger] av[j2]).0) is Some && val_equiv(av[j2].1, alist_find(bv,
                        av[j2].0)->0),
                        forall|j2: int| 0 <= j2 < j ==> alist_find(av, (
                        #[trigger] bv[j2]).0) is Some,
                    decreases b@.len() - j,
                {
                    let mut ei: usize = 0;
                    let n1 = a.len();
                    let mut found = false;
                    loop
                        invariant_except_break
                            !found,
                        invariant
                            ei <= n1,
                            j < b@.len(),
                            n1 == a@.len(),
                            *self == Value::Object(*a),
                            *other == Value::Object(*b),
                            av == view_pairs(a@),
                            bv == view_pairs(b@),
                            av.len() == a@.len(),
                            bv.len() == b@.len(),
                            forall|j2: int| 0 <= j2 < a@.len() ==> av[j2] == ((
                            #[trigger] a@[j2]).0@, val_of(a@[j2].1)),
                            forall|j2: int| 0 <= j2 < b@.len() ==> bv[j2] == ((
                            #[trigger] b@[j2]).0@, val_of(b@[j2].1)),
                            forall|j2: int| 0 <= j2 < ei ==> (#[trigger] av[j2]).0 != bv[
                            j as int].0,
                        ensures
                            found ==> alist_find(av, bv[j as int].0) is Some,
                            !found ==> forall|j2: int| 0 <= j2 < av.len() ==> (
                            #[trigger] av[j2]).0 != bv[j as int].0,
                        decreases n1 - ei,
                    {
                        if ei >= n1 {
                            break;
                        }
                        if crate::runtime::str_equal(&a[ei].0, &b[j].0) {
                            proof {
                                lemma_alist_find_at(av, bv[j as int].0, ei as int);
                            }
                            found = true;
                            break;
                        }
                        proof {
                            assert(av[ei as int].0 != bv[j as int].0);
                        }
                        ei = ei + 1;
                    }
                    if !found {
                        proof {
                            lemma_alist_find_none(av, bv[j as int].0);
                            assert(!val_equiv(self@, other@));
                        }
                        return false;
                    }
                    j = j + 1;
                }
                proof {
                    assert(val_equiv(self@, other@));
                }
                true
            },
            _ => {
                proof {
                    lemma_val_kind(*self);
                    lemma_val_kind(*other);
                }
                assert(!val_equiv(self@, other@));
                false
            },
        }
    }
}

impl Value {
    /// The canonical scalar projection: the value itself for the scalar
    /// kinds (bool, integer, string, date), nothing where a scalar is
    /// structurally required but an array, object or nil stands.
    pub fn as_scalar(&self) -> (r: Option<&Value>)
        ensures
            (r is Some) == (self@ is Bool || self@ is Int || self@ is Str || self@ is Date),
            r is Some ==> r->0 == self,
    {
        match self {
            Value::Bool(_) => Some(self),
            Value::Int(_) => Some(self),
            Value::Str(_) => Some(self),
            Value::Date { .. } => Some(self),
            _ => {
                proof {
                    lemma_val_kind(*self);
                }
                None
            },
        }
    }

    /// A calendar date, checked against the calendar invariant: a month out
    /// of range, or a day the month does not have (leap years counted),
    /// yields nothing.
    pub fn date_from_ymd(year: i64, month: i64, day: i64) -> (r: Option<Value>)
        ensures
            (r is Some) == date_wf(year as int, month as int, day as int),
            r is Some ==> r->0 == (Value::Date { year, month, day }),
    {
        let leap = year % 4 == 0 && (year % 100 != 0 || year % 400 == 0);
        let max_day: i64 = if month == 2 {
            if leap {
                29
            } else {
                28
            }
        } else if month == 4 || month == 6 || month == 9 || month == 11 {
            30
        } else {
            31
        };
        if 1 <= month && month <= 12 && 1 <= day && day <= max_day {
            Some(Value::Date { year, month, day })
        } else {
            None
        }
    }
}

} // verus!
