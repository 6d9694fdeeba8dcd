//! The two library filters the framework ships with: `size`, the element or
//! character count of a value, and `append`, which joins the display forms
//! of its input and its one argument. A filter that is handed the wrong
//! number of arguments refuses with an evaluation error.

use vstd::prelude::*;
use crate::error::{Error, ErrorKind};
use crate::value::{Val, Value, val_of, view_seq, view_pairs, render_of, lemma_view_seq,
    lemma_view_pairs};

verus! {

use vstd::string::StringExecFns;
use vstd::string::StrSliceExecFns;

/// The `size` filter.
#[derive(Debug, Clone, Copy, PartialEq, Eq)]
pub struct SizeFilter;

/// The `append` filter.
#[derive(Debug, Clone, Copy, PartialEq, Eq)]
pub struct AppendFilter;

/// A filter implementation, as registered and as compiled into a chain.
#[derive(Debug, Clone, Copy, PartialEq, Eq)]
pub enum FilterPlugin {
    Size(SizeFilter),
    Append(AppendFilter),
}

/// The name a filter is written with.
pub open spec fn filter_name(f: FilterPlugin) -> Seq<char> {
    match f {
        FilterPlugin::Size(_) => "size"@,
        FilterPlugin::Append(_) => "append"@,
    }
}

/// A length clipped to what a 64-bit signed integer can carry.
pub open spec fn cap_len(n: nat) -> int {
    if n > 0x7fff_ffff_ffff_ffff {
        0x7fff_ffff_ffff_ffff
    } else {
        n as int
    }
}

/// Whether a filter accepts its argument count.
pub open spec fn filter_ok(f: FilterPlugin, input: Val, args: Seq<Val>) -> bool {
    match f {
        FilterPlugin::Size(_) => args.len() == 0,
        FilterPlugin::Append(_) => args.len() == 1,
    }
}

/// What a filter returns when it accepts: `size` counts characters,
/// elements or pairs (scalars count zero); `append` joins display forms.
pub open spec fn filter_out(f: FilterPlugin, input: Val, args: Seq<Val>) -> Val {
    match f {
        FilterPlugin::Size(_) => match input {
            Val::Str(s) => Val::Int(cap_len(s.len())),
            Val::Arr(a) => Val::Int(cap_len(a.len())),
            Val::Obj(o) => Val::Int(cap_len(o.len())),
            _ => Val::Int(0),
        },
        FilterPlugin::Append(_) => Val::Str(render_of(input) + render_of(args[0])),
    }
}

/// A length as a value, clipped to the 64-bit signed range.
fn len_value(n: usize) -> (r: Value)
    ensures
        val_of(r) == Val::Int(cap_len(n as nat)),
{
    if n as u64 > 0x7fff_ffff_ffff_ffff {
        Value::Int(0x7fff_ffff_ffff_ffff)
    } else {
        Value::Int(n as i64)
    }
}

/// Run one filter on an input and its evaluated arguments: the result when
/// the argument count fits, an evaluation error otherwise.
pub fn apply_filter(f: &FilterPlugin, input: &Value, args: &Vec<Value>) -> (r: Result<Value,
    Error>)
    ensures
        (r is Ok) == filter_ok(*f, val_of(*input), view_seq(args@)),
        r is Ok ==> val_of(r->Ok_0) == filter_out(*f, val_of(*input), view_seq(args@)),
        r is Err ==> r->Err_0.kind == ErrorKind::Evaluation,
{
    proof {
        lemma_view_seq(args@);
    }
    match f {
        FilterPlugin::Size(_) => {
            if args.len() != 0 {
                return Err(Error::evaluation(String::from_str(
                "size: no arguments were expected")));
            }
            match input {
                Value::Str(s) => Ok(len_value(s.as_str().unicode_len())),
                Value::Array(a) => {
                    proof {
                        lemma_view_seq(a@);
                    }
                    Ok(len_value(a.len()))
                },
                Value::Object(o) => {
                    proof {
                        lemma_view_pairs(o@);
                    }
                    Ok(len_value(o.len()))
                },
                _ => {
                    proof {
                        crate::value::lemma_val_kind(*input);
                    }
                    Ok(Value::Int(0))
                },
            }
        },
        FilterPlugin::Append(_) => {
            if args.len() != 1 {
                return Err(Error::evaluation(String::from_str(
                "append: exactly one argument was expected")));
            }
            let mut s = String::new();
            input.render_to_string(&mut s);
            args[0].render_to_string(&mut s);
            proof {
                assert(view_seq(args@)[0] == args@[0]@);
            }
            Ok(Value::Str(s))
        },
    }
}

} // verus!
