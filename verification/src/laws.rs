//! The laws the engine obeys, stated over the spec interpreter and proved
//! once and for all.

use vstd::prelude::*;
use crate::expression::{Expression, eval_expr, seg_views};
use crate::filter_chain::{ChainRes, FilterChain, chain_res};
use crate::value::render_of;
use crate::runtime::{RtState, lookup_frames};
use crate::template::{Renderable, node_sem, seq_sem, sem_append};
use crate::value::Val;
use crate::alist::{alist_find, alist_set, lemma_alist_set_find_other, lemma_alist_set_find_same};

verus! {

/// Identity law: a chain with zero filters evaluates to exactly its entry
/// expression's value.
pub proof fn filter_chain_identity_law(fc: FilterChain, st: RtState)
    requires
        fc.filters@.len() == 0,
    ensures
        chain_res(fc, st) == ChainRes::Good(eval_expr(fc.entry, st)),
{
}

/// Interrupt law: if rendering the first `k + 1` children succeeds and ends
/// with the interrupt signal raised, the whole sequence does exactly the
/// same — the children after position `k` never render.
pub proof fn interrupt_law(ns: Seq<Renderable>, st: RtState, k: int)
    requires
        0 <= k < ns.len(),
        seq_sem(ns.take(k + 1), st).ok,
        seq_sem(ns.take(k + 1), st).st.interrupt is Some,
    ensures
        seq_sem(ns, st) == seq_sem(ns.take(k + 1), st),
    decreases k,
{
    let t = ns.take(k + 1);
    assert(t[0] == ns[0]);
    let r0 = node_sem(ns[0], st);
    if !r0.ok {
        assert(seq_sem(t, st) == r0);
        assert(false);
    } else if r0.st.interrupt is Some {
        assert(seq_sem(t, st) == r0);
        assert(seq_sem(ns, st) == r0);
    } else {
        assert(k >= 1) by {
            if k == 0 {
                assert(t.drop_first() =~= Seq::<Renderable>::empty());
                assert(seq_sem(t, st) == sem_append(r0.out, seq_sem(t.drop_first(), r0.st)));
                assert(seq_sem(t.drop_first(), r0.st).st == r0.st);
            }
        }
        assert(t.drop_first() =~= ns.drop_first().take(k));
        assert(seq_sem(t, st) == sem_append(r0.out, seq_sem(ns.drop_first().take(k), r0.st)));
        interrupt_law(ns.drop_first(), r0.st, k - 1);
        assert(seq_sem(ns, st) == sem_append(r0.out, seq_sem(ns.drop_first(), r0.st)));
    }
}

/// Global-write law, at the scope stack: writing a name into the outermost
/// frame makes any later read of that name see the written value, from any
/// nesting depth, as long as no inner frame shadows the name.
pub proof fn global_write_read_law(st: RtState, x: Seq<char>, v: Val)
    requires
        st.wf(),
        forall|i: int| 1 <= i < st.frames.len() ==> alist_find(#[trigger] st.frames[i], x)
            is None,
    ensures
        st.set_global(x, v).lookup(x) == Some(v),
{
    let st2 = st.set_global(x, v);
    lemma_alist_set_find_same(st.frames[0], x, v);
    lemma_lookup_unshadowed(st2.frames, x, v);
}

/// A stack whose outermost frame binds `x` and whose other frames do not
/// resolves `x` to the outermost binding.
proof fn lemma_lookup_unshadowed(frames: Seq<Seq<(Seq<char>, Val)>>, x: Seq<char>, v: Val)
    requires
        frames.len() >= 1,
        alist_find(frames[0], x) == Some(v),
        forall|i: int| 1 <= i < frames.len() ==> alist_find(#[trigger] frames[i], x) is None,
    ensures
        lookup_frames(frames, x) == Some(v),
    decreases frames.len(),
{
    if frames.len() == 1 {
        assert(frames.last() == frames[0]);
    } else {
        assert(frames.last() == frames[frames.len() - 1]);
        assert(alist_find(frames.last(), x) is None);
        assert(frames.drop_last()[0] == frames[0]);
        lemma_lookup_unshadowed(frames.drop_last(), x, v);
    }
}

/// Global-write law, at the expression level: after `assign` writes `x`,
/// an output expression reading the bare name `x` evaluates to exactly the
/// assigned value, whatever the nesting depth, as long as no inner frame
/// shadows `x`.
pub proof fn global_write_render_law(st: RtState, e: Expression, v: Val)
    requires
        st.wf(),
        e is Path,
        e->Path_1@.len() == 0,
        forall|i: int| 1 <= i < st.frames.len() ==> alist_find(#[trigger] st.frames[i],
        e->Path_0@) is None,
    ensures
        eval_expr(e, st.set_global(e->Path_0@, v)) == v,
{
    global_write_read_law(st, e->Path_0@, v);
    assert(seg_views(e->Path_1@) =~= Seq::<crate::expression::SegV>::empty());
}

/// Global-write law, the frame side: writing one name into the outermost
/// frame leaves every other name's reading unchanged, at any depth.
pub proof fn global_write_other_names_law(st: RtState, x: Seq<char>, v: Val, y: Seq<char>)
    requires
        st.wf(),
        y != x,
    ensures
        st.set_global(x, v).lookup(y) == st.lookup(y),
{
    lemma_lookup_update_outermost(st.frames, x, v, y);
}

/// Replacing the outermost frame's binding of `x` does not change what any
/// other name resolves to.
proof fn lemma_lookup_update_outermost(frames: Seq<Seq<(Seq<char>, Val)>>, x: Seq<char>, v: Val,
    y: Seq<char>)
    requires
        frames.len() >= 1,
        y != x,
    ensures
        lookup_frames(frames.update(0, alist_set(frames[0], x, v)), y) == lookup_frames(frames,
        y),
    decreases frames.len(),
{
    let f2 = frames.update(0, alist_set(frames[0], x, v));
    if frames.len() == 1 {
        assert(f2.last() == alist_set(frames[0], x, v));
        lemma_alist_set_find_other(frames[0], x, v, y);
        assert(f2.drop_last() =~= Seq::<Seq<(Seq<char>, Val)>>::empty());
        assert(frames.drop_last() =~= Seq::<Seq<(Seq<char>, Val)>>::empty());
    } else {
        assert(f2.last() == frames.last());
        assert(f2.drop_last() =~= frames.drop_last().update(0, alist_set(frames[0], x, v)));
        assert(frames.drop_last()[0] == frames[0]);
        lemma_lookup_update_outermost(frames.drop_last(), x, v, y);
    }
}

/// Global-write law, at the node level: when `assign` writes `x` and an
/// output tag later reads the bare name `x`, that output renders exactly
/// the text that rendering the assigned expression at the assignment site
/// would have produced — as long as no inner frame shadows `x` at the
/// read.
pub proof fn global_write_law(asn: Renderable, outp: Renderable, st: RtState)
    requires
        st.wf(),
        asn is Assign,
        outp is Output,
        outp->Output_0.filters@.len() == 0,
        outp->Output_0.entry is Path,
        outp->Output_0.entry->Path_0@ == asn->Assign_0.dst@,
        outp->Output_0.entry->Path_1@.len() == 0,
        chain_res(asn->Assign_0.src, st) is Good,
        forall|i: int| 1 <= i < st.frames.len() ==> alist_find(#[trigger] st.frames[i],
        asn->Assign_0.dst@) is None,
    ensures
        node_sem(asn, st).ok,
        node_sem(outp, node_sem(asn, st).st).out == render_of(chain_res(asn->Assign_0.src,
        st)->Good_0),
{
    let v = chain_res(asn->Assign_0.src, st)->Good_0;
    let st2 = node_sem(asn, st).st;
    assert(st2 == st.set_global(asn->Assign_0.dst@, v));
    global_write_render_law(st, outp->Output_0.entry, v);
    filter_chain_identity_law(outp->Output_0, st2);
}

/// Scope discipline: entering and leaving a scope never touches the
/// outermost frame, so a global write survives any balanced run of pushes
/// and pops around it.
pub proof fn push_pop_preserve_globals(st: RtState)
    requires
        st.wf(),
    ensures
        st.push_frame().frames[0] == st.frames[0],
        st.push_frame().pop_frame() =~~= st,
        st.pop_frame().frames[0] == st.frames[0],
{
    assert(st.push_frame().frames.drop_last() =~= st.frames);
}

} // verus!
