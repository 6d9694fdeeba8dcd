//! The per-render execution state: a stack of variable scope frames
//! (outermost first, innermost last), a register store that blocks use to
//! keep state across repeated renders within one pass, and a tri-state
//! interrupt signal.
//!
//! `get` scans frames innermost to outermost and takes the first binding;
//! `set_local` writes into the innermost frame; `set_global` always writes
//! into the outermost frame, whatever the current depth — this is what makes
//! an assignment inside a loop body visible after the loop ends.

use vstd::prelude::*;
use crate::alist::{alist_find, alist_set, lemma_alist_find_at, lemma_alist_find_none,
    lemma_alist_set_at, lemma_alist_set_append};
use crate::value::{Val, Value, val_of};

verus! {

/// The two interrupt flavours a control-flow tag can raise.
#[derive(Debug, Clone, Copy, PartialEq, Eq)]
pub enum InterruptKind {
    Break,
    Continue,
}

/// Remembers the content of the last rendered text of one block occurrence.
#[derive(Debug)]
pub struct State {
    last_rendered: Option<String>,
}

impl State {
    /// The view of a register state: the remembered text, if any.
    pub closed spec fn view(&self) -> Option<Seq<char>> {
        match self.last_rendered {
            Option::None => Option::None,
            Option::Some(s) => Option::Some(s@),
        }
    }

    /// A state that remembers nothing yet.
    pub fn new() -> (r: State)
        ensures
            r@ is None,
    {
        State { last_rendered: None }
    }

    /// Whether `rendered` differs from the remembered text (or nothing is
    /// remembered yet); afterwards `rendered` is what is remembered.
    pub fn has_changed(&mut self, rendered: &str) -> (r: bool)
        ensures
            r == (old(self)@ != Option::Some(rendered@)),
            final(self)@ == Option::Some(rendered@),
    {
        let has_changed = match &self.last_rendered {
            Option::Some(last) => !str_eq_string(last, rendered),
            Option::None => true,
        };
        self.last_rendered = Some(rendered.to_owned());
        has_changed
    }

    /// A copy with the same view.
    pub fn duplicate(&self) -> (r: State)
        ensures
            r@ == self@,
    {
        match &self.last_rendered {
            Option::Some(s) => State { last_rendered: Some(s.clone()) },
            Option::None => State { last_rendered: None },
        }
    }
}

/// Whether a string slice and a string hold the same characters.
fn str_eq_string(a: &String, b: &str) -> (r: bool)
    ensures
        r == (a@ == b@),
{
    let bs = b.to_owned();
    *a == bs
}

/// The mathematical shape of a runtime: scope frames (outermost first), the
/// register store, and the interrupt signal.
#[verifier::ext_equal]
pub struct RtState {
    pub frames: Seq<Seq<(Seq<char>, Val)>>,
    pub regs: Seq<(u64, Option<Seq<char>>)>,
    pub interrupt: Option<InterruptKind>,
}

/// First binding of `k`, scanning frames innermost (last) to outermost
/// (first).
pub open spec fn lookup_frames(frames: Seq<Seq<(Seq<char>, Val)>>, k: Seq<char>) -> Option<Val>
    decreases frames.len(),
{
    if frames.len() == 0 {
        None
    } else {
        match alist_find(frames.last(), k) {
            Option::Some(v) => Some(v),
            Option::None => lookup_frames(frames.drop_last(), k),
        }
    }
}

impl RtState {
    /// Frames exist: the outermost frame is always there.
    pub open spec fn wf(self) -> bool {
        self.frames.len() >= 1
    }

    /// First binding of `k`, innermost scope first.
    pub open spec fn lookup(self, k: Seq<char>) -> Option<Val> {
        lookup_frames(self.frames, k)
    }

    /// The binding a variable expression sees: a missing name reads as nil.
    pub open spec fn lookup_or_nil(self, k: Seq<char>) -> Val {
        match self.lookup(k) {
            Option::Some(v) => v,
            Option::None => Val::Nil,
        }
    }

    /// Write into the outermost frame.
    pub open spec fn set_global(self, k: Seq<char>, v: Val) -> RtState {
        RtState { frames: self.frames.update(0, alist_set(self.frames[0], k, v)), ..self }
    }

    /// Write into the innermost frame.
    pub open spec fn set_local(self, k: Seq<char>, v: Val) -> RtState {
        RtState {
            frames: self.frames.update(
                self.frames.len() - 1,
                alist_set(self.frames.last(), k, v),
            ),
            ..self
        }
    }

    /// Enter a scope: an empty innermost frame.
    pub open spec fn push_frame(self) -> RtState {
        RtState { frames: self.frames.push(Seq::empty()), ..self }
    }

    /// Leave a scope. The outermost frame is never dropped.
    pub open spec fn pop_frame(self) -> RtState {
        if self.frames.len() >= 2 {
            RtState { frames: self.frames.drop_last(), ..self }
        } else {
            self
        }
    }

    /// The remembered text of one register, if that register was written.
    pub open spec fn reg_lookup(self, id: u64) -> Option<Seq<char>> {
        match alist_find(self.regs, id) {
            Option::Some(s) => s,
            Option::None => Option::None,
        }
    }

    /// Write one register.
    pub open spec fn reg_set(self, id: u64, s: Option<Seq<char>>) -> RtState {
        RtState { regs: alist_set(self.regs, id, s), ..self }
    }

    /// Set the interrupt signal.
    pub open spec fn with_interrupt(self, i: Option<InterruptKind>) -> RtState {
        RtState { interrupt: i, ..self }
    }
}

/// The view of one scope frame.
pub open spec fn frame_view(f: Seq<(String, Value)>) -> Seq<(Seq<char>, Val)> {
    Seq::new(f.len(), |i: int| (f[i].0@, val_of(f[i].1)))
}

/// The per-render mutable execution context. One is created fresh for each
/// render pass and discarded at its end.
#[derive(Debug)]
pub struct Runtime {
    frames: Vec<Vec<(String, Value)>>,
    registers: Vec<(u64, State)>,
    interrupt: Option<InterruptKind>,
}

impl Runtime {
    /// The mathematical shape of this runtime.
    pub closed spec fn view(&self) -> RtState {
        RtState {
            frames: Seq::new(self.frames@.len(), |i: int| frame_view(self.frames@[i]@)),
            regs: Seq::new(self.registers@.len(), |i: int| (self.registers@[i].0,
            self.registers@[i].1@)),
            interrupt: self.interrupt,
        }
    }

    /// Frames exist: the outermost frame is always there.
    pub open spec fn wf(&self) -> bool {
        self@.wf()
    }

    /// A fresh runtime: one empty global frame, no registers, no interrupt.
    pub fn new() -> (r: Runtime)
        ensures
            r.wf(),
            r@.frames =~~= seq![Seq::<(Seq<char>, Val)>::empty()],
            r@.regs =~~= Seq::<(u64, Option<Seq<char>>)>::empty(),
            r@.interrupt is None,
    {
        let mut frames: Vec<Vec<(String, Value)>> = Vec::new();
        frames.push(Vec::new());
        let r = Runtime { frames, registers: Vec::new(), interrupt: None };
        proof {
            assert(r@.frames[0] =~~= Seq::<(Seq<char>, Val)>::empty());
        }
        r
    }

    /// The current interrupt signal.
    pub fn interrupt(&self) -> (r: Option<InterruptKind>)
        ensures
            r == self@.interrupt,
    {
        self.interrupt
    }

    /// Raise an interrupt signal.
    pub fn set_interrupt(&mut self, kind: InterruptKind)
        ensures
            final(self)@ =~~= old(self)@.with_interrupt(Some(kind)),
            final(self).wf() == old(self).wf(),
    {
        self.interrupt = Some(kind);
    }

    /// Clear the interrupt signal; only the construct that owns the loop
    /// semantics does this.
    pub fn clear_interrupt(&mut self)
        ensures
            final(self)@ =~~= old(self)@.with_interrupt(None),
            final(self).wf() == old(self).wf(),
    {
        self.interrupt = None;
    }

    /// Enter a scope: push an empty innermost frame.
    pub fn push_frame(&mut self)
        ensures
            final(self)@ =~~= old(self)@.push_frame(),
            final(self).wf(),
    {
        self.frames.push(Vec::new());
        proof {
            assert(frame_view(self.frames@[self.frames@.len() - 1]@) =~~= Seq::<(Seq<char>,
            Val)>::empty());
            assert(self@.frames =~~= old(self)@.frames.push(Seq::<(Seq<char>, Val)>::empty()));
        }
    }

    /// Leave a scope: drop the innermost frame. The outermost frame stays.
    pub fn pop_frame(&mut self)
        requires
            old(self).wf(),
        ensures
            final(self)@ =~~= old(self)@.pop_frame(),
            final(self).wf(),
    {
        if self.frames.len() >= 2 {
            self.frames.pop();
            proof {
                assert(self@.frames =~~= old(self)@.frames.drop_last());
            }
        }
    }

    /// The first binding of `name`, scanning scopes innermost to outermost;
    /// the value comes back as a copy.
    pub fn get(&self, name: &String) -> (r: Option<Value>)
        ensures
            match r {
                Option::Some(v) => self@.lookup(name@) == Some(v@),
                Option::None => self@.lookup(name@) is None,
            },
    {
        match self.get_ref(name) {
            Option::Some(v) => Some(v.duplicate()),
            Option::None => None,
        }
    }

    /// The first binding of `name`, scanning scopes innermost to outermost,
    /// borrowed from the runtime itself: a bare variable read copies nothing.
    pub fn get_ref<'a>(&'a self, name: &String) -> (r: Option<&'a Value>)
        ensures
            match r {
                Option::Some(v) => self@.lookup(name@) == Some(val_of(*v)),
                Option::None => self@.lookup(name@) is None,
            },
    {
        let ghost frames = self@.frames;
        proof {
            assert(frames.take(frames.len() as int) =~~= frames);
        }
        let mut fi: usize = self.frames.len();
        while fi > 0
            invariant
                fi <= self.frames@.len(),
                frames == self@.frames,
                frames.len() == self.frames@.len(),
                lookup_frames(frames, name@) == lookup_frames(frames.take(fi as int), name@),
            decreases fi,
        {
            proof {
                assert(frames.take(fi as int).last() =~~= frame_view(self.frames@[fi - 1]@));
                assert(frames.take(fi as int).drop_last() =~~= frames.take(fi - 1));
            }
            let frame = &self.frames[fi - 1];
            let mut ei: usize = 0;
            let n = frame.len();
            while ei < n
                invariant
                    ei <= n,
                    n == frame@.len(),
                    fi >= 1,
                    fi <= frames.len(),
                    frames == self@.frames,
                    frames.len() == self.frames@.len(),
                    frame_view(frame@) == frames[fi - 1],
                    lookup_frames(frames, name@) == lookup_frames(frames.take(fi as int), name@),
                    forall|j: int| 0 <= j < ei ==> (#[trigger] frame_view(frame@)[j]).0 != name@,
                decreases n - ei,
            {
                if str_equal(&frame[ei].0, name) {
                    proof {
                        lemma_alist_find_at(frame_view(frame@), name@, ei as int);
                        assert(alist_find(frames.take(fi as int).last(), name@) == Some(
                        frame_view(frame@)[ei as int].1));
                    }
                    return Some(&frame[ei].1);
                }
                proof {
                    assert(frame_view(frame@)[ei as int].0 == frame@[ei as int].0@);
                }
                ei = ei + 1;
            }
            proof {
                lemma_alist_find_none(frame_view(frame@), name@);
                assert(alist_find(frames.take(fi as int).last(), name@) is None);
            }
            fi = fi - 1;
        }
        proof {
            assert(frames.take(0) =~~= Seq::<Seq<(Seq<char>, Val)>>::empty());
        }
        None
    }

    /// Write `val` under `name` into the outermost frame, whatever the
    /// current nesting depth.
    pub fn set_global(&mut self, name: String, val: Value)
        requires
            old(self).wf(),
        ensures
            final(self)@ =~~= old(self)@.set_global(name@, val_of(val)),
            final(self).wf(),
    {
        let mut frame = self.frames.remove(0);
        frame_insert(&mut frame, name, val);
        self.frames.insert(0, frame);
        proof {
            assert(self@.frames =~~= old(self)@.frames.update(0, alist_set(
            old(self)@.frames[0], name@, val_of(val))));
        }
    }

    /// Write `val` under `name` into the innermost frame.
    pub fn set_local(&mut self, name: String, val: Value)
        requires
            old(self).wf(),
        ensures
            final(self)@ =~~= old(self)@.set_local(name@, val_of(val)),
            final(self).wf(),
    {
        let last = self.frames.len() - 1;
        let mut frame = self.frames.remove(last);
        frame_insert(&mut frame, name, val);
        self.frames.push(frame);
        proof {
            assert(self@.frames =~~= old(self)@.frames.update(
            old(self)@.frames.len() - 1, alist_set(old(self)@.frames.last(), name@,
            val_of(val))));
        }
    }

    /// The state of one register, as a copy; a register never written reads
    /// as a fresh state.
    pub fn get_register(&self, id: u64) -> (r: State)
        ensures
            r@ == self@.reg_lookup(id),
    {
        let mut i: usize = 0;
        let n = self.registers.len();
        while i < n
            invariant
                i <= n,
                n == self.registers@.len(),
                forall|j: int| 0 <= j < i ==> (#[trigger] self@.regs[j]).0 != id,
                self@.regs.len() == n,
                forall|j: int| 0 <= j < n ==> #[trigger] self@.regs[j] == (
                self.registers@[j].0, self.registers@[j].1@),
            decreases n - i,
        {
            if self.registers[i].0 == id {
                proof {
                    lemma_alist_find_at(self@.regs, id, i as int);
                }
                return self.registers[i].1.duplicate();
            }
            i = i + 1;
        }
        proof {
            lemma_alist_find_none(self@.regs, id);
        }
        State::new()
    }

    /// Write the state of one register.
    pub fn set_register(&mut self, id: u64, st: State)
        ensures
            final(self)@ =~~= old(self)@.reg_set(id, st@),
            final(self).wf() == old(self).wf(),
    {
        let ghost regs = self@.regs;
        let mut i: usize = 0;
        let n = self.registers.len();
        while i < n
            invariant
                i <= n,
                n == self.registers@.len(),
                forall|j: int| 0 <= j < i ==> (#[trigger] regs[j]).0 != id,
                regs.len() == n,
                regs == self@.regs,
                forall|j: int| 0 <= j < n ==> #[trigger] regs[j] == (self.registers@[j].0,
                self.registers@[j].1@),
                regs == old(self)@.regs,
                self.interrupt == old(self).interrupt,
                self.frames == old(self).frames,
                self@.frames == old(self)@.frames,
                self@.interrupt == old(self)@.interrupt,
            decreases n - i,
        {
            if self.registers[i].0 == id {
                proof {
                    lemma_alist_set_at(regs, id, st@, i as int);
                }
                self.registers.remove(i);
                self.registers.insert(i, (id, st));
                proof {
                    assert(self@.regs =~~= regs.update(i as int, (id, st@)));
                    assert(regs =~~= old(self)@.regs);
                    assert(self@.regs =~~= alist_set(old(self)@.regs, id, st@));
                    assert(self@.frames =~~= old(self)@.frames);
                    assert(self@ =~~= old(self)@.reg_set(id, st@));
                }
                return;
            }
            i = i + 1;
        }
        proof {
            lemma_alist_set_append(regs, id, st@);
        }
        self.registers.push((id, st));
        proof {
            assert(self@.regs =~~= regs.push((id, st@)));
        }
    }
}

/// Whether two strings hold the same characters.
pub fn str_equal(a: &String, b: &String) -> (r: bool)
    ensures
        r == (a@ == b@),
{
    *a == *b
}

/// Write `val` under `name` into one frame: the first pair bound to `name`
/// is replaced, or a fresh pair is appended.
fn frame_insert(frame: &mut Vec<(String, Value)>, name: String, val: Value)
    ensures
        frame_view(final(frame)@) =~~= alist_set(frame_view(old(frame)@), name@, val_of(val)),
{
    let ghost fv = frame_view(frame@);
    let mut i: usize = 0;
    let n = frame.len();
    while i < n
        invariant
            i <= n,
            n == frame@.len(),
            fv == frame_view(frame@),
            fv == frame_view(old(frame)@),
            frame@ == old(frame)@,
            fv.len() == n,
            forall|j: int| 0 <= j < i ==> (#[trigger] fv[j]).0 != name@,
            forall|j: int| 0 <= j < n ==> #[trigger] fv[j] == (frame@[j].0@, val_of(
            frame@[j].1)),
        decreases n - i,
    {
        if str_equal(&frame[i].0, &name) {
            proof {
                lemma_alist_set_at(fv, name@, val_of(val), i as int);
            }
            frame.remove(i);
            frame.insert(i, (name, val));
            proof {
                assert(frame_view(frame@) =~~= fv.update(i as int, (name@, val_of(val))));
                assert(fv =~~= frame_view(old(frame)@));
                assert(frame_view(frame@) =~~= alist_set(frame_view(old(frame)@), name@,
                val_of(val)));
            }
            return;
        }
        i = i + 1;
    }
    proof {
        lemma_alist_set_append(fv, name@, val_of(val));
    }
    frame.push((name, val));
    proof {
        assert(frame_view(frame@) =~~= fv.push((name@, val_of(val))));
    }
}

} // verus!
