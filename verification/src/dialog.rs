//! Dialogue scripts.
//!
//! A [`Dialog`] is a composite script: a fixed list of frames shown one after
//! another, each waiting for an "advance" event (the player dismissing the
//! frame) before the next one is shown. It is one of the built-in script
//! kinds; the other is whatever native game behaviour implements
//! [`Script`] directly.

use vstd::prelude::*;
use crate::game_context::GameContext;
use crate::script::{Computation, EventHandle, Script, ScriptHandle, StepOutcome};

verus! {

/// One frame of a dialogue: the text shown until the player advances.
#[derive(Debug)]
pub struct DialogFrame {
    pub text: String,
}

impl Clone for DialogFrame {
    fn clone(&self) -> (r: Self)
        ensures
            r == *self,
    {
        DialogFrame { text: self.text.clone() }
    }
}

/// A dialogue sequence: a fixed list of frames run one after another, each
/// suspending until `advance_event` is raised.
#[derive(Debug)]
pub struct Dialog {
    frames: Vec<DialogFrame>,
    advance_event: EventHandle,
}

impl Clone for Dialog {
    fn clone(&self) -> (r: Self)
        ensures
            r.spec_frames() == self.spec_frames(),
            r.spec_advance_event() == self.spec_advance_event(),
    {
        let mut frames: Vec<DialogFrame> = Vec::new();
        let mut i: usize = 0;
        while i < self.frames.len()
            invariant
                i <= self.frames.len(),
                frames@ == self.frames@.take(i as int),
            decreases self.frames.len() - i,
        {
            frames.push(self.frames[i].clone());
            i = i + 1;
        }
        proof {
            assert(frames@ =~= self.frames@);
        }
        Dialog { frames, advance_event: self.advance_event }
    }
}

impl Dialog {
    /// The frames, in the order they are shown.
    pub closed spec fn spec_frames(self) -> Seq<DialogFrame> {
        self.frames@
    }

    /// The event each frame waits on before the dialogue moves past it.
    pub closed spec fn spec_advance_event(self) -> EventHandle {
        self.advance_event
    }

    pub fn new(frames: Vec<DialogFrame>, advance_event: EventHandle) -> (r: Self)
        ensures
            r.spec_frames() == frames@,
            r.spec_advance_event() == advance_event,
    {
        Dialog { frames, advance_event }
    }
}

/// The suspended state of a running dialogue: the frames, how many have been
/// shown so far, and the event that advances it.
pub struct DialogComputation {
    pub frames: Vec<DialogFrame>,
    pub shown: usize,
    pub advance_event: EventHandle,
}

impl Computation for DialogComputation {
    /// With frames left, one step shows the next frame, subscribes to the
    /// advance event and suspends; with none left, the step completes the
    /// dialogue and changes nothing.
    open spec fn step_ens(
        pre: Self,
        wake_event: Option<EventHandle>,
        post: Self,
        subscriptions: Seq<EventHandle>,
        done: bool,
    ) -> bool {
        if pre.shown < pre.frames@.len() {
            &&& post.frames@ == pre.frames@
            &&& post.shown == pre.shown + 1
            &&& post.advance_event == pre.advance_event
            &&& subscriptions == seq![pre.advance_event]
            &&& !done
        } else {
            &&& post == pre
            &&& subscriptions == Seq::<EventHandle>::empty()
            &&& done
        }
    }

    fn step(&mut self, wake_event: Option<EventHandle>) -> (outcome: StepOutcome)
        ensures
            Self::step_ens(
                *old(self),
                wake_event,
                *final(self),
                outcome.subscriptions@,
                outcome.done,
            ),
    {
        let mut subscriptions: Vec<EventHandle> = Vec::new();
        if self.shown < self.frames.len() {
            self.shown = self.shown + 1;
            subscriptions.push(self.advance_event);
            proof {
                assert(subscriptions@ =~= seq![old(self).advance_event]);
            }
            StepOutcome { subscriptions, done: false }
        } else {
            proof {
                assert(subscriptions@ =~= Seq::<EventHandle>::empty());
            }
            StepOutcome { subscriptions, done: true }
        }
    }
}

impl Script<DialogComputation> for Dialog {
    /// Starting a dialogue produces a computation over the same frames and
    /// advance event, with nothing shown yet; the dialogue itself is left as
    /// it was.
    open spec fn start_ens(
        pre: Self,
        script_handle: ScriptHandle,
        post: Self,
        computation: DialogComputation,
    ) -> bool {
        &&& computation.frames@ == pre.spec_frames()
        &&& computation.shown == 0
        &&& computation.advance_event == pre.spec_advance_event()
        &&& post.spec_frames() == pre.spec_frames()
        &&& post.spec_advance_event() == pre.spec_advance_event()
    }

    fn start(&mut self, script_handle: ScriptHandle, context: GameContext) -> DialogComputation {
        let mut frames: Vec<DialogFrame> = Vec::new();
        let mut i: usize = 0;
        while i < self.frames.len()
            invariant
                i <= self.frames.len(),
                frames@ == self.frames@.take(i as int),
            decreases self.frames.len() - i,
        {
            frames.push(self.frames[i].clone());
            i = i + 1;
        }
        proof {
            assert(frames@ =~= self.frames@);
        }
        DialogComputation { frames, shown: 0, advance_event: self.advance_event }
    }
}

} // verus!
