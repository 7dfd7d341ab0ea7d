//! Script and event identifiers, and the script capability.
//!
//! A script is a unit of suspendable game logic: entered once via
//! [`Script::start`], it yields a [`Computation`] that the runtime advances
//! step by step. Each step runs until the computation either completes or
//! suspends itself to wait for an event; suspension is communicated to the
//! executor through the returned [`StepOutcome`], which carries the
//! subscriptions the computation asks for before it sleeps.

use vstd::prelude::*;
use crate::game_context::GameContext;
use crate::handle::{Handle, HandleGenerator};

verus! {

/// Marker for the event identifier family.
#[derive(Debug, Copy, Clone, Eq, PartialEq, Ord, PartialOrd, Hash)]
pub struct EventTag;

/// Marker for the script identifier family.
#[derive(Debug, Copy, Clone, Eq, PartialEq, Ord, PartialOrd, Hash)]
pub struct ScriptTag;

/// Identifier of a discretely named occurrence that scripts can wait on.
pub type EventHandle = Handle<EventTag>;

/// Issues fresh [`EventHandle`]s.
pub type EventHandleGenerator = HandleGenerator<EventTag>;

/// Identifier of a live script registered with the runtime.
pub type ScriptHandle = Handle<ScriptTag>;

/// Issues fresh [`ScriptHandle`]s.
pub type ScriptHandleGenerator = HandleGenerator<ScriptTag>;

/// What one step of a computation reports back to the executor.
///
/// `subscriptions` lists, in order, the events the computation subscribed
/// itself to during this step; the executor records them before anything else
/// happens. `done` tells whether the computation ran to completion (`true`)
/// or suspended, waiting for the events it subscribed to (`false`).
pub struct StepOutcome {
    pub subscriptions: Vec<EventHandle>,
    pub done: bool,
}

/// A suspendable computation: the heap-resident state of a script between
/// resumptions, advanced one step at a time by the runtime.
///
/// Progress is purely caller-driven: there is no hidden scheduler or timer,
/// so a step must describe everything it asks of the executor in its
/// [`StepOutcome`].
pub trait Computation: Sized {
    /// The exact effect of one step: from the state `pre`, woken by
    /// `wake_event`, the computation moves to state `post`, asks for
    /// `subscriptions` (in order), and reports completion as `done`.
    spec fn step_ens(
        pre: Self,
        wake_event: Option<EventHandle>,
        post: Self,
        subscriptions: Seq<EventHandle>,
        done: bool,
    ) -> bool;

    /// Advances the computation exactly one step, until its next suspension
    /// or its completion. `wake_event` is the event that caused this
    /// resumption (`None` for the very first step, driven by
    /// `start_script` itself).
    fn step(&mut self, wake_event: Option<EventHandle>) -> (outcome: StepOutcome)
        ensures
            Self::step_ens(
                *old(self),
                wake_event,
                *final(self),
                outcome.subscriptions@,
                outcome.done,
            ),
    ;
}

/// The script capability: anything that can produce, given a freshly
/// allocated handle and a shared game context, a suspendable computation
/// representing its whole body.
pub trait Script<C: Computation>: Sized {
    /// What starting yields: relates the script before and after the call,
    /// the handle it was given, and the computation it produced.
    spec fn start_ens(pre: Self, script_handle: ScriptHandle, post: Self, computation: C) -> bool;

    /// Called exactly once per started script, by the runtime, to obtain the
    /// script's initial suspended computation.
    fn start(&mut self, script_handle: ScriptHandle, context: GameContext) -> (computation: C)
        ensures
            Self::start_ens(*old(self), script_handle, *final(self), computation),
    ;
}

} // verus!
