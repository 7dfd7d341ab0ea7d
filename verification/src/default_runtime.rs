//! The cooperative script executor.
//!
//! A [`DefaultRuntime`] owns the subscription bus (which scripts wait on
//! which event) and the table of live scripts, and drives every resumption:
//! fully synchronous, single-threaded, and caller-driven. Starting a script
//! registers it and advances it once; raising an event detaches the event's
//! subscriber list and resumes every script in it, in subscription order,
//! exactly once per entry.
//!
//! Everything the executor does to its tables is captured by the
//! [`RuntimeModel`] transition relations, so callers can reason about raises
//! and starts without looking at the executor's internals.

use vstd::prelude::*;
use vstd::pervasive::unreached;
use crate::game_context::GameContext;
use crate::script::{
    Computation, EventHandle, Script, ScriptHandle, ScriptHandleGenerator, StepOutcome,
};

verus! {

/// The scripts waiting to be resumed the next time one event is raised.
///
/// Entries are one-shot: a raise consumes the whole list atomically before
/// resuming anyone in it. Duplicates are kept: each entry independently
/// causes one resume attempt.
struct SubscriberList {
    once: Vec<ScriptHandle>,
}

/// What the runtime keeps per live script: the script's suspended
/// computation and the event that most recently caused it to resume (`None`
/// until the first event-triggered resume).
pub struct ScriptState<C> {
    pub wake_event: Option<EventHandle>,
    pub computation: C,
}

impl<C> ScriptState<C> {
    fn from_computation(computation: C) -> (r: Self)
        ensures
            r.wake_event is None,
            r.computation == computation,
    {
        ScriptState { wake_event: None, computation }
    }
}

/// The runtime's state, mathematically: the subscriber list of every event
/// some script waits on, the state of every live script, and the id the next
/// started script will receive.
#[verifier::ext_equal]
pub struct RuntimeModel<C> {
    pub subscribers: Map<EventHandle, Seq<ScriptHandle>>,
    pub scripts: Map<ScriptHandle, ScriptState<C>>,
    pub next_script_id: u64,
}

impl<C> RuntimeModel<C> {
    /// Every handle a subscriber list holds belongs to a live script, and no
    /// live script carries an id the generator has not issued yet.
    pub open spec fn inv(self) -> bool {
        &&& forall|e: EventHandle, k: int|
            self.subscribers.dom().contains(e) && 0 <= k < self.subscribers[e].len()
                ==> self.scripts.dom().contains(#[trigger] self.subscribers[e][k])
        &&& forall|h: ScriptHandle|
            #[trigger] self.scripts.dom().contains(h) ==> h.id() < self.next_script_id
    }

    /// The scripts currently waiting on `event`, oldest subscription first;
    /// empty if no list exists.
    pub open spec fn event_list(self, event: EventHandle) -> Seq<ScriptHandle> {
        if self.subscribers.dom().contains(event) {
            self.subscribers[event]
        } else {
            Seq::empty()
        }
    }

    /// One subscription appended: `script` now also waits on `event`, behind
    /// everyone already waiting.
    pub open spec fn subscribed(self, event: EventHandle, script: ScriptHandle) -> Self {
        RuntimeModel {
            subscribers: self.subscribers.insert(event, self.event_list(event).push(script)),
            scripts: self.scripts,
            next_script_id: self.next_script_id,
        }
    }

    /// The subscriptions of one step applied in order.
    pub open spec fn subscribed_all(
        self,
        script: ScriptHandle,
        events: Seq<EventHandle>,
    ) -> Self
        decreases events.len(),
    {
        if events.len() == 0 {
            self
        } else {
            self.subscribed(events[0], script).subscribed_all(script, events.drop_first())
        }
    }

    /// The subscriber list of `event` detached, about to be consumed by a
    /// raise.
    pub open spec fn detached(self, event: EventHandle) -> Self {
        RuntimeModel {
            subscribers: self.subscribers.remove(event),
            scripts: self.scripts,
            next_script_id: self.next_script_id,
        }
    }

    /// `script`'s wake event recorded and its computation advanced to
    /// `computation`.
    pub open spec fn with_state(
        self,
        script: ScriptHandle,
        wake_event: Option<EventHandle>,
        computation: C,
    ) -> Self {
        RuntimeModel {
            subscribers: self.subscribers,
            scripts: self.scripts.insert(script, ScriptState { wake_event, computation }),
            next_script_id: self.next_script_id,
        }
    }

    /// `script` gone for good: dropped from the live table and pruned out of
    /// every still-pending subscriber list.
    pub open spec fn without_script(self, script: ScriptHandle) -> Self {
        RuntimeModel {
            subscribers: Map::new(
                |e: EventHandle| self.subscribers.dom().contains(e),
                |e: EventHandle| seq_without(self.subscribers[e], script),
            ),
            scripts: self.scripts.remove(script),
            next_script_id: self.next_script_id,
        }
    }

    /// A new script registered under the fresh handle `script`, not yet
    /// advanced: no wake event, computation as the script produced it.
    pub open spec fn started(self, script: ScriptHandle, computation: C) -> Self {
        RuntimeModel {
            subscribers: self.subscribers,
            scripts: self.scripts.insert(
                script,
                ScriptState { wake_event: None, computation },
            ),
            next_script_id: (self.next_script_id + 1) as u64,
        }
    }
}

/// Subscribing a live script preserves the model invariant.
proof fn lemma_subscribed_inv<C>(m: RuntimeModel<C>, event: EventHandle, script: ScriptHandle)
    requires
        m.inv(),
        m.scripts.dom().contains(script),
    ensures
        m.subscribed(event, script).inv(),
{
    let post = m.subscribed(event, script);
    assert forall|e: EventHandle, k: int|
        post.subscribers.dom().contains(e) && 0 <= k < post.subscribers[e].len() implies post
        .scripts.dom().contains(#[trigger] post.subscribers[e][k]) by {
        if e == event {
            if k < m.event_list(event).len() {
                if m.subscribers.dom().contains(event) {
                    assert(post.subscribers[e][k] == m.subscribers[event][k]);
                }
            } else {
                assert(post.subscribers[e][k] == script);
            }
        } else {
            assert(post.subscribers[e][k] == m.subscribers[e][k]);
        }
    }
}

/// `s` with every occurrence of `x` removed, order otherwise kept.
pub open spec fn seq_without(s: Seq<ScriptHandle>, x: ScriptHandle) -> Seq<ScriptHandle>
    decreases s.len(),
{
    if s.len() == 0 {
        Seq::empty()
    } else if s.last() == x {
        seq_without(s.drop_last(), x)
    } else {
        seq_without(s.drop_last(), x).push(s.last())
    }
}

/// What is left after pruning: exactly the other handles, in their order.
pub proof fn lemma_seq_without_membership(s: Seq<ScriptHandle>, x: ScriptHandle)
    ensures
        forall|y: ScriptHandle|
            #[trigger] seq_without(s, x).contains(y) <==> s.contains(y) && y != x,
    decreases s.len(),
{
    if s.len() > 0 {
        lemma_seq_without_membership(s.drop_last(), x);
        assert forall|y: ScriptHandle| #[trigger]
            seq_without(s, x).contains(y) implies s.contains(y) && y != x by {
            if s.last() != x && y == s.last() {
                assert(s[s.len() - 1] == y);
            } else {
                assert(seq_without(s.drop_last(), x).contains(y));
                let i = choose|i: int|
                    0 <= i < s.drop_last().len() && s.drop_last()[i] == y;
                assert(s[i] == y);
            }
        }
        assert forall|y: ScriptHandle| s.contains(y) && y != x implies #[trigger]
            seq_without(s, x).contains(y) by {
            let i = choose|i: int| 0 <= i < s.len() && s[i] == y;
            if i < s.len() - 1 {
                assert(s.drop_last()[i] == y);
                assert(seq_without(s.drop_last(), x).contains(y));
                if s.last() != x {
                    let j = choose|j: int|
                        0 <= j < seq_without(s.drop_last(), x).len() && seq_without(
                            s.drop_last(),
                            x,
                        )[j] == y;
                    assert(seq_without(s, x)[j] == y);
                }
            } else {
                assert(s.last() == y);
                assert(seq_without(s, x).last() == y);
            }
        }
    }
}

/// Completing a script preserves the model invariant: what remains in any
/// list was there before and still belongs to a live script.
proof fn lemma_without_script_inv<C>(m: RuntimeModel<C>, script: ScriptHandle)
    requires
        m.inv(),
    ensures
        m.without_script(script).inv(),
{
    let post = m.without_script(script);
    assert forall|e: EventHandle, k: int|
        post.subscribers.dom().contains(e) && 0 <= k < post.subscribers[e].len() implies post
        .scripts.dom().contains(#[trigger] post.subscribers[e][k]) by {
        lemma_seq_without_membership(m.subscribers[e], script);
        let y = post.subscribers[e][k];
        assert(seq_without(m.subscribers[e], script).contains(y));
        let i = choose|i: int| 0 <= i < m.subscribers[e].len() && m.subscribers[e][i] == y;
        assert(m.scripts.dom().contains(m.subscribers[e][i]));
    }
}

/// Recording a live script's step outcome preserves the model invariant.
proof fn lemma_with_state_inv<C>(
    m: RuntimeModel<C>,
    script: ScriptHandle,
    wake_event: Option<EventHandle>,
    computation: C,
)
    requires
        m.inv(),
        m.scripts.dom().contains(script),
    ensures
        m.with_state(script, wake_event, computation).inv(),
        m.with_state(script, wake_event, computation).scripts.dom() == m.scripts.dom(),
{
    assert(m.with_state(script, wake_event, computation).scripts.dom() =~= m.scripts.dom());
}

/// Subscribing one event at a time, the last one last: appending an event to
/// the subscription sequence subscribes to it after all the others.
proof fn lemma_subscribed_all_snoc<C>(
    m: RuntimeModel<C>,
    script: ScriptHandle,
    events: Seq<EventHandle>,
    event: EventHandle,
)
    ensures
        m.subscribed_all(script, events.push(event)) == m.subscribed_all(script, events)
            .subscribed(event, script),
    decreases events.len(),
{
    if events.len() == 0 {
        assert(events.push(event)[0] == event);
        assert(events.push(event).drop_first() =~= Seq::<EventHandle>::empty());
        assert(m.subscribed_all(script, events.push(event)) == m.subscribed(event, script)
            .subscribed_all(script, Seq::<EventHandle>::empty()));
        assert(m.subscribed(event, script).subscribed_all(script, Seq::<EventHandle>::empty())
            == m.subscribed(event, script));
        assert(m.subscribed_all(script, events) == m);
    } else {
        assert(events.push(event)[0] == events[0]);
        assert(events.push(event).drop_first() =~= events.drop_first().push(event));
        lemma_subscribed_all_snoc(
            m.subscribed(events[0], script),
            script,
            events.drop_first(),
            event,
        );
    }
}

/// Resume attempts chain: one more attempt extends the chain by one entry.
proof fn lemma_raise_rel_snoc<C: Computation>(
    pre: RuntimeModel<C>,
    list: Seq<ScriptHandle>,
    script: ScriptHandle,
    event: EventHandle,
    mid: RuntimeModel<C>,
    post: RuntimeModel<C>,
)
    requires
        raise_rel(pre, list, event, mid),
        resume_or_skip(mid, script, event, post),
    ensures
        raise_rel(pre, list.push(script), event, post),
    decreases list.len(),
{
    if list.len() == 0 {
        assert(list.push(script)[0] == script);
        assert(list.push(script).drop_first() =~= Seq::<ScriptHandle>::empty());
        assert(pre == mid);
        assert(resume_or_skip(pre, list.push(script)[0], event, post));
        assert(raise_rel(post, Seq::<ScriptHandle>::empty(), event, post));
    } else {
        let m1 = choose|m1: RuntimeModel<C>|
            #[trigger] resume_or_skip(pre, list[0], event, m1) && raise_rel(
                m1,
                list.drop_first(),
                event,
                mid,
            );
        lemma_raise_rel_snoc(m1, list.drop_first(), script, event, mid, post);
        assert(list.push(script)[0] == list[0]);
        assert(list.push(script).drop_first() =~= list.drop_first().push(script));
        assert(resume_or_skip(pre, list.push(script)[0], event, m1));
        assert(raise_rel(m1, list.push(script).drop_first(), event, post));
    }
}

/// The effect of one resumption of `script`, given what its step did: the
/// wake event is recorded and the computation advanced, the step's
/// subscriptions are appended in order, and a completed script is removed
/// from every table.
pub open spec fn apply_step<C: Computation>(
    pre: RuntimeModel<C>,
    script: ScriptHandle,
    wake_event: Option<EventHandle>,
    stepped: C,
    subscriptions: Seq<EventHandle>,
    done: bool,
) -> RuntimeModel<C> {
    let advanced = pre.with_state(script, wake_event, stepped).subscribed_all(
        script,
        subscriptions,
    );
    if done {
        advanced.without_script(script)
    } else {
        advanced
    }
}

/// One resumption of the registered script `script`, woken by `wake_event`:
/// its computation was advanced exactly one step, and the tables changed by
/// [`apply_step`] for what that step reported.
pub open spec fn resume_rel<C: Computation>(
    pre: RuntimeModel<C>,
    script: ScriptHandle,
    wake_event: Option<EventHandle>,
    post: RuntimeModel<C>,
) -> bool {
    &&& pre.scripts.dom().contains(script)
    &&& exists|stepped: C, subscriptions: Seq<EventHandle>, done: bool|
        C::step_ens(
            pre.scripts[script].computation,
            wake_event,
            stepped,
            subscriptions,
            done,
        ) && post == #[trigger] apply_step(pre, script, wake_event, stepped, subscriptions, done)
}

/// One resume attempt during a raise: a still-registered script is resumed;
/// a handle no longer registered (its script completed earlier in the same
/// raise) is passed over and nothing changes.
pub open spec fn resume_or_skip<C: Computation>(
    pre: RuntimeModel<C>,
    script: ScriptHandle,
    event: EventHandle,
    post: RuntimeModel<C>,
) -> bool {
    if pre.scripts.dom().contains(script) {
        resume_rel(pre, script, Some(event), post)
    } else {
        post == pre
    }
}

/// The whole of one raise, after the list was detached: every entry of
/// `list`, in order, gets exactly one resume attempt, each starting from the
/// state the previous one left behind.
pub open spec fn raise_rel<C: Computation>(
    pre: RuntimeModel<C>,
    list: Seq<ScriptHandle>,
    event: EventHandle,
    post: RuntimeModel<C>,
) -> bool
    decreases list.len(),
{
    if list.len() == 0 {
        post == pre
    } else {
        exists|mid: RuntimeModel<C>|
            #[trigger] resume_or_skip(pre, list[0], event, mid) && raise_rel(
                mid,
                list.drop_first(),
                event,
                post,
            )
    }
}

/// Subscribing never touches the live-script table or the handle counter.
pub proof fn lemma_subscribed_all_frame<C>(
    m: RuntimeModel<C>,
    script: ScriptHandle,
    events: Seq<EventHandle>,
)
    ensures
        m.subscribed_all(script, events).scripts == m.scripts,
        m.subscribed_all(script, events).next_script_id == m.next_script_id,
    decreases events.len(),
{
    if events.len() > 0 {
        lemma_subscribed_all_frame(m.subscribed(events[0], script), script, events.drop_first());
    }
}

/// Handles of scripts started later are strictly greater, hence all
/// distinct: each start hands out the counter's current value and advances
/// it, and no other operation ever decreases the counter.
pub proof fn lemma_start_handles_strictly_increase<C>(
    first_start: RuntimeModel<C>,
    first: ScriptHandle,
    second_start: RuntimeModel<C>,
    second: ScriptHandle,
)
    requires
        first.id() == first_start.next_script_id,
        second.id() == second_start.next_script_id,
        first_start.next_script_id < second_start.next_script_id,
    ensures
        first.id() < second.id(),
        first != second,
{
}

/// A step that reports completion removes its script from the live table; a
/// step that suspends leaves it registered. In particular, a script whose
/// very first step completes is gone already when `start_script` returns.
pub proof fn lemma_step_done_removes<C: Computation>(
    pre: RuntimeModel<C>,
    script: ScriptHandle,
    wake_event: Option<EventHandle>,
    stepped: C,
    subscriptions: Seq<EventHandle>,
)
    ensures
        !apply_step(pre, script, wake_event, stepped, subscriptions, true).scripts.dom().contains(
            script,
        ),
        apply_step(pre, script, wake_event, stepped, subscriptions, false).scripts.dom().contains(
            script,
        ),
{
    lemma_subscribed_all_frame(
        pre.with_state(script, wake_event, stepped),
        script,
        subscriptions,
    );
}

/// A script whose computation can only complete on its next step — one that
/// never suspends — is absent from the live table as soon as that step is
/// driven; in particular, such a script completes synchronously inside
/// `start_script` and is gone when it returns.
pub proof fn lemma_never_suspending_completes<C: Computation>(
    pre: RuntimeModel<C>,
    script: ScriptHandle,
    wake_event: Option<EventHandle>,
    post: RuntimeModel<C>,
)
    requires
        resume_rel(pre, script, wake_event, post),
        forall|stepped: C, subscriptions: Seq<EventHandle>, done: bool|
            C::step_ens(
                pre.scripts[script].computation,
                wake_event,
                stepped,
                subscriptions,
                done,
            ) ==> done,
    ensures
        !post.scripts.dom().contains(script),
{
    let (stepped, subscriptions, done): (C, Seq<EventHandle>, bool) = choose|
        stepped: C,
        subscriptions: Seq<EventHandle>,
        done: bool,
    |
        C::step_ens(
            pre.scripts[script].computation,
            wake_event,
            stepped,
            subscriptions,
            done,
        ) && post == #[trigger] apply_step(
            pre,
            script,
            wake_event,
            stepped,
            subscriptions,
            done,
        );
    lemma_step_done_removes(pre, script, wake_event, stepped, subscriptions);
}

/// A completed script leaves no entry behind: after the removal, no pending
/// subscriber list mentions it, so no later raise will attempt to resume the
/// unregistered handle.
pub proof fn lemma_completed_script_unsubscribed<C: Computation>(
    pre: RuntimeModel<C>,
    script: ScriptHandle,
    wake_event: Option<EventHandle>,
    stepped: C,
    subscriptions: Seq<EventHandle>,
)
    ensures
        forall|e: EventHandle|
            apply_step(pre, script, wake_event, stepped, subscriptions, true).subscribers.dom()
                .contains(e) ==> !apply_step(
                pre,
                script,
                wake_event,
                stepped,
                subscriptions,
                true,
            ).subscribers[e].contains(script),
{
    let advanced = pre.with_state(script, wake_event, stepped).subscribed_all(
        script,
        subscriptions,
    );
    let post = apply_step(pre, script, wake_event, stepped, subscriptions, true);
    assert forall|e: EventHandle| post.subscribers.dom().contains(e) implies !post.subscribers[e]
        .contains(script) by {
        lemma_seq_without_membership(advanced.subscribers[e], script);
    }
}

/// One resumption records the waking event: if the script is still live
/// afterwards, its wake event is exactly the event that resumed it (`None`
/// for the first advance out of `start_script`, `Some(e)` for a resume
/// caused by raising `e`).
pub proof fn lemma_wake_event_after_resume<C: Computation>(
    pre: RuntimeModel<C>,
    script: ScriptHandle,
    wake_event: Option<EventHandle>,
    post: RuntimeModel<C>,
)
    requires
        resume_rel(pre, script, wake_event, post),
        post.scripts.dom().contains(script),
    ensures
        post.scripts[script].wake_event == wake_event,
{
    let (stepped, subscriptions, done): (C, Seq<EventHandle>, bool) = choose|
        stepped: C,
        subscriptions: Seq<EventHandle>,
        done: bool,
    |
        C::step_ens(
            pre.scripts[script].computation,
            wake_event,
            stepped,
            subscriptions,
            done,
        ) && post == #[trigger] apply_step(
            pre,
            script,
            wake_event,
            stepped,
            subscriptions,
            done,
        );
    lemma_subscribed_all_frame(
        pre.with_state(script, wake_event, stepped),
        script,
        subscriptions,
    );
}

/// Within one raise, the detached entries are attempted strictly in
/// subscription order: with two entries, the first script's whole
/// resumption — its step and every table change it causes — happens before
/// the second script is looked at.
pub proof fn lemma_raise_two_entries<C: Computation>(
    pre: RuntimeModel<C>,
    first: ScriptHandle,
    second: ScriptHandle,
    event: EventHandle,
    post: RuntimeModel<C>,
)
    requires
        raise_rel(pre, seq![first, second], event, post),
    ensures
        exists|mid: RuntimeModel<C>|
            #[trigger] resume_or_skip(pre, first, event, mid) && resume_or_skip(
                mid,
                second,
                event,
                post,
            ),
{
    let list = seq![first, second];
    let mid = choose|mid: RuntimeModel<C>|
        #[trigger] resume_or_skip(pre, list[0], event, mid) && raise_rel(
            mid,
            list.drop_first(),
            event,
            post,
        );
    assert(list.drop_first() =~= seq![second]);
    let tail = seq![second];
    let mid2 = choose|mid2: RuntimeModel<C>|
        #[trigger] resume_or_skip(mid, tail[0], event, mid2) && raise_rel(
            mid2,
            tail.drop_first(),
            event,
            post,
        );
    assert(tail.drop_first() =~= Seq::<ScriptHandle>::empty());
    assert(raise_rel(mid2, tail.drop_first(), event, post));
    assert(post == mid2);
}

/// A script subscribed twice to the same event is attempted twice by a
/// single raise, once per entry: duplicates are not deduplicated. Each
/// attempt steps the script's computation if the script is then still live.
pub proof fn lemma_raise_duplicate_entries<C: Computation>(
    pre: RuntimeModel<C>,
    script: ScriptHandle,
    event: EventHandle,
    post: RuntimeModel<C>,
)
    requires
        raise_rel(pre, seq![script, script], event, post),
    ensures
        exists|mid: RuntimeModel<C>|
            #[trigger] resume_or_skip(pre, script, event, mid) && resume_or_skip(
                mid,
                script,
                event,
                post,
            ),
{
    lemma_raise_two_entries(pre, script, script, event, post);
}

/// A raise over a single detached entry is exactly one resume attempt,
/// whatever that attempt did — in particular, a script that subscribes to
/// the same event again while being resumed is not attempted a second time
/// by the same raise; the fresh subscription waits for a future raise.
pub proof fn lemma_raise_single_entry<C: Computation>(
    pre: RuntimeModel<C>,
    script: ScriptHandle,
    event: EventHandle,
    post: RuntimeModel<C>,
)
    requires
        raise_rel(pre, seq![script], event, post),
    ensures
        resume_or_skip(pre, script, event, post),
{
    let list = seq![script];
    let mid = choose|mid: RuntimeModel<C>|
        #[trigger] resume_or_skip(pre, list[0], event, mid) && raise_rel(
            mid,
            list.drop_first(),
            event,
            post,
        );
    assert(list.drop_first() =~= Seq::<ScriptHandle>::empty());
    assert(raise_rel(mid, list.drop_first(), event, post));
    assert(post == mid);
}

/// A copy of `once` with every entry for `script` left out.
fn filter_out(once: &Vec<ScriptHandle>, script: &ScriptHandle) -> (r: Vec<ScriptHandle>)
    ensures
        r@ == seq_without(once@, *script),
{
    let mut r: Vec<ScriptHandle> = Vec::new();
    let mut k: usize = 0;
    while k < once.len()
        invariant
            k <= once@.len(),
            r@ == seq_without(once@.take(k as int), *script),
        decreases once@.len() - k,
    {
        let entry = once[k];
        proof {
            assert(once@.take(k as int + 1).drop_last() =~= once@.take(k as int));
            assert(once@.take(k as int + 1).last() == once@[k as int]);
        }
        if entry.same(script) {
            proof {
                crate::handle::lemma_handle_id_injective(entry, *script);
            }
        } else {
            r.push(entry);
        }
        k = k + 1;
    }
    proof {
        assert(once@.take(once@.len() as int) =~= once@);
    }
    r
}

/// Pruning every list entrywise is pruning the whole bus map.
proof fn lemma_pruned_view(
    pre: Seq<(EventHandle, SubscriberList)>,
    cur: Seq<(EventHandle, SubscriberList)>,
    script: ScriptHandle,
)
    requires
        distinct_keys(pre),
        cur.len() == pre.len(),
        forall|k: int| 0 <= k < pre.len() ==> (#[trigger] cur[k]).0 == pre[k].0,
        forall|k: int|
            0 <= k < pre.len() ==> (#[trigger] cur[k]).1.once@ == seq_without(
                pre[k].1.once@,
                script,
            ),
    ensures
        distinct_keys(cur),
        subscribers_view(cur) == Map::new(
            |e: EventHandle| subscribers_view(pre).dom().contains(e),
            |e: EventHandle| seq_without(subscribers_view(pre)[e], script),
        ),
{
    assert forall|a: int, b: int| 0 <= a < b < cur.len() implies (#[trigger] cur[a]).0
        != (#[trigger] cur[b]).0 by {
        assert(pre[a].0 != pre[b].0);
    }
    let f = |l: SubscriberList| once_of(l);
    let target = Map::new(
        |e: EventHandle| subscribers_view(pre).dom().contains(e),
        |e: EventHandle| seq_without(subscribers_view(pre)[e], script),
    );
    assert forall|e: EventHandle| #[trigger]
        pairs_view(cur, f).dom().contains(e) implies target.dom().contains(e) && pairs_view(
        cur,
        f,
    )[e] == target[e] by {
        lemma_pairs_view_contains(cur, f, e);
        let j = choose|j: int| 0 <= j < cur.len() && (#[trigger] cur[j]).0 == e;
        lemma_pairs_view_index(cur, f, j);
        lemma_pairs_view_index(pre, f, j);
    }
    assert forall|e: EventHandle| #[trigger] target.dom().contains(e) implies pairs_view(
        cur,
        f,
    ).dom().contains(e) by {
        lemma_pairs_view_contains(pre, f, e);
        let j = choose|j: int| 0 <= j < pre.len() && (#[trigger] pre[j]).0 == e;
        lemma_pairs_view_index(cur, f, j);
    }
    assert(pairs_view(cur, f) =~= target);
}

/// Owns the subscription bus and the table of live scripts, and drives
/// resumption.
pub struct DefaultRuntime<C> {
    subscribers: Vec<(EventHandle, SubscriberList)>,
    scripts: Vec<(ScriptHandle, ScriptState<C>)>,
    script_handle_generator: ScriptHandleGenerator,
}

/// The map a list of keyed entries stands for, each entry's value abstracted
/// by `f`; the tables keep their keys unique.
spec fn pairs_view<K, V, W>(entries: Seq<(K, V)>, f: spec_fn(V) -> W) -> Map<K, W>
    decreases entries.len(),
{
    if entries.len() == 0 {
        Map::empty()
    } else {
        pairs_view(entries.drop_last(), f).insert(entries.last().0, f(entries.last().1))
    }
}

/// Each key occurs at most once among the entries.
spec fn distinct_keys<K, V>(entries: Seq<(K, V)>) -> bool {
    forall|i: int, j: int|
        0 <= i < j < entries.len() ==> (#[trigger] entries[i]).0 != (#[trigger] entries[j]).0
}

/// An entry's key is in the map, bound to that entry's abstracted value.
proof fn lemma_pairs_view_index<K, V, W>(entries: Seq<(K, V)>, f: spec_fn(V) -> W, i: int)
    requires
        distinct_keys(entries),
        0 <= i < entries.len(),
    ensures
        pairs_view(entries, f).dom().contains(entries[i].0),
        pairs_view(entries, f)[entries[i].0] == f(entries[i].1),
    decreases entries.len(),
{
    if i < entries.len() - 1 {
        lemma_pairs_view_index(entries.drop_last(), f, i);
    }
}

/// A key no entry carries is not in the map.
proof fn lemma_pairs_view_absent<K, V, W>(entries: Seq<(K, V)>, f: spec_fn(V) -> W, key: K)
    requires
        forall|i: int| 0 <= i < entries.len() ==> (#[trigger] entries[i]).0 != key,
    ensures
        !pairs_view(entries, f).dom().contains(key),
    decreases entries.len(),
{
    if entries.len() > 0 {
        lemma_pairs_view_absent(entries.drop_last(), f, key);
    }
}

/// A key in the map is carried by some entry.
proof fn lemma_pairs_view_contains<K, V, W>(entries: Seq<(K, V)>, f: spec_fn(V) -> W, key: K)
    requires
        pairs_view(entries, f).dom().contains(key),
    ensures
        exists|i: int| 0 <= i < entries.len() && (#[trigger] entries[i]).0 == key,
    decreases entries.len(),
{
    if entries.len() > 0 {
        if entries.last().0 != key {
            lemma_pairs_view_contains(entries.drop_last(), f, key);
            let i = choose|i: int|
                0 <= i < entries.drop_last().len() && (#[trigger] entries.drop_last()[i]).0
                    == key;
            assert(entries[i].0 == key);
        } else {
            assert(entries[entries.len() - 1].0 == key);
        }
    }
}

/// Replacing one entry's value replaces that key's binding and nothing else.
proof fn lemma_pairs_view_update<K, V, W>(entries: Seq<(K, V)>, f: spec_fn(V) -> W, i: int, v: V)
    requires
        distinct_keys(entries),
        0 <= i < entries.len(),
    ensures
        distinct_keys(entries.update(i, (entries[i].0, v))),
        pairs_view(entries.update(i, (entries[i].0, v)), f) == pairs_view(entries, f).insert(
            entries[i].0,
            f(v),
        ),
    decreases entries.len(),
{
    let updated = entries.update(i, (entries[i].0, v));
    assert forall|a: int, b: int| 0 <= a < b < updated.len() implies (#[trigger] updated[a]).0
        != (#[trigger] updated[b]).0 by {
        assert(entries[a].0 != entries[b].0);
    }
    if i == entries.len() - 1 {
        assert(updated.drop_last() =~= entries.drop_last());
        assert(pairs_view(updated, f) =~= pairs_view(entries, f).insert(entries[i].0, f(v)));
    } else {
        lemma_pairs_view_update(entries.drop_last(), f, i, v);
        assert(updated.drop_last() =~= entries.drop_last().update(i, (entries[i].0, v)));
        assert(entries.drop_last()[i] == entries[i]);
        assert(updated.last() == entries.last());
        assert(entries.last().0 != entries[i].0);
        assert(pairs_view(updated, f) =~= pairs_view(entries, f).insert(entries[i].0, f(v)));
    }
}

/// Removing one entry removes that key's binding and nothing else.
proof fn lemma_pairs_view_remove<K, V, W>(entries: Seq<(K, V)>, f: spec_fn(V) -> W, i: int)
    requires
        distinct_keys(entries),
        0 <= i < entries.len(),
    ensures
        distinct_keys(entries.remove(i)),
        pairs_view(entries.remove(i), f) == pairs_view(entries, f).remove(entries[i].0),
    decreases entries.len(),
{
    let removed = entries.remove(i);
    assert forall|a: int, b: int| 0 <= a < b < removed.len() implies (#[trigger] removed[a]).0
        != (#[trigger] removed[b]).0 by {
        if b < i {
            assert(entries[a].0 != entries[b].0);
        } else if a < i {
            assert(entries[a].0 != entries[b + 1].0);
        } else {
            assert(entries[a + 1].0 != entries[b + 1].0);
        }
    }
    if i == entries.len() - 1 {
        assert(removed =~= entries.drop_last());
        assert forall|k: int| 0 <= k < entries.drop_last().len() implies (#[trigger] entries
            .drop_last()[k]).0 != entries[i].0 by {
            assert(entries[k].0 != entries[i].0);
        }
        lemma_pairs_view_absent(entries.drop_last(), f, entries[i].0);
        assert(pairs_view(removed, f) =~= pairs_view(entries, f).remove(entries[i].0));
    } else {
        lemma_pairs_view_remove(entries.drop_last(), f, i);
        assert(removed.drop_last() =~= entries.drop_last().remove(i));
        assert(removed.last() == entries.last());
        assert(entries.last().0 != entries[i].0);
        assert(entries.drop_last()[i] == entries[i]);
        assert(pairs_view(removed, f) =~= pairs_view(entries, f).remove(entries[i].0));
    }
}

/// With keys unique, the map is exactly as large as the table.
proof fn lemma_pairs_view_len<K, V, W>(entries: Seq<(K, V)>, f: spec_fn(V) -> W)
    requires
        distinct_keys(entries),
    ensures
        pairs_view(entries, f).dom().finite(),
        pairs_view(entries, f).dom().len() == entries.len(),
    decreases entries.len(),
{
    if entries.len() > 0 {
        lemma_pairs_view_len(entries.drop_last(), f);
        assert forall|k: int| 0 <= k < entries.drop_last().len() implies (#[trigger] entries
            .drop_last()[k]).0 != entries.last().0 by {
            assert(entries[k].0 != entries[entries.len() - 1].0);
        }
        lemma_pairs_view_absent(entries.drop_last(), f, entries.last().0);
    }
}

/// The value abstraction of a bus entry.
spec fn once_of(list: SubscriberList) -> Seq<ScriptHandle> {
    list.once@
}

/// The value abstraction of a script entry (the state itself).
spec fn state_of<C>(state: ScriptState<C>) -> ScriptState<C> {
    state
}

/// The event-to-waiters map the bus entries stand for.
spec fn subscribers_view(entries: Seq<(EventHandle, SubscriberList)>) -> Map<
    EventHandle,
    Seq<ScriptHandle>,
> {
    pairs_view(entries, |list: SubscriberList| once_of(list))
}

/// The handle-to-state map the script entries stand for.
spec fn scripts_view<C>(entries: Seq<(ScriptHandle, ScriptState<C>)>) -> Map<
    ScriptHandle,
    ScriptState<C>,
> {
    pairs_view(entries, |state: ScriptState<C>| state_of(state))
}

impl<C> View for DefaultRuntime<C> {
    type V = RuntimeModel<C>;

    closed spec fn view(&self) -> RuntimeModel<C> {
        RuntimeModel {
            subscribers: subscribers_view(self.subscribers@),
            scripts: scripts_view(self.scripts@),
            next_script_id: self.script_handle_generator.counter(),
        }
    }
}

impl<C> DefaultRuntime<C> {
    /// The tables' representation keeps each key once, and the model
    /// invariant holds.
    pub closed spec fn wf(&self) -> bool {
        &&& forall|i: int, j: int|
            0 <= i < j < self.subscribers@.len()
                ==> (#[trigger] self.subscribers@[i]).0 != (#[trigger] self.subscribers@[j]).0
        &&& forall|i: int, j: int|
            0 <= i < j < self.scripts@.len()
                ==> (#[trigger] self.scripts@[i]).0 != (#[trigger] self.scripts@[j]).0
        &&& self@.inv()
    }

    /// An empty runtime: no subscriptions, no live scripts, no handle issued
    /// yet.
    pub fn new() -> (r: Self)
        ensures
            r.wf(),
            r@.subscribers == Map::<EventHandle, Seq<ScriptHandle>>::empty(),
            r@.scripts == Map::<ScriptHandle, ScriptState<C>>::empty(),
            r@.next_script_id == 0,
    {
        DefaultRuntime {
            subscribers: Vec::new(),
            scripts: Vec::new(),
            script_handle_generator: ScriptHandleGenerator::new(),
        }
    }

    /// The position of `event`'s entry on the bus, if one exists.
    fn find_subscriber_index(&self, event: &EventHandle) -> (r: Option<usize>)
        requires
            self.wf(),
        ensures
            match r {
                Some(i) => i < self.subscribers@.len() && self.subscribers@[i as int].0 == *event
                    && self@.subscribers.dom().contains(*event) && self@.subscribers[*event]
                    == self.subscribers@[i as int].1.once@,
                None => !self@.subscribers.dom().contains(*event),
            },
    {
        let mut i: usize = 0;
        while i < self.subscribers.len()
            invariant
                self.wf(),
                i <= self.subscribers@.len(),
                forall|k: int| 0 <= k < i ==> (#[trigger] self.subscribers@[k]).0 != *event,
            decreases self.subscribers@.len() - i,
        {
            if self.subscribers[i].0.same(event) {
                proof {
                    crate::handle::lemma_handle_id_injective(self.subscribers@[i as int].0, *event);
                    lemma_pairs_view_index(
                        self.subscribers@,
                        |list: SubscriberList| once_of(list),
                        i as int,
                    );
                }
                return Some(i);
            }
            i = i + 1;
        }
        proof {
            lemma_pairs_view_absent(
                self.subscribers@,
                |list: SubscriberList| once_of(list),
                *event,
            );
        }
        None
    }

    /// The position of `script`'s entry in the live table, if one exists.
    fn find_script_index(&self, script: &ScriptHandle) -> (r: Option<usize>)
        requires
            self.wf(),
        ensures
            match r {
                Some(i) => i < self.scripts@.len() && self.scripts@[i as int].0 == *script
                    && self@.scripts.dom().contains(*script) && self@.scripts[*script]
                    == self.scripts@[i as int].1,
                None => !self@.scripts.dom().contains(*script),
            },
    {
        let mut i: usize = 0;
        while i < self.scripts.len()
            invariant
                self.wf(),
                i <= self.scripts@.len(),
                forall|k: int| 0 <= k < i ==> (#[trigger] self.scripts@[k]).0 != *script,
            decreases self.scripts@.len() - i,
        {
            if self.scripts[i].0.same(script) {
                proof {
                    crate::handle::lemma_handle_id_injective(self.scripts@[i as int].0, *script);
                    lemma_pairs_view_index(
                        self.scripts@,
                        |state: ScriptState<C>| state_of(state),
                        i as int,
                    );
                }
                return Some(i);
            }
            i = i + 1;
        }
        proof {
            lemma_pairs_view_absent(self.scripts@, |state: ScriptState<C>| state_of(state), *script);
        }
        None
    }

    /// Whether `script` is currently registered in the live-script table.
    pub fn is_registered(&self, script: ScriptHandle) -> (r: bool)
        requires
            self.wf(),
        ensures
            r == self@.scripts.dom().contains(script),
    {
        self.find_script_index(&script).is_some()
    }

    /// How many scripts are live: started and neither completed nor ever to
    /// be (a script waiting forever stays live by design).
    pub fn live_script_count(&self) -> (r: usize)
        requires
            self.wf(),
        ensures
            r == self@.scripts.dom().len(),
    {
        proof {
            lemma_pairs_view_len(self.scripts@, |state: ScriptState<C>| state_of(state));
        }
        self.scripts.len()
    }

    /// Whether a subscriber list exists for `event` (it may be empty, if
    /// completed scripts were pruned out of it).
    pub fn has_subscriber_list(&self, event: EventHandle) -> (r: bool)
        requires
            self.wf(),
        ensures
            r == self@.subscribers.dom().contains(event),
    {
        self.find_subscriber_index(&event).is_some()
    }

    /// How many entries `event`'s subscriber list holds; zero if none
    /// exists.
    pub fn subscriber_count(&self, event: EventHandle) -> (r: usize)
        requires
            self.wf(),
        ensures
            self@.subscribers.dom().contains(event) ==> r == self@.subscribers[event].len(),
            !self@.subscribers.dom().contains(event) ==> r == 0,
    {
        match self.find_subscriber_index(&event) {
            Some(i) => self.subscribers[i].1.once.len(),
            None => 0,
        }
    }

    /// A well-formed runtime's model satisfies the model invariant: every
    /// handle in any pending subscriber list belongs to a live script, so no
    /// raise will ever attempt to resume an unregistered handle.
    pub proof fn lemma_wf_implies_inv(&self)
        requires
            self.wf(),
        ensures
            self@.inv(),
    {
    }

    /// The id the next started script will be registered under; doubles as
    /// the count of handles issued so far.
    pub fn issued_script_handles(&self) -> (r: u64)
        ensures
            r == self@.next_script_id,
    {
        self.script_handle_generator.issued()
    }

    /// The scripts waiting on `event`, in subscription order; empty if no
    /// list exists.
    pub fn subscribers_of(&self, event: EventHandle) -> (r: Vec<ScriptHandle>)
        requires
            self.wf(),
        ensures
            r@ == self@.event_list(event),
    {
        match self.find_subscriber_index(&event) {
            Some(i) => {
                let list = &self.subscribers[i].1.once;
                let mut r: Vec<ScriptHandle> = Vec::new();
                let mut k: usize = 0;
                while k < list.len()
                    invariant
                        k <= list@.len(),
                        r@ == list@.take(k as int),
                    decreases list@.len() - k,
                {
                    r.push(list[k]);
                    k = k + 1;
                }
                proof {
                    assert(list@.take(list@.len() as int) =~= list@);
                }
                r
            },
            None => Vec::new(),
        }
    }

    /// The event that most recently caused `script` to resume; `None` if the
    /// script has not yet been resumed via an event (immediately after
    /// creation). Asking about an unregistered handle is a programming
    /// error, so the script must be registered.
    pub fn wake_event(&self, script: ScriptHandle) -> (r: Option<EventHandle>)
        requires
            self.wf(),
            self@.scripts.dom().contains(script),
        ensures
            r == self@.scripts[script].wake_event,
    {
        match self.find_script_index(&script) {
            Some(i) => self.scripts[i].1.wake_event,
            None => unreached(),
        }
    }

    /// Appends `script` to the subscriber list for `event`, creating the
    /// list if absent. Always succeeds; duplicates are not checked for. The
    /// script must be live: subscribing an unregistered handle is a
    /// programming error.
    pub fn subscribe(&mut self, event: EventHandle, script: ScriptHandle)
        requires
            old(self).wf(),
            old(self)@.scripts.dom().contains(script),
        ensures
            final(self).wf(),
            final(self)@ == old(self)@.subscribed(event, script),
    {
        match self.find_subscriber_index(&event) {
            Some(i) => {
                let ghost pre = self.subscribers@;
                let (e, mut list) = self.subscribers.remove(i);
                list.once.push(script);
                let ghost newlist = list;
                self.subscribers.insert(i, (e, list));
                proof {
                    assert(self.subscribers@ =~= pre.update(i as int, (e, newlist)));
                    lemma_pairs_view_update(
                        pre,
                        |l: SubscriberList| once_of(l),
                        i as int,
                        newlist,
                    );
                    assert(self@.subscribers =~= old(self)@.subscribed(event, script).subscribers);
                    assert(self@ =~= old(self)@.subscribed(event, script));
                    lemma_subscribed_inv(old(self)@, event, script);
                }
            },
            None => {
                let ghost pre = self.subscribers@;
                let mut once: Vec<ScriptHandle> = Vec::new();
                once.push(script);
                self.subscribers.push((event, SubscriberList { once }));
                proof {
                    assert forall|k: int| 0 <= k < pre.len() implies (#[trigger] pre[k]).0
                        != event by {
                        if pre[k].0 == event {
                            lemma_pairs_view_index(pre, |l: SubscriberList| once_of(l), k);
                        }
                    }
                    assert(self.subscribers@.drop_last() =~= pre);
                    assert(old(self)@.event_list(event).push(script) =~= seq![script]);
                    assert(self@.subscribers =~= old(self)@.subscribed(event, script).subscribers);
                    assert(self@ =~= old(self)@.subscribed(event, script));
                    lemma_subscribed_inv(old(self)@, event, script);
                }
            },
        }
    }

    /// Drops `script`'s entry from the live table; the bus is untouched, so
    /// pruning must follow before the runtime is handed back out.
    fn remove_script_entry(&mut self, script: ScriptHandle)
        requires
            old(self).wf(),
            old(self)@.scripts.dom().contains(script),
        ensures
            distinct_keys(final(self).subscribers@),
            distinct_keys(final(self).scripts@),
            final(self).subscribers@ == old(self).subscribers@,
            final(self).script_handle_generator == old(self).script_handle_generator,
            final(self)@.scripts == old(self)@.scripts.remove(script),
            final(self)@.subscribers == old(self)@.subscribers,
            final(self)@.next_script_id == old(self)@.next_script_id,
    {
        match self.find_script_index(&script) {
            Some(i) => {
                let ghost pre = self.scripts@;
                let _ = self.scripts.remove(i);
                proof {
                    lemma_pairs_view_remove(pre, |state: ScriptState<C>| state_of(state), i as int);
                }
            },
            None => unreached(),
        }
    }

    /// Prunes `script` out of every still-pending subscriber list.
    fn prune_script_entries(&mut self, script: ScriptHandle)
        requires
            distinct_keys(old(self).subscribers@),
            distinct_keys(old(self).scripts@),
        ensures
            distinct_keys(final(self).subscribers@),
            distinct_keys(final(self).scripts@),
            final(self).scripts@ == old(self).scripts@,
            final(self).script_handle_generator == old(self).script_handle_generator,
            final(self)@.scripts == old(self)@.scripts,
            final(self)@.next_script_id == old(self)@.next_script_id,
            final(self)@.subscribers == Map::new(
                |e: EventHandle| old(self)@.subscribers.dom().contains(e),
                |e: EventHandle| seq_without(old(self)@.subscribers[e], script),
            ),
    {
        let ghost pre = self.subscribers@;
        let mut i: usize = 0;
        while i < self.subscribers.len()
            invariant
                distinct_keys(pre),
                self.subscribers@.len() == pre.len(),
                i <= pre.len(),
                forall|k: int|
                    0 <= k < pre.len() ==> (#[trigger] self.subscribers@[k]).0 == pre[k].0,
                forall|k: int|
                    0 <= k < i ==> (#[trigger] self.subscribers@[k]).1.once@ == seq_without(
                        pre[k].1.once@,
                        script,
                    ),
                forall|k: int|
                    i <= k < pre.len() ==> (#[trigger] self.subscribers@[k]).1.once@
                        == pre[k].1.once@,
                self.scripts@ == old(self).scripts@,
                self.script_handle_generator == old(self).script_handle_generator,
            decreases pre.len() - i,
        {
            let ghost snap = self.subscribers@;
            let (e, list) = self.subscribers.remove(i);
            let filtered = filter_out(&list.once, &script);
            let replacement = SubscriberList { once: filtered };
            let ghost newentry = (e, replacement);
            self.subscribers.insert(i, (e, replacement));
            proof {
                assert(self.subscribers@ =~= snap.update(i as int, newentry));
            }
            i = i + 1;
        }
        proof {
            lemma_pruned_view(pre, self.subscribers@, script);
        }
    }
}

impl<C: Computation> DefaultRuntime<C> {
    /// The executor's single stepping primitive: looks `script` up (it must
    /// be live — resuming an unregistered handle is a programming error),
    /// records `wake_event`, advances the computation exactly one step,
    /// appends the subscriptions that step asked for, and removes the script
    /// from every table if the step completed it.
    fn resume_script(&mut self, script: ScriptHandle, wake_event: Option<EventHandle>)
        requires
            old(self).wf(),
            old(self)@.scripts.dom().contains(script),
        ensures
            final(self).wf(),
            resume_rel(old(self)@, script, wake_event, final(self)@),
            final(self)@.next_script_id == old(self)@.next_script_id,
    {
        let i = match self.find_script_index(&script) {
            Some(i) => i,
            None => unreached(),
        };
        let ghost pre_scripts = self.scripts@;
        let (handle, mut state) = self.scripts.remove(i);
        let ghost pre_computation = state.computation;
        state.wake_event = wake_event;
        let outcome = state.computation.step(wake_event);
        let ghost stepped = state.computation;
        let ghost newstate = state;
        self.scripts.insert(i, (handle, state));
        proof {
            assert(self.scripts@ =~= pre_scripts.update(i as int, (handle, newstate)));
            lemma_pairs_view_update(
                pre_scripts,
                |st: ScriptState<C>| state_of(st),
                i as int,
                newstate,
            );
            assert(newstate == ScriptState { wake_event, computation: stepped });
            assert(self@ =~= old(self)@.with_state(script, wake_event, stepped));
            lemma_with_state_inv(old(self)@, script, wake_event, stepped);
        }
        let ghost base = self@;
        let StepOutcome { subscriptions, done } = outcome;
        let mut k: usize = 0;
        while k < subscriptions.len()
            invariant
                self.wf(),
                k <= subscriptions@.len(),
                self@.scripts == base.scripts,
                self@.next_script_id == base.next_script_id,
                base.scripts.dom().contains(script),
                self@ == base.subscribed_all(script, subscriptions@.take(k as int)),
            decreases subscriptions@.len() - k,
        {
            let event = subscriptions[k];
            let ghost before = self@;
            self.subscribe(event, script);
            proof {
                lemma_subscribed_all_snoc(
                    base,
                    script,
                    subscriptions@.take(k as int),
                    event,
                );
                assert(subscriptions@.take(k as int + 1) =~= subscriptions@.take(
                    k as int,
                ).push(event));
            }
            k = k + 1;
        }
        proof {
            assert(subscriptions@.take(subscriptions@.len() as int) =~= subscriptions@);
        }
        let ghost advanced = self@;
        if done {
            self.remove_script_entry(script);
            self.prune_script_entries(script);
            proof {
                assert(self@ =~= advanced.without_script(script));
                lemma_without_script_inv(advanced, script);
            }
        }
        proof {
            assert(pre_computation == old(self)@.scripts[script].computation);
            assert(C::step_ens(
                pre_computation,
                wake_event,
                stepped,
                subscriptions@,
                done,
            ) && self@ == apply_step(
                old(self)@,
                script,
                wake_event,
                stepped,
                subscriptions@,
                done,
            ));
        }
    }

    /// Resumes every script subscribed to `event`, in subscription order,
    /// once per entry, passing `event` as the waking event. The list is
    /// removed from the bus before anyone is resumed, so a subscription made
    /// during this raise waits for a future raise. An entry whose script
    /// completed earlier within the same raise finds the handle unregistered
    /// and is passed over. Raising an event nobody waits on is a no-op, not
    /// an error.
    pub fn raise_event(&mut self, event: EventHandle)
        requires
            old(self).wf(),
        ensures
            final(self).wf(),
            final(self)@.next_script_id == old(self)@.next_script_id,
            !old(self)@.subscribers.dom().contains(event) ==> final(self)@ == old(self)@,
            old(self)@.subscribers.dom().contains(event) ==> raise_rel(
                old(self)@.detached(event),
                old(self)@.subscribers[event],
                event,
                final(self)@,
            ),
    {
        match self.find_subscriber_index(&event) {
            None => {
            },
            Some(i) => {
                let ghost pre = self.subscribers@;
                let (_, list) = self.subscribers.remove(i);
                proof {
                    lemma_pairs_view_remove(pre, |l: SubscriberList| once_of(l), i as int);
                    assert(self@ =~= old(self)@.detached(event));
                    assert forall|e: EventHandle, k: int|
                        self@.subscribers.dom().contains(e) && 0 <= k
                            < self@.subscribers[e].len() implies self@.scripts.dom().contains(
                        #[trigger] self@.subscribers[e][k],
                    ) by {
                        assert(self@.subscribers[e] == old(self)@.subscribers[e]);
                        assert(old(self)@.scripts.dom().contains(
                            old(self)@.subscribers[e][k],
                        ));
                    }
                }
                let ghost base = self@;
                let once = list.once;
                let mut k: usize = 0;
                while k < once.len()
                    invariant
                        self.wf(),
                        k <= once@.len(),
                        self@.next_script_id == base.next_script_id,
                        raise_rel(base, once@.take(k as int), event, self@),
                    decreases once@.len() - k,
                {
                    let script = once[k];
                    let ghost mid = self@;
                    if self.is_registered(script) {
                        self.resume_script(script, Some(event));
                    }
                    proof {
                        assert(resume_or_skip(mid, script, event, self@));
                        lemma_raise_rel_snoc(
                            base,
                            once@.take(k as int),
                            script,
                            event,
                            mid,
                            self@,
                        );
                        assert(once@.take(k as int + 1) =~= once@.take(k as int).push(
                            once@[k as int],
                        ));
                    }
                    k = k + 1;
                }
                proof {
                    assert(once@.take(once@.len() as int) =~= once@);
                    assert(once@ == old(self)@.subscribers[event]);
                }
            },
        }
    }

    /// Allocates a fresh handle, asks `script` for its initial computation,
    /// registers it with no wake event, and immediately advances it once — a
    /// script that never suspends completes synchronously in here. Returns
    /// the handle the script was registered under.
    pub fn start_script<S: Script<C>>(
        &mut self,
        context: GameContext,
        script: &mut S,
    ) -> (handle: ScriptHandle)
        requires
            old(self).wf(),
            old(self)@.next_script_id < u64::MAX,
        ensures
            final(self).wf(),
            handle.id() == old(self)@.next_script_id,
            !old(self)@.scripts.dom().contains(handle),
            final(self)@.next_script_id == old(self)@.next_script_id + 1,
            exists|c: C|
                S::start_ens(*old(script), handle, *final(script), c) && #[trigger] resume_rel(
                    old(self)@.started(handle, c),
                    handle,
                    None,
                    final(self)@,
                ),
    {
        let handle = self.script_handle_generator.gen_handle();
        let computation = script.start(handle, context);
        let ghost c = computation;
        let state = ScriptState::from_computation(computation);
        let ghost pre_scripts = self.scripts@;
        proof {
            assert(pre_scripts == old(self).scripts@);
            assert forall|k: int| 0 <= k < pre_scripts.len() implies (#[trigger] pre_scripts[k]).0
                != handle by {
                lemma_pairs_view_index(pre_scripts, |st: ScriptState<C>| state_of(st), k);
                assert(old(self)@.scripts.dom().contains(pre_scripts[k].0));
                assert(pre_scripts[k].0.id() < old(self)@.next_script_id);
                assert(handle.id() == old(self)@.next_script_id);
            }
            lemma_pairs_view_absent(pre_scripts, |st: ScriptState<C>| state_of(st), handle);
        }
        self.scripts.push((handle, state));
        proof {
            assert(self.scripts@.drop_last() =~= pre_scripts);
            assert(self@ =~= old(self)@.started(handle, c));
            assert(self@.scripts.dom() =~= old(self)@.scripts.dom().insert(handle));
        }
        self.resume_script(handle, None);
        handle
    }
}

} // verus!
