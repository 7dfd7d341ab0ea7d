use std::rc::Rc;
use underkate::default_runtime::DefaultRuntime;
use underkate::dialog::{Dialog, DialogComputation, DialogFrame};
use underkate::game_context::GameContext;
use underkate::resources::GlobalResourceStorage;
use underkate::script::{EventHandle, EventHandleGenerator};

fn context() -> GameContext {
    GameContext::new(Rc::new(GlobalResourceStorage::new()))
}

fn dialog(frames: usize, advance_event: EventHandle) -> Dialog {
    let mut list = Vec::new();
    for i in 0..frames {
        list.push(DialogFrame { text: format!("frame {}", i) });
    }
    Dialog::new(list, advance_event)
}

#[test]
fn start_script_handles_distinct_and_increasing() {
    let mut events = EventHandleGenerator::new();
    let advance = events.gen_handle();
    let mut rt: DefaultRuntime<DialogComputation> = DefaultRuntime::new();
    let ctx = context();

    let h1 = rt.start_script(ctx.clone(), &mut dialog(1, advance));
    let h2 = rt.start_script(ctx.clone(), &mut dialog(1, advance));
    let h3 = rt.start_script(ctx, &mut dialog(1, advance));

    assert_ne!(h1, h2);
    assert_ne!(h2, h3);
    assert_ne!(h1, h3);
    assert!(h1 < h2);
    assert!(h2 < h3);
    assert_eq!(rt.issued_script_handles(), 3);
}

#[test]
fn never_suspending_script_completes_inside_start() {
    let mut events = EventHandleGenerator::new();
    let advance = events.gen_handle();
    let mut rt: DefaultRuntime<DialogComputation> = DefaultRuntime::new();

    let handle = rt.start_script(context(), &mut dialog(0, advance));

    assert!(!rt.is_registered(handle));
    assert_eq!(rt.live_script_count(), 0);
}

#[test]
fn raise_event_without_subscribers_is_a_noop() {
    let mut events = EventHandleGenerator::new();
    let advance = events.gen_handle();
    let unknown = events.gen_handle();
    let mut rt: DefaultRuntime<DialogComputation> = DefaultRuntime::new();
    let handle = rt.start_script(context(), &mut dialog(1, advance));

    rt.raise_event(unknown);

    assert!(rt.is_registered(handle));
    assert_eq!(rt.live_script_count(), 1);
    assert!(!rt.has_subscriber_list(unknown));
    assert_eq!(rt.subscriber_count(unknown), 0);
    assert_eq!(rt.subscriber_count(advance), 1);
}

#[test]
fn duplicate_subscription_is_stepped_once_per_entry() {
    let mut events = EventHandleGenerator::new();
    let advance = events.gen_handle();
    let mut rt: DefaultRuntime<DialogComputation> = DefaultRuntime::new();

    // Two frames: the script survives exactly one step and completes on the
    // second.
    let handle = rt.start_script(context(), &mut dialog(2, advance));
    assert!(rt.is_registered(handle));
    assert_eq!(rt.subscriber_count(advance), 1);

    rt.subscribe(advance, handle);
    assert_eq!(rt.subscriber_count(advance), 2);

    // One raise works through both entries: the first step shows the second
    // frame and re-subscribes, the second step completes the dialogue. Were
    // the list deduplicated, the script would still be live here.
    rt.raise_event(advance);
    assert!(!rt.is_registered(handle));
    assert_eq!(rt.live_script_count(), 0);
    // Completion pruned the re-subscription the first step had made.
    assert_eq!(rt.subscriber_count(advance), 0);
}

#[test]
fn raise_event_resumes_in_subscription_order() {
    let mut events = EventHandleGenerator::new();
    let advance = events.gen_handle();
    let mut rt: DefaultRuntime<DialogComputation> = DefaultRuntime::new();
    let ctx = context();

    let a = rt.start_script(ctx.clone(), &mut dialog(2, advance));
    let b = rt.start_script(ctx, &mut dialog(2, advance));
    assert_eq!(rt.subscribers_of(advance), vec![a, b]);

    // Both scripts re-subscribe while being resumed; the new list keeps the
    // order because the first entry is resumed fully before the second.
    rt.raise_event(advance);
    assert!(rt.is_registered(a));
    assert!(rt.is_registered(b));
    assert_eq!(rt.subscribers_of(advance), vec![a, b]);
}

#[test]
fn resubscription_waits_for_a_future_raise() {
    let mut events = EventHandleGenerator::new();
    let advance = events.gen_handle();
    let mut rt: DefaultRuntime<DialogComputation> = DefaultRuntime::new();

    let handle = rt.start_script(context(), &mut dialog(2, advance));

    // The script re-subscribes to the same event while being resumed; the
    // raise that woke it does not visit the fresh subscription.
    rt.raise_event(advance);
    assert!(rt.is_registered(handle));
    assert_eq!(rt.subscribers_of(advance), vec![handle]);

    rt.raise_event(advance);
    assert!(!rt.is_registered(handle));
}

#[test]
fn completed_script_is_pruned_from_other_lists() {
    let mut events = EventHandleGenerator::new();
    let advance = events.gen_handle();
    let other = events.gen_handle();
    let mut rt: DefaultRuntime<DialogComputation> = DefaultRuntime::new();

    let handle = rt.start_script(context(), &mut dialog(1, advance));
    rt.subscribe(other, handle);
    assert_eq!(rt.subscriber_count(other), 1);

    // Completing on the advance event leaves the dangling subscription to
    // `other` behind; the runtime prunes it.
    rt.raise_event(advance);
    assert!(!rt.is_registered(handle));
    assert_eq!(rt.subscriber_count(other), 0);

    // A later raise on the pruned event finds nobody to resume.
    rt.raise_event(other);
    assert_eq!(rt.live_script_count(), 0);
}

#[test]
fn wake_event_is_none_then_the_raising_event() {
    let mut events = EventHandleGenerator::new();
    let advance = events.gen_handle();
    let mut rt: DefaultRuntime<DialogComputation> = DefaultRuntime::new();

    let handle = rt.start_script(context(), &mut dialog(2, advance));
    assert_eq!(rt.wake_event(handle), None);

    rt.raise_event(advance);
    assert_eq!(rt.wake_event(handle), Some(advance));
}

#[test]
fn subscribe_suspend_then_complete_on_wake() {
    let mut events = EventHandleGenerator::new();
    let advance = events.gen_handle();
    let mut rt: DefaultRuntime<DialogComputation> = DefaultRuntime::new();

    let handle = rt.start_script(context(), &mut dialog(1, advance));
    assert!(rt.is_registered(handle));
    assert_eq!(rt.subscribers_of(advance), vec![handle]);

    rt.raise_event(advance);
    assert!(!rt.is_registered(handle));
    assert_eq!(rt.live_script_count(), 0);
    assert!(!rt.has_subscriber_list(advance));
}

#[test]
fn two_scripts_complete_on_one_raise() {
    let mut events = EventHandleGenerator::new();
    let advance = events.gen_handle();
    let mut rt: DefaultRuntime<DialogComputation> = DefaultRuntime::new();
    let ctx = context();

    let a = rt.start_script(ctx.clone(), &mut dialog(1, advance));
    let b = rt.start_script(ctx, &mut dialog(1, advance));
    assert_eq!(rt.live_script_count(), 2);

    rt.raise_event(advance);
    assert!(!rt.is_registered(a));
    assert!(!rt.is_registered(b));
    assert_eq!(rt.live_script_count(), 0);
    assert!(!rt.has_subscriber_list(advance));
}

#[test]
fn handle_generator_counts_up() {
    let mut events = EventHandleGenerator::new();
    assert_eq!(events.issued(), 0);
    let e1 = events.gen_handle();
    let e2 = events.gen_handle();
    assert_eq!(events.issued(), 2);
    assert_ne!(e1, e2);
    assert!(e1 < e2);
    assert!(e1.same(&e1));
    assert!(!e1.same(&e2));
}
