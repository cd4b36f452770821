use event_streams::action::{Action, Reply, Task};
use event_streams::stream_map::StreamMap;
use event_streams::subscription::{
    EventStreamSubscription, EventStreamSubscriptionInner, Received, SdkUpdateStep, TaskState,
};
use event_streams::update::{EventStreamSubscriberUpdate, Operation, StreamId, UpdateEffect};

fn id(text: &str) -> String {
    text.to_owned()
}

fn stream(room_id: &str, event_id: &str) -> StreamId {
    StreamId::new(id(room_id), id(event_id))
}

fn replaced(event_id: &str, body: &str) -> EventStreamSubscriberUpdate {
    EventStreamSubscriberUpdate::Replaced { stream_id: stream("!room", event_id), body: id(body) }
}

fn cancelled(event_id: &str) -> EventStreamSubscriberUpdate {
    EventStreamSubscriberUpdate::Cancelled { stream_id: stream("!room", event_id) }
}

fn displayed(streams: &[(&str, &str)]) -> StreamMap<String> {
    let mut map = StreamMap::new();
    for (event_id, body) in streams {
        map.insert(id(event_id), id(body));
    }
    map
}

fn set(event_id: &str, body: Option<&str>) -> Action<u32> {
    Action::SetTransientBody { event_id: id(event_id), body: body.map(str::to_owned) }
}

fn subscribe(event_id: &str) -> Action<u32> {
    Action::Subscribe { event_id: id(event_id) }
}

fn fetch(event_id: &str) -> Action<u32> {
    Action::FetchTransientBody { stream_id: stream("!room", event_id) }
}

/// Runs a whole refresh and returns the actions that it asks for.
fn run(
    inner: &mut EventStreamSubscriptionInner<u32>,
    streams: &[(&str, &str)],
    subscribed: &dyn Fn(&str) -> Option<u32>,
    present: &dyn Fn(&str) -> Option<String>,
) -> Vec<Action<u32>> {
    let mut refresh = inner.refresh(displayed(streams));
    let mut actions = Vec::new();
    let mut reply = Reply::Done;
    while let Some(action) = refresh.step(inner, reply).unwrap() {
        reply = match &action {
            Action::Subscribe { event_id } => match subscribed(event_id) {
                Some(subscription) => Reply::Subscribed { subscription },
                None => Reply::SubscribeFailed,
            },
            Action::FetchTransientBody { stream_id } => {
                Reply::TransientBody { body: present(&stream_id.event_id) }
            }
            _ => Reply::Done,
        };
        actions.push(action);
    }
    actions
}

fn subscribed_to(streams: &[(&str, &str)]) -> EventStreamSubscription<u32> {
    let mut subscription = EventStreamSubscription::new(id("!room"));
    run(&mut subscription.inner, streams, &|event_id| Some(event_id.len() as u32), &|_| None);
    subscription
}

fn with_streams(streams: &[(&str, &str)]) -> EventStreamSubscriptionInner<u32> {
    let mut inner = EventStreamSubscriptionInner::new(id("!room"));
    run(&mut inner, streams, &|event_id| Some(event_id.len() as u32), &|_| None);
    inner
}

#[test]
fn a_new_state_holds_nothing() {
    let subscription: EventStreamSubscription<u32> = EventStreamSubscription::new(id("!room"));
    assert_eq!(subscription.timeline_update_task, TaskState::Running);
    assert_eq!(subscription.sdk_update_task, TaskState::Running);
    assert_eq!(subscription.unsubscribe().len(), 2);
    let mut inner: EventStreamSubscriptionInner<u32> = EventStreamSubscriptionInner::new(id("!room"));
    assert!(!inner.is_subscribed(&id("$a")));
    assert!(!inner.is_cancelled(&id("$a")));
    assert!(inner.unsubscribe_all().is_empty());
}

#[test]
fn a_displayed_stream_is_subscribed_to_and_shows_its_body() {
    let mut inner = EventStreamSubscriptionInner::new(id("!room"));
    let actions = run(&mut inner, &[("$a", "draft")], &|_| Some(7), &|_| None);
    assert_eq!(actions, vec![subscribe("$a"), set("$a", Some("draft"))]);
    assert!(inner.is_subscribed(&id("$a")));
}

#[test]
fn a_failed_subscription_is_tried_again_at_the_next_refresh() {
    let mut inner = EventStreamSubscriptionInner::new(id("!room"));
    let actions = run(&mut inner, &[("$a", "draft")], &|_| None, &|_| None);
    assert_eq!(actions, vec![subscribe("$a")]);
    assert!(!inner.is_subscribed(&id("$a")));
    assert!(!inner.is_cancelled(&id("$a")));
    let actions = run(&mut inner, &[("$a", "draft")], &|_| Some(1), &|_| None);
    assert_eq!(actions, vec![subscribe("$a"), set("$a", Some("draft"))]);
    assert!(inner.is_subscribed(&id("$a")));
}

#[test]
fn a_subscribed_stream_shows_its_present_text() {
    let mut inner = with_streams(&[("$a", "draft")]);
    let actions = run(&mut inner, &[("$a", "draft")], &|_| None, &|_| Some(id("text")));
    assert_eq!(actions, vec![fetch("$a"), set("$a", Some("text"))]);
    let actions = run(&mut inner, &[("$a", "draft")], &|_| None, &|_| None);
    assert_eq!(actions, vec![fetch("$a")]);
    assert!(inner.is_subscribed(&id("$a")));
}

#[test]
fn a_stream_that_is_no_longer_displayed_is_released() {
    let mut inner = with_streams(&[("$a", "a"), ("$long", "b")]);
    let actions = run(&mut inner, &[("$a", "a")], &|_| None, &|_| None);
    assert_eq!(
        actions,
        vec![
            Action::Unsubscribe { event_id: id("$long"), subscription: 5 },
            set("$long", None),
            fetch("$a"),
        ]
    );
    assert!(inner.is_subscribed(&id("$a")));
    assert!(!inner.is_subscribed(&id("$long")));
}

#[test]
fn a_removed_stream_takes_no_update_while_it_is_released() {
    let mut inner = with_streams(&[("$a", "a")]);
    let mut refresh = inner.refresh(displayed(&[]));
    assert!(inner.handle_update(replaced("$a", "late")).is_none());
    assert_eq!(
        refresh.step(&mut inner, Reply::Done),
        Ok(Some(Action::Unsubscribe { event_id: id("$a"), subscription: 2 }))
    );
    assert_eq!(refresh.step(&mut inner, Reply::Done), Ok(Some(set("$a", None))));
    assert_eq!(refresh.step(&mut inner, Reply::Done), Ok(None));
    assert_eq!(refresh.step(&mut inner, Reply::Done), Ok(None));
}

#[test]
fn a_settled_refresh_changes_nothing() {
    let streams = [("$a", "a"), ("$b", "b")];
    let mut inner = with_streams(&streams);
    let actions = run(&mut inner, &streams, &|_| None, &|_| None);
    assert_eq!(actions.len(), 2);
    assert!(actions.contains(&fetch("$a")));
    assert!(actions.contains(&fetch("$b")));
    assert!(inner.is_subscribed(&id("$a")));
    assert!(inner.is_subscribed(&id("$b")));
}

#[test]
fn a_reply_to_another_action_is_handed_back() {
    let mut inner = EventStreamSubscriptionInner::new(id("!room"));
    let mut refresh = inner.refresh(displayed(&[("$a", "a")]));
    assert_eq!(
        refresh.step(&mut inner, Reply::Subscribed { subscription: 9u32 }),
        Err(Reply::Subscribed { subscription: 9 })
    );
    assert_eq!(refresh.step(&mut inner, Reply::Done), Ok(Some(subscribe("$a"))));
    assert_eq!(refresh.step(&mut inner, Reply::Done), Err(Reply::Done));
    assert!(!inner.is_subscribed(&id("$a")));
    assert_eq!(
        refresh.step(&mut inner, Reply::Subscribed { subscription: 3 }),
        Ok(Some(set("$a", Some("a"))))
    );
    assert!(inner.is_subscribed(&id("$a")));
    assert_eq!(refresh.step(&mut inner, Reply::Done), Ok(None));
}

#[test]
fn updates_of_a_subscribed_stream_are_applied() {
    let mut inner = with_streams(&[("$a", "a")]);
    assert_eq!(
        inner.handle_update(replaced("$a", "new text")),
        Some(UpdateEffect {
            stream_id: stream("!room", "$a"),
            transient_body: Some(id("new text")),
            cancelled: false,
            operation: Operation::Replace,
            appended_chars: None,
        })
    );
    assert_eq!(
        inner.handle_update(EventStreamSubscriberUpdate::Appended {
            stream_id: stream("!room", "$a"),
            appended_body: id(" \u{e9}t\u{e9}"),
            body: id("new text \u{e9}t\u{e9}"),
        }),
        Some(UpdateEffect {
            stream_id: stream("!room", "$a"),
            transient_body: Some(id("new text \u{e9}t\u{e9}")),
            cancelled: false,
            operation: Operation::Append,
            appended_chars: Some(4),
        })
    );
    assert!(inner.is_subscribed(&id("$a")));
    assert!(!inner.is_cancelled(&id("$a")));
}

#[test]
fn other_rooms_and_other_streams_are_ignored() {
    let mut inner = with_streams(&[("$a", "a")]);
    assert!(inner
        .handle_update(EventStreamSubscriberUpdate::Cancelled { stream_id: stream("!other", "$a") })
        .is_none());
    assert!(inner.handle_update(cancelled("$b")).is_none());
    assert!(inner.is_subscribed(&id("$a")));
    assert!(!inner.is_cancelled(&id("$a")));
    assert!(!inner.is_cancelled(&id("$b")));
}

#[test]
fn an_ended_stream_takes_no_update_and_no_subscription() {
    let mut inner = with_streams(&[("$a", "a"), ("$b", "b")]);
    assert_eq!(
        inner.handle_update(cancelled("$a")),
        Some(UpdateEffect {
            stream_id: stream("!room", "$a"),
            transient_body: None,
            cancelled: true,
            operation: Operation::Cancel,
            appended_chars: None,
        })
    );
    assert!(inner.is_cancelled(&id("$a")));
    assert!(!inner.is_subscribed(&id("$a")));
    assert!(inner.is_subscribed(&id("$b")));
    assert!(inner.handle_update(replaced("$a", "late")).is_none());
    assert!(inner.handle_update(cancelled("$a")).is_none());
    let actions = run(&mut inner, &[("$a", "a"), ("$b", "b")], &|_| Some(1), &|_| None);
    assert_eq!(actions, vec![fetch("$b")]);
    assert!(inner.is_cancelled(&id("$a")));
}

#[test]
fn a_cancelled_stream_that_leaves_the_display_is_forgotten() {
    let mut inner = with_streams(&[("$a", "a")]);
    inner.handle_update(EventStreamSubscriberUpdate::Expired { stream_id: stream("!room", "$a") });
    assert!(inner.is_cancelled(&id("$a")));
    assert_eq!(run(&mut inner, &[], &|_| Some(1), &|_| None), vec![]);
    assert!(!inner.is_cancelled(&id("$a")));
    let actions = run(&mut inner, &[("$a", "again")], &|_| Some(1), &|_| None);
    assert_eq!(actions, vec![subscribe("$a"), set("$a", Some("again"))]);
}

#[test]
fn a_stream_that_ends_during_a_refresh_is_passed_over() {
    let mut inner = with_streams(&[("$a", "a")]);
    let mut refresh = inner.refresh(displayed(&[("$a", "a")]));
    assert!(inner.handle_update(cancelled("$a")).is_some());
    assert_eq!(refresh.step(&mut inner, Reply::Done), Ok(None));
    assert!(inner.is_cancelled(&id("$a")));
}

#[test]
fn an_update_during_a_subscription_is_ignored() {
    let mut inner = EventStreamSubscriptionInner::new(id("!room"));
    let mut refresh = inner.refresh(displayed(&[("$a", "a")]));
    assert_eq!(refresh.step(&mut inner, Reply::Done), Ok(Some(subscribe("$a"))));
    assert!(inner.handle_update(cancelled("$a")).is_none());
    assert!(refresh.step(&mut inner, Reply::Subscribed { subscription: 1 }).is_ok());
    assert!(inner.is_subscribed(&id("$a")));
    assert!(!inner.is_cancelled(&id("$a")));
}

#[test]
fn expiry_is_reported_as_such() {
    let mut inner = with_streams(&[("$a", "a")]);
    let effect = inner
        .handle_update(EventStreamSubscriberUpdate::Expired { stream_id: stream("!room", "$a") })
        .unwrap();
    assert_eq!(effect.operation, Operation::Expire);
    assert!(effect.cancelled);
    assert_eq!(effect.transient_body, None);
}

#[test]
fn operations_have_names() {
    assert_eq!(Operation::Replace.as_str(), "replace");
    assert_eq!(Operation::Append.as_str(), "append");
    assert_eq!(Operation::Cancel.as_str(), "cancel");
    assert_eq!(Operation::Expire.as_str(), "expire");
}

#[test]
fn unsubscribe_all_releases_every_stream_once() {
    let mut inner = with_streams(&[("$a", "a"), ("$long", "b")]);
    inner.handle_update(cancelled("$a"));
    assert_eq!(
        inner.unsubscribe_all(),
        vec![Action::Unsubscribe { event_id: id("$long"), subscription: 5 }, set("$long", None)]
    );
    assert!(!inner.is_subscribed(&id("$long")));
    assert!(inner.is_cancelled(&id("$a")));
    assert!(inner.handle_update(replaced("$long", "late")).is_none());
    assert_eq!(inner.unsubscribe_all(), vec![]);
}

#[test]
fn unsubscribe_stops_the_tasks_first() {
    let subscription = subscribed_to(&[("$a", "a")]);
    assert_eq!(
        subscription.unsubscribe(),
        vec![
            Action::AbortTask { task: Task::TimelineUpdates },
            Action::AbortTask { task: Task::SdkUpdates },
            Action::Unsubscribe { event_id: id("$a"), subscription: 2 },
            set("$a", None),
        ]
    );
}

#[test]
fn timeline_changes_ask_for_a_refresh_until_they_end() {
    let mut subscription = subscribed_to(&[]);
    assert!(subscription.timeline_update(true));
    assert!(subscription.timeline_update(true));
    assert!(!subscription.timeline_update(false));
    assert_eq!(subscription.timeline_update_task, TaskState::Finished);
    assert_eq!(subscription.sdk_update_task, TaskState::Running);
    assert!(!subscription.timeline_update(true));
}

#[test]
fn lost_updates_do_not_end_the_task_and_a_closed_channel_does() {
    let mut subscription = subscribed_to(&[("$a", "a")]);
    assert_eq!(subscription.sdk_update(Received::Lagged { skipped: 3 }), SdkUpdateStep::Continue);
    assert_eq!(
        subscription.sdk_update(Received::Update { update: replaced("$b", "text") }),
        SdkUpdateStep::Continue
    );
    assert!(matches!(
        subscription.sdk_update(Received::Update { update: replaced("$a", "text") }),
        SdkUpdateStep::Apply { effect } if effect.transient_body.as_deref() == Some("text")
    ));
    assert_eq!(subscription.sdk_update(Received::Closed), SdkUpdateStep::Stop);
    assert_eq!(subscription.sdk_update_task, TaskState::Finished);
    assert_eq!(
        subscription.sdk_update(Received::Update { update: cancelled("$a") }),
        SdkUpdateStep::Stop
    );
    assert!(subscription.inner.is_subscribed(&id("$a")));
}
