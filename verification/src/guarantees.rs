//! What callers can rely on, stated of the functions themselves: of what goes
//! into a call and what comes out of it.
use crate::action::{release_all, views, Action, ActionView, Reply, Task};
use crate::laws::releases_go_one_by_one;
use crate::refresh::{Refresh, RefreshView, StageView};
use crate::stream_map::{keys, StreamMap};
use crate::subscription::{
    EventStreamSubscription, EventStreamSubscriptionInner, Received, SdkUpdateStep, StreamsView,
    TaskState,
};
use crate::update::{EventStreamSubscriberUpdate, StreamId, UpdateEffect};
use vstd::prelude::*;

verus! {

/// An update is taken if and only if it is about this room and about a stream
/// that is subscribed to, whatever kind it is and whatever text it carries.
pub proof fn taken_iff_subscribed_here<S>(
    inner: &mut EventStreamSubscriptionInner<S>,
    update: EventStreamSubscriberUpdate,
    stream_id: StreamId,
    applied: Option<UpdateEffect>,
)
    requires
        call_ensures(
            EventStreamSubscriptionInner::<S>::handle_update,
            (inner, update),
            applied,
        ),
        match update {
            EventStreamSubscriberUpdate::Replaced { stream_id: named, .. } => named == stream_id,
            EventStreamSubscriberUpdate::Appended { stream_id: named, .. } => named == stream_id,
            EventStreamSubscriberUpdate::Cancelled { stream_id: named } => named == stream_id,
            EventStreamSubscriberUpdate::Expired { stream_id: named } => named == stream_id,
        },
    ensures
        applied is Some <==> stream_id.room_id@ == old(inner)@.room_id
            && old(inner)@.subscriptions.contains_key(stream_id.event_id@),
        applied matches Some(effect) ==> effect.stream_id == stream_id,
        applied is None ==> final(inner)@ == old(inner)@,
{
}

/// Every new text of a stream that is subscribed to is shown whole: what is
/// shown is the text that the stream has after the update, not the piece that was
/// appended. The subscriptions stay as they are.
pub proof fn new_text_is_shown_whole<S>(
    inner: &mut EventStreamSubscriptionInner<S>,
    update: EventStreamSubscriberUpdate,
    stream_id: StreamId,
    appended_body: String,
    body: String,
    applied: Option<UpdateEffect>,
)
    requires
        call_ensures(
            EventStreamSubscriptionInner::<S>::handle_update,
            (inner, update),
            applied,
        ),
        update == (EventStreamSubscriberUpdate::Replaced { stream_id, body }) || update == (
        EventStreamSubscriberUpdate::Appended { stream_id, appended_body, body }),
        stream_id.room_id@ == old(inner)@.room_id,
        old(inner)@.subscriptions.contains_key(stream_id.event_id@),
    ensures
        applied matches Some(effect) && effect.transient_body == Some(body) && !effect.cancelled,
        final(inner)@ == old(inner)@,
{
}

/// A stream that is cancelled or runs out while it is subscribed to is no longer
/// subscribed to and counts as cancelled, its message shows its own body, and
/// every other stream is left as it was.
pub proof fn end_drops_subscription<S>(
    inner: &mut EventStreamSubscriptionInner<S>,
    update: EventStreamSubscriberUpdate,
    stream_id: StreamId,
    applied: Option<UpdateEffect>,
    other: Seq<char>,
)
    requires
        call_ensures(
            EventStreamSubscriptionInner::<S>::handle_update,
            (inner, update),
            applied,
        ),
        update == (EventStreamSubscriberUpdate::Cancelled { stream_id }) || update == (
        EventStreamSubscriberUpdate::Expired { stream_id }),
        stream_id.room_id@ == old(inner)@.room_id,
        old(inner)@.subscriptions.contains_key(stream_id.event_id@),
    ensures
        !final(inner)@.subscriptions.contains_key(stream_id.event_id@),
        final(inner)@.cancelled.contains(stream_id.event_id@),
        applied matches Some(effect) && effect.cancelled && effect.transient_body is None,
        other != stream_id.event_id@ ==> {
            &&& final(inner)@.cancelled.contains(other) == old(inner)@.cancelled.contains(other)
            &&& final(inner)@.subscriptions.contains_key(other)
                == old(inner)@.subscriptions.contains_key(other)
            &&& old(inner)@.subscriptions.contains_key(other)
                ==> final(inner)@.subscriptions[other] == old(inner)@.subscriptions[other]
        },
        final(inner)@.room_id == old(inner)@.room_id,
{
}

/// After a stream has ended, the next update of it is ignored and changes
/// nothing.
pub proof fn nothing_follows_the_end<S>(
    inner: &mut EventStreamSubscriptionInner<S>,
    end: EventStreamSubscriberUpdate,
    ended: Option<UpdateEffect>,
    after: &mut EventStreamSubscriptionInner<S>,
    later: EventStreamSubscriberUpdate,
    applied: Option<UpdateEffect>,
    stream_id: StreamId,
)
    requires
        call_ensures(EventStreamSubscriptionInner::<S>::handle_update, (inner, end), ended),
        end == (EventStreamSubscriberUpdate::Cancelled { stream_id }) || end == (
        EventStreamSubscriberUpdate::Expired { stream_id }),
        stream_id.room_id@ == old(inner)@.room_id,
        *old(after) == *final(inner),
        call_ensures(EventStreamSubscriptionInner::<S>::handle_update, (after, later), applied),
        match later {
            EventStreamSubscriberUpdate::Replaced { stream_id: named, .. } => named == stream_id,
            EventStreamSubscriberUpdate::Appended { stream_id: named, .. } => named == stream_id,
            EventStreamSubscriberUpdate::Cancelled { stream_id: named } => named == stream_id,
            EventStreamSubscriberUpdate::Expired { stream_id: named } => named == stream_id,
        },
    ensures
        applied is None,
        final(after)@ == old(after)@,
{
}

/// A refresh starts by dropping exactly the subscriptions to streams that are
/// not displayed. The others keep their handles, and no stream ends by it.
pub proof fn refresh_drops_what_is_not_displayed<S>(
    inner: &mut EventStreamSubscriptionInner<S>,
    displayed: StreamMap<String>,
    refresh: Refresh<S>,
    event_id: Seq<char>,
)
    requires
        call_ensures(
            EventStreamSubscriptionInner::<S>::refresh,
            (inner, displayed),
            refresh,
        ),
    ensures
        final(inner)@.subscriptions.contains_key(event_id) <==> old(
            inner,
        )@.subscriptions.contains_key(event_id) && displayed@.contains_key(event_id),
        final(inner)@.subscriptions.contains_key(event_id)
            ==> final(inner)@.subscriptions[event_id] == old(inner)@.subscriptions[event_id],
        (exists|i: int|
            0 <= i < refresh@.removed.len() && (#[trigger] refresh@.removed[i]).0 == event_id)
            <==> old(inner)@.subscriptions.contains_key(event_id) && !displayed@.contains_key(
            event_id,
        ),
        (exists|i: int|
            0 <= i < refresh@.displayed.len() && (#[trigger] refresh@.displayed[i]).0 == event_id)
            <==> displayed@.contains_key(event_id),
        final(inner)@.cancelled == old(inner)@.cancelled,
        final(inner)@.room_id == old(inner)@.room_id,
{
    if exists|i: int|
        0 <= i < refresh@.removed.len() && (#[trigger] refresh@.removed[i]).0 == event_id {
        let i = choose|i: int|
            0 <= i < refresh@.removed.len() && (#[trigger] refresh@.removed[i]).0 == event_id;
        assert(old(inner)@.subscriptions.contains_pair(
            refresh@.removed[i].0,
            refresh@.removed[i].1,
        ));
    }
}

/// A step is refused, and changes nothing, if and only if the reply is no
/// outcome of the work that the refresh waits for: a text where one is fetched, a
/// subscription or its failure where one is attempted, and anywhere else that the
/// work is done.
pub proof fn step_refuses_other_replies<S>(
    refresh: &mut Refresh<S>,
    streams: &mut EventStreamSubscriptionInner<S>,
    reply: Reply<S>,
    next: Result<Option<Action<S>>, Reply<S>>,
)
    requires
        call_ensures(Refresh::<S>::step, (refresh, streams, reply), next),
    ensures
        next is Ok <==> match old(refresh)@.stage {
            StageView::Fetching { .. } => reply is TransientBody,
            StageView::Subscribing { .. } => reply is Subscribed || reply is SubscribeFailed,
            _ => reply is Done,
        },
        next matches Err(returned) ==> {
            &&& returned == reply
            &&& final(refresh)@ == old(refresh)@
            &&& final(streams)@ == old(streams)@
        },
{
}

/// A stream that could be subscribed to is recorded under its own handle, and
/// its message is told to show its own body as the stream's first text.
pub proof fn subscribed_stream_is_recorded<S>(
    refresh: &mut Refresh<S>,
    streams: &mut EventStreamSubscriptionInner<S>,
    event_id: Seq<char>,
    body: Seq<char>,
    subscription: S,
    next: Result<Option<Action<S>>, Reply<S>>,
)
    requires
        call_ensures(
            Refresh::<S>::step,
            (refresh, streams, Reply::Subscribed { subscription }),
            next,
        ),
        old(refresh)@.stage == (StageView::Subscribing { event_id, body }),
    ensures
        final(streams)@.subscriptions == old(streams)@.subscriptions.insert(event_id, subscription),
        final(streams)@.cancelled == old(streams)@.cancelled,
        final(streams)@.room_id == old(streams)@.room_id,
        next matches Ok(Some(Action::SetTransientBody { event_id: told, body: Some(shown) }))
            && told@ == event_id && shown@ == body,
        final(refresh)@.stage is Visiting,
        final(refresh)@.displayed == old(refresh)@.displayed,
        final(refresh)@.removed == old(refresh)@.removed,
{
}

/// The present text of a stream, once fetched, is what its message is told to
/// show; the subscriptions stay as they are.
pub proof fn fetched_text_is_shown<S>(
    refresh: &mut Refresh<S>,
    streams: &mut EventStreamSubscriptionInner<S>,
    event_id: Seq<char>,
    body: String,
    next: Result<Option<Action<S>>, Reply<S>>,
)
    requires
        call_ensures(
            Refresh::<S>::step,
            (refresh, streams, Reply::TransientBody { body: Some(body) }),
            next,
        ),
        old(refresh)@.stage == (StageView::Fetching { event_id }),
    ensures
        next matches Ok(Some(Action::SetTransientBody { event_id: told, body: Some(shown) }))
            && told@ == event_id && shown@ == body@,
        final(streams)@ == old(streams)@,
        final(refresh)@.stage is Visiting,
        final(refresh)@.displayed == old(refresh)@.displayed,
        final(refresh)@.removed == old(refresh)@.removed,
{
}

/// A subscription that is to be released is given up through its own handle;
/// the subscriptions that there are stay as they are.
pub proof fn removed_stream_is_given_up<S>(
    refresh: &mut Refresh<S>,
    streams: &mut EventStreamSubscriptionInner<S>,
    next: Result<Option<Action<S>>, Reply<S>>,
)
    requires
        call_ensures(Refresh::<S>::step, (refresh, streams, Reply::Done), next),
        old(refresh)@.stage is Releasing,
        old(refresh)@.removed.len() > 0,
    ensures
        next matches Ok(Some(Action::Unsubscribe { event_id, subscription })) && (
            event_id@,
            subscription,
        ) == old(refresh)@.removed.last(),
        final(refresh)@.stage == (StageView::Clearing {
            event_id: old(refresh)@.removed.last().0,
        }),
        final(refresh)@.removed == old(refresh)@.removed.drop_last(),
        final(refresh)@.displayed == old(refresh)@.displayed,
        final(streams)@ == old(streams)@,
{
}

/// After a subscription has been given up, its message is told to show its own
/// body again.
pub proof fn given_up_stream_is_cleared<S>(
    refresh: &mut Refresh<S>,
    streams: &mut EventStreamSubscriptionInner<S>,
    event_id: Seq<char>,
    next: Result<Option<Action<S>>, Reply<S>>,
)
    requires
        call_ensures(Refresh::<S>::step, (refresh, streams, Reply::Done), next),
        old(refresh)@.stage == (StageView::Clearing { event_id }),
    ensures
        next matches Ok(Some(Action::SetTransientBody { event_id: told, body: None })) && told@
            == event_id,
        final(refresh)@.stage is Releasing,
        final(refresh)@.removed == old(refresh)@.removed,
        final(refresh)@.displayed == old(refresh)@.displayed,
        final(streams)@ == old(streams)@,
{
}

/// A finished refresh stays so.
pub proof fn finished_refresh_asks_nothing<S>(
    refresh: &mut Refresh<S>,
    streams: &mut EventStreamSubscriptionInner<S>,
    next: Result<Option<Action<S>>, Reply<S>>,
)
    requires
        call_ensures(Refresh::<S>::step, (refresh, streams, Reply::Done), next),
        old(refresh)@.stage is Finished,
    ensures
        next matches Ok(action) && action is None,
        final(refresh)@ == old(refresh)@,
        final(streams)@ == old(streams)@,
{
}

/// What a visit does, position by position.
proof fn lemma_visit_positions<S>(refresh: RefreshView<S>, streams: StreamsView<S>)
    ensures
        ({
            let (next, after, action) = refresh.visit(streams);
            let n = next.displayed.len() as int;
            &&& after == streams
            &&& next.removed == refresh.removed
            &&& n <= refresh.displayed.len()
            &&& next.displayed == refresh.displayed.take(n)
            &&& match action {
                None => {
                    &&& n == 0
                    &&& next.stage == StageView::Finished
                    &&& forall|i: int|
                        0 <= i < refresh.displayed.len() ==> streams.cancelled.contains(
                            (#[trigger] refresh.displayed[i]).0,
                        )
                },
                Some(action) => {
                    &&& n < refresh.displayed.len()
                    &&& forall|i: int|
                        n < i < refresh.displayed.len() ==> streams.cancelled.contains(
                            (#[trigger] refresh.displayed[i]).0,
                        )
                    &&& !streams.cancelled.contains(refresh.displayed[n].0)
                    &&& if streams.subscriptions.contains_key(refresh.displayed[n].0) {
                        &&& action matches ActionView::FetchTransientBody { stream_id }
                        &&& stream_id.room_id == streams.room_id
                        &&& stream_id.event_id == refresh.displayed[n].0
                        &&& next.stage == (StageView::Fetching {
                            event_id: refresh.displayed[n].0,
                        })
                    } else {
                        &&& action == (ActionView::<S>::Subscribe {
                            event_id: refresh.displayed[n].0,
                        })
                        &&& next.stage == (StageView::Subscribing {
                            event_id: refresh.displayed[n].0,
                            body: refresh.displayed[n].1,
                        })
                    }
                },
            }
        }),
    decreases refresh.displayed.len(),
{
    let list = refresh.displayed;
    if list.len() == 0 {
        assert(list.take(0) =~= list);
    } else {
        let last = list.len() - 1;
        let rest = RefreshView { displayed: list.drop_last(), ..refresh };
        assert(list.drop_last() =~= list.take(last));
        assert(list.last() == list[last]);
        if streams.cancelled.contains(list.last().0) {
            lemma_visit_positions(rest, streams);
            let (next, after, action) = rest.visit(streams);
            let n = next.displayed.len() as int;
            assert(rest.displayed.take(n) =~= list.take(n));
            assert forall|i: int|
                n < i < list.len() && action is Some implies streams.cancelled.contains(
                (#[trigger] list[i]).0,
            ) by {
                if i < last {
                    assert(rest.displayed[i] == list[i]);
                }
            }
            assert forall|i: int| 0 <= i < list.len() && action is None implies streams.cancelled.contains(
                (#[trigger] list[i]).0,
            ) by {
                if i < last {
                    assert(rest.displayed[i] == list[i]);
                }
            }
            if action is Some {
                assert(rest.displayed[n] == list[n]);
            }
        }
    }
}

/// The displayed streams are gone through from the last to the first. Exactly
/// those that have ended are passed over; the first other one is subscribed to,
/// or, if it is subscribed to already, its present text is asked for under the
/// name of this room and that stream. The refresh is finished if and only if all
/// that were left have ended. No subscription changes. The cancelled streams
/// change only where the releases have just come to their end: then exactly those
/// that are displayed stay cancelled.
pub proof fn visits_pass_over_ended_streams_only<S>(
    refresh: &mut Refresh<S>,
    streams: &mut EventStreamSubscriptionInner<S>,
    reply: Reply<S>,
    next: Result<Option<Action<S>>, Reply<S>>,
)
    requires
        call_ensures(Refresh::<S>::step, (refresh, streams, reply), next),
        match old(refresh)@.stage {
            StageView::Releasing => reply is Done && old(refresh)@.removed.len() == 0,
            StageView::Clearing { .. } => false,
            StageView::Visiting => reply is Done,
            StageView::Fetching { .. } => reply matches Reply::TransientBody { body } && body is None,
            StageView::Subscribing { .. } => reply is SubscribeFailed,
            StageView::Finished => false,
        },
    ensures
        final(streams)@.room_id == old(streams)@.room_id,
        final(streams)@.subscriptions == old(streams)@.subscriptions,
        !(old(refresh)@.stage is Releasing) ==> final(streams)@.cancelled == old(
            streams,
        )@.cancelled,
        old(refresh)@.stage is Releasing ==> forall|event_id: Seq<char>| #[trigger]
            final(streams)@.cancelled.contains(event_id) <==> old(streams)@.cancelled.contains(
                event_id,
            ) && exists|i: int|
                0 <= i < old(refresh)@.displayed.len() && (#[trigger] old(refresh)@.displayed[i]).0
                    == event_id,
        final(refresh)@.removed == old(refresh)@.removed,
        final(refresh)@.displayed.len() <= old(refresh)@.displayed.len(),
        final(refresh)@.displayed == old(refresh)@.displayed.take(
            final(refresh)@.displayed.len() as int,
        ),
        next is Ok,
        next matches Ok(action) ==> match action {
            None => {
                &&& final(refresh)@.displayed.len() == 0
                &&& final(refresh)@.stage is Finished
                &&& forall|i: int|
                    0 <= i < old(refresh)@.displayed.len() ==> final(streams)@.cancelled.contains(
                        (#[trigger] old(refresh)@.displayed[i]).0,
                    )
            },
            Some(action) => {
                let n = final(refresh)@.displayed.len() as int;
                let (event_id, body) = old(refresh)@.displayed[n];
                &&& n < old(refresh)@.displayed.len()
                &&& forall|i: int|
                    n < i < old(refresh)@.displayed.len() ==> final(streams)@.cancelled.contains(
                        (#[trigger] old(refresh)@.displayed[i]).0,
                    )
                &&& !final(streams)@.cancelled.contains(event_id)
                &&& if old(streams)@.subscriptions.contains_key(event_id) {
                    &&& action matches Action::FetchTransientBody { stream_id }
                    &&& stream_id.room_id@ == old(streams)@.room_id
                    &&& stream_id.event_id@ == event_id
                    &&& final(refresh)@.stage == (StageView::Fetching { event_id })
                } else {
                    &&& action matches Action::Subscribe { event_id: asked }
                    &&& asked@ == event_id
                    &&& final(refresh)@.stage == (StageView::Subscribing { event_id, body })
                }
            },
        },
{
    let before = old(refresh)@;
    let kept = StreamsView {
        cancelled: old(streams)@.cancelled.intersect(keys(before.displayed)),
        ..old(streams)@
    };
    let visiting = RefreshView { stage: StageView::Visiting, ..before };
    lemma_visit_positions(before, kept);
    lemma_visit_positions(visiting, old(streams)@);
}

/// Giving up every subscription leaves none, touches no cancelled stream, and
/// asks for each of them, exactly once and through its own handle, that it be
/// given up and that directly after that its message show its own body again.
pub proof fn unsubscribe_all_gives_up_each_once<S>(
    inner: &mut EventStreamSubscriptionInner<S>,
    actions: Vec<Action<S>>,
)
    requires
        call_ensures(EventStreamSubscriptionInner::<S>::unsubscribe_all, (inner,), actions),
    ensures
        final(inner)@.subscriptions == Map::<Seq<char>, S>::empty(),
        final(inner)@.cancelled == old(inner)@.cancelled,
        final(inner)@.room_id == old(inner)@.room_id,
        actions@.len() % 2 == 0,
        forall|i: int|
            0 <= i < actions@.len() / 2 ==> {
                &&& #[trigger] actions@[2 * i] matches Action::Unsubscribe {
                    event_id,
                    subscription,
                }
                &&& old(inner)@.subscriptions.contains_pair(event_id@, subscription)
                &&& actions@[2 * i + 1] matches Action::SetTransientBody { event_id: told, body }
                &&& told@ == event_id@
                &&& body is None
            },
        forall|key: Seq<char>| #[trigger]
            old(inner)@.subscriptions.contains_key(key) ==> exists|i: int|
                0 <= i < actions@.len() / 2 && (#[trigger] actions@[2 * i] matches Action::Unsubscribe {
                    event_id,
                    ..
                } && event_id@ == key),
        forall|i: int, j: int|
            0 <= i < j < actions@.len() / 2 ==> (#[trigger] actions@[2 * i])->Unsubscribe_event_id@
                != (#[trigger] actions@[2 * j])->Unsubscribe_event_id@,
{
    lemma_release_list(actions@, old(inner)@.subscriptions);
}

/// The view of releases, read back as actions.
proof fn lemma_release_list<S>(actions: Seq<Action<S>>, subscriptions: Map<Seq<char>, S>)
    requires
        release_all(views(actions), subscriptions),
    ensures
        actions.len() % 2 == 0,
        forall|i: int|
            0 <= i < actions.len() / 2 ==> {
                &&& #[trigger] actions[2 * i] matches Action::Unsubscribe { event_id, subscription }
                &&& subscriptions.contains_pair(event_id@, subscription)
                &&& actions[2 * i + 1] matches Action::SetTransientBody { event_id: told, body }
                &&& told@ == event_id@
                &&& body is None
            },
        forall|key: Seq<char>| #[trigger]
            subscriptions.contains_key(key) ==> exists|i: int|
                0 <= i < actions.len() / 2 && (#[trigger] actions[2 * i] matches Action::Unsubscribe {
                    event_id,
                    ..
                } && event_id@ == key),
        forall|i: int, j: int|
            0 <= i < j < actions.len() / 2 ==> (#[trigger] actions[2 * i])->Unsubscribe_event_id@ != (
            #[trigger] actions[2 * j])->Unsubscribe_event_id@,
{
    let seen = views(actions);
    releases_go_one_by_one(seen, subscriptions);
    assert forall|i: int| 0 <= i < actions.len() / 2 implies {
        &&& #[trigger] actions[2 * i] matches Action::Unsubscribe { event_id, subscription }
        &&& subscriptions.contains_pair(event_id@, subscription)
        &&& actions[2 * i + 1] matches Action::SetTransientBody { event_id: told, body }
        &&& told@ == event_id@
        &&& body is None
    } by {
        assert(seen[2 * i] == actions[2 * i]@);
        assert(seen[2 * i + 1] == actions[2 * i + 1]@);
    }
    assert forall|key: Seq<char>| #[trigger] subscriptions.contains_key(key) implies exists|i: int|
        0 <= i < actions.len() / 2 && (#[trigger] actions[2 * i] matches Action::Unsubscribe {
            event_id,
            ..
        } && event_id@ == key) by {
        let i = choose|i: int|
            0 <= i < seen.len() / 2 && #[trigger] seen[2 * i] == (ActionView::Unsubscribe {
                event_id: key,
                subscription: subscriptions[key],
            });
        assert(seen[2 * i] == actions[2 * i]@);
    }
    assert forall|i: int, j: int|
        0 <= i < j < actions.len() / 2 implies (#[trigger] actions[2 * i])->Unsubscribe_event_id@ != (
    #[trigger] actions[2 * j])->Unsubscribe_event_id@ by {
        assert(seen[2 * i] == actions[2 * i]@);
        assert(seen[2 * j] == actions[2 * j]@);
        assert(seen[2 * i + 1] != seen[2 * j + 1]);
    }
}

/// Unsubscribing stops both tasks, and then gives up every subscription, exactly
/// once and through its own handle; directly after each its message shows its own
/// body again.
pub proof fn unsubscribe_stops_then_gives_up_each_once<S>(
    subscription: EventStreamSubscription<S>,
    actions: Vec<Action<S>>,
)
    requires
        call_ensures(EventStreamSubscription::<S>::unsubscribe, (subscription,), actions),
    ensures
        actions@.len() >= 2,
        actions@[0] == (Action::<S>::AbortTask { task: Task::TimelineUpdates }),
        actions@[1] == (Action::<S>::AbortTask { task: Task::SdkUpdates }),
        ({
            let rest = actions@.skip(2);
            &&& rest.len() % 2 == 0
            &&& forall|i: int|
                0 <= i < rest.len() / 2 ==> {
                    &&& #[trigger] rest[2 * i] matches Action::Unsubscribe {
                        event_id,
                        subscription: handle,
                    }
                    &&& subscription.inner@.subscriptions.contains_pair(event_id@, handle)
                    &&& rest[2 * i + 1] matches Action::SetTransientBody { event_id: told, body }
                    &&& told@ == event_id@
                    &&& body is None
                }
            &&& forall|key: Seq<char>| #[trigger]
                subscription.inner@.subscriptions.contains_key(key) ==> exists|i: int|
                    0 <= i < rest.len() / 2 && (#[trigger] rest[2 * i] matches Action::Unsubscribe {
                        event_id,
                        ..
                    } && event_id@ == key)
            &&& forall|i: int, j: int|
                0 <= i < j < rest.len() / 2 ==> (#[trigger] rest[2 * i])->Unsubscribe_event_id@ != (
                #[trigger] rest[2 * j])->Unsubscribe_event_id@
        }),
{
    let seen = views(actions@);
    assert(seen.take(2)[0] == actions@[0]@);
    assert(seen.take(2)[1] == actions@[1]@);
    assert(seen.skip(2) =~= views(actions@.skip(2)));
    lemma_release_list(actions@.skip(2), subscription.inner@.subscriptions);
}

/// A change of the timeline asks for a refresh as long as the task goes on; once
/// no change will come any more the task is over for good. The other task and the
/// subscriptions are not touched.
pub proof fn timeline_changes_ask_for_refreshes<S>(
    subscription: &mut EventStreamSubscription<S>,
    received: bool,
    refresh: bool,
    later: &mut EventStreamSubscription<S>,
    later_received: bool,
    later_refresh: bool,
)
    requires
        call_ensures(
            EventStreamSubscription::<S>::timeline_update,
            (subscription, received),
            refresh,
        ),
        old(later).timeline_update_task == final(subscription).timeline_update_task,
        call_ensures(
            EventStreamSubscription::<S>::timeline_update,
            (later, later_received),
            later_refresh,
        ),
    ensures
        old(subscription).timeline_update_task == TaskState::Running ==> refresh == received,
        old(subscription).timeline_update_task == TaskState::Finished ==> !refresh,
        !refresh ==> !later_refresh,
        refresh ==> later_refresh == later_received,
        final(subscription).sdk_update_task == old(subscription).sdk_update_task,
        final(subscription).inner == old(subscription).inner,
{
}

/// However many updates are lost, the task goes on, and nothing else happens.
pub proof fn lost_updates_end_nothing<S>(
    subscription: &mut EventStreamSubscription<S>,
    skipped: u64,
    next: SdkUpdateStep,
)
    requires
        old(subscription).sdk_update_task == TaskState::Running,
        call_ensures(
            EventStreamSubscription::<S>::sdk_update,
            (subscription, Received::Lagged { skipped }),
            next,
        ),
    ensures
        next is Continue,
        final(subscription).sdk_update_task == TaskState::Running,
        final(subscription).timeline_update_task == old(subscription).timeline_update_task,
        final(subscription).inner@ == old(subscription).inner@,
{
}

/// A closed channel ends the task; whatever is received after that is not
/// applied.
pub proof fn closed_channel_ends_the_task<S>(
    subscription: &mut EventStreamSubscription<S>,
    next: SdkUpdateStep,
    later: &mut EventStreamSubscription<S>,
    received: Received,
    later_next: SdkUpdateStep,
)
    requires
        call_ensures(
            EventStreamSubscription::<S>::sdk_update,
            (subscription, Received::Closed),
            next,
        ),
        *old(later) == *final(subscription),
        call_ensures(EventStreamSubscription::<S>::sdk_update, (later, received), later_next),
    ensures
        next is Stop,
        final(subscription).inner@ == old(subscription).inner@,
        final(subscription).timeline_update_task == old(subscription).timeline_update_task,
        later_next is Stop,
        final(later).inner@ == old(later).inner@,
{
}

/// The task that receives updates applies each of them just as it is applied on
/// its own, shows its effect if it has one, and then waits for the next one.
pub proof fn received_update_is_applied<S>(
    subscription: &mut EventStreamSubscription<S>,
    update: EventStreamSubscriberUpdate,
    next: SdkUpdateStep,
    inner: &mut EventStreamSubscriptionInner<S>,
    applied: Option<UpdateEffect>,
)
    requires
        old(subscription).sdk_update_task == TaskState::Running,
        call_ensures(
            EventStreamSubscription::<S>::sdk_update,
            (subscription, Received::Update { update }),
            next,
        ),
        old(inner)@ == old(subscription).inner@,
        call_ensures(
            EventStreamSubscriptionInner::<S>::handle_update,
            (inner, update),
            applied,
        ),
    ensures
        match applied {
            Some(effect) => next == (SdkUpdateStep::Apply { effect }),
            None => next is Continue,
        },
        final(subscription).inner@ == final(inner)@,
        final(subscription).sdk_update_task == TaskState::Running,
        final(subscription).timeline_update_task == old(subscription).timeline_update_task,
{
}

} // verus!
