//! The subscriptions to the streams that one timeline displays.
use crate::action::{release_actions, release_all, views, Action, ActionView, Task};
use crate::displayed::bodies;
use crate::refresh::{texts, Refresh};
use crate::stream_map::{keyed, keys, lemma_lists_keys, lists, StreamMap};
use crate::update::{EventStreamSubscriberUpdate, Operation, StreamId, StreamIdView, UpdateEffect};
use vstd::prelude::*;

verus! {

/// The state of the subscriptions of one timeline.
pub struct StreamsView<S> {
    /// The room of the timeline.
    pub room_id: Seq<char>,
    /// The streams that are subscribed to, by event ID.
    pub subscriptions: Map<Seq<char>, S>,
    /// The streams that ended while they were subscribed to.
    pub cancelled: Set<Seq<char>>,
}

impl<S> StreamsView<S> {
    /// No stream that has ended is subscribed to.
    pub open spec fn consistent(self) -> bool {
        self.subscriptions.dom().disjoint(self.cancelled)
    }

    /// `update` is about a stream of this room that is subscribed to.
    pub open spec fn concerns(self, update: EventStreamSubscriberUpdate) -> bool {
        &&& update.stream().room_id == self.room_id
        &&& self.subscriptions.contains_key(update.stream().event_id)
    }

    /// The state after `update`: a stream that ends is no longer subscribed
    /// to and counts as cancelled; nothing else changes it.
    pub open spec fn updated(self, update: EventStreamSubscriberUpdate) -> Self {
        if self.concerns(update) && update.ends_stream() {
            StreamsView {
                subscriptions: self.subscriptions.remove(update.stream().event_id),
                cancelled: self.cancelled.insert(update.stream().event_id),
                ..self
            }
        } else {
            self
        }
    }
}

/// The subscriptions of one timeline. `S` is the handle of a subscription to
/// one stream.
#[derive(Debug)]
pub struct EventStreamSubscriptionInner<S> {
    room_id: String,
    subscriptions: StreamMap<S>,
    cancelled: StreamMap<()>,
}

impl<S> View for EventStreamSubscriptionInner<S> {
    type V = StreamsView<S>;

    closed spec fn view(&self) -> StreamsView<S> {
        StreamsView {
            room_id: self.room_id@,
            subscriptions: self.subscriptions@,
            cancelled: self.cancelled@.dom(),
        }
    }
}

impl<S> EventStreamSubscriptionInner<S> {
    /// The state before the first refresh: nothing is subscribed to and
    /// nothing is cancelled.
    pub fn new(room_id: String) -> (inner: Self)
        ensures
            inner@.room_id == room_id@,
            inner@.subscriptions == Map::<Seq<char>, S>::empty(),
            inner@.cancelled == Set::<Seq<char>>::empty(),
            inner@.consistent(),
    {
        let inner = EventStreamSubscriptionInner {
            room_id,
            subscriptions: StreamMap::new(),
            cancelled: StreamMap::new(),
        };
        assert(inner@.cancelled =~= Set::<Seq<char>>::empty());
        inner
    }

    /// Whether the stream is subscribed to.
    pub fn is_subscribed(&self, event_id: &String) -> (subscribed: bool)
        ensures
            subscribed == self@.subscriptions.contains_key(event_id@),
    {
        self.subscriptions.contains_key(event_id)
    }

    /// Whether the stream ended while it was subscribed to.
    pub fn is_cancelled(&self, event_id: &String) -> (cancelled: bool)
        ensures
            cancelled == self@.cancelled.contains(event_id@),
    {
        self.cancelled.contains_key(event_id)
    }

    /// The name of the stream that the event `event_id` of this room announces.
    pub(crate) fn stream_id(&self, event_id: String) -> (stream_id: StreamId)
        ensures
            stream_id@ == (StreamIdView { room_id: self@.room_id, event_id: event_id@ }),
    {
        StreamId::new(self.room_id.clone(), event_id)
    }

    /// Records that the stream is subscribed to.
    pub(crate) fn subscribed(&mut self, event_id: String, subscription: S)
        ensures
            final(self)@ == (StreamsView {
                subscriptions: old(self)@.subscriptions.insert(event_id@, subscription),
                ..old(self)@
            }),
    {
        self.subscriptions.insert(event_id, subscription);
    }

    /// Forgets the cancelled streams that do not occur in `displayed`.
    pub(crate) fn retain_cancelled(&mut self, displayed: &Vec<(String, String)>)
        ensures
            final(self)@ == (StreamsView {
                cancelled: old(self)@.cancelled.intersect(keys(texts(displayed@))),
                ..old(self)@
            }),
    {
        let _forgotten = self.cancelled.split_off(displayed);
        proof {
            lemma_texts_keys(displayed@);
            assert(self@.cancelled =~= old(self)@.cancelled.intersect(keys(texts(displayed@))));
        }
    }

    /// Starts to bring the subscriptions in line with the streams that the
    /// timeline displays. The streams that are no longer displayed stop being
    /// subscribed to at once; what else there is to do comes out of
    /// [`Refresh::step`].
    pub fn refresh(&mut self, displayed: StreamMap<String>) -> (refresh: Refresh<S>)
        ensures
            refresh@.starts(old(self)@, bodies(displayed@)),
            refresh@.stage is Releasing,
            forall|i: int|
                0 <= i < refresh@.removed.len() ==> {
                    &&& old(self)@.subscriptions.contains_pair(
                        (#[trigger] refresh@.removed[i]).0,
                        refresh@.removed[i].1,
                    )
                    &&& !displayed@.contains_key(refresh@.removed[i].0)
                },
            forall|event_id: Seq<char>| #[trigger]
                old(self)@.subscriptions.contains_key(event_id) && !displayed@.contains_key(
                    event_id,
                ) ==> exists|i: int|
                    0 <= i < refresh@.removed.len() && (#[trigger] refresh@.removed[i]).0
                        == event_id,
            forall|i: int, j: int|
                0 <= i < j < refresh@.removed.len() ==> (#[trigger] refresh@.removed[i]).0 != (
                #[trigger] refresh@.removed[j]).0,
            forall|i: int|
                0 <= i < refresh@.displayed.len() ==> {
                    &&& displayed@.contains_key((#[trigger] refresh@.displayed[i]).0)
                    &&& displayed@[refresh@.displayed[i].0]@ == refresh@.displayed[i].1
                },
            forall|event_id: Seq<char>| #[trigger]
                displayed@.contains_key(event_id) ==> exists|i: int|
                    0 <= i < refresh@.displayed.len() && (#[trigger] refresh@.displayed[i]).0
                        == event_id,
            forall|i: int, j: int|
                0 <= i < j < refresh@.displayed.len() ==> (#[trigger] refresh@.displayed[i]).0 != (
                #[trigger] refresh@.displayed[j]).0,
            final(self)@ == (StreamsView {
                subscriptions: old(self)@.subscriptions.restrict(displayed@.dom()),
                ..old(self)@
            }),
            old(self)@.consistent() ==> final(self)@.consistent(),
    {
        let ghost shown = displayed@;
        let mut displayed = displayed;
        let displayed = displayed.take();
        let removed = self.subscriptions.split_off(&displayed);
        proof {
            lemma_lists_keys(keyed(displayed@), shown);
            lemma_lists_bodies(displayed@, shown);
            assert(bodies(shown).dom() =~= shown.dom());
            let gone = old(self)@.subscriptions.remove_keys(shown.dom());
            assert forall|event_id: Seq<char>| #[trigger]
                old(self)@.subscriptions.contains_key(event_id) && !shown.contains_key(
                    event_id,
                ) implies gone.contains_key(event_id) by {}
            assert forall|event_id: Seq<char>| #[trigger] shown.contains_key(
                event_id,
            ) implies bodies(shown).contains_key(event_id) by {}
        }
        Refresh::new(removed, displayed)
    }

    /// Applies an update of a stream. Returns what there is to show, if the
    /// update is about a stream that is subscribed to.
    pub fn handle_update(&mut self, update: EventStreamSubscriberUpdate) -> (applied: Option<
        UpdateEffect,
    >)
        ensures
            final(self)@ == old(self)@.updated(update),
            old(self)@.consistent() ==> final(self)@.consistent(),
            match applied {
                Some(effect) => old(self)@.concerns(update) && effect.is_effect_of(update),
                None => !old(self)@.concerns(update),
            },
            match update {
                EventStreamSubscriberUpdate::Replaced { stream_id, body } => {
                    &&& applied is Some <==> stream_id.room_id@ == old(self)@.room_id
                        && old(self)@.subscriptions.contains_key(stream_id.event_id@)
                    &&& applied matches Some(effect) ==> {
                        &&& effect.stream_id == stream_id
                        &&& effect.transient_body == Some(body)
                        &&& !effect.cancelled
                        &&& effect.operation == Operation::Replace
                        &&& effect.appended_chars is None
                    }
                    &&& final(self)@ == old(self)@
                },
                EventStreamSubscriberUpdate::Appended { stream_id, appended_body, body } => {
                    &&& applied is Some <==> stream_id.room_id@ == old(self)@.room_id
                        && old(self)@.subscriptions.contains_key(stream_id.event_id@)
                    &&& applied matches Some(effect) ==> {
                        &&& effect.stream_id == stream_id
                        &&& effect.transient_body == Some(body)
                        &&& !effect.cancelled
                        &&& effect.operation == Operation::Append
                        &&& effect.appended_chars matches Some(appended) && appended
                            == appended_body@.len()
                    }
                    &&& final(self)@ == old(self)@
                },
                EventStreamSubscriberUpdate::Cancelled { stream_id } => {
                    &&& applied is Some <==> stream_id.room_id@ == old(self)@.room_id
                        && old(self)@.subscriptions.contains_key(stream_id.event_id@)
                    &&& applied matches Some(effect) ==> {
                        &&& effect.stream_id == stream_id
                        &&& effect.transient_body is None
                        &&& effect.cancelled
                        &&& effect.operation == Operation::Cancel
                        &&& effect.appended_chars is None
                    }
                    &&& applied is Some ==> {
                        &&& final(self)@.room_id == old(self)@.room_id
                        &&& final(self)@.subscriptions == old(self)@.subscriptions.remove(
                            stream_id.event_id@,
                        )
                        &&& final(self)@.cancelled == old(self)@.cancelled.insert(stream_id.event_id@)
                    }
                    &&& !(applied is Some) ==> final(self)@ == old(self)@
                },
                EventStreamSubscriberUpdate::Expired { stream_id } => {
                    &&& applied is Some <==> stream_id.room_id@ == old(self)@.room_id
                        && old(self)@.subscriptions.contains_key(stream_id.event_id@)
                    &&& applied matches Some(effect) ==> {
                        &&& effect.stream_id == stream_id
                        &&& effect.transient_body is None
                        &&& effect.cancelled
                        &&& effect.operation == Operation::Expire
                        &&& effect.appended_chars is None
                    }
                    &&& applied is Some ==> {
                        &&& final(self)@.room_id == old(self)@.room_id
                        &&& final(self)@.subscriptions == old(self)@.subscriptions.remove(
                            stream_id.event_id@,
                        )
                        &&& final(self)@.cancelled == old(self)@.cancelled.insert(stream_id.event_id@)
                    }
                    &&& !(applied is Some) ==> final(self)@ == old(self)@
                },
            },
    {
        let effect = update.into_effect();
        if effect.stream_id.room_id != self.room_id {
            return None;
        }
        if !self.subscriptions.contains_key(&effect.stream_id.event_id) {
            return None;
        }
        if effect.cancelled {
            let _ended = self.subscriptions.remove(&effect.stream_id.event_id);
            self.cancelled.insert(effect.stream_id.event_id.clone(), ());
            assert(self@.cancelled =~= old(self)@.cancelled.insert(update.stream().event_id));
        }
        Some(effect)
    }

    /// Gives up every subscription: returns the actions that release them.
    pub fn unsubscribe_all(&mut self) -> (actions: Vec<Action<S>>)
        ensures
            release_all(views(actions@), old(self)@.subscriptions),
            final(self)@ == (StreamsView {
                subscriptions: Map::<Seq<char>, S>::empty(),
                ..old(self)@
            }),
            final(self)@.consistent(),
    {
        let subscriptions = self.subscriptions.take();
        release_actions(subscriptions)
    }
}

/// Whether a background task still goes on.
#[derive(Debug, Clone, Copy, PartialEq, Eq, Structural)]
pub enum TaskState {
    Running,
    Finished,
}

/// What the channel of stream updates hands to its receiver.
#[derive(Debug)]
pub enum Received {
    Update { update: EventStreamSubscriberUpdate },
    /// The receiver fell behind, and this many updates are lost.
    Lagged { skipped: u64 },
    /// The channel is closed: no further update will come.
    Closed,
}

/// What the task that applies the updates does next.
#[derive(Debug, PartialEq, Eq)]
pub enum SdkUpdateStep {
    /// Show the effect of an update, then wait for the next one.
    Apply { effect: UpdateEffect },
    /// Wait for the next update.
    Continue,
    /// End the task.
    Stop,
}

/// A handle for subscribing to event streams displayed by a focused timeline.
/// `S` is the handle of a subscription to one stream.
#[derive(Debug)]
pub struct EventStreamSubscription<S> {
    pub inner: EventStreamSubscriptionInner<S>,
    /// The task that refreshes the subscriptions whenever the timeline changes.
    pub timeline_update_task: TaskState,
    /// The task that applies the updates of the streams.
    pub sdk_update_task: TaskState,
}

impl<S> EventStreamSubscription<S> {
    /// A subscription for the timeline of a room, before its first refresh:
    /// nothing is subscribed to and nothing is cancelled. Both tasks go on until
    /// what they listen to ends.
    pub fn new(room_id: String) -> (subscription: Self)
        ensures
            subscription.inner@.room_id == room_id@,
            subscription.inner@.subscriptions == Map::<Seq<char>, S>::empty(),
            subscription.inner@.cancelled == Set::<Seq<char>>::empty(),
            subscription.inner@.consistent(),
            subscription.timeline_update_task == TaskState::Running,
            subscription.sdk_update_task == TaskState::Running,
    {
        EventStreamSubscription {
            inner: EventStreamSubscriptionInner::new(room_id),
            timeline_update_task: TaskState::Running,
            sdk_update_task: TaskState::Running,
        }
    }

    /// Tells whether to refresh the subscriptions: `received` says whether a
    /// change of the timeline came in, or none will come any more.
    pub fn timeline_update(&mut self, received: bool) -> (refresh: bool)
        ensures
            refresh == (old(self).timeline_update_task == TaskState::Running && received),
            final(self).timeline_update_task == (if refresh {
                TaskState::Running
            } else {
                TaskState::Finished
            }),
            final(self).sdk_update_task == old(self).sdk_update_task,
            final(self).inner == old(self).inner,
    {
        if self.timeline_update_task == TaskState::Running && received {
            true
        } else {
            self.timeline_update_task = TaskState::Finished;
            false
        }
    }

    /// Takes what the channel of stream updates handed out. An update is
    /// applied; after lost updates the task goes on with those that follow; a
    /// closed channel ends it.
    pub fn sdk_update(&mut self, received: Received) -> (next: SdkUpdateStep)
        ensures
            final(self).timeline_update_task == old(self).timeline_update_task,
            final(self).sdk_update_task == (if received is Closed {
                TaskState::Finished
            } else {
                old(self).sdk_update_task
            }),
            old(self).sdk_update_task == TaskState::Finished ==> {
                &&& next is Stop
                &&& final(self).inner@ == old(self).inner@
            },
            old(self).sdk_update_task == TaskState::Running ==> match received {
                Received::Update { update } => {
                    &&& final(self).inner@ == old(self).inner@.updated(update)
                    &&& match next {
                        SdkUpdateStep::Apply { effect } => old(self).inner@.concerns(update)
                            && effect.is_effect_of(update),
                        SdkUpdateStep::Continue => !old(self).inner@.concerns(update),
                        SdkUpdateStep::Stop => false,
                    }
                },
                Received::Lagged { .. } => {
                    &&& next is Continue
                    &&& final(self).inner@ == old(self).inner@
                },
                Received::Closed => {
                    &&& next is Stop
                    &&& final(self).inner@ == old(self).inner@
                },
            },
            old(self).sdk_update_task == TaskState::Running ==> (received matches Received::Update {
                update,
            } ==> {
                &&& next is Apply || next is Continue
                &&& match update {
                    EventStreamSubscriberUpdate::Replaced { stream_id, body } => {
                        &&& next is Apply <==> stream_id.room_id@ == old(self).inner@.room_id
                            && old(self).inner@.subscriptions.contains_key(stream_id.event_id@)
                        &&& next matches SdkUpdateStep::Apply { effect } ==> {
                            &&& effect.stream_id == stream_id
                            &&& effect.transient_body == Some(body)
                            &&& !effect.cancelled
                            &&& effect.operation == Operation::Replace
                            &&& effect.appended_chars is None
                        }
                        &&& final(self).inner@ == old(self).inner@
                    },
                    EventStreamSubscriberUpdate::Appended { stream_id, appended_body, body } => {
                        &&& next is Apply <==> stream_id.room_id@ == old(self).inner@.room_id
                            && old(self).inner@.subscriptions.contains_key(stream_id.event_id@)
                        &&& next matches SdkUpdateStep::Apply { effect } ==> {
                            &&& effect.stream_id == stream_id
                            &&& effect.transient_body == Some(body)
                            &&& !effect.cancelled
                            &&& effect.operation == Operation::Append
                            &&& effect.appended_chars matches Some(appended) && appended
                                == appended_body@.len()
                        }
                        &&& final(self).inner@ == old(self).inner@
                    },
                    EventStreamSubscriberUpdate::Cancelled { stream_id } => {
                        &&& next is Apply <==> stream_id.room_id@ == old(self).inner@.room_id
                            && old(self).inner@.subscriptions.contains_key(stream_id.event_id@)
                        &&& next matches SdkUpdateStep::Apply { effect } ==> {
                            &&& effect.stream_id == stream_id
                            &&& effect.transient_body is None
                            &&& effect.cancelled
                            &&& effect.operation == Operation::Cancel
                            &&& effect.appended_chars is None
                        }
                        &&& next is Apply ==> {
                            &&& final(self).inner@.room_id == old(self).inner@.room_id
                            &&& final(self).inner@.subscriptions == old(self).inner@.subscriptions.remove(
                                stream_id.event_id@,
                            )
                            &&& final(self).inner@.cancelled == old(self).inner@.cancelled.insert(stream_id.event_id@)
                        }
                        &&& !(next is Apply) ==> final(self).inner@ == old(self).inner@
                    },
                    EventStreamSubscriberUpdate::Expired { stream_id } => {
                        &&& next is Apply <==> stream_id.room_id@ == old(self).inner@.room_id
                            && old(self).inner@.subscriptions.contains_key(stream_id.event_id@)
                        &&& next matches SdkUpdateStep::Apply { effect } ==> {
                            &&& effect.stream_id == stream_id
                            &&& effect.transient_body is None
                            &&& effect.cancelled
                            &&& effect.operation == Operation::Expire
                            &&& effect.appended_chars is None
                        }
                        &&& next is Apply ==> {
                            &&& final(self).inner@.room_id == old(self).inner@.room_id
                            &&& final(self).inner@.subscriptions == old(self).inner@.subscriptions.remove(
                                stream_id.event_id@,
                            )
                            &&& final(self).inner@.cancelled == old(self).inner@.cancelled.insert(stream_id.event_id@)
                        }
                        &&& !(next is Apply) ==> final(self).inner@ == old(self).inner@
                    },
                }
            }),
    {
        if self.sdk_update_task == TaskState::Finished {
            return SdkUpdateStep::Stop;
        }
        match received {
            Received::Update { update } => match self.inner.handle_update(update) {
                Some(effect) => SdkUpdateStep::Apply { effect },
                None => SdkUpdateStep::Continue,
            },
            Received::Lagged { .. } => SdkUpdateStep::Continue,
            Received::Closed => {
                self.sdk_update_task = TaskState::Finished;
                SdkUpdateStep::Stop
            },
        }
    }

    /// Unsubscribe from all streams currently displayed by this timeline. Both
    /// tasks are stopped first, so that nothing is subscribed to again; then
    /// every subscription is released.
    pub fn unsubscribe(self) -> (actions: Vec<Action<S>>)
        ensures
            actions@.len() >= 2,
            views(actions@).take(2) == seq![
                ActionView::<S>::AbortTask { task: Task::TimelineUpdates },
                ActionView::<S>::AbortTask { task: Task::SdkUpdates },
            ],
            release_all(views(actions@).skip(2), self.inner@.subscriptions),
    {
        let mut inner = self.inner;
        let mut actions: Vec<Action<S>> = Vec::new();
        actions.push(Action::AbortTask { task: Task::TimelineUpdates });
        actions.push(Action::AbortTask { task: Task::SdkUpdates });
        let mut released = inner.unsubscribe_all();
        let ghost aborts = actions@;
        let ghost rest = released@;
        actions.append(&mut released);
        proof {
            assert(views(actions@).take(2) =~= views(aborts));
            assert(views(aborts) =~= seq![
                ActionView::<S>::AbortTask { task: Task::TimelineUpdates },
                ActionView::<S>::AbortTask { task: Task::SdkUpdates },
            ]);
            assert(views(actions@).skip(2) =~= views(rest));
        }
        actions
    }
}

/// The keys of entries do not depend on what stands beside them.
proof fn lemma_texts_keys(entries: Seq<(String, String)>)
    ensures
        keys(texts(entries)) == keys(keyed(entries)),
{
    assert forall|key: Seq<char>|
        keys(texts(entries)).contains(key) == keys(keyed(entries)).contains(key) by {
        if keys(texts(entries)).contains(key) {
            let i = choose|i: int|
                0 <= i < texts(entries).len() && (#[trigger] texts(entries)[i]).0 == key;
            assert(keyed(entries)[i].0 == key);
        }
        if keys(keyed(entries)).contains(key) {
            let i = choose|i: int|
                0 <= i < keyed(entries).len() && (#[trigger] keyed(entries)[i]).0 == key;
            assert(texts(entries)[i].0 == key);
        }
    }
    assert(keys(texts(entries)) =~= keys(keyed(entries)));
}

/// Entries that list a map of texts list them by their characters too.
proof fn lemma_lists_bodies(entries: Seq<(String, String)>, map: Map<Seq<char>, String>)
    requires
        lists(keyed(entries), map),
    ensures
        lists(texts(entries), bodies(map)),
{
    let list = texts(entries);
    assert forall|i: int| 0 <= i < list.len() implies bodies(map).contains_key(
        (#[trigger] list[i]).0,
    ) && bodies(map)[list[i].0] == list[i].1 by {
        assert(keyed(entries)[i].0 == list[i].0);
    }
    assert forall|key: Seq<char>| #[trigger] bodies(map).contains_key(key) implies exists|i: int|
        0 <= i < list.len() && (#[trigger] list[i]).0 == key by {
        assert(map.contains_key(key));
        let i = choose|i: int|
            0 <= i < keyed(entries).len() && (#[trigger] keyed(entries)[i]).0 == key;
        assert(list[i].0 == key);
    }
    assert forall|i: int, j: int| 0 <= i < j < list.len() implies (#[trigger] list[i]).0 != (
    #[trigger] list[j]).0 by {
        assert(keyed(entries)[i].0 != keyed(entries)[j].0);
    }
}

} // verus!
