//! Bringing the subscriptions in line with what a timeline displays.
//!
//! A refresh alternates outside work and decisions. [`Refresh::step`] takes
//! the outcome of the last piece of work and says what to do next; between two
//! steps the subscriptions may change, as updates of the streams come in.
use crate::action::{Action, ActionView, Reply, ReplyView};
use crate::stream_map::{keyed, keys, lists};
use crate::subscription::{EventStreamSubscriptionInner, StreamsView};
use crate::update::StreamIdView;
use vstd::prelude::*;

verus! {

/// Which outside work a refresh waits for; see [`StageView`].
#[derive(Debug)]
enum Stage {
    Releasing,
    Clearing { event_id: String },
    Visiting,
    Fetching { event_id: String },
    Subscribing { event_id: String, body: String },
    Finished,
}

/// Which outside work a refresh waits for.
pub enum StageView {
    /// That a message shows its own body again (at the start: nothing). Then
    /// the next stream that is no longer displayed is to be released.
    Releasing,
    /// That the subscription to a stream that is no longer displayed is given
    /// up. Then the stream's message is to show its own body again.
    Clearing { event_id: Seq<char> },
    /// That a message shows what it was told to. Then the next displayed stream
    /// is to be visited.
    Visiting,
    /// The present text of a stream that is subscribed to.
    Fetching { event_id: Seq<char> },
    /// A subscription to a stream whose message has the body `body`.
    Subscribing { event_id: Seq<char>, body: Seq<char> },
    /// Nothing: the refresh is finished.
    Finished,
}

impl StageView {
    /// `reply` is an outcome of the work that is waited for.
    pub open spec fn awaits<S>(self, reply: ReplyView<S>) -> bool {
        match self {
            StageView::Fetching { .. } => reply is TransientBody,
            StageView::Subscribing { .. } => reply is Subscribed || reply is SubscribeFailed,
            _ => reply is Done,
        }
    }
}

/// The entries of a vector of texts, taken by their characters.
pub open spec fn texts(entries: Seq<(String, String)>) -> Seq<(Seq<char>, Seq<char>)> {
    Seq::new(entries.len(), |i: int| (entries[i].0@, entries[i].1@))
}

/// The state of a refresh.
pub struct RefreshView<S> {
    /// The subscriptions to streams that are no longer displayed and are still
    /// to be released, the next one last.
    pub removed: Seq<(Seq<char>, S)>,
    /// The displayed streams that are still to be visited, each with the body
    /// of its message, the next one last.
    pub displayed: Seq<(Seq<char>, Seq<char>)>,
    pub stage: StageView,
}

impl<S> RefreshView<S> {
    /// The refresh has yet to do all its work, begun on `streams` for the
    /// streams in `displayed`.
    pub open spec fn starts(
        self,
        streams: StreamsView<S>,
        displayed: Map<Seq<char>, Seq<char>>,
    ) -> bool {
        &&& self.stage == StageView::Releasing
        &&& lists(self.removed, streams.subscriptions.remove_keys(displayed.dom()))
        &&& lists(self.displayed, displayed)
    }

    /// Visits the displayed streams: one that is cancelled is passed over, of
    /// one that is subscribed to the present text is fetched, and any other is
    /// subscribed to.
    pub open spec fn visit(self, streams: StreamsView<S>) -> (
        RefreshView<S>,
        StreamsView<S>,
        Option<ActionView<S>>,
    )
        decreases self.displayed.len(),
    {
        if self.displayed.len() == 0 {
            (RefreshView { stage: StageView::Finished, ..self }, streams, None)
        } else {
            let (event_id, body) = self.displayed.last();
            let rest = RefreshView { displayed: self.displayed.drop_last(), ..self };
            if streams.cancelled.contains(event_id) {
                rest.visit(streams)
            } else if streams.subscriptions.contains_key(event_id) {
                (
                    RefreshView { stage: StageView::Fetching { event_id }, ..rest },
                    streams,
                    Some(
                        ActionView::FetchTransientBody {
                            stream_id: StreamIdView { room_id: streams.room_id, event_id },
                        },
                    ),
                )
            } else {
                (
                    RefreshView { stage: StageView::Subscribing { event_id, body }, ..rest },
                    streams,
                    Some(ActionView::Subscribe { event_id }),
                )
            }
        }
    }

    /// Releases the next subscription to a stream that is no longer displayed.
    /// Once none is left, the cancelled streams that are no longer displayed are
    /// forgotten, and the displayed ones are visited.
    pub open spec fn release(self, streams: StreamsView<S>) -> (
        RefreshView<S>,
        StreamsView<S>,
        Option<ActionView<S>>,
    ) {
        if self.removed.len() == 0 {
            self.visit(
                StreamsView {
                    cancelled: streams.cancelled.intersect(keys(self.displayed)),
                    ..streams
                },
            )
        } else {
            let (event_id, subscription) = self.removed.last();
            (
                RefreshView {
                    removed: self.removed.drop_last(),
                    stage: StageView::Clearing { event_id },
                    ..self
                },
                streams,
                Some(ActionView::Unsubscribe { event_id, subscription }),
            )
        }
    }

    /// What `reply` makes of the refresh and of the subscriptions, and what is
    /// to be done next. A message is told to show its own body again when its
    /// subscription has been given up, the text of its stream when that has been
    /// fetched, and its own body as the stream's first text when the stream has
    /// been subscribed to.
    pub open spec fn step(self, streams: StreamsView<S>, reply: ReplyView<S>) -> (
        RefreshView<S>,
        StreamsView<S>,
        Option<ActionView<S>>,
    )
        recommends
            self.stage.awaits(reply),
    {
        let visiting = RefreshView { stage: StageView::Visiting, ..self };
        match (self.stage, reply) {
            (StageView::Releasing, ReplyView::Done) => self.release(streams),
            (StageView::Clearing { event_id }, ReplyView::Done) => (
                RefreshView { stage: StageView::Releasing, ..self },
                streams,
                Some(ActionView::SetTransientBody { event_id, body: None }),
            ),
            (StageView::Visiting, ReplyView::Done) => self.visit(streams),
            (StageView::Fetching { event_id }, ReplyView::TransientBody { body: Some(body) }) => (
                visiting,
                streams,
                Some(ActionView::SetTransientBody { event_id, body: Some(body) }),
            ),
            (StageView::Subscribing { event_id, body }, ReplyView::Subscribed { subscription }) => (
                visiting,
                StreamsView {
                    subscriptions: streams.subscriptions.insert(event_id, subscription),
                    ..streams
                },
                Some(ActionView::SetTransientBody { event_id, body: Some(body) }),
            ),
            (StageView::Finished, _) => (self, streams, None),
            _ => visiting.visit(streams),
        }
    }
}

/// A refresh of the subscriptions of one timeline.
#[derive(Debug)]
pub struct Refresh<S> {
    removed: Vec<(String, S)>,
    displayed: Vec<(String, String)>,
    stage: Stage,
}

impl Stage {
    spec fn as_view(self) -> StageView {
        match self {
            Stage::Releasing => StageView::Releasing,
            Stage::Clearing { event_id } => StageView::Clearing { event_id: event_id@ },
            Stage::Visiting => StageView::Visiting,
            Stage::Fetching { event_id } => StageView::Fetching { event_id: event_id@ },
            Stage::Subscribing { event_id, body } => StageView::Subscribing {
                event_id: event_id@,
                body: body@,
            },
            Stage::Finished => StageView::Finished,
        }
    }
}

impl<S> View for Refresh<S> {
    type V = RefreshView<S>;

    closed spec fn view(&self) -> RefreshView<S> {
        RefreshView {
            removed: keyed(self.removed@),
            displayed: texts(self.displayed@),
            stage: self.stage.as_view(),
        }
    }
}

/// The view of an optional action.
pub open spec fn action_view<S>(action: Option<Action<S>>) -> Option<ActionView<S>> {
    match action {
        Some(action) => Some(action@),
        None => None,
    }
}

impl<S> Refresh<S> {
    /// A refresh that releases the subscriptions in `removed` and then visits
    /// the streams in `displayed`.
    pub(crate) fn new(removed: Vec<(String, S)>, displayed: Vec<(String, String)>) -> (refresh:
        Self)
        ensures
            refresh@ == (RefreshView {
                removed: keyed(removed@),
                displayed: texts(displayed@),
                stage: StageView::Releasing,
            }),
    {
        Refresh { removed, displayed, stage: Stage::Releasing }
    }

    fn visit(&mut self, streams: &EventStreamSubscriptionInner<S>) -> (next: Option<Action<S>>)
        ensures
            (final(self)@, streams@, action_view(next)) == old(self)@.visit(streams@),
    {
        while self.displayed.len() > 0
            invariant
                self@.visit(streams@) == old(self)@.visit(streams@),
            decreases self.displayed@.len(),
        {
            let ghost before = self@;
            match self.displayed.pop() {
                Some((event_id, body)) => {
                    assert(self@.displayed =~= before.displayed.drop_last());
                    assert(before.displayed.last() == (event_id@, body@));
                    if streams.is_cancelled(&event_id) {
                        assert(self@.removed =~= before.removed);
                        continue;
                    }
                    if streams.is_subscribed(&event_id) {
                        let stream_id = streams.stream_id(event_id.clone());
                        self.stage = Stage::Fetching { event_id };
                        return Some(Action::FetchTransientBody { stream_id });
                    }
                    let subscribe = Action::Subscribe { event_id: event_id.clone() };
                    self.stage = Stage::Subscribing { event_id, body };
                    return Some(subscribe);
                },
                None => {},
            }
        }
        self.stage = Stage::Finished;
        None
    }

    fn release(&mut self, streams: &mut EventStreamSubscriptionInner<S>) -> (next: Option<
        Action<S>,
    >)
        ensures
            (final(self)@, final(streams)@, action_view(next)) == old(self)@.release(old(streams)@),
    {
        match self.removed.pop() {
            Some((event_id, subscription)) => {
                assert(self@.removed =~= old(self)@.removed.drop_last());
                self.stage = Stage::Clearing { event_id: event_id.clone() };
                Some(Action::Unsubscribe { event_id, subscription })
            },
            None => {
                assert(self@.removed =~= old(self)@.removed);
                streams.retain_cancelled(&self.displayed);
                self.visit(streams)
            },
        }
    }

    /// Goes on with the refresh once the last piece of outside work has come to
    /// `reply` (at the start: [`Reply::Done`]). Returns the next piece of work,
    /// or `None` when the refresh is finished. A reply that is no outcome of the
    /// last piece of work is handed back, and changes nothing.
    pub fn step(
        &mut self,
        streams: &mut EventStreamSubscriptionInner<S>,
        reply: Reply<S>,
    ) -> (next: Result<Option<Action<S>>, Reply<S>>)
        ensures
            match next {
                Ok(action) => {
                    &&& old(self)@.stage.awaits(reply@)
                    &&& (final(self)@, final(streams)@, action_view(action)) == old(self)@.step(
                        old(streams)@,
                        reply@,
                    )
                },
                Err(returned) => {
                    &&& !old(self)@.stage.awaits(reply@)
                    &&& returned == reply
                    &&& final(self)@ == old(self)@
                    &&& final(streams)@ == old(streams)@
                },
            },
    {
        let mut stage = Stage::Visiting;
        std::mem::swap(&mut stage, &mut self.stage);
        match (stage, reply) {
            (Stage::Releasing, Reply::Done) => {
                self.stage = Stage::Releasing;
                Ok(self.release(streams))
            },
            (Stage::Clearing { event_id }, Reply::Done) => {
                self.stage = Stage::Releasing;
                Ok(Some(Action::SetTransientBody { event_id, body: None }))
            },
            (Stage::Visiting, Reply::Done) => Ok(self.visit(streams)),
            (Stage::Fetching { event_id }, Reply::TransientBody { body }) => match body {
                Some(body) => Ok(Some(Action::SetTransientBody { event_id, body: Some(body) })),
                None => Ok(self.visit(streams)),
            },
            (Stage::Subscribing { event_id, body }, Reply::Subscribed { subscription }) => {
                streams.subscribed(event_id.clone(), subscription);
                Ok(Some(Action::SetTransientBody { event_id, body: Some(body) }))
            },
            (Stage::Subscribing { .. }, Reply::SubscribeFailed) => Ok(self.visit(streams)),
            (Stage::Finished, Reply::Done) => {
                self.stage = Stage::Finished;
                Ok(None)
            },
            (stage, reply) => {
                self.stage = stage;
                Err(reply)
            },
        }
    }
}

} // verus!
