//! What the library asks of the outside, and what the outside answers.
use crate::stream_map::{keyed, lists};
use crate::update::{text, StreamId, StreamIdView};
use vstd::prelude::*;

verus! {

/// The two background tasks that keep a subscription up to date.
#[derive(Debug, Clone, Copy, PartialEq, Eq, Structural)]
pub enum Task {
    /// Refreshes the subscriptions whenever the timeline changes.
    TimelineUpdates,
    /// Applies the updates of the streams.
    SdkUpdates,
}

/// A piece of outside work. `S` is the handle of a subscription to one stream.
#[derive(Debug, PartialEq, Eq)]
pub enum Action<S> {
    /// Stop a background task.
    AbortTask { task: Task },
    /// Give up the subscription to a stream.
    Unsubscribe { event_id: String, subscription: S },
    /// Show `body` in place of the message's own body, or the message's own
    /// body again.
    SetTransientBody { event_id: String, body: Option<String> },
    /// Ask for the text that a stream has at present.
    FetchTransientBody { stream_id: StreamId },
    /// Subscribe to the stream that an event announces.
    Subscribe { event_id: String },
}

/// An [`Action`], with each text taken by its characters.
pub enum ActionView<S> {
    AbortTask { task: Task },
    Unsubscribe { event_id: Seq<char>, subscription: S },
    SetTransientBody { event_id: Seq<char>, body: Option<Seq<char>> },
    FetchTransientBody { stream_id: StreamIdView },
    Subscribe { event_id: Seq<char> },
}

impl<S> View for Action<S> {
    type V = ActionView<S>;

    open spec fn view(&self) -> ActionView<S> {
        match *self {
            Action::AbortTask { task } => ActionView::AbortTask { task },
            Action::Unsubscribe { event_id, subscription } => ActionView::Unsubscribe {
                event_id: event_id@,
                subscription,
            },
            Action::SetTransientBody { event_id, body } => ActionView::SetTransientBody {
                event_id: event_id@,
                body: text(body),
            },
            Action::FetchTransientBody { stream_id } => ActionView::FetchTransientBody {
                stream_id: stream_id@,
            },
            Action::Subscribe { event_id } => ActionView::Subscribe { event_id: event_id@ },
        }
    }
}

/// The actions of a vector, each taken by its view.
pub open spec fn views<S>(actions: Seq<Action<S>>) -> Seq<ActionView<S>> {
    Seq::new(actions.len(), |i: int| actions[i]@)
}

/// The outcome of a piece of outside work.
#[derive(Debug, PartialEq, Eq)]
pub enum Reply<S> {
    /// The work is done; it has no result.
    Done,
    /// The text that the stream has at present, if there is one.
    TransientBody { body: Option<String> },
    /// The stream was subscribed to.
    Subscribed { subscription: S },
    /// The stream could not be subscribed to.
    SubscribeFailed,
}

/// A [`Reply`], with each text taken by its characters.
pub enum ReplyView<S> {
    Done,
    TransientBody { body: Option<Seq<char>> },
    Subscribed { subscription: S },
    SubscribeFailed,
}

impl<S> View for Reply<S> {
    type V = ReplyView<S>;

    open spec fn view(&self) -> ReplyView<S> {
        match *self {
            Reply::Done => ReplyView::Done,
            Reply::TransientBody { body } => ReplyView::TransientBody { body: text(body) },
            Reply::Subscribed { subscription } => ReplyView::Subscribed { subscription },
            Reply::SubscribeFailed => ReplyView::SubscribeFailed,
        }
    }
}

/// The actions that release the subscription to one stream: give it up, then
/// show the message's own body again.
pub open spec fn release<S>(event_id: Seq<char>, subscription: S) -> Seq<ActionView<S>> {
    seq![
        ActionView::Unsubscribe { event_id, subscription },
        ActionView::SetTransientBody { event_id, body: None },
    ]
}

/// The actions that release the subscriptions in `list` one after the other,
/// from the last to the first.
pub open spec fn releases<S>(list: Seq<(Seq<char>, S)>) -> Seq<ActionView<S>>
    decreases list.len(),
{
    if list.len() == 0 {
        Seq::empty()
    } else {
        release(list.last().0, list.last().1) + releases(list.drop_last())
    }
}

/// `actions` release every subscription in `subscriptions` exactly once, and
/// do nothing else.
pub open spec fn release_all<S>(
    actions: Seq<ActionView<S>>,
    subscriptions: Map<Seq<char>, S>,
) -> bool {
    exists|list: Seq<(Seq<char>, S)>|
        lists(list, subscriptions) && actions == #[trigger] releases(list)
}

/// The actions that release the subscriptions in `entries`.
pub(crate) fn release_actions<S>(entries: Vec<(String, S)>) -> (actions: Vec<Action<S>>)
    ensures
        views(actions@) == releases(keyed(entries@)),
{
    let mut entries = entries;
    let mut actions: Vec<Action<S>> = Vec::new();
    let ghost list = keyed(entries@);
    assert(views(actions@) + releases(list) =~= releases(list));
    while entries.len() > 0
        invariant
            views(actions@) + releases(keyed(entries@)) == releases(list),
        decreases entries@.len(),
    {
        let ghost left = keyed(entries@);
        let ghost done = views(actions@);
        match entries.pop() {
            Some((event_id, subscription)) => {
                let cleared: String = event_id.clone();
                actions.push(Action::Unsubscribe { event_id, subscription });
                actions.push(Action::SetTransientBody { event_id: cleared, body: None });
                proof {
                    assert(keyed(entries@) =~= left.drop_last());
                    assert(views(actions@) =~= done + release(left.last().0, left.last().1));
                    assert(views(actions@) + releases(left.drop_last()) =~= done + releases(left));
                }
            },
            None => {},
        }
    }
    assert(views(actions@) + releases(keyed(entries@)) =~= views(actions@));
    actions
}

} // verus!
