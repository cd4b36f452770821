//! What a whole refresh comes to when no update comes in between its steps.
use crate::action::{release, releases, ActionView, ReplyView};
use crate::refresh::{RefreshView, StageView};
use crate::stream_map::{distinct_keys, keys, lemma_drop_last_keys, lemma_lists_keys};
use crate::subscription::StreamsView;
use crate::update::StreamIdView;
use vstd::prelude::*;

verus! {

/// How the outside answers during one refresh.
pub struct Outside<S> {
    /// The handle that an attempt to subscribe to a stream yields, unless it
    /// fails.
    pub subscribe: spec_fn(Seq<char>) -> Option<S>,
    /// The text that a stream has at present, if there is one.
    pub transient_body: spec_fn(StreamIdView) -> Option<Seq<char>>,
}

impl<S> Outside<S> {
    /// The outcome of a piece of outside work.
    pub open spec fn reply(self, action: ActionView<S>) -> ReplyView<S> {
        match action {
            ActionView::FetchTransientBody { stream_id } => ReplyView::TransientBody {
                body: (self.transient_body)(stream_id),
            },
            ActionView::Subscribe { event_id } => match (self.subscribe)(event_id) {
                Some(subscription) => ReplyView::Subscribed { subscription },
                None => ReplyView::SubscribeFailed,
            },
            _ => ReplyView::Done,
        }
    }
}

/// How much a refresh has left to do.
pub open spec fn work<S>(refresh: RefreshView<S>) -> nat {
    let waiting: nat = match refresh.stage {
        StageView::Clearing { .. } => 1,
        StageView::Fetching { .. } => 1,
        StageView::Subscribing { .. } => 1,
        _ => 0,
    };
    2 * refresh.removed.len() + 2 * refresh.displayed.len() + waiting
}

/// A visit that finds something to do leaves less to do.
proof fn lemma_visit_makes_progress<S>(refresh: RefreshView<S>, streams: StreamsView<S>)
    ensures
        refresh.visit(streams).2 is Some ==> work(refresh.visit(streams).0) + 1 <= 2
            * refresh.removed.len() + 2 * refresh.displayed.len(),
    decreases refresh.displayed.len(),
{
    if refresh.displayed.len() > 0 {
        lemma_visit_makes_progress(
            RefreshView { displayed: refresh.displayed.drop_last(), ..refresh },
            streams,
        );
    }
}

/// Every step that asks for outside work leaves less to do, so that a refresh
/// comes to an end.
pub proof fn step_makes_progress<S>(
    refresh: RefreshView<S>,
    streams: StreamsView<S>,
    reply: ReplyView<S>,
)
    ensures
        refresh.step(streams, reply).2 is Some ==> work(refresh.step(streams, reply).0) < work(
            refresh,
        ),
{
    let visiting = RefreshView { stage: StageView::Visiting, ..refresh };
    let kept = StreamsView {
        cancelled: streams.cancelled.intersect(keys(refresh.displayed)),
        ..streams
    };
    lemma_visit_makes_progress(refresh, streams);
    lemma_visit_makes_progress(visiting, streams);
    lemma_visit_makes_progress(refresh, kept);
}

/// Runs a refresh to its end: the subscriptions that it leaves, and the outside
/// work that it asks for, in order.
pub open spec fn run<S>(
    refresh: RefreshView<S>,
    streams: StreamsView<S>,
    reply: ReplyView<S>,
    outside: Outside<S>,
) -> (StreamsView<S>, Seq<ActionView<S>>)
    decreases work(refresh),
{
    proof {
        step_makes_progress(refresh, streams, reply);
    }
    let (next, after, action) = refresh.step(streams, reply);
    match action {
        Some(action) => {
            let (end, actions) = run(next, after, outside.reply(action), outside);
            (end, seq![action] + actions)
        },
        None => (after, Seq::empty()),
    }
}

/// What the visit of one displayed stream asks for: nothing if the stream has
/// ended; its present text, which is then shown, if it is subscribed to; or else
/// a subscription, after which the message's own body is shown as the stream's
/// first text.
pub open spec fn visit_actions<S>(
    event_id: Seq<char>,
    body: Seq<char>,
    streams: StreamsView<S>,
    outside: Outside<S>,
) -> Seq<ActionView<S>> {
    let stream_id = StreamIdView { room_id: streams.room_id, event_id };
    if streams.cancelled.contains(event_id) {
        Seq::empty()
    } else if streams.subscriptions.contains_key(event_id) {
        match (outside.transient_body)(stream_id) {
            Some(present) => seq![
                ActionView::FetchTransientBody { stream_id },
                ActionView::SetTransientBody { event_id, body: Some(present) },
            ],
            None => seq![ActionView::FetchTransientBody { stream_id }],
        }
    } else {
        match (outside.subscribe)(event_id) {
            Some(_) => seq![
                ActionView::Subscribe { event_id },
                ActionView::SetTransientBody { event_id, body: Some(body) },
            ],
            None => seq![ActionView::Subscribe { event_id }],
        }
    }
}

/// What the visits of the streams in `list` ask for, from the last to the first.
pub open spec fn visits<S>(
    list: Seq<(Seq<char>, Seq<char>)>,
    streams: StreamsView<S>,
    outside: Outside<S>,
) -> Seq<ActionView<S>>
    decreases list.len(),
{
    if list.len() == 0 {
        Seq::empty()
    } else {
        visit_actions(list.last().0, list.last().1, streams, outside) + visits(
            list.drop_last(),
            streams,
            outside,
        )
    }
}

/// The subscriptions after the streams in `displayed` have been visited: those
/// there were, and one to each displayed stream that has not ended and could be
/// subscribed to.
pub open spec fn visited<S>(
    streams: StreamsView<S>,
    displayed: Set<Seq<char>>,
    outside: Outside<S>,
) -> StreamsView<S> {
    StreamsView {
        subscriptions: Map::new(
            |id: Seq<char>|
                streams.subscriptions.contains_key(id) || (displayed.contains(id)
                    && !streams.cancelled.contains(id) && (outside.subscribe)(id) is Some),
            |id: Seq<char>|
                if streams.subscriptions.contains_key(id) {
                    streams.subscriptions[id]
                } else {
                    (outside.subscribe)(id)->0
                },
        ),
        ..streams
    }
}

/// What the visits of `list` ask for depends only on what is known of its own
/// streams.
proof fn lemma_visits_frame<S>(
    list: Seq<(Seq<char>, Seq<char>)>,
    streams: StreamsView<S>,
    other: StreamsView<S>,
    outside: Outside<S>,
)
    requires
        streams.room_id == other.room_id,
        forall|id: Seq<char>| #[trigger]
            keys(list).contains(id) ==> streams.subscriptions.contains_key(id)
                == other.subscriptions.contains_key(id) && streams.cancelled.contains(id)
                == other.cancelled.contains(id),
    ensures
        visits(list, streams, outside) == visits(list, other, outside),
    decreases list.len(),
{
    if list.len() > 0 {
        let rest = list.drop_last();
        assert(list[list.len() - 1].0 == list.last().0);
        assert(keys(list).contains(list.last().0));
        assert forall|id: Seq<char>| #[trigger]
            keys(rest).contains(id) implies streams.subscriptions.contains_key(id)
            == other.subscriptions.contains_key(id) && streams.cancelled.contains(id)
            == other.cancelled.contains(id) by {
            let i = choose|i: int| 0 <= i < rest.len() && (#[trigger] rest[i]).0 == id;
            assert(list[i].0 == id);
            assert(keys(list).contains(id));
        }
        lemma_visits_frame(rest, streams, other, outside);
    }
}

/// What follows from a step that left `outcome`.
spec fn follow<S>(
    outcome: (RefreshView<S>, StreamsView<S>, Option<ActionView<S>>),
    outside: Outside<S>,
) -> (StreamsView<S>, Seq<ActionView<S>>) {
    match outcome.2 {
        Some(action) => {
            let (end, actions) = run(outcome.0, outcome.1, outside.reply(action), outside);
            (end, seq![action] + actions)
        },
        None => (outcome.1, Seq::empty()),
    }
}

/// What the visits of a refresh come to.
proof fn lemma_run_visits<S>(
    refresh: RefreshView<S>,
    streams: StreamsView<S>,
    outside: Outside<S>,
)
    requires
        distinct_keys(refresh.displayed),
    ensures
        follow(refresh.visit(streams), outside) == (
            visited(streams, keys(refresh.displayed), outside),
            visits(refresh.displayed, streams, outside),
        ),
    decreases refresh.displayed.len(),
{
    let list = refresh.displayed;
    let end = visited(streams, keys(list), outside);
    if list.len() == 0 {
        assert(end.subscriptions =~= streams.subscriptions);
    } else {
        lemma_drop_last_keys(list);
        let (event_id, body) = list.last();
        let rest = RefreshView { displayed: list.drop_last(), ..refresh };
        let visiting = RefreshView { stage: StageView::Visiting, ..rest };
        let (next, after, action) = refresh.visit(streams);
        if streams.cancelled.contains(event_id) {
            lemma_run_visits(rest, streams, outside);
            assert(visited(streams, keys(rest.displayed), outside).subscriptions
                =~= end.subscriptions);
            assert(visits(list, streams, outside) =~= visits(rest.displayed, streams, outside));
        } else if streams.subscriptions.contains_key(event_id) {
            let stream_id = StreamIdView { room_id: streams.room_id, event_id };
            lemma_run_visits(visiting, streams, outside);
            assert(visited(streams, keys(rest.displayed), outside).subscriptions
                =~= end.subscriptions);
            let then = visits(rest.displayed, streams, outside);
            let fetch: ActionView<S> = ActionView::FetchTransientBody { stream_id };
            match (outside.transient_body)(stream_id) {
                Some(present) => {
                    let set: ActionView<S> = ActionView::SetTransientBody {
                        event_id,
                        body: Some(present),
                    };
                    assert(run(visiting, streams, ReplyView::Done, outside) == (end, then));
                    assert(run(next, after, outside.reply(fetch), outside) == (
                        end,
                        seq![set] + then,
                    ));
                    assert(seq![fetch] + (seq![set] + then) =~= seq![fetch, set] + then);
                },
                None => {
                    assert(run(next, after, outside.reply(fetch), outside) == (end, then));
                },
            }
        } else {
            let subscribe: ActionView<S> = ActionView::Subscribe { event_id };
            match (outside.subscribe)(event_id) {
                Some(subscription) => {
                    let set: ActionView<S> = ActionView::SetTransientBody {
                        event_id,
                        body: Some(body),
                    };
                    let grown = StreamsView {
                        subscriptions: streams.subscriptions.insert(event_id, subscription),
                        ..streams
                    };
                    lemma_run_visits(visiting, grown, outside);
                    lemma_visits_frame(rest.displayed, streams, grown, outside);
                    assert(visited(grown, keys(rest.displayed), outside).subscriptions
                        =~= end.subscriptions);
                    let then = visits(rest.displayed, streams, outside);
                    assert(run(visiting, grown, ReplyView::Done, outside) == (end, then));
                    assert(run(next, after, outside.reply(subscribe), outside) == (
                        end,
                        seq![set] + then,
                    ));
                    assert(seq![subscribe] + (seq![set] + then) =~= seq![subscribe, set] + then);
                },
                None => {
                    lemma_run_visits(visiting, streams, outside);
                    assert(visited(streams, keys(rest.displayed), outside).subscriptions
                        =~= end.subscriptions);
                    let then = visits(rest.displayed, streams, outside);
                    assert(run(next, after, outside.reply(subscribe), outside) == (end, then));
                },
            }
        }
    }
}

/// What a refresh comes to from its releases on.
proof fn lemma_run_releases<S>(
    refresh: RefreshView<S>,
    streams: StreamsView<S>,
    outside: Outside<S>,
)
    requires
        refresh.stage is Releasing,
        distinct_keys(refresh.displayed),
    ensures
        ({
            let kept = StreamsView {
                cancelled: streams.cancelled.intersect(keys(refresh.displayed)),
                ..streams
            };
            run(refresh, streams, ReplyView::Done, outside) == (
                visited(kept, keys(refresh.displayed), outside),
                releases(refresh.removed) + visits(refresh.displayed, kept, outside),
            )
        }),
    decreases refresh.removed.len(),
{
    let kept = StreamsView {
        cancelled: streams.cancelled.intersect(keys(refresh.displayed)),
        ..streams
    };
    let then = visits(refresh.displayed, kept, outside);
    if refresh.removed.len() == 0 {
        lemma_run_visits(refresh, kept, outside);
        assert(releases(refresh.removed) + then =~= then);
    } else {
        let (event_id, subscription) = refresh.removed.last();
        let rest = RefreshView { removed: refresh.removed.drop_last(), ..refresh };
        let clearing = RefreshView { stage: StageView::Clearing { event_id }, ..rest };
        lemma_run_releases(rest, streams, outside);
        let give_up: ActionView<S> = ActionView::Unsubscribe { event_id, subscription };
        let clear: ActionView<S> = ActionView::SetTransientBody { event_id, body: None };
        let tail = run(rest, streams, ReplyView::Done, outside);
        assert((RefreshView { stage: StageView::Releasing, ..clearing }) == rest);
        assert(run(clearing, streams, ReplyView::Done, outside) == (tail.0, seq![clear] + tail.1));
        assert(seq![give_up] + (seq![clear] + tail.1) =~= releases(refresh.removed) + then);
    }
}

/// An undisturbed refresh leaves a subscription to exactly those displayed
/// streams that were subscribed to before, through the same handle, or that have
/// not ended and could be subscribed to. The cancelled streams that are no longer
/// displayed are forgotten, the others stay cancelled. The outside work is to
/// release each stream that is no longer displayed, and then to visit each
/// displayed one.
pub proof fn undisturbed_refresh<S>(
    refresh: RefreshView<S>,
    streams: StreamsView<S>,
    displayed: Map<Seq<char>, Seq<char>>,
    outside: Outside<S>,
)
    requires
        refresh.starts(streams, displayed),
    ensures
        ({
            let begun = StreamsView {
                subscriptions: streams.subscriptions.restrict(displayed.dom()),
                ..streams
            };
            let (end, actions) = run(refresh, begun, ReplyView::Done, outside);
            &&& end.room_id == streams.room_id
            &&& end.cancelled == streams.cancelled.intersect(displayed.dom())
            &&& forall|id: Seq<char>| #[trigger]
                end.subscriptions.contains_key(id) <==> displayed.contains_key(id) && (
                streams.subscriptions.contains_key(id) || (!streams.cancelled.contains(id) && (
                outside.subscribe)(id) is Some))
            &&& forall|id: Seq<char>| #[trigger]
                end.subscriptions.contains_key(id) ==> end.subscriptions[id] == (
                if streams.subscriptions.contains_key(id) {
                    streams.subscriptions[id]
                } else {
                    (outside.subscribe)(id)->0
                })
            &&& actions == releases(refresh.removed) + visits(refresh.displayed, streams, outside)
        }),
{
    let begun = StreamsView {
        subscriptions: streams.subscriptions.restrict(displayed.dom()),
        ..streams
    };
    let kept = StreamsView {
        cancelled: begun.cancelled.intersect(keys(refresh.displayed)),
        ..begun
    };
    lemma_lists_keys(refresh.displayed, displayed);
    lemma_run_releases(refresh, begun, outside);
    lemma_visits_frame(refresh.displayed, streams, kept, outside);
}

/// Releasing a list asks for what releasing one of its entries asks for.
proof fn lemma_releases_contain<S>(list: Seq<(Seq<char>, S)>, action: ActionView<S>)
    ensures
        releases(list).contains(action) <==> exists|i: int|
            0 <= i < list.len() && release((#[trigger] list[i]).0, list[i].1).contains(action),
    decreases list.len(),
{
    if list.len() > 0 {
        let rest = list.drop_last();
        let n = rest.len() as int;
        lemma_releases_contain(rest, action);
        lemma_concat_contains(release(list.last().0, list.last().1), releases(rest), action);
        assert(list[n] == list.last());
        if releases(rest).contains(action) {
            let i = choose|i: int|
                0 <= i < rest.len() && release((#[trigger] rest[i]).0, rest[i].1).contains(action);
            assert(release(list[i].0, list[i].1).contains(action));
        }
        if exists|i: int|
            0 <= i < list.len() && release((#[trigger] list[i]).0, list[i].1).contains(action) {
            let i = choose|i: int|
                0 <= i < list.len() && release((#[trigger] list[i]).0, list[i].1).contains(action);
            if i < n {
                assert(release(rest[i].0, rest[i].1).contains(action));
            }
        }
    }
}

/// Visiting a list asks for what visiting one of its streams asks for.
proof fn lemma_visits_contain<S>(
    list: Seq<(Seq<char>, Seq<char>)>,
    streams: StreamsView<S>,
    outside: Outside<S>,
    action: ActionView<S>,
)
    ensures
        visits(list, streams, outside).contains(action) <==> exists|i: int|
            0 <= i < list.len() && visit_actions(
                (#[trigger] list[i]).0,
                list[i].1,
                streams,
                outside,
            ).contains(action),
    decreases list.len(),
{
    if list.len() > 0 {
        let rest = list.drop_last();
        let n = rest.len() as int;
        lemma_visits_contain(rest, streams, outside, action);
        lemma_concat_contains(
            visit_actions(list.last().0, list.last().1, streams, outside),
            visits(rest, streams, outside),
            action,
        );
        assert(list[n] == list.last());
        if visits(rest, streams, outside).contains(action) {
            let i = choose|i: int|
                0 <= i < rest.len() && visit_actions(
                    (#[trigger] rest[i]).0,
                    rest[i].1,
                    streams,
                    outside,
                ).contains(action);
            assert(visit_actions(list[i].0, list[i].1, streams, outside).contains(action));
        }
        if exists|i: int|
            0 <= i < list.len() && visit_actions(
                (#[trigger] list[i]).0,
                list[i].1,
                streams,
                outside,
            ).contains(action) {
            let i = choose|i: int|
                0 <= i < list.len() && visit_actions(
                    (#[trigger] list[i]).0,
                    list[i].1,
                    streams,
                    outside,
                ).contains(action);
            if i < n {
                assert(visit_actions(rest[i].0, rest[i].1, streams, outside).contains(action));
            }
        }
    }
}

/// What a concatenation contains.
proof fn lemma_concat_contains<T>(left: Seq<T>, right: Seq<T>, x: T)
    ensures
        (left + right).contains(x) <==> left.contains(x) || right.contains(x),
{
    if left.contains(x) {
        let i = choose|i: int| 0 <= i < left.len() && left[i] == x;
        assert((left + right)[i] == x);
    }
    if right.contains(x) {
        let i = choose|i: int| 0 <= i < right.len() && right[i] == x;
        assert((left + right)[left.len() + i] == x);
    }
    if (left + right).contains(x) {
        let i = choose|i: int| 0 <= i < (left + right).len() && (left + right)[i] == x;
        assert(if i < left.len() {
            left[i] == x
        } else {
            right[i - left.len()] == x
        });
    }
}

/// An undisturbed refresh of `streams` for `displayed` asks for `action`.
pub open spec fn asks_for<S>(
    streams: StreamsView<S>,
    displayed: Map<Seq<char>, Seq<char>>,
    outside: Outside<S>,
    action: ActionView<S>,
) -> bool {
    match action {
        ActionView::AbortTask { .. } => false,
        // A stream that is no longer displayed is given up,
        ActionView::Unsubscribe { event_id, subscription } => {
            &&& streams.subscriptions.contains_pair(event_id, subscription)
            &&& !displayed.contains_key(event_id)
        },
        // and its message shows its own body again.
        ActionView::SetTransientBody { event_id, body: None } => {
            &&& streams.subscriptions.contains_key(event_id)
            &&& !displayed.contains_key(event_id)
        },
        // A displayed stream that has not ended shows its present text if it is
        // subscribed to already, and its message's body once it is.
        ActionView::SetTransientBody { event_id, body: Some(body) } => {
            &&& displayed.contains_key(event_id)
            &&& !streams.cancelled.contains(event_id)
            &&& if streams.subscriptions.contains_key(event_id) {
                (outside.transient_body)(StreamIdView { room_id: streams.room_id, event_id })
                    == Some(body)
            } else {
                (outside.subscribe)(event_id) is Some && body == displayed[event_id]
            }
        },
        ActionView::FetchTransientBody { stream_id } => {
            &&& stream_id.room_id == streams.room_id
            &&& displayed.contains_key(stream_id.event_id)
            &&& !streams.cancelled.contains(stream_id.event_id)
            &&& streams.subscriptions.contains_key(stream_id.event_id)
        },
        ActionView::Subscribe { event_id } => {
            &&& displayed.contains_key(event_id)
            &&& !streams.cancelled.contains(event_id)
            &&& !streams.subscriptions.contains_key(event_id)
        },
    }
}

/// The event that an action is about.
pub open spec fn about<S>(action: ActionView<S>) -> Seq<char> {
    match action {
        ActionView::AbortTask { .. } => Seq::empty(),
        ActionView::Unsubscribe { event_id, .. } => event_id,
        ActionView::SetTransientBody { event_id, .. } => event_id,
        ActionView::FetchTransientBody { stream_id } => stream_id.event_id,
        ActionView::Subscribe { event_id } => event_id,
    }
}

/// What a release asks for.
proof fn lemma_release_contains<S>(event_id: Seq<char>, subscription: S, action: ActionView<S>)
    ensures
        release(event_id, subscription).contains(action) <==> {
            ||| action == (ActionView::Unsubscribe { event_id, subscription })
            ||| action == (ActionView::<S>::SetTransientBody { event_id, body: None })
        },
{
    let actions = release(event_id, subscription);
    assert(actions[0] == ActionView::Unsubscribe { event_id, subscription });
    assert(actions[1] == ActionView::<S>::SetTransientBody { event_id, body: None });
}

/// What a visit asks for.
proof fn lemma_visit_contains<S>(
    event_id: Seq<char>,
    streams: StreamsView<S>,
    displayed: Map<Seq<char>, Seq<char>>,
    outside: Outside<S>,
    action: ActionView<S>,
)
    requires
        displayed.contains_key(event_id),
    ensures
        visit_actions(event_id, displayed[event_id], streams, outside).contains(action) <==> about(
            action,
        ) == event_id && asks_for(streams, displayed, outside, action),
{
    let actions = visit_actions(event_id, displayed[event_id], streams, outside);
    if actions.len() > 0 {
        assert(actions.contains(actions[0]));
    }
    if actions.len() > 1 {
        assert(actions.contains(actions[1]));
    }
}

/// An undisturbed refresh asks for exactly what [`asks_for`] says: each stream
/// that is no longer displayed is released, each displayed one that has not
/// ended is subscribed to or brought up to date, and one that has ended is left
/// alone.
pub proof fn undisturbed_refresh_asks<S>(
    refresh: RefreshView<S>,
    streams: StreamsView<S>,
    displayed: Map<Seq<char>, Seq<char>>,
    outside: Outside<S>,
    action: ActionView<S>,
)
    requires
        refresh.starts(streams, displayed),
    ensures
        ({
            let begun = StreamsView {
                subscriptions: streams.subscriptions.restrict(displayed.dom()),
                ..streams
            };
            run(refresh, begun, ReplyView::Done, outside).1.contains(action) <==> asks_for(
                streams,
                displayed,
                outside,
                action,
            )
        }),
{
    let id = about(action);
    let removed = streams.subscriptions.remove_keys(displayed.dom());
    undisturbed_refresh(refresh, streams, displayed, outside);
    lemma_concat_contains(
        releases(refresh.removed),
        visits(refresh.displayed, streams, outside),
        action,
    );
    lemma_releases_contain(refresh.removed, action);
    lemma_visits_contain(refresh.displayed, streams, outside, action);
    assert forall|i: int| 0 <= i < refresh.removed.len() implies release(
        (#[trigger] refresh.removed[i]).0,
        refresh.removed[i].1,
    ).contains(action) == (refresh.removed[i].0 == id && !displayed.contains_key(id) && asks_for(
        streams,
        displayed,
        outside,
        action,
    )) by {
        lemma_release_contains(refresh.removed[i].0, refresh.removed[i].1, action);
        assert(removed.contains_key(refresh.removed[i].0));
    }
    assert forall|i: int| 0 <= i < refresh.displayed.len() implies visit_actions(
        (#[trigger] refresh.displayed[i]).0,
        refresh.displayed[i].1,
        streams,
        outside,
    ).contains(action) == (refresh.displayed[i].0 == id && asks_for(
        streams,
        displayed,
        outside,
        action,
    )) by {
        lemma_visit_contains(refresh.displayed[i].0, streams, displayed, outside, action);
    }
    if asks_for(streams, displayed, outside, action) {
        if displayed.contains_key(id) {
            let i = choose|i: int|
                0 <= i < refresh.displayed.len() && (#[trigger] refresh.displayed[i]).0 == id;
            assert(visit_actions(
                refresh.displayed[i].0,
                refresh.displayed[i].1,
                streams,
                outside,
            ).contains(action));
        } else {
            assert(removed.contains_key(id));
            let i = choose|i: int|
                0 <= i < refresh.removed.len() && (#[trigger] refresh.removed[i]).0 == id;
            assert(release(refresh.removed[i].0, refresh.removed[i].1).contains(action));
        }
    }
}

/// The subscriptions are in line with what is displayed: exactly the displayed
/// streams that have not ended are subscribed to, and no other stream counts as
/// cancelled.
pub open spec fn settled<S>(
    streams: StreamsView<S>,
    displayed: Map<Seq<char>, Seq<char>>,
) -> bool {
    &&& streams.subscriptions.dom() == displayed.dom().difference(streams.cancelled)
    &&& streams.cancelled.subset_of(displayed.dom())
}

/// An undisturbed refresh during which no attempt to subscribe fails brings the
/// subscriptions in line with what is displayed.
pub proof fn successful_refresh_settles<S>(
    refresh: RefreshView<S>,
    streams: StreamsView<S>,
    displayed: Map<Seq<char>, Seq<char>>,
    outside: Outside<S>,
)
    requires
        streams.consistent(),
        refresh.starts(streams, displayed),
        forall|id: Seq<char>| #[trigger]
            displayed.contains_key(id) && !streams.cancelled.contains(id)
                && !streams.subscriptions.contains_key(id) ==> (outside.subscribe)(id) is Some,
    ensures
        ({
            let begun = StreamsView {
                subscriptions: streams.subscriptions.restrict(displayed.dom()),
                ..streams
            };
            settled(run(refresh, begun, ReplyView::Done, outside).0, displayed)
        }),
{
    let begun = StreamsView {
        subscriptions: streams.subscriptions.restrict(displayed.dom()),
        ..streams
    };
    undisturbed_refresh(refresh, streams, displayed, outside);
    let end = run(refresh, begun, ReplyView::Done, outside).0;
    assert forall|id: Seq<char>| end.subscriptions.dom().contains(id) == displayed.dom().difference(
        end.cancelled,
    ).contains(id) by {
        assert(end.subscriptions.contains_key(id) == end.subscriptions.dom().contains(id));
    }
    assert(end.subscriptions.dom() =~= displayed.dom().difference(end.cancelled));
}

/// A refresh of subscriptions that are in line with what is displayed leaves
/// them as they are, and asks neither to subscribe nor to unsubscribe.
pub proof fn settled_refresh_changes_nothing<S>(
    refresh: RefreshView<S>,
    streams: StreamsView<S>,
    displayed: Map<Seq<char>, Seq<char>>,
    outside: Outside<S>,
    action: ActionView<S>,
)
    requires
        settled(streams, displayed),
        refresh.starts(streams, displayed),
    ensures
        ({
            let begun = StreamsView {
                subscriptions: streams.subscriptions.restrict(displayed.dom()),
                ..streams
            };
            let (end, actions) = run(refresh, begun, ReplyView::Done, outside);
            &&& end == streams
            &&& actions.contains(action) ==> !(action is Subscribe) && !(action is Unsubscribe)
        }),
{
    let begun = StreamsView {
        subscriptions: streams.subscriptions.restrict(displayed.dom()),
        ..streams
    };
    undisturbed_refresh(refresh, streams, displayed, outside);
    undisturbed_refresh_asks(refresh, streams, displayed, outside, action);
    let (end, actions) = run(refresh, begun, ReplyView::Done, outside);
    assert(end.cancelled =~= streams.cancelled);
    assert forall|id: Seq<char>| streams.subscriptions.contains_key(id)
        == end.subscriptions.contains_key(id) by {
        assert(displayed.dom().difference(streams.cancelled).contains(id)
            == streams.subscriptions.dom().contains(id));
    }
    assert(end.subscriptions =~= streams.subscriptions);
}

} // verus!
