//! What holds of the subscriptions of a timeline, whatever comes in and in
//! whatever order.
use crate::action::{release_all, releases, ActionView, ReplyView};
use crate::refresh::{RefreshView, StageView};
use crate::stream_map::{distinct_keys, keys, lemma_drop_last_keys, lemma_lists_keys, lists};
use crate::subscription::StreamsView;
use crate::update::EventStreamSubscriberUpdate;
use vstd::prelude::*;

verus! {

/// An update keeps the subscriptions consistent: no stream that has ended is
/// subscribed to.
pub proof fn update_keeps_consistency<S>(
    streams: StreamsView<S>,
    update: EventStreamSubscriberUpdate,
)
    requires
        streams.consistent(),
    ensures
        streams.updated(update).consistent(),
{
}

/// A stream that has ended takes no further update.
pub proof fn ended_stream_takes_no_update<S>(
    streams: StreamsView<S>,
    end: EventStreamSubscriberUpdate,
    later: EventStreamSubscriberUpdate,
)
    requires
        streams.concerns(end),
        end.ends_stream(),
        later.stream() == end.stream(),
    ensures
        !streams.updated(end).concerns(later),
        streams.updated(end).cancelled.contains(end.stream().event_id),
{
}

/// An update of one stream leaves every other stream as it was: whether it is
/// subscribed to, through which handle, and whether it has ended.
pub proof fn update_concerns_one_stream<S>(
    streams: StreamsView<S>,
    update: EventStreamSubscriberUpdate,
    event_id: Seq<char>,
)
    requires
        event_id != update.stream().event_id,
    ensures
        streams.updated(update).subscriptions.contains_key(event_id)
            == streams.subscriptions.contains_key(event_id),
        streams.subscriptions.contains_key(event_id)
            ==> streams.updated(update).subscriptions[event_id] == streams.subscriptions[event_id],
        streams.updated(update).cancelled.contains(event_id) == streams.cancelled.contains(
            event_id,
        ),
{
}

/// Once every subscription is given up, no update is applied any more.
pub proof fn unsubscribed_takes_no_update<S>(
    streams: StreamsView<S>,
    update: EventStreamSubscriberUpdate,
)
    ensures
        !(StreamsView { subscriptions: Map::<Seq<char>, S>::empty(), ..streams }).concerns(update),
{
}

/// Where the actions that release a list stand.
proof fn lemma_releases_at<S>(list: Seq<(Seq<char>, S)>, i: int)
    requires
        0 <= i < list.len(),
    ensures
        releases(list).len() == 2 * list.len(),
        ({
            let (event_id, subscription) = list[list.len() - 1 - i];
            &&& releases(list)[2 * i] == (ActionView::Unsubscribe { event_id, subscription })
            &&& releases(list)[2 * i + 1] == (ActionView::<S>::SetTransientBody {
                event_id,
                body: None,
            })
        }),
    decreases list.len(),
{
    let rest = list.drop_last();
    if i > 0 {
        lemma_releases_at(rest, i - 1);
    } else if rest.len() > 0 {
        lemma_releases_at(rest, 0);
    } else {
        assert(releases(rest).len() == 0);
    }
}

/// Releasing subscriptions goes through them one by one: each stream is given
/// up, and directly after that its message is told to show its own body again.
/// Every subscription has its turn.
pub proof fn releases_go_one_by_one<S>(
    actions: Seq<ActionView<S>>,
    subscriptions: Map<Seq<char>, S>,
)
    requires
        release_all(actions, subscriptions),
    ensures
        actions.len() % 2 == 0,
        forall|i: int|
            0 <= i < actions.len() / 2 ==> {
                &&& #[trigger] actions[2 * i] matches ActionView::Unsubscribe {
                    event_id,
                    subscription,
                }
                &&& subscriptions.contains_pair(event_id, subscription)
                &&& actions[2 * i + 1] == (ActionView::<S>::SetTransientBody {
                    event_id,
                    body: None,
                })
            },
        forall|event_id: Seq<char>| #[trigger]
            subscriptions.contains_key(event_id) ==> exists|i: int|
                0 <= i < actions.len() / 2 && #[trigger] actions[2 * i]
                    == (ActionView::Unsubscribe {
                    event_id,
                    subscription: subscriptions[event_id],
                }),
        forall|i: int, j: int|
            0 <= i < j < actions.len() ==> #[trigger] actions[i] != #[trigger] actions[j],
{
    let list = choose|list: Seq<(Seq<char>, S)>|
        lists(list, subscriptions) && actions == #[trigger] releases(list);
    let n = list.len();
    if n > 0 {
        lemma_releases_at(list, 0);
    }
    assert(actions.len() == 2 * n);
    assert forall|i: int| 0 <= i < actions.len() / 2 implies {
        &&& #[trigger] actions[2 * i] matches ActionView::Unsubscribe { event_id, subscription }
        &&& subscriptions.contains_pair(event_id, subscription)
        &&& actions[2 * i + 1] == (ActionView::<S>::SetTransientBody { event_id, body: None })
    } by {
        lemma_releases_at(list, i);
        assert(subscriptions.contains_key(list[n - 1 - i].0));
    }
    assert forall|event_id: Seq<char>| #[trigger] subscriptions.contains_key(
        event_id,
    ) implies exists|i: int|
        0 <= i < actions.len() / 2 && #[trigger] actions[2 * i] == (ActionView::Unsubscribe {
            event_id,
            subscription: subscriptions[event_id],
        }) by {
        let k = choose|k: int| 0 <= k < list.len() && (#[trigger] list[k]).0 == event_id;
        lemma_releases_at(list, n - 1 - k);
        assert(actions[2 * (n - 1 - k)] == (ActionView::Unsubscribe {
            event_id,
            subscription: subscriptions[event_id],
        }));
    }
    assert forall|i: int, j: int| 0 <= i < j < actions.len() implies #[trigger] actions[i]
        != #[trigger] actions[j] by {
        lemma_releases_at(list, i / 2);
        lemma_releases_at(list, j / 2);
        assert(i == 2 * (i / 2) || i == 2 * (i / 2) + 1);
        assert(j == 2 * (j / 2) || j == 2 * (j / 2) + 1);
        if i / 2 != j / 2 {
            assert(list[n - 1 - j / 2].0 != list[n - 1 - i / 2].0);
        }
    }
}

/// The refresh has come through its releases, and has forgotten the cancelled
/// streams that are no longer displayed.
pub open spec fn past_releases(stage: StageView) -> bool {
    !(stage is Releasing) && !(stage is Clearing)
}

/// The stream is being subscribed to.
pub open spec fn is_subscribing(stage: StageView, event_id: Seq<char>) -> bool {
    stage matches StageView::Subscribing { event_id: pending, .. } && pending == event_id
}

/// A refresh for the streams in `displayed` is under way on `streams`, and
/// every displayed stream is accounted for: it is still to be visited, or is
/// being subscribed to, or is subscribed to, or has ended, or is one of those in
/// `failed`, which could not be subscribed to.
pub open spec fn accounted<S>(
    refresh: RefreshView<S>,
    streams: StreamsView<S>,
    displayed: Set<Seq<char>>,
    failed: Set<Seq<char>>,
) -> bool {
    &&& streams.consistent()
    &&& streams.subscriptions.dom().subset_of(displayed)
    &&& past_releases(refresh.stage) ==> streams.cancelled.subset_of(displayed)
    &&& !past_releases(refresh.stage) ==> keys(refresh.displayed) == displayed
    &&& keys(refresh.displayed).subset_of(displayed)
    &&& distinct_keys(refresh.displayed)
    &&& forall|event_id: Seq<char>| #[trigger]
        is_subscribing(refresh.stage, event_id) ==> {
            &&& displayed.contains(event_id)
            &&& !keys(refresh.displayed).contains(event_id)
            &&& !streams.subscriptions.contains_key(event_id)
            &&& !streams.cancelled.contains(event_id)
        }
    &&& refresh.stage is Finished ==> refresh.displayed.len() == 0
    &&& forall|event_id: Seq<char>| #[trigger]
        displayed.contains(event_id) ==> {
            ||| keys(refresh.displayed).contains(event_id)
            ||| is_subscribing(refresh.stage, event_id)
            ||| streams.subscriptions.contains_key(event_id)
            ||| streams.cancelled.contains(event_id)
            ||| failed.contains(event_id)
        }
}

/// The streams that could not be subscribed to, after `reply`.
pub open spec fn failed_after<S>(
    refresh: RefreshView<S>,
    reply: ReplyView<S>,
    failed: Set<Seq<char>>,
) -> Set<Seq<char>> {
    match (refresh.stage, reply) {
        (StageView::Subscribing { event_id, .. }, ReplyView::SubscribeFailed) => failed.insert(
            event_id,
        ),
        _ => failed,
    }
}

/// A refresh starts with every displayed stream accounted for.
pub proof fn refresh_starts_accounted<S>(
    refresh: RefreshView<S>,
    streams: StreamsView<S>,
    displayed: Map<Seq<char>, Seq<char>>,
)
    requires
        streams.consistent(),
        refresh.starts(streams, displayed),
    ensures
        accounted(
            refresh,
            StreamsView {
                subscriptions: streams.subscriptions.restrict(displayed.dom()),
                ..streams
            },
            displayed.dom(),
            Set::empty(),
        ),
{
    lemma_lists_keys(refresh.displayed, displayed);
}

/// The refresh has come to the visits.
spec fn visiting<S>(refresh: RefreshView<S>) -> RefreshView<S> {
    RefreshView { stage: StageView::Visiting, ..refresh }
}

/// A visit keeps every displayed stream accounted for.
proof fn lemma_visit_keeps_accounted<S>(
    refresh: RefreshView<S>,
    streams: StreamsView<S>,
    displayed: Set<Seq<char>>,
    failed: Set<Seq<char>>,
)
    requires
        accounted(visiting(refresh), streams, displayed, failed),
    ensures
        ({
            let (next, after, action) = refresh.visit(streams);
            &&& accounted(next, after, displayed, failed)
            &&& action is None <==> next.stage is Finished
            &&& action matches Some(ActionView::Subscribe { event_id }) ==> {
                &&& displayed.contains(event_id)
                &&& !after.subscriptions.contains_key(event_id)
                &&& !after.cancelled.contains(event_id)
            }
        }),
    decreases refresh.displayed.len(),
{
    if refresh.displayed.len() > 0 {
        lemma_drop_last_keys(refresh.displayed);
        let rest = RefreshView { displayed: refresh.displayed.drop_last(), ..refresh };
        let (event_id, body) = refresh.displayed.last();
        if streams.cancelled.contains(event_id) {
            lemma_visit_keeps_accounted(rest, streams, displayed, failed);
        } else {
            let (next, after, action) = refresh.visit(streams);
            assert(!is_subscribing(visiting(refresh).stage, event_id));
            assert forall|id: Seq<char>| #[trigger] displayed.contains(id) implies {
                ||| keys(next.displayed).contains(id)
                ||| is_subscribing(next.stage, id)
                ||| after.subscriptions.contains_key(id)
                ||| after.cancelled.contains(id)
                ||| failed.contains(id)
            } by {
                assert(!is_subscribing(visiting(refresh).stage, id));
            }
        }
    } else {
        assert forall|id: Seq<char>| #[trigger] displayed.contains(id) implies {
            ||| streams.subscriptions.contains_key(id)
            ||| streams.cancelled.contains(id)
            ||| failed.contains(id)
        } by {
            assert(!is_subscribing(visiting(refresh).stage, id));
        }
    }
}

/// A step of a refresh keeps every displayed stream accounted for. It asks to
/// subscribe only to a displayed stream that is not subscribed to and has not
/// ended, and it ends exactly when nothing is left to be done.
pub proof fn step_keeps_accounted<S>(
    refresh: RefreshView<S>,
    streams: StreamsView<S>,
    reply: ReplyView<S>,
    displayed: Set<Seq<char>>,
    failed: Set<Seq<char>>,
)
    requires
        accounted(refresh, streams, displayed, failed),
        refresh.stage.awaits(reply),
    ensures
        ({
            let (next, after, action) = refresh.step(streams, reply);
            &&& accounted(next, after, displayed, failed_after(refresh, reply, failed))
            &&& action is None <==> next.stage is Finished
            &&& action matches Some(ActionView::Subscribe { event_id }) ==> {
                &&& displayed.contains(event_id)
                &&& !after.subscriptions.contains_key(event_id)
                &&& !after.cancelled.contains(event_id)
            }
        }),
{
    let after_failed = failed_after(refresh, reply, failed);
    match (refresh.stage, reply) {
        (StageView::Releasing, ReplyView::Done) => {
            if refresh.removed.len() == 0 {
                let kept = StreamsView {
                    cancelled: streams.cancelled.intersect(keys(refresh.displayed)),
                    ..streams
                };
                lemma_visit_keeps_accounted(refresh, kept, displayed, failed);
            }
        },
        (StageView::Clearing { event_id }, ReplyView::Done) => {},
        (StageView::Visiting, ReplyView::Done) => {
            lemma_visit_keeps_accounted(refresh, streams, displayed, failed);
        },
        (StageView::Fetching { event_id }, ReplyView::TransientBody { body }) => {
            assert forall|id: Seq<char>| #[trigger] displayed.contains(id) implies {
                ||| keys(refresh.displayed).contains(id)
                ||| streams.subscriptions.contains_key(id)
                ||| streams.cancelled.contains(id)
                ||| failed.contains(id)
            } by {
                assert(!is_subscribing(refresh.stage, id));
            }
            assert(accounted(visiting(refresh), streams, displayed, failed));
            if body is None {
                lemma_visit_keeps_accounted(visiting(refresh), streams, displayed, failed);
            }
        },
        (StageView::Subscribing { event_id, body }, ReplyView::Subscribed { subscription }) => {
            assert(is_subscribing(refresh.stage, event_id));
            let (next, after, action) = refresh.step(streams, reply);
            assert forall|id: Seq<char>| #[trigger] displayed.contains(id) implies {
                ||| keys(next.displayed).contains(id)
                ||| after.subscriptions.contains_key(id)
                ||| after.cancelled.contains(id)
                ||| failed.contains(id)
            } by {
                assert(is_subscribing(refresh.stage, id) ==> id == event_id);
            }
        },
        (StageView::Subscribing { event_id, body }, ReplyView::SubscribeFailed) => {
            assert(is_subscribing(refresh.stage, event_id));
            assert forall|id: Seq<char>| #[trigger] displayed.contains(id) implies {
                ||| keys(refresh.displayed).contains(id)
                ||| streams.subscriptions.contains_key(id)
                ||| streams.cancelled.contains(id)
                ||| after_failed.contains(id)
            } by {
                assert(is_subscribing(refresh.stage, id) ==> id == event_id);
            }
            assert(accounted(visiting(refresh), streams, displayed, after_failed));
            lemma_visit_keeps_accounted(visiting(refresh), streams, displayed, after_failed);
        },
        _ => {},
    }
}

/// A visit changes no subscription.
proof fn lemma_visit_keeps_streams<S>(refresh: RefreshView<S>, streams: StreamsView<S>)
    ensures
        refresh.visit(streams).1 == streams,
    decreases refresh.displayed.len(),
{
    if refresh.displayed.len() > 0 {
        lemma_visit_keeps_streams(
            RefreshView { displayed: refresh.displayed.drop_last(), ..refresh },
            streams,
        );
    }
}

/// No step of a refresh touches a subscription that there is, or revives a
/// displayed stream that has ended.
pub proof fn step_keeps_known_streams<S>(
    refresh: RefreshView<S>,
    streams: StreamsView<S>,
    reply: ReplyView<S>,
    displayed: Set<Seq<char>>,
    failed: Set<Seq<char>>,
    event_id: Seq<char>,
)
    requires
        accounted(refresh, streams, displayed, failed),
        refresh.stage.awaits(reply),
    ensures
        ({
            let after = refresh.step(streams, reply).1;
            &&& streams.subscriptions.contains_key(event_id)
                ==> after.subscriptions.contains_pair(event_id, streams.subscriptions[event_id])
            &&& displayed.contains(event_id) && streams.cancelled.contains(event_id)
                ==> after.cancelled.contains(event_id) && !after.subscriptions.contains_key(event_id)
        }),
{
    let kept = StreamsView {
        cancelled: streams.cancelled.intersect(keys(refresh.displayed)),
        ..streams
    };
    step_keeps_accounted(refresh, streams, reply, displayed, failed);
    lemma_visit_keeps_streams(refresh, streams);
    lemma_visit_keeps_streams(visiting(refresh), streams);
    lemma_visit_keeps_streams(refresh, kept);
    match refresh.stage {
        StageView::Subscribing { event_id: pending, .. } => {
            assert(is_subscribing(refresh.stage, pending));
        },
        _ => {},
    }
}

/// An update that comes in between two steps of a refresh keeps every displayed
/// stream accounted for.
pub proof fn update_keeps_accounted<S>(
    refresh: RefreshView<S>,
    streams: StreamsView<S>,
    update: EventStreamSubscriberUpdate,
    displayed: Set<Seq<char>>,
    failed: Set<Seq<char>>,
)
    requires
        accounted(refresh, streams, displayed, failed),
    ensures
        accounted(refresh, streams.updated(update), displayed, failed),
{
    let after = streams.updated(update);
    assert forall|id: Seq<char>| #[trigger] displayed.contains(id) implies {
        ||| keys(refresh.displayed).contains(id)
        ||| is_subscribing(refresh.stage, id)
        ||| after.subscriptions.contains_key(id)
        ||| after.cancelled.contains(id)
        ||| failed.contains(id)
    } by {}
}

/// When a refresh is finished, whatever updates came in between, every
/// displayed stream is subscribed to, or has ended, or could not be subscribed
/// to; and no stream that is not displayed is subscribed to or counts as
/// cancelled.
pub proof fn finished_refresh_covers_display<S>(
    refresh: RefreshView<S>,
    streams: StreamsView<S>,
    displayed: Set<Seq<char>>,
    failed: Set<Seq<char>>,
    event_id: Seq<char>,
)
    requires
        accounted(refresh, streams, displayed, failed),
        refresh.stage is Finished,
    ensures
        displayed.contains(event_id) ==> {
            ||| streams.subscriptions.contains_key(event_id)
            ||| streams.cancelled.contains(event_id)
            ||| failed.contains(event_id)
        },
        streams.subscriptions.contains_key(event_id) ==> displayed.contains(event_id)
            && !streams.cancelled.contains(event_id),
        streams.cancelled.contains(event_id) ==> displayed.contains(event_id),
{
    assert(!is_subscribing(refresh.stage, event_id));
    assert(!keys(refresh.displayed).contains(event_id));
}

/// A subscription that comes about replaces no other: at that moment the stream
/// is not subscribed to.
pub proof fn subscription_replaces_none<S>(
    refresh: RefreshView<S>,
    streams: StreamsView<S>,
    displayed: Set<Seq<char>>,
    failed: Set<Seq<char>>,
    event_id: Seq<char>,
    body: Seq<char>,
)
    requires
        accounted(refresh, streams, displayed, failed),
        refresh.stage == (StageView::Subscribing { event_id, body }),
    ensures
        !streams.subscriptions.contains_key(event_id),
        !streams.cancelled.contains(event_id),
{
    assert(is_subscribing(refresh.stage, event_id));
}

} // verus!
