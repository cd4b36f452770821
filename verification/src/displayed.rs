//! Which event streams a timeline displays.
//!
//! A timeline is read as a list of [`TimelineItem`]s that hold what the
//! selection of streams depends on. A message displays a stream if it carries
//! a stream descriptor that has not run out.
use crate::stream_map::StreamMap;
use vstd::prelude::*;

verus! {

/// The description of a stream in the message that announces it.
#[derive(Debug)]
pub struct StreamDescriptor {
    /// How long after the message the stream runs out, in milliseconds; a
    /// stream without such a limit never does.
    pub expiry_ms: Option<u128>,
}

/// A message of a timeline.
#[derive(Debug)]
pub struct Message {
    pub body: String,
    /// The stream that the message announces, if it does.
    pub stream: Option<StreamDescriptor>,
}

/// What an event of a timeline contains.
#[derive(Debug)]
pub enum TimelineItemContent {
    Message(Message),
    Other,
}

/// An event of a timeline.
#[derive(Debug)]
pub struct EventTimelineItem {
    /// The event's ID; an event that the server has not confirmed has none.
    pub event_id: Option<String>,
    /// When the event was sent, in milliseconds since the Unix epoch.
    pub timestamp: u64,
    pub content: TimelineItemContent,
}

/// An item of a timeline.
#[derive(Debug)]
pub enum TimelineItem {
    Event(EventTimelineItem),
    /// An item that is no event, such as a date divider.
    Virtual,
}

/// The moment at which a stream runs out, in milliseconds since the Unix
/// epoch: the last representable one where the sum goes beyond it.
pub open spec fn expires_at(timestamp: u64, expiry_ms: u128) -> int {
    if timestamp + expiry_ms > u64::MAX {
        u64::MAX as int
    } else {
        timestamp + expiry_ms
    }
}

impl StreamDescriptor {
    /// The stream, announced at `timestamp`, has run out at `now`.
    pub open spec fn expired(self, timestamp: u64, now: u64) -> bool {
        self.expiry_ms matches Some(expiry_ms) && expires_at(timestamp, expiry_ms) <= now
    }

    /// Whether the stream, announced at `timestamp`, has run out at `now`.
    pub fn is_expired(&self, timestamp: u64, now: u64) -> (expired: bool)
        ensures
            expired == self.expired(timestamp, now),
            self.expiry_ms is None ==> !expired,
            self.expiry_ms matches Some(expiry_ms) ==> expired == (now >= timestamp + expiry_ms
                || now == u64::MAX),
    {
        match self.expiry_ms {
            Some(expiry_ms) => {
                let limit: u64 = if expiry_ms > u64::MAX as u128 {
                    u64::MAX
                } else {
                    expiry_ms as u64
                };
                timestamp.saturating_add(limit) <= now
            },
            None => false,
        }
    }
}

impl TimelineItem {
    /// The ID and the body of the message, if the item is a confirmed message
    /// whose stream has not run out at `now`.
    pub open spec fn live_stream(self, now: u64) -> Option<(Seq<char>, Seq<char>)> {
        match self {
            TimelineItem::Event(event) => match (event.event_id, event.content) {
                (Some(event_id), TimelineItemContent::Message(message)) => match message.stream {
                    Some(descriptor) => if descriptor.expired(event.timestamp, now) {
                        None
                    } else {
                        Some((event_id@, message.body@))
                    },
                    None => None,
                },
                _ => None,
            },
            TimelineItem::Virtual => None,
        }
    }

    /// The item is a confirmed message with the ID `event_id` whose stream has
    /// not run out at `now`.
    pub open spec fn shows(self, event_id: Seq<char>, now: u64) -> bool {
        self.live_stream(now) matches Some(stream) && stream.0 == event_id
    }

    /// The ID and the body of the message, if the item is a confirmed message
    /// whose stream has not run out at `now`.
    pub fn displayed_stream(&self, now: u64) -> (stream: Option<(String, String)>)
        ensures
            match stream {
                Some((event_id, body)) => self.live_stream(now) == Some((event_id@, body@)),
                None => self.live_stream(now) is None,
            },
            stream matches Some((event_id, body)) ==> {
                &&& *self matches TimelineItem::Event(event)
                &&& event.event_id == Some(event_id)
                &&& event.content matches TimelineItemContent::Message(message)
                &&& message.body == body
                &&& message.stream matches Some(descriptor)
                &&& descriptor.expiry_ms matches Some(expiry_ms) ==> now < event.timestamp
                    + expiry_ms && now < u64::MAX
            },
            stream is None ==> match *self {
                TimelineItem::Event(event) => match (event.event_id, event.content) {
                    (Some(_), TimelineItemContent::Message(message)) => match message.stream {
                        Some(descriptor) => {
                            &&& descriptor.expiry_ms matches Some(expiry_ms)
                            &&& now >= event.timestamp + expiry_ms || now == u64::MAX
                        },
                        None => true,
                    },
                    _ => true,
                },
                TimelineItem::Virtual => true,
            },
    {
        let event = match self {
            TimelineItem::Event(event) => event,
            TimelineItem::Virtual => return None,
        };
        let event_id = match &event.event_id {
            Some(event_id) => event_id,
            None => return None,
        };
        let message = match &event.content {
            TimelineItemContent::Message(message) => message,
            TimelineItemContent::Other => return None,
        };
        match &message.stream {
            Some(descriptor) => if descriptor.is_expired(event.timestamp, now) {
                None
            } else {
                Some((event_id.clone(), message.body.clone()))
            },
            None => None,
        }
    }
}

/// The streams that `items` display at `now`: the ID of each, with the body of
/// its message. Where an ID occurs more than once, its last occurrence counts.
pub open spec fn displayed(items: Seq<TimelineItem>, now: u64) -> Map<Seq<char>, Seq<char>>
    decreases items.len(),
{
    if items.len() == 0 {
        Map::empty()
    } else {
        let before = displayed(items.drop_last(), now);
        match items.last().live_stream(now) {
            Some((event_id, body)) => before.insert(event_id, body),
            None => before,
        }
    }
}

/// The bodies in `streams`, each taken by its characters.
pub open spec fn bodies(streams: Map<Seq<char>, String>) -> Map<Seq<char>, Seq<char>> {
    streams.map_values(|body: String| body@)
}

/// The streams that `items` display at `now`, each with the body of its
/// message.
pub fn displayed_streams(items: &Vec<TimelineItem>, now: u64) -> (streams: StreamMap<String>)
    ensures
        bodies(streams@) == displayed(items@, now),
{
    let mut streams: StreamMap<String> = StreamMap::new();
    let mut i: usize = 0;
    assert(bodies(streams@) =~= displayed(items@.take(0), now));
    while i < items.len()
        invariant
            i <= items@.len(),
            bodies(streams@) == displayed(items@.take(i as int), now),
        decreases items@.len() - i,
    {
        let ghost before = streams@;
        assert(items@.take(i + 1).drop_last() =~= items@.take(i as int));
        match items[i].displayed_stream(now) {
            Some((event_id, body)) => {
                streams.insert(event_id, body);
                assert(bodies(streams@) =~= bodies(before).insert(event_id@, body@));
            },
            None => {},
        }
        i += 1;
    }
    assert(items@.take(i as int) =~= items@);
    streams
}

/// A stream is displayed if and only if some item announces it and it has not
/// run out.
pub proof fn displayed_means_shown(items: Seq<TimelineItem>, now: u64, event_id: Seq<char>)
    ensures
        displayed(items, now).contains_key(event_id) <==> exists|i: int|
            0 <= i < items.len() && (#[trigger] items[i]).shows(event_id, now),
    decreases items.len(),
{
    if items.len() > 0 {
        let before = items.drop_last();
        let n = before.len() as int;
        displayed_means_shown(before, now, event_id);
        assert(items[n] == items.last());
        if displayed(before, now).contains_key(event_id) {
            let i = choose|i: int|
                0 <= i < before.len() && (#[trigger] before[i]).shows(event_id, now);
            assert(items[i].shows(event_id, now));
        }
        if exists|i: int| 0 <= i < items.len() && (#[trigger] items[i]).shows(event_id, now) {
            let i = choose|i: int|
                0 <= i < items.len() && (#[trigger] items[i]).shows(event_id, now);
            assert(i < n ==> before[i].shows(event_id, now));
        }
    }
}

/// A stream is displayed with the body of the last item that announces it and
/// has not run out.
pub proof fn displayed_body_is_last(
    items: Seq<TimelineItem>,
    now: u64,
    event_id: Seq<char>,
    i: int,
)
    requires
        0 <= i < items.len(),
        items[i].shows(event_id, now),
        forall|j: int| i < j < items.len() ==> !(#[trigger] items[j]).shows(event_id, now),
    ensures
        displayed(items, now).contains_key(event_id),
        items[i].live_stream(now) == Some((event_id, displayed(items, now)[event_id])),
    decreases items.len(),
{
    let before = items.drop_last();
    if i < before.len() {
        assert(!items[before.len() as int].shows(event_id, now));
        assert(before[i] == items[i]);
        assert forall|j: int| i < j < before.len() implies !(#[trigger] before[j]).shows(
            event_id,
            now,
        ) by {
            assert(items[j] == before[j]);
        }
        displayed_body_is_last(before, now, event_id, i);
    }
}

/// A stream that has run out stays so: what is displayed at a later moment was
/// displayed at every earlier one.
pub proof fn expiry_is_final(items: Seq<TimelineItem>, now: u64, later: u64, event_id: Seq<char>)
    requires
        now <= later,
    ensures
        displayed(items, later).contains_key(event_id) ==> displayed(items, now).contains_key(
            event_id,
        ),
    decreases items.len(),
{
    if items.len() > 0 {
        expiry_is_final(items.drop_last(), now, later, event_id);
    }
}

/// A confirmed message whose stream has no time limit is displayed at every
/// moment.
pub proof fn unlimited_stream_is_displayed(
    items: Seq<TimelineItem>,
    now: u64,
    i: int,
    event_id: String,
    timestamp: u64,
    body: String,
)
    requires
        0 <= i < items.len(),
        items[i] == TimelineItem::Event(
            (EventTimelineItem {
                event_id: Some(event_id),
                timestamp,
                content: TimelineItemContent::Message(
                    (Message { body, stream: Some((StreamDescriptor { expiry_ms: None })) }),
                ),
            }),
        ),
    ensures
        displayed(items, now).contains_key(event_id@),
{
    assert(items[i].shows(event_id@, now));
    displayed_means_shown(items, now, event_id@);
}

/// A stream with a time limit has run out from the moment on that lies that
/// much after its message, and not before; where that moment goes beyond the
/// last representable one, it is that one.
pub proof fn limit_counts_from_message(
    descriptor: StreamDescriptor,
    expiry_ms: u128,
    timestamp: u64,
    now: u64,
    expired: bool,
)
    requires
        descriptor.expiry_ms == Some(expiry_ms),
        call_ensures(StreamDescriptor::is_expired, (&descriptor, timestamp, now), expired),
    ensures
        timestamp + expiry_ms <= u64::MAX ==> (expired <==> now >= timestamp + expiry_ms),
        timestamp + expiry_ms > u64::MAX ==> (expired <==> now == u64::MAX),
{
}

/// A stream without a time limit never runs out.
pub proof fn no_limit_never_runs_out(
    descriptor: StreamDescriptor,
    timestamp: u64,
    now: u64,
    expired: bool,
)
    requires
        descriptor.expiry_ms is None,
        call_ensures(StreamDescriptor::is_expired, (&descriptor, timestamp, now), expired),
    ensures
        !expired,
{
}

/// Moving the message and the clock by the same amount of time does not change
/// whether a stream has run out.
pub proof fn only_elapsed_time_counts(
    first: StreamDescriptor,
    second: StreamDescriptor,
    timestamp: u64,
    now: u64,
    shift: u64,
    first_expired: bool,
    second_expired: bool,
)
    requires
        first.expiry_ms matches Some(limit) && timestamp + shift + limit < u64::MAX,
        now + shift < u64::MAX,
        second.expiry_ms == first.expiry_ms,
        call_ensures(StreamDescriptor::is_expired, (&first, timestamp, now), first_expired),
        call_ensures(
            StreamDescriptor::is_expired,
            (&second, (timestamp + shift) as u64, (now + shift) as u64),
            second_expired,
        ),
    ensures
        first_expired == second_expired,
{
}

/// What is displayed is announced: for every displayed stream there is an event
/// with that ID, whose content is a message that carries a stream descriptor, has
/// not run out, and has the body with which the stream is displayed.
pub proof fn displayed_is_announced(
    items: Vec<TimelineItem>,
    now: u64,
    streams: StreamMap<String>,
    event_id: Seq<char>,
)
    requires
        call_ensures(displayed_streams, (&items, now), streams),
        streams@.contains_key(event_id),
    ensures
        exists|i: int|
            0 <= i < items@.len() && match #[trigger] items@[i] {
                TimelineItem::Event(event) => match (event.event_id, event.content) {
                    (Some(id), TimelineItemContent::Message(message)) => {
                        &&& id@ == event_id
                        &&& message.body@ == streams@[event_id]@
                        &&& message.stream matches Some(descriptor)
                        &&& descriptor.expiry_ms matches Some(expiry_ms) ==> now < event.timestamp
                            + expiry_ms && now < u64::MAX
                    },
                    _ => false,
                },
                TimelineItem::Virtual => false,
            },
{
    assert(bodies(streams@).contains_key(event_id));
    let i = last_showing(items@, now, event_id);
    displayed_body_is_last(items@, now, event_id, i);
    let item = items@[i];
    assert(bodies(streams@)[event_id] == streams@[event_id]@);
    assert(item.live_stream(now) == Some((event_id, streams@[event_id]@)));
}

/// The last item that shows a displayed stream.
proof fn last_showing(items: Seq<TimelineItem>, now: u64, event_id: Seq<char>) -> (i: int)
    requires
        displayed(items, now).contains_key(event_id),
    ensures
        0 <= i < items.len(),
        items[i].shows(event_id, now),
        forall|j: int| i < j < items.len() ==> !(#[trigger] items[j]).shows(event_id, now),
    decreases items.len(),
{
    let n = items.len() - 1;
    if items.len() > 0 && items[n].shows(event_id, now) {
        n
    } else {
        let before = items.drop_last();
        let i = last_showing(before, now, event_id);
        assert(before[i] == items[i]);
        assert forall|j: int| i < j < items.len() implies !(#[trigger] items[j]).shows(
            event_id,
            now,
        ) by {
            if j < n {
                assert(before[j] == items[j]);
            }
        }
        i
    }
}

/// What is announced is displayed: an event with an ID, whose content is a
/// message with a stream descriptor that has not run out, displays its stream.
/// Where no later event does so under the same ID, the stream has that message's
/// body.
pub proof fn announced_is_displayed(
    items: Vec<TimelineItem>,
    now: u64,
    streams: StreamMap<String>,
    i: int,
    event: EventTimelineItem,
    event_id: String,
    message: Message,
    descriptor: StreamDescriptor,
)
    requires
        call_ensures(displayed_streams, (&items, now), streams),
        0 <= i < items@.len(),
        items@[i] == TimelineItem::Event(event),
        event.event_id == Some(event_id),
        event.content == TimelineItemContent::Message(message),
        message.stream == Some(descriptor),
        descriptor.expiry_ms matches Some(expiry_ms) ==> now < event.timestamp + expiry_ms && now
            < u64::MAX,
    ensures
        streams@.contains_key(event_id@),
        (forall|j: int|
            i < j < items@.len() ==> match #[trigger] items@[j] {
                TimelineItem::Event(later) => match (later.event_id, later.content) {
                    (Some(id), TimelineItemContent::Message(other)) => id@ != event_id@ || (
                    match other.stream {
                        Some(limited) => {
                            &&& limited.expiry_ms matches Some(expiry_ms)
                            &&& now >= later.timestamp + expiry_ms || now == u64::MAX
                        },
                        None => true,
                    }),
                    _ => true,
                },
                TimelineItem::Virtual => true,
            }) ==> streams@[event_id@]@ == message.body@,
{
    assert(items@[i].shows(event_id@, now));
    displayed_means_shown(items@, now, event_id@);
    assert(bodies(streams@).contains_key(event_id@));
    assert(bodies(streams@)[event_id@] == streams@[event_id@]@);
    if forall|j: int|
        i < j < items@.len() ==> match #[trigger] items@[j] {
            TimelineItem::Event(later) => match (later.event_id, later.content) {
                (Some(id), TimelineItemContent::Message(other)) => id@ != event_id@ || (
                match other.stream {
                    Some(limited) => {
                        &&& limited.expiry_ms matches Some(expiry_ms)
                        &&& now >= later.timestamp + expiry_ms || now == u64::MAX
                    },
                    None => true,
                }),
                _ => true,
            },
            TimelineItem::Virtual => true,
        } {
        assert forall|j: int| i < j < items@.len() implies !(#[trigger] items@[j]).shows(
            event_id@,
            now,
        ) by {}
        displayed_body_is_last(items@, now, event_id@, i);
    }
}

} // verus!
