use event_streams::displayed::{
    displayed_streams, EventTimelineItem, Message, StreamDescriptor, TimelineItem,
    TimelineItemContent,
};
use event_streams::stream_map::StreamMap;

fn message(event_id: Option<&str>, timestamp: u64, body: &str, stream: Option<Option<u128>>) -> TimelineItem {
    TimelineItem::Event(EventTimelineItem {
        event_id: event_id.map(str::to_owned),
        timestamp,
        content: TimelineItemContent::Message(Message {
            body: body.to_owned(),
            stream: stream.map(|expiry_ms| StreamDescriptor { expiry_ms }),
        }),
    })
}

fn sorted(mut streams: StreamMap<String>) -> Vec<(String, String)> {
    let mut entries = streams.take();
    entries.sort();
    entries
}

fn pair(event_id: &str, body: &str) -> (String, String) {
    (event_id.to_owned(), body.to_owned())
}

#[test]
fn only_confirmed_messages_with_a_stream_are_displayed() {
    let items = vec![
        TimelineItem::Virtual,
        message(None, 5, "local echo", Some(None)),
        TimelineItem::Event(EventTimelineItem {
            event_id: Some("$member".to_owned()),
            timestamp: 5,
            content: TimelineItemContent::Other,
        }),
        message(Some("$plain"), 5, "no stream", None),
        message(Some("$stream"), 5, "hello", Some(None)),
    ];
    assert_eq!(sorted(displayed_streams(&items, 10)), vec![pair("$stream", "hello")]);
}

#[test]
fn no_item_displays_no_stream() {
    assert_eq!(sorted(displayed_streams(&vec![], 0)), vec![]);
}

#[test]
fn expiry_counts_from_the_timestamp() {
    let items = vec![message(Some("$a"), 1000, "a", Some(Some(500)))];
    assert_eq!(sorted(displayed_streams(&items, 1499)), vec![pair("$a", "a")]);
    assert_eq!(sorted(displayed_streams(&items, 1500)), vec![]);
    assert_eq!(sorted(displayed_streams(&items, 1501)), vec![]);
}

#[test]
fn expiry_saturates() {
    let descriptor = StreamDescriptor { expiry_ms: Some(u128::MAX) };
    assert!(!descriptor.is_expired(7, u64::MAX - 1));
    assert!(descriptor.is_expired(7, u64::MAX));
    let descriptor = StreamDescriptor { expiry_ms: Some(10) };
    assert!(!descriptor.is_expired(u64::MAX - 3, u64::MAX - 1));
    assert!(descriptor.is_expired(u64::MAX - 3, u64::MAX));
    let descriptor = StreamDescriptor { expiry_ms: Some(0) };
    assert!(descriptor.is_expired(7, 7));
    assert!(!descriptor.is_expired(7, 6));
}

#[test]
fn a_stream_without_limit_never_expires() {
    let descriptor = StreamDescriptor { expiry_ms: None };
    assert!(!descriptor.is_expired(0, u64::MAX));
}

#[test]
fn the_last_live_occurrence_counts() {
    let items = vec![
        message(Some("$a"), 0, "first", Some(None)),
        message(Some("$a"), 0, "second", Some(None)),
        message(Some("$a"), 0, "run out", Some(Some(1))),
        message(Some("$b"), 0, "b", Some(None)),
    ];
    assert_eq!(
        sorted(displayed_streams(&items, 100)),
        vec![pair("$a", "second"), pair("$b", "b")]
    );
}

#[test]
fn what_is_displayed_later_was_displayed_before() {
    let items = vec![
        message(Some("$a"), 0, "a", Some(Some(10))),
        message(Some("$b"), 0, "b", Some(Some(20))),
        message(Some("$c"), 0, "c", Some(None)),
    ];
    let ids = |now: u64| -> Vec<String> {
        sorted(displayed_streams(&items, now)).into_iter().map(|entry| entry.0).collect()
    };
    assert_eq!(ids(9), vec!["$a", "$b", "$c"]);
    assert_eq!(ids(10), vec!["$b", "$c"]);
    assert_eq!(ids(20), vec!["$c"]);
}
