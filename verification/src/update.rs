//! Updates of event streams, and what each one does to the message that
//! displays the stream.
use vstd::prelude::*;
use vstd::string::StrSliceExecFns;

verus! {

/// The name of a stream: the room and the event that announces it.
#[derive(Debug, Clone, PartialEq, Eq)]
pub struct StreamId {
    pub room_id: String,
    pub event_id: String,
}

/// A [`StreamId`], with both IDs taken by their characters.
pub struct StreamIdView {
    pub room_id: Seq<char>,
    pub event_id: Seq<char>,
}

impl View for StreamId {
    type V = StreamIdView;

    open spec fn view(&self) -> StreamIdView {
        StreamIdView { room_id: self.room_id@, event_id: self.event_id@ }
    }
}

impl StreamId {
    pub fn new(room_id: String, event_id: String) -> (stream_id: Self)
        ensures
            stream_id.room_id == room_id,
            stream_id.event_id == event_id,
    {
        StreamId { room_id, event_id }
    }
}

/// A change of a stream, as a subscriber learns of it.
#[derive(Debug, Clone)]
pub enum EventStreamSubscriberUpdate {
    /// The text of the stream was replaced by `body`.
    Replaced { stream_id: StreamId, body: String },
    /// `appended_body` was appended to the text, which is now `body`.
    Appended { stream_id: StreamId, appended_body: String, body: String },
    /// The publisher cancelled the stream.
    Cancelled { stream_id: StreamId },
    /// The stream ran out.
    Expired { stream_id: StreamId },
}

impl EventStreamSubscriberUpdate {
    /// The stream that changed.
    pub open spec fn stream(self) -> StreamIdView {
        match self {
            EventStreamSubscriberUpdate::Replaced { stream_id, .. } => stream_id@,
            EventStreamSubscriberUpdate::Appended { stream_id, .. } => stream_id@,
            EventStreamSubscriberUpdate::Cancelled { stream_id } => stream_id@,
            EventStreamSubscriberUpdate::Expired { stream_id } => stream_id@,
        }
    }

    /// The text of the stream after the update, unless the update ends the
    /// stream.
    pub open spec fn body(self) -> Option<Seq<char>> {
        match self {
            EventStreamSubscriberUpdate::Replaced { body, .. } => Some(body@),
            EventStreamSubscriberUpdate::Appended { body, .. } => Some(body@),
            EventStreamSubscriberUpdate::Cancelled { .. } => None,
            EventStreamSubscriberUpdate::Expired { .. } => None,
        }
    }

    /// The update ends the stream.
    pub open spec fn ends_stream(self) -> bool {
        self is Cancelled || self is Expired
    }

    pub open spec fn operation(self) -> Operation {
        match self {
            EventStreamSubscriberUpdate::Replaced { .. } => Operation::Replace,
            EventStreamSubscriberUpdate::Appended { .. } => Operation::Append,
            EventStreamSubscriberUpdate::Cancelled { .. } => Operation::Cancel,
            EventStreamSubscriberUpdate::Expired { .. } => Operation::Expire,
        }
    }

    /// How many characters were appended, if the update appends.
    pub open spec fn appended_chars(self) -> Option<nat> {
        match self {
            EventStreamSubscriberUpdate::Appended { appended_body, .. } => Some(appended_body@.len()),
            _ => None,
        }
    }

    /// Takes the update apart into what it does to the displayed message.
    pub fn into_effect(self) -> (effect: UpdateEffect)
        ensures
            effect.is_effect_of(self),
            match self {
                EventStreamSubscriberUpdate::Replaced { stream_id, body } => {
                    &&& effect.stream_id == stream_id
                    &&& effect.transient_body == Some(body)
                    &&& !effect.cancelled
                    &&& effect.operation == Operation::Replace
                    &&& effect.appended_chars is None
                },
                EventStreamSubscriberUpdate::Appended { stream_id, appended_body, body } => {
                    &&& effect.stream_id == stream_id
                    &&& effect.transient_body == Some(body)
                    &&& !effect.cancelled
                    &&& effect.operation == Operation::Append
                    &&& effect.appended_chars matches Some(appended) && appended
                        == appended_body@.len()
                },
                EventStreamSubscriberUpdate::Cancelled { stream_id } => {
                    &&& effect.stream_id == stream_id
                    &&& effect.transient_body is None
                    &&& effect.cancelled
                    &&& effect.operation == Operation::Cancel
                    &&& effect.appended_chars is None
                },
                EventStreamSubscriberUpdate::Expired { stream_id } => {
                    &&& effect.stream_id == stream_id
                    &&& effect.transient_body is None
                    &&& effect.cancelled
                    &&& effect.operation == Operation::Expire
                    &&& effect.appended_chars is None
                },
            },
    {
        match self {
            EventStreamSubscriberUpdate::Replaced { stream_id, body } => UpdateEffect {
                stream_id,
                transient_body: Some(body),
                cancelled: false,
                operation: Operation::Replace,
                appended_chars: None,
            },
            EventStreamSubscriberUpdate::Appended { stream_id, appended_body, body } => {
                let appended: usize = appended_body.as_str().unicode_len();
                UpdateEffect {
                    stream_id,
                    transient_body: Some(body),
                    cancelled: false,
                    operation: Operation::Append,
                    appended_chars: Some(appended),
                }
            },
            EventStreamSubscriberUpdate::Cancelled { stream_id } => UpdateEffect {
                stream_id,
                transient_body: None,
                cancelled: true,
                operation: Operation::Cancel,
                appended_chars: None,
            },
            EventStreamSubscriberUpdate::Expired { stream_id } => UpdateEffect {
                stream_id,
                transient_body: None,
                cancelled: true,
                operation: Operation::Expire,
                appended_chars: None,
            },
        }
    }
}

/// What kind of change an update makes.
#[derive(Debug, Clone, Copy, PartialEq, Eq, Structural)]
pub enum Operation {
    Replace,
    Append,
    Cancel,
    Expire,
}

impl Operation {
    /// The name of the operation.
    pub open spec fn name(self) -> &'static str {
        match self {
            Operation::Replace => "replace",
            Operation::Append => "append",
            Operation::Cancel => "cancel",
            Operation::Expire => "expire",
        }
    }

    /// The name of the operation, for log records.
    pub fn as_str(&self) -> (name: &'static str)
        ensures
            name@ == self.name()@,
            *self == Operation::Replace ==> name@ == "replace"@,
            *self == Operation::Append ==> name@ == "append"@,
            *self == Operation::Cancel ==> name@ == "cancel"@,
            *self == Operation::Expire ==> name@ == "expire"@,
    {
        match self {
            Operation::Replace => "replace",
            Operation::Append => "append",
            Operation::Cancel => "cancel",
            Operation::Expire => "expire",
        }
    }
}

/// What an update does to the message that displays the stream.
#[derive(Debug, PartialEq, Eq)]
pub struct UpdateEffect {
    pub stream_id: StreamId,
    /// The text to show in place of the message's own body; none once the
    /// stream has ended.
    pub transient_body: Option<String>,
    /// Whether the stream has ended.
    pub cancelled: bool,
    pub operation: Operation,
    /// How many characters were appended, if the update appends.
    pub appended_chars: Option<usize>,
}

/// The characters of an optional text.
pub open spec fn text(body: Option<String>) -> Option<Seq<char>> {
    match body {
        Some(body) => Some(body@),
        None => None,
    }
}

impl UpdateEffect {
    /// The effect is that of `update`.
    pub open spec fn is_effect_of(self, update: EventStreamSubscriberUpdate) -> bool {
        &&& self.stream_id@ == update.stream()
        &&& text(self.transient_body) == update.body()
        &&& self.cancelled == update.ends_stream()
        &&& self.operation == update.operation()
        &&& match self.appended_chars {
            Some(appended) => update.appended_chars() == Some(appended as nat),
            None => update.appended_chars() is None,
        }
    }
}

/// An update that carries the text of its stream shows that text, whole and
/// unchanged, and does not end the stream: `appended_body` is only counted.
pub proof fn update_shows_whole_text(
    stream_id: StreamId,
    appended_body: String,
    body: String,
    replaced: UpdateEffect,
    appended: UpdateEffect,
)
    requires
        call_ensures(
            EventStreamSubscriberUpdate::into_effect,
            (EventStreamSubscriberUpdate::Replaced { stream_id, body },),
            replaced,
        ),
        call_ensures(
            EventStreamSubscriberUpdate::into_effect,
            (EventStreamSubscriberUpdate::Appended { stream_id, appended_body, body },),
            appended,
        ),
    ensures
        replaced.transient_body == Some(body),
        appended.transient_body == Some(body),
        replaced.stream_id == stream_id,
        appended.stream_id == stream_id,
        !replaced.cancelled,
        !appended.cancelled,
        replaced.appended_chars is None,
        appended.appended_chars matches Some(count) && count == appended_body@.len(),
{
}

/// An update that cancels its stream and one that reports that it ran out do the
/// same: the stream has ended, and no text is shown in place of the message's own
/// body.
pub proof fn cancel_and_expiry_end_alike(
    stream_id: StreamId,
    cancelled: UpdateEffect,
    expired: UpdateEffect,
)
    requires
        call_ensures(
            EventStreamSubscriberUpdate::into_effect,
            (EventStreamSubscriberUpdate::Cancelled { stream_id },),
            cancelled,
        ),
        call_ensures(
            EventStreamSubscriberUpdate::into_effect,
            (EventStreamSubscriberUpdate::Expired { stream_id },),
            expired,
        ),
    ensures
        cancelled.cancelled,
        expired.cancelled,
        cancelled.transient_body is None,
        expired.transient_body is None,
        cancelled.stream_id == stream_id,
        expired.stream_id == stream_id,
        cancelled.operation != expired.operation,
{
}

/// The four kinds of update are told apart by their operations, and these by
/// their names.
pub proof fn operations_differ(
    first: Operation,
    second: Operation,
    first_name: &'static str,
    second_name: &'static str,
)
    requires
        call_ensures(Operation::as_str, (&first,), first_name),
        call_ensures(Operation::as_str, (&second,), second_name),
    ensures
        first_name@ == second_name@ <==> first == second,
{
    reveal_strlit("replace");
    reveal_strlit("append");
    reveal_strlit("cancel");
    reveal_strlit("expire");
    assert("replace"@[0] == 'r' && "append"@[0] == 'a' && "cancel"@[0] == 'c' && "expire"@[0]
        == 'e');
}

} // verus!
