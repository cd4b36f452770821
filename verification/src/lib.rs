//! Subscriptions to the event streams that a timeline displays.
//!
//! A message of a timeline can announce an event stream: text that changes
//! while the message is on display. An
//! [`EventStreamSubscription`](subscription::EventStreamSubscription) keeps a
//! subscription to each displayed stream. It decides what is to be done, as
//! [`Action`](action::Action)s, and learns what came of it, as
//! [`Reply`](action::Reply)s; talking to the homeserver and to the timeline is
//! left to its user.
//!
//! - [`displayed`] selects the streams that a timeline displays.
//! - [`subscription`] holds the subscriptions and applies stream updates.
//! - [`refresh`] brings the subscriptions in line with the display, step by
//!   step.
//! - [`guarantees`] states what callers can rely on, of each call's inputs and
//!   results.
//! - [`laws`] and [`run`] state what holds of whole sequences of steps and
//!   updates.
pub mod action;
pub mod displayed;
pub mod guarantees;
pub mod laws;
pub mod refresh;
pub mod run;
pub mod stream_map;
pub mod subscription;
pub mod update;
