//! A single-process mock of a routing node: events, consensus groups that fan
//! votes out to the inboxes of their members, a classifier of transport events,
//! and a quorum merge of refreshable state gathered during churn.
pub mod event;
pub mod classify;
pub mod network;
pub mod merge;
