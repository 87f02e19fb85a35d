//! Conversation-history compaction and rollout seeding.
//!
//! The crate models a session's conversation history and its append-only
//! rollout journal, extracts the most recent compaction-bounded segment of
//! a journal, sanitizes such a segment into a replay-safe transcript, and
//! decides the remote-versus-local compaction flow with its failure-class
//! specific fallback.

pub mod dispatch;
pub mod history;
pub mod home;
pub mod items;
pub mod journal;
pub mod compact_remote;
pub mod seed;
