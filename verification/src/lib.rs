//! Core of a lobby-lifecycle tracking service: it follows multiplayer game
//! lobbies from first observation to their archived results, and drives a
//! queue of deeper post-game analyses.
//!
//! The crate holds the verified logic only: the numeric codec used for dense
//! time-series storage, the backoff and scheduling policies, the completion
//! classifier, and the pipeline steps that reconcile observations against the
//! persistence model. Network and database plumbing live outside, and hand
//! these functions plain values.

pub mod analysis;
pub mod backoff;
pub mod codec;
pub mod completion;
pub mod config;
pub mod oauth;
pub mod pipeline;
pub mod source;
pub mod store;
pub mod teams;
