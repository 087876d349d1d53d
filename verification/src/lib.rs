//! A small actor framework and the tweet-analysis pipeline built on it.
//!
//! The verified part of the crate holds the decisions of the framework
//! (supervision, stream forwarding, handle bookkeeping, broker
//! subscriptions) and the data logic of the pipeline (chunk parsing,
//! emotion tables, scoring, dispatch, worker pools, buffering).
use vstd::prelude::*;

pub mod actor;
pub mod actor_spawner;
pub mod broker;
pub mod lab;
pub mod leacteur;
pub mod messages;
pub mod scan;
pub mod utils;

verus! {

/// Identifier of a running actor.
pub type ActorId = u64;

} // verus!
