//! Explorer of the follow graph of a code-hosting site: the store of users and
//! edges, the crawl rules, the graph searches and the terminal views.
use vstd::prelude::*;

pub mod analyze;
pub mod client;
pub mod crawlers;
pub mod db;
pub mod display;
pub mod find;
pub mod github;
pub mod graph;
pub mod lists;
pub mod order;
pub mod rounding;
pub mod server;
pub mod text;
pub mod tui;
pub mod types;
pub mod views;
pub mod worker;

verus! {

/// Following count from which a user is an outbound hub; the scopes that a hub
/// discovers inherit the `low` priority.
pub const HUB_FOLLOWING_THRESHOLD: i64 = 5000;

/// Followers count from which a user is an inbound hub; the scopes that a hub
/// discovers inherit the `low` priority.
pub const HUB_FOLLOWER_THRESHOLD: i64 = 5000;

} // verus!
