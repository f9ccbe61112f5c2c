//! Core library of syncweb: parsing, schedules, search filters, content
//! links, provider resilience, trust policy and the small wire formats used by
//! the node, each with a contract checked by Verus.
#![allow(unused_imports)]

pub mod error;
pub mod text;
pub mod parsing;
pub mod clock;
pub mod schedule;
pub mod media;
pub mod crypto;
pub mod resilience;
pub mod pairmap;
pub mod search;
pub mod identity;
pub mod signature;
pub mod signed_message;
pub mod relay;
pub mod network;
pub mod beacon;
pub mod docs;
pub mod mirror;
pub mod parallel;
pub mod links;
pub mod wot;
pub mod reputation;
pub mod denylist;
pub mod catalog;
pub mod rows;
pub mod store;
pub mod neighbor;
pub mod snapshot;
pub mod indexing;
