//! Follower side of a distributed search over Arrow Flight.
//!
//! A leader fans one search out over several parallel `do_get` requests. The follower runs the
//! search once, splits the output streams of that one execution among the requests, reports the
//! statistics of the execution once, and cleans up once. This crate holds the decisions of the
//! follower; sockets, locks, timers and query execution are supplied by the caller.

pub mod do_get;
pub mod entries;
pub mod fan_out;
pub mod group;
pub mod messages;
pub mod outside;
pub mod planning;
pub mod registry;
pub mod request;
pub mod rewrite;
pub mod service;
pub mod session;
pub mod shared;
pub mod shared_build;
pub mod status;
pub mod text;
