//! Feed subscription and polling engine: which entries of a syndication feed
//! are new, which channels follow which feed, how that state is saved and
//! restored, and what the background poller does next.
use vstd::prelude::*;

pub mod selector;
pub mod store;
pub mod poll;
pub mod persist;
