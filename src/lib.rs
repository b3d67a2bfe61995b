//! Archiving the message history of a server's text channels: per-channel paged
//! fetchers feeding one bounded sink, drained by a single writer of escaped rows.

use vstd::prelude::*;

pub mod escape;
pub mod fetcher;
pub mod model;
pub mod pipeline;
pub mod progress;
pub mod record;
pub mod simulate;
pub mod sink;

verus! {

} // verus!
