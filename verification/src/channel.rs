//! A logical channel: an ordered first-in-first-out queue of raw byte
//! chunks, one per channel id.
use std::collections::VecDeque;

use vstd::prelude::*;

verus! {

/// The chunk queue of one logical channel.
pub struct Channel {
    /// The queued byte chunks, oldest first.
    pub inner: VecDeque<Vec<u8>>,
}

impl Channel {
    /// An empty channel queue.
    pub fn new() -> (r: Self)
        ensures
            r.inner@.len() == 0,
    {
        Channel { inner: VecDeque::new() }
    }
}

} // verus!
