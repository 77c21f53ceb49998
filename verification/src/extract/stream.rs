//! Stream mode: no message boundaries are recognized.

use vstd::prelude::*;

use crate::extract::MessageExtractor;
use crate::model::message::MessageBytes;
use crate::model::timing::ChunkTime;

verus! {

/// Recognizes no boundaries and so produces no messages.
#[derive(Clone, Copy, Debug, PartialEq, Eq, Structural)]
pub struct StreamExtractor;

impl StreamExtractor {
    pub fn new() -> (r: StreamExtractor) {
        StreamExtractor
    }
}

impl Default for StreamExtractor {
    fn default() -> (r: StreamExtractor) {
        StreamExtractor
    }
}

impl MessageExtractor for StreamExtractor {
    open spec fn wf(&self) -> bool {
        true
    }

    fn push_chunk(&mut self, bytes: &[u8], at: ChunkTime) -> (r: Vec<MessageBytes>)
        ensures
            r@.len() == 0,
    {
        Vec::new()
    }

    fn finish(&mut self) -> (r: Vec<MessageBytes>) {
        Vec::new()
    }
}

} // verus!
