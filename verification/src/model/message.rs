//! Messages and their timing.
//!
//! A message does not change once the extractor has emitted it.

use vstd::prelude::*;

use crate::model::ids::ChannelId;
use crate::model::timing::ChunkTime;

verus! {

/// A message's arrival time: that of the chunk that supplied its first byte.
#[derive(Clone, Copy, Debug, PartialEq, Eq, Structural)]
pub struct MessageTimestamp {
    pub monotonic: u64,
    pub wall_clock: i128,
}

impl From<ChunkTime> for MessageTimestamp {
    fn from(chunk: ChunkTime) -> (r: MessageTimestamp) {
        MessageTimestamp { monotonic: chunk.monotonic, wall_clock: chunk.wall_clock }
    }
}

impl vstd::std_specs::convert::FromSpecImpl<ChunkTime> for MessageTimestamp {
    open spec fn obeys_from_spec() -> bool {
        true
    }

    open spec fn from_spec(chunk: ChunkTime) -> MessageTimestamp {
        MessageTimestamp { monotonic: chunk.monotonic, wall_clock: chunk.wall_clock }
    }
}

/// The bytes of a completed message, with the times of the chunks that supplied its
/// first and its last byte.
#[derive(Clone, Debug)]
pub struct MessageBytes {
    pub bytes: Vec<u8>,
    pub first_chunk: ChunkTime,
    pub last_chunk: ChunkTime,
}

/// What a completed message holds.
pub ghost struct Frame {
    pub bytes: Seq<u8>,
    pub first_chunk: ChunkTime,
    pub last_chunk: ChunkTime,
}

impl View for MessageBytes {
    type V = Frame;

    open spec fn view(&self) -> Frame {
        Frame { bytes: self.bytes@, first_chunk: self.first_chunk, last_chunk: self.last_chunk }
    }
}

/// What a list of completed messages holds.
pub open spec fn frames_view(messages: Seq<MessageBytes>) -> Seq<Frame> {
    messages.map_values(|m: MessageBytes| m@)
}

impl MessageBytes {
    /// The time between the first and the last chunk, in nanoseconds. A message wholly
    /// contained in one chunk took none.
    pub fn reception_duration(&self) -> (r: u64)
        ensures
            r == if self.last_chunk.monotonic >= self.first_chunk.monotonic {
                self.last_chunk.monotonic - self.first_chunk.monotonic
            } else {
                0
            },
    {
        self.last_chunk.monotonic.saturating_sub(self.first_chunk.monotonic)
    }
}

/// What is known of a completed message whatever its protocol.
#[derive(Clone, Copy, Debug, PartialEq, Eq, Structural)]
pub struct MessageMetadata {
    pub total_byte_count: usize,
    /// When the message's first byte was received.
    pub arrival_timestamp: MessageTimestamp,
    /// How long the message took to arrive, in nanoseconds, where that was computed.
    pub reception_duration: Option<u64>,
}

/// A completed message. Its number is local to its channel.
#[derive(Clone, Debug)]
pub struct Message {
    pub channel_id: ChannelId,
    pub number: u64,
    pub bytes: Vec<u8>,
    pub metadata: MessageMetadata,
}

} // verus!
