//! Help texts: where a measurement stands in the receive path, how to read it, and what
//! it cannot prove.

use vstd::prelude::*;

verus! {

pub const THROUGHPUT_TOOLTIP: &'static str =
    "Received is the cumulative byte count processed by Listener since Start and is retained \
     after Stop. Throughput uses bytes whose post-read arrival times fall in the current and \
     previous four one-second buckets, divided by five seconds and scaled by SI unit. It is \
     an approximate five-second application receive rate from the latest status snapshot, \
     not instantaneous line rate, link utilization, or device-buffer occupancy. During the \
     first five seconds it still uses the full five-second denominator; after Stop the rate \
     is zero while Received remains.";

pub const FINAL_SNAPSHOT_TOOLTIP: &'static str =
    "When complete, completed-run values come from the channel's final snapshot. If the \
     final snapshot is incomplete, timing, queue, and transport values may be missing or \
     defaulted and must not be read as measured zero.";

pub const TRANSPORT_TOOLTIP: &'static str =
    "Shows transport-specific evidence available from this channel run. For Linux UDP, a \
     reported drop is a datagram discarded because this socket's kernel receive queue \
     filled; the displayed cumulative count is a lower bound because status updates are \
     best-effort. For Serial, a stall means the receive loop stopped issuing reads while a \
     block waited for Ingest space. Serial snapshots read the reader's authoritative state: \
     completed totals cover finished stalls, while Active is the elapsed time of the current \
     unfinished stall. A reported zero does not rule out loss in the network, device, \
     adapter, driver, or upstream buffer.";

pub const PRESSURE_TOOLTIP: &'static str =
    "Ingest is received data moving through Listener's in-memory processing queue; its \
     summary shows the highest sampled in-flight count this run, not a live current depth. \
     Raw is the background recorder's in-memory queue; while recording, its latest status \
     sample and highest observed occupancy are shown, and afterward the highest observed \
     occupancy is retained for the channel run. The writer may be handling one block \
     concurrently. These are application queues, not device or driver buffers. Half capacity \
     is an early-warning reference: active Raw pressure at or above it raises Attention, \
     while a historical peak remains visible but does not escalate the card by itself. A \
     brief burst can set a peak, and occupancy is not proof of data loss or sustained \
     pressure.";

pub const PIPELINE_TOOLTIP: &'static str =
    "Handoff is the time from a completed operating-system read until Listener starts \
     processing that block. Processing is the time Listener spends handling it \
     synchronously; background recorder I/O may run concurrently and is outside this \
     boundary. Recent values use an approximate latest or final ten-second segmented window. \
     Before 20 samples the display shows the maximum; afterward, p99 ≤ X means at least 99% \
     of samples fell within X. Compare changes with queue pressure and normal operation; \
     there is no universal good/bad latency limit.";

pub const UDP_DROP_CALLOUT_TOOLTIP: &'static str =
    "Linux confirms at least this many datagrams were discarded because this socket's kernel \
     receive queue filled. The displayed cumulative count is the latest update that reached \
     Listener's pipeline; the actual run total may be higher. It excludes packets lost \
     before reaching this socket. Check host load, input rate, and receive-buffer capacity.";

pub const SERIAL_BACKPRESSURE_TOOLTIP: &'static str =
    "Shows authoritative Serial backpressure state for this channel run. A stall starts \
     after a block is read when the Ingest queue is full; the reader retries for space about \
     every 5 ms and issues no new read meanwhile. Episodes is the number of completed \
     stalls; Total and Max also cover completed stalls only. Active is measured separately \
     from the reader's current stall start. Advisory warnings may be dropped without \
     changing these values. While the channel continues, the pending block is retried, but \
     it is not retained if the channel stops or its processing path closes. Upstream adapter \
     or driver loss is not observable here.";

pub const RECEIVE_DETAILS_TOOLTIP: &'static str =
    "Use these measurements to locate pressure between the input, Listener processing, and \
     storage. Recent or final values use an approximate ten-second segmented window; run \
     values cover the time since Start. p99 ≤ X is an upper-bound estimate for at least 99% \
     of samples.";

pub const HANDOFF_TOOLTIP: &'static str =
    "Measures each received block from immediately after the operating-system read returns \
     until Listener begins processing it. This includes copying, waiting in the Ingest \
     queue, and thread scheduling. It excludes time spent in the device, adapter, driver, or \
     kernel before the read completed. Rising Handoff together with Ingest pressure means \
     arrivals were not drained promptly; compare Processing to distinguish Listener workload \
     from scheduling delay or input bursts.";

pub const PROCESSING_TOOLTIP: &'static str =
    "Measures how long Listener handles each received block: accounting, scrollback, match \
     rules, display preparation, and recorder handoff and checks. It excludes Handoff and \
     background recorder I/O, which may run concurrently. Rising Processing together with \
     Ingest pressure points to a Listener workload bottleneck.";

pub const CHUNK_SHAPE_TOOLTIP: &'static str =
    "Cumulative across the full channel run, not the recent ten-second window. One chunk is \
     the block returned by a single operating-system read; it is not necessarily a complete \
     line or protocol message. Size shows bytes per read. Read gap is between consecutive \
     post-read monotonic captures and can reflect source cadence, buffering, and host \
     scheduling—not per-byte wire timing. Because these values accumulate, a long run can \
     dilute a brief change.";

pub const ARRIVAL_TIMESTAMP_TOOLTIP: &'static str =
    "Wall-clock source for timestamped Mark annotations and recording metadata. Post-read is \
     host time captured when the operating-system read returns; Linux kernel software time \
     is captured earlier in the socket receive path. When kernel timing is active, a \
     post-read fallback is a datagram whose ancillary metadata did not contain a usable \
     timestamp. SO_TIMESTAMPNS returns a software timestamp with nanosecond fields; that \
     representation does not imply nanosecond accuracy. Handoff and Read gap always use \
     post-read monotonic captures. Neither source is device time, hardware time, or per-byte \
     arrival time.";

pub const UDP_NOT_APPLICABLE_TOOLTIP: &'static str =
    "This channel does not use an input with a per-socket UDP receive-overflow counter. This \
     is expected for this transport and says nothing about data loss.";

pub const UDP_UNAVAILABLE_TOOLTIP: &'static str =
    "Listener does not have an active drop counter attributable to this UDP socket. The \
     operating system may not support it, or enabling it may have failed. Treat unavailable \
     as unknown, not zero. Use packet capture or operating-system and network counters if an \
     independent loss measurement is required.";

pub const UDP_AVAILABLE_TOOLTIP: &'static str =
    "Latest cumulative drop total reported for this Linux UDP socket. A nonzero value \
     confirms at least that many datagrams were discarded because the kernel receive queue \
     filled; a later update can be missed, so the actual run total may be higher. Zero means \
     no nonzero update reached this display, not that no packets were lost here or elsewhere.";

pub const IDLE_RULE_TIMING_TOOLTIP: &'static str =
    "Measures how late Listener evaluates and fires each Idle rule after its configured \
     no-data deadline. For example, p99 ≤ 2 ms means at least 99% of measured firings were \
     no more than about 2 ms late. Lateness can include operating-system wake delay, \
     processor contention, and time Listener spent servicing requests, processing input, or \
     handling recording before evaluation. It is not wall-clock or receive-time accuracy.";

pub const IDLE_TIMER_TOOLTIP: &'static str =
    "Counts completed Idle-deadline wakes, not every wait that was started. On Windows, \
     Listener requests 1 ms timer resolution only during the final 32 ms; 1 ms unavailable \
     counts completed wakes for which that request was ineffective, not necessarily distinct \
     Windows API calls. Linux and macOS use native deadline waits. One completed wake can \
     fire several rules. A wait restarted by new input or other channel work is not counted. \
     Compare unavailable wakes with measured lateness; unavailable alone is not proof that a \
     rule fired late.";

pub const INGEST_QUEUE_TOOLTIP: &'static str =
    "Last sample is the number of blocks in flight when Listener most recently took one for \
     processing, including that block; it is not a live queue reading. Peak is the highest \
     such sample this run and capacity is the queue limit. A brief burst can set the peak, \
     so compare a high value with Handoff timing and transport stalls.";

pub const RAW_QUEUE_ACTIVE_TOOLTIP: &'static str =
    "Received blocks queued for the background Raw recorder. Latest sample is the queue \
     occupancy in the most recent status snapshot, highest observed is the largest sample \
     this run, and capacity is the queue limit. The writer may be handling one block \
     concurrently. A brief burst can set the observed high. If an enqueue is attempted while \
     the queue is full, Raw recording faults while reception continues.";

pub const RAW_QUEUE_RETAINED_TOOLTIP: &'static str =
    "Raw recording is no longer active. This preserves the highest observed queue occupancy \
     from the current channel run so earlier writer pressure remains visible. It does not \
     describe current storage load.";

pub const RAW_QUEUE_FAULTED_TOOLTIP: &'static str =
    "Raw recording is faulted. The highest observed queue occupancy remains visible for this \
     channel run. An enqueue attempted while the queue is full is terminal for Raw \
     recording, as are some recorder I/O failures; reception continues. Check the recording \
     fault and diagnostics for the specific cause.";

pub const RAW_QUEUE_INACTIVE_TOOLTIP: &'static str =
    "Raw recording is not active, so there is no Raw recorder queue to measure.";

} // verus!
