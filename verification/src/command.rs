//! Commands sent from application core to support core via ring buffer

use vstd::prelude::*;

verus! {

/// Commands for the support core
#[derive(Debug, Clone, Copy, PartialEq, Eq, Structural, Default)]
pub enum RingCommand {
    /// Return block to global pool
    FreeBlock,
    /// Trigger VMPC on a memory region
    CompactionRequest,
    /// Update MTE tag
    TagUpdate,
    /// Telemetry from application thread
    StatsReport,
    /// No operation (padding/empty)
    #[default]
    NoOp,
}

impl RingCommand {
    /// The command's byte on the wire: 0, 2, 4, 3 and 255.
    pub fn code(&self) -> (r: u8)
        ensures
            r == match *self {
                RingCommand::FreeBlock => 0u8,
                RingCommand::CompactionRequest => 2u8,
                RingCommand::TagUpdate => 4u8,
                RingCommand::StatsReport => 3u8,
                RingCommand::NoOp => 255u8,
            },
    {
        match self {
            RingCommand::FreeBlock => 0,
            RingCommand::CompactionRequest => 2,
            RingCommand::TagUpdate => 4,
            RingCommand::StatsReport => 3,
            RingCommand::NoOp => 255,
        }
    }
}

/// Payload for FreeBlock command
#[derive(Debug, Clone, Copy, PartialEq, Eq, Structural)]
pub struct FreeBlockPayload {
    pub ptr: usize,
    pub size: usize,
    pub size_class: u8,
}

/// Payload for CompactionRequest command
#[derive(Debug, Clone, Copy, PartialEq, Eq, Structural)]
pub struct CompactionRequestPayload {
    pub start_addr: usize,
    pub length: usize,
}

/// Payload for TagUpdate command
#[derive(Debug, Clone, Copy, PartialEq, Eq, Structural)]
pub struct TagUpdatePayload {
    pub ptr: usize,
    pub old_tag: u16,
    pub new_tag: u16,
}

/// Payload for StatsReport command
#[derive(Debug, Clone, Copy, PartialEq, Eq, Structural)]
pub struct StatsReportPayload {
    pub thread_id: u64,
    pub allocs: u64,
    pub frees: u64,
}

/// The payload of an entry: one of the four payload kinds, or all zero bytes.
///
/// The payload kinds share the same bytes: a pointer or `u64` in the first
/// word, a size, length or `u64` in the second, and a byte (the size class)
/// or `u64` in the third; a tag update keeps its old and new tags in the
/// low and next sixteen bits of the second word. Reading a kind that the
/// payload does not hold reads those shared words again as that kind.
/// Bytes that the held kind never wrote (the third word of a compaction
/// request or tag update, the upper bits of a tag update's second word and
/// of a size class) read as zero.
#[derive(Debug, Clone, Copy, PartialEq, Eq, Structural)]
pub enum RingPayload {
    FreeBlock(FreeBlockPayload),
    Compaction(CompactionRequestPayload),
    TagUpdate(TagUpdatePayload),
    Stats(StatsReportPayload),
    /// Every byte zero (the default payload).
    Raw,
}

impl Default for RingPayload {
    fn default() -> (p: Self)
        ensures
            p == RingPayload::Raw,
    {
        RingPayload::Raw
    }
}

/// The three words that hold payload `p`.
pub open spec fn payload_words(p: RingPayload) -> (u64, u64, u64) {
    match p {
        RingPayload::FreeBlock(x) => (x.ptr as u64, x.size as u64, x.size_class as u64),
        RingPayload::Compaction(x) => (x.start_addr as u64, x.length as u64, 0),
        RingPayload::TagUpdate(x) => (x.ptr as u64, (x.old_tag as u64) | ((x.new_tag as u64) << 16u64), 0),
        RingPayload::Stats(x) => (x.thread_id, x.allocs, x.frees),
        RingPayload::Raw => (0, 0, 0),
    }
}

/// `p` read as a `FreeBlockPayload`.
pub open spec fn free_block_of(p: RingPayload) -> FreeBlockPayload {
    match p {
        RingPayload::FreeBlock(x) => x,
        _ => {
            let (w0, w1, w2) = payload_words(p);
            FreeBlockPayload { ptr: w0 as usize, size: w1 as usize, size_class: (w2 & 0xFF) as u8 }
        },
    }
}

/// `p` read as a `CompactionRequestPayload`.
pub open spec fn compaction_of(p: RingPayload) -> CompactionRequestPayload {
    match p {
        RingPayload::Compaction(x) => x,
        _ => {
            let (w0, w1, w2) = payload_words(p);
            CompactionRequestPayload { start_addr: w0 as usize, length: w1 as usize }
        },
    }
}

/// `p` read as a `TagUpdatePayload`.
pub open spec fn tag_update_of(p: RingPayload) -> TagUpdatePayload {
    match p {
        RingPayload::TagUpdate(x) => x,
        _ => {
            let (w0, w1, w2) = payload_words(p);
            TagUpdatePayload { ptr: w0 as usize, old_tag: (w1 & 0xFFFF) as u16, new_tag: ((w1 >> 16u64) & 0xFFFF) as u16 }
        },
    }
}

/// `p` read as a `StatsReportPayload`.
pub open spec fn stats_of(p: RingPayload) -> StatsReportPayload {
    match p {
        RingPayload::Stats(x) => x,
        _ => {
            let (w0, w1, w2) = payload_words(p);
            StatsReportPayload { thread_id: w0, allocs: w1, frees: w2 }
        },
    }
}

impl RingPayload {
    /// The three words that hold the payload.
    pub fn words(&self) -> (r: (u64, u64, u64))
        ensures
            r == payload_words(*self),
    {
        match self {
            RingPayload::FreeBlock(x) => (x.ptr as u64, x.size as u64, x.size_class as u64),
            RingPayload::Compaction(x) => (x.start_addr as u64, x.length as u64, 0),
            RingPayload::TagUpdate(x) => (x.ptr as u64, (x.old_tag as u64) | ((x.new_tag as u64) << 16u64), 0),
            RingPayload::Stats(x) => (x.thread_id, x.allocs, x.frees),
            RingPayload::Raw => (0, 0, 0),
        }
    }

    /// The payload read as a `FreeBlockPayload`.
    pub fn free_block(&self) -> (r: FreeBlockPayload)
        ensures
            r == free_block_of(*self),
    {
        match self {
            RingPayload::FreeBlock(p) => *p,
            _ => {
                let (w0, w1, w2) = self.words();
                FreeBlockPayload { ptr: w0 as usize, size: w1 as usize, size_class: (w2 & 0xFF) as u8 }
            },
        }
    }

    /// The payload read as a `CompactionRequestPayload`.
    pub fn compaction(&self) -> (r: CompactionRequestPayload)
        ensures
            r == compaction_of(*self),
    {
        match self {
            RingPayload::Compaction(p) => *p,
            _ => {
                let (w0, w1, _w2) = self.words();
                CompactionRequestPayload { start_addr: w0 as usize, length: w1 as usize }
            },
        }
    }

    /// The payload read as a `TagUpdatePayload`.
    pub fn tag_update(&self) -> (r: TagUpdatePayload)
        ensures
            r == tag_update_of(*self),
    {
        match self {
            RingPayload::TagUpdate(p) => *p,
            _ => {
                let (w0, w1, _w2) = self.words();
                TagUpdatePayload { ptr: w0 as usize, old_tag: (w1 & 0xFFFF) as u16, new_tag: ((w1 >> 16u64) & 0xFFFF) as u16 }
            },
        }
    }

    /// The payload read as a `StatsReportPayload`.
    pub fn stats(&self) -> (r: StatsReportPayload)
        ensures
            r == stats_of(*self),
    {
        match self {
            RingPayload::Stats(p) => *p,
            _ => {
                let (w0, w1, w2) = self.words();
                StatsReportPayload { thread_id: w0, allocs: w1, frees: w2 }
            },
        }
    }
}

/// Ring buffer entry: a command and its payload
#[derive(Debug, Clone, Copy, PartialEq, Eq, Structural)]
pub struct RingEntry {
    /// Command type
    pub command: RingCommand,
    /// Payload
    pub payload: RingPayload,
}

impl RingEntry {
    /// Create a new entry with the given command and payload
    pub fn new(command: RingCommand, payload: RingPayload) -> (e: Self)
        ensures
            e.command == command,
            e.payload == payload,
    {
        Self { command, payload }
    }
}

impl Default for RingEntry {
    fn default() -> (e: Self)
        ensures
            e.command == RingCommand::NoOp,
            e.payload == RingPayload::Raw,
    {
        Self { command: RingCommand::NoOp, payload: RingPayload::Raw }
    }
}

} // verus!
