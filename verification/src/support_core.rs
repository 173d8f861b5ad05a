//! Support core that consumes commands from the ring buffer
//!
//! The support core drains the ring buffer and processes the metadata
//! operations offloaded from the application core. Between entries it backs
//! off adaptively: spin, then yield, then park. The decisions are made here;
//! the caller performs them (frees blocks, yields, sleeps).

use vstd::prelude::*;
use crate::command::{RingCommand, RingEntry, free_block_of, compaction_of, tag_update_of, stats_of};
use crate::ring_buffer::RingBuffer;
use crate::tag_manager::{SoftwareTagManager, TagManager};

verus! {

/// Idle polls after which the support core stops spinning and yields.
pub const SPIN_LIMIT: u32 = 16;
/// Idle polls after which the support core parks.
pub const MAX_SPINS: u32 = 64;

/// Statistics accumulated by the support core
#[derive(Debug, Clone, Copy, PartialEq, Eq, Structural)]
pub struct SupportCoreStats {
    pub blocks_freed: u64,
    pub compactions_run: u64,
    pub tags_updated: u64,
    pub stats_reports_received: u64,
    pub total_allocs_seen: u64,
    pub total_frees_seen: u64,
    pub idle_parks: u64,
}

impl Default for SupportCoreStats {
    fn default() -> (s: Self)
        ensures
            s == zero_stats(),
    {
        Self {
            blocks_freed: 0,
            compactions_run: 0,
            tags_updated: 0,
            stats_reports_received: 0,
            total_allocs_seen: 0,
            total_frees_seen: 0,
            idle_parks: 0,
        }
    }
}

/// All counters zero.
pub open spec fn zero_stats() -> SupportCoreStats {
    SupportCoreStats {
        blocks_freed: 0,
        compactions_run: 0,
        tags_updated: 0,
        stats_reports_received: 0,
        total_allocs_seen: 0,
        total_frees_seen: 0,
        idle_parks: 0,
    }
}

/// Counting `entry` keeps every counter within `u64` (a command that is
/// not counted, such as a free of a null block, always fits).
pub open spec fn entry_fits(s: SupportCoreStats, entry: RingEntry) -> bool {
    match entry.command {
        RingCommand::FreeBlock => free_block_of(entry.payload).ptr != 0 ==> s.blocks_freed < u64::MAX,
        RingCommand::CompactionRequest => compaction_of(entry.payload).start_addr != 0
            && compaction_of(entry.payload).length > 0 ==> s.compactions_run < u64::MAX,
        RingCommand::TagUpdate => tag_update_of(entry.payload).ptr != 0 ==> s.tags_updated < u64::MAX,
        RingCommand::StatsReport => s.stats_reports_received < u64::MAX
            && s.total_allocs_seen + stats_of(entry.payload).allocs <= u64::MAX
            && s.total_frees_seen + stats_of(entry.payload).frees <= u64::MAX,
        RingCommand::NoOp => true,
    }
}

/// The statistics after handling `entry`.
pub open spec fn stats_after(s: SupportCoreStats, entry: RingEntry) -> SupportCoreStats {
    match entry.command {
        RingCommand::FreeBlock => if free_block_of(entry.payload).ptr != 0 {
            SupportCoreStats { blocks_freed: (s.blocks_freed + 1) as u64, ..s }
        } else {
            s
        },
        RingCommand::CompactionRequest => if compaction_of(entry.payload).start_addr != 0
            && compaction_of(entry.payload).length > 0 {
            SupportCoreStats { compactions_run: (s.compactions_run + 1) as u64, ..s }
        } else {
            s
        },
        RingCommand::TagUpdate => if tag_update_of(entry.payload).ptr != 0 {
            SupportCoreStats { tags_updated: (s.tags_updated + 1) as u64, ..s }
        } else {
            s
        },
        RingCommand::StatsReport => SupportCoreStats {
            stats_reports_received: (s.stats_reports_received + 1) as u64,
            total_allocs_seen: (s.total_allocs_seen + stats_of(entry.payload).allocs) as u64,
            total_frees_seen: (s.total_frees_seen + stats_of(entry.payload).frees) as u64,
            ..s
        },
        RingCommand::NoOp => s,
    }
}

/// The block that handling `entry` asks the caller to free with the C `free`.
pub open spec fn block_to_free(entry: RingEntry) -> Option<usize> {
    if entry.command == RingCommand::FreeBlock && free_block_of(entry.payload).ptr != 0 {
        Some(free_block_of(entry.payload).ptr)
    } else {
        None
    }
}

/// What the support core's loop does next.
#[derive(Debug, Clone, Copy, PartialEq, Eq, Structural)]
pub enum PollAction {
    /// The core was stopped: leave the loop.
    Stopped,
    /// An entry was handled; free this block, if any, with the C `free`.
    Handled(Option<usize>),
    /// Nothing to do: spin once.
    Spin,
    /// Nothing to do for a while: yield the thread.
    Yield,
    /// Nothing to do for long: sleep for the park duration.
    Park,
}

/// Support core that processes ring buffer commands
pub struct SupportCore<const N: usize> {
    running: bool,
    stats: SupportCoreStats,
    idle_count: u32,
}

impl<const N: usize> SupportCore<N> {
    /// Whether the core is still running.
    pub closed spec fn is_running(&self) -> bool {
        self.running
    }

    /// The statistics so far.
    pub closed spec fn stats_view(&self) -> SupportCoreStats {
        self.stats
    }

    /// Consecutive polls that found the ring empty.
    pub closed spec fn idle_polls(&self) -> u32 {
        self.idle_count
    }

    pub fn new() -> (c: Self)
        ensures
            c.is_running(),
            c.stats_view() == zero_stats(),
            c.idle_polls() == 0,
    {
        Self { running: true, stats: SupportCoreStats::default(), idle_count: 0 }
    }

    pub fn stop(&mut self)
        ensures
            !final(self).is_running(),
            final(self).stats_view() == old(self).stats_view(),
            final(self).idle_polls() == old(self).idle_polls(),
    {
        self.running = false;
    }

    pub fn stats(&self) -> (r: &SupportCoreStats)
        ensures
            *r == self.stats_view(),
    {
        &self.stats
    }

    /// Whether handling `entry` keeps every counter within `u64`.
    pub fn fits(&self, entry: RingEntry) -> (r: bool)
        ensures
            r == entry_fits(self.stats_view(), entry),
    {
        match entry.command {
            RingCommand::FreeBlock => entry.payload.free_block().ptr == 0 || self.stats.blocks_freed < u64::MAX,
            RingCommand::CompactionRequest => {
                let p = entry.payload.compaction();
                !(p.start_addr != 0 && p.length > 0) || self.stats.compactions_run < u64::MAX
            },
            RingCommand::TagUpdate => entry.payload.tag_update().ptr == 0 || self.stats.tags_updated < u64::MAX,
            RingCommand::StatsReport => {
                let p = entry.payload.stats();
                self.stats.stats_reports_received < u64::MAX
                    && self.stats.total_allocs_seen <= u64::MAX - p.allocs
                    && self.stats.total_frees_seen <= u64::MAX - p.frees
            },
            RingCommand::NoOp => true,
        }
    }

    /// Consecutive polls that found the ring empty.
    pub fn idle(&self) -> (r: u32)
        ensures
            r == self.idle_polls(),
    {
        self.idle_count
    }

    /// Processes one command. Returns the block that the caller must free
    /// with the C `free`, if the command asks for one.
    pub fn handle_command(&mut self, entry: RingEntry) -> (r: Option<usize>)
        requires
            entry_fits(old(self).stats_view(), entry),
        ensures
            final(self).stats_view() == stats_after(old(self).stats_view(), entry),
            r == block_to_free(entry),
            final(self).is_running() == old(self).is_running(),
            final(self).idle_polls() == old(self).idle_polls(),
    {
        match entry.command {
            RingCommand::FreeBlock => {
                let payload = entry.payload.free_block();
                if payload.ptr != 0 {
                    self.stats.blocks_freed = self.stats.blocks_freed + 1;
                    return Some(payload.ptr);
                }
                None
            },
            RingCommand::CompactionRequest => {
                let payload = entry.payload.compaction();
                if payload.start_addr != 0 && payload.length > 0 {
                    self.stats.compactions_run = self.stats.compactions_run + 1;
                }
                None
            },
            RingCommand::TagUpdate => {
                let payload = entry.payload.tag_update();
                if payload.ptr != 0 {
                    let mgr = SoftwareTagManager::new();
                    let _ = mgr.store_tag(payload.ptr as u64, payload.new_tag);
                    self.stats.tags_updated = self.stats.tags_updated + 1;
                }
                None
            },
            RingCommand::StatsReport => {
                let payload = entry.payload.stats();
                self.stats.stats_reports_received = self.stats.stats_reports_received + 1;
                self.stats.total_allocs_seen = self.stats.total_allocs_seen + payload.allocs;
                self.stats.total_frees_seen = self.stats.total_frees_seen + payload.frees;
                None
            },
            RingCommand::NoOp => None,
        }
    }

    /// One turn of the support core's loop: stop if stopped; otherwise take
    /// the oldest entry and handle it, or, when the ring is empty, count an
    /// idle poll and back off: spin for the first polls, then yield, then
    /// park (counting the park).
    pub fn poll(&mut self, ring: &mut RingBuffer<N>) -> (r: PollAction)
        requires
            old(ring).wf(),
            old(self).is_running() && old(ring)@.len() == 0 ==> old(self).idle_polls() < u32::MAX,
            old(self).is_running() && old(ring)@.len() == 0 && old(self).idle_polls() + 1 >= MAX_SPINS
                ==> old(self).stats_view().idle_parks < u64::MAX,
            old(self).is_running() && old(ring)@.len() > 0 ==> entry_fits(old(self).stats_view(), old(ring)@[0]),
        ensures
            final(ring).wf(),
            !old(self).is_running() ==> (r == PollAction::Stopped && final(ring)@ == old(ring)@
                && final(self).stats_view() == old(self).stats_view()),
            old(self).is_running() && old(ring)@.len() > 0 ==> (
                r == PollAction::Handled(block_to_free(old(ring)@[0]))
                && final(ring)@ == old(ring)@.drop_first()
                && final(self).idle_polls() == 0
                && final(self).stats_view() == stats_after(old(self).stats_view(), old(ring)@[0])),
            old(self).is_running() && old(ring)@.len() == 0 ==> (
                final(ring)@ == old(ring)@
                && final(self).idle_polls() == old(self).idle_polls() + 1
                && (final(self).idle_polls() < SPIN_LIMIT ==> r == PollAction::Spin
                    && final(self).stats_view() == old(self).stats_view())
                && (SPIN_LIMIT <= final(self).idle_polls() < MAX_SPINS ==> r == PollAction::Yield
                    && final(self).stats_view() == old(self).stats_view())
                && (final(self).idle_polls() >= MAX_SPINS ==> r == PollAction::Park
                    && final(self).stats_view() == SupportCoreStats {
                        idle_parks: (old(self).stats_view().idle_parks + 1) as u64,
                        ..old(self).stats_view()
                    })),
            final(self).is_running() == old(self).is_running(),
    {
        if !self.running {
            return PollAction::Stopped;
        }
        match ring.try_pop() {
            Some(entry) => {
                self.idle_count = 0;
                let freed = self.handle_command(entry);
                PollAction::Handled(freed)
            },
            None => {
                self.idle_count = self.idle_count + 1;
                if self.idle_count < SPIN_LIMIT {
                    PollAction::Spin
                } else if self.idle_count < MAX_SPINS {
                    PollAction::Yield
                } else {
                    self.stats.idle_parks = self.stats.idle_parks + 1;
                    PollAction::Park
                }
            },
        }
    }
}

} // verus!
