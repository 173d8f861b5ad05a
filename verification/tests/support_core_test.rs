use aethalloc::command::{
    CompactionRequestPayload, FreeBlockPayload, RingCommand, RingEntry, RingPayload, StatsReportPayload,
    TagUpdatePayload,
};
use aethalloc::ring_buffer::RingBuffer;
use aethalloc::support_core::{PollAction, SupportCore, SupportCoreStats, MAX_SPINS, SPIN_LIMIT};

#[test]
fn test_support_core_processes_commands() {
    let mut ring: RingBuffer<256> = RingBuffer::new();

    let mut support_core: SupportCore<256> = SupportCore::new();

    let entry = RingEntry::new(RingCommand::NoOp, RingPayload::default());
    ring.try_push(entry).unwrap();

    support_core.handle_command(entry);
}

#[test]
fn free_block_is_handed_back_and_counted() {
    let mut core: SupportCore<16> = SupportCore::new();
    let entry = RingEntry::new(
        RingCommand::FreeBlock,
        RingPayload::FreeBlock(FreeBlockPayload { ptr: 0x5000, size: 64, size_class: 2 }),
    );
    assert_eq!(core.handle_command(entry), Some(0x5000));
    assert_eq!(core.stats().blocks_freed, 1);
    let null_entry = RingEntry::new(
        RingCommand::FreeBlock,
        RingPayload::FreeBlock(FreeBlockPayload { ptr: 0, size: 64, size_class: 2 }),
    );
    assert_eq!(core.handle_command(null_entry), None);
    assert_eq!(core.stats().blocks_freed, 1);
}

#[test]
fn other_commands_update_the_statistics() {
    let mut core: SupportCore<16> = SupportCore::new();
    let stats = RingEntry::new(
        RingCommand::StatsReport,
        RingPayload::Stats(StatsReportPayload { thread_id: 3, allocs: 4096, frees: 10 }),
    );
    assert_eq!(core.handle_command(stats), None);
    assert_eq!(core.handle_command(stats), None);
    let compaction = RingEntry::new(
        RingCommand::CompactionRequest,
        RingPayload::Compaction(CompactionRequestPayload { start_addr: 0x10000, length: 8192 }),
    );
    assert_eq!(core.handle_command(compaction), None);
    let empty_compaction = RingEntry::new(
        RingCommand::CompactionRequest,
        RingPayload::Compaction(CompactionRequestPayload { start_addr: 0x10000, length: 0 }),
    );
    assert_eq!(core.handle_command(empty_compaction), None);
    let tag = RingEntry::new(
        RingCommand::TagUpdate,
        RingPayload::TagUpdate(TagUpdatePayload { ptr: 0x40, old_tag: 1, new_tag: 2 }),
    );
    assert_eq!(core.handle_command(tag), None);
    let s = *core.stats();
    assert_eq!(
        s,
        SupportCoreStats {
            blocks_freed: 0,
            compactions_run: 1,
            tags_updated: 1,
            stats_reports_received: 2,
            total_allocs_seen: 8192,
            total_frees_seen: 20,
            idle_parks: 0,
        }
    );
}

#[test]
fn poll_handles_then_backs_off() {
    let mut ring: RingBuffer<16> = RingBuffer::new();
    let mut core: SupportCore<16> = SupportCore::new();
    let entry = RingEntry::new(
        RingCommand::FreeBlock,
        RingPayload::FreeBlock(FreeBlockPayload { ptr: 0x9000, size: 16, size_class: 0 }),
    );
    ring.push(entry);
    assert_eq!(core.poll(&mut ring), PollAction::Handled(Some(0x9000)));
    for _ in 1..SPIN_LIMIT {
        assert_eq!(core.poll(&mut ring), PollAction::Spin);
    }
    for _ in SPIN_LIMIT..MAX_SPINS {
        assert_eq!(core.poll(&mut ring), PollAction::Yield);
    }
    assert_eq!(core.poll(&mut ring), PollAction::Park);
    assert_eq!(core.stats().idle_parks, 1);
    core.stop();
    ring.push(entry);
    assert_eq!(core.poll(&mut ring), PollAction::Stopped);
    assert_eq!(ring.len(), 1);
}

#[test]
fn uncounted_commands_fit_even_with_full_counters() {
    let core: SupportCore<16> = SupportCore::new();
    let null_free = RingEntry::new(
        RingCommand::FreeBlock,
        RingPayload::FreeBlock(FreeBlockPayload { ptr: 0, size: 64, size_class: 2 }),
    );
    assert!(core.fits(null_free));
    let empty_compaction = RingEntry::new(
        RingCommand::CompactionRequest,
        RingPayload::Compaction(CompactionRequestPayload { start_addr: 0x1000, length: 0 }),
    );
    assert!(core.fits(empty_compaction));
}
