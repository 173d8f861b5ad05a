use aethalloc::command::{
    CompactionRequestPayload, FreeBlockPayload, RingCommand, RingEntry, RingPayload, StatsReportPayload,
    TagUpdatePayload,
};
use aethalloc::ring_buffer::RingBuffer;

#[test]
fn test_push_pop_single() {
    let mut rb: RingBuffer<16> = RingBuffer::new();

    let entry = RingEntry::default();

    assert!(rb.try_push(entry).is_some());
    assert_eq!(rb.len(), 1);

    let popped = rb.try_pop();
    assert!(popped.is_some());
    assert_eq!(rb.len(), 0);
}

#[test]
fn test_fill_drain() {
    let mut rb: RingBuffer<16> = RingBuffer::new();

    for i in 0..15 {
        let entry = RingEntry::default();
        assert!(rb.try_push(entry).is_some(), "push {} failed", i);
    }

    assert!(rb.is_full());

    let entry = RingEntry::default();
    assert!(rb.try_push(entry).is_none());

    for i in 0..15 {
        assert!(rb.try_pop().is_some(), "pop {} failed", i);
    }

    assert!(rb.is_empty());
}

#[test]
fn test_wrap_around() {
    let mut rb: RingBuffer<4> = RingBuffer::new();

    for round in 0..5 {
        for i in 0..3 {
            let entry = RingEntry::default();
            assert!(rb.try_push(entry).is_some(), "round {} push {} failed", round, i);
        }
        for i in 0..3 {
            assert!(rb.try_pop().is_some(), "round {} pop {} failed", round, i);
        }
    }
}

#[test]
fn test_len_accuracy() {
    let mut rb: RingBuffer<16> = RingBuffer::new();

    assert_eq!(rb.len(), 0);

    for i in 1..=7 {
        let entry = RingEntry::default();
        rb.try_push(entry).unwrap();
        assert_eq!(rb.len(), i);
    }

    for i in (0..7).rev() {
        rb.try_pop().unwrap();
        assert_eq!(rb.len(), i);
    }

    assert_eq!(rb.len(), 0);
}

#[test]
fn test_entry_new() {
    let payload = RingPayload::default();
    let entry = RingEntry::new(RingCommand::FreeBlock, payload);
    assert_eq!(entry.command, RingCommand::FreeBlock);
}

fn free_entry(ptr: usize) -> RingEntry {
    RingEntry::new(
        RingCommand::FreeBlock,
        RingPayload::FreeBlock(FreeBlockPayload { ptr, size: 64, size_class: 2 }),
    )
}

#[test]
fn ring_is_first_in_first_out_across_wraps() {
    let mut rb: RingBuffer<4> = RingBuffer::new();
    let mut next_in = 1usize;
    let mut next_out = 1usize;
    for _ in 0..10 {
        while rb.try_push(free_entry(next_in)).is_some() {
            next_in += 1;
        }
        assert_eq!(rb.len(), 3);
        let e = rb.pop();
        assert_eq!(e.payload.free_block().ptr, next_out);
        next_out += 1;
        let e = rb.try_pop().unwrap();
        assert_eq!(e.payload.free_block().ptr, next_out);
        next_out += 1;
    }
}

#[test]
fn push_then_pop_gives_the_entry_back() {
    let mut rb: RingBuffer<8> = RingBuffer::new();
    let e = RingEntry::new(
        RingCommand::StatsReport,
        RingPayload::Stats(StatsReportPayload { thread_id: 7, allocs: 100, frees: 90 }),
    );
    rb.push(e);
    assert_eq!(rb.pop(), e);
    assert!(rb.try_pop().is_none());
    assert_eq!(rb.capacity(), 8);
}

#[test]
fn default_entry_is_noop() {
    let e = RingEntry::default();
    assert_eq!(e.command, RingCommand::NoOp);
    assert_eq!(e.payload, RingPayload::Raw);
}

#[test]
fn payload_read_as_other_kind_reads_the_shared_words() {
    let p = RingPayload::TagUpdate(TagUpdatePayload { ptr: 0x40, old_tag: 1, new_tag: 2 });
    assert_eq!(p.tag_update(), TagUpdatePayload { ptr: 0x40, old_tag: 1, new_tag: 2 });
    assert_eq!(p.compaction(), CompactionRequestPayload { start_addr: 0x40, length: 0x2_0001 });
    let f = RingPayload::FreeBlock(FreeBlockPayload { ptr: 0x5000, size: 0x1234_5678, size_class: 7 });
    assert_eq!(f.stats(), StatsReportPayload { thread_id: 0x5000, allocs: 0x1234_5678, frees: 7 });
    assert_eq!(f.tag_update(), TagUpdatePayload { ptr: 0x5000, old_tag: 0x5678, new_tag: 0x1234 });
    let s = RingPayload::Stats(StatsReportPayload { thread_id: 9, allocs: 100, frees: 0x1ff });
    assert_eq!(s.free_block(), FreeBlockPayload { ptr: 9, size: 100, size_class: 0xff });
    assert_eq!(RingPayload::Raw.free_block(), FreeBlockPayload { ptr: 0, size: 0, size_class: 0 });
    assert_eq!(RingPayload::Raw.stats(), StatsReportPayload { thread_id: 0, allocs: 0, frees: 0 });
}

#[test]
fn command_codes() {
    assert_eq!(RingCommand::FreeBlock.code(), 0);
    assert_eq!(RingCommand::CompactionRequest.code(), 2);
    assert_eq!(RingCommand::StatsReport.code(), 3);
    assert_eq!(RingCommand::TagUpdate.code(), 4);
    assert_eq!(RingCommand::NoOp.code(), 255);
}

#[test]
fn ring_run_pops_in_push_order_then_empty() {
    let mut rb: RingBuffer<8> = RingBuffer::new();
    for p in [0x100usize, 0x200, 0x300] {
        assert_eq!(rb.try_push(free_entry(p)), Some(()));
    }
    assert_eq!(rb.try_pop(), Some(free_entry(0x100)));
    assert_eq!(rb.try_push(free_entry(0x400)), Some(()));
    assert_eq!(rb.try_pop(), Some(free_entry(0x200)));
    assert_eq!(rb.try_pop(), Some(free_entry(0x300)));
    assert_eq!(rb.try_pop(), Some(free_entry(0x400)));
    assert_eq!(rb.try_pop(), None);
    assert!(rb.is_empty());
}
