use rsprof::alloctab::AllocTable;
use rsprof::keyfold::{stack_key, CPU_KEY_SKIP, HEAP_KEY_SKIP};
use rsprof::recorder::Recorder;
use rsprof::shm::ShmHeapSampler;
use rsprof::ssr::CallSiteTable;
use rsprof::trace::{
    pending_events, EventType, RingBuffer, RingBufferHeader, TraceEvent, TRACE_MAGIC,
    TRACE_VERSION,
};

fn heap_stack() -> Vec<u64> {
    // four allocator frames, then the user frames that form the key
    vec![0x11, 0x12, 0x13, 0x14, 0x1000, 0x2000, 0x3000, 0x4000, 0x5000, 0x6000]
}

#[test]
fn stack_key_is_deterministic_and_nonzero() {
    let s1 = heap_stack();
    let s2 = heap_stack();
    assert_eq!(stack_key(&s1, HEAP_KEY_SKIP), stack_key(&s2, HEAP_KEY_SKIP));
    assert_ne!(stack_key(&s1, HEAP_KEY_SKIP), 0);
    assert_ne!(stack_key(&s1, CPU_KEY_SKIP), 0);
    let empty: Vec<u64> = Vec::new();
    assert_eq!(stack_key(&empty, HEAP_KEY_SKIP), 1);
}

#[test]
fn stack_key_skips_allocator_frames() {
    // two stacks that differ only in the skipped frames fold to one key
    let mut a = heap_stack();
    let mut b = heap_stack();
    a[0] = 0xaa;
    b[0] = 0xbb;
    assert_eq!(stack_key(&a, HEAP_KEY_SKIP), stack_key(&b, HEAP_KEY_SKIP));
    assert_ne!(stack_key(&a, CPU_KEY_SKIP), stack_key(&b, CPU_KEY_SKIP));
}

#[test]
fn counter_attribution_for_one_call_site() {
    let mut r = Recorder::new(64, 1024);
    let stack = heap_stack();
    let key = stack_key(&stack, HEAP_KEY_SKIP);
    for i in 0..1000u64 {
        let ptr = 0x10000 + i * 0x40;
        r.record_alloc(ptr, 1024, &stack);
    }
    let s = r.sites.stats_for(key).expect("site should exist");
    assert_eq!(s.alloc_count, 1000);
    assert_eq!(s.alloc_bytes, 1_024_000);
    assert_eq!(s.free_count, 0);
    for i in 0..1000u64 {
        let ptr = 0x10000 + i * 0x40;
        r.record_dealloc(ptr);
    }
    let s = r.sites.stats_for(key).expect("site should exist");
    assert_eq!(s.alloc_count, 1000);
    assert_eq!(s.alloc_bytes, 1_024_000);
    assert_eq!(s.free_count, 1000);
    assert_eq!(s.free_bytes, 1_024_000);
}

#[test]
fn live_bytes_follow_frees() {
    let mut r = Recorder::new(64, 1024);
    let stack = heap_stack();
    let key = stack_key(&stack, HEAP_KEY_SKIP);
    for i in 0..100u64 {
        r.record_alloc(0x20000 + i * 0x40, 1 << 20, &stack);
    }
    let s = r.sites.stats_for(key).unwrap();
    assert_eq!(s.alloc_bytes - s.free_bytes, 104_857_600);
    assert_eq!(s.alloc_count - s.free_count, 100);
    for i in 0..30u64 {
        r.record_dealloc(0x20000 + i * 0x40);
    }
    let s = r.sites.stats_for(key).unwrap();
    assert_eq!(s.alloc_bytes - s.free_bytes, 73_400_320);
}

#[test]
fn frees_never_exceed_allocs_and_untracked_free_is_noop() {
    let mut r = Recorder::new(64, 1024);
    let stack = heap_stack();
    let key = stack_key(&stack, HEAP_KEY_SKIP);
    r.record_dealloc(0x999); // never tracked: a no-op
    assert!(r.sites.stats_for(key).is_none());
    r.record_alloc(0x1000, 64, &stack);
    r.record_dealloc(0x1000);
    r.record_dealloc(0x1000); // already freed: a no-op
    let s = r.sites.stats_for(key).unwrap();
    assert_eq!(s.alloc_count, 1);
    assert_eq!(s.free_count, 1);
    assert!(s.free_count <= s.alloc_count);
    assert!(s.free_bytes <= s.alloc_bytes);
}

#[test]
fn representative_stack_is_stored_once() {
    let mut r = Recorder::new(64, 1024);
    let stack = heap_stack();
    let key = stack_key(&stack, HEAP_KEY_SKIP);
    r.record_alloc(0x1000, 8, &stack);
    let first = r.sites.stack_for(key).unwrap();
    assert_eq!(first, stack);
    // a second sample with the same key but a longer tail reuses the stack
    let mut longer = heap_stack();
    longer.push(0x7000);
    // same key window, longer stack
    let mut padded = heap_stack();
    padded.truncate(10);
    r.record_alloc(0x2000, 8, &padded);
    let again = r.sites.stack_for(key).unwrap();
    assert_eq!(again, stack);
    let _ = longer;
}

#[test]
fn tombstones_preserve_probe_reachability() {
    // two pointers with the same home slot; removing the first leaves a
    // tombstone the second's probe must cross
    let mut t = AllocTable::new(8);
    let a = 0x10; // home (0x10 >> 4) % 8 == 1
    let b = 0x90; // home (0x90 >> 4) % 8 == 1 as well
    assert!(t.track_alloc(a, 100, 7));
    assert!(t.track_alloc(b, 200, 9));
    assert_eq!(t.untrack_alloc(a), Some((100, 7)));
    // the tombstone left behind must not hide b
    assert_eq!(t.untrack_alloc(b), Some((200, 9)));
    assert_eq!(t.untrack_alloc(b), None);
}

#[test]
fn same_pointer_twice_is_attributable_both_times() {
    let mut r = Recorder::new(64, 8);
    let stack = heap_stack();
    let key = stack_key(&stack, HEAP_KEY_SKIP);
    r.record_alloc(0x10, 100, &stack);
    r.record_dealloc(0x10);
    r.record_alloc(0x10, 150, &stack); // the allocator reused the address
    r.record_dealloc(0x10);
    let s = r.sites.stats_for(key).unwrap();
    assert_eq!(s.alloc_count, 2);
    assert_eq!(s.free_count, 2);
    assert_eq!(s.alloc_bytes, 250);
    assert_eq!(s.free_bytes, 250);
}

#[test]
fn full_table_routes_overflow_to_slot_zero() {
    let mut t = CallSiteTable::new(1);
    let stack = vec![0x1, 0x2];
    let first = t.find_or_create(5, &stack);
    assert_eq!(first, 0);
    // the table is now full; a different key lands on the sink
    let sink = t.find_or_create(9, &stack);
    assert_eq!(sink, 0);
    // and the sink still belongs to the first key
    assert!(t.find(5).is_some());
    assert!(t.find(9).is_none());
}

#[test]
fn cpu_samples_count_per_key() {
    let mut r = Recorder::new(64, 8);
    let stack = vec![0x1000, 0x2000, 0x3000];
    let key = stack_key(&stack, CPU_KEY_SKIP);
    for _ in 0..7 {
        r.record_cpu_sample(&stack);
    }
    let s = r.sites.stats_for(key).unwrap();
    assert_eq!(s.cpu_samples, 7);
    assert_eq!(s.alloc_count, 0);
}

#[test]
fn signal_guard_suppresses_allocator_records() {
    let mut r = Recorder::new(64, 8);
    let stack = heap_stack();
    let key = stack_key(&stack, HEAP_KEY_SKIP);
    assert!(r.enter_signal_handler());
    assert!(!r.enter_signal_handler()); // reentry bails
    r.record_alloc(0x1000, 64, &stack); // skipped while the guard is held
    assert!(r.sites.stats_for(key).is_none());
    r.exit_signal_handler();
    r.record_alloc(0x1000, 64, &stack);
    assert_eq!(r.sites.stats_for(key).unwrap().alloc_count, 1);
}

#[test]
fn counters_are_monotonic_across_operations() {
    let mut r = Recorder::new(64, 16);
    let stack = heap_stack();
    let key = stack_key(&stack, HEAP_KEY_SKIP);
    let mut last = (0u64, 0u64, 0u64, 0u64);
    for i in 0..50u64 {
        r.record_alloc(0x1000 + i * 16, 32, &stack);
        if i % 3 == 0 {
            r.record_dealloc(0x1000 + i * 16);
        }
        let s = r.sites.stats_for(key).unwrap();
        let now = (s.alloc_count, s.alloc_bytes, s.free_count, s.free_bytes);
        assert!(now.0 >= last.0 && now.1 >= last.1 && now.2 >= last.2 && now.3 >= last.3);
        last = now;
    }
}

#[test]
fn ring_header_validation() {
    let h = RingBufferHeader::new(1234, 4);
    assert!(h.is_valid());
    assert_eq!(h.pid, 1234);
    let bad = RingBufferHeader {
        magic: TRACE_MAGIC + 1,
        version: TRACE_VERSION,
        capacity: 4,
        write_index: 0,
        pid: 1,
    };
    assert!(!bad.is_valid());
}

fn mk_event(kind: EventType, ptr: u64, size: u64, ts: u64, stack: Vec<u64>) -> TraceEvent {
    TraceEvent { event_type: kind, ptr, size, timestamp: ts, stack }
}

#[test]
fn ring_buffer_wraps_at_capacity() {
    let mut ring = RingBuffer {
        header: RingBufferHeader::new(1, 2),
        events: vec![
            mk_event(EventType::CpuSample, 0, 0, 0, vec![]),
            mk_event(EventType::CpuSample, 0, 0, 0, vec![]),
        ],
    };
    ring.push_event(mk_event(EventType::Alloc, 1, 10, 1, vec![0x1]));
    ring.push_event(mk_event(EventType::Alloc, 2, 20, 2, vec![0x2]));
    ring.push_event(mk_event(EventType::Alloc, 3, 30, 3, vec![0x3]));
    // the third write wrapped onto slot 0
    assert_eq!(ring.events[0].ptr, 3);
    assert_eq!(ring.events[1].ptr, 2);
    assert_eq!(ring.header.write_index, 3);
    assert_eq!(pending_events(3, 0, 2), 2);
    assert_eq!(pending_events(3, 2, 2), 1);
}

#[test]
fn shm_sampler_aggregates_events() {
    let mut s = ShmHeapSampler::new(42, 0);
    let stack = heap_stack();
    let key = stack_key(&stack, HEAP_KEY_SKIP);
    s.apply_event(&mk_event(EventType::Alloc, 0x100, 64, 1, stack.clone()));
    s.apply_event(&mk_event(EventType::Alloc, 0x200, 36, 2, stack.clone()));
    s.apply_event(&mk_event(EventType::Dealloc, 0x100, 0, 3, vec![]));
    s.apply_event(&mk_event(EventType::CpuSample, 0, 0, 4, vec![0x1000, 0x2000]));
    let stats = s.read_stats();
    let row = stats.iter().find(|(k, _)| *k == key).expect("key row");
    assert_eq!(row.1.total_allocs, 2);
    assert_eq!(row.1.total_alloc_bytes, 100);
    assert_eq!(row.1.total_frees, 1);
    assert_eq!(row.1.total_free_bytes, 64);
    assert_eq!(row.1.live_bytes, 36);
    let cpu = s.read_cpu_samples();
    assert_eq!(cpu.len(), 1);
    assert_eq!(cpu[0].timestamp, 4);
    assert!(s.read_cpu_samples().is_empty());
    let inline = s.read_inline_stacks();
    assert_eq!(inline.len(), 1);
    assert_eq!(inline[0].0, key);
    assert_eq!(inline[0].1, stack);
}

#[test]
fn dealloc_of_unknown_pointer_changes_nothing() {
    let mut s = ShmHeapSampler::new(1, 0);
    s.apply_event(&mk_event(EventType::Dealloc, 0xdead, 0, 1, vec![]));
    assert!(s.read_stats().is_empty());
}

#[test]
fn reallocated_pointer_reports_its_newest_site() {
    // alloc, free, then alloc again at the same address under another stack:
    // the second site owns the pointer and both sites keep their totals
    let mut s = ShmHeapSampler::new(9, 0);
    let stack_a = heap_stack();
    let mut stack_b = heap_stack();
    stack_b[7] = 0x7777;
    let key_a = stack_key(&stack_a, HEAP_KEY_SKIP);
    let key_b = stack_key(&stack_b, HEAP_KEY_SKIP);
    assert_ne!(key_a, key_b);
    s.apply_event(&mk_event(EventType::Alloc, 0x500, 40, 1, stack_a.clone()));
    s.apply_event(&mk_event(EventType::Dealloc, 0x500, 0, 2, vec![]));
    s.apply_event(&mk_event(EventType::Alloc, 0x500, 24, 3, stack_b.clone()));
    s.apply_event(&mk_event(EventType::Dealloc, 0x500, 0, 4, vec![]));
    let stats = s.read_stats();
    let row_a = stats.iter().find(|(k, _)| *k == key_a).expect("first site");
    let row_a = &row_a.1;
    assert_eq!(row_a.total_allocs, 1);
    assert_eq!(row_a.total_alloc_bytes, 40);
    assert_eq!(row_a.total_frees, 1);
    assert_eq!(row_a.total_free_bytes, 40);
    assert_eq!(row_a.live_bytes, 0);
    let row_b = stats.iter().find(|(k, _)| *k == key_b).expect("second site");
    let row_b = &row_b.1;
    assert_eq!(row_b.total_allocs, 1);
    assert_eq!(row_b.total_alloc_bytes, 24);
    assert_eq!(row_b.total_frees, 1);
    assert_eq!(row_b.total_free_bytes, 24);
    assert_eq!(row_b.live_bytes, 0);
}
