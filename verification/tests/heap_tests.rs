use rcimmix::constants::{BLOCK_SIZE, LINE_SIZE, NUM_LINES_PER_BLOCK, EVAC_HEADROOM};
use rcimmix::spaces::Spaces;

// P: small allocation fit. A hundred 16-byte objects bump into one block;
// after a reference-counting collection their lines are counted: the first
// payload line is live, and the second only once the ninth object crossed
// into it.
#[test]
fn small_allocation_fit() {
    assert_eq!(LINE_SIZE, 128);
    assert_eq!(NUM_LINES_PER_BLOCK, 256);
    let mut heap = Spaces::with_total_blocks(16);
    let empty: Vec<usize> = Vec::new();
    let mut objects: Vec<usize> = Vec::new();
    for _ in 0..100 {
        let addr = heap.allocate(16, &empty).expect("allocation must succeed");
        objects.push(addr);
    }
    let block = objects[0] / BLOCK_SIZE;
    for &o in objects.iter() {
        assert_eq!(o / BLOCK_SIZE, block, "all hundred objects share one block");
    }
    // bump allocation: consecutive objects, starting right after the header line
    assert_eq!(objects[0] % BLOCK_SIZE, LINE_SIZE);
    assert_eq!(objects[1], objects[0] + 16);
    // the ninth object is the first to start in line 2
    assert_eq!((objects[7] % BLOCK_SIZE) / LINE_SIZE, 1);
    assert_eq!((objects[8] % BLOCK_SIZE) / LINE_SIZE, 2);
    heap.collect(false, false, &objects);
    assert!(heap.line_count(block, 1) >= 1);
    assert!(heap.line_count(block, 2) >= 1);
}

#[test]
fn second_line_stays_clear_until_needed() {
    let mut heap = Spaces::with_total_blocks(16);
    let empty: Vec<usize> = Vec::new();
    let mut objects: Vec<usize> = Vec::new();
    for _ in 0..8 {
        let addr = heap.allocate(16, &empty).expect("allocation must succeed");
        objects.push(addr);
    }
    let block = objects[0] / BLOCK_SIZE;
    heap.collect(false, false, &objects);
    assert!(heap.line_count(block, 1) >= 1);
    assert_eq!(heap.line_count(block, 2), 0, "eight 16-byte objects fit in line 1");
}

// P: overflow path. Medium objects are served by the overflow allocator
// from a fresh block; it never chases holes in recyclable blocks.
#[test]
fn overflow_path() {
    let mut heap = Spaces::with_total_blocks(16);
    let empty: Vec<usize> = Vec::new();
    let free_before = heap.available_blocks();
    let a = heap.allocate(LINE_SIZE + 1, &empty).expect("first overflow allocation");
    let b = heap.allocate(LINE_SIZE + 1, &empty).expect("second overflow allocation");
    // the block came fresh from the pool, not from a recycled one
    assert_eq!(heap.available_blocks(), free_before - 1);
    assert_eq!(a % BLOCK_SIZE, LINE_SIZE);
    // the overflow allocator keeps bumping into its current fresh block
    assert_eq!(a / BLOCK_SIZE, b / BLOCK_SIZE);
    assert_eq!(b, a + LINE_SIZE + 1);
}

// P: write-barrier coalescing. Ten writes to one object log it exactly
// once, and its child enters the decrement buffer exactly once.
#[test]
fn write_barrier_coalescing() {
    let mut heap = Spaces::with_total_blocks(16);
    let empty: Vec<usize> = Vec::new();
    let parent = heap.allocate(32, &empty).expect("parent");
    let child = heap.allocate(32, &empty).expect("child");
    heap.push_child(parent, child);
    for _ in 0..10 {
        heap.write_barrier(parent);
    }
    assert_eq!(heap.rc_collector.modified_buffer.len(), 1);
    assert_eq!(heap.rc_collector.modified_buffer[0], parent);
    let dec_hits = heap
        .rc_collector
        .decrement_buffer
        .iter()
        .filter(|&&d| d == child)
        .count();
    assert_eq!(dec_hits, 1, "the child is queued for a decrement exactly once");
    heap.collect(false, false, &vec![parent, child]);
    assert_eq!(heap.rc_collector.modified_buffer.len(), 0);
    assert_eq!(heap.rc_collector.decrement_buffer.len(), 0);
}

// P: cycle collection reclaims an island. Reference counting alone keeps a
// two-object cycle alive; the tracing pass reclaims it and the lines drop
// to zero.
#[test]
fn cycle_collection_reclaims_island() {
    let mut heap = Spaces::with_total_blocks(16);
    let empty: Vec<usize> = Vec::new();
    let a = heap.allocate(32, &empty).expect("a");
    let b = heap.allocate(32, &empty).expect("b");
    heap.push_child(a, b);
    heap.push_child(b, a);
    // first collection: a and b are roots, their cycle edges are counted
    heap.collect(false, false, &vec![a, b]);
    assert!(heap.is_gc_object(a) && heap.is_gc_object(b));
    // external references dropped: reference counting alone cannot reclaim
    heap.collect(false, false, &empty);
    assert!(heap.is_gc_object(a) && heap.is_gc_object(b));
    assert_eq!(heap.rc_count(a), 1, "only the cycle edge remains");
    assert_eq!(heap.rc_count(b), 1);
    // the tracing pass sees no path from the (empty) roots and reclaims
    let block = a / BLOCK_SIZE;
    heap.collect(false, true, &empty);
    assert!(!heap.is_gc_object(a));
    assert!(!heap.is_gc_object(b));
    for line in 0..NUM_LINES_PER_BLOCK {
        assert_eq!(heap.line_count(block, line), 0, "the island's block is clear");
    }
}

// P: evacuation rewrites the holder. A child in a candidate block moves to
// a reserve block; the old body forwards to the new address and the holder
// is rewritten to it.
#[test]
fn evacuation_rewrites_holder() {
    let mut heap = Spaces::with_total_blocks(16);
    let empty: Vec<usize> = Vec::new();
    let holder = heap.allocate(32, &empty).expect("holder");
    let child = heap.allocate(LINE_SIZE + 1, &empty).expect("child");
    heap.push_child(holder, child);
    assert_ne!(holder / BLOCK_SIZE, child / BLOCK_SIZE);
    // make the child's block an evacuation candidate and reserve headroom
    let child_block = child / BLOCK_SIZE;
    heap.immix_space.block_allocator.blocks[child_block].evacuation_candidate = true;
    let reserve = heap
        .immix_space
        .block_allocator
        .get_block()
        .expect("a free block for the reserve");
    let total = heap.total_blocks();
    heap.immix_space
        .evac_allocator
        .extend_evac_headroom(vec![reserve], total);
    let new_child = heap
        .immix_space
        .maybe_evacuate(&mut heap.store, child)
        .expect("evacuation must succeed");
    assert_eq!(new_child / BLOCK_SIZE, reserve, "the copy lives in the reserve block");
    assert_eq!(heap.forwarding_of(child), Some(new_child));
    assert!(!heap.is_gc_object(child), "the old address is no longer live");
    heap.set_child(holder, 0, new_child);
    assert_eq!(heap.child_of(holder, 0), new_child);
}

// P: out-of-memory path. With a four-block region filled by pinned
// objects, one more request triggers a single collection and then reports
// out of memory.
#[test]
fn oom_path() {
    let mut heap = Spaces::with_total_blocks(4);
    let empty: Vec<usize> = Vec::new();
    let big = BLOCK_SIZE - LINE_SIZE - 1;
    let mut objects: Vec<usize> = Vec::new();
    for _ in 0..4 {
        let addr = heap.allocate(big, &empty).expect("filling allocation");
        heap.set_pinned(addr, true);
        objects.push(addr);
    }
    assert_eq!(heap.available_blocks(), 0);
    let more = heap.allocate(LINE_SIZE + 1, &objects);
    assert_eq!(more, None, "the forced collection finds nothing to reclaim");
    for &o in objects.iter() {
        assert!(heap.is_gc_object(o), "the pinned objects survive");
    }
}

// L: repeated collections are idempotent on heap occupancy when the
// mutator stays quiet.
#[test]
fn collection_idempotent_when_quiet() {
    let mut heap = Spaces::with_total_blocks(16);
    let empty: Vec<usize> = Vec::new();
    let a = heap.allocate(40, &empty).expect("a");
    let b = heap.allocate(24, &empty).expect("b");
    heap.push_child(a, b);
    let roots = vec![a];
    let block = a / BLOCK_SIZE;
    heap.collect(false, false, &roots);
    assert!(heap.rc_count(a) >= 1, "a quiet collection keeps the root alive");
    let free_1 = heap.available_blocks();
    let headroom_1 = heap.evac_headroom_len();
    let lines_1: Vec<u8> = (0..NUM_LINES_PER_BLOCK).map(|l| heap.line_count(block, l)).collect();
    let rc_1 = (heap.rc_count(a), heap.rc_count(b));
    heap.collect(false, false, &roots);
    assert_eq!(heap.available_blocks(), free_1);
    assert_eq!(heap.evac_headroom_len(), headroom_1);
    let lines_2: Vec<u8> = (0..NUM_LINES_PER_BLOCK).map(|l| heap.line_count(block, l)).collect();
    assert_eq!(lines_2, lines_1);
    assert_eq!((heap.rc_count(a), heap.rc_count(b)), rc_1);
}

// L: the evacuation headroom never exceeds its bound.
#[test]
fn headroom_stays_bounded() {
    let mut heap = Spaces::with_total_blocks(16);
    let empty: Vec<usize> = Vec::new();
    for _ in 0..3 {
        heap.collect(true, true, &empty);
        assert!(heap.evac_headroom_len() <= EVAC_HEADROOM);
    }
    let a = heap.allocate(64, &empty).expect("a");
    heap.collect(true, true, &vec![a]);
    assert!(heap.evac_headroom_len() <= EVAC_HEADROOM);
}

// Forwarding stays clear outside a collection window.
#[test]
fn no_forwarding_outside_collections() {
    let mut heap = Spaces::with_total_blocks(16);
    let empty: Vec<usize> = Vec::new();
    let a = heap.allocate(48, &empty).expect("a");
    assert_eq!(heap.forwarding_of(a), None);
    heap.collect(false, false, &vec![a]);
    assert_eq!(heap.forwarding_of(a), None);
    heap.collect(false, true, &vec![a]);
    assert_eq!(heap.forwarding_of(a), None);
}

// A root keeps the next live mark after a tracing collection.
#[test]
fn trace_marks_roots() {
    let mut heap = Spaces::with_total_blocks(16);
    let empty: Vec<usize> = Vec::new();
    let a = heap.allocate(32, &empty).expect("a");
    let b = heap.allocate(32, &empty).expect("b");
    heap.push_child(a, b);
    let before = heap.current_live_mark();
    heap.collect(false, true, &vec![a]);
    let after = heap.current_live_mark();
    assert_eq!(after, !before, "a trace flips the mark polarity");
    assert!(heap.is_marked(a, after));
    assert!(heap.is_marked(b, after), "reachable children are marked too");
}

// Large objects live and die by the reference-counting pass.
#[test]
fn large_objects_follow_the_counts() {
    let mut heap = Spaces::with_total_blocks(16);
    let empty: Vec<usize> = Vec::new();
    let limit = heap.total_blocks() * BLOCK_SIZE;
    let lonely = limit + 128;
    heap.register_large_object(lonely, 4096);
    heap.collect(false, false, &empty);
    assert_eq!(
        heap.large_object_space.take_free_queue(),
        vec![lonely],
        "an unreferenced large object is queued for its free"
    );
    let kept = limit + 8192;
    heap.register_large_object(kept, 4096);
    let holder = heap.allocate(32, &empty).expect("holder");
    heap.push_child(holder, kept);
    heap.collect(false, false, &vec![holder]);
    assert!(heap.large_object_space.take_free_queue().is_empty(), "a referenced large object survives");
    assert!(heap.rc_count(kept) >= 1);
}

// The write-barrier counter asks for a collection only at its threshold.
#[test]
fn write_barrier_counter_resets() {
    let mut heap = Spaces::with_total_blocks(16);
    let empty: Vec<usize> = Vec::new();
    let a = heap.allocate(32, &empty).expect("a");
    heap.write_barrier(a);
    assert_eq!(heap.rc_collector.write_barrier_counter, 1);
    heap.collect(false, false, &empty);
    assert_eq!(heap.rc_collector.write_barrier_counter, 0, "a collection opens a fresh window");
}
