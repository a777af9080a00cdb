use disk_hog_backup::pipeline::{chunk_count, chunk_len, MemoryGate, CHUNK_SIZE, GLOBAL_MAX_BUFFER};

#[test]
fn one_byte_over_a_chunk_makes_two_chunks() {
    assert_eq!(chunk_count(CHUNK_SIZE + 1, CHUNK_SIZE), 2);
    assert_eq!(chunk_len(CHUNK_SIZE + 1, CHUNK_SIZE, 0), CHUNK_SIZE);
    assert_eq!(chunk_len(CHUNK_SIZE + 1, CHUNK_SIZE, 1), 1);
    assert_eq!(chunk_len(CHUNK_SIZE + 1, CHUNK_SIZE, 2), 0);
}

#[test]
fn chunk_counts_at_the_edges() {
    assert_eq!(chunk_count(0, CHUNK_SIZE), 0);
    assert_eq!(chunk_count(1, CHUNK_SIZE), 1);
    assert_eq!(chunk_count(CHUNK_SIZE, CHUNK_SIZE), 1);
    assert_eq!(chunk_count(u64::MAX, 2), u64::MAX / 2 + 1);
    assert_eq!(chunk_len(0, CHUNK_SIZE, 0), 0);
}

#[test]
fn memory_gate_bounds_buffered_bytes() {
    let mut gate = MemoryGate::new(100, 40);
    assert!(gate.try_admit(40));
    assert!(gate.try_admit(40));
    assert!(!gate.try_admit(40));
    assert_eq!(gate.in_flight(), 80);
    gate.release(40);
    assert!(gate.try_admit(20));
    assert_eq!(gate.in_flight(), 60);
}

#[test]
fn memory_gate_admits_a_lone_chunk() {
    let mut gate = MemoryGate::new(10, 40);
    assert!(gate.try_admit(40));
    assert!(!gate.try_admit(1));
    gate.release(40);
    assert_eq!(gate.in_flight(), 0);
    let big = MemoryGate::new(GLOBAL_MAX_BUFFER, CHUNK_SIZE);
    assert_eq!(big.in_flight(), 0);
}
