use spring_reverb::buffers::concat_segments;
use spring_reverb::buffers::filled_vec;
use spring_reverb::buffers::split_output;
use spring_reverb::ring::HistoryRing;
use spring_reverb::segmenting::segment_chunks;

#[test]
fn segment_chunks_pads_final_chunk() {
    let buffer: Vec<f32> = vec![1.0, 2.0, 3.0, 4.0, 5.0, 6.0];
    let chunks = segment_chunks(&buffer, 0.0f32, 8);
    assert_eq!(chunks.len(), 2);
    assert_eq!(chunks[0], vec![1.0, 2.0, 3.0, 4.0, 0.0, 0.0, 0.0, 0.0]);
    assert_eq!(chunks[1], vec![5.0, 6.0, 0.0, 0.0, 0.0, 0.0, 0.0, 0.0]);
}

#[test]
fn segment_chunks_exact_multiple() {
    let buffer: Vec<f32> = vec![1.0, 2.0, 3.0, 4.0];
    let chunks = segment_chunks(&buffer, 0.0f32, 8);
    assert_eq!(chunks.len(), 1);
    assert_eq!(chunks[0], vec![1.0, 2.0, 3.0, 4.0, 0.0, 0.0, 0.0, 0.0]);
}

#[test]
fn segment_chunks_empty_buffer() {
    let buffer: Vec<f32> = Vec::new();
    let chunks = segment_chunks(&buffer, 0.0f32, 8);
    assert_eq!(chunks.len(), 0);
}

#[test]
fn segment_chunks_second_half_always_silent() {
    let buffer: Vec<i64> = vec![7, 8, 9, 10, 11];
    let chunks = segment_chunks(&buffer, 0i64, 4);
    assert_eq!(chunks.len(), 3);
    assert_eq!(chunks[0], vec![7, 8, 0, 0]);
    assert_eq!(chunks[1], vec![9, 10, 0, 0]);
    assert_eq!(chunks[2], vec![11, 0, 0, 0]);
}

#[test]
fn filled_vec_holds_copies() {
    let buf = filled_vec(0.5f32, 4);
    assert_eq!(buf, vec![0.5, 0.5, 0.5, 0.5]);
    let empty = filled_vec(1i32, 0);
    assert_eq!(empty.len(), 0);
}

#[test]
fn concat_segments_in_order() {
    let segments: Vec<Vec<f32>> = vec![vec![1.0, 2.0], vec![3.0, 4.0], vec![5.0, 6.0]];
    let out = concat_segments(&segments, 2);
    assert_eq!(out, vec![1.0, 2.0, 3.0, 4.0, 5.0, 6.0]);
}

#[test]
fn split_output_block_and_tail() {
    let working: Vec<f32> = vec![1.0, 2.0, 3.0, 4.0, 5.0];
    let (block, tail) = split_output(&working, 3);
    assert_eq!(block, vec![1.0, 2.0, 3.0]);
    assert_eq!(tail, vec![4.0, 5.0]);
}

#[test]
fn split_output_whole_buffer() {
    let working: Vec<i32> = vec![1, 2];
    let (block, tail) = split_output(&working, 2);
    assert_eq!(block, vec![1, 2]);
    assert_eq!(tail.len(), 0);
}

#[test]
fn history_ring_push_evicts_oldest() {
    let mut ring = HistoryRing::new(vec![10i64, 20, 30]);
    assert_eq!(ring.len(), 3);
    ring.push(40);
    assert_eq!(ring.len(), 3);
    assert_eq!(*ring.get(0), 40);
    assert_eq!(*ring.get(1), 10);
    assert_eq!(*ring.get(2), 20);
}

#[test]
fn history_ring_rings_in_over_capacity_pushes() {
    // Three silence slots; each push engages one more slot and the length
    // never changes.
    let mut ring = HistoryRing::new(vec![0.0f32, 0.0, 0.0]);
    ring.push(1.0);
    assert_eq!((*ring.get(0), *ring.get(1), *ring.get(2)), (1.0, 0.0, 0.0));
    ring.push(2.0);
    assert_eq!((*ring.get(0), *ring.get(1), *ring.get(2)), (2.0, 1.0, 0.0));
    ring.push(3.0);
    assert_eq!((*ring.get(0), *ring.get(1), *ring.get(2)), (3.0, 2.0, 1.0));
    ring.push(4.0);
    assert_eq!((*ring.get(0), *ring.get(1), *ring.get(2)), (4.0, 3.0, 2.0));
    assert_eq!(ring.len(), 3);
}

#[test]
fn history_ring_of_spectra() {
    let silence = filled_vec(0.0f32, 4);
    let mut ring = HistoryRing::new(vec![silence.clone(), silence.clone()]);
    ring.push(vec![1.0, 2.0, 3.0, 4.0]);
    assert_eq!(*ring.get(0), vec![1.0, 2.0, 3.0, 4.0]);
    assert_eq!(*ring.get(1), silence);
    assert_eq!(ring.len(), 2);
}
