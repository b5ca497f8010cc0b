//! Appends, grants and releases on small rings, with exact bytes.

use defmt_persist::layout::Layout;
use defmt_persist::ring_buffer::RingBuffer;

fn fresh_ring(layout: Layout, data_len: usize) -> RingBuffer {
    RingBuffer::recover_or_reinitialize(layout, vec![0xA5; 48 + data_len])
}

#[test]
fn fresh_region_append_read_release() {
    let mut ring = fresh_ring(Layout::Plain, 4);
    let (mut p, mut c) = ring.split();
    p.write(&mut ring, &[1, 2, 3]);
    let grant = c.read(&ring);
    assert_eq!(grant.bufs(&ring), (&[1, 2, 3][..], &[][..]));
    grant.release(&mut ring, 3);
    let grant = c.read(&ring);
    assert_eq!(grant.bufs(&ring), (&[][..], &[][..]));
    assert!(c.is_empty(&ring));
}

#[test]
fn append_across_the_wrap_point() {
    let mut ring = RingBuffer::new(Layout::Plain, 2, 2, vec![0; 4]);
    let (mut p, mut c) = ring.split();
    p.write(&mut ring, &[1, 2, 3]);
    let grant = c.read(&ring);
    assert_eq!(grant.bufs(&ring), (&[1, 2][..], &[3][..]));
    grant.release(&mut ring, 2);
    let grant = c.read(&ring);
    assert_eq!(grant.bufs(&ring), (&[3][..], &[][..]));
    grant.release(&mut ring, 1);
    assert!(c.is_empty(&ring));
}

#[test]
fn overflow_drops_the_tail_of_the_call() {
    let mut ring = fresh_ring(Layout::Plain, 4);
    let (mut p, mut c) = ring.split();
    p.write(&mut ring, &[1, 2, 3, 4, 5, 6, 7]);
    let grant = c.read(&ring);
    assert_eq!(grant.granted(), 3);
    assert_eq!(grant.bufs(&ring), (&[1, 2, 3][..], &[][..]));
}

#[test]
fn full_ring_takes_nothing_more() {
    let mut ring = fresh_ring(Layout::Plain, 4);
    let (mut p, mut c) = ring.split();
    p.write(&mut ring, &[1, 2, 3]);
    let image = ring.snapshot();
    p.write(&mut ring, &[9, 9]);
    assert_eq!(ring.snapshot(), image);
    let grant = c.read(&ring);
    assert_eq!(grant.bufs(&ring), (&[1, 2, 3][..], &[][..]));
}

#[test]
fn empty_append_changes_nothing() {
    let mut ring = RingBuffer::new(Layout::Plain, 1, 3, vec![7, 8, 9, 10]);
    let (mut p, _c) = ring.split();
    let image = ring.snapshot();
    p.write(&mut ring, &[]);
    assert_eq!(ring.snapshot(), image);
}

#[test]
fn available_counts_all_slots_but_one() {
    let mut ring = RingBuffer::new(Layout::Plain, 0, 0, vec![0; 8]);
    let (p, _c) = ring.split();
    assert_eq!(p.available(&ring, 0, 0), 7);
    assert_eq!(p.available(&ring, 3, 3), 7);
    assert_eq!(p.available(&ring, 0, 7), 0);
    assert_eq!(p.available(&ring, 5, 2), 2);
    assert_eq!(p.available(&ring, 2, 5), 4);
    assert_eq!(p.available(&ring, 1, 0), 0);
}

#[test]
fn two_appends_equal_one_append_of_both() {
    let mut twice = RingBuffer::new(Layout::Plain, 5, 5, vec![0; 8]);
    let mut once = RingBuffer::new(Layout::Plain, 5, 5, vec![0; 8]);
    let (mut p2, _) = twice.split();
    let (mut p1, _) = once.split();
    p2.write(&mut twice, &[1, 2, 3, 4]);
    p2.write(&mut twice, &[5, 6, 7, 8, 9]);
    p1.write(&mut once, &[1, 2, 3, 4, 5, 6, 7, 8, 9]);
    assert_eq!(twice.snapshot(), once.snapshot());
}

#[test]
fn dropped_grant_releases_nothing() {
    let mut ring = fresh_ring(Layout::Plain, 8);
    let (mut p, mut c) = ring.split();
    p.write(&mut ring, &[4, 5, 6]);
    let image = ring.snapshot();
    {
        let grant = c.read(&ring);
        assert_eq!(grant.granted(), 3);
    }
    assert_eq!(ring.snapshot(), image);
    let grant = c.read(&ring);
    assert_eq!(grant.bufs(&ring), (&[4, 5, 6][..], &[][..]));
}

#[test]
fn release_clamps_to_what_was_granted() {
    let mut ring = fresh_ring(Layout::Plain, 8);
    let (mut p, mut c) = ring.split();
    p.write(&mut ring, &[4, 5, 6]);
    let grant = c.read(&ring);
    grant.release(&mut ring, 100);
    assert!(c.is_empty(&ring));
    p.write(&mut ring, &[1, 2, 3, 4, 5, 6, 7]);
    let grant = c.read(&ring);
    assert_eq!(grant.bufs(&ring), (&[1, 2, 3, 4, 5][..], &[6, 7][..]));
    grant.release_all(&mut ring);
    assert!(c.is_empty(&ring));
}

#[test]
fn slice_lengths_add_up_to_the_distance_of_the_indices() {
    for read in 0..5u32 {
        for write in 0..5u32 {
            let mut ring = RingBuffer::new(Layout::Plain, read, write, vec![0; 5]);
            let (_p, mut c) = ring.split();
            let grant = c.read(&ring);
            let (first, second) = grant.bufs(&ring);
            let distance = (write + 5 - read) % 5;
            assert_eq!(first.len() + second.len(), distance.try_into().unwrap());
            assert_eq!(second.is_empty(), write >= read || write == 0);
        }
    }
}

#[test]
fn append_while_a_grant_is_out() {
    let mut ring = fresh_ring(Layout::Plain, 8);
    let (mut p, mut c) = ring.split();
    p.write(&mut ring, &[1, 2, 3]);
    let grant = c.read(&ring);
    p.write(&mut ring, &[4, 5]);
    assert!(grant.is_current(&ring));
    assert_eq!(grant.bufs(&ring), (&[1, 2, 3][..], &[][..]));
    grant.release(&mut ring, 2);
    let grant = c.read(&ring);
    assert_eq!(grant.bufs(&ring), (&[3, 4, 5][..], &[][..]));
}

#[test]
fn grant_of_another_state_is_not_current() {
    let mut ring = fresh_ring(Layout::Plain, 8);
    let mut other = RingBuffer::new(Layout::Plain, 4, 4, vec![0; 8]);
    let (mut p, mut c) = ring.split();
    let (_, mut c2) = other.split();
    p.write(&mut ring, &[1, 2, 3]);
    let grant = c.read(&ring);
    assert!(grant.is_current(&ring));
    assert!(!grant.is_current(&other));
    let empty_grant = c2.read(&other);
    assert!(!empty_grant.is_current(&ring));
}

#[test]
fn long_run_of_appends_and_drains_keeps_the_order() {
    let mut ring = fresh_ring(Layout::Ecc64, 16);
    let (mut p, mut c) = ring.split();
    let mut written: Vec<u8> = Vec::new();
    let mut drained: Vec<u8> = Vec::new();
    let mut next: u8 = 0;
    for round in 0..200usize {
        let count = round % 7;
        let mut message = Vec::new();
        for _ in 0..count {
            message.push(next);
            next = next.wrapping_add(1);
        }
        let room = 15 - c.read(&ring).granted();
        p.write(&mut ring, &message);
        let taken = count.min(room);
        written.extend_from_slice(&message[..taken]);
        if round % 3 == 0 {
            let grant = c.read(&ring);
            let (first, second) = grant.bufs(&ring);
            drained.extend_from_slice(first);
            drained.extend_from_slice(second);
            grant.release_all(&mut ring);
        }
        assert!(ring.data_len() == 16);
    }
    let grant = c.read(&ring);
    let (first, second) = grant.bufs(&ring);
    drained.extend_from_slice(first);
    drained.extend_from_slice(second);
    assert_eq!(drained, written);
}
