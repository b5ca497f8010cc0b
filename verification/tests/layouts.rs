//! The flows of the ring in every layout and on two sizes of the data area.

use defmt_persist::layout::Layout;
use defmt_persist::ring_buffer::{Consumer, RingBuffer};

const CASES: [(Layout, usize); 6] = [
    (Layout::Plain, 4),
    (Layout::Plain, 16),
    (Layout::Ecc32, 4),
    (Layout::Ecc32, 16),
    (Layout::Ecc64, 8),
    (Layout::Ecc64, 16),
];

fn ring_at(layout: Layout, size: usize, position: usize) -> RingBuffer {
    let at = u32::try_from(position).unwrap();
    RingBuffer::new(layout, at, at, vec![0; size])
}

fn slices(ring: &RingBuffer, consumer: &mut Consumer) -> (Vec<u8>, Vec<u8>) {
    let grant = consumer.read(ring);
    let (first, second) = grant.bufs(ring);
    (first.to_vec(), second.to_vec())
}

#[test]
fn fill_crossing_end_in_every_layout() {
    for (layout, size) in CASES {
        let mut ring = ring_at(layout, size, size - 2);
        let (mut p, mut c) = ring.split();
        p.write(&mut ring, &[1, 2, 3]);
        assert_eq!(slices(&ring, &mut c), (vec![1, 2], vec![3]));
        c.read(&ring).release(&mut ring, 2);
        assert_eq!(slices(&ring, &mut c), (vec![3], vec![]));
        c.read(&ring).release(&mut ring, 1);
        assert_eq!(slices(&ring, &mut c), (vec![], vec![]));
    }
}

#[test]
fn overfill_in_every_layout() {
    for (layout, size) in CASES {
        for position in 0..size {
            let mut ring = ring_at(layout, size, position);
            let (mut p, mut c) = ring.split();
            let message: Vec<u8> = (1..=40).collect();
            p.write(&mut ring, &message);
            let (first, second) = slices(&ring, &mut c);
            assert_eq!(first.len() + second.len(), size - 1);
            assert_eq!(first.len(), (size - position).min(size - 1));
            let mut all = first;
            all.extend(second);
            assert_eq!(all, message[..size - 1].to_vec());
            c.read(&ring).release(&mut ring, size - 1);
            assert!(c.is_empty(&ring));
        }
    }
}

#[test]
fn partial_and_zero_release_in_every_layout() {
    for (layout, size) in CASES {
        let mut ring = ring_at(layout, size, size / 2);
        let (mut p, mut c) = ring.split();
        p.write(&mut ring, &[1, 2]);
        c.read(&ring).release(&mut ring, 0);
        assert_eq!(slices(&ring, &mut c), (vec![1, 2], vec![]));
        c.read(&ring).release(&mut ring, 1);
        assert_eq!(slices(&ring, &mut c), (vec![2], vec![]));
        c.read(&ring).release_all(&mut ring);
        assert_eq!(slices(&ring, &mut c), (vec![], vec![]));
    }
}

#[test]
fn every_state_of_a_small_ring_survives_a_reset() {
    for (layout, size) in CASES {
        for read in 0..size {
            for write in 0..size {
                let data: Vec<u8> = (0..size).map(|i| u8::try_from(i * 3 + 1).unwrap()).collect();
                let mut ring = RingBuffer::new(
                    layout,
                    u32::try_from(read).unwrap(),
                    u32::try_from(write).unwrap(),
                    data.clone(),
                );
                let (_p, mut c) = ring.split();
                let before = slices(&ring, &mut c);
                let mut expected = Vec::new();
                let mut at = read;
                while at != write {
                    expected.push(data[at]);
                    at = (at + 1) % size;
                }
                let mut all = before.0.clone();
                all.extend(before.1.clone());
                assert_eq!(all, expected);

                let mut again = RingBuffer::recover_or_reinitialize(layout, ring.snapshot());
                let (_p, mut c) = again.split();
                assert_eq!(slices(&again, &mut c), before);
            }
        }
    }
}
