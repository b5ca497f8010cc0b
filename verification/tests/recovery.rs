//! Bring-up of regions in every state, in all three layouts.

use defmt_persist::layout::{
    Layout, HEADER, HEADER_SIZE, INDEX_SIZE, MAGIC_ECC32, MAGIC_ECC64, MAGIC_PLAIN, READ, WRITE,
    WRITE_PADDED,
};
use defmt_persist::region::{load_header, load_index, Identifier, Index};
use defmt_persist::ring_buffer::{Consumer, RingBuffer};
use defmt_persist::ring_view::RegionState;

const LAYOUTS: [Layout; 3] = [Layout::Plain, Layout::Ecc32, Layout::Ecc64];

fn write_offset(layout: Layout) -> usize {
    match layout {
        Layout::Ecc64 => WRITE_PADDED,
        _ => WRITE,
    }
}

fn indices(layout: Layout, image: &Vec<u8>) -> (u32, u32) {
    (
        load_index(layout, image, Index::Read),
        load_index(layout, image, Index::Write),
    )
}

fn readable(ring: &RingBuffer, consumer: &mut Consumer) -> Vec<u8> {
    let grant = consumer.read(ring);
    let (first, second) = grant.bufs(ring);
    let mut all = first.to_vec();
    all.extend_from_slice(second);
    all
}

/// What a ring that still has its ends holds, read through its consumer.
fn found_in(ring: &mut RingBuffer) -> Vec<u8> {
    assert!(!ring.is_split());
    let (_p, mut c) = ring.split();
    assert!(ring.is_split());
    readable(ring, &mut c)
}

/// A region that a first run has written `bytes` to, dumped byte for byte.
fn written_snapshot(layout: Layout, data_len: usize, bytes: &[u8]) -> Vec<u8> {
    let mut ring = RingBuffer::recover_or_reinitialize(layout, vec![0; HEADER_SIZE + data_len]);
    let (mut p, _c) = ring.split();
    p.write(&mut ring, bytes);
    ring.snapshot()
}

#[test]
fn magic_numbers_lie_little_endian_at_the_start() {
    for (layout, magic) in [
        (Layout::Plain, MAGIC_PLAIN),
        (Layout::Ecc32, MAGIC_ECC32),
        (Layout::Ecc64, MAGIC_ECC64),
    ] {
        let ring = RingBuffer::recover_or_reinitialize(layout, vec![0xEE; 64]);
        let image = ring.snapshot();
        assert_eq!(&image[HEADER..HEADER + 16], &magic.to_le_bytes()[..]);
        assert_eq!(load_header(&image), magic);
        assert_eq!(layout.magic(), magic);
    }
    assert_eq!(MAGIC_PLAIN, 0xb528_c25f_90c6_16af_cbc1_502c_09c1_fd6e);
    assert_eq!(MAGIC_ECC64, 0x1dff_2060_27b9_f2b4_a194_1013_69cd_3c6c);
}

#[test]
fn garbage_comes_up_as_an_empty_ring() {
    for layout in LAYOUTS {
        let memory: Vec<u8> = (0..HEADER_SIZE + 8).map(|i| (i * 37 + 11) as u8).collect();
        assert_eq!(RingBuffer::classify(layout, &memory), RegionState::Fresh);
        let mut ring = RingBuffer::recover_or_reinitialize(layout, memory.clone());
        let image = ring.snapshot();
        assert_eq!(indices(layout, &image), (0, 0));
        assert_eq!(load_header(&image), layout.magic());
        // The identifier and the data area are left as they were found.
        assert_eq!(&image[16..32], &memory[16..32]);
        assert_eq!(&image[HEADER_SIZE..], &memory[HEADER_SIZE..]);
        assert_eq!(found_in(&mut ring), Vec::<u8>::new());
        assert_eq!(ring.data_len(), 8);
    }
}

#[test]
fn snapshot_of_a_written_ring_is_read_after_the_reset() {
    for layout in LAYOUTS {
        let snapshot = written_snapshot(layout, 8, &[10, 20, 30, 40, 50]);
        assert_eq!(RingBuffer::classify(layout, &snapshot), RegionState::Valid);
        let mut ring = RingBuffer::recover_or_reinitialize(layout, snapshot.clone());
        assert_eq!(found_in(&mut ring), vec![10, 20, 30, 40, 50]);
        assert_eq!(ring.snapshot(), snapshot);
    }
}

#[test]
fn snapshot_keeps_no_more_than_the_ring_took() {
    let snapshot = written_snapshot(Layout::Plain, 4, &[1, 2, 3, 4, 5, 6, 7]);
    let mut ring = RingBuffer::recover_or_reinitialize(Layout::Plain, snapshot);
    assert_eq!(found_in(&mut ring), vec![1, 2, 3]);
}

#[test]
fn foreign_header_makes_the_region_fresh() {
    for layout in LAYOUTS {
        for stamp in [0u128, 1, u128::MAX, layout.magic() ^ 1, layout.magic() ^ (1 << 127)] {
            let mut snapshot = written_snapshot(layout, 8, &[1, 2, 3]);
            snapshot[HEADER..HEADER + 16].copy_from_slice(&stamp.to_le_bytes());
            assert_eq!(RingBuffer::classify(layout, &snapshot), RegionState::Fresh);
            let mut ring = RingBuffer::recover_or_reinitialize(layout, snapshot);
            assert_eq!(found_in(&mut ring), Vec::<u8>::new());
            assert_eq!(indices(layout, &ring.snapshot()), (0, 0));
            assert_eq!(load_header(&ring.snapshot()), layout.magic());
        }
    }
}

#[test]
fn region_of_another_layout_is_fresh() {
    let snapshot = written_snapshot(Layout::Plain, 8, &[1, 2, 3]);
    for layout in [Layout::Ecc32, Layout::Ecc64] {
        assert_eq!(RingBuffer::classify(layout, &snapshot), RegionState::Fresh);
        let mut ring = RingBuffer::recover_or_reinitialize(layout, snapshot.clone());
        assert_eq!(found_in(&mut ring), Vec::<u8>::new());
    }
}

#[test]
fn read_index_out_of_range_takes_the_write_index() {
    for layout in LAYOUTS {
        let mut snapshot = written_snapshot(layout, 8, &[1, 2, 3]);
        snapshot[READ + INDEX_SIZE - 1] = 0xFF;
        assert_eq!(RingBuffer::classify(layout, &snapshot), RegionState::Repairable);
        let mut ring = RingBuffer::recover_or_reinitialize(layout, snapshot);
        let image = ring.snapshot();
        assert_eq!(indices(layout, &image), (3, 3));
        assert_eq!(load_header(&image), layout.magic());
        let (mut p, mut c) = ring.split();
        assert_eq!(readable(&ring, &mut c), Vec::<u8>::new());
        // Appends succeed afterwards, with all slots but one free.
        p.write(&mut ring, &[9, 8, 7, 6, 5, 4, 3, 2, 1]);
        assert_eq!(readable(&ring, &mut c), vec![9, 8, 7, 6, 5, 4, 3]);
    }
}

#[test]
fn write_index_out_of_range_takes_the_read_index() {
    for layout in LAYOUTS {
        let mut ring = RingBuffer::new(layout, 5, 7, vec![0; 8]);
        let mut snapshot = ring.snapshot();
        assert_eq!(found_in(&mut ring).len(), 2);
        snapshot[write_offset(layout) + INDEX_SIZE - 1] = 0xFF;
        assert_eq!(RingBuffer::classify(layout, &snapshot), RegionState::Repairable);
        let mut ring = RingBuffer::recover_or_reinitialize(layout, snapshot);
        assert_eq!(indices(layout, &ring.snapshot()), (5, 5));
        assert_eq!(found_in(&mut ring), Vec::<u8>::new());
    }
}

#[test]
fn both_indices_out_of_range_become_zero() {
    for layout in LAYOUTS {
        let mut snapshot = written_snapshot(layout, 8, &[1, 2, 3]);
        snapshot[READ + INDEX_SIZE - 1] = 0xFF;
        snapshot[write_offset(layout) + INDEX_SIZE - 1] = 0xFF;
        assert_eq!(RingBuffer::classify(layout, &snapshot), RegionState::Repairable);
        let mut ring = RingBuffer::recover_or_reinitialize(layout, snapshot);
        assert_eq!(indices(layout, &ring.snapshot()), (0, 0));
        assert_eq!(load_header(&ring.snapshot()), layout.magic());
        assert_eq!(found_in(&mut ring), Vec::<u8>::new());
    }
}

#[test]
fn index_equal_to_the_data_length_is_out_of_range() {
    let mut ring = RingBuffer::new(Layout::Plain, 2, 6, vec![0; 8]);
    let mut snapshot = ring.snapshot();
    assert_eq!(found_in(&mut ring).len(), 4);
    snapshot[WRITE..WRITE + 4].copy_from_slice(&8u32.to_le_bytes());
    assert_eq!(
        RingBuffer::classify(Layout::Plain, &snapshot),
        RegionState::Repairable
    );
    let ring = RingBuffer::recover_or_reinitialize(Layout::Plain, snapshot.clone());
    assert_eq!(indices(Layout::Plain, &ring.snapshot()), (2, 2));
    snapshot[WRITE..WRITE + 4].copy_from_slice(&7u32.to_le_bytes());
    assert_eq!(
        RingBuffer::classify(Layout::Plain, &snapshot),
        RegionState::Valid
    );
    let ring = RingBuffer::recover_or_reinitialize(Layout::Plain, snapshot);
    assert_eq!(indices(Layout::Plain, &ring.snapshot()), (2, 7));
}

#[test]
fn repair_never_touches_the_data_area() {
    for layout in LAYOUTS {
        let mut snapshot = written_snapshot(layout, 8, &[1, 2, 3, 4, 5]);
        snapshot[READ + INDEX_SIZE - 1] = 0xFF;
        let ring = RingBuffer::recover_or_reinitialize(layout, snapshot.clone());
        assert_eq!(&ring.snapshot()[HEADER_SIZE..], &snapshot[HEADER_SIZE..]);
        assert_eq!(&ring.snapshot()[..32], &snapshot[..32]);
    }
}

#[test]
fn interrupted_fresh_bring_up_ends_where_the_whole_one_does() {
    // The stores of a fresh bring-up are read, write, header. A reset after
    // any of them leaves an image that comes up as the same empty ring.
    let layout = Layout::Plain;
    let garbage: Vec<u8> = (0..HEADER_SIZE + 4).map(|i| (255 - i) as u8).collect();
    let whole = RingBuffer::recover_or_reinitialize(layout, garbage.clone()).snapshot();
    let mut after_read = garbage.clone();
    after_read[READ..READ + 4].copy_from_slice(&0u32.to_le_bytes());
    let mut after_write = after_read.clone();
    after_write[WRITE..WRITE + 4].copy_from_slice(&0u32.to_le_bytes());
    for interrupted in [garbage, after_read, after_write, whole.clone()] {
        let ring = RingBuffer::recover_or_reinitialize(layout, interrupted);
        assert_eq!(ring.snapshot(), whole);
    }
}

#[test]
fn interrupted_repair_of_both_indices_still_comes_up_empty() {
    let layout = Layout::Plain;
    let mut broken = written_snapshot(layout, 8, &[1, 2, 3]);
    broken[READ + 3] = 0xFF;
    broken[WRITE + 3] = 0xFF;
    let whole = RingBuffer::recover_or_reinitialize(layout, broken.clone()).snapshot();
    let mut after_read = broken.clone();
    after_read[READ..READ + 4].copy_from_slice(&0u32.to_le_bytes());
    assert_eq!(
        RingBuffer::classify(layout, &after_read),
        RegionState::Repairable
    );
    let ring = RingBuffer::recover_or_reinitialize(layout, after_read);
    assert_eq!(ring.snapshot(), whole);
    assert_eq!(indices(layout, &whole), (0, 0));
}

#[test]
fn flush_cells_are_zero_after_every_store() {
    let memory = vec![0xFF; HEADER_SIZE + 8];
    let ring = RingBuffer::recover_or_reinitialize(Layout::Ecc32, memory.clone());
    assert_eq!(ring.snapshot()[40], 0);
    let mut ring = RingBuffer::recover_or_reinitialize(Layout::Ecc64, memory.clone());
    assert_eq!(&ring.snapshot()[36..40], &[0; 4]);
    assert_eq!(&ring.snapshot()[44..48], &[0; 4]);
    let (mut p, mut c) = ring.split();
    p.write(&mut ring, &[1, 2, 3]);
    c.read(&ring).release(&mut ring, 2);
    let image = ring.snapshot();
    assert_eq!(indices(Layout::Ecc64, &image), (2, 3));
    assert_eq!(&image[36..40], &[0; 4]);
    assert_eq!(&image[44..48], &[0; 4]);
    // The plain layout writes nothing but its fields.
    let ring = RingBuffer::recover_or_reinitialize(Layout::Plain, memory);
    assert_eq!(&ring.snapshot()[40..48], &[0xFF; 8]);
}

#[test]
fn identifier_is_kept_by_bring_up_and_replaced_on_demand() {
    let mut memory = vec![0; HEADER_SIZE + 4];
    for i in 0..16 {
        memory[16 + i] = 100 + i as u8;
    }
    let mut ring = RingBuffer::recover_or_reinitialize(Layout::Plain, memory);
    let found = ring.identifier();
    assert_eq!(
        found,
        Identifier([100, 101, 102, 103, 104, 105, 106, 107, 108, 109, 110, 111, 112, 113, 114, 115])
    );
    let (mut p, mut c) = ring.split();
    p.write(&mut ring, &[1, 2]);
    ring.set_identifier(&Identifier([7; 16]));
    assert_eq!(c.identifier(&ring), Identifier([7; 16]));
    assert_eq!(&ring.snapshot()[16..32], &[7; 16]);
    assert_eq!(readable(&ring, &mut c), vec![1, 2]);
}
