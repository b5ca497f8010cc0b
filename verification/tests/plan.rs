//! The stores of bring-up one by one, and the order of the write-back.

use defmt_persist::layout::{Layout, HEADER_SIZE, READ, WRITE};
use defmt_persist::logger::{Logger, LoggerState};
use defmt_persist::recovery::{perform, perform_all, recovery_plan, FieldStore};
use defmt_persist::region::{load_header, load_index, write_back_order, Index};
use defmt_persist::ring_buffer::{Consumer, RingBuffer};

const LAYOUTS: [Layout; 3] = [Layout::Plain, Layout::Ecc32, Layout::Ecc64];

fn write_offset(layout: Layout) -> usize {
    layout.write_offset()
}

fn written(layout: Layout, bytes: &[u8]) -> Vec<u8> {
    let mut ring = RingBuffer::recover_or_reinitialize(layout, vec![0; HEADER_SIZE + 8]);
    let (mut p, _c) = ring.split();
    p.write(&mut ring, bytes);
    ring.snapshot()
}

fn readable(ring: &RingBuffer, consumer: &mut Consumer) -> Vec<u8> {
    let grant = consumer.read(ring);
    let (first, second) = grant.bufs(ring);
    let mut all = first.to_vec();
    all.extend_from_slice(second);
    all
}

fn comes_up_holding(layout: Layout, memory: Vec<u8>) -> Vec<u8> {
    let mut ring = RingBuffer::recover_or_reinitialize(layout, memory);
    let (_p, mut c) = ring.split();
    readable(&ring, &mut c)
}

#[test]
fn plan_of_every_kind_of_region() {
    for layout in LAYOUTS {
        let garbage = vec![0xC3; HEADER_SIZE + 8];
        assert_eq!(
            recovery_plan(layout, &garbage),
            vec![
                FieldStore::Read(0),
                FieldStore::Write(0),
                FieldStore::Header(layout.magic())
            ]
        );
        let valid = written(layout, &[1, 2, 3]);
        assert_eq!(recovery_plan(layout, &valid), vec![]);

        let mut read_bad = valid.clone();
        read_bad[READ + 3] = 0xFF;
        assert_eq!(recovery_plan(layout, &read_bad), vec![FieldStore::Read(3)]);

        let mut write_bad = valid.clone();
        write_bad[write_offset(layout) + 3] = 0xFF;
        assert_eq!(recovery_plan(layout, &write_bad), vec![FieldStore::Write(0)]);

        let mut both_bad = read_bad.clone();
        both_bad[write_offset(layout) + 3] = 0xFF;
        assert_eq!(
            recovery_plan(layout, &both_bad),
            vec![FieldStore::Read(0), FieldStore::Write(0)]
        );
    }
}

#[test]
fn stores_performed_one_by_one_end_where_bring_up_ends() {
    for layout in LAYOUTS {
        let mut both_bad = written(layout, &[1, 2, 3]);
        both_bad[READ + 3] = 0xFF;
        both_bad[write_offset(layout) + 3] = 0xFF;
        for memory in [vec![0x3C; HEADER_SIZE + 8], both_bad] {
            let whole = RingBuffer::recover_or_reinitialize(layout, memory.clone()).snapshot();
            let plan = recovery_plan(layout, &memory);
            let mut stepwise = memory.clone();
            for store in plan.iter() {
                perform(layout, &mut stepwise, *store);
                // A reset after any store leaves a region that comes up alike.
                let again = RingBuffer::recover_or_reinitialize(layout, stepwise.clone());
                assert_eq!(again.snapshot(), whole);
            }
            assert_eq!(stepwise, whole);
            let mut at_once = memory.clone();
            perform_all(layout, &mut at_once, &plan);
            assert_eq!(at_once, whole);
        }
    }
}

#[test]
fn one_store_changes_one_field() {
    let blank = vec![0x11; HEADER_SIZE + 4];
    let mut image = blank.clone();
    perform(Layout::Plain, &mut image, FieldStore::Write(0x0403_0201));
    let changed: Vec<usize> = (0..image.len()).filter(|&i| image[i] != blank[i]).collect();
    assert_eq!(changed, vec![WRITE, WRITE + 1, WRITE + 2, WRITE + 3]);
    assert_eq!(load_index(Layout::Plain, &image, Index::Write), 0x0403_0201);
    perform(Layout::Plain, &mut image, FieldStore::Read(7));
    assert_eq!(load_index(Layout::Plain, &image, Index::Read), 7);
    perform(Layout::Plain, &mut image, FieldStore::Header(0xABCD));
    assert_eq!(load_header(&image), 0xABCD);
    assert_eq!(load_index(Layout::Plain, &image, Index::Write), 0x0403_0201);
}

#[test]
fn write_back_order_of_each_layout() {
    assert_eq!(
        write_back_order(Layout::Plain, 100),
        vec![(48, 100), (16, 32), (32, 36), (36, 48), (0, 16)]
    );
    assert_eq!(
        write_back_order(Layout::Ecc32, 49),
        vec![(48, 49), (16, 32), (32, 36), (36, 48), (0, 16)]
    );
    assert_eq!(
        write_back_order(Layout::Ecc64, 64),
        vec![(48, 64), (16, 32), (32, 40), (40, 48), (0, 16)]
    );
    assert_eq!(write_back_order(Layout::Plain, 48)[0], (48, 48));
}

#[test]
fn append_is_readable_only_once_it_is_all_in_memory() {
    for layout in LAYOUTS {
        let mut ring = RingBuffer::new(layout, 6, 6, vec![0; 8]);
        let (mut p, _c) = ring.split();
        p.write(&mut ring, &[1, 2]);
        let before = ring.snapshot();
        p.write(&mut ring, &[3, 4, 5]);
        let after = ring.snapshot();

        let mut memory = before.clone();
        let parts = write_back_order(layout, after.len());
        for (done, (start, end)) in parts.iter().enumerate() {
            memory[*start..*end].copy_from_slice(&after[*start..*end]);
            let held = comes_up_holding(layout, memory.clone());
            if done < 3 {
                assert_eq!(held, vec![1, 2]);
            } else {
                assert_eq!(held, vec![1, 2, 3, 4, 5]);
            }
        }
        assert_eq!(memory, after);
    }
}

#[test]
fn fresh_bring_up_carried_to_memory_never_vouches_for_garbage() {
    for layout in LAYOUTS {
        let garbage: Vec<u8> = (0..HEADER_SIZE + 8).map(|i| (i * 29 + 3) as u8).collect();
        let after = RingBuffer::recover_or_reinitialize(layout, garbage.clone()).snapshot();
        let mut memory = garbage.clone();
        for (start, end) in write_back_order(layout, after.len()) {
            memory[start..end].copy_from_slice(&after[start..end]);
            assert_eq!(comes_up_holding(layout, memory.clone()), Vec::<u8>::new());
            assert_eq!(
                RingBuffer::recover_or_reinitialize(layout, memory.clone()).snapshot(),
                after
            );
        }
    }
}

#[test]
fn frontend_works_before_a_region_is_in_service() {
    let mut state = LoggerState::new();
    assert!(Logger::acquire(&mut state));
    assert_eq!(Logger::start_frame(&mut state, None), vec![0x00]);
    assert_eq!(Logger::write(&mut state, None, &[1, 2]), vec![1, 2]);
    // A nested operation is dropped.
    assert!(!Logger::acquire(&mut state));
    assert_eq!(Logger::write(&mut state, None, &[9]), Vec::<u8>::new());
    assert_eq!(Logger::release(&mut state, None), None);
    assert_eq!(Logger::release(&mut state, None), Some(vec![0x7C, 0x00]));
    // The operations are balanced: the next one is an outermost one again.
    assert!(Logger::acquire(&mut state));
    assert_eq!(Logger::start_frame(&mut state, None), Vec::<u8>::new());
    assert_eq!(Logger::release(&mut state, None), Some(vec![0x00]));
}

#[test]
fn frames_are_the_same_with_and_without_a_ring() {
    let mut with = LoggerState::new();
    let mut without = LoggerState::new();
    let mut ring = RingBuffer::recover_or_reinitialize(Layout::Plain, vec![0; HEADER_SIZE + 64]);
    let (producer, mut consumer) = ring.split();
    with.initialize(producer);
    let mut sent = Vec::new();
    for message in [&[1u8, 0, 2][..], &[0, 0, 0, 0, 0, 0, 0, 0][..], &[][..]] {
        assert!(Logger::acquire(&mut with));
        assert!(Logger::acquire(&mut without));
        let a = Logger::start_frame(&mut with, Some(&mut ring));
        assert_eq!(a, Logger::start_frame(&mut without, None));
        let b = Logger::write(&mut with, Some(&mut ring), message);
        assert_eq!(b, Logger::write(&mut without, None, message));
        let c = Logger::release(&mut with, Some(&mut ring));
        assert_eq!(c, Logger::release(&mut without, None));
        sent.extend(a);
        sent.extend(b);
        sent.extend(c.unwrap_or_default());
    }
    assert_eq!(readable(&ring, &mut consumer), sent);
}
