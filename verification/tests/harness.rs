//! Corruption scenarios of the harness, and what bring-up makes of them.

use defmt_persist::harness::corrupt::{apply_corruption, CorruptFlags};
use defmt_persist::layout::{Layout, HEADER_SIZE};
use defmt_persist::ring_buffer::{Consumer, RingBuffer};

fn flags(header: bool, read: bool, write: bool) -> CorruptFlags {
    CorruptFlags {
        header,
        read,
        write,
    }
}

fn snapshot(layout: Layout) -> Vec<u8> {
    let mut ring = RingBuffer::recover_or_reinitialize(layout, vec![0; HEADER_SIZE + 16]);
    let (mut p, _c) = ring.split();
    p.write(&mut ring, &[1, 2, 3, 4, 5]);
    ring.snapshot()
}

fn readable(ring: &RingBuffer, c: &mut Consumer) -> Vec<u8> {
    let grant = c.read(ring);
    let (first, second) = grant.bufs(ring);
    let mut all = first.to_vec();
    all.extend_from_slice(second);
    all
}

#[test]
fn scenario_names() {
    assert_eq!(flags(false, false, false).name(), "none");
    assert_eq!(flags(true, false, false).name(), "header");
    assert_eq!(flags(false, true, false).name(), "read");
    assert_eq!(flags(false, false, true).name(), "write");
    assert_eq!(flags(true, true, false).name(), "header+read");
    assert_eq!(flags(true, false, true).name(), "header+write");
    assert_eq!(flags(false, true, true).name(), "read+write");
    assert_eq!(flags(true, true, true).name(), "header+read+write");
}

#[test]
fn eight_scenarios_in_running_order() {
    let all = CorruptFlags::all_combinations();
    let names: Vec<String> = all.iter().map(|f| f.name()).collect();
    assert_eq!(
        names,
        [
            "none",
            "header",
            "read",
            "write",
            "header+read",
            "header+write",
            "read+write",
            "header+read+write"
        ]
    );
    assert!(!all[0].any());
    assert!(all[1..].iter().all(|f| f.any()));
    for f in all {
        assert_eq!(f.causes_reinit(), f.header);
    }
}

#[test]
fn corruption_touches_the_named_bytes_only() {
    let clean = snapshot(Layout::Plain);
    assert_eq!(apply_corruption(Layout::Plain, &clean, flags(false, false, false)), clean);
    let damaged = apply_corruption(Layout::Plain, &clean, flags(true, true, true));
    let changed: Vec<usize> = (0..clean.len()).filter(|&i| damaged[i] != clean[i]).collect();
    assert_eq!(changed, vec![0, 35, 39]);
    assert_eq!((damaged[0], damaged[35], damaged[39]), (0, 0xFF, 0xFF));

    let clean = snapshot(Layout::Ecc64);
    let damaged = apply_corruption(Layout::Ecc64, &clean, flags(false, true, true));
    let changed: Vec<usize> = (0..clean.len()).filter(|&i| damaged[i] != clean[i]).collect();
    assert_eq!(changed, vec![35, 43]);
}

#[test]
fn every_corruption_presents_an_empty_ring() {
    for layout in [Layout::Plain, Layout::Ecc32, Layout::Ecc64] {
        let clean = snapshot(layout);
        for scenario in CorruptFlags::all_combinations() {
            let damaged = apply_corruption(layout, &clean, scenario);
            let mut ring = RingBuffer::recover_or_reinitialize(layout, damaged);
            let (mut p, mut c) = ring.split();
            if scenario.any() {
                assert_eq!(readable(&ring, &mut c), Vec::<u8>::new());
            } else {
                assert_eq!(readable(&ring, &mut c), vec![1, 2, 3, 4, 5]);
            }
            // The data area is never touched, and appends succeed.
            assert_eq!(&ring.snapshot()[HEADER_SIZE..], &clean[HEADER_SIZE..]);
            let before = readable(&ring, &mut c).len();
            p.write(&mut ring, &[42]);
            assert_eq!(readable(&ring, &mut c).len(), before + 1);
        }
    }
}
