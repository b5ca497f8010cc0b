//! The waker cell, and the wait for data built on it.

use defmt_persist::atomic_waker::AtomicWaker;
use defmt_persist::layout::Layout;
use defmt_persist::logger::{Logger, LoggerState};
use defmt_persist::ring_buffer::RingBuffer;
use std::sync::{Arc, Mutex};
use std::task::{Wake, Waker};

/// A task that counts how often it was woken.
struct Task {
    wakes: Mutex<usize>,
}

impl Wake for Task {
    fn wake(self: Arc<Self>) {
        *self.wakes.lock().unwrap() += 1;
    }
}

fn task() -> (Arc<Task>, Waker) {
    let task = Arc::new(Task {
        wakes: Mutex::new(0),
    });
    let waker = Waker::from(task.clone());
    (task, waker)
}

fn wakes(task: &Arc<Task>) -> usize {
    *task.wakes.lock().unwrap()
}

#[test]
fn new_cell_holds_no_waker() {
    let mut cell = AtomicWaker::new();
    assert!(!cell.has_waker());
    // A wake with nothing registered does nothing.
    cell.wake();
    assert!(!cell.has_waker());
}

#[test]
fn registered_waker_is_woken_once() {
    let (task, waker) = task();
    let mut cell = AtomicWaker::new();
    cell.register(&waker);
    assert!(cell.has_waker());
    assert_eq!(wakes(&task), 0);
    cell.wake();
    assert_eq!(wakes(&task), 1);
    assert!(!cell.has_waker());
    cell.wake();
    assert_eq!(wakes(&task), 1);
}

#[test]
fn later_registration_replaces_the_earlier_one() {
    let (first, first_waker) = task();
    let (second, second_waker) = task();
    let mut cell = AtomicWaker::new();
    cell.register(&first_waker);
    cell.register(&second_waker);
    cell.wake();
    assert_eq!(wakes(&first), 0);
    assert_eq!(wakes(&second), 1);
}

#[test]
fn registration_keeps_a_copy_of_the_waker() {
    let (task, waker) = task();
    let mut cell = AtomicWaker::new();
    cell.register(&waker);
    drop(waker);
    cell.wake();
    assert_eq!(wakes(&task), 1);
}

#[test]
fn wait_is_pending_exactly_on_an_empty_ring() {
    let (_task, waker) = task();
    let mut cell = AtomicWaker::new();
    let mut ring = RingBuffer::recover_or_reinitialize(Layout::Plain, vec![0; 48 + 16]);
    let (mut p, mut c) = ring.split();
    assert!(!c.wait_for_data(&ring, &mut cell, &waker));
    assert!(cell.has_waker());
    p.write(&mut ring, &[1]);
    assert!(c.wait_for_data(&ring, &mut cell, &waker));
    c.read(&ring).release_all(&mut ring);
    assert!(!c.wait_for_data(&ring, &mut cell, &waker));
}

#[test]
fn three_frames_reach_the_waiting_reader_in_order() {
    let (reader, waker) = task();
    let mut cell = AtomicWaker::new();
    let mut ring = RingBuffer::recover_or_reinitialize(Layout::Plain, vec![0; 48 + 32]);
    let (producer, mut consumer) = ring.split();
    let mut state = LoggerState::new();
    state.initialize(producer);

    let mut sent: Vec<u8> = Vec::new();
    let mut received: Vec<Vec<u8>> = Vec::new();
    for message in [&b"message 1"[..], &b"message 2"[..], &b"message 3"[..]] {
        // The reader polls first and finds nothing.
        assert!(!consumer.wait_for_data(&ring, &mut cell, &waker));
        let woken_before = wakes(&reader);

        // The writer logs one frame and wakes the reader.
        assert!(Logger::acquire(&mut state));
        sent.extend(Logger::start_frame(&mut state, Some(&mut ring)));
        sent.extend(Logger::write(&mut state, Some(&mut ring), message));
        let closing = Logger::release(&mut state, Some(&mut ring));
        sent.extend(closing.unwrap_or_default());
        cell.wake();
        assert_eq!(wakes(&reader), woken_before + 1);

        // The reader polls again, reads all there is and releases it.
        assert!(consumer.wait_for_data(&ring, &mut cell, &waker));
        let grant = consumer.read(&ring);
        let (first, second) = grant.bufs(&ring);
        let mut frame = first.to_vec();
        frame.extend_from_slice(second);
        grant.release_all(&mut ring);
        received.push(frame);
    }
    assert_eq!(received.len(), 3);
    assert_eq!(received.concat(), sent);
    assert_eq!(received[1], b"message 2\x82\x00".to_vec());
    assert_eq!(wakes(&reader), 3);
}
