//! The recorded serial ports, the region dump and the drain.

use defmt_persist::layout::Layout;
use defmt_persist::ring_buffer::RingBuffer;
use defmt_persist::uart::{
    drain_to_uart, dump_persist_region, write_byte, write_byte_uart1, write_bytes,
    write_bytes_uart1, Serial,
};

#[test]
fn bytes_arrive_in_order_on_their_own_port() {
    let mut serial = Serial::new();
    assert_eq!(serial.uart0(), &[][..]);
    assert_eq!(serial.uart1(), &[][..]);
    write_byte(&mut serial, 1);
    write_bytes(&mut serial, &[2, 3, 4]);
    write_byte_uart1(&mut serial, 9);
    write_bytes(&mut serial, &[]);
    write_bytes_uart1(&mut serial, &[8, 7]);
    write_byte(&mut serial, 5);
    assert_eq!(serial.uart0(), &[1, 2, 3, 4, 5][..]);
    assert_eq!(serial.uart1(), &[9, 8, 7][..]);
}

#[test]
fn dump_is_the_region_byte_for_byte() {
    let mut ring = RingBuffer::new(Layout::Ecc64, 1, 1, vec![0; 7]);
    let (mut p, _c) = ring.split();
    p.write(&mut ring, &[0xAB, 0xCD]);
    let mut serial = Serial::new();
    write_byte_uart1(&mut serial, 0x11);
    dump_persist_region(&mut serial, &ring);
    assert_eq!(serial.uart1().len(), 1 + 48 + 7);
    assert_eq!(&serial.uart1()[1..], &ring.snapshot()[..]);
    assert_eq!(&serial.uart1()[1 + 48..], &[0, 0xAB, 0xCD, 0, 0, 0, 0][..]);
    assert_eq!(serial.uart0(), &[][..]);
}

#[test]
fn drain_sends_both_slices_and_empties_the_ring() {
    let mut ring = RingBuffer::new(Layout::Plain, 6, 6, vec![0; 8]);
    let (mut p, mut c) = ring.split();
    p.write(&mut ring, &[1, 2, 3, 4, 5]);
    let mut serial = Serial::new();
    write_bytes(&mut serial, &[0xFF]);
    drain_to_uart(&mut serial, &mut c, &mut ring);
    assert_eq!(serial.uart0(), &[0xFF, 1, 2, 3, 4, 5][..]);
    assert!(c.is_empty(&ring));
    drain_to_uart(&mut serial, &mut c, &mut ring);
    assert_eq!(serial.uart0(), &[0xFF, 1, 2, 3, 4, 5][..]);
    assert_eq!(serial.uart1(), &[][..]);
}
