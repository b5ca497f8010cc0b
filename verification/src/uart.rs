//! The two serial ports of the test board, as the harness sees them.
//!
//! What firmware sends on a port arrives at the host as a stream of bytes.
//! [`Serial`] records both streams. The first port carries the log that is
//! drained from the ring, the second one the raw dump of the persist region
//! that a later run is started from.

use crate::ring_buffer::{Consumer, RingBuffer};
use crate::ring_laws::{lemma_release, lemma_slices};
use vstd::prelude::*;

verus! {

/// The bytes sent on the two ports, in the order they were sent.
pub struct Serial {
    uart0: Vec<u8>,
    uart1: Vec<u8>,
}

/// One of the ports.
#[derive(Clone, Copy, Debug, PartialEq, Eq, Structural)]
pub enum Port {
    /// The port that carries the drained log.
    Uart0,
    /// The port that carries the dump of the persist region.
    Uart1,
}

/// Sends one byte on a port.
fn uart_write_byte(serial: &mut Serial, port: Port, byte: u8)
    ensures
        port == Port::Uart0 ==> final(serial).sent0() == old(serial).sent0().push(byte)
            && final(serial).sent1() == old(serial).sent1(),
        port == Port::Uart1 ==> final(serial).sent1() == old(serial).sent1().push(byte)
            && final(serial).sent0() == old(serial).sent0(),
{
    match port {
        Port::Uart0 => serial.uart0.push(byte),
        Port::Uart1 => serial.uart1.push(byte),
    }
}

impl Serial {
    /// What was sent on the first port.
    pub closed spec fn sent0(&self) -> Seq<u8> {
        self.uart0@
    }

    /// What was sent on the second port.
    pub closed spec fn sent1(&self) -> Seq<u8> {
        self.uart1@
    }

    /// Two ports on which nothing was sent yet.
    pub fn new() -> (serial: Serial)
        ensures
            serial.sent0() == Seq::<u8>::empty(),
            serial.sent1() == Seq::<u8>::empty(),
    {
        Serial { uart0: Vec::new(), uart1: Vec::new() }
    }

    /// What was sent on the first port.
    pub fn uart0(&self) -> (sent: &[u8])
        ensures
            sent@ == self.sent0(),
    {
        self.uart0.as_slice()
    }

    /// What was sent on the second port.
    pub fn uart1(&self) -> (sent: &[u8])
        ensures
            sent@ == self.sent1(),
    {
        self.uart1.as_slice()
    }
}

/// Sends one byte on the first port.
pub fn write_byte(serial: &mut Serial, byte: u8)
    ensures
        final(serial).sent0() == old(serial).sent0().push(byte),
        final(serial).sent1() == old(serial).sent1(),
{
    uart_write_byte(serial, Port::Uart0, byte);
}

/// Sends a run of bytes on the first port, in order.
pub fn write_bytes(serial: &mut Serial, bytes: &[u8])
    ensures
        final(serial).sent0() == old(serial).sent0() + bytes@,
        final(serial).sent1() == old(serial).sent1(),
{
    let ghost before = serial.sent0();
    let mut i: usize = 0;
    while i < bytes.len()
        invariant
            i <= bytes.len(),
            serial.sent0() == before + bytes@.take(i as int),
            serial.sent1() == old(serial).sent1(),
        decreases bytes.len() - i,
    {
        write_byte(serial, bytes[i]);
        i = i + 1;
        proof {
            assert(serial.sent0() =~= before + bytes@.take(i as int));
        }
    }
    proof {
        assert(bytes@.take(bytes.len() as int) =~= bytes@);
    }
}

/// Sends one byte on the second port.
pub fn write_byte_uart1(serial: &mut Serial, byte: u8)
    ensures
        final(serial).sent1() == old(serial).sent1().push(byte),
        final(serial).sent0() == old(serial).sent0(),
{
    uart_write_byte(serial, Port::Uart1, byte);
}

/// Sends a run of bytes on the second port, in order.
pub fn write_bytes_uart1(serial: &mut Serial, bytes: &[u8])
    ensures
        final(serial).sent1() == old(serial).sent1() + bytes@,
        final(serial).sent0() == old(serial).sent0(),
{
    let ghost before = serial.sent1();
    let mut i: usize = 0;
    while i < bytes.len()
        invariant
            i <= bytes.len(),
            serial.sent1() == before + bytes@.take(i as int),
            serial.sent0() == old(serial).sent0(),
        decreases bytes.len() - i,
    {
        write_byte_uart1(serial, bytes[i]);
        i = i + 1;
        proof {
            assert(serial.sent1() =~= before + bytes@.take(i as int));
        }
    }
    proof {
        assert(bytes@.take(bytes.len() as int) =~= bytes@);
    }
}

/// Dumps the persist region on the second port, byte for byte. A later run
/// that is started on this dump finds what this run has left in the ring.
pub fn dump_persist_region(serial: &mut Serial, ring: &RingBuffer)
    ensures
        final(serial).sent1() == old(serial).sent1() + ring.image(),
        final(serial).sent0() == old(serial).sent0(),
{
    let image = ring.snapshot();
    write_bytes_uart1(serial, image.as_slice());
}

/// Sends all that waits in the ring on the first port and releases it. The
/// ring is empty afterwards, and the port has carried the readable bytes in
/// the order they were written.
pub fn drain_to_uart(serial: &mut Serial, consumer: &mut Consumer, ring: &mut RingBuffer)
    ensures
        final(serial).sent0() == old(serial).sent0() + old(ring)@.contents(),
        final(serial).sent1() == old(serial).sent1(),
        final(ring)@ == old(ring)@.release(old(ring)@.readable()),
        final(ring)@.is_empty(),
        final(ring).follows(old(ring)),
{
    let grant = consumer.read(ring);
    proof {
        lemma_slices(ring@);
        lemma_release(ring@, ring@.readable());
    }
    let (first, second) = grant.bufs(ring);
    write_bytes(serial, first);
    write_bytes(serial, second);
    proof {
        assert(serial.sent0() =~= old(serial).sent0() + old(ring)@.contents());
    }
    grant.release_all(ring);
}

} // verus!
