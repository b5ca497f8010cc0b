//! A persistent, reset-resilient single-producer / single-consumer byte ring
//! buffer over a fixed memory region, with the glue that feeds it from a log
//! encoder and drains it after the next boot.
//!
//! The region survives soft resets. [`init`] takes it over once per boot:
//! it validates the bounds of the region, keeps or repairs what the last run
//! left in it, installs the producer for the logging frontend and hands the
//! consumer to the caller, together with what was recovered.

pub mod atomic_waker;
pub mod bytes;
pub mod harness;
pub mod layout;
pub mod logger;
pub mod recovery;
pub mod region;
pub mod ring_buffer;
pub mod ring_laws;
pub mod ring_view;
pub mod uart;

pub use layout::{InitError, Layout};
pub use region::Identifier;
pub use ring_buffer::{Consumer, GrantR, RingBuffer};

use crate::logger::LoggerState;
use crate::region::{decode, same_spare, well_sized};
use vstd::prelude::*;

verus! {

/// What [`init`] hands to its caller.
pub struct ConsumerAndMetadata {
    /// The reading end of the ring.
    pub consumer: Consumer,
    /// The number of bytes that the last run left unread in the ring.
    pub recovered_logs_len: usize,
    /// The identifier that the last run left in the region.
    pub recovered_identifier: Identifier,
}

/// Takes the region of `memory.len()` bytes at address `start` into service.
///
/// The first call of a boot marks `state` as claimed; every later call
/// fails with [`InitError::AlreadyInitialized`], whatever came of the first.
/// Next the bounds of the region are validated, and a region that fails is
/// left unread. Then the region is brought up, the producer is installed in
/// `state`, and `update_identifier` is called with the identifier found in
/// the region; what it returns is written in its place.
///
/// On success the result holds the ring, whose readable bytes are those that
/// the last run left unread, and the consumer with the metadata of the
/// recovery.
pub fn init<F: FnOnce(&Identifier) -> Identifier>(
    state: &mut LoggerState,
    layout: Layout,
    start: usize,
    memory: Vec<u8>,
    update_identifier: F,
) -> (outcome: Result<(RingBuffer, ConsumerAndMetadata), InitError>)
    requires
        forall|found: Identifier| #[trigger] call_requires(update_identifier, (&found,)),
    ensures
        final(state).is_claimed(),
        final(state).depth() == old(state).depth(),
        old(state).is_claimed() ==> outcome == Err::<(RingBuffer, ConsumerAndMetadata), InitError>(
            InitError::AlreadyInitialized,
        ),
        !old(state).is_claimed() ==> match layout.geometry_error(
            start as int,
            memory.len() as int,
        ) {
            Some(error) => outcome == Err::<(RingBuffer, ConsumerAndMetadata), InitError>(error),
            None => outcome is Ok,
        },
        outcome is Err ==> final(state).is_initialized() == old(state).is_initialized(),
        outcome matches Ok((ring, handed)) ==> {
            let recovered = decode(layout, memory@).recovered();
            &&& final(state).is_initialized()
            &&& ring.layout() == layout
            &&& ring.is_split()
            &&& ring.settled()
            &&& same_spare(layout, memory@, ring.image())
            &&& handed.recovered_logs_len == recovered.readable()
            &&& handed.recovered_identifier@ == recovered.identifier
            &&& exists|current: Identifier|
                call_ensures(update_identifier, (&handed.recovered_identifier,), current)
                    && ring@ == recovered.with_identifier(current@)
        },
{
    match claim_region(state, layout, start, memory.len()) {
        Err(error) => Err(error),
        Ok(()) => Ok(bring_up(state, layout, memory, update_identifier)),
    }
}

/// The first step of [`init`], which needs the bounds of the region only:
/// marks `state` as claimed, refuses every call but the first of a boot, and
/// validates the bounds. Nothing of the region is read.
pub fn claim_region(state: &mut LoggerState, layout: Layout, start: usize, len: usize) -> (outcome:
    Result<(), InitError>)
    ensures
        final(state).is_claimed(),
        final(state).depth() == old(state).depth(),
        final(state).is_initialized() == old(state).is_initialized(),
        old(state).is_claimed() ==> outcome == Err::<(), InitError>(
            InitError::AlreadyInitialized,
        ),
        !old(state).is_claimed() ==> outcome == match layout.geometry_error(
            start as int,
            len as int,
        ) {
            Some(error) => Err::<(), InitError>(error),
            None => Ok(()),
        },
{
    if state.claim() {
        return Err(InitError::AlreadyInitialized);
    }
    layout.check_geometry(start, len)
}

/// The second step of [`init`], on a region whose bounds were found valid:
/// brings the region up, installs the producer in `state`, takes the length
/// of what was recovered from a grant that is given up unreleased, and has
/// `update_identifier` replace the identifier.
pub fn bring_up<F: FnOnce(&Identifier) -> Identifier>(
    state: &mut LoggerState,
    layout: Layout,
    memory: Vec<u8>,
    update_identifier: F,
) -> (taken: (RingBuffer, ConsumerAndMetadata))
    requires
        well_sized(memory@),
        forall|found: Identifier| #[trigger] call_requires(update_identifier, (&found,)),
    ensures
        final(state).is_initialized(),
        final(state).depth() == old(state).depth(),
        final(state).is_claimed() == old(state).is_claimed(),
        taken.0.layout() == layout,
        taken.0.is_split(),
        taken.0.settled(),
        same_spare(layout, memory@, taken.0.image()),
        taken.1.recovered_logs_len == decode(layout, memory@).recovered().readable(),
        taken.1.recovered_identifier@ == decode(layout, memory@).recovered().identifier,
        exists|current: Identifier|
            call_ensures(update_identifier, (&taken.1.recovered_identifier,), current)
                && taken.0@ == decode(layout, memory@).recovered().with_identifier(current@),
{
    let mut ring = RingBuffer::recover_or_reinitialize(layout, memory);
    let (producer, mut consumer) = ring.split();
    state.initialize(producer);
    let grant = consumer.read(&ring);
    let recovered_logs_len = grant.granted();
    let recovered_identifier = ring.identifier();
    let current = update_identifier(&recovered_identifier);
    ring.set_identifier(&current);
    (ring, ConsumerAndMetadata { consumer, recovered_logs_len, recovered_identifier })
}

} // verus!
