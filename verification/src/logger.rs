//! The bridge between a logging frontend and the ring.
//!
//! A frontend brackets every log message with [`Logger::acquire`] and
//! [`Logger::release`] and hands the bytes of the message to
//! [`Logger::write`] in between. The bridge passes them through the frame
//! encoder, hands back what the encoder emits, and appends the same bytes to
//! the ring. Before a region has been taken into service there is no ring:
//! the frames are still encoded and handed back, for the sinks that the
//! caller serves itself.
//!
//! A logging operation may be interrupted by another one: from a fault
//! handler, or from a panic while logging. [`LoggerState`] counts how deep the
//! operations are nested. Only the outermost one owns the encoder; nested
//! ones are dropped, which is preferred over a corrupted frame.
//!
//! The critical section that keeps interrupts away from the outermost
//! operation is entered and left by the caller: after an `acquire` that
//! reported the outermost level and before [`Logger::start_frame`], and after
//! a `release` that handed back the closing bytes of a frame.

use crate::ring_buffer::{Producer, RingBuffer};
use defmt::Encoder;
use vstd::prelude::*;

verus! {

/// `defmt::Encoder`, carried through as an opaque value.
#[verifier::external_type_specification]
#[verifier::external_body]
pub struct ExEncoder(defmt::Encoder);

/// What the logging frontend shares between its calls.
pub struct LoggerState {
    producer: Option<Producer>,
    encoder: Encoder,
    depth: usize,
    claimed: bool,
}

/// The logging frontend. It has no state of its own: every operation works
/// on the [`LoggerState`] that it is handed.
pub struct Logger {}

/// Appends a chunk that the encoder has emitted to the bytes gathered so far.
fn gather(gathered: &mut Vec<u8>, chunk: &[u8])
    ensures
        final(gathered)@ == old(gathered)@ + chunk@,
{
    let ghost before = gathered@;
    let mut i: usize = 0;
    while i < chunk.len()
        invariant
            i <= chunk.len(),
            gathered@ == before + chunk@.take(i as int),
        decreases chunk.len() - i,
    {
        gathered.push(chunk[i]);
        i = i + 1;
        proof {
            assert(gathered@ =~= before + chunk@.take(i as int));
        }
    }
    proof {
        assert(chunk@.take(chunk.len() as int) =~= chunk@);
    }
}

/// Calls `defmt::Encoder::new`.
#[verifier::external_body]
fn new_encoder() -> Encoder {
    Encoder::new()
}

/// What `defmt::Encoder::start_frame` emits on an encoder in the given
/// state.
pub uninterp spec fn frame_start(encoder: Encoder) -> Seq<u8>;

/// What `defmt::Encoder::write` emits on an encoder in the given state when
/// it is fed the given bytes.
pub uninterp spec fn frame_body(encoder: Encoder, bytes: Seq<u8>) -> Seq<u8>;

/// What `defmt::Encoder::end_frame` emits on an encoder in the given state.
pub uninterp spec fn frame_end(encoder: Encoder) -> Seq<u8>;

/// Calls `defmt::Encoder::start_frame` and gathers what it emits. The
/// contract claims that the bytes emitted are a function of the state that
/// the encoder was in, and gives that function its name. Nothing is claimed
/// of the state that the encoder is left in.
#[verifier::external_body]
fn encoder_start_frame(encoder: &mut Encoder) -> (framed: Vec<u8>)
    ensures
        framed@ == frame_start(*old(encoder)),
{
    let mut framed = Vec::new();
    encoder.start_frame(|chunk| gather(&mut framed, chunk));
    framed
}

/// Calls `defmt::Encoder::write` and gathers what it emits. The contract
/// claims that the bytes emitted are a function of the state that the
/// encoder was in and of the bytes it is fed, and gives that function its
/// name. Nothing is claimed of the state that the encoder is left in.
#[verifier::external_body]
fn encoder_write(encoder: &mut Encoder, bytes: &[u8]) -> (framed: Vec<u8>)
    ensures
        framed@ == frame_body(*old(encoder), bytes@),
{
    let mut framed = Vec::new();
    encoder.write(bytes, |chunk| gather(&mut framed, chunk));
    framed
}

/// Calls `defmt::Encoder::end_frame` and gathers what it emits. The contract
/// claims that the bytes emitted are a function of the state that the
/// encoder was in, and gives that function its name. Nothing is claimed of
/// the state that the encoder is left in.
#[verifier::external_body]
fn encoder_end_frame(encoder: &mut Encoder) -> (framed: Vec<u8>)
    ensures
        framed@ == frame_end(*old(encoder)),
{
    let mut framed = Vec::new();
    encoder.end_frame(|chunk| gather(&mut framed, chunk));
    framed
}

impl LoggerState {
    /// How deep logging operations are nested: zero when none is under way,
    /// one inside the outermost.
    pub closed spec fn depth(&self) -> nat {
        self.depth as nat
    }

    /// Whether the producer has been installed.
    pub closed spec fn is_initialized(&self) -> bool {
        self.producer is Some
    }

    /// Whether initialization has been attempted.
    pub closed spec fn is_claimed(&self) -> bool {
        self.claimed
    }

    /// The frame encoder, in the state it is in.
    pub closed spec fn encoder(&self) -> Encoder {
        self.encoder
    }

    /// Depth, producer and claim are what they were in `before`.
    pub open spec fn keeps(&self, before: &LoggerState) -> bool {
        &&& self.depth() == before.depth()
        &&& self.is_initialized() == before.is_initialized()
        &&& self.is_claimed() == before.is_claimed()
    }

    /// The ring after this state has been handed `bytes` for it: with a
    /// producer installed they are appended, without one they are dropped.
    pub open spec fn sink(&self, ring: crate::ring_view::RingView, bytes: Seq<u8>)
        -> crate::ring_view::RingView {
        if self.is_initialized() {
            ring.append(bytes)
        } else {
            ring
        }
    }

    /// The state at boot: no producer, no logging under way, initialization
    /// not yet attempted.
    pub fn new() -> (state: LoggerState)
        ensures
            state.depth() == 0,
            !state.is_initialized(),
            !state.is_claimed(),
    {
        LoggerState { producer: None, encoder: new_encoder(), depth: 0, claimed: false }
    }

    /// Marks initialization as attempted and tells whether it had been
    /// before.
    pub fn claim(&mut self) -> (already: bool)
        ensures
            already == old(self).is_claimed(),
            final(self).is_claimed(),
            final(self).depth() == old(self).depth(),
            final(self).is_initialized() == old(self).is_initialized(),
            final(self).encoder() == old(self).encoder(),
    {
        let already = self.claimed;
        self.claimed = true;
        already
    }

    /// Installs the producer. From now on what is logged reaches the ring.
    pub fn initialize(&mut self, producer: Producer)
        ensures
            final(self).is_initialized(),
            final(self).depth() == old(self).depth(),
            final(self).is_claimed() == old(self).is_claimed(),
            final(self).encoder() == old(self).encoder(),
    {
        self.producer = Some(producer);
    }

    /// Appends `bytes` to the ring if the producer has been installed, and
    /// drops them if not.
    pub fn write(&mut self, ring: &mut RingBuffer, bytes: &[u8])
        ensures
            final(ring)@ == old(self).sink(old(ring)@, bytes@),
            final(ring).follows(old(ring)),
            !old(self).is_initialized() ==> *final(ring) == *old(ring),
            final(self).keeps(old(self)),
            final(self).encoder() == old(self).encoder(),
    {
        proof {
            use_type_invariant(&*ring);
        }
        match &mut self.producer {
            Some(producer) => {
                producer.write(ring, bytes);
            },
            None => {},
        }
    }
}

impl Logger {
    /// Enters a logging operation and tells whether it is the outermost
    /// one. The depth goes up by one, wrapping at the end of its range.
    ///
    /// After `true` the caller enters the critical section and calls
    /// [`Logger::start_frame`]. After `false` the operation is a nested one,
    /// and all that is done for it is the matching release.
    pub fn acquire(state: &mut LoggerState) -> (outermost: bool)
        ensures
            outermost == (old(state).depth() == 0),
            final(state).depth() == (if old(state).depth() == usize::MAX {
                0
            } else {
                old(state).depth() + 1
            }),
            final(state).is_initialized() == old(state).is_initialized(),
            final(state).is_claimed() == old(state).is_claimed(),
            final(state).encoder() == old(state).encoder(),
    {
        let was_depth = state.depth;
        state.depth = was_depth.wrapping_add(1);
        was_depth == 0
    }

    /// Opens a frame: hands back what the encoder emits to start one, for
    /// the sinks that the caller serves itself, and passes the same bytes
    /// to the ring. Before a region has been taken into service there is no
    /// ring to pass them to.
    pub fn start_frame(state: &mut LoggerState, ring: Option<&mut RingBuffer>) -> (framed: Vec<
        u8,
    >)
        ensures
            framed@ == frame_start(old(state).encoder()),
            ring matches Some(region) ==> final(region)@ == old(state).sink(
                (*region)@,
                framed@,
            ) && final(region).follows(&*region),
            final(state).keeps(old(state)),
    {
        let framed = encoder_start_frame(&mut state.encoder);
        match ring {
            Some(region) => {
                state.write(region, framed.as_slice());
            },
            None => {},
        }
        framed
    }

    /// Feeds the bytes of a message to the encoder, hands back what it
    /// emits, for the sinks that the caller serves itself, and passes the
    /// same bytes to the ring, where there is one. In a nested operation
    /// nothing is encoded and nothing written.
    pub fn write(state: &mut LoggerState, ring: Option<&mut RingBuffer>, bytes: &[u8]) -> (framed:
        Vec<u8>)
        ensures
            old(state).depth() != 1 ==> framed@ == Seq::<u8>::empty() && final(state).encoder()
                == old(state).encoder(),
            old(state).depth() == 1 ==> framed@ == frame_body(old(state).encoder(), bytes@),
            ring matches Some(region) ==> final(region).follows(&*region) && (if old(
                state,
            ).depth() == 1 {
                final(region)@ == old(state).sink((*region)@, framed@)
            } else {
                *final(region) == *region
            }),
            final(state).keeps(old(state)),
    {
        match ring {
            Some(region) => {
                proof {
                    use_type_invariant(&*region);
                }
                if state.depth != 1 {
                    return Vec::new();
                }
                let framed = encoder_write(&mut state.encoder, bytes);
                state.write(region, framed.as_slice());
                framed
            },
            None => {
                if state.depth != 1 {
                    return Vec::new();
                }
                encoder_write(&mut state.encoder, bytes)
            },
        }
    }

    /// Whether the sinks that the caller serves itself are to be flushed:
    /// in the outermost operation, and in no nested one. The ring needs no
    /// flush.
    pub fn flush(state: &LoggerState) -> (due: bool)
        ensures
            due == (state.depth() == 1),
    {
        state.depth == 1
    }

    /// Leaves a logging operation. The depth goes down by one, wrapping at
    /// zero. The outermost operation closes its frame: what the encoder
    /// emits to end one is handed back and passed to the ring, where there
    /// is one. A nested operation hands back nothing, and leaves encoder
    /// and ring alone.
    ///
    /// After `Some` the caller leaves the critical section and then wakes
    /// the task that waits for data.
    pub fn release(state: &mut LoggerState, ring: Option<&mut RingBuffer>) -> (closing: Option<
        Vec<u8>,
    >)
        ensures
            closing is Some <==> old(state).depth() == 1,
            closing matches Some(framed) ==> framed@ == frame_end(old(state).encoder()),
            closing is None ==> final(state).encoder() == old(state).encoder(),
            ring matches Some(region) ==> final(region).follows(&*region) && (match closing {
                Some(framed) => final(region)@ == old(state).sink((*region)@, framed@),
                None => *final(region) == *region,
            }),
            final(state).depth() == (if old(state).depth() == 0 {
                usize::MAX as nat
            } else {
                (old(state).depth() - 1) as nat
            }),
            final(state).is_initialized() == old(state).is_initialized(),
            final(state).is_claimed() == old(state).is_claimed(),
    {
        let was_depth = state.depth;
        state.depth = was_depth.wrapping_sub(1);
        match ring {
            Some(region) => {
                proof {
                    use_type_invariant(&*region);
                }
                if was_depth != 1 {
                    return None;
                }
                let framed = encoder_end_frame(&mut state.encoder);
                state.write(region, framed.as_slice());
                Some(framed)
            },
            None => {
                if was_depth != 1 {
                    return None;
                }
                Some(encoder_end_frame(&mut state.encoder))
            },
        }
    }
}

} // verus!
