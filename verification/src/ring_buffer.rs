//! A single-producer, single-consumer byte ring in a persist region.
//!
//! [`RingBuffer`] owns the image of a region and keeps it a valid ring. The
//! ring stores up to one byte less than its data area holds. [`Producer`] and
//! [`Consumer`] are the two ends: they hold no memory of their own and are
//! handed the ring for each operation, so that the steps of the two ends may
//! interleave in any order. A ring hands out its ends once. Every operation
//! is specified as a step of [`RingView`].

use crate::atomic_waker::AtomicWaker;
use crate::layout::{Layout, DATA_LIMIT, HEADER_SIZE};
use crate::recovery::{lemma_recovery_stores_complete, perform_all, recovery_plan};
use crate::region::{
    decode, flush, flushed, lemma_decode_bounds, load_header, load_identifier, load_index,
    same_spare, spare, store_data, store_header, store_identifier, store_index, well_sized,
    Identifier, Index,
};
use crate::ring_laws::{
    lemma_append, lemma_append_nothing, lemma_release, lemma_slices, lemma_stored_straight,
    lemma_stored_wrapping, lemma_wrap_is_mod,
};
use crate::ring_view::{least, RegionState, RingView};
use core::task::Waker;
use vstd::prelude::*;
use vstd::slice::slice_subrange;

verus! {

/// A persist region that has been brought up: its image, kept a valid ring,
/// and the note whether its two ends have been handed out.
pub struct RingBuffer {
    layout: Layout,
    image: Vec<u8>,
    ends_out: bool,
}

/// The writing end of a ring.
pub struct Producer {
    end: (),
}

/// The reading end of a ring.
pub struct Consumer {
    end: (),
}

/// A read grant: the right to look at the readable bytes of a ring as they
/// stood when the grant was taken, and to release some of them.
///
/// While a grant lives, its consumer can take no other. A grant that is
/// dropped releases nothing.
pub struct GrantR<'a> {
    consumer: &'a Consumer,
    taken_at: usize,
    first: usize,
    second: usize,
}

impl View for RingBuffer {
    type V = RingView;

    open spec fn view(&self) -> RingView {
        decode(self.layout(), self.image())
    }
}

impl RingBuffer {
    /// The bytes of the region.
    pub closed spec fn image(&self) -> Seq<u8> {
        self.image@
    }

    /// The layout of the region.
    pub closed spec fn layout(&self) -> Layout {
        self.layout
    }

    /// Whether the two ends of the ring have been handed out. A ring that
    /// comes out of bring-up has both ends in; [`RingBuffer::split`] hands
    /// them out, and nothing takes them back.
    pub closed spec fn spec_is_split(&self) -> bool {
        self.ends_out
    }

    /// The region is at rest between two operations: its image has a
    /// workable size, is a valid ring, and its flush cells hold zero.
    pub open spec fn settled(&self) -> bool {
        &&& well_sized(self.image())
        &&& self@.valid()
        &&& flushed(self.layout(), self.image())
    }

    /// What holds of a region after every operation of one of its ends: it
    /// has the layout it had before, is settled again, the spare bytes of
    /// its header block are untouched, and its ends are where they were.
    /// Together with what the operation does to the meaning of the region
    /// this fixes its image byte for byte.
    pub open spec fn follows(&self, before: &RingBuffer) -> bool {
        &&& self.layout() == before.layout()
        &&& self.settled()
        &&& same_spare(before.layout(), before.image(), self.image())
        &&& self.is_split() == before.is_split()
    }

    /// Every ring buffer is settled.
    #[verifier::type_invariant]
    pub open spec fn inv(&self) -> bool {
        self.settled()
    }

    /// A region that is marked initialized, with a zero identifier, the given
    /// indices and the given data area.
    pub fn new(layout: Layout, read: u32, write: u32, buf: Vec<u8>) -> (ring: RingBuffer)
        requires
            buf.len() < DATA_LIMIT,
            read < buf.len(),
            write < buf.len(),
        ensures
            ring.layout() == layout,
            ring@.valid(),
            ring@.read == read,
            ring@.write == write,
            ring@.data == buf@,
            ring@.identifier == Seq::new(16, |i: int| 0u8),
            ring.settled(),
            forall|at: int| spare(layout, at) ==> ring.image()[at] == 0,
            !ring.is_split(),
    {
        let ghost data = buf@;
        let mut buf = buf;
        let mut image: Vec<u8> = vec![0u8; HEADER_SIZE];
        image.append(&mut buf);
        let ghost blank = image@;
        store_index(layout, &mut image, Index::Read, read);
        store_index(layout, &mut image, Index::Write, write);
        store_header(layout, &mut image, layout.magic());
        proof {
            lemma_decode_bounds(layout, image@);
            assert(decode(layout, blank).data =~= data);
            assert(decode(layout, blank).identifier =~= Seq::new(16, |i: int| 0u8));
        }
        RingBuffer { layout, image, ends_out: false }
    }

    /// How a raw region presents itself: fresh, valid or repairable.
    pub fn classify(layout: Layout, memory: &Vec<u8>) -> (state: RegionState)
        requires
            well_sized(memory@),
        ensures
            state == decode(layout, memory@).state(),
    {
        let len = memory.len() - HEADER_SIZE;
        if load_header(memory) != layout.magic() {
            RegionState::Fresh
        } else {
            let read = load_index(layout, memory, Index::Read) as usize;
            let write = load_index(layout, memory, Index::Write) as usize;
            proof {
                lemma_decode_bounds(layout, memory@);
            }
            if read < len && write < len {
                RegionState::Valid
            } else {
                RegionState::Repairable
            }
        }
    }

    /// Brings up a region: keeps what a valid ring holds, repairs indices
    /// that point outside the data area, and makes an empty ring of a region
    /// that does not carry the magic number.
    ///
    /// The stores are those of [`recovery_plan`], performed in its order: in
    /// a fresh region the indices first and the magic number last, in an
    /// initialized region only the indices out of range, one store each.
    /// The data area and the identifier are not written at all.
    pub fn recover_or_reinitialize(layout: Layout, memory: Vec<u8>) -> (ring: RingBuffer)
        requires
            well_sized(memory@),
        ensures
            ring.layout() == layout,
            ring@ == decode(layout, memory@).recovered(),
            ring@.valid(),
            ring.settled(),
            same_spare(layout, memory@, ring.image()),
            !ring.is_split(),
    {
        let mut image = memory;
        let ghost found = decode(layout, image@);
        let plan = recovery_plan(layout, &image);
        perform_all(layout, &mut image, &plan);
        flush(layout, &mut image, Index::Read);
        flush(layout, &mut image, Index::Write);
        proof {
            lemma_recovery_stores_complete(found);
            lemma_decode_bounds(layout, image@);
        }
        RingBuffer { layout, image, ends_out: false }
    }

    /// Whether the two ends of the ring have been handed out.
    #[verifier::when_used_as_spec(spec_is_split)]
    pub fn is_split(&self) -> (split: bool)
        ensures
            split == self.spec_is_split(),
    {
        self.ends_out
    }

    /// Hands out the two ends of the ring, and notes in the ring that they
    /// are out. A ring serves one producer and one consumer: the ends are
    /// handed out once, from a ring that still has them. The region itself
    /// is not touched.
    pub fn split(&mut self) -> (ends: (Producer, Consumer))
        requires
            !old(self).is_split(),
        ensures
            final(self).is_split(),
            final(self).layout() == old(self).layout(),
            final(self).image() == old(self).image(),
    {
        proof {
            use_type_invariant(&*self);
        }
        self.ends_out = true;
        (Producer { end: () }, Consumer { end: () })
    }

    /// The length of the data area.
    pub fn data_len(&self) -> (len: usize)
        ensures
            self@.valid(),
            len == self@.data_len(),
            0 < len < DATA_LIMIT,
    {
        proof {
            use_type_invariant(self);
            lemma_decode_bounds(self.layout, self.image@);
        }
        self.image.len() - HEADER_SIZE
    }

    /// A byte-exact copy of the region. It has a workable size, means the
    /// valid ring that this one is, and its flush cells hold zero.
    pub fn snapshot(&self) -> (bytes: Vec<u8>)
        ensures
            bytes@ == self.image(),
            well_sized(bytes@),
            decode(self.layout(), bytes@) == self@,
            self@.valid(),
            flushed(self.layout(), bytes@),
    {
        proof {
            use_type_invariant(self);
        }
        let bytes = self.image.clone();
        proof {
            assert(bytes@ =~= self.image@);
        }
        bytes
    }

    /// The identifier that the region carries.
    pub fn identifier(&self) -> (identifier: Identifier)
        ensures
            identifier@ == self@.identifier,
    {
        proof {
            use_type_invariant(self);
        }
        load_identifier(&self.image)
    }

    /// Replaces the identifier that the region carries.
    pub fn set_identifier(&mut self, identifier: &Identifier)
        ensures
            final(self)@ == old(self)@.with_identifier(identifier@),
            final(self).follows(old(self)),
    {
        proof {
            use_type_invariant(&*self);
        }
        let cells = identifier.0.as_slice();
        store_identifier(self.layout, &mut self.image, cells);
    }
}

impl Producer {
    /// How many bytes can be written when the indices read `read` and
    /// `write`.
    pub fn available(&self, ring: &RingBuffer, read: usize, write: usize) -> (room: usize)
        requires
            read < ring@.data_len(),
            write < ring@.data_len(),
        ensures
            room == (RingView { read: read as nat, write: write as nat, ..ring@ }).writable(),
            read == ring@.read && write == ring@.write ==> room == ring@.writable(),
    {
        let len = ring.data_len();
        if read > write {
            read - write - 1
        } else {
            len - write - 1 + read
        }
    }

    /// Appends `data` to the ring.
    ///
    /// If there is not enough room, the last bytes of `data` are dropped.
    pub fn write(&mut self, ring: &mut RingBuffer, data: &[u8])
        ensures
            final(ring)@ == old(ring)@.append(data@),
            final(ring).follows(old(ring)),
    {
        proof {
            use_type_invariant(&*ring);
            lemma_decode_bounds(ring.layout, ring.image@);
        }
        let ghost before = ring@;
        let layout = ring.layout;
        let len = ring.image.len() - HEADER_SIZE;
        let read = load_index(layout, &ring.image, Index::Read) as usize;
        let write = load_index(layout, &ring.image, Index::Write) as usize;
        let room = self.available(ring, read, write);
        let count = if data.len() < room {
            data.len()
        } else {
            room
        };
        if count == 0 {
            proof {
                lemma_append_nothing(before, data@);
            }
            return ;
        }
        store_round(layout, &mut ring.image, write, data, count);
        let new_write = (write + count) % len;
        proof {
            lemma_wrap_is_mod(before, (write + count) as nat);
        }
        flush(layout, &mut ring.image, Index::Write);
        store_index(layout, &mut ring.image, Index::Write, new_write as u32);
    }
}

/// Stores the first `count` bytes of `data` in the data area from the write
/// index on. Where they cross the end of the data area they are copied in
/// two pieces, else in one.
fn store_round(layout: Layout, image: &mut Vec<u8>, write: usize, data: &[u8], count: usize)
    requires
        well_sized(old(image)@),
        decode(layout, old(image)@).valid(),
        decode(layout, old(image)@).write == write,
        count <= data.len(),
        count <= decode(layout, old(image)@).writable(),
    ensures
        final(image).len() == old(image).len(),
        decode(layout, final(image)@) == (RingView {
            data: decode(layout, old(image)@).stored(data@.take(count as int)),
            ..decode(layout, old(image)@)
        }),
        flushed(layout, old(image)@) ==> flushed(layout, final(image)@),
        same_spare(layout, old(image)@, final(image)@),
    no_unwind
{
    let ghost before = decode(layout, image@);
    let ghost taken = data@.take(count as int);
    let len = image.len() - HEADER_SIZE;
    proof {
        lemma_decode_bounds(layout, image@);
    }
    if write + count > len {
        let pivot = len - write;
        store_data(layout, image, write, data, 0, pivot);
        store_data(layout, image, 0, data, pivot, count - pivot);
        proof {
            assert(data@.subrange(0, pivot as int) =~= taken.take(pivot as int));
            assert(data@.subrange(pivot as int, pivot + (count - pivot)) =~= taken.skip(
                pivot as int,
            ));
            lemma_stored_wrapping(before, taken);
        }
    } else {
        store_data(layout, image, write, data, 0, count);
        proof {
            assert(data@.subrange(0, count as int) =~= taken);
            lemma_stored_straight(before, taken);
        }
    }
}

impl Consumer {
    /// Whether nothing waits to be read.
    pub fn is_empty(&self, ring: &RingBuffer) -> (empty: bool)
        ensures
            empty == ring@.is_empty(),
            empty == (ring@.contents().len() == 0),
    {
        proof {
            use_type_invariant(ring);
            lemma_decode_bounds(ring.layout, ring.image@);
        }
        let write = load_index(ring.layout, &ring.image, Index::Write);
        let read = load_index(ring.layout, &ring.image, Index::Read);
        write == read
    }

    /// The identifier that the region carries now.
    pub fn identifier(&self, ring: &RingBuffer) -> (identifier: Identifier)
        ensures
            identifier@ == ring@.identifier,
    {
        ring.identifier()
    }

    /// One poll of the wait for data: tells whether there is something to
    /// read, and if not, leaves `waker` registered so that the next closed
    /// frame wakes the waiting task.
    ///
    /// The waker is registered first and the ring looked at afterwards. A
    /// frame that is closed between the two steps then finds the waker in
    /// place, and one closed before them is seen in the ring: no wake is
    /// lost.
    pub fn wait_for_data(
        &mut self,
        ring: &RingBuffer,
        waiter: &mut AtomicWaker,
        waker: &Waker,
    ) -> (ready: bool)
        ensures
            ready == !ring@.is_empty(),
            final(waiter).is_registered(),
    {
        waiter.register(waker);
        !self.is_empty(ring)
    }

    /// Takes a grant on all that waits to be read.
    ///
    /// The grant shows the readable bytes as up to two slices: where they
    /// cross the end of the data area, the first slice runs to the end and
    /// the second one holds the rest. The ring is not changed.
    pub fn read<'a>(&'a mut self, ring: &RingBuffer) -> (grant: GrantR<'a>)
        ensures
            grant.serves(ring@),
            grant.taken_at() == ring@.read,
            grant.first_len() == ring@.first_len(),
            grant.second_len() == ring@.second_len(),
            grant.len() == ring@.readable(),
    {
        proof {
            use_type_invariant(ring);
            lemma_decode_bounds(ring.layout, ring.image@);
            lemma_slices(ring@);
        }
        let len = ring.image.len() - HEADER_SIZE;
        let write = load_index(ring.layout, &ring.image, Index::Write) as usize;
        let read = load_index(ring.layout, &ring.image, Index::Read) as usize;
        let (first, second) = if write < read {
            (len - read, write)
        } else {
            (write - read, 0)
        };
        GrantR { consumer: self, taken_at: read, first, second }
    }
}

impl<'a> GrantR<'a> {
    /// The read index at the time the grant was taken.
    pub closed spec fn taken_at(&self) -> nat {
        self.taken_at as nat
    }

    /// The length of the first slice.
    pub closed spec fn first_len(&self) -> nat {
        self.first as nat
    }

    /// The length of the second slice.
    pub closed spec fn second_len(&self) -> nat {
        self.second as nat
    }

    /// The number of bytes granted.
    pub open spec fn len(&self) -> nat {
        self.first_len() + self.second_len()
    }

    /// Both slices are shorter than any data area may be.
    #[verifier::type_invariant]
    spec fn bounded(&self) -> bool {
        self.first < DATA_LIMIT && self.second < DATA_LIMIT
    }

    /// The number of bytes granted.
    pub fn granted(&self) -> (count: usize)
        ensures
            count == self.len(),
    {
        proof {
            use_type_invariant(self);
        }
        self.first + self.second
    }

    /// The grant belongs to a ring in this state: the ring is read where the
    /// grant was taken and what was granted is still readable. Appends to
    /// the ring keep this; a release ends the grant.
    pub open spec fn serves(&self, v: RingView) -> bool {
        &&& v.valid()
        &&& v.read == self.taken_at()
        &&& self.len() <= v.readable()
        &&& self.first_len() <= v.data_len() - v.read
        &&& self.second_len() > 0 ==> self.first_len() == v.data_len() - v.read
    }

    /// A grant outlives the appends of the producer: it still belongs to the
    /// ring after an append, and the bytes it shows are the ones it showed
    /// before.
    pub proof fn lemma_outlives_append(&self, v: RingView, bytes: Seq<u8>)
        requires
            self.serves(v),
        ensures
            self.serves(v.append(bytes)),
            v.append(bytes).data.subrange(v.read as int, (v.read + self.first_len()) as int)
                == v.data.subrange(v.read as int, (v.read + self.first_len()) as int),
            v.append(bytes).data.subrange(0, self.second_len() as int) == v.data.subrange(
                0,
                self.second_len() as int,
            ),
            v.append(bytes).contents().take(self.len() as int) == v.contents().take(
                self.len() as int,
            ),
    {
        lemma_append(v, bytes);
        let after = v.append(bytes);
        let count = v.accepted(bytes);
        assert forall|i: int| v.read <= i < v.read + self.first_len() implies after.data[i]
            == v.data[i] by {
            assert(v.distance(v.write, i as nat) >= count);
        }
        assert forall|i: int| 0 <= i < self.second_len() implies after.data[i] == v.data[i] by {
            assert(v.distance(v.write, i as nat) >= count);
        }
        assert(after.data.subrange(v.read as int, (v.read + self.first_len()) as int)
            =~= v.data.subrange(v.read as int, (v.read + self.first_len()) as int));
        assert(after.data.subrange(0, self.second_len() as int) =~= v.data.subrange(
            0,
            self.second_len() as int,
        ));
        assert(after.contents().take(self.len() as int) =~= v.contents().take(
            self.len() as int,
        ));
    }

    /// Whether the grant was taken on `ring` and nothing was released
    /// since.
    pub fn is_current(&self, ring: &RingBuffer) -> (current: bool)
        ensures
            current == self.serves(ring@),
    {
        proof {
            use_type_invariant(ring);
            lemma_decode_bounds(ring.layout, ring.image@);
        }
        let len = ring.image.len() - HEADER_SIZE;
        let write = load_index(ring.layout, &ring.image, Index::Write) as usize;
        let read = load_index(ring.layout, &ring.image, Index::Read) as usize;
        let readable = if write >= read {
            write - read
        } else {
            len - read + write
        };
        read == self.taken_at && self.first <= len - read && self.second <= readable
            && self.first <= readable - self.second && (self.second == 0 || self.first == len
            - read)
    }

    /// Ends the grant and marks the first `used` of the granted bytes as
    /// read, or all of them if `used` is more. This frees their room for
    /// the producer.
    pub fn release(self, ring: &mut RingBuffer, used: usize)
        requires
            self.serves(old(ring)@),
        ensures
            final(ring)@ == old(ring)@.release(least(used as nat, self.len())),
            final(ring).follows(old(ring)),
    {
        proof {
            use_type_invariant(&*ring);
            lemma_decode_bounds(ring.layout, ring.image@);
            lemma_release(ring@, least(used as nat, self.len()));
        }
        let len = ring.image.len() - HEADER_SIZE;
        let granted = self.first + self.second;
        let used = if used < granted {
            used
        } else {
            granted
        };
        let read = self.taken_at;
        let new_read = if read + used < len {
            read + used
        } else {
            used - self.first
        };
        store_index(ring.layout, &mut ring.image, Index::Read, new_read as u32);
    }

    /// Ends the grant and marks all granted bytes as read.
    pub fn release_all(self, ring: &mut RingBuffer)
        requires
            self.serves(old(ring)@),
        ensures
            final(ring)@ == old(ring)@.release(self.len()),
            final(ring).follows(old(ring)),
    {
        self.release(ring, usize::MAX);
    }

    /// The bytes that this grant allows to read, as two slices of the data
    /// area of `ring`. One after the other they are the first readable
    /// bytes of the ring: all of them, unless the producer has appended
    /// since the grant was taken.
    pub fn bufs<'r>(&self, ring: &'r RingBuffer) -> (slices: (&'r [u8], &'r [u8]))
        requires
            self.serves(ring@),
        ensures
            slices.0@.len() == self.first_len(),
            slices.1@.len() == self.second_len(),
            slices.0@ == ring@.data.subrange(
                ring@.read as int,
                (ring@.read + self.first_len()) as int,
            ),
            slices.1@ == ring@.data.subrange(0, self.second_len() as int),
            slices.0@ + slices.1@ == ring@.contents().take(self.len() as int),
            self.len() == ring@.readable() ==> slices.0@ + slices.1@ == ring@.contents(),
    {
        proof {
            use_type_invariant(ring);
            lemma_decode_bounds(ring.layout, ring.image@);
        }
        let start = HEADER_SIZE + self.taken_at;
        let image = ring.image.as_slice();
        let first = slice_subrange(image, start, start + self.first);
        let second = slice_subrange(image, HEADER_SIZE, HEADER_SIZE + self.second);
        proof {
            let v = ring@;
            assert(first@ =~= v.data.subrange(
                v.read as int,
                (v.read + self.first_len()) as int,
            ));
            assert(second@ =~= v.data.subrange(0, self.second_len() as int));
            assert(first@ + second@ =~= v.contents().take(self.len() as int));
            if self.len() == v.readable() {
                assert(v.contents().take(self.len() as int) =~= v.contents());
            }
        }
        (first, second)
    }
}

} // verus!
