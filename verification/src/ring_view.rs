//! The ring as a mathematical object.
//!
//! [`RingView`] is what a persist region means once its fields are decoded:
//! magic number, identifier, the two indices and the data area. The
//! operations of the ring are given here as functions from view to view, and
//! the executable code in the ring buffer module is specified against them.

use crate::layout::{Layout, DATA_LIMIT};
use vstd::prelude::*;

verus! {

/// How a region presents itself when it is brought up.
#[derive(Clone, Copy, Debug, PartialEq, Eq, Structural)]
pub enum RegionState {
    /// The magic number is absent: nothing in the region is trusted.
    Fresh,
    /// The magic number is present and both indices lie in the data area.
    Valid,
    /// The magic number is present, but an index points outside the data area.
    Repairable,
}

/// The decoded fields of a persist region.
pub struct RingView {
    /// The layout that the region is read under.
    pub layout: Layout,
    /// The value in the header field.
    pub header: nat,
    /// The sixteen bytes of the identifier.
    pub identifier: Seq<u8>,
    /// Where the next byte is read.
    pub read: nat,
    /// Where the next byte is written.
    pub write: nat,
    /// The data area.
    pub data: Seq<u8>,
}

/// The smaller of two numbers.
pub open spec fn least(a: nat, b: nat) -> nat {
    if a <= b {
        a
    } else {
        b
    }
}

impl RingView {
    /// The length of the data area.
    pub open spec fn data_len(self) -> nat {
        self.data.len()
    }

    /// The data area has a length that the ring can work with: at least one
    /// byte, and less than [`DATA_LIMIT`].
    pub open spec fn sized(self) -> bool {
        1 <= self.data_len() < DATA_LIMIT
    }

    /// The ring invariant: the region is marked initialized and both indices
    /// lie inside the data area.
    pub open spec fn valid(self) -> bool {
        &&& self.sized()
        &&& self.header == self.layout.spec_magic()
        &&& self.read < self.data_len()
        &&& self.write < self.data_len()
    }

    /// How the region presents itself at bring-up.
    pub open spec fn state(self) -> RegionState {
        if self.header != self.layout.spec_magic() {
            RegionState::Fresh
        } else if self.read < self.data_len() && self.write < self.data_len() {
            RegionState::Valid
        } else {
            RegionState::Repairable
        }
    }

    /// An index that has run up to one lap past the end, brought back into
    /// the data area.
    pub open spec fn wrap(self, index: nat) -> nat {
        if index < self.data_len() {
            index
        } else {
            (index - self.data_len()) as nat
        }
    }

    /// How far `index` lies behind `origin`, going round the ring.
    pub open spec fn distance(self, origin: nat, index: nat) -> nat {
        if index >= origin {
            (index - origin) as nat
        } else {
            (self.data_len() - origin + index) as nat
        }
    }

    /// The number of bytes that wait to be read.
    pub open spec fn readable(self) -> nat {
        self.distance(self.read, self.write)
    }

    /// The number of bytes that can be written. One slot always stays empty,
    /// which tells a full ring from an empty one.
    pub open spec fn writable(self) -> nat {
        (self.data_len() - 1 - self.readable()) as nat
    }

    /// Nothing waits to be read.
    pub open spec fn is_empty(self) -> bool {
        self.read == self.write
    }

    /// The bytes that wait to be read, oldest first.
    pub open spec fn contents(self) -> Seq<u8> {
        Seq::new(self.readable(), |k: int| self.data[self.wrap((self.read + k) as nat) as int])
    }

    /// The length of the first slice of a read grant: the readable bytes up
    /// to the end of the data area.
    pub open spec fn first_len(self) -> nat {
        if self.write < self.read {
            (self.data_len() - self.read) as nat
        } else {
            (self.write - self.read) as nat
        }
    }

    /// The length of the second slice of a read grant: the readable bytes
    /// that lie behind the wrap point.
    pub open spec fn second_len(self) -> nat {
        if self.write < self.read {
            self.write
        } else {
            0
        }
    }

    /// The first slice of a read grant.
    pub open spec fn first_slice(self) -> Seq<u8> {
        self.data.subrange(self.read as int, (self.read + self.first_len()) as int)
    }

    /// The second slice of a read grant.
    pub open spec fn second_slice(self) -> Seq<u8> {
        self.data.subrange(0, self.second_len() as int)
    }

    /// The number of bytes of `bytes` that an append takes: all of them if
    /// they fit, else as many as can be written.
    pub open spec fn accepted(self, bytes: Seq<u8>) -> nat {
        least(bytes.len(), self.writable())
    }

    /// The data area after `bytes` have been stored from the write index on,
    /// going round the ring.
    pub open spec fn stored(self, bytes: Seq<u8>) -> Seq<u8> {
        Seq::new(
            self.data.len(),
            |i: int|
                if self.distance(self.write, i as nat) < bytes.len() {
                    bytes[self.distance(self.write, i as nat) as int]
                } else {
                    self.data[i]
                },
        )
    }

    /// The ring after the producer has appended `bytes`. What does not fit
    /// is dropped from the end of `bytes`.
    pub open spec fn append(self, bytes: Seq<u8>) -> RingView {
        let taken = bytes.take(self.accepted(bytes) as int);
        RingView {
            write: self.wrap(self.write + taken.len()),
            data: self.stored(taken),
            ..self
        }
    }

    /// The ring after the consumer has released `used` bytes, or all that is
    /// readable if that is less.
    pub open spec fn release(self, used: nat) -> RingView {
        RingView { read: self.wrap(self.read + least(used, self.readable())), ..self }
    }

    /// The ring with another identifier.
    pub open spec fn with_identifier(self, identifier: Seq<u8>) -> RingView {
        RingView { identifier, ..self }
    }

    /// The ring that bring-up makes of a region. A fresh region becomes an
    /// empty ring. Under a present magic number, indices in range are kept;
    /// one index out of range is set to the other, which empties the ring;
    /// two out of range are both set to zero. The data area and the
    /// identifier are never touched.
    pub open spec fn recovered(self) -> RingView {
        let read_ok = self.read < self.data_len();
        let write_ok = self.write < self.data_len();
        if self.header != self.layout.spec_magic() {
            RingView { header: self.layout.spec_magic() as nat, read: 0, write: 0, ..self }
        } else if read_ok && write_ok {
            self
        } else if read_ok {
            RingView { write: self.read, ..self }
        } else if write_ok {
            RingView { read: self.write, ..self }
        } else {
            RingView { read: 0, write: 0, ..self }
        }
    }

    /// The ring after one step of either end.
    pub open spec fn step(self, op: RingOp) -> RingView {
        match op {
            RingOp::Append(bytes) => self.append(bytes),
            RingOp::Release(used) => self.release(used),
        }
    }

    /// The ring after the given steps, in order.
    pub open spec fn run(self, ops: Seq<RingOp>) -> RingView
        decreases ops.len(),
    {
        if ops.len() == 0 {
            self
        } else {
            self.run(ops.drop_last()).step(ops.last())
        }
    }

    /// The bytes that the appends among the given steps put into the ring,
    /// in order: of each append the part that was not dropped.
    pub open spec fn taken_in(self, ops: Seq<RingOp>) -> Seq<u8>
        decreases ops.len(),
    {
        if ops.len() == 0 {
            Seq::empty()
        } else {
            let before = self.run(ops.drop_last());
            self.taken_in(ops.drop_last()) + (match ops.last() {
                RingOp::Append(bytes) => bytes.take(before.accepted(bytes) as int),
                RingOp::Release(_) => Seq::empty(),
            })
        }
    }

    /// The bytes that the releases among the given steps took out of the
    /// ring, in order.
    pub open spec fn released_in(self, ops: Seq<RingOp>) -> Seq<u8>
        decreases ops.len(),
    {
        if ops.len() == 0 {
            Seq::empty()
        } else {
            let before = self.run(ops.drop_last());
            self.released_in(ops.drop_last()) + (match ops.last() {
                RingOp::Append(_) => Seq::empty(),
                RingOp::Release(used) => before.contents().take(
                    least(used, before.readable()) as int,
                ),
            })
        }
    }
}

/// A step that changes the ring. Taking a grant is no step: it changes
/// nothing.
pub enum RingOp {
    /// The producer appends bytes.
    Append(Seq<u8>),
    /// The consumer releases a number of bytes of its grant.
    Release(nat),
}

} // verus!
