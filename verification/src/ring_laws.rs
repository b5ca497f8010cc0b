//! What holds of the ring, proved over [`RingView`].

use crate::bytes::splice;
use crate::ring_view::{least, RegionState, RingOp, RingView};
use vstd::arithmetic::div_mod::lemma_fundamental_div_mod_converse;
use vstd::prelude::*;

verus! {

/// In a valid ring both indices lie in the data area, the number of readable
/// bytes is the distance from read to write modulo the length of the data
/// area, and readable and writable bytes together fill all slots but one.
pub proof fn lemma_bounds(v: RingView)
    requires
        v.valid(),
    ensures
        v.read < v.data_len(),
        v.write < v.data_len(),
        v.readable() == (v.write - v.read) % (v.data_len() as int),
        0 <= v.readable() <= v.data_len() - 1,
        v.readable() + v.writable() == v.data_len() - 1,
        v.readable() == 0 <==> v.is_empty(),
{
    let len = v.data_len() as int;
    if v.write >= v.read {
        lemma_fundamental_div_mod_converse(v.write - v.read, len, 0, v.write - v.read);
    } else {
        lemma_fundamental_div_mod_converse(v.write - v.read, len, -1, v.write - v.read + len);
    }
}

/// The index that an append or a release computes is the sum modulo the
/// length of the data area.
pub proof fn lemma_wrap_is_mod(v: RingView, index: nat)
    requires
        v.sized(),
        index < 2 * v.data_len(),
    ensures
        v.wrap(index) == index % v.data_len(),
        v.wrap(index) < v.data_len(),
{
    let len = v.data_len() as int;
    if index < v.data_len() {
        lemma_fundamental_div_mod_converse(index as int, len, 0, index as int);
    } else {
        lemma_fundamental_div_mod_converse(index as int, len, 1, index - len);
    }
}

/// An append keeps the ring valid. It moves the write index forward by the
/// number of bytes it took, leaves the read index alone, and the readable
/// bytes afterwards are those from before followed by the bytes taken: all
/// of `bytes` where they fit, else its first `writable` bytes.
pub proof fn lemma_append(v: RingView, bytes: Seq<u8>)
    requires
        v.valid(),
    ensures
        v.append(bytes).valid(),
        v.append(bytes).read == v.read,
        v.append(bytes).write == v.wrap(v.write + v.accepted(bytes)),
        v.append(bytes).readable() == v.readable() + v.accepted(bytes),
        v.append(bytes).contents() == v.contents() + bytes.take(v.accepted(bytes) as int),
        bytes.len() <= v.writable() ==> v.append(bytes).contents() == v.contents() + bytes,
        bytes.len() > v.writable() ==> v.append(bytes).contents() == v.contents() + bytes.take(
            v.writable() as int,
        ),
{
    let n = v.accepted(bytes);
    let taken = bytes.take(n as int);
    let after = v.append(bytes);
    assert(after.data.len() == v.data.len());
    assert(after.readable() == v.readable() + n);
    assert forall|k: int| 0 <= k < v.readable() + n implies after.contents()[k] == (v.contents()
        + taken)[k] by {
        let at = v.wrap((v.read + k) as nat);
        assert(after.wrap((after.read + k) as nat) == at);
        if k < v.readable() {
            assert(v.distance(v.write, at) >= n);
        } else {
            assert(v.distance(v.write, at) == k - v.readable());
        }
    }
    assert(after.contents() =~= v.contents() + taken);
    if bytes.len() <= v.writable() {
        assert(taken =~= bytes);
    }
}

/// An append that takes nothing changes nothing.
pub proof fn lemma_append_nothing(v: RingView, bytes: Seq<u8>)
    requires
        v.valid(),
        v.accepted(bytes) == 0,
    ensures
        v.append(bytes) == v,
{
    let after = v.append(bytes);
    assert(after.data =~= v.data);
}

/// Appending in two parts gives what appending the whole gives.
pub proof fn lemma_append_twice(v: RingView, first: Seq<u8>, second: Seq<u8>)
    requires
        v.valid(),
    ensures
        v.append(first).append(second) == v.append(first + second),
{
    lemma_append(v, first);
    let mid = v.append(first);
    let n1 = v.accepted(first);
    let n2 = mid.accepted(second);
    let whole = first + second;
    let n = v.accepted(whole);
    assert(n == n1 + n2);
    let two = mid.append(second);
    let one = v.append(whole);
    assert(two.write == one.write);
    assert forall|i: int| 0 <= i < v.data.len() implies two.data[i] == one.data[i] by {
        let d = v.distance(v.write, i as nat);
        if d < n1 {
            assert(mid.distance(mid.write, i as nat) >= n2);
            assert(whole.take(n as int)[d as int] == first.take(n1 as int)[d as int]);
        } else if d < n {
            assert(mid.distance(mid.write, i as nat) == d - n1);
            assert(whole.take(n as int)[d as int] == second.take(n2 as int)[d - n1]);
        } else {
            assert(mid.distance(mid.write, i as nat) >= n2);
        }
    }
    assert(two.data =~= one.data);
}

/// The two slices of a read grant, one after the other, are the readable
/// bytes, and their lengths add up to the number of readable bytes. The
/// second slice is empty unless the readable bytes cross the wrap point.
pub proof fn lemma_slices(v: RingView)
    requires
        v.valid(),
    ensures
        v.first_len() + v.second_len() == v.readable(),
        v.first_len() + v.second_len() == (v.write - v.read) % (v.data_len() as int),
        v.first_slice().len() == v.first_len(),
        v.second_slice().len() == v.second_len(),
        v.first_slice() + v.second_slice() == v.contents(),
        v.write >= v.read ==> v.second_slice() == Seq::<u8>::empty(),
{
    lemma_bounds(v);
    assert(v.first_slice() + v.second_slice() =~= v.contents());
    if v.write >= v.read {
        assert(v.second_slice() =~= Seq::<u8>::empty());
    }
}

/// A release keeps the ring valid. It moves the read index forward by the
/// number released, which is at most what is readable, leaves the write
/// index and the data alone, and takes that many bytes off the front of the
/// readable bytes.
pub proof fn lemma_release(v: RingView, used: nat)
    requires
        v.valid(),
    ensures
        v.release(used).valid(),
        v.release(used).write == v.write,
        v.release(used).data == v.data,
        v.release(used).readable() == v.readable() - least(used, v.readable()),
        v.release(used).contents() == v.contents().skip(least(used, v.readable()) as int),
        used >= v.readable() ==> v.release(used).is_empty(),
{
    let n = least(used, v.readable());
    let after = v.release(used);
    assert(after.readable() == v.readable() - n);
    assert forall|k: int| 0 <= k < v.readable() - n implies after.contents()[k]
        == v.contents().skip(n as int)[k] by {
        assert(after.wrap((after.read + k) as nat) == v.wrap((v.read + (k + n)) as nat));
    }
    assert(after.contents() =~= v.contents().skip(n as int));
}

/// Releasing nothing changes nothing: a grant that is given up unused
/// leaves the ring as it was.
pub proof fn lemma_release_nothing(v: RingView)
    requires
        v.valid(),
    ensures
        v.release(0) == v,
{
}

/// What the consumer may read is not disturbed by the producer: after an
/// append the bytes that were readable before are still the first readable
/// bytes, in both slices of a grant taken before the append.
pub proof fn lemma_append_keeps_granted(v: RingView, bytes: Seq<u8>)
    requires
        v.valid(),
    ensures
        v.append(bytes).data.subrange(v.read as int, (v.read + v.first_len()) as int) == v.first_slice(),
        v.append(bytes).data.subrange(0, v.second_len() as int) == v.second_slice(),
{
    let after = v.append(bytes);
    let n = v.accepted(bytes);
    assert forall|i: int| v.read <= i < v.read + v.first_len() implies after.data[i]
        == v.data[i] by {
        assert(v.distance(v.write, i as nat) >= n);
    }
    assert forall|i: int| 0 <= i < v.second_len() implies after.data[i] == v.data[i] by {
        assert(v.distance(v.write, i as nat) >= n);
    }
    assert(after.data.subrange(v.read as int, (v.read + v.first_len()) as int) =~= v.first_slice());
    assert(after.data.subrange(0, v.second_len() as int) =~= v.second_slice());
}

/// Bring-up always ends in a valid ring, whatever the region held, and
/// touches neither the data area nor the identifier.
pub proof fn lemma_recovered_valid(v: RingView)
    requires
        v.sized(),
    ensures
        v.recovered().valid(),
        v.recovered().data == v.data,
        v.recovered().identifier == v.identifier,
        v.recovered().layout == v.layout,
{
}

/// A valid ring comes through bring-up unchanged: what was written before a
/// reset is read after it.
pub proof fn lemma_recovered_keeps_valid(v: RingView)
    requires
        v.valid(),
    ensures
        v.state() == RegionState::Valid,
        v.recovered() == v,
        v.recovered().contents() == v.contents(),
{
}

/// A region without the magic number is fresh: bring-up makes an empty ring
/// of it, with both indices at zero, and stamps the magic number.
pub proof fn lemma_recovered_fresh(v: RingView)
    requires
        v.sized(),
        v.header != v.layout.spec_magic(),
    ensures
        v.state() == RegionState::Fresh,
        v.recovered().read == 0,
        v.recovered().write == 0,
        v.recovered().header == v.layout.spec_magic(),
        v.recovered().contents() == Seq::<u8>::empty(),
        v.recovered().writable() == v.data_len() - 1,
{
    assert(v.recovered().contents() =~= Seq::<u8>::empty());
}

/// Under a present magic number an index outside the data area is repaired:
/// the ring comes up empty with the magic number still in place, and has
/// room for all but one slot. Where only one index was out of range it takes
/// the value of the other; where both were, both become zero.
pub proof fn lemma_recovered_repaired(v: RingView)
    requires
        v.sized(),
        v.header == v.layout.spec_magic(),
        v.read >= v.data_len() || v.write >= v.data_len(),
    ensures
        v.state() == RegionState::Repairable,
        v.recovered().valid(),
        v.recovered().header == v.layout.spec_magic(),
        v.recovered().is_empty(),
        v.recovered().contents() == Seq::<u8>::empty(),
        v.recovered().writable() == v.data_len() - 1,
        v.read < v.data_len() ==> v.recovered().read == v.read && v.recovered().write == v.read,
        v.write < v.data_len() ==> v.recovered().read == v.write && v.recovered().write
            == v.write,
        v.read >= v.data_len() && v.write >= v.data_len() ==> v.recovered().read == 0
            && v.recovered().write == 0,
{
    assert(v.recovered().contents() =~= Seq::<u8>::empty());
}

/// However the appends of the producer and the releases of the consumer
/// interleave, the ring stays valid at every point: both indices inside the
/// data area, and between none and all slots but one readable. The data area
/// keeps its length, and the header and the identifier their values.
pub proof fn lemma_run_valid(v: RingView, ops: Seq<RingOp>, upto: nat)
    requires
        v.valid(),
        upto <= ops.len(),
    ensures
        v.run(ops.take(upto as int)).valid(),
        v.run(ops.take(upto as int)).read < v.data_len(),
        v.run(ops.take(upto as int)).write < v.data_len(),
        0 <= v.run(ops.take(upto as int)).readable() <= v.data_len() - 1,
        v.run(ops.take(upto as int)).data_len() == v.data_len(),
        v.run(ops.take(upto as int)).header == v.header,
        v.run(ops.take(upto as int)).identifier == v.identifier,
    decreases upto,
{
    let done = ops.take(upto as int);
    if upto > 0 {
        lemma_run_valid(v, ops, (upto - 1) as nat);
        assert(done.drop_last() =~= ops.take(upto - 1));
        let before = v.run(done.drop_last());
        match done.last() {
            RingOp::Append(bytes) => {
                lemma_append(before, bytes);
            },
            RingOp::Release(used) => {
                lemma_release(before, used);
            },
        }
    }
    lemma_bounds(v.run(done));
}

/// The ring is a queue: over any run of appends and releases, what was
/// readable at the start followed by what the appends put in is what the
/// releases took out followed by what is readable at the end. Nothing is
/// lost but what an append dropped, nothing comes out twice, and nothing
/// out of order.
pub proof fn lemma_run_conserves(v: RingView, ops: Seq<RingOp>)
    requires
        v.valid(),
    ensures
        v.contents() + v.taken_in(ops) == v.released_in(ops) + v.run(ops).contents(),
    decreases ops.len(),
{
    if ops.len() == 0 {
        assert(v.contents() + v.taken_in(ops) =~= v.released_in(ops) + v.run(ops).contents());
    } else {
        let head = ops.drop_last();
        let before = v.run(head);
        lemma_run_conserves(v, head);
        assert(before.valid()) by {
            lemma_run_valid(v, head, head.len());
            assert(head.take(head.len() as int) =~= head);
        }
        let start = v.contents();
        let put = v.taken_in(head);
        let got = v.released_in(head);
        let held = before.contents();
        let after = v.run(ops).contents();
        match ops.last() {
            RingOp::Append(bytes) => {
                let more = bytes.take(before.accepted(bytes) as int);
                assert(after == held + more) by {
                    lemma_append(before, bytes);
                }
                assert(v.taken_in(ops) == put + more);
                assert(v.released_in(ops) == got + Seq::<u8>::empty());
                lemma_queue_grows(start, put, got, held, more);
            },
            RingOp::Release(used) => {
                let count = least(used, before.readable());
                assert(after == held.skip(count as int)) by {
                    lemma_release(before, used);
                }
                assert(v.taken_in(ops) == put + Seq::<u8>::empty());
                assert(v.released_in(ops) == got + held.take(count as int));
                lemma_queue_shrinks(start, put, got, held, count);
            },
        }
    }
}

/// Bytes put in at the back of a queue stay behind what it holds.
proof fn lemma_queue_grows(
    start: Seq<u8>,
    put: Seq<u8>,
    got: Seq<u8>,
    held: Seq<u8>,
    more: Seq<u8>,
)
    requires
        start + put == got + held,
    ensures
        start + (put + more) == (got + Seq::<u8>::empty()) + (held + more),
{
    assert(start + (put + more) =~= (start + put) + more);
    assert((got + Seq::<u8>::empty()) + (held + more) =~= (got + held) + more);
}

/// Bytes taken from the front of a queue follow what was taken before.
proof fn lemma_queue_shrinks(
    start: Seq<u8>,
    put: Seq<u8>,
    got: Seq<u8>,
    held: Seq<u8>,
    count: nat,
)
    requires
        start + put == got + held,
        count <= held.len(),
    ensures
        start + (put + Seq::<u8>::empty()) == (got + held.take(count as int)) + held.skip(
            count as int,
        ),
{
    assert(start + (put + Seq::<u8>::empty()) =~= start + put);
    assert((got + held.take(count as int)) + held.skip(count as int) =~= got + held);
}

/// The two ends do not get in each other's way: a release by the consumer
/// and an append by the producer give the same ring in either order. So an
/// append that works from a read index it observed before the release takes
/// no more than fits, and takes what it would have taken then.
pub proof fn lemma_append_release_commute(v: RingView, bytes: Seq<u8>, used: nat)
    requires
        v.valid(),
        used <= v.readable(),
    ensures
        v.accepted(bytes) <= v.release(used).accepted(bytes),
        v.append(bytes).release(used) == v.release(used).append(
            bytes.take(v.accepted(bytes) as int),
        ),
{
    let taken = bytes.take(v.accepted(bytes) as int);
    let one = v.append(bytes).release(used);
    let other = v.release(used).append(taken);
    lemma_append(v, bytes);
    lemma_release(v, used);
    assert(taken.take(taken.len() as int) =~= taken);
    assert(other.data =~= one.data);
}

/// What was written before a reset is read after it: a ring that an append
/// has left comes through bring-up unchanged, so the consumer finds the
/// bytes that were readable before, followed by the bytes that the append
/// took.
pub proof fn lemma_written_survives_reset(v: RingView, bytes: Seq<u8>)
    requires
        v.valid(),
    ensures
        v.append(bytes).recovered() == v.append(bytes),
        v.append(bytes).recovered().contents() == v.contents() + bytes.take(
            v.accepted(bytes) as int,
        ),
{
    lemma_append(v, bytes);
}

/// Bytes that fit before the end of the data area are stored in one piece.
pub proof fn lemma_stored_straight(v: RingView, bytes: Seq<u8>)
    requires
        v.valid(),
        v.write + bytes.len() <= v.data_len(),
    ensures
        v.stored(bytes) == splice(v.data, v.write as int, bytes),
{
    assert(v.stored(bytes) =~= splice(v.data, v.write as int, bytes));
}

/// Bytes that cross the end of the data area are stored in two pieces: up
/// to the end, and the rest from the start.
pub proof fn lemma_stored_wrapping(v: RingView, bytes: Seq<u8>)
    requires
        v.valid(),
        bytes.len() <= v.data_len(),
        v.write + bytes.len() > v.data_len(),
    ensures
        v.stored(bytes) == splice(
            splice(v.data, v.write as int, bytes.take(v.data_len() - v.write)),
            0,
            bytes.skip(v.data_len() - v.write),
        ),
{
    let pivot = v.data_len() - v.write;
    let once = splice(v.data, v.write as int, bytes.take(pivot));
    assert(v.stored(bytes) =~= splice(once, 0, bytes.skip(pivot)));
}

/// An append wraps only where the write index is not behind the read index.
pub proof fn lemma_wrapping_needs_room(v: RingView, count: nat)
    requires
        v.valid(),
        count <= v.writable(),
        v.write + count > v.data_len(),
    ensures
        v.write >= v.read,
        v.write + count - v.data_len() < v.read,
{
}

} // verus!
