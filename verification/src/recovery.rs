//! Bring-up store by store, and what a reset or a stray write does to it.
//!
//! Bring-up changes a region by whole-field stores, in a fixed order. A reset
//! may fall between any two of them. The first part of this module names the
//! stores and proves that a region left behind by an interrupted bring-up
//! comes up, the next time, as the same ring that the undisturbed bring-up
//! would have made. The second part is about images in which single bytes
//! were overwritten.

use crate::bytes::{
    le_bytes, lemma_le_roundtrip, lemma_le_value_top_byte, lemma_radix_values, lemma_splice_same,
    splice,
};
use crate::layout::{Layout, HEADER, HEADER_SIZE, INDEX_SIZE, MAGIC_SIZE};
use crate::region::{
    carried, decode, flushed, lemma_decode_bounds, lemma_write_back, lemma_patch_header_block, load_header, load_index,
    same_spare, store_header, store_index, well_sized, Index,
};
use crate::ring_laws::{lemma_append, lemma_recovered_fresh, lemma_recovered_repaired};
use crate::ring_view::RingView;
use vstd::prelude::*;

verus! {

/// One store to a field of the header block.
pub enum Store {
    /// The read index is set.
    Read(nat),
    /// The write index is set.
    Write(nat),
    /// The header field is set.
    Header(nat),
}

impl RingView {
    /// The region after one store.
    pub open spec fn after(self, store: Store) -> RingView {
        match store {
            Store::Read(read) => RingView { read, ..self },
            Store::Write(write) => RingView { write, ..self },
            Store::Header(header) => RingView { header, ..self },
        }
    }

    /// The region after the first `count` of the given stores.
    pub open spec fn after_first(self, stores: Seq<Store>, count: nat) -> RingView
        decreases count,
    {
        if count == 0 {
            self
        } else {
            self.after_first(stores, (count - 1) as nat).after(stores[count - 1])
        }
    }

    /// The stores that bring-up performs on this region, in order. A fresh
    /// region gets both indices before the magic number, so that the magic
    /// number never vouches for indices that were not written. In an
    /// initialized region only an index out of range is stored, and where
    /// both are, the read index goes first: with the write index still out
    /// of range the region keeps asking for repair.
    pub open spec fn recovery_stores(self) -> Seq<Store> {
        let read_ok = self.read < self.data_len();
        let write_ok = self.write < self.data_len();
        if self.header != self.layout.spec_magic() {
            seq![Store::Read(0), Store::Write(0), Store::Header(self.layout.spec_magic() as nat)]
        } else if read_ok && write_ok {
            Seq::empty()
        } else if read_ok {
            seq![Store::Write(self.read)]
        } else if write_ok {
            seq![Store::Read(self.write)]
        } else {
            seq![Store::Read(0), Store::Write(0)]
        }
    }
}

/// The stores of bring-up, all performed, give the recovered ring.
pub proof fn lemma_recovery_stores_complete(v: RingView)
    ensures
        v.after_first(v.recovery_stores(), v.recovery_stores().len()) == v.recovered(),
{
    reveal_with_fuel(RingView::after_first, 4);
}

/// A reset in the middle of bring-up does no harm: whatever number of its
/// stores had been performed, the next bring-up ends in the ring that the
/// undisturbed one would have made. In particular no interrupted bring-up
/// leaves a region that looks valid and holds bytes that were never
/// written.
pub proof fn lemma_reset_during_recovery(v: RingView, done: nat)
    requires
        v.sized(),
        done <= v.recovery_stores().len(),
    ensures
        v.after_first(v.recovery_stores(), done).recovered() == v.recovered(),
{
    reveal_with_fuel(RingView::after_first, 4);
}

/// A reset in the middle of an append does no harm either: as long as the
/// write index has not been stored, the bytes copied so far are not part of
/// what the consumer reads.
pub proof fn lemma_reset_during_append(v: RingView, bytes: Seq<u8>, copied: nat)
    requires
        v.valid(),
        copied <= v.accepted(bytes),
    ensures
        (RingView { data: v.stored(bytes.take(copied as int)), ..v }).valid(),
        (RingView { data: v.stored(bytes.take(copied as int)), ..v }).contents() == v.contents(),
{
    let mid = RingView { data: v.stored(bytes.take(copied as int)), ..v };
    assert forall|k: int| 0 <= k < v.readable() implies mid.contents()[k] == v.contents()[k] by {
        let at = v.wrap((v.read + k) as nat);
        assert(v.distance(v.write, at) >= copied);
    }
    assert(mid.contents() =~= v.contents());
}

/// Overwriting the header field with anything but the magic number makes
/// the region fresh: it comes up empty, whatever it held.
pub proof fn lemma_foreign_header(layout: Layout, image: Seq<u8>, stamp: u128)
    requires
        well_sized(image),
        stamp != layout.spec_magic(),
    ensures
        decode(layout, splice(image, HEADER as int, le_bytes(stamp as nat, MAGIC_SIZE as nat)))
            .recovered().contents() == Seq::<u8>::empty(),
        decode(layout, splice(image, HEADER as int, le_bytes(stamp as nat, MAGIC_SIZE as nat)))
            .recovered().read == 0,
        decode(layout, splice(image, HEADER as int, le_bytes(stamp as nat, MAGIC_SIZE as nat)))
            .recovered().write == 0,
        decode(layout, splice(image, HEADER as int, le_bytes(stamp as nat, MAGIC_SIZE as nat)))
            .recovered().valid(),
{
    let patch = le_bytes(stamp as nat, MAGIC_SIZE as nat);
    lemma_radix_values();
    lemma_le_roundtrip(stamp as nat, MAGIC_SIZE as nat);
    lemma_splice_same(image, HEADER as int, patch);
    lemma_patch_header_block(layout, image, HEADER as int, patch);
    let after = decode(layout, splice(image, HEADER as int, patch));
    lemma_decode_bounds(layout, splice(image, HEADER as int, patch));
    lemma_recovered_fresh(after);
}

/// An index whose most significant byte is `0xFF` points outside every data
/// area.
pub proof fn lemma_high_byte_out_of_range(layout: Layout, image: Seq<u8>, index: Index)
    requires
        well_sized(image),
        image[index.spec_offset(layout) + INDEX_SIZE - 1] == 0xFF,
    ensures
        index == Index::Read ==> decode(layout, image).read >= decode(layout, image).data_len(),
        index == Index::Write ==> decode(layout, image).write >= decode(
            layout,
            image,
        ).data_len(),
{
    let at = index.spec_offset(layout) as int;
    let field = image.subrange(at, at + INDEX_SIZE);
    lemma_radix_values();
    lemma_le_value_top_byte(field);
    assert(field.last() == 0xFF);
    lemma_decode_bounds(layout, image);
}

/// Setting the most significant byte of an index to `0xFF` in an
/// initialized region triggers the repair: the region comes up as an empty,
/// valid ring with the magic number still in place, and an append finds all
/// slots but one free.
pub proof fn lemma_corrupt_index(layout: Layout, image: Seq<u8>, index: Index)
    requires
        well_sized(image),
        decode(layout, image).header == layout.spec_magic(),
    ensures
        decode(
            layout,
            image.update(index.spec_offset(layout) + INDEX_SIZE - 1, 0xFF),
        ).recovered().valid(),
        decode(
            layout,
            image.update(index.spec_offset(layout) + INDEX_SIZE - 1, 0xFF),
        ).recovered().header == layout.spec_magic(),
        decode(
            layout,
            image.update(index.spec_offset(layout) + INDEX_SIZE - 1, 0xFF),
        ).recovered().contents() == Seq::<u8>::empty(),
        decode(
            layout,
            image.update(index.spec_offset(layout) + INDEX_SIZE - 1, 0xFF),
        ).recovered().writable() == decode(layout, image).data_len() - 1,
        decode(
            layout,
            image.update(index.spec_offset(layout) + INDEX_SIZE - 1, 0xFF),
        ).recovered().data == decode(layout, image).data,
{
    let at = index.spec_offset(layout) + INDEX_SIZE - 1;
    let corrupt = image.update(at, 0xFF);
    assert(corrupt =~= splice(image, at, seq![0xFFu8]));
    lemma_patch_header_block(layout, image, at, seq![0xFFu8]);
    lemma_high_byte_out_of_range(layout, corrupt, index);
    lemma_decode_bounds(layout, corrupt);
    lemma_recovered_repaired(decode(layout, corrupt));
}

/// With both indices out of range the repair sets both to zero.
pub proof fn lemma_corrupt_both_indices(layout: Layout, image: Seq<u8>)
    requires
        well_sized(image),
        decode(layout, image).header == layout.spec_magic(),
    ensures
        decode(
            layout,
            image.update(Index::Read.spec_offset(layout) + INDEX_SIZE - 1, 0xFF).update(
                Index::Write.spec_offset(layout) + INDEX_SIZE - 1,
                0xFF,
            ),
        ).recovered() == (RingView { read: 0, write: 0, ..decode(layout, image) }),
{
    let r = Index::Read.spec_offset(layout) + INDEX_SIZE - 1;
    let w = Index::Write.spec_offset(layout) + INDEX_SIZE - 1;
    let once = image.update(r, 0xFF);
    let twice = once.update(w, 0xFF);
    assert(once =~= splice(image, r, seq![0xFFu8]));
    assert(twice =~= splice(once, w, seq![0xFFu8]));
    lemma_patch_header_block(layout, image, r, seq![0xFFu8]);
    lemma_patch_header_block(layout, once, w, seq![0xFFu8]);
    lemma_high_byte_out_of_range(layout, twice, Index::Read);
    lemma_high_byte_out_of_range(layout, twice, Index::Write);
    lemma_decode_bounds(layout, twice);
    assert(decode(layout, twice).identifier == decode(layout, image).identifier);
}

/// One store to a field of the header block, as it is performed on memory.
#[derive(Clone, Copy, Debug, PartialEq, Eq)]
pub enum FieldStore {
    /// The read index is set.
    Read(u32),
    /// The write index is set.
    Write(u32),
    /// The header field is set.
    Header(u128),
}

impl View for FieldStore {
    type V = Store;

    open spec fn view(&self) -> Store {
        match *self {
            FieldStore::Read(read) => Store::Read(read as nat),
            FieldStore::Write(write) => Store::Write(write as nat),
            FieldStore::Header(header) => Store::Header(header as nat),
        }
    }
}

/// What a list of stores means.
pub open spec fn store_views(plan: Seq<FieldStore>) -> Seq<Store> {
    Seq::new(plan.len(), |i: int| plan[i]@)
}

/// The stores that bring-up performs on a region, in the order in which they
/// must reach memory. A caller that keeps the region in memory of its own
/// performs them there one by one, in this order.
pub fn recovery_plan(layout: Layout, memory: &Vec<u8>) -> (plan: Vec<FieldStore>)
    requires
        well_sized(memory@),
    ensures
        store_views(plan@) == decode(layout, memory@).recovery_stores(),
{
    let len = memory.len() - HEADER_SIZE;
    let mut plan: Vec<FieldStore> = Vec::new();
    proof {
        lemma_decode_bounds(layout, memory@);
    }
    if load_header(memory) != layout.magic() {
        plan.push(FieldStore::Read(0));
        plan.push(FieldStore::Write(0));
        plan.push(FieldStore::Header(layout.magic()));
    } else {
        let write = load_index(layout, memory, Index::Write);
        let read = load_index(layout, memory, Index::Read);
        let read_ok = (read as usize) < len;
        let write_ok = (write as usize) < len;
        if read_ok && write_ok {
        } else if read_ok {
            plan.push(FieldStore::Write(read));
        } else if write_ok {
            plan.push(FieldStore::Read(write));
        } else {
            plan.push(FieldStore::Read(0));
            plan.push(FieldStore::Write(0));
        }
    }
    proof {
        assert(store_views(plan@) =~= decode(layout, memory@).recovery_stores());
    }
    plan
}

/// Performs one store on an image, with the flush that follows it. The
/// meaning of the image changes by that store and by nothing else.
pub fn perform(layout: Layout, image: &mut Vec<u8>, store: FieldStore)
    requires
        HEADER_SIZE <= old(image).len(),
    ensures
        final(image).len() == old(image).len(),
        decode(layout, final(image)@) == decode(layout, old(image)@).after(store@),
        same_spare(layout, old(image)@, final(image)@),
        flushed(layout, old(image)@) ==> flushed(layout, final(image)@),
{
    match store {
        FieldStore::Read(read) => store_index(layout, image, Index::Read, read),
        FieldStore::Write(write) => store_index(layout, image, Index::Write, write),
        FieldStore::Header(header) => store_header(layout, image, header),
    }
}

/// Performs the stores of a plan on an image, in order.
pub fn perform_all(layout: Layout, image: &mut Vec<u8>, plan: &Vec<FieldStore>)
    requires
        HEADER_SIZE <= old(image).len(),
    ensures
        final(image).len() == old(image).len(),
        decode(layout, final(image)@) == decode(layout, old(image)@).after_first(
            store_views(plan@),
            plan@.len(),
        ),
        same_spare(layout, old(image)@, final(image)@),
        flushed(layout, old(image)@) ==> flushed(layout, final(image)@),
{
    let ghost found = decode(layout, image@);
    let ghost stores = store_views(plan@);
    let mut i: usize = 0;
    while i < plan.len()
        invariant
            i <= plan.len(),
            HEADER_SIZE <= image.len(),
            image.len() == old(image).len(),
            stores == store_views(plan@),
            decode(layout, image@) == found.after_first(stores, i as nat),
            same_spare(layout, old(image)@, image@),
            flushed(layout, old(image)@) ==> flushed(layout, image@),
        decreases plan.len() - i,
    {
        perform(layout, image, plan[i]);
        i = i + 1;
    }
}

/// An append reaches memory safely. While the image that an append has
/// left is carried to memory in the write-back order, a reset at any point
/// leaves a valid ring: it holds what was readable before the append until
/// the write index has been carried, and what is readable after it from
/// then on. The bytes of the append are never readable before they are all
/// in memory.
pub proof fn lemma_append_reaches_memory(
    layout: Layout,
    memory: Seq<u8>,
    image: Seq<u8>,
    bytes: Seq<u8>,
    done: nat,
)
    requires
        well_sized(memory),
        memory.len() == image.len(),
        decode(layout, memory).valid(),
        decode(layout, image) == decode(layout, memory).append(bytes),
        done <= 5,
    ensures
        decode(layout, carried(layout, memory, image, done)).valid(),
        done < 4 ==> decode(layout, carried(layout, memory, image, done)).contents() == decode(
            layout,
            memory,
        ).contents(),
        done >= 4 ==> decode(layout, carried(layout, memory, image, done)) == decode(
            layout,
            image,
        ),
{
    let v = decode(layout, memory);
    lemma_write_back(layout, memory, image, done);
    lemma_append(v, bytes);
    lemma_reset_during_append(v, bytes, v.accepted(bytes));
}

/// A release reaches memory safely: while the image that a release has left
/// is carried to memory, the memory means the ring before the release until
/// the read index has been carried, and the ring after it from then on.
pub proof fn lemma_release_reaches_memory(
    layout: Layout,
    memory: Seq<u8>,
    image: Seq<u8>,
    used: nat,
    done: nat,
)
    requires
        well_sized(memory),
        memory.len() == image.len(),
        decode(layout, memory).valid(),
        decode(layout, image) == decode(layout, memory).release(used),
        done <= 5,
    ensures
        done < 3 ==> decode(layout, carried(layout, memory, image, done)) == decode(
            layout,
            memory,
        ),
        done >= 3 ==> decode(layout, carried(layout, memory, image, done)) == decode(
            layout,
            image,
        ),
{
    lemma_write_back(layout, memory, image, done);
}

/// Bring-up reaches memory safely: while the image that bring-up has left
/// is carried to memory in the write-back order, a reset at any point leaves
/// a region that the next bring-up makes the same ring of.
pub proof fn lemma_recovery_reaches_memory(
    layout: Layout,
    memory: Seq<u8>,
    image: Seq<u8>,
    done: nat,
)
    requires
        well_sized(memory),
        memory.len() == image.len(),
        decode(layout, image) == decode(layout, memory).recovered(),
        done <= 5,
    ensures
        decode(layout, carried(layout, memory, image, done)).recovered() == decode(
            layout,
            memory,
        ).recovered(),
{
    lemma_write_back(layout, memory, image, done);
    lemma_decode_bounds(layout, memory);
}

} // verus!
