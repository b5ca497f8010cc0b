//! The raw image of a persist region, and its fields.
//!
//! A region is a run of bytes that survives a reset. [`decode`] says what such
//! an image means; the accessors read and write single fields of an image and
//! state what that does to its meaning. They work on any image that is long
//! enough to hold the header block, whatever its bytes are: memory that comes
//! out of a reset is not trusted to hold anything in particular.

use crate::bytes::{
    le_bytes, le_value, lemma_le_bytes_of_value, lemma_le_roundtrip, lemma_le_value_bounded,
    lemma_radix_values, lemma_splice_other, lemma_splice_same, load_le, splice, store_le,
};
use crate::layout::{
    Layout, DATA_LIMIT, FLUSH_CELL, HEADER, HEADER_SIZE, IDENTIFIER, IDENTIFIER_SIZE, INDEX_SIZE,
    MAGIC_SIZE, READ, WRITE,
};
use crate::ring_view::RingView;
use vstd::prelude::*;

verus! {

/// An opaque tag that tells which firmware build wrote the contents of a
/// region.
#[derive(Clone, Copy, Debug, PartialEq, Eq)]
pub struct Identifier(pub [u8; 16]);

impl View for Identifier {
    type V = Seq<u8>;

    open spec fn view(&self) -> Seq<u8> {
        self.0@
    }
}

/// One of the two indices of the ring.
#[derive(Clone, Copy, Debug, PartialEq, Eq, Structural)]
pub enum Index {
    /// The index that the consumer owns.
    Read,
    /// The index that the producer owns.
    Write,
}

impl Index {
    /// Where the index lies in an image of the given layout.
    pub open spec fn spec_offset(self, layout: Layout) -> usize {
        match self {
            Index::Read => READ,
            Index::Write => layout.spec_write_offset(),
        }
    }

    /// Where the index lies in an image of the given layout.
    #[verifier::when_used_as_spec(spec_offset)]
    pub fn offset(self, layout: Layout) -> (offset: usize)
        ensures
            offset == self.spec_offset(layout),
            offset + 2 * INDEX_SIZE <= HEADER_SIZE,
        no_unwind
    {
        match self {
            Index::Read => READ,
            Index::Write => layout.write_offset(),
        }
    }
}

/// The image is long enough for the header block and a data area of a
/// length that the ring can work with.
pub open spec fn well_sized(image: Seq<u8>) -> bool {
    HEADER_SIZE < image.len() < HEADER_SIZE + DATA_LIMIT
}

/// What an image means when it is read under `layout`.
pub open spec fn decode(layout: Layout, image: Seq<u8>) -> RingView {
    RingView {
        layout,
        header: le_value(image.subrange(HEADER as int, HEADER + MAGIC_SIZE)),
        identifier: image.subrange(IDENTIFIER as int, IDENTIFIER + IDENTIFIER_SIZE),
        read: le_value(image.subrange(READ as int, READ + INDEX_SIZE)),
        write: le_value(
            image.subrange(
                layout.spec_write_offset() as int,
                layout.spec_write_offset() + INDEX_SIZE,
            ),
        ),
        data: image.subrange(HEADER_SIZE as int, image.len() as int),
    }
}

/// The image after the flush that follows a store to `index`: unchanged in
/// the plain layout, with the flush cell zeroed for 32-bit ECC words, with
/// the padding word behind the index zeroed for 64-bit ECC words.
pub open spec fn after_flush(layout: Layout, image: Seq<u8>, index: Index) -> Seq<u8> {
    match layout {
        Layout::Plain => image,
        Layout::Ecc32 => image.update(FLUSH_CELL as int, 0),
        Layout::Ecc64 => splice(
            image,
            index.spec_offset(layout) + INDEX_SIZE,
            seq![0u8, 0u8, 0u8, 0u8],
        ),
    }
}

/// The image after the flush that follows a store to the header field or to
/// the identifier: with the flush cell zeroed for 32-bit ECC words, and
/// unchanged in the other layouts, where these fields fill whole ECC words.
pub open spec fn after_field_flush(layout: Layout, image: Seq<u8>) -> Seq<u8> {
    match layout {
        Layout::Ecc32 => image.update(FLUSH_CELL as int, 0),
        _ => image,
    }
}

/// Whether position `at` of the header block holds neither a field nor a
/// flush cell.
pub open spec fn spare(layout: Layout, at: int) -> bool {
    match layout {
        Layout::Plain => WRITE + INDEX_SIZE <= at < HEADER_SIZE,
        Layout::Ecc32 => FLUSH_CELL < at < HEADER_SIZE,
        Layout::Ecc64 => false,
    }
}

/// The spare bytes of the header block are the same in both images.
pub open spec fn same_spare(layout: Layout, before: Seq<u8>, after: Seq<u8>) -> bool {
    forall|at: int| spare(layout, at) ==> after[at] == before[at]
}

/// The cells that are written to flush `index` hold zero.
pub open spec fn cells_clear(layout: Layout, image: Seq<u8>, index: Index) -> bool {
    match layout {
        Layout::Plain => true,
        Layout::Ecc32 => image[FLUSH_CELL as int] == 0,
        Layout::Ecc64 => forall|i: int|
            index.spec_offset(layout) + INDEX_SIZE <= i < index.spec_offset(layout) + 2
                * INDEX_SIZE ==> image[i] == 0,
    }
}

/// The cells that a layout writes to force its ECC write cache to commit
/// hold zero, as they do once both indices have been flushed.
pub open spec fn flushed(layout: Layout, image: Seq<u8>) -> bool {
    cells_clear(layout, image, Index::Read) && cells_clear(layout, image, Index::Write)
}

/// The header and both indices fit their fields, and the meaning of an image
/// has the image's layout and a data area of the image's size.
pub proof fn lemma_decode_bounds(layout: Layout, image: Seq<u8>)
    requires
        HEADER_SIZE <= image.len(),
    ensures
        decode(layout, image).header <= u128::MAX,
        decode(layout, image).read <= u32::MAX,
        decode(layout, image).write <= u32::MAX,
        decode(layout, image).identifier.len() == IDENTIFIER_SIZE,
        decode(layout, image).data.len() == image.len() - HEADER_SIZE,
        well_sized(image) <==> decode(layout, image).sized(),
{
    lemma_radix_values();
    lemma_le_value_bounded(image.subrange(HEADER as int, HEADER + MAGIC_SIZE));
    lemma_le_value_bounded(image.subrange(READ as int, READ + INDEX_SIZE));
    lemma_le_value_bounded(
        image.subrange(layout.spec_write_offset() as int, layout.spec_write_offset() + INDEX_SIZE),
    );
}

/// An image is known byte for byte from what it means, once its flush cells
/// hold zero and its spare bytes are known.
pub proof fn lemma_image_determined(layout: Layout, one: Seq<u8>, other: Seq<u8>)
    requires
        HEADER_SIZE <= one.len(),
        decode(layout, one) == decode(layout, other),
        one.len() == other.len(),
        flushed(layout, one),
        flushed(layout, other),
        same_spare(layout, one, other),
    ensures
        one == other,
{
    let w = layout.spec_write_offset() as int;
    assert forall|i: int| 0 <= i < one.len() implies one[i] == other[i] by {
        if i < IDENTIFIER {
            let a = one.subrange(HEADER as int, HEADER + MAGIC_SIZE);
            let b = other.subrange(HEADER as int, HEADER + MAGIC_SIZE);
            lemma_le_bytes_of_value(a);
            lemma_le_bytes_of_value(b);
            assert(a[i - HEADER] == one[i] && b[i - HEADER] == other[i]);
        } else if i < READ {
            let a = one.subrange(IDENTIFIER as int, IDENTIFIER + IDENTIFIER_SIZE);
            let b = other.subrange(IDENTIFIER as int, IDENTIFIER + IDENTIFIER_SIZE);
            assert(a[i - IDENTIFIER] == one[i] && b[i - IDENTIFIER] == other[i]);
        } else if i < READ + INDEX_SIZE {
            let a = one.subrange(READ as int, READ + INDEX_SIZE);
            let b = other.subrange(READ as int, READ + INDEX_SIZE);
            lemma_le_bytes_of_value(a);
            lemma_le_bytes_of_value(b);
            assert(a[i - READ] == one[i] && b[i - READ] == other[i]);
        } else if w <= i < w + INDEX_SIZE {
            let a = one.subrange(w, w + INDEX_SIZE);
            let b = other.subrange(w, w + INDEX_SIZE);
            lemma_le_bytes_of_value(a);
            lemma_le_bytes_of_value(b);
            assert(a[i - w] == one[i] && b[i - w] == other[i]);
        } else if i < HEADER_SIZE {
            assert(spare(layout, i) || one[i] == 0 && other[i] == 0);
        } else {
            let a = one.subrange(HEADER_SIZE as int, one.len() as int);
            let b = other.subrange(HEADER_SIZE as int, other.len() as int);
            assert(a[i - HEADER_SIZE] == one[i] && b[i - HEADER_SIZE] == other[i]);
        }
    }
    assert(one =~= other);
}

/// A patch inside the header block changes no more of the meaning than the
/// fields it overlaps.
pub proof fn lemma_patch_header_block(layout: Layout, image: Seq<u8>, at: int, patch: Seq<u8>)
    requires
        HEADER_SIZE <= image.len(),
        0 <= at,
        at + patch.len() <= HEADER_SIZE,
    ensures
        splice(image, at, patch).len() == image.len(),
        decode(layout, splice(image, at, patch)).data == decode(layout, image).data,
        decode(layout, splice(image, at, patch)).layout == layout,
        at >= MAGIC_SIZE ==> decode(layout, splice(image, at, patch)).header == decode(
            layout,
            image,
        ).header,
        at + patch.len() <= IDENTIFIER || at >= READ ==> decode(
            layout,
            splice(image, at, patch),
        ).identifier == decode(layout, image).identifier,
        at + patch.len() <= READ || at >= READ + INDEX_SIZE ==> decode(
            layout,
            splice(image, at, patch),
        ).read == decode(layout, image).read,
        at + patch.len() <= layout.spec_write_offset() || at >= layout.spec_write_offset()
            + INDEX_SIZE ==> decode(layout, splice(image, at, patch)).write == decode(
            layout,
            image,
        ).write,
{
    let after = splice(image, at, patch);
    lemma_splice_other(image, at, patch, HEADER_SIZE as int, image.len() as int);
    if at >= MAGIC_SIZE {
        lemma_splice_other(image, at, patch, HEADER as int, HEADER + MAGIC_SIZE);
    }
    if at + patch.len() <= IDENTIFIER || at >= READ {
        lemma_splice_other(image, at, patch, IDENTIFIER as int, IDENTIFIER + IDENTIFIER_SIZE);
    }
    if at + patch.len() <= READ || at >= READ + INDEX_SIZE {
        lemma_splice_other(image, at, patch, READ as int, READ + INDEX_SIZE);
    }
    let w = layout.spec_write_offset() as int;
    if at + patch.len() <= w || at >= w + INDEX_SIZE {
        lemma_splice_other(image, at, patch, w, w + INDEX_SIZE);
    }
}

/// A patch inside the data area changes the data area and nothing else.
pub proof fn lemma_patch_data(layout: Layout, image: Seq<u8>, at: int, patch: Seq<u8>)
    requires
        HEADER_SIZE <= image.len(),
        0 <= at,
        HEADER_SIZE + at + patch.len() <= image.len(),
    ensures
        splice(image, HEADER_SIZE + at, patch).len() == image.len(),
        decode(layout, splice(image, HEADER_SIZE + at, patch)) == (RingView {
            data: splice(decode(layout, image).data, at, patch),
            ..decode(layout, image)
        }),
        flushed(layout, image) ==> flushed(layout, splice(image, HEADER_SIZE + at, patch)),
{
    let after = splice(image, HEADER_SIZE + at, patch);
    lemma_splice_other(image, HEADER_SIZE + at, patch, HEADER as int, HEADER + MAGIC_SIZE);
    lemma_splice_other(
        image,
        HEADER_SIZE + at,
        patch,
        IDENTIFIER as int,
        IDENTIFIER + IDENTIFIER_SIZE,
    );
    lemma_splice_other(image, HEADER_SIZE + at, patch, READ as int, READ + INDEX_SIZE);
    let w = layout.spec_write_offset() as int;
    lemma_splice_other(image, HEADER_SIZE + at, patch, w, w + INDEX_SIZE);
    assert(after.subrange(HEADER_SIZE as int, after.len() as int) =~= splice(
        decode(layout, image).data,
        at,
        patch,
    ));
}

/// Reads the header field.
pub fn load_header(image: &Vec<u8>) -> (header: u128)
    requires
        HEADER_SIZE <= image.len(),
    ensures
        forall|layout: Layout| header == #[trigger] decode(layout, image@).header,
{
    load_le(image, HEADER, MAGIC_SIZE)
}

/// Reads one of the indices.
pub fn load_index(layout: Layout, image: &Vec<u8>, index: Index) -> (value: u32)
    requires
        HEADER_SIZE <= image.len(),
    ensures
        index == Index::Read ==> value == decode(layout, image@).read,
        index == Index::Write ==> value == decode(layout, image@).write,
{
    let at = index.offset(layout);
    let value = load_le(image, at, INDEX_SIZE);
    proof {
        lemma_decode_bounds(layout, image@);
    }
    value as u32
}

/// Reads the identifier.
pub fn load_identifier(image: &Vec<u8>) -> (identifier: Identifier)
    requires
        HEADER_SIZE <= image.len(),
    ensures
        forall|layout: Layout| identifier@ == #[trigger] decode(layout, image@).identifier,
{
    let mut cells: [u8; 16] = [0u8;16];
    let mut i: usize = 0;
    while i < IDENTIFIER_SIZE
        invariant
            i <= IDENTIFIER_SIZE,
            HEADER_SIZE <= image.len(),
            forall|k: int| 0 <= k < i ==> cells@[k] == image@[IDENTIFIER + k],
        decreases IDENTIFIER_SIZE - i,
    {
        cells[i] = image[IDENTIFIER + i];
        i = i + 1;
    }
    let identifier = Identifier(cells);
    proof {
        assert(identifier@ =~= image@.subrange(IDENTIFIER as int, IDENTIFIER + IDENTIFIER_SIZE));
    }
    identifier
}

/// Writes the cells that make the ECC write cache commit the index just
/// stored: none in the plain layout, the flush cell for 32-bit ECC words,
/// the padding word behind the index for 64-bit ECC words. The meaning of
/// the image does not change.
pub fn flush(layout: Layout, image: &mut Vec<u8>, index: Index)
    requires
        HEADER_SIZE <= old(image).len(),
    ensures
        final(image)@ == after_flush(layout, old(image)@, index),
        final(image).len() == old(image).len(),
        decode(layout, final(image)@) == decode(layout, old(image)@),
        cells_clear(layout, final(image)@, index),
        flushed(layout, old(image)@) ==> flushed(layout, final(image)@),
        same_spare(layout, old(image)@, final(image)@),
    no_unwind
{
    let ghost before = image@;
    match layout {
        Layout::Plain => {},
        Layout::Ecc32 => {
            image[FLUSH_CELL] = 0;
            proof {
                assert(image@ =~= splice(before, FLUSH_CELL as int, seq![0u8]));
                lemma_patch_header_block(layout, before, FLUSH_CELL as int, seq![0u8]);
                assert(decode(layout, image@).identifier =~= decode(layout, before).identifier);
            }
        },
        Layout::Ecc64 => {
            let at = index.offset(layout) + INDEX_SIZE;
            store_le(image, at, INDEX_SIZE, 0);
            proof {
                reveal_with_fuel(le_bytes, 5);
                assert(le_bytes(0, 4) =~= seq![0u8, 0u8, 0u8, 0u8]);
                lemma_patch_header_block(layout, before, at as int, le_bytes(0, 4));
            }
        },
    }
}

/// Writes one of the indices and flushes it. Nothing else in the meaning of
/// the image changes. Afterwards the flush cells of this index hold zero,
/// and those of the other index hold zero if they did before.
pub fn store_index(layout: Layout, image: &mut Vec<u8>, index: Index, value: u32)
    requires
        HEADER_SIZE <= old(image).len(),
    ensures
        final(image)@ == after_flush(
            layout,
            splice(
                old(image)@,
                index.spec_offset(layout) as int,
                le_bytes(value as nat, INDEX_SIZE as nat),
            ),
            index,
        ),
        final(image).len() == old(image).len(),
        index == Index::Read ==> decode(layout, final(image)@) == (RingView {
            read: value as nat,
            ..decode(layout, old(image)@)
        }),
        index == Index::Write ==> decode(layout, final(image)@) == (RingView {
            write: value as nat,
            ..decode(layout, old(image)@)
        }),
        cells_clear(layout, final(image)@, index),
        cells_clear(layout, old(image)@, Index::Read) ==> cells_clear(
            layout,
            final(image)@,
            Index::Read,
        ),
        cells_clear(layout, old(image)@, Index::Write) ==> cells_clear(
            layout,
            final(image)@,
            Index::Write,
        ),
        same_spare(layout, old(image)@, final(image)@),
    no_unwind
{
    let ghost before = image@;
    let at = index.offset(layout);
    store_le(image, at, INDEX_SIZE, value as u128);
    proof {
        let field = le_bytes(value as nat, INDEX_SIZE as nat);
        lemma_radix_values();
        lemma_le_roundtrip(value as nat, INDEX_SIZE as nat);
        lemma_splice_same(before, at as int, field);
        lemma_patch_header_block(layout, before, at as int, field);
    }
    flush(layout, image, index);
}

/// Stamps the header field with `magic`. Nothing else in the meaning of the
/// image changes. In the layout for 32-bit ECC words the flush cell is
/// written afterwards; in the others the header fills whole ECC words.
pub fn store_header(layout: Layout, image: &mut Vec<u8>, magic: u128)
    requires
        HEADER_SIZE <= old(image).len(),
    ensures
        final(image)@ == after_field_flush(
            layout,
            splice(old(image)@, HEADER as int, le_bytes(magic as nat, MAGIC_SIZE as nat)),
        ),
        final(image).len() == old(image).len(),
        decode(layout, final(image)@) == (RingView {
            header: magic as nat,
            ..decode(layout, old(image)@)
        }),
        flushed(layout, old(image)@) ==> flushed(layout, final(image)@),
        same_spare(layout, old(image)@, final(image)@),
    no_unwind
{
    let ghost before = image@;
    store_le(image, HEADER, MAGIC_SIZE, magic);
    proof {
        lemma_radix_values();
        lemma_le_roundtrip(magic as nat, MAGIC_SIZE as nat);
        lemma_splice_same(before, HEADER as int, le_bytes(magic as nat, MAGIC_SIZE as nat));
        lemma_patch_header_block(
            layout,
            before,
            HEADER as int,
            le_bytes(magic as nat, MAGIC_SIZE as nat),
        );
    }
    match layout {
        Layout::Ecc32 => {
            flush(layout, image, Index::Write);
        },
        _ => {},
    }
}

/// Writes the sixteen bytes of an identifier and flushes. Nothing else in the
/// meaning of the image changes.
pub fn store_identifier(layout: Layout, image: &mut Vec<u8>, identifier: &[u8])
    requires
        HEADER_SIZE <= old(image).len(),
        identifier.len() == IDENTIFIER_SIZE,
    ensures
        final(image)@ == after_field_flush(
            layout,
            splice(old(image)@, IDENTIFIER as int, identifier@),
        ),
        final(image).len() == old(image).len(),
        decode(layout, final(image)@) == decode(layout, old(image)@).with_identifier(
            identifier@,
        ),
        flushed(layout, old(image)@) ==> flushed(layout, final(image)@),
        same_spare(layout, old(image)@, final(image)@),
    no_unwind
{
    let ghost before = image@;
    store_bytes(image, IDENTIFIER, identifier, 0, IDENTIFIER_SIZE);
    proof {
        let patch = identifier@.subrange(0, IDENTIFIER_SIZE as int);
        assert(patch =~= identifier@);
        lemma_splice_same(before, IDENTIFIER as int, patch);
        lemma_patch_header_block(layout, before, IDENTIFIER as int, patch);
    }
    match layout {
        Layout::Ecc32 => {
            flush(layout, image, Index::Write);
        },
        _ => {},
    }
}

/// Copies `count` bytes of `source`, from `from` on, into the data area at
/// `at`. Nothing but the data area changes its meaning.
pub fn store_data(
    layout: Layout,
    image: &mut Vec<u8>,
    at: usize,
    source: &[u8],
    from: usize,
    count: usize,
)
    requires
        HEADER_SIZE + at + count <= old(image).len(),
        from + count <= source.len(),
    ensures
        final(image)@ == splice(
            old(image)@,
            HEADER_SIZE + at,
            source@.subrange(from as int, from + count),
        ),
        final(image).len() == old(image).len(),
        decode(layout, final(image)@) == (RingView {
            data: splice(
                decode(layout, old(image)@).data,
                at as int,
                source@.subrange(from as int, from + count),
            ),
            ..decode(layout, old(image)@)
        }),
        flushed(layout, old(image)@) ==> flushed(layout, final(image)@),
        same_spare(layout, old(image)@, final(image)@),
    no_unwind
{
    proof {
        lemma_patch_data(
            layout,
            image@,
            at as int,
            source@.subrange(from as int, from + count),
        );
    }
    store_bytes(image, HEADER_SIZE + at, source, from, count);
}

/// Copies `count` bytes of `source`, from `from` on, into the image at `at`.
pub fn store_bytes(image: &mut Vec<u8>, at: usize, source: &[u8], from: usize, count: usize)
    requires
        at + count <= old(image).len(),
        from + count <= source.len(),
    ensures
        final(image).len() == old(image).len(),
        final(image)@ == splice(
            old(image)@,
            at as int,
            source@.subrange(from as int, from + count),
        ),
    no_unwind
{
    let ghost before = image@;
    let mut i: usize = 0;
    while i < count
        invariant
            i <= count,
            at + count <= image.len(),
            from + count <= source.len(),
            image.len() == before.len(),
            forall|k: int| 0 <= k < at || at + i <= k < before.len() ==> image@[k] == before[k],
            forall|k: int| at <= k < at + i ==> image@[k] == source@[from + k - at],
        decreases count - i,
    {
        image[at + i] = source[from + i];
        i = i + 1;
    }
    proof {
        assert(image@ =~= splice(
            before,
            at as int,
            source@.subrange(from as int, from + count),
        ));
    }
}

/// The parts of an image of `len` bytes in the order in which they are
/// carried to memory, each as the positions of its first byte and of the
/// byte behind its last: the data area, the identifier, the read index with
/// what lies between it and the write index, the write index with the rest
/// of the header block, and last the magic number.
pub open spec fn write_back_parts(layout: Layout, len: int) -> Seq<(int, int)> {
    seq![
        (HEADER_SIZE as int, len),
        (IDENTIFIER as int, READ as int),
        (READ as int, layout.spec_write_offset() as int),
        (layout.spec_write_offset() as int, HEADER_SIZE as int),
        (HEADER as int, IDENTIFIER as int),
    ]
}

/// Whether position `at` lies in one of the first `done` parts of the
/// write-back order.
pub open spec fn in_carried_part(layout: Layout, done: nat, at: int) -> bool {
    ||| done >= 1 && HEADER_SIZE <= at
    ||| done >= 2 && IDENTIFIER <= at < READ
    ||| done >= 3 && READ <= at < layout.spec_write_offset()
    ||| done >= 4 && layout.spec_write_offset() <= at < HEADER_SIZE
    ||| done >= 5 && HEADER <= at < IDENTIFIER
}

/// The memory behind an image when the first `done` parts of the image have
/// been carried to it.
pub open spec fn carried(layout: Layout, memory: Seq<u8>, image: Seq<u8>, done: nat) -> Seq<u8>
    decreases done,
{
    if done == 0 {
        memory
    } else {
        let part = write_back_parts(layout, image.len() as int)[done - 1];
        splice(
            carried(layout, memory, image, (done - 1) as nat),
            part.0,
            image.subrange(part.0, part.1),
        )
    }
}

/// The parts of an image in the order in which they are carried to memory.
///
/// In this order the data of an append reaches memory before the write
/// index that makes it readable, and both indices reach it before the magic
/// number that vouches for them.
pub fn write_back_order(layout: Layout, len: usize) -> (parts: Vec<(usize, usize)>)
    requires
        HEADER_SIZE <= len,
    ensures
        parts@.len() == 5,
        forall|i: int|
            0 <= i < 5 ==> (parts@[i].0 as int, parts@[i].1 as int) == write_back_parts(
                layout,
                len as int,
            )[i],
{
    let write = layout.write_offset();
    let mut parts: Vec<(usize, usize)> = Vec::new();
    parts.push((HEADER_SIZE, len));
    parts.push((IDENTIFIER, READ));
    parts.push((READ, write));
    parts.push((write, HEADER_SIZE));
    parts.push((HEADER, IDENTIFIER));
    parts
}

/// While an image is carried to memory part by part, the memory means what
/// it meant before in the fields not yet carried, and what the image means
/// in the fields carried: first the data area, then the identifier, the read
/// index, the write index, and last the header field. When all parts are
/// carried the memory is the image.
pub proof fn lemma_write_back(layout: Layout, memory: Seq<u8>, image: Seq<u8>, done: nat)
    requires
        HEADER_SIZE <= memory.len(),
        memory.len() == image.len(),
        done <= 5,
    ensures
        carried(layout, memory, image, done).len() == memory.len(),
        forall|i: int|
            0 <= i < memory.len() ==> #[trigger] carried(layout, memory, image, done)[i] == (
            if in_carried_part(layout, done, i) {
                image[i]
            } else {
                memory[i]
            }),
        decode(layout, carried(layout, memory, image, done)) == (RingView {
            layout,
            data: if done >= 1 {
                decode(layout, image).data
            } else {
                decode(layout, memory).data
            },
            identifier: if done >= 2 {
                decode(layout, image).identifier
            } else {
                decode(layout, memory).identifier
            },
            read: if done >= 3 {
                decode(layout, image).read
            } else {
                decode(layout, memory).read
            },
            write: if done >= 4 {
                decode(layout, image).write
            } else {
                decode(layout, memory).write
            },
            header: if done >= 5 {
                decode(layout, image).header
            } else {
                decode(layout, memory).header
            },
        }),
        done == 5 ==> carried(layout, memory, image, done) == image,
    decreases done,
{
    let parts = write_back_parts(layout, image.len() as int);
    let now = carried(layout, memory, image, done);
    if done > 0 {
        lemma_write_back(layout, memory, image, (done - 1) as nat);
        let before = carried(layout, memory, image, (done - 1) as nat);
        let part = parts[done - 1];
        assert forall|i: int| 0 <= i < memory.len() implies #[trigger] now[i] == (
        if in_carried_part(layout, done, i) {
            image[i]
        } else {
            memory[i]
        }) by {
            if part.0 <= i < part.1 {
                assert(now[i] == image[i]);
            } else {
                assert(now[i] == before[i]);
            }
        }
    }
    assert(decode(layout, now).data =~= (if done >= 1 {
        decode(layout, image).data
    } else {
        decode(layout, memory).data
    }));
    assert(decode(layout, now).identifier =~= (if done >= 2 {
        decode(layout, image).identifier
    } else {
        decode(layout, memory).identifier
    }));
    let w = layout.spec_write_offset() as int;
    assert(now.subrange(READ as int, READ + INDEX_SIZE) =~= (if done >= 3 {
        image.subrange(READ as int, READ + INDEX_SIZE)
    } else {
        memory.subrange(READ as int, READ + INDEX_SIZE)
    }));
    assert(now.subrange(w, w + INDEX_SIZE) =~= (if done >= 4 {
        image.subrange(w, w + INDEX_SIZE)
    } else {
        memory.subrange(w, w + INDEX_SIZE)
    }));
    assert(now.subrange(HEADER as int, HEADER + MAGIC_SIZE) =~= (if done >= 5 {
        image.subrange(HEADER as int, HEADER + MAGIC_SIZE)
    } else {
        memory.subrange(HEADER as int, HEADER + MAGIC_SIZE)
    }));
    if done == 5 {
        assert(now =~= image);
    }
}

} // verus!
