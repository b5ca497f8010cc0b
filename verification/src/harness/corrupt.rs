//! Corruption of a region dump, and what bring-up makes of the result.
//!
//! The harness dumps the persist region of a first run, overwrites single
//! bytes of the dump, and starts a second run on it. A zeroed byte of the
//! magic number makes the region fresh; an index whose most significant byte
//! is `0xFF` points outside every data area and is repaired. Either way the
//! second run must find an empty ring.

use crate::bytes::{le_value, splice};
use crate::layout::{Layout, HEADER, HEADER_SIZE, INDEX_SIZE, MAGIC_SIZE};
use crate::recovery::lemma_high_byte_out_of_range;
use crate::region::{decode, lemma_decode_bounds, lemma_patch_header_block, well_sized, Index};
use crate::ring_laws::{lemma_recovered_fresh, lemma_recovered_repaired};
use vstd::prelude::*;

verus! {

/// Which fields of a dump are corrupted.
#[derive(Debug, Clone, Copy, PartialEq, Eq, Structural)]
pub struct CorruptFlags {
    /// A byte of the magic number is zeroed.
    pub header: bool,
    /// The read index is made to point outside the data area.
    pub read: bool,
    /// The write index is made to point outside the data area.
    pub write: bool,
}

/// The scenarios in the order they are run: the clean dump, each field
/// alone, each pair, all three.
pub open spec fn combination(i: int) -> CorruptFlags {
    CorruptFlags {
        header: i == 1 || i == 4 || i == 5 || i == 7,
        read: i == 2 || i == 4 || i == 6 || i == 7,
        write: i == 3 || i == 5 || i == 6 || i == 7,
    }
}

/// A dump with the fields that `flags` names corrupted: the least
/// significant byte of the magic number zeroed, the most significant byte of
/// an index set to `0xFF`.
pub open spec fn corrupted(layout: Layout, snapshot: Seq<u8>, flags: CorruptFlags) -> Seq<u8> {
    let first = if flags.header {
        snapshot.update(HEADER as int, 0)
    } else {
        snapshot
    };
    let second = if flags.read {
        first.update(Index::Read.spec_offset(layout) + INDEX_SIZE - 1, 0xFF)
    } else {
        first
    };
    if flags.write {
        second.update(Index::Write.spec_offset(layout) + INDEX_SIZE - 1, 0xFF)
    } else {
        second
    }
}

impl CorruptFlags {
    /// Whether anything is corrupted.
    pub open spec fn spec_any(self) -> bool {
        self.header || self.read || self.write
    }

    /// The name of the scenario: the names of the corrupted fields joined
    /// by `+`, or `none`.
    pub open spec fn spec_name(self) -> Seq<char> {
        let plus_read = if self.header && (self.read || self.write) {
            "+"@
        } else {
            Seq::empty()
        };
        let plus_write = if self.read && self.write {
            "+"@
        } else {
            Seq::empty()
        };
        if !self.spec_any() {
            "none"@
        } else {
            (if self.header {
                "header"@
            } else {
                Seq::empty()
            }) + plus_read + (if self.read {
                "read"@
            } else {
                Seq::empty()
            }) + plus_write + (if self.write {
                "write"@
            } else {
                Seq::empty()
            })
        }
    }

    /// The name of the scenario: the names of the corrupted fields joined
    /// by `+`, or `none`.
    pub fn name(&self) -> (name: String)
        ensures
            name@ == self.spec_name(),
    {
        proof {
            reveal_strlit("none");
            reveal_strlit("header");
            reveal_strlit("read");
            reveal_strlit("write");
            reveal_strlit("+");
            reveal_strlit("header+read");
            reveal_strlit("header+write");
            reveal_strlit("read+write");
            reveal_strlit("header+read+write");
        }
        let name = match (self.header, self.read, self.write) {
            (false, false, false) => "none",
            (true, false, false) => "header",
            (false, true, false) => "read",
            (false, false, true) => "write",
            (true, true, false) => "header+read",
            (true, false, true) => "header+write",
            (false, true, true) => "read+write",
            (true, true, true) => "header+read+write",
        };
        proof {
            assert(name@ =~= self.spec_name());
        }
        name.to_owned()
    }

    /// Whether anything is corrupted.
    pub fn any(&self) -> (any: bool)
        ensures
            any == self.spec_any(),
    {
        self.header || self.read || self.write
    }

    /// Whether the corruption makes the region fresh rather than
    /// repairable: a damaged magic number does, damaged indices do not.
    pub fn causes_reinit(&self) -> (reinit: bool)
        ensures
            reinit == self.header,
    {
        self.header
    }

    /// All scenarios, in the order they are run.
    pub fn all_combinations() -> (all: [CorruptFlags; 8])
        ensures
            forall|i: int| 0 <= i < 8 ==> all@[i] == combination(i),
    {
        [
            CorruptFlags { header: false, read: false, write: false },
            CorruptFlags { header: true, read: false, write: false },
            CorruptFlags { header: false, read: true, write: false },
            CorruptFlags { header: false, read: false, write: true },
            CorruptFlags { header: true, read: true, write: false },
            CorruptFlags { header: true, read: false, write: true },
            CorruptFlags { header: false, read: true, write: true },
            CorruptFlags { header: true, read: true, write: true },
        ]
    }
}

/// Every choice of fields is one of the eight scenarios, and no two
/// scenarios are the same.
pub proof fn lemma_combinations_cover(flags: CorruptFlags)
    ensures
        exists|i: int| 0 <= i < 8 && combination(i) == flags,
        forall|i: int, j: int|
            0 <= i < 8 && 0 <= j < 8 && combination(i) == combination(j) ==> i == j,
{
    let i: int = if flags.header {
        if flags.read {
            if flags.write {
                7
            } else {
                4
            }
        } else if flags.write {
            5
        } else {
            1
        }
    } else if flags.read {
        if flags.write {
            6
        } else {
            2
        }
    } else if flags.write {
        3
    } else {
        0
    };
    assert(combination(i) == flags);
}

/// Copies a dump and corrupts the fields that `flags` names.
pub fn apply_corruption(layout: Layout, snapshot: &[u8], flags: CorruptFlags) -> (damaged: Vec<
    u8,
>)
    requires
        snapshot.len() >= HEADER_SIZE,
    ensures
        damaged@ == corrupted(layout, snapshot@, flags),
        damaged.len() == snapshot.len(),
{
    let mut damaged = vstd::slice::slice_to_vec(snapshot);
    if flags.header {
        damaged[HEADER] = 0;
    }
    if flags.read {
        damaged[Index::Read.offset(layout) + INDEX_SIZE - 1] = 0xFF;
    }
    if flags.write {
        damaged[Index::Write.offset(layout) + INDEX_SIZE - 1] = 0xFF;
    }
    damaged
}

/// Zeroing the least significant byte of the magic number leaves a value
/// that is no magic number of this layout.
pub proof fn lemma_zeroed_magic_byte(layout: Layout, image: Seq<u8>)
    requires
        well_sized(image),
        decode(layout, image).header == layout.spec_magic(),
    ensures
        decode(layout, image.update(HEADER as int, 0)).header != layout.spec_magic(),
        decode(layout, image.update(HEADER as int, 0)).read == decode(layout, image).read,
        decode(layout, image.update(HEADER as int, 0)).write == decode(layout, image).write,
        decode(layout, image.update(HEADER as int, 0)).data == decode(layout, image).data,
        decode(layout, image.update(HEADER as int, 0)).identifier == decode(
            layout,
            image,
        ).identifier,
{
    let damaged = image.update(HEADER as int, 0);
    assert(damaged =~= splice(image, HEADER as int, seq![0u8]));
    lemma_patch_header_block(layout, image, HEADER as int, seq![0u8]);
    let before = image.subrange(HEADER as int, HEADER + MAGIC_SIZE);
    let after = damaged.subrange(HEADER as int, HEADER + MAGIC_SIZE);
    assert(after.skip(1) =~= before.skip(1));
    assert(le_value(before) == before[0] as nat + 256 * le_value(before.skip(1)));
    assert(le_value(after) == 256 * le_value(before.skip(1)));
    assert(layout.spec_magic() % 256 != 0);
}

/// What the second run finds. On the clean dump of a valid ring it finds
/// the ring as the first run left it. On every corrupted dump it finds a
/// valid, empty ring with the data area untouched; with a damaged magic
/// number, or with both indices damaged, both indices are zero.
pub proof fn lemma_corruption_outcome(layout: Layout, snapshot: Seq<u8>, flags: CorruptFlags)
    requires
        well_sized(snapshot),
        decode(layout, snapshot).valid(),
    ensures
        decode(layout, corrupted(layout, snapshot, flags)).recovered().valid(),
        decode(layout, corrupted(layout, snapshot, flags)).recovered().data == decode(
            layout,
            snapshot,
        ).data,
        !flags.spec_any() ==> decode(layout, corrupted(layout, snapshot, flags)).recovered()
            == decode(layout, snapshot),
        flags.spec_any() ==> decode(
            layout,
            corrupted(layout, snapshot, flags),
        ).recovered().contents() == Seq::<u8>::empty(),
        flags.header || (flags.read && flags.write) ==> decode(
            layout,
            corrupted(layout, snapshot, flags),
        ).recovered().read == 0 && decode(
            layout,
            corrupted(layout, snapshot, flags),
        ).recovered().write == 0,
{
    let r = Index::Read.spec_offset(layout) + INDEX_SIZE - 1;
    let w = Index::Write.spec_offset(layout) + INDEX_SIZE - 1;
    let first = if flags.header {
        snapshot.update(HEADER as int, 0)
    } else {
        snapshot
    };
    let second = if flags.read {
        first.update(r, 0xFF)
    } else {
        first
    };
    let third = corrupted(layout, snapshot, flags);
    if flags.header {
        lemma_zeroed_magic_byte(layout, snapshot);
    }
    if flags.read {
        assert(second =~= splice(first, r, seq![0xFFu8]));
        lemma_patch_header_block(layout, first, r, seq![0xFFu8]);
    }
    if flags.write {
        assert(third =~= splice(second, w, seq![0xFFu8]));
        lemma_patch_header_block(layout, second, w, seq![0xFFu8]);
        lemma_high_byte_out_of_range(layout, third, Index::Write);
    }
    if flags.read {
        assert(third[r] == 0xFF);
        lemma_high_byte_out_of_range(layout, third, Index::Read);
    }
    lemma_decode_bounds(layout, third);
    let found = decode(layout, third);
    assert(found.data == decode(layout, snapshot).data);
    if flags.header {
        lemma_recovered_fresh(found);
    } else if flags.read || flags.write {
        lemma_recovered_repaired(found);
    } else {
        assert(third == snapshot);
    }
}

} // verus!
