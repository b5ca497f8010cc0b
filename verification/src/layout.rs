//! The layout of the persist region.
//!
//! A region starts with a header block of [`HEADER_SIZE`] bytes and continues
//! with the data area of the ring. The header block holds, at fixed offsets, a
//! 128-bit magic number, a 16-byte identifier and the two 32-bit indices, all
//! little-endian. Three layout variants exist; they differ in where the write
//! index lies, in which cells serve to flush an ECC write cache, and in their
//! magic number, so that a region written under one variant is never taken
//! for an initialized region of another.

use vstd::prelude::*;

verus! {

/// Offset of the magic number.
pub const HEADER: usize = 0;

/// Width of the magic number in bytes.
pub const MAGIC_SIZE: usize = 16;

/// Offset of the identifier.
pub const IDENTIFIER: usize = 16;

/// Width of the identifier in bytes.
pub const IDENTIFIER_SIZE: usize = 16;

/// Offset of the read index, in every layout.
pub const READ: usize = 32;

/// Offset of the write index where the indices share an ECC word.
pub const WRITE: usize = 36;

/// Offset of the write index where each index has a 64-bit ECC word of its own.
pub const WRITE_PADDED: usize = 40;

/// Offset of the cell that the 32-bit ECC layout writes to force a commit.
pub const FLUSH_CELL: usize = 40;

/// Width of an index in bytes.
pub const INDEX_SIZE: usize = 4;

/// Size of the header block: the data area starts here.
pub const HEADER_SIZE: usize = 48;

/// Alignment that the base address of a region must have.
pub const ALIGNMENT: usize = 16;

/// The length of a data area stays below this bound, so that index
/// arithmetic stays inside a signed 32-bit range.
pub const DATA_LIMIT: usize = 0x4000_0000;

/// Magic number of the plain layout.
pub const MAGIC_PLAIN: u128 = 0xb528_c25f_90c6_16af_cbc1_502c_09c1_fd6e;

/// Magic number of the layout with a flush cell for 32-bit ECC words.
pub const MAGIC_ECC32: u128 = 0x8d3e_71a4_5b09_c6f2_17e4_a95d_30bc_624f;

/// Magic number of the layout padded for 64-bit ECC words.
pub const MAGIC_ECC64: u128 = 0x1dff_2060_27b9_f2b4_a194_1013_69cd_3c6c;

/// The variant of the region layout that a firmware build uses.
#[derive(Clone, Copy, Debug, PartialEq, Eq, Structural)]
pub enum Layout {
    /// Header, identifier, read, write, data. No flush is needed.
    Plain,
    /// The plain layout plus one flush cell in an ECC word of its own.
    Ecc32,
    /// Each index is followed by a padding word, so that it fills a 64-bit
    /// ECC word together with the padding.
    Ecc64,
}

/// Why a region was not taken into service.
#[derive(Clone, Copy, Debug, PartialEq, Eq, Structural)]
pub enum InitError {
    /// Initialization was already attempted during this boot.
    AlreadyInitialized,
    /// The region does not start on the boundary that the header needs, or,
    /// for 64-bit ECC words and a size in bounds, does not end on an 8-byte
    /// boundary.
    BadAlignment,
    /// The region holds no data byte behind the header block.
    TooSmall,
    /// The data area would reach [`DATA_LIMIT`].
    TooLarge,
}

impl Layout {
    /// The magic number that marks a region of this layout as initialized.
    pub open spec fn spec_magic(self) -> u128 {
        match self {
            Layout::Plain => MAGIC_PLAIN,
            Layout::Ecc32 => MAGIC_ECC32,
            Layout::Ecc64 => MAGIC_ECC64,
        }
    }

    /// The magic number that marks a region of this layout as initialized.
    #[verifier::when_used_as_spec(spec_magic)]
    pub fn magic(self) -> (magic: u128)
        ensures
            magic == self.spec_magic(),
    {
        match self {
            Layout::Plain => MAGIC_PLAIN,
            Layout::Ecc32 => MAGIC_ECC32,
            Layout::Ecc64 => MAGIC_ECC64,
        }
    }

    /// Offset of the write index.
    pub open spec fn spec_write_offset(self) -> usize {
        match self {
            Layout::Plain => WRITE,
            Layout::Ecc32 => WRITE,
            Layout::Ecc64 => WRITE_PADDED,
        }
    }

    /// Offset of the write index.
    #[verifier::when_used_as_spec(spec_write_offset)]
    pub fn write_offset(self) -> (offset: usize)
        ensures
            offset == self.spec_write_offset(),
        no_unwind
    {
        match self {
            Layout::Plain => WRITE,
            Layout::Ecc32 => WRITE,
            Layout::Ecc64 => WRITE_PADDED,
        }
    }

    /// Whether a region of `len` bytes at address `start` may hold a ring of
    /// this layout, and if not, why not. The alignment of the start is judged
    /// first, then the lower bound on the size, then the upper one. A region
    /// for 64-bit ECC words whose size is in bounds must also end on an
    /// 8-byte boundary.
    pub open spec fn geometry_error(self, start: int, len: int) -> Option<InitError> {
        if start % (ALIGNMENT as int) != 0 {
            Some(InitError::BadAlignment)
        } else if len <= HEADER_SIZE {
            Some(InitError::TooSmall)
        } else if len - HEADER_SIZE >= DATA_LIMIT {
            Some(InitError::TooLarge)
        } else if self == Layout::Ecc64 && (start + len) % 8 != 0 {
            Some(InitError::BadAlignment)
        } else {
            None
        }
    }

    /// Validates the bounds of a region before anything in it is read.
    pub fn check_geometry(self, start: usize, len: usize) -> (outcome: Result<(), InitError>)
        ensures
            outcome == match self.geometry_error(start as int, len as int) {
                Some(error) => Err::<(), InitError>(error),
                None => Ok(()),
            },
    {
        if start % ALIGNMENT != 0 {
            return Err(InitError::BadAlignment);
        }
        if len <= HEADER_SIZE {
            return Err(InitError::TooSmall);
        }
        if len - HEADER_SIZE >= DATA_LIMIT {
            return Err(InitError::TooLarge);
        }
        let padded = match self {
            Layout::Ecc64 => true,
            _ => false,
        };
        if padded && (start % 8 + len % 8) % 8 != 0 {
            return Err(InitError::BadAlignment);
        }
        Ok(())
    }
}

/// With the start of a region on its boundary, a region that is too small or
/// too large is reported as such in every layout, and a misaligned end is
/// reported only for a region whose size is in bounds.
pub proof fn lemma_geometry_order(layout: Layout, start: int, len: int)
    requires
        start % (ALIGNMENT as int) == 0,
    ensures
        len <= HEADER_SIZE <==> layout.geometry_error(start, len) == Some(InitError::TooSmall),
        len - HEADER_SIZE >= DATA_LIMIT <==> layout.geometry_error(start, len) == Some(
            InitError::TooLarge,
        ),
        layout.geometry_error(start, len) == Some(InitError::BadAlignment) <==> layout
            == Layout::Ecc64 && HEADER_SIZE < len < HEADER_SIZE + DATA_LIMIT && (start + len) % 8
            != 0,
{
}

/// No two layouts share a magic number: a region that one layout has
/// initialized looks fresh to the others.
pub proof fn lemma_magic_distinct(a: Layout, b: Layout)
    ensures
        a.spec_magic() == b.spec_magic() <==> a == b,
{
}

} // verus!
