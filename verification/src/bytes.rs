//! Little-endian integers inside a byte image.
//!
//! Every multi-byte field of the persist region is stored least significant
//! byte first. This module says what number a run of bytes spells, which bytes
//! spell a number, and gives the two executable accessors the rest of the crate
//! reads and writes fields with.

use vstd::prelude::*;

verus! {

/// `256` to the power `width`: the number of values that `width` bytes can spell.
pub open spec fn radix(width: nat) -> nat
    decreases width,
{
    if width == 0 {
        1
    } else {
        256 * radix((width - 1) as nat)
    }
}

/// The number that the bytes of `s` spell, least significant byte first.
pub open spec fn le_value(s: Seq<u8>) -> nat
    decreases s.len(),
{
    if s.len() == 0 {
        0
    } else {
        s[0] as nat + 256 * le_value(s.skip(1))
    }
}

/// The `width` bytes that spell `value`, least significant byte first.
pub open spec fn le_bytes(value: nat, width: nat) -> Seq<u8>
    decreases width,
{
    if width == 0 {
        Seq::empty()
    } else {
        seq![(value % 256) as u8] + le_bytes(value / 256, (width - 1) as nat)
    }
}

/// `s` with the bytes from `at` on replaced by `patch`.
pub open spec fn splice(s: Seq<u8>, at: int, patch: Seq<u8>) -> Seq<u8> {
    s.subrange(0, at) + patch + s.subrange(at + patch.len(), s.len() as int)
}

/// Two bytes are 65536 values, four bytes 2^32, sixteen bytes 2^128.
pub proof fn lemma_radix_values()
    ensures
        radix(0) == 1,
        radix(1) == 0x100,
        radix(3) == 0x100_0000,
        radix(4) == 0x1_0000_0000,
        radix(16) == 0x1_0000_0000_0000_0000_0000_0000_0000_0000,
{
    reveal_with_fuel(radix, 17);
}

/// More bytes never spell fewer values.
pub proof fn lemma_radix_monotonic(a: nat, b: nat)
    requires
        a <= b,
    ensures
        0 < radix(a) <= radix(b),
    decreases b,
{
    if b == 0 {
    } else if a == b {
        lemma_radix_monotonic((a - 1) as nat, (b - 1) as nat);
    } else {
        lemma_radix_monotonic(a, (b - 1) as nat);
    }
}

/// What a run of bytes spells fits in that many bytes.
pub proof fn lemma_le_value_bounded(s: Seq<u8>)
    ensures
        le_value(s) < radix(s.len()),
    decreases s.len(),
{
    if s.len() > 0 {
        lemma_le_value_bounded(s.skip(1));
    }
}

/// The length of an encoding is the width asked for.
pub proof fn lemma_le_bytes_len(value: nat, width: nat)
    ensures
        le_bytes(value, width).len() == width,
    decreases width,
{
    if width > 0 {
        lemma_le_bytes_len(value / 256, (width - 1) as nat);
    }
}

/// Decoding the encoding of a number that fits gives the number back.
pub proof fn lemma_le_roundtrip(value: nat, width: nat)
    requires
        value < radix(width),
    ensures
        le_bytes(value, width).len() == width,
        le_value(le_bytes(value, width)) == value,
    decreases width,
{
    lemma_le_bytes_len(value, width);
    if width > 0 {
        let rest = le_bytes(value / 256, (width - 1) as nat);
        lemma_le_roundtrip(value / 256, (width - 1) as nat);
        assert(le_bytes(value, width).skip(1) =~= rest);
    }
}

/// Encoding what a run of bytes spells gives the bytes back.
pub proof fn lemma_le_bytes_of_value(s: Seq<u8>)
    ensures
        le_bytes(le_value(s), s.len()) == s,
    decreases s.len(),
{
    if s.len() > 0 {
        let tail = s.skip(1);
        lemma_le_bytes_of_value(tail);
        let v = le_value(s);
        assert(v % 256 == s[0] as nat);
        assert(v / 256 == le_value(tail));
        assert(le_bytes(v, s.len()) =~= s);
    } else {
        assert(le_bytes(le_value(s), s.len()) =~= s);
    }
}

/// A run of bytes spells its prefix plus, shifted up, what the rest spells.
pub proof fn lemma_le_value_split(s: Seq<u8>, k: nat)
    requires
        k <= s.len(),
    ensures
        le_value(s) == le_value(s.take(k as int)) + radix(k) * le_value(s.skip(k as int)),
    decreases k,
{
    if k == 0 {
        assert(s.skip(0) =~= s);
        assert(s.take(0).len() == 0);
        let whole = le_value(s.skip(k as int));
        assert(radix(k) * whole == whole) by (nonlinear_arith)
            requires
                radix(k) == 1,
        ;
    } else {
        let tail = s.skip(1);
        lemma_le_value_split(tail, (k - 1) as nat);
        assert(tail.take(k - 1) =~= s.take(k as int).skip(1));
        assert(tail.skip(k - 1) =~= s.skip(k as int));
        assert(s.take(k as int)[0] == s[0]);
        let hi = le_value(s.skip(k as int));
        assert(256 * (radix((k - 1) as nat) * hi) == radix(k) * hi) by (nonlinear_arith)
            requires
                radix(k) == 256 * radix((k - 1) as nat),
        ;
    }
}

/// The last byte of a run weighs in with its full place value.
pub proof fn lemma_le_value_top_byte(s: Seq<u8>)
    requires
        s.len() > 0,
    ensures
        le_value(s) >= radix((s.len() - 1) as nat) * s.last() as nat,
        le_value(s) < radix((s.len() - 1) as nat) * (s.last() as nat + 1),
{
    let k = (s.len() - 1) as nat;
    lemma_le_value_split(s, k);
    lemma_le_value_bounded(s.take(k as int));
    let top = s.skip(k as int);
    assert(top.len() == 1);
    assert(top.skip(1).len() == 0);
    assert(le_value(top) == s.last() as nat) by {
        reveal_with_fuel(le_value, 2);
    }
    assert(radix(k) * (s.last() as nat + 1) == radix(k) * (s.last() as nat) + radix(k))
        by (nonlinear_arith);
}

/// Reading back the place that was patched gives the patch.
pub proof fn lemma_splice_same(s: Seq<u8>, at: int, patch: Seq<u8>)
    requires
        0 <= at,
        at + patch.len() <= s.len(),
    ensures
        splice(s, at, patch).len() == s.len(),
        splice(s, at, patch).subrange(at, at + patch.len()) == patch,
{
    assert(splice(s, at, patch).subrange(at, at + patch.len()) =~= patch);
}

/// A patch leaves every range that it does not overlap as it was.
pub proof fn lemma_splice_other(s: Seq<u8>, at: int, patch: Seq<u8>, from: int, to: int)
    requires
        0 <= at,
        at + patch.len() <= s.len(),
        0 <= from <= to <= s.len(),
        to <= at || at + patch.len() <= from,
    ensures
        splice(s, at, patch).subrange(from, to) == s.subrange(from, to),
{
    assert(splice(s, at, patch).subrange(from, to) =~= s.subrange(from, to));
}

/// Reads the little-endian number held in the `width` bytes of `bytes` that
/// start at `at`.
pub fn load_le(bytes: &Vec<u8>, at: usize, width: usize) -> (value: u128)
    requires
        width <= 16,
        at + width <= bytes.len(),
    ensures
        value as nat == le_value(bytes@.subrange(at as int, at + width)),
{
    let ghost field = bytes@.subrange(at as int, at + width);
    let mut value: u128 = 0;
    let mut i: usize = width;
    proof {
        assert(field.skip(width as int).len() == 0);
    }
    while i > 0
        invariant
            i <= width <= 16,
            at + width <= bytes.len(),
            field == bytes@.subrange(at as int, at + width),
            value as nat == le_value(field.skip(i as int)),
        decreases i,
    {
        i = i - 1;
        let byte = bytes[at + i];
        proof {
            let run = field.skip(i as int);
            assert(run.skip(1) =~= field.skip(i + 1));
            assert(run[0] == byte);
            lemma_le_value_bounded(run);
            lemma_radix_monotonic(run.len(), 16);
            lemma_radix_values();
        }
        value = value * 256 + byte as u128;
    }
    proof {
        assert(field.skip(0) =~= field);
    }
    value
}

/// Writes `value` little-endian into the `width` bytes of `bytes` that start
/// at `at`, and leaves the other bytes alone. Of a value that does not fit
/// the field the low bytes are written.
pub fn store_le(bytes: &mut Vec<u8>, at: usize, width: usize, value: u128)
    requires
        width <= 16,
        at + width <= old(bytes).len(),
    ensures
        final(bytes)@ == splice(old(bytes)@, at as int, le_bytes(value as nat, width as nat)),
        final(bytes).len() == old(bytes).len(),
    no_unwind
{
    let ghost before = bytes@;
    let mut rest: u128 = value;
    let mut i: usize = 0;
    proof {
        lemma_le_bytes_len(value as nat, width as nat);
    }
    while i < width
        invariant
            i <= width <= 16,
            at + width <= bytes.len(),
            bytes.len() == before.len(),
            le_bytes(value as nat, width as nat).len() == width,
            forall|k: int| 0 <= k < at ==> bytes@[k] == before[k],
            forall|k: int| at + width <= k < before.len() ==> bytes@[k] == before[k],
            forall|k: int|
                0 <= k < i ==> bytes@[at + k] == le_bytes(value as nat, width as nat)[k],
            le_bytes(value as nat, width as nat).skip(i as int) == le_bytes(
                rest as nat,
                (width - i) as nat,
            ),
        decreases width - i,
    {
        let ghost tail = le_bytes(rest as nat, (width - i) as nat);
        proof {
            lemma_le_bytes_len(rest as nat, (width - i) as nat);
            assert(tail[0] == (rest as nat % 256) as u8);
            assert(tail.skip(1) =~= le_bytes(rest as nat / 256, (width - i - 1) as nat));
            assert(le_bytes(value as nat, width as nat).skip(i + 1) =~= tail.skip(1));
            assert(le_bytes(value as nat, width as nat)[i as int] == tail[0]);
        }
        bytes[at + i] = (rest % 256) as u8;
        rest = rest / 256;
        i = i + 1;
    }
    proof {
        assert(bytes@ =~= splice(before, at as int, le_bytes(value as nat, width as nat)));
    }
}

} // verus!
