//! Segment persistence format: Tombstone bitmaps, CRC-32, the fixed 64-byte
//! Segment header, and the validation applied to a Segment image before use.
//!
//! ```text
//! bytes 0..4    magic b"FRSG"
//!      4..8     format_version (u32 LE, currently 1)
//!      8..12    dimension      (u32 LE)
//!      12..16   flags          (u32 LE, must be 0)
//!      16..24   row_count      (u64 LE)
//!      24..32   vector_data_len(u64 LE, bytes)
//!      32..40   bitmap_offset  (u64 LE = HEADER_LEN + vector_data_len)
//!      40..48   bitmap_len     (u64 LE, ceil(row_count/8))
//!      48..52   payload_crc32  (u32 LE)
//!      52..56   reserved       (u32 LE, must be 0)
//!      56..60   header_crc32   (u32 LE, covers bytes 0..56)
//!      60..64   padding        (must be 0)
//!      then row_count*dimension f32 bit patterns (LE), then bitmap bytes
//! ```
//!
//! Format version 1 carries exactly two checksums: one over the header and
//! one over the vector payload. The Tombstone bitmap that follows is checked
//! by its length only; a flipped bit inside it is not detectable from the
//! file, and covering it would take a new format version, since every
//! header byte already has a fixed meaning.

use vstd::prelude::*;

use crate::errors::{Error, Result};
use crate::text::{decimal, decimal_string};

verus! {

// ---------------------------------------------------------------------------
// Tombstone bitmap
// ---------------------------------------------------------------------------

/// Bytes needed to hold one bit per row.
pub open spec fn bytes_for_rows(rows: nat) -> nat {
    (rows + 7) / 8
}

/// Bit `r` of a little-endian-within-byte bit set.
pub open spec fn bit_of(bytes: Seq<u8>, r: int) -> bool {
    (bytes[r / 8] >> ((r % 8) as u8)) & 1u8 == 1u8
}

proof fn lemma_set_bit(x: u8, k: u8, b: u8)
    requires
        k < 8,
        b < 8,
    ensures
        ((x | (1u8 << k)) >> b) & 1u8 == (if b == k { 1u8 } else { (x >> b) & 1u8 }),
{
    assert(((x | (1u8 << k)) >> b) & 1u8 == (if b == k { 1u8 } else { (x >> b) & 1u8 })) by (bit_vector)
        requires
            k < 8,
            b < 8,
    ;
}

proof fn lemma_clear_bit(x: u8, k: u8, b: u8)
    requires
        k < 8,
        b < 8,
    ensures
        ((x & !(1u8 << k)) >> b) & 1u8 == (if b == k { 0u8 } else { (x >> b) & 1u8 }),
{
    assert(((x & !(1u8 << k)) >> b) & 1u8 == (if b == k { 0u8 } else { (x >> b) & 1u8 })) by (bit_vector)
        requires
            k < 8,
            b < 8,
    ;
}

proof fn lemma_zero_byte_bits(b: u8)
    requires
        b < 8,
    ensures
        (0u8 >> b) & 1u8 == 0u8,
{
    assert((0u8 >> b) & 1u8 == 0u8) by (bit_vector);
}

/// Reason given when a row index lies outside a bitmap.
pub open spec fn row_out_of_range_reason(row: u64, len: u64) -> Seq<char> {
    "row "@ + decimal(row as nat) + " out of range (bitmap holds "@ + decimal(len as nat) + " rows)"@
}

/// Bit set marking deleted rows; physically reclaimed by Compaction later.
#[derive(Debug, PartialEq, Eq)]
pub struct TombstoneBitmap {
    bits: Vec<u8>,
    len: u64,
}

impl Clone for TombstoneBitmap {
    fn clone(&self) -> (c: Self)
        ensures
            c.spec_bytes() == self.spec_bytes(),
            c.spec_len() == self.spec_len(),
            c@ == self@,
    {
        TombstoneBitmap { bits: self.bits.clone(), len: self.len }
    }
}

impl View for TombstoneBitmap {
    type V = Seq<bool>;

    /// One flag per addressed row: `true` where the row carries a Tombstone.
    closed spec fn view(&self) -> Seq<bool> {
        Seq::new(self.len as nat, |r: int| bit_of(self.bits@, r))
    }
}

impl TombstoneBitmap {
    /// The byte store holds exactly one bit per addressed row.
    pub closed spec fn wf(&self) -> bool {
        self.bits@.len() == bytes_for_rows(self.len as nat)
    }

    /// The stored bytes, as written to disk.
    pub closed spec fn spec_bytes(&self) -> Seq<u8> {
        self.bits@
    }

    /// Number of addressed rows.
    pub closed spec fn spec_len(&self) -> u64 {
        self.len
    }

    /// Creates an empty bitmap able to address `len` rows.
    pub fn new(len: u64) -> (b: Self)
        requires
            bytes_for_rows(len as nat) <= usize::MAX,
        ensures
            b.wf(),
            b.spec_len() == len,
            b@ == Seq::new(len as nat, |r: int| false),
    {
        let n = (len / 8 + if len % 8 == 0 { 0 } else { 1 }) as usize;
        assert(n == bytes_for_rows(len as nat));
        let bits = vec![0u8; n];
        let b = TombstoneBitmap { bits, len };
        assert forall|r: int| 0 <= r < len implies !bit_of(b.bits@, r) by {
            lemma_zero_byte_bits((r % 8) as u8);
        }
        assert(b@ =~= Seq::new(len as nat, |r: int| false));
        b
    }

    /// Rebuilds a bitmap from stored bytes.
    pub fn from_bytes(bits: Vec<u8>, len: u64) -> (b: Self)
        requires
            bits@.len() == bytes_for_rows(len as nat),
        ensures
            b.wf(),
            b.spec_len() == len,
            b.spec_bytes() == bits@,
            b@ == Seq::new(len as nat, |r: int| bit_of(bits@, r)),
    {
        TombstoneBitmap { bits, len }
    }

    /// Extends the bitmap to address `new_len` rows: rows already addressed
    /// keep their flags and the added rows start cleared.
    pub fn grow(&mut self, new_len: u64)
        requires
            old(self).wf(),
            old(self).spec_len() <= new_len,
            bytes_for_rows(new_len as nat) <= usize::MAX,
        ensures
            final(self).wf(),
            final(self).spec_len() == new_len,
            final(self)@ == old(self)@ + Seq::new((new_len - old(self).spec_len()) as nat, |i: int| false),
    {
        let ghost before = self.bits@;
        let old_len = self.len;
        let mut r = self.len;
        while r < new_len
            invariant
                old_len <= r <= new_len,
                bytes_for_rows(new_len as nat) <= usize::MAX,
                self.bits@.len() == bytes_for_rows(r as nat),
                forall|i: int| 0 <= i < old_len ==> bit_of(self.bits@, i) == bit_of(before, i),
                forall|i: int| old_len <= i < r ==> !bit_of(self.bits@, i),
            decreases new_len - r,
        {
            let ghost prev = self.bits@;
            if r % 8 == 0 {
                assert(self.bits@.len() == r / 8);
                assert(self.bits@.len() < bytes_for_rows(new_len as nat));
                self.bits.push(0u8);
            }
            assert(self.bits@.len() == bytes_for_rows((r + 1) as nat));
            let ghost mid = self.bits@;
            assert forall|i: int| 0 <= i < r implies bit_of(mid, i) == bit_of(prev, i) by {
                assert(i / 8 < prev.len());
                assert(mid[i / 8] == prev[i / 8]);
            }
            let idx = (r / 8) as usize;
            let k = (r % 8) as u8;
            let byte = self.bits[idx];
            self.bits.set(idx, byte & !(1u8 << k));
            proof {
                assert forall|i: int| 0 <= i < r + 1 implies
                    bit_of(self.bits@, i) == (if i == r { false } else { bit_of(mid, i) }) by {
                    if i / 8 == idx {
                        lemma_clear_bit(byte, k, (i % 8) as u8);
                    } else {
                        assert(self.bits@[i / 8] == mid[i / 8]);
                    }
                }
            }
            r = r + 1;
        }
        self.len = new_len;
        assert(self@ =~= old(self)@ + Seq::new((new_len - old_len) as nat, |i: int| false));
    }

    fn check(&self, row: u64) -> (r: Result<()>)
        ensures
            r is Ok <==> row < self.len,
            r matches Err(e) ==> (e matches Error::SchemaViolation { reason }
                && reason@ == row_out_of_range_reason(row, self.len)),
    {
        if row >= self.len {
            let mut reason = String::from_str("row ");
            let r = decimal_string(row);
            reason.append(r.as_str());
            reason.append(" out of range (bitmap holds ");
            let l = decimal_string(self.len);
            reason.append(l.as_str());
            reason.append(" rows)");
            return Err(Error::SchemaViolation { reason });
        }
        Ok(())
    }

    /// Marks `row` as deleted. Fails if out of range (caller-fixable).
    pub fn set(&mut self, row: u64) -> (r: Result<()>)
        requires
            old(self).wf(),
        ensures
            final(self).wf(),
            final(self).spec_len() == old(self).spec_len(),
            r is Ok <==> row < old(self).spec_len(),
            old(self)@.len() == old(self).spec_len(),
            final(self)@.len() == final(self).spec_len(),
            r is Ok ==> final(self)@ == old(self)@.update(row as int, true),
            r is Ok ==> final(self).spec_bytes() == old(self).spec_bytes().update(
                (row / 8) as int,
                old(self).spec_bytes()[(row / 8) as int] | (1u8 << ((row % 8) as u8)),
            ),
            r is Err ==> final(self)@ == old(self)@ && final(self).spec_bytes() == old(self).spec_bytes(),
            r matches Err(e) ==> (e matches Error::SchemaViolation { reason }
                && reason@ == row_out_of_range_reason(row, old(self).spec_len())),
    {
        self.check(row)?;
        let idx = (row / 8) as usize;
        let k = (row % 8) as u8;
        let ghost before = self.bits@;
        let byte = self.bits[idx];
        self.bits.set(idx, byte | (1u8 << k));
        proof {
            assert forall|r: int| 0 <= r < self.len implies
                bit_of(self.bits@, r) == (if r == row { true } else { bit_of(before, r) }) by {
                if r / 8 == idx {
                    lemma_set_bit(byte, k, (r % 8) as u8);
                } else {
                    assert(self.bits@[r / 8] == before[r / 8]);
                }
            }
            assert(self@ =~= old(self)@.update(row as int, true));
        }
        Ok(())
    }

    /// Clears the marker on `row`. Fails if out of range (caller-fixable).
    pub fn clear(&mut self, row: u64) -> (r: Result<()>)
        requires
            old(self).wf(),
        ensures
            final(self).wf(),
            final(self).spec_len() == old(self).spec_len(),
            r is Ok <==> row < old(self).spec_len(),
            old(self)@.len() == old(self).spec_len(),
            final(self)@.len() == final(self).spec_len(),
            r is Ok ==> final(self)@ == old(self)@.update(row as int, false),
            r is Ok ==> final(self).spec_bytes() == old(self).spec_bytes().update(
                (row / 8) as int,
                old(self).spec_bytes()[(row / 8) as int] & !(1u8 << ((row % 8) as u8)),
            ),
            r is Err ==> final(self)@ == old(self)@ && final(self).spec_bytes() == old(self).spec_bytes(),
            r matches Err(e) ==> (e matches Error::SchemaViolation { reason }
                && reason@ == row_out_of_range_reason(row, old(self).spec_len())),
    {
        self.check(row)?;
        let idx = (row / 8) as usize;
        let k = (row % 8) as u8;
        let ghost before = self.bits@;
        let byte = self.bits[idx];
        self.bits.set(idx, byte & !(1u8 << k));
        proof {
            assert forall|r: int| 0 <= r < self.len implies
                bit_of(self.bits@, r) == (if r == row { false } else { bit_of(before, r) }) by {
                if r / 8 == idx {
                    lemma_clear_bit(byte, k, (r % 8) as u8);
                } else {
                    assert(self.bits@[r / 8] == before[r / 8]);
                }
            }
            assert(self@ =~= old(self)@.update(row as int, false));
        }
        Ok(())
    }

    /// Reports whether `row` carries a Tombstone. Out-of-range rows report
    /// `false`.
    pub fn get(&self, row: u64) -> (b: bool)
        requires
            self.wf(),
        ensures
            self@.len() == self.spec_len(),
            b == (row < self.spec_len() && self@[row as int]),
    {
        if row >= self.len {
            return false;
        }
        assert((row as int) / 8 < (self.len as int + 7) / 8) by (nonlinear_arith)
            requires row < self.len;
        assert(self.bits@.len() == bytes_for_rows(self.len as nat));
        assert(bytes_for_rows(self.len as nat) == (self.len as int + 7) / 8);
        let nbytes = self.bits.len();
        assert((row as int) / 8 < nbytes);
        let idx = (row / 8) as usize;
        assert(idx == (row as int) / 8);
        let byte = self.bits[idx];
        assert(self@[row as int] == bit_of(self.bits@, row as int));
        assert(byte == self.bits@[(row as int) / 8]);
        (byte >> ((row % 8) as u8)) & 1u8 == 1u8
    }

    /// Number of addressed rows.
    pub fn len(&self) -> (n: u64)
        ensures
            n == self.spec_len(),
            n == self@.len(),
    {
        self.len
    }

    /// Whether the bitmap addresses no rows.
    pub fn is_empty(&self) -> (b: bool)
        ensures
            b == (self.spec_len() == 0),
    {
        self.len == 0
    }

    /// All rows carrying a Tombstone, ascending.
    pub fn iter(&self) -> (rows: Vec<u64>)
        requires
            self.wf(),
        ensures
            forall|i: int, j: int| 0 <= i < j < rows@.len() ==> rows@[i] < rows@[j],
            forall|r: u64| rows@.contains(r) <==> (r < self.spec_len() && self@[r as int]),
    {
        let mut rows: Vec<u64> = Vec::new();
        let mut row: u64 = 0;
        while row < self.len
            invariant
                self.wf(),
                row <= self.len,
                forall|i: int, j: int| 0 <= i < j < rows@.len() ==> rows@[i] < rows@[j],
                forall|i: int| 0 <= i < rows@.len() ==> rows@[i] < row,
                forall|r: u64| rows@.contains(r) <==> (r < row && self@[r as int]),
            decreases self.len - row,
        {
            let ghost prev = rows@;
            if self.get(row) {
                rows.push(row);
            }
            proof {
                if self@[row as int] {
                    assert(rows@ == prev.push(row));
                } else {
                    assert(rows@ == prev);
                }
                assert forall|r: u64| rows@.contains(r) <==> (r < row + 1 && self@[r as int]) by {
                    if rows@.contains(r) {
                        let i = choose|i: int| 0 <= i < rows@.len() && rows@[i] == r;
                        if i < prev.len() {
                            assert(prev[i] == r);
                            assert(prev.contains(r));
                        }
                    }
                    if r < row + 1 && self@[r as int] {
                        if r < row {
                            assert(prev.contains(r));
                            let i = choose|i: int| 0 <= i < prev.len() && prev[i] == r;
                            assert(rows@[i] == r);
                        } else {
                            assert(rows@[rows@.len() - 1] == r);
                        }
                    }
                }
            }
            row = row + 1;
        }
        rows
    }

    /// Number of rows carrying a Tombstone.
    pub fn count(&self) -> (n: u64)
        requires
            self.wf(),
        ensures
            n == count_true(self@),
            n <= self.spec_len(),
    {
        let mut n: u64 = 0;
        let mut row: u64 = 0;
        while row < self.len
            invariant
                self.wf(),
                row <= self.len,
                n == count_true(self@.take(row as int)),
                n <= row,
            decreases self.len - row,
        {
            proof {
                assert(self@.take(row + 1).drop_last() =~= self@.take(row as int));
            }
            if self.get(row) {
                n = n + 1;
            }
            row = row + 1;
        }
        proof {
            assert(self@.take(self.len as int) =~= self@);
        }
        n
    }
}

/// Number of `true` flags.
pub open spec fn count_true(s: Seq<bool>) -> nat
    decreases s.len(),
{
    if s.len() == 0 {
        0
    } else {
        count_true(s.drop_last()) + if s.last() { 1nat } else { 0nat }
    }
}

// ---------------------------------------------------------------------------
// CRC-32 (IEEE, reflected polynomial 0xEDB88320)
// ---------------------------------------------------------------------------

/// One shift of the reflected CRC register.
pub open spec fn crc_bit_step(state: u32) -> u32 {
    if state & 1u32 == 1u32 {
        (state >> 1u32) ^ 0xEDB8_8320u32
    } else {
        state >> 1u32
    }
}

/// Eight register shifts.
pub open spec fn crc_shifts(state: u32, n: nat) -> u32
    decreases n,
{
    if n == 0 {
        state
    } else {
        crc_shifts(crc_bit_step(state), (n - 1) as nat)
    }
}

/// Absorbs one byte into the register.
pub open spec fn crc_byte_step(state: u32, b: u8) -> u32 {
    crc_shifts(state ^ (b as u32), 8)
}

/// Register after absorbing `data`, starting from `state`.
pub open spec fn crc_update(state: u32, data: Seq<u8>) -> u32
    decreases data.len(),
{
    if data.len() == 0 {
        state
    } else {
        crc_byte_step(crc_update(state, data.drop_last()), data.last())
    }
}

/// CRC-32 of `data`.
pub open spec fn crc32_spec(data: Seq<u8>) -> u32 {
    !crc_update(0xFFFF_FFFFu32, data)
}

proof fn lemma_masked_step(state: u32)
    ensures
        (state >> 1u32) ^ (0xEDB8_8320u32 & (0u32.wrapping_sub(state & 1u32))) == crc_bit_step(state),
{
    assert(state & 1u32 == 0u32 || state & 1u32 == 1u32) by (bit_vector);
    let mask = 0u32.wrapping_sub(state & 1u32);
    if state & 1u32 == 1u32 {
        assert(mask == 0xFFFF_FFFFu32);
        assert((state >> 1u32) ^ (0xEDB8_8320u32 & 0xFFFF_FFFFu32) == (state >> 1u32) ^ 0xEDB8_8320u32)
            by (bit_vector);
    } else {
        assert(mask == 0u32);
        assert((state >> 1u32) ^ (0xEDB8_8320u32 & 0u32) == state >> 1u32) by (bit_vector);
    }
}

/// Register absorption distributes over concatenation.
pub proof fn lemma_crc_update_concat(state: u32, a: Seq<u8>, b: Seq<u8>)
    ensures
        crc_update(state, a + b) == crc_update(crc_update(state, a), b),
    decreases b.len(),
{
    if b.len() == 0 {
        assert(a + b =~= a);
    } else {
        assert((a + b).drop_last() =~= a + b.drop_last());
        lemma_crc_update_concat(state, a, b.drop_last());
    }
}

/// Incremental CRC-32 register.
pub struct Crc32 {
    state: u32,
}

impl Crc32 {
    pub closed spec fn spec_state(&self) -> u32 {
        self.state
    }

    pub fn new() -> (c: Self)
        ensures
            c.spec_state() == 0xFFFF_FFFFu32,
    {
        Crc32 { state: 0xFFFF_FFFF }
    }

    pub fn update(&mut self, data: &[u8])
        ensures
            final(self).spec_state() == crc_update(old(self).spec_state(), data@),
    {
        let mut state = self.state;
        let ghost start = self.state;
        for i in 0..data.len()
            invariant
                state == crc_update(start, data@.take(i as int)),
        {
            state = state ^ (data[i] as u32);
            let ghost absorbed = state;
            let mut k: u32 = 0;
            while k < 8
                invariant
                    k <= 8,
                    crc_shifts(state, (8 - k) as nat) == crc_shifts(absorbed, 8),
                decreases 8 - k,
            {
                let mask = 0u32.wrapping_sub(state & 1u32);
                proof {
                    lemma_masked_step(state);
                }
                state = (state >> 1u32) ^ (0xEDB8_8320u32 & mask);
                k = k + 1;
            }
            proof {
                assert(data@.take(i + 1).drop_last() =~= data@.take(i as int));
            }
        }
        proof {
            assert(data@.take(data@.len() as int) =~= data@);
        }
        self.state = state;
    }

    pub fn finalize(self) -> (v: u32)
        ensures
            v == !self.spec_state(),
    {
        !self.state
    }
}

/// CRC-32 of `data`.
pub fn crc32(data: &[u8]) -> (v: u32)
    ensures
        v == crc32_spec(data@),
{
    let mut c = Crc32::new();
    c.update(data);
    c.finalize()
}

} // verus!

verus! {

// ---------------------------------------------------------------------------
// Segment image: header fields, validation, decoding
// ---------------------------------------------------------------------------

/// Current on-disk format version.
pub const FORMAT_VERSION: u32 = 1;

/// Size of the fixed Segment file header in bytes.
pub const HEADER_LEN: u64 = 64;

/// The format magic, `FRSG`.
pub open spec fn magic_bytes() -> Seq<u8> {
    seq![0x46u8, 0x52u8, 0x53u8, 0x47u8]
}

/// Little-endian u32 at `off`.
pub open spec fn rd32(raw: Seq<u8>, off: int) -> u32 {
    vstd::bytes::spec_u32_from_le_bytes(raw.subrange(off, off + 4))
}

/// Little-endian u64 at `off`.
pub open spec fn rd64(raw: Seq<u8>, off: int) -> u64 {
    vstd::bytes::spec_u64_from_le_bytes(raw.subrange(off, off + 8))
}

pub open spec fn le32(x: u32) -> Seq<u8> {
    vstd::bytes::spec_u32_to_le_bytes(x)
}

pub open spec fn le64(x: u64) -> Seq<u8> {
    vstd::bytes::spec_u64_to_le_bytes(x)
}

/// Four zero bytes at `off`.
pub open spec fn zero4(raw: Seq<u8>, off: int) -> bool {
    raw[off] == 0 && raw[off + 1] == 0 && raw[off + 2] == 0 && raw[off + 3] == 0
}

/// Why a Segment image is refused.
#[derive(Debug, Clone, Copy, PartialEq, Eq, Structural)]
pub enum SegmentFault {
    ShortFile,
    BadMagic,
    UnsupportedVersion { version: u32 },
    HeaderChecksum,
    ZeroDimension,
    VectorLength,
    BitmapOffset,
    BitmapLength,
    ReservedNonZero,
    FileLength { actual: u64, expected: u64 },
    PayloadChecksum,
}

/// The first header check that `raw` fails, in the order they are applied.
pub open spec fn header_fault(raw: Seq<u8>) -> Option<SegmentFault> {
    if raw.len() < 64 {
        Some(SegmentFault::ShortFile)
    } else if raw.subrange(0, 4) != magic_bytes() {
        Some(SegmentFault::BadMagic)
    } else if rd32(raw, 4) != 1 {
        Some(SegmentFault::UnsupportedVersion { version: rd32(raw, 4) })
    } else if rd32(raw, 56) != crc32_spec(raw.subrange(0, 56)) {
        Some(SegmentFault::HeaderChecksum)
    } else if rd32(raw, 8) == 0 {
        Some(SegmentFault::ZeroDimension)
    } else if rd64(raw, 24) != rd64(raw, 16) * rd32(raw, 8) * 4 {
        Some(SegmentFault::VectorLength)
    } else if rd64(raw, 32) != 64 + rd64(raw, 16) * rd32(raw, 8) * 4 {
        Some(SegmentFault::BitmapOffset)
    } else if rd64(raw, 40) != bytes_for_rows(rd64(raw, 16) as nat) {
        Some(SegmentFault::BitmapLength)
    } else if !(zero4(raw, 12) && zero4(raw, 52) && zero4(raw, 60)) {
        Some(SegmentFault::ReservedNonZero)
    } else {
        None
    }
}

/// Total length the header announces (saturated at `u64::MAX`).
pub open spec fn announced_len(raw: Seq<u8>) -> u64 {
    if rd64(raw, 32) + rd64(raw, 40) > u64::MAX {
        u64::MAX
    } else {
        (rd64(raw, 32) + rd64(raw, 40)) as u64
    }
}

/// The first check that `raw` fails, or `None` for a usable Segment image:
/// the header checks, the total length, and the vector payload checksum.
/// The Tombstone bitmap is checked by its length alone (format version 1
/// has no checksum over it).
pub open spec fn segment_fault(raw: Seq<u8>) -> Option<SegmentFault> {
    match header_fault(raw) {
        Some(f) => Some(f),
        None => if raw.len() != rd64(raw, 32) + rd64(raw, 40) {
            Some(SegmentFault::FileLength { actual: raw.len() as u64, expected: announced_len(raw) })
        } else if crc32_spec(raw.subrange(64, 64 + rd64(raw, 24))) != rd32(raw, 48) {
            Some(SegmentFault::PayloadChecksum)
        } else {
            None
        },
    }
}

/// Human-readable description of a fault.
pub open spec fn fault_text(f: SegmentFault) -> Seq<char> {
    match f {
        SegmentFault::ShortFile => "file shorter than header"@,
        SegmentFault::BadMagic => "bad magic"@,
        SegmentFault::UnsupportedVersion { version } =>
            "unsupported format version "@ + decimal(version as nat),
        SegmentFault::HeaderChecksum => "header checksum mismatch"@,
        SegmentFault::ZeroDimension => "zero dimension"@,
        SegmentFault::VectorLength => "vector_data_len inconsistent with row_count/dimension"@,
        SegmentFault::BitmapOffset => "bitmap_offset inconsistent"@,
        SegmentFault::BitmapLength => "bitmap_len inconsistent with row_count"@,
        SegmentFault::ReservedNonZero => "reserved header fields must be zero"@,
        SegmentFault::FileLength { actual, expected } =>
            "file length "@ + decimal(actual as nat) + " does not match header ("@
                + decimal(expected as nat) + ")"@,
        SegmentFault::PayloadChecksum => "payload checksum mismatch"@,
    }
}

/// Describes a fault.
pub fn describe_fault(f: SegmentFault) -> (s: String)
    ensures
        s@ == fault_text(f),
{
    match f {
        SegmentFault::ShortFile => String::from_str("file shorter than header"),
        SegmentFault::BadMagic => String::from_str("bad magic"),
        SegmentFault::UnsupportedVersion { version } => {
            let mut s = String::from_str("unsupported format version ");
            let v = decimal_string(version as u64);
            s.append(v.as_str());
            s
        },
        SegmentFault::HeaderChecksum => String::from_str("header checksum mismatch"),
        SegmentFault::ZeroDimension => String::from_str("zero dimension"),
        SegmentFault::VectorLength => String::from_str(
            "vector_data_len inconsistent with row_count/dimension",
        ),
        SegmentFault::BitmapOffset => String::from_str("bitmap_offset inconsistent"),
        SegmentFault::BitmapLength => String::from_str("bitmap_len inconsistent with row_count"),
        SegmentFault::ReservedNonZero => String::from_str("reserved header fields must be zero"),
        SegmentFault::FileLength { actual, expected } => {
            let mut s = String::from_str("file length ");
            let a = decimal_string(actual);
            s.append(a.as_str());
            s.append(" does not match header (");
            let e = decimal_string(expected);
            s.append(e.as_str());
            s.append(")");
            s
        },
        SegmentFault::PayloadChecksum => String::from_str("payload checksum mismatch"),
    }
}

fn read32(raw: &[u8], off: usize) -> (v: u32)
    requires
        off + 4 <= raw@.len(),
    ensures
        v == rd32(raw@, off as int),
{
    let n = raw.len();
    vstd::bytes::u32_from_le_bytes(&raw[off..off + 4])
}

fn read64(raw: &[u8], off: usize) -> (v: u64)
    requires
        off + 8 <= raw@.len(),
    ensures
        v == rd64(raw@, off as int),
{
    let n = raw.len();
    vstd::bytes::u64_from_le_bytes(&raw[off..off + 8])
}

fn zero_at(raw: &[u8], off: usize) -> (b: bool)
    requires
        off + 4 <= raw@.len(),
    ensures
        b == zero4(raw@, off as int),
{
    raw[off] == 0 && raw[off + 1] == 0 && raw[off + 2] == 0 && raw[off + 3] == 0
}

/// Applies every header check in order.
pub fn check_header(raw: &[u8]) -> (r: Option<SegmentFault>)
    ensures
        r == header_fault(raw@),
{
    if raw.len() < 64 {
        return Some(SegmentFault::ShortFile);
    }
    if !(raw[0] == 0x46u8 && raw[1] == 0x52u8 && raw[2] == 0x53u8 && raw[3] == 0x47u8) {
        assert(raw@.subrange(0, 4) != magic_bytes()) by {
            if raw@.subrange(0, 4) == magic_bytes() {
                assert(raw@.subrange(0, 4)[0] == raw@[0]);
                assert(raw@.subrange(0, 4)[1] == raw@[1]);
                assert(raw@.subrange(0, 4)[2] == raw@[2]);
                assert(raw@.subrange(0, 4)[3] == raw@[3]);
            }
        }
        return Some(SegmentFault::BadMagic);
    }
    assert(raw@.subrange(0, 4) =~= magic_bytes());
    let version = read32(raw, 4);
    if version != FORMAT_VERSION {
        return Some(SegmentFault::UnsupportedVersion { version });
    }
    if read32(raw, 56) != crc32(&raw[0..56]) {
        return Some(SegmentFault::HeaderChecksum);
    }
    let dimension = read32(raw, 8);
    if dimension == 0 {
        return Some(SegmentFault::ZeroDimension);
    }
    let rows = read64(raw, 16);
    let vec_len = read64(raw, 24);
    let expect = match rows.checked_mul(dimension as u64) {
        Some(p) => p.checked_mul(4),
        None => None,
    };
    let expect_vec_len = match expect {
        Some(e) => e,
        None => {
            proof {
                assert(rows * dimension * 4 > u64::MAX) by (nonlinear_arith)
                    requires
                        rows * dimension > u64::MAX || rows * dimension * 4 > u64::MAX;
            }
            return Some(SegmentFault::VectorLength);
        },
    };
    if vec_len != expect_vec_len {
        return Some(SegmentFault::VectorLength);
    }
    let offset = read64(raw, 32);
    if expect_vec_len > u64::MAX - 64 || offset != 64 + expect_vec_len {
        return Some(SegmentFault::BitmapOffset);
    }
    let bitmap_len = read64(raw, 40);
    let want_bitmap = rows / 8 + if rows % 8 == 0 { 0 } else { 1 };
    assert(want_bitmap == bytes_for_rows(rows as nat));
    if bitmap_len != want_bitmap {
        return Some(SegmentFault::BitmapLength);
    }
    if !(zero_at(raw, 12) && zero_at(raw, 52) && zero_at(raw, 60)) {
        return Some(SegmentFault::ReservedNonZero);
    }
    None
}

/// Applies every check a Segment image must pass before use.
pub fn check_segment(raw: &[u8]) -> (r: Option<SegmentFault>)
    ensures
        r == segment_fault(raw@),
{
    match check_header(raw) {
        Some(f) => Some(f),
        None => {
            let offset = read64(raw, 32);
            let bitmap_len = read64(raw, 40);
            let vec_len = read64(raw, 24);
            let expected = offset.saturating_add(bitmap_len);
            if offset > u64::MAX - bitmap_len || raw.len() as u64 != offset + bitmap_len {
                return Some(SegmentFault::FileLength { actual: raw.len() as u64, expected });
            }
            let payload = &raw[64..(64 + vec_len) as usize];
            if crc32(payload) != read32(raw, 48) {
                return Some(SegmentFault::PayloadChecksum);
            }
            None
        },
    }
}

/// Validated description of one committed Segment.
#[derive(Debug, Clone, Copy, PartialEq, Eq, Structural)]
pub struct SegmentHeader {
    /// On-disk format version of this Segment file.
    pub format_version: u32,
    /// Vector dimensionality fixed for every stored row.
    pub dimension: u32,
    /// Total rows stored (live plus tombstoned).
    pub row_count: u64,
}

/// The 32-bit words of a little-endian byte run.
pub open spec fn le32_words(bytes: Seq<u8>) -> Seq<u32> {
    Seq::new(bytes.len() / 4, |i: int| rd32(bytes, 4 * i))
}

/// Read-only view over one fully validated Segment image. Vector components
/// are kept as their IEEE-754 bit patterns.
#[derive(Debug)]
pub struct SegmentReader {
    header: SegmentHeader,
    vectors: Vec<u32>,
    tombstones: TombstoneBitmap,
}

impl SegmentReader {
    pub closed spec fn spec_header(&self) -> SegmentHeader {
        self.header
    }

    /// Stored vector components, row-major, as bit patterns.
    pub closed spec fn spec_vectors(&self) -> Seq<u32> {
        self.vectors@
    }

    /// One flag per stored row: `true` where the row carries a Tombstone.
    pub closed spec fn spec_tombstones(&self) -> Seq<bool> {
        self.tombstones@
    }

    pub closed spec fn wf(&self) -> bool {
        &&& self.header.dimension > 0
        &&& self.vectors@.len() == self.header.row_count * self.header.dimension
        &&& self.tombstones.wf()
        &&& self.tombstones.spec_len() == self.header.row_count
    }

    /// Parses a Segment image after checking it completely; a refused image
    /// is reported as a corrupt Segment whose detail names `path` and the
    /// first failed check.
    pub fn from_bytes(path: &str, raw: &[u8]) -> (r: Result<SegmentReader>)
        ensures
            r is Ok <==> segment_fault(raw@) is None,
            r matches Err(e) ==> (e matches Error::CorruptSegment { detail }
                && detail@ == path@ + ": "@ + fault_text(segment_fault(raw@)->Some_0)),
            r matches Ok(rd) ==> {
                &&& rd.wf()
                &&& rd.spec_header() == (SegmentHeader {
                    format_version: 1,
                    dimension: rd32(raw@, 8),
                    row_count: rd64(raw@, 16),
                })
                &&& rd.spec_vectors() == le32_words(raw@.subrange(64, 64 + rd64(raw@, 24)))
                &&& rd.spec_tombstones() == Seq::new(
                    rd64(raw@, 16) as nat,
                    |row: int| bit_of(raw@.subrange(rd64(raw@, 32) as int, raw@.len() as int), row),
                )
            },
    {
        match check_segment(raw) {
            Some(f) => {
                let mut detail = String::from_str(path);
                detail.append(": ");
                let text = describe_fault(f);
                detail.append(text.as_str());
                Err(Error::CorruptSegment { detail })
            },
            None => {
                let n = raw.len();
                let dimension = read32(raw, 8);
                let rows = read64(raw, 16);
                let vec_len64 = read64(raw, 24);
                let offset64 = read64(raw, 32);
                assert(offset64 == 64 + vec_len64);
                assert(offset64 <= n);
                let vec_len = vec_len64 as usize;
                let offset = offset64 as usize;
                let ghost payload = raw@.subrange(64, 64 + vec_len);
                let mut vectors: Vec<u32> = Vec::new();
                let count = vec_len / 4;
                let mut i: usize = 0;
                while i < count
                    invariant
                        count == vec_len / 4,
                        n == raw@.len(),
                        64 + vec_len <= raw@.len(),
                        payload == raw@.subrange(64, 64 + vec_len),
                        i <= count,
                        vectors@ == Seq::new(i as nat, |k: int| rd32(payload, 4 * k)),
                    decreases count - i,
                {
                    let w = read32(raw, 64 + 4 * i);
                    proof {
                        assert(raw@.subrange(64 + 4 * i, 64 + 4 * i + 4)
                            =~= payload.subrange(4 * i, 4 * i + 4));
                    }
                    vectors.push(w);
                    i = i + 1;
                    proof {
                        assert(vectors@ =~= Seq::new(i as nat, |k: int| rd32(payload, 4 * k)));
                    }
                }
                let bits = vstd::slice::slice_to_vec(&raw[offset..raw.len()]);
                proof {
                    assert(bits@.len() == bytes_for_rows(rows as nat));
                    assert(vectors@ =~= le32_words(payload));
                    assert(vectors@.len() == rows * dimension) by (nonlinear_arith)
                        requires
                            vectors@.len() == vec_len / 4,
                            vec_len == rows * dimension * 4;
                }
                let tombstones = TombstoneBitmap::from_bytes(bits, rows);
                Ok(SegmentReader {
                    header: SegmentHeader { format_version: FORMAT_VERSION, dimension, row_count: rows },
                    vectors,
                    tombstones,
                })
            },
        }
    }

    /// The validated header.
    pub fn header(&self) -> (h: &SegmentHeader)
        ensures
            *h == self.spec_header(),
    {
        &self.header
    }

    /// Rows not carrying a Tombstone.
    pub fn live_row_count(&self) -> (n: u64)
        requires
            self.wf(),
        ensures
            n == self.spec_header().row_count - count_true(self.spec_tombstones()),
    {
        self.header.row_count - self.tombstones.count()
    }

    /// Copies the vector at `row` (as component bit patterns).
    pub fn vector(&self, row: u64) -> (r: Result<Vec<u32>>)
        requires
            self.wf(),
        ensures
            r is Ok <==> row < self.spec_header().row_count,
            r matches Ok(v) ==> v@ == self.spec_vectors().subrange(
                row * self.spec_header().dimension,
                (row + 1) * self.spec_header().dimension,
            ),
            r matches Err(e) ==> (e matches Error::SchemaViolation { reason }
                && reason@ == "row "@ + decimal(row as nat) + " out of range (segment holds "@
                    + decimal(self.spec_header().row_count as nat) + ")"@),
    {
        let dim = self.header.dimension as u64;
        if row >= self.header.row_count {
            let mut reason = String::from_str("row ");
            let r = decimal_string(row);
            reason.append(r.as_str());
            reason.append(" out of range (segment holds ");
            let n = decimal_string(self.header.row_count);
            reason.append(n.as_str());
            reason.append(")");
            return Err(Error::SchemaViolation { reason });
        }
        let total = self.vectors.len();
        proof {
            assert((row + 1) * dim <= self.header.row_count * dim) by (nonlinear_arith)
                requires
                    row < self.header.row_count;
            assert((row + 1) * dim == row * dim + dim) by (nonlinear_arith);
            assert(row * dim + dim <= total);
        }
        let start = (row * dim) as usize;
        let end = start + dim as usize;
        Ok(vstd::slice::slice_to_vec(&self.vectors[start..end]))
    }

    /// All stored vector components, row-major (including tombstoned rows).
    pub fn all_vectors(&self) -> (v: &[u32])
        ensures
            v@ == self.spec_vectors(),
    {
        self.vectors.as_slice()
    }

    /// Whether `row` carries a Tombstone. Out-of-range rows report `false`.
    pub fn is_tombstoned(&self, row: u64) -> (b: bool)
        requires
            self.wf(),
        ensures
            b == (row < self.spec_header().row_count && self.spec_tombstones()[row as int]),
    {
        self.tombstones.get(row)
    }

    /// Ascending list of tombstoned rows.
    pub fn tombstoned_rows(&self) -> (rows: Vec<u64>)
        requires
            self.wf(),
        ensures
            forall|i: int, j: int| 0 <= i < j < rows@.len() ==> rows@[i] < rows@[j],
            forall|r: u64| rows@.contains(r) <==> (r < self.spec_header().row_count
                && self.spec_tombstones()[r as int]),
    {
        self.tombstones.iter()
    }
}

} // verus!

verus! {

// ---------------------------------------------------------------------------
// Segment image: encoding
// ---------------------------------------------------------------------------

/// Little-endian bytes of a run of 32-bit words.
pub open spec fn le32_seq(w: Seq<u32>) -> Seq<u8>
    decreases w.len(),
{
    if w.len() == 0 {
        Seq::<u8>::empty()
    } else {
        le32_seq(w.drop_last()) + le32(w.last())
    }
}

/// The first 56 header bytes (everything the header checksum covers).
pub open spec fn header_prefix(dimension: u32, rows: u64, vec_len: u64, bitmap_len: u64, payload_crc: u32) -> Seq<u8> {
    magic_bytes() + le32(1) + le32(dimension) + seq![0u8, 0u8, 0u8, 0u8] + le64(rows) + le64(vec_len)
        + le64((64 + vec_len) as u64) + le64(bitmap_len) + le32(payload_crc) + seq![0u8, 0u8, 0u8, 0u8]
}

/// The complete 64-byte header.
pub open spec fn header_image(dimension: u32, rows: u64, vec_len: u64, bitmap_len: u64, payload_crc: u32) -> Seq<u8> {
    let p = header_prefix(dimension, rows, vec_len, bitmap_len, payload_crc);
    p + le32(crc32_spec(p)) + seq![0u8, 0u8, 0u8, 0u8]
}

/// The file a committed Segment holds: header, vector payload, bitmap.
pub open spec fn segment_image(dimension: u32, vectors: Seq<u32>, bitmap: Seq<u8>) -> Seq<u8> {
    let payload = le32_seq(vectors);
    header_image(
        dimension,
        (vectors.len() / (dimension as nat)) as u64,
        payload.len() as u64,
        bitmap.len() as u64,
        crc32_spec(payload),
    ) + payload + bitmap
}

pub proof fn lemma_le_lens()
    ensures
        forall|x: u32| #[trigger] le32(x).len() == 4,
        forall|x: u64| #[trigger] le64(x).len() == 8,
        forall|x: u32| #[trigger] vstd::bytes::spec_u32_from_le_bytes(le32(x)) == x,
        forall|x: u64| #[trigger] vstd::bytes::spec_u64_from_le_bytes(le64(x)) == x,
{
    vstd::bytes::lemma_auto_spec_u32_to_from_le_bytes();
    vstd::bytes::lemma_auto_spec_u64_to_from_le_bytes();
    assert forall|x: u32| #[trigger] vstd::bytes::spec_u32_from_le_bytes(le32(x)) == x by {
        assert(vstd::bytes::spec_u32_to_le_bytes(x).len() == 4);
    }
    assert forall|x: u64| #[trigger] vstd::bytes::spec_u64_from_le_bytes(le64(x)) == x by {
        assert(vstd::bytes::spec_u64_to_le_bytes(x).len() == 8);
    }
    assert forall|x: u64| #[trigger] le64(x).len() == 8 by {
        assert(vstd::bytes::spec_u64_to_le_bytes(x).len() == 8);
    }
}

pub proof fn lemma_le32_seq(w: Seq<u32>)
    ensures
        le32_seq(w).len() == 4 * w.len(),
        forall|i: int| 0 <= i < w.len() ==> #[trigger] le32_seq(w).subrange(4 * i, 4 * i + 4) == le32(w[i]),
    decreases w.len(),
{
    lemma_le_lens();
    if w.len() > 0 {
        let p = w.drop_last();
        lemma_le32_seq(p);
        assert forall|i: int| 0 <= i < w.len() implies #[trigger] le32_seq(w).subrange(4 * i, 4 * i + 4)
            == le32(w[i]) by {
            if i < p.len() {
                assert(le32_seq(w).subrange(4 * i, 4 * i + 4) =~= le32_seq(p).subrange(4 * i, 4 * i + 4));
            } else {
                assert(le32_seq(w).subrange(4 * i, 4 * i + 4) =~= le32(w.last()));
            }
        }
    }
}

/// Decoding the little-endian words of an encoded run gives the run back.
pub proof fn lemma_le32_words_of_seq(w: Seq<u32>)
    ensures
        le32_words(le32_seq(w)) == w,
{
    lemma_le32_seq(w);
    lemma_le_lens();
    assert forall|i: int| 0 <= i < w.len() implies #[trigger] le32_words(le32_seq(w))[i] == w[i] by {
        assert(le32_seq(w).subrange(4 * i, 4 * i + 4) == le32(w[i]));
    }
    assert(le32_words(le32_seq(w)) =~= w);
}

pub(crate) fn push_all(out: &mut Vec<u8>, bytes: Vec<u8>)
    ensures
        final(out)@ == old(out)@ + bytes@,
{
    let mut bytes = bytes;
    out.append(&mut bytes);
}

/// Encodes the 64-byte header.
pub fn encode_header(dimension: u32, rows: u64, vec_len: u64, bitmap_len: u64, payload_crc: u32) -> (h: Vec<u8>)
    requires
        vec_len <= u64::MAX - 64,
    ensures
        h@ == header_image(dimension, rows, vec_len, bitmap_len, payload_crc),
        h@.len() == 64,
{
    proof {
        lemma_le_lens();
    }
    let mut h: Vec<u8> = Vec::new();
    h.push(0x46u8);
    h.push(0x52u8);
    h.push(0x53u8);
    h.push(0x47u8);
    push_all(&mut h, vstd::bytes::u32_to_le_bytes(FORMAT_VERSION));
    push_all(&mut h, vstd::bytes::u32_to_le_bytes(dimension));
    h.push(0u8);
    h.push(0u8);
    h.push(0u8);
    h.push(0u8);
    push_all(&mut h, vstd::bytes::u64_to_le_bytes(rows));
    push_all(&mut h, vstd::bytes::u64_to_le_bytes(vec_len));
    push_all(&mut h, vstd::bytes::u64_to_le_bytes(64 + vec_len));
    push_all(&mut h, vstd::bytes::u64_to_le_bytes(bitmap_len));
    push_all(&mut h, vstd::bytes::u32_to_le_bytes(payload_crc));
    h.push(0u8);
    h.push(0u8);
    h.push(0u8);
    h.push(0u8);
    let ghost prefix = header_prefix(dimension, rows, vec_len, bitmap_len, payload_crc);
    assert(h@ =~= prefix);
    let c = crc32(h.as_slice());
    push_all(&mut h, vstd::bytes::u32_to_le_bytes(c));
    h.push(0u8);
    h.push(0u8);
    h.push(0u8);
    h.push(0u8);
    assert(h@ =~= header_image(dimension, rows, vec_len, bitmap_len, payload_crc));
    h
}

/// Little-endian bytes of `words`.
pub fn encode_words(words: &[u32]) -> (b: Vec<u8>)
    ensures
        b@ == le32_seq(words@),
{
    let mut b: Vec<u8> = Vec::new();
    for i in 0..words.len()
        invariant
            b@ == le32_seq(words@.take(i as int)),
    {
        push_all(&mut b, vstd::bytes::u32_to_le_bytes(words[i]));
        proof {
            assert(words@.take(i + 1).drop_last() =~= words@.take(i as int));
        }
    }
    proof {
        assert(words@.take(words@.len() as int) =~= words@);
    }
    b
}

/// Reading back the image of a committed Segment recovers exactly what was
/// written: the image passes every check, and its header, vectors and
/// Tombstone bytes decode to the inputs.
proof fn lemma_header_fields(dimension: u32, rows: u64, vec_len: u64, bl: u64, pcrc: u32, rest: Seq<u8>)
    requires
        vec_len <= u64::MAX - 64,
    ensures
        ({
            let img = header_image(dimension, rows, vec_len, bl, pcrc) + rest;
            &&& img.len() == 64 + rest.len()
            &&& img.subrange(0, 4) == magic_bytes()
            &&& rd32(img, 4) == 1
            &&& rd32(img, 8) == dimension
            &&& rd64(img, 16) == rows
            &&& rd64(img, 24) == vec_len
            &&& rd64(img, 32) == 64 + vec_len
            &&& rd64(img, 40) == bl
            &&& rd32(img, 48) == pcrc
            &&& rd32(img, 56) == crc32_spec(img.subrange(0, 56))
            &&& zero4(img, 12) && zero4(img, 52) && zero4(img, 60)
            &&& img.subrange(64, img.len() as int) == rest
        }),
{
    lemma_le_lens();
    let prefix = header_prefix(dimension, rows, vec_len, bl, pcrc);
    let img = header_image(dimension, rows, vec_len, bl, pcrc) + rest;
    assert(prefix.len() == 56);
    assert(img.subrange(0, 4) =~= magic_bytes());
    assert(img.subrange(4, 8) =~= le32(1));
    assert(img.subrange(8, 12) =~= le32(dimension));
    assert(img.subrange(16, 24) =~= le64(rows));
    assert(img.subrange(24, 32) =~= le64(vec_len));
    assert(img.subrange(32, 40) =~= le64((64 + vec_len) as u64));
    assert(img.subrange(40, 48) =~= le64(bl));
    assert(img.subrange(48, 52) =~= le32(pcrc));
    assert(img.subrange(0, 56) =~= prefix);
    assert(img.subrange(56, 60) =~= le32(crc32_spec(prefix)));
    assert(img.subrange(64, img.len() as int) =~= rest);
}

/// Reading back the image of a committed Segment recovers exactly what was
/// written: the image passes every check, and its header, vectors and
/// Tombstone bytes decode to the inputs.
#[verifier::spinoff_prover]
#[verifier::rlimit(40)]
pub proof fn lemma_segment_round_trip(dimension: u32, vectors: Seq<u32>, bitmap: Seq<u8>)
    requires
        dimension > 0,
        vectors.len() % (dimension as nat) == 0,
        bitmap.len() == bytes_for_rows(vectors.len() / (dimension as nat)),
        64 + 4 * vectors.len() + bitmap.len() <= u64::MAX,
    ensures
        ({
            let img = segment_image(dimension, vectors, bitmap);
            &&& segment_fault(img) is None
            &&& rd32(img, 8) == dimension
            &&& rd64(img, 16) == vectors.len() / (dimension as nat)
            &&& le32_words(img.subrange(64, 64 + rd64(img, 24))) == vectors
            &&& img.subrange(rd64(img, 32) as int, img.len() as int) == bitmap
        }),
{
    lemma_le32_seq(vectors);
    lemma_le32_words_of_seq(vectors);
    let payload = le32_seq(vectors);
    let rows = (vectors.len() / (dimension as nat)) as u64;
    let vec_len = payload.len() as u64;
    let pcrc = crc32_spec(payload);
    let bl = bitmap.len() as u64;
    let rest = payload + bitmap;
    lemma_header_fields(dimension, rows, vec_len, bl, pcrc, rest);
    let img = segment_image(dimension, vectors, bitmap);
    assert(img =~= header_image(dimension, rows, vec_len, bl, pcrc) + rest);
    assert(rows * dimension == vectors.len()) by (nonlinear_arith)
        requires
            rows == vectors.len() / (dimension as nat),
            vectors.len() % (dimension as nat) == 0,
            dimension > 0;
    assert(rows * dimension * 4 == vec_len) by (nonlinear_arith)
        requires
            rows * dimension == vectors.len(),
            vec_len == 4 * vectors.len();
    assert(img.subrange(64, 64 + vec_len) =~= payload) by {
        assert(img.subrange(64, 64 + vec_len) =~= img.subrange(64, img.len() as int).subrange(0, vec_len as int));
        assert(rest.subrange(0, vec_len as int) =~= payload);
    }
    assert(img.subrange(64 + vec_len, img.len() as int) =~= bitmap) by {
        assert(img.subrange(64 + vec_len, img.len() as int)
            =~= img.subrange(64, img.len() as int).subrange(vec_len as int, rest.len() as int));
        assert(rest.subrange(vec_len as int, rest.len() as int) =~= bitmap);
    }
}

/// Reason given when a Tombstone targets a row that was never written.
pub open spec fn unwritten_row_reason(row: u64, rows: u64) -> Seq<char> {
    "tombstone row "@ + decimal(row as nat) + " beyond "@ + decimal(rows as nat) + " written rows"@
}

/// An `InvalidInput` I/O error with the given message.
///
/// Calls `std::io::Error::new`; nothing further is claimed of the value.
#[verifier::external_body]
fn invalid_input(message: &str) -> std::io::Error {
    std::io::Error::new(std::io::ErrorKind::InvalidInput, message.to_string())
}

/// The logic of a Segment under construction: rows, payload checksum,
/// Tombstones, and the header written at commit time. The file itself is
/// owned by the caller, who writes the bytes each step hands back.
pub struct SegmentBuilder {
    id: u64,
    dimension: u32,
    rows: u64,
    payload_crc: Crc32,
    vector_bytes: u64,
    tombstones: TombstoneBitmap,
    written: Ghost<Seq<u32>>,
}

impl SegmentBuilder {
    pub closed spec fn spec_id(&self) -> u64 {
        self.id
    }

    pub closed spec fn spec_dimension(&self) -> u32 {
        self.dimension
    }

    pub closed spec fn spec_rows(&self) -> u64 {
        self.rows
    }

    /// Every vector component appended so far, row-major, as bit patterns.
    pub closed spec fn spec_written(&self) -> Seq<u32> {
        self.written@
    }

    /// Tombstone flags of the written rows.
    pub closed spec fn spec_tombstones(&self) -> Seq<bool> {
        self.tombstones@
    }

    pub closed spec fn spec_bitmap_bytes(&self) -> Seq<u8> {
        self.tombstones.spec_bytes()
    }

    pub closed spec fn wf(&self) -> bool {
        &&& self.dimension > 0
        &&& self.written@.len() == self.rows * self.dimension
        &&& self.vector_bytes == 4 * self.written@.len()
        &&& self.vector_bytes <= u64::MAX - 64
        &&& self.payload_crc.spec_state() == crc_update(0xFFFF_FFFFu32, le32_seq(self.written@))
        &&& self.tombstones.wf()
        &&& self.tombstones.spec_len() == self.rows
    }

    /// Starts a Segment for `dimension`-wide vectors; a zero dimension is
    /// refused as an invalid-input I/O error.
    pub fn new(id: u64, dimension: u32) -> (r: Result<Self>)
        ensures
            r is Ok <==> dimension > 0,
            r matches Err(e) ==> e is Io,
            r matches Ok(b) ==> b.wf() && b.spec_id() == id && b.spec_dimension() == dimension
                && b.spec_rows() == 0 && b.spec_written() == Seq::<u32>::empty(),
    {
        if dimension == 0 {
            return Err(Error::Io(invalid_input("dimension must be nonzero")));
        }
        let b = SegmentBuilder {
            id,
            dimension,
            rows: 0,
            payload_crc: Crc32::new(),
            vector_bytes: 0,
            tombstones: TombstoneBitmap::new(0),
            written: Ghost(Seq::empty()),
        };
        assert(le32_seq(Seq::<u32>::empty()) =~= Seq::<u8>::empty());
        Ok(b)
    }

    pub fn id(&self) -> (i: u64)
        ensures
            i == self.spec_id(),
    {
        self.id
    }

    pub fn dimension(&self) -> (d: u32)
        ensures
            d == self.spec_dimension(),
    {
        self.dimension
    }

    pub fn rows(&self) -> (n: u64)
        ensures
            n == self.spec_rows(),
    {
        self.rows
    }

    /// Appends whole vectors given as a flat row-major run of component bit
    /// patterns, returning the bytes to stream to the file.
    ///
    /// A run that is not a whole number of vectors is refused as a dimension
    /// mismatch (`actual` is the run length truncated to 32 bits). Rows
    /// already written keep their Tombstones; the new rows start cleared.
    pub fn append_vectors(&mut self, vectors: &[u32]) -> (r: Result<Vec<u8>>)
        requires
            old(self).wf(),
            64 + 4 * (old(self).spec_written().len() + vectors@.len()) <= u64::MAX,
            bytes_for_rows((old(self).spec_rows() + vectors@.len()) as nat) <= usize::MAX,
        ensures
            final(self).wf(),
            final(self).spec_id() == old(self).spec_id(),
            final(self).spec_dimension() == old(self).spec_dimension(),
            r is Ok <==> vectors@.len() % (old(self).spec_dimension() as nat) == 0,
            r matches Err(e) ==> (e == Error::DimensionMismatch {
                expected: old(self).spec_dimension(),
                actual: vectors@.len() as u32,
            }) && final(self).spec_written() == old(self).spec_written()
                && final(self).spec_rows() == old(self).spec_rows()
                && final(self).spec_bitmap_bytes() == old(self).spec_bitmap_bytes(),
            r matches Ok(bytes) ==> {
                &&& bytes@ == le32_seq(vectors@)
                &&& final(self).spec_written() == old(self).spec_written() + vectors@
                &&& final(self).spec_rows() == old(self).spec_rows()
                    + vectors@.len() / (old(self).spec_dimension() as nat)
                &&& final(self).spec_tombstones() == old(self).spec_tombstones() + Seq::new(
                    (final(self).spec_rows() - old(self).spec_rows()) as nat,
                    |i: int| false,
                )
            },
    {
        let dim = self.dimension as usize;
        if vectors.len() % dim != 0 {
            return Err(Error::DimensionMismatch {
                expected: self.dimension,
                actual: #[verifier::truncate] (vectors.len() as u32),
            });
        }
        let bytes = encode_words(vectors);
        proof {
            lemma_le32_seq(vectors@);
            lemma_crc_update_concat(0xFFFF_FFFFu32, le32_seq(self.written@), le32_seq(vectors@));
            lemma_le32_seq_concat(self.written@, vectors@);
        }
        self.payload_crc.update(bytes.as_slice());
        self.vector_bytes = self.vector_bytes + (bytes.len() as u64);
        let added = (vectors.len() / dim) as u64;
        proof {
            assert((self.rows + added) * self.dimension == self.rows * self.dimension + added * self.dimension)
                by (nonlinear_arith);
            assert(added * self.dimension == vectors@.len()) by (nonlinear_arith)
                requires
                    added == vectors@.len() / (dim as nat),
                    vectors@.len() % (dim as nat) == 0,
                    dim == self.dimension,
                    dim > 0;
        }
        proof {
            assert(self.rows + added <= (self.rows + added) * self.dimension) by (nonlinear_arith)
                requires
                    self.dimension >= 1;
        }
        self.rows = self.rows + added;
        self.written = Ghost(self.written@ + vectors@);
        if self.tombstones.len() < self.rows {
            self.tombstones.grow(self.rows);
        } else {
            assert(old(self).spec_tombstones() + Seq::new(0nat, |i: int| false) =~= old(self).spec_tombstones());
        }
        Ok(bytes)
    }

    /// Records a Tombstone for a written `row`.
    pub fn tombstone(&mut self, row: u64) -> (r: Result<()>)
        requires
            old(self).wf(),
        ensures
            final(self).wf(),
            final(self).spec_id() == old(self).spec_id(),
            final(self).spec_dimension() == old(self).spec_dimension(),
            final(self).spec_rows() == old(self).spec_rows(),
            final(self).spec_written() == old(self).spec_written(),
            r is Ok <==> row < old(self).spec_rows(),
            r is Ok ==> final(self).spec_tombstones() == old(self).spec_tombstones().update(row as int, true),
            r is Err ==> final(self).spec_tombstones() == old(self).spec_tombstones()
                && final(self).spec_bitmap_bytes() == old(self).spec_bitmap_bytes(),
            r matches Err(e) ==> (e matches Error::SchemaViolation { reason }
                && reason@ == unwritten_row_reason(row, old(self).spec_rows())),
    {
        if row >= self.rows {
            let mut reason = String::from_str("tombstone row ");
            let r = decimal_string(row);
            reason.append(r.as_str());
            reason.append(" beyond ");
            let n = decimal_string(self.rows);
            reason.append(n.as_str());
            reason.append(" written rows");
            return Err(Error::SchemaViolation { reason });
        }
        self.tombstones.set(row)
    }

    /// Final header and Tombstone bitmap bytes. The committed file is the
    /// header, then every chunk `append_vectors` returned, then the bitmap:
    /// exactly [`segment_image`] of what was written.
    pub fn finish(self) -> (r: (Vec<u8>, Vec<u8>))
        requires
            self.wf(),
        ensures
            r.1@ == self.spec_bitmap_bytes(),
            r.1@.len() == bytes_for_rows(self.spec_rows() as nat),
            r.0@ + le32_seq(self.spec_written()) + r.1@ == segment_image(
                self.spec_dimension(),
                self.spec_written(),
                self.spec_bitmap_bytes(),
            ),
    {
        let bitmap = self.tombstones.bits;
        let payload_crc = self.payload_crc.finalize();
        proof {
            lemma_le32_seq(self.written@);
            assert(self.rows == self.written@.len() / (self.dimension as nat)) by (nonlinear_arith)
                requires
                    self.written@.len() == self.rows * self.dimension,
                    self.dimension > 0;
        }
        let header = encode_header(
            self.dimension,
            self.rows,
            self.vector_bytes,
            bitmap.len() as u64,
            payload_crc,
        );
        (header, bitmap)
    }
}

proof fn lemma_le32_seq_concat(a: Seq<u32>, b: Seq<u32>)
    ensures
        le32_seq(a + b) == le32_seq(a) + le32_seq(b),
    decreases b.len(),
{
    if b.len() == 0 {
        assert(a + b =~= a);
        assert(le32_seq(a) + le32_seq(b) =~= le32_seq(a));
    } else {
        assert((a + b).drop_last() =~= a + b.drop_last());
        lemma_le32_seq_concat(a, b.drop_last());
        assert(le32_seq(a + b) =~= le32_seq(a) + le32_seq(b));
    }
}

} // verus!
