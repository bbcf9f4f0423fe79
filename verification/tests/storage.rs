use ferrite_db::errors::{Error, ErrorClass};
use ferrite_db::storage::{crc32, Crc32, SegmentBuilder, SegmentReader, TombstoneBitmap, HEADER_LEN};

const DIM: u32 = 4;
const OFF_VERSION: usize = 4;

fn bits(values: &[f32]) -> Vec<u32> {
    values.iter().map(|v| v.to_bits()).collect()
}

fn vec_row(base: f32, dim: u32) -> Vec<f32> {
    (0..dim).map(|i| base + i as f32).collect()
}

/// The bytes of a committed three-row sample Segment with row 1 Tombstoned.
fn sample_image(id: u64) -> Vec<u8> {
    let mut w = SegmentBuilder::new(id, DIM).expect("create");
    let mut rows = vec_row(0.0, DIM);
    rows.extend(vec_row(10.0, DIM));
    rows.extend(vec_row(20.0, DIM));
    let payload = w.append_vectors(&bits(&rows)).expect("append");
    w.tombstone(1).expect("tombstone");
    let (header, bitmap) = w.finish();
    let mut image = header;
    image.extend(payload);
    image.extend(bitmap);
    image
}

#[test]
fn crc32_matches_known_vector() {
    assert_eq!(crc32(b"123456789"), 0xCBF4_3926);
}

#[test]
fn crc32_is_incremental() {
    let mut c = Crc32::new();
    c.update(b"1234");
    c.update(b"56789");
    assert_eq!(c.finalize(), 0xCBF4_3926);
    assert_eq!(crc32(b""), 0);
}

#[test]
fn round_trip_is_lossless() {
    let image = sample_image(1);
    let r = SegmentReader::from_bytes("1.fseg", &image).expect("open");
    assert_eq!(r.header().dimension, DIM);
    assert_eq!(r.header().row_count, 3);
    assert_eq!(r.all_vectors().len(), 12);
    assert_eq!(r.vector(2).expect("vector"), bits(&[20.0, 21.0, 22.0, 23.0]));
    assert!(r.is_tombstoned(1));
    assert!(!r.is_tombstoned(0));
    assert_eq!(r.live_row_count(), 2);
    assert_eq!(r.tombstoned_rows(), vec![1]);
}

#[test]
fn truncated_file_rejected_before_use() {
    let full = sample_image(2);
    for cut in [0usize, 30, HEADER_LEN as usize, full.len() - 1] {
        match SegmentReader::from_bytes("2.fseg", &full[..cut]) {
            Err(Error::CorruptSegment { .. }) => {}
            other => panic!("cut {cut}: expected CorruptSegment, got {other:?}"),
        }
    }
}

#[test]
fn bit_flips_are_detected() {
    let good = sample_image(3);
    for off in [OFF_VERSION, HEADER_LEN as usize + 8] {
        let mut bad = good.clone();
        bad[off] ^= 0b0000_0001;
        match SegmentReader::from_bytes("3.fseg", &bad) {
            Err(Error::CorruptSegment { .. }) => {}
            other => panic!("flip at {off}: expected CorruptSegment, got {other:?}"),
        }
    }
    assert!(SegmentReader::from_bytes("3.fseg", &good).is_ok());
}

#[test]
fn bad_magic_and_version_rejected() {
    let good = sample_image(4);
    let mut bad = good.clone();
    bad[0] = b'X';
    assert!(matches!(
        SegmentReader::from_bytes("4.fseg", &bad),
        Err(Error::CorruptSegment { .. })
    ));
    let mut bad = good;
    bad[OFF_VERSION..OFF_VERSION + 4].copy_from_slice(&99u32.to_le_bytes());
    assert!(matches!(
        SegmentReader::from_bytes("4.fseg", &bad),
        Err(Error::CorruptSegment { .. })
    ));
}

#[test]
fn corrupt_segment_detail_names_the_file() {
    match SegmentReader::from_bytes("dir/7.fseg", &[]) {
        Err(Error::CorruptSegment { detail }) => assert!(detail.starts_with("dir/7.fseg: "), "{detail}"),
        other => panic!("expected CorruptSegment, got {other:?}"),
    }
}

#[test]
fn append_validates_whole_vectors() {
    let mut w = SegmentBuilder::new(5, DIM).expect("create");
    let e = w.append_vectors(&bits(&[1.0, 2.0, 3.0])).expect_err("must reject");
    assert!(matches!(
        e,
        Error::DimensionMismatch {
            expected: 4,
            actual: 3
        }
    ));
    assert_eq!(e.class(), ErrorClass::CallerFixable);
}

#[test]
fn empty_segment_round_trips() {
    let w = SegmentBuilder::new(6, DIM).expect("create");
    let (header, bitmap) = w.finish();
    let mut image = header;
    image.extend(bitmap);
    let r = SegmentReader::from_bytes("6.fseg", &image).expect("open");
    assert_eq!(r.header().row_count, 0);
    assert_eq!(r.live_row_count(), 0);
    assert!(r.tombstoned_rows().is_empty());
}

#[test]
fn zero_dimension_segment_is_refused() {
    assert!(matches!(SegmentBuilder::new(9, 0), Err(Error::Io(_))));
}

#[test]
fn bitmap_set_clear_iterate_including_boundaries() {
    let mut bm = TombstoneBitmap::new(70); // non-byte-aligned edge at 69
    assert_eq!(bm.len(), 70);
    assert!(!bm.get(0));
    bm.set(0).expect("set first");
    bm.set(69).expect("set last");
    bm.set(8).expect("set byte boundary");
    assert!(bm.get(0) && bm.get(8) && bm.get(69));
    bm.clear(8).expect("clear middle");
    assert!(!bm.get(8));
    assert_eq!(bm.iter(), vec![0, 69], "ascending iteration");
    assert!(bm.set(70).is_err(), "out of range rejected, not panicked");
    assert!(!bm.get(u64::MAX), "out-of-range get is false, not a panic");

    // Re-set is idempotent; clear of unset bit stays clear.
    bm.set(0).expect("re-set");
    bm.clear(5).expect("clear unset");
    assert_eq!(bm.iter(), vec![0, 69]);
}

#[test]
fn empty_bitmap_is_empty() {
    let bm = TombstoneBitmap::new(0);
    assert!(bm.is_empty());
    assert_eq!(bm.count(), 0);
    let mut bm = TombstoneBitmap::new(9);
    assert!(!bm.is_empty());
    bm.set(3).unwrap();
    bm.set(8).unwrap();
    assert_eq!(bm.count(), 2);
}

/// A small deterministic generator for hostile inputs.
struct Rng(u64);

impl Rng {
    fn next(&mut self) -> u64 {
        self.0 = self.0.wrapping_mul(6364136223846793005).wrapping_add(1442695040888963407);
        self.0 >> 33
    }

    fn below(&mut self, n: u64) -> u64 {
        self.next() % n
    }
}

/// Bit flips, byte zeroing and overwrite, insertion, removal, truncation.
fn mutate(base: &[u8], rng: &mut Rng) -> Vec<u8> {
    let mut out = base.to_vec();
    let ops = 1 + rng.below(3);
    for _ in 0..ops {
        match rng.below(6) {
            0 if !out.is_empty() => {
                let i = rng.below(out.len() as u64) as usize;
                out[i] ^= 1u8 << rng.below(8);
            }
            1 if !out.is_empty() => {
                let i = rng.below(out.len() as u64) as usize;
                out[i] = 0;
            }
            2 if !out.is_empty() => {
                let i = rng.below(out.len() as u64) as usize;
                out.remove(i);
            }
            3 => {
                let i = rng.below((out.len() + 1) as u64) as usize;
                out.insert(i, (rng.next() & 0xff) as u8);
            }
            4 if !out.is_empty() => {
                let i = rng.below(out.len() as u64) as usize;
                out[i] = (rng.next() & 0xff) as u8;
            }
            _ if !out.is_empty() => {
                let keep = rng.below(out.len() as u64) as usize;
                out.truncate(keep);
            }
            _ => {}
        }
    }
    out
}

#[test]
fn mutated_segment_corpus_never_panics() {
    let base = sample_image(1);
    let mut rng = Rng(0x1111_2222_3333_4444);
    let mut resolved = 0usize;
    for _ in 0..5000 {
        let mutated = mutate(&base, &mut rng);
        if let Ok(reader) = SegmentReader::from_bytes("mutated.fseg", &mutated) {
            let row_count = reader.header().row_count;
            for _ in 0..4 {
                let row = rng.below(row_count + 4);
                let _ = reader.vector(row);
            }
        }
        resolved += 1;
    }
    assert_eq!(resolved, 5000, "every mutated input was resolved");
}

#[test]
fn appending_rows_keeps_earlier_tombstones() {
    let mut w = SegmentBuilder::new(6, 2).expect("create");
    let first = w.append_vectors(&bits(&[0.0, 0.0])).expect("append");
    w.tombstone(0).expect("tombstone");
    let second = w.append_vectors(&bits(&[1.0, 1.0])).expect("append");
    assert_eq!(w.rows(), 2);
    let (header, bitmap) = w.finish();
    let mut image = header;
    image.extend(first);
    image.extend(second);
    image.extend(bitmap);
    let reader = SegmentReader::from_bytes("seg", &image).expect("open");
    assert_eq!(reader.tombstoned_rows(), vec![0]);
    assert!(reader.is_tombstoned(0));
    assert!(!reader.is_tombstoned(1));
}

#[test]
fn growing_a_bitmap_clears_only_the_new_rows() {
    // Padding bits beyond the addressed rows must not leak into new rows.
    let mut b = TombstoneBitmap::from_bytes(vec![0b1111_0101], 3);
    assert!(b.get(0) && !b.get(1) && b.get(2));
    b.grow(12);
    assert_eq!(b.len(), 12);
    assert_eq!(b.iter(), vec![0, 2]);
    let mut c = TombstoneBitmap::new(0);
    c.grow(9);
    assert_eq!(c.count(), 0);
    c.set(8).unwrap();
    assert_eq!(c.iter(), vec![8]);
}

#[test]
fn refused_bitmap_updates_leave_the_bytes_alone() {
    let mut b = TombstoneBitmap::new(4);
    b.set(1).unwrap();
    let before = b.clone();
    assert!(b.set(4).is_err());
    assert!(b.clear(9).is_err());
    assert_eq!(b, before);
}
