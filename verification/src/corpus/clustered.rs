//! The clustered accuracy corpus: same streams and fixture layout as the
//! uniform corpus, under its own magic numbers (`FR?2`), with a format
//! version in every file so the two families cannot be confused at load
//! time. Loading parses the four fixture files and reads the metric and
//! category count back from the manifest.

use vstd::prelude::*;

use crate::corpus::{
    frame_truth, frame_vectors, le16, le16_seq, put_halves, put_u32, put_u64, truth_file, vectors_file,
    GroundTruthBits,
};
use crate::storage::{le32, le64};
use crate::text::{
    chars_equal, chars_of, concat_str, decimal, decimal_string, decimal_string_wide, find_chars, first_index_where,
    first_occurrence, is_white_space, leading_white_space, slice_chars, white_space,
};

verus! {

/// Distance function of a clustered corpus.
#[derive(Debug, Clone, Copy, PartialEq, Eq, Structural)]
pub enum Metric {
    Cosine,
    L2,
    Dot,
}

/// Serialized clustered fixture bytes plus the manifest.
#[derive(Debug, Clone)]
pub struct Serialized {
    pub corpus_bytes: Vec<u8>,
    pub meta_bytes: Vec<u8>,
    pub queries_bytes: Vec<u8>,
    pub ground_truth_bytes: Vec<u8>,
    pub manifest: String,
}

/// The clustered fixture format version.
pub const CLUSTERED_FORMAT_VERSION: u32 = 1;

/// `b"FRC2"`.
pub open spec fn corpus_magic() -> Seq<u8> {
    seq![0x46u8, 0x52u8, 0x43u8, 0x32u8]
}

/// `b"FRM2"`.
pub open spec fn meta_magic() -> Seq<u8> {
    seq![0x46u8, 0x52u8, 0x4du8, 0x32u8]
}

/// `b"FRQ2"`.
pub open spec fn query_magic() -> Seq<u8> {
    seq![0x46u8, 0x52u8, 0x51u8, 0x32u8]
}

/// `b"FRG2"`.
pub open spec fn truth_magic() -> Seq<u8> {
    seq![0x46u8, 0x52u8, 0x47u8, 0x32u8]
}

/// Serializes a generated clustered corpus of `dimension` and `top_k`.
/// Vector components and distances are given as `f32` bit patterns; the
/// manifest text is passed through.
pub fn serialize(
    dimension: u32,
    top_k: u32,
    corpus: &[u32],
    categories: &[u16],
    queries: &[u32],
    ground_truth: &[GroundTruthBits],
    manifest: String,
) -> (s: Serialized)
    requires
        dimension > 0,
    ensures
        s.corpus_bytes@ == vectors_file(corpus_magic(), dimension, corpus@),
        s.meta_bytes@ == meta_magic() + le32(1) + le64(categories@.len() as u64) + le16_seq(categories@),
        s.queries_bytes@ == vectors_file(query_magic(), dimension, queries@),
        s.ground_truth_bytes@ == truth_file(truth_magic(), top_k, ground_truth@),
        s.manifest == manifest,
{
    let corpus_bytes = frame_vectors(&[0x46u8, 0x52u8, 0x43u8, 0x32u8], dimension, corpus);
    let mut meta_bytes: Vec<u8> = Vec::new();
    meta_bytes.extend_from_slice(&[0x46u8, 0x52u8, 0x4du8, 0x32u8]);
    put_u32(&mut meta_bytes, CLUSTERED_FORMAT_VERSION);
    put_u64(&mut meta_bytes, categories.len() as u64);
    put_halves(&mut meta_bytes, categories);
    let queries_bytes = frame_vectors(&[0x46u8, 0x52u8, 0x51u8, 0x32u8], dimension, queries);
    let ground_truth_bytes = frame_truth(&[0x46u8, 0x52u8, 0x47u8, 0x32u8], top_k, ground_truth);
    proof {
        assert(meta_bytes@ =~= meta_magic() + le32(1) + le64(categories@.len() as u64) + le16_seq(categories@));
    }
    Serialized { corpus_bytes, meta_bytes, queries_bytes, ground_truth_bytes, manifest }
}

// ---------------------------------------------------------------------------
// Manifest fields.
// ---------------------------------------------------------------------------

/// The metric a manifest names (`Cosine`, `L2` or `Dot`, exactly).
pub open spec fn metric_of_name(name: Seq<char>) -> Option<Metric> {
    if name == "Cosine"@ {
        Some(Metric::Cosine)
    } else if name == "L2"@ {
        Some(Metric::L2)
    } else if name == "Dot"@ {
        Some(Metric::Dot)
    } else {
        None
    }
}

/// The value of the manifest's `"metric": "..."` entry (its first
/// occurrence), if it names a metric.
pub open spec fn metric_field(m: Seq<char>) -> Option<Metric> {
    let needle = "\"metric\": \""@;
    match first_occurrence(m, needle) {
        None => None,
        Some(p) => {
            let rest = m.skip(p + needle.len());
            match first_index_where(rest, |c: char| c == '"') {
                None => None,
                Some(e) => metric_of_name(rest.take(e)),
            }
        },
    }
}

/// Reads the metric named by the manifest.
pub fn json_metric_field(manifest: &str) -> (r: Option<Metric>)
    ensures
        r == metric_field(manifest@),
{
    let m = chars_of(manifest);
    let needle = chars_of("\"metric\": \"");
    let pos = match find_chars(m.as_slice(), needle.as_slice()) {
        Some(p) => p,
        None => return None,
    };
    let mlen = m.len();
    proof {
        assert(crate::text::first_occurrence_at(m@, needle@, pos as int));
    }
    let start = pos + needle.len();
    let ghost rest = m@.skip(start as int);
    let mut i = start;
    while i < m.len() && m[i] != '"'
        invariant
            start <= i <= m@.len(),
            rest == m@.skip(start as int),
            forall|j: int| start <= j < i ==> m@[j] != '"',
        decreases m@.len() - i,
    {
        i = i + 1;
    }
    proof {
        assert forall|j: int| 0 <= j < i - start implies #[trigger] rest[j] != '"' by {
            assert(rest[j] == m@[start + j]);
        }
    }
    if i == m.len() {
        proof {
            assert(!(exists|j: int| 0 <= j < rest.len() && rest[j] == '"'));
        }
        return None;
    }
    proof {
        let e = (i - start) as int;
        assert(rest[e] == '"');
        let c = choose|j: int| 0 <= j < rest.len() && rest[j] == '"' && forall|k: int| 0 <= k < j ==> !(rest[k] == '"');
        assert(c == e) by {
            if c < e {
                assert(rest[c] != '"');
            }
            if e < c {
                assert(!(rest[e] == '"'));
            }
        }
        assert(rest.take(e) =~= m@.subrange(start as int, i as int));
        reveal_strlit("Cosine");
        reveal_strlit("L2");
        reveal_strlit("Dot");
        reveal_strlit("\"metric\": \"");
    }
    let name = slice_chars(&m, start, i);
    if chars_equal(name.as_slice(), chars_of("Cosine").as_slice()) {
        Some(Metric::Cosine)
    } else if chars_equal(name.as_slice(), chars_of("L2").as_slice()) {
        Some(Metric::L2)
    } else if chars_equal(name.as_slice(), chars_of("Dot").as_slice()) {
        Some(Metric::Dot)
    } else {
        None
    }
}


/// An ASCII decimal digit.
pub open spec fn is_ascii_digit(c: char) -> bool {
    '0' <= c && c <= '9'
}

/// The number a run of decimal digits spells.
pub open spec fn digits_value(d: Seq<char>) -> nat
    decreases d.len(),
{
    if d.len() == 0 {
        0
    } else {
        digits_value(d.drop_last()) * 10 + ((d.last() as u32) - ('0' as u32)) as nat
    }
}

/// The value of the manifest's `"field":` entry (its first occurrence):
/// the digits after optional white space, which must be followed by a
/// non-digit and fit a `u32`.
pub open spec fn u32_field(m: Seq<char>, field: Seq<char>) -> Option<u32> {
    let needle = "\""@ + field + "\":"@;
    match first_occurrence(m, needle) {
        None => None,
        Some(p) => {
            let rest0 = m.skip(p + needle.len());
            let rest = rest0.skip(leading_white_space(rest0));
            match first_index_where(rest, |c: char| !is_ascii_digit(c)) {
                None => None,
                Some(e) => if e == 0 || digits_value(rest.take(e)) > u32::MAX {
                    None
                } else {
                    Some(digits_value(rest.take(e)) as u32)
                },
            }
        },
    }
}

/// Reads an unsigned integer field of the manifest.
pub fn json_u32_field(manifest: &str, field: &str) -> (r: Option<u32>)
    ensures
        r == u32_field(manifest@, field@),
{
    let m = chars_of(manifest);
    let mut needle_text = concat_str("\"", field);
    needle_text.append("\":");
    let needle = chars_of(needle_text.as_str());
    proof {
        assert(needle@ == "\""@ + field@ + "\":"@);
    }
    let pos = match find_chars(m.as_slice(), needle.as_slice()) {
        Some(p) => p,
        None => return None,
    };
    let mlen = m.len();
    proof {
        assert(crate::text::first_occurrence_at(m@, needle@, pos as int));
    }
    let start = pos + needle.len();
    let ghost rest0 = m@.skip(start as int);
    let mut j = start;
    while j < mlen && white_space(m[j])
        invariant
            start <= j <= mlen,
            mlen == m@.len(),
            forall|k: int| start <= k < j ==> is_white_space(m@[k]),
        decreases mlen - j,
    {
        j = j + 1;
    }
    let ghost lead = (j - start) as int;
    proof {
        let p = |c: char| !is_white_space(c);
        if j < mlen {
            assert(p(rest0[lead]));
            let c = choose|i: int| 0 <= i < rest0.len() && p(rest0[i]) && forall|k: int| 0 <= k < i ==> !p(rest0[k]);
            assert(c == lead) by {
                if c < lead {
                    assert(rest0[c] == m@[start + c]);
                }
                if lead < c {
                    assert(!p(rest0[lead]));
                }
            }
        } else {
            assert forall|i: int| 0 <= i < rest0.len() implies !p(rest0[i]) by {
                assert(rest0[i] == m@[start + i]);
            }
        }
        assert(leading_white_space(rest0) == lead);
    }
    let ghost rest = rest0.skip(lead);
    let mut k = j;
    let mut value: u64 = 0;
    let mut overflow = false;
    while k < mlen && '0' <= m[k] && m[k] <= '9'
        invariant
            j <= k <= mlen,
            mlen == m@.len(),
            rest == m@.skip(j as int),
            forall|i: int| j <= i < k ==> is_ascii_digit(m@[i]),
            !overflow ==> value == digits_value(m@.subrange(j as int, k as int)) && value <= u32::MAX,
            overflow ==> digits_value(m@.subrange(j as int, k as int)) > u32::MAX,
        decreases mlen - k,
    {
        let d = (m[k] as u32 - '0' as u32) as u64;
        proof {
            assert(m@.subrange(j as int, k + 1).drop_last() =~= m@.subrange(j as int, k as int));
        }
        if !overflow {
            let next = value * 10 + d;
            if next > 0xffff_ffff {
                overflow = true;
            } else {
                value = next;
            }
        }
        k = k + 1;
    }
    proof {
        assert(rest0.skip(lead) =~= m@.skip(j as int));
        let p = |c: char| !is_ascii_digit(c);
        assert forall|i: int| 0 <= i < k - j implies !p(#[trigger] rest[i]) by {
            assert(rest[i] == m@[j + i]);
        }
        if k < mlen {
            let e = (k - j) as int;
            assert(p(rest[e]));
            let c = choose|i: int| 0 <= i < rest.len() && p(rest[i]) && forall|q: int| 0 <= q < i ==> !p(rest[q]);
            assert(c == e) by {
                if c < e {
                    assert(!p(rest[c]));
                }
                if e < c {
                    assert(!p(rest[e]));
                }
            }
            assert(rest.take(e) =~= m@.subrange(j as int, k as int));
        } else {
            assert forall|i: int| 0 <= i < rest.len() implies !p(rest[i]) by {}
        }
    }
    if k == mlen || k == j || overflow {
        return None;
    }
    Some(value as u32)
}


// ---------------------------------------------------------------------------
// Reading fixture files.
// ---------------------------------------------------------------------------

/// Error text for a read of `n` bytes at `pos` past the end of a file of
/// `len` bytes.
pub open spec fn truncated(n: nat, pos: nat, len: nat) -> Seq<char> {
    "clustered fixture truncated: wanted "@ + decimal(n) + " bytes at offset "@ + decimal(pos)
        + ", file has "@ + decimal(len)
}

/// Error text for a magic number that does not match.
pub open spec fn magic_mismatch() -> Seq<char> {
    "clustered fixture magic mismatch"@
}

/// Error text for an unsupported format version.
pub open spec fn version_error(v: u32) -> Seq<char> {
    "clustered fixture format version "@ + decimal(v as nat) + " != supported 1"@
}

/// Little-endian `u16`s of a byte run.
pub open spec fn le16_words(bytes: Seq<u8>) -> Seq<u16> {
    Seq::new(bytes.len() / 2, |i: int| vstd::bytes::spec_u16_from_le_bytes(bytes.subrange(2 * i, 2 * i + 2)))
}

/// Whether two byte runs are equal.
fn bytes_equal(a: &[u8], b: &[u8]) -> (r: bool)
    ensures
        r == (a@ == b@),
{
    if a.len() != b.len() {
        return false;
    }
    for i in 0..a.len()
        invariant
            a@.len() == b@.len(),
            forall|j: int| 0 <= j < i ==> a@[j] == b@[j],
    {
        if a[i] != b[i] {
            return false;
        }
    }
    assert(a@ =~= b@);
    true
}

/// A cursor over one fixture file.
pub struct Reader<'a> {
    bytes: &'a [u8],
    pos: usize,
}

impl<'a> Reader<'a> {
    pub closed spec fn spec_bytes(&self) -> Seq<u8> {
        self.bytes@
    }

    pub closed spec fn spec_pos(&self) -> nat {
        self.pos as nat
    }

    /// The cursor lies within the file.
    pub open spec fn wf(&self) -> bool {
        self.spec_pos() <= self.spec_bytes().len()
    }

    /// A cursor at the start of `bytes`.
    pub fn new(bytes: &'a [u8]) -> (r: Self)
        ensures
            r.spec_bytes() == bytes@,
            r.spec_pos() == 0,
            r.wf(),
    {
        Reader { bytes, pos: 0 }
    }

    /// The next `n` bytes; past the end of the file, the truncation error
    /// (and the cursor stays).
    pub fn take(&mut self, n: u128) -> (r: Result<&'a [u8], String>)
        requires
            old(self).wf(),
        ensures
            final(self).wf(),
            final(self).spec_bytes() == old(self).spec_bytes(),
            r is Ok <==> old(self).spec_pos() + n <= old(self).spec_bytes().len(),
            r matches Ok(b) ==> b@ == old(self).spec_bytes().subrange(
                old(self).spec_pos() as int,
                old(self).spec_pos() + n,
            ) && final(self).spec_pos() == old(self).spec_pos() + n,
            r matches Err(e) ==> e@ == truncated(n as nat, old(self).spec_pos(), old(self).spec_bytes().len())
                && final(self).spec_pos() == old(self).spec_pos(),
    {
        let len = self.bytes.len();
        if (len - self.pos) as u128 <= n && (len - self.pos) as u128 != n {
            let mut msg = concat_str("clustered fixture truncated: wanted ", decimal_string_wide(n).as_str());
            msg.append(" bytes at offset ");
            msg.append(decimal_string(self.pos as u64).as_str());
            msg.append(", file has ");
            msg.append(decimal_string(len as u64).as_str());
            return Err(msg);
        }
        let end = self.pos + n as usize;
        let slice = &self.bytes[self.pos..end];
        self.pos = end;
        Ok(slice)
    }

    /// Reads `expected.len()` bytes and checks them against `expected`.
    pub fn magic(&mut self, expected: &[u8]) -> (r: Result<(), String>)
        requires
            old(self).wf(),
        ensures
            final(self).wf(),
            final(self).spec_bytes() == old(self).spec_bytes(),
            ({
                let p = old(self).spec_pos();
                let len = old(self).spec_bytes().len();
                let n = expected@.len();
                if p + n > len {
                    r matches Err(e) && e@ == truncated(n, p, len)
                } else if old(self).spec_bytes().subrange(p as int, (p + n) as int) != expected@ {
                    r matches Err(e) && e@ == magic_mismatch()
                } else {
                    r is Ok && final(self).spec_pos() == p + n
                }
            }),
    {
        let got = self.take(expected.len() as u128)?;
        if !bytes_equal(got, expected) {
            return Err(String::from_str("clustered fixture magic mismatch"));
        }
        Ok(())
    }

    /// Reads a little-endian `u32`.
    pub fn u32(&mut self) -> (r: Result<u32, String>)
        requires
            old(self).wf(),
        ensures
            final(self).wf(),
            final(self).spec_bytes() == old(self).spec_bytes(),
            r is Ok <==> old(self).spec_pos() + 4 <= old(self).spec_bytes().len(),
            r matches Ok(v) ==> v == crate::storage::rd32(old(self).spec_bytes(), old(self).spec_pos() as int)
                && final(self).spec_pos() == old(self).spec_pos() + 4,
            r matches Err(e) ==> e@ == truncated(4, old(self).spec_pos(), old(self).spec_bytes().len()),
    {
        let b = self.take(4)?;
        Ok(vstd::bytes::u32_from_le_bytes(b))
    }

    /// Reads a little-endian `u64`.
    pub fn u64(&mut self) -> (r: Result<u64, String>)
        requires
            old(self).wf(),
        ensures
            final(self).wf(),
            final(self).spec_bytes() == old(self).spec_bytes(),
            r is Ok <==> old(self).spec_pos() + 8 <= old(self).spec_bytes().len(),
            r matches Ok(v) ==> v == crate::storage::rd64(old(self).spec_bytes(), old(self).spec_pos() as int)
                && final(self).spec_pos() == old(self).spec_pos() + 8,
            r matches Err(e) ==> e@ == truncated(8, old(self).spec_pos(), old(self).spec_bytes().len()),
    {
        let b = self.take(8)?;
        Ok(vstd::bytes::u64_from_le_bytes(b))
    }

    /// Reads `count` little-endian 32-bit words (the bit patterns of `f32`s).
    pub fn words(&mut self, count: u128) -> (r: Result<Vec<u32>, String>)
        requires
            old(self).wf(),
            count <= u128::MAX / 4,
        ensures
            final(self).wf(),
            final(self).spec_bytes() == old(self).spec_bytes(),
            r is Ok <==> old(self).spec_pos() + 4 * count <= old(self).spec_bytes().len(),
            r matches Ok(v) ==> v@ == crate::storage::le32_words(old(self).spec_bytes().subrange(
                old(self).spec_pos() as int,
                old(self).spec_pos() + 4 * count,
            )) && final(self).spec_pos() == old(self).spec_pos() + 4 * count,
            r matches Err(e) ==> e@ == truncated((4 * count) as nat, old(self).spec_pos(), old(self).spec_bytes().len()),
    {
        let b = self.take(4 * count)?;
        let mut out: Vec<u32> = Vec::new();
        let mut i: usize = 0;
        while i < b.len() / 4
            invariant
                b@.len() == 4 * count,
                i <= b@.len() / 4,
                out@.len() == i,
                forall|k: int| 0 <= k < i ==> #[trigger] out@[k] == crate::storage::rd32(b@, 4 * k),
            decreases b@.len() / 4 - i,
        {
            out.push(vstd::bytes::u32_from_le_bytes(&b[4 * i..4 * i + 4]));
            i = i + 1;
        }
        proof {
            assert(out@ =~= crate::storage::le32_words(b@));
        }
        Ok(out)
    }

    /// Reads `count` little-endian `u16`s.
    pub fn u16s(&mut self, count: u128) -> (r: Result<Vec<u16>, String>)
        requires
            old(self).wf(),
            count <= u128::MAX / 2,
        ensures
            final(self).wf(),
            final(self).spec_bytes() == old(self).spec_bytes(),
            r is Ok <==> old(self).spec_pos() + 2 * count <= old(self).spec_bytes().len(),
            r matches Ok(v) ==> v@ == le16_words(old(self).spec_bytes().subrange(
                old(self).spec_pos() as int,
                old(self).spec_pos() + 2 * count,
            )) && final(self).spec_pos() == old(self).spec_pos() + 2 * count,
            r matches Err(e) ==> e@ == truncated((2 * count) as nat, old(self).spec_pos(), old(self).spec_bytes().len()),
    {
        let b = self.take(2 * count)?;
        let mut out: Vec<u16> = Vec::new();
        let mut i: usize = 0;
        while i < b.len() / 2
            invariant
                b@.len() == 2 * count,
                i <= b@.len() / 2,
                out@.len() == i,
                forall|k: int| 0 <= k < i
                    ==> #[trigger] out@[k] == vstd::bytes::spec_u16_from_le_bytes(b@.subrange(2 * k, 2 * k + 2)),
            decreases b@.len() / 2 - i,
        {
            out.push(vstd::bytes::u16_from_le_bytes(&b[2 * i..2 * i + 2]));
            i = i + 1;
        }
        proof {
            assert(out@ =~= le16_words(b@));
        }
        Ok(out)
    }
}

/// Checks a fixture's format version.
pub fn expect_version(v: u32) -> (r: Result<(), String>)
    ensures
        r is Ok <==> v == CLUSTERED_FORMAT_VERSION,
        r matches Err(e) ==> e@ == version_error(v),
{
    if v != CLUSTERED_FORMAT_VERSION {
        let mut msg = concat_str("clustered fixture format version ", decimal_string(v as u64).as_str());
        msg.append(" != supported 1");
        return Err(msg);
    }
    Ok(())
}


/// The magic and version check at the start of every clustered fixture
/// file.
pub open spec fn preamble_error(raw: Seq<u8>, magic: Seq<u8>) -> Option<Seq<char>> {
    let len = raw.len();
    if len < 4 {
        Some(truncated(4, 0, len))
    } else if raw.subrange(0, 4) != magic {
        Some(magic_mismatch())
    } else if len < 8 {
        Some(truncated(4, 4, len))
    } else if crate::storage::rd32(raw, 4) != 1 {
        Some(version_error(crate::storage::rd32(raw, 4)))
    } else {
        None
    }
}

/// A vectors file read back: (dimension, rows, components), or the error.
pub open spec fn read_vectors_spec(raw: Seq<u8>, magic: Seq<u8>) -> Result<(u32, u64, Seq<u32>), Seq<char>> {
    let len = raw.len();
    if preamble_error(raw, magic) is Some {
        Err(preamble_error(raw, magic)->0)
    } else if len < 12 {
        Err(truncated(4, 8, len))
    } else if len < 20 {
        Err(truncated(8, 12, len))
    } else {
        let dim = crate::storage::rd32(raw, 8);
        let rows = crate::storage::rd64(raw, 12);
        let need = 4 * (rows * dim);
        if 20 + need > len {
            Err(truncated(need as nat, 20, len))
        } else {
            Ok((dim, rows, crate::storage::le32_words(raw.subrange(20, 20 + need))))
        }
    }
}

/// The meta file read back: (count, categories), or the error.
pub open spec fn read_meta_spec(raw: Seq<u8>) -> Result<(u64, Seq<u16>), Seq<char>> {
    let len = raw.len();
    if preamble_error(raw, meta_magic()) is Some {
        Err(preamble_error(raw, meta_magic())->0)
    } else if len < 16 {
        Err(truncated(8, 8, len))
    } else {
        let count = crate::storage::rd64(raw, 8);
        if 16 + 2 * count > len {
            Err(truncated((2 * count) as nat, 16, len))
        } else {
            Ok((count, le16_words(raw.subrange(16, 16 + 2 * count))))
        }
    }
}

fn read_preamble(r: &mut Reader, magic: &[u8]) -> (res: Result<(), String>)
    requires
        old(r).wf(),
        old(r).spec_pos() == 0,
        magic@.len() == 4,
    ensures
        final(r).wf(),
        final(r).spec_bytes() == old(r).spec_bytes(),
        res is Ok <==> preamble_error(old(r).spec_bytes(), magic@) is None,
        res is Ok ==> final(r).spec_pos() == 8,
        res matches Err(e) ==> preamble_error(old(r).spec_bytes(), magic@) == Some(e@),
{
    proof {
        vstd::bytes::lemma_auto_spec_u32_to_from_le_bytes();
    }
    r.magic(magic)?;
    let v = r.u32()?;
    expect_version(v)?;
    Ok(())
}

/// Reads a vectors file: magic, version, dimension, rows, components.
pub fn read_vectors(raw: &[u8], magic: &[u8]) -> (res: Result<(u32, u64, Vec<u32>), String>)
    requires
        magic@.len() == 4,
    ensures
        match read_vectors_spec(raw@, magic@) {
            Ok((d, n, w)) => res matches Ok((d2, n2, w2)) && d2 == d && n2 == n && w2@ == w,
            Err(t) => res matches Err(e) && e@ == t,
        },
{
    let mut r = Reader::new(raw);
    read_preamble(&mut r, magic)?;
    let dimension = r.u32()?;
    let rows = r.u64()?;
    let a = rows as u128;
    let b = dimension as u128;
    assert(a * b <= 0xffff_ffff_ffff_ffff_u128 * 0xffff_ffff_u128) by (nonlinear_arith)
        requires
            a <= 0xffff_ffff_ffff_ffff_u128,
            b <= 0xffff_ffff_u128,
    ;
    let count = a * b;
    let words = r.words(count)?;
    Ok((dimension, rows, words))
}

/// Reads the meta file: magic, version, count, categories.
pub fn read_meta(raw: &[u8]) -> (res: Result<(u64, Vec<u16>), String>)
    ensures
        match read_meta_spec(raw@) {
            Ok((n, c)) => res matches Ok((n2, c2)) && n2 == n && c2@ == c,
            Err(t) => res matches Err(e) && e@ == t,
        },
{
    let mut r = Reader::new(raw);
    let magic: [u8; 4] = [0x46u8, 0x52u8, 0x4du8, 0x32u8];
    assert(magic@ == meta_magic());
    read_preamble(&mut r, &magic)?;
    let count = r.u64()?;
    let cats = r.u16s(count as u128)?;
    Ok((count, cats))
}


/// One ground-truth entry read back: indices and distance bit patterns.
pub type TruthEntry = (Seq<u32>, Seq<u32>);

/// Entry `i` of a ground-truth file with `k` neighbours per query.
pub open spec fn truth_entry(raw: Seq<u8>, k: nat, i: int) -> TruthEntry {
    let base = 20 + i * (8 * k);
    (
        crate::storage::le32_words(raw.subrange(base, base + 4 * k)),
        crate::storage::le32_words(raw.subrange(base + 4 * k, base + 8 * k)),
    )
}

/// The ground-truth file read back: (queries, top-k, entries), or the
/// error. Entries are read in order, indices one by one, then the
/// distances; the first read past the end reports the truncation.
pub open spec fn read_truth_spec(raw: Seq<u8>) -> Result<(u64, u32, Seq<TruthEntry>), Seq<char>> {
    let len = raw.len();
    if preamble_error(raw, truth_magic()) is Some {
        Err(preamble_error(raw, truth_magic())->0)
    } else if len < 16 {
        Err(truncated(8, 8, len))
    } else if len < 20 {
        Err(truncated(4, 16, len))
    } else {
        let count = crate::storage::rd64(raw, 8);
        let k = crate::storage::rd32(raw, 16);
        let per = 8 * k;
        if k == 0 {
            Ok((count, k, Seq::new(count as nat, |i: int| (Seq::<u32>::empty(), Seq::<u32>::empty()))))
        } else if 20 + count * per <= len {
            Ok((count, k, Seq::new(count as nat, |i: int| truth_entry(raw, k as nat, i))))
        } else {
            let i = (len - 20) / per;
            let base = 20 + i * per;
            let avail = len - base;
            if avail < 4 * k {
                Err(truncated(4, (base + 4 * (avail / 4)) as nat, len))
            } else {
                Err(truncated((4 * k) as nat, (base + 4 * k) as nat, len))
            }
        }
    }
}

proof fn lemma_entry_bounds(i: nat, count: nat, k: nat, len: nat)
    requires
        k > 0,
        i < count,
        20 + count * (8 * k) <= len,
    ensures
        20 + i * (8 * k) + 8 * k <= len,
        (i + 1) * (8 * k) == i * (8 * k) + 8 * k,
{
    assert((i + 1) * (8 * k) == i * (8 * k) + 8 * k) by (nonlinear_arith);
    assert((i + 1) * (8 * k) <= count * (8 * k)) by (nonlinear_arith)
        requires
            i + 1 <= count,
            k > 0,
    ;
}

proof fn lemma_failing_entry(count: nat, k: nat, len: nat)
    requires
        k > 0,
        len >= 20,
        20 + count * (8 * k) > len,
    ensures
        ({
            let i = (len - 20) / (8 * k) as int;
            &&& 0 <= i < count
            &&& 20 + i * (8 * k) <= len < 20 + i * (8 * k) + 8 * k
        }),
{
    let per = 8 * k;
    let x = (len - 20) as nat;
    let i = x / per;
    assert(i * per <= x < i * per + per) by (nonlinear_arith)
        requires
            per > 0,
            i == x / per,
    ;
    assert(i < count) by (nonlinear_arith)
        requires
            x < count * per,
            i * per <= x,
            per > 0,
    ;
}

/// Reads the ground-truth file: magic, version, query count, top-k, then
/// per query its indices and distances.
pub fn read_truth(raw: &[u8]) -> (res: Result<(u64, u32, Vec<GroundTruthBits>), String>)
    ensures
        match read_truth_spec(raw@) {
            Ok((n, k, g)) => res matches Ok((n2, k2, g2)) && n2 == n && k2 == k && g2@.len() == g.len()
                && forall|i: int| 0 <= i < g.len()
                    ==> (#[trigger] g2@[i]).indices@ == g[i].0 && g2@[i].distances@ == g[i].1,
            Err(t) => res matches Err(e) && e@ == t,
        },
{
    let mut r = Reader::new(raw);
    let magic: [u8; 4] = [0x46u8, 0x52u8, 0x47u8, 0x32u8];
    assert(magic@ == truth_magic());
    read_preamble(&mut r, &magic)?;
    let count = r.u64()?;
    let k = r.u32()?;
    let len = raw.len();
    let ghost per = 8 * (k as nat);
    if k > 0 {
        let a = count as u128;
        let b = 8 * (k as u128);
        assert(a * b <= 0xffff_ffff_ffff_ffff_u128 * 0x8_0000_0000_u128) by (nonlinear_arith)
            requires
                a <= 0xffff_ffff_ffff_ffff_u128,
                b <= 0x8_0000_0000_u128,
        ;
        if 20 + a * b > len as u128 {
            proof {
                lemma_failing_entry(count as nat, k as nat, len as nat);
            }
            let i = ((len - 20) as u128) / b;
            let base = 20 + i * b;
            let avail = (len as u128) - base;
            proof {
                assert(i * b <= (len - 20) as u128);
            }
            if avail < 4 * (k as u128) {
                let at = base + 4 * (avail / 4);
                let mut msg = concat_str("clustered fixture truncated: wanted ", "4");
                msg.append(" bytes at offset ");
                msg.append(decimal_string_wide(at).as_str());
                msg.append(", file has ");
                msg.append(decimal_string(len as u64).as_str());
                proof {
                    reveal_strlit("4");
                    assert(decimal(4) == "4"@);
                }
                return Err(msg);
            } else {
                let mut msg = concat_str("clustered fixture truncated: wanted ", decimal_string_wide(4 * (k as u128)).as_str());
                msg.append(" bytes at offset ");
                msg.append(decimal_string_wide(base + 4 * (k as u128)).as_str());
                msg.append(", file has ");
                msg.append(decimal_string(len as u64).as_str());
                return Err(msg);
            }
        }
    }
    let mut gt: Vec<GroundTruthBits> = Vec::new();
    let mut i: u64 = 0;
    while i < count
        invariant
            r.wf(),
            r.spec_bytes() == raw@,
            len == raw@.len(),
            count == crate::storage::rd64(raw@, 8),
            k == crate::storage::rd32(raw@, 16),
            k > 0 ==> 20 + count * (8 * k) <= len,
            i <= count,
            r.spec_pos() == 20 + i * (8 * k),
            gt@.len() == i,
            forall|j: int| 0 <= j < i ==> {
                &&& k == 0 ==> (#[trigger] gt@[j]).indices@ == Seq::<u32>::empty() && gt@[j].distances@ == Seq::<u32>::empty()
                &&& k > 0 ==> gt@[j].indices@ == truth_entry(raw@, k as nat, j).0
                    && gt@[j].distances@ == truth_entry(raw@, k as nat, j).1
            },
        decreases count - i,
    {
        proof {
            if k > 0 {
                lemma_entry_bounds(i as nat, count as nat, k as nat, len as nat);
            } else {
                assert(i * (8 * k) == 0) by (nonlinear_arith)
                    requires
                        k == 0,
                ;
                assert((i + 1) * (8 * k) == 0) by (nonlinear_arith)
                    requires
                        k == 0,
                ;
            }
        }
        let ghost base = r.spec_pos();
        let mut indices: Vec<u32> = Vec::new();
        let mut j: u32 = 0;
        while j < k
            invariant
                r.wf(),
                r.spec_bytes() == raw@,
                base + 8 * k <= raw@.len(),
                j <= k,
                r.spec_pos() == base + 4 * j,
                indices@ == crate::storage::le32_words(raw@.subrange(base as int, base + 4 * j)),
            decreases k - j,
        {
            let ghost before = indices@;
            match r.u32() {
                Ok(v) => indices.push(v),
                Err(e) => return Err(e),
            }
            proof {
                let w = raw@.subrange(base as int, base + 4 * j + 4);
                assert(w.subrange(4 * (j as int), 4 * (j as int) + 4) =~= raw@.subrange(base + 4 * j, base + 4 * j + 4));
                assert forall|m: int| 0 <= m < j implies #[trigger] w.subrange(4 * m, 4 * m + 4)
                    =~= raw@.subrange(base as int, base + 4 * j).subrange(4 * m, 4 * m + 4) by {}
                assert forall|m: int| 0 <= m < j + 1 implies #[trigger] indices@[m]
                    == crate::storage::rd32(w, 4 * m) by {
                    if m < j {
                        assert(w.subrange(4 * m, 4 * m + 4)
                            =~= raw@.subrange(base as int, base + 4 * j).subrange(4 * m, 4 * m + 4));
                    }
                }
                assert(indices@ =~= crate::storage::le32_words(w));
            }
            j = j + 1;
        }
        let distances = match r.words(k as u128) {
            Ok(d) => d,
            Err(e) => return Err(e),
        };
        gt.push(GroundTruthBits { indices, distances });
        proof {
            assert(base == 20 + i * (8 * k));
        }
        i = i + 1;
    }
    proof {
        if k == 0 {
            assert(gt@.len() == count);
        }
    }
    Ok((count, k, gt))
}


/// A fixture set read back into memory. Vector components and distances
/// are `f32` bit patterns.
#[derive(Debug, Clone)]
pub struct LoadedCorpus {
    pub dimension: u32,
    pub metric: crate::corpus::Metric,
    pub num_categories: u32,
    pub corpus: Vec<u32>,
    pub categories: Vec<u16>,
    pub queries: Vec<u32>,
    pub ground_truth: Vec<GroundTruthBits>,
    pub top_k: u32,
}

/// The uniform-corpus metric with the same name.
pub open spec fn uniform_metric(m: Metric) -> crate::corpus::Metric {
    match m {
        Metric::Cosine => crate::corpus::Metric::Cosine,
        Metric::L2 => crate::corpus::Metric::L2,
        Metric::Dot => crate::corpus::Metric::Dot,
    }
}

/// The top-k a ground-truth file declares (when it reads back).
pub open spec fn truth_top_k(raw: Seq<u8>) -> u32 {
    match read_truth_spec(raw) {
        Ok((_, k, _)) => k,
        Err(_) => 0,
    }
}

/// The entries a ground-truth file holds (when it reads back).
pub open spec fn truth_entries(raw: Seq<u8>) -> Seq<TruthEntry> {
    match read_truth_spec(raw) {
        Ok((_, _, g)) => g,
        Err(_) => Seq::empty(),
    }
}

/// Why a clustered fixture set cannot be loaded, if it cannot: the first
/// failure reading the corpus, meta, queries and ground-truth files in that
/// order; then disagreeing counts; then an unusable manifest.
pub open spec fn load_error(
    corpus: Seq<u8>,
    meta: Seq<u8>,
    queries: Seq<u8>,
    truth: Seq<u8>,
    manifest: Seq<char>,
) -> Option<Seq<char>> {
    match read_vectors_spec(corpus, corpus_magic()) {
        Err(t) => Some(t),
        Ok((dim, rows, _)) => match read_meta_spec(meta) {
            Err(t) => Some(t),
            Ok((meta_count, _)) => match read_vectors_spec(queries, query_magic()) {
                Err(t) => Some(t),
                Ok((qdim, nq, _)) => match read_truth_spec(truth) {
                    Err(t) => Some(t),
                    Ok((tc, _, _)) => if qdim != dim {
                        Some("query dimension "@ + decimal(qdim as nat) + " != corpus dimension "@ + decimal(dim as nat))
                    } else if meta_count != rows {
                        Some("meta rows "@ + decimal(meta_count as nat) + " != corpus rows "@ + decimal(rows as nat))
                    } else if tc != nq {
                        Some("ground-truth queries "@ + decimal(tc as nat) + " != stored queries "@ + decimal(nq as nat))
                    } else if metric_field(manifest) is None {
                        Some("params.json missing usable \"metric\""@)
                    } else if !(u32_field(manifest, "num_categories"@) matches Some(c) && c > 0) {
                        Some("params.json missing usable \"num_categories\""@)
                    } else {
                        None
                    },
                },
            },
        },
    }
}

/// Parses a clustered fixture set: the four fixture files and the
/// manifest text.
#[verifier::rlimit(60)]
pub fn parse_fixtures(
    corpus_raw: &[u8],
    meta_raw: &[u8],
    queries_raw: &[u8],
    truth_raw: &[u8],
    manifest: &str,
) -> (res: Result<LoadedCorpus, String>)
    ensures
        res is Err <==> load_error(corpus_raw@, meta_raw@, queries_raw@, truth_raw@, manifest@) is Some,
        res matches Err(e) ==> load_error(corpus_raw@, meta_raw@, queries_raw@, truth_raw@, manifest@) == Some(e@),
        res matches Ok(lc) ==> {
            &&& read_vectors_spec(corpus_raw@, corpus_magic()) == Ok::<(u32, u64, Seq<u32>), Seq<char>>(
                (lc.dimension, crate::storage::rd64(corpus_raw@, 12), lc.corpus@))
            &&& read_meta_spec(meta_raw@) == Ok::<(u64, Seq<u16>), Seq<char>>(
                (crate::storage::rd64(corpus_raw@, 12), lc.categories@))
            &&& read_vectors_spec(queries_raw@, query_magic()) == Ok::<(u32, u64, Seq<u32>), Seq<char>>(
                (lc.dimension, lc.ground_truth@.len() as u64, lc.queries@))
            &&& read_truth_spec(truth_raw@) is Ok
            &&& truth_top_k(truth_raw@) == lc.top_k
            &&& lc.ground_truth@.len() == truth_entries(truth_raw@).len()
            &&& forall|i: int| 0 <= i < lc.ground_truth@.len() ==> {
                &&& (#[trigger] lc.ground_truth@[i]).indices@ == truth_entries(truth_raw@)[i].0
                &&& lc.ground_truth@[i].distances@ == truth_entries(truth_raw@)[i].1
            }
            &&& metric_field(manifest@) matches Some(m) && lc.metric == uniform_metric(m)
            &&& u32_field(manifest@, "num_categories"@) == Some(lc.num_categories)
        },
{
    let corpus_magic_bytes: [u8; 4] = [0x46u8, 0x52u8, 0x43u8, 0x32u8];
    let query_magic_bytes: [u8; 4] = [0x46u8, 0x52u8, 0x51u8, 0x32u8];
    assert(corpus_magic_bytes@ == corpus_magic());
    assert(query_magic_bytes@ == query_magic());
    let (dimension, num_vectors, corpus) = read_vectors(corpus_raw, &corpus_magic_bytes)?;
    let (meta_count, categories) = read_meta(meta_raw)?;
    let (query_dim, num_stored_queries, queries) = read_vectors(queries_raw, &query_magic_bytes)?;
    let (truth_count, top_k, ground_truth) = read_truth(truth_raw)?;
    if query_dim != dimension {
        let mut msg = concat_str("query dimension ", decimal_string(query_dim as u64).as_str());
        msg.append(" != corpus dimension ");
        msg.append(decimal_string(dimension as u64).as_str());
        return Err(msg);
    }
    if meta_count != num_vectors {
        let mut msg = concat_str("meta rows ", decimal_string(meta_count).as_str());
        msg.append(" != corpus rows ");
        msg.append(decimal_string(num_vectors).as_str());
        return Err(msg);
    }
    if truth_count != num_stored_queries {
        let mut msg = concat_str("ground-truth queries ", decimal_string(truth_count).as_str());
        msg.append(" != stored queries ");
        msg.append(decimal_string(num_stored_queries).as_str());
        return Err(msg);
    }
    let metric = match json_metric_field(manifest) {
        Some(m) => m,
        None => return Err(String::from_str("params.json missing usable \"metric\"")),
    };
    let num_categories = match json_u32_field(manifest, "num_categories") {
        Some(c) if c > 0 => c,
        _ => return Err(String::from_str("params.json missing usable \"num_categories\"")),
    };
    Ok(LoadedCorpus {
        dimension,
        metric: match metric {
            Metric::Cosine => crate::corpus::Metric::Cosine,
            Metric::L2 => crate::corpus::Metric::L2,
            Metric::Dot => crate::corpus::Metric::Dot,
        },
        num_categories,
        corpus,
        categories,
        queries,
        ground_truth,
        top_k,
    })
}


// ---------------------------------------------------------------------------
// Laws: what is written reads back.
// ---------------------------------------------------------------------------

proof fn lemma_le16_seq(w: Seq<u16>)
    ensures
        le16_seq(w).len() == 2 * w.len(),
        forall|i: int| 0 <= i < w.len() ==> #[trigger] le16_seq(w).subrange(2 * i, 2 * i + 2) == le16(w[i]),
    decreases w.len(),
{
    vstd::bytes::lemma_auto_spec_u16_to_from_le_bytes();
    if w.len() > 0 {
        let p = w.drop_last();
        lemma_le16_seq(p);
        assert(le16(w.last()).len() == 2);
        assert forall|i: int| 0 <= i < w.len() implies #[trigger] le16_seq(w).subrange(2 * i, 2 * i + 2)
            == le16(w[i]) by {
            if i < p.len() {
                assert(le16_seq(w).subrange(2 * i, 2 * i + 2) =~= le16_seq(p).subrange(2 * i, 2 * i + 2));
            } else {
                assert(le16_seq(w).subrange(2 * i, 2 * i + 2) =~= le16(w.last()));
            }
        }
    }
}

proof fn lemma_le16_words_of_seq(w: Seq<u16>)
    ensures
        le16_words(le16_seq(w)) == w,
{
    vstd::bytes::lemma_auto_spec_u16_to_from_le_bytes();
    lemma_le16_seq(w);
    assert forall|i: int| 0 <= i < w.len() implies #[trigger] le16_words(le16_seq(w))[i] == w[i] by {
        assert(le16_seq(w).subrange(2 * i, 2 * i + 2) == le16(w[i]));
    }
    assert(le16_words(le16_seq(w)) =~= w);
}

/// A little-endian `u32` or `u64` written at an offset reads back.
proof fn lemma_read_back(pre: Seq<u8>, x32: u32, x64: u64, post: Seq<u8>)
    ensures
        crate::storage::rd32(pre + le32(x32) + post, pre.len() as int) == x32,
        crate::storage::rd64(pre + le64(x64) + post, pre.len() as int) == x64,
{
    crate::storage::lemma_le_lens();
    let n = pre.len() as int;
    assert((pre + le32(x32) + post).subrange(n, n + 4) =~= le32(x32));
    assert((pre + le64(x64) + post).subrange(n, n + 8) =~= le64(x64));
}

/// A vectors file written with a four-byte magic reads back to the
/// dimension, the row count and the components.
pub proof fn lemma_vectors_round_trip(magic: Seq<u8>, dimension: u32, words: Seq<u32>)
    requires
        magic.len() == 4,
        dimension > 0,
        words.len() % (dimension as nat) == 0,
        words.len() / (dimension as nat) <= u64::MAX,
    ensures
        read_vectors_spec(vectors_file(magic, dimension, words), magic)
            == Ok::<(u32, u64, Seq<u32>), Seq<char>>((dimension, (words.len() / (dimension as nat)) as u64, words)),
{
    crate::storage::lemma_le_lens();
    crate::storage::lemma_le32_seq(words);
    crate::storage::lemma_le32_words_of_seq(words);
    let rows = (words.len() / (dimension as nat)) as u64;
    let raw = vectors_file(magic, dimension, words);
    let body = crate::storage::le32_seq(words);
    assert(raw.subrange(0, 4) =~= magic);
    lemma_read_back(magic, 1, 0, le32(dimension) + le64(rows) + body);
    assert(raw =~= magic + le32(1) + (le32(dimension) + le64(rows) + body));
    lemma_read_back(magic + le32(1), dimension, 0, le64(rows) + body);
    assert(raw =~= (magic + le32(1)) + le32(dimension) + (le64(rows) + body));
    lemma_read_back(magic + le32(1) + le32(dimension), 0, rows, body);
    assert(raw =~= (magic + le32(1) + le32(dimension)) + le64(rows) + body);
    assert(rows * dimension == words.len()) by (nonlinear_arith)
        requires
            words.len() % (dimension as nat) == 0,
            rows == words.len() / (dimension as nat),
            dimension > 0,
    ;
    assert(raw.subrange(20, 20 + 4 * (rows * dimension)) =~= body);
}

/// The meta file of a clustered fixture reads back to its categories.
pub proof fn lemma_meta_round_trip(categories: Seq<u16>)
    requires
        categories.len() <= u64::MAX,
    ensures
        read_meta_spec(meta_magic() + le32(1) + le64(categories.len() as u64) + le16_seq(categories))
            == Ok::<(u64, Seq<u16>), Seq<char>>((categories.len() as u64, categories)),
{
    crate::storage::lemma_le_lens();
    lemma_le16_seq(categories);
    lemma_le16_words_of_seq(categories);
    let n = categories.len() as u64;
    let body = le16_seq(categories);
    let raw = meta_magic() + le32(1) + le64(n) + body;
    assert(raw.subrange(0, 4) =~= meta_magic());
    lemma_read_back(meta_magic(), 1, 0, le64(n) + body);
    assert(raw =~= meta_magic() + le32(1) + (le64(n) + body));
    lemma_read_back(meta_magic() + le32(1), 0, n, body);
    assert(raw.subrange(16, 16 + 2 * n) =~= body);
}


/// Every ground-truth entry holds `k` indices and `k` distances.
pub open spec fn entries_hold(gt: Seq<GroundTruthBits>, k: nat) -> bool {
    forall|i: int| 0 <= i < gt.len() ==> (#[trigger] gt[i]).indices@.len() == k && gt[i].distances@.len() == k
}

proof fn lemma_truth_body(gt: Seq<GroundTruthBits>, k: nat)
    requires
        entries_hold(gt, k),
    ensures
        crate::corpus::truth_body(gt).len() == gt.len() * (8 * k),
        forall|i: int| 0 <= i < gt.len() ==> {
            &&& #[trigger] crate::corpus::truth_body(gt).subrange(i * (8 * k), i * (8 * k) + 4 * k)
                == crate::storage::le32_seq(gt[i].indices@)
            &&& crate::corpus::truth_body(gt).subrange(i * (8 * k) + 4 * k, i * (8 * k) + 8 * k)
                == crate::storage::le32_seq(gt[i].distances@)
        },
    decreases gt.len(),
{
    if gt.len() == 0 {
        assert(gt.len() * (8 * k) == 0) by (nonlinear_arith)
            requires
                gt.len() == 0,
        ;
    } else {
        let p = gt.drop_last();
        let last = gt.last();
        assert(entries_hold(p, k)) by {
            assert forall|i: int| 0 <= i < p.len() implies (#[trigger] p[i]).indices@.len() == k
                && p[i].distances@.len() == k by {
                assert(p[i] == gt[i]);
            }
        }
        lemma_truth_body(p, k);
        crate::storage::lemma_le32_seq(last.indices@);
        crate::storage::lemma_le32_seq(last.distances@);
        let bp = crate::corpus::truth_body(p);
        let a = crate::storage::le32_seq(last.indices@);
        let b = crate::storage::le32_seq(last.distances@);
        let body = crate::corpus::truth_body(gt);
        assert(body == bp + a + b);
        let n = p.len() as int;
        assert(gt.len() * (8 * k) == n * (8 * k) + 8 * k) by (nonlinear_arith)
            requires
                gt.len() == n + 1,
        ;
        assert forall|i: int| 0 <= i < gt.len() implies {
            &&& #[trigger] body.subrange(i * (8 * k), i * (8 * k) + 4 * k) == crate::storage::le32_seq(gt[i].indices@)
            &&& body.subrange(i * (8 * k) + 4 * k, i * (8 * k) + 8 * k) == crate::storage::le32_seq(gt[i].distances@)
        } by {
            if i < n {
                assert(i * (8 * k) + 8 * k <= n * (8 * k)) by (nonlinear_arith)
                    requires
                        i < n,
                        0 <= i,
                ;
                assert(0 <= i * (8 * k)) by (nonlinear_arith)
                    requires
                        0 <= i,
                ;
                assert(body.subrange(i * (8 * k), i * (8 * k) + 4 * k)
                    =~= bp.subrange(i * (8 * k), i * (8 * k) + 4 * k));
                assert(body.subrange(i * (8 * k) + 4 * k, i * (8 * k) + 8 * k)
                    =~= bp.subrange(i * (8 * k) + 4 * k, i * (8 * k) + 8 * k));
                assert(gt[i] == p[i]);
            } else {
                assert(i == n);
                assert(body.subrange(i * (8 * k), i * (8 * k) + 4 * k) =~= a);
                assert(body.subrange(i * (8 * k) + 4 * k, i * (8 * k) + 8 * k) =~= b);
            }
        }
    }
}

/// A ground-truth file whose entries all hold `k` neighbours reads back to
/// its query count, `k` and the entries.
pub proof fn lemma_truth_round_trip(k: u32, gt: Seq<GroundTruthBits>)
    requires
        entries_hold(gt, k as nat),
        gt.len() <= u64::MAX,
    ensures
        read_truth_spec(truth_file(truth_magic(), k, gt)) == Ok::<(u64, u32, Seq<TruthEntry>), Seq<char>>(
            (gt.len() as u64, k, Seq::new(gt.len(), |i: int| (gt[i].indices@, gt[i].distances@))),
        ),
{
    crate::storage::lemma_le_lens();
    lemma_truth_body(gt, k as nat);
    let n = gt.len() as u64;
    let body = crate::corpus::truth_body(gt);
    let raw = truth_file(truth_magic(), k, gt);
    assert(raw.subrange(0, 4) =~= truth_magic());
    lemma_read_back(truth_magic(), 1, 0, le64(n) + le32(k) + body);
    assert(raw =~= truth_magic() + le32(1) + (le64(n) + le32(k) + body));
    lemma_read_back(truth_magic() + le32(1), 0, n, le32(k) + body);
    assert(raw =~= (truth_magic() + le32(1)) + le64(n) + (le32(k) + body));
    lemma_read_back(truth_magic() + le32(1) + le64(n), k, 0, body);
    assert(raw =~= (truth_magic() + le32(1) + le64(n)) + le32(k) + body);
    let want = Seq::new(gt.len(), |i: int| (gt[i].indices@, gt[i].distances@));
    if k == 0 {
        assert(Seq::new(n as nat, |i: int| (Seq::<u32>::empty(), Seq::<u32>::empty())) =~= want) by {
            assert forall|i: int| 0 <= i < gt.len() implies gt[i].indices@ =~= Seq::<u32>::empty()
                && gt[i].distances@ =~= Seq::<u32>::empty() by {
                assert(gt[i].indices@.len() == 0);
            }
        }
    } else {
        let kk = k as nat;
        assert(Seq::new(n as nat, |i: int| truth_entry(raw, kk, i)) =~= want) by {
            assert forall|i: int| 0 <= i < gt.len() implies truth_entry(raw, kk, i) == want[i] by {
                let base = 20 + i * (8 * kk);
                assert(i * (8 * kk) + 8 * kk <= gt.len() * (8 * kk)) by (nonlinear_arith)
                    requires
                        0 <= i < gt.len(),
                ;
                assert(0 <= i * (8 * kk)) by (nonlinear_arith)
                    requires
                        0 <= i,
                ;
                assert(raw.subrange(base, base + 4 * kk) =~= body.subrange(i * (8 * kk), i * (8 * kk) + 4 * kk));
                assert(raw.subrange(base + 4 * kk, base + 8 * kk)
                    =~= body.subrange(i * (8 * kk) + 4 * kk, i * (8 * kk) + 8 * kk));
                assert(body.subrange(i * (8 * kk), i * (8 * kk) + 4 * kk) == crate::storage::le32_seq(gt[i].indices@));
                crate::storage::lemma_le32_words_of_seq(gt[i].indices@);
                crate::storage::lemma_le32_words_of_seq(gt[i].distances@);
            }
        }
    }
}


/// Loading a written clustered fixture set gives back what was written: the
/// files pass every check, and the corpus, categories, queries and
/// ground-truth entries read back unchanged, provided the counts agree
/// (one category per corpus row, one ground-truth entry of `top_k`
/// neighbours per query) and the manifest names a metric and a positive
/// category count.
#[verifier::rlimit(50)]
pub proof fn lemma_fixtures_round_trip(
    dimension: u32,
    top_k: u32,
    corpus: Seq<u32>,
    categories: Seq<u16>,
    queries: Seq<u32>,
    gt: Seq<GroundTruthBits>,
    manifest: Seq<char>,
)
    requires
        dimension > 0,
        corpus.len() % (dimension as nat) == 0,
        corpus.len() / (dimension as nat) <= u64::MAX,
        queries.len() % (dimension as nat) == 0,
        queries.len() / (dimension as nat) <= u64::MAX,
        categories.len() == corpus.len() / (dimension as nat),
        gt.len() == queries.len() / (dimension as nat),
        entries_hold(gt, top_k as nat),
        metric_field(manifest) is Some,
        u32_field(manifest, "num_categories"@) matches Some(c) && c > 0,
    ensures
        ({
            let corpus_raw = vectors_file(corpus_magic(), dimension, corpus);
            let meta_raw = meta_magic() + le32(1) + le64(categories.len() as u64) + le16_seq(categories);
            let queries_raw = vectors_file(query_magic(), dimension, queries);
            let truth_raw = truth_file(truth_magic(), top_k, gt);
            &&& load_error(corpus_raw, meta_raw, queries_raw, truth_raw, manifest) is None
            &&& read_vectors_spec(corpus_raw, corpus_magic()) == Ok::<(u32, u64, Seq<u32>), Seq<char>>(
                (dimension, categories.len() as u64, corpus))
            &&& read_meta_spec(meta_raw) == Ok::<(u64, Seq<u16>), Seq<char>>((categories.len() as u64, categories))
            &&& read_vectors_spec(queries_raw, query_magic()) == Ok::<(u32, u64, Seq<u32>), Seq<char>>(
                (dimension, gt.len() as u64, queries))
            &&& truth_top_k(truth_raw) == top_k
            &&& truth_entries(truth_raw) == Seq::new(gt.len(), |i: int| (gt[i].indices@, gt[i].distances@))
        }),
{
    let corpus_raw = vectors_file(corpus_magic(), dimension, corpus);
    let meta_raw = meta_magic() + le32(1) + le64(categories.len() as u64) + le16_seq(categories);
    let queries_raw = vectors_file(query_magic(), dimension, queries);
    let truth_raw = truth_file(truth_magic(), top_k, gt);
    let rows = (corpus.len() / (dimension as nat)) as u64;
    let nq = (queries.len() / (dimension as nat)) as u64;
    lemma_vectors_round_trip(corpus_magic(), dimension, corpus);
    lemma_vectors_round_trip(query_magic(), dimension, queries);
    lemma_meta_round_trip(categories);
    lemma_truth_round_trip(top_k, gt);
    assert(read_vectors_spec(corpus_raw, corpus_magic()) == Ok::<(u32, u64, Seq<u32>), Seq<char>>((dimension, rows, corpus)));
    assert(read_meta_spec(meta_raw) == Ok::<(u64, Seq<u16>), Seq<char>>((rows, categories)));
    assert(read_vectors_spec(queries_raw, query_magic()) == Ok::<(u32, u64, Seq<u32>), Seq<char>>((dimension, nq, queries)));
    assert(read_truth_spec(truth_raw) == Ok::<(u64, u32, Seq<TruthEntry>), Seq<char>>(
        (nq, top_k, Seq::new(gt.len(), |i: int| (gt[i].indices@, gt[i].distances@)))));
}

} // verus!
