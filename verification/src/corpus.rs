//! Reproducible synthetic benchmark corpus: the seeded integer streams it is
//! drawn from, the configuration checks, and the versioned little-endian
//! fixture format.
//!
//! Determinism is the central property: every value derives from a seeded
//! SplitMix64 stream, so regeneration is byte-identical. Vector components
//! are carried as their IEEE-754 bit patterns.
//!
//! ```text
//! corpus.bin        b"FRC1", version u32, dimension u32, rows u64, rows×dim f32
//! meta.bin          b"FRM1", rows u64, rows u16 categories
//! queries.bin       b"FRQ1", version u32, dimension u32, queries u64, queries×dim f32
//! ground_truth.bin  b"FRG1", version u32, queries u64, top_k u32,
//!                   per query: top_k u32 indices, then top_k f32 distances
//! ```

pub mod clustered;

use vstd::prelude::*;
use vstd::wrapping::u64_specs::{wrapping_add, wrapping_mul};

use crate::storage::{le32, le32_seq, le64, push_all};

verus! {

/// The distance function the ground truth is computed against.
#[derive(Debug, Clone, Copy, PartialEq, Eq, Structural)]
pub enum Metric {
    Cosine,
    L2,
    Dot,
}

/// Configuration for one corpus generation. Every field is part of the
/// fixture identity: changing any of them changes the output bytes.
#[derive(Debug, Clone, Copy)]
pub struct CorpusConfig {
    /// Rows in the corpus.
    pub num_vectors: u64,
    /// Dimensionality.
    pub dimension: u32,
    /// Held-out query vectors whose ground truth is computed.
    pub num_queries: u64,
    /// Nearest neighbours retained per query.
    pub top_k: u32,
    /// Master seed; every stream derives from it.
    pub seed: u64,
    /// Distinct categorical metadata values per vector.
    pub num_categories: u32,
    /// Distance function for ground truth.
    pub metric: Metric,
}

impl Default for CorpusConfig {
    fn default() -> (c: Self)
        ensures
            c.num_vectors == 10_000_000,
            c.dimension == 512,
            c.num_queries == 10_000,
            c.top_k == 10,
            c.seed == 0x9E37_79B9_7F4A_7C15,
            c.num_categories == 1000,
            c.metric == Metric::Cosine,
    {
        CorpusConfig {
            num_vectors: 10_000_000,
            dimension: 512,
            num_queries: 10_000,
            top_k: 10,
            seed: 0x9E37_79B9_7F4A_7C15,
            num_categories: 1000,
            metric: Metric::Cosine,
        }
    }
}

// ---------------------------------------------------------------------------
// SplitMix64 streams.
// ---------------------------------------------------------------------------

/// The SplitMix64 state increment.
pub open spec fn advance(state: u64) -> u64 {
    wrapping_add(state, 0x9E37_79B9_7F4A_7C15)
}

/// The SplitMix64 output function applied to a state.
pub open spec fn mix(state: u64) -> u64 {
    let z1 = wrapping_mul(state ^ (state >> 30u64), 0xBF58_476D_1CE4_E5B9);
    let z2 = wrapping_mul(z1 ^ (z1 >> 27u64), 0x94D0_49BB_1331_11EB);
    z2 ^ (z2 >> 31u64)
}

/// The state after `k` draws from `seed`.
pub open spec fn state_after(seed: u64, k: nat) -> u64
    decreases k,
{
    if k == 0 { seed } else { advance(state_after(seed, (k - 1) as nat)) }
}

/// The seed of sub-stream `stream` derived from `master`.
pub open spec fn sub_seed_of(master: u64, stream: u64) -> u64 {
    let s = state_after(master ^ 0x1234_5678_9ABC_DEF0, 2);
    mix(s) ^ wrapping_mul(stream, 0x85EB_CA6B_9487_E9C1)
}

/// A deterministic SplitMix64 stream.
pub struct Prng {
    state: u64,
}

impl Prng {
    pub closed spec fn spec_state(&self) -> u64 {
        self.state
    }

    /// A stream starting at `seed`.
    pub fn new(seed: u64) -> (p: Self)
        ensures
            p.spec_state() == seed,
    {
        Prng { state: seed }
    }

    /// The next 64-bit draw.
    pub fn next_u64(&mut self) -> (r: u64)
        ensures
            final(self).spec_state() == advance(old(self).spec_state()),
            r == mix(final(self).spec_state()),
    {
        self.state = self.state.wrapping_add(0x9E37_79B9_7F4A_7C15);
        let mut z = self.state;
        z = (z ^ (z >> 30)).wrapping_mul(0xBF58_476D_1CE4_E5B9);
        z = (z ^ (z >> 27)).wrapping_mul(0x94D0_49BB_1331_11EB);
        z ^ (z >> 31)
    }

    /// The next category in `0..num_categories`, as a 16-bit value (the
    /// draw's remainder, truncated to 16 bits).
    pub fn next_category(&mut self, num_categories: u32) -> (c: u16)
        requires
            num_categories > 0,
        ensures
            final(self).spec_state() == advance(old(self).spec_state()),
            c == (mix(final(self).spec_state()) % (num_categories as u64)) as u16,
    {
        let draw = self.next_u64();
        (draw % (num_categories as u64)) as u16
    }
}

/// Derives an independent sub-stream seed from the master seed and a stream
/// identifier.
pub fn sub_seed(master: u64, stream: u64) -> (s: u64)
    ensures
        s == sub_seed_of(master, stream),
{
    let mut p = Prng::new(master ^ 0x1234_5678_9ABC_DEF0);
    let _ = p.next_u64();
    let draw = p.next_u64();
    proof {
        let s0 = master ^ 0x1234_5678_9ABC_DEF0;
        reveal_with_fuel(state_after, 3);
        assert(state_after(s0, 1) == advance(s0));
        assert(state_after(s0, 2) == advance(advance(s0)));
    }
    draw ^ stream.wrapping_mul(0x85EB_CA6B_9487_E9C1)
}

/// Why a configuration cannot be generated, if it cannot.
pub open spec fn config_fault(c: CorpusConfig) -> Option<Seq<char>> {
    if c.dimension == 0 {
        Some("dimension must be greater than zero"@)
    } else if c.top_k == 0 {
        Some("top_k must be greater than zero"@)
    } else if c.num_vectors == 0 || c.num_queries == 0 {
        Some("num_vectors and num_queries must be greater than zero"@)
    } else {
        None
    }
}

/// Checks a configuration before generation: dimension, top-k and both
/// counts must be positive.
pub fn check_config(config: &CorpusConfig) -> (r: Result<(), String>)
    ensures
        r is Ok <==> config_fault(*config) is None,
        r matches Err(e) ==> config_fault(*config) == Some(e@),
{
    if config.dimension == 0 {
        return Err(String::from_str("dimension must be greater than zero"));
    }
    if config.top_k == 0 {
        return Err(String::from_str("top_k must be greater than zero"));
    }
    if config.num_vectors == 0 || config.num_queries == 0 {
        return Err(String::from_str("num_vectors and num_queries must be greater than zero"));
    }
    Ok(())
}

/// Category of corpus row `i`: the `i+1`-th draw of stream 2.
pub open spec fn category_at(seed: u64, num_categories: u32, i: nat) -> u16 {
    (mix(state_after(sub_seed_of(seed, 2), i + 1)) % (num_categories as u64)) as u16
}

/// The per-vector categories of a corpus (an independent stream).
pub fn generate_categories(config: &CorpusConfig) -> (cats: Vec<u16>)
    requires
        config.num_categories > 0,
        config.num_vectors <= usize::MAX,
    ensures
        cats@.len() == config.num_vectors,
        forall|i: int| 0 <= i < cats@.len()
            ==> #[trigger] cats@[i] == category_at(config.seed, config.num_categories, i as nat),
{
    let mut prng = Prng::new(sub_seed(config.seed, 2));
    let n = config.num_vectors as usize;
    let mut cats: Vec<u16> = Vec::new();
    for i in 0..n
        invariant
            config.num_categories > 0,
            cats@.len() == i,
            prng.spec_state() == state_after(sub_seed_of(config.seed, 2), i as nat),
            forall|j: int| 0 <= j < i
                ==> #[trigger] cats@[j] == category_at(config.seed, config.num_categories, j as nat),
    {
        let c = prng.next_category(config.num_categories);
        cats.push(c);
    }
    cats
}

/// Parses a metric name, ignoring ASCII case.
pub open spec fn metric_named(name: Seq<char>) -> Option<Metric> {
    if name == "cosine"@ {
        Some(Metric::Cosine)
    } else if name == "l2"@ {
        Some(Metric::L2)
    } else if name == "dot"@ {
        Some(Metric::Dot)
    } else {
        None
    }
}

/// A character with ASCII upper case mapped to lower case.
pub open spec fn ascii_lower(c: char) -> char {
    if 'A' <= c <= 'Z' { ((c as u32) + 32) as char } else { c }
}

/// `str::to_ascii_lowercase`: the documentation promises that ASCII
/// letters 'A'..='Z' map to 'a'..='z' and every other character is kept.
#[verifier::external_body]
pub(crate) fn to_ascii_lowercase(s: &str) -> (r: String)
    ensures
        r@ == s@.map_values(|c: char| ascii_lower(c)),
{
    s.to_ascii_lowercase()
}

/// Parses a `--metric` value, ignoring ASCII case.
pub fn parse_metric(raw: &str) -> (r: Result<Metric, String>)
    ensures
        ({
            let lower = raw@.map_values(|c: char| ascii_lower(c));
            match metric_named(lower) {
                Some(m) => r == Ok::<Metric, String>(m),
                None => r matches Err(e) && e@ == "unknown metric: "@ + lower,
            }
        }),
{
    let lower = to_ascii_lowercase(raw);
    proof {
        reveal_strlit("cosine");
        reveal_strlit("l2");
        reveal_strlit("dot");
    }
    if lower == String::from_str("cosine") {
        Ok(Metric::Cosine)
    } else if lower == String::from_str("l2") {
        Ok(Metric::L2)
    } else if lower == String::from_str("dot") {
        Ok(Metric::Dot)
    } else {
        Err(crate::text::concat_str("unknown metric: ", lower.as_str()))
    }
}


// ---------------------------------------------------------------------------
// Fixture format.
// ---------------------------------------------------------------------------

/// Little-endian bytes of a `u16`.
pub open spec fn le16(x: u16) -> Seq<u8> {
    vstd::bytes::spec_u16_to_le_bytes(x)
}

/// Little-endian bytes of a run of `u16`s.
pub open spec fn le16_seq(w: Seq<u16>) -> Seq<u8>
    decreases w.len(),
{
    if w.len() == 0 {
        Seq::<u8>::empty()
    } else {
        le16_seq(w.drop_last()) + le16(w.last())
    }
}

/// The exact nearest neighbours of one query: row indices, nearest first,
/// and the matching distances as `f32` bit patterns.
#[derive(Debug, Clone)]
pub struct GroundTruthBits {
    pub indices: Vec<u32>,
    pub distances: Vec<u32>,
}

/// The bytes of the ground-truth entries: for each query its indices, then
/// its distances.
pub open spec fn truth_body(gt: Seq<GroundTruthBits>) -> Seq<u8>
    decreases gt.len(),
{
    if gt.len() == 0 {
        Seq::<u8>::empty()
    } else {
        truth_body(gt.drop_last()) + le32_seq(gt.last().indices@) + le32_seq(gt.last().distances@)
    }
}

/// A vectors file: magic, format version 1, dimension, row count, then the
/// components.
pub open spec fn vectors_file(magic: Seq<u8>, dimension: u32, words: Seq<u32>) -> Seq<u8> {
    magic + le32(1) + le32(dimension) + le64((words.len() / (dimension as nat)) as u64) + le32_seq(words)
}

/// A ground-truth file: magic, format version 1, query count, top-k, then
/// the entries.
pub open spec fn truth_file(magic: Seq<u8>, top_k: u32, gt: Seq<GroundTruthBits>) -> Seq<u8> {
    magic + le32(1) + le64(gt.len() as u64) + le32(top_k) + truth_body(gt)
}

/// Serialized fixture bytes plus the machine-readable manifest.
#[derive(Debug, Clone)]
pub struct Serialized {
    pub corpus_bytes: Vec<u8>,
    pub meta_bytes: Vec<u8>,
    pub queries_bytes: Vec<u8>,
    pub ground_truth_bytes: Vec<u8>,
    pub manifest: String,
}

/// Appends the little-endian bytes of `v`.
pub fn put_u32(buf: &mut Vec<u8>, v: u32)
    ensures
        final(buf)@ == old(buf)@ + le32(v),
{
    push_all(buf, vstd::bytes::u32_to_le_bytes(v));
}

/// Appends the little-endian bytes of `v`.
pub fn put_u64(buf: &mut Vec<u8>, v: u64)
    ensures
        final(buf)@ == old(buf)@ + le64(v),
{
    push_all(buf, vstd::bytes::u64_to_le_bytes(v));
}

/// Appends the little-endian bytes of each word.
pub fn put_words(buf: &mut Vec<u8>, words: &[u32])
    ensures
        final(buf)@ == old(buf)@ + le32_seq(words@),
{
    let encoded = crate::storage::encode_words(words);
    push_all(buf, encoded);
}

/// Appends the little-endian bytes of each half-word.
pub fn put_halves(buf: &mut Vec<u8>, halves: &[u16])
    ensures
        final(buf)@ == old(buf)@ + le16_seq(halves@),
{
    let ghost start = buf@;
    for i in 0..halves.len()
        invariant
            buf@ == start + le16_seq(halves@.take(i as int)),
    {
        push_all(buf, vstd::bytes::u16_to_le_bytes(halves[i]));
        proof {
            assert(halves@.take(i + 1).drop_last() =~= halves@.take(i as int));
            assert(start + le16_seq(halves@.take(i as int)) + le16(halves@[i as int])
                =~= start + le16_seq(halves@.take(i + 1)));
        }
    }
    proof {
        assert(halves@.take(halves@.len() as int) =~= halves@);
    }
}

/// Appends the ground-truth entries.
pub fn put_truth(buf: &mut Vec<u8>, gt: &[GroundTruthBits])
    ensures
        final(buf)@ == old(buf)@ + truth_body(gt@),
{
    let ghost start = buf@;
    for i in 0..gt.len()
        invariant
            buf@ == start + truth_body(gt@.take(i as int)),
    {
        put_words(buf, gt[i].indices.as_slice());
        put_words(buf, gt[i].distances.as_slice());
        proof {
            assert(gt@.take(i + 1).drop_last() =~= gt@.take(i as int));
            assert(start + truth_body(gt@.take(i as int)) + le32_seq(gt@[i as int].indices@)
                + le32_seq(gt@[i as int].distances@) =~= start + truth_body(gt@.take(i + 1)));
        }
    }
    proof {
        assert(gt@.take(gt@.len() as int) =~= gt@);
    }
}

/// Writes a vectors file with the given magic.
pub fn frame_vectors(magic: &[u8], dimension: u32, words: &[u32]) -> (b: Vec<u8>)
    requires
        dimension > 0,
    ensures
        b@ == vectors_file(magic@, dimension, words@),
{
    let mut b: Vec<u8> = Vec::new();
    b.extend_from_slice(magic);
    put_u32(&mut b, 1);
    put_u32(&mut b, dimension);
    put_u64(&mut b, words.len() as u64 / dimension as u64);
    put_words(&mut b, words);
    assert(b@ =~= vectors_file(magic@, dimension, words@));
    b
}

/// Writes a ground-truth file with the given magic.
pub fn frame_truth(magic: &[u8], top_k: u32, gt: &[GroundTruthBits]) -> (b: Vec<u8>)
    ensures
        b@ == truth_file(magic@, top_k, gt@),
{
    let mut b: Vec<u8> = Vec::new();
    b.extend_from_slice(magic);
    put_u32(&mut b, 1);
    put_u64(&mut b, gt.len() as u64);
    put_u32(&mut b, top_k);
    put_truth(&mut b, gt);
    assert(b@ =~= truth_file(magic@, top_k, gt@));
    b
}

/// `b"FRC1"`.
pub open spec fn corpus_magic() -> Seq<u8> {
    seq![0x46u8, 0x52u8, 0x43u8, 0x31u8]
}

/// `b"FRM1"`.
pub open spec fn meta_magic() -> Seq<u8> {
    seq![0x46u8, 0x52u8, 0x4du8, 0x31u8]
}

/// `b"FRQ1"`.
pub open spec fn query_magic() -> Seq<u8> {
    seq![0x46u8, 0x52u8, 0x51u8, 0x31u8]
}

/// `b"FRG1"`.
pub open spec fn truth_magic() -> Seq<u8> {
    seq![0x46u8, 0x52u8, 0x47u8, 0x31u8]
}

/// Serializes a generated corpus to the versioned fixture files. Vector
/// components and distances are given as `f32` bit patterns; the manifest
/// text is passed through.
pub fn serialize(
    config: &CorpusConfig,
    corpus: &[u32],
    categories: &[u16],
    queries: &[u32],
    ground_truth: &[GroundTruthBits],
    manifest: String,
) -> (s: Serialized)
    requires
        config.dimension > 0,
    ensures
        s.corpus_bytes@ == vectors_file(corpus_magic(), config.dimension, corpus@),
        s.meta_bytes@ == meta_magic() + le64(categories@.len() as u64) + le16_seq(categories@),
        s.queries_bytes@ == vectors_file(query_magic(), config.dimension, queries@),
        s.ground_truth_bytes@ == truth_file(truth_magic(), config.top_k, ground_truth@),
        s.manifest == manifest,
{
    let corpus_bytes = frame_vectors(&[0x46u8, 0x52u8, 0x43u8, 0x31u8], config.dimension, corpus);
    let mut meta_bytes: Vec<u8> = Vec::new();
    meta_bytes.extend_from_slice(&[0x46u8, 0x52u8, 0x4du8, 0x31u8]);
    put_u64(&mut meta_bytes, categories.len() as u64);
    put_halves(&mut meta_bytes, categories);
    let queries_bytes = frame_vectors(&[0x46u8, 0x52u8, 0x51u8, 0x31u8], config.dimension, queries);
    let ground_truth_bytes = frame_truth(&[0x46u8, 0x52u8, 0x47u8, 0x31u8], config.top_k, ground_truth);
    proof {
        assert(meta_bytes@ =~= meta_magic() + le64(categories@.len() as u64) + le16_seq(categories@));
    }
    Serialized { corpus_bytes, meta_bytes, queries_bytes, ground_truth_bytes, manifest }
}

} // verus!
