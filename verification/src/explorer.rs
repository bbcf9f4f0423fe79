//! The explorer's session parameters: which deterministic dataset to
//! generate, and which ANN index family to build over it, as an ingest
//! request describes them.

use vstd::prelude::*;

use crate::corpus::{CorpusConfig, Metric as CorpusMetric};
use crate::index_substrate::{IndexBuildParams, IndexFamily, LadderChoice, LadderOverride};

verus! {

/// Parameters of one explorer session.
#[derive(Debug, Clone, Copy)]
pub struct SessionSpec {
    pub num_vectors: u32,
    pub dimension: u32,
    pub num_categories: u32,
    pub seed: u64,
    /// Index family built for the ANN path.
    pub family: IndexFamily,
}

impl Default for SessionSpec {
    fn default() -> (s: Self)
        ensures
            s.num_vectors == 2_000,
            s.dimension == 64,
            s.num_categories == 50,
            s.seed == 42,
            s.family == IndexFamily::IvfHnswFlat,
    {
        SessionSpec { num_vectors: 2_000, dimension: 64, num_categories: 50, seed: 42, family: IndexFamily::IvfHnswFlat }
    }
}

/// IVF-PQ sub-vectors for a session: one per 16 dimensions, at least one.
pub open spec fn session_sub_vectors(dimension: u32) -> u32 {
    if dimension / 16 >= 1 { (dimension / 16) as u32 } else { 1 }
}

impl SessionSpec {
    /// The dataset a session generates: the session's rows, dimension,
    /// categories and seed, with 16 held-out cosine queries and their
    /// exact top-10.
    pub fn corpus_config(&self) -> (c: CorpusConfig)
        ensures
            c.num_vectors == self.num_vectors as u64,
            c.dimension == self.dimension,
            c.num_queries == 16,
            c.top_k == 10,
            c.seed == self.seed,
            c.num_categories == self.num_categories,
            c.metric == CorpusMetric::Cosine,
    {
        CorpusConfig {
            num_vectors: self.num_vectors as u64,
            dimension: self.dimension,
            num_queries: 16,
            top_k: 10,
            seed: self.seed,
            num_categories: self.num_categories,
            metric: CorpusMetric::Cosine,
        }
    }

    /// The substrate is pinned to the session's family, whatever its size.
    pub fn ladder_override(&self) -> (o: LadderOverride)
        ensures
            o == LadderOverride::Force(
                match self.family {
                    IndexFamily::IvfHnswFlat => LadderChoice::Hnsw,
                    IndexFamily::IvfPq => LadderChoice::IvfPq,
                },
            ),
    {
        LadderOverride::Force(
            match self.family {
                IndexFamily::IvfHnswFlat => LadderChoice::Hnsw,
                IndexFamily::IvfPq => LadderChoice::IvfPq,
            },
        )
    }

    /// The build parameters of the session's index: four partitions, with
    /// construction depth 64 for IVF-HNSW-Flat, or one sub-vector per 16
    /// dimensions (at least one) for IVF-PQ.
    pub fn index_params(&self) -> (p: IndexBuildParams)
        ensures
            p.family == self.family,
            p.num_partitions == 4,
            self.family == IndexFamily::IvfHnswFlat ==> p.num_sub_vectors == None::<u32>
                && p.ef_construction == Some(64u32),
            self.family == IndexFamily::IvfPq ==> p.num_sub_vectors == Some(session_sub_vectors(self.dimension))
                && p.ef_construction == None::<u32>,
    {
        match self.family {
            IndexFamily::IvfHnswFlat => IndexBuildParams {
                family: IndexFamily::IvfHnswFlat,
                num_partitions: 4,
                num_sub_vectors: None,
                ef_construction: Some(64),
            },
            IndexFamily::IvfPq => {
                let per = self.dimension / 16;
                IndexBuildParams {
                    family: IndexFamily::IvfPq,
                    num_partitions: 4,
                    num_sub_vectors: Some(if per >= 1 { per } else { 1 }),
                    ef_construction: None,
                }
            },
        }
    }

    /// The family's display name.
    pub fn family_label(&self) -> (s: &'static str)
        ensures
            self.family == IndexFamily::IvfHnswFlat ==> s@ == "IVF-HNSW-Flat"@,
            self.family == IndexFamily::IvfPq ==> s@ == "IVF-PQ"@,
    {
        proof {
            reveal_strlit("IVF-HNSW-Flat");
            reveal_strlit("IVF-PQ");
        }
        match self.family {
            IndexFamily::IvfHnswFlat => "IVF-HNSW-Flat",
            IndexFamily::IvfPq => "IVF-PQ",
        }
    }
}


/// The text `{:?}` prints for a string: quoted, with escapes.
pub uninterp spec fn debug_quoted(s: Seq<char>) -> Seq<char>;

/// `<str as Debug>::fmt` through `format!("{:?}")`: the string quoted, with
/// `char::escape_debug`'s escapes. What those escapes are is left to the
/// name [`debug_quoted`]; it depends on the text alone.
#[verifier::external_body]
fn debug_text(s: &str) -> (r: String)
    ensures
        r@ == debug_quoted(s@),
{
    format!("{s:?}")
}

/// The index family a request names: `hnsw`, `IvfHnswFlat` or nothing
/// select IVF-HNSW-Flat; `pq` or `IvfPq` select IVF-PQ.
pub open spec fn family_named(name: Seq<char>) -> Option<IndexFamily> {
    if name == "hnsw"@ || name == "IvfHnswFlat"@ || name == ""@ {
        Some(IndexFamily::IvfHnswFlat)
    } else if name == "pq"@ || name == "IvfPq"@ {
        Some(IndexFamily::IvfPq)
    } else {
        None
    }
}

/// Reads an index family name (see [`family_named`]).
pub fn family_from_name(name: &str) -> (r: core::result::Result<IndexFamily, String>)
    ensures
        match family_named(name@) {
            Some(f) => r == Ok::<IndexFamily, String>(f),
            None => r matches Err(e) && e@ == "unknown index family "@ + debug_quoted(name@) + " (hnsw | pq)"@,
        },
{
    proof {
        reveal_strlit("hnsw");
        reveal_strlit("IvfHnswFlat");
        reveal_strlit("");
        reveal_strlit("pq");
        reveal_strlit("IvfPq");
        reveal_strlit("unknown index family ");
        reveal_strlit(" (hnsw | pq)");
    }
    let given = String::from_str(name);
    if given == String::from_str("hnsw") || given == String::from_str("IvfHnswFlat") || given == String::from_str("") {
        Ok(IndexFamily::IvfHnswFlat)
    } else if given == String::from_str("pq") || given == String::from_str("IvfPq") {
        Ok(IndexFamily::IvfPq)
    } else {
        let mut reason = String::from_str("unknown index family ");
        let quoted = debug_text(name);
        reason.append(quoted.as_str());
        reason.append(" (hnsw | pq)");
        Err(reason)
    }
}

/// `x` kept within `lo..=hi`.
pub open spec fn clamped(x: u32, lo: u32, hi: u32) -> u32 {
    if x < lo { lo } else if x > hi { hi } else { x }
}

/// The session an ingest request describes: 2 000 vectors unless given, at
/// most 200 000; dimension 64 unless given, kept within 8..=1024; 50
/// categories unless given, at least one; seed 42 unless given; the family
/// named (IVF-HNSW-Flat unless given). An unknown family name is refused.
pub fn session_spec_from_request(
    num_vectors: Option<u32>,
    dimension: Option<u32>,
    num_categories: Option<u32>,
    seed: Option<u64>,
    family: Option<&str>,
) -> (r: core::result::Result<SessionSpec, String>)
    ensures
        ({
            let name = match family {
                Some(f) => f@,
                None => "hnsw"@,
            };
            match family_named(name) {
                None => r matches Err(e) && e@ == "unknown index family "@ + debug_quoted(name) + " (hnsw | pq)"@,
                Some(f) => r matches Ok(spec) && {
                    &&& spec.num_vectors == match num_vectors {
                        Some(n) => if n > 200_000 { 200_000 } else { n },
                        None => 2_000,
                    }
                    &&& spec.dimension == clamped(
                        match dimension {
                            Some(d) => d,
                            None => 64,
                        },
                        8,
                        1024,
                    )
                    &&& spec.num_categories == match num_categories {
                        Some(c) => if c < 1 { 1 } else { c },
                        None => 50,
                    }
                    &&& spec.seed == match seed {
                        Some(s) => s,
                        None => 42,
                    }
                    &&& spec.family == f
                },
            }
        }),
{
    proof {
        reveal_strlit("hnsw");
    }
    let vectors = match num_vectors {
        Some(n) => if n > 200_000 { 200_000 } else { n },
        None => 2_000,
    };
    let wanted = match dimension {
        Some(d) => d,
        None => 64,
    };
    let dim = if wanted < 8 { 8 } else if wanted > 1024 { 1024 } else { wanted };
    let categories = match num_categories {
        Some(c) => if c < 1 { 1 } else { c },
        None => 50,
    };
    let chosen = match family {
        Some(f) => family_from_name(f),
        None => family_from_name("hnsw"),
    };
    let family = match chosen {
        Ok(f) => f,
        Err(e) => return Err(e),
    };
    Ok(SessionSpec {
        num_vectors: vectors,
        dimension: dim,
        num_categories: categories,
        seed: match seed {
            Some(s) => s,
            None => 42,
        },
        family,
    })
}

} // verus!
