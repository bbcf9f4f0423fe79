//! Index substrate policy: which ANN index family a Table's substrate uses,
//! how builds are parameterized and validated, when they run in the
//! background, and which query knobs are acceptable.
//!
//! Ladder: below 10k rows search stays exhaustive; from 10k up to
//! (excluding) 1M rows HNSW; at 1M and above IVF-PQ. A creation-time
//! override wins over the row count. Builds for substrates of 50k rows or
//! more run in the background and are observable while in flight.

use vstd::prelude::*;

use crate::errors::{Error, Result};
use crate::table::Metric;
use crate::text::{concat_str, decimal, decimal_string};
use crate::write_path::saturate_u32;

verus! {

/// Which ANN index family to build.
#[derive(Debug, Clone, Copy, PartialEq, Eq, Structural)]
pub enum IndexFamily {
    /// IVF-PQ. Per-query knob: probes.
    IvfPq,
    /// IVF-HNSW-Flat: HNSW inside an IVF partitioning. Per-query knobs:
    /// probes and ef-search.
    IvfHnswFlat,
}

/// Build-time parameters for one [`IndexFamily`].
#[derive(Debug, Clone, Copy)]
pub struct IndexBuildParams {
    pub family: IndexFamily,
    /// Number of IVF partitions; must be at least 1.
    pub num_partitions: u32,
    /// IVF-PQ only: sub-vector count; must divide the fixed dimension.
    pub num_sub_vectors: Option<u32>,
    /// HNSW family only: construction-time search depth.
    pub ef_construction: Option<u32>,
}

/// Per-query knobs.
#[derive(Debug, Clone, Copy, PartialEq, Eq)]
pub struct SubstrateQueryKnobs {
    /// Neighbours to return; 1..=1000 like the public options.
    pub top_k: u32,
    /// IVF partitions visited per query.
    pub probes: Option<u32>,
    /// HNSW search depth at query time.
    pub ef_search: Option<u32>,
}

/// Why build parameters are refused for a substrate of `dimension`, if they
/// are.
pub open spec fn build_params_fault(p: IndexBuildParams, dimension: u32) -> Option<Seq<char>> {
    if p.num_partitions == 0 {
        Some("num_partitions must be at least 1"@)
    } else {
        match p.family {
            IndexFamily::IvfPq => match p.num_sub_vectors {
                None => Some("IvfPq requires num_sub_vectors"@),
                Some(sub) => if sub == 0 || dimension % sub != 0 {
                    Some("num_sub_vectors "@ + decimal(sub as nat) + " must divide dimension "@
                        + decimal(dimension as nat))
                } else {
                    None
                },
            },
            IndexFamily::IvfHnswFlat => if p.num_sub_vectors is Some {
                Some("num_sub_vectors applies only to IvfPq"@)
            } else {
                None
            },
        }
    }
}

impl IndexBuildParams {
    /// Checks the parameters against a substrate of `dimension`.
    pub fn validate(&self, dimension: u32) -> (r: Result<()>)
        ensures
            r is Ok <==> build_params_fault(*self, dimension) is None,
            r matches Err(e) ==> e matches Error::SchemaViolation { reason }
                && build_params_fault(*self, dimension) == Some(reason@),
    {
        if self.num_partitions == 0 {
            return Err(Error::SchemaViolation { reason: String::from_str("num_partitions must be at least 1") });
        }
        match self.family {
            IndexFamily::IvfPq => {
                let sub = match self.num_sub_vectors {
                    Some(sub) => sub,
                    None => {
                        return Err(Error::SchemaViolation {
                            reason: String::from_str("IvfPq requires num_sub_vectors"),
                        });
                    },
                };
                if sub == 0 || dimension % sub != 0 {
                    let mut reason = concat_str("num_sub_vectors ", decimal_string(sub as u64).as_str());
                    reason.append(" must divide dimension ");
                    reason.append(decimal_string(dimension as u64).as_str());
                    return Err(Error::SchemaViolation { reason });
                }
            },
            IndexFamily::IvfHnswFlat => {
                if self.num_sub_vectors.is_some() {
                    return Err(Error::SchemaViolation {
                        reason: String::from_str("num_sub_vectors applies only to IvfPq"),
                    });
                }
            },
        }
        Ok(())
    }
}


/// Reason given for a top-k outside `1..=1000` at the substrate.
pub open spec fn substrate_top_k_reason() -> Seq<char> {
    "top_k must be within 1..=1000"@
}

/// The error a query of `query_len` components with `knobs` gets from a
/// substrate of `dimension`, if any: top-k out of range, then a wrong
/// length, then an ef-search below top-k.
pub open spec fn query_fault(knobs: SubstrateQueryKnobs, query_len: nat, dimension: u32) -> Option<Error> {
    if knobs.top_k == 0 || knobs.top_k > 1000 {
        Some(Error::SchemaViolation { reason: arbitrary_string(substrate_top_k_reason()) })
    } else if query_len != dimension {
        Some(Error::DimensionMismatch { expected: dimension, actual: saturate_u32(query_len) })
    } else if knobs.ef_search is Some && knobs.ef_search->0 < knobs.top_k {
        Some(Error::SchemaViolation {
            reason: arbitrary_string(
                "ef_search "@ + decimal(knobs.ef_search->0 as nat) + " must be at least top_k "@
                    + decimal(knobs.top_k as nat),
            ),
        })
    } else {
        None
    }
}

/// Some `String` with the given text.
pub open spec fn arbitrary_string(t: Seq<char>) -> String {
    choose|s: String| s@ == t
}

/// Two errors say the same: same variant, same fields, texts compared by
/// content.
pub open spec fn same_error(a: Error, b: Error) -> bool {
    match (a, b) {
        (Error::SchemaViolation { reason: x }, Error::SchemaViolation { reason: y }) => x@ == y@,
        (Error::DimensionMismatch { expected: e1, actual: a1 }, Error::DimensionMismatch { expected: e2, actual: a2 }) =>
            e1 == e2 && a1 == a2,
        _ => false,
    }
}

/// Checks a query against the substrate before it runs: top-k in
/// `1..=1000`, `query_len` equal to `dimension`, and ef-search (when set)
/// at least top-k, which the HNSW family needs.
pub fn check_query(knobs: &SubstrateQueryKnobs, query_len: usize, dimension: u32) -> (r: Result<()>)
    ensures
        r is Ok <==> query_fault(*knobs, query_len as nat, dimension) is None,
        r matches Err(e) ==> same_error(e, query_fault(*knobs, query_len as nat, dimension)->0),
{
    proof {
        reveal_strlit("top_k must be within 1..=1000");
    }
    if knobs.top_k == 0 || knobs.top_k > 1000 {
        let reason = String::from_str("top_k must be within 1..=1000");
        proof {
            assert(exists|t: String| t@ == substrate_top_k_reason()) by {
                assert(reason@ == substrate_top_k_reason());
            }
        }
        return Err(Error::SchemaViolation { reason });
    }
    if query_len != dimension as usize {
        return Err(Error::DimensionMismatch { expected: dimension, actual: crate::write_path::saturating_u32(query_len) });
    }
    if let Some(ef) = knobs.ef_search {
        if ef < knobs.top_k {
            let mut reason = concat_str("ef_search ", decimal_string(ef as u64).as_str());
            reason.append(" must be at least top_k ");
            reason.append(decimal_string(knobs.top_k as u64).as_str());
            proof {
                let t = "ef_search "@ + decimal(ef as nat) + " must be at least top_k "@ + decimal(knobs.top_k as nat);
                assert(reason@ == t);
                assert(exists|u: String| u@ == t);
            }
            return Err(Error::SchemaViolation { reason });
        }
    }
    Ok(())
}

/// `ceil(a / b)` for positive `b`.
pub open spec fn div_ceil(a: nat, b: nat) -> nat {
    ((a + b - 1) / (b as int)) as nat
}

/// Checks a write of `ids_len` ids with `vectors_len` row-major components
/// against a substrate of `dimension`: an empty write is accepted as is;
/// otherwise there must be exactly `dimension` components per id. The
/// reported length is the components per id, rounded up and saturated.
pub fn check_write(ids_len: usize, vectors_len: usize, dimension: u32) -> (r: Result<()>)
    ensures
        r is Ok <==> (ids_len == 0 || vectors_len == ids_len * dimension),
        r matches Err(e) ==> e == (Error::DimensionMismatch {
            expected: dimension,
            actual: saturate_u32(div_ceil(vectors_len as nat, ids_len as nat)),
        }),
{
    if ids_len == 0 {
        return Ok(());
    }
    let a = ids_len as u128;
    let b = dimension as u128;
    assert(a * b <= 0xffff_ffff_ffff_ffff_u128 * 0xffff_ffff_u128) by (nonlinear_arith)
        requires
            a <= 0xffff_ffff_ffff_ffff_u128,
            b <= 0xffff_ffff_u128,
    ;
    let want = a * b;
    if vectors_len as u128 != want {
        let per = (vectors_len as u128 + ids_len as u128 - 1) / (ids_len as u128);
        let actual = if per > 0xffff_ffff { u32::MAX } else { per as u32 };
        return Err(Error::DimensionMismatch { expected: dimension, actual });
    }
    Ok(())
}

// ---------------------------------------------------------------------------
// Ladder selection.
// ---------------------------------------------------------------------------

/// Below this row count the ladder keeps search exhaustive.
pub const LADDER_EXHAUSTIVE_MAX_ROWS: u64 = 10_000;
/// From this row count (inclusive) the ladder moves to IVF-PQ.
pub const LADDER_HNSW_MAX_ROWS: u64 = 1_000_000;
/// At or beyond this row count index builds run in the background.
pub const BACKGROUND_BUILD_MIN_ROWS: u64 = 50_000;

/// Which search strategy the ladder prescribes.
#[derive(Debug, Clone, Copy, PartialEq, Eq, Structural)]
pub enum LadderChoice {
    /// No ANN index; exhaustive scanning.
    Exhaustive,
    /// HNSW (the IVF-HNSW-Flat family).
    Hnsw,
    /// IVF-PQ.
    IvfPq,
}

/// Creation-time override applied on top of the row-count ladder.
#[derive(Debug, Clone, Copy, PartialEq, Eq, Structural)]
pub enum LadderOverride {
    /// Follow the ratified thresholds.
    Auto,
    /// Pin this choice regardless of row count.
    Force(LadderChoice),
}

impl Default for LadderOverride {
    fn default() -> (o: Self)
        ensures
            o == LadderOverride::Auto,
    {
        LadderOverride::Auto
    }
}

/// The ladder: row count to choice, strict `<` at both thresholds.
pub open spec fn ladder_for(rows: u64) -> LadderChoice {
    if rows < LADDER_EXHAUSTIVE_MAX_ROWS {
        LadderChoice::Exhaustive
    } else if rows < LADDER_HNSW_MAX_ROWS {
        LadderChoice::Hnsw
    } else {
        LadderChoice::IvfPq
    }
}

/// The pure selector: row count to ladder choice. Total over `u64`.
pub fn ladder_choice(row_count: u64) -> (c: LadderChoice)
    ensures
        c == ladder_for(row_count),
{
    if row_count < LADDER_EXHAUSTIVE_MAX_ROWS {
        LadderChoice::Exhaustive
    } else if row_count < LADDER_HNSW_MAX_ROWS {
        LadderChoice::Hnsw
    } else {
        LadderChoice::IvfPq
    }
}

/// An override always wins; otherwise the ladder decides.
pub open spec fn resolved(o: LadderOverride, rows: u64) -> LadderChoice {
    match o {
        LadderOverride::Force(choice) => choice,
        LadderOverride::Auto => ladder_for(rows),
    }
}

/// Policy application: an override always wins; otherwise the row-count
/// ladder decides.
pub fn resolve_ladder(override_: LadderOverride, row_count: u64) -> (c: LadderChoice)
    ensures
        c == resolved(override_, row_count),
{
    match override_ {
        LadderOverride::Force(choice) => choice,
        LadderOverride::Auto => ladder_choice(row_count),
    }
}

/// Whether a build runs inline or in the background (exhaustive needs none).
#[derive(Debug, Clone, Copy, PartialEq, Eq, Structural)]
pub enum BuildDisposition {
    NotNeeded,
    Inline,
    Background,
}

/// The disposition of the build for `choice` over `rows` rows.
pub open spec fn disposition_for(choice: LadderChoice, rows: u64) -> BuildDisposition {
    match choice {
        LadderChoice::Exhaustive => BuildDisposition::NotNeeded,
        _ => if rows >= BACKGROUND_BUILD_MIN_ROWS {
            BuildDisposition::Background
        } else {
            BuildDisposition::Inline
        },
    }
}

/// Disposition selector: exhaustive never builds; otherwise builds run
/// inline below [`BACKGROUND_BUILD_MIN_ROWS`] and in the background from it.
pub fn build_disposition(choice: LadderChoice, row_count: u64) -> (d: BuildDisposition)
    ensures
        d == disposition_for(choice, row_count),
{
    match choice {
        LadderChoice::Exhaustive => BuildDisposition::NotNeeded,
        LadderChoice::Hnsw | LadderChoice::IvfPq => {
            if row_count >= BACKGROUND_BUILD_MIN_ROWS {
                BuildDisposition::Background
            } else {
                BuildDisposition::Inline
            }
        },
    }
}


// ---------------------------------------------------------------------------
// Background builds.
// ---------------------------------------------------------------------------

/// Observable state of a possibly in-flight background build.
#[derive(Debug, Clone, Copy, PartialEq, Eq, Structural)]
pub enum BackgroundBuildState {
    /// No background build has been triggered (or nothing to build).
    Idle,
    /// A background build is running right now.
    InProgress,
    /// The most recent background build finished successfully.
    Completed,
    /// The most recent background build failed; see
    /// [`SubstrateIndex::background_build_error`].
    Failed,
}

impl BackgroundBuildState {
    /// The state's one-byte code.
    pub open spec fn code(self) -> u8 {
        match self {
            BackgroundBuildState::Idle => 0,
            BackgroundBuildState::InProgress => 1,
            BackgroundBuildState::Completed => 2,
            BackgroundBuildState::Failed => 3,
        }
    }

    /// The state's one-byte code, for storage in an atomic cell.
    pub fn to_u8(self) -> (b: u8)
        ensures
            b == self.code(),
    {
        match self {
            BackgroundBuildState::Idle => 0,
            BackgroundBuildState::InProgress => 1,
            BackgroundBuildState::Completed => 2,
            BackgroundBuildState::Failed => 3,
        }
    }

    /// Decodes a stored byte; unknown codes read as `Idle`.
    pub fn from_u8(value: u8) -> (s: Self)
        ensures
            value <= 3 ==> s.code() == value,
            value > 3 ==> s == BackgroundBuildState::Idle,
    {
        match value {
            1 => BackgroundBuildState::InProgress,
            2 => BackgroundBuildState::Completed,
            3 => BackgroundBuildState::Failed,
            _ => BackgroundBuildState::Idle,
        }
    }

    /// A build may be claimed whenever none is in flight: from `Idle`,
    /// `Completed` or `Failed` (a failed build can be retried).
    pub open spec fn claimable(self) -> bool {
        self != BackgroundBuildState::InProgress
    }
}

/// Decoding a state's code gives the state back.
pub proof fn lemma_state_code_round_trip(s: BackgroundBuildState)
    ensures
        s.code() <= 3,
        forall|t: BackgroundBuildState| #[trigger] t.code() == s.code() ==> t == s,
{
}

/// What applying the ladder decided.
#[derive(Debug, Clone, Copy, PartialEq, Eq)]
pub struct LadderResolution {
    pub choice: LadderChoice,
    pub build: LadderBuildOutcome,
}

/// How the build step of a ladder application executes.
#[derive(Debug, Clone, Copy, PartialEq, Eq, Structural)]
pub enum LadderBuildOutcome {
    /// Exhaustive choice: no ANN index belongs to this substrate state.
    NotNeeded,
    /// The build runs inline, in the caller's own request, with the
    /// returned parameters.
    InlineCompleted,
    /// A background build was claimed;
    /// [`SubstrateIndex::background_build_state`] tracks completion.
    BackgroundStarted,
    /// A background build was already in flight; this call left it alone.
    AlreadyInProgress,
}

/// The sub-vector count used for IVF-PQ: the largest of 16, 8, 4, 2, 1
/// that divides the dimension.
pub open spec fn pq_sub_vectors(dimension: u32) -> u32 {
    if dimension % 16 == 0 {
        16
    } else if dimension % 8 == 0 {
        8
    } else if dimension % 4 == 0 {
        4
    } else if dimension % 2 == 0 {
        2
    } else {
        1
    }
}

/// The build parameters the ladder uses for each choice (none for
/// exhaustive, which never builds).
pub open spec fn default_params_for(dimension: u32, choice: LadderChoice) -> Option<IndexBuildParams> {
    match choice {
        LadderChoice::IvfPq => Some(IndexBuildParams {
            family: IndexFamily::IvfPq,
            num_partitions: 4,
            num_sub_vectors: Some(pq_sub_vectors(dimension)),
            ef_construction: None,
        }),
        LadderChoice::Hnsw => Some(IndexBuildParams {
            family: IndexFamily::IvfHnswFlat,
            num_partitions: 4,
            num_sub_vectors: None,
            ef_construction: Some(64),
        }),
        LadderChoice::Exhaustive => None,
    }
}

/// Deterministic build parameters per ladder choice.
pub fn default_build_params(dimension: u32, choice: LadderChoice) -> (p: Option<IndexBuildParams>)
    ensures
        p == default_params_for(dimension, choice),
        p matches Some(q) ==> build_params_fault(q, dimension) is None,
{
    match choice {
        LadderChoice::IvfPq => {
            // The largest of 16, 8, 4, 2, 1 that divides the dimension.
            let sub: u32 = if dimension % 16 == 0 {
                16
            } else if dimension % 8 == 0 {
                8
            } else if dimension % 4 == 0 {
                4
            } else if dimension % 2 == 0 {
                2
            } else {
                1
            };
            Some(IndexBuildParams {
                family: IndexFamily::IvfPq,
                num_partitions: 4,
                num_sub_vectors: Some(sub),
                ef_construction: None,
            })
        },
        LadderChoice::Hnsw => Some(IndexBuildParams {
            family: IndexFamily::IvfHnswFlat,
            num_partitions: 4,
            num_sub_vectors: None,
            ef_construction: Some(64),
        }),
        LadderChoice::Exhaustive => None,
    }
}


// ---------------------------------------------------------------------------
// Calibration knobs.
// ---------------------------------------------------------------------------

/// The un-calibrated strawman: visit four partitions and keep HNSW's ef at
/// 64 (or top-k, when larger).
pub open spec fn naive_knobs(top_k: u32) -> SubstrateQueryKnobs {
    SubstrateQueryKnobs {
        top_k,
        probes: Some(4),
        ef_search: Some(if top_k > 64 { top_k } else { 64 }),
    }
}

/// The un-calibrated strawman knobs for `top_k`.
pub fn naive_fixed_knobs(top_k: u32) -> (k: SubstrateQueryKnobs)
    ensures
        k == naive_knobs(top_k),
{
    SubstrateQueryKnobs { top_k, probes: Some(4), ef_search: Some(if top_k > 64 { top_k } else { 64 }) }
}

/// The calibration grid for `top_k`: the naive knobs; probes 1 and 2, each
/// with ef at 1, 2 and 4 times max(top-k, 16); and probes 4 with ef at
/// max(4 × top-k, 32).
pub open spec fn grid_for(top_k: u32) -> Seq<SubstrateQueryKnobs> {
    let min_ef = if top_k > 16 { top_k as int } else { 16int };
    let knob = |p: u32, ef: int| SubstrateQueryKnobs { top_k, probes: Some(p), ef_search: Some(ef as u32) };
    seq![
        naive_knobs(top_k),
        knob(1, min_ef),
        knob(1, 2 * min_ef),
        knob(1, 4 * min_ef),
        knob(2, min_ef),
        knob(2, 2 * min_ef),
        knob(2, 4 * min_ef),
        knob(4, if 4 * top_k > 32 { 4 * top_k } else { 32 }),
    ]
}

/// The deterministic candidate grid calibration scores, for a top-k in
/// `1..=1000`. Neighbouring candidates always differ, so removing
/// consecutive duplicates leaves the grid as it is.
pub fn calibration_grid(top_k: u32) -> (r: Result<Vec<SubstrateQueryKnobs>>)
    ensures
        r is Ok <==> 1 <= top_k <= 1000,
        r matches Ok(g) ==> g@ == grid_for(top_k)
            && forall|i: int| 0 <= i < g@.len() - 1 ==> #[trigger] g@[i] != g@[i + 1],
        r matches Err(e) ==> e matches Error::SchemaViolation { reason }
            && reason@ == substrate_top_k_reason(),
{
    if top_k == 0 || top_k > 1000 {
        return Err(Error::SchemaViolation { reason: String::from_str("top_k must be within 1..=1000") });
    }
    let min_ef: u32 = if top_k > 16 { top_k } else { 16 };
    let mut grid: Vec<SubstrateQueryKnobs> = Vec::new();
    grid.push(naive_fixed_knobs(top_k));
    grid.push(SubstrateQueryKnobs { top_k, probes: Some(1), ef_search: Some(min_ef) });
    grid.push(SubstrateQueryKnobs { top_k, probes: Some(1), ef_search: Some(2 * min_ef) });
    grid.push(SubstrateQueryKnobs { top_k, probes: Some(1), ef_search: Some(4 * min_ef) });
    grid.push(SubstrateQueryKnobs { top_k, probes: Some(2), ef_search: Some(min_ef) });
    grid.push(SubstrateQueryKnobs { top_k, probes: Some(2), ef_search: Some(2 * min_ef) });
    grid.push(SubstrateQueryKnobs { top_k, probes: Some(2), ef_search: Some(4 * min_ef) });
    grid.push(SubstrateQueryKnobs {
        top_k,
        probes: Some(4),
        ef_search: Some(if 4 * top_k > 32 { 4 * top_k } else { 32 }),
    });
    assert(grid@ =~= grid_for(top_k));
    Ok(grid)
}

// ---------------------------------------------------------------------------
// The ladder step and the background-build record.
// ---------------------------------------------------------------------------

/// What one ladder application decides for a substrate of `rows` rows whose
/// background build is in `state`: the resolution, the build parameters to
/// run (if any), and the background state afterwards. Exhaustive never
/// builds; below the background threshold the build runs inline; at or
/// beyond it a background build is claimed unless one is in flight.
pub open spec fn ladder_outcome(
    dimension: u32,
    ladder_override: LadderOverride,
    rows: u64,
    state: BackgroundBuildState,
) -> (LadderResolution, Option<IndexBuildParams>, BackgroundBuildState) {
    let choice = resolved(ladder_override, rows);
    let params = default_params_for(dimension, choice);
    match disposition_for(choice, rows) {
        BuildDisposition::NotNeeded => (
            LadderResolution { choice, build: LadderBuildOutcome::NotNeeded },
            None,
            state,
        ),
        BuildDisposition::Inline => (
            LadderResolution { choice, build: LadderBuildOutcome::InlineCompleted },
            params,
            state,
        ),
        BuildDisposition::Background => if state.claimable() {
            (
                LadderResolution { choice, build: LadderBuildOutcome::BackgroundStarted },
                params,
                BackgroundBuildState::InProgress,
            )
        } else {
            (LadderResolution { choice, build: LadderBuildOutcome::AlreadyInProgress }, None, state)
        },
    }
}

/// At or beyond the background threshold the ladder reports a build already
/// in flight exactly when one is; from any other state (a failed build
/// included) it starts a new one.
pub proof fn lemma_background_build_unless_in_flight(
    dimension: u32,
    ladder_override: LadderOverride,
    rows: u64,
    state: BackgroundBuildState,
)
    requires
        disposition_for(resolved(ladder_override, rows), rows) == BuildDisposition::Background,
    ensures
        (ladder_outcome(dimension, ladder_override, rows, state).0.build == LadderBuildOutcome::AlreadyInProgress)
            <==> state == BackgroundBuildState::InProgress,
        state != BackgroundBuildState::InProgress ==> ladder_outcome(dimension, ladder_override, rows, state).0.build
            == LadderBuildOutcome::BackgroundStarted && ladder_outcome(dimension, ladder_override, rows, state).2
            == BackgroundBuildState::InProgress,
{
}

/// One ladder application against a background build in `state`.
pub fn ladder_step(dimension: u32, ladder_override: LadderOverride, rows: u64, state: BackgroundBuildState) -> (r: (
    LadderResolution,
    Option<IndexBuildParams>,
    BackgroundBuildState,
))
    ensures
        r == ladder_outcome(dimension, ladder_override, rows, state),
{
    let choice = resolve_ladder(ladder_override, rows);
    match build_disposition(choice, rows) {
        BuildDisposition::NotNeeded => (LadderResolution { choice, build: LadderBuildOutcome::NotNeeded }, None, state),
        BuildDisposition::Inline => (
            LadderResolution { choice, build: LadderBuildOutcome::InlineCompleted },
            default_build_params(dimension, choice),
            state,
        ),
        BuildDisposition::Background => match state {
            BackgroundBuildState::InProgress => (
                LadderResolution { choice, build: LadderBuildOutcome::AlreadyInProgress },
                None,
                state,
            ),
            _ => (
                LadderResolution { choice, build: LadderBuildOutcome::BackgroundStarted },
                default_build_params(dimension, choice),
                BackgroundBuildState::InProgress,
            ),
        },
    }
}

/// The state of a substrate's background build and the reason the last
/// failed one gave.
#[derive(Debug)]
pub struct BuildRecord {
    state: BackgroundBuildState,
    error: Option<String>,
}

impl Clone for BuildRecord {
    fn clone(&self) -> (c: Self)
        ensures
            c.spec_state() == self.spec_state(),
            c.spec_error() == self.spec_error(),
            self.wf() ==> c.wf(),
    {
        BuildRecord { state: self.state, error: self.error() }
    }
}

impl BuildRecord {
    pub closed spec fn spec_state(&self) -> BackgroundBuildState {
        self.state
    }

    /// The failure reason recorded by the last failed background build.
    pub closed spec fn spec_error(&self) -> Option<Seq<char>> {
        match self.error {
            Some(e) => Some(e@),
            None => None,
        }
    }

    /// A failed build always has its reason recorded.
    pub closed spec fn wf(&self) -> bool {
        self.state == BackgroundBuildState::Failed ==> self.error is Some
    }

    /// The state of the background build.
    pub fn state(&self) -> (s: BackgroundBuildState)
        ensures
            s == self.spec_state(),
    {
        self.state
    }

    /// The failure reason recorded by the last failed background build.
    pub fn error(&self) -> (e: Option<String>)
        ensures
            e is Some <==> self.spec_error() is Some,
            e matches Some(t) ==> self.spec_error() == Some(t@),
    {
        match &self.error {
            Some(t) => Some(t.clone()),
            None => None,
        }
    }

    /// No build triggered yet.
    pub fn idle() -> (r: Self)
        ensures
            r.wf(),
            r.spec_state() == BackgroundBuildState::Idle,
            r.spec_error() is None,
    {
        BuildRecord { state: BackgroundBuildState::Idle, error: None }
    }

    /// Claims the right to run a background build: succeeds whenever no
    /// build is in flight (from `Idle`, `Completed` or `Failed`), never
    /// while one is in progress.
    pub fn claim(&mut self) -> (claimed: bool)
        requires
            old(self).wf(),
        ensures
            final(self).wf(),
            claimed == old(self).spec_state().claimable(),
            final(self).spec_state() == (if claimed {
                BackgroundBuildState::InProgress
            } else {
                old(self).spec_state()
            }),
            final(self).spec_error() == old(self).spec_error(),
    {
        match self.state {
            BackgroundBuildState::InProgress => false,
            _ => {
                self.state = BackgroundBuildState::InProgress;
                true
            },
        }
    }

    /// Records how a background build ended: `Completed`, or `Failed` with
    /// its reason (an earlier reason stays readable after a later success).
    pub fn finish(&mut self, failure: Option<String>)
        requires
            old(self).wf(),
        ensures
            final(self).wf(),
            final(self).spec_state() == (if failure is Some {
                BackgroundBuildState::Failed
            } else {
                BackgroundBuildState::Completed
            }),
            final(self).spec_error() == (match failure {
                Some(t) => Some(t@),
                None => old(self).spec_error(),
            }),
    {
        match failure {
            Some(reason) => {
                self.error = Some(reason);
                self.state = BackgroundBuildState::Failed;
            },
            None => {
                self.state = BackgroundBuildState::Completed;
            },
        }
    }

    /// Applies the ladder to this record (see [`ladder_outcome`]).
    pub fn plan(&mut self, dimension: u32, ladder_override: LadderOverride, rows: u64) -> (r: (
        LadderResolution,
        Option<IndexBuildParams>,
    ))
        requires
            old(self).wf(),
        ensures
            final(self).wf(),
            r.0 == ladder_outcome(dimension, ladder_override, rows, old(self).spec_state()).0,
            r.1 == ladder_outcome(dimension, ladder_override, rows, old(self).spec_state()).1,
            final(self).spec_state() == ladder_outcome(dimension, ladder_override, rows, old(self).spec_state()).2,
            final(self).spec_error() == old(self).spec_error(),
    {
        let (resolution, params, next) = ladder_step(dimension, ladder_override, rows, self.state);
        self.state = next;
        (resolution, params)
    }
}

/// The lock invariant of a shared [`BuildRecord`]: its own well-formedness.
pub struct WellFormedRecord;

impl vstd::rwlock::RwLockPredicate<BuildRecord> for WellFormedRecord {
    closed spec fn inv(self, v: BuildRecord) -> bool {
        v.wf()
    }
}

// ---------------------------------------------------------------------------
// The substrate's policy state.
// ---------------------------------------------------------------------------

/// The policy side of one ANN substrate: its fixed dimension and Metric,
/// its creation-time ladder override, and its background build. Cheap to
/// clone: every clone shares one background-build record, so a build
/// claimed or finished through one handle is seen through all of them.
#[derive(Clone)]
pub struct SubstrateIndex {
    dimension: u32,
    metric: Metric,
    ladder_override: LadderOverride,
    background: std::sync::Arc<vstd::rwlock::RwLock<BuildRecord, WellFormedRecord>>,
}

/// Reason given when a substrate is opened with dimension zero.
pub open spec fn zero_substrate_dimension_reason() -> Seq<char> {
    "substrate dimension must be greater than zero"@
}

impl SubstrateIndex {
    pub closed spec fn spec_dimension(&self) -> u32 {
        self.dimension
    }

    pub closed spec fn spec_metric(&self) -> Metric {
        self.metric
    }

    pub closed spec fn spec_override(&self) -> LadderOverride {
        self.ladder_override
    }

    /// Opens a substrate of `dimension` components with automatic ladder
    /// selection.
    pub fn open(dimension: u32, metric: Metric) -> (r: Result<Self>)
        ensures
            r is Ok <==> dimension > 0,
            r matches Ok(s) ==> s.spec_dimension() == dimension && s.spec_metric() == metric
                && s.spec_override() == LadderOverride::Auto,
            r matches Err(e) ==> e matches Error::SchemaViolation { reason }
                && reason@ == zero_substrate_dimension_reason(),
    {
        Self::open_with_override(dimension, LadderOverride::Auto, metric)
    }

    /// Like [`SubstrateIndex::open`] with a creation-time override that pins
    /// the ladder choice regardless of row count. The background build
    /// starts `Idle` with no recorded failure.
    pub fn open_with_override(dimension: u32, ladder_override: LadderOverride, metric: Metric) -> (r: Result<Self>)
        ensures
            r is Ok <==> dimension > 0,
            r matches Ok(s) ==> s.spec_dimension() == dimension && s.spec_metric() == metric
                && s.spec_override() == ladder_override,
            r matches Err(e) ==> e matches Error::SchemaViolation { reason }
                && reason@ == zero_substrate_dimension_reason(),
    {
        if dimension == 0 {
            return Err(Error::SchemaViolation {
                reason: String::from_str("substrate dimension must be greater than zero"),
            });
        }
        let record = BuildRecord::idle();
        let lock = vstd::rwlock::RwLock::new(record, Ghost(WellFormedRecord));
        Ok(SubstrateIndex { dimension, metric, ladder_override, background: std::sync::Arc::new(lock) })
    }

    /// The fixed vector dimension.
    pub fn dimension(&self) -> (d: u32)
        ensures
            d == self.spec_dimension(),
    {
        self.dimension
    }

    /// The distance function used for scoring.
    pub fn metric(&self) -> (m: Metric)
        ensures
            m == self.spec_metric(),
    {
        self.metric
    }

    /// The override this handle was created with.
    pub fn ladder_override(&self) -> (o: LadderOverride)
        ensures
            o == self.spec_override(),
    {
        self.ladder_override
    }

    /// A copy of the shared background-build record as it stands now; other
    /// handles may change the shared record at any moment, so nothing ties
    /// the copy to an earlier call.
    pub fn background_record(&self) -> (r: BuildRecord)
        ensures
            r.wf(),
    {
        let handle = self.background.acquire_read();
        let record = handle.borrow().clone();
        handle.release_read();
        record
    }

    /// Observability for the background-build path: the shared state as it
    /// stands now.
    pub fn background_build_state(&self) -> (s: BackgroundBuildState) {
        self.background_record().state()
    }

    /// The failure reason recorded by the last failed background build, if
    /// any, as the shared record stands now.
    pub fn background_build_error(&self) -> (e: Option<String>) {
        self.background_record().error()
    }

    /// Runs [`BuildRecord::claim`] on the shared record under its write
    /// lock, reporting the record as it stood when the lock was taken.
    pub fn claim_observed(&self) -> (r: (bool, Ghost<BuildRecord>))
        ensures
            r.1@.wf(),
            r.0 == r.1@.spec_state().claimable(),
    {
        let (mut record, handle) = self.background.acquire_write();
        let ghost before = record;
        let claimed = record.claim();
        handle.release_write(record);
        (claimed, Ghost(before))
    }

    /// Claims the right to run a background build on the shared record:
    /// succeeds whenever no build is in flight, never while one is in
    /// progress (see [`SubstrateIndex::claim_observed`]).
    pub fn try_claim(&self) -> bool {
        self.claim_observed().0
    }

    /// Records on the shared record how a background build ended (see
    /// [`BuildRecord::finish`]).
    pub fn finish_background_build(&self, failure: Option<String>) {
        let (mut record, handle) = self.background.acquire_write();
        record.finish(failure);
        handle.release_write(record);
    }

    /// Applies the ladder under the shared record's write lock (see
    /// [`BuildRecord::plan`]), reporting the background state the decision
    /// was taken against.
    pub fn plan_ladder_observed(&self, rows: u64) -> (r: (
        LadderResolution,
        Option<IndexBuildParams>,
        Ghost<BackgroundBuildState>,
    ))
        ensures
            r.0 == ladder_outcome(self.spec_dimension(), self.spec_override(), rows, r.2@).0,
            r.1 == ladder_outcome(self.spec_dimension(), self.spec_override(), rows, r.2@).1,
    {
        let (mut record, handle) = self.background.acquire_write();
        let ghost before = record.spec_state();
        let (resolution, params) = record.plan(self.dimension, self.ladder_override, rows);
        handle.release_write(record);
        (resolution, params, Ghost(before))
    }

    /// Applies the ladder policy to a substrate of `rows` rows: resolves the
    /// choice against the creation-time override and the row count, and
    /// decides the build. Exhaustive never builds. Below the background
    /// threshold the build runs inline with the returned parameters (and is
    /// `InlineCompleted` once it succeeds). At or beyond it a background
    /// build is claimed and started with the returned parameters, unless one
    /// is already in flight on the shared record.
    pub fn plan_ladder(&self, rows: u64) -> (r: (LadderResolution, Option<IndexBuildParams>))
        ensures
            r.0.choice == resolved(self.spec_override(), rows),
            ({
                let choice = resolved(self.spec_override(), rows);
                let params = default_params_for(self.spec_dimension(), choice);
                match disposition_for(choice, rows) {
                    BuildDisposition::NotNeeded => r.0.build == LadderBuildOutcome::NotNeeded && r.1 is None,
                    BuildDisposition::Inline => r.0.build == LadderBuildOutcome::InlineCompleted && r.1 == params,
                    BuildDisposition::Background => (r.0.build == LadderBuildOutcome::BackgroundStarted
                        && r.1 == params) || (r.0.build == LadderBuildOutcome::AlreadyInProgress && r.1 is None),
                }
            }),
    {
        let (resolution, params, _) = self.plan_ladder_observed(rows);
        (resolution, params)
    }
}

} // verus!
