use ferrite_db::errors::Error;
use ferrite_db::index_substrate::{
    build_disposition, calibration_grid, check_query, check_write, default_build_params, ladder_choice,
    naive_fixed_knobs, resolve_ladder, BackgroundBuildState, BuildDisposition, IndexBuildParams, IndexFamily,
    ladder_step, LadderBuildOutcome, LadderChoice, LadderOverride, SubstrateIndex, SubstrateQueryKnobs,
    BACKGROUND_BUILD_MIN_ROWS, LADDER_EXHAUSTIVE_MAX_ROWS, LADDER_HNSW_MAX_ROWS,
};
use ferrite_db::table::Metric;

#[test]
fn ladder_matches_ratified_thresholds_at_boundaries() {
    let cases: [(u64, LadderChoice); 9] = [
        (0, LadderChoice::Exhaustive),
        (1, LadderChoice::Exhaustive),
        (LADDER_EXHAUSTIVE_MAX_ROWS - 2, LadderChoice::Exhaustive),
        (LADDER_EXHAUSTIVE_MAX_ROWS - 1, LadderChoice::Exhaustive), // 9_999
        (LADDER_EXHAUSTIVE_MAX_ROWS, LadderChoice::Hnsw),           // 10_000
        (LADDER_EXHAUSTIVE_MAX_ROWS + 1, LadderChoice::Hnsw),
        (LADDER_HNSW_MAX_ROWS - 2, LadderChoice::Hnsw),
        (LADDER_HNSW_MAX_ROWS - 1, LadderChoice::Hnsw), // 999_999
        (LADDER_HNSW_MAX_ROWS, LadderChoice::IvfPq),    // 1_000_000
    ];
    for (rows, expected) in cases {
        assert_eq!(ladder_choice(rows), expected, "wrong choice at {rows} rows");
    }
    assert_eq!(ladder_choice(u64::MAX), LadderChoice::IvfPq);
}

#[test]
fn creation_time_override_wins_over_row_count() {
    let forced = [
        (LadderChoice::Exhaustive, 5_000_000u64),
        (LadderChoice::Exhaustive, 0),
        (LadderChoice::IvfPq, 10),
        (LadderChoice::Hnsw, LADDER_HNSW_MAX_ROWS),
    ];
    for (choice, rows) in forced {
        assert_eq!(
            resolve_ladder(LadderOverride::Force(choice), rows),
            choice,
            "override not respected at {rows} rows"
        );
    }
    // Auto passes the row count through untouched.
    assert_eq!(resolve_ladder(LadderOverride::Auto, 5), LadderChoice::Exhaustive);
    assert_eq!(resolve_ladder(LadderOverride::Auto, 50_000), LadderChoice::Hnsw);
    assert_eq!(resolve_ladder(LadderOverride::Auto, 5_000_000), LadderChoice::IvfPq);
    assert_eq!(LadderOverride::default(), LadderOverride::Auto);
}

#[test]
fn disposition_switches_at_background_threshold() {
    let non_exhaustive = [LadderChoice::Hnsw, LadderChoice::IvfPq];
    for choice in non_exhaustive {
        assert_eq!(
            build_disposition(choice, BACKGROUND_BUILD_MIN_ROWS - 1),
            BuildDisposition::Inline
        );
        assert_eq!(
            build_disposition(choice, BACKGROUND_BUILD_MIN_ROWS),
            BuildDisposition::Background
        );
    }
    assert_eq!(
        build_disposition(LadderChoice::Exhaustive, u64::MAX),
        BuildDisposition::NotNeeded
    );
}

#[test]
fn open_rejects_zero_dimension() {
    match SubstrateIndex::open(0, Metric::Cosine) {
        Err(Error::SchemaViolation { reason }) => assert_eq!(reason, "substrate dimension must be greater than zero"),
        Err(other) => panic!("unexpected {other:?}"),
        Ok(_) => panic!("a zero dimension must be refused"),
    }
    let index = SubstrateIndex::open(16, Metric::L2).unwrap();
    assert_eq!(index.ladder_override(), LadderOverride::Auto);
    assert_eq!(index.background_build_state(), BackgroundBuildState::Idle);
    assert_eq!(index.background_build_error(), None);
}

#[test]
fn write_rejects_mismatched_payload() {
    assert!(check_write(0, 5, 16).is_ok());
    assert!(check_write(2, 32, 16).is_ok());
    assert!(matches!(
        check_write(2, 31, 16),
        Err(Error::DimensionMismatch { expected: 16, actual: 16 })
    ));
    assert!(matches!(
        check_write(3, 10, 16),
        Err(Error::DimensionMismatch { expected: 16, actual: 4 })
    ));
}

#[test]
fn query_rejects_wrong_dimension_and_bad_top_k() {
    let knobs = SubstrateQueryKnobs { top_k: 10, probes: None, ef_search: None };
    assert!(check_query(&knobs, 16, 16).is_ok());
    assert!(matches!(
        check_query(&knobs, 15, 16),
        Err(Error::DimensionMismatch { expected: 16, actual: 15 })
    ));
    let bad = SubstrateQueryKnobs { top_k: 0, probes: None, ef_search: None };
    match check_query(&bad, 16, 16) {
        Err(Error::SchemaViolation { reason }) => assert_eq!(reason, "top_k must be within 1..=1000"),
        other => panic!("unexpected {other:?}"),
    }
    let low_ef = SubstrateQueryKnobs { top_k: 10, probes: Some(1), ef_search: Some(9) };
    match check_query(&low_ef, 16, 16) {
        Err(Error::SchemaViolation { reason }) => assert_eq!(reason, "ef_search 9 must be at least top_k 10"),
        other => panic!("unexpected {other:?}"),
    }
}

#[test]
fn build_rejects_invalid_params() {
    let zero_parts = IndexBuildParams {
        family: IndexFamily::IvfPq,
        num_partitions: 0,
        num_sub_vectors: Some(4),
        ef_construction: None,
    };
    match zero_parts.validate(16) {
        Err(Error::SchemaViolation { reason }) => assert_eq!(reason, "num_partitions must be at least 1"),
        other => panic!("unexpected {other:?}"),
    }
    let no_sub = IndexBuildParams { num_partitions: 2, num_sub_vectors: None, ..zero_parts };
    match no_sub.validate(16) {
        Err(Error::SchemaViolation { reason }) => assert_eq!(reason, "IvfPq requires num_sub_vectors"),
        other => panic!("unexpected {other:?}"),
    }
    let bad_sub = IndexBuildParams { num_partitions: 2, num_sub_vectors: Some(5), ..zero_parts };
    match bad_sub.validate(16) {
        Err(Error::SchemaViolation { reason }) => assert_eq!(reason, "num_sub_vectors 5 must divide dimension 16"),
        other => panic!("unexpected {other:?}"),
    }
    let hnsw_with_sub = IndexBuildParams {
        family: IndexFamily::IvfHnswFlat,
        num_partitions: 2,
        num_sub_vectors: Some(4),
        ef_construction: Some(64),
    };
    match hnsw_with_sub.validate(16) {
        Err(Error::SchemaViolation { reason }) => assert_eq!(reason, "num_sub_vectors applies only to IvfPq"),
        other => panic!("unexpected {other:?}"),
    }
    assert!(IndexBuildParams { num_sub_vectors: None, ..hnsw_with_sub }.validate(16).is_ok());
}

#[test]
fn default_params_are_valid_for_every_dimension() {
    for dimension in [1u32, 2, 3, 12, 16, 24, 512] {
        let p = default_build_params(dimension, LadderChoice::IvfPq).unwrap();
        assert!(p.validate(dimension).is_ok());
        assert_eq!(dimension % p.num_sub_vectors.unwrap(), 0);
    }
    assert_eq!(default_build_params(24, LadderChoice::IvfPq).unwrap().num_sub_vectors, Some(8));
    assert_eq!(default_build_params(16, LadderChoice::Hnsw).unwrap().ef_construction, Some(64));
    assert!(default_build_params(16, LadderChoice::Exhaustive).is_none());
}

#[test]
fn ladder_plan_claims_background_builds_once() {
    let index = SubstrateIndex::open(16, Metric::Cosine).unwrap();
    let (small, params) = index.plan_ladder(512);
    assert_eq!(small.choice, LadderChoice::Exhaustive);
    assert_eq!(small.build, LadderBuildOutcome::NotNeeded);
    assert!(params.is_none());

    let (mid, params) = index.plan_ladder(20_000);
    assert_eq!(mid.choice, LadderChoice::Hnsw);
    assert_eq!(mid.build, LadderBuildOutcome::InlineCompleted);
    assert_eq!(params.unwrap().family, IndexFamily::IvfHnswFlat);

    let (big, params) = index.plan_ladder(60_000);
    assert_eq!(big.build, LadderBuildOutcome::BackgroundStarted);
    assert!(params.is_some());
    assert_eq!(index.background_build_state(), BackgroundBuildState::InProgress);

    let (again, params) = index.plan_ladder(60_000);
    assert_eq!(again.build, LadderBuildOutcome::AlreadyInProgress);
    assert!(params.is_none());

    index.finish_background_build(Some("disk full".to_string()));
    assert_eq!(index.background_build_state(), BackgroundBuildState::Failed);
    assert_eq!(index.background_build_error(), Some("disk full".to_string()));
    // A failed build can be retried: nothing is in flight.
    let (retry, params) = index.plan_ladder(60_000);
    assert_eq!(retry.build, LadderBuildOutcome::BackgroundStarted);
    assert!(params.is_some());
    assert_eq!(index.background_build_state(), BackgroundBuildState::InProgress);
    assert!(!index.try_claim());

    let forced =
        SubstrateIndex::open_with_override(16, LadderOverride::Force(LadderChoice::IvfPq), Metric::Dot).unwrap();
    let (r, _) = forced.plan_ladder(10);
    assert_eq!(r.choice, LadderChoice::IvfPq);
    assert_eq!(r.build, LadderBuildOutcome::InlineCompleted);
    assert!(forced.try_claim());
    forced.finish_background_build(None);
    assert_eq!(forced.background_build_state(), BackgroundBuildState::Completed);
    assert!(forced.try_claim());
}

#[test]
fn state_codes_round_trip() {
    for s in [
        BackgroundBuildState::Idle,
        BackgroundBuildState::InProgress,
        BackgroundBuildState::Completed,
        BackgroundBuildState::Failed,
    ] {
        assert_eq!(BackgroundBuildState::from_u8(s.to_u8()), s);
    }
    assert_eq!(BackgroundBuildState::from_u8(200), BackgroundBuildState::Idle);
}

#[test]
fn calibration_grid_includes_the_naive_knobs() {
    let grid = calibration_grid(10).unwrap();
    assert_eq!(grid.len(), 8);
    assert_eq!(grid[0], naive_fixed_knobs(10));
    assert_eq!(naive_fixed_knobs(10).ef_search, Some(64));
    assert_eq!(naive_fixed_knobs(100).ef_search, Some(100));
    assert_eq!(grid[1], SubstrateQueryKnobs { top_k: 10, probes: Some(1), ef_search: Some(16) });
    assert_eq!(grid[6], SubstrateQueryKnobs { top_k: 10, probes: Some(2), ef_search: Some(64) });
    assert_eq!(grid[7], SubstrateQueryKnobs { top_k: 10, probes: Some(4), ef_search: Some(40) });
    assert!(grid.windows(2).all(|w| w[0] != w[1]));
    assert!(grid.iter().all(|k| k.ef_search.unwrap() >= k.top_k));
    assert!(calibration_grid(0).is_err());
    assert!(calibration_grid(1001).is_err());
}

#[test]
fn clones_share_background_build_state() {
    let index = SubstrateIndex::open(16, Metric::Cosine).unwrap();
    let other = index.clone();
    assert_eq!(other.background_build_state(), BackgroundBuildState::Idle);
    assert_eq!(other.background_build_error(), None);

    let (started, params) = index.plan_ladder(60_000);
    assert_eq!(started.build, LadderBuildOutcome::BackgroundStarted);
    assert!(params.is_some());
    assert_eq!(other.background_build_state(), BackgroundBuildState::InProgress);

    // The clone sees the build in flight and leaves it alone.
    let (again, params) = other.plan_ladder(60_000);
    assert_eq!(again.build, LadderBuildOutcome::AlreadyInProgress);
    assert!(params.is_none());

    other.finish_background_build(Some("out of memory".to_string()));
    assert_eq!(index.background_build_state(), BackgroundBuildState::Failed);
    assert_eq!(index.background_build_error(), Some("out of memory".to_string()));

    index.finish_background_build(None);
    assert_eq!(other.background_build_state(), BackgroundBuildState::Completed);
    assert_eq!(other.background_build_error(), Some("out of memory".to_string()));
}

#[test]
fn ladder_step_retries_after_failure() {
    let (r, params, next) = ladder_step(16, LadderOverride::Auto, 60_000, BackgroundBuildState::Failed);
    assert_eq!(r.build, LadderBuildOutcome::BackgroundStarted);
    assert_eq!(params.unwrap().family, IndexFamily::IvfHnswFlat);
    assert_eq!(next, BackgroundBuildState::InProgress);
    let (r, params, next) = ladder_step(16, LadderOverride::Auto, 60_000, BackgroundBuildState::InProgress);
    assert_eq!(r.build, LadderBuildOutcome::AlreadyInProgress);
    assert!(params.is_none());
    assert_eq!(next, BackgroundBuildState::InProgress);
}
