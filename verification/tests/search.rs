use ferrite_db::errors::Error;
use ferrite_db::search::{
    check_oracle_query, distance_order_key, rank, select_candidates, Predicate, SearchOptions,
};
use ferrite_db::table::{ColumnType, MetadataColumn, MetadataSchema, Metric, TableManager};
use ferrite_db::write_path::{Delta, InsertRecord, Metadata, MetadataValue, WritePath};

fn distance(metric: Metric, query: &[f32], vector: &[f32]) -> f32 {
    match metric {
        Metric::Cosine => {
            let qn = query.iter().map(|v| v * v).sum::<f32>().sqrt();
            let vn = vector.iter().map(|v| v * v).sum::<f32>().sqrt();
            if qn == 0.0 || vn == 0.0 {
                1.0
            } else {
                let dot = query.iter().zip(vector).map(|(a, b)| a * b).sum::<f32>();
                1.0 - dot / (qn * vn)
            }
        }
        Metric::L2 => query.iter().zip(vector).map(|(a, b)| (a - b) * (a - b)).sum(),
        Metric::Dot => -query.iter().zip(vector).map(|(a, b)| a * b).sum::<f32>(),
    }
}

/// Candidate selection, scoring and ranking, as a caller of the library
/// assembles a search: returns (id, distance) pairs, best first.
fn search(
    delta: &Delta,
    query: &[f32],
    predicate: Option<&Predicate>,
    options: SearchOptions,
) -> Result<Vec<(u64, f32)>, Error> {
    let positions = select_candidates(delta, query.len(), predicate)?;
    let metric = delta.table().metric();
    let records = delta.records();
    let mut scored = Vec::new();
    for p in positions {
        let vector: Vec<f32> = records[p].vector().iter().map(|b| f32::from_bits(*b)).collect();
        let d = distance(metric, query, &vector);
        scored.push((distance_order_key(d.to_bits()), records[p].id(), p));
    }
    Ok(rank(scored, options.top_k())
        .into_iter()
        .map(|(_, id, p)| {
            let vector: Vec<f32> = records[p].vector().iter().map(|b| f32::from_bits(*b)).collect();
            (id, distance(metric, query, &vector))
        })
        .collect())
}

fn metadata(entries: Vec<(&str, MetadataValue)>) -> Metadata {
    let mut m = Metadata::new();
    for (k, v) in entries {
        m.insert(k.to_string(), v);
    }
    m
}

fn vector(values: &[f32]) -> Vec<u32> {
    values.iter().map(|v| v.to_bits()).collect()
}

fn path(metric: Metric) -> WritePath {
    let schema = MetadataSchema::new(vec![
        MetadataColumn::new("active".to_string(), ColumnType::Bool),
        MetadataColumn::new("rank".to_string(), ColumnType::I64),
        MetadataColumn::new("label".to_string(), ColumnType::String),
    ])
    .unwrap();
    let table = TableManager::new()
        .create("vectors".to_string(), 3, metric, schema)
        .unwrap();
    let mut path = WritePath::new(table);
    for id in 0..6u64 {
        path.insert(vec![InsertRecord::new(
            id,
            vector(&[id as f32, 0.0, 0.0]),
            metadata(vec![
                ("active", MetadataValue::Bool(id % 2 == 0)),
                ("rank", MetadataValue::I64(id as i64)),
                ("label", MetadataValue::String(format!("v{id}"))),
            ]),
        )])
        .unwrap();
    }
    path
}

#[test]
fn searches_ranked_results_for_all_metrics() {
    for metric in [Metric::Cosine, Metric::L2, Metric::Dot] {
        let path = path(metric);
        let results = search(
            path.delta(),
            &[5.0, 0.0, 0.0],
            None,
            SearchOptions::new().with_top_k(3).unwrap(),
        )
        .unwrap();
        assert_eq!(results.len(), 3);
        assert!(results.windows(2).all(|pair| pair[0].1 <= pair[1].1));
    }
}

#[test]
fn predicate_tree_supports_comparison_membership_and_logic() {
    let path = path(Metric::L2);
    let predicate = Predicate::and(vec![
        Predicate::gte("rank".to_string(), MetadataValue::I64(2)),
        Predicate::or(vec![
            Predicate::eq("active".to_string(), MetadataValue::Bool(true)),
            Predicate::in_values(
                "rank".to_string(),
                vec![MetadataValue::I64(3), MetadataValue::I64(5)],
            ),
        ]),
        Predicate::negate(Predicate::eq("rank".to_string(), MetadataValue::I64(4))),
    ]);
    let results = search(
        path.delta(),
        &[0.0, 0.0, 0.0],
        Some(&predicate),
        SearchOptions::default(),
    )
    .unwrap();
    assert_eq!(results.iter().map(|r| r.0).collect::<Vec<_>>(), vec![2, 3, 5]);
}

#[test]
fn string_columns_are_returned_but_not_filterable() {
    let path = path(Metric::L2);
    let results = search(path.delta(), &[5.0, 0.0, 0.0], None, SearchOptions::default()).unwrap();
    let best = results[0].0;
    let record = path.delta().records().iter().find(|r| r.id() == best).unwrap();
    assert!(matches!(record.metadata().get("label"), Some(MetadataValue::String(_))));

    let predicate = Predicate::eq("label".to_string(), MetadataValue::String("v1".to_string()));
    assert!(matches!(
        search(path.delta(), &[5.0, 0.0, 0.0], Some(&predicate), SearchOptions::default()),
        Err(Error::SchemaViolation { .. })
    ));
}

#[test]
fn rejects_unknown_and_mismatched_predicates() {
    let path = path(Metric::L2);
    let unknown = Predicate::eq("missing".to_string(), MetadataValue::I64(1));
    assert!(matches!(
        search(path.delta(), &[5.0, 0.0, 0.0], Some(&unknown), SearchOptions::default()),
        Err(Error::SchemaViolation { .. })
    ));
    let mismatch = Predicate::eq("rank".to_string(), MetadataValue::Bool(true));
    assert!(matches!(
        search(path.delta(), &[5.0, 0.0, 0.0], Some(&mismatch), SearchOptions::default()),
        Err(Error::SchemaViolation { .. })
    ));
}

#[test]
fn top_k_is_bounded_and_deterministic_for_ties() {
    let path = path(Metric::L2);
    let options = SearchOptions::default().with_top_k(2).unwrap();
    let results = search(path.delta(), &[0.0, 0.0, 0.0], None, options).unwrap();
    assert_eq!(results.len(), 2);
    assert_eq!(results.iter().map(|r| r.0).collect::<Vec<_>>(), vec![0, 1]);
    assert!(SearchOptions::default().with_top_k(0).is_err());
    assert!(SearchOptions::default().with_top_k(1_001).is_err());
}

#[test]
fn validation_messages_are_exact() {
    let path = path(Metric::L2);
    let cases = [
        (Predicate::eq("missing".to_string(), MetadataValue::I64(1)), "unknown column: missing"),
        (Predicate::eq("rank".to_string(), MetadataValue::Bool(true)), "predicate type mismatch for column: rank"),
        (
            Predicate::eq("label".to_string(), MetadataValue::String("x".to_string())),
            "string column is retrievable but not filterable: label",
        ),
        (
            Predicate::lt("active".to_string(), MetadataValue::Bool(true)),
            "ordering predicate is not supported for bool column: active",
        ),
        (
            Predicate::in_values("rank".to_string(), vec![MetadataValue::I64(1), MetadataValue::F64(0)]),
            "predicate type mismatch for column: rank",
        ),
    ];
    for (predicate, reason) in cases {
        match select_candidates(path.delta(), 3, Some(&predicate)) {
            Err(Error::SchemaViolation { reason: r }) => assert_eq!(r, reason),
            other => panic!("expected a schema violation, got {other:?}"),
        }
    }
    match select_candidates(path.delta(), 2, None) {
        Err(Error::DimensionMismatch { expected, actual }) => assert_eq!((expected, actual), (3, 2)),
        other => panic!("expected a dimension mismatch, got {other:?}"),
    }
}

#[test]
fn first_fault_wins_in_a_conjunction() {
    let path = path(Metric::L2);
    let p = Predicate::and(vec![
        Predicate::eq("rank".to_string(), MetadataValue::I64(1)),
        Predicate::eq("nope".to_string(), MetadataValue::I64(1)),
        Predicate::eq("rank".to_string(), MetadataValue::Bool(false)),
    ]);
    match p.validate(path.delta().table().metadata_schema()) {
        Err(Error::SchemaViolation { reason }) => assert_eq!(reason, "unknown column: nope"),
        other => panic!("unexpected {other:?}"),
    }
}

#[test]
fn empty_in_list_matches_nothing() {
    let path = path(Metric::L2);
    let p = Predicate::in_values("rank".to_string(), vec![]);
    assert_eq!(select_candidates(path.delta(), 3, Some(&p)).unwrap(), Vec::<usize>::new());
}

#[test]
fn comparisons_follow_number_order() {
    let md = metadata(vec![
        ("x", MetadataValue::F64((-0.0f64).to_bits())),
        ("n", MetadataValue::F64(f64::NAN.to_bits())),
        ("i", MetadataValue::I64(-3)),
        ("b", MetadataValue::Bool(false)),
    ]);
    assert!(Predicate::eq("x".to_string(), MetadataValue::F64(0.0f64.to_bits())).matches(&md));
    assert!(Predicate::lt("x".to_string(), MetadataValue::F64(1.5f64.to_bits())).matches(&md));
    assert!(Predicate::gt("x".to_string(), MetadataValue::F64((-2.0f64).to_bits())).matches(&md));
    assert!(!Predicate::eq("n".to_string(), MetadataValue::F64(f64::NAN.to_bits())).matches(&md));
    assert!(Predicate::not_eq("n".to_string(), MetadataValue::F64(f64::NAN.to_bits())).matches(&md));
    assert!(!Predicate::lte("n".to_string(), MetadataValue::F64(1.0f64.to_bits())).matches(&md));
    assert!(Predicate::lte("i".to_string(), MetadataValue::I64(-3)).matches(&md));
    assert!(!Predicate::gt("i".to_string(), MetadataValue::I64(-3)).matches(&md));
    assert!(Predicate::gte("i".to_string(), MetadataValue::I64(-4)).matches(&md));
    assert!(Predicate::lt("b".to_string(), MetadataValue::Bool(true)).matches(&md));
    assert!(!Predicate::eq("missing".to_string(), MetadataValue::I64(1)).matches(&md));
    assert!(!Predicate::not_eq("missing".to_string(), MetadataValue::I64(1)).matches(&md));
    assert!(Predicate::negate(Predicate::eq("missing".to_string(), MetadataValue::I64(1))).matches(&md));
    assert!(Predicate::and(vec![]).matches(&md));
    assert!(!Predicate::or(vec![]).matches(&md));
}

#[test]
fn deleted_and_superseded_records_are_not_candidates() {
    let mut path = path(Metric::L2);
    path.delete(&[1, 3, 99]).unwrap();
    path.insert(vec![InsertRecord::new(
        2,
        vector(&[9.0, 0.0, 0.0]),
        metadata(vec![("rank", MetadataValue::I64(7))]),
    )])
    .unwrap();
    let positions = select_candidates(path.delta(), 3, None).unwrap();
    let ids: Vec<u64> = positions.iter().map(|p| path.delta().records()[*p].id()).collect();
    assert_eq!(ids, vec![0, 4, 5, 2]);
    assert!(path.delta().is_tombstoned(1));
    assert!(!path.delta().is_tombstoned(2));
    assert!(!path.delta().is_tombstoned(99));
    assert_eq!(path.delta().tombstoned_id_count(), 2);
    assert_eq!(path.delta().live_count(), 4);
    assert_eq!(path.delta().len(), 7);
}

#[test]
fn ranking_orders_by_key_then_id_and_truncates() {
    let ranked = rank(vec![(5, 9, 0), (3, 4, 1), (5, 2, 2), (1, 7, 3)], 3);
    assert_eq!(ranked, vec![(1, 7, 3), (3, 4, 1), (5, 2, 2)]);
    assert_eq!(rank(vec![], 10), vec![]);
    // Keys follow f32::total_cmp: negatives before positives, -0 before +0.
    let keys: Vec<u32> = [-1.5f32, -0.0, 0.0, 2.0, f32::INFINITY]
        .iter()
        .map(|v| distance_order_key(v.to_bits()))
        .collect();
    assert!(keys.windows(2).all(|w| w[0] < w[1]));
    assert_eq!(distance_order_key(0.0f32.to_bits()), 0x8000_0000);
}

#[test]
fn options_keep_overrides() {
    let o = SearchOptions::new().with_probes(Some(3)).with_ef_search(Some(40));
    assert_eq!((o.top_k(), o.probes(), o.ef_search()), (10, Some(3), Some(40)));
    match SearchOptions::new().with_top_k(0) {
        Err(Error::SchemaViolation { reason }) => assert_eq!(reason, "top_k must be between 1 and 1,000"),
        other => panic!("unexpected {other:?}"),
    }
    assert_eq!(SearchOptions::new().with_top_k(1000).unwrap().top_k(), 1000);
}

#[test]
fn insert_refuses_misfits_atomically() {
    let mut path = path(Metric::L2);
    let before = path.delta().len();
    let r = path.insert(vec![
        InsertRecord::new(10, vector(&[1.0, 2.0, 3.0]), Metadata::new()),
        InsertRecord::new(11, vector(&[1.0, 2.0]), Metadata::new()),
    ]);
    assert!(matches!(r, Err(Error::DimensionMismatch { expected: 3, actual: 2 })));
    assert_eq!(path.delta().len(), before);
    let r = path.insert(vec![InsertRecord::new(
        12,
        vector(&[1.0, 2.0, 3.0]),
        metadata(vec![("rank", MetadataValue::Bool(true))]),
    )]);
    match r {
        Err(Error::SchemaViolation { reason }) => assert_eq!(reason, "metadata type mismatch for column: rank"),
        other => panic!("unexpected {other:?}"),
    }
    let r = path.insert(vec![InsertRecord::new(
        12,
        vector(&[1.0, 2.0, 3.0]),
        metadata(vec![("colour", MetadataValue::I64(1))]),
    )]);
    match r {
        Err(Error::SchemaViolation { reason }) => assert_eq!(reason, "unknown column: colour"),
        other => panic!("unexpected {other:?}"),
    }
    assert_eq!(path.delta().len(), before);
}

/// A small deterministic generator for hostile inputs.
struct Rng(u64);

impl Rng {
    fn next(&mut self) -> u64 {
        self.0 = self.0.wrapping_mul(6364136223846793005).wrapping_add(1442695040888963407);
        self.0 >> 33
    }

    fn below(&mut self, n: u64) -> u64 {
        self.next() % n
    }
}

#[test]
fn public_search_api_does_not_panic_under_random_input() {
    let schema = MetadataSchema::new(vec![
        MetadataColumn::new("active".to_string(), ColumnType::Bool),
        MetadataColumn::new("rank".to_string(), ColumnType::I64),
    ])
    .expect("schema");
    let table = TableManager::new().create("v".to_string(), 4, Metric::L2, schema).expect("create table");
    let mut path = WritePath::new(table);
    for id in 0..16u64 {
        let v = vector(&[id as f32, (id + 1) as f32, (id * 2) as f32, (id * 3) as f32]);
        let md = metadata(vec![
            ("active", MetadataValue::Bool(id % 2 == 0)),
            ("rank", MetadataValue::I64(id as i64)),
        ]);
        path.insert(vec![InsertRecord::new(id, v, md)]).expect("insert");
    }

    let mut rng = Rng(0xCAFE_BABE_1234_5678);
    for _ in 0..2000 {
        let qlen = 1 + rng.below(8) as usize;
        let query: Vec<f32> = (0..qlen).map(|_| (rng.next() as f32) / u32::MAX as f32).collect();
        let predicate = if rng.below(2) == 0 {
            Some(Predicate::gte("rank".to_string(), MetadataValue::I64((rng.below(32) as i64) - 16)))
        } else {
            None
        };
        let top_k = 1 + rng.below(20) as u32;
        let options = SearchOptions::new().with_top_k(top_k).expect("options");
        // No panic: returns Ok or Err (dimension / schema).
        let _ = search(path.delta(), &query, predicate.as_ref(), options);
    }
}

#[test]
fn oracle_query_checks_shape_then_top_k() {
    let mut delta = Delta::new(oracle_table());
    delta.insert(vec![]).unwrap();
    match check_oracle_query(&delta, 3, 5, false) {
        Err(Error::DimensionMismatch { expected: 2, actual: 3 }) => {}
        other => panic!("unexpected {other:?}"),
    }
    match check_oracle_query(&delta, 2, 0, false) {
        Err(Error::SchemaViolation { reason }) => assert_eq!(reason, "top_k must be at least 1"),
        other => panic!("unexpected {other:?}"),
    }
    assert!(check_oracle_query(&delta, 2, 5000, false).is_ok());
    match check_oracle_query(&delta, 2, 1001, true) {
        Err(Error::SchemaViolation { reason }) => assert_eq!(reason, "top_k must be within 1..=1000"),
        other => panic!("unexpected {other:?}"),
    }
    assert!(check_oracle_query(&delta, 2, 1000, true).is_ok());
}

fn oracle_table() -> ferrite_db::table::Table {
    let schema = MetadataSchema::new(vec![MetadataColumn::new("n".to_string(), ColumnType::I64)]).unwrap();
    TableManager::new().create("o".to_string(), 2, Metric::L2, schema).unwrap()
}

#[test]
fn conjunction_selects_the_intersection() {
    let mut delta = Delta::new(oracle_table());
    let records: Vec<InsertRecord> = (0..10u64)
        .map(|id| {
            let mut md = Metadata::new();
            md.insert("n".to_string(), MetadataValue::I64(id as i64));
            InsertRecord::new(id, vec![1.0f32.to_bits(), 0.0f32.to_bits()], md)
        })
        .collect();
    delta.insert(records).unwrap();
    delta.delete(&[4]).unwrap();
    let gt = Predicate::gt("n".to_string(), MetadataValue::I64(2));
    let lt = Predicate::lt("n".to_string(), MetadataValue::I64(7));
    let both = Predicate::and(vec![
        Predicate::gt("n".to_string(), MetadataValue::I64(2)),
        Predicate::lt("n".to_string(), MetadataValue::I64(7)),
    ]);
    let a = select_candidates(&delta, 2, Some(&gt)).unwrap();
    let b = select_candidates(&delta, 2, Some(&lt)).unwrap();
    let c = select_candidates(&delta, 2, Some(&both)).unwrap();
    let expected: Vec<usize> = a.iter().copied().filter(|p| b.contains(p)).collect();
    assert_eq!(c, expected);
    assert_eq!(c, vec![3, 5, 6]);
    let empty = Predicate::and(vec![]);
    assert_eq!(
        select_candidates(&delta, 2, Some(&empty)).unwrap(),
        select_candidates(&delta, 2, None).unwrap()
    );
}
