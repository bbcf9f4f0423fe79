use ferrite_db::errors::Error;
use ferrite_db::search::{distance_order_key, rank, select_candidates};
use ferrite_db::session::{metric_name, parse_column_type, parse_metadata_value, parse_metric, FerriteDb};
use ferrite_db::table::{ColumnType, Metric};
use ferrite_db::write_path::{Delta, MetadataValue};

fn l2(query: &[f32], vector: &[f32]) -> f32 {
    query.iter().zip(vector).map(|(a, b)| (a - b) * (a - b)).sum()
}

fn bits(values: &[f32]) -> Vec<u32> {
    values.iter().map(|v| v.to_bits()).collect()
}

/// Exhaustive engine search over a Delta with an l2 scorer: (id, distance), best first.
fn engine_search(delta: &Delta, query: &[f32], top_k: u32) -> Vec<(u64, f32)> {
    let positions = select_candidates(delta, query.len(), None).unwrap();
    let records = delta.records();
    let mut scored = Vec::new();
    for p in positions {
        let v: Vec<f32> = records[p].vector().iter().map(|b| f32::from_bits(*b)).collect();
        scored.push((distance_order_key(l2(query, &v).to_bits()), records[p].id(), p));
    }
    rank(scored, top_k)
        .into_iter()
        .map(|(_, id, p)| {
            let v: Vec<f32> = records[p].vector().iter().map(|b| f32::from_bits(*b)).collect();
            (id, l2(query, &v))
        })
        .collect()
}

/// Independent brute-force oracle over every record.
fn exact_search(delta: &Delta, query: &[f32], top_k: usize) -> Vec<(u64, f32)> {
    let mut scored: Vec<(f32, u64)> = delta
        .records()
        .iter()
        .map(|r| {
            let v: Vec<f32> = r.vector().iter().map(|b| f32::from_bits(*b)).collect();
            (l2(query, &v), r.id())
        })
        .collect();
    scored.sort_by(|a, b| a.0.total_cmp(&b.0).then_with(|| a.1.cmp(&b.1)));
    scored.into_iter().take(top_k).map(|(d, id)| (id, d)).collect()
}

#[test]
fn end_to_end_in_memory_table() {
    let mut db = FerriteDb::new();
    db.create_table("vectors", 2, "l2").unwrap();

    let ids = vec![0u64, 1, 2, 3];
    let vectors = bits(&[
        0.0, 0.0, // id 0 at origin
        1.0, 0.0, // id 1
        0.0, 1.0, // id 2
        10.0, 10.0, // id 3 far away
    ]);
    let inserted = db.insert_records("vectors", ids, vectors).unwrap();
    assert_eq!(inserted, 4);

    let delta = db.table_delta("vectors").unwrap();
    let hits = engine_search(delta, &[0.1, 0.1], 2);
    assert_eq!(hits.len(), 2);
    assert_eq!(hits[0].0, 0);

    let exact = exact_search(delta, &[0.1, 0.1], 2);
    assert_eq!(exact.len(), 2);
    assert_eq!(exact[0].0, hits[0].0);
    assert!((exact[0].1 - hits[0].1).abs() < 1e-6);

    let status = db.status();
    assert_eq!(status.table_count, 1);
    assert_eq!(status.vector_count, 4);
    let table = db.table_status("vectors").unwrap();
    assert_eq!(table.name(), "vectors");
    assert_eq!(table.dimension(), 2);
    assert_eq!(table.metric(), "l2");
    assert_eq!(table.vectors(), 4);
}

#[test]
fn metric_and_column_type_names_ignore_ascii_case() {
    assert_eq!(parse_metric("COSINE").unwrap(), Metric::Cosine);
    assert_eq!(parse_metric("L2").unwrap(), Metric::L2);
    assert_eq!(parse_metric("dot").unwrap(), Metric::Dot);
    match parse_metric("Manhattan") {
        Err(Error::SchemaViolation { reason }) => {
            assert_eq!(reason, "unknown metric 'manhattan'; expected cosine, l2, or dot")
        }
        other => panic!("unexpected {other:?}"),
    }
    assert_eq!(metric_name(Metric::Cosine), "cosine");
    assert_eq!(metric_name(Metric::L2), "l2");
    assert_eq!(metric_name(Metric::Dot), "dot");
    assert_eq!(parse_column_type("Bool").unwrap(), ColumnType::Bool);
    assert_eq!(parse_column_type("I64").unwrap(), ColumnType::I64);
    assert_eq!(parse_column_type("f64").unwrap(), ColumnType::F64);
    assert_eq!(parse_column_type("STRING").unwrap(), ColumnType::String);
    match parse_column_type("Date") {
        Err(Error::SchemaViolation { reason }) => {
            assert_eq!(reason, "unknown column type 'date'; expected bool, i64, f64, or string")
        }
        other => panic!("unexpected {other:?}"),
    }
}

fn f64_outcome(raw: &str) -> Option<u64> {
    raw.trim().parse::<f64>().ok().map(f64::to_bits)
}

#[test]
fn metadata_literals_are_trimmed_and_typed() {
    let v = |t: ColumnType, raw: &str| parse_metadata_value(&t, raw, f64_outcome(raw));
    assert_eq!(v(ColumnType::Bool, "  TRUE ").unwrap(), MetadataValue::Bool(true));
    assert_eq!(v(ColumnType::Bool, "false").unwrap(), MetadataValue::Bool(false));
    assert_eq!(v(ColumnType::I64, " -42\t").unwrap(), MetadataValue::I64(-42));
    assert_eq!(v(ColumnType::I64, "+7").unwrap(), MetadataValue::I64(7));
    assert_eq!(
        v(ColumnType::I64, "-9223372036854775808").unwrap(),
        MetadataValue::I64(i64::MIN)
    );
    assert_eq!(v(ColumnType::F64, " 2.5 ").unwrap(), MetadataValue::F64(2.5f64.to_bits()));
    assert_eq!(v(ColumnType::String, "  hello world ").unwrap(), MetadataValue::String("hello world".to_string()));
    match v(ColumnType::Bool, " Yes ") {
        Err(Error::SchemaViolation { reason }) => {
            assert_eq!(reason, "metadata bool column expects true/false, got 'yes'")
        }
        other => panic!("unexpected {other:?}"),
    }
    match v(ColumnType::I64, "9223372036854775808") {
        Err(Error::SchemaViolation { reason }) => {
            assert_eq!(reason, "metadata i64 column expects an integer, got '9223372036854775808'")
        }
        other => panic!("unexpected {other:?}"),
    }
    match v(ColumnType::I64, "1_000") {
        Err(Error::SchemaViolation { .. }) => {}
        other => panic!("unexpected {other:?}"),
    }
    match v(ColumnType::F64, " abc ") {
        Err(Error::SchemaViolation { reason }) => {
            assert_eq!(reason, "metadata f64 column expects a number, got 'abc'")
        }
        other => panic!("unexpected {other:?}"),
    }
}

#[test]
fn session_tables_are_listed_in_creation_order_and_refuse_duplicates() {
    let mut db = FerriteDb::new();
    db.create_table("b", 3, "cosine").unwrap();
    db.create_table_schema("a", 2, "dot", vec!["x".to_string()], vec!["i64".to_string()])
        .unwrap();
    assert_eq!(db.list_tables(), vec!["b".to_string(), "a".to_string()]);
    match db.create_table("a", 2, "l2") {
        Err(Error::SchemaViolation { reason }) => assert_eq!(reason, "duplicate table: a"),
        other => panic!("unexpected {other:?}"),
    }
    match db.create_table("c", 0, "l2") {
        Err(Error::SchemaViolation { .. }) => {}
        other => panic!("unexpected {other:?}"),
    }
    match db.create_table("c", 2, "hamming") {
        Err(Error::SchemaViolation { reason }) => {
            assert_eq!(reason, "unknown metric 'hamming'; expected cosine, l2, or dot")
        }
        other => panic!("unexpected {other:?}"),
    }
    match db.create_table_schema(
        "c",
        2,
        "l2",
        vec!["x".to_string(), "x".to_string()],
        vec!["i64".to_string(), "bool".to_string()],
    ) {
        Err(Error::SchemaViolation { reason }) => assert_eq!(reason, "duplicate column: x"),
        other => panic!("unexpected {other:?}"),
    }
    match db.create_table_schema("c", 2, "l2", vec!["x".to_string()], vec!["uuid".to_string()]) {
        Err(Error::SchemaViolation { reason }) => {
            assert_eq!(reason, "unknown column type 'uuid'; expected bool, i64, f64, or string")
        }
        other => panic!("unexpected {other:?}"),
    }
    assert_eq!(db.list_tables().len(), 2);
    assert_eq!(db.status().table_count, 2);
}

#[test]
fn unknown_tables_are_reported_by_name() {
    let mut db = FerriteDb::new();
    match db.insert_records("ghost", vec![1], bits(&[1.0])) {
        Err(Error::TableNotFound { name }) => assert_eq!(name, "ghost"),
        other => panic!("unexpected {other:?}"),
    }
    match db.delete_records("ghost", vec![1]) {
        Err(Error::TableNotFound { name }) => assert_eq!(name, "ghost"),
        other => panic!("unexpected {other:?}"),
    }
    assert!(matches!(db.table_status("ghost"), Err(Error::TableNotFound { .. })));
    assert!(matches!(db.export_lifecycle("ghost"), Err(Error::TableNotFound { .. })));
}

#[test]
fn insert_checks_the_flat_vector_array_shape() {
    let mut db = FerriteDb::new();
    db.create_table("t", 3, "l2").unwrap();
    match db.insert_records("t", vec![1, 2], bits(&[1.0, 2.0, 3.0, 4.0, 5.0])) {
        Err(Error::DimensionMismatch { expected, actual }) => {
            assert_eq!(expected, 3);
            assert_eq!(actual, 2);
        }
        other => panic!("unexpected {other:?}"),
    }
    match db.insert_records("t", vec![], bits(&[1.0])) {
        Err(Error::DimensionMismatch { expected, actual }) => {
            assert_eq!(expected, 3);
            assert_eq!(actual, 1);
        }
        other => panic!("unexpected {other:?}"),
    }
    assert_eq!(db.insert_records("t", vec![], vec![]).unwrap(), 0);
    assert_eq!(db.status().vector_count, 0);
}

#[test]
fn insert_with_metadata_types_every_literal() {
    let mut db = FerriteDb::new();
    db.create_table_schema(
        "t",
        2,
        "l2",
        vec!["active".to_string(), "rank".to_string(), "label".to_string()],
        vec!["bool".to_string(), "i64".to_string(), "string".to_string()],
    )
    .unwrap();
    let values: Vec<String> = ["true", "3", " a ", "false", "-1", "b"].iter().map(|s| s.to_string()).collect();
    let outcomes: Vec<Option<u64>> = values.iter().map(|v| f64_outcome(v)).collect();
    let n = db
        .insert_with_metadata(
            "t",
            vec![10, 11],
            bits(&[0.0, 0.0, 1.0, 1.0]),
            vec!["active".to_string(), "rank".to_string(), "label".to_string()],
            vec!["bool".to_string(), "i64".to_string(), "string".to_string()],
            values,
            outcomes,
        )
        .unwrap();
    assert_eq!(n, 2);
    let delta = db.table_delta("t").unwrap();
    let first = delta.records()[0].metadata();
    assert_eq!(first.get("active"), Some(&MetadataValue::Bool(true)));
    assert_eq!(first.get("rank"), Some(&MetadataValue::I64(3)));
    assert_eq!(first.get("label"), Some(&MetadataValue::String("a".to_string())));
    let second = delta.records()[1].metadata();
    assert_eq!(second.get("rank"), Some(&MetadataValue::I64(-1)));

    // Wrong literal count.
    let values: Vec<String> = vec!["true".to_string()];
    match db.insert_with_metadata(
        "t",
        vec![12, 13],
        bits(&[0.0, 0.0, 1.0, 1.0]),
        vec!["active".to_string()],
        vec!["bool".to_string()],
        values,
        vec![None],
    ) {
        Err(Error::SchemaViolation { reason }) => {
            assert_eq!(reason, "metadata value count 1 does not match 2 records x 1 columns")
        }
        other => panic!("unexpected {other:?}"),
    }
    // First refused literal, record-major.
    let values: Vec<String> = ["true", "x", "maybe", "y"].iter().map(|s| s.to_string()).collect();
    let outcomes: Vec<Option<u64>> = values.iter().map(|v| f64_outcome(v)).collect();
    match db.insert_with_metadata(
        "t",
        vec![12, 13],
        bits(&[0.0, 0.0, 1.0, 1.0]),
        vec!["active".to_string(), "label".to_string()],
        vec!["bool".to_string(), "string".to_string()],
        values,
        outcomes,
    ) {
        Err(Error::SchemaViolation { reason }) => {
            assert_eq!(reason, "metadata bool column expects true/false, got 'maybe'")
        }
        other => panic!("unexpected {other:?}"),
    }
    // A column the Table does not declare is refused by the write path.
    let values: Vec<String> = vec!["1".to_string()];
    match db.insert_with_metadata(
        "t",
        vec![12],
        bits(&[0.0, 0.0]),
        vec!["missing".to_string()],
        vec!["i64".to_string()],
        values,
        vec![Some(1.0f64.to_bits())],
    ) {
        Err(Error::SchemaViolation { reason }) => assert_eq!(reason, "unknown column: missing"),
        other => panic!("unexpected {other:?}"),
    }
    assert_eq!(db.status().vector_count, 2);
}

#[test]
fn deletes_and_lifecycle_layout() {
    let mut db = FerriteDb::new();
    db.create_table("t", 1, "l2").unwrap();
    let rows = 4096 + 10;
    let ids: Vec<u64> = (0..rows as u64).collect();
    let vectors: Vec<u32> = (0..rows).map(|i| (i as f32).to_bits()).collect();
    assert_eq!(db.insert_records("t", ids, vectors).unwrap(), rows as u32);
    // Tombstone two sealed rows, one active row, and an unknown id.
    assert_eq!(db.delete_records("t", vec![3, 4000, 4100, 99_999]).unwrap(), rows as u32);
    let x = db.export_lifecycle("t").unwrap();
    assert_eq!(x.sealed_counts(), vec![4096]);
    assert_eq!(x.sealed_dead(), vec![2]);
    assert_eq!(x.active_total(), 10);
    assert_eq!(x.active_dead(), 1);
    assert_eq!(x.tombstoned_ids(), 3);
    assert_eq!(x.total_rows(), rows as u32);
    assert_eq!(x.sealed_counts().iter().sum::<u32>() + x.active_total(), x.total_rows());
    // Re-inserting a deleted id lifts its Tombstone.
    assert_eq!(db.insert_records("t", vec![3], bits(&[3.0])).unwrap(), rows as u32 + 1);
    let x = db.export_lifecycle("t").unwrap();
    assert_eq!(x.sealed_dead(), vec![1]);
    assert_eq!(x.tombstoned_ids(), 2);
}
