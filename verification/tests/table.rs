use ferrite_db::errors::Error;
use ferrite_db::table::{ColumnType, MetadataColumn, MetadataSchema, Metric, TableManager};

fn schema() -> MetadataSchema {
    MetadataSchema::new(vec![MetadataColumn::new(
        "active".to_string(),
        ColumnType::Bool,
    )])
    .unwrap()
}

#[test]
fn accepts_all_declared_scalar_types() {
    let schema = MetadataSchema::new(vec![
        MetadataColumn::new("active".to_string(), ColumnType::Bool),
        MetadataColumn::new("count".to_string(), ColumnType::I64),
        MetadataColumn::new("ratio".to_string(), ColumnType::F64),
        MetadataColumn::new("label".to_string(), ColumnType::String),
    ])
    .unwrap();
    assert_eq!(schema.columns().len(), 4);
    assert_eq!(
        schema.column("label").unwrap().column_type(),
        ColumnType::String
    );
}

#[test]
fn rejects_duplicate_and_malformed_declarations() {
    let duplicate = MetadataSchema::new(vec![
        MetadataColumn::new("id".to_string(), ColumnType::I64),
        MetadataColumn::new("id".to_string(), ColumnType::String),
    ])
    .unwrap_err();
    assert!(matches!(duplicate, Error::SchemaViolation { .. }));

    let empty = MetadataSchema::new(vec![MetadataColumn::new(
        "  ".to_string(),
        ColumnType::Bool,
    )])
    .unwrap_err();
    assert!(matches!(empty, Error::SchemaViolation { .. }));
}

#[test]
fn validates_table_name_and_dimension() {
    let mut manager = TableManager::new();
    assert!(matches!(
        manager.create("".to_string(), 3, Metric::Cosine, schema()),
        Err(Error::SchemaViolation { .. })
    ));
    assert!(matches!(
        manager.create("vectors".to_string(), 0, Metric::L2, schema()),
        Err(Error::SchemaViolation { .. })
    ));
}

#[test]
fn duplicate_and_unknown_tables_return_taxonomy_errors() {
    let mut manager = TableManager::new();
    let table = manager
        .create("vectors".to_string(), 3, Metric::Dot, schema())
        .unwrap();
    assert_eq!(table.dimension(), 3);
    assert_eq!(table.metric(), Metric::Dot);

    assert!(matches!(
        manager.create("vectors".to_string(), 3, Metric::Dot, schema()),
        Err(Error::SchemaViolation { .. })
    ));
    assert!(matches!(
        manager.open("missing"),
        Err(Error::TableNotFound { .. })
    ));
    assert!(matches!(
        manager.drop("missing"),
        Err(Error::TableNotFound { .. })
    ));
}

#[test]
fn accepts_each_metric_at_creation() {
    let mut manager = TableManager::new();
    for (name, metric) in [
        ("cosine", Metric::Cosine),
        ("l2", Metric::L2),
        ("dot", Metric::Dot),
    ] {
        assert_eq!(
            manager
                .create(name.to_string(), 3, metric, MetadataSchema::default())
                .unwrap()
                .metric(),
            metric
        );
    }
}

#[test]
fn open_and_drop_manage_the_same_table_name() {
    let mut manager = TableManager::new();
    manager
        .create(
            "vectors".to_string(),
            3,
            Metric::Cosine,
            MetadataSchema::default(),
        )
        .unwrap();
    let opened = manager.open("vectors").unwrap();
    assert_eq!(opened.name(), "vectors");
    manager.drop("vectors").unwrap();
    assert!(matches!(
        manager.open("vectors"),
        Err(Error::TableNotFound { .. })
    ));
}

#[test]
fn schema_violation_reasons_name_the_offence() {
    let e = MetadataSchema::new(vec![
        MetadataColumn::new("id".to_string(), ColumnType::I64),
        MetadataColumn::new("id".to_string(), ColumnType::String),
    ])
    .unwrap_err();
    assert_eq!(e.to_string(), "schema violation: duplicate column: id");
    let e = MetadataSchema::new(vec![MetadataColumn::new("a\0b".to_string(), ColumnType::Bool)]).unwrap_err();
    assert_eq!(
        e.to_string(),
        "schema violation: column names must be non-empty and contain no NUL bytes"
    );
    let s = schema();
    let e = s.column("nope").unwrap_err();
    assert_eq!(e.to_string(), "schema violation: unknown column: nope");
    let mut manager = TableManager::new();
    manager.create("t".to_string(), 2, Metric::L2, schema()).unwrap();
    let e = manager.create("t".to_string(), 2, Metric::L2, schema()).unwrap_err();
    assert_eq!(e.to_string(), "schema violation: duplicate table: t");
    let e = manager.create("\u{2003}\t".to_string(), 2, Metric::L2, schema()).unwrap_err();
    assert_eq!(
        e.to_string(),
        "schema violation: table names must be non-empty and contain no NUL bytes"
    );
    let e = manager.create("u".to_string(), 0, Metric::L2, schema()).unwrap_err();
    assert_eq!(
        e.to_string(),
        "schema violation: table dimension must be greater than zero"
    );
    // A manager keeps the first registration intact after a refused duplicate.
    assert_eq!(manager.open("t").unwrap().dimension(), 2);
}
