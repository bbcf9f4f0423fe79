use ferrite_db::errors::Error;
use ferrite_db::json_predicate::{parse_predicate_json, JsonNode, JsonValue};
use ferrite_db::search::Predicate;
use ferrite_db::table::{ColumnType, MetadataColumn, MetadataSchema};
use ferrite_db::write_path::MetadataValue;

fn schema() -> MetadataSchema {
    MetadataSchema::new(vec![
        MetadataColumn::new("active".to_string(), ColumnType::Bool),
        MetadataColumn::new("rank".to_string(), ColumnType::I64),
        MetadataColumn::new("score".to_string(), ColumnType::F64),
        MetadataColumn::new("label".to_string(), ColumnType::String),
    ])
    .unwrap()
}

fn node(node: JsonNode, text: &str) -> JsonValue {
    JsonValue { node, text: text.to_string() }
}

fn s(v: &str) -> JsonValue {
    node(JsonNode::Str(v.to_string()), &format!("\"{v}\""))
}

fn integer(v: i64) -> JsonValue {
    node(JsonNode::Number { as_i64: Some(v), as_f64_bits: Some((v as f64).to_bits()) }, &v.to_string())
}

fn float(v: f64) -> JsonValue {
    node(JsonNode::Number { as_i64: None, as_f64_bits: Some(v.to_bits()) }, &v.to_string())
}

fn boolean(v: bool) -> JsonValue {
    node(JsonNode::Bool(v), if v { "true" } else { "false" })
}

fn obj(members: Vec<(&str, JsonValue)>) -> JsonValue {
    node(
        JsonNode::Object(members.into_iter().map(|(k, v)| (k.to_string(), v)).collect()),
        "{...}",
    )
}

fn arr(items: Vec<JsonValue>) -> JsonValue {
    node(JsonNode::Array(items), "[...]")
}

fn reason(r: Result<Predicate, Error>) -> String {
    match r {
        Err(Error::SchemaViolation { reason }) => reason,
        other => panic!("expected a schema violation, got {other:?}"),
    }
}

#[test]
fn leaves_are_typed_against_the_schema() {
    let p = parse_predicate_json(&schema(), &obj(vec![("op", s("gte")), ("column", s("rank")), ("value", integer(3))]))
        .unwrap();
    match p {
        Predicate::Gte { column, value } => {
            assert_eq!(column, "rank");
            assert_eq!(value, MetadataValue::I64(3));
        }
        other => panic!("unexpected {other:?}"),
    }
    let p = parse_predicate_json(&schema(), &obj(vec![("op", s("lt")), ("column", s("score")), ("value", integer(2))]))
        .unwrap();
    match p {
        Predicate::Lt { value, .. } => assert_eq!(value, MetadataValue::F64(2.0f64.to_bits())),
        other => panic!("unexpected {other:?}"),
    }
    let p = parse_predicate_json(&schema(), &obj(vec![("op", s("ne")), ("column", s("active")), ("value", boolean(false))]))
        .unwrap();
    assert!(matches!(p, Predicate::NotEq { value: MetadataValue::Bool(false), .. }));
}

#[test]
fn combinators_nest() {
    let tree = obj(vec![
        ("op", s("and")),
        (
            "children",
            arr(vec![
                obj(vec![("op", s("eq")), ("column", s("active")), ("value", boolean(true))]),
                obj(vec![
                    ("op", s("not")),
                    ("child", obj(vec![("op", s("in")), ("column", s("rank")), ("values", arr(vec![integer(1), integer(2)]))])),
                ]),
            ]),
        ),
    ]);
    match parse_predicate_json(&schema(), &tree).unwrap() {
        Predicate::And(children) => {
            assert_eq!(children.len(), 2);
            assert!(matches!(children[0], Predicate::Eq { .. }));
            match &children[1] {
                Predicate::Not(inner) => match inner.as_ref() {
                    Predicate::In { column, values } => {
                        assert_eq!(column, "rank");
                        assert_eq!(values, &vec![MetadataValue::I64(1), MetadataValue::I64(2)]);
                    }
                    other => panic!("unexpected {other:?}"),
                },
                other => panic!("unexpected {other:?}"),
            }
        }
        other => panic!("unexpected {other:?}"),
    }
    let or = parse_predicate_json(&schema(), &obj(vec![("op", s("or")), ("children", arr(vec![]))])).unwrap();
    assert!(matches!(or, Predicate::Or(ref v) if v.is_empty()));
}

#[test]
fn malformed_trees_name_the_first_fault() {
    assert_eq!(reason(parse_predicate_json(&schema(), &integer(1))), "predicate node must be a JSON object");
    assert_eq!(reason(parse_predicate_json(&schema(), &obj(vec![]))), "predicate node missing 'op'");
    assert_eq!(reason(parse_predicate_json(&schema(), &obj(vec![("op", integer(1))]))), "predicate node missing 'op'");
    assert_eq!(
        reason(parse_predicate_json(&schema(), &obj(vec![("op", s("or")), ("children", integer(1))]))),
        "'or' predicate requires 'children'"
    );
    assert_eq!(
        reason(parse_predicate_json(&schema(), &obj(vec![("op", s("not"))]))),
        "'not' predicate requires 'child'"
    );
    assert_eq!(
        reason(parse_predicate_json(&schema(), &obj(vec![("op", s("eq")), ("value", integer(1))]))),
        "predicate missing 'column'"
    );
    assert_eq!(
        reason(parse_predicate_json(&schema(), &obj(vec![("op", s("in")), ("column", s("rank"))]))),
        "'in' predicate requires 'values'"
    );
    assert_eq!(
        reason(parse_predicate_json(&schema(), &obj(vec![("op", s("xor"))]))),
        "unknown predicate op 'xor'"
    );
    assert_eq!(
        reason(parse_predicate_json(&schema(), &obj(vec![("op", s("eq")), ("column", s("missing")), ("value", integer(1))]))),
        "unknown column: missing"
    );
    assert_eq!(
        reason(parse_predicate_json(&schema(), &obj(vec![("op", s("eq")), ("column", s("rank")), ("value", float(1.5))]))),
        "column 'rank' expects an i64 literal"
    );
    assert_eq!(
        reason(parse_predicate_json(&schema(), &obj(vec![("op", s("eq")), ("column", s("rank")), ("value", s("x"))]))),
        "value \"x\" does not match declared type I64 of column 'rank'"
    );
    // A missing value is read as JSON null.
    assert_eq!(
        reason(parse_predicate_json(&schema(), &obj(vec![("op", s("eq")), ("column", s("label"))]))),
        "value null does not match declared type String of column 'label'"
    );
    // The first faulty child wins.
    let tree = obj(vec![
        ("op", s("and")),
        (
            "children",
            arr(vec![
                obj(vec![("op", s("eq")), ("column", s("active")), ("value", boolean(true))]),
                obj(vec![("op", s("bogus"))]),
                obj(vec![("op", s("eq")), ("column", s("nope")), ("value", boolean(true))]),
            ]),
        ),
    ]);
    assert_eq!(reason(parse_predicate_json(&schema(), &tree)), "unknown predicate op 'bogus'");
}

#[test]
fn parsed_filterable_trees_pass_validation() {
    let tree = obj(vec![
        ("op", s("or")),
        (
            "children",
            arr(vec![
                obj(vec![("op", s("lte")), ("column", s("rank")), ("value", integer(4))]),
                obj(vec![("op", s("eq")), ("column", s("active")), ("value", boolean(true))]),
                obj(vec![("op", s("in")), ("column", s("score")), ("values", arr(vec![float(0.5)]))]),
            ]),
        ),
    ]);
    let p = parse_predicate_json(&schema(), &tree).unwrap();
    assert!(p.validate(&schema()).is_ok());
}
