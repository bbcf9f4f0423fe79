//! Predicate Trees written as JSON documents, as a query runner supplies
//! them:
//!
//! - leaf: `{"op":"eq|ne|lt|lte|gt|gte","column":s,"value":scalar}`
//! - set: `{"op":"in","column":s,"values":[scalar,...]}`
//! - combinator: `{"op":"and"|"or","children":[...]}` / `{"op":"not","child":{...}}`
//!
//! Leaf scalars are typed against the Table's declared Metadata Schema, so
//! that the resulting [`Predicate`] passes the engine's own validation.

use vstd::prelude::*;

use crate::errors::{Error, Result};
use crate::search::{
    declared_column_type, declared_type, first_bad_value, holds, known_column, list_fault, predicate_fault,
    value_equal, value_order, Predicate,
};
use crate::table::{ColumnType, MetadataColumn, MetadataSchema};
use crate::text::concat_str;
use crate::write_path::{MetaValue, MetadataValue};

verus! {

/// A parsed JSON document, held as plain values. `text` is the node's own
/// JSON text as the parser renders it (used in error messages).
#[derive(Debug)]
pub struct JsonValue {
    pub node: JsonNode,
    pub text: String,
}

/// The shape of one JSON node.
#[derive(Debug)]
pub enum JsonNode {
    Null,
    Bool(bool),
    /// A number: its value as an `i64` when it is an integer that fits, and
    /// the IEEE-754 bit pattern of its value as an `f64` when it has one.
    Number { as_i64: Option<i64>, as_f64_bits: Option<u64> },
    Str(String),
    Array(Vec<JsonValue>),
    /// The members of an object, in the order the document lists them.
    Object(Vec<(String, JsonValue)>),
}

// ---------------------------------------------------------------------------
// Object members.
// ---------------------------------------------------------------------------

/// Member `i` is the first member of `fields` under `key`.
pub open spec fn first_key(fields: Seq<(String, JsonValue)>, key: Seq<char>, i: int) -> bool {
    &&& 0 <= i < fields.len()
    &&& fields[i].0@ == key
    &&& forall|k: int| 0 <= k < i ==> #[trigger] fields[k].0@ != key
}

/// Position of the member under `key`, or `-1` when there is none.
pub open spec fn key_index(fields: Seq<(String, JsonValue)>, key: Seq<char>) -> int {
    if exists|i: int| first_key(fields, key, i) {
        choose|i: int| first_key(fields, key, i)
    } else {
        -1
    }
}

/// Looks up the member under `key`.
fn find_key(fields: &Vec<(String, JsonValue)>, key: &str) -> (r: Option<usize>)
    ensures
        match r {
            Some(i) => i == key_index(fields@, key@) && i < fields@.len(),
            None => key_index(fields@, key@) == -1,
        },
{
    let wanted = String::from_str(key);
    for i in 0..fields.len()
        invariant
            wanted@ == key@,
            forall|k: int| 0 <= k < i ==> #[trigger] fields@[k].0@ != key@,
    {
        if fields[i].0 == wanted {
            proof {
                assert(first_key(fields@, key@, i as int));
                let j = choose|j: int| first_key(fields@, key@, j);
                assert(j == i) by {
                    if j < i {
                        assert(fields@[j].0@ != key@);
                    }
                    if i < j {
                        assert(fields@[i as int].0@ != key@);
                    }
                }
            }
            return Some(i);
        }
    }
    proof {
        assert forall|i: int| !first_key(fields@, key@, i) by {
            if first_key(fields@, key@, i) {
                assert(fields@[i].0@ != key@);
            }
        }
    }
    None
}

/// The string held by member `key`, when it is present and a string.
pub open spec fn string_member(fields: Seq<(String, JsonValue)>, key: Seq<char>) -> Option<Seq<char>> {
    let i = key_index(fields, key);
    if 0 <= i < fields.len() {
        match fields[i].1.node {
            JsonNode::Str(s) => Some(s@),
            _ => None,
        }
    } else {
        None
    }
}

// ---------------------------------------------------------------------------
// Typing a scalar against the schema.
// ---------------------------------------------------------------------------

/// The name a column type is shown by.
pub open spec fn column_type_label(t: ColumnType) -> Seq<char> {
    match t {
        ColumnType::Bool => "Bool"@,
        ColumnType::I64 => "I64"@,
        ColumnType::F64 => "F64"@,
        ColumnType::String => "String"@,
    }
}

fn column_type_label_str(t: ColumnType) -> (s: &'static str)
    ensures
        s@ == column_type_label(t),
{
    proof {
        reveal_strlit("Bool");
        reveal_strlit("I64");
        reveal_strlit("F64");
        reveal_strlit("String");
    }
    match t {
        ColumnType::Bool => "Bool",
        ColumnType::I64 => "I64",
        ColumnType::F64 => "F64",
        ColumnType::String => "String",
    }
}

/// Why the JSON scalar `node` (whose text is `text`) cannot stand as a value
/// of column `column`, if it cannot: the column is unknown, a number does not
/// fit the column's numeric type, or the JSON type differs from the declared
/// one. String columns take JSON strings, numeric columns JSON numbers, and
/// bool columns JSON booleans.
pub open spec fn scalar_fault(
    cols: Seq<MetadataColumn>,
    column: Seq<char>,
    node: JsonNode,
    text: Seq<char>,
) -> Option<Seq<char>> {
    if !known_column(cols, column) {
        Some("unknown column: "@ + column)
    } else {
        let t = declared_type(cols, column);
        match node {
            JsonNode::Bool(_) if t == ColumnType::Bool => None,
            JsonNode::Number { as_i64, .. } if t == ColumnType::I64 => if as_i64 is Some {
                None
            } else {
                Some("column '"@ + column + "' expects an i64 literal"@)
            },
            JsonNode::Number { as_f64_bits, .. } if t == ColumnType::F64 => if as_f64_bits is Some {
                None
            } else {
                Some("column '"@ + column + "' expects an f64 literal"@)
            },
            JsonNode::Str(_) if t == ColumnType::String => None,
            _ => Some(
                "value "@ + text + " does not match declared type "@ + column_type_label(t) + " of column '"@
                    + column + "'"@,
            ),
        }
    }
}

/// The value a JSON scalar stands for in a column of type `t` (meaningful
/// where [`scalar_fault`] finds nothing).
pub open spec fn scalar_of(t: ColumnType, node: JsonNode) -> MetaValue {
    match node {
        JsonNode::Bool(b) => MetaValue::Bool(b),
        JsonNode::Number { as_i64, as_f64_bits } => if t == ColumnType::I64 {
            MetaValue::I64(as_i64->0)
        } else {
            MetaValue::F64(as_f64_bits->0)
        },
        JsonNode::Str(s) => MetaValue::Str(s@),
        _ => MetaValue::Bool(false),
    }
}

/// Types a JSON scalar against the declared type of `column`.
fn typed_scalar(schema: &MetadataSchema, column: &str, node: &JsonNode, text: &str) -> (r: Result<MetadataValue>)
    ensures
        match scalar_fault(schema.spec_columns(), column@, *node, text@) {
            None => r matches Ok(v) && v@ == scalar_of(declared_type(schema.spec_columns(), column@), *node),
            Some(reason) => r matches Err(e) && e matches Error::SchemaViolation { reason: why }
                && why@ == reason,
        },
{
    let declared = match declared_column_type(schema, column) {
        Ok(t) => t,
        Err(e) => return Err(e),
    };
    proof {
        reveal_strlit("column '");
        reveal_strlit("' expects an i64 literal");
        reveal_strlit("' expects an f64 literal");
        reveal_strlit("value ");
        reveal_strlit(" does not match declared type ");
        reveal_strlit(" of column '");
        reveal_strlit("'");
    }
    match node {
        JsonNode::Bool(b) => if declared == ColumnType::Bool {
            return Ok(MetadataValue::Bool(*b));
        },
        JsonNode::Number { as_i64, as_f64_bits } => if declared == ColumnType::I64 {
            return match as_i64 {
                Some(i) => Ok(MetadataValue::I64(*i)),
                None => {
                    let mut reason = concat_str("column '", column);
                    reason.append("' expects an i64 literal");
                    Err(Error::SchemaViolation { reason })
                },
            };
        } else if declared == ColumnType::F64 {
            return match as_f64_bits {
                Some(bits) => Ok(MetadataValue::F64(*bits)),
                None => {
                    let mut reason = concat_str("column '", column);
                    reason.append("' expects an f64 literal");
                    Err(Error::SchemaViolation { reason })
                },
            };
        },
        JsonNode::Str(s) => if declared == ColumnType::String {
            return Ok(MetadataValue::String(s.clone()));
        },
        _ => {},
    }
    let mut reason = concat_str("value ", text);
    reason.append(" does not match declared type ");
    reason.append(column_type_label_str(declared));
    reason.append(" of column '");
    reason.append(column);
    reason.append("'");
    Err(Error::SchemaViolation { reason })
}


// ---------------------------------------------------------------------------
// The tree.
// ---------------------------------------------------------------------------

/// The op names of the comparison leaves.
pub open spec fn is_comparison_op(op: Seq<char>) -> bool {
    op == "eq"@ || op == "ne"@ || op == "lt"@ || op == "lte"@ || op == "gt"@ || op == "gte"@
}

/// Why the node `v` does not describe a Predicate Tree over the columns
/// `cols`, if it does not: the first fault met walking the document in
/// order.
pub open spec fn json_fault(cols: Seq<MetadataColumn>, v: JsonValue) -> Option<Seq<char>>
    decreases v, 0int,
{
    match v.node {
        JsonNode::Object(fields) => match string_member(fields@, "op"@) {
            None => Some("predicate node missing 'op'"@),
            Some(op) => if op == "and"@ || op == "or"@ {
                let ci = key_index(fields@, "children"@);
                if 0 <= ci < fields@.len() {
                    match fields@[ci].1.node {
                        JsonNode::Array(cs) => children_fault(cols, cs@, 0),
                        _ => Some("'"@ + op + "' predicate requires 'children'"@),
                    }
                } else {
                    Some("'"@ + op + "' predicate requires 'children'"@)
                }
            } else if op == "not"@ {
                let ci = key_index(fields@, "child"@);
                if 0 <= ci < fields@.len() {
                    json_fault(cols, fields@[ci].1)
                } else {
                    Some("'not' predicate requires 'child'"@)
                }
            } else if is_comparison_op(op) {
                match string_member(fields@, "column"@) {
                    None => Some("predicate missing 'column'"@),
                    Some(column) => {
                        let vi = key_index(fields@, "value"@);
                        if 0 <= vi < fields@.len() {
                            scalar_fault(cols, column, fields@[vi].1.node, fields@[vi].1.text@)
                        } else {
                            scalar_fault(cols, column, JsonNode::Null, "null"@)
                        }
                    },
                }
            } else if op == "in"@ {
                match string_member(fields@, "column"@) {
                    None => Some("predicate missing 'column'"@),
                    Some(column) => {
                        let vi = key_index(fields@, "values"@);
                        if 0 <= vi < fields@.len() {
                            match fields@[vi].1.node {
                                JsonNode::Array(raws) => values_fault(cols, column, raws@, 0),
                                _ => Some("'in' predicate requires 'values'"@),
                            }
                        } else {
                            Some("'in' predicate requires 'values'"@)
                        }
                    },
                }
            } else {
                Some("unknown predicate op '"@ + op + "'"@)
            },
        },
        _ => Some("predicate node must be a JSON object"@),
    }
}

/// The first fault among the children `cs[i..]`.
pub open spec fn children_fault(cols: Seq<MetadataColumn>, cs: Seq<JsonValue>, i: int) -> Option<Seq<char>>
    decreases cs, cs.len() - i,
{
    if 0 <= i < cs.len() {
        if json_fault(cols, cs[i]) is Some {
            json_fault(cols, cs[i])
        } else {
            children_fault(cols, cs, i + 1)
        }
    } else {
        None
    }
}

/// The first fault among the `in` scalars `raws[i..]`.
pub open spec fn values_fault(cols: Seq<MetadataColumn>, column: Seq<char>, raws: Seq<JsonValue>, i: int) -> Option<Seq<char>>
    decreases raws.len() - i,
{
    if 0 <= i < raws.len() {
        if scalar_fault(cols, column, raws[i].node, raws[i].text@) is Some {
            scalar_fault(cols, column, raws[i].node, raws[i].text@)
        } else {
            values_fault(cols, column, raws, i + 1)
        }
    } else {
        None
    }
}

/// `p` is the comparison leaf named `op` on `column` against `value`.
pub open spec fn leaf_is(op: Seq<char>, p: Predicate, column: Seq<char>, value: MetaValue) -> bool {
    match p {
        Predicate::Eq { column: c, value: x } => op == "eq"@ && c@ == column && x@ == value,
        Predicate::NotEq { column: c, value: x } => op == "ne"@ && c@ == column && x@ == value,
        Predicate::Lt { column: c, value: x } => op == "lt"@ && c@ == column && x@ == value,
        Predicate::Lte { column: c, value: x } => op == "lte"@ && c@ == column && x@ == value,
        Predicate::Gt { column: c, value: x } => op == "gt"@ && c@ == column && x@ == value,
        Predicate::Gte { column: c, value: x } => op == "gte"@ && c@ == column && x@ == value,
        _ => false,
    }
}

/// `p` is the tree that the node `v` describes over the columns `cols`.
pub open spec fn builds(cols: Seq<MetadataColumn>, v: JsonValue, p: Predicate) -> bool
    decreases v, 0int,
{
    match v.node {
        JsonNode::Object(fields) => match string_member(fields@, "op"@) {
            None => false,
            Some(op) => if op == "and"@ || op == "or"@ {
                let ci = key_index(fields@, "children"@);
                &&& 0 <= ci < fields@.len()
                &&& match fields@[ci].1.node {
                    JsonNode::Array(cs) => match p {
                        Predicate::And(ps) => op == "and"@ && children_build(cols, cs@, ps@, 0),
                        Predicate::Or(ps) => op == "or"@ && children_build(cols, cs@, ps@, 0),
                        _ => false,
                    },
                    _ => false,
                }
            } else if op == "not"@ {
                let ci = key_index(fields@, "child"@);
                &&& 0 <= ci < fields@.len()
                &&& match p {
                    Predicate::Not(q) => builds(cols, fields@[ci].1, *q),
                    _ => false,
                }
            } else if is_comparison_op(op) {
                match string_member(fields@, "column"@) {
                    None => false,
                    Some(column) => {
                        let vi = key_index(fields@, "value"@);
                        let node = if 0 <= vi < fields@.len() { fields@[vi].1.node } else { JsonNode::Null };
                        leaf_is(op, p, column, scalar_of(declared_type(cols, column), node))
                    },
                }
            } else if op == "in"@ {
                match string_member(fields@, "column"@) {
                    None => false,
                    Some(column) => {
                        let vi = key_index(fields@, "values"@);
                        &&& 0 <= vi < fields@.len()
                        &&& match fields@[vi].1.node {
                            JsonNode::Array(raws) => match p {
                                Predicate::In { column: c, values } => {
                                    &&& c@ == column
                                    &&& values@.len() == raws@.len()
                                    &&& forall|k: int| 0 <= k < raws@.len() ==> #[trigger] values@[k]@
                                        == scalar_of(declared_type(cols, column), raws@[k].node)
                                },
                                _ => false,
                            },
                            _ => false,
                        }
                    },
                }
            } else {
                false
            },
        },
        _ => false,
    }
}

/// Each child `cs[k]`, `k >= i`, describes the tree `ps[k]`.
pub open spec fn children_build(cols: Seq<MetadataColumn>, cs: Seq<JsonValue>, ps: Seq<Predicate>, i: int) -> bool
    decreases cs, cs.len() - i,
{
    if cs.len() != ps.len() {
        false
    } else if 0 <= i < cs.len() {
        builds(cols, cs[i], ps[i]) && children_build(cols, cs, ps, i + 1)
    } else {
        true
    }
}


proof fn lemma_children_build(cols: Seq<MetadataColumn>, cs: Seq<JsonValue>, ps: Seq<Predicate>, i: int)
    requires
        cs.len() == ps.len(),
        0 <= i <= cs.len(),
        forall|j: int| i <= j < cs.len() ==> builds(cols, cs[j], #[trigger] ps[j]),
    ensures
        children_build(cols, cs, ps, i),
    decreases cs.len() - i,
{
    if i < cs.len() {
        lemma_children_build(cols, cs, ps, i + 1);
    }
}

/// The text `s` equals the literal `lit`.
fn same(s: &String, lit: &str) -> (b: bool)
    ensures
        b == (s@ == lit@),
{
    *s == String::from_str(lit)
}

fn violation(reason: &str) -> (e: Error)
    ensures
        e matches Error::SchemaViolation { reason: r } && r@ == reason@,
{
    Error::SchemaViolation { reason: String::from_str(reason) }
}

/// The string held by member `key`, if it is present and a string.
fn member_string<'a>(fields: &'a Vec<(String, JsonValue)>, key: &str) -> (r: Option<&'a String>)
    ensures
        match r {
            Some(s) => string_member(fields@, key@) == Some(s@),
            None => string_member(fields@, key@) is None,
        },
{
    match find_key(fields, key) {
        Some(i) => match &fields[i].1.node {
            JsonNode::Str(s) => Some(s),
            _ => None,
        },
        None => None,
    }
}

/// Builds the Predicate Tree a JSON node describes, typing every leaf
/// scalar against `schema`. Fails with `SchemaViolation` naming the first
/// fault met walking the document in order.
pub fn parse_predicate_json(schema: &MetadataSchema, value: &JsonValue) -> (r: Result<Predicate>)
    ensures
        r is Ok <==> json_fault(schema.spec_columns(), *value) is None,
        r matches Ok(p) ==> builds(schema.spec_columns(), *value, p),
        r matches Err(e) ==> e matches Error::SchemaViolation { reason }
            && json_fault(schema.spec_columns(), *value) == Some(reason@),
    decreases value,
{
    proof {
        reveal_strlit("predicate node must be a JSON object");
        reveal_strlit("predicate node missing 'op'");
        reveal_strlit("op");
        reveal_strlit("and");
        reveal_strlit("or");
        reveal_strlit("not");
        reveal_strlit("in");
        reveal_strlit("eq");
        reveal_strlit("ne");
        reveal_strlit("lt");
        reveal_strlit("lte");
        reveal_strlit("gt");
        reveal_strlit("gte");
        reveal_strlit("children");
        reveal_strlit("child");
        reveal_strlit("column");
        reveal_strlit("value");
        reveal_strlit("values");
        reveal_strlit("null");
        reveal_strlit("'");
        reveal_strlit("' predicate requires 'children'");
        reveal_strlit("'not' predicate requires 'child'");
        reveal_strlit("predicate missing 'column'");
        reveal_strlit("'in' predicate requires 'values'");
        reveal_strlit("unknown predicate op '");
    }
    let ghost cols = schema.spec_columns();
    let fields = match &value.node {
        JsonNode::Object(fields) => fields,
        _ => return Err(violation("predicate node must be a JSON object")),
    };
    let op = match member_string(fields, "op") {
        Some(op) => op,
        None => return Err(violation("predicate node missing 'op'")),
    };
    if same(op, "and") || same(op, "or") {
        let ci = match find_key(fields, "children") {
            Some(i) => i,
            None => {
                let mut reason = concat_str("'", op.as_str());
                reason.append("' predicate requires 'children'");
                return Err(Error::SchemaViolation { reason });
            },
        };
        let cs = match &fields[ci].1.node {
            JsonNode::Array(cs) => cs,
            _ => {
                let mut reason = concat_str("'", op.as_str());
                reason.append("' predicate requires 'children'");
                return Err(Error::SchemaViolation { reason });
            },
        };
        let mut ps: Vec<Predicate> = Vec::new();
        assert(json_fault(cols, *value) == children_fault(cols, cs@, 0));
        for k in 0..cs.len()
            invariant
                cols == schema.spec_columns(),
                json_fault(cols, *value) == children_fault(cols, cs@, 0),
                value.node == JsonNode::Object(*fields),
                ci < fields@.len(),
                fields@[ci as int].1.node == JsonNode::Array(*cs),
                ps@.len() == k,
                forall|j: int| 0 <= j < k ==> builds(cols, cs@[j], #[trigger] ps@[j]),
                children_fault(cols, cs@, 0) == children_fault(cols, cs@, k as int),
        {
            proof {
                assert(decreases_to!(*value => value.node));
                assert(decreases_to!(value.node => (value.node)->Object_0));
                assert(decreases_to!(*fields => fields@));
                assert(decreases_to!(fields@ => fields@[ci as int]));
                assert(decreases_to!(fields@[ci as int] => fields@[ci as int].1));
                assert(decreases_to!(fields@[ci as int].1 => fields@[ci as int].1.node));
                assert(decreases_to!(fields@[ci as int].1.node => (fields@[ci as int].1.node)->Array_0));
                assert(decreases_to!(*cs => cs@));
                assert(decreases_to!(cs@ => cs@[k as int]));
            }
            match parse_predicate_json(schema, &cs[k]) {
                Ok(p) => ps.push(p),
                Err(e) => return Err(e),
            }
        }
        proof {
            lemma_children_build(cols, cs@, ps@, 0);
        }
        if same(op, "and") {
            Ok(Predicate::and(ps))
        } else {
            Ok(Predicate::or(ps))
        }
    } else if same(op, "not") {
        let ci = match find_key(fields, "child") {
            Some(i) => i,
            None => return Err(violation("'not' predicate requires 'child'")),
        };
        proof {
            assert(decreases_to!(*value => value.node));
            assert(decreases_to!(value.node => (value.node)->Object_0));
            assert(decreases_to!(*fields => fields@));
            assert(decreases_to!(fields@ => fields@[ci as int]));
            assert(decreases_to!(fields@[ci as int] => fields@[ci as int].1));
        }
        match parse_predicate_json(schema, &fields[ci].1) {
            Ok(q) => Ok(Predicate::negate(q)),
            Err(e) => Err(e),
        }
    } else if same(op, "eq") || same(op, "ne") || same(op, "lt") || same(op, "lte") || same(op, "gt")
        || same(op, "gte") {
        let column = match member_string(fields, "column") {
            Some(c) => c,
            None => return Err(violation("predicate missing 'column'")),
        };
        let scalar = match find_key(fields, "value") {
            Some(vi) => typed_scalar(schema, column.as_str(), &fields[vi].1.node, fields[vi].1.text.as_str()),
            None => typed_scalar(schema, column.as_str(), &JsonNode::Null, "null"),
        };
        let value = match scalar {
            Ok(v) => v,
            Err(e) => return Err(e),
        };
        let column = column.clone();
        if same(op, "eq") {
            Ok(Predicate::eq(column, value))
        } else if same(op, "ne") {
            Ok(Predicate::not_eq(column, value))
        } else if same(op, "lt") {
            Ok(Predicate::lt(column, value))
        } else if same(op, "lte") {
            Ok(Predicate::lte(column, value))
        } else if same(op, "gt") {
            Ok(Predicate::gt(column, value))
        } else {
            Ok(Predicate::gte(column, value))
        }
    } else if same(op, "in") {
        let column = match member_string(fields, "column") {
            Some(c) => c,
            None => return Err(violation("predicate missing 'column'")),
        };
        let vi = match find_key(fields, "values") {
            Some(i) => i,
            None => return Err(violation("'in' predicate requires 'values'")),
        };
        let raws = match &fields[vi].1.node {
            JsonNode::Array(raws) => raws,
            _ => return Err(violation("'in' predicate requires 'values'")),
        };
        let mut values: Vec<MetadataValue> = Vec::new();
        assert(json_fault(cols, *value) == values_fault(cols, column@, raws@, 0));
        for k in 0..raws.len()
            invariant
                cols == schema.spec_columns(),
                json_fault(cols, *value) == values_fault(cols, column@, raws@, 0),
                values@.len() == k,
                forall|j: int| 0 <= j < k ==> (#[trigger] values@[j])@
                    == scalar_of(declared_type(cols, column@), raws@[j].node),
                values_fault(cols, column@, raws@, 0) == values_fault(cols, column@, raws@, k as int),
        {
            match typed_scalar(schema, column.as_str(), &raws[k].node, raws[k].text.as_str()) {
                Ok(v) => values.push(v),
                Err(e) => return Err(e),
            }
        }
        Ok(Predicate::in_values(column.clone(), values))
    } else {
        let mut reason = concat_str("unknown predicate op '", op.as_str());
        reason.append("'");
        Err(Error::SchemaViolation { reason })
    }
}


// ---------------------------------------------------------------------------
// Parsed trees pass validation.
// ---------------------------------------------------------------------------

/// No leaf of `p` is refused by validation for filterability: comparisons
/// are not on string columns, orderings not on bool columns, and a set
/// membership with values is not on a string column, while one without
/// values names a declared column.
pub open spec fn filterable(p: Predicate, cols: Seq<MetadataColumn>) -> bool
    decreases p, 0int,
{
    match p {
        Predicate::Eq { column, .. } => declared_type(cols, column@) != ColumnType::String,
        Predicate::NotEq { column, .. } => declared_type(cols, column@) != ColumnType::String,
        Predicate::Lt { column, .. } => declared_type(cols, column@) != ColumnType::String
            && declared_type(cols, column@) != ColumnType::Bool,
        Predicate::Lte { column, .. } => declared_type(cols, column@) != ColumnType::String
            && declared_type(cols, column@) != ColumnType::Bool,
        Predicate::Gt { column, .. } => declared_type(cols, column@) != ColumnType::String
            && declared_type(cols, column@) != ColumnType::Bool,
        Predicate::Gte { column, .. } => declared_type(cols, column@) != ColumnType::String
            && declared_type(cols, column@) != ColumnType::Bool,
        Predicate::In { column, values } => if values@.len() == 0 {
            known_column(cols, column@)
        } else {
            declared_type(cols, column@) != ColumnType::String
        },
        Predicate::And(ps) => all_filterable(ps@, cols, 0),
        Predicate::Or(ps) => all_filterable(ps@, cols, 0),
        Predicate::Not(q) => filterable(*q, cols),
    }
}

/// Every tree of `ps[i..]` is [`filterable`].
pub open spec fn all_filterable(ps: Seq<Predicate>, cols: Seq<MetadataColumn>, i: int) -> bool
    decreases ps, ps.len() - i,
{
    if 0 <= i < ps.len() {
        filterable(ps[i], cols) && all_filterable(ps, cols, i + 1)
    } else {
        true
    }
}

proof fn lemma_values_fit(cols: Seq<MetadataColumn>, column: Seq<char>, raws: Seq<JsonValue>, i: int)
    requires
        0 <= i,
        values_fault(cols, column, raws, i) is None,
    ensures
        forall|k: int| i <= k < raws.len() ==> scalar_fault(cols, column, (#[trigger] raws[k]).node, raws[k].text@) is None,
    decreases raws.len() - i,
{
    if i < raws.len() {
        lemma_values_fit(cols, column, raws, i + 1);
    }
}

/// A parsed comparison leaf accepts a record exactly when the record's
/// metadata has the leaf's column and the column's value relates to the
/// leaf's (typed) value as the op names it: `eq` equal, `ne` unequal, `lt`
/// strictly below, `lte` below or equal, `gt` strictly above, `gte` above
/// or equal.
pub proof fn lemma_parsed_comparison_semantics(
    cols: Seq<MetadataColumn>,
    v: JsonValue,
    p: Predicate,
    md: Map<Seq<char>, MetaValue>,
)
    requires
        builds(cols, v, p),
        v.node is Object,
        string_member(v.node->Object_0@, "op"@) matches Some(op) && is_comparison_op(op),
    ensures
        ({
            let fields = v.node->Object_0@;
            let op = string_member(fields, "op"@)->0;
            let column = string_member(fields, "column"@)->0;
            let vi = key_index(fields, "value"@);
            let node = if 0 <= vi < fields.len() { fields[vi].1.node } else { JsonNode::Null };
            let value = scalar_of(declared_type(cols, column), node);
            let present = md.contains_key(column);
            let order = value_order(md[column], value);
            &&& op == "eq"@ ==> (holds(p, md) <==> present && value_equal(md[column], value))
            &&& op == "ne"@ ==> (holds(p, md) <==> present && !value_equal(md[column], value))
            &&& op == "lt"@ ==> (holds(p, md) <==> present && order == Some(-1int))
            &&& op == "lte"@ ==> (holds(p, md) <==> present && (order == Some(-1int) || order == Some(0int)))
            &&& op == "gt"@ ==> (holds(p, md) <==> present && order == Some(1int))
            &&& op == "gte"@ ==> (holds(p, md) <==> present && (order == Some(1int) || order == Some(0int)))
        }),
{
    reveal_strlit("eq");
    reveal_strlit("ne");
    reveal_strlit("lt");
    reveal_strlit("lte");
    reveal_strlit("gt");
    reveal_strlit("gte");
    reveal_strlit("and");
    reveal_strlit("or");
    reveal_strlit("not");
    reveal_strlit("in");
    let fields = v.node->Object_0@;
    let op = string_member(fields, "op"@)->0;
    assert("eq"@.len() == 2 && "ne"@.len() == 2 && "lt"@.len() == 2 && "gt"@.len() == 2);
    assert("lte"@.len() == 3 && "gte"@.len() == 3 && "and"@.len() == 3 && "not"@.len() == 3);
    assert("or"@.len() == 2 && "in"@.len() == 2);
    assert("eq"@[0] == 'e' && "ne"@[0] == 'n' && "lt"@[0] == 'l' && "gt"@[0] == 'g');
    assert("lte"@[0] == 'l' && "gte"@[0] == 'g' && "and"@[0] == 'a' && "not"@[0] == 'n');
    assert("or"@[0] == 'o' && "in"@[0] == 'i' && "ne"@[1] == 'e' && "not"@[1] == 'o');
    assert(op != "and"@ && op != "or"@ && op != "not"@ && op != "in"@);
    assert(string_member(fields, "column"@) is Some);
    let column = string_member(fields, "column"@)->0;
    let vi = key_index(fields, "value"@);
    let node = if 0 <= vi < fields.len() { fields[vi].1.node } else { JsonNode::Null };
    let value = scalar_of(declared_type(cols, column), node);
    assert(leaf_is(op, p, column, value));
    match p {
        Predicate::Eq { column: c, value: x } => assert(op == "eq"@ && c@ == column && x@ == value),
        Predicate::NotEq { column: c, value: x } => assert(op == "ne"@ && c@ == column && x@ == value),
        Predicate::Lt { column: c, value: x } => assert(op == "lt"@ && c@ == column && x@ == value),
        Predicate::Lte { column: c, value: x } => assert(op == "lte"@ && c@ == column && x@ == value),
        Predicate::Gt { column: c, value: x } => assert(op == "gt"@ && c@ == column && x@ == value),
        Predicate::Gte { column: c, value: x } => assert(op == "gte"@ && c@ == column && x@ == value),
        _ => {},
    }
}

/// A JSON tree that parses describes a Predicate Tree that validates
/// against the same schema, unless one of its leaves is refused for
/// filterability alone: the typing done while parsing leaves no other
/// fault for validation to find.
pub proof fn lemma_parsed_predicate_validates(cols: Seq<MetadataColumn>, v: JsonValue, p: Predicate)
    requires
        json_fault(cols, v) is None,
        builds(cols, v, p),
        filterable(p, cols),
    ensures
        predicate_fault(p, cols) is None,
    decreases v, 0int,
{
    match v.node {
        JsonNode::Object(fields) => {
            let op = string_member(fields@, "op"@)->0;
            if op == "and"@ || op == "or"@ {
                let ci = key_index(fields@, "children"@);
                match fields@[ci].1.node {
                    JsonNode::Array(cs) => match p {
                        Predicate::And(ps) => lemma_children_validate(cols, cs@, ps@, 0),
                        Predicate::Or(ps) => lemma_children_validate(cols, cs@, ps@, 0),
                        _ => {},
                    },
                    _ => {},
                }
            } else if op == "not"@ {
                let ci = key_index(fields@, "child"@);
                match p {
                    Predicate::Not(q) => lemma_parsed_predicate_validates(cols, fields@[ci].1, *q),
                    _ => {},
                }
            } else if is_comparison_op(op) {
            } else if op == "in"@ {
                let column = string_member(fields@, "column"@)->0;
                let vi = key_index(fields@, "values"@);
                match fields@[vi].1.node {
                    JsonNode::Array(raws) => match p {
                        Predicate::In { column: c, values } => {
                            lemma_values_fit(cols, column, raws@, 0);
                            let t = declared_type(cols, column);
                            if raws@.len() > 0 {
                                assert(scalar_fault(cols, column, raws@[0].node, raws@[0].text@) is None);
                            }
                            assert forall|j: int| !first_bad_value(t, column, values@, j) by {
                                if 0 <= j < values@.len() {
                                    assert(scalar_fault(cols, column, raws@[j].node, raws@[j].text@) is None);
                                    assert(values@[j]@ == scalar_of(t, raws@[j].node));
                                }
                            }
                        },
                        _ => {},
                    },
                    _ => {},
                }
            }
        },
        _ => {},
    }
}

proof fn lemma_children_validate(cols: Seq<MetadataColumn>, cs: Seq<JsonValue>, ps: Seq<Predicate>, i: int)
    requires
        0 <= i,
        children_fault(cols, cs, i) is None,
        children_build(cols, cs, ps, i),
        all_filterable(ps, cols, i),
    ensures
        list_fault(ps, cols, i) is None,
    decreases cs, cs.len() - i,
{
    if i < cs.len() {
        lemma_parsed_predicate_validates(cols, cs[i], ps[i]);
        lemma_children_validate(cols, cs, ps, i + 1);
    }
}

} // verus!
