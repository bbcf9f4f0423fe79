//! Exhaustive Delta search and typed Predicate Trees.
//!
//! Search is scoped to one [`Delta`], which carries exactly one Table handle.
//! Every candidate is predicate-checked; candidates are then ranked by
//! distance (ties broken by id) and cut to top-k.
//!
//! Distances are floating-point values and are computed by the caller; this
//! module validates the query, selects the candidate records, orders
//! distances through their total-order keys, and assembles the top-k.

use vstd::prelude::*;
use vstd::relations::{sorted_by, total_ordering};

use crate::errors::{Error, Result};
use crate::table::{ColumnType, MetadataColumn, MetadataSchema};
use crate::text::concat_str;
use crate::write_path::{saturate_u32, saturating_u32, value_type, Delta, MetaValue, Metadata, MetadataValue, RecordView};

verus! {

/// A typed predicate tree evaluated against one record's metadata.
#[derive(Debug)]
pub enum Predicate {
    Eq { column: String, value: MetadataValue },
    NotEq { column: String, value: MetadataValue },
    Lt { column: String, value: MetadataValue },
    Lte { column: String, value: MetadataValue },
    Gt { column: String, value: MetadataValue },
    Gte { column: String, value: MetadataValue },
    In { column: String, values: Vec<MetadataValue> },
    And(Vec<Predicate>),
    Or(Vec<Predicate>),
    Not(Box<Predicate>),
}

// ---------------------------------------------------------------------------
// Values: equality and ordering as the predicates see them.
// ---------------------------------------------------------------------------

/// Sign bit of an IEEE-754 double.
pub open spec fn f64_sign_bit() -> nat {
    0x8000_0000_0000_0000
}

/// Magnitude (all bits but the sign) of a double's bit pattern.
pub open spec fn f64_magnitude(b: u64) -> int {
    if b >= f64_sign_bit() { b - f64_sign_bit() } else { b as int }
}

/// The bit pattern is a NaN: exponent all ones, fraction non-zero.
pub open spec fn f64_is_nan(b: u64) -> bool {
    f64_magnitude(b) > 0x7ff0_0000_0000_0000
}

/// Position of a non-NaN double on the number line: numbers order as their
/// ranks do, and `-0.0` ranks with `+0.0`.
pub open spec fn f64_rank(b: u64) -> int {
    if b >= f64_sign_bit() { -f64_magnitude(b) } else { f64_magnitude(b) }
}

/// `==` on two doubles given by their bit patterns.
pub open spec fn f64_equal(a: u64, b: u64) -> bool {
    !f64_is_nan(a) && !f64_is_nan(b) && f64_rank(a) == f64_rank(b)
}

/// Sign of a difference: -1, 0 or 1.
pub open spec fn sign(d: int) -> int {
    if d < 0 { -1 } else if d == 0 { 0 } else { 1 }
}

/// `==` between metadata values: same type and equal; doubles compare as
/// numbers (NaN equals nothing, `-0.0 == 0.0`).
pub open spec fn value_equal(a: MetaValue, b: MetaValue) -> bool {
    match (a, b) {
        (MetaValue::Bool(x), MetaValue::Bool(y)) => x == y,
        (MetaValue::I64(x), MetaValue::I64(y)) => x == y,
        (MetaValue::F64(x), MetaValue::F64(y)) => f64_equal(x, y),
        (MetaValue::Str(x), MetaValue::Str(y)) => x == y,
        _ => false,
    }
}

/// The ordering of two metadata values as -1, 0 or 1, when they are ordered:
/// booleans (`false < true`), integers, and doubles that are not NaN.
/// Strings and values of different types are unordered.
pub open spec fn value_order(a: MetaValue, b: MetaValue) -> Option<int> {
    match (a, b) {
        (MetaValue::Bool(x), MetaValue::Bool(y)) => Some(
            sign((if x { 1int } else { 0int }) - (if y { 1int } else { 0int })),
        ),
        (MetaValue::I64(x), MetaValue::I64(y)) => Some(sign(x - y)),
        (MetaValue::F64(x), MetaValue::F64(y)) => if f64_is_nan(x) || f64_is_nan(y) {
            None
        } else {
            Some(sign(f64_rank(x) - f64_rank(y)))
        },
        _ => None,
    }
}

fn f64_bits_rank_parts(b: u64) -> (r: (bool, u64))
    ensures
        r.0 == (b >= f64_sign_bit()),
        r.1 == f64_magnitude(b),
{
    if b >= 0x8000_0000_0000_0000 {
        (true, b - 0x8000_0000_0000_0000)
    } else {
        (false, b)
    }
}

fn f64_is_nan_exec(b: u64) -> (r: bool)
    ensures
        r == f64_is_nan(b),
{
    let (_, m) = f64_bits_rank_parts(b);
    m > 0x7ff0_0000_0000_0000
}

/// Orders two non-NaN doubles given by their bit patterns.
fn f64_order(a: u64, b: u64) -> (r: i8)
    requires
        !f64_is_nan(a),
        !f64_is_nan(b),
    ensures
        r as int == sign(f64_rank(a) - f64_rank(b)),
{
    let (na, ma) = f64_bits_rank_parts(a);
    let (nb, mb) = f64_bits_rank_parts(b);
    if na == nb {
        if ma == mb {
            0
        } else if (ma < mb) != na {
            -1
        } else {
            1
        }
    } else if ma == 0 && mb == 0 {
        0
    } else if na {
        -1
    } else {
        1
    }
}

fn value_equal_exec(a: &MetadataValue, b: &MetadataValue) -> (r: bool)
    ensures
        r == value_equal(a@, b@),
{
    match (a, b) {
        (MetadataValue::Bool(x), MetadataValue::Bool(y)) => *x == *y,
        (MetadataValue::I64(x), MetadataValue::I64(y)) => *x == *y,
        (MetadataValue::F64(x), MetadataValue::F64(y)) => {
            if f64_is_nan_exec(*x) || f64_is_nan_exec(*y) {
                false
            } else {
                f64_order(*x, *y) == 0
            }
        },
        (MetadataValue::String(x), MetadataValue::String(y)) => *x == *y,
        _ => false,
    }
}

fn value_order_exec(a: &MetadataValue, b: &MetadataValue) -> (r: Option<i8>)
    ensures
        r is Some <==> value_order(a@, b@) is Some,
        r matches Some(o) ==> value_order(a@, b@) == Some(o as int),
{
    match (a, b) {
        (MetadataValue::Bool(x), MetadataValue::Bool(y)) => {
            if *x == *y {
                Some(0)
            } else if *y {
                Some(-1)
            } else {
                Some(1)
            }
        },
        (MetadataValue::I64(x), MetadataValue::I64(y)) => {
            if *x < *y {
                Some(-1)
            } else if *x == *y {
                Some(0)
            } else {
                Some(1)
            }
        },
        (MetadataValue::F64(x), MetadataValue::F64(y)) => {
            if f64_is_nan_exec(*x) || f64_is_nan_exec(*y) {
                None
            } else {
                Some(f64_order(*x, *y))
            }
        },
        _ => None,
    }
}


// ---------------------------------------------------------------------------
// Validation against a Metadata Schema.
// ---------------------------------------------------------------------------

/// Some column of `cols` is named `name`.
pub open spec fn known_column(cols: Seq<MetadataColumn>, name: Seq<char>) -> bool {
    exists|i: int| 0 <= i < cols.len() && #[trigger] cols[i].spec_name() == name
}

/// Column `i` is the first column named `name`.
pub open spec fn first_column(cols: Seq<MetadataColumn>, name: Seq<char>, i: int) -> bool {
    &&& 0 <= i < cols.len()
    &&& cols[i].spec_name() == name
    &&& forall|k: int| 0 <= k < i ==> #[trigger] cols[k].spec_name() != name
}

/// The type declared for column `name`: that of the first column so named.
pub open spec fn declared_type(cols: Seq<MetadataColumn>, name: Seq<char>) -> ColumnType {
    cols[choose|i: int| first_column(cols, name, i)].spec_column_type()
}

/// Why a value cannot be compared against a column of type `t`, if it
/// cannot.
pub open spec fn value_fault(t: ColumnType, column: Seq<char>, v: MetaValue) -> Option<Seq<char>> {
    if value_type(v) != t {
        Some("predicate type mismatch for column: "@ + column)
    } else if v is Str {
        Some("string column is retrievable but not filterable: "@ + column)
    } else {
        None
    }
}

/// Why a comparison of `column` against `v` is refused, if it is. `ordering`
/// is set for `<`, `<=`, `>`, `>=`.
pub open spec fn comparison_fault(
    cols: Seq<MetadataColumn>,
    column: Seq<char>,
    v: MetaValue,
    ordering: bool,
) -> Option<Seq<char>> {
    if !known_column(cols, column) {
        Some("unknown column: "@ + column)
    } else if value_fault(declared_type(cols, column), column, v) is Some {
        value_fault(declared_type(cols, column), column, v)
    } else if ordering && v is Bool {
        Some("ordering predicate is not supported for bool column: "@ + column)
    } else {
        None
    }
}

/// Index of the first value in `vs` that `value_fault` refuses.
pub open spec fn first_bad_value(t: ColumnType, column: Seq<char>, vs: Seq<MetadataValue>, i: int) -> bool {
    &&& 0 <= i < vs.len()
    &&& value_fault(t, column, vs[i]@) is Some
    &&& forall|j: int| 0 <= j < i ==> value_fault(t, column, #[trigger] vs[j]@) is None
}

/// Why an `IN` list on `column` is refused, if it is: an unknown column, or
/// the first value that does not fit the column.
pub open spec fn membership_fault(
    cols: Seq<MetadataColumn>,
    column: Seq<char>,
    vs: Seq<MetadataValue>,
) -> Option<Seq<char>> {
    if !known_column(cols, column) {
        Some("unknown column: "@ + column)
    } else if exists|i: int| first_bad_value(declared_type(cols, column), column, vs, i) {
        let i = choose|i: int| first_bad_value(declared_type(cols, column), column, vs, i);
        value_fault(declared_type(cols, column), column, vs[i]@)
    } else {
        None
    }
}

/// Why `p` is refused against the columns `cols`, if it is: the first fault
/// met in a left-to-right walk of the tree.
pub open spec fn predicate_fault(p: Predicate, cols: Seq<MetadataColumn>) -> Option<Seq<char>>
    decreases p, 0int,
{
    match p {
        Predicate::Eq { column, value } => comparison_fault(cols, column@, value@, false),
        Predicate::NotEq { column, value } => comparison_fault(cols, column@, value@, false),
        Predicate::Lt { column, value } => comparison_fault(cols, column@, value@, true),
        Predicate::Lte { column, value } => comparison_fault(cols, column@, value@, true),
        Predicate::Gt { column, value } => comparison_fault(cols, column@, value@, true),
        Predicate::Gte { column, value } => comparison_fault(cols, column@, value@, true),
        Predicate::In { column, values } => membership_fault(cols, column@, values@),
        Predicate::And(ps) => list_fault(ps@, cols, 0),
        Predicate::Or(ps) => list_fault(ps@, cols, 0),
        Predicate::Not(q) => predicate_fault(*q, cols),
    }
}

/// The first fault among `ps[i..]`.
pub open spec fn list_fault(ps: Seq<Predicate>, cols: Seq<MetadataColumn>, i: int) -> Option<Seq<char>>
    decreases ps, ps.len() - i,
{
    if 0 <= i < ps.len() {
        if predicate_fault(ps[i], cols) is Some {
            predicate_fault(ps[i], cols)
        } else {
            list_fault(ps, cols, i + 1)
        }
    } else {
        None
    }
}

// ---------------------------------------------------------------------------
// Evaluation against one record's metadata.
// ---------------------------------------------------------------------------

/// Whether `p` accepts a record with metadata `md`. A comparison on a
/// column the record lacks, or on unordered values, is false.
pub open spec fn holds(p: Predicate, md: Map<Seq<char>, MetaValue>) -> bool
    decreases p, 0int,
{
    match p {
        Predicate::Eq { column, value } =>
            md.contains_key(column@) && value_equal(md[column@], value@),
        Predicate::NotEq { column, value } =>
            md.contains_key(column@) && !value_equal(md[column@], value@),
        Predicate::Lt { column, value } =>
            md.contains_key(column@) && value_order(md[column@], value@) == Some(-1int),
        Predicate::Lte { column, value } =>
            md.contains_key(column@) && (value_order(md[column@], value@) == Some(-1int)
                || value_order(md[column@], value@) == Some(0int)),
        Predicate::Gt { column, value } =>
            md.contains_key(column@) && value_order(md[column@], value@) == Some(1int),
        Predicate::Gte { column, value } =>
            md.contains_key(column@) && (value_order(md[column@], value@) == Some(1int)
                || value_order(md[column@], value@) == Some(0int)),
        Predicate::In { column, values } =>
            md.contains_key(column@) && exists|i: int|
                0 <= i < values@.len() && value_equal(md[column@], #[trigger] values@[i]@),
        Predicate::And(ps) => all_hold(ps@, md, 0),
        Predicate::Or(ps) => any_holds(ps@, md, 0),
        Predicate::Not(q) => !holds(*q, md),
    }
}

/// Every predicate of `ps[i..]` holds.
pub open spec fn all_hold(ps: Seq<Predicate>, md: Map<Seq<char>, MetaValue>, i: int) -> bool
    decreases ps, ps.len() - i,
{
    if 0 <= i < ps.len() {
        holds(ps[i], md) && all_hold(ps, md, i + 1)
    } else {
        true
    }
}

/// Some predicate of `ps[i..]` holds.
pub open spec fn any_holds(ps: Seq<Predicate>, md: Map<Seq<char>, MetaValue>, i: int) -> bool
    decreases ps, ps.len() - i,
{
    if 0 <= i < ps.len() {
        holds(ps[i], md) || any_holds(ps, md, i + 1)
    } else {
        false
    }
}


fn value_check(column: &str, declared: ColumnType, value: &MetadataValue) -> (r: Result<()>)
    ensures
        r is Ok <==> value_fault(declared, column@, value@) is None,
        r matches Err(e) ==> e matches Error::SchemaViolation { reason }
            && value_fault(declared, column@, value@) == Some(reason@),
{
    if value.column_type() != declared {
        return Err(Error::SchemaViolation { reason: concat_str("predicate type mismatch for column: ", column) });
    }
    if let MetadataValue::String(_) = value {
        return Err(Error::SchemaViolation {
            reason: concat_str("string column is retrievable but not filterable: ", column),
        });
    }
    Ok(())
}

/// Looks up `column` and returns its declared type, or the unknown-column
/// error.
pub(crate) fn declared_column_type(schema: &MetadataSchema, column: &str) -> (r: Result<ColumnType>)
    ensures
        r is Ok <==> known_column(schema.spec_columns(), column@),
        r matches Ok(t) ==> t == declared_type(schema.spec_columns(), column@),
        r matches Err(e) ==> e matches Error::SchemaViolation { reason }
            && reason@ == "unknown column: "@ + column@,
{
    match schema.column(column) {
        Ok(c) => {
            proof {
                let cols = schema.spec_columns();
                let i = choose|i: int|
                    0 <= i < cols.len() && cols[i] == *c && c.spec_name() == column@
                    && forall|k: int| 0 <= k < i ==> cols[k].spec_name() != column@;
                assert(first_column(cols, column@, i));
                let j = choose|j: int| first_column(cols, column@, j);
                assert(i == j) by {
                    if i < j {
                        assert(cols[i].spec_name() != column@);
                    }
                    if j < i {
                        assert(cols[j].spec_name() != column@);
                    }
                }
            }
            Ok(c.column_type())
        },
        Err(e) => Err(e),
    }
}

fn comparison_check(schema: &MetadataSchema, column: &String, value: &MetadataValue, ordering: bool) -> (r: Result<()>)
    ensures
        r is Ok <==> comparison_fault(schema.spec_columns(), column@, value@, ordering) is None,
        r matches Err(e) ==> e matches Error::SchemaViolation { reason }
            && comparison_fault(schema.spec_columns(), column@, value@, ordering) == Some(reason@),
{
    let declared = match declared_column_type(schema, column.as_str()) {
        Ok(t) => t,
        Err(e) => return Err(e),
    };
    match value_check(column.as_str(), declared, value) {
        Ok(()) => {},
        Err(e) => return Err(e),
    }
    if ordering {
        if let MetadataValue::Bool(_) = value {
            return Err(Error::SchemaViolation {
                reason: concat_str("ordering predicate is not supported for bool column: ", column.as_str()),
            });
        }
    }
    Ok(())
}

fn membership_check(schema: &MetadataSchema, column: &String, values: &Vec<MetadataValue>) -> (r: Result<()>)
    ensures
        r is Ok <==> membership_fault(schema.spec_columns(), column@, values@) is None,
        r matches Err(e) ==> e matches Error::SchemaViolation { reason }
            && membership_fault(schema.spec_columns(), column@, values@) == Some(reason@),
{
    let declared = match declared_column_type(schema, column.as_str()) {
        Ok(t) => t,
        Err(e) => return Err(e),
    };
    let ghost cols = schema.spec_columns();
    for i in 0..values.len()
        invariant
            known_column(cols, column@),
            declared == declared_type(cols, column@),
            cols == schema.spec_columns(),
            forall|j: int| 0 <= j < i ==> value_fault(declared, column@, #[trigger] values@[j]@) is None,
    {
        match value_check(column.as_str(), declared, &values[i]) {
            Ok(()) => {},
            Err(e) => {
                proof {
                    assert(first_bad_value(declared, column@, values@, i as int));
                    let k = choose|k: int| first_bad_value(declared, column@, values@, k);
                    assert(k == i) by {
                        if k < i {
                            assert(value_fault(declared, column@, values@[k]@) is None);
                        }
                        if i < k {
                            assert(value_fault(declared, column@, values@[i as int]@) is None);
                        }
                    }
                }
                return Err(e);
            },
        }
    }
    Ok(())
}

impl Predicate {
    /// Creates an equality predicate.
    pub fn eq(column: String, value: MetadataValue) -> (p: Self)
        ensures
            p == (Predicate::Eq { column, value }),
    {
        Predicate::Eq { column, value }
    }

    /// Creates a not-equal predicate.
    pub fn not_eq(column: String, value: MetadataValue) -> (p: Self)
        ensures
            p == (Predicate::NotEq { column, value }),
    {
        Predicate::NotEq { column, value }
    }

    /// Creates a less-than predicate.
    pub fn lt(column: String, value: MetadataValue) -> (p: Self)
        ensures
            p == (Predicate::Lt { column, value }),
    {
        Predicate::Lt { column, value }
    }

    /// Creates a less-than-or-equal predicate.
    pub fn lte(column: String, value: MetadataValue) -> (p: Self)
        ensures
            p == (Predicate::Lte { column, value }),
    {
        Predicate::Lte { column, value }
    }

    /// Creates a greater-than predicate.
    pub fn gt(column: String, value: MetadataValue) -> (p: Self)
        ensures
            p == (Predicate::Gt { column, value }),
    {
        Predicate::Gt { column, value }
    }

    /// Creates a greater-than-or-equal predicate.
    pub fn gte(column: String, value: MetadataValue) -> (p: Self)
        ensures
            p == (Predicate::Gte { column, value }),
    {
        Predicate::Gte { column, value }
    }

    /// Creates an `IN` predicate. An empty value list matches no records.
    pub fn in_values(column: String, values: Vec<MetadataValue>) -> (p: Self)
        ensures
            p == (Predicate::In { column, values }),
    {
        Predicate::In { column, values }
    }

    /// Creates a conjunction.
    pub fn and(predicates: Vec<Predicate>) -> (p: Self)
        ensures
            p == Predicate::And(predicates),
    {
        Predicate::And(predicates)
    }

    /// Creates a disjunction.
    pub fn or(predicates: Vec<Predicate>) -> (p: Self)
        ensures
            p == Predicate::Or(predicates),
    {
        Predicate::Or(predicates)
    }

    /// Creates a negation.
    pub fn negate(predicate: Predicate) -> (p: Self)
        ensures
            p == Predicate::Not(Box::new(predicate)),
    {
        Predicate::Not(Box::new(predicate))
    }

    /// Checks the tree against a Metadata Schema: every column must be
    /// declared, every value must have the column's type, strings are not
    /// filterable and booleans are not ordered. Reports the first fault met
    /// walking the tree left to right.
    pub fn validate(&self, schema: &MetadataSchema) -> (r: Result<()>)
        ensures
            r is Ok <==> predicate_fault(*self, schema.spec_columns()) is None,
            r matches Err(e) ==> e matches Error::SchemaViolation { reason }
                && predicate_fault(*self, schema.spec_columns()) == Some(reason@),
        decreases self,
    {
        match self {
            Predicate::Eq { column, value } => comparison_check(schema, column, value, false),
            Predicate::NotEq { column, value } => comparison_check(schema, column, value, false),
            Predicate::Lt { column, value } => comparison_check(schema, column, value, true),
            Predicate::Lte { column, value } => comparison_check(schema, column, value, true),
            Predicate::Gt { column, value } => comparison_check(schema, column, value, true),
            Predicate::Gte { column, value } => comparison_check(schema, column, value, true),
            Predicate::In { column, values } => membership_check(schema, column, values),
            Predicate::And(ps) => {
                let ghost cols = schema.spec_columns();
                for i in 0..ps.len()
                    invariant
                        cols == schema.spec_columns(),
                        *self == Predicate::And(*ps),
                        list_fault(ps@, cols, 0) == list_fault(ps@, cols, i as int),
                {
                    match ps[i].validate(schema) {
                        Ok(()) => {},
                        Err(e) => return Err(e),
                    }
                }
                Ok(())
            },
            Predicate::Or(ps) => {
                let ghost cols = schema.spec_columns();
                for i in 0..ps.len()
                    invariant
                        cols == schema.spec_columns(),
                        *self == Predicate::Or(*ps),
                        list_fault(ps@, cols, 0) == list_fault(ps@, cols, i as int),
                {
                    match ps[i].validate(schema) {
                        Ok(()) => {},
                        Err(e) => return Err(e),
                    }
                }
                Ok(())
            },
            Predicate::Not(q) => q.validate(schema),
        }
    }
}


fn order_is(metadata: &Metadata, column: &String, value: &MetadataValue, low: i8, high: i8) -> (b: bool)
    requires
        metadata.wf(),
    ensures
        b == (metadata@.contains_key(column@) && value_order(metadata@[column@], value@) is Some
            && low <= value_order(metadata@[column@], value@)->0 <= high),
{
    match metadata.get(column.as_str()) {
        Some(actual) => match value_order_exec(actual, value) {
            Some(o) => low <= o && o <= high,
            None => false,
        },
        None => false,
    }
}

impl Predicate {
    /// Evaluates the tree against one record's metadata.
    pub fn matches(&self, metadata: &Metadata) -> (b: bool)
        requires
            metadata.wf(),
        ensures
            b == holds(*self, metadata@),
        decreases self,
    {
        match self {
            Predicate::Eq { column, value } => match metadata.get(column.as_str()) {
                Some(actual) => value_equal_exec(actual, value),
                None => false,
            },
            Predicate::NotEq { column, value } => match metadata.get(column.as_str()) {
                Some(actual) => !value_equal_exec(actual, value),
                None => false,
            },
            Predicate::Lt { column, value } => order_is(metadata, column, value, -1, -1),
            Predicate::Lte { column, value } => order_is(metadata, column, value, -1, 0),
            Predicate::Gt { column, value } => order_is(metadata, column, value, 1, 1),
            Predicate::Gte { column, value } => order_is(metadata, column, value, 0, 1),
            Predicate::In { column, values } => match metadata.get(column.as_str()) {
                Some(actual) => {
                    for i in 0..values.len()
                        invariant
                            *self == (Predicate::In { column: *column, values: *values }),
                            metadata@.contains_key(column@),
                            actual@ == metadata@[column@],
                            forall|j: int| 0 <= j < i ==> !value_equal(actual@, #[trigger] values@[j]@),
                    {
                        if value_equal_exec(actual, &values[i]) {
                            assert(self->In_values@ == values@ && self->In_column@ == column@);
                            assert(value_equal(metadata@[column@], values@[i as int]@));
                            return true;
                        }
                    }
                    false
                },
                None => false,
            },
            Predicate::And(ps) => {
                for i in 0..ps.len()
                    invariant
                        metadata.wf(),
                        *self == Predicate::And(*ps),
                        all_hold(ps@, metadata@, 0) == all_hold(ps@, metadata@, i as int),
                {
                    proof {
                        assert(decreases_to!(*self => (*self)->And_0));
                        assert(decreases_to!(*ps => ps@));
                        assert(decreases_to!(ps@ => ps@[i as int]));
                    }
                    if !ps[i].matches(metadata) {
                        return false;
                    }
                }
                true
            },
            Predicate::Or(ps) => {
                for i in 0..ps.len()
                    invariant
                        metadata.wf(),
                        *self == Predicate::Or(*ps),
                        any_holds(ps@, metadata@, 0) == any_holds(ps@, metadata@, i as int),
                {
                    proof {
                        assert(decreases_to!(*self => (*self)->Or_0));
                        assert(decreases_to!(*ps => ps@));
                        assert(decreases_to!(ps@ => ps@[i as int]));
                    }
                    if ps[i].matches(metadata) {
                        return true;
                    }
                }
                false
            },
            Predicate::Not(q) => !q.matches(metadata),
        }
    }
}


// ---------------------------------------------------------------------------
// Options.
// ---------------------------------------------------------------------------

/// Search options for exhaustive scan search.
#[derive(Debug, Clone, Copy, PartialEq, Eq)]
pub struct SearchOptions {
    top_k: u32,
    probes: Option<u32>,
    ef_search: Option<u32>,
}

impl SearchOptions {
    /// Results returned at most.
    pub closed spec fn spec_top_k(&self) -> u32 {
        self.top_k
    }

    /// The ANN probe override.
    pub closed spec fn spec_probes(&self) -> Option<u32> {
        self.probes
    }

    /// The HNSW search-breadth override.
    pub closed spec fn spec_ef_search(&self) -> Option<u32> {
        self.ef_search
    }

    /// Top-k lies in `1..=1000`.
    pub open spec fn wf(&self) -> bool {
        1 <= self.spec_top_k() <= 1000
    }
}

impl Default for SearchOptions {
    fn default() -> (o: Self)
        ensures
            o.spec_top_k() == 10,
            o.spec_probes() is None,
            o.spec_ef_search() is None,
    {
        SearchOptions { top_k: 10, probes: None, ef_search: None }
    }
}

/// Reason given for a top-k outside `1..=1000`.
pub open spec fn top_k_range_reason() -> Seq<char> {
    "top_k must be between 1 and 1,000"@
}

impl SearchOptions {
    /// Creates options with the default top-k of 10 and no overrides.
    pub fn new() -> (o: Self)
        ensures
            o.spec_top_k() == 10,
            o.spec_probes() is None,
            o.spec_ef_search() is None,
            o.wf(),
    {
        SearchOptions { top_k: 10, probes: None, ef_search: None }
    }

    /// Sets top-k, which must be between 1 and 1,000 inclusive.
    pub fn with_top_k(self, top_k: u32) -> (r: Result<Self>)
        ensures
            r is Ok <==> 1 <= top_k <= 1000,
            r matches Ok(o) ==> o.spec_top_k() == top_k && o.spec_probes() == self.spec_probes()
                && o.spec_ef_search() == self.spec_ef_search() && o.wf(),
            r matches Err(e) ==> e matches Error::SchemaViolation { reason }
                && reason@ == top_k_range_reason(),
    {
        if top_k < 1 || top_k > 1000 {
            return Err(Error::SchemaViolation { reason: String::from_str("top_k must be between 1 and 1,000") });
        }
        let mut o = self;
        o.top_k = top_k;
        Ok(o)
    }

    /// Sets the ANN probe override.
    pub fn with_probes(self, probes: Option<u32>) -> (o: Self)
        ensures
            o.spec_probes() == probes,
            o.spec_top_k() == self.spec_top_k(),
            o.spec_ef_search() == self.spec_ef_search(),
    {
        let mut o = self;
        o.probes = probes;
        o
    }

    /// Sets the HNSW search-breadth override.
    pub fn with_ef_search(self, ef_search: Option<u32>) -> (o: Self)
        ensures
            o.spec_ef_search() == ef_search,
            o.spec_top_k() == self.spec_top_k(),
            o.spec_probes() == self.spec_probes(),
    {
        let mut o = self;
        o.ef_search = ef_search;
        o
    }

    /// Returns top-k.
    pub fn top_k(&self) -> (k: u32)
        ensures
            k == self.spec_top_k(),
    {
        self.top_k
    }

    /// Returns the optional probe override.
    pub fn probes(&self) -> (p: Option<u32>)
        ensures
            p == self.spec_probes(),
    {
        self.probes
    }

    /// Returns the optional ef_search override.
    pub fn ef_search(&self) -> (e: Option<u32>)
        ensures
            e == self.spec_ef_search(),
    {
        self.ef_search
    }
}

// ---------------------------------------------------------------------------
// Candidate selection.
// ---------------------------------------------------------------------------

/// Record `p` of the Delta is a candidate: visible and accepted by the
/// predicate, if there is one.
pub open spec fn selected(d: Delta, predicate: Option<Predicate>, p: int) -> bool {
    &&& 0 <= p < d.spec_records().len()
    &&& !d.is_dead(p)
    &&& match predicate {
        Some(q) => holds(q, d.spec_records()[p].metadata),
        None => true,
    }
}

/// The predicate behind an optional reference.
pub open spec fn given(predicate: Option<&Predicate>) -> Option<Predicate> {
    match predicate {
        Some(q) => Some(*q),
        None => None,
    }
}

/// Why the Table's schema refuses the predicate, if there is one and it does.
pub open spec fn optional_fault(predicate: Option<Predicate>, cols: Seq<MetadataColumn>) -> Option<Seq<char>> {
    match predicate {
        Some(q) => predicate_fault(q, cols),
        None => None,
    }
}

/// Reason given when a brute-force oracle query asks for no neighbours.
pub open spec fn oracle_top_k_floor_reason() -> Seq<char> {
    "top_k must be at least 1"@
}

/// Reason given when a profiled query's top-k lies outside `1..=1000`.
pub open spec fn oracle_top_k_range_reason() -> Seq<char> {
    "top_k must be within 1..=1000"@
}

/// Checks the shape of a brute-force oracle query against the Delta's
/// Table: the query must have the Table's dimension (its length is reported
/// saturated to 32 bits), then `top_k` must be at least 1 and, when
/// `capped`, at most 1000.
pub fn check_oracle_query(delta: &Delta, query_len: usize, top_k: u32, capped: bool) -> (r: Result<()>)
    requires
        delta.wf(),
    ensures
        saturate_u32(query_len as nat) != delta.spec_table()@.dimension ==> r == Err::<(), Error>(
            Error::DimensionMismatch {
                expected: delta.spec_table()@.dimension,
                actual: saturate_u32(query_len as nat),
            },
        ),
        saturate_u32(query_len as nat) == delta.spec_table()@.dimension ==> (r is Ok <==> (top_k >= 1
            && (capped ==> top_k <= 1000))),
        saturate_u32(query_len as nat) == delta.spec_table()@.dimension ==> (r matches Err(e)
            ==> e matches Error::SchemaViolation { reason } && reason@ == (if capped {
                oracle_top_k_range_reason()
            } else {
                oracle_top_k_floor_reason()
            })),
{
    let table = delta.table();
    proof {
        table.lemma_view();
    }
    let actual = saturating_u32(query_len);
    if actual != table.dimension() {
        return Err(Error::DimensionMismatch { expected: table.dimension(), actual });
    }
    if capped {
        if top_k == 0 || top_k > 1000 {
            return Err(Error::SchemaViolation { reason: String::from_str("top_k must be within 1..=1000") });
        }
    } else if top_k == 0 {
        return Err(Error::SchemaViolation { reason: String::from_str("top_k must be at least 1") });
    }
    Ok(())
}

/// Checks a query of `query_len` components and the predicate against the
/// Delta's Table, then returns the positions, ascending, of every visible
/// record the predicate accepts.
pub fn select_candidates(delta: &Delta, query_len: usize, predicate: Option<&Predicate>) -> (r: Result<Vec<usize>>)
    requires
        delta.wf(),
    ensures
        saturate_u32(query_len as nat) != delta.spec_table()@.dimension ==> r == Err::<Vec<usize>, Error>(
            Error::DimensionMismatch {
                expected: delta.spec_table()@.dimension,
                actual: saturate_u32(query_len as nat),
            },
        ),
        saturate_u32(query_len as nat) == delta.spec_table()@.dimension
            && optional_fault(given(predicate), delta.spec_table()@.columns) is Some ==> (r matches Err(e)
            && e matches Error::SchemaViolation { reason }
            && optional_fault(given(predicate), delta.spec_table()@.columns) == Some(reason@)),
        saturate_u32(query_len as nat) == delta.spec_table()@.dimension
            && optional_fault(given(predicate), delta.spec_table()@.columns) is None ==> r is Ok,
        r matches Ok(v) ==> forall|j: int, k: int| 0 <= j < k < v@.len() ==> v@[j] < v@[k],
        r matches Ok(v) ==> forall|j: int| 0 <= j < v@.len()
            ==> selected(*delta, given(predicate), #[trigger] v@[j] as int),
        r matches Ok(v) ==> forall|p: int| #[trigger] selected(*delta, given(predicate), p)
            ==> v@.contains(p as usize),
{
    let ghost pred = given(predicate);
    let table = delta.table();
    proof {
        table.lemma_view();
    }
    let actual = saturating_u32(query_len);
    if actual != table.dimension() {
        return Err(Error::DimensionMismatch { expected: table.dimension(), actual });
    }
    if let Some(q) = predicate {
        match q.validate(table.metadata_schema()) {
            Ok(()) => {},
            Err(e) => return Err(e),
        }
    }
    let records = delta.records();
    let mut out: Vec<usize> = Vec::new();
    for p in 0..records.len()
        invariant
            delta.wf(),
            pred == given(predicate),
            records@.len() == delta.spec_records().len(),
            forall|m: int| 0 <= m < records@.len() ==> #[trigger] records@[m]@ == delta.spec_records()[m],
            forall|m: int| 0 <= m < records@.len() ==> #[trigger] records@[m].wf(),
            forall|j: int, k: int| 0 <= j < k < out@.len() ==> out@[j] < out@[k],
            forall|j: int| 0 <= j < out@.len() ==> #[trigger] out@[j] < p,
            forall|j: int| 0 <= j < out@.len() ==> selected(*delta, pred, #[trigger] out@[j] as int),
            forall|m: int| 0 <= m < p && selected(*delta, pred, m)
                ==> exists|j: int| 0 <= j < out@.len() && #[trigger] out@[j] == m,
    {
        let keep = if delta.is_record_tombstoned(p) {
            false
        } else {
            match predicate {
                Some(q) => q.matches(records[p].metadata()),
                None => true,
            }
        };
        let ghost before = out@;
        if keep {
            out.push(p);
        }
        proof {
            assert(keep == selected(*delta, pred, p as int));
            assert forall|m: int| 0 <= m < p + 1 && selected(*delta, pred, m)
                implies exists|j: int| 0 <= j < out@.len() && #[trigger] out@[j] == m by {
                if m == p {
                    assert(out@[out@.len() - 1] == p);
                } else {
                    let j = choose|j: int| 0 <= j < before.len() && #[trigger] before[j] == m;
                    assert(out@[j] == m);
                }
            }
        }
    }
    proof {
        assert(records@.len() == delta.spec_records().len());
        assert forall|m: int| selected(*delta, given(predicate), m)
            implies exists|j: int| 0 <= j < out@.len() && #[trigger] out@[j] == m by {
            assert(0 <= m < records@.len());
        }
        assert forall|m: int| #[trigger] selected(*delta, given(predicate), m) implies out@.contains(m as usize) by {
            let j = choose|j: int| 0 <= j < out@.len() && #[trigger] out@[j] == m;
            assert(out@[j] == m as usize);
        }
    }
    Ok(out)
}


// ---------------------------------------------------------------------------
// Ranking.
// ---------------------------------------------------------------------------

/// The key under which `f32::total_cmp` orders a distance given by its bit
/// pattern: keys compare as unsigned integers exactly as the distances do
/// (negative numbers reversed below the positive ones, NaNs at the ends).
pub open spec fn total_order_key(bits: u32) -> u32 {
    if bits >= 0x8000_0000 {
        (0xffff_ffffu32 - bits) as u32
    } else {
        (bits + 0x8000_0000u32) as u32
    }
}

/// The total-order key of a distance's bit pattern.
pub fn distance_order_key(bits: u32) -> (k: u32)
    ensures
        k == total_order_key(bits),
{
    if bits >= 0x8000_0000 {
        0xffff_ffff - bits
    } else {
        bits + 0x8000_0000
    }
}

/// A scored candidate: distance key, record id, record position.
pub type Scored = (u32, u64, usize);

/// `a` ranks no later than `b`: smaller distance first, then smaller id,
/// then earlier position.
pub open spec fn ranks_before(a: Scored, b: Scored) -> bool {
    a.0 < b.0 || (a.0 == b.0 && (a.1 < b.1 || (a.1 == b.1 && a.2 <= b.2)))
}

/// The ranking order as a relation.
pub open spec fn rank_order() -> spec_fn(Scored, Scored) -> bool {
    |a: Scored, b: Scored| ranks_before(a, b)
}

/// Number of results returned for `n` candidates and top-k `k`.
pub open spec fn result_count(n: nat, k: u32) -> int {
    if (k as nat) < n { k as int } else { n as int }
}

/// The ranking order is a total order.
pub proof fn lemma_rank_order_total()
    ensures
        total_ordering(rank_order()),
{
    let r = rank_order();
    assert forall|x: Scored| #[trigger] r(x, x) by {}
    assert forall|x: Scored, y: Scored| #[trigger] r(x, y) && #[trigger] r(y, x) implies x == y by {}
    assert forall|x: Scored, y: Scored, z: Scored| #[trigger] r(x, y) && #[trigger] r(y, z) implies r(x, z) by {}
    assert forall|x: Scored, y: Scored| #[trigger] r(x, y) || #[trigger] r(y, x) by {}
}

fn ranks_before_exec(a: &Scored, b: &Scored) -> (r: bool)
    ensures
        r == ranks_before(*a, *b),
{
    a.0 < b.0 || (a.0 == b.0 && (a.1 < b.1 || (a.1 == b.1 && a.2 <= b.2)))
}

fn merge_sorted(a: Vec<Scored>, b: Vec<Scored>) -> (r: Vec<Scored>)
    requires
        total_ordering(rank_order()),
        sorted_by(a@, rank_order()),
        sorted_by(b@, rank_order()),
    ensures
        sorted_by(r@, rank_order()),
        r@.to_multiset() == a@.to_multiset().add(b@.to_multiset()),
{
    let ghost ord = rank_order();
    let mut out: Vec<Scored> = Vec::new();
    let mut i: usize = 0;
    let mut j: usize = 0;
    proof {
        assert(a@.take(0) =~= Seq::<Scored>::empty());
        assert(b@.take(0) =~= Seq::<Scored>::empty());
        assert(out@.to_multiset() =~= a@.take(0).to_multiset().add(b@.take(0).to_multiset())) by {
            broadcast use vstd::multiset::group_multiset_axioms;
            vstd::seq_lib::to_multiset_len(a@.take(0));
            vstd::seq_lib::to_multiset_len(b@.take(0));
            vstd::seq_lib::to_multiset_len(out@);
            vstd::multiset::lemma_multiset_empty_len(a@.take(0).to_multiset());
            vstd::multiset::lemma_multiset_empty_len(b@.take(0).to_multiset());
            vstd::multiset::lemma_multiset_empty_len(out@.to_multiset());
        }
    }
    while i < a.len() || j < b.len()
        invariant
            ord == rank_order(),
            total_ordering(ord),
            sorted_by(a@, ord),
            sorted_by(b@, ord),
            i <= a@.len(),
            j <= b@.len(),
            out@.len() == i + j,
            sorted_by(out@, ord),
            out@.to_multiset() == a@.take(i as int).to_multiset().add(b@.take(j as int).to_multiset()),
            forall|k: int| 0 <= k < out@.len() && i < a@.len() ==> #[trigger] ord(out@[k], a@[i as int]),
            forall|k: int| 0 <= k < out@.len() && j < b@.len() ==> #[trigger] ord(out@[k], b@[j as int]),
        decreases a@.len() + b@.len() - i - j,
    {
        let ghost before = out@;
        if j >= b.len() || (i < a.len() && ranks_before_exec(&a[i], &b[j])) {
            let x = a[i];
            out.push(x);
            proof {
                assert(a@.take(i + 1) =~= a@.take(i as int).push(x));
                vstd::seq_lib::to_multiset_build(a@.take(i as int), x);
                vstd::seq_lib::to_multiset_build(before, x);
                assert(out@.to_multiset() =~= a@.take(i + 1).to_multiset().add(b@.take(j as int).to_multiset())) by {
                    broadcast use vstd::multiset::group_multiset_axioms;
                }
                assert forall|k: int| 0 <= k < out@.len() && i + 1 < a@.len() implies #[trigger] ord(out@[k], a@[i + 1]) by {
                    assert(ord(x, a@[i + 1]));
                    if k < before.len() {
                        assert(ord(before[k], x));
                    }
                }
                assert forall|k: int| 0 <= k < out@.len() && j < b@.len() implies #[trigger] ord(out@[k], b@[j as int]) by {
                    if k < before.len() {
                        assert(ord(before[k], b@[j as int]));
                    } else {
                        assert(ord(x, b@[j as int]));
                    }
                }
                assert forall|p: int, q: int| 0 <= p < q < out@.len() implies #[trigger] ord(out@[p], out@[q]) by {
                    if q == before.len() {
                        assert(ord(before[p], x));
                    } else {
                        assert(ord(before[p], before[q]));
                    }
                }
            }
            i = i + 1;
        } else {
            let x = b[j];
            out.push(x);
            proof {
                if i < a@.len() {
                    assert(!ranks_before(a@[i as int], x));
                    assert(ord(x, a@[i as int]));
                }
                assert(b@.take(j + 1) =~= b@.take(j as int).push(x));
                vstd::seq_lib::to_multiset_build(b@.take(j as int), x);
                vstd::seq_lib::to_multiset_build(before, x);
                assert(out@.to_multiset() =~= a@.take(i as int).to_multiset().add(b@.take(j + 1).to_multiset())) by {
                    broadcast use vstd::multiset::group_multiset_axioms;
                }
                assert forall|k: int| 0 <= k < out@.len() && j + 1 < b@.len() implies #[trigger] ord(out@[k], b@[j + 1]) by {
                    assert(ord(x, b@[j + 1]));
                    if k < before.len() {
                        assert(ord(before[k], x));
                    }
                }
                assert forall|k: int| 0 <= k < out@.len() && i < a@.len() implies #[trigger] ord(out@[k], a@[i as int]) by {
                    if k < before.len() {
                        assert(ord(before[k], a@[i as int]));
                    }
                }
                assert forall|p: int, q: int| 0 <= p < q < out@.len() implies #[trigger] ord(out@[p], out@[q]) by {
                    if q == before.len() {
                        assert(ord(before[p], x));
                    } else {
                        assert(ord(before[p], before[q]));
                    }
                }
            }
            j = j + 1;
        }
    }
    proof {
        assert(a@.take(a@.len() as int) =~= a@);
        assert(b@.take(b@.len() as int) =~= b@);
    }
    out
}

/// Sorting keeps exactly the elements it was given, and keeps them
/// distinct when they were.
pub proof fn lemma_sort_keeps_elements(v: Seq<Scored>)
    ensures
        v.sort_by(rank_order()).len() == v.len(),
        forall|i: int| 0 <= i < v.len() ==> v.contains(#[trigger] v.sort_by(rank_order())[i]),
        forall|x: Scored| v.contains(x) ==> #[trigger] v.sort_by(rank_order()).contains(x),
        v.no_duplicates() ==> v.sort_by(rank_order()).no_duplicates(),
{
    broadcast use vstd::seq_lib::group_to_multiset_ensures;
    lemma_rank_order_total();
    v.lemma_sort_by_ensures(rank_order());
    let w = v.sort_by(rank_order());
    vstd::seq_lib::to_multiset_len(v);
    vstd::seq_lib::to_multiset_len(w);
    assert forall|i: int| 0 <= i < v.len() implies v.contains(#[trigger] w[i]) by {
        assert(w.contains(w[i]));
        assert(w.to_multiset().count(w[i]) > 0);
    }
    assert forall|x: Scored| v.contains(x) implies #[trigger] w.contains(x) by {
        assert(v.to_multiset().count(x) > 0);
        assert(w.to_multiset().count(x) > 0);
    }
    if v.no_duplicates() {
        v.lemma_multiset_has_no_duplicates();
        w.lemma_multiset_has_no_duplicates_conv();
    }
}

/// Sorts scored candidates in ranking order.
pub fn sort_scored(v: Vec<Scored>) -> (r: Vec<Scored>)
    ensures
        r@ == v@.sort_by(rank_order()),
    decreases v@.len(),
{
    proof {
        lemma_rank_order_total();
        v@.lemma_sort_by_ensures(rank_order());
    }
    let n = v.len();
    if n <= 1 {
        proof {
            assert(sorted_by(v@, rank_order()));
            vstd::seq_lib::lemma_sorted_unique(v@, v@.sort_by(rank_order()), rank_order());
        }
        return v;
    }
    let mut left = v;
    let right = left.split_off(n / 2);
    let ghost left0 = left@;
    let ghost right0 = right@;
    let sorted_left = sort_scored(left);
    let sorted_right = sort_scored(right);
    proof {
        left0.lemma_sort_by_ensures(rank_order());
        right0.lemma_sort_by_ensures(rank_order());
    }
    let out = merge_sorted(sorted_left, sorted_right);
    proof {
        assert(v@ =~= left0 + right0);
        vstd::seq_lib::lemma_multiset_commutative(left0, right0);
        vstd::seq_lib::lemma_sorted_unique(out@, v@.sort_by(rank_order()), rank_order());
    }
    out
}

/// Orders scored candidates by distance key, then id, then position, and
/// keeps the first `top_k`.
pub fn rank(scored: Vec<Scored>, top_k: u32) -> (r: Vec<Scored>)
    ensures
        r@ == scored@.sort_by(rank_order()).take(result_count(scored@.len(), top_k)),
{
    let mut out = sort_scored(scored);
    proof {
        lemma_rank_order_total();
        scored@.lemma_sort_by_ensures(rank_order());
        vstd::seq_lib::to_multiset_len(scored@);
        vstd::seq_lib::to_multiset_len(out@);
    }
    let n = out.len();
    let keep = if (top_k as usize) < n { top_k as usize } else { n };
    out.truncate(keep);
    out
}


// ---------------------------------------------------------------------------
// Laws.
// ---------------------------------------------------------------------------

/// An `IN` predicate with an empty value list matches no record.
pub proof fn lemma_empty_membership_matches_nothing(p: Predicate, md: Map<Seq<char>, MetaValue>)
    requires
        p is In,
        p->In_values@.len() == 0,
    ensures
        !holds(p, md),
{
}

/// A negated predicate accepts exactly the records the predicate refuses,
/// and is refused by a schema exactly when the predicate is.
pub proof fn lemma_negation(p: Predicate, md: Map<Seq<char>, MetaValue>, cols: Seq<MetadataColumn>)
    ensures
        holds(Predicate::Not(Box::new(p)), md) == !holds(p, md),
        predicate_fault(Predicate::Not(Box::new(p)), cols) == predicate_fault(p, cols),
{
}

/// Every predicate of `ps[i..]` holds exactly when each of them does.
proof fn lemma_all_hold_each(ps: Seq<Predicate>, md: Map<Seq<char>, MetaValue>, i: int)
    requires
        0 <= i <= ps.len(),
    ensures
        all_hold(ps, md, i) <==> forall|j: int| i <= j < ps.len() ==> holds(#[trigger] ps[j], md),
    decreases ps.len() - i,
{
    if i < ps.len() {
        lemma_all_hold_each(ps, md, i + 1);
    }
}

/// A conjunction selects exactly the records that every one of its
/// children selects; the empty conjunction selects every visible record.
pub proof fn lemma_and_selects_intersection(d: Delta, ps: Vec<Predicate>, p: int)
    ensures
        selected(d, Some(Predicate::And(ps)), p) <==> (selected(d, None, p) && forall|i: int|
            0 <= i < ps@.len() ==> selected(d, Some(#[trigger] ps@[i]), p)),
{
    if 0 <= p < d.spec_records().len() {
        lemma_all_hold_each(ps@, d.spec_records()[p].metadata, 0);
        if selected(d, None, p) && forall|i: int| 0 <= i < ps@.len() ==> selected(d, Some(#[trigger] ps@[i]), p) {
            assert forall|j: int| 0 <= j < ps@.len() implies holds(#[trigger] ps@[j], d.spec_records()[p].metadata) by {
                assert(selected(d, Some(ps@[j]), p));
            }
        }
    }
}

/// Whether an optional predicate accepts metadata `md` (no predicate
/// accepts everything).
pub open spec fn accepts(predicate: Option<Predicate>, md: Map<Seq<char>, MetaValue>) -> bool {
    match predicate {
        Some(q) => holds(q, md),
        None => true,
    }
}

/// The visible records, by id, that a search with `predicate` considers.
pub open spec fn candidates(d: Delta, predicate: Option<Predicate>) -> Map<u64, RecordView> {
    Map::new(
        |id: u64| d.live().contains_key(id) && accepts(predicate, d.live()[id].metadata),
        |id: u64| d.live()[id],
    )
}

/// Candidate selection picks, for each id of [`candidates`], exactly its
/// visible record's position, and nothing else: what a search may return
/// is fixed by the visible records alone.
pub proof fn lemma_selected_are_candidates(d: Delta, predicate: Option<Predicate>)
    requires
        d.wf(),
    ensures
        forall|p: int| #[trigger] selected(d, predicate, p) ==> candidates(d, predicate).contains_key(
            d.spec_records()[p].id,
        ) && candidates(d, predicate)[d.spec_records()[p].id] == d.spec_records()[p],
        forall|id: u64| #[trigger] candidates(d, predicate).contains_key(id) ==> selected(
            d,
            predicate,
            d.spec_visible()[id] as int,
        ) && d.spec_records()[d.spec_visible()[id] as int] == candidates(d, predicate)[id],
{
    assert forall|id: u64| #[trigger] candidates(d, predicate).contains_key(id) implies selected(
        d,
        predicate,
        d.spec_visible()[id] as int,
    ) && d.spec_records()[d.spec_visible()[id] as int] == candidates(d, predicate)[id] by {
        assert(d.spec_visible().contains_key(id));
        assert(d.spec_records()[d.spec_visible()[id] as int].id == id);
    }
}

/// Ranked results come best first, never number more than top-k, and are
/// drawn from the candidates.
pub proof fn lemma_ranking_is_bounded_and_ordered(scored: Seq<Scored>, top_k: u32)
    ensures
        ({
            let r = scored.sort_by(rank_order()).take(result_count(scored.len(), top_k));
            &&& r.len() <= top_k
            &&& r.len() <= scored.len()
            &&& sorted_by(r, rank_order())
            &&& forall|i: int| 0 <= i < r.len() ==> scored.contains(#[trigger] r[i])
        }),
{
    lemma_rank_order_total();
    scored.lemma_sort_by_ensures(rank_order());
    lemma_sort_keeps_elements(scored);
    let w = scored.sort_by(rank_order());
    let r = w.take(result_count(scored.len(), top_k));
    assert forall|i: int, j: int| 0 <= i < j < r.len() implies #[trigger] (rank_order())(r[i], r[j]) by {
        assert(r[i] == w[i] && r[j] == w[j]);
    }
    assert forall|i: int| 0 <= i < r.len() implies scored.contains(#[trigger] r[i]) by {
        assert(r[i] == w[i]);
    }
}

} // verus!
