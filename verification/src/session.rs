//! An in-memory, single-threaded session over several Tables: the engine
//! surface offered to a browser host. Each Table is created through a
//! [`TableManager`] and written through its own [`WritePath`]; records are
//! inserted from flat, row-major vector arrays and typed metadata literals,
//! and deleted as Tombstones.
//!
//! Vector components are carried as IEEE-754 bit patterns; distances and
//! ranking run over the Deltas this session exposes.

use vstd::prelude::*;

use crate::corpus::ascii_lower;
use crate::corpus::clustered::{digits_value, is_ascii_digit};
use crate::errors::{Error, Result};
use crate::table::{column_ok, ColumnType, MetadataColumn, MetadataSchema, Metric, TableManager, TableView};
use crate::text::{concat_str, decimal, decimal_string, is_white_space};
use crate::write_path::{
    apply_inserts, conforms, ids_of, record_fault, Delta, InsertRecord, MetaValue, Metadata, MetadataValue,
    RecordView, WritePath, TARGET_SEGMENT_ROWS,
};

verus! {

// ---------------------------------------------------------------------------
// Literals.
// ---------------------------------------------------------------------------

/// `s` with ASCII upper case mapped to lower case.
pub open spec fn lowered(s: Seq<char>) -> Seq<char> {
    s.map_values(|c: char| ascii_lower(c))
}

/// The Metric a (lower-cased) name selects.
pub open spec fn metric_of(name: Seq<char>) -> Option<Metric> {
    if name == "cosine"@ {
        Some(Metric::Cosine)
    } else if name == "l2"@ {
        Some(Metric::L2)
    } else if name == "dot"@ {
        Some(Metric::Dot)
    } else {
        None
    }
}

/// Parses a Metric name (`cosine`, `l2` or `dot`), ignoring ASCII case.
pub fn parse_metric(value: &str) -> (r: Result<Metric>)
    ensures
        match metric_of(lowered(value@)) {
            Some(m) => r == Ok::<Metric, Error>(m),
            None => r matches Err(Error::SchemaViolation { reason }) && reason@ == "unknown metric '"@
                + lowered(value@) + "'; expected cosine, l2, or dot"@,
        },
{
    let lower = crate::corpus::to_ascii_lowercase(value);
    proof {
        reveal_strlit("cosine");
        reveal_strlit("l2");
        reveal_strlit("dot");
        reveal_strlit("unknown metric '");
        reveal_strlit("'; expected cosine, l2, or dot");
    }
    if lower == String::from_str("cosine") {
        Ok(Metric::Cosine)
    } else if lower == String::from_str("l2") {
        Ok(Metric::L2)
    } else if lower == String::from_str("dot") {
        Ok(Metric::Dot)
    } else {
        let mut reason = concat_str("unknown metric '", lower.as_str());
        reason.append("'; expected cosine, l2, or dot");
        Err(Error::SchemaViolation { reason })
    }
}

/// The name a Metric is shown by.
pub open spec fn metric_label(m: Metric) -> Seq<char> {
    match m {
        Metric::Cosine => "cosine"@,
        Metric::L2 => "l2"@,
        Metric::Dot => "dot"@,
    }
}

/// The name of a Metric, as [`parse_metric`] reads it.
pub fn metric_name(metric: Metric) -> (s: &'static str)
    ensures
        s@ == metric_label(metric),
{
    proof {
        reveal_strlit("cosine");
        reveal_strlit("l2");
        reveal_strlit("dot");
    }
    match metric {
        Metric::Cosine => "cosine",
        Metric::L2 => "l2",
        Metric::Dot => "dot",
    }
}

/// The name shown for a Metric is read back as the same Metric.
pub proof fn lemma_metric_name_round_trip(m: Metric)
    ensures
        metric_of(lowered(metric_label(m))) == Some(m),
{
    reveal_strlit("cosine");
    reveal_strlit("l2");
    reveal_strlit("dot");
    assert(lowered(metric_label(m)) =~= metric_label(m));
}

/// The column type a (lower-cased) name selects.
pub open spec fn column_type_of(name: Seq<char>) -> Option<ColumnType> {
    if name == "bool"@ {
        Some(ColumnType::Bool)
    } else if name == "i64"@ {
        Some(ColumnType::I64)
    } else if name == "f64"@ {
        Some(ColumnType::F64)
    } else if name == "string"@ {
        Some(ColumnType::String)
    } else {
        None
    }
}

/// Parses a column type name (`bool`, `i64`, `f64` or `string`), ignoring
/// ASCII case.
pub fn parse_column_type(value: &str) -> (r: Result<ColumnType>)
    ensures
        match column_type_of(lowered(value@)) {
            Some(t) => r == Ok::<ColumnType, Error>(t),
            None => r matches Err(Error::SchemaViolation { reason }) && reason@ == "unknown column type '"@
                + lowered(value@) + "'; expected bool, i64, f64, or string"@,
        },
{
    let lower = crate::corpus::to_ascii_lowercase(value);
    proof {
        reveal_strlit("bool");
        reveal_strlit("i64");
        reveal_strlit("f64");
        reveal_strlit("string");
        reveal_strlit("unknown column type '");
        reveal_strlit("'; expected bool, i64, f64, or string");
    }
    if lower == String::from_str("bool") {
        Ok(ColumnType::Bool)
    } else if lower == String::from_str("i64") {
        Ok(ColumnType::I64)
    } else if lower == String::from_str("f64") {
        Ok(ColumnType::F64)
    } else if lower == String::from_str("string") {
        Ok(ColumnType::String)
    } else {
        let mut reason = concat_str("unknown column type '", lower.as_str());
        reason.append("'; expected bool, i64, f64, or string");
        Err(Error::SchemaViolation { reason })
    }
}

/// Position `i` is the first character of `s` that is not white space.
pub open spec fn first_visible(s: Seq<char>, i: int) -> bool {
    &&& 0 <= i < s.len()
    &&& !is_white_space(s[i])
    &&& forall|j: int| 0 <= j < i ==> is_white_space(#[trigger] s[j])
}

/// Position `i` is the last character of `s` that is not white space.
pub open spec fn last_visible(s: Seq<char>, i: int) -> bool {
    &&& 0 <= i < s.len()
    &&& !is_white_space(s[i])
    &&& forall|j: int| i < j < s.len() ==> is_white_space(#[trigger] s[j])
}

/// `s` without its leading and trailing white space.
pub open spec fn trimmed(s: Seq<char>) -> Seq<char> {
    if exists|i: int| 0 <= i < s.len() && !is_white_space(#[trigger] s[i]) {
        s.subrange(choose|i: int| first_visible(s, i), (choose|i: int| last_visible(s, i)) + 1)
    } else {
        Seq::empty()
    }
}

/// `str::trim`: the documentation promises the slice with leading and
/// trailing white space removed, white space being the Unicode
/// `White_Space` property.
#[verifier::external_body]
fn trim(s: &str) -> (r: &str)
    ensures
        r@ == trimmed(s@),
{
    s.trim()
}

/// The integer a decimal literal spells, with an optional leading `+` or
/// `-`, when it fits an `i64`.
pub open spec fn i64_literal(s: Seq<char>) -> Option<i64> {
    let signed = s.len() > 0 && (s[0] == '+' || s[0] == '-');
    let digits = if signed { s.skip(1) } else { s };
    let magnitude = digits_value(digits) as int;
    let value = if signed && s[0] == '-' { -magnitude } else { magnitude };
    if digits.len() > 0 && (forall|i: int| 0 <= i < digits.len() ==> is_ascii_digit(#[trigger] digits[i]))
        && i64::MIN <= value <= i64::MAX {
        Some(value as i64)
    } else {
        None
    }
}

/// `<i64 as FromStr>::from_str`: the documentation promises that an
/// optional `+` or `-` followed by decimal digits parses when the value
/// fits, and that every other text, white space included, is refused.
#[verifier::external_body]
fn parse_i64(s: &str) -> (r: Option<i64>)
    ensures
        r == i64_literal(s@),
{
    s.parse::<i64>().ok()
}

/// What a metadata literal `raw` stands for in a column of type `t`: the
/// literal is trimmed; booleans are `true`/`false` in any ASCII case;
/// integers are decimal `i64` literals; strings are taken verbatim.
/// `f64_bits` is the outcome of reading the trimmed literal as an `f64`
/// (its bit pattern), which decides the `F64` case.
pub open spec fn literal_value(t: ColumnType, raw: Seq<char>, f64_bits: Option<u64>) -> core::result::Result<MetaValue, Seq<char>> {
    let s = trimmed(raw);
    match t {
        ColumnType::Bool => if lowered(s) == "true"@ {
            Ok(MetaValue::Bool(true))
        } else if lowered(s) == "false"@ {
            Ok(MetaValue::Bool(false))
        } else {
            Err("metadata bool column expects true/false, got '"@ + lowered(s) + "'"@)
        },
        ColumnType::I64 => match i64_literal(s) {
            Some(i) => Ok(MetaValue::I64(i)),
            None => Err("metadata i64 column expects an integer, got '"@ + s + "'"@),
        },
        ColumnType::F64 => match f64_bits {
            Some(bits) => Ok(MetaValue::F64(bits)),
            None => Err("metadata f64 column expects a number, got '"@ + s + "'"@),
        },
        ColumnType::String => Ok(MetaValue::Str(s)),
    }
}

/// Parses one metadata literal against its declared column type (see
/// [`literal_value`]); a refused literal is a schema violation.
pub fn parse_metadata_value(column_type: &ColumnType, raw: &str, f64_bits: Option<u64>) -> (r: Result<MetadataValue>)
    ensures
        match literal_value(*column_type, raw@, f64_bits) {
            Ok(v) => r matches Ok(x) && x@ == v,
            Err(reason) => r matches Err(Error::SchemaViolation { reason: why }) && why@ == reason,
        },
{
    proof {
        reveal_strlit("true");
        reveal_strlit("false");
        reveal_strlit("metadata bool column expects true/false, got '");
        reveal_strlit("metadata i64 column expects an integer, got '");
        reveal_strlit("metadata f64 column expects a number, got '");
        reveal_strlit("'");
    }
    let trimmed = trim(raw);
    match column_type {
        ColumnType::Bool => {
            let lower = crate::corpus::to_ascii_lowercase(trimmed);
            if lower == String::from_str("true") {
                Ok(MetadataValue::Bool(true))
            } else if lower == String::from_str("false") {
                Ok(MetadataValue::Bool(false))
            } else {
                let mut reason = concat_str("metadata bool column expects true/false, got '", lower.as_str());
                reason.append("'");
                Err(Error::SchemaViolation { reason })
            }
        },
        ColumnType::I64 => match parse_i64(trimmed) {
            Some(i) => Ok(MetadataValue::I64(i)),
            None => {
                let mut reason = concat_str("metadata i64 column expects an integer, got '", trimmed);
                reason.append("'");
                Err(Error::SchemaViolation { reason })
            },
        },
        ColumnType::F64 => match f64_bits {
            Some(bits) => Ok(MetadataValue::F64(bits)),
            None => {
                let mut reason = concat_str("metadata f64 column expects a number, got '", trimmed);
                reason.append("'");
                Err(Error::SchemaViolation { reason })
            },
        },
        ColumnType::String => Ok(MetadataValue::String(String::from_str(trimmed))),
    }
}


// ---------------------------------------------------------------------------
// Reports.
// ---------------------------------------------------------------------------

/// One Table's name, dimension, Metric and number of recent vectors.
#[derive(Debug)]
pub struct TableStatus {
    name: String,
    dimension: u32,
    metric: String,
    vectors: u32,
}

impl TableStatus {
    pub closed spec fn spec_name(&self) -> Seq<char> {
        self.name@
    }

    pub closed spec fn spec_dimension(&self) -> u32 {
        self.dimension
    }

    pub closed spec fn spec_metric(&self) -> Seq<char> {
        self.metric@
    }

    pub closed spec fn spec_vectors(&self) -> u32 {
        self.vectors
    }

    /// Table name.
    pub fn name(&self) -> (s: String)
        ensures
            s@ == self.spec_name(),
    {
        self.name.clone()
    }

    /// Fixed vector dimension.
    pub fn dimension(&self) -> (d: u32)
        ensures
            d == self.spec_dimension(),
    {
        self.dimension
    }

    /// Fixed distance function (`cosine`, `l2` or `dot`).
    pub fn metric(&self) -> (s: String)
        ensures
            s@ == self.spec_metric(),
    {
        self.metric.clone()
    }

    /// Number of vectors currently held.
    pub fn vectors(&self) -> (n: u32)
        ensures
            n == self.spec_vectors(),
    {
        self.vectors
    }
}

/// How many Tables a session holds, and how many vectors in all.
#[derive(Debug, Clone, Copy, PartialEq, Eq, Structural)]
pub struct SessionStatus {
    pub table_count: u32,
    pub vector_count: u32,
}

// ---------------------------------------------------------------------------
// The session.
// ---------------------------------------------------------------------------

/// The Tables created in one session, each with its own write path.
#[derive(Debug)]
pub struct FerriteDb {
    manager: TableManager,
    tables: Vec<WritePath>,
    known_tables: Vec<String>,
}

/// Position of `name` among `names`, or `-1`.
pub open spec fn name_index(names: Seq<Seq<char>>, name: Seq<char>) -> int {
    if names.contains(name) {
        choose|i: int| 0 <= i < names.len() && names[i] == name
    } else {
        -1
    }
}

/// The sum of the numbers of records of `deltas`.
pub open spec fn total_records(deltas: Seq<Delta>) -> nat
    decreases deltas.len(),
{
    if deltas.len() == 0 {
        0
    } else {
        total_records(deltas.drop_last()) + deltas.last().spec_records().len()
    }
}

impl FerriteDb {
    /// Table names in creation order.
    pub closed spec fn spec_names(&self) -> Seq<Seq<char>> {
        self.known_tables@.map_values(|s: String| s@)
    }

    /// Each Table's Delta, in creation order.
    pub closed spec fn spec_deltas(&self) -> Seq<Delta> {
        self.tables@.map_values(|w: WritePath| w.spec_delta())
    }

    /// Names are unique; each Delta is well formed and belongs to the Table
    /// of its name; the Table manager registers exactly these names.
    pub closed spec fn wf(&self) -> bool {
        &&& self.manager.wf()
        &&& self.tables@.len() == self.known_tables@.len()
        &&& forall|i: int, j: int| 0 <= i < j < self.known_tables@.len()
            ==> self.known_tables@[i]@ != self.known_tables@[j]@
        &&& forall|i: int| 0 <= i < self.tables@.len() ==> (#[trigger] self.tables@[i]).spec_delta().wf()
            && self.tables@[i].spec_delta().spec_table()@.name == self.known_tables@[i]@
        &&& forall|n: Seq<char>| #[trigger] self.manager.view().contains_key(n) <==> self.spec_names().contains(n)
    }

    /// An empty session.
    pub fn new() -> (db: Self)
        ensures
            db.wf(),
            db.spec_names() == Seq::<Seq<char>>::empty(),
            db.spec_deltas() == Seq::<Delta>::empty(),
    {
        let db = FerriteDb { manager: TableManager::new(), tables: Vec::new(), known_tables: Vec::new() };
        assert(db.spec_names() =~= Seq::<Seq<char>>::empty());
        assert(db.spec_deltas() =~= Seq::<Delta>::empty());
        db
    }

    fn find(&self, name: &str) -> (r: Option<usize>)
        requires
            self.wf(),
        ensures
            match r {
                Some(i) => i < self.spec_names().len() && i == name_index(self.spec_names(), name@)
                    && self.spec_names()[i as int] == name@,
                None => !self.spec_names().contains(name@) && name_index(self.spec_names(), name@) == -1,
            },
    {
        let wanted = String::from_str(name);
        for i in 0..self.known_tables.len()
            invariant
                self.wf(),
                wanted@ == name@,
                forall|k: int| 0 <= k < i ==> #[trigger] self.known_tables@[k]@ != name@,
        {
            if self.known_tables[i] == wanted {
                proof {
                    let names = self.spec_names();
                    assert(names[i as int] == name@);
                    assert(names.contains(name@));
                    let j = choose|j: int| 0 <= j < names.len() && names[j] == name@;
                    assert(j == i) by {
                        if j < i {
                            assert(self.known_tables@[j]@ != name@);
                        }
                        if i < j {
                            assert(self.known_tables@[i as int]@ != self.known_tables@[j]@);
                        }
                    }
                }
                return Some(i);
            }
        }
        proof {
            let names = self.spec_names();
            assert forall|k: int| 0 <= k < names.len() implies names[k] != name@ by {
                assert(self.known_tables@[k]@ != name@);
            }
        }
        None
    }

    /// Names of every Table created in this session, in creation order.
    pub fn list_tables(&self) -> (names: Vec<String>)
        ensures
            names@.map_values(|s: String| s@) == self.spec_names(),
    {
        let mut names: Vec<String> = Vec::new();
        for i in 0..self.known_tables.len()
            invariant
                names@.len() == i,
                forall|k: int| 0 <= k < i ==> (#[trigger] names@[k])@ == self.known_tables@[k]@,
        {
            names.push(self.known_tables[i].clone());
        }
        assert(names@.map_values(|s: String| s@) =~= self.spec_names());
        names
    }

    /// The Delta of the Table named `table_name`.
    pub fn table_delta(&self, table_name: &str) -> (r: Result<&Delta>)
        requires
            self.wf(),
        ensures
            self.spec_names().contains(table_name@) <==> r is Ok,
            r matches Ok(d) ==> *d == self.spec_deltas()[name_index(self.spec_names(), table_name@)],
            r matches Err(e) ==> e matches Error::TableNotFound { name } && name@ == table_name@,
    {
        match self.find(table_name) {
            Some(i) => Ok(self.tables[i].delta()),
            None => Err(Error::TableNotFound { name: String::from_str(table_name) }),
        }
    }
}


/// Why a Table named `name` with `dimension` cannot join a session whose
/// Tables are named `names`, if it cannot (the Table manager's checks, in
/// order).
pub open spec fn creation_fault(names: Seq<Seq<char>>, name: Seq<char>, dimension: u32) -> Option<Seq<char>> {
    if !crate::text::is_usable_name(name) {
        Some(crate::table::bad_table_name_reason())
    } else if dimension == 0 {
        Some(crate::table::zero_dimension_reason())
    } else if names.contains(name) {
        Some("duplicate table: "@ + name)
    } else {
        None
    }
}

/// `after` is `before` with one more Table, named `name`, holding an empty
/// Delta for a Table of the given shape.
pub open spec fn table_added(
    before_names: Seq<Seq<char>>,
    before_deltas: Seq<Delta>,
    after_names: Seq<Seq<char>>,
    after_deltas: Seq<Delta>,
    table: TableView,
) -> bool {
    &&& after_names == before_names.push(table.name)
    &&& after_deltas.len() == before_deltas.len() + 1
    &&& after_deltas.take(before_deltas.len() as int) == before_deltas
    &&& after_deltas.last().spec_table()@ == table
    &&& after_deltas.last().spec_records() == Seq::<RecordView>::empty()
    &&& after_deltas.last().live() == Map::<u64, RecordView>::empty()
    &&& after_deltas.last().spec_hidden() == Set::<u64>::empty()
}

impl FerriteDb {
    /// Whole-session status: how many Tables exist and how many vectors
    /// they hold in all (each count cut to 32 bits).
    pub fn status(&self) -> (st: SessionStatus)
        requires
            self.wf(),
        ensures
            st.table_count == self.spec_deltas().len() as u32,
            st.vector_count == total_records(self.spec_deltas()) as u32,
    {
        let ghost deltas = self.spec_deltas();
        let mut total: u128 = 0;
        for i in 0..self.tables.len()
            invariant
                deltas == self.spec_deltas(),
                total == total_records(deltas.take(i as int)),
                total <= i * (usize::MAX as int),
        {
            let n = self.tables[i].delta().len();
            proof {
                assert(deltas.take(i + 1).drop_last() =~= deltas.take(i as int));
                assert(total + n <= (i + 1) * (usize::MAX as int)) by (nonlinear_arith)
                    requires
                        total <= i * (usize::MAX as int),
                        n <= usize::MAX,
                ;
                assert((i + 1) * (usize::MAX as int) <= (usize::MAX as int) * (usize::MAX as int)) by (nonlinear_arith)
                    requires
                        i + 1 <= usize::MAX,
                ;
                assert((usize::MAX as int) * (usize::MAX as int) <= u128::MAX) by (nonlinear_arith)
                    requires
                        usize::MAX <= u64::MAX,
                ;
            }
            total = total + n as u128;
        }
        assert(deltas.take(deltas.len() as int) =~= deltas);
        SessionStatus { table_count: self.tables.len() as u32, vector_count: total as u32 }
    }

    /// Per-Table status: name, dimension, Metric, and the number of recent
    /// vectors (cut to 32 bits).
    pub fn table_status(&self, table_name: &str) -> (r: Result<TableStatus>)
        requires
            self.wf(),
        ensures
            self.spec_names().contains(table_name@) <==> r is Ok,
            r matches Ok(st) ==> {
                let d = self.spec_deltas()[name_index(self.spec_names(), table_name@)];
                &&& st.spec_name() == d.spec_table()@.name
                &&& st.spec_dimension() == d.spec_table()@.dimension
                &&& st.spec_metric() == metric_label(d.spec_table()@.metric)
                &&& st.spec_vectors() == d.spec_records().len() as u32
            },
            r matches Err(e) ==> e matches Error::TableNotFound { name } && name@ == table_name@,
    {
        let delta = match self.table_delta(table_name) {
            Ok(d) => d,
            Err(e) => return Err(e),
        };
        let table = delta.table();
        proof {
            table.lemma_view();
        }
        Ok(TableStatus {
            name: String::from_str(table.name()),
            dimension: table.dimension(),
            metric: String::from_str(metric_name(table.metric())),
            vectors: delta.len() as u32,
        })
    }

    /// Records Tombstones for `ids` in the Table named `table_name`, and
    /// returns the number of recent vectors it holds (cut to 32 bits).
    pub fn delete_records(&mut self, table_name: &str, ids: Vec<u64>) -> (r: Result<u32>)
        requires
            old(self).wf(),
        ensures
            final(self).wf(),
            final(self).spec_names() == old(self).spec_names(),
            old(self).spec_names().contains(table_name@) <==> r is Ok,
            r matches Err(e) ==> e matches Error::TableNotFound { name } && name@ == table_name@
                && final(self).spec_deltas() == old(self).spec_deltas(),
            r is Ok ==> {
                let i = name_index(old(self).spec_names(), table_name@);
                let d = old(self).spec_deltas()[i];
                let d2 = final(self).spec_deltas()[i];
                &&& r == Ok::<u32, Error>(d.spec_records().len() as u32)
                &&& final(self).spec_deltas() == old(self).spec_deltas().update(i, d2)
                &&& d2.spec_table() == d.spec_table()
                &&& d2.spec_records() == d.spec_records()
                &&& d2.live() == d.live().remove_keys(ids@.to_set())
                &&& d2.spec_hidden() == d.spec_hidden().union(ids@.to_set().intersect(d.live().dom()))
            },
    {
        let i = match self.find(table_name) {
            Some(i) => i,
            None => return Err(Error::TableNotFound { name: String::from_str(table_name) }),
        };
        let ghost before = self.tables@;
        let _ = self.tables[i].delete(ids.as_slice());
        let n = self.tables[i].delta().len();
        proof {
            assert(forall|k: int| 0 <= k < self.tables@.len() && k != i ==> self.tables@[k] == before[k]);
            assert(self.spec_names() =~= old(self).spec_names());
            assert(self.spec_deltas() =~= old(self).spec_deltas().update(i as int, self.tables@[i as int].spec_delta()));
        }
        Ok(n as u32)
    }

    /// Creates a Table with no metadata columns, of the given dimension and
    /// Metric (`cosine`, `l2` or `dot`, in any ASCII case).
    pub fn create_table(&mut self, name: &str, dimension: u32, metric: &str) -> (r: Result<()>)
        requires
            old(self).wf(),
        ensures
            final(self).wf(),
            r is Err ==> final(self).spec_names() == old(self).spec_names()
                && final(self).spec_deltas() == old(self).spec_deltas(),
            match metric_of(lowered(metric@)) {
                None => r matches Err(Error::SchemaViolation { reason }) && reason@ == "unknown metric '"@
                    + lowered(metric@) + "'; expected cosine, l2, or dot"@,
                Some(m) => match creation_fault(old(self).spec_names(), name@, dimension) {
                    Some(reason) => r matches Err(Error::SchemaViolation { reason: why }) && why@ == reason,
                    None => r is Ok && table_added(
                        old(self).spec_names(),
                        old(self).spec_deltas(),
                        final(self).spec_names(),
                        final(self).spec_deltas(),
                        TableView { name: name@, dimension, metric: m, columns: Seq::empty() },
                    ),
                },
            },
    {
        let parsed = match parse_metric(metric) {
            Ok(m) => m,
            Err(e) => return Err(e),
        };
        let schema = MetadataSchema::empty();
        self.register(name, dimension, parsed, schema)
    }

    fn register(&mut self, name: &str, dimension: u32, metric: Metric, schema: MetadataSchema) -> (r: Result<()>)
        requires
            old(self).wf(),
            schema.wf(),
        ensures
            final(self).wf(),
            r is Err ==> final(self).spec_names() == old(self).spec_names()
                && final(self).spec_deltas() == old(self).spec_deltas(),
            match creation_fault(old(self).spec_names(), name@, dimension) {
                Some(reason) => r matches Err(Error::SchemaViolation { reason: why }) && why@ == reason,
                None => r is Ok && table_added(
                    old(self).spec_names(),
                    old(self).spec_deltas(),
                    final(self).spec_names(),
                    final(self).spec_deltas(),
                    TableView { name: name@, dimension, metric, columns: schema.spec_columns() },
                ),
            },
    {
        let table = match self.manager.create(String::from_str(name), dimension, metric, schema) {
            Ok(t) => t,
            Err(e) => {
                proof {
                    assert(self.spec_names() == old(self).spec_names());
                }
                return Err(e);
            },
        };
        proof {
            table.lemma_view();
        }
        let ghost before_tables = self.tables@;
        let ghost before_known = self.known_tables@;
        self.tables.push(WritePath::new(table));
        self.known_tables.push(String::from_str(name));
        proof {
            assert(self.spec_names() =~= old(self).spec_names().push(name@));
            assert(self.spec_deltas().take(before_tables.len() as int) =~= old(self).spec_deltas());
            assert forall|n: Seq<char>| #[trigger] self.manager.view().contains_key(n) <==> self.spec_names().contains(n) by {
                if self.spec_names().contains(n) && n != name@ {
                    let k = choose|k: int| 0 <= k < self.spec_names().len() && self.spec_names()[k] == n;
                    assert(old(self).spec_names()[k] == n);
                }
                if n != name@ && old(self).spec_names().contains(n) {
                    let k = choose|k: int| 0 <= k < old(self).spec_names().len() && old(self).spec_names()[k] == n;
                    assert(self.spec_names()[k] == n);
                }
                if n == name@ {
                    assert(self.spec_names()[before_known.len() as int] == n);
                }
            }
            assert forall|i: int, j: int| 0 <= i < j < self.known_tables@.len()
                implies self.known_tables@[i]@ != self.known_tables@[j]@ by {
                if j == before_known.len() {
                    assert(old(self).spec_names()[i] == before_known[i]@);
                    assert(old(self).spec_names().contains(before_known[i]@));
                }
            }
        }
        Ok(())
    }
}


/// The first of `types[i..n]` that names no column type, as its refusal.
pub open spec fn types_fault(types: Seq<Seq<char>>, n: int, i: int) -> Option<Seq<char>>
    decreases n - i,
{
    if 0 <= i < n {
        match column_type_of(lowered(types[i])) {
            Some(_) => types_fault(types, n, i + 1),
            None => Some(
                "unknown column type '"@ + lowered(types[i]) + "'; expected bool, i64, f64, or string"@,
            ),
        }
    } else {
        None
    }
}

/// Column `i` is the first that a Metadata Schema refuses.
pub open spec fn first_bad_column(names: Seq<Seq<char>>, i: int) -> bool {
    &&& 0 <= i < names.len()
    &&& !column_ok(names, i)
    &&& forall|k: int| 0 <= k < i ==> #[trigger] column_ok(names, k)
}

/// Why columns named `names` do not form a Metadata Schema, if they do
/// not: the first column whose name is unusable or repeats an earlier one.
pub open spec fn schema_fault(names: Seq<Seq<char>>) -> Option<Seq<char>> {
    if exists|i: int| first_bad_column(names, i) {
        let i = choose|i: int| first_bad_column(names, i);
        if !crate::text::is_usable_name(names[i]) {
            Some("column names must be non-empty and contain no NUL bytes"@)
        } else {
            Some("duplicate column: "@ + names[i])
        }
    } else {
        None
    }
}

/// The smaller of two lengths.
pub open spec fn shorter(a: nat, b: nat) -> nat {
    if a <= b { a } else { b }
}

impl FerriteDb {
    /// Creates a Table with a typed Metadata Schema: column `k` is named
    /// `col_names[k]` and typed by `col_types[k]` (`bool`, `i64`, `f64` or
    /// `string`, in any ASCII case), for as many columns as both lists
    /// hold. Refuses, in this order: an unknown Metric, an unknown column
    /// type, a refused schema, a refused Table.
    pub fn create_table_schema(
        &mut self,
        name: &str,
        dimension: u32,
        metric: &str,
        col_names: Vec<String>,
        col_types: Vec<String>,
    ) -> (r: Result<()>)
        requires
            old(self).wf(),
        ensures
            final(self).wf(),
            r is Err ==> final(self).spec_names() == old(self).spec_names()
                && final(self).spec_deltas() == old(self).spec_deltas(),
            ({
                let n = shorter(col_names@.len(), col_types@.len()) as int;
                let types = col_types@.map_values(|s: String| s@);
                let names = col_names@.take(n).map_values(|s: String| s@);
                match metric_of(lowered(metric@)) {
                    None => r matches Err(Error::SchemaViolation { reason }) && reason@ == "unknown metric '"@
                        + lowered(metric@) + "'; expected cosine, l2, or dot"@,
                    Some(m) => match types_fault(types, n, 0) {
                        Some(reason) => r matches Err(Error::SchemaViolation { reason: why }) && why@ == reason,
                        None => match schema_fault(names) {
                            Some(reason) => r matches Err(Error::SchemaViolation { reason: why }) && why@ == reason,
                            None => match creation_fault(old(self).spec_names(), name@, dimension) {
                                Some(reason) => r matches Err(Error::SchemaViolation { reason: why })
                                    && why@ == reason,
                                None => {
                                    let cols = final(self).spec_deltas().last().spec_table()@.columns;
                                    &&& r is Ok
                                    &&& table_added(
                                        old(self).spec_names(),
                                        old(self).spec_deltas(),
                                        final(self).spec_names(),
                                        final(self).spec_deltas(),
                                        TableView { name: name@, dimension, metric: m, columns: cols },
                                    )
                                    &&& cols.len() == n
                                    &&& forall|k: int| 0 <= k < n ==> (#[trigger] cols[k]).spec_name() == names[k]
                                        && cols[k].spec_column_type() == column_type_of(lowered(types[k]))->0
                                },
                            },
                        },
                    },
                }
            }),
    {
        let parsed = match parse_metric(metric) {
            Ok(m) => m,
            Err(e) => return Err(e),
        };
        let n = if col_names.len() <= col_types.len() { col_names.len() } else { col_types.len() };
        let ghost types = col_types@.map_values(|s: String| s@);
        let mut columns: Vec<MetadataColumn> = Vec::new();
        for i in 0..n
            invariant
                *self == *old(self),
                old(self).wf(),
                metric_of(lowered(metric@)) == Some(parsed),
                n == shorter(col_names@.len(), col_types@.len()),
                types == col_types@.map_values(|s: String| s@),
                columns@.len() == i,
                forall|k: int| 0 <= k < i ==> (#[trigger] columns@[k]).spec_name() == col_names@[k]@
                    && columns@[k].spec_column_type() == column_type_of(lowered(types[k]))->0,
                types_fault(types, n as int, 0) == types_fault(types, n as int, i as int),
        {
            let t = match parse_column_type(col_types[i].as_str()) {
                Ok(t) => t,
                Err(e) => return Err(e),
            };
            columns.push(MetadataColumn::new(col_names[i].clone(), t));
        }
        let ghost names = col_names@.take(n as int).map_values(|s: String| s@);
        assert(crate::table::column_names(columns@) =~= names);
        let schema = match MetadataSchema::new(columns) {
            Ok(s) => s,
            Err(e) => {
                proof {
                    let i = choose|i: int| 0 <= i < names.len()
                        && (forall|k: int| 0 <= k < i ==> column_ok(names, k))
                        && !column_ok(names, i)
                        && (if !crate::text::is_usable_name(names[i]) {
                            e matches Error::SchemaViolation { reason }
                                && reason@ == "column names must be non-empty and contain no NUL bytes"@
                        } else {
                            e matches Error::SchemaViolation { reason }
                                && reason@ == "duplicate column: "@ + names[i]
                        });
                    assert(first_bad_column(names, i));
                    let j = choose|j: int| first_bad_column(names, j);
                    assert(i == j) by {
                        if j < i {
                            assert(column_ok(names, j));
                        }
                        if i < j {
                            assert(column_ok(names, i));
                        }
                    }
                }
                return Err(e);
            },
        };
        proof {
            assert forall|i: int| !first_bad_column(names, i) by {
                if first_bad_column(names, i) {
                    assert(crate::table::columns_ok(names));
                }
            }
        }
        self.register(name, dimension, parsed, schema)
    }
}


// ---------------------------------------------------------------------------
// Delta layout.
// ---------------------------------------------------------------------------

/// Number of records among `recs[a..b]` whose id carries a Tombstone.
pub open spec fn dead_between(recs: Seq<RecordView>, hidden: Set<u64>, a: int, b: int) -> nat
    decreases b - a,
{
    if b <= a {
        0
    } else {
        dead_between(recs, hidden, a, b - 1) + if hidden.contains(recs[b - 1].id) { 1nat } else { 0nat }
    }
}

/// The layout of one Table's Delta: each sealed segment's row and dead
/// counts, the active buffer's, and the Tombstone and row totals.
#[derive(Debug)]
pub struct LifecycleExport {
    sealed_counts: Vec<u32>,
    sealed_dead: Vec<u32>,
    active_total: u32,
    active_dead: u32,
    tombstoned_ids: u32,
    total_rows: u32,
}

/// `x` describes the layout of `d` (each count cut to 32 bits).
pub open spec fn layout_of(x: LifecycleExport, d: Delta) -> bool {
    let recs = d.spec_records();
    let seg = TARGET_SEGMENT_ROWS as int;
    let sealed = recs.len() as int / seg;
    &&& x.spec_sealed_counts().len() == sealed
    &&& forall|s: int| 0 <= s < sealed ==> #[trigger] x.spec_sealed_counts()[s] == seg as u32
    &&& x.spec_sealed_dead().len() == sealed
    &&& forall|s: int| 0 <= s < sealed ==> #[trigger] x.spec_sealed_dead()[s]
        == dead_between(recs, d.spec_hidden(), s * seg, (s + 1) * seg) as u32
    &&& x.spec_active_total() == (recs.len() as int % seg) as u32
    &&& x.spec_active_dead() == dead_between(recs, d.spec_hidden(), sealed * seg, recs.len() as int) as u32
    &&& x.spec_tombstoned_ids() == d.spec_hidden().len() as u32
    &&& x.spec_total_rows() == recs.len() as u32
}

impl LifecycleExport {
    pub closed spec fn spec_sealed_counts(&self) -> Seq<u32> {
        self.sealed_counts@
    }

    pub closed spec fn spec_sealed_dead(&self) -> Seq<u32> {
        self.sealed_dead@
    }

    pub closed spec fn spec_active_total(&self) -> u32 {
        self.active_total
    }

    pub closed spec fn spec_active_dead(&self) -> u32 {
        self.active_dead
    }

    pub closed spec fn spec_tombstoned_ids(&self) -> u32 {
        self.tombstoned_ids
    }

    pub closed spec fn spec_total_rows(&self) -> u32 {
        self.total_rows
    }

    /// Row count of each sealed segment, in seal order.
    pub fn sealed_counts(&self) -> (v: Vec<u32>)
        ensures
            v@ == self.spec_sealed_counts(),
    {
        self.sealed_counts.clone()
    }

    /// Tombstoned row count within each sealed segment.
    pub fn sealed_dead(&self) -> (v: Vec<u32>)
        ensures
            v@ == self.spec_sealed_dead(),
    {
        self.sealed_dead.clone()
    }

    /// Rows in the active buffer.
    pub fn active_total(&self) -> (n: u32)
        ensures
            n == self.spec_active_total(),
    {
        self.active_total
    }

    /// Tombstoned rows in the active buffer.
    pub fn active_dead(&self) -> (n: u32)
        ensures
            n == self.spec_active_dead(),
    {
        self.active_dead
    }

    /// Number of distinct Tombstoned ids.
    pub fn tombstoned_ids(&self) -> (n: u32)
        ensures
            n == self.spec_tombstoned_ids(),
    {
        self.tombstoned_ids
    }

    /// Total recent rows (sealed and active).
    pub fn total_rows(&self) -> (n: u32)
        ensures
            n == self.spec_total_rows(),
    {
        self.total_rows
    }
}

/// The sum of a run of counts.
pub open spec fn sum_counts(v: Seq<u32>) -> int
    decreases v.len(),
{
    if v.len() == 0 {
        0
    } else {
        sum_counts(v.drop_last()) + v.last() as int
    }
}

proof fn lemma_dead_bounded(recs: Seq<RecordView>, hidden: Set<u64>, a: int, b: int)
    ensures
        dead_between(recs, hidden, a, b) <= if b <= a { 0 } else { b - a },
    decreases b - a,
{
    if b > a {
        lemma_dead_bounded(recs, hidden, a, b - 1);
    }
}

proof fn lemma_sum_of_full_segments(v: Seq<u32>, seg: u32)
    requires
        forall|s: int| 0 <= s < v.len() ==> #[trigger] v[s] == seg,
    ensures
        sum_counts(v) == v.len() * seg,
    decreases v.len(),
{
    if v.len() > 0 {
        lemma_sum_of_full_segments(v.drop_last(), seg);
        assert(v.len() * seg == (v.len() - 1) * seg + seg) by (nonlinear_arith);
    }
}

/// A Delta's layout adds up: the sealed segments' rows plus the active
/// buffer's are all its recent rows, and no segment or buffer counts more
/// dead rows than rows (for Deltas whose counts fit 32 bits).
pub proof fn lemma_layout_adds_up(x: LifecycleExport, d: Delta)
    requires
        layout_of(x, d),
        d.spec_records().len() <= u32::MAX,
    ensures
        sum_counts(x.spec_sealed_counts()) + x.spec_active_total() == x.spec_total_rows(),
        forall|s: int| 0 <= s < x.spec_sealed_dead().len()
            ==> #[trigger] x.spec_sealed_dead()[s] <= x.spec_sealed_counts()[s],
        x.spec_active_dead() <= x.spec_active_total(),
{
    let recs = d.spec_records();
    let seg = TARGET_SEGMENT_ROWS as int;
    let sealed = recs.len() as int / seg;
    lemma_sum_of_full_segments(x.spec_sealed_counts(), TARGET_SEGMENT_ROWS as u32);
    assert(recs.len() as int == sealed * seg + recs.len() as int % seg);
    assert forall|s: int| 0 <= s < x.spec_sealed_dead().len()
        implies #[trigger] x.spec_sealed_dead()[s] <= x.spec_sealed_counts()[s] by {
        lemma_dead_bounded(recs, d.spec_hidden(), s * seg, (s + 1) * seg);
    }
    lemma_dead_bounded(recs, d.spec_hidden(), sealed * seg, recs.len() as int);
}

/// Counts the records among positions `from..to` whose id carries a
/// Tombstone.
fn dead_count(delta: &Delta, from: usize, to: usize) -> (n: usize)
    requires
        from <= to <= delta.spec_records().len(),
    ensures
        n == dead_between(delta.spec_records(), delta.spec_hidden(), from as int, to as int),
        n <= to - from,
{
    let records = delta.records();
    let mut n: usize = 0;
    for p in from..to
        invariant
            to <= records@.len(),
            records@.len() == delta.spec_records().len(),
            forall|q: int| 0 <= q < records@.len() ==> #[trigger] records@[q]@ == delta.spec_records()[q],
            n == dead_between(delta.spec_records(), delta.spec_hidden(), from as int, p as int),
            n <= p - from,
    {
        assert(records@[p as int]@ == delta.spec_records()[p as int]);
        if delta.is_tombstoned(records[p].id()) {
            n = n + 1;
        }
    }
    n
}

impl FerriteDb {
    /// The layout of the Delta of the Table named `table_name`, for the
    /// storage lifecycle inspector.
    pub fn export_lifecycle(&self, table_name: &str) -> (r: Result<LifecycleExport>)
        requires
            self.wf(),
        ensures
            self.spec_names().contains(table_name@) <==> r is Ok,
            r matches Ok(x) ==> layout_of(x, self.spec_deltas()[name_index(self.spec_names(), table_name@)]),
            r matches Err(e) ==> e matches Error::TableNotFound { name } && name@ == table_name@,
    {
        let delta = match self.table_delta(table_name) {
            Ok(d) => d,
            Err(e) => return Err(e),
        };
        let ghost recs = delta.spec_records();
        let ghost hidden = delta.spec_hidden();
        let sealed = delta.sealed_segment_count();
        let total = delta.len();
        let mut sealed_counts: Vec<u32> = Vec::new();
        let mut sealed_dead: Vec<u32> = Vec::new();
        for s in 0..sealed
            invariant
                sealed == recs.len() / (TARGET_SEGMENT_ROWS as nat),
                total == recs.len(),
                recs == delta.spec_records(),
                hidden == delta.spec_hidden(),
                sealed_counts@.len() == s,
                sealed_dead@.len() == s,
                forall|k: int| 0 <= k < s ==> #[trigger] sealed_counts@[k] == TARGET_SEGMENT_ROWS as u32,
                forall|k: int| 0 <= k < s ==> #[trigger] sealed_dead@[k]
                    == dead_between(recs, hidden, k * (TARGET_SEGMENT_ROWS as int), (k + 1) * (TARGET_SEGMENT_ROWS as int)) as u32,
        {
            let from = s * TARGET_SEGMENT_ROWS;
            let to = from + TARGET_SEGMENT_ROWS;
            sealed_counts.push(TARGET_SEGMENT_ROWS as u32);
            sealed_dead.push(dead_count(delta, from, to) as u32);
        }
        let active_from = sealed * TARGET_SEGMENT_ROWS;
        let active_dead = dead_count(delta, active_from, total);
        let x = LifecycleExport {
            sealed_counts,
            sealed_dead,
            active_total: delta.active_len() as u32,
            active_dead: active_dead as u32,
            tombstoned_ids: delta.tombstoned_id_count() as u32,
            total_rows: total as u32,
        };
        Ok(x)
    }
}


// ---------------------------------------------------------------------------
// Inserting from flat arrays.
// ---------------------------------------------------------------------------

/// Row `i` of a flat, row-major array of `dim`-component vectors.
pub open spec fn row_of(vectors: Seq<u32>, i: int, dim: int) -> Seq<u32> {
    vectors.subrange(i * dim, (i + 1) * dim)
}

/// The mismatch reported when a flat vector array does not hold exactly one
/// `dim`-component vector per id: the expected dimension, and the array
/// length per id (cut to 32 bits).
pub open spec fn shape_error(ids_len: nat, vectors_len: nat, dim: u32) -> Error {
    Error::DimensionMismatch {
        expected: dim,
        actual: (vectors_len / (if ids_len == 0 { 1 } else { ids_len })) as u32,
    }
}

/// A flat vector array holds one `dim`-component vector per id.
pub open spec fn shape_ok(ids_len: nat, vectors_len: nat, dim: u32) -> bool {
    dim != 0 && vectors_len == ids_len * dim
}

/// The records a flat vector array and its ids make, without metadata.
pub open spec fn plain_batch(ids: Seq<u64>, vectors: Seq<u32>, dim: int) -> Seq<RecordView> {
    Seq::new(ids.len(), |i: int| RecordView { id: ids[i], vector: row_of(vectors, i, dim), metadata: Map::empty() })
}

/// The Table named `name` has room for `extra` more records.
pub open spec fn has_room(names: Seq<Seq<char>>, deltas: Seq<Delta>, name: Seq<char>, extra: nat) -> bool {
    names.contains(name) ==> deltas[name_index(names, name)].spec_records().len() + extra <= usize::MAX
}

/// Whether `total` slots hold exactly `rows` runs of `width`.
fn fills(rows: usize, width: usize, total: usize) -> (b: bool)
    ensures
        b == (total as int == rows as int * width as int),
{
    proof {
        assert(rows as int * width as int <= u128::MAX) by (nonlinear_arith)
            requires
                rows <= usize::MAX,
                width <= usize::MAX,
                usize::MAX <= u64::MAX,
        ;
    }
    (total as u128) == (rows as u128) * (width as u128)
}

/// A copy of `vectors[start..start + len]`.
fn copy_row(vectors: &Vec<u32>, start: usize, len: usize) -> (v: Vec<u32>)
    requires
        start + len <= vectors@.len(),
    ensures
        v@ == vectors@.subrange(start as int, start + len),
{
    let mut v: Vec<u32> = Vec::new();
    let total = vectors.len();
    for k in 0..len
        invariant
            total == vectors@.len(),
            start + len <= vectors@.len(),
            v@ == vectors@.subrange(start as int, start + k),
    {
        v.push(vectors[start + k]);
        proof {
            assert(v@ =~= vectors@.subrange(start as int, start + k + 1));
        }
    }
    v
}

proof fn lemma_row_in_bounds(i: int, rows: int, dim: int)
    requires
        0 <= i < rows,
        0 <= dim,
    ensures
        0 <= i * dim,
        i * dim + dim == (i + 1) * dim,
        (i + 1) * dim <= rows * dim,
{
    assert((i + 1) * dim <= rows * dim) by (nonlinear_arith)
        requires
            i + 1 <= rows,
            0 <= dim,
    ;
    assert(0 <= i * dim) by (nonlinear_arith)
        requires
            0 <= i,
            0 <= dim,
    ;
    assert(i * dim + dim == (i + 1) * dim) by (nonlinear_arith);
}

impl FerriteDb {
    /// Appends one record per id to the Table named `table_name`, with no
    /// metadata: `vectors` is a flat, row-major array of component bit
    /// patterns aligned with `ids`. Returns the number of recent vectors the
    /// Table then holds (cut to 32 bits).
    pub fn insert_records(&mut self, table_name: &str, ids: Vec<u64>, vectors: Vec<u32>) -> (r: Result<u32>)
        requires
            old(self).wf(),
            has_room(old(self).spec_names(), old(self).spec_deltas(), table_name@, ids@.len()),
        ensures
            final(self).wf(),
            final(self).spec_names() == old(self).spec_names(),
            r is Err ==> final(self).spec_deltas() == old(self).spec_deltas(),
            !old(self).spec_names().contains(table_name@) ==> (r matches Err(Error::TableNotFound { name })
                && name@ == table_name@),
            old(self).spec_names().contains(table_name@) ==> {
                let i = name_index(old(self).spec_names(), table_name@);
                let d = old(self).spec_deltas()[i];
                let dim = d.spec_table()@.dimension;
                if !shape_ok(ids@.len(), vectors@.len(), dim) {
                    r == Err::<u32, Error>(shape_error(ids@.len(), vectors@.len(), dim))
                } else {
                    let batch = plain_batch(ids@, vectors@, dim as int);
                    let d2 = final(self).spec_deltas()[i];
                    &&& r == Ok::<u32, Error>((d.spec_records().len() + ids@.len()) as u32)
                    &&& final(self).spec_deltas() == old(self).spec_deltas().update(i, d2)
                    &&& d2.spec_table() == d.spec_table()
                    &&& d2.spec_records() == d.spec_records() + batch
                    &&& d2.live() == apply_inserts(d.live(), batch)
                    &&& d2.spec_hidden() == d.spec_hidden().difference(ids_of(batch))
                }
            },
    {
        let i = match self.find(table_name) {
            Some(i) => i,
            None => return Err(Error::TableNotFound { name: String::from_str(table_name) }),
        };
        let dim = self.tables[i].delta().table().dimension();
        proof {
            self.tables[i as int].spec_delta().spec_table().lemma_view();
        }
        let d = dim as usize;
        if dim == 0 || !fills(ids.len(), d, vectors.len()) {
            let per = if ids.len() == 0 { 1 } else { ids.len() };
            return Err(Error::DimensionMismatch { expected: dim, actual: (vectors.len() / per) as u32 });
        }
        let ghost batch = plain_batch(ids@, vectors@, d as int);
        let ghost table = self.tables[i as int].spec_delta().spec_table()@;
        let mut records: Vec<InsertRecord> = Vec::new();
        let total = vectors.len();
        for k in 0..ids.len()
            invariant
                total == vectors@.len(),
                vectors@.len() == ids@.len() * d,
                d == table.dimension,
                batch == plain_batch(ids@, vectors@, d as int),
                records@.len() == k,
                forall|j: int| 0 <= j < k ==> (#[trigger] records@[j]).wf() && records@[j]@ == batch[j],
                forall|j: int| 0 <= j < k ==> conforms(table, #[trigger] records@[j]@),
        {
            proof {
                lemma_row_in_bounds(k as int, ids@.len() as int, d as int);
            }
            let vector = copy_row(&vectors, k * d, d);
            let record = InsertRecord::new(ids[k], vector, Metadata::new());
            proof {
                assert(record@ == batch[k as int]);
                assert(record@.metadata =~= Map::<Seq<char>, MetaValue>::empty());
            }
            records.push(record);
        }
        let ghost before = self.tables@;
        let inserted = self.tables[i].insert(records);
        proof {
            assert(inserted is Ok);
            assert(records@.map_values(|x: InsertRecord| x@) =~= batch);
        }
        let n = self.tables[i].delta().len();
        proof {
            assert(forall|k: int| 0 <= k < self.tables@.len() && k != i ==> self.tables@[k] == before[k]);
            assert(self.spec_names() =~= old(self).spec_names());
            assert(self.spec_deltas() =~= old(self).spec_deltas().update(i as int, self.tables@[i as int].spec_delta()));
        }
        Ok(n as u32)
    }
}


/// Why the metadata literal count is refused: it must be one per
/// (record, column) pair.
pub open spec fn count_mismatch_reason(values_len: nat, rows: nat, columns: nat) -> Seq<char> {
    "metadata value count "@ + decimal(values_len) + " does not match "@ + decimal(rows) + " records x "@
        + decimal(columns) + " columns"@
}

/// The column types named by `types` (meaningful where each names one).
pub open spec fn parsed_types(types: Seq<Seq<char>>) -> Seq<ColumnType> {
    types.map_values(|t: Seq<char>| column_type_of(lowered(t))->0)
}

/// The literal of record `index` for column `c` in a flat, row-major array
/// with `columns` literals per record.
pub open spec fn literal_at(raws: Seq<Seq<char>>, columns: int, index: int, c: int) -> Seq<char> {
    raws[index * columns + c]
}

/// The first refused literal, walking records from `index` (column `c`
/// on) and each record's first `n` columns in order.
pub open spec fn literals_fault(
    types: Seq<ColumnType>,
    raws: Seq<Seq<char>>,
    f64s: Seq<Option<u64>>,
    rows: int,
    columns: int,
    n: int,
    index: int,
    c: int,
) -> Option<Seq<char>>
    decreases rows - index, n - c,
{
    if index < 0 || rows <= index {
        None
    } else if c < 0 || n <= c {
        literals_fault(types, raws, f64s, rows, columns, n, index + 1, 0)
    } else {
        match literal_value(types[c], literal_at(raws, columns, index, c), f64s[index * columns + c]) {
            Err(reason) => Some(reason),
            Ok(_) => literals_fault(types, raws, f64s, rows, columns, n, index, c + 1),
        }
    }
}

/// The metadata of record `index` after its first `c` columns: each
/// column's value stored under its name, a later column of the same name
/// replacing an earlier one.
pub open spec fn row_metadata(
    names: Seq<Seq<char>>,
    types: Seq<ColumnType>,
    raws: Seq<Seq<char>>,
    f64s: Seq<Option<u64>>,
    columns: int,
    index: int,
    c: int,
) -> Map<Seq<char>, MetaValue>
    decreases c,
{
    if c <= 0 {
        Map::empty()
    } else {
        let value = match literal_value(types[c - 1], literal_at(raws, columns, index, c - 1), f64s[index * columns + c - 1]) {
            Ok(v) => v,
            Err(_) => MetaValue::Bool(false),
        };
        row_metadata(names, types, raws, f64s, columns, index, c - 1).insert(names[c - 1], value)
    }
}

/// The records a flat vector array, its ids and its metadata literals make.
pub open spec fn meta_batch(
    ids: Seq<u64>,
    vectors: Seq<u32>,
    dim: int,
    names: Seq<Seq<char>>,
    types: Seq<ColumnType>,
    raws: Seq<Seq<char>>,
    f64s: Seq<Option<u64>>,
    columns: int,
    n: int,
) -> Seq<RecordView> {
    Seq::new(
        ids.len(),
        |i: int| RecordView {
            id: ids[i],
            vector: row_of(vectors, i, dim),
            metadata: row_metadata(names, types, raws, f64s, columns, i, n),
        },
    )
}

/// The outcome of inserting with metadata into a Table `d` (after the
/// lookup): the checks in order, then the insert itself.
pub open spec fn metadata_insert_outcome(
    d: Delta,
    d2: Delta,
    ids: Seq<u64>,
    vectors: Seq<u32>,
    names: Seq<Seq<char>>,
    types: Seq<Seq<char>>,
    raws: Seq<Seq<char>>,
    f64s: Seq<Option<u64>>,
    r: Result<u32>,
) -> bool {
    let dim = d.spec_table()@.dimension;
    let columns = names.len() as int;
    let n = shorter(names.len(), types.len()) as int;
    let kinds = parsed_types(types);
    if !shape_ok(ids.len(), vectors.len(), dim) {
        r == Err::<u32, Error>(shape_error(ids.len(), vectors.len(), dim))
    } else if raws.len() != ids.len() * columns {
        r matches Err(Error::SchemaViolation { reason })
            && reason@ == count_mismatch_reason(raws.len(), ids.len(), columns as nat)
    } else if types_fault(types, types.len() as int, 0) is Some {
        r matches Err(Error::SchemaViolation { reason })
            && Some(reason@) == types_fault(types, types.len() as int, 0)
    } else if literals_fault(kinds, raws, f64s, ids.len() as int, columns, n, 0, 0) is Some {
        r matches Err(Error::SchemaViolation { reason })
            && Some(reason@) == literals_fault(kinds, raws, f64s, ids.len() as int, columns, n, 0, 0)
    } else {
        let batch = meta_batch(ids, vectors, dim as int, names, kinds, raws, f64s, columns, n);
        if forall|k: int| 0 <= k < batch.len() ==> conforms(d.spec_table()@, #[trigger] batch[k]) {
            &&& r == Ok::<u32, Error>((d.spec_records().len() + ids.len()) as u32)
            &&& d2.spec_table() == d.spec_table()
            &&& d2.spec_records() == d.spec_records() + batch
            &&& d2.live() == apply_inserts(d.live(), batch)
            &&& d2.spec_hidden() == d.spec_hidden().difference(ids_of(batch))
        } else {
            r matches Err(e) && exists|k: int| 0 <= k < batch.len()
                && (forall|j: int| 0 <= j < k ==> conforms(d.spec_table()@, #[trigger] batch[j]))
                && record_fault(d.spec_table()@, batch[k], e)
        }
    }
}

impl FerriteDb {
    /// Appends records with typed metadata to the Table named `table_name`.
    /// `vectors` is a flat, row-major array of component bit patterns aligned
    /// with `ids`; `values` holds one literal per (record, column) pair,
    /// record-major, read against `col_types` (see [`literal_value`]);
    /// `values_f64[q]` is the outcome of reading the trimmed `values[q]` as an
    /// `f64`. Returns the number of recent vectors the Table then holds (cut
    /// to 32 bits).
    pub fn insert_with_metadata(
        &mut self,
        table_name: &str,
        ids: Vec<u64>,
        vectors: Vec<u32>,
        col_names: Vec<String>,
        col_types: Vec<String>,
        values: Vec<String>,
        values_f64: Vec<Option<u64>>,
    ) -> (r: Result<u32>)
        requires
            old(self).wf(),
            has_room(old(self).spec_names(), old(self).spec_deltas(), table_name@, ids@.len()),
            values_f64@.len() == values@.len(),
        ensures
            final(self).wf(),
            final(self).spec_names() == old(self).spec_names(),
            r is Err ==> final(self).spec_deltas() == old(self).spec_deltas(),
            !old(self).spec_names().contains(table_name@) ==> (r matches Err(Error::TableNotFound { name })
                && name@ == table_name@),
            old(self).spec_names().contains(table_name@) ==> {
                let i = name_index(old(self).spec_names(), table_name@);
                &&& metadata_insert_outcome(
                    old(self).spec_deltas()[i],
                    final(self).spec_deltas()[i],
                    ids@,
                    vectors@,
                    col_names@.map_values(|s: String| s@),
                    col_types@.map_values(|s: String| s@),
                    values@.map_values(|s: String| s@),
                    values_f64@,
                    r,
                )
                &&& final(self).spec_deltas() == old(self).spec_deltas().update(i, final(self).spec_deltas()[i])
            },
    {
        let i = match self.find(table_name) {
            Some(i) => i,
            None => return Err(Error::TableNotFound { name: String::from_str(table_name) }),
        };
        let ghost names = col_names@.map_values(|s: String| s@);
        let ghost types_text = col_types@.map_values(|s: String| s@);
        let ghost raws = values@.map_values(|s: String| s@);
        let dim = self.tables[i].delta().table().dimension();
        proof {
            self.tables[i as int].spec_delta().spec_table().lemma_view();
        }
        let d = dim as usize;
        if dim == 0 || !fills(ids.len(), d, vectors.len()) {
            let per = if ids.len() == 0 { 1 } else { ids.len() };
            return Err(Error::DimensionMismatch { expected: dim, actual: (vectors.len() / per) as u32 });
        }
        let columns = col_names.len();
        if !fills(ids.len(), columns, values.len()) {
            proof {
                reveal_strlit("metadata value count ");
                reveal_strlit(" does not match ");
                reveal_strlit(" records x ");
                reveal_strlit(" columns");
            }
            let mut reason = String::from_str("metadata value count ");
            let a = decimal_string(values.len() as u64);
            reason.append(a.as_str());
            reason.append(" does not match ");
            let b = decimal_string(ids.len() as u64);
            reason.append(b.as_str());
            reason.append(" records x ");
            let c = decimal_string(columns as u64);
            reason.append(c.as_str());
            reason.append(" columns");
            return Err(Error::SchemaViolation { reason });
        }
        let ghost outer = (old(self).spec_names().contains(table_name@) && i as int
            == name_index(old(self).spec_names(), table_name@) && i < old(self).spec_deltas().len()
            && shape_ok(ids@.len(), vectors@.len(), old(self).spec_deltas()[i as int].spec_table()@.dimension)
            && values@.len() == ids@.len() * columns && columns == col_names@.len()
            && d == old(self).spec_deltas()[i as int].spec_table()@.dimension);
        assert(outer);
        let mut types: Vec<ColumnType> = Vec::new();
        for k in 0..col_types.len()
            invariant
                *self == *old(self),
                old(self).wf(),
                outer == (old(self).spec_names().contains(table_name@) && i as int
                    == name_index(old(self).spec_names(), table_name@) && i < old(self).spec_deltas().len()
                    && shape_ok(ids@.len(), vectors@.len(), old(self).spec_deltas()[i as int].spec_table()@.dimension)
                    && values@.len() == ids@.len() * columns && columns == col_names@.len()
                    && d == old(self).spec_deltas()[i as int].spec_table()@.dimension),
                outer,
                types_text == col_types@.map_values(|s: String| s@),
                types@ == parsed_types(types_text).take(k as int),
                types_fault(types_text, types_text.len() as int, 0) == types_fault(types_text, types_text.len() as int, k as int),
        {
            let t = match parse_column_type(col_types[k].as_str()) {
                Ok(t) => t,
                Err(e) => return Err(e),
            };
            types.push(t);
            proof {
                assert(types@ =~= parsed_types(types_text).take(k + 1));
            }
        }
        assert(types@ =~= parsed_types(types_text));
        let n = if columns <= types.len() { columns } else { types.len() };
        let ghost kinds = parsed_types(types_text);
        let vals_len = values.len();
        let ghost table = self.tables[i as int].spec_delta().spec_table()@;
        let ghost batch = meta_batch(ids@, vectors@, d as int, names, kinds, raws, values_f64@, columns as int, n as int);
        let total = vectors.len();
        let mut records: Vec<InsertRecord> = Vec::new();
        for index in 0..ids.len()
            invariant
                *self == *old(self),
                old(self).wf(),
                outer == (old(self).spec_names().contains(table_name@) && i as int
                    == name_index(old(self).spec_names(), table_name@) && i < old(self).spec_deltas().len()
                    && shape_ok(ids@.len(), vectors@.len(), old(self).spec_deltas()[i as int].spec_table()@.dimension)
                    && values@.len() == ids@.len() * columns && columns == col_names@.len()
                    && d == old(self).spec_deltas()[i as int].spec_table()@.dimension),
                outer,
                types_text == col_types@.map_values(|s: String| s@),
                types_fault(types_text, types_text.len() as int, 0) is None,
                n == shorter(col_names@.len(), col_types@.len()),
                kinds == parsed_types(types_text),
                vals_len == values@.len(),
                total == vectors@.len(),
                vectors@.len() == ids@.len() * d,
                values@.len() == ids@.len() * columns,
                values_f64@.len() == values@.len(),
                columns == col_names@.len(),
                n <= columns,
                n <= types@.len(),
                types@ == kinds,
                names == col_names@.map_values(|s: String| s@),
                raws == values@.map_values(|s: String| s@),
                batch == meta_batch(ids@, vectors@, d as int, names, kinds, raws, values_f64@, columns as int, n as int),
                records@.len() == index,
                forall|j: int| 0 <= j < index ==> (#[trigger] records@[j]).wf() && records@[j]@ == batch[j],
                literals_fault(kinds, raws, values_f64@, ids@.len() as int, columns as int, n as int, 0, 0)
                    == literals_fault(kinds, raws, values_f64@, ids@.len() as int, columns as int, n as int, index as int, 0),
        {
            proof {
                lemma_row_in_bounds(index as int, ids@.len() as int, d as int);
                lemma_row_in_bounds(index as int, ids@.len() as int, columns as int);
            }
            let vector = copy_row(&vectors, index * d, d);
            let mut metadata = Metadata::new();
            for c in 0..n
                invariant
                    *self == *old(self),
                    old(self).wf(),
                    outer == (old(self).spec_names().contains(table_name@) && i as int
                        == name_index(old(self).spec_names(), table_name@) && i < old(self).spec_deltas().len()
                        && shape_ok(ids@.len(), vectors@.len(), old(self).spec_deltas()[i as int].spec_table()@.dimension)
                        && values@.len() == ids@.len() * columns && columns == col_names@.len()
                        && d == old(self).spec_deltas()[i as int].spec_table()@.dimension),
                    outer,
                    types_text == col_types@.map_values(|s: String| s@),
                    types_fault(types_text, types_text.len() as int, 0) is None,
                    n == shorter(col_names@.len(), col_types@.len()),
                    kinds == parsed_types(types_text),
                    vals_len == values@.len(),
                    c <= n,
                n == shorter(col_names@.len(), col_types@.len()),
                kinds == parsed_types(types_text),
                vals_len == values@.len(),
                    index < ids@.len(),
                    values@.len() == ids@.len() * columns,
                    index * columns + columns <= values@.len(),
                    values_f64@.len() == values@.len(),
                    columns == col_names@.len(),
                    n <= columns,
                    n <= types@.len(),
                    types@ == kinds,
                    names == col_names@.map_values(|s: String| s@),
                    raws == values@.map_values(|s: String| s@),
                    metadata.wf(),
                    metadata@ == row_metadata(names, kinds, raws, values_f64@, columns as int, index as int, c as int),
                    literals_fault(kinds, raws, values_f64@, ids@.len() as int, columns as int, n as int, 0, 0)
                        == literals_fault(kinds, raws, values_f64@, ids@.len() as int, columns as int, n as int, index as int, c as int),
            {
                let q = index * columns + c;
                let value = match parse_metadata_value(&types[c], values[q].as_str(), values_f64[q]) {
                    Ok(v) => v,
                    Err(e) => return Err(e),
                };
                metadata.insert(col_names[c].clone(), value);
            }
            let record = InsertRecord::new(ids[index], vector, metadata);
            proof {
                assert(record@ == batch[index as int]);
            }
            records.push(record);
        }
        proof {
            assert(records@.map_values(|x: InsertRecord| x@) =~= batch);
        }
        let ghost before = self.tables@;
        let inserted = self.tables[i].insert(records);
        proof {
            assert(forall|k: int| 0 <= k < self.tables@.len() && k != i ==> self.tables@[k] == before[k]);
            assert(self.spec_names() =~= old(self).spec_names());
            assert(self.spec_deltas() =~= old(self).spec_deltas().update(i as int, self.tables@[i as int].spec_delta()));
        }
        match inserted {
            Ok(()) => {
                let total_rows = self.tables[i].delta().len();
                Ok(total_rows as u32)
            },
            Err(e) => {
                proof {
                    assert(self.spec_deltas() =~= old(self).spec_deltas());
                }
                Err(e)
            },
        }
    }
}

} // verus!
