//! Write path: typed metadata values, insert records, and the Delta — the
//! buffer of recent inserts searched exhaustively until Compaction merges it.
//!
//! Inserts append; inserting an id that is already present supersedes its
//! earlier version (update as delete-plus-insert); deletes record a
//! Tombstone for the id. Records are chunked into sealed segments of
//! [`TARGET_SEGMENT_ROWS`] rows; the remainder forms the active buffer.

use std::collections::{HashMap, HashSet};

use vstd::prelude::*;

use crate::errors::{Error, Result};
use crate::table::{ColumnType, MetadataColumn, MetadataSchema, Table, TableView};
use crate::text::concat_str;

verus! {

broadcast use vstd::std_specs::hash::group_hash_axioms;

/// Rows per sealed segment.
pub const TARGET_SEGMENT_ROWS: usize = 4096;

/// The value of one metadata column, as a mathematical value. `F64` holds
/// the IEEE-754 bit pattern of the number.
pub enum MetaValue {
    Bool(bool),
    I64(i64),
    F64(u64),
    Str(Seq<char>),
}

/// One typed metadata value. `F64` carries the IEEE-754 bit pattern of an
/// `f64` (`f64::to_bits`), so that it can be compared and stored exactly.
#[derive(Debug, PartialEq)]
pub enum MetadataValue {
    Bool(bool),
    I64(i64),
    F64(u64),
    String(String),
}

impl View for MetadataValue {
    type V = MetaValue;

    open spec fn view(&self) -> MetaValue {
        match self {
            MetadataValue::Bool(b) => MetaValue::Bool(*b),
            MetadataValue::I64(i) => MetaValue::I64(*i),
            MetadataValue::F64(f) => MetaValue::F64(*f),
            MetadataValue::String(s) => MetaValue::Str(s@),
        }
    }
}

/// The column type a value belongs to.
pub open spec fn value_type(v: MetaValue) -> ColumnType {
    match v {
        MetaValue::Bool(_) => ColumnType::Bool,
        MetaValue::I64(_) => ColumnType::I64,
        MetaValue::F64(_) => ColumnType::F64,
        MetaValue::Str(_) => ColumnType::String,
    }
}

impl Clone for MetadataValue {
    fn clone(&self) -> (c: Self)
        ensures
            c@ == self@,
    {
        match self {
            MetadataValue::Bool(b) => MetadataValue::Bool(*b),
            MetadataValue::I64(i) => MetadataValue::I64(*i),
            MetadataValue::F64(f) => MetadataValue::F64(*f),
            MetadataValue::String(s) => MetadataValue::String(s.clone()),
        }
    }
}

impl MetadataValue {
    /// The column type this value belongs to.
    pub fn column_type(&self) -> (t: ColumnType)
        ensures
            t == value_type(self@),
    {
        match self {
            MetadataValue::Bool(_) => ColumnType::Bool,
            MetadataValue::I64(_) => ColumnType::I64,
            MetadataValue::F64(_) => ColumnType::F64,
            MetadataValue::String(_) => ColumnType::String,
        }
    }
}

/// One named metadata value.
#[derive(Debug)]
pub struct MetadataEntry {
    pub key: String,
    pub value: MetadataValue,
}

impl Clone for MetadataEntry {
    fn clone(&self) -> (c: Self)
        ensures
            c.key@ == self.key@,
            c.value@ == self.value@,
    {
        MetadataEntry { key: self.key.clone(), value: self.value.clone() }
    }
}

/// A record's metadata: named values, at most one per name.
#[derive(Debug)]
pub struct Metadata {
    entries: Vec<MetadataEntry>,
}

impl View for Metadata {
    type V = Map<Seq<char>, MetaValue>;

    closed spec fn view(&self) -> Map<Seq<char>, MetaValue> {
        Map::new(
            |k: Seq<char>| exists|i: int| 0 <= i < self.entries@.len() && self.entries@[i].key@ == k,
            |k: Seq<char>| self.entries@[choose|i: int| 0 <= i < self.entries@.len() && self.entries@[i].key@ == k].value@,
        )
    }
}

impl Metadata {
    /// Entry names are pairwise distinct.
    pub closed spec fn wf(&self) -> bool {
        forall|i: int, j: int|
            0 <= i < j < self.entries@.len() ==> self.entries@[i].key@ != self.entries@[j].key@
    }

    /// The entries, in the order their names were first inserted.
    pub closed spec fn spec_entries(&self) -> Seq<MetadataEntry> {
        self.entries@
    }

    /// Names in the order they were first inserted.
    pub closed spec fn spec_keys(&self) -> Seq<Seq<char>> {
        self.entries@.map_values(|e: MetadataEntry| e.key@)
    }

    /// Each stored entry is what the map holds under its name.
    pub proof fn lemma_entry(&self, i: int)
        requires
            self.wf(),
            0 <= i < self.spec_entries().len(),
        ensures
            self@.contains_key(self.spec_entries()[i].key@),
            self@[self.spec_entries()[i].key@] == self.spec_entries()[i].value@,
    {
        let k = self.entries@[i].key@;
        assert(self@.contains_key(k));
        let j = choose|j: int| 0 <= j < self.entries@.len() && self.entries@[j].key@ == k;
        assert(j == i);
    }

    /// Every name in the map comes from a stored entry.
    pub proof fn lemma_key(&self, k: Seq<char>)
        requires
            self@.contains_key(k),
        ensures
            exists|i: int| 0 <= i < self.spec_entries().len() && self.spec_entries()[i].key@ == k,
    {
        let i = choose|i: int| 0 <= i < self.entries@.len() && self.entries@[i].key@ == k;
        assert(self.spec_entries()[i].key@ == k);
    }

    /// No metadata.
    pub fn new() -> (m: Self)
        ensures
            m.wf(),
            m@ == Map::<Seq<char>, MetaValue>::empty(),
    {
        let m = Metadata { entries: Vec::new() };
        assert(m@ =~= Map::<Seq<char>, MetaValue>::empty());
        m
    }

    fn position(&self, key: &str) -> (r: Option<usize>)
        ensures
            r matches Some(i) ==> i < self.entries@.len() && self.entries@[i as int].key@ == key@,
            r is None ==> forall|i: int| 0 <= i < self.entries@.len() ==> self.entries@[i].key@ != key@,
    {
        let wanted = String::from_str(key);
        for i in 0..self.entries.len()
            invariant
                wanted@ == key@,
                forall|k: int| 0 <= k < i ==> self.entries@[k].key@ != key@,
        {
            if self.entries[i].key == wanted {
                return Some(i);
            }
        }
        None
    }

    /// Sets `key` to `value`, replacing an earlier value of the same name.
    pub fn insert(&mut self, key: String, value: MetadataValue)
        requires
            old(self).wf(),
        ensures
            final(self).wf(),
            final(self)@ == old(self)@.insert(key@, value@),
    {
        let ghost k = key@;
        let ghost v = value@;
        match self.position(key.as_str()) {
            Some(i) => {
                let ghost before = self.entries@;
                self.entries.set(i, MetadataEntry { key, value });
                proof {
                    assert forall|j: int| 0 <= j < self.entries@.len() implies
                        #[trigger] self.entries@[j].key@ == before[j].key@ by {
                    }
                    assert forall|m: Seq<char>| #[trigger] self@.contains_key(m)
                        == old(self)@.insert(k, v).contains_key(m) by {
                        if old(self)@.contains_key(m) {
                            let j = choose|j: int| 0 <= j < before.len() && before[j].key@ == m;
                            assert(self.entries@[j].key@ == m);
                        }
                        if self@.contains_key(m) {
                            let j = choose|j: int| 0 <= j < self.entries@.len() && self.entries@[j].key@ == m;
                            assert(before[j].key@ == m);
                        }
                        if m == k {
                            assert(self.entries@[i as int].key@ == m);
                        }
                    }
                    assert forall|m: Seq<char>| #[trigger] self@.contains_key(m)
                        implies self@[m] == old(self)@.insert(k, v)[m] by {
                        let j = choose|j: int| 0 <= j < self.entries@.len() && self.entries@[j].key@ == m;
                        if m == k {
                            assert(j == i);
                        } else {
                            let j0 = choose|j: int| 0 <= j < before.len() && before[j].key@ == m;
                            assert(self.entries@[j0] == before[j0]);
                            assert(j == j0);
                        }
                    }
                    assert(self@ =~= old(self)@.insert(k, v));
                }
            },
            None => {
                let ghost before = self.entries@;
                self.entries.push(MetadataEntry { key, value });
                proof {
                    let n = before.len() as int;
                    assert(self.entries@[n].key@ == k);
                    assert forall|m: Seq<char>| #[trigger] self@.contains_key(m)
                        == old(self)@.insert(k, v).contains_key(m) by {
                        if old(self)@.contains_key(m) {
                            let j = choose|j: int| 0 <= j < before.len() && before[j].key@ == m;
                            assert(self.entries@[j] == before[j]);
                        }
                        if self@.contains_key(m) && m != k {
                            let j = choose|j: int| 0 <= j < self.entries@.len() && self.entries@[j].key@ == m;
                            assert(j < n);
                            assert(before[j].key@ == m);
                        }
                    }
                    assert forall|m: Seq<char>| #[trigger] self@.contains_key(m)
                        implies self@[m] == old(self)@.insert(k, v)[m] by {
                        let j = choose|j: int| 0 <= j < self.entries@.len() && self.entries@[j].key@ == m;
                        if m == k {
                            assert(j == n);
                        } else {
                            let j0 = choose|j: int| 0 <= j < before.len() && before[j].key@ == m;
                            assert(self.entries@[j0] == before[j0]);
                            assert(j == j0);
                        }
                    }
                    assert(self@ =~= old(self)@.insert(k, v));
                }
            },
        }
    }

    /// The value stored under `key`.
    pub fn get(&self, key: &str) -> (r: Option<&MetadataValue>)
        requires
            self.wf(),
        ensures
            r is Some <==> self@.contains_key(key@),
            r matches Some(v) ==> v@ == self@[key@],
    {
        match self.position(key) {
            Some(i) => {
                proof {
                    let j = choose|j: int| 0 <= j < self.entries@.len() && self.entries@[j].key@ == key@;
                    assert(j == i);
                }
                Some(&self.entries[i].value)
            },
            None => None,
        }
    }

    /// The entries, in the order their names were first inserted.
    pub fn entries(&self) -> (e: &[MetadataEntry])
        ensures
            e@ == self.spec_entries(),
    {
        self.entries.as_slice()
    }
}

impl Clone for Metadata {
    fn clone(&self) -> (c: Self)
        ensures
            self.wf() ==> c@ == self@,
            c.wf() == self.wf(),
            c.spec_keys() == self.spec_keys(),
    {
        let mut entries: Vec<MetadataEntry> = Vec::new();
        for i in 0..self.entries.len()
            invariant
                entries@.len() == i,
                forall|j: int| 0 <= j < i ==> entries@[j].key@ == self.entries@[j].key@
                    && entries@[j].value@ == self.entries@[j].value@,
        {
            entries.push(self.entries[i].clone());
        }
        let c = Metadata { entries };
        proof {
            assert forall|k: Seq<char>| #[trigger] c@.contains_key(k) == self@.contains_key(k) by {
                if c@.contains_key(k) {
                    let j = choose|j: int| 0 <= j < c.entries@.len() && c.entries@[j].key@ == k;
                    assert(self.entries@[j].key@ == k);
                }
                if self@.contains_key(k) {
                    let j = choose|j: int| 0 <= j < self.entries@.len() && self.entries@[j].key@ == k;
                    assert(c.entries@[j].key@ == k);
                }
            }
            if self.wf() {
                assert forall|k: Seq<char>| #[trigger] c@.contains_key(k) implies c@[k] == self@[k] by {
                    let j = choose|j: int| 0 <= j < c.entries@.len() && c.entries@[j].key@ == k;
                    let j0 = choose|j: int| 0 <= j < self.entries@.len() && self.entries@[j].key@ == k;
                    assert(c.entries@[j0].key@ == k);
                    assert(j == j0);
                }
                assert(c@ =~= self@);
            }
            assert(c.spec_keys() =~= self.spec_keys());
            assert(c.wf() == self.wf()) by {
                assert forall|i: int, j: int| 0 <= i < j < c.entries@.len() implies
                    (c.entries@[i].key@ != c.entries@[j].key@) == (self.entries@[i].key@ != self.entries@[j].key@) by {
                }
            }
        }
        c
    }
}

} // verus!

verus! {

/// One record as a mathematical value.
pub struct RecordView {
    pub id: u64,
    pub vector: Seq<u32>,
    pub metadata: Map<Seq<char>, MetaValue>,
}

/// One record to insert: identifier, vector (component bit patterns) and
/// metadata.
#[derive(Debug)]
pub struct InsertRecord {
    id: u64,
    vector: Vec<u32>,
    metadata: Metadata,
}

impl View for InsertRecord {
    type V = RecordView;

    closed spec fn view(&self) -> RecordView {
        RecordView { id: self.id, vector: self.vector@, metadata: self.metadata@ }
    }
}

impl InsertRecord {
    pub closed spec fn wf(&self) -> bool {
        self.metadata.wf()
    }

    /// Metadata names in the order they were first inserted.
    pub closed spec fn spec_metadata_keys(&self) -> Seq<Seq<char>> {
        self.metadata.spec_keys()
    }

    /// Creates a record. `vector` holds the components' IEEE-754 bit patterns.
    pub fn new(id: u64, vector: Vec<u32>, metadata: Metadata) -> (r: Self)
        requires
            metadata.wf(),
        ensures
            r.wf(),
            r@ == (RecordView { id, vector: vector@, metadata: metadata@ }),
            r.spec_metadata_keys() == metadata.spec_keys(),
    {
        InsertRecord { id, vector, metadata }
    }

    pub fn id(&self) -> (i: u64)
        ensures
            i == self@.id,
    {
        self.id
    }

    pub fn vector(&self) -> (v: &[u32])
        ensures
            v@ == self@.vector,
    {
        self.vector.as_slice()
    }

    pub fn metadata(&self) -> (m: &Metadata)
        ensures
            m@ == self@.metadata,
            self.wf() ==> m.wf(),
            m.spec_keys() == self.spec_metadata_keys(),
    {
        &self.metadata
    }
}

impl Clone for InsertRecord {
    fn clone(&self) -> (c: Self)
        ensures
            self.wf() ==> c@ == self@,
            c.wf() == self.wf(),
            c@.id == self@.id,
            c@.vector == self@.vector,
    {
        InsertRecord { id: self.id, vector: self.vector.clone(), metadata: self.metadata.clone() }
    }
}

/// The column named `k` is declared with type `t`.
pub open spec fn declared(columns: Seq<MetadataColumn>, k: Seq<char>, t: ColumnType) -> bool {
    exists|i: int| 0 <= i < columns.len() && columns[i].spec_name() == k && columns[i].spec_column_type() == t
}

/// A record fits a Table: its vector has the Table's dimension and every
/// metadata value belongs to a declared column of the value's type.
pub open spec fn conforms(table: TableView, r: RecordView) -> bool {
    &&& r.vector.len() == table.dimension
    &&& forall|k: Seq<char>| #[trigger] r.metadata.contains_key(k)
        ==> declared(table.columns, k, value_type(r.metadata[k]))
}

/// A length as a `u32`, saturated at `u32::MAX`.
pub open spec fn saturate_u32(n: nat) -> u32 {
    if n > u32::MAX { u32::MAX } else { n as u32 }
}

pub fn saturating_u32(n: usize) -> (r: u32)
    ensures
        r == saturate_u32(n as nat),
{
    if n > u32::MAX as usize { u32::MAX } else { n as u32 }
}

/// `live` after the records of `batch` are inserted in order.
pub open spec fn apply_inserts(live: Map<u64, RecordView>, batch: Seq<RecordView>) -> Map<u64, RecordView>
    decreases batch.len(),
{
    if batch.len() == 0 {
        live
    } else {
        apply_inserts(live, batch.drop_last()).insert(batch.last().id, batch.last())
    }
}

/// Checks one record against a Table.
pub fn check_record(table: &Table, record: &InsertRecord) -> (r: Result<()>)
    requires
        record.wf(),
        table.wf(),
    ensures
        r is Ok <==> conforms(table@, record@),
        r matches Err(e) ==> {
            if record@.vector.len() != table@.dimension {
                e == Error::DimensionMismatch {
                    expected: table@.dimension,
                    actual: saturate_u32(record@.vector.len()),
                }
            } else {
                exists|k: Seq<char>| #[trigger] record@.metadata.contains_key(k)
                    && !declared(table@.columns, k, value_type(record@.metadata[k]))
                    && (e matches Error::SchemaViolation { reason }
                        && (reason@ == "unknown column: "@ + k
                            || reason@ == "metadata type mismatch for column: "@ + k))
            }
        },
{
    proof {
        table.lemma_view();
    }
    let dim = table.dimension();
    if record.vector.len() != dim as usize {
        return Err(Error::DimensionMismatch {
            expected: dim,
            actual: saturating_u32(record.vector.len()),
        });
    }
    let schema = table.metadata_schema();
    let entries = record.metadata.entries();
    let ghost cols = table@.columns;
    let ghost meta = record@.metadata;
    for i in 0..entries.len()
        invariant
            entries@ == record.metadata.spec_entries(),
            record.metadata.wf(),
            meta == record.metadata@,
            schema.spec_columns() == cols,
            schema.wf(),
            cols == table@.columns,
            record@.vector.len() == table@.dimension,
            forall|j: int| 0 <= j < i ==> declared(cols, #[trigger] entries@[j].key@,
                value_type(meta[entries@[j].key@])),
    {
        let key = entries[i].key.as_str();
        let ghost k = entries@[i as int].key@;
        proof {
            record.metadata.lemma_entry(i as int);
        }
        match schema.column(key) {
            Ok(column) => {
                if column.column_type() != entries[i].value.column_type() {
                    let reason = concat_str("metadata type mismatch for column: ", key);
                    proof {
                        assert(meta.contains_key(k));
                        if declared(cols, k, value_type(meta[k])) {
                            let a = choose|a: int| 0 <= a < cols.len() && cols[a].spec_name() == k
                                && cols[a].spec_column_type() == value_type(meta[k]);
                            let b = choose|b: int| 0 <= b < cols.len() && cols[b] == *column
                                && column.spec_name() == key@;
                            if a != b {
                                assert(crate::table::column_ok(crate::table::column_names(cols), if a < b { b } else { a }));
                                assert(crate::table::column_names(cols)[a] == k);
                                assert(crate::table::column_names(cols)[b] == k);
                            }
                        }
                        assert(!declared(cols, k, value_type(meta[k])));
                        assert(reason@ == "metadata type mismatch for column: "@ + k);
                        assert(record@.metadata.contains_key(k));
                    }
                    return Err(Error::SchemaViolation { reason });
                }
                proof {
                    let b = choose|b: int| 0 <= b < cols.len() && cols[b] == *column
                        && column.spec_name() == key@;
                    assert(cols[b].spec_name() == k && cols[b].spec_column_type() == value_type(meta[k]));
                }
            },
            Err(e) => {
                proof {
                    assert(meta.contains_key(k));
                    assert(!declared(cols, k, value_type(meta[k])));
                    assert(record@.metadata.contains_key(k));
                    assert(e matches Error::SchemaViolation { reason } && reason@ == "unknown column: "@ + k);
                }
                return Err(e);
            },
        }
    }
    proof {
        assert forall|k: Seq<char>| #[trigger] meta.contains_key(k)
            implies declared(cols, k, value_type(meta[k])) by {
            record.metadata.lemma_key(k);
            let j = choose|j: int| 0 <= j < entries@.len() && entries@[j].key@ == k;
        }
    }
    Ok(())
}

} // verus!

verus! {

/// The error `check_record` reports for a record that does not fit `table`.
pub open spec fn record_fault(table: TableView, r: RecordView, e: Error) -> bool {
    if r.vector.len() != table.dimension {
        e == Error::DimensionMismatch { expected: table.dimension, actual: saturate_u32(r.vector.len()) }
    } else {
        exists|k: Seq<char>| #[trigger] r.metadata.contains_key(k)
            && !declared(table.columns, k, value_type(r.metadata[k]))
            && (e matches Error::SchemaViolation { reason }
                && (reason@ == "unknown column: "@ + k || reason@ == "metadata type mismatch for column: "@ + k))
    }
}

/// How positions, the visible index and the hidden set agree on a record
/// sequence: each visible id points at its newest record; every id present
/// is either visible or hidden; hidden ids are present and not visible.
pub open spec fn index_ok(recs: Seq<RecordView>, vis: Map<u64, usize>, hid: Set<u64>) -> bool {
    &&& forall|id: u64| #[trigger] vis.contains_key(id) ==> vis[id] < recs.len() && recs[vis[id] as int].id == id
    &&& forall|p: int| 0 <= p < recs.len() && vis.contains_key(#[trigger] recs[p].id)
        ==> p <= vis[recs[p].id]
    &&& forall|p: int| 0 <= p < recs.len() ==> vis.contains_key(#[trigger] recs[p].id) || hid.contains(recs[p].id)
    &&& forall|id: u64| #[trigger] hid.contains(id) ==> !vis.contains_key(id)
        && exists|p: int| 0 <= p < recs.len() && recs[p].id == id
}

/// The ids of a record sequence.
pub open spec fn ids_of(recs: Seq<RecordView>) -> Set<u64> {
    Set::new(|id: u64| exists|p: int| 0 <= p < recs.len() && recs[p].id == id)
}

/// `HashSet::clone`: the documentation promises a set holding the same
/// elements.
#[verifier::external_body]
fn clone_id_set(s: &HashSet<u64>) -> (r: HashSet<u64>)
    ensures
        r@ == s@,
{
    s.clone()
}

/// A buffer of recent inserts for one Table, with Tombstones.
#[derive(Debug)]
pub struct Delta {
    table: Table,
    records: Vec<InsertRecord>,
    visible: HashMap<u64, usize>,
    hidden: HashSet<u64>,
}

impl Clone for Delta {
    /// A copy holding the same Table, records, visibility index and
    /// Tombstones.
    fn clone(&self) -> (c: Self)
        ensures
            c.spec_table()@ == self.spec_table()@,
            self.wf() ==> c.spec_records() == self.spec_records(),
            c.spec_visible() == self.spec_visible(),
            c.spec_hidden() == self.spec_hidden(),
            self.wf() ==> c.wf(),
    {
        let mut records: Vec<InsertRecord> = Vec::new();
        for i in 0..self.records.len()
            invariant
                records@.len() == i,
                forall|j: int| 0 <= j < i ==> (#[trigger] records@[j]).wf() == self.records@[j].wf()
                    && (self.records@[j].wf() ==> records@[j]@ == self.records@[j]@),
        {
            records.push(self.records[i].clone());
        }
        let table = self.table.clone();
        let c = Delta { table, records, visible: self.visible.clone(), hidden: clone_id_set(&self.hidden) };
        proof {
            self.table.lemma_view();
            c.table.lemma_view();
            if self.wf() {
                assert forall|j: int| 0 <= j < c.records@.len() implies #[trigger] c.records@[j].wf() by {
                    assert(self.records@[j].wf());
                }
                assert(c.spec_records() =~= self.spec_records());
            }
        }
        c
    }
}

impl Delta {
    pub closed spec fn spec_table(&self) -> Table {
        self.table
    }

    /// Every record in insertion order (sealed segments first, then the
    /// active buffer).
    pub closed spec fn spec_records(&self) -> Seq<RecordView> {
        self.records@.map_values(|r: InsertRecord| r@)
    }

    /// Position of each id's visible record.
    pub closed spec fn spec_visible(&self) -> Map<u64, usize> {
        self.visible@
    }

    /// Ids whose every record is hidden by a Tombstone.
    pub closed spec fn spec_hidden(&self) -> Set<u64> {
        self.hidden@
    }

    closed spec fn records_wf(&self) -> bool {
        forall|p: int| 0 <= p < self.records@.len() ==> #[trigger] self.records@[p].wf()
    }

    pub open spec fn wf(&self) -> bool {
        &&& self.spec_table().wf()
        &&& self.records_ok()
        &&& forall|p: int| 0 <= p < self.spec_records().len()
            ==> conforms(self.spec_table()@, #[trigger] self.spec_records()[p])
        &&& index_ok(self.spec_records(), self.spec_visible(), self.spec_hidden())
    }

    /// Stored records keep their metadata well formed.
    pub closed spec fn records_ok(&self) -> bool {
        self.records_wf()
    }

    /// The visible records, by id: what search and Compaction see.
    pub open spec fn live(&self) -> Map<u64, RecordView> {
        Map::new(
            |id: u64| self.spec_visible().contains_key(id),
            |id: u64| self.spec_records()[self.spec_visible()[id] as int],
        )
    }

    /// Record `p` is hidden: superseded by a newer version or deleted.
    pub open spec fn is_dead(&self, p: int) -> bool {
        !(self.spec_visible().contains_key(self.spec_records()[p].id)
            && self.spec_visible()[self.spec_records()[p].id] == p)
    }

    /// An empty Delta for `table`.
    pub fn new(table: Table) -> (d: Self)
        requires
            table.wf(),
        ensures
            d.wf(),
            d.spec_table()@ == table@,
            d.spec_records() == Seq::<RecordView>::empty(),
            d.live() == Map::<u64, RecordView>::empty(),
            d.spec_hidden() == Set::<u64>::empty(),
    {
        let d = Delta { table, records: Vec::new(), visible: HashMap::new(), hidden: HashSet::new() };
        assert(d.spec_records() =~= Seq::<RecordView>::empty());
        assert(d.live() =~= Map::<u64, RecordView>::empty());
        d
    }

    /// The Table this Delta belongs to.
    pub fn table(&self) -> (t: &Table)
        ensures
            *t == self.spec_table(),
    {
        &self.table
    }

    /// Total records held (visible and hidden).
    pub fn len(&self) -> (n: usize)
        ensures
            n == self.spec_records().len(),
    {
        self.records.len()
    }

    /// Every record, in insertion order.
    pub fn records(&self) -> (r: &[InsertRecord])
        ensures
            r@.len() == self.spec_records().len(),
            forall|p: int| 0 <= p < r@.len() ==> #[trigger] r@[p]@ == self.spec_records()[p],
            self.wf() ==> forall|p: int| 0 <= p < r@.len() ==> #[trigger] r@[p].wf(),
    {
        self.records.as_slice()
    }

    /// Record `p` carries a Tombstone (superseded or deleted).
    pub fn is_record_tombstoned(&self, p: usize) -> (b: bool)
        requires
            self.wf(),
            p < self.spec_records().len(),
        ensures
            b == self.is_dead(p as int),
    {
        let id = self.records[p].id;
        match self.visible.get(&id) {
            Some(q) => *q != p,
            None => true,
        }
    }

    /// `id` has been deleted and not inserted again.
    pub fn is_tombstoned(&self, id: u64) -> (b: bool)
        ensures
            b == self.spec_hidden().contains(id),
    {
        self.hidden.contains(&id)
    }

    /// Number of distinct Tombstoned ids.
    pub fn tombstoned_id_count(&self) -> (n: usize)
        ensures
            n == self.spec_hidden().len(),
    {
        self.hidden.len()
    }

    /// Number of visible records.
    pub fn live_count(&self) -> (n: usize)
        ensures
            n == self.spec_visible().len(),
    {
        self.visible.len()
    }

    /// Number of sealed segments (each holds exactly `TARGET_SEGMENT_ROWS` rows).
    pub fn sealed_segment_count(&self) -> (n: usize)
        ensures
            n == self.spec_records().len() / (TARGET_SEGMENT_ROWS as nat),
    {
        self.records.len() / TARGET_SEGMENT_ROWS
    }

    /// Rows in the active (unsealed) buffer.
    pub fn active_len(&self) -> (n: usize)
        ensures
            n == self.spec_records().len() % (TARGET_SEGMENT_ROWS as nat),
    {
        self.records.len() % TARGET_SEGMENT_ROWS
    }

    /// Inserts a batch. Every record is checked against the Table first; the
    /// first misfit is reported and nothing is inserted. Otherwise the
    /// records are appended in order, each becoming the visible version of
    /// its id.
    pub fn insert(&mut self, records: Vec<InsertRecord>) -> (r: Result<()>)
        requires
            old(self).wf(),
            forall|i: int| 0 <= i < records@.len() ==> #[trigger] records@[i].wf(),
            old(self).spec_records().len() + records@.len() <= usize::MAX,
        ensures
            final(self).wf(),
            final(self).spec_table() == old(self).spec_table(),
            r is Ok <==> forall|i: int| 0 <= i < records@.len()
                ==> conforms(old(self).spec_table()@, #[trigger] records@[i]@),
            r is Err ==> *final(self) == *old(self),
            r matches Err(e) ==> {
                &&& final(self).spec_records() == old(self).spec_records()
                &&& final(self).spec_visible() == old(self).spec_visible()
                &&& final(self).spec_hidden() == old(self).spec_hidden()
                &&& exists|i: int| 0 <= i < records@.len()
                    && (forall|j: int| 0 <= j < i ==> conforms(old(self).spec_table()@, #[trigger] records@[j]@))
                    && record_fault(old(self).spec_table()@, records@[i]@, e)
            },
            r is Ok ==> {
                let batch = records@.map_values(|x: InsertRecord| x@);
                &&& final(self).spec_records() == old(self).spec_records() + batch
                &&& final(self).live() == apply_inserts(old(self).live(), batch)
                &&& final(self).spec_hidden() == old(self).spec_hidden().difference(ids_of(batch))
            },
    {
        for i in 0..records.len()
            invariant
                *self == *old(self),
                self.wf(),
                forall|k: int| 0 <= k < records@.len() ==> #[trigger] records@[k].wf(),
                forall|j: int| 0 <= j < i ==> conforms(self.spec_table()@, #[trigger] records@[j]@),
        {
            match check_record(&self.table, &records[i]) {
                Ok(()) => {},
                Err(e) => {
                    return Err(e);
                },
            }
        }
        let ghost old_recs = self.spec_records();
        let ghost old_live = self.live();
        let ghost old_hidden = self.hidden@;
        let ghost batch = records@.map_values(|x: InsertRecord| x@);
        let start = self.records.len();
        let mut records = records;
        self.records.append(&mut records);
        proof {
            assert(self.spec_records() =~= old_recs + batch);
            assert(self.spec_records().take(start as int) =~= old_recs);
            assert(self.live() =~= old_live) by {
                assert forall|i: u64| #[trigger] self.live().contains_key(i) implies self.live()[i] == old_live[i] by {
                    assert(self.spec_records()[self.visible@[i] as int] == old_recs[self.visible@[i] as int]);
                }
            }
            assert(apply_inserts(old_live, batch.take(0)) == old_live) by {
                assert(batch.take(0) =~= Seq::<RecordView>::empty());
            }
            assert(ids_of(batch.take(0)) =~= Set::<u64>::empty());
            assert(old_hidden.difference(Set::<u64>::empty()) =~= old_hidden);
        }
        let end = self.records.len();
        let mut p = start;
        while p < end
            invariant
                start <= p <= end,
                end == self.records@.len(),
                start == old_recs.len(),
                self.spec_records() == old_recs + batch,
                self.spec_table() == old(self).spec_table(),
                self.spec_table().wf(),
                self.records_ok(),
                forall|q: int| 0 <= q < self.spec_records().len()
                    ==> conforms(self.spec_table()@, #[trigger] self.spec_records()[q]),
                index_ok(self.spec_records().take(p as int), self.visible@, self.hidden@),
                self.live() == apply_inserts(old_live, batch.take(p - start)),
                self.hidden@ == old_hidden.difference(ids_of(batch.take(p - start))),
            decreases end - p,
        {
            let id = self.records[p].id;
            let ghost recs = self.spec_records();
            let ghost vis0 = self.visible@;
            let ghost hid0 = self.hidden@;
            assert(recs[p as int].id == id);
            self.visible.insert(id, p);
            self.hidden.remove(&id);
            proof {
                let pre = recs.take(p as int);
                let post = recs.take(p + 1);
                assert(self.hidden@ == hid0.remove(id));
                assert(self.visible@ == vis0.insert(id, p));
                assert forall|i: u64| #[trigger] self.visible@.contains_key(i) implies
                    self.visible@[i] < post.len() && post[self.visible@[i] as int].id == i by {
                    if i != id {
                        assert(post[vis0[i] as int] == pre[vis0[i] as int]);
                    }
                }
                assert forall|q: int| 0 <= q < post.len() && self.visible@.contains_key(#[trigger] post[q].id)
                    implies q <= self.visible@[post[q].id] by {
                    if post[q].id != id && q < p {
                        assert(pre[q] == post[q]);
                    }
                }
                assert forall|q: int| 0 <= q < post.len() implies
                    self.visible@.contains_key(#[trigger] post[q].id) || self.hidden@.contains(post[q].id) by {
                    if q < p {
                        assert(pre[q] == post[q]);
                    }
                }
                assert forall|i: u64| #[trigger] self.hidden@.contains(i) implies !self.visible@.contains_key(i)
                    && exists|q: int| 0 <= q < post.len() && post[q].id == i by {
                    let q = choose|q: int| 0 <= q < pre.len() && #[trigger] pre[q].id == i;
                    assert(post[q].id == i);
                }
                assert(index_ok(post, self.visible@, self.hidden@));
                let k = (p - start) as int;
                assert(batch.take(k + 1).drop_last() =~= batch.take(k));
                assert(batch.take(k + 1).last() == recs[p as int]);
                assert(self.live() =~= apply_inserts(old_live, batch.take(k + 1))) by {
                    assert forall|i: u64| #[trigger] self.live().contains_key(i) ==
                        apply_inserts(old_live, batch.take(k)).insert(id, recs[p as int]).contains_key(i) by {
                    }
                    assert forall|i: u64| #[trigger] self.live().contains_key(i) implies self.live()[i] ==
                        apply_inserts(old_live, batch.take(k)).insert(id, recs[p as int])[i] by {
                    }
                }
                assert(ids_of(batch.take(k + 1)) =~= ids_of(batch.take(k)).insert(id)) by {
                    assert forall|i: u64| ids_of(batch.take(k + 1)).contains(i) implies
                        ids_of(batch.take(k)).insert(id).contains(i) by {
                        let q = choose|q: int| 0 <= q < batch.take(k + 1).len() && #[trigger] batch.take(k + 1)[q].id == i;
                        if q < k {
                            assert(batch.take(k)[q].id == i);
                        }
                    }
                    assert forall|i: u64| ids_of(batch.take(k)).insert(id).contains(i) implies
                        ids_of(batch.take(k + 1)).contains(i) by {
                        if i == id {
                            assert(batch.take(k + 1)[k].id == i);
                        } else {
                            let q = choose|q: int| 0 <= q < batch.take(k).len() && #[trigger] batch.take(k)[q].id == i;
                            assert(batch.take(k + 1)[q].id == i);
                        }
                    }
                }
                assert(self.hidden@ =~= old_hidden.difference(ids_of(batch.take(k + 1))));
            }
            p = p + 1;
        }
        proof {
            assert(self.spec_records().take(end as int) =~= self.spec_records());
            assert(batch.take(end - start) =~= batch);
        }
        Ok(())
    }

    /// Records a Tombstone for each listed id that is currently visible;
    /// unknown or already-deleted ids are ignored.
    pub fn delete(&mut self, ids: &[u64]) -> (r: Result<()>)
        requires
            old(self).wf(),
        ensures
            final(self).wf(),
            r is Ok,
            final(self).spec_table() == old(self).spec_table(),
            final(self).spec_records() == old(self).spec_records(),
            final(self).live() == old(self).live().remove_keys(ids@.to_set()),
            final(self).spec_hidden() == old(self).spec_hidden().union(
                ids@.to_set().intersect(old(self).live().dom()),
            ),
    {
        let ghost old_live = self.live();
        let ghost old_hidden = self.hidden@;
        let ghost recs = self.spec_records();
        proof {
            assert(ids@.take(0).to_set() =~= Set::<u64>::empty());
            assert(old_live.remove_keys(Set::<u64>::empty()) =~= old_live);
            assert(old_hidden.union(Set::<u64>::empty().intersect(old_live.dom())) =~= old_hidden);
        }
        for i in 0..ids.len()
            invariant
                self.wf(),
                self.spec_records() == recs,
                self.spec_table() == old(self).spec_table(),
                self.live() == old_live.remove_keys(ids@.take(i as int).to_set()),
                self.hidden@ == old_hidden.union(ids@.take(i as int).to_set().intersect(old_live.dom())),
        {
            let id = ids[i];
            let ghost vis0 = self.visible@;
            let ghost hid0 = self.hidden@;
            let ghost live0 = self.live();
            if self.visible.contains_key(&id) {
                self.visible.remove(&id);
                self.hidden.insert(id);
                proof {
                    assert(self.visible@ == vis0.remove(id));
                    assert(self.hidden@ == hid0.insert(id));
                    assert forall|q: int| 0 <= q < recs.len() implies
                        self.visible@.contains_key(#[trigger] recs[q].id) || self.hidden@.contains(recs[q].id) by {
                    }
                    assert forall|j: u64| #[trigger] self.hidden@.contains(j) implies !self.visible@.contains_key(j)
                        && exists|q: int| 0 <= q < recs.len() && recs[q].id == j by {
                        if j == id {
                            let q = vis0[id] as int;
                            assert(recs[q].id == j);
                        }
                    }
                    assert(index_ok(recs, self.visible@, self.hidden@));
                }
            }
            proof {
                assert(ids@.take(i + 1).to_set() =~= ids@.take(i as int).to_set().insert(id)) by {
                    assert(ids@.take(i + 1) =~= ids@.take(i as int).push(id));
                    ids@.take(i as int).lemma_push_to_set_commute(id) ;
                }
                let s0 = ids@.take(i as int).to_set();
                let s1 = ids@.take(i + 1).to_set();
                assert(live0.contains_key(id) == vis0.contains_key(id));
                assert forall|j: u64| #[trigger] self.live().contains_key(j) == old_live.remove_keys(s1).contains_key(j) by {
                    assert(live0.contains_key(j) == vis0.contains_key(j));
                    assert(self.live().contains_key(j) == self.visible@.contains_key(j));
                    if j == id {
                        assert(s1.contains(j));
                    } else {
                        assert(s1.contains(j) == s0.contains(j));
                    }
                }
                assert forall|j: u64| #[trigger] self.live().contains_key(j) implies
                    self.live()[j] == old_live.remove_keys(s1)[j] by {
                    assert(self.visible@[j] == vis0[j]);
                    assert(vis0.contains_key(j));
                    assert(live0.contains_key(j));
                    assert(live0[j] == recs[vis0[j] as int]);
                    assert(live0[j] == old_live[j]);
                }
                assert(self.live() =~= old_live.remove_keys(s1));
                assert forall|j: u64| #[trigger] self.hidden@.contains(j) ==
                    old_hidden.union(s1.intersect(old_live.dom())).contains(j) by {
                    if j == id && !vis0.contains_key(id) && old_live.contains_key(id) {
                        assert(s0.contains(id));
                    }
                }
                assert(self.hidden@ =~= old_hidden.union(s1.intersect(old_live.dom())));
            }
        }
        proof {
            assert(ids@.take(ids@.len() as int) =~= ids@);
        }
        Ok(())
    }
}


/// The single writer of one Table: owns its Delta and applies inserts and
/// deletes to it.
#[derive(Debug)]
pub struct WritePath {
    delta: Delta,
}

impl WritePath {
    /// The Delta this writer maintains.
    pub closed spec fn spec_delta(&self) -> Delta {
        self.delta
    }

    /// A writer over an empty Delta for `table`.
    pub fn new(table: Table) -> (w: Self)
        requires
            table.wf(),
        ensures
            w.spec_delta().wf(),
            w.spec_delta().spec_table()@ == table@,
            w.spec_delta().spec_records() == Seq::<RecordView>::empty(),
            w.spec_delta().live() == Map::<u64, RecordView>::empty(),
            w.spec_delta().spec_hidden() == Set::<u64>::empty(),
    {
        WritePath { delta: Delta::new(table) }
    }

    /// Inserts a batch into the Delta (see [`Delta::insert`]).
    pub fn insert(&mut self, records: Vec<InsertRecord>) -> (r: Result<()>)
        requires
            old(self).spec_delta().wf(),
            forall|i: int| 0 <= i < records@.len() ==> #[trigger] records@[i].wf(),
            old(self).spec_delta().spec_records().len() + records@.len() <= usize::MAX,
        ensures
            final(self).spec_delta().wf(),
            final(self).spec_delta().spec_table() == old(self).spec_delta().spec_table(),
            r is Ok <==> forall|i: int| 0 <= i < records@.len()
                ==> conforms(old(self).spec_delta().spec_table()@, #[trigger] records@[i]@),
            r is Err ==> *final(self) == *old(self),
            r matches Err(e) ==> exists|i: int| 0 <= i < records@.len()
                && (forall|j: int| 0 <= j < i ==> conforms(old(self).spec_delta().spec_table()@, #[trigger] records@[j]@))
                && record_fault(old(self).spec_delta().spec_table()@, records@[i]@, e),
            r is Ok ==> {
                let batch = records@.map_values(|x: InsertRecord| x@);
                &&& final(self).spec_delta().spec_records() == old(self).spec_delta().spec_records() + batch
                &&& final(self).spec_delta().live() == apply_inserts(old(self).spec_delta().live(), batch)
                &&& final(self).spec_delta().spec_hidden()
                    == old(self).spec_delta().spec_hidden().difference(ids_of(batch))
            },
    {
        self.delta.insert(records)
    }

    /// Deletes ids from the Delta (see [`Delta::delete`]).
    pub fn delete(&mut self, ids: &[u64]) -> (r: Result<()>)
        requires
            old(self).spec_delta().wf(),
        ensures
            r is Ok,
            final(self).spec_delta().wf(),
            final(self).spec_delta().spec_table() == old(self).spec_delta().spec_table(),
            final(self).spec_delta().spec_records() == old(self).spec_delta().spec_records(),
            final(self).spec_delta().live() == old(self).spec_delta().live().remove_keys(ids@.to_set()),
            final(self).spec_delta().spec_hidden() == old(self).spec_delta().spec_hidden().union(
                ids@.to_set().intersect(old(self).spec_delta().live().dom()),
            ),
    {
        self.delta.delete(ids)
    }

    /// The Delta as it stands.
    pub fn delta(&self) -> (d: &Delta)
        ensures
            *d == self.spec_delta(),
    {
        &self.delta
    }
}

} // verus!
