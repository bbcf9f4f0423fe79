//! Table lifecycle and Metadata Schema declarations.
//!
//! A [`TableManager`] owns named [`Table`] handles. A Table fixes its vector
//! dimension and [`Metric`] at creation.

use vstd::prelude::*;

use crate::errors::{Error, Result};
use crate::text::{concat_str, is_usable_name, usable_name};

verus! {

/// The distance function fixed for a Table.
#[derive(Debug, Clone, Copy, PartialEq, Eq, Structural)]
pub enum Metric {
    /// Cosine distance over normalized vectors.
    Cosine,
    /// Squared Euclidean distance.
    L2,
    /// Dot-product distance.
    Dot,
}

/// The scalar types supported by a Metadata Schema.
#[derive(Debug, Clone, Copy, PartialEq, Eq, Structural)]
pub enum ColumnType {
    Bool,
    I64,
    F64,
    String,
}

/// One named column in a Metadata Schema.
#[derive(Debug, PartialEq, Eq)]
pub struct MetadataColumn {
    name: String,
    column_type: ColumnType,
}

impl Clone for MetadataColumn {
    fn clone(&self) -> (c: Self)
        ensures
            c == *self,
    {
        MetadataColumn { name: self.name.clone(), column_type: self.column_type }
    }
}

impl MetadataColumn {
    /// The declared name, as text.
    pub closed spec fn spec_name(&self) -> Seq<char> {
        self.name@
    }

    /// The declared scalar type.
    pub closed spec fn spec_column_type(&self) -> ColumnType {
        self.column_type
    }

    /// Creates a column declaration. Name validation happens when the
    /// declaration is added to a [`MetadataSchema`].
    pub fn new(name: String, column_type: ColumnType) -> (c: Self)
        ensures
            c.spec_name() == name@,
            c.spec_column_type() == column_type,
    {
        Self { name, column_type }
    }

    /// Returns the declared column name.
    pub fn name(&self) -> (s: &str)
        ensures
            s@ == self.spec_name(),
    {
        self.name.as_str()
    }

    /// Returns the declared scalar type.
    pub fn column_type(&self) -> (t: ColumnType)
        ensures
            t == self.spec_column_type(),
    {
        self.column_type
    }
}

/// Column `i` is acceptable given the columns before it.
pub open spec fn column_ok(names: Seq<Seq<char>>, i: int) -> bool {
    &&& is_usable_name(names[i])
    &&& forall|j: int| 0 <= j < i ==> names[j] != names[i]
}

/// Every declaration is acceptable.
pub open spec fn columns_ok(names: Seq<Seq<char>>) -> bool {
    forall|i: int| 0 <= i < names.len() ==> column_ok(names, i)
}

/// The declared names, in order.
pub open spec fn column_names(columns: Seq<MetadataColumn>) -> Seq<Seq<char>> {
    columns.map_values(|c: MetadataColumn| c.spec_name())
}

/// The typed scalar columns declared for a Table: names are usable and unique.
#[derive(Debug, PartialEq, Eq)]
pub struct MetadataSchema {
    columns: Vec<MetadataColumn>,
}

impl Clone for MetadataSchema {
    fn clone(&self) -> (c: Self)
        ensures
            c.spec_columns() == self.spec_columns(),
    {
        let mut columns: Vec<MetadataColumn> = Vec::new();
        for i in 0..self.columns.len()
            invariant
                columns@.len() == i,
                forall|j: int| 0 <= j < i ==> columns@[j] == self.columns@[j],
        {
            columns.push(self.columns[i].clone());
        }
        proof {
            assert(columns@ =~= self.columns@);
        }
        MetadataSchema { columns }
    }
}

impl Default for MetadataSchema {
    fn default() -> (s: Self)
        ensures
            s.spec_columns() == Seq::<MetadataColumn>::empty(),
    {
        MetadataSchema { columns: Vec::new() }
    }
}

impl MetadataSchema {
    /// The declared columns, in declaration order.
    pub closed spec fn spec_columns(&self) -> Seq<MetadataColumn> {
        self.columns@
    }

    /// Declared names are usable and pairwise distinct.
    pub open spec fn wf(&self) -> bool {
        columns_ok(column_names(self.spec_columns()))
    }

    /// The schema without columns.
    pub fn empty() -> (s: Self)
        ensures
            s.spec_columns() == Seq::<MetadataColumn>::empty(),
            s.wf(),
    {
        MetadataSchema { columns: Vec::new() }
    }

    /// Creates and validates a Metadata Schema.
    ///
    /// Succeeds exactly when every name is usable and no name repeats; else
    /// reports the first offending column (in declaration order).
    pub fn new(columns: Vec<MetadataColumn>) -> (r: Result<Self>)
        ensures
            r is Ok <==> columns_ok(column_names(columns@)),
            r matches Ok(s) ==> s.spec_columns() == columns@ && s.wf(),
            r matches Err(e) ==> exists|i: int|
                0 <= i < columns@.len()
                && (forall|k: int| 0 <= k < i ==> column_ok(column_names(columns@), k))
                && !column_ok(column_names(columns@), i)
                && (if !is_usable_name(columns@[i].spec_name()) {
                    e matches Error::SchemaViolation { reason }
                        && reason@ == "column names must be non-empty and contain no NUL bytes"@
                } else {
                    e matches Error::SchemaViolation { reason }
                        && reason@ == "duplicate column: "@ + columns@[i].spec_name()
                }),
    {
        let ghost names = column_names(columns@);
        for i in 0..columns.len()
            invariant
                names == column_names(columns@),
                forall|k: int| 0 <= k < i ==> column_ok(names, k),
        {
            let name = columns[i].name.as_str();
            assert(names[i as int] == columns@[i as int].spec_name());
            if !usable_name(name) {
                proof {
                    reveal_strlit("column names must be non-empty and contain no NUL bytes");
                    assert(!column_ok(names, i as int));
                }
                return Err(Error::SchemaViolation {
                    reason: String::from_str("column names must be non-empty and contain no NUL bytes"),
                });
            }
            for j in 0..i
                invariant
                    names == column_names(columns@),
                    i < columns@.len(),
                    is_usable_name(names[i as int]),
                    forall|k: int| 0 <= k < i ==> column_ok(names, k),
                    forall|m: int| 0 <= m < j ==> names[m] != names[i as int],
            {
                assert(names[j as int] == columns@[j as int].spec_name());
                assert(names[i as int] == columns@[i as int].spec_name());
                if columns[j].name == columns[i].name {
                    assert(!column_ok(names, i as int));
                    return Err(Error::SchemaViolation {
                        reason: concat_str("duplicate column: ", columns[i].name.as_str()),
                    });
                }
            }
            assert(column_ok(names, i as int));
        }
        Ok(Self { columns })
    }

    /// Returns columns in declaration order.
    pub fn columns(&self) -> (c: &[MetadataColumn])
        ensures
            c@ == self.spec_columns(),
    {
        self.columns.as_slice()
    }

    /// Looks up a declared column by name.
    pub fn column(&self, name: &str) -> (r: Result<&MetadataColumn>)
        ensures
            r is Ok <==> exists|i: int|
                0 <= i < self.spec_columns().len() && #[trigger] self.spec_columns()[i].spec_name() == name@,
            r matches Ok(c) ==> exists|i: int|
                0 <= i < self.spec_columns().len() && self.spec_columns()[i] == *c
                && c.spec_name() == name@
                && forall|k: int| 0 <= k < i ==> self.spec_columns()[k].spec_name() != name@,
            r matches Err(e) ==> e matches Error::SchemaViolation { reason }
                && reason@ == "unknown column: "@ + name@,
    {
        let wanted = String::from_str(name);
        for i in 0..self.columns.len()
            invariant
                wanted@ == name@,
                forall|k: int| 0 <= k < i ==> self.columns@[k].spec_name() != name@,
        {
            if self.columns[i].name == wanted {
                assert(self.spec_columns()[i as int].spec_name() == name@);
                return Ok(&self.columns[i]);
            }
        }
        Err(Error::SchemaViolation { reason: concat_str("unknown column: ", name) })
    }
}

/// An immutable Table definition and handle.
#[derive(Debug, PartialEq, Eq)]
pub struct Table {
    name: String,
    dimension: u32,
    metric: Metric,
    metadata_schema: MetadataSchema,
}

impl Clone for Table {
    fn clone(&self) -> (c: Self)
        ensures
            c.view() == self.view(),
    {
        Table {
            name: self.name.clone(),
            dimension: self.dimension,
            metric: self.metric,
            metadata_schema: self.metadata_schema.clone(),
        }
    }
}

/// What a Table declares: name, dimension, Metric and columns.
pub struct TableView {
    pub name: Seq<char>,
    pub dimension: u32,
    pub metric: Metric,
    pub columns: Seq<MetadataColumn>,
}

impl View for Table {
    type V = TableView;

    closed spec fn view(&self) -> TableView {
        TableView {
            name: self.name@,
            dimension: self.dimension,
            metric: self.metric,
            columns: self.metadata_schema.spec_columns(),
        }
    }
}

impl Table {
    pub closed spec fn spec_name(&self) -> Seq<char> {
        self.name@
    }

    pub closed spec fn spec_dimension(&self) -> u32 {
        self.dimension
    }

    pub closed spec fn spec_metric(&self) -> Metric {
        self.metric
    }

    pub closed spec fn spec_schema(&self) -> MetadataSchema {
        self.metadata_schema
    }

    /// The view agrees with the accessors.
    pub proof fn lemma_view(&self)
        ensures
            self.view().name == self.spec_name(),
            self.view().dimension == self.spec_dimension(),
            self.view().metric == self.spec_metric(),
            self.view().columns == self.spec_schema().spec_columns(),
    {
    }

    /// The Table's declaration is well formed: usable name, positive
    /// dimension, well-formed schema.
    pub open spec fn wf(&self) -> bool {
        &&& is_usable_name(self.spec_name())
        &&& self.spec_dimension() > 0
        &&& self.spec_schema().wf()
    }

    /// Returns the Table's name.
    pub fn name(&self) -> (s: &str)
        ensures
            s@ == self.spec_name(),
    {
        self.name.as_str()
    }

    /// Returns the fixed vector dimension.
    pub fn dimension(&self) -> (d: u32)
        ensures
            d == self.spec_dimension(),
    {
        self.dimension
    }

    /// Returns the fixed distance function.
    pub fn metric(&self) -> (m: Metric)
        ensures
            m == self.spec_metric(),
    {
        self.metric
    }

    /// Returns the Table's Metadata Schema.
    pub fn metadata_schema(&self) -> (s: &MetadataSchema)
        ensures
            *s == self.spec_schema(),
            s.spec_columns() == self.view().columns,
    {
        &self.metadata_schema
    }
}

/// Reason given when a Table name is refused.
pub open spec fn bad_table_name_reason() -> Seq<char> {
    "table names must be non-empty and contain no NUL bytes"@
}

/// Reason given when a Table dimension is refused.
pub open spec fn zero_dimension_reason() -> Seq<char> {
    "table dimension must be greater than zero"@
}

/// In-process owner of named Tables.
#[derive(Debug)]
pub struct TableManager {
    tables: Vec<Table>,
}

impl TableManager {
    /// The registered Tables, keyed by name.
    pub closed spec fn view(&self) -> Map<Seq<char>, TableView> {
        Map::new(
            |n: Seq<char>| exists|i: int| 0 <= i < self.tables@.len() && self.tables@[i].spec_name() == n,
            |n: Seq<char>| self.tables@[choose|i: int| 0 <= i < self.tables@.len() && self.tables@[i].spec_name() == n]@,
        )
    }

    /// Names are unique and every registered Table is well formed.
    pub closed spec fn wf(&self) -> bool {
        &&& forall|i: int, j: int|
            0 <= i < j < self.tables@.len() ==> self.tables@[i].spec_name() != self.tables@[j].spec_name()
        &&& forall|i: int| 0 <= i < self.tables@.len() ==> #[trigger] self.tables@[i].wf()
    }

    /// Creates an empty Table manager.
    pub fn new() -> (m: Self)
        ensures
            m.wf(),
            m.view() == Map::<Seq<char>, TableView>::empty(),
    {
        let m = TableManager { tables: Vec::new() };
        assert(m.view() =~= Map::<Seq<char>, TableView>::empty());
        m
    }

    fn find(&self, name: &str) -> (r: Option<usize>)
        ensures
            r matches Some(i) ==> i < self.tables@.len() && self.tables@[i as int].spec_name() == name@,
            r is None ==> forall|i: int| 0 <= i < self.tables@.len() ==> self.tables@[i].spec_name() != name@,
    {
        let wanted = String::from_str(name);
        for i in 0..self.tables.len()
            invariant
                wanted@ == name@,
                forall|k: int| 0 <= k < i ==> self.tables@[k].spec_name() != name@,
        {
            if self.tables[i].name == wanted {
                return Some(i);
            }
        }
        None
    }

    /// Creates and registers a Table with immutable dimension and Metric.
    ///
    /// Refuses, in this order: an unusable name, a zero dimension, a name
    /// already registered; each as a schema violation, leaving the manager
    /// unchanged.
    pub fn create(
        &mut self,
        name: String,
        dimension: u32,
        metric: Metric,
        metadata_schema: MetadataSchema,
    ) -> (r: Result<Table>)
        requires
            old(self).wf(),
            metadata_schema.wf(),
        ensures
            final(self).wf(),
            !is_usable_name(name@) ==> (r matches Err(Error::SchemaViolation { reason })
                && reason@ == bad_table_name_reason()),
            is_usable_name(name@) && dimension == 0 ==> (r matches Err(Error::SchemaViolation { reason })
                && reason@ == zero_dimension_reason()),
            is_usable_name(name@) && dimension > 0 && old(self).view().contains_key(name@)
                ==> (r matches Err(Error::SchemaViolation { reason })
                && reason@ == "duplicate table: "@ + name@),
            r is Err ==> final(self).view() == old(self).view(),
            r is Ok <==> is_usable_name(name@) && dimension > 0 && !old(self).view().contains_key(name@),
            r matches Ok(t) ==> t.spec_name() == name@ && t.spec_dimension() == dimension
                && t.spec_metric() == metric && t.spec_schema() == metadata_schema && t.wf()
                && final(self).view() == old(self).view().insert(name@, t@),
    {
        validate_table_name(name.as_str())?;
        if dimension == 0 {
            return Err(Error::SchemaViolation {
                reason: String::from_str("table dimension must be greater than zero"),
            });
        }
        proof {
            reveal_strlit("table dimension must be greater than zero");
        }
        match self.find(name.as_str()) {
            Some(i) => {
                proof {
                    assert(self.view().contains_key(name@));
                }
                return Err(Error::SchemaViolation {
                    reason: concat_str("duplicate table: ", name.as_str()),
                });
            },
            None => {},
        }
        assert(!self.view().contains_key(name@));
        let table = Table { name, dimension, metric, metadata_schema };
        let stored = table.clone();
        let ghost before = self.tables@;
        self.tables.push(stored);
        proof {
            let n = table.spec_name();
            assert(self.tables@.len() == before.len() + 1);
            assert(forall|k: int| 0 <= k < before.len() ==> self.tables@[k] == before[k]);
            assert(self.tables@[before.len() as int]@ == table@);
            assert(self.tables@[before.len() as int].spec_name() == n);
            assert forall|m: Seq<char>| #[trigger] self.view().contains_key(m)
                == old(self).view().insert(n, table@).contains_key(m) by {
                if m != n {
                    if self.view().contains_key(m) {
                        let i = choose|i: int| 0 <= i < self.tables@.len() && self.tables@[i].spec_name() == m;
                        assert(i < before.len());
                    }
                    if old(self).view().contains_key(m) {
                        let i = choose|i: int| 0 <= i < before.len() && before[i].spec_name() == m;
                        assert(self.tables@[i].spec_name() == m);
                    }
                }
            }
            assert forall|m: Seq<char>| #[trigger] self.view().contains_key(m)
                implies self.view()[m] == old(self).view().insert(n, table@)[m] by {
                let i = choose|i: int| 0 <= i < self.tables@.len() && self.tables@[i].spec_name() == m;
                if m == n {
                    assert(i == before.len());
                } else {
                    let j = choose|j: int| 0 <= j < before.len() && before[j].spec_name() == m;
                    assert(i < before.len());
                    assert(i == j);
                }
            }
            assert(self.view() =~= old(self).view().insert(n, table@));
        }
        Ok(table)
    }

    /// Opens a registered Table by name.
    pub fn open(&self, name: &str) -> (r: Result<Table>)
        requires
            self.wf(),
        ensures
            r is Ok <==> self.view().contains_key(name@),
            r matches Ok(t) ==> t@ == self.view()[name@] && t.wf(),
            r matches Err(e) ==> e matches Error::TableNotFound { name: n } && n@ == name@,
    {
        match self.find(name) {
            Some(i) => {
                proof {
                    let k = choose|k: int| 0 <= k < self.tables@.len() && self.tables@[k].spec_name() == name@;
                    assert(k == i);
                    assert(self.tables@[i as int].wf());
                }
                Ok(self.tables[i].clone())
            },
            None => Err(Error::TableNotFound { name: String::from_str(name) }),
        }
    }

    /// Drops a registered Table by name.
    pub fn drop(&mut self, name: &str) -> (r: Result<()>)
        requires
            old(self).wf(),
        ensures
            final(self).wf(),
            r is Ok <==> old(self).view().contains_key(name@),
            final(self).view() == old(self).view().remove(name@),
            r matches Err(e) ==> e matches Error::TableNotFound { name: n } && n@ == name@,
    {
        match self.find(name) {
            Some(i) => {
                let ghost before = self.tables@;
                self.tables.remove(i);
                proof {
                    assert forall|m: Seq<char>| #[trigger] self.view().contains_key(m)
                        == old(self).view().remove(name@).contains_key(m) by {
                        if self.view().contains_key(m) {
                            let k = choose|k: int| 0 <= k < self.tables@.len() && self.tables@[k].spec_name() == m;
                            if k < i { assert(before[k] == self.tables@[k]); }
                            else { assert(before[k + 1] == self.tables@[k]); }
                        }
                        if old(self).view().remove(name@).contains_key(m) {
                            let k = choose|k: int| 0 <= k < before.len() && before[k].spec_name() == m;
                            assert(k != i);
                            if k < i { assert(self.tables@[k] == before[k]); }
                            else { assert(self.tables@[k - 1] == before[k]); }
                        }
                    }
                    assert forall|m: Seq<char>| #[trigger] self.view().contains_key(m)
                        implies self.view()[m] == old(self).view().remove(name@)[m] by {
                        let k = choose|k: int| 0 <= k < self.tables@.len() && self.tables@[k].spec_name() == m;
                        let k0 = choose|k: int| 0 <= k < before.len() && before[k].spec_name() == m;
                        if k < i { assert(before[k] == self.tables@[k]); }
                        else { assert(before[k + 1] == self.tables@[k]); }
                    }
                    assert(self.view() =~= old(self).view().remove(name@));
                }
                Ok(())
            },
            None => {
                proof {
                    assert(self.view() =~= old(self).view().remove(name@));
                }
                Err(Error::TableNotFound { name: String::from_str(name) })
            },
        }
    }
}

/// Refuses a name that trims to nothing or holds a NUL character.
pub fn validate_table_name(name: &str) -> (r: Result<()>)
    ensures
        r is Ok <==> is_usable_name(name@),
        r matches Err(e) ==> e matches Error::SchemaViolation { reason }
            && reason@ == bad_table_name_reason(),
{
    if !usable_name(name) {
        proof {
            reveal_strlit("table names must be non-empty and contain no NUL bytes");
        }
        return Err(Error::SchemaViolation {
            reason: String::from_str("table names must be non-empty and contain no NUL bytes"),
        });
    }
    Ok(())
}

} // verus!
