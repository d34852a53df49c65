//! What the engine knows of the stored tables: their schemas, their rows, their
//! indexes and the links between them.

use vstd::prelude::*;

use crate::aggregate::RowId;
use crate::expr::PathSeg;
use crate::plan::{clone_all, StoredJsonPath, StoredJsonPathView};
use crate::seqs::{
    first_where, first_where_is, first_where_none, name_position, name_position_is,
    name_position_none,
};
use crate::value::{clone_row, TypeId, Value, ValueView};

verus! {

fn clone_opt_values(values: &Vec<Option<Value>>) -> (copy: Vec<Option<Value>>)
    ensures
        copy.deep_view() == values.deep_view(),
{
    let mut copy: Vec<Option<Value>> = Vec::new();
    let mut i: usize = 0;
    while i < values.len()
        invariant
            i <= values.len(),
            copy.len() == i,
            forall|j: int| 0 <= j < i ==> (#[trigger] copy[j]).deep_view() == values[j].deep_view(),
        decreases values.len() - i,
    {
        let value = match &values[i] {
            Some(value) => Some(value.clone()),
            None => None,
        };
        copy.push(value);
        i = i + 1;
    }
    assert(copy.deep_view() =~= values.deep_view());
    copy
}

/// The same row ids.
pub fn clone_rids(rids: &Vec<RowId>) -> (copy: Vec<RowId>)
    ensures
        copy@ == rids@,
{
    let mut copy: Vec<RowId> = Vec::new();
    let mut i: usize = 0;
    while i < rids.len()
        invariant
            i <= rids.len(),
            copy@ == rids@.take(i as int),
        decreases rids.len() - i,
    {
        copy.push(rids[i]);
        assert(copy@ =~= rids@.take(i + 1));
        i = i + 1;
    }
    assert(rids@.take(rids.len() as int) =~= rids@);
    copy
}

fn clone_bools(flags: &Vec<bool>) -> (copy: Vec<bool>)
    ensures
        copy@ == flags@,
{
    let mut copy: Vec<bool> = Vec::new();
    let mut i: usize = 0;
    while i < flags.len()
        invariant
            i <= flags.len(),
            copy@ == flags@.take(i as int),
        decreases flags.len() - i,
    {
        copy.push(flags[i]);
        assert(copy@ =~= flags@.take(i + 1));
        i = i + 1;
    }
    assert(flags@.take(flags.len() as int) =~= flags@);
    copy
}

/// A column of a table.
#[derive(Debug, PartialEq, Eq)]
pub struct ColumnDef {
    pub name: String,
    pub type_id: TypeId,
    pub required: bool,
    pub position: u16,
}

/// What a [`ColumnDef`] stands for.
pub struct ColumnDefView {
    pub name: Seq<char>,
    pub type_id: TypeId,
    pub required: bool,
    pub position: u16,
}

impl DeepView for ColumnDef {
    type V = ColumnDefView;

    open spec fn deep_view(&self) -> ColumnDefView {
        ColumnDefView {
            name: self.name@,
            type_id: self.type_id,
            required: self.required,
            position: self.position,
        }
    }
}

impl Clone for ColumnDef {
    fn clone(&self) -> (copy: Self)
        ensures
            copy.deep_view() == self.deep_view(),
    {
        ColumnDef {
            name: self.name.clone(),
            type_id: self.type_id,
            required: self.required,
            position: self.position,
        }
    }
}

/// The columns of a table.
#[derive(Debug, PartialEq, Eq)]
pub struct Schema {
    pub table_name: String,
    pub columns: Vec<ColumnDef>,
}

/// What a [`Schema`] stands for.
pub struct SchemaView {
    pub table_name: Seq<char>,
    pub columns: Seq<ColumnDefView>,
}

impl DeepView for Schema {
    type V = SchemaView;

    open spec fn deep_view(&self) -> SchemaView {
        SchemaView {
            table_name: self.table_name@,
            columns: self.columns.deep_view(),
        }
    }
}

impl Clone for Schema {
    fn clone(&self) -> (copy: Self)
        ensures
            copy.deep_view() == self.deep_view(),
    {
        Schema {
            table_name: self.table_name.clone(),
            columns: clone_all(&self.columns),
        }
    }
}

/// What is counted of an index.
#[derive(Debug, Clone, Copy, PartialEq, Eq, Structural)]
pub struct IndexStats {
    pub total_entries: u64,
    pub distinct_keys: u64,
    pub empty_count: u64,
}

/// A key of an index and the row that it leads to.
#[derive(Debug, PartialEq, Eq)]
pub struct IndexEntry {
    pub key: Value,
    pub rid: RowId,
}

/// What a [`IndexEntry`] stands for.
pub struct IndexEntryView {
    pub key: ValueView,
    pub rid: RowId,
}

impl DeepView for IndexEntry {
    type V = IndexEntryView;

    open spec fn deep_view(&self) -> IndexEntryView {
        IndexEntryView {
            key: self.key.deep_view(),
            rid: self.rid,
        }
    }
}

impl Clone for IndexEntry {
    fn clone(&self) -> (copy: Self)
        ensures
            copy.deep_view() == self.deep_view(),
    {
        IndexEntry {
            key: self.key.clone(),
            rid: self.rid,
        }
    }
}

/// An index on a column: its entries in key order; rows without a value have none.
#[derive(Debug, PartialEq, Eq)]
pub struct ColumnIndex {
    pub column: String,
    pub unique: bool,
    pub entries: Vec<IndexEntry>,
    pub stats: Option<IndexStats>,
}

/// What a [`ColumnIndex`] stands for.
pub struct ColumnIndexView {
    pub column: Seq<char>,
    pub unique: bool,
    pub entries: Seq<IndexEntryView>,
    pub stats: Option<IndexStats>,
}

impl DeepView for ColumnIndex {
    type V = ColumnIndexView;

    open spec fn deep_view(&self) -> ColumnIndexView {
        ColumnIndexView {
            column: self.column@,
            unique: self.unique,
            entries: self.entries.deep_view(),
            stats: self.stats,
        }
    }
}

impl Clone for ColumnIndex {
    fn clone(&self) -> (copy: Self)
        ensures
            copy.deep_view() == self.deep_view(),
    {
        ColumnIndex {
            column: self.column.clone(),
            unique: self.unique,
            entries: clone_all(&self.entries),
            stats: self.stats,
        }
    }
}

/// An index on a JSON path: its entries in key order, the rows where the path
/// leads nowhere, and every row in the order of its key, upwards and downwards.
#[derive(Debug, PartialEq, Eq)]
pub struct ExpressionIndexMeta {
    pub index_id: u64,
    pub canonical_version: u32,
    pub json_path: StoredJsonPath,
    pub unique: bool,
    pub entries: Vec<IndexEntry>,
    pub empty_rids: Vec<RowId>,
    pub ascending: Vec<RowId>,
    pub descending: Vec<RowId>,
    pub stats: Option<IndexStats>,
}

/// What a [`ExpressionIndexMeta`] stands for.
pub struct ExpressionIndexMetaView {
    pub index_id: u64,
    pub canonical_version: u32,
    pub json_path: StoredJsonPathView,
    pub unique: bool,
    pub entries: Seq<IndexEntryView>,
    pub empty_rids: Seq<RowId>,
    pub ascending: Seq<RowId>,
    pub descending: Seq<RowId>,
    pub stats: Option<IndexStats>,
}

impl DeepView for ExpressionIndexMeta {
    type V = ExpressionIndexMetaView;

    open spec fn deep_view(&self) -> ExpressionIndexMetaView {
        ExpressionIndexMetaView {
            index_id: self.index_id,
            canonical_version: self.canonical_version,
            json_path: self.json_path.deep_view(),
            unique: self.unique,
            entries: self.entries.deep_view(),
            empty_rids: self.empty_rids@,
            ascending: self.ascending@,
            descending: self.descending@,
            stats: self.stats,
        }
    }
}

impl Clone for ExpressionIndexMeta {
    fn clone(&self) -> (copy: Self)
        ensures
            copy.deep_view() == self.deep_view(),
    {
        ExpressionIndexMeta {
            index_id: self.index_id,
            canonical_version: self.canonical_version,
            json_path: self.json_path.clone(),
            unique: self.unique,
            entries: clone_all(&self.entries),
            empty_rids: clone_rids(&self.empty_rids),
            ascending: clone_rids(&self.ascending),
            descending: clone_rids(&self.descending),
            stats: self.stats,
        }
    }
}

/// A stored row.
#[derive(Debug, PartialEq, Eq)]
pub struct StoredRow {
    pub rid: RowId,
    pub values: Vec<Value>,
}

/// What a [`StoredRow`] stands for.
pub struct StoredRowView {
    pub rid: RowId,
    pub values: Seq<ValueView>,
}

impl DeepView for StoredRow {
    type V = StoredRowView;

    open spec fn deep_view(&self) -> StoredRowView {
        StoredRowView {
            rid: self.rid,
            values: self.values.deep_view(),
        }
    }
}

impl Clone for StoredRow {
    fn clone(&self) -> (copy: Self)
        ensures
            copy.deep_view() == self.deep_view(),
    {
        StoredRow {
            rid: self.rid,
            values: clone_row(&self.values),
        }
    }
}

/// A table: its rows in storage order, and what is declared of it.
#[derive(Debug, PartialEq, Eq)]
pub struct Table {
    pub schema: Schema,
    pub rows: Vec<StoredRow>,
    pub indexes: Vec<ColumnIndex>,
    pub expression_indexes: Vec<ExpressionIndexMeta>,
    pub defaults: Vec<Option<Value>>,
    pub auto_columns: Vec<bool>,
}

/// What a [`Table`] stands for.
pub struct TableView {
    pub schema: SchemaView,
    pub rows: Seq<StoredRowView>,
    pub indexes: Seq<ColumnIndexView>,
    pub expression_indexes: Seq<ExpressionIndexMetaView>,
    pub defaults: Seq<Option<ValueView>>,
    pub auto_columns: Seq<bool>,
}

impl DeepView for Table {
    type V = TableView;

    open spec fn deep_view(&self) -> TableView {
        TableView {
            schema: self.schema.deep_view(),
            rows: self.rows.deep_view(),
            indexes: self.indexes.deep_view(),
            expression_indexes: self.expression_indexes.deep_view(),
            defaults: self.defaults.deep_view(),
            auto_columns: self.auto_columns@,
        }
    }
}

impl Clone for Table {
    fn clone(&self) -> (copy: Self)
        ensures
            copy.deep_view() == self.deep_view(),
    {
        Table {
            schema: self.schema.clone(),
            rows: clone_all(&self.rows),
            indexes: clone_all(&self.indexes),
            expression_indexes: clone_all(&self.expression_indexes),
            defaults: clone_opt_values(&self.defaults),
            auto_columns: clone_bools(&self.auto_columns),
        }
    }
}

/// How many rows a hop along a link can reach.
#[derive(Debug, Clone, Copy, PartialEq, Eq, Structural)]
pub enum LinkKind {
    ToOne,
    ToMany,
}

/// A declared link: rows of the owner whose local key is the target key of a row of the target.
#[derive(Debug, PartialEq, Eq)]
pub struct LinkDef {
    pub owner_type: String,
    pub name: String,
    pub target_type: String,
    pub local_key: String,
    pub target_key: String,
}

/// What a [`LinkDef`] stands for.
pub struct LinkDefView {
    pub owner_type: Seq<char>,
    pub name: Seq<char>,
    pub target_type: Seq<char>,
    pub local_key: Seq<char>,
    pub target_key: Seq<char>,
}

impl DeepView for LinkDef {
    type V = LinkDefView;

    open spec fn deep_view(&self) -> LinkDefView {
        LinkDefView {
            owner_type: self.owner_type@,
            name: self.name@,
            target_type: self.target_type@,
            local_key: self.local_key@,
            target_key: self.target_key@,
        }
    }
}

impl Clone for LinkDef {
    fn clone(&self) -> (copy: Self)
        ensures
            copy.deep_view() == self.deep_view(),
    {
        LinkDef {
            owner_type: self.owner_type.clone(),
            name: self.name.clone(),
            target_type: self.target_type.clone(),
            local_key: self.local_key.clone(),
            target_key: self.target_key.clone(),
        }
    }
}

/// The tables and the links between them.
#[derive(Debug, PartialEq, Eq)]
pub struct Catalog {
    pub tables: Vec<Table>,
    pub links: Vec<LinkDef>,
}

/// What a [`Catalog`] stands for.
pub struct CatalogView {
    pub tables: Seq<TableView>,
    pub links: Seq<LinkDefView>,
}

impl DeepView for Catalog {
    type V = CatalogView;

    open spec fn deep_view(&self) -> CatalogView {
        CatalogView {
            tables: self.tables.deep_view(),
            links: self.links.deep_view(),
        }
    }
}

impl Clone for Catalog {
    fn clone(&self) -> (copy: Self)
        ensures
            copy.deep_view() == self.deep_view(),
    {
        Catalog {
            tables: clone_all(&self.tables),
            links: clone_all(&self.links),
        }
    }
}

impl SchemaView {
    /// The names of the columns.
    pub open spec fn column_names(self) -> Seq<Seq<char>> {
        Seq::new(self.columns.len(), |i: int| self.columns[i].name)
    }

    /// The position of the column of this name.
    pub open spec fn column_index(self, name: Seq<char>) -> Option<int> {
        name_position(self.column_names(), name)
    }
}

impl Schema {
    /// The names of the columns.
    pub fn column_names(&self) -> (names: Vec<String>)
        ensures
            names.deep_view() == self.deep_view().column_names(),
            names.len() == self.columns.len(),
    {
        let mut names: Vec<String> = Vec::new();
        let mut i: usize = 0;
        while i < self.columns.len()
            invariant
                i <= self.columns.len(),
                names.len() == i,
                forall|j: int| 0 <= j < i ==> (#[trigger] names[j])@ == self.columns[j].name@,
            decreases self.columns.len() - i,
        {
            names.push(self.columns[i].name.clone());
            i = i + 1;
        }
        assert(names.deep_view() =~= self.deep_view().column_names());
        names
    }

    /// The position of the column of this name.
    pub fn column_index(&self, name: &String) -> (at: Option<usize>)
        ensures
            match at {
                Some(i) => i < self.columns.len() && self.deep_view().column_index(name@) == Some(
                    i as int,
                ),
                None => self.deep_view().column_index(name@) is None,
            },
    {
        let ghost names = self.deep_view().column_names();
        let mut i: usize = 0;
        while i < self.columns.len()
            invariant
                i <= self.columns.len(),
                names == self.deep_view().column_names(),
                forall|j: int| 0 <= j < i ==> #[trigger] names[j] != name@,
            decreases self.columns.len() - i,
        {
            assert(names[i as int] == self.columns[i as int].name@);
            if self.columns[i].name == *name {
                proof {
                    name_position_is(names, name@, i as int);
                }
                return Some(i);
            }
            i = i + 1;
        }
        proof {
            name_position_none(names, name@);
        }
        None
    }
}

impl TableView {
    /// The row of this id.
    pub open spec fn get(self, rid: RowId) -> Option<Seq<ValueView>> {
        match first_where(self.rows, has_rid(rid)) {
            Some(i) => Some(self.rows[i].values),
            None => None,
        }
    }

    /// The position of the index on this column.
    pub open spec fn index_on(self, column: Seq<char>) -> Option<int> {
        name_position(Seq::new(self.indexes.len(), |i: int| self.indexes[i].column), column)
    }
}

/// Being the row of this id.
pub open spec fn has_rid(rid: RowId) -> spec_fn(StoredRowView) -> bool {
    |row: StoredRowView| row.rid == rid
}

impl Table {
    /// The row of this id.
    pub fn get(&self, rid: RowId) -> (row: Option<&Vec<Value>>)
        ensures
            row.deep_view() == self.deep_view().get(rid),
    {
        let ghost rows = self.deep_view().rows;
        let mut i: usize = 0;
        while i < self.rows.len()
            invariant
                i <= self.rows.len(),
                rows == self.deep_view().rows,
                forall|j: int| 0 <= j < i ==> !has_rid(rid)(#[trigger] rows[j]),
            decreases self.rows.len() - i,
        {
            assert(rows[i as int] == self.rows[i as int].deep_view());
            if self.rows[i].rid == rid {
                proof {
                    first_where_is(rows, has_rid(rid), i as int);
                }
                return Some(&self.rows[i].values);
            }
            i = i + 1;
        }
        proof {
            first_where_none(rows, has_rid(rid));
        }
        None
    }

    fn find_index(&self, column: &String) -> (at: Option<usize>)
        ensures
            match at {
                Some(i) => i < self.indexes.len() && self.deep_view().index_on(column@) == Some(
                    i as int,
                ),
                None => self.deep_view().index_on(column@) is None,
            },
    {
        let ghost view = self.deep_view();
        let ghost names = Seq::new(view.indexes.len(), |i: int| view.indexes[i].column);
        let mut i: usize = 0;
        while i < self.indexes.len()
            invariant
                i <= self.indexes.len(),
                view == self.deep_view(),
                names == Seq::new(view.indexes.len(), |i: int| view.indexes[i].column),
                forall|j: int| 0 <= j < i ==> #[trigger] names[j] != column@,
            decreases self.indexes.len() - i,
        {
            assert(names[i as int] == self.indexes[i as int].column@);
            if self.indexes[i].column == *column {
                proof {
                    name_position_is(names, column@, i as int);
                }
                return Some(i);
            }
            i = i + 1;
        }
        proof {
            name_position_none(names, column@);
        }
        None
    }
}

impl CatalogView {
    /// The names of the tables.
    pub open spec fn table_names(self) -> Seq<Seq<char>> {
        Seq::new(self.tables.len(), |i: int| self.tables[i].schema.table_name)
    }

    /// The table of this name.
    pub open spec fn table(self, name: Seq<char>) -> Option<TableView> {
        match name_position(self.table_names(), name) {
            Some(i) => Some(self.tables[i]),
            None => None,
        }
    }

    /// The schema of the table of this name.
    pub open spec fn schema(self, name: Seq<char>) -> Option<SchemaView> {
        match self.table(name) {
            Some(table) => Some(table.schema),
            None => None,
        }
    }

    /// The index on a column of a table.
    pub open spec fn index(self, table: Seq<char>, column: Seq<char>) -> Option<ColumnIndexView> {
        match self.table(table) {
            Some(found) => match found.index_on(column) {
                Some(i) => Some(found.indexes[i]),
                None => None,
            },
            None => None,
        }
    }

    /// Whether the index on a column is unique, if there is one.
    pub open spec fn is_index_unique(self, table: Seq<char>, column: Seq<char>) -> Option<bool> {
        match self.index(table, column) {
            Some(index) => Some(index.unique),
            None => None,
        }
    }

    /// What is counted of the index on a column.
    pub open spec fn index_stats(self, table: Seq<char>, column: Seq<char>) -> Option<IndexStats> {
        match self.index(table, column) {
            Some(index) => index.stats,
            None => None,
        }
    }

    /// The type of a column.
    pub open spec fn column_type(self, table: Seq<char>, column: Seq<char>) -> Option<TypeId> {
        match self.schema(table) {
            Some(schema) => match schema.column_index(column) {
                Some(i) => Some(schema.columns[i].type_id),
                None => None,
            },
            None => None,
        }
    }

    /// The first index on a JSON path, in the format that is understood.
    pub open spec fn expression_index(self, table: Seq<char>, path: StoredJsonPathView) -> Option<
        ExpressionIndexMetaView,
    > {
        match self.table(table) {
            Some(found) => first_on_path(found.expression_indexes, path),
            None => None,
        }
    }

    /// The link that a type declares under this name.
    pub open spec fn link(self, owner: Seq<char>, name: Seq<char>) -> Option<LinkDefView> {
        first_link(self.links, owner, name)
    }

    /// A hop to a unique key reaches one row, any other many.
    pub open spec fn link_kind(self, target: Seq<char>, key: Seq<char>) -> LinkKind {
        if self.is_index_unique(target, key) == Some(true) {
            LinkKind::ToOne
        } else {
            LinkKind::ToMany
        }
    }
}

/// The first index on `path`, in the format that is understood.
pub open spec fn first_on_path(
    indexes: Seq<ExpressionIndexMetaView>,
    path: StoredJsonPathView,
) -> Option<ExpressionIndexMetaView>
    decreases indexes.len(),
{
    if indexes.len() == 0 {
        None
    } else {
        match first_on_path(indexes.drop_last(), path) {
            Some(index) => Some(index),
            None => if indexes.last().canonical_version == 1 && indexes.last().json_path == path {
                Some(indexes.last())
            } else {
                None
            },
        }
    }
}

/// The first link of `owner` under `name`.
pub open spec fn first_link(links: Seq<LinkDefView>, owner: Seq<char>, name: Seq<char>) -> Option<
    LinkDefView,
>
    decreases links.len(),
{
    if links.len() == 0 {
        None
    } else {
        match first_link(links.drop_last(), owner, name) {
            Some(link) => Some(link),
            None => if links.last().owner_type == owner && links.last().name == name {
                Some(links.last())
            } else {
                None
            },
        }
    }
}

/// Whether two segments are the same.
fn segments_same(a: &Vec<PathSeg>, b: &Vec<PathSeg>) -> (same: bool)
    ensures
        same == (a.deep_view() == b.deep_view()),
{
    if a.len() != b.len() {
        assert(a.deep_view().len() != b.deep_view().len());
        return false;
    }
    let ghost (va, vb) = (a.deep_view(), b.deep_view());
    let mut i: usize = 0;
    while i < a.len()
        invariant
            i <= a.len(),
            a.len() == b.len(),
            va == a.deep_view(),
            vb == b.deep_view(),
            forall|j: int| 0 <= j < i ==> va[j] == vb[j],
        decreases a.len() - i,
    {
        let same: bool = match (&a[i], &b[i]) {
            (PathSeg::Key(x), PathSeg::Key(y)) => *x == *y,
            (PathSeg::Index(x), PathSeg::Index(y)) => *x == *y,
            _ => false,
        };
        if !same {
            assert(va[i as int] != vb[i as int]);
            return false;
        }
        i = i + 1;
    }
    assert(va =~= vb);
    true
}

/// Whether two stored paths are the same.
pub fn paths_same(a: &StoredJsonPath, b: &StoredJsonPath) -> (same: bool)
    ensures
        same == (a.deep_view() == b.deep_view()),
{
    a.column == b.column && segments_same(&a.segments, &b.segments)
}

impl Catalog {
    /// The table of this name.
    pub fn table(&self, name: &String) -> (table: Option<&Table>)
        ensures
            table.deep_view() == self.deep_view().table(name@),
    {
        let ghost names = self.deep_view().table_names();
        let mut i: usize = 0;
        while i < self.tables.len()
            invariant
                i <= self.tables.len(),
                names == self.deep_view().table_names(),
                forall|j: int| 0 <= j < i ==> #[trigger] names[j] != name@,
            decreases self.tables.len() - i,
        {
            assert(names[i as int] == self.tables[i as int].schema.table_name@);
            if self.tables[i].schema.table_name == *name {
                proof {
                    name_position_is(names, name@, i as int);
                }
                return Some(&self.tables[i]);
            }
            i = i + 1;
        }
        proof {
            name_position_none(names, name@);
        }
        None
    }

    /// The schema of the table of this name.
    pub fn schema(&self, name: &String) -> (schema: Option<&Schema>)
        ensures
            schema.deep_view() == self.deep_view().schema(name@),
    {
        match self.table(name) {
            Some(table) => Some(&table.schema),
            None => None,
        }
    }

    /// The index on a column of a table.
    pub fn index(&self, table: &String, column: &String) -> (index: Option<&ColumnIndex>)
        ensures
            index.deep_view() == self.deep_view().index(table@, column@),
    {
        match self.table(table) {
            Some(found) => match found.find_index(column) {
                Some(i) => Some(&found.indexes[i]),
                None => None,
            },
            None => None,
        }
    }

    /// Whether the index on a column is unique, if there is one.
    pub fn is_index_unique(&self, table: &String, column: &String) -> (unique: Option<bool>)
        ensures
            unique == self.deep_view().is_index_unique(table@, column@),
    {
        match self.index(table, column) {
            Some(index) => Some(index.unique),
            None => None,
        }
    }

    /// Whether a column has an index.
    pub fn has_index(&self, table: &String, column: &String) -> (has: bool)
        ensures
            has == (self.deep_view().index(table@, column@) is Some),
    {
        match self.index(table, column) {
            Some(_) => true,
            None => false,
        }
    }

    /// What is counted of the index on a column.
    pub fn index_stats(&self, table: &String, column: &String) -> (stats: Option<IndexStats>)
        ensures
            stats == self.deep_view().index_stats(table@, column@),
    {
        match self.index(table, column) {
            Some(index) => index.stats,
            None => None,
        }
    }

    /// The type of a column.
    pub fn column_type(&self, table: &String, column: &String) -> (t: Option<TypeId>)
        ensures
            t == self.deep_view().column_type(table@, column@),
    {
        match self.schema(table) {
            Some(schema) => match schema.column_index(column) {
                Some(i) => Some(schema.columns[i].type_id),
                None => None,
            },
            None => None,
        }
    }

    /// The first index on a JSON path, in the format that is understood.
    pub fn resolve_expression_index(&self, table: &String, path: &StoredJsonPath) -> (index: Option<
        &ExpressionIndexMeta,
    >)
        ensures
            index.deep_view() == self.deep_view().expression_index(table@, path.deep_view()),
    {
        let found = match self.table(table) {
            Some(found) => found,
            None => {
                return None;
            },
        };
        let ghost all = found.expression_indexes.deep_view();
        let mut i: usize = 0;
        while i < found.expression_indexes.len()
            invariant
                i <= found.expression_indexes.len(),
                all == found.expression_indexes.deep_view(),
                first_on_path(all.take(i as int), path.deep_view()) is None,
                self.deep_view().table(table@) == Some(found.deep_view()),
            decreases found.expression_indexes.len() - i,
        {
            let index = &found.expression_indexes[i];
            proof {
                assert(all.take(i + 1).drop_last() =~= all.take(i as int));
                assert(all.take(i + 1).last() == index.deep_view());
            }
            if index.canonical_version == 1 && paths_same(&index.json_path, path) {
                proof {
                    first_on_path_stays(all, path.deep_view(), i + 1);
                }
                return Some(index);
            }
            i = i + 1;
        }
        assert(all.take(found.expression_indexes.len() as int) =~= all);
        None
    }

    /// The link that a type declares under this name.
    pub fn link(&self, owner: &String, name: &String) -> (link: Option<&LinkDef>)
        ensures
            link.deep_view() == self.deep_view().link(owner@, name@),
    {
        let ghost all = self.links.deep_view();
        let mut i: usize = 0;
        while i < self.links.len()
            invariant
                i <= self.links.len(),
                all == self.links.deep_view(),
                first_link(all.take(i as int), owner@, name@) is None,
            decreases self.links.len() - i,
        {
            let link = &self.links[i];
            proof {
                assert(all.take(i + 1).drop_last() =~= all.take(i as int));
                assert(all.take(i + 1).last() == link.deep_view());
            }
            if link.owner_type == *owner && link.name == *name {
                proof {
                    first_link_stays(all, owner@, name@, i + 1);
                }
                return Some(link);
            }
            i = i + 1;
        }
        assert(all.take(self.links.len() as int) =~= all);
        None
    }

    /// How many rows a hop to this key can reach.
    pub fn derive_link_kind(&self, target: &String, key: &String) -> (kind: LinkKind)
        ensures
            kind == self.deep_view().link_kind(target@, key@),
    {
        match self.is_index_unique(target, key) {
            Some(true) => LinkKind::ToOne,
            _ => LinkKind::ToMany,
        }
    }
}

proof fn first_on_path_stays(
    indexes: Seq<ExpressionIndexMetaView>,
    path: StoredJsonPathView,
    k: int,
)
    requires
        0 <= k <= indexes.len(),
        first_on_path(indexes.take(k), path) is Some,
    ensures
        first_on_path(indexes, path) == first_on_path(indexes.take(k), path),
    decreases indexes.len(),
{
    if k == indexes.len() {
        assert(indexes.take(k) =~= indexes);
    } else {
        assert(indexes.drop_last().take(k) =~= indexes.take(k));
        first_on_path_stays(indexes.drop_last(), path, k);
    }
}

proof fn first_link_stays(links: Seq<LinkDefView>, owner: Seq<char>, name: Seq<char>, k: int)
    requires
        0 <= k <= links.len(),
        first_link(links.take(k), owner, name) is Some,
    ensures
        first_link(links, owner, name) == first_link(links.take(k), owner, name),
    decreases links.len(),
{
    if k == links.len() {
        assert(links.take(k) =~= links);
    } else {
        assert(links.drop_last().take(k) =~= links.take(k));
        first_link_stays(links.drop_last(), owner, name, k);
    }
}

} // verus!
