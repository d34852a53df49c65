//! What a statement has the storage do, and what it answers when that is done.

use vstd::prelude::*;

use crate::aggregate::RowId;
use crate::catalog::{ColumnDef, ColumnDefView, LinkDef, LinkDefView, Schema, SchemaView};
use crate::error::{QueryResult, ResultView};
use crate::group::ints;
use crate::plan::{StoredJsonPath, StoredJsonPathView};
use crate::value::{Value, ValueView};

verus! {

/// A materialized view: its source query, the tables that the query reads, and
/// whether they changed since the view was filled.
#[derive(Debug, PartialEq, Eq)]
pub struct ViewDef {
    pub name: String,
    pub query: String,
    pub depends_on: Vec<String>,
    pub dirty: bool,
}

/// What a [`ViewDef`] stands for.
pub struct ViewDefView {
    pub name: Seq<char>,
    pub query: Seq<char>,
    pub depends_on: Seq<Seq<char>>,
    pub dirty: bool,
}

impl DeepView for ViewDef {
    type V = ViewDefView;

    open spec fn deep_view(&self) -> ViewDefView {
        ViewDefView {
            name: self.name@,
            query: self.query@,
            depends_on: self.depends_on.deep_view(),
            dirty: self.dirty,
        }
    }
}

/// Names, if there are any.
pub open spec fn names_view(names: Option<Vec<String>>) -> Option<Seq<Seq<char>>> {
    match names {
        Some(names) => Some(names.deep_view()),
        None => None,
    }
}

/// One step that the storage takes.
#[derive(Debug, PartialEq, Eq)]
pub enum StorageOp {
    /// Give each row its automatic values and store it.
    Insert { table: String, rows: Vec<Vec<Value>> },
    /// Replace a row, of which the columns at `changed` may be new.
    Update { table: String, rid: RowId, values: Vec<Value>, changed: Vec<usize> },
    /// Remove rows.
    Delete { table: String, rids: Vec<RowId> },
    /// Remove every row.
    Clear { table: String },
    /// Make a table, with what its columns are filled with.
    CreateTable { schema: Schema, defaults: Vec<Option<Value>>, auto_columns: Vec<bool> },
    /// Remove a table.
    DropTable { name: String },
    /// Make an index on a column.
    CreateIndex { table: String, column: String, unique: bool },
    /// Make an index on a JSON path.
    CreatePathIndex { table: String, path: StoredJsonPath, unique: bool },
    /// Remove an index on a JSON path.
    DropPathIndex { table: String, index_id: u64 },
    /// Add a column.
    AddColumn { table: String, column: ColumnDef },
    /// Remove a column.
    DropColumn { table: String, name: String },
    /// Declare a link.
    CreateLink { link: LinkDef },
    /// Start a transaction.
    Begin,
    /// Commit the transaction.
    Commit,
    /// Roll the transaction back.
    Rollback,
    /// Commit what the statement wrote, outside a transaction.
    CommitStatement,
    /// Register a view.
    RegisterView { view: ViewDef },
    /// Forget a view.
    UnregisterView { name: String },
    /// Record for good that a view is up to date.
    MarkClean { name: String },
    /// Hold a view for up to date until the database is next opened.
    MarkCleanInMemory { name: String },
    /// Record that the views over a table are out of date.
    MarkDependentsDirty { table: String },
}

/// What a [`StorageOp`] stands for.
pub enum StorageOpView {
    Insert { table: Seq<char>, rows: Seq<Seq<ValueView>> },
    Update { table: Seq<char>, rid: RowId, values: Seq<ValueView>, changed: Seq<int> },
    Delete { table: Seq<char>, rids: Seq<RowId> },
    Clear { table: Seq<char> },
    CreateTable { schema: SchemaView, defaults: Seq<Option<ValueView>>, auto_columns: Seq<bool> },
    DropTable { name: Seq<char> },
    CreateIndex { table: Seq<char>, column: Seq<char>, unique: bool },
    CreatePathIndex { table: Seq<char>, path: StoredJsonPathView, unique: bool },
    DropPathIndex { table: Seq<char>, index_id: u64 },
    AddColumn { table: Seq<char>, column: ColumnDefView },
    DropColumn { table: Seq<char>, name: Seq<char> },
    CreateLink { link: LinkDefView },
    Begin,
    Commit,
    Rollback,
    CommitStatement,
    RegisterView { view: ViewDefView },
    UnregisterView { name: Seq<char> },
    MarkClean { name: Seq<char> },
    MarkCleanInMemory { name: Seq<char> },
    MarkDependentsDirty { table: Seq<char> },
}

impl DeepView for StorageOp {
    type V = StorageOpView;

    open spec fn deep_view(&self) -> StorageOpView {
        match self {
            StorageOp::Insert { table, rows } => StorageOpView::Insert {
                table: table@,
                rows: rows.deep_view(),
            },
            StorageOp::Update { table, rid, values, changed } => StorageOpView::Update {
                table: table@,
                rid: *rid,
                values: values.deep_view(),
                changed: ints(changed@),
            },
            StorageOp::Delete { table, rids } => StorageOpView::Delete {
                table: table@,
                rids: rids@,
            },
            StorageOp::Clear { table } => StorageOpView::Clear {
                table: table@,
            },
            StorageOp::CreateTable { schema, defaults, auto_columns } => StorageOpView::CreateTable {
                schema: schema.deep_view(),
                defaults: defaults.deep_view(),
                auto_columns: auto_columns@,
            },
            StorageOp::DropTable { name } => StorageOpView::DropTable {
                name: name@,
            },
            StorageOp::CreateIndex { table, column, unique } => StorageOpView::CreateIndex {
                table: table@,
                column: column@,
                unique: *unique,
            },
            StorageOp::CreatePathIndex { table, path, unique } => StorageOpView::CreatePathIndex {
                table: table@,
                path: path.deep_view(),
                unique: *unique,
            },
            StorageOp::DropPathIndex { table, index_id } => StorageOpView::DropPathIndex {
                table: table@,
                index_id: *index_id,
            },
            StorageOp::AddColumn { table, column } => StorageOpView::AddColumn {
                table: table@,
                column: column.deep_view(),
            },
            StorageOp::DropColumn { table, name } => StorageOpView::DropColumn {
                table: table@,
                name: name@,
            },
            StorageOp::CreateLink { link } => StorageOpView::CreateLink {
                link: link.deep_view(),
            },
            StorageOp::Begin => StorageOpView::Begin,
            StorageOp::Commit => StorageOpView::Commit,
            StorageOp::Rollback => StorageOpView::Rollback,
            StorageOp::CommitStatement => StorageOpView::CommitStatement,
            StorageOp::RegisterView { view } => StorageOpView::RegisterView {
                view: view.deep_view(),
            },
            StorageOp::UnregisterView { name } => StorageOpView::UnregisterView {
                name: name@,
            },
            StorageOp::MarkClean { name } => StorageOpView::MarkClean {
                name: name@,
            },
            StorageOp::MarkCleanInMemory { name } => StorageOpView::MarkCleanInMemory {
                name: name@,
            },
            StorageOp::MarkDependentsDirty { table } => StorageOpView::MarkDependentsDirty {
                table: table@,
            },
        }
    }
}

/// What a statement answers when the storage is done.
#[derive(Debug, PartialEq, Eq)]
pub enum Reply {
    /// This answer.
    Fixed { result: QueryResult },
    /// The rows as stored, under these columns; without columns, their number.
    Inserted { columns: Option<Vec<String>> },
    /// The number of rows removed.
    Deleted,
    /// The number of the new index on a JSON path.
    PathIndex { table: String, unique: bool },
}

/// What a [`Reply`] stands for.
pub enum ReplyView {
    Fixed { result: ResultView },
    Inserted { columns: Option<Seq<Seq<char>>> },
    Deleted,
    PathIndex { table: Seq<char>, unique: bool },
}

impl DeepView for Reply {
    type V = ReplyView;

    open spec fn deep_view(&self) -> ReplyView {
        match self {
            Reply::Fixed { result } => ReplyView::Fixed {
                result: result.deep_view(),
            },
            Reply::Inserted { columns } => ReplyView::Inserted {
                columns: names_view(*columns),
            },
            Reply::Deleted => ReplyView::Deleted,
            Reply::PathIndex { table, unique } => ReplyView::PathIndex {
                table: table@,
                unique: *unique,
            },
        }
    }
}

/// What comes of a statement.
#[derive(Debug, PartialEq, Eq)]
pub enum Decision {
    /// The statement is answered.
    Answer { result: QueryResult },
    /// The storage takes these steps, in this order, and the reply follows.
    Write { ops: Vec<StorageOp>, reply: Reply },
    /// A view that the statement reads is out of date and is refreshed first.
    Refresh { view: String },
    /// The source query of a view is run, and its rows fill the view, which is new or not.
    RunSource { view: String, query: String, create: bool },
}

/// What a [`Decision`] stands for.
pub enum DecisionView {
    Answer { result: ResultView },
    Write { ops: Seq<StorageOpView>, reply: ReplyView },
    Refresh { view: Seq<char> },
    RunSource { view: Seq<char>, query: Seq<char>, create: bool },
}

impl DeepView for Decision {
    type V = DecisionView;

    open spec fn deep_view(&self) -> DecisionView {
        match self {
            Decision::Answer { result } => DecisionView::Answer {
                result: result.deep_view(),
            },
            Decision::Write { ops, reply } => DecisionView::Write {
                ops: ops.deep_view(),
                reply: reply.deep_view(),
            },
            Decision::Refresh { view } => DecisionView::Refresh {
                view: view@,
            },
            Decision::RunSource { view, query, create } => DecisionView::RunSource {
                view: view@,
                query: query@,
                create: *create,
            },
        }
    }
}

} // verus!
