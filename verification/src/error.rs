//! Why a query failed, what it answered, and what it may spend.

use vstd::prelude::*;

use crate::text::push_text;
use crate::value::{Value, ValueView};

verus! {

/// Why a query failed.
#[derive(Debug, PartialEq, Eq)]
pub enum QueryError {
    Execution(String),
    TypeError(String),
    ViewError(String),
    StorageError(String),
    TableNotFound(String),
    ColumnNotFound { table: String, column: String },
    SortLimitExceeded,
    JoinLimitExceeded,
    NestedLoopPairLimitExceeded { left_rows: usize, right_rows: usize, limit: usize },
    MemoryLimitExceeded { limit: usize },
    Cancelled,
}

/// What a [`QueryError`] stands for.
pub enum ErrorView {
    Execution(Seq<char>),
    TypeError(Seq<char>),
    ViewError(Seq<char>),
    StorageError(Seq<char>),
    TableNotFound(Seq<char>),
    ColumnNotFound { table: Seq<char>, column: Seq<char> },
    SortLimitExceeded,
    JoinLimitExceeded,
    NestedLoopPairLimitExceeded { left_rows: usize, right_rows: usize, limit: usize },
    MemoryLimitExceeded { limit: usize },
    Cancelled,
}

impl DeepView for QueryError {
    type V = ErrorView;

    open spec fn deep_view(&self) -> ErrorView {
        match self {
            QueryError::Execution(m) => ErrorView::Execution(m@),
            QueryError::TypeError(m) => ErrorView::TypeError(m@),
            QueryError::ViewError(m) => ErrorView::ViewError(m@),
            QueryError::StorageError(m) => ErrorView::StorageError(m@),
            QueryError::TableNotFound(t) => ErrorView::TableNotFound(t@),
            QueryError::ColumnNotFound { table, column } => ErrorView::ColumnNotFound {
                table: table@,
                column: column@,
            },
            QueryError::SortLimitExceeded => ErrorView::SortLimitExceeded,
            QueryError::JoinLimitExceeded => ErrorView::JoinLimitExceeded,
            QueryError::NestedLoopPairLimitExceeded {
                left_rows,
                right_rows,
                limit,
            } => ErrorView::NestedLoopPairLimitExceeded {
                left_rows: *left_rows,
                right_rows: *right_rows,
                limit: *limit,
            },
            QueryError::MemoryLimitExceeded { limit } => ErrorView::MemoryLimitExceeded {
                limit: *limit,
            },
            QueryError::Cancelled => ErrorView::Cancelled,
        }
    }
}

impl QueryError {
    /// The message of an execution or type error, as a client reads it: a type
    /// error leads with `type mismatch: `, an execution error stands as it is.
    pub fn to_text(&self) -> (text: Option<String>)
        ensures
            match (self.deep_view(), text) {
                (ErrorView::Execution(m), Some(t)) => t@ == m,
                (ErrorView::TypeError(m), Some(t)) => t@ == "type mismatch: "@ + m,
                (ErrorView::Execution(_), None) => false,
                (ErrorView::TypeError(_), None) => false,
                (_, t) => t is None,
            },
    {
        match self {
            QueryError::Execution(m) => Some(m.clone()),
            QueryError::TypeError(m) => {
                let mut text = "type mismatch: ".to_owned();
                push_text(&mut text, m.as_str());
                Some(text)
            },
            _ => None,
        }
    }

    /// An execution error with a fixed message.
    pub fn execution(message: &str) -> (error: QueryError)
        ensures
            error.deep_view() == ErrorView::Execution(message@),
    {
        QueryError::Execution(message.to_owned())
    }

    /// The error for a column that no table in scope has.
    pub fn no_column(column: &String) -> (error: QueryError)
        ensures
            error.deep_view() == no_column_error(column@),
    {
        let error = QueryError::ColumnNotFound { table: String::new(), column: column.clone() };
        assert(error.deep_view() == no_column_error(column@)) by {
            reveal_strlit("");
            assert(""@ =~= Seq::<char>::empty());
        }
        error
    }
}

/// The error for a column that no table in scope has.
pub open spec fn no_column_error(column: Seq<char>) -> ErrorView {
    ErrorView::ColumnNotFound { table: Seq::empty(), column }
}

/// What a plan answers.
#[derive(Debug, PartialEq, Eq)]
pub enum QueryResult {
    Rows { columns: Vec<String>, rows: Vec<Vec<Value>> },
    Scalar(Value),
    Modified(u64),
    Created(String),
    Executed { message: String },
}

/// What a [`QueryResult`] stands for.
pub enum ResultView {
    Rows { columns: Seq<Seq<char>>, rows: Seq<Seq<ValueView>> },
    Scalar(ValueView),
    Modified(u64),
    Created(Seq<char>),
    Executed { message: Seq<char> },
}

impl DeepView for QueryResult {
    type V = ResultView;

    open spec fn deep_view(&self) -> ResultView {
        match self {
            QueryResult::Rows { columns, rows } => ResultView::Rows {
                columns: columns.deep_view(),
                rows: rows.deep_view(),
            },
            QueryResult::Scalar(v) => ResultView::Scalar(v.deep_view()),
            QueryResult::Modified(n) => ResultView::Modified(*n),
            QueryResult::Created(name) => ResultView::Created(name@),
            QueryResult::Executed { message } => ResultView::Executed { message: message@ },
        }
    }
}

/// What a fallible step gives, with the error as the client sees it.
pub open spec fn outcome<T: DeepView>(result: Result<T, QueryError>) -> Result<T::V, ErrorView> {
    match result {
        Ok(value) => Ok(value.deep_view()),
        Err(error) => Err(error.deep_view()),
    }
}

/// The bytes that one query may hold, and those that it holds already.
#[derive(Debug, Clone, Copy, PartialEq, Eq, Structural)]
pub struct Budget {
    pub used: usize,
    pub limit: usize,
}

impl Budget {
    /// The budget after `bytes` more.
    pub open spec fn after(self, bytes: int) -> Budget {
        Budget {
            used: if self.used + bytes > usize::MAX { usize::MAX } else { (self.used + bytes) as usize },
            limit: self.limit,
        }
    }

    /// Take `bytes` more; an error, with the budget as it was, when the total
    /// would pass the limit.
    pub fn charge(&mut self, bytes: usize) -> (charged: Result<(), QueryError>)
        ensures
            match charged {
                Ok(_) => old(self).used + bytes <= old(self).limit && *final(self) == old(self).after(
                    bytes as int,
                ),
                Err(error) => old(self).used + bytes > old(self).limit && *final(self) == *old(self)
                    && error.deep_view() == (ErrorView::MemoryLimitExceeded {
                    limit: old(self).limit,
                }),
            },
    {
        match self.used.checked_add(bytes) {
            Some(total) => {
                if total > self.limit {
                    Err(QueryError::MemoryLimitExceeded { limit: self.limit })
                } else {
                    self.used = total;
                    Ok(())
                }
            },
            None => Err(QueryError::MemoryLimitExceeded { limit: self.limit }),
        }
    }
}

} // verus!
