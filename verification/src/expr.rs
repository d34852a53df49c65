//! Expressions.

use vstd::prelude::*;

use crate::value::{Value, ValueView};

verus! {

/// A literal of the query text. A float is held as its bits.
#[derive(Debug, PartialEq, Eq)]
pub enum Literal {
    Int(i64),
    Float(u64),
    Bool(bool),
    String(String),
}

/// What a [`Literal`] stands for.
pub enum LiteralView {
    Int(i64),
    Float(u64),
    Bool(bool),
    String(Seq<char>),
}

/// A binary operator.
#[derive(Debug, Clone, Copy, PartialEq, Eq, Structural)]
pub enum BinOp {
    Eq,
    Neq,
    Lt,
    Gt,
    Lte,
    Gte,
    And,
    Or,
    Add,
    Sub,
    Mul,
    Div,
    Like,
}

/// A unary operator.
#[derive(Debug, Clone, Copy, PartialEq, Eq, Structural)]
pub enum UnaryOp {
    Not,
    Neg,
    Exists,
    NotExists,
    IsNull,
    IsNotNull,
}

/// An aggregate function.
#[derive(Debug, Clone, Copy, PartialEq, Eq, Structural)]
pub enum AggFunc {
    Count,
    CountDistinct,
    Sum,
    Avg,
    Min,
    Max,
}

/// A window function.
#[derive(Debug, Clone, Copy, PartialEq, Eq, Structural)]
pub enum WindowFunc {
    RowNumber,
    Rank,
    DenseRank,
    Sum,
    Avg,
    Count,
    Min,
    Max,
}

/// How an aggregate over a join treats a source row that the join repeats.
#[derive(Debug, Clone, Copy, PartialEq, Eq, Structural)]
pub enum AggregateMode {
    Raw,
    Symmetric,
}

/// One step of a JSON path.
#[derive(Debug, PartialEq, Eq)]
pub enum PathSeg {
    Key(String),
    Index(i64),
}

/// What a [`PathSeg`] stands for.
pub enum PathSegView {
    Key(Seq<char>),
    Index(i64),
}

/// One key of an `order` clause.
#[derive(Debug, PartialEq, Eq)]
pub struct SortKey {
    pub expr: Expr,
    pub descending: bool,
}

/// What a [`SortKey`] stands for.
pub struct SortKeyView {
    pub expr: ExprView,
    pub descending: bool,
}

/// An expression. A subquery is held as its source text.
#[derive(Debug, PartialEq, Eq)]
pub enum Expr {
    Field(String),
    QualifiedField { qualifier: String, field: String },
    Literal(Literal),
    ValueLit(Value),
    Param(u32),
    Null,
    BinaryOp(Box<Expr>, BinOp, Box<Expr>),
    UnaryOp(UnaryOp, Box<Expr>),
    FunctionCall(AggFunc, Box<Expr>, AggregateMode),
    ScalarFunc(String, Vec<Expr>),
    Coalesce(Box<Expr>, Box<Expr>),
    Case { whens: Vec<(Box<Expr>, Box<Expr>)>, else_expr: Option<Box<Expr>> },
    InList { expr: Box<Expr>, list: Vec<Expr>, negated: bool },
    InSubquery { expr: Box<Expr>, subquery: String, negated: bool },
    ExistsSubquery { subquery: String, negated: bool },
    Cast(Box<Expr>, String),
    JsonPath { base: Box<Expr>, segments: Vec<PathSeg> },
    Window {
        function: WindowFunc,
        args: Vec<Expr>,
        mode: AggregateMode,
        partition_by: Vec<Expr>,
        order_by: Vec<SortKey>,
    },
}

/// What an [`Expr`] stands for.
pub enum ExprView {
    Field(Seq<char>),
    QualifiedField { qualifier: Seq<char>, field: Seq<char> },
    Literal(LiteralView),
    ValueLit(ValueView),
    Param(u32),
    Null,
    BinaryOp(Box<ExprView>, BinOp, Box<ExprView>),
    UnaryOp(UnaryOp, Box<ExprView>),
    FunctionCall(AggFunc, Box<ExprView>, AggregateMode),
    ScalarFunc(Seq<char>, Seq<ExprView>),
    Coalesce(Box<ExprView>, Box<ExprView>),
    Case { whens: Seq<(ExprView, ExprView)>, else_expr: Option<Box<ExprView>> },
    InList { expr: Box<ExprView>, list: Seq<ExprView>, negated: bool },
    InSubquery { expr: Box<ExprView>, subquery: Seq<char>, negated: bool },
    ExistsSubquery { subquery: Seq<char>, negated: bool },
    Cast(Box<ExprView>, Seq<char>),
    JsonPath { base: Box<ExprView>, segments: Seq<PathSegView> },
    Window {
        function: WindowFunc,
        args: Seq<ExprView>,
        mode: AggregateMode,
        partition_by: Seq<ExprView>,
        order_by: Seq<SortKeyView>,
    },
}

impl DeepView for Literal {
    type V = LiteralView;

    open spec fn deep_view(&self) -> LiteralView {
        match self {
            Literal::Int(n) => LiteralView::Int(*n),
            Literal::Float(bits) => LiteralView::Float(*bits),
            Literal::Bool(b) => LiteralView::Bool(*b),
            Literal::String(s) => LiteralView::String(s@),
        }
    }
}

impl DeepView for PathSeg {
    type V = PathSegView;

    open spec fn deep_view(&self) -> PathSegView {
        match self {
            PathSeg::Key(key) => PathSegView::Key(key@),
            PathSeg::Index(index) => PathSegView::Index(*index),
        }
    }
}

/// What an expression stands for.
pub open spec fn expr_view(expr: Expr) -> ExprView
    decreases expr,
{
    match expr {
        Expr::Field(name) => ExprView::Field(name@),
        Expr::QualifiedField { qualifier, field } => ExprView::QualifiedField {
            qualifier: qualifier@,
            field: field@,
        },
        Expr::Literal(literal) => ExprView::Literal(literal.deep_view()),
        Expr::ValueLit(value) => ExprView::ValueLit(value.deep_view()),
        Expr::Param(n) => ExprView::Param(n),
        Expr::Null => ExprView::Null,
        Expr::BinaryOp(left, op, right) => ExprView::BinaryOp(
            Box::new(expr_view(*left)),
            op,
            Box::new(expr_view(*right)),
        ),
        Expr::UnaryOp(op, inner) => ExprView::UnaryOp(op, Box::new(expr_view(*inner))),
        Expr::FunctionCall(function, inner, mode) => ExprView::FunctionCall(
            function,
            Box::new(expr_view(*inner)),
            mode,
        ),
        Expr::ScalarFunc(name, args) => ExprView::ScalarFunc(name@, exprs_view(args@)),
        Expr::Coalesce(left, right) => ExprView::Coalesce(
            Box::new(expr_view(*left)),
            Box::new(expr_view(*right)),
        ),
        Expr::Case { whens, else_expr } => ExprView::Case {
            whens: whens_view(whens@),
            else_expr: match else_expr {
                Some(inner) => Some(Box::new(expr_view(*inner))),
                None => None,
            },
        },
        Expr::InList { expr, list, negated } => ExprView::InList {
            expr: Box::new(expr_view(*expr)),
            list: exprs_view(list@),
            negated,
        },
        Expr::InSubquery { expr, subquery, negated } => ExprView::InSubquery {
            expr: Box::new(expr_view(*expr)),
            subquery: subquery@,
            negated,
        },
        Expr::ExistsSubquery { subquery, negated } => ExprView::ExistsSubquery {
            subquery: subquery@,
            negated,
        },
        Expr::Cast(inner, target) => ExprView::Cast(Box::new(expr_view(*inner)), target@),
        Expr::JsonPath { base, segments } => ExprView::JsonPath {
            base: Box::new(expr_view(*base)),
            segments: segments.deep_view(),
        },
        Expr::Window { function, args, mode, partition_by, order_by } => ExprView::Window {
            function,
            args: exprs_view(args@),
            mode,
            partition_by: exprs_view(partition_by@),
            order_by: sort_keys_view(order_by@),
        },
    }
}

/// What each expression stands for.
pub open spec fn exprs_view(exprs: Seq<Expr>) -> Seq<ExprView>
    decreases exprs,
{
    Seq::new(
        exprs.len(),
        |i: int| if 0 <= i < exprs.len() { expr_view(exprs[i]) } else { ExprView::Null },
    )
}

/// What the arms of a `case` stand for.
pub open spec fn whens_view(whens: Seq<(Box<Expr>, Box<Expr>)>) -> Seq<(ExprView, ExprView)>
    decreases whens,
{
    Seq::new(
        whens.len(),
        |i: int|
            if 0 <= i < whens.len() {
                (expr_view(*whens[i].0), expr_view(*whens[i].1))
            } else {
                (ExprView::Null, ExprView::Null)
            },
    )
}

/// What the keys of an `order` clause stand for.
pub open spec fn sort_keys_view(keys: Seq<SortKey>) -> Seq<SortKeyView>
    decreases keys,
{
    Seq::new(
        keys.len(),
        |i: int|
            if 0 <= i < keys.len() {
                SortKeyView { expr: expr_view(keys[i].expr), descending: keys[i].descending }
            } else {
                SortKeyView { expr: ExprView::Null, descending: false }
            },
    )
}

impl DeepView for Expr {
    type V = ExprView;

    open spec fn deep_view(&self) -> ExprView {
        expr_view(*self)
    }
}

impl Clone for Literal {
    fn clone(&self) -> (copy: Self)
        ensures
            copy.deep_view() == self.deep_view(),
    {
        match self {
            Literal::Int(n) => Literal::Int(*n),
            Literal::Float(bits) => Literal::Float(*bits),
            Literal::Bool(b) => Literal::Bool(*b),
            Literal::String(s) => Literal::String(s.clone()),
        }
    }
}

impl Clone for PathSeg {
    fn clone(&self) -> (copy: Self)
        ensures
            copy.deep_view() == self.deep_view(),
    {
        match self {
            PathSeg::Key(key) => PathSeg::Key(key.clone()),
            PathSeg::Index(index) => PathSeg::Index(*index),
        }
    }
}

/// A copy of `segments`.
pub fn clone_segments(segments: &Vec<PathSeg>) -> (copy: Vec<PathSeg>)
    ensures
        copy.deep_view() == segments.deep_view(),
{
    let mut copy: Vec<PathSeg> = Vec::new();
    let mut i: usize = 0;
    while i < segments.len()
        invariant
            i <= segments.len(),
            copy.len() == i,
            forall|j: int| 0 <= j < i ==> copy[j].deep_view() == segments[j].deep_view(),
        decreases segments.len() - i,
    {
        copy.push(segments[i].clone());
        i = i + 1;
    }
    assert(copy.deep_view() =~= segments.deep_view());
    copy
}

/// A copy of `expr`.
pub fn clone_expr(expr: &Expr) -> (copy: Expr)
    ensures
        expr_view(copy) == expr_view(*expr),
    decreases expr,
{
    match expr {
        Expr::Field(name) => Expr::Field(name.clone()),
        Expr::QualifiedField { qualifier, field } => Expr::QualifiedField {
            qualifier: qualifier.clone(),
            field: field.clone(),
        },
        Expr::Literal(literal) => Expr::Literal(literal.clone()),
        Expr::ValueLit(value) => Expr::ValueLit(value.clone()),
        Expr::Param(n) => Expr::Param(*n),
        Expr::Null => Expr::Null,
        Expr::BinaryOp(left, op, right) => Expr::BinaryOp(
            Box::new(clone_expr(left)),
            *op,
            Box::new(clone_expr(right)),
        ),
        Expr::UnaryOp(op, inner) => Expr::UnaryOp(*op, Box::new(clone_expr(inner))),
        Expr::FunctionCall(function, inner, mode) => Expr::FunctionCall(
            *function,
            Box::new(clone_expr(inner)),
            *mode,
        ),
        Expr::ScalarFunc(name, args) => Expr::ScalarFunc(name.clone(), clone_exprs(args)),
        Expr::Coalesce(left, right) => Expr::Coalesce(
            Box::new(clone_expr(left)),
            Box::new(clone_expr(right)),
        ),
        Expr::Case { whens, else_expr } => Expr::Case {
            whens: clone_whens(whens),
            else_expr: match else_expr {
                Some(inner) => Some(Box::new(clone_expr(inner))),
                None => None,
            },
        },
        Expr::InList { expr, list, negated } => Expr::InList {
            expr: Box::new(clone_expr(expr)),
            list: clone_exprs(list),
            negated: *negated,
        },
        Expr::InSubquery { expr, subquery, negated } => Expr::InSubquery {
            expr: Box::new(clone_expr(expr)),
            subquery: subquery.clone(),
            negated: *negated,
        },
        Expr::ExistsSubquery { subquery, negated } => Expr::ExistsSubquery {
            subquery: subquery.clone(),
            negated: *negated,
        },
        Expr::Cast(inner, target) => Expr::Cast(Box::new(clone_expr(inner)), target.clone()),
        Expr::JsonPath { base, segments } => Expr::JsonPath {
            base: Box::new(clone_expr(base)),
            segments: clone_segments(segments),
        },
        Expr::Window { function, args, mode, partition_by, order_by } => Expr::Window {
            function: *function,
            args: clone_exprs(args),
            mode: *mode,
            partition_by: clone_exprs(partition_by),
            order_by: clone_sort_keys(order_by),
        },
    }
}

/// A copy of `exprs`.
pub fn clone_exprs(exprs: &Vec<Expr>) -> (copy: Vec<Expr>)
    ensures
        exprs_view(copy@) == exprs_view(exprs@),
    decreases exprs,
{
    let mut copy: Vec<Expr> = Vec::new();
    let mut i: usize = 0;
    while i < exprs.len()
        invariant
            i <= exprs.len(),
            copy.len() == i,
            forall|j: int| 0 <= j < i ==> expr_view(#[trigger] copy[j]) == expr_view(exprs[j]),
        decreases exprs.len() - i,
    {
        copy.push(clone_expr(&exprs[i]));
        i = i + 1;
    }
    assert(exprs_view(copy@) =~= exprs_view(exprs@));
    copy
}

fn clone_whens(whens: &Vec<(Box<Expr>, Box<Expr>)>) -> (copy: Vec<(Box<Expr>, Box<Expr>)>)
    ensures
        whens_view(copy@) == whens_view(whens@),
    decreases whens,
{
    let mut copy: Vec<(Box<Expr>, Box<Expr>)> = Vec::new();
    let mut i: usize = 0;
    while i < whens.len()
        invariant
            i <= whens.len(),
            copy.len() == i,
            forall|j: int|
                0 <= j < i ==> expr_view(*(#[trigger] copy[j]).0) == expr_view(*whens[j].0)
                    && expr_view(*copy[j].1) == expr_view(*whens[j].1),
        decreases whens.len() - i,
    {
        let when = clone_expr(&whens[i].0);
        let result = clone_expr(&whens[i].1);
        copy.push((Box::new(when), Box::new(result)));
        i = i + 1;
    }
    assert(whens_view(copy@) =~= whens_view(whens@));
    copy
}

/// A copy of `keys`.
pub fn clone_sort_keys(keys: &Vec<SortKey>) -> (copy: Vec<SortKey>)
    ensures
        sort_keys_view(copy@) == sort_keys_view(keys@),
    decreases keys,
{
    let mut copy: Vec<SortKey> = Vec::new();
    let mut i: usize = 0;
    while i < keys.len()
        invariant
            i <= keys.len(),
            copy.len() == i,
            forall|j: int|
                0 <= j < i ==> expr_view((#[trigger] copy[j]).expr) == expr_view(keys[j].expr)
                    && copy[j].descending == keys[j].descending,
        decreases keys.len() - i,
    {
        let expr = clone_expr(&keys[i].expr);
        copy.push(SortKey { expr, descending: keys[i].descending });
        i = i + 1;
    }
    assert(sort_keys_view(copy@) =~= sort_keys_view(keys@));
    copy
}

impl Clone for Expr {
    fn clone(&self) -> (copy: Self)
        ensures
            copy.deep_view() == self.deep_view(),
    {
        clone_expr(self)
    }
}

} // verus!
