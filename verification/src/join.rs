//! Joins of materialised rows, by hash or by nested loop.

use vstd::prelude::*;

use crate::aggregate::{ProvenanceRows, ProvenanceView, RowId};
use crate::error::{ErrorView, QueryError, QueryResult, ResultView};
use crate::expr::{BinOp, Expr, ExprView};
use crate::group::{
    ats_view, check_reach, group_positions, ints, qualified, qualified_name, rows_reach,
    short_row_error,
};
use crate::scalars::{is_true, EvalModel, FloatOp, Order, Scalars};
use crate::seqs::{
    firsts, firsts_are_distinct, name_position, positions_are_positions, positions_of,
};
use crate::session::answered;
use crate::text::{clone_texts, position};
use crate::value::{clone_row, Value, ValueView};

verus! {

/// How rows of two inputs are joined.
#[derive(Debug, Clone, Copy, PartialEq, Eq, Structural)]
pub enum JoinKind {
    Inner,
    LeftOuter,
    RightOuter,
    Cross,
}

/// The conjuncts of a predicate: the operands of its top-level `and` chain.
pub open spec fn conjuncts(expr: ExprView) -> Seq<ExprView>
    decreases expr,
{
    match expr {
        ExprView::BinaryOp(left, BinOp::And, right) => conjuncts(*left) + conjuncts(*right),
        _ => seq![expr],
    }
}

/// Append the conjuncts of `expr` to `out`.
pub fn flatten_conjunctions<'a>(expr: &'a Expr, out: &mut Vec<&'a Expr>)
    ensures
        final(out).deep_view() == old(out).deep_view() + conjuncts(expr.deep_view()),
    decreases expr,
{
    match expr {
        Expr::BinaryOp(left, BinOp::And, right) => {
            flatten_conjunctions(left, out);
            flatten_conjunctions(right, out);
            assert(out.deep_view() =~= old(out).deep_view() + conjuncts(expr.deep_view()));
        },
        _ => {
            out.push(expr);
            assert(out.deep_view() =~= old(out).deep_view() + conjuncts(expr.deep_view()));
        },
    }
}

/// The column of one side that an expression names.
pub open spec fn side_column(expr: ExprView, columns: Seq<Seq<char>>) -> Option<int> {
    match expr {
        ExprView::QualifiedField { qualifier, field } => name_position(
            columns,
            qualified(qualifier, field),
        ),
        ExprView::Field(name) => name_position(columns, name),
        _ => None,
    }
}

fn resolve_side_column(expr: &Expr, columns: &Vec<String>) -> (at: Option<usize>)
    ensures
        match at {
            Some(i) => i < columns.len() && side_column(expr.deep_view(), columns.deep_view()) == Some(
                i as int,
            ),
            None => side_column(expr.deep_view(), columns.deep_view()) is None,
        },
{
    match expr {
        Expr::QualifiedField { qualifier, field } => {
            let name = qualified_name(qualifier, field);
            position(columns, &name)
        },
        Expr::Field(name) => position(columns, name),
        _ => None,
    }
}

/// The columns that an equality compares, one of each side, whichever way
/// round it is written.
pub open spec fn equi_keys(
    pred: ExprView,
    left_columns: Seq<Seq<char>>,
    right_columns: Seq<Seq<char>>,
) -> Option<(int, int)> {
    match pred {
        ExprView::BinaryOp(lhs, BinOp::Eq, rhs) => {
            let (l, r) = (side_column(*lhs, left_columns), side_column(*rhs, right_columns));
            let (sl, sr) = (side_column(*rhs, left_columns), side_column(*lhs, right_columns));
            if l is Some && r is Some {
                Some((l->0, r->0))
            } else if sl is Some && sr is Some {
                Some((sl->0, sr->0))
            } else {
                None
            }
        },
        _ => None,
    }
}

/// Resolve an equality of a column of each side, whichever way round.
pub fn try_extract_equi_join_keys(
    pred: &Expr,
    left_columns: &Vec<String>,
    right_columns: &Vec<String>,
) -> (keys: Option<(usize, usize)>)
    ensures
        match keys {
            Some((l, r)) => l < left_columns.len() && r < right_columns.len() && equi_keys(
                pred.deep_view(),
                left_columns.deep_view(),
                right_columns.deep_view(),
            ) == Some((l as int, r as int)),
            None => equi_keys(
                pred.deep_view(),
                left_columns.deep_view(),
                right_columns.deep_view(),
            ) is None,
        },
{
    match pred {
        Expr::BinaryOp(lhs, BinOp::Eq, rhs) => {
            let l = resolve_side_column(lhs, left_columns);
            let r = resolve_side_column(rhs, right_columns);
            match (l, r) {
                (Some(l), Some(r)) => {
                    return Some((l, r));
                },
                _ => {},
            }
            let l = resolve_side_column(rhs, left_columns);
            let r = resolve_side_column(lhs, right_columns);
            match (l, r) {
                (Some(l), Some(r)) => Some((l, r)),
                _ => None,
            }
        },
        _ => None,
    }
}

/// How a join finds its matches: by the hash of a key of each side, with the
/// other conjuncts tested on each candidate; or by testing every pair.
pub enum JoinPlan {
    Hash { left_key: int, right_key: int, residuals: Seq<ExprView> },
    Loop,
}

/// The first conjunct from `k` on that can be a hash key.
pub open spec fn hash_plan_from(
    parts: Seq<ExprView>,
    k: int,
    left_columns: Seq<Seq<char>>,
    right_columns: Seq<Seq<char>>,
) -> JoinPlan
    decreases parts.len() - k,
{
    if k < 0 || k >= parts.len() {
        JoinPlan::Loop
    } else {
        match equi_keys(parts[k], left_columns, right_columns) {
            Some((l, r)) => JoinPlan::Hash {
                left_key: l,
                right_key: r,
                residuals: parts.remove(k),
            },
            None => hash_plan_from(parts, k + 1, left_columns, right_columns),
        }
    }
}

/// How a join of this kind on this predicate finds its matches.
pub open spec fn join_plan(
    on: Option<ExprView>,
    kind: JoinKind,
    left_columns: Seq<Seq<char>>,
    right_columns: Seq<Seq<char>>,
) -> JoinPlan {
    if kind is Cross || on is None {
        JoinPlan::Loop
    } else {
        hash_plan_from(conjuncts(on->0), 0, left_columns, right_columns)
    }
}

/// The exec side of a hash plan.
struct HashJoinSpec<'a> {
    left_key: usize,
    right_key: usize,
    residuals: Vec<&'a Expr>,
}

fn try_extract_hash_join<'a>(
    pred: &'a Expr,
    left_columns: &Vec<String>,
    right_columns: &Vec<String>,
) -> (spec_of: Option<HashJoinSpec<'a>>)
    ensures
        match spec_of {
            Some(found) => found.left_key < left_columns.len() && found.right_key
                < right_columns.len() && hash_plan_from(
                conjuncts(pred.deep_view()),
                0,
                left_columns.deep_view(),
                right_columns.deep_view(),
            ) == (JoinPlan::Hash {
                left_key: found.left_key as int,
                right_key: found.right_key as int,
                residuals: found.residuals.deep_view(),
            }),
            None => hash_plan_from(
                conjuncts(pred.deep_view()),
                0,
                left_columns.deep_view(),
                right_columns.deep_view(),
            ) is Loop,
        },
{
    let mut parts: Vec<&Expr> = Vec::new();
    flatten_conjunctions(pred, &mut parts);
    let ghost all = conjuncts(pred.deep_view());
    assert(parts.deep_view() =~= all);
    let mut k: usize = 0;
    while k < parts.len()
        invariant
            k <= parts.len(),
            all == conjuncts(pred.deep_view()),
            parts.deep_view() == all,
            hash_plan_from(all, 0, left_columns.deep_view(), right_columns.deep_view())
                == hash_plan_from(all, k as int, left_columns.deep_view(), right_columns.deep_view()),
        decreases parts.len() - k,
    {
        assert(all[k as int] == parts[k as int].deep_view());
        match try_extract_equi_join_keys(parts[k], left_columns, right_columns) {
            Some((left_key, right_key)) => {
                let mut residuals = parts;
                let key = residuals.remove(k);
                assert(residuals.deep_view() =~= all.remove(k as int));
                return Some(HashJoinSpec { left_key, right_key, residuals });
            },
            None => {},
        }
        k = k + 1;
    }
    None
}

/// The right rows below `n` that `f` keeps, in order.
pub open spec fn kept(n: int, f: spec_fn(int) -> bool) -> Seq<int>
    decreases n,
{
    if n <= 0 {
        Seq::empty()
    } else if f(n - 1) {
        kept(n - 1, f).push(n - 1)
    } else {
        kept(n - 1, f)
    }
}

/// Every residual holds.
pub open spec fn all_hold(
    eval: EvalModel,
    residuals: Seq<ExprView>,
    row: Seq<ValueView>,
    columns: Seq<Seq<char>>,
) -> bool {
    forall|k: int|
        0 <= k < residuals.len() ==> is_true(eval(#[trigger] residuals[k], row, columns))
}

/// What a join is given.
pub struct JoinInput {
    pub left_columns: Seq<Seq<char>>,
    pub left_rows: Seq<Seq<ValueView>>,
    pub right_columns: Seq<Seq<char>>,
    pub right_rows: Seq<Seq<ValueView>>,
    pub on: Option<ExprView>,
    pub kind: JoinKind,
}

impl JoinInput {
    /// The columns of the joined rows.
    pub open spec fn columns(self) -> Seq<Seq<char>> {
        self.left_columns + self.right_columns
    }

    /// How the matches are found.
    pub open spec fn plan(self) -> JoinPlan {
        join_plan(self.on, self.kind, self.left_columns, self.right_columns)
    }

    /// Left row `l` and right row `r` match.
    pub open spec fn matches(self, eval: EvalModel, l: int, r: int) -> bool {
        let row = self.left_rows[l] + self.right_rows[r];
        match self.plan() {
            JoinPlan::Hash { left_key, right_key, residuals } => self.left_rows[l][left_key]
                == self.right_rows[r][right_key] && all_hold(eval, residuals, row, self.columns()),
            JoinPlan::Loop => self.kind is Cross || self.on is None || is_true(
                eval(self.on->0, row, self.columns()),
            ),
        }
    }

    /// Whether each right row matches left row `l`.
    pub open spec fn matching(self, eval: EvalModel, l: int) -> spec_fn(int) -> bool {
        |r: int| self.matches(eval, l, r)
    }

    /// The pairs of left row `l`: one for each match, in the order of the right
    /// rows; or, in a left outer join without a match, the row alone.
    pub open spec fn pairs_of(self, eval: EvalModel, l: int) -> Seq<(int, Option<int>)> {
        let found = kept(self.right_rows.len() as int, self.matching(eval, l));
        if found.len() == 0 && self.kind is LeftOuter {
            seq![(l, None)]
        } else {
            Seq::new(found.len(), |k: int| (l, Some(found[k])))
        }
    }

    /// The pairs of the first `n` left rows.
    pub open spec fn pairs(self, eval: EvalModel, n: int) -> Seq<(int, Option<int>)>
        decreases n,
    {
        if n <= 0 {
            Seq::empty()
        } else {
            self.pairs(eval, n - 1) + self.pairs_of(eval, n - 1)
        }
    }

    /// The joined row of a pair; a left row alone is filled up with nulls.
    pub open spec fn joined(self, pair: (int, Option<int>)) -> Seq<ValueView> {
        match pair.1 {
            Some(r) => self.left_rows[pair.0] + self.right_rows[r],
            None => self.left_rows[pair.0] + Seq::new(
                self.right_columns.len(),
                |k: int| ValueView::Empty,
            ),
        }
    }

    /// The pairs of the whole join, or why it is refused: a row without a value
    /// for the key, a nested loop over too many pairs, or too many rows.
    pub open spec fn answer(self, eval: EvalModel, pair_limit: usize, row_limit: usize) -> Result<
        Seq<(int, Option<int>)>,
        ErrorView,
    > {
        let pairs = self.pairs(eval, self.left_rows.len() as int);
        if !self.reaches() {
            Err(short_row_error())
        } else if self.plan() is Loop && self.left_rows.len() * self.right_rows.len() > pair_limit {
            Err(
                ErrorView::NestedLoopPairLimitExceeded {
                    left_rows: self.left_rows.len() as usize,
                    right_rows: self.right_rows.len() as usize,
                    limit: pair_limit,
                },
            )
        } else if pairs.len() > row_limit {
            Err(ErrorView::JoinLimitExceeded)
        } else {
            Ok(pairs)
        }
    }

    /// A hash join finds a value for its key in each row.
    pub open spec fn reaches(self) -> bool {
        self.plan() matches JoinPlan::Hash { left_key, right_key, residuals: _ } ==> rows_reach(
            self.left_rows,
            seq![Some(left_key)],
        ) && rows_reach(self.right_rows, seq![Some(right_key)])
    }
}

/// Every row has exactly one value for each column.
pub open spec fn rows_match(rows: Seq<Seq<ValueView>>, columns: Seq<Seq<char>>) -> bool {
    forall|i: int| 0 <= i < rows.len() ==> (#[trigger] rows[i]).len() == columns.len()
}

/// Refuse a nested loop over more than `pair_limit` pairs.
pub fn check_nested_loop_pair_limit(left_rows: usize, right_rows: usize, pair_limit: usize) -> (pairs:
    Result<usize, QueryError>)
    ensures
        match pairs {
            Ok(n) => n == left_rows * right_rows && n <= pair_limit,
            Err(error) => left_rows * right_rows > pair_limit && error.deep_view() == (
            ErrorView::NestedLoopPairLimitExceeded { left_rows, right_rows, limit: pair_limit }),
        },
{
    match left_rows.checked_mul(right_rows) {
        Some(pairs) => {
            if pairs > pair_limit {
                Err(
                    QueryError::NestedLoopPairLimitExceeded {
                        left_rows,
                        right_rows,
                        limit: pair_limit,
                    },
                )
            } else {
                Ok(pairs)
            }
        },
        None => Err(
            QueryError::NestedLoopPairLimitExceeded { left_rows, right_rows, limit: pair_limit },
        ),
    }
}

/// A pair as mathematics.
pub open spec fn pair_view(pair: (usize, Option<usize>)) -> (int, Option<int>) {
    (
        pair.0 as int,
        match pair.1 {
            Some(r) => Some(r as int),
            None => None,
        },
    )
}

/// Pairs as mathematics.
pub open spec fn pairs_view(pairs: Seq<(usize, Option<usize>)>) -> Seq<(int, Option<int>)> {
    Seq::new(pairs.len(), |i: int| pair_view(pairs[i]))
}

fn join_rows(left: &Vec<Value>, right: &Vec<Value>) -> (row: Vec<Value>)
    ensures
        row.deep_view() == left.deep_view() + right.deep_view(),
        row.len() == left.len() + right.len(),
{
    let mut row = clone_row(left);
    let mut tail = clone_row(right);
    row.append(&mut tail);
    assert(row.deep_view() =~= left.deep_view() + right.deep_view());
    row
}

fn residuals_hold<
    E: Fn(&Expr, &Vec<Value>, &Vec<String>) -> Value,
    C: Fn(&Value, &Value) -> Order,
    F: Fn(FloatOp) -> u64,
>(
    scalars: &Scalars<E, C, F>,
    residuals: &Vec<&Expr>,
    row: &Vec<Value>,
    columns: &Vec<String>,
) -> (hold: bool)
    requires
        scalars.ok(),
    ensures
        hold == all_hold(
            scalars.values(),
            residuals.deep_view(),
            row.deep_view(),
            columns.deep_view(),
        ),
{
    let ghost views = residuals.deep_view();
    let mut k: usize = 0;
    while k < residuals.len()
        invariant
            scalars.ok(),
            k <= residuals.len(),
            views == residuals.deep_view(),
            forall|j: int|
                0 <= j < k ==> is_true(
                    (scalars.values())(#[trigger] views[j], row.deep_view(), columns.deep_view()),
                ),
        decreases residuals.len() - k,
    {
        assert(views[k as int] == residuals[k as int].deep_view());
        if !scalars.eval_predicate(residuals[k], row, columns) {
            return false;
        }
        k = k + 1;
    }
    true
}

/// The positions that `f` keeps are increasing and below `n`.
proof fn kept_bounds(n: int, f: spec_fn(int) -> bool)
    ensures
        forall|i: int| 0 <= i < kept(n, f).len() ==> 0 <= #[trigger] kept(n, f)[i] < n,
        n >= 0 ==> kept(n, f).len() <= n,
    decreases n,
{
    if n > 0 {
        kept_bounds(n - 1, f);
    }
}

/// Testing the candidates of a key keeps what testing every row for key and
/// residual keeps.
proof fn kept_among_positions(
    keys: Seq<Seq<ValueView>>,
    key: Seq<ValueView>,
    n: int,
    both: spec_fn(int) -> bool,
    residual: spec_fn(int) -> bool,
)
    requires
        0 <= n <= keys.len(),
        forall|r: int|
            0 <= r < keys.len() ==> #[trigger] both(r) == (keys[r] == key && residual(r)),
    ensures
        kept(n, both) == kept_of(positions_of(keys.take(n), key), residual),
    decreases n,
{
    if n > 0 {
        kept_among_positions(keys, key, n - 1, both, residual);
        let taken = keys.take(n);
        assert(taken.drop_last() =~= keys.take(n - 1));
        assert(taken.last() == keys[n - 1]);
        let before = positions_of(keys.take(n - 1), key);
        if keys[n - 1] == key {
            assert(positions_of(taken, key) == before.push(n - 1));
            assert(before.push(n - 1).drop_last() =~= before);
        }
        assert(both(n - 1) == (keys[n - 1] == key && residual(n - 1)));
    } else {
        assert(keys.take(n) =~= Seq::<Seq<ValueView>>::empty());
    }
}

/// The elements of `list` that `f` keeps.
pub open spec fn kept_of(list: Seq<int>, f: spec_fn(int) -> bool) -> Seq<int>
    decreases list.len(),
{
    if list.len() == 0 {
        Seq::empty()
    } else if f(list.last()) {
        kept_of(list.drop_last(), f).push(list.last())
    } else {
        kept_of(list.drop_last(), f)
    }
}

/// The columns of both sides.
fn joined_columns(left: &Vec<String>, right: &Vec<String>) -> (columns: Vec<String>)
    ensures
        columns.deep_view() == left.deep_view() + right.deep_view(),
        columns.len() == left.len() + right.len(),
{
    let mut columns = clone_texts(left);
    let mut tail = clone_texts(right);
    columns.append(&mut tail);
    assert(columns.deep_view() =~= left.deep_view() + right.deep_view());
    columns
}

fn key_column<P: Fn() -> Result<(), QueryError>>(
    rows: &Vec<Vec<Value>>,
    at: usize,
    poll: &P,
) -> (keys: Result<Vec<Vec<Value>>, QueryError>)
    requires
        call_requires(*poll, ()),
        forall|i: int| 0 <= i < rows.len() ==> (#[trigger] rows[i]).len() > at,
    ensures
        match keys {
            Ok(keys) => keys.len() == rows.len() && keys.deep_view() == Seq::new(
                rows.deep_view().len(),
                |i: int| seq![rows.deep_view()[i][at as int]],
            ),
            Err(error) => call_ensures(*poll, (), Err(error)),
        },
{
    let mut keys: Vec<Vec<Value>> = Vec::new();
    let ghost all = rows.deep_view();
    let mut i: usize = 0;
    while i < rows.len()
        invariant
            call_requires(*poll, ()),
            i <= rows.len(),
            all == rows.deep_view(),
            forall|j: int| 0 <= j < rows.len() ==> (#[trigger] rows[j]).len() > at,
            keys.len() == i,
            forall|j: int| 0 <= j < i ==> (#[trigger] keys[j]).deep_view() == seq![all[j][at as int]],
        decreases rows.len() - i,
    {
        poll()?;
        let mut key: Vec<Value> = Vec::new();
        key.push(rows[i][at].clone());
        assert(key.deep_view() =~= seq![all[i as int][at as int]]);
        keys.push(key);
        i = i + 1;
    }
    assert(keys.deep_view() =~= Seq::new(all.len(), |i: int| seq![all[i][at as int]]));
    Ok(keys)
}

/// Refuse rows without a value for the key of a hash join.
fn check_key(rows: &Vec<Vec<Value>>, at: usize) -> (reach: Result<(), QueryError>)
    ensures
        match reach {
            Ok(_) => rows_reach(rows.deep_view(), seq![Some(at as int)]),
            Err(error) => !rows_reach(rows.deep_view(), seq![Some(at as int)])
                && error.deep_view() == short_row_error(),
        },
{
    let mut ats: Vec<Option<usize>> = Vec::new();
    ats.push(Some(at));
    assert(ats_view(ats@) =~= seq![Some(at as int)]);
    check_reach(rows, &ats)
}

/// Add the pairs of left row `l`, given its matches.
fn push_pairs(
    pairs: &mut Vec<(usize, Option<usize>)>,
    l: usize,
    found: &Vec<usize>,
    kind: JoinKind,
    row_limit: usize,
) -> (pushed: Result<(), QueryError>)
    requires
        old(pairs).len() <= row_limit,
    ensures
        ({
            let more = if found.len() == 0 && kind is LeftOuter {
                seq![(l as int, None::<int>)]
            } else {
                Seq::new(found.len() as nat, |k: int| (l as int, Some(found[k] as int)))
            };
            match pushed {
                Ok(_) => pairs_view(final(pairs)@) == pairs_view(old(pairs)@) + more && final(pairs).len() <= row_limit,
                Err(error) => error.deep_view() is JoinLimitExceeded && old(pairs).len()
                    + more.len() > row_limit,
            }
        }),
{
    let ghost before = pairs_view(pairs@);
    let outer: bool = match kind {
        JoinKind::LeftOuter => true,
        _ => false,
    };
    if found.len() == 0 && outer {
        if pairs.len() >= row_limit {
            return Err(QueryError::JoinLimitExceeded);
        }
        pairs.push((l, None));
        assert(pairs_view(pairs@) =~= before + seq![(l as int, None::<int>)]);
        return Ok(());
    }
    let mut k: usize = 0;
    assert(before =~= before + Seq::new(0, |k: int| (l as int, Some(found[k] as int))));
    while k < found.len()
        invariant
            k <= found.len(),
            pairs.len() <= row_limit,
            pairs.len() == before.len() + k,
            before.len() == old(pairs).len(),
            !(found.len() == 0 && kind is LeftOuter),
            pairs_view(pairs@) == before + Seq::new(
                k as nat,
                |k: int| (l as int, Some(found[k] as int)),
            ),
        decreases found.len() - k,
    {
        if pairs.len() >= row_limit {
            return Err(QueryError::JoinLimitExceeded);
        }
        let ghost held = pairs_view(pairs@);
        pairs.push((l, Some(found[k])));
        assert(pairs_view(pairs@) =~= held.push((l as int, Some(found[k as int] as int))));
        assert(pairs_view(pairs@) =~= before + Seq::new(
            (k + 1) as nat,
            |k: int| (l as int, Some(found[k] as int)),
        ));
        k = k + 1;
    }
    Ok(())
}

/// More left rows give no fewer pairs.
proof fn pairs_grow(input: JoinInput, eval: EvalModel, k: int, n: int)
    requires
        0 <= k <= n,
    ensures
        input.pairs(eval, k).len() <= input.pairs(eval, n).len(),
    decreases n,
{
    if k < n {
        pairs_grow(input, eval, k, n - 1);
    }
}

/// The pairs that a join of two inputs gives. Each row and each pair that is tried asks `poll`.
#[verifier::spinoff_prover]
#[verifier::rlimit(40)]
fn join_pairs<
    E: Fn(&Expr, &Vec<Value>, &Vec<String>) -> Value,
    C: Fn(&Value, &Value) -> Order,
    F: Fn(FloatOp) -> u64,
    P: Fn() -> Result<(), QueryError>,
>(
    scalars: &Scalars<E, C, F>,
    left_columns: &Vec<String>,
    left_rows: &Vec<Vec<Value>>,
    right_columns: &Vec<String>,
    right_rows: &Vec<Vec<Value>>,
    on: Option<&Expr>,
    kind: JoinKind,
    pair_limit: usize,
    row_limit: usize,
    poll: &P,
) -> (result: Result<Vec<(usize, Option<usize>)>, QueryError>)
    requires
        scalars.ok(),
        call_requires(*poll, ()),
        !(kind is RightOuter),
    ensures
        match result {
            Ok(pairs) => join_input(
                left_columns,
                left_rows,
                right_columns,
                right_rows,
                on,
                kind,
            ).answer(scalars.values(), pair_limit, row_limit) == Ok::<
                Seq<(int, Option<int>)>,
                ErrorView,
            >(pairs_view(pairs@)) && forall|i: int|
                0 <= i < pairs.len() ==> (#[trigger] pairs[i]).0 < left_rows.len() && (
                pairs[i].1 matches Some(r) ==> r < right_rows.len()),
            Err(error) => join_input(
                left_columns,
                left_rows,
                right_columns,
                right_rows,
                on,
                kind,
            ).answer(scalars.values(), pair_limit, row_limit) == Err::<
                Seq<(int, Option<int>)>,
                ErrorView,
            >(error.deep_view()) || call_ensures(*poll, (), Err(error)),
        },
{
    let ghost input = join_input(left_columns, left_rows, right_columns, right_rows, on, kind);
    let ghost eval = scalars.values();
    let columns = joined_columns(left_columns, right_columns);
    let mut pairs: Vec<(usize, Option<usize>)> = Vec::new();
    let cross: bool = match kind {
        JoinKind::Cross => true,
        _ => false,
    };
    let hash = match on {
        Some(pred) => if cross {
            None
        } else {
            try_extract_hash_join(pred, left_columns, right_columns)
        },
        None => None,
    };
    assert(pairs_view(pairs@) =~= Seq::<(int, Option<int>)>::empty());
    match hash {
        Some(found) => {
            assert(input.plan() == (JoinPlan::Hash {
                left_key: found.left_key as int,
                right_key: found.right_key as int,
                residuals: found.residuals.deep_view(),
            }));
            check_key(left_rows, found.left_key)?;
            check_key(right_rows, found.right_key)?;
            proof {
                let key = seq![Some(found.right_key as int)];
                assert(key[0] == Some(found.right_key as int));
                assert forall|i: int| 0 <= i < right_rows.len() implies (#[trigger] right_rows[i]).len()
                    > found.right_key by {
                    assert(input.right_rows[i] == right_rows[i].deep_view());
                }
            }
            let keys = key_column(right_rows, found.right_key, poll)?;
            let ghost key_views = keys.deep_view();
            let (table, members) = group_positions(&keys);
            let mut l: usize = 0;
            while l < left_rows.len()
                invariant
                    scalars.ok(),
                    call_requires(*poll, ()),
                    eval == scalars.values(),
                    input == join_input(
                        left_columns,
                        left_rows,
                        right_columns,
                        right_rows,
                        on,
                        kind,
                    ),
                    input.reaches(),
                    columns.deep_view() == input.columns(),
                    input.plan() == (JoinPlan::Hash {
                        left_key: found.left_key as int,
                        right_key: found.right_key as int,
                        residuals: found.residuals.deep_view(),
                    }),
                    found.left_key < left_columns.len(),
                    found.right_key < right_columns.len(),
                    keys.len() == right_rows.len(),
                    key_views == keys.deep_view(),
                    key_views == Seq::new(
                        input.right_rows.len(),
                        |i: int| seq![input.right_rows[i][found.right_key as int]],
                    ),
                    table.wf(),
                    table@ == firsts(key_views),
                    members.len() == table@.len(),
                    forall|g: int|
                        0 <= g < members.len() ==> ints((#[trigger] members[g])@) == positions_of(
                            key_views,
                            table@[g],
                        ),
                    l <= left_rows.len(),
                    pairs.len() <= row_limit,
                    pairs_view(pairs@) == input.pairs(eval, l as int),
                    forall|i: int|
                        0 <= i < pairs.len() ==> (#[trigger] pairs[i]).0 < left_rows.len() && (
                        pairs[i].1 matches Some(r) ==> r < right_rows.len()),
                decreases left_rows.len() - l,
            {
                poll()?;
                proof {
                    let wanted = seq![Some(found.left_key as int)];
                    assert(wanted[0] == Some(found.left_key as int));
                    assert(input.left_rows[l as int] == left_rows[l as int].deep_view());
                }
                let mut key: Vec<Value> = Vec::new();
                key.push(left_rows[l][found.left_key].clone());
                let ghost key_view = key.deep_view();
                assert(key_view =~= seq![input.left_rows[l as int][found.left_key as int]]);
                let mut matched: Vec<usize> = Vec::new();
                let ghost residual = |r: int|
                    all_hold(
                        eval,
                        found.residuals.deep_view(),
                        input.left_rows[l as int] + input.right_rows[r],
                        input.columns(),
                    );
                let ghost both = input.matching(eval, l as int);
                let ghost candidates = positions_of(key_views, key_view);
                proof {
                    positions_are_positions(key_views, key_view);
                    assert forall|r: int| 0 <= r < key_views.len() implies #[trigger] both(r) == (
                    key_views[r] == key_view && residual(r)) by {
                        assert(key_views[r] == seq![input.right_rows[r][found.right_key as int]]);
                        if key_views[r] == key_view {
                            assert(key_views[r][0] == key_view[0]);
                        }
                    }
                    kept_among_positions(
                        key_views,
                        key_view,
                        key_views.len() as int,
                        both,
                        residual,
                    );
                    assert(key_views.take(key_views.len() as int) =~= key_views);
                }
                assert(ints(matched@) =~= kept_of(candidates.take(0), residual));
                match table.find(&key) {
                    Some(g) => {
                        assert(ints(members[g as int]@) == candidates);
                        let list: &Vec<usize> = &members[g];
                        let mut k: usize = 0;
                        while k < list.len()
                            invariant
                                scalars.ok(),
                                call_requires(*poll, ()),
                                eval == scalars.values(),
                                l < left_rows.len(),
                                k <= list.len(),
                                ints(list@) == candidates,
                                columns.deep_view() == input.columns(),
                                input.left_rows == left_rows.deep_view(),
                                input.right_rows == right_rows.deep_view(),
                                residual == (|r: int|
                                    all_hold(
                                        eval,
                                        found.residuals.deep_view(),
                                        input.left_rows[l as int] + input.right_rows[r],
                                        input.columns(),
                                    )),
                                forall|i: int|
                                    0 <= i < candidates.len() ==> 0 <= #[trigger] candidates[i]
                                        < right_rows.len(),
                                ints(matched@) == kept_of(candidates.take(k as int), residual),
                                forall|i: int|
                                    0 <= i < matched.len() ==> (#[trigger] matched[i])
                                        < right_rows.len(),
                            decreases list.len() - k,
                        {
                            poll()?;
                            let r: usize = list[k];
                            proof {
                                assert(candidates[k as int] == ints(list@)[k as int]);
                                assert(candidates.take(k + 1).drop_last() =~= candidates.take(
                                    k as int,
                                ));
                                assert(candidates.take(k + 1).last() == r);
                            }
                            let row = join_rows(&left_rows[l], &right_rows[r]);
                            if residuals_hold(scalars, &found.residuals, &row, &columns) {
                                let ghost held = ints(matched@);
                                matched.push(r);
                                assert(ints(matched@) =~= held.push(r as int));
                            }
                            k = k + 1;
                        }
                        assert(candidates.take(list.len() as int) =~= candidates);
                    },
                    None => {
                        proof {
                            firsts_are_distinct(key_views);
                            if candidates.len() > 0 {
                                assert(key_views[candidates[0]] == key_view);
                                assert(key_views.contains(key_view));
                            }
                            assert(candidates =~= candidates.take(0));
                        }
                    },
                }
                let ghost all_found = kept(input.right_rows.len() as int, both);
                proof {
                    assert(ints(matched@) == all_found);
                    assert forall|i: int| 0 <= i < matched.len() implies matched[i] as int
                        == all_found[i] by {
                        assert(ints(matched@)[i] == all_found[i]);
                    }
                    pairs_grow(input, eval, l + 1, left_rows.len() as int);
                }
                let ghost before = pairs_view(pairs@);
                let ghost pairs_before = pairs@;
                push_pairs(&mut pairs, l, &matched, kind, row_limit)?;
                proof {
                    assert(pairs_view(pairs@) =~= before + input.pairs_of(eval, l as int));
                    pairs_in_range(
                        pairs@,
                        input,
                        eval,
                        l + 1,
                    );
                }
                l = l + 1;
            }
        },
        None => {
            assert(input.plan() is Loop);
            check_nested_loop_pair_limit(left_rows.len(), right_rows.len(), pair_limit)?;
            let mut l: usize = 0;
            while l < left_rows.len()
                invariant
                    scalars.ok(),
                    call_requires(*poll, ()),
                    eval == scalars.values(),
                    input == join_input(
                        left_columns,
                        left_rows,
                        right_columns,
                        right_rows,
                        on,
                        kind,
                    ),
                    columns.deep_view() == input.columns(),
                    input.plan() is Loop,
                    cross == (kind is Cross),
                    left_rows.len() * right_rows.len() <= pair_limit,
                    l <= left_rows.len(),
                    pairs.len() <= row_limit,
                    pairs_view(pairs@) == input.pairs(eval, l as int),
                    forall|i: int|
                        0 <= i < pairs.len() ==> (#[trigger] pairs[i]).0 < left_rows.len() && (
                        pairs[i].1 matches Some(r) ==> r < right_rows.len()),
                decreases left_rows.len() - l,
            {
                let mut matched: Vec<usize> = Vec::new();
                let ghost both = input.matching(eval, l as int);
                let mut r: usize = 0;
                assert(ints(matched@) =~= kept(0, both));
                while r < right_rows.len()
                    invariant
                        scalars.ok(),
                        call_requires(*poll, ()),
                        eval == scalars.values(),
                        l < left_rows.len(),
                        r <= right_rows.len(),
                        input.left_rows == left_rows.deep_view(),
                        input.right_rows == right_rows.deep_view(),
                        input.on == on.deep_view(),
                        input.kind == kind,
                        columns.deep_view() == input.columns(),
                        input.plan() is Loop,
                        cross == (kind is Cross),
                        both == input.matching(eval, l as int),
                        ints(matched@) == kept(r as int, both),
                    decreases right_rows.len() - r,
                {
                    poll()?;
                    let keep: bool = if cross {
                        true
                    } else {
                        match on {
                            None => true,
                            Some(pred) => {
                                let row = join_rows(&left_rows[l], &right_rows[r]);
                                scalars.eval_predicate(pred, &row, &columns)
                            },
                        }
                    };
                    assert(keep == both(r as int));
                    if keep {
                        let ghost held = ints(matched@);
                        matched.push(r);
                        assert(ints(matched@) =~= held.push(r as int));
                    }
                    r = r + 1;
                }
                let ghost all_found = kept(input.right_rows.len() as int, both);
                proof {
                    assert forall|i: int| 0 <= i < matched.len() implies matched[i] as int
                        == all_found[i] by {
                        assert(ints(matched@)[i] == all_found[i]);
                    }
                    pairs_grow(input, eval, l + 1, left_rows.len() as int);
                }
                let ghost before = pairs_view(pairs@);
                push_pairs(&mut pairs, l, &matched, kind, row_limit)?;
                proof {
                    assert(pairs_view(pairs@) =~= before + input.pairs_of(eval, l as int));
                    pairs_in_range(pairs@, input, eval, l + 1);
                }
                l = l + 1;
            }
        },
    }
    Ok(pairs)
}

/// Pairs name rows that are there.
proof fn pairs_in_range(
    pairs: Seq<(usize, Option<usize>)>,
    input: JoinInput,
    eval: EvalModel,
    n: int,
)
    requires
        0 <= n <= input.left_rows.len(),
        pairs_view(pairs) == input.pairs(eval, n),
    ensures
        forall|i: int|
            0 <= i < pairs.len() ==> (#[trigger] pairs[i]).0 < n && (pairs[i].1 matches Some(r) ==> r
                < input.right_rows.len()),
{
    assert forall|i: int| 0 <= i < pairs.len() implies (#[trigger] pairs[i]).0 < n && (
    pairs[i].1 matches Some(r) ==> r < input.right_rows.len()) by {
        spec_pairs_in_range(input, eval, n, i);
        assert(pairs_view(pairs)[i] == pair_view(pairs[i]));
    }
}

proof fn spec_pairs_in_range(input: JoinInput, eval: EvalModel, n: int, i: int)
    requires
        0 <= n <= input.left_rows.len(),
        0 <= i < input.pairs(eval, n).len(),
    ensures
        0 <= input.pairs(eval, n)[i].0 < n,
        input.pairs(eval, n)[i].1 matches Some(r) ==> 0 <= r < input.right_rows.len(),
    decreases n,
{
    if n > 0 {
        let before = input.pairs(eval, n - 1);
        if i < before.len() {
            spec_pairs_in_range(input, eval, n - 1, i);
        } else {
            kept_bounds(input.right_rows.len() as int, input.matching(eval, n - 1));
            assert(input.pairs(eval, n)[i] == input.pairs_of(eval, n - 1)[i - before.len()]);
        }
    }
}

/// What a join is given, as mathematics.
pub open spec fn join_input(
    left_columns: &Vec<String>,
    left_rows: &Vec<Vec<Value>>,
    right_columns: &Vec<String>,
    right_rows: &Vec<Vec<Value>>,
    on: Option<&Expr>,
    kind: JoinKind,
) -> JoinInput {
    JoinInput {
        left_columns: left_columns.deep_view(),
        left_rows: left_rows.deep_view(),
        right_columns: right_columns.deep_view(),
        right_rows: right_rows.deep_view(),
        on: on.deep_view(),
        kind,
    }
}

/// The joined rows of `pairs`.
pub open spec fn joined_rows(input: JoinInput, pairs: Seq<(int, Option<int>)>) -> Seq<Seq<ValueView>> {
    Seq::new(pairs.len(), |i: int| input.joined(pairs[i]))
}

/// What a join answers.
pub open spec fn join_of(
    input: JoinInput,
    eval: EvalModel,
    pair_limit: usize,
    row_limit: usize,
) -> Result<ResultView, ErrorView> {
    match input.answer(eval, pair_limit, row_limit) {
        Ok(pairs) => Ok(
            ResultView::Rows { columns: input.columns(), rows: joined_rows(input, pairs) },
        ),
        Err(error) => Err(error),
    }
}

fn assemble_rows(
    left_rows: &Vec<Vec<Value>>,
    right_rows: &Vec<Vec<Value>>,
    right_width: usize,
    pairs: &Vec<(usize, Option<usize>)>,
    Ghost(input): Ghost<JoinInput>,
) -> (rows: Vec<Vec<Value>>)
    requires
        input.left_rows == left_rows.deep_view(),
        input.right_rows == right_rows.deep_view(),
        input.right_columns.len() == right_width,
        forall|i: int|
            0 <= i < pairs.len() ==> (#[trigger] pairs[i]).0 < left_rows.len() && (
            pairs[i].1 matches Some(r) ==> r < right_rows.len()),
    ensures
        rows.deep_view() == joined_rows(input, pairs_view(pairs@)),
        rows.len() == pairs.len(),
{
    let mut rows: Vec<Vec<Value>> = Vec::new();
    let ghost views = pairs_view(pairs@);
    let mut i: usize = 0;
    while i < pairs.len()
        invariant
            i <= pairs.len(),
            input.left_rows == left_rows.deep_view(),
            input.right_rows == right_rows.deep_view(),
            input.right_columns.len() == right_width,
            views == pairs_view(pairs@),
            forall|j: int|
                0 <= j < pairs.len() ==> (#[trigger] pairs[j]).0 < left_rows.len() && (
                pairs[j].1 matches Some(r) ==> r < right_rows.len()),
            rows.len() == i,
            forall|j: int| 0 <= j < i ==> (#[trigger] rows[j]).deep_view() == input.joined(views[j]),
        decreases pairs.len() - i,
    {
        let (l, other) = pairs[i];
        assert(pairs[i as int].0 < left_rows.len());
        assert(views[i as int] == pair_view(pairs[i as int]));
        let row = match other {
            Some(r) => join_rows(&left_rows[l], &right_rows[r]),
            None => {
                let mut row = clone_row(&left_rows[l]);
                let ghost kept_part = row.deep_view();
                let mut k: usize = 0;
                while k < right_width
                    invariant
                        k <= right_width,
                        row.deep_view() == kept_part + Seq::new(k as nat, |k: int| ValueView::Empty),
                    decreases right_width - k,
                {
                    let ghost held = row.deep_view();
                    row.push(Value::Empty);
                    assert(row.deep_view() =~= held.push(ValueView::Empty));
                    assert(row.deep_view() =~= kept_part + Seq::new(
                        (k + 1) as nat,
                        |k: int| ValueView::Empty,
                    ));
                    k = k + 1;
                }
                row
            },
        };
        assert(row.deep_view() =~= input.joined(views[i as int]));
        rows.push(row);
        i = i + 1;
    }
    assert(rows.deep_view() =~= joined_rows(input, views));
    rows
}

/// Join two materialised inputs: by hash where a conjunct equates a column of
/// each side, else by nested loop over no more than `pair_limit` pairs.
pub fn execute_materialized_join<
    E: Fn(&Expr, &Vec<Value>, &Vec<String>) -> Value,
    C: Fn(&Value, &Value) -> Order,
    F: Fn(FloatOp) -> u64,
    P: Fn() -> Result<(), QueryError>,
>(
    scalars: &Scalars<E, C, F>,
    left_columns: &Vec<String>,
    left_rows: &Vec<Vec<Value>>,
    right_columns: &Vec<String>,
    right_rows: &Vec<Vec<Value>>,
    on: Option<&Expr>,
    kind: JoinKind,
    pair_limit: usize,
    row_limit: usize,
    poll: &P,
) -> (result: Result<QueryResult, QueryError>)
    requires
        scalars.ok(),
        call_requires(*poll, ()),
        !(kind is RightOuter),
    ensures
        answered(
            result,
            join_of(
                join_input(left_columns, left_rows, right_columns, right_rows, on, kind),
                scalars.values(),
                pair_limit,
                row_limit,
            ),
            *poll,
        ),
{
    let ghost input = join_input(left_columns, left_rows, right_columns, right_rows, on, kind);
    let pairs = join_pairs(
        scalars,
        left_columns,
        left_rows,
        right_columns,
        right_rows,
        on,
        kind,
        pair_limit,
        row_limit,
        poll,
    )?;
    let rows = assemble_rows(left_rows, right_rows, right_columns.len(), &pairs, Ghost(input));
    let columns = joined_columns(left_columns, right_columns);
    Ok(QueryResult::Rows { columns, rows })
}

/// The stored rows behind a joined row: those of both sides, with none for the
/// right side of a left row alone.
pub open spec fn joined_provenance(
    left: ProvenanceView,
    right: ProvenanceView,
    pair: (int, Option<int>),
) -> Seq<Option<RowId>> {
    match pair.1 {
        Some(r) => left.provenance[pair.0] + right.provenance[r],
        None => left.provenance[pair.0] + Seq::new(
            right.source_aliases.len(),
            |k: int| None::<RowId>,
        ),
    }
}

/// What a join of rows with provenance is given.
pub open spec fn provenance_join_input(
    left: ProvenanceView,
    right: ProvenanceView,
    on: Option<ExprView>,
    kind: JoinKind,
) -> JoinInput {
    JoinInput {
        left_columns: left.columns,
        left_rows: left.rows,
        right_columns: right.columns,
        right_rows: right.rows,
        on,
        kind,
    }
}

/// What a join of rows with provenance answers.
pub open spec fn provenance_join_of(
    left: ProvenanceView,
    right: ProvenanceView,
    on: Option<ExprView>,
    kind: JoinKind,
    eval: EvalModel,
    pair_limit: usize,
    row_limit: usize,
) -> Result<ProvenanceView, ErrorView> {
    let input = provenance_join_input(left, right, on, kind);
    match input.answer(eval, pair_limit, row_limit) {
        Ok(pairs) => Ok(
            ProvenanceView {
                columns: input.columns(),
                rows: joined_rows(input, pairs),
                source_aliases: left.source_aliases + right.source_aliases,
                provenance: Seq::new(
                    pairs.len(),
                    |i: int| joined_provenance(left, right, pairs[i]),
                ),
            },
        ),
        Err(error) => Err(error),
    }
}

/// The same source rows.
pub fn clone_sources(rids: &Vec<Option<RowId>>) -> (copy: Vec<Option<RowId>>)
    ensures
        copy@ == rids@,
{
    let mut copy: Vec<Option<RowId>> = Vec::new();
    let mut i: usize = 0;
    while i < rids.len()
        invariant
            i <= rids.len(),
            copy@ == rids@.take(i as int),
        decreases rids.len() - i,
    {
        copy.push(rids[i]);
        assert(copy@ =~= rids@.take(i + 1));
        i = i + 1;
    }
    assert(rids@.take(rids.len() as int) =~= rids@);
    copy
}

/// Join two inputs and keep, for every joined row, the stored rows behind it.
#[verifier::spinoff_prover]
pub fn execute_provenance_join<
    E: Fn(&Expr, &Vec<Value>, &Vec<String>) -> Value,
    C: Fn(&Value, &Value) -> Order,
    F: Fn(FloatOp) -> u64,
    P: Fn() -> Result<(), QueryError>,
>(
    scalars: &Scalars<E, C, F>,
    left: &ProvenanceRows,
    right: &ProvenanceRows,
    on: Option<&Expr>,
    kind: JoinKind,
    pair_limit: usize,
    row_limit: usize,
    poll: &P,
) -> (result: Result<ProvenanceRows, QueryError>)
    requires
        scalars.ok(),
        call_requires(*poll, ()),
        left.deep_view().wf(),
        right.deep_view().wf(),
        rows_match(left.deep_view().rows, left.deep_view().columns),
        rows_match(right.deep_view().rows, right.deep_view().columns),
        !(kind is RightOuter),
    ensures
        answered(
            result,
            provenance_join_of(
                left.deep_view(),
                right.deep_view(),
                on.deep_view(),
                kind,
                scalars.values(),
                pair_limit,
                row_limit,
            ),
            *poll,
        ),
        result matches Ok(joined) ==> joined.deep_view().wf() && rows_match(
            joined.deep_view().rows,
            joined.deep_view().columns,
        ),
{
    let ghost (lv, rv) = (left.deep_view(), right.deep_view());
    let ghost input = provenance_join_input(lv, rv, on.deep_view(), kind);
    assert(input == join_input(
        &left.columns,
        &left.rows,
        &right.columns,
        &right.rows,
        on,
        kind,
    ));
    let pairs = join_pairs(
        scalars,
        &left.columns,
        &left.rows,
        &right.columns,
        &right.rows,
        on,
        kind,
        pair_limit,
        row_limit,
        poll,
    )?;
    let ghost views = pairs_view(pairs@);
    let rows = assemble_rows(
        &left.rows,
        &right.rows,
        right.columns.len(),
        &pairs,
        Ghost(input),
    );
    let columns = joined_columns(&left.columns, &right.columns);
    let source_aliases = joined_columns(&left.source_aliases, &right.source_aliases);
    let mut provenance: Vec<Vec<Option<RowId>>> = Vec::new();
    let mut i: usize = 0;
    while i < pairs.len()
        invariant
            i <= pairs.len(),
            lv == left.deep_view(),
            rv == right.deep_view(),
            lv.wf(),
            rv.wf(),
            views == pairs_view(pairs@),
            forall|j: int|
                0 <= j < pairs.len() ==> (#[trigger] pairs[j]).0 < left.rows.len() && (
                pairs[j].1 matches Some(r) ==> r < right.rows.len()),
            provenance.len() == i,
            forall|j: int|
                0 <= j < i ==> (#[trigger] provenance[j])@ == joined_provenance(lv, rv, views[j])
                    && provenance[j].len() == lv.source_aliases.len() + rv.source_aliases.len(),
        decreases pairs.len() - i,
    {
        let (l, other) = pairs[i];
        assert(pairs[i as int].0 < left.rows.len());
        assert(views[i as int] == pair_view(pairs[i as int]));
        assert(lv.provenance[l as int].len() == lv.source_aliases.len());
        assert(lv.provenance.len() == left.provenance.len());
        assert(rv.provenance.len() == right.provenance.len());
        let mut rids = clone_sources(&left.provenance[l]);
        let ghost kept_part = rids@;
        match other {
            Some(r) => {
                assert(rv.provenance[r as int].len() == rv.source_aliases.len());
                let mut tail = clone_sources(&right.provenance[r]);
                rids.append(&mut tail);
            },
            None => {
                let mut k: usize = 0;
                assert(rids@ =~= kept_part + Seq::new(0, |k: int| None::<RowId>));
                while k < right.source_aliases.len()
                    invariant
                        k <= right.source_aliases.len(),
                        rids@ == kept_part + Seq::new(k as nat, |k: int| None::<RowId>),
                    decreases right.source_aliases.len() - k,
                {
                    rids.push(None);
                    assert(rids@ =~= kept_part + Seq::new((k + 1) as nat, |k: int| None::<RowId>));
                    k = k + 1;
                }
            },
        }
        assert(rids@ =~= joined_provenance(lv, rv, views[i as int]));
        provenance.push(rids);
        i = i + 1;
    }
    let joined = ProvenanceRows { columns, rows, source_aliases, provenance };
    proof {
        let view = joined.deep_view();
        assert(view.provenance =~= Seq::new(
            views.len(),
            |i: int| joined_provenance(lv, rv, views[i]),
        ));
        assert forall|i: int| 0 <= i < view.rows.len() implies (#[trigger] view.rows[i]).len()
            == view.columns.len() by {
            assert(pairs[i].0 < left.rows.len());
            assert(views[i] == pair_view(pairs[i]));
            assert(input.left_rows[views[i].0].len() == input.left_columns.len());
            if views[i].1 is Some {
                assert(input.right_rows[views[i].1->0].len() == input.right_columns.len());
            }
        }
    }
    Ok(joined)
}

/// The joined rows have one value for each joined column.
pub proof fn joined_rows_match(
    input: JoinInput,
    eval: EvalModel,
    pair_limit: usize,
    row_limit: usize,
)
    requires
        rows_match(input.left_rows, input.left_columns),
        rows_match(input.right_rows, input.right_columns),
    ensures
        join_of(input, eval, pair_limit, row_limit) matches Ok(answer) ==> answer is Rows
            && rows_match(answer->rows, answer->columns),
{
    match input.answer(eval, pair_limit, row_limit) {
        Ok(pairs) => {
            let rows = joined_rows(input, pairs);
            assert forall|i: int| 0 <= i < rows.len() implies (#[trigger] rows[i]).len()
                == input.columns().len() by {
                spec_pairs_in_range(input, eval, input.left_rows.len() as int, i);
                assert(input.left_rows[pairs[i].0].len() == input.left_columns.len());
                if pairs[i].1 is Some {
                    assert(input.right_rows[pairs[i].1->0].len() == input.right_columns.len());
                }
            }
        },
        Err(_) => {},
    }
}

/// `and` is true where both operands are.
pub open spec fn and_is_conjunction(eval: EvalModel) -> bool {
    forall|a: ExprView, b: ExprView, row: Seq<ValueView>, columns: Seq<Seq<char>>|
        is_true(#[trigger] eval(ExprView::BinaryOp(Box::new(a), BinOp::And, Box::new(b)), row, columns))
            == (is_true(eval(a, row, columns)) && is_true(eval(b, row, columns)))
}

/// An equality of a column of each side is true where the two values are the
/// same.
pub open spec fn equality_compares_columns(eval: EvalModel, input: JoinInput) -> bool {
    forall|pred: ExprView, l: int, r: int|
        0 <= l < input.left_rows.len() && 0 <= r < input.right_rows.len() && equi_keys(
            pred,
            input.left_columns,
            input.right_columns,
        ) is Some ==> is_true(
            #[trigger] eval(pred, input.left_rows[l] + input.right_rows[r], input.columns()),
        ) == (input.left_rows[l][(equi_keys(pred, input.left_columns, input.right_columns)->0).0]
            == input.right_rows[r][(equi_keys(pred, input.left_columns, input.right_columns)->0).1])
}

/// A conjunction is true where each of its conjuncts is.
pub proof fn conjunction_holds_when_conjuncts_do(
    eval: EvalModel,
    expr: ExprView,
    row: Seq<ValueView>,
    columns: Seq<Seq<char>>,
)
    requires
        and_is_conjunction(eval),
    ensures
        is_true(eval(expr, row, columns)) == all_hold(eval, conjuncts(expr), row, columns),
    decreases expr,
{
    match expr {
        ExprView::BinaryOp(left, BinOp::And, right) => {
            conjunction_holds_when_conjuncts_do(eval, *left, row, columns);
            conjunction_holds_when_conjuncts_do(eval, *right, row, columns);
            let (a, b) = (conjuncts(*left), conjuncts(*right));
            assert(expr == ExprView::BinaryOp(Box::new(*left), BinOp::And, Box::new(*right)));
            if all_hold(eval, a + b, row, columns) {
                assert forall|k: int| 0 <= k < a.len() implies is_true(
                    eval(#[trigger] a[k], row, columns),
                ) by {
                    assert((a + b)[k] == a[k]);
                }
                assert forall|k: int| 0 <= k < b.len() implies is_true(
                    eval(#[trigger] b[k], row, columns),
                ) by {
                    assert((a + b)[a.len() + k] == b[k]);
                }
            }
            if all_hold(eval, a, row, columns) && all_hold(eval, b, row, columns) {
                assert forall|k: int| 0 <= k < (a + b).len() implies is_true(
                    eval(#[trigger] (a + b)[k], row, columns),
                ) by {
                    if k < a.len() {
                        assert((a + b)[k] == a[k]);
                    } else {
                        assert((a + b)[k] == b[k - a.len()]);
                    }
                }
            }
        },
        _ => {
            assert(conjuncts(expr)[0] == expr);
        },
    }
}

proof fn hash_plan_found(
    parts: Seq<ExprView>,
    k: int,
    left_columns: Seq<Seq<char>>,
    right_columns: Seq<Seq<char>>,
) -> (found: int)
    requires
        0 <= k,
        hash_plan_from(parts, k, left_columns, right_columns) is Hash,
    ensures
        k <= found < parts.len(),
        equi_keys(parts[found], left_columns, right_columns) is Some,
        hash_plan_from(parts, k, left_columns, right_columns) == (JoinPlan::Hash {
            left_key: (equi_keys(parts[found], left_columns, right_columns)->0).0,
            right_key: (equi_keys(parts[found], left_columns, right_columns)->0).1,
            residuals: parts.remove(found),
        }),
    decreases parts.len() - k,
{
    if equi_keys(parts[k], left_columns, right_columns) is Some {
        k
    } else {
        hash_plan_found(parts, k + 1, left_columns, right_columns)
    }
}

/// A hash join finds the pairs that a nested loop over its predicate would.
pub proof fn hash_join_agrees_with_nested_loop(eval: EvalModel, input: JoinInput, l: int, r: int)
    requires
        and_is_conjunction(eval),
        equality_compares_columns(eval, input),
        input.plan() is Hash,
        0 <= l < input.left_rows.len(),
        0 <= r < input.right_rows.len(),
    ensures
        input.matches(eval, l, r) == is_true(
            eval(input.on->0, input.left_rows[l] + input.right_rows[r], input.columns()),
        ),
{
    let row = input.left_rows[l] + input.right_rows[r];
    let columns = input.columns();
    let parts = conjuncts(input.on->0);
    conjunction_holds_when_conjuncts_do(eval, input.on->0, row, columns);
    let k = hash_plan_found(parts, 0, input.left_columns, input.right_columns);
    let rest = parts.remove(k);
    assert(is_true(eval(parts[k], row, columns)) == (input.left_rows[l][(equi_keys(
        parts[k],
        input.left_columns,
        input.right_columns,
    )->0).0] == input.right_rows[r][(equi_keys(
        parts[k],
        input.left_columns,
        input.right_columns,
    )->0).1]));
    if all_hold(eval, parts, row, columns) {
        assert forall|i: int| 0 <= i < rest.len() implies is_true(
            eval(#[trigger] rest[i], row, columns),
        ) by {
            if i < k {
                assert(rest[i] == parts[i]);
            } else {
                assert(rest[i] == parts[i + 1]);
            }
        }
    }
    if all_hold(eval, rest, row, columns) && is_true(eval(parts[k], row, columns)) {
        assert forall|i: int| 0 <= i < parts.len() implies is_true(
            eval(#[trigger] parts[i], row, columns),
        ) by {
            if i < k {
                assert(rest[i] == parts[i]);
            } else if i > k {
                assert(rest[i - 1] == parts[i]);
            }
        }
    }
}

/// A left outer join keeps every left row.
pub proof fn left_outer_join_keeps_left_rows(input: JoinInput, eval: EvalModel, l: int)
    requires
        input.kind is LeftOuter,
        0 <= l < input.left_rows.len(),
    ensures
        exists|i: int|
            0 <= i < input.pairs(eval, input.left_rows.len() as int).len() && (#[trigger] input.pairs(
                eval,
                input.left_rows.len() as int,
            )[i]).0 == l,
{
    let n = input.left_rows.len() as int;
    assert(input.pairs_of(eval, l).len() > 0);
    let at = input.pairs(eval, l).len() as int;
    assert(input.pairs(eval, l + 1)[at] == input.pairs_of(eval, l)[0]);
    pairs_begin(input, eval, l + 1, n);
    assert(input.pairs(eval, n)[at].0 == l);
}

proof fn pairs_begin(input: JoinInput, eval: EvalModel, k: int, n: int)
    requires
        0 <= k <= n,
    ensures
        input.pairs(eval, k).len() <= input.pairs(eval, n).len(),
        forall|i: int|
            0 <= i < input.pairs(eval, k).len() ==> #[trigger] input.pairs(eval, n)[i] == input.pairs(
                eval,
                k,
            )[i],
    decreases n,
{
    if k < n {
        pairs_begin(input, eval, k, n - 1);
    }
}

} // verus!
