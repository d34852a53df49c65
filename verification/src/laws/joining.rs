//! Which pairs of rows a join answers, and in which order.

use vstd::prelude::*;

use crate::aggregate::{ProvenanceView, RowId};
use crate::catalog::CatalogView;
use crate::error::{Budget, ErrorView, ResultView};
use crate::expr::{BinOp, ExprView};
use crate::group::pick;
use crate::join::{
    and_is_conjunction, equality_compares_columns, equi_keys, hash_join_agrees_with_nested_loop,
    join_of, joined_rows, kept, provenance_join_input, provenance_join_of, rows_match,
    side_column, JoinInput, JoinKind,
};
use crate::laws::naming::referred_name;
use crate::plan::PlanView;
use crate::read::answer;
use crate::scalars::{is_true, EvalModel};
use crate::seqs::{first_where_found, is_name};
use crate::session::SessionModel;
use crate::value::ValueView;

verus! {

/// An equality of two columns is true where they hold the same value.
pub open spec fn equality_is_identity(eval: EvalModel) -> bool {
    forall|
        a: ExprView,
        b: ExprView,
        row: Seq<ValueView>,
        columns: Seq<Seq<char>>,
        i: int,
        j: int,
    |
        #![trigger eval(ExprView::BinaryOp(Box::new(a), BinOp::Eq, Box::new(b)), row, columns), columns[i], columns[j]]
        row.len() == columns.len() && columns.no_duplicates() && 0 <= i < columns.len() && 0 <= j
            < columns.len() && referred_name(a) == Some(columns[i]) && referred_name(b) == Some(
            columns[j],
        ) ==> (eval(ExprView::BinaryOp(Box::new(a), BinOp::Eq, Box::new(b)), row, columns)
            == ValueView::Bool(true) <==> row[i] == row[j])
}

/// Left row `left` and right row `right` belong together: the join takes every
/// pair, has no condition, or has one that is true on the two rows.
pub open spec fn belongs(
    input: JoinInput,
    eval: EvalModel,
    left: Seq<ValueView>,
    right: Seq<ValueView>,
) -> bool {
    input.kind == JoinKind::Cross || (input.on matches Some(on) ==> eval(
        on,
        left + right,
        input.left_columns + input.right_columns,
    ) == ValueView::Bool(true))
}

/// What a left row comes to: itself beside each right row that belongs to it, in
/// their order; in a left outer join, beside nulls where none does.
pub open spec fn beside(input: JoinInput, eval: EvalModel, left: Seq<ValueView>) -> Seq<
    Seq<ValueView>,
> {
    let partners = input.right_rows.filter(
        |right: Seq<ValueView>| belongs(input, eval, left, right),
    );
    if partners.len() == 0 && input.kind == JoinKind::LeftOuter {
        seq![left + Seq::new(input.right_columns.len(), |k: int| ValueView::Empty)]
    } else {
        partners.map_values(|right: Seq<ValueView>| left + right)
    }
}

/// The evaluation of conditions that a join relies on to look values up rather
/// than to test every pair.
pub open spec fn looks_up_soundly(input: JoinInput, eval: EvalModel) -> bool {
    &&& and_is_conjunction(eval)
    &&& equality_is_identity(eval)
    &&& (input.left_columns + input.right_columns).no_duplicates()
    &&& rows_match(input.left_rows, input.left_columns)
    &&& rows_match(input.right_rows, input.right_columns)
}

proof fn side_column_is_named(expr: ExprView, columns: Seq<Seq<char>>)
    ensures
        side_column(expr, columns) matches Some(i) ==> 0 <= i < columns.len() && referred_name(expr)
            == Some(columns[i]),
{
    match referred_name(expr) {
        Some(name) => first_where_found(columns, is_name(name)),
        None => {},
    }
}

proof fn equalities_compare(input: JoinInput, eval: EvalModel)
    requires
        looks_up_soundly(input, eval),
    ensures
        equality_compares_columns(eval, input),
{
    let (lc, rc) = (input.left_columns, input.right_columns);
    let columns = input.columns();
    assert forall|pred: ExprView, l: int, r: int|
        0 <= l < input.left_rows.len() && 0 <= r < input.right_rows.len() && equi_keys(pred, lc, rc)
            is Some implies is_true(
        #[trigger] eval(pred, input.left_rows[l] + input.right_rows[r], columns),
    ) == (input.left_rows[l][(equi_keys(pred, lc, rc)->0).0] == input.right_rows[r][(equi_keys(
        pred,
        lc,
        rc,
    )->0).1]) by {
        match pred {
            ExprView::BinaryOp(lhs, BinOp::Eq, rhs) => {
                let row = input.left_rows[l] + input.right_rows[r];
                let (i, j) = equi_keys(pred, lc, rc)->0;
                side_column_is_named(*lhs, lc);
                side_column_is_named(*rhs, rc);
                side_column_is_named(*rhs, lc);
                side_column_is_named(*lhs, rc);
                assert(input.left_rows[l].len() == lc.len());
                assert(input.right_rows[r].len() == rc.len());
                assert(columns[i] == lc[i] && columns[lc.len() + j] == rc[j]);
                assert(row[i] == input.left_rows[l][i]);
                assert(row[lc.len() + j] == input.right_rows[r][j]);
                assert(pred == ExprView::BinaryOp(Box::new(*lhs), BinOp::Eq, Box::new(*rhs)));
            },
            _ => {},
        }
    }
}

proof fn matches_belong(input: JoinInput, eval: EvalModel, l: int, r: int)
    requires
        input.kind == JoinKind::Cross || input.on is None || input.plan() is Loop
            || looks_up_soundly(input, eval),
        0 <= l < input.left_rows.len(),
        0 <= r < input.right_rows.len(),
    ensures
        input.matches(eval, l, r) == belongs(input, eval, input.left_rows[l], input.right_rows[r]),
{
    if input.plan() is Hash {
        equalities_compare(input, eval);
        hash_join_agrees_with_nested_loop(eval, input, l, r);
    }
}

/// The elements at the positions that a test of the position keeps are those that
/// the test of the element keeps.
proof fn kept_are_filtered<A>(s: Seq<A>, n: int, f: spec_fn(int) -> bool, test: spec_fn(A) -> bool)
    requires
        0 <= n <= s.len(),
        forall|i: int| 0 <= i < s.len() ==> f(i) == test(#[trigger] s[i]),
    ensures
        pick(s, kept(n, f)) == s.take(n).filter(test),
    decreases n,
{
    reveal(Seq::filter);
    if n > 0 {
        kept_are_filtered(s, n - 1, f, test);
        assert(s.take(n).drop_last() =~= s.take(n - 1));
        assert(s.take(n).last() == s[n - 1]);
        assert(f(n - 1) == test(s[n - 1]));
        if f(n - 1) {
            assert(pick(s, kept(n, f)) =~= pick(s, kept(n - 1, f)).push(s[n - 1]));
        }
    } else {
        assert(pick(s, kept(n, f)) =~= Seq::empty());
        assert(s.take(n) =~= Seq::empty());
    }
}

proof fn row_comes_to(input: JoinInput, eval: EvalModel, l: int)
    requires
        input.kind == JoinKind::Cross || input.on is None || input.plan() is Loop
            || looks_up_soundly(input, eval),
        0 <= l < input.left_rows.len(),
    ensures
        joined_rows(input, input.pairs_of(eval, l)) == beside(input, eval, input.left_rows[l]),
{
    let left = input.left_rows[l];
    let right = input.right_rows;
    let f = input.matching(eval, l);
    let test = |r: Seq<ValueView>| belongs(input, eval, left, r);
    assert forall|i: int| 0 <= i < right.len() implies f(i) == test(#[trigger] right[i]) by {
        matches_belong(input, eval, l, i);
    }
    kept_are_filtered(right, right.len() as int, f, test);
    assert(right.take(right.len() as int) =~= right);
    let found = kept(right.len() as int, f);
    let partners = right.filter(test);
    assert(partners.len() == found.len());
    let rows = joined_rows(input, input.pairs_of(eval, l));
    assert forall|k: int| 0 <= k < rows.len() implies rows[k] == beside(input, eval, left)[k] by {
        if found.len() > 0 || !(input.kind is LeftOuter) {
            assert(pick(right, found)[k] == partners[k]);
        }
    }
    assert(rows =~= beside(input, eval, left));
}

proof fn rows_come_to(input: JoinInput, eval: EvalModel, n: int)
    requires
        input.kind == JoinKind::Cross || input.on is None || input.plan() is Loop
            || looks_up_soundly(input, eval),
        0 <= n <= input.left_rows.len(),
    ensures
        joined_rows(input, input.pairs(eval, n)) == input.left_rows.take(n).flat_map(
            |left: Seq<ValueView>| beside(input, eval, left),
        ),
    decreases n,
{
    let f = |left: Seq<ValueView>| beside(input, eval, left);
    let lists = input.left_rows.take(n).map_values(f);
    if n > 0 {
        rows_come_to(input, eval, n - 1);
        row_comes_to(input, eval, n - 1);
        let before = input.left_rows.take(n - 1).map_values(f);
        assert(lists.drop_last() =~= before);
        assert(lists.last() == f(input.left_rows[n - 1]));
        lists.lemma_flatten_and_flatten_alt_are_equivalent();
        before.lemma_flatten_and_flatten_alt_are_equivalent();
        assert(lists.flatten() == before.flatten() + f(input.left_rows[n - 1]));
        assert(joined_rows(input, input.pairs(eval, n)) =~= joined_rows(
            input,
            input.pairs(eval, n - 1),
        ) + joined_rows(input, input.pairs_of(eval, n - 1)));
    } else {
        assert(lists =~= Seq::empty());
        assert(joined_rows(input, input.pairs(eval, n)) =~= Seq::empty());
    }
}

/// A join answers, under the columns of both sides, for each left row in turn what
/// it comes to: beside each right row that belongs to it.
pub proof fn joins_answer_what_belongs(
    input: JoinInput,
    eval: EvalModel,
    pair_limit: usize,
    row_limit: usize,
)
    requires
        input.on is Some && input.kind != JoinKind::Cross ==> looks_up_soundly(input, eval),
    ensures
        join_of(input, eval, pair_limit, row_limit) matches Ok(result) ==> result == (
        ResultView::Rows {
            columns: input.left_columns + input.right_columns,
            rows: input.left_rows.flat_map(|left: Seq<ValueView>| beside(input, eval, left)),
        }),
{
    let n = input.left_rows.len() as int;
    rows_come_to(input, eval, n);
    assert(input.left_rows.take(n) =~= input.left_rows);
}

/// A join that tests every pair, rather than looking values up, answers what
/// belongs together, whatever its condition reads.
pub proof fn tested_joins_answer_what_belongs(
    input: JoinInput,
    eval: EvalModel,
    pair_limit: usize,
    row_limit: usize,
    l: int,
    r: int,
)
    requires
        input.plan() is Loop,
        0 <= l < input.left_rows.len(),
        0 <= r < input.right_rows.len(),
    ensures
        input.matches(eval, l, r) <==> input.kind == JoinKind::Cross || input.on is None || eval(
            input.on->0,
            input.left_rows[l] + input.right_rows[r],
            input.left_columns + input.right_columns,
        ) == ValueView::Bool(true),
        join_of(input, eval, pair_limit, row_limit) matches Ok(result) ==> result == (
        ResultView::Rows {
            columns: input.left_columns + input.right_columns,
            rows: input.left_rows.flat_map(|left: Seq<ValueView>| beside(input, eval, left)),
        }),
{
    let n = input.left_rows.len() as int;
    matches_belong(input, eval, l, r);
    rows_come_to(input, eval, n);
    assert(input.left_rows.take(n) =~= input.left_rows);
}

proof fn everything_kept(n: int, f: spec_fn(int) -> bool)
    requires
        0 <= n,
        forall|i: int| 0 <= i < n ==> #[trigger] f(i),
    ensures
        kept(n, f) == Seq::new(n as nat, |i: int| i),
    decreases n,
{
    if n > 0 {
        everything_kept(n - 1, f);
        assert(f(n - 1));
        assert(kept(n, f) =~= Seq::new(n as nat, |i: int| i));
    } else {
        assert(kept(n, f) =~= Seq::new(n as nat, |i: int| i));
    }
}

proof fn cross_pair_count(input: JoinInput, eval: EvalModel, n: int)
    requires
        0 <= n,
        input.kind == JoinKind::Cross,
    ensures
        input.pairs(eval, n).len() == n * input.right_rows.len(),
        n > 0 ==> input.pairs_of(eval, n - 1) == Seq::new(
            input.right_rows.len(),
            |r: int| (n - 1, Some(r)),
        ),
    decreases n,
{
    let width = input.right_rows.len() as int;
    if n > 0 {
        cross_pair_count(input, eval, n - 1);
        let f = input.matching(eval, n - 1);
        assert forall|i: int| 0 <= i < width implies #[trigger] f(i) by {
            assert(input.matches(eval, n - 1, i));
        }
        everything_kept(width, f);
        assert(input.pairs_of(eval, n - 1) =~= Seq::new(
            input.right_rows.len(),
            |r: int| (n - 1, Some(r)),
        ));
        assert(n * width == (n - 1) * width + width) by (nonlinear_arith);
    } else {
        assert(n * width == 0) by (nonlinear_arith)
            requires
                n == 0,
        ;
    }
}

proof fn cross_pair(input: JoinInput, eval: EvalModel, n: int, l: int, r: int)
    requires
        input.kind == JoinKind::Cross,
        0 <= l < n,
        0 <= r < input.right_rows.len(),
    ensures
        0 <= l * input.right_rows.len() + r < input.pairs(eval, n).len(),
        input.pairs(eval, n)[l * input.right_rows.len() + r] == (l, Some(r)),
    decreases n,
{
    let width = input.right_rows.len() as int;
    cross_pair_count(input, eval, n);
    cross_pair_count(input, eval, n - 1);
    assert(0 <= l * width) by (nonlinear_arith)
        requires
            0 <= l,
            0 <= width,
    ;
    if l < n - 1 {
        cross_pair(input, eval, n - 1, l, r);
    }
}

/// A cross join within its limits answers every left row beside every right row:
/// as many rows as the product of the two sides, those of a left row together and
/// in the order of the right side.
pub proof fn cross_joins_answer_every_pair(
    input: JoinInput,
    eval: EvalModel,
    pair_limit: usize,
    row_limit: usize,
)
    requires
        input.kind == JoinKind::Cross,
        input.left_rows.len() * input.right_rows.len() <= pair_limit,
        input.left_rows.len() * input.right_rows.len() <= row_limit,
    ensures
        join_of(input, eval, pair_limit, row_limit) matches Ok(ResultView::Rows { columns, rows })
            && columns == input.left_columns + input.right_columns && rows.len()
            == input.left_rows.len() * input.right_rows.len() && forall|l: int, r: int|
            #![trigger rows[l * input.right_rows.len() + r]]
            0 <= l < input.left_rows.len() && 0 <= r < input.right_rows.len() ==> rows[l
                * input.right_rows.len() + r] == input.left_rows[l] + input.right_rows[r],
{
    let n = input.left_rows.len() as int;
    let width = input.right_rows.len() as int;
    cross_pair_count(input, eval, n);
    let pairs = input.pairs(eval, n);
    let rows = joined_rows(input, pairs);
    assert forall|l: int, r: int|
        #![trigger rows[l * width + r]]
        0 <= l < n && 0 <= r < width implies rows[l * width + r] == input.left_rows[l]
        + input.right_rows[r] by {
        cross_pair(input, eval, n, l, r);
    }
}

/// A join is refused for a limit exactly where it is over one: too many pairs to
/// test one by one, or too many rows to answer.
pub proof fn cross_joins_are_refused_over_their_limits(
    input: JoinInput,
    eval: EvalModel,
    pair_limit: usize,
    row_limit: usize,
)
    requires
        input.kind == JoinKind::Cross,
        input.left_rows.len() <= usize::MAX,
        input.right_rows.len() <= usize::MAX,
    ensures
        input.left_rows.len() * input.right_rows.len() > pair_limit ==> join_of(
            input,
            eval,
            pair_limit,
            row_limit,
        ) == Err::<ResultView, ErrorView>(
            ErrorView::NestedLoopPairLimitExceeded {
                left_rows: input.left_rows.len() as usize,
                right_rows: input.right_rows.len() as usize,
                limit: pair_limit,
            },
        ),
        row_limit < input.left_rows.len() * input.right_rows.len() <= pair_limit ==> join_of(
            input,
            eval,
            pair_limit,
            row_limit,
        ) == Err::<ResultView, ErrorView>(ErrorView::JoinLimitExceeded),
{
    cross_pair_count(input, eval, input.left_rows.len() as int);
}

/// A plan that joins what two others answer, once it has counted what the two
/// sides hold, answers the rows that belong together.
pub proof fn join_plans_answer_what_belongs(
    catalog: CatalogView,
    model: SessionModel,
    left: PlanView,
    right: PlanView,
    on: Option<ExprView>,
    kind: JoinKind,
    budget: Budget,
)
    ensures
        answer(
            catalog,
            model,
            PlanView::NestedLoopJoin { left: Box::new(left), right: Box::new(right), on, kind },
            budget,
        ) matches Ok((result, _)) ==> {
            &&& answer(catalog, model, left, budget) matches Ok(
                (ResultView::Rows { columns: left_columns, rows: left_rows }, rest),
            )
            &&& answer(catalog, model, right, rest) matches Ok(
                (ResultView::Rows { columns: right_columns, rows: right_rows }, _),
            )
            &&& ({
                let input = JoinInput {
                    left_columns,
                    left_rows,
                    right_columns,
                    right_rows,
                    on,
                    kind,
                };
                let eval = model.scalars.eval;
                (on is Some && kind != JoinKind::Cross ==> looks_up_soundly(input, eval))
                    ==> result == (ResultView::Rows {
                    columns: left_columns + right_columns,
                    rows: left_rows.flat_map(|l: Seq<ValueView>| beside(input, eval, l)),
                })
            })
        },
{
    match answer(catalog, model, left, budget) {
        Ok((ResultView::Rows { columns: left_columns, rows: left_rows }, rest)) => match answer(
            catalog,
            model,
            right,
            rest,
        ) {
            Ok((ResultView::Rows { columns: right_columns, rows: right_rows }, _)) => {
                let input = JoinInput {
                    left_columns,
                    left_rows,
                    right_columns,
                    right_rows,
                    on,
                    kind,
                };
                let eval = model.scalars.eval;
                if on is Some && kind != JoinKind::Cross ==> looks_up_soundly(input, eval) {
                    joins_answer_what_belongs(
                        input,
                        eval,
                        model.limits.join_pairs,
                        model.limits.join_rows,
                    );
                }
            },
            _ => {},
        },
        _ => {},
    }
}

/// A join of rows with the stored rows behind them answers the rows that a join
/// without them does, and behind each of them the stored rows of its two parts.
pub proof fn provenance_joins_answer_alike(
    left: ProvenanceView,
    right: ProvenanceView,
    on: Option<ExprView>,
    kind: JoinKind,
    eval: EvalModel,
    pair_limit: usize,
    row_limit: usize,
)
    ensures
        ({
            let input = JoinInput {
                left_columns: left.columns,
                left_rows: left.rows,
                right_columns: right.columns,
                right_rows: right.rows,
                on,
                kind,
            };
            match (
                provenance_join_of(left, right, on, kind, eval, pair_limit, row_limit),
                join_of(input, eval, pair_limit, row_limit),
            ) {
                (Ok(sourced), Ok(plain)) => {
                    &&& plain == (ResultView::Rows { columns: sourced.columns, rows: sourced.rows })
                    &&& sourced.source_aliases == left.source_aliases + right.source_aliases
                    &&& sourced.provenance.len() == sourced.rows.len()
                    &&& forall|i: int|
                        0 <= i < sourced.rows.len() ==> stems_from(
                            left,
                            right,
                            #[trigger] sourced.rows[i],
                            sourced.provenance[i],
                        )
                },
                (Err(error), Err(other)) => error == other,
                _ => false,
            }
        }),
{
    let input = provenance_join_input(left, right, on, kind);
    match (
        provenance_join_of(left, right, on, kind, eval, pair_limit, row_limit),
        input.answer(eval, pair_limit, row_limit),
    ) {
        (Ok(sourced), Ok(pairs)) => {
            assert forall|i: int| 0 <= i < sourced.rows.len() implies stems_from(
                left,
                right,
                #[trigger] sourced.rows[i],
                sourced.provenance[i],
            ) by {
                let (l, r) = pairs[i];
                pairs_are_rows(input, eval, input.left_rows.len() as int, i);
                match r {
                    Some(r) => {
                        assert(comes_of(left, right, l, r, sourced.rows[i], sourced.provenance[i]));
                    },
                    None => {
                        assert(comes_alone(left, right, l, sourced.rows[i], sourced.provenance[i]));
                    },
                }
            }
        },
        _ => {},
    }
}

/// A joined row is left row `l` beside right row `r`, and so are the stored rows
/// behind it.
pub open spec fn comes_of(
    left: ProvenanceView,
    right: ProvenanceView,
    l: int,
    r: int,
    row: Seq<ValueView>,
    sources: Seq<Option<RowId>>,
) -> bool {
    &&& 0 <= l < left.rows.len() && 0 <= r < right.rows.len()
    &&& row == left.rows[l] + right.rows[r]
    &&& sources == left.provenance[l] + right.provenance[r]
}

/// A joined row is left row `l` beside nulls, with no stored row of the right
/// side behind it.
pub open spec fn comes_alone(
    left: ProvenanceView,
    right: ProvenanceView,
    l: int,
    row: Seq<ValueView>,
    sources: Seq<Option<RowId>>,
) -> bool {
    &&& 0 <= l < left.rows.len()
    &&& row == left.rows[l] + Seq::new(right.columns.len(), |k: int| ValueView::Empty)
    &&& sources == left.provenance[l] + Seq::new(
        right.source_aliases.len(),
        |k: int| None::<RowId>,
    )
}

/// The stored rows behind a joined row are those behind its parts.
pub open spec fn stems_from(
    left: ProvenanceView,
    right: ProvenanceView,
    row: Seq<ValueView>,
    sources: Seq<Option<RowId>>,
) -> bool {
    (exists|l: int, r: int| #[trigger] comes_of(left, right, l, r, row, sources)) || (exists|l: int|
     #[trigger] comes_alone(left, right, l, row, sources))
}

proof fn kept_below(n: int, f: spec_fn(int) -> bool)
    ensures
        forall|k: int| 0 <= k < kept(n, f).len() ==> 0 <= #[trigger] kept(n, f)[k] < n,
    decreases n,
{
    if n > 0 {
        kept_below(n - 1, f);
        assert forall|k: int| 0 <= k < kept(n, f).len() implies 0 <= #[trigger] kept(n, f)[k] < n by {
            if k < kept(n - 1, f).len() {
                assert(kept(n, f)[k] == kept(n - 1, f)[k]);
            }
        }
    }
}

proof fn pairs_are_rows(input: JoinInput, eval: EvalModel, n: int, i: int)
    requires
        0 <= n,
        0 <= i < input.pairs(eval, n).len(),
    ensures
        0 <= input.pairs(eval, n)[i].0 < n,
        input.pairs(eval, n)[i].1 matches Some(r) ==> 0 <= r < input.right_rows.len(),
    decreases n,
{
    if n > 0 {
        let before = input.pairs(eval, n - 1);
        if i < before.len() {
            pairs_are_rows(input, eval, n - 1, i);
        } else {
            kept_below(input.right_rows.len() as int, input.matching(eval, n - 1));
        }
    }
}

} // verus!
