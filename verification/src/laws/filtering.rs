//! Which rows a filter keeps, and in which order.

use vstd::prelude::*;

use crate::catalog::CatalogView;
use crate::error::{Budget, ErrorView, ResultView};
use crate::expr::ExprView;
use crate::group::filtered;
use crate::mentions::holds_subquery;
use crate::plan::PlanView;
use crate::read::{answer, correlated_from, filter_answer};
use crate::scalars::EvalModel;
use crate::session::{SessionModel, SubqueryModel};
use crate::value::ValueView;

verus! {

/// A filter of a sequence keeps its first element where the test holds of it, and
/// then what a filter of the rest keeps.
pub proof fn filter_takes_first<A>(first: A, rest: Seq<A>, test: spec_fn(A) -> bool)
    ensures
        (seq![first] + rest).filter(test) == (if test(first) {
            seq![first]
        } else {
            Seq::empty()
        }) + rest.filter(test),
{
    let one = seq![first];
    Seq::filter_distributes_over_add(one, rest, test);
    reveal_with_fuel(Seq::filter, 2);
    assert(one.drop_last() =~= Seq::empty());
    assert(one.filter(test) =~= if test(first) {
        one
    } else {
        Seq::empty()
    });
}

/// Filters whose tests agree on every element keep the same.
pub proof fn filters_agree<A>(s: Seq<A>, f: spec_fn(A) -> bool, g: spec_fn(A) -> bool)
    requires
        forall|i: int| 0 <= i < s.len() ==> f(#[trigger] s[i]) == g(s[i]),
    ensures
        s.filter(f) == s.filter(g),
    decreases s.len(),
{
    reveal(Seq::filter);
    if s.len() > 0 {
        let less = s.drop_last();
        assert forall|i: int| 0 <= i < less.len() implies f(#[trigger] less[i]) == g(less[i]) by {
            assert(s[i] == less[i]);
        }
        filters_agree(less, f, g);
        assert(s[s.len() - 1] == s.last());
    }
}

/// Filtering what a filter keeps is filtering by both tests.
pub proof fn filters_compose<A>(
    s: Seq<A>,
    f: spec_fn(A) -> bool,
    g: spec_fn(A) -> bool,
    both: spec_fn(A) -> bool,
)
    requires
        forall|i: int| 0 <= i < s.len() ==> both(#[trigger] s[i]) == (f(s[i]) && g(s[i])),
    ensures
        s.filter(f).filter(g) == s.filter(both),
    decreases s.len(),
{
    reveal(Seq::filter);
    if s.len() > 0 {
        let less = s.drop_last();
        assert forall|i: int| 0 <= i < less.len() implies both(#[trigger] less[i]) == (f(less[i])
            && g(less[i])) by {
            assert(s[i] == less[i]);
        }
        filters_compose(less, f, g, both);
        assert(s[s.len() - 1] == s.last());
        if f(s.last()) {
            assert(less.filter(f).push(s.last()).drop_last() =~= less.filter(f));
        }
    }
}

/// What a filter of the elements from `i` on maps to: the image of element `i`
/// where the test holds of it, and then what the elements after it map to.
pub proof fn images_take_first<A, B>(
    s: Seq<A>,
    test: spec_fn(A) -> bool,
    image: spec_fn(A) -> B,
    i: int,
)
    requires
        0 <= i <= s.len(),
    ensures
        s.skip(i).filter(test).map_values(image) == (if i == s.len() {
            Seq::empty()
        } else {
            (if test(s[i]) {
                seq![image(s[i])]
            } else {
                Seq::empty()
            }) + s.skip(i + 1).filter(test).map_values(image)
        }),
{
    let all = s.skip(i).filter(test).map_values(image);
    if i < s.len() {
        let rest = s.skip(i + 1);
        assert(s.skip(i) =~= seq![s[i]] + rest);
        filter_takes_first(s[i], rest, test);
        assert(all =~= (if test(s[i]) {
            seq![image(s[i])]
        } else {
            Seq::empty()
        }) + rest.filter(test).map_values(image));
    } else {
        reveal(Seq::filter);
        assert(s.skip(i) =~= Seq::empty());
        assert(all =~= Seq::empty());
    }
}

/// The rows that a predicate keeps are those on which it is true, as they come.
pub proof fn predicates_keep_what_holds(
    eval: EvalModel,
    predicate: ExprView,
    rows: Seq<Seq<ValueView>>,
    columns: Seq<Seq<char>>,
)
    ensures
        filtered(eval, predicate, rows, columns) == rows.filter(
            |row: Seq<ValueView>| eval(predicate, row, columns) == ValueView::Bool(true),
        ),
    decreases rows.len(),
{
    reveal(Seq::filter);
    if rows.len() > 0 {
        predicates_keep_what_holds(eval, predicate, rows.drop_last(), columns);
    }
}

/// The rows from `i` on that a predicate keeps whose subqueries depend on the row.
proof fn correlated_rows_hold(
    eval: EvalModel,
    subqueries: SubqueryModel,
    predicate: ExprView,
    rows: Seq<Seq<ValueView>>,
    columns: Seq<Seq<char>>,
    i: int,
)
    requires
        0 <= i <= rows.len(),
        forall|k: int|
            0 <= k < rows.len() ==> subqueries(predicate, Some((#[trigger] rows[k], columns))) is Ok,
    ensures
        correlated_from(eval, subqueries, predicate, rows, columns, i) == Ok::<
            Seq<Seq<ValueView>>,
            ErrorView,
        >(
            rows.skip(i).filter(
                |row: Seq<ValueView>|
                    eval(subqueries(predicate, Some((row, columns)))->Ok_0, row, columns)
                        == ValueView::Bool(true),
            ),
        ),
    decreases rows.len() - i,
{
    let test = |row: Seq<ValueView>|
        eval(subqueries(predicate, Some((row, columns)))->Ok_0, row, columns) == ValueView::Bool(
            true,
        );
    if i < rows.len() {
        correlated_rows_hold(eval, subqueries, predicate, rows, columns, i + 1);
        assert(subqueries(predicate, Some((rows[i], columns))) is Ok);
        assert(rows.skip(i) =~= seq![rows[i]] + rows.skip(i + 1));
        filter_takes_first(rows[i], rows.skip(i + 1), test);
        assert(Seq::<Seq<ValueView>>::empty() + rows.skip(i + 1).filter(test)
            =~= rows.skip(i + 1).filter(test));
    } else {
        reveal(Seq::filter);
        assert(rows.skip(i) =~= Seq::empty());
    }
}

proof fn correlated_error_is_first(
    eval: EvalModel,
    subqueries: SubqueryModel,
    predicate: ExprView,
    rows: Seq<Seq<ValueView>>,
    columns: Seq<Seq<char>>,
    i: int,
    k: int,
)
    requires
        0 <= i <= k < rows.len(),
        subqueries(predicate, Some((rows[k], columns))) is Err,
        forall|j: int|
            0 <= j < k ==> subqueries(predicate, Some((#[trigger] rows[j], columns))) is Ok,
    ensures
        correlated_from(eval, subqueries, predicate, rows, columns, i) == Err::<
            Seq<Seq<ValueView>>,
            ErrorView,
        >(subqueries(predicate, Some((rows[k], columns)))->Err_0),
    decreases k - i,
{
    if i < k {
        assert(subqueries(predicate, Some((rows[i], columns))) is Ok);
        correlated_error_is_first(eval, subqueries, predicate, rows, columns, i + 1, k);
    }
}

/// A filter answers, under the columns of its input and in its order, exactly the
/// rows on which the predicate is true.
pub proof fn filters_answer_what_holds(
    model: SessionModel,
    predicate: ExprView,
    columns: Seq<Seq<char>>,
    rows: Seq<Seq<ValueView>>,
)
    requires
        !holds_subquery(predicate),
    ensures
        filter_answer(model, predicate, ResultView::Rows { columns, rows }) == Ok::<
            ResultView,
            ErrorView,
        >(
            ResultView::Rows {
                columns,
                rows: rows.filter(
                    |row: Seq<ValueView>|
                        (model.scalars.eval)(predicate, row, columns) == ValueView::Bool(true),
                ),
            },
        ),
{
    predicates_keep_what_holds(model.scalars.eval, predicate, rows, columns);
}

/// A filter whose predicate holds subqueries that depend on the row answers, in
/// the order of its input, exactly the rows on which the predicate, with its
/// subqueries replaced for that row, is true.
pub proof fn correlated_filters_answer_what_holds(
    model: SessionModel,
    predicate: ExprView,
    columns: Seq<Seq<char>>,
    rows: Seq<Seq<ValueView>>,
    r: int,
)
    requires
        holds_subquery(predicate),
        0 <= r < rows.len(),
        forall|k: int|
            0 <= k < rows.len() ==> (model.subqueries)(
                predicate,
                Some((#[trigger] rows[k], columns)),
            ) is Ok,
    ensures
        ({
            let replaced = |row: Seq<ValueView>|
                (model.subqueries)(predicate, Some((row, columns)))->Ok_0;
            let holds = |row: Seq<ValueView>|
                (model.scalars.eval)(replaced(row), row, columns) == ValueView::Bool(true);
            &&& filter_answer(model, predicate, ResultView::Rows { columns, rows }) matches Ok(
                ResultView::Rows { columns: names, rows: kept },
            )
            &&& names == columns
            &&& kept == rows.filter(holds)
            &&& kept.contains(rows[r]) <==> holds(rows[r])
        }),
{
    let holds = |row: Seq<ValueView>|
        (model.scalars.eval)(
            (model.subqueries)(predicate, Some((row, columns)))->Ok_0,
            row,
            columns,
        ) == ValueView::Bool(true);
    correlated_rows_hold(model.scalars.eval, model.subqueries, predicate, rows, columns, 0);
    assert(rows.skip(0) =~= rows);
    let stated = |row: Seq<ValueView>|
        (model.scalars.eval)(
            (|row: Seq<ValueView>| (model.subqueries)(predicate, Some((row, columns)))->Ok_0)(row),
            row,
            columns,
        ) == ValueView::Bool(true);
    filters_agree(rows, holds, stated);
    if holds(rows[r]) {
        rows.lemma_filter_contains(holds, r);
    }
    if rows.filter(holds).contains(rows[r]) {
        let k = choose|k: int| 0 <= k < rows.filter(holds).len() && rows.filter(holds)[k] == rows[r];
        rows.lemma_filter_pred(holds, k);
    }
}

/// The first row whose subqueries cannot be replaced is the error of a filter
/// whose predicate depends on the row.
pub proof fn correlated_filters_fail_with_the_first(
    model: SessionModel,
    predicate: ExprView,
    columns: Seq<Seq<char>>,
    rows: Seq<Seq<ValueView>>,
    k: int,
)
    requires
        holds_subquery(predicate),
        0 <= k < rows.len(),
        (model.subqueries)(predicate, Some((rows[k], columns))) is Err,
        forall|j: int|
            0 <= j < k ==> (model.subqueries)(predicate, Some((#[trigger] rows[j], columns))) is Ok,
    ensures
        filter_answer(model, predicate, ResultView::Rows { columns, rows }) == Err::<
            ResultView,
            ErrorView,
        >((model.subqueries)(predicate, Some((rows[k], columns)))->Err_0),
{
    correlated_error_is_first(
        model.scalars.eval,
        model.subqueries,
        predicate,
        rows,
        columns,
        0,
        k,
    );
}

/// Where the subqueries of a predicate are replaced alike on every row, the filter
/// answers what it answers with the replaced predicate.
pub proof fn uncorrelated_replacements_filter_alike(
    model: SessionModel,
    predicate: ExprView,
    plain: ExprView,
    columns: Seq<Seq<char>>,
    rows: Seq<Seq<ValueView>>,
)
    requires
        holds_subquery(predicate),
        !holds_subquery(plain),
        forall|k: int|
            0 <= k < rows.len() ==> (model.subqueries)(
                predicate,
                Some((#[trigger] rows[k], columns)),
            ) == Ok::<ExprView, ErrorView>(plain),
    ensures
        filter_answer(model, predicate, ResultView::Rows { columns, rows }) == filter_answer(
            model,
            plain,
            ResultView::Rows { columns, rows },
        ),
{
    let eval = model.scalars.eval;
    predicates_keep_what_holds(eval, plain, rows, columns);
    assert forall|k: int| 0 <= k < rows.len() implies (model.subqueries)(
        predicate,
        Some((#[trigger] rows[k], columns)),
    ) is Ok by {}
    correlated_rows_hold(eval, model.subqueries, predicate, rows, columns, 0);
    assert(rows.skip(0) =~= rows);
    filters_agree(
        rows,
        |row: Seq<ValueView>|
            eval((model.subqueries)(predicate, Some((row, columns)))->Ok_0, row, columns)
                == ValueView::Bool(true),
        |row: Seq<ValueView>| eval(plain, row, columns) == ValueView::Bool(true),
    );
}

/// A plan that filters what another answers keeps the rows on which its predicate
/// is true, in their order and under their columns, and takes no budget of its
/// own.
pub proof fn filter_plans_answer_what_holds(
    catalog: CatalogView,
    model: SessionModel,
    input: PlanView,
    predicate: ExprView,
    budget: Budget,
)
    requires
        !holds_subquery(predicate),
        !(input is IndexScan) && !(input is ExprIndexScan),
        answer(catalog, model, input, budget) matches Ok((result, _)) && result is Rows,
    ensures
        answer(catalog, model, input, budget) matches Ok((ResultView::Rows { columns, rows }, left))
            && answer(
            catalog,
            model,
            PlanView::Filter { input: Box::new(input), predicate },
            budget,
        ) == Ok::<(ResultView, Budget), ErrorView>(
            (
                ResultView::Rows {
                    columns,
                    rows: rows.filter(
                        |row: Seq<ValueView>|
                            (model.scalars.eval)(predicate, row, columns) == ValueView::Bool(true),
                    ),
                },
                left,
            ),
        ),
{
    match answer(catalog, model, input, budget) {
        Ok((ResultView::Rows { columns, rows }, _)) => {
            filters_answer_what_holds(model, predicate, columns, rows);
        },
        _ => {},
    }
}

} // verus!
