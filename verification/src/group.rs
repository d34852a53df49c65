//! Column resolution for grouping, and grouped aggregation.

use vstd::prelude::*;

use crate::aggregate::{
    agg_label, aggregate_of, aggregate_rows_of, aggregate_values, contributions, evaluated,
    expr_is_star, free_totals_agree, is_star, missing_alias_error, missing_alias_message,
    no_budget, provenance_view, ProvenanceRows, ProvenanceView, RowId,
};
use crate::error::{no_column_error, Budget, ErrorView, QueryError, QueryResult, ResultView};
use crate::expr::{clone_expr, AggFunc, AggregateMode, Expr, ExprView};
use crate::join::rows_match;
use crate::keys::KeyTable;
use crate::scalars::{is_true, reads_columns, EvalModel, FloatOp, Order, ScalarModel, Scalars};
use crate::seqs::{
    first_where, first_where_is, firsts, firsts_are_distinct, name_position,
    positions_are_positions, positions_of,
};
use crate::session::{answered, answered_within};
use crate::text::{join, join_texts, position, push_text, text_contains, text_ends_with};
use crate::value::{clone_row, Value, ValueView};

verus! {

/// The columns that end in `suffix`, in order.
pub open spec fn with_suffix(columns: Seq<Seq<char>>, suffix: Seq<char>) -> Seq<Seq<char>>
    decreases columns.len(),
{
    if columns.len() == 0 {
        Seq::empty()
    } else if suffix.is_suffix_of(columns.last()) {
        with_suffix(columns.drop_last(), suffix).push(columns.last())
    } else {
        with_suffix(columns.drop_last(), suffix)
    }
}

/// The column that `name` stands for: the column of that name; else, for a
/// name without a qualifier, the one column that ends in `.name`. No such
/// column, or several, is an error.
pub open spec fn group_column(name: Seq<char>, columns: Seq<Seq<char>>) -> Result<int, ErrorView> {
    let exact = name_position(columns, name);
    let suffix = seq!['.'] + name;
    let found = with_suffix(columns, suffix);
    if exact is Some {
        Ok(exact->0)
    } else if name.contains('.') || found.len() == 0 {
        Err(no_column_error(name))
    } else if found.len() == 1 {
        Ok(first_where(columns, |c: Seq<char>| suffix.is_suffix_of(c))->0)
    } else {
        Err(
            ErrorView::Execution(
                "cannot group by ambiguous column '"@ + name + "'; candidates: "@ + join_texts(
                    found,
                    ", "@,
                ),
            ),
        )
    }
}

/// Find the column that `name` stands for.
pub fn resolve_group_column(name: &String, columns: &Vec<String>) -> (at: Result<usize, QueryError>)
    ensures
        match at {
            Ok(i) => i < columns.len() && group_column(name@, columns.deep_view()) == Ok::<
                int,
                ErrorView,
            >(i as int),
            Err(error) => group_column(name@, columns.deep_view()) == Err::<int, ErrorView>(
                error.deep_view(),
            ),
        },
{
    match position(columns, name) {
        Some(i) => {
            return Ok(i);
        },
        None => {},
    }
    if text_contains(name, '.') {
        return Err(QueryError::no_column(name));
    }
    let mut suffix = String::new();
    suffix.push('.');
    push_text(&mut suffix, name.as_str());
    assert(suffix@ =~= seq!['.'] + name@);
    let ghost cols = columns.deep_view();
    let ghost f = |c: Seq<char>| suffix@.is_suffix_of(c);
    let mut candidates: Vec<String> = Vec::new();
    let mut first: usize = 0;
    let mut i: usize = 0;
    while i < columns.len()
        invariant
            i <= columns.len(),
            cols == columns.deep_view(),
            candidates.deep_view() == with_suffix(cols.take(i as int), suffix@),
            candidates.len() == 0 ==> forall|j: int| 0 <= j < i ==> !suffix@.is_suffix_of(#[trigger] cols[j]),
            candidates.len() > 0 ==> first < i && suffix@.is_suffix_of(cols[first as int]) && forall|
                j: int,
            |
                0 <= j < first ==> !suffix@.is_suffix_of(#[trigger] cols[j]),
        decreases columns.len() - i,
    {
        assert(cols.take(i + 1).drop_last() =~= cols.take(i as int));
        assert(cols.take(i + 1).last() == columns[i as int]@);
        if text_ends_with(&columns[i], &suffix) {
            if candidates.len() == 0 {
                first = i;
            }
            candidates.push(columns[i].clone());
            assert(candidates.deep_view() =~= with_suffix(cols.take(i + 1), suffix@));
        }
        i = i + 1;
    }
    assert(cols.take(columns.len() as int) =~= cols);
    if candidates.len() == 0 {
        assert(with_suffix(cols, seq!['.'] + name@).len() == 0);
        return Err(QueryError::no_column(name));
    }
    if candidates.len() == 1 {
        proof {
            let g = |c: Seq<char>| (seq!['.'] + name@).is_suffix_of(c);
            first_where_is(cols, g, first as int);
        }
        return Ok(first);
    }
    let mut message = "cannot group by ambiguous column '".to_owned();
    push_text(&mut message, name.as_str());
    push_text(&mut message, "'; candidates: ");
    let list = join(&candidates, ", ");
    push_text(&mut message, list.as_str());
    Err(QueryError::Execution(message))
}

/// The name `qualifier.field`.
pub open spec fn qualified(qualifier: Seq<char>, field: Seq<char>) -> Seq<char> {
    qualifier + "."@ + field
}

/// The name `qualifier.field`.
pub fn qualified_name(qualifier: &String, field: &String) -> (name: String)
    ensures
        name@ == qualified(qualifier@, field@),
{
    let mut name = qualifier.clone();
    push_text(&mut name, ".");
    push_text(&mut name, field.as_str());
    name
}

/// The column that an expression names, if it is a column reference.
pub open spec fn direct_column(expr: ExprView, columns: Seq<Seq<char>>) -> Result<
    Option<int>,
    ErrorView,
> {
    let named = match expr {
        ExprView::Field(name) => if is_star(expr) {
            None
        } else {
            Some(name)
        },
        ExprView::QualifiedField { qualifier, field } => Some(qualified(qualifier, field)),
        _ => None,
    };
    match named {
        None => Ok(None),
        Some(name) => match group_column(name, columns) {
            Ok(i) => Ok(Some(i)),
            Err(error) => Err(error),
        },
    }
}

/// Resolve an expression to a column, if it is a column reference.
pub fn resolve_direct_group_expr(expr: &Expr, columns: &Vec<String>) -> (at: Result<
    Option<usize>,
    QueryError,
>)
    ensures
        match at {
            Ok(Some(i)) => i < columns.len() && direct_column(expr.deep_view(), columns.deep_view())
                == Ok::<Option<int>, ErrorView>(Some(i as int)),
            Ok(None) => direct_column(expr.deep_view(), columns.deep_view()) == Ok::<
                Option<int>,
                ErrorView,
            >(None),
            Err(error) => direct_column(expr.deep_view(), columns.deep_view()) == Err::<
                Option<int>,
                ErrorView,
            >(error.deep_view()),
        },
{
    if expr_is_star(expr) {
        return Ok(None);
    }
    match expr {
        Expr::Field(name) => {
            let at = resolve_group_column(name, columns)?;
            Ok(Some(at))
        },
        Expr::QualifiedField { qualifier, field } => {
            let name = qualified_name(qualifier, field);
            let at = resolve_group_column(&name, columns)?;
            Ok(Some(at))
        },
        _ => Ok(None),
    }
}

/// The value of an expression on a row, read from its column where it has one.
pub open spec fn read_value(
    eval: EvalModel,
    expr: ExprView,
    at: Option<int>,
    row: Seq<ValueView>,
    columns: Seq<Seq<char>>,
) -> ValueView {
    match at {
        Some(i) => row[i],
        None => eval(expr, row, columns),
    }
}

/// The value of an expression on each row.
pub open spec fn read_column(
    eval: EvalModel,
    expr: ExprView,
    at: Option<int>,
    rows: Seq<Seq<ValueView>>,
    columns: Seq<Seq<char>>,
) -> Seq<ValueView> {
    Seq::new(rows.len(), |i: int| read_value(eval, expr, at, rows[i], columns))
}

/// A column position as mathematics.
pub open spec fn at_view(at: Option<usize>) -> Option<int> {
    match at {
        Some(i) => Some(i as int),
        None => None,
    }
}

/// Every row has a value at each of these positions.
pub open spec fn rows_reach(rows: Seq<Seq<ValueView>>, ats: Seq<Option<int>>) -> bool {
    forall|i: int, k: int|
        #![trigger rows[i], ats[k]]
        0 <= i < rows.len() && 0 <= k < ats.len() ==> (ats[k] matches Some(c) ==> c
            < rows[i].len())
}

/// The error for a row that ends before the column that is looked up. A union
/// of sides of different widths can have such rows.
pub open spec fn short_row_error() -> ErrorView {
    ErrorView::Execution("a row has no value for a column that is looked up"@)
}

/// Refuse rows that do not reach each of these positions.
pub fn check_reach(rows: &Vec<Vec<Value>>, ats: &Vec<Option<usize>>) -> (reach: Result<
    (),
    QueryError,
>)
    ensures
        match reach {
            Ok(_) => rows_reach(rows.deep_view(), ats_view(ats@)),
            Err(error) => !rows_reach(rows.deep_view(), ats_view(ats@)) && error.deep_view()
                == short_row_error(),
        },
{
    let ghost all = rows.deep_view();
    let ghost places = ats_view(ats@);
    let mut last: Option<usize> = None;
    let mut k: usize = 0;
    while k < ats.len()
        invariant
            k <= ats.len(),
            places == ats_view(ats@),
            last matches Some(n) ==> exists|j: int|
                0 <= j < places.len() && #[trigger] places[j] == Some(n as int),
            forall|j: int|
                0 <= j < k ==> (#[trigger] places[j] matches Some(c) ==> last is Some && c
                    <= last->0),
        decreases ats.len() - k,
    {
        assert(places[k as int] == at_view(ats[k as int]));
        match ats[k] {
            Some(c) => {
                let further: bool = match last {
                    Some(n) => c > n,
                    None => true,
                };
                if further {
                    last = Some(c);
                }
            },
            None => {},
        }
        k = k + 1;
    }
    match last {
        None => {},
        Some(n) => {
            let mut i: usize = 0;
            while i < rows.len()
                invariant
                    i <= rows.len(),
                    all == rows.deep_view(),
                    places == ats_view(ats@),
                    exists|j: int| 0 <= j < places.len() && #[trigger] places[j] == Some(n as int),
                    forall|r: int| 0 <= r < i ==> n < (#[trigger] all[r]).len(),
                decreases rows.len() - i,
            {
                assert(all[i as int] == rows[i as int].deep_view());
                if rows[i].len() <= n {
                    proof {
                        let j = choose|j: int|
                            0 <= j < places.len() && #[trigger] places[j] == Some(n as int);
                        assert(all[i as int].len() <= n && places[j] == Some(n as int));
                    }
                    return Err(
                        QueryError::execution("a row has no value for a column that is looked up"),
                    );
                }
                i = i + 1;
            }
        },
    }
    Ok(())
}

/// The value of an expression on each row, each of which asks `poll`.
pub fn read_values<
    E: Fn(&Expr, &Vec<Value>, &Vec<String>) -> Value,
    C: Fn(&Value, &Value) -> Order,
    F: Fn(FloatOp) -> u64,
    P: Fn() -> Result<(), QueryError>,
>(
    scalars: &Scalars<E, C, F>,
    expr: &Expr,
    at: Option<usize>,
    rows: &Vec<Vec<Value>>,
    columns: &Vec<String>,
    poll: &P,
) -> (values: Result<Vec<Value>, QueryError>)
    requires
        scalars.ok(),
        call_requires(*poll, ()),
        rows_reach(rows.deep_view(), seq![at_view(at)]),
    ensures
        match values {
            Ok(values) => values.deep_view() == read_column(
                scalars.values(),
                expr.deep_view(),
                at_view(at),
                rows.deep_view(),
                columns.deep_view(),
            ) && values.len() == rows.len(),
            Err(error) => call_ensures(*poll, (), Err(error)),
        },
{
    let mut values: Vec<Value> = Vec::new();
    let ghost all = rows.deep_view();
    let ghost cols = columns.deep_view();
    let mut i: usize = 0;
    while i < rows.len()
        invariant
            scalars.ok(),
            call_requires(*poll, ()),
            all == rows.deep_view(),
            cols == columns.deep_view(),
            rows_reach(all, seq![at_view(at)]),
            i <= rows.len(),
            values.len() == i,
            forall|j: int|
                0 <= j < i ==> (#[trigger] values[j]).deep_view() == read_value(
                    scalars.values(),
                    expr.deep_view(),
                    at_view(at),
                    all[j],
                    cols,
                ),
        decreases rows.len() - i,
    {
        poll()?;
        assert(seq![at_view(at)][0] == at_view(at));
        assert(all[i as int] == rows[i as int].deep_view());
        let value = match at {
            Some(c) => rows[i][c].clone(),
            None => scalars.eval_expr(expr, &rows[i], columns),
        };
        values.push(value);
        i = i + 1;
    }
    assert(values.deep_view() =~= read_column(
        scalars.values(),
        expr.deep_view(),
        at_view(at),
        all,
        cols,
    ));
    Ok(values)
}

/// One key of a `group` clause.
#[derive(Debug, PartialEq, Eq)]
pub struct GroupKey {
    pub expr: Expr,
    pub output_name: String,
}

/// What a [`GroupKey`] stands for.
pub struct GroupKeyView {
    pub expr: ExprView,
    pub output_name: Seq<char>,
}

impl DeepView for GroupKey {
    type V = GroupKeyView;

    open spec fn deep_view(&self) -> GroupKeyView {
        GroupKeyView { expr: self.expr.deep_view(), output_name: self.output_name@ }
    }
}

/// One aggregate of a `group` clause.
#[derive(Debug, PartialEq, Eq)]
pub struct GroupAgg {
    pub function: AggFunc,
    pub argument: Expr,
    pub mode: AggregateMode,
    pub provenance_alias: Option<String>,
    pub output_name: String,
}

/// What a [`GroupAgg`] stands for.
pub struct GroupAggView {
    pub function: AggFunc,
    pub argument: ExprView,
    pub mode: AggregateMode,
    pub provenance_alias: Option<Seq<char>>,
    pub output_name: Seq<char>,
}

impl DeepView for GroupAgg {
    type V = GroupAggView;

    open spec fn deep_view(&self) -> GroupAggView {
        GroupAggView {
            function: self.function,
            argument: self.argument.deep_view(),
            mode: self.mode,
            provenance_alias: self.provenance_alias.deep_view(),
            output_name: self.output_name@,
        }
    }
}

impl Clone for GroupKey {
    fn clone(&self) -> (copy: Self)
        ensures
            copy.deep_view() == self.deep_view(),
    {
        GroupKey { expr: clone_expr(&self.expr), output_name: self.output_name.clone() }
    }
}

impl Clone for GroupAgg {
    fn clone(&self) -> (copy: Self)
        ensures
            copy.deep_view() == self.deep_view(),
    {
        GroupAgg {
            function: self.function,
            argument: clone_expr(&self.argument),
            mode: self.mode,
            provenance_alias: match &self.provenance_alias {
                Some(alias) => Some(alias.clone()),
                None => None,
            },
            output_name: self.output_name.clone(),
        }
    }
}

/// The columns that the keys name, in order; the first that does not resolve is
/// the error.
pub open spec fn key_columns(exprs: Seq<ExprView>, columns: Seq<Seq<char>>) -> Result<
    Seq<Option<int>>,
    ErrorView,
>
    decreases exprs.len(),
{
    if exprs.len() == 0 {
        Ok(Seq::empty())
    } else {
        match key_columns(exprs.drop_last(), columns) {
            Err(error) => Err(error),
            Ok(ats) => match direct_column(exprs.last(), columns) {
                Ok(at) => Ok(ats.push(at)),
                Err(error) => Err(error),
            },
        }
    }
}

/// The column positions as mathematics.
pub open spec fn ats_view(ats: Seq<Option<usize>>) -> Seq<Option<int>> {
    Seq::new(ats.len(), |i: int| at_view(ats[i]))
}

/// An error among the first keys is the error of them all.
proof fn key_columns_error_stays(exprs: Seq<ExprView>, columns: Seq<Seq<char>>, k: int)
    requires
        0 <= k <= exprs.len(),
        key_columns(exprs.take(k), columns) is Err,
    ensures
        key_columns(exprs, columns) == key_columns(exprs.take(k), columns),
    decreases exprs.len(),
{
    if k == exprs.len() {
        assert(exprs.take(k) =~= exprs);
    } else {
        assert(exprs.drop_last().take(k) =~= exprs.take(k));
        key_columns_error_stays(exprs.drop_last(), columns, k);
    }
}

/// Resolve each expression to a column, if it is a column reference.
pub fn resolve_columns(exprs: &Vec<&Expr>, columns: &Vec<String>) -> (ats: Result<
    Vec<Option<usize>>,
    QueryError,
>)
    ensures
        match ats {
            Ok(ats) => ats.len() == exprs.len() && key_columns(
                exprs.deep_view(),
                columns.deep_view(),
            ) == Ok::<Seq<Option<int>>, ErrorView>(ats_view(ats@)) && forall|i: int|
                0 <= i < ats.len() ==> (#[trigger] ats[i] matches Some(c) ==> c < columns.len()),
            Err(error) => key_columns(exprs.deep_view(), columns.deep_view()) == Err::<
                Seq<Option<int>>,
                ErrorView,
            >(error.deep_view()),
        },
{
    let mut ats: Vec<Option<usize>> = Vec::new();
    let ghost views = exprs.deep_view();
    let mut i: usize = 0;
    assert(ats_view(ats@) =~= Seq::<Option<int>>::empty());
    while i < exprs.len()
        invariant
            i <= exprs.len(),
            views == exprs.deep_view(),
            ats.len() == i,
            key_columns(views.take(i as int), columns.deep_view()) == Ok::<
                Seq<Option<int>>,
                ErrorView,
            >(ats_view(ats@)),
            forall|j: int| 0 <= j < i ==> (#[trigger] ats[j] matches Some(c) ==> c < columns.len()),
        decreases exprs.len() - i,
    {
        proof {
            assert(views.take(i + 1).drop_last() =~= views.take(i as int));
            assert(views.take(i + 1).last() == exprs[i as int].deep_view());
        }
        match resolve_direct_group_expr(exprs[i], columns) {
            Ok(at) => {
                let ghost before = ats_view(ats@);
                ats.push(at);
                assert(ats_view(ats@) =~= before.push(at_view(at)));
            },
            Err(error) => {
                proof {
                    key_columns_error_stays(views, columns.deep_view(), i + 1);
                }
                return Err(error);
            },
        }
        i = i + 1;
    }
    assert(views.take(exprs.len() as int) =~= views);
    Ok(ats)
}

/// The values of the keys on a row.
pub open spec fn key_of(
    eval: EvalModel,
    exprs: Seq<ExprView>,
    ats: Seq<Option<int>>,
    row: Seq<ValueView>,
    columns: Seq<Seq<char>>,
) -> Seq<ValueView> {
    Seq::new(exprs.len(), |k: int| read_value(eval, exprs[k], ats[k], row, columns))
}

/// The values of the keys on each row.
pub open spec fn keys_of(
    eval: EvalModel,
    exprs: Seq<ExprView>,
    ats: Seq<Option<int>>,
    rows: Seq<Seq<ValueView>>,
    columns: Seq<Seq<char>>,
) -> Seq<Seq<ValueView>> {
    Seq::new(rows.len(), |i: int| key_of(eval, exprs, ats, rows[i], columns))
}

/// The values of the keys on each row, each of which asks `poll`.
pub fn read_keys<
    E: Fn(&Expr, &Vec<Value>, &Vec<String>) -> Value,
    C: Fn(&Value, &Value) -> Order,
    F: Fn(FloatOp) -> u64,
    P: Fn() -> Result<(), QueryError>,
>(
    scalars: &Scalars<E, C, F>,
    exprs: &Vec<&Expr>,
    ats: &Vec<Option<usize>>,
    rows: &Vec<Vec<Value>>,
    columns: &Vec<String>,
    poll: &P,
) -> (keys: Result<Vec<Vec<Value>>, QueryError>)
    requires
        scalars.ok(),
        call_requires(*poll, ()),
        rows_reach(rows.deep_view(), ats_view(ats@)),
        ats.len() == exprs.len(),
    ensures
        match keys {
            Ok(keys) => keys.deep_view() == keys_of(
                scalars.values(),
                exprs.deep_view(),
                ats_view(ats@),
                rows.deep_view(),
                columns.deep_view(),
            ) && keys.len() == rows.len() && forall|i: int|
                0 <= i < keys.len() ==> (#[trigger] keys[i]).len() == exprs.len(),
            Err(error) => call_ensures(*poll, (), Err(error)),
        },
{
    let mut keys: Vec<Vec<Value>> = Vec::new();
    let ghost all = rows.deep_view();
    let ghost cols = columns.deep_view();
    let ghost views = exprs.deep_view();
    let ghost places = ats_view(ats@);
    let mut i: usize = 0;
    while i < rows.len()
        invariant
            scalars.ok(),
            call_requires(*poll, ()),
            all == rows.deep_view(),
            cols == columns.deep_view(),
            views == exprs.deep_view(),
            places == ats_view(ats@),
            rows_reach(all, places),
            ats.len() == exprs.len(),
            i <= rows.len(),
            keys.len() == i,
            forall|j: int|
                0 <= j < i ==> (#[trigger] keys[j]).deep_view() == key_of(
                    scalars.values(),
                    views,
                    places,
                    all[j],
                    cols,
                ) && keys[j].len() == exprs.len(),
        decreases rows.len() - i,
    {
        poll()?;
        let mut key: Vec<Value> = Vec::new();
        let mut k: usize = 0;
        while k < exprs.len()
            invariant
                scalars.ok(),
                all == rows.deep_view(),
                cols == columns.deep_view(),
                views == exprs.deep_view(),
                places == ats_view(ats@),
                i < rows.len(),
                rows_reach(all, places),
                ats.len() == exprs.len(),
                k <= exprs.len(),
                key.len() == k,
                forall|j: int|
                    0 <= j < k ==> (#[trigger] key[j]).deep_view() == read_value(
                        scalars.values(),
                        views[j],
                        places[j],
                        all[i as int],
                        cols,
                    ),
            decreases exprs.len() - k,
        {
            assert(places[k as int] == at_view(ats[k as int]));
            assert(all[i as int] == rows[i as int].deep_view());
            let value = match ats[k] {
                Some(c) => rows[i][c].clone(),
                None => scalars.eval_expr(exprs[k], &rows[i], columns),
            };
            key.push(value);
            k = k + 1;
        }
        assert(key.deep_view() =~= key_of(scalars.values(), views, places, all[i as int], cols));
        keys.push(key);
        i = i + 1;
    }
    assert(keys.deep_view() =~= keys_of(scalars.values(), views, places, all, cols));
    Ok(keys)
}

/// Positions as mathematics.
pub open spec fn ints(positions: Seq<usize>) -> Seq<int> {
    Seq::new(positions.len(), |i: int| positions[i] as int)
}

/// The elements of `s` at `positions`.
pub open spec fn pick<A>(s: Seq<A>, positions: Seq<int>) -> Seq<A> {
    Seq::new(positions.len(), |i: int| s[positions[i]])
}

/// The distinct keys in the order of their first appearance, and for each the
/// positions at which it stands.
pub fn group_positions(keys: &Vec<Vec<Value>>) -> (grouped: (KeyTable, Vec<Vec<usize>>))
    ensures
        grouped.0.wf(),
        grouped.0@ == firsts(keys.deep_view()),
        grouped.1.len() == grouped.0@.len(),
        forall|g: int|
            0 <= g < grouped.1.len() ==> ints((#[trigger] grouped.1[g])@) == positions_of(
                keys.deep_view(),
                grouped.0@[g],
            ),
{
    let ghost ks = keys.deep_view();
    let mut table = KeyTable::new();
    let mut members: Vec<Vec<usize>> = Vec::new();
    let mut i: usize = 0;
    assert(ks.take(0) =~= Seq::<Seq<ValueView>>::empty());
    while i < keys.len()
        invariant
            i <= keys.len(),
            ks == keys.deep_view(),
            table.wf(),
            table@ == firsts(ks.take(i as int)),
            members.len() == table@.len(),
            forall|g: int|
                0 <= g < members.len() ==> ints((#[trigger] members[g])@) == positions_of(
                    ks.take(i as int),
                    table@[g],
                ),
        decreases keys.len() - i,
    {
        let ghost seen = ks.take(i as int);
        let ghost more = ks.take(i + 1);
        let ghost key = ks[i as int];
        let ghost before = table@;
        let ghost members_before = members@;
        proof {
            assert(more.drop_last() =~= seen);
            assert(more.last() == key);
            firsts_are_distinct(seen);
            firsts_are_distinct(more);
            assert(before.contains(key) <==> seen.contains(key));
        }
        let number: usize = table.find_or_insert(clone_row(&keys[i]));
        assert(table@ =~= firsts(more));
        if number < members.len() {
            proof {
                assert(before.contains(key)) by {
                    if !before.contains(key) {
                        assert(table@[number as int] == before[number as int]);
                        assert(before[number as int] == key);
                    }
                }
            }
            members[number].push(i);
            assert(ints(members[number as int]@) =~= ints(members_before[number as int]@).push(
                i as int,
            ));
        } else {
            proof {
                if before.contains(key) {
                    assert(table@ == before);
                }
                assert(positions_of(seen, key) =~= Seq::<int>::empty()) by {
                    positions_are_positions(seen, key);
                    if positions_of(seen, key).len() > 0 {
                        let p = positions_of(seen, key)[0];
                        assert(seen[p] == key);
                    }
                }
            }
            let mut fresh: Vec<usize> = Vec::new();
            fresh.push(i);
            assert(ints(fresh@) =~= positions_of(seen, key).push(i as int));
            members.push(fresh);
        }
        proof {
            assert forall|g: int| 0 <= g < members.len() implies ints((#[trigger] members[g])@)
                == positions_of(more, table@[g]) by {
                if g != number {
                    assert(members[g] == members_before[g]);
                    assert(table@[g] == before[g]);
                    assert(table@[g] != table@[number as int]);
                }
            }
        }
        i = i + 1;
    }
    assert(ks.take(keys.len() as int) =~= ks);
    (table, members)
}

/// The stored rows behind the rows that are grouped.
pub struct GroupProvenance {
    pub source_aliases: Vec<String>,
    pub rows: Vec<Vec<Option<RowId>>>,
}

/// What a [`GroupProvenance`] stands for.
pub struct GroupProvenanceView {
    pub source_aliases: Seq<Seq<char>>,
    pub rows: Seq<Seq<Option<RowId>>>,
}

impl DeepView for GroupProvenance {
    type V = GroupProvenanceView;

    open spec fn deep_view(&self) -> GroupProvenanceView {
        GroupProvenanceView {
            source_aliases: self.source_aliases.deep_view(),
            rows: provenance_view(self.rows@),
        }
    }
}

/// The provenance has one entry per row and source.
pub open spec fn provenance_covers(provenance: Option<GroupProvenanceView>, n: int) -> bool {
    provenance matches Some(p) ==> p.rows.len() == n && forall|i: int|
        0 <= i < n ==> (#[trigger] p.rows[i]).len() == p.source_aliases.len()
}

/// The source of an aggregate, if it names one.
pub open spec fn agg_source(
    alias: Option<Seq<char>>,
    provenance: Option<GroupProvenanceView>,
) -> Result<Option<int>, ErrorView> {
    match alias {
        None => Ok(None),
        Some(name) => {
            let found = match provenance {
                Some(p) => name_position(p.source_aliases, name),
                None => None,
            };
            match found {
                Some(i) => Ok(Some(i)),
                None => Err(ErrorView::Execution(missing_alias_message(name))),
            }
        },
    }
}

/// The source of each aggregate; the first that is missing is the error.
pub open spec fn agg_sources(
    aggregates: Seq<GroupAggView>,
    provenance: Option<GroupProvenanceView>,
) -> Result<Seq<Option<int>>, ErrorView>
    decreases aggregates.len(),
{
    if aggregates.len() == 0 {
        Ok(Seq::empty())
    } else {
        match agg_sources(aggregates.drop_last(), provenance) {
            Err(error) => Err(error),
            Ok(sources) => match agg_source(aggregates.last().provenance_alias, provenance) {
                Ok(source) => Ok(sources.push(source)),
                Err(error) => Err(error),
            },
        }
    }
}

proof fn agg_sources_error_stays(
    aggregates: Seq<GroupAggView>,
    provenance: Option<GroupProvenanceView>,
    k: int,
)
    requires
        0 <= k <= aggregates.len(),
        agg_sources(aggregates.take(k), provenance) is Err,
    ensures
        agg_sources(aggregates, provenance) == agg_sources(aggregates.take(k), provenance),
    decreases aggregates.len(),
{
    if k == aggregates.len() {
        assert(aggregates.take(k) =~= aggregates);
    } else {
        assert(aggregates.drop_last().take(k) =~= aggregates.take(k));
        agg_sources_error_stays(aggregates.drop_last(), provenance, k);
    }
}

fn resolve_agg_sources(aggregates: &Vec<GroupAgg>, provenance: &Option<GroupProvenance>) -> (sources:
    Result<Vec<Option<usize>>, QueryError>)
    ensures
        match sources {
            Ok(sources) => sources.len() == aggregates.len() && agg_sources(
                aggregates.deep_view(),
                provenance.deep_view(),
            ) == Ok::<Seq<Option<int>>, ErrorView>(ats_view(sources@)) && forall|i: int|
                0 <= i < sources.len() ==> (#[trigger] sources[i] matches Some(c) ==> *provenance is Some
                    && c < provenance->0.source_aliases.len()),
            Err(error) => agg_sources(aggregates.deep_view(), provenance.deep_view()) == Err::<
                Seq<Option<int>>,
                ErrorView,
            >(error.deep_view()),
        },
{
    let mut sources: Vec<Option<usize>> = Vec::new();
    let ghost aggs = aggregates.deep_view();
    let ghost prov = provenance.deep_view();
    let mut i: usize = 0;
    assert(ats_view(sources@) =~= Seq::<Option<int>>::empty());
    while i < aggregates.len()
        invariant
            i <= aggregates.len(),
            aggs == aggregates.deep_view(),
            prov == provenance.deep_view(),
            sources.len() == i,
            agg_sources(aggs.take(i as int), prov) == Ok::<Seq<Option<int>>, ErrorView>(
                ats_view(sources@),
            ),
            forall|j: int|
                0 <= j < i ==> (#[trigger] sources[j] matches Some(c) ==> *provenance is Some && c
                    < provenance->0.source_aliases.len()),
        decreases aggregates.len() - i,
    {
        proof {
            assert(aggs.take(i + 1).drop_last() =~= aggs.take(i as int));
            assert(aggs.take(i + 1).last() == aggregates[i as int].deep_view());
        }
        let source: Option<usize> = match &aggregates[i].provenance_alias {
            None => None,
            Some(alias) => {
                let found: Option<usize> = match provenance {
                    Some(p) => position(&p.source_aliases, alias),
                    None => None,
                };
                match found {
                    Some(at) => Some(at),
                    None => {
                        proof {
                            assert(agg_source(aggs[i as int].provenance_alias, prov) is Err);
                            agg_sources_error_stays(aggs, prov, i + 1);
                        }
                        return Err(missing_alias_error(alias));
                    },
                }
            },
        };
        let ghost before = ats_view(sources@);
        assert(agg_source(aggs[i as int].provenance_alias, prov) == Ok::<Option<int>, ErrorView>(
            at_view(source),
        ));
        sources.push(source);
        assert(ats_view(sources@) =~= before.push(at_view(source)));
        i = i + 1;
    }
    assert(aggs.take(aggregates.len() as int) =~= aggs);
    Ok(sources)
}

/// What grouping works on: the input, where its columns stand, and the source
/// of each aggregate.
pub struct GroupInput {
    pub columns: Seq<Seq<char>>,
    pub rows: Seq<Seq<ValueView>>,
    pub aggregates: Seq<GroupAggView>,
    pub agg_columns: Seq<Option<int>>,
    pub agg_sources: Seq<Option<int>>,
    pub provenance: Option<GroupProvenanceView>,
}

/// What aggregate `a` gives on the rows at `members`, and the budget it leaves.
pub open spec fn group_cell(
    model: ScalarModel,
    input: GroupInput,
    a: int,
    members: Seq<int>,
    budget: Budget,
) -> Result<(ValueView, Budget), ErrorView> {
    let agg = input.aggregates[a];
    if agg.function is Count && is_star(agg.argument) {
        Ok((ValueView::Int(members.len() as i64), budget))
    } else {
        aggregate_of(
            model,
            agg.function,
            pick(
                read_column(
                    model.eval,
                    agg.argument,
                    input.agg_columns[a],
                    input.rows,
                    input.columns,
                ),
                members,
            ),
            match input.agg_sources[a] {
                Some(source) => Some(pick(source_column(input.provenance->0, source), members)),
                None => None,
            },
            budget,
        )
    }
}

/// The stored rows of one source.
pub open spec fn source_column(provenance: GroupProvenanceView, source: int) -> Seq<Option<RowId>> {
    Seq::new(provenance.rows.len(), |i: int| provenance.rows[i][source])
}

/// The output row of a group, up to aggregate `n`: its key and the aggregates.
pub open spec fn group_row(
    model: ScalarModel,
    input: GroupInput,
    key: Seq<ValueView>,
    members: Seq<int>,
    n: int,
    budget: Budget,
) -> Result<(Seq<ValueView>, Budget), ErrorView>
    decreases n,
{
    if n <= 0 {
        Ok((key, budget))
    } else {
        match group_row(model, input, key, members, n - 1, budget) {
            Err(error) => Err(error),
            Ok((row, held)) => match group_cell(model, input, n - 1, members, held) {
                Ok((value, left)) => Ok((row.push(value), left)),
                Err(error) => Err(error),
            },
        }
    }
}

/// The output rows of the first `n` groups.
pub open spec fn group_rows(
    model: ScalarModel,
    input: GroupInput,
    keys: Seq<Seq<ValueView>>,
    n: int,
    budget: Budget,
) -> Result<(Seq<Seq<ValueView>>, Budget), ErrorView>
    decreases n,
{
    if n <= 0 {
        Ok((Seq::empty(), budget))
    } else {
        match group_rows(model, input, keys, n - 1, budget) {
            Err(error) => Err(error),
            Ok((rows, held)) => {
                let key = firsts(keys)[n - 1];
                match group_row(
                    model,
                    input,
                    key,
                    positions_of(keys, key),
                    input.aggregates.len() as int,
                    held,
                ) {
                    Ok((row, left)) => Ok((rows.push(row), left)),
                    Err(error) => Err(error),
                }
            },
        }
    }
}

/// The names of the output columns: the keys, then the aggregates.
pub open spec fn group_columns(keys: Seq<GroupKeyView>, aggregates: Seq<GroupAggView>) -> Seq<
    Seq<char>,
> {
    Seq::new(keys.len(), |i: int| keys[i].output_name) + Seq::new(
        aggregates.len(),
        |i: int| aggregates[i].output_name,
    )
}

/// The rows on which `predicate` holds.
pub open spec fn filtered(
    eval: EvalModel,
    predicate: ExprView,
    rows: Seq<Seq<ValueView>>,
    columns: Seq<Seq<char>>,
) -> Seq<Seq<ValueView>>
    decreases rows.len(),
{
    if rows.len() == 0 {
        Seq::empty()
    } else {
        let kept = filtered(eval, predicate, rows.drop_last(), columns);
        if is_true(eval(predicate, rows.last(), columns)) {
            kept.push(rows.last())
        } else {
            kept
        }
    }
}

/// The expressions of the keys.
pub open spec fn key_exprs(keys: Seq<GroupKeyView>) -> Seq<ExprView> {
    Seq::new(keys.len(), |i: int| keys[i].expr)
}

/// The arguments of the aggregates.
pub open spec fn agg_exprs(aggregates: Seq<GroupAggView>) -> Seq<ExprView> {
    Seq::new(aggregates.len(), |i: int| aggregates[i].argument)
}

/// What grouping answers: one row for each distinct key, in the order in which
/// the keys first appear, kept where `having` holds; and the budget it leaves. A
/// row that ends before a column that is looked up is an error.
pub open spec fn group_by_of(
    model: ScalarModel,
    columns: Seq<Seq<char>>,
    rows: Seq<Seq<ValueView>>,
    provenance: Option<GroupProvenanceView>,
    keys: Seq<GroupKeyView>,
    aggregates: Seq<GroupAggView>,
    having: Option<ExprView>,
    budget: Budget,
) -> Result<(ResultView, Budget), ErrorView> {
    match key_columns(key_exprs(keys), columns) {
        Err(error) => Err(error),
        Ok(key_ats) => match key_columns(agg_exprs(aggregates), columns) {
            Err(error) => Err(error),
            Ok(agg_ats) => match agg_sources(aggregates, provenance) {
                Err(error) => Err(error),
                Ok(sources) => if !rows_reach(rows, key_ats) || !rows_reach(rows, agg_ats) {
                    Err(short_row_error())
                } else {
                    let input = GroupInput {
                        columns,
                        rows,
                        aggregates,
                        agg_columns: agg_ats,
                        agg_sources: sources,
                        provenance,
                    };
                    let row_keys = keys_of(model.eval, key_exprs(keys), key_ats, rows, columns);
                    let names = group_columns(keys, aggregates);
                    match group_rows(
                        model,
                        input,
                        row_keys,
                        firsts(row_keys).len() as int,
                        budget,
                    ) {
                        Err(error) => Err(error),
                        Ok((out, held)) => Ok(
                            (
                                ResultView::Rows {
                                    columns: names,
                                    rows: match having {
                                        Some(h) => filtered(model.eval, h, out, names),
                                        None => out,
                                    },
                                },
                                held,
                            ),
                        ),
                    }
                },
            },
        },
    }
}

proof fn group_rows_error_stays(
    model: ScalarModel,
    input: GroupInput,
    keys: Seq<Seq<ValueView>>,
    k: int,
    n: int,
    budget: Budget,
)
    requires
        0 <= k <= n,
        group_rows(model, input, keys, k, budget) is Err,
    ensures
        group_rows(model, input, keys, n, budget) == group_rows(model, input, keys, k, budget),
    decreases n,
{
    if k < n {
        group_rows_error_stays(model, input, keys, k, n - 1, budget);
    }
}

proof fn group_row_error_stays(
    model: ScalarModel,
    input: GroupInput,
    key: Seq<ValueView>,
    members: Seq<int>,
    k: int,
    n: int,
    budget: Budget,
)
    requires
        0 <= k <= n,
        group_row(model, input, key, members, k, budget) is Err,
    ensures
        group_row(model, input, key, members, n, budget) == group_row(
            model,
            input,
            key,
            members,
            k,
            budget,
        ),
    decreases n,
{
    if k < n {
        group_row_error_stays(model, input, key, members, k, n - 1, budget);
    }
}

/// Keep the rows on which `predicate` holds. Each row asks `poll`.
pub fn filter_rows<
    E: Fn(&Expr, &Vec<Value>, &Vec<String>) -> Value,
    C: Fn(&Value, &Value) -> Order,
    F: Fn(FloatOp) -> u64,
    P: Fn() -> Result<(), QueryError>,
>(
    scalars: &Scalars<E, C, F>,
    predicate: &Expr,
    rows: Vec<Vec<Value>>,
    columns: &Vec<String>,
    poll: &P,
) -> (kept: Result<Vec<Vec<Value>>, QueryError>)
    requires
        scalars.ok(),
        call_requires(*poll, ()),
    ensures
        match kept {
            Ok(kept) => kept.deep_view() == filtered(
                scalars.values(),
                predicate.deep_view(),
                rows.deep_view(),
                columns.deep_view(),
            ),
            Err(error) => call_ensures(*poll, (), Err(error)),
        },
{
    let ghost all = rows.deep_view();
    let mut kept: Vec<Vec<Value>> = Vec::new();
    let mut i: usize = 0;
    while i < rows.len()
        invariant
            scalars.ok(),
            call_requires(*poll, ()),
            i <= rows.len(),
            all == rows.deep_view(),
            kept.deep_view() == filtered(
                scalars.values(),
                predicate.deep_view(),
                all.take(i as int),
                columns.deep_view(),
            ),
        decreases rows.len() - i,
    {
        poll()?;
        let ghost before = kept.deep_view();
        proof {
            assert(all.take(i + 1).drop_last() =~= all.take(i as int));
            assert(all.take(i + 1).last() == rows[i as int].deep_view());
        }
        if scalars.eval_predicate(predicate, &rows[i], columns) {
            kept.push(clone_row(&rows[i]));
            assert(kept.deep_view() =~= before.push(rows[i as int].deep_view()));
        }
        i = i + 1;
    }
    assert(all.take(rows.len() as int) =~= all);
    Ok(kept)
}

pub fn key_expr_refs(keys: &Vec<GroupKey>) -> (exprs: Vec<&Expr>)
    ensures
        exprs.deep_view() == key_exprs(keys.deep_view()),
        exprs.len() == keys.len(),
{
    let mut exprs: Vec<&Expr> = Vec::new();
    let mut i: usize = 0;
    while i < keys.len()
        invariant
            i <= keys.len(),
            exprs.len() == i,
            forall|j: int| 0 <= j < i ==> (#[trigger] exprs[j]).deep_view() == keys[j].expr.deep_view(),
        decreases keys.len() - i,
    {
        exprs.push(&keys[i].expr);
        i = i + 1;
    }
    assert(exprs.deep_view() =~= key_exprs(keys.deep_view()));
    exprs
}

pub fn agg_expr_refs(aggregates: &Vec<GroupAgg>) -> (exprs: Vec<&Expr>)
    ensures
        exprs.deep_view() == agg_exprs(aggregates.deep_view()),
        exprs.len() == aggregates.len(),
{
    let mut exprs: Vec<&Expr> = Vec::new();
    let mut i: usize = 0;
    while i < aggregates.len()
        invariant
            i <= aggregates.len(),
            exprs.len() == i,
            forall|j: int|
                0 <= j < i ==> (#[trigger] exprs[j]).deep_view() == aggregates[j].argument.deep_view(),
        decreases aggregates.len() - i,
    {
        exprs.push(&aggregates[i].argument);
        i = i + 1;
    }
    assert(exprs.deep_view() =~= agg_exprs(aggregates.deep_view()));
    exprs
}

fn output_columns(keys: &Vec<GroupKey>, aggregates: &Vec<GroupAgg>) -> (names: Vec<String>)
    ensures
        names.deep_view() == group_columns(keys.deep_view(), aggregates.deep_view()),
{
    let mut names: Vec<String> = Vec::new();
    let ghost all = group_columns(keys.deep_view(), aggregates.deep_view());
    let mut i: usize = 0;
    while i < keys.len()
        invariant
            i <= keys.len(),
            all == group_columns(keys.deep_view(), aggregates.deep_view()),
            names.len() == i,
            forall|j: int| 0 <= j < i ==> (#[trigger] names[j])@ == all[j],
        decreases keys.len() - i,
    {
        names.push(keys[i].output_name.clone());
        i = i + 1;
    }
    i = 0;
    while i < aggregates.len()
        invariant
            i <= aggregates.len(),
            all == group_columns(keys.deep_view(), aggregates.deep_view()),
            names.len() == keys.len() + i,
            forall|j: int| 0 <= j < keys.len() + i ==> (#[trigger] names[j])@ == all[j],
        decreases aggregates.len() - i,
    {
        names.push(aggregates[i].output_name.clone());
        i = i + 1;
    }
    assert(names.deep_view() =~= all);
    names
}

/// The values at `positions`.
pub fn pick_values(values: &Vec<Value>, positions: &Vec<usize>) -> (picked: Vec<Value>)
    requires
        forall|i: int| 0 <= i < positions.len() ==> (#[trigger] positions[i]) < values.len(),
    ensures
        picked.deep_view() == pick(values.deep_view(), ints(positions@)),
        picked.len() == positions.len(),
{
    let mut picked: Vec<Value> = Vec::new();
    let mut i: usize = 0;
    while i < positions.len()
        invariant
            i <= positions.len(),
            picked.len() == i,
            forall|j: int| 0 <= j < positions.len() ==> (#[trigger] positions[j]) < values.len(),
            forall|j: int|
                0 <= j < i ==> (#[trigger] picked[j]).deep_view() == values[positions[j] as int].deep_view(),
        decreases positions.len() - i,
    {
        picked.push(values[positions[i]].clone());
        i = i + 1;
    }
    assert(picked.deep_view() =~= pick(values.deep_view(), ints(positions@)));
    picked
}

fn pick_sources(provenance: &GroupProvenance, source: usize, positions: &Vec<usize>) -> (picked: Vec<
    Option<RowId>,
>)
    requires
        provenance_covers(Some(provenance.deep_view()), provenance.rows.len() as int),
        source < provenance.source_aliases.len(),
        forall|i: int| 0 <= i < positions.len() ==> (#[trigger] positions[i]) < provenance.rows.len(),
    ensures
        picked@ == pick(source_column(provenance.deep_view(), source as int), ints(positions@)),
        picked.len() == positions.len(),
{
    let mut picked: Vec<Option<RowId>> = Vec::new();
    let ghost view = provenance.deep_view();
    let mut i: usize = 0;
    while i < positions.len()
        invariant
            i <= positions.len(),
            picked.len() == i,
            view == provenance.deep_view(),
            provenance_covers(Some(view), provenance.rows.len() as int),
            source < provenance.source_aliases.len(),
            forall|j: int|
                0 <= j < positions.len() ==> (#[trigger] positions[j]) < provenance.rows.len(),
            forall|j: int|
                0 <= j < i ==> #[trigger] picked[j] == view.rows[positions[j] as int][source as int],
        decreases positions.len() - i,
    {
        assert(view.rows[positions[i as int] as int].len() == view.source_aliases.len());
        picked.push(provenance.rows[positions[i]][source]);
        i = i + 1;
    }
    assert(picked@ =~= pick(source_column(view, source as int), ints(positions@)));
    picked
}

/// One aggregate of a group.
fn compute_group_aggregate<
    E: Fn(&Expr, &Vec<Value>, &Vec<String>) -> Value,
    C: Fn(&Value, &Value) -> Order,
    F: Fn(FloatOp) -> u64,
    P: Fn() -> Result<(), QueryError>,
>(
    scalars: &Scalars<E, C, F>,
    agg: &GroupAgg,
    column: &Vec<Value>,
    source: Option<usize>,
    provenance: &Option<GroupProvenance>,
    members: &Vec<usize>,
    budget: &mut Budget,
    poll: &P,
    Ghost(input): Ghost<GroupInput>,
    Ghost(a): Ghost<int>,
) -> (result: Result<Value, QueryError>)
    requires
        scalars.ok(),
        call_requires(*poll, ()),
        0 <= a < input.aggregates.len(),
        agg.deep_view() == input.aggregates[a],
        column.deep_view() == read_column(
            scalars.values(),
            input.aggregates[a].argument,
            input.agg_columns[a],
            input.rows,
            input.columns,
        ),
        at_view(source) == input.agg_sources[a],
        provenance.deep_view() == input.provenance,
        provenance_covers(input.provenance, column.len() as int),
        source matches Some(s) ==> *provenance is Some && s < provenance->0.source_aliases.len(),
        forall|i: int| 0 <= i < members.len() ==> (#[trigger] members[i]) < column.len(),
    ensures
        answered_within(
            result,
            *final(budget),
            group_cell(scalars.model@, input, a, ints(members@), *old(budget)),
            *poll,
        ),
{
    let counting: bool = match agg.function {
        AggFunc::Count => true,
        _ => false,
    };
    if counting && expr_is_star(&agg.argument) {
        return Ok(Value::Int(members.len() as i64));
    }
    let values = pick_values(column, members);
    let sources: Option<Vec<Option<RowId>>> = match source {
        None => None,
        Some(s) => match provenance {
            Some(p) => Some(pick_sources(p, s, members)),
            None => None,
        },
    };
    aggregate_values(scalars, agg.function, &values, &sources, budget, poll)
}

/// Group rows, with or without the stored rows behind them.
#[verifier::spinoff_prover]
#[verifier::rlimit(40)]
pub fn exec_group_by_internal<
    E: Fn(&Expr, &Vec<Value>, &Vec<String>) -> Value,
    C: Fn(&Value, &Value) -> Order,
    F: Fn(FloatOp) -> u64,
    P: Fn() -> Result<(), QueryError>,
>(
    scalars: &Scalars<E, C, F>,
    columns: &Vec<String>,
    rows: &Vec<Vec<Value>>,
    provenance: &Option<GroupProvenance>,
    keys: &Vec<GroupKey>,
    aggregates: &Vec<GroupAgg>,
    having: &Option<Expr>,
    budget: &mut Budget,
    poll: &P,
) -> (result: Result<QueryResult, QueryError>)
    requires
        scalars.ok(),
        call_requires(*poll, ()),
        provenance_covers(provenance.deep_view(), rows.len() as int),
    ensures
        answered_within(
            result,
            *final(budget),
            group_by_of(
                scalars.model@,
                columns.deep_view(),
                rows.deep_view(),
                provenance.deep_view(),
                keys.deep_view(),
                aggregates.deep_view(),
                having.deep_view(),
                *old(budget),
            ),
            *poll,
        ),
{
    let key_refs = key_expr_refs(keys);
    let key_ats = resolve_columns(&key_refs, columns)?;
    let agg_refs = agg_expr_refs(aggregates);
    let agg_ats = resolve_columns(&agg_refs, columns)?;
    let sources = resolve_agg_sources(aggregates, provenance)?;
    check_reach(rows, &key_ats)?;
    check_reach(rows, &agg_ats)?;
    let ghost model = scalars.model@;
    let ghost input = GroupInput {
        columns: columns.deep_view(),
        rows: rows.deep_view(),
        aggregates: aggregates.deep_view(),
        agg_columns: ats_view(agg_ats@),
        agg_sources: ats_view(sources@),
        provenance: provenance.deep_view(),
    };
    let row_keys = read_keys(scalars, &key_refs, &key_ats, rows, columns, poll)?;
    let ghost all_keys = row_keys.deep_view();
    let ghost groups = firsts(all_keys).len() as int;
    let (table, members) = group_positions(&row_keys);
    let names = output_columns(keys, aggregates);
    let mut agg_values: Vec<Vec<Value>> = Vec::new();
    let mut a: usize = 0;
    while a < aggregates.len()
        invariant
            scalars.ok(),
            call_requires(*poll, ()),
            a <= aggregates.len(),
            agg_ats.len() == aggregates.len(),
            input.columns == columns.deep_view(),
            input.rows == rows.deep_view(),
            input.aggregates == aggregates.deep_view(),
            input.agg_columns == ats_view(agg_ats@),
            rows_reach(rows.deep_view(), ats_view(agg_ats@)),
            agg_values.len() == a,
            forall|j: int|
                0 <= j < a ==> (#[trigger] agg_values[j]).deep_view() == read_column(
                    scalars.values(),
                    input.aggregates[j].argument,
                    input.agg_columns[j],
                    input.rows,
                    input.columns,
                ) && agg_values[j].len() == rows.len(),
        decreases aggregates.len() - a,
    {
        proof {
            let places = ats_view(agg_ats@);
            assert(places[a as int] == at_view(agg_ats[a as int]));
            assert(rows_reach(rows.deep_view(), seq![at_view(agg_ats[a as int])]));
        }
        let values = read_values(
            scalars,
            &aggregates[a].argument,
            agg_ats[a],
            rows,
            columns,
            poll,
        )?;
        agg_values.push(values);
        a = a + 1;
    }
    let ghost start = *budget;
    let ghost expected = group_by_of(
        model,
        columns.deep_view(),
        rows.deep_view(),
        provenance.deep_view(),
        keys.deep_view(),
        aggregates.deep_view(),
        having.deep_view(),
        start,
    );
    let mut out: Vec<Vec<Value>> = Vec::new();
    let mut g: usize = 0;
    assert(out.deep_view() =~= Seq::<Seq<ValueView>>::empty());
    while g < members.len()
        invariant
            scalars.ok(),
            call_requires(*poll, ()),
            model == scalars.model@,
            g <= members.len(),
            start == *old(budget),
            group_rows(model, input, all_keys, groups, start) matches Err(e) ==> expected == Err::<
                (ResultView, Budget),
                ErrorView,
            >(e),
            expected == group_by_of(
                model,
                columns.deep_view(),
                rows.deep_view(),
                provenance.deep_view(),
                keys.deep_view(),
                aggregates.deep_view(),
                having.deep_view(),
                start,
            ),
            table@ == firsts(all_keys),
            all_keys == row_keys.deep_view(),
            row_keys.len() == rows.len(),
            members.len() == table@.len(),
            groups == table@.len(),
            sources.len() == aggregates.len(),
            agg_ats.len() == aggregates.len(),
            agg_values.len() == aggregates.len(),
            input.aggregates == aggregates.deep_view(),
            input.agg_columns == ats_view(agg_ats@),
            input.agg_sources == ats_view(sources@),
            input.provenance == provenance.deep_view(),
            provenance_covers(input.provenance, rows.len() as int),
            forall|i: int|
                0 <= i < members.len() ==> ints((#[trigger] members[i])@) == positions_of(
                    all_keys,
                    table@[i],
                ),
            forall|j: int|
                0 <= j < aggregates.len() ==> (#[trigger] agg_values[j]).deep_view() == read_column(
                    scalars.values(),
                    input.aggregates[j].argument,
                    input.agg_columns[j],
                    input.rows,
                    input.columns,
                ) && agg_values[j].len() == rows.len(),
            forall|i: int|
                0 <= i < sources.len() ==> (#[trigger] sources[i] matches Some(c) ==> *provenance is Some
                    && c < provenance->0.source_aliases.len()),
            group_rows(model, input, all_keys, g as int, start) == Ok::<
                (Seq<Seq<ValueView>>, Budget),
                ErrorView,
            >((out.deep_view(), *budget)),
        decreases members.len() - g,
    {
        poll()?;
        let ghost key = table@[g as int];
        let ghost places = positions_of(all_keys, key);
        let ghost held = *budget;
        let mut row = table.key(g);
        let mut a: usize = 0;
        proof {
            positions_are_positions(all_keys, key);
            assert forall|i: int| 0 <= i < members[g as int].len() implies (#[trigger] members[g as int][i])
                < rows.len() by {
                assert(ints(members[g as int]@)[i] == places[i]);
            }
        }
        while a < aggregates.len()
            invariant
                scalars.ok(),
            call_requires(*poll, ()),
                model == scalars.model@,
                g < members.len(),
                a <= aggregates.len(),
                key == table@[g as int],
                ints(members[g as int]@) == places,
                forall|i: int|
                    0 <= i < members[g as int].len() ==> (#[trigger] members[g as int][i]) < rows.len(),
                sources.len() == aggregates.len(),
                agg_ats.len() == aggregates.len(),
                agg_values.len() == aggregates.len(),
                input.aggregates == aggregates.deep_view(),
                input.agg_columns == ats_view(agg_ats@),
                input.agg_sources == ats_view(sources@),
                input.provenance == provenance.deep_view(),
                provenance_covers(input.provenance, rows.len() as int),
                forall|j: int|
                    0 <= j < aggregates.len() ==> (#[trigger] agg_values[j]).deep_view() == read_column(
                        scalars.values(),
                        input.aggregates[j].argument,
                        input.agg_columns[j],
                        input.rows,
                        input.columns,
                    ) && agg_values[j].len() == rows.len(),
                forall|i: int|
                    0 <= i < sources.len() ==> (#[trigger] sources[i] matches Some(c) ==> *provenance
                        is Some && c < provenance->0.source_aliases.len()),
                group_rows(model, input, all_keys, g as int, start) == Ok::<
                    (Seq<Seq<ValueView>>, Budget),
                    ErrorView,
                >((out.deep_view(), held)),
                table@ == firsts(all_keys),
                places == positions_of(all_keys, key),
                groups == table@.len(),
                members.len() == table@.len(),
                start == *old(budget),
                group_rows(model, input, all_keys, groups, start) matches Err(e) ==> expected == Err::<
                    (ResultView, Budget),
                    ErrorView,
                >(e),
                expected == group_by_of(
                    model,
                    columns.deep_view(),
                    rows.deep_view(),
                    provenance.deep_view(),
                    keys.deep_view(),
                    aggregates.deep_view(),
                    having.deep_view(),
                    start,
                ),
                group_row(model, input, key, places, a as int, held) == Ok::<
                    (Seq<ValueView>, Budget),
                    ErrorView,
                >((row.deep_view(), *budget)),
            decreases aggregates.len() - a,
        {
            match compute_group_aggregate(
                scalars,
                &aggregates[a],
                &agg_values[a],
                sources[a],
                provenance,
                &members[g],
                budget,
                poll,
                Ghost(input),
                Ghost(a as int),
            ) {
                Ok(value) => {
                    let ghost before = row.deep_view();
                    let ghost shown = value.deep_view();
                    row.push(value);
                    assert(row.deep_view() =~= before.push(shown));
                },
                Err(error) => {
                    proof {
                        if group_row(model, input, key, places, a + 1, held) is Err {
                            group_row_error_stays(
                                model,
                                input,
                                key,
                                places,
                                a + 1,
                                aggregates.len() as int,
                                held,
                            );
                            group_rows_error_stays(model, input, all_keys, g + 1, groups, start);
                        }
                    }
                    return Err(error);
                },
            }
            a = a + 1;
        }
        let ghost before = out.deep_view();
        let ghost shown = row.deep_view();
        out.push(row);
        assert(out.deep_view() =~= before.push(shown));
        g = g + 1;
    }
    let kept = match having {
        Some(predicate) => filter_rows(scalars, predicate, out, &names, poll)?,
        None => out,
    };
    Ok(QueryResult::Rows { columns: names, rows: kept })
}

/// Group rows.
pub fn exec_group_by<
    E: Fn(&Expr, &Vec<Value>, &Vec<String>) -> Value,
    C: Fn(&Value, &Value) -> Order,
    F: Fn(FloatOp) -> u64,
    P: Fn() -> Result<(), QueryError>,
>(
    scalars: &Scalars<E, C, F>,
    columns: &Vec<String>,
    rows: &Vec<Vec<Value>>,
    keys: &Vec<GroupKey>,
    aggregates: &Vec<GroupAgg>,
    having: &Option<Expr>,
    poll: &P,
) -> (result: Result<QueryResult, QueryError>)
    requires
        scalars.ok(),
        call_requires(*poll, ()),
    ensures
        answered(
            result,
            without_budget(
                group_by_of(
                    scalars.model@,
                    columns.deep_view(),
                    rows.deep_view(),
                    None,
                    keys.deep_view(),
                    aggregates.deep_view(),
                    having.deep_view(),
                    no_budget(),
                ),
            ),
            *poll,
        ),
{
    let mut budget = Budget { used: 0, limit: 0 };
    exec_group_by_internal(
        scalars,
        columns,
        rows,
        &None,
        keys,
        aggregates,
        having,
        &mut budget,
        poll,
    )
}

/// The answer alone.
pub open spec fn without_budget(result: Result<(ResultView, Budget), ErrorView>) -> Result<
    ResultView,
    ErrorView,
> {
    match result {
        Ok((answer, _)) => Ok(answer),
        Err(error) => Err(error),
    }
}

/// Group rows of a join, with each source row of a symmetric aggregate counted
/// once.
pub fn exec_group_by_with_provenance<
    E: Fn(&Expr, &Vec<Value>, &Vec<String>) -> Value,
    C: Fn(&Value, &Value) -> Order,
    F: Fn(FloatOp) -> u64,
    P: Fn() -> Result<(), QueryError>,
>(
    scalars: &Scalars<E, C, F>,
    input: ProvenanceRows,
    keys: &Vec<GroupKey>,
    aggregates: &Vec<GroupAgg>,
    having: &Option<Expr>,
    budget: &mut Budget,
    poll: &P,
) -> (result: Result<QueryResult, QueryError>)
    requires
        scalars.ok(),
        call_requires(*poll, ()),
        input.deep_view().wf(),
    ensures
        answered_within(
            result,
            *final(budget),
            group_by_of(
                scalars.model@,
                input.columns.deep_view(),
                input.rows.deep_view(),
                Some(group_provenance(input.deep_view())),
                keys.deep_view(),
                aggregates.deep_view(),
                having.deep_view(),
                *old(budget),
            ),
            *poll,
        ),
{
    let ProvenanceRows { columns, rows, source_aliases, provenance } = input;
    let provenance = Some(GroupProvenance { source_aliases, rows: provenance });
    exec_group_by_internal(
        scalars,
        &columns,
        &rows,
        &provenance,
        keys,
        aggregates,
        having,
        budget,
        poll,
    )
}

/// The stored rows behind the rows of a join.
pub open spec fn group_provenance(input: ProvenanceView) -> GroupProvenanceView {
    GroupProvenanceView { source_aliases: input.source_aliases, rows: input.provenance }
}

/// Grouping parts its rows: each row is in the group of its key, and in no other.
pub proof fn groups_part_rows(keys: Seq<Seq<ValueView>>, row: int) -> (group: int)
    requires
        0 <= row < keys.len(),
    ensures
        0 <= group < firsts(keys).len(),
        positions_of(keys, firsts(keys)[group]).contains(row),
        forall|other: int|
            0 <= other < firsts(keys).len() && #[trigger] positions_of(
                keys,
                firsts(keys)[other],
            ).contains(row) ==> other == group,
{
    firsts_are_distinct(keys);
    assert(keys.contains(keys[row]));
    let group = choose|g: int| 0 <= g < firsts(keys).len() && firsts(keys)[g] == keys[row];
    positions_are_positions(keys, keys[row]);
    assert forall|other: int|
        0 <= other < firsts(keys).len() && #[trigger] positions_of(
            keys,
            firsts(keys)[other],
        ).contains(row) implies other == group by {
        positions_are_positions(keys, firsts(keys)[other]);
        let at = positions_of(keys, firsts(keys)[other]);
        let i = choose|i: int| 0 <= i < at.len() && at[i] == row;
        assert(keys[at[i]] == firsts(keys)[other]);
    }
    group
}

/// Where a column is read in place of an expression, the expression is the bare
/// name of that column, and every row has a value for each column.
pub open spec fn reads_by_name(
    eval: EvalModel,
    expr: ExprView,
    at: Option<int>,
    rows: Seq<Seq<ValueView>>,
    columns: Seq<Seq<char>>,
) -> bool {
    at is Some ==> reads_columns(eval) && rows_match(rows, columns) && (expr matches ExprView::Field(
        name,
    ) && name_position(columns, name) == at)
}

/// A column that is read by its name is what the name evaluates to.
pub proof fn names_read_their_columns(
    eval: EvalModel,
    expr: ExprView,
    at: Option<int>,
    rows: Seq<Seq<ValueView>>,
    columns: Seq<Seq<char>>,
)
    requires
        reads_by_name(eval, expr, at, rows, columns),
    ensures
        read_column(eval, expr, at, rows, columns) == evaluated(eval, expr, rows, columns),
{
    let read = read_column(eval, expr, at, rows, columns);
    let values = evaluated(eval, expr, rows, columns);
    assert forall|i: int| 0 <= i < rows.len() implies read[i] == values[i] by {
        assert(rows[i] == rows[i]);
        match at {
            Some(c) => {
                assert(rows[i].len() == columns.len());
                assert(eval(expr, rows[i], columns) == rows[i][c]);
            },
            None => {},
        }
    }
    assert(read =~= values);
}

/// An aggregate of a group is the scalar aggregate over the rows of the group:
/// the same value or the same error, and nothing is taken of the budget.
pub proof fn grouped_agrees_with_scalar(
    model: ScalarModel,
    input: GroupInput,
    a: int,
    members: Seq<int>,
    budget: Budget,
)
    requires
        0 <= a < input.aggregates.len(),
        input.agg_sources[a] is None,
        reads_by_name(
            model.eval,
            input.aggregates[a].argument,
            input.agg_columns[a],
            input.rows,
            input.columns,
        ),
        forall|k: int| 0 <= k < members.len() ==> 0 <= #[trigger] members[k] < input.rows.len(),
    ensures
        match (
            group_cell(model, input, a, members, budget),
            aggregate_rows_of(
                model,
                input.aggregates[a].function,
                Some(input.aggregates[a].argument),
                input.columns,
                pick(input.rows, members),
            ),
        ) {
            (Ok((value, left)), Ok(result)) => result == ResultView::Scalar(value) && left
                == budget,
            (Err(error), Err(other)) => error == other,
            _ => false,
        },
{
    let agg = input.aggregates[a];
    let rows = pick(input.rows, members);
    if !(agg.function is Count && is_star(agg.argument)) {
        names_read_their_columns(
            model.eval,
            agg.argument,
            input.agg_columns[a],
            input.rows,
            input.columns,
        );
        let values = evaluated(model.eval, agg.argument, rows, input.columns);
        assert(values =~= pick(
            read_column(
                model.eval,
                agg.argument,
                input.agg_columns[a],
                input.rows,
                input.columns,
            ),
            members,
        ));
        let taken = contributions(values, None, values.len() as int);
        let label = agg_label(agg.function);
        free_totals_agree(model.float, label, true, taken, budget, no_budget());
        free_totals_agree(model.float, label, false, taken, budget, no_budget());
    }
}

} // verus!
