//! The operators that pass rows on: projection, order, slices, distinct rows
//! and unions, and what is told of the catalog.

use vstd::prelude::*;

use crate::aggregate::{provenance_view, type_label, type_label_text, RowId};
use crate::catalog::{Catalog, CatalogView, ColumnDefView};
use crate::coerce::prefixed;
use crate::error::{
    no_column_error, outcome, Budget, ErrorView, QueryError, QueryResult, ResultView,
};
use crate::explain::{format_plan_tree, indent_of, tree_text};
use crate::expr::{sort_keys_view, Expr, ExprView, SortKey, SortKeyView};
use crate::group::{
    at_view, ats_view, group_column, ints, keys_of, pick, qualified, qualified_name, read_keys,
    resolve_group_column, rows_reach,
};
use crate::index::slice;
use crate::join::clone_sources;
use crate::keys::KeyTable;
use crate::ordering::{row_order, sort_by_keys, sorted_positions};
use crate::plan::{PlanNode, PlanView, ProjectField, ProjectFieldView};
use crate::scalars::{is_true, EvalModel, FloatOp, Order, ScalarModel, Scalars};
use crate::seqs::{firsts, firsts_are_distinct};
use crate::session::answered;
use crate::sort::{saturating_scratch, sort_charge, sorts};
use crate::text::{lines, lines_of};
use crate::value::{clone_row, Value, ValueView};
use crate::window::{order_exprs, pick_rows, sort_key_refs};
use crate::wording::{words, Subject, SubjectView, Wording, WordingModel};

verus! {

/// The name of a projected column: its alias, else the name of the column or of
/// the qualified column, else `otherwise`.
pub open spec fn output_name(field: ProjectFieldView, otherwise: Seq<char>) -> Seq<char> {
    match field.alias {
        Some(alias) => alias,
        None => match field.expr {
            ExprView::Field(name) => name,
            ExprView::QualifiedField { qualifier, field } => qualified(qualifier, field),
            _ => otherwise,
        },
    }
}

/// The names of projected columns; a computed one is called `?`.
pub open spec fn output_names(fields: Seq<ProjectFieldView>) -> Seq<Seq<char>> {
    Seq::new(fields.len(), |i: int| output_name(fields[i], "?"@))
}

/// The names of projected columns; a computed one is called by its words.
pub open spec fn worded_names(words_of: WordingModel, fields: Seq<ProjectFieldView>) -> Seq<
    Seq<char>,
> {
    Seq::new(
        fields.len(),
        |i: int| output_name(fields[i], words(words_of, SubjectView::Name(fields[i].expr))),
    )
}

fn name_field(field: &ProjectField) -> (name: Option<String>)
    ensures
        match name {
            Some(text) => forall|otherwise: Seq<char>| #[trigger]
                output_name(field.deep_view(), otherwise) == text@,
            None => forall|otherwise: Seq<char>| #[trigger]
                output_name(field.deep_view(), otherwise) == otherwise,
        },
{
    match &field.alias {
        Some(alias) => Some(alias.clone()),
        None => match &field.expr {
            Expr::Field(name) => Some(name.clone()),
            Expr::QualifiedField { qualifier, field } => Some(qualified_name(qualifier, field)),
            _ => None,
        },
    }
}

/// Name projected columns; a computed one is called `?`.
pub fn name_fields(fields: &Vec<ProjectField>) -> (names: Vec<String>)
    ensures
        names.deep_view() == output_names(fields.deep_view()),
        names.len() == fields.len(),
{
    let ghost views = fields.deep_view();
    let mut names: Vec<String> = Vec::new();
    let mut i: usize = 0;
    while i < fields.len()
        invariant
            i <= fields.len(),
            views == fields.deep_view(),
            names.len() == i,
            forall|j: int| 0 <= j < i ==> (#[trigger] names[j])@ == output_name(views[j], "?"@),
        decreases fields.len() - i,
    {
        assert(views[i as int] == fields[i as int].deep_view());
        let name = match name_field(&fields[i]) {
            Some(name) => name,
            None => "?".to_owned(),
        };
        assert(name@ == output_name(views[i as int], "?"@));
        names.push(name);
        i = i + 1;
    }
    assert(names.deep_view() =~= output_names(views));
    names
}

/// Name projected columns; a computed one is called by its words.
pub fn word_fields<T: Fn(Subject) -> Option<String>>(
    wording: &Wording<T>,
    fields: &Vec<ProjectField>,
) -> (names: Vec<String>)
    requires
        wording.ok(),
    ensures
        names.deep_view() == worded_names(wording.model@, fields.deep_view()),
        names.len() == fields.len(),
{
    let ghost views = fields.deep_view();
    let mut names: Vec<String> = Vec::new();
    let mut i: usize = 0;
    while i < fields.len()
        invariant
            wording.ok(),
            i <= fields.len(),
            views == fields.deep_view(),
            names.len() == i,
            forall|j: int|
                0 <= j < i ==> (#[trigger] names[j])@ == output_name(
                    views[j],
                    words(wording.model@, SubjectView::Name(views[j].expr)),
                ),
        decreases fields.len() - i,
    {
        assert(views[i as int] == fields[i as int].deep_view());
        let name = match name_field(&fields[i]) {
            Some(name) => name,
            None => wording.word(Subject::Name(&fields[i].expr)),
        };
        assert(name@ == output_name(
            views[i as int],
            words(wording.model@, SubjectView::Name(views[i as int].expr)),
        ));
        names.push(name);
        i = i + 1;
    }
    assert(names.deep_view() =~= worded_names(wording.model@, views));
    names
}

/// A row projected.
pub open spec fn projected_row(
    eval: EvalModel,
    fields: Seq<ProjectFieldView>,
    row: Seq<ValueView>,
    columns: Seq<Seq<char>>,
) -> Seq<ValueView> {
    Seq::new(fields.len(), |i: int| eval(fields[i].expr, row, columns))
}

/// Rows projected.
pub open spec fn projection(
    eval: EvalModel,
    fields: Seq<ProjectFieldView>,
    rows: Seq<Seq<ValueView>>,
    columns: Seq<Seq<char>>,
) -> Seq<Seq<ValueView>> {
    Seq::new(rows.len(), |r: int| projected_row(eval, fields, rows[r], columns))
}

fn project_row<
    E: Fn(&Expr, &Vec<Value>, &Vec<String>) -> Value,
    C: Fn(&Value, &Value) -> Order,
    F: Fn(FloatOp) -> u64,
>(
    scalars: &Scalars<E, C, F>,
    fields: &Vec<ProjectField>,
    row: &Vec<Value>,
    columns: &Vec<String>,
) -> (values: Vec<Value>)
    requires
        scalars.ok(),
    ensures
        values.deep_view() == projected_row(
            scalars.values(),
            fields.deep_view(),
            row.deep_view(),
            columns.deep_view(),
        ),
{
    let ghost views = fields.deep_view();
    let mut values: Vec<Value> = Vec::new();
    let mut i: usize = 0;
    while i < fields.len()
        invariant
            scalars.ok(),
            i <= fields.len(),
            views == fields.deep_view(),
            values.len() == i,
            forall|j: int|
                0 <= j < i ==> (#[trigger] values[j]).deep_view() == (scalars.values())(
                    views[j].expr,
                    row.deep_view(),
                    columns.deep_view(),
                ),
        decreases fields.len() - i,
    {
        assert(views[i as int] == fields[i as int].deep_view());
        values.push(scalars.eval_expr(&fields[i].expr, row, columns));
        i = i + 1;
    }
    assert(values.deep_view() =~= projected_row(
        scalars.values(),
        views,
        row.deep_view(),
        columns.deep_view(),
    ));
    values
}

/// Project rows.
pub fn project_rows<
    E: Fn(&Expr, &Vec<Value>, &Vec<String>) -> Value,
    C: Fn(&Value, &Value) -> Order,
    F: Fn(FloatOp) -> u64,
    P: Fn() -> Result<(), QueryError>,
>(
    scalars: &Scalars<E, C, F>,
    fields: &Vec<ProjectField>,
    rows: &Vec<Vec<Value>>,
    columns: &Vec<String>,
    poll: &P,
) -> (projected: Result<Vec<Vec<Value>>, QueryError>)
    requires
        scalars.ok(),
        call_requires(*poll, ()),
    ensures
        answered(
            projected,
            Ok(
                projection(
                    scalars.values(),
                    fields.deep_view(),
                    rows.deep_view(),
                    columns.deep_view(),
                ),
            ),
            *poll,
        ),
{
    let ghost all = rows.deep_view();
    let ghost views = fields.deep_view();
    let ghost cols = columns.deep_view();
    let mut out: Vec<Vec<Value>> = Vec::new();
    let mut i: usize = 0;
    while i < rows.len()
        invariant
            scalars.ok(),
            call_requires(*poll, ()),
            i <= rows.len(),
            all == rows.deep_view(),
            views == fields.deep_view(),
            cols == columns.deep_view(),
            out.len() == i,
            forall|j: int|
                0 <= j < i ==> (#[trigger] out[j]).deep_view() == projected_row(
                    scalars.values(),
                    views,
                    all[j],
                    cols,
                ),
        decreases rows.len() - i,
    {
        match poll() {
            Ok(_) => {},
            Err(error) => {
                return Err(error);
            },
        }
        out.push(project_row(scalars, fields, &rows[i], columns));
        i = i + 1;
    }
    assert(out.deep_view() =~= projection(scalars.values(), views, all, cols));
    Ok(out)
}

/// What a projection answers.
pub open spec fn project_answer(
    eval: EvalModel,
    fields: Seq<ProjectFieldView>,
    input: ResultView,
) -> Result<ResultView, ErrorView> {
    match input {
        ResultView::Rows { columns, rows } => Ok(
            ResultView::Rows {
                columns: output_names(fields),
                rows: projection(eval, fields, rows, columns),
            },
        ),
        _ => Err(ErrorView::Execution("project requires row input"@)),
    }
}

/// The positions, from `i` on, of the rows on which `predicate` holds.
pub open spec fn holding_from(
    eval: EvalModel,
    predicate: ExprView,
    rows: Seq<Seq<ValueView>>,
    columns: Seq<Seq<char>>,
    i: int,
) -> Seq<int>
    decreases rows.len() - i,
{
    if i < 0 || i >= rows.len() {
        Seq::empty()
    } else {
        let rest = holding_from(eval, predicate, rows, columns, i + 1);
        if is_true(eval(predicate, rows[i], columns)) {
            seq![i] + rest
        } else {
            rest
        }
    }
}

/// The positions of the rows on which `predicate` holds.
pub fn holding_positions<
    E: Fn(&Expr, &Vec<Value>, &Vec<String>) -> Value,
    C: Fn(&Value, &Value) -> Order,
    F: Fn(FloatOp) -> u64,
    P: Fn() -> Result<(), QueryError>,
>(
    scalars: &Scalars<E, C, F>,
    predicate: &Expr,
    rows: &Vec<Vec<Value>>,
    columns: &Vec<String>,
    poll: &P,
) -> (positions: Result<Vec<usize>, QueryError>)
    requires
        scalars.ok(),
        call_requires(*poll, ()),
    ensures
        match positions {
            Ok(at) => ints(at@) == holding_from(
                scalars.values(),
                predicate.deep_view(),
                rows.deep_view(),
                columns.deep_view(),
                0,
            ) && forall|j: int| 0 <= j < at.len() ==> #[trigger] at[j] < rows.len(),
            Err(error) => call_ensures(*poll, (), Err(error)),
        },
{
    let ghost all = rows.deep_view();
    let ghost view = predicate.deep_view();
    let ghost cols = columns.deep_view();
    let ghost eval = scalars.values();
    let ghost goal = holding_from(eval, view, all, cols, 0);
    let mut at: Vec<usize> = Vec::new();
    let mut i: usize = 0;
    assert(ints(at@) + goal =~= goal);
    while i < rows.len()
        invariant
            scalars.ok(),
            call_requires(*poll, ()),
            i <= rows.len(),
            all == rows.deep_view(),
            view == predicate.deep_view(),
            cols == columns.deep_view(),
            eval == scalars.values(),
            goal == ints(at@) + holding_from(eval, view, all, cols, i as int),
            forall|j: int| 0 <= j < at.len() ==> #[trigger] at[j] < i,
        decreases rows.len() - i,
    {
        match poll() {
            Ok(_) => {},
            Err(error) => {
                return Err(error);
            },
        }
        assert(all[i as int] == rows[i as int].deep_view());
        if scalars.eval_predicate(predicate, &rows[i], columns) {
            let ghost before = ints(at@);
            let ghost rest = holding_from(eval, view, all, cols, i + 1);
            at.push(i);
            assert(ints(at@) =~= before.push(i as int));
            assert(before + (seq![i as int] + rest) =~= before.push(i as int) + rest);
        }
        i = i + 1;
    }
    assert(ints(at@) + Seq::<int>::empty() =~= ints(at@));
    Ok(at)
}

/// The positions, from `i` on, of the rows that repeat no row before them.
pub open spec fn fresh_from(rows: Seq<Seq<ValueView>>, i: int) -> Seq<int>
    decreases rows.len() - i,
{
    if i < 0 || i >= rows.len() {
        Seq::empty()
    } else {
        let rest = fresh_from(rows, i + 1);
        if rows.take(i).contains(rows[i]) {
            rest
        } else {
            seq![i] + rest
        }
    }
}

/// The positions of the rows that repeat no row before them.
pub fn fresh_positions<P: Fn() -> Result<(), QueryError>>(
    rows: &Vec<Vec<Value>>,
    poll: &P,
) -> (positions: Result<Vec<usize>, QueryError>)
    requires
        call_requires(*poll, ()),
    ensures
        match positions {
            Ok(at) => ints(at@) == fresh_from(rows.deep_view(), 0) && forall|j: int|
                0 <= j < at.len() ==> #[trigger] at[j] < rows.len(),
            Err(error) => call_ensures(*poll, (), Err(error)),
        },
{
    let ghost all = rows.deep_view();
    let mut table = KeyTable::new();
    let ghost goal = fresh_from(all, 0);
    let mut at: Vec<usize> = Vec::new();
    let mut i: usize = 0;
    proof {
        assert(ints(at@) + goal =~= goal);
        assert(all.take(0) =~= Seq::<Seq<ValueView>>::empty());
    }
    while i < rows.len()
        invariant
            call_requires(*poll, ()),
            i <= rows.len(),
            all == rows.deep_view(),
            table.wf(),
            forall|row: Seq<ValueView>| #[trigger]
                table@.contains(row) <==> all.take(i as int).contains(row),
            goal == ints(at@) + fresh_from(all, i as int),
            forall|j: int| 0 <= j < at.len() ==> #[trigger] at[j] < i,
        decreases rows.len() - i,
    {
        match poll() {
            Ok(_) => {},
            Err(error) => {
                return Err(error);
            },
        }
        let ghost row = all[i as int];
        assert(row == rows[i as int].deep_view());
        let ghost held = table@;
        let count: usize = table.len();
        let number: usize = table.find_or_insert(clone_row(&rows[i]));
        if table.len() > count {
            assert(!held.contains(row));
            let ghost before = ints(at@);
            let ghost rest = fresh_from(all, i + 1);
            at.push(i);
            assert(ints(at@) =~= before.push(i as int));
            assert(before + (seq![i as int] + rest) =~= before.push(i as int) + rest);
        } else {
            assert(held.contains(row));
        }
        proof {
            assert(all.take(i + 1) =~= all.take(i as int).push(row));
            contains_after_push(all.take(i as int), row);
            contains_after_push(held, row);
        }
        i = i + 1;
    }
    assert(ints(at@) + Seq::<int>::empty() =~= ints(at@));
    Ok(at)
}

/// Pushing an element adds it, and it alone.
pub proof fn contains_after_push<A>(s: Seq<A>, x: A)
    ensures
        forall|y: A| #[trigger] s.push(x).contains(y) <==> s.contains(y) || y == x,
{
    assert forall|y: A| #[trigger] s.push(x).contains(y) <==> s.contains(y) || y == x by {
        if s.contains(y) {
            let i = choose|i: int| 0 <= i < s.len() && s[i] == y;
            assert(s.push(x)[i] == y);
        }
        if y == x {
            assert(s.push(x)[s.len() as int] == y);
        }
        if s.push(x).contains(y) {
            let i = choose|i: int| 0 <= i < s.push(x).len() && s.push(x)[i] == y;
            if i < s.len() {
                assert(s[i] == y);
            }
        }
    }
}

/// Distinct rows are the rows without those that repeat an earlier one, in the
/// order in which they first appear.
pub proof fn distinct_keeps_firsts(rows: Seq<Seq<ValueView>>)
    ensures
        pick(rows, fresh_from(rows, 0)) == firsts(rows),
{
    distinct_from(rows, rows.len() as int);
    assert(rows.take(rows.len() as int) =~= rows);
}

proof fn distinct_from(rows: Seq<Seq<ValueView>>, n: int)
    requires
        0 <= n <= rows.len(),
    ensures
        pick(rows.take(n), fresh_from(rows.take(n), 0)) == firsts(rows.take(n)),
    decreases n,
{
    let none = Seq::<Seq<ValueView>>::empty();
    if n > 0 {
        let now = rows.take(n);
        let before = rows.take(n - 1);
        distinct_from(rows, n - 1);
        assert(now.drop_last() =~= before);
        assert(now.last() == rows[n - 1]);
        fresh_in_prefix(now, 0);
        firsts_are_distinct(before);
        let at = fresh_from(before, 0);
        fresh_in_range(before, 0);
        assert(now.take(n - 1) =~= before);
        if before.contains(rows[n - 1]) {
            assert(pick(now, at) =~= pick(before, at));
        } else {
            assert(pick(now, at.push(n - 1)) =~= pick(before, at).push(rows[n - 1]));
        }
    } else {
        assert(rows.take(0) =~= none);
        assert(pick(none, fresh_from(none, 0)) =~= firsts(none));
    }
}

proof fn fresh_in_range(rows: Seq<Seq<ValueView>>, i: int)
    requires
        0 <= i,
    ensures
        forall|j: int|
            0 <= j < fresh_from(rows, i).len() ==> i <= #[trigger] fresh_from(rows, i)[j]
                < rows.len(),
    decreases rows.len() - i,
{
    if i < rows.len() {
        fresh_in_range(rows, i + 1);
        let rest = fresh_from(rows, i + 1);
        let all = fresh_from(rows, i);
        assert forall|j: int| 0 <= j < all.len() implies i <= #[trigger] all[j] < rows.len() by {
            if all.len() == rest.len() {
                assert(all[j] == rest[j]);
            } else if j > 0 {
                assert(all[j] == rest[j - 1]);
            }
        }
    }
}

proof fn fresh_in_prefix(rows: Seq<Seq<ValueView>>, i: int)
    requires
        0 <= i < rows.len(),
    ensures
        fresh_from(rows, i) == fresh_from(rows.drop_last(), i) + (if rows.drop_last().contains(
            rows.last(),
        ) {
            Seq::<int>::empty()
        } else {
            seq![rows.len() - 1]
        }),
    decreases rows.len() - i,
{
    let less = rows.drop_last();
    let n = rows.len();
    let tail = if less.contains(rows.last()) {
        Seq::<int>::empty()
    } else {
        seq![n - 1]
    };
    if i == n - 1 {
        assert(rows.take(n - 1) =~= less);
        assert(fresh_from(rows, i + 1) =~= Seq::<int>::empty());
        assert(fresh_from(less, i) =~= Seq::<int>::empty());
        assert(fresh_from(rows, i) =~= Seq::<int>::empty() + tail);
    } else {
        fresh_in_prefix(rows, i + 1);
        assert(less.take(i) =~= rows.take(i));
        let a = fresh_from(less, i + 1);
        assert(seq![i] + (a + tail) =~= (seq![i] + a) + tail);
    }
}

/// What a union answers: the rows of the left side and then those of the right;
/// unless all are asked for, without those that repeat an earlier one.
pub open spec fn union_rows(left: Seq<Seq<ValueView>>, right: Seq<Seq<ValueView>>, all: bool) -> Seq<
    Seq<ValueView>,
> {
    let both = left + right;
    if all {
        both
    } else {
        pick(both, fresh_from(both, 0))
    }
}

/// A union that does not take all answers no two equal rows, answers a row if
/// and only if one of its sides has it, and keeps the order in which rows first
/// appear.
pub proof fn union_answers_each_row_once(
    left: Seq<Seq<ValueView>>,
    right: Seq<Seq<ValueView>>,
)
    ensures
        union_rows(left, right, false).no_duplicates(),
        forall|row: Seq<ValueView>| #[trigger]
            union_rows(left, right, false).contains(row) <==> left.contains(row) || right.contains(
                row,
            ),
        union_rows(left, right, false) == firsts(left + right),
{
    let both = left + right;
    distinct_keeps_firsts(both);
    firsts_are_distinct(both);
    assert forall|row: Seq<ValueView>| both.contains(row) <==> left.contains(row)
        || right.contains(row) by {
        if left.contains(row) {
            let i = choose|i: int| 0 <= i < left.len() && left[i] == row;
            assert(both[i] == row);
        }
        if right.contains(row) {
            let i = choose|i: int| 0 <= i < right.len() && right[i] == row;
            assert(both[left.len() + i] == row);
        }
    }
}

/// What a union of two results answers, under the columns of the left side.
pub open spec fn union_answer(left: ResultView, right: ResultView, all: bool) -> Result<
    ResultView,
    ErrorView,
> {
    match left {
        ResultView::Rows { columns, rows } => match right {
            ResultView::Rows { columns: _, rows: more } => Ok(
                ResultView::Rows { columns, rows: union_rows(rows, more, all) },
            ),
            _ => Err(ErrorView::Execution("UNION requires query results on right side"@)),
        },
        _ => Err(ErrorView::Execution("UNION requires query results on left side"@)),
    }
}

/// `rows` and `more` after them.
pub fn append_rows<P: Fn() -> Result<(), QueryError>>(
    rows: Vec<Vec<Value>>,
    more: &Vec<Vec<Value>>,
    poll: &P,
) -> (both: Result<Vec<Vec<Value>>, QueryError>)
    requires
        call_requires(*poll, ()),
    ensures
        match both {
            Ok(both) => both.deep_view() == rows.deep_view() + more.deep_view(),
            Err(error) => call_ensures(*poll, (), Err(error)),
        },
{
    let ghost start = rows.deep_view();
    let ghost added = more.deep_view();
    let mut both = rows;
    let mut i: usize = 0;
    assert(start + added.take(0) =~= start);
    while i < more.len()
        invariant
            call_requires(*poll, ()),
            i <= more.len(),
            added == more.deep_view(),
            both.deep_view() == start + added.take(i as int),
        decreases more.len() - i,
    {
        poll()?;
        let ghost before = both.deep_view();
        both.push(clone_row(&more[i]));
        assert(both.deep_view() =~= before.push(added[i as int]));
        assert(added.take(i + 1) =~= added.take(i as int).push(added[i as int]));
        assert(both.deep_view() =~= start + added.take(i + 1));
        i = i + 1;
    }
    assert(added.take(added.len() as int) =~= added);
    Ok(both)
}

/// The rows at `positions`.
pub fn rows_at(rows: &Vec<Vec<Value>>, positions: &Vec<usize>) -> (picked: Vec<Vec<Value>>)
    requires
        forall|i: int| 0 <= i < positions.len() ==> (#[trigger] positions[i]) < rows.len(),
    ensures
        picked.deep_view() == pick(rows.deep_view(), ints(positions@)),
        picked.len() == positions.len(),
{
    pick_rows(rows, positions)
}

/// The source rows at `positions`.
pub fn sources_at(provenance: &Vec<Vec<Option<RowId>>>, positions: &Vec<usize>) -> (picked: Vec<
    Vec<Option<RowId>>,
>)
    requires
        forall|i: int| 0 <= i < positions.len() ==> (#[trigger] positions[i]) < provenance.len(),
    ensures
        provenance_view(picked@) == pick(provenance_view(provenance@), ints(positions@)),
        picked.len() == positions.len(),
{
    let ghost all = provenance_view(provenance@);
    let mut picked: Vec<Vec<Option<RowId>>> = Vec::new();
    let mut i: usize = 0;
    while i < positions.len()
        invariant
            i <= positions.len(),
            all == provenance_view(provenance@),
            forall|j: int| 0 <= j < positions.len() ==> (#[trigger] positions[j]) < provenance.len(),
            picked.len() == i,
            forall|j: int| 0 <= j < i ==> (#[trigger] picked[j])@ == all[positions[j] as int],
        decreases positions.len() - i,
    {
        let at: usize = positions[i];
        picked.push(clone_sources(&provenance[at]));
        i = i + 1;
    }
    assert(provenance_view(picked@) =~= pick(all, ints(positions@)));
    picked
}

/// The positions of a slice of `n` elements.
pub open spec fn slice_positions(n: int, offset: int, limit: int) -> Seq<int> {
    slice(Seq::new(n as nat, |i: int| i), offset, limit)
}

/// The positions of a slice of `n` elements.
pub fn sliced_positions<P: Fn() -> Result<(), QueryError>>(
    n: usize,
    offset: usize,
    limit: usize,
    poll: &P,
) -> (positions: Result<Vec<usize>, QueryError>)
    requires
        call_requires(*poll, ()),
    ensures
        match positions {
            Ok(positions) => {
                &&& ints(positions@) == slice_positions(n as int, offset as int, limit as int)
                &&& forall|j: int| 0 <= j < positions.len() ==> #[trigger] positions[j] < n
            },
            Err(error) => call_ensures(*poll, (), Err(error)),
        },
{
    let from: usize = if offset < n {
        offset
    } else {
        n
    };
    let to: usize = if limit < n - from {
        from + limit
    } else {
        n
    };
    let mut positions: Vec<usize> = Vec::new();
    let mut i: usize = from;
    while i < to
        invariant
            call_requires(*poll, ()),
            from <= i <= to <= n,
            positions.len() == i - from,
            forall|j: int| 0 <= j < positions.len() ==> #[trigger] positions[j] == from + j,
        decreases to - i,
    {
        poll()?;
        positions.push(i);
        i = i + 1;
    }
    assert(ints(positions@) =~= slice_positions(n as int, offset as int, limit as int));
    Ok(positions)
}

/// Picking the positions of a slice gives the slice.
pub proof fn slice_is_picked<A>(s: Seq<A>, offset: int, limit: int)
    requires
        0 <= offset,
        0 <= limit,
    ensures
        pick(s, slice_positions(s.len() as int, offset, limit)) == slice(s, offset, limit),
{
    assert(pick(s, slice_positions(s.len() as int, offset, limit)) =~= slice(s, offset, limit));
}

/// A limit and an offset of the same count part a sequence: the one followed by
/// the other is the whole, and the limit has as many elements as the count, or
/// all of them.
pub proof fn limit_and_offset_part<A>(s: Seq<A>, n: int)
    requires
        0 <= n,
    ensures
        slice(s, 0, n) + slice(s, n, s.len() as int) == s,
        slice(s, 0, n).len() == (if n < s.len() {
            n
        } else {
            s.len() as int
        }),
{
    assert(slice(s, 0, n) + slice(s, n, s.len() as int) =~= s);
}

/// A limit keeps the first rows and an offset drops them: together they are the
/// slice, whatever the two counts.
pub proof fn limit_after_offset_is_slice<A>(s: Seq<A>, offset: int, limit: int)
    requires
        0 <= offset,
        0 <= limit,
    ensures
        slice(slice(s, offset, s.len() as int), 0, limit) == slice(s, offset, limit),
{
    assert(slice(slice(s, offset, s.len() as int), 0, limit) =~= slice(s, offset, limit));
}

/// The column that a key of an `order` clause names, if it names one.
pub open spec fn sort_column(expr: ExprView, columns: Seq<Seq<char>>) -> Result<
    Option<int>,
    ErrorView,
> {
    match expr {
        ExprView::Field(name) => match group_column(name, columns) {
            Ok(at) => Ok(Some(at)),
            Err(_) => Err(no_column_error(name)),
        },
        ExprView::QualifiedField { qualifier, field } => match group_column(
            qualified(qualifier, field),
            columns,
        ) {
            Ok(at) => Ok(Some(at)),
            Err(_) => Err(no_column_error(qualified(qualifier, field))),
        },
        _ => Ok(None),
    }
}

/// The columns that the keys from `i` on name.
pub open spec fn sort_columns(keys: Seq<SortKeyView>, columns: Seq<Seq<char>>, i: int) -> Result<
    Seq<Option<int>>,
    ErrorView,
>
    decreases keys.len() - i,
{
    if i < 0 || i >= keys.len() {
        Ok(Seq::empty())
    } else {
        match sort_column(keys[i].expr, columns) {
            Err(error) => Err(error),
            Ok(at) => prefixed(seq![at], sort_columns(keys, columns, i + 1)),
        }
    }
}

fn find_sort_column(expr: &Expr, columns: &Vec<String>) -> (at: Result<Option<usize>, QueryError>)
    ensures
        match at {
            Ok(at) => sort_column(expr.deep_view(), columns.deep_view()) == Ok::<
                Option<int>,
                ErrorView,
            >(at_view(at)) && (at matches Some(c) ==> c < columns.len()),
            Err(error) => sort_column(expr.deep_view(), columns.deep_view()) == Err::<
                Option<int>,
                ErrorView,
            >(error.deep_view()),
        },
{
    let name = match expr {
        Expr::Field(name) => name.clone(),
        Expr::QualifiedField { qualifier, field } => qualified_name(qualifier, field),
        _ => {
            return Ok(None);
        },
    };
    match resolve_group_column(&name, columns) {
        Ok(at) => Ok(Some(at)),
        Err(_) => Err(QueryError::no_column(&name)),
    }
}

/// Find the columns that the keys of an `order` clause name.
pub fn find_sort_columns(keys: &Vec<SortKey>, columns: &Vec<String>) -> (ats: Result<
    Vec<Option<usize>>,
    QueryError,
>)
    ensures
        match ats {
            Ok(ats) => sort_columns(sort_keys_view(keys@), columns.deep_view(), 0) == Ok::<
                Seq<Option<int>>,
                ErrorView,
            >(ats_view(ats@)) && ats.len() == keys.len() && forall|i: int|
                0 <= i < ats.len() ==> (#[trigger] ats[i] matches Some(c) ==> c < columns.len()),
            Err(error) => sort_columns(sort_keys_view(keys@), columns.deep_view(), 0) == Err::<
                Seq<Option<int>>,
                ErrorView,
            >(error.deep_view()),
        },
{
    let ghost views = sort_keys_view(keys@);
    let ghost cols = columns.deep_view();
    let ghost all = sort_columns(views, cols, 0);
    let mut ats: Vec<Option<usize>> = Vec::new();
    let mut i: usize = 0;
    proof {
        if all is Ok {
            assert(ats_view(ats@) + all->Ok_0 =~= all->Ok_0);
        }
    }
    while i < keys.len()
        invariant
            i <= keys.len(),
            views == sort_keys_view(keys@),
            cols == columns.deep_view(),
            ats.len() == i,
            forall|j: int|
                0 <= j < ats.len() ==> (#[trigger] ats[j] matches Some(c) ==> c < columns.len()),
            all == prefixed(ats_view(ats@), sort_columns(views, cols, i as int)),
            all == sort_columns(views, cols, 0),
        decreases keys.len() - i,
    {
        assert(views[i as int].expr == keys[i as int].expr.deep_view());
        let at = find_sort_column(&keys[i].expr, columns)?;
        let ghost before = ats_view(ats@);
        let ghost shown = at_view(at);
        ats.push(at);
        proof {
            assert(ats_view(ats@) =~= before.push(shown));
            match sort_columns(views, cols, i + 1) {
                Ok(rest) => {
                    assert(before + (seq![shown] + rest) =~= before.push(shown) + rest);
                },
                Err(_) => {},
            }
        }
        i = i + 1;
    }
    assert(ats_view(ats@) + Seq::<Option<int>>::empty() =~= ats_view(ats@));
    Ok(ats)
}

/// The directions of an `order` clause.
pub open spec fn sort_directions(keys: Seq<SortKeyView>) -> Seq<Option<bool>> {
    Seq::new(keys.len(), |i: int| Some(keys[i].descending))
}

fn directions(keys: &Vec<SortKey>) -> (directions: Vec<Option<bool>>)
    ensures
        directions@ == sort_directions(sort_keys_view(keys@)),
        directions.len() == keys.len(),
{
    let mut directions: Vec<Option<bool>> = Vec::new();
    let mut i: usize = 0;
    while i < keys.len()
        invariant
            i <= keys.len(),
            directions.len() == i,
            forall|j: int| 0 <= j < i ==> directions[j] == Some(keys[j].descending),
        decreases keys.len() - i,
    {
        directions.push(Some(keys[i].descending));
        i = i + 1;
    }
    assert(directions@ =~= sort_directions(sort_keys_view(keys@)));
    directions
}

/// The positions of rows in the order of an `order` clause: stable, nulls last.
pub open spec fn ordered(
    model: ScalarModel,
    keys: Seq<SortKeyView>,
    ats: Seq<Option<int>>,
    rows: Seq<Seq<ValueView>>,
    columns: Seq<Seq<char>>,
) -> Seq<int> {
    ints(
        sorted_positions(
            model.order,
            keys_of(model.eval, order_exprs(keys), ats, rows, columns),
            sort_directions(keys),
        ),
    )
}

/// Put the positions of rows in the order of an `order` clause, with scratch
/// space from `budget`.
pub fn order_positions<
    E: Fn(&Expr, &Vec<Value>, &Vec<String>) -> Value,
    C: Fn(&Value, &Value) -> Order,
    F: Fn(FloatOp) -> u64,
    P: Fn() -> Result<(), QueryError>,
>(
    scalars: &Scalars<E, C, F>,
    keys: &Vec<SortKey>,
    ats: &Vec<Option<usize>>,
    rows: &Vec<Vec<Value>>,
    columns: &Vec<String>,
    budget: &mut Budget,
    poll: &P,
) -> (positions: Result<Vec<usize>, QueryError>)
    requires
        scalars.ok(),
        call_requires(*poll, ()),
        rows_reach(rows.deep_view(), ats_view(ats@)),
        ats.len() == keys.len(),
    ensures
        match positions {
            Ok(at) => sort_charge(*old(budget), rows.len() as int) == Ok::<Budget, ErrorView>(
                *final(budget),
            ) && ints(at@) == ordered(
                scalars.model@,
                sort_keys_view(keys@),
                ats_view(ats@),
                rows.deep_view(),
                columns.deep_view(),
            ) && at.len() == rows.len() && forall|j: int|
                0 <= j < at.len() ==> #[trigger] at[j] < rows.len(),
            Err(error) => sort_charge(*old(budget), rows.len() as int) == Err::<Budget, ErrorView>(
                error.deep_view(),
            ) || call_ensures(*poll, (), Err(error)),
        },
{
    let n: usize = rows.len();
    if n >= 2 {
        budget.charge(saturating_scratch(n))?;
    }
    let exprs = sort_key_refs(keys);
    let row_keys = read_keys(scalars, &exprs, ats, rows, columns, poll)?;
    let directions = directions(keys);
    let sorted = sort_by_keys(scalars, &row_keys, &directions, poll)?;
    proof {
        assert(row_keys.deep_view().len() == row_keys.len());
        assert(sorts(
            sorted@,
            row_keys.deep_view(),
            row_order(scalars.ordering(), directions@),
        ));
    }
    Ok(sorted)
}

/// What an explained plan answers: a row for each line of its tree.
pub open spec fn explain_answer(catalog: CatalogView, model: WordingModel, plan: PlanView) -> ResultView {
    let text = lines_of(tree_text(catalog, model, plan, indent_of(0)));
    ResultView::Rows {
        columns: seq!["plan"@],
        rows: Seq::new(text.len(), |i: int| seq![ValueView::Str(text[i])]),
    }
}

/// Explain a plan.
pub fn explain<T: Fn(Subject) -> Option<String>>(
    catalog: &Catalog,
    wording: &Wording<T>,
    plan: &PlanNode,
) -> (result: QueryResult)
    requires
        wording.ok(),
    ensures
        result.deep_view() == explain_answer(
            catalog.deep_view(),
            wording.model@,
            plan.deep_view(),
        ),
{
    let text = format_plan_tree(catalog, wording, plan, 0);
    let mut parts = lines(text.as_str());
    let ghost shown = parts.deep_view();
    let mut rows: Vec<Vec<Value>> = Vec::new();
    let mut i: usize = 0;
    while i < parts.len()
        invariant
            i <= parts.len(),
            shown == parts.deep_view(),
            rows.len() == i,
            forall|j: int|
                0 <= j < i ==> (#[trigger] rows[j]).deep_view() == seq![ValueView::Str(shown[j])],
        decreases parts.len() - i,
    {
        let mut row: Vec<Value> = Vec::new();
        row.push(Value::Str(parts[i].clone()));
        assert(row.deep_view() =~= seq![ValueView::Str(shown[i as int])]);
        rows.push(row);
        i = i + 1;
    }
    let mut columns: Vec<String> = Vec::new();
    columns.push("plan".to_owned());
    assert(columns.deep_view() =~= seq!["plan"@]);
    assert(rows.deep_view() =~= Seq::new(shown.len(), |i: int| seq![ValueView::Str(shown[i])]));
    QueryResult::Rows { columns, rows }
}

/// What is told of the types: the name of each and the number of its columns.
pub open spec fn types_answer(catalog: CatalogView) -> ResultView {
    ResultView::Rows {
        columns: seq!["name"@, "columns"@],
        rows: Seq::new(
            catalog.tables.len(),
            |i: int|
                seq![
                    ValueView::Str(catalog.tables[i].schema.table_name),
                    ValueView::Int(catalog.tables[i].schema.columns.len() as i64),
                ],
        ),
    }
}

/// Tell of the types.
pub fn introspect_list_types(catalog: &Catalog) -> (result: QueryResult)
    ensures
        result.deep_view() == types_answer(catalog.deep_view()),
{
    let ghost view = catalog.deep_view();
    let mut rows: Vec<Vec<Value>> = Vec::new();
    let mut i: usize = 0;
    while i < catalog.tables.len()
        invariant
            i <= catalog.tables.len(),
            view == catalog.deep_view(),
            rows.len() == i,
            forall|j: int|
                0 <= j < i ==> (#[trigger] rows[j]).deep_view() == seq![
                    ValueView::Str(view.tables[j].schema.table_name),
                    ValueView::Int(view.tables[j].schema.columns.len() as i64),
                ],
        decreases catalog.tables.len() - i,
    {
        let table = &catalog.tables[i];
        assert(view.tables[i as int] == table.deep_view());
        let mut row: Vec<Value> = Vec::new();
        row.push(Value::Str(table.schema.table_name.clone()));
        row.push(Value::Int(table.schema.columns.len() as i64));
        assert(table.deep_view().schema.columns.len() == table.schema.columns.len());
        assert(row.deep_view() =~= seq![
            ValueView::Str(view.tables[i as int].schema.table_name),
            ValueView::Int(view.tables[i as int].schema.columns.len() as i64),
        ]);
        rows.push(row);
        i = i + 1;
    }
    let mut columns: Vec<String> = Vec::new();
    columns.push("name".to_owned());
    columns.push("columns".to_owned());
    assert(columns.deep_view() =~= seq!["name"@, "columns"@]);
    assert(rows.deep_view() =~= types_answer(view)->rows);
    QueryResult::Rows { columns, rows }
}

/// The word for the index of a column: none, an index, or a unique one.
pub open spec fn index_word(unique: Option<bool>) -> Seq<char> {
    match unique {
        None => ""@,
        Some(true) => "unique"@,
        Some(false) => "index"@,
    }
}

/// What is told of a column: its name, its type, whether it may be null, and
/// its index.
pub open spec fn column_row(catalog: CatalogView, table: Seq<char>, column: ColumnDefView) -> Seq<
    ValueView,
> {
    seq![
        ValueView::Str(column.name),
        ValueView::Str(type_label(column.type_id)),
        ValueView::Bool(!column.required),
        ValueView::Str(index_word(catalog.is_index_unique(table, column.name))),
    ]
}

/// What is told of a type.
pub open spec fn describe_answer(catalog: CatalogView, table: Seq<char>) -> Result<
    ResultView,
    ErrorView,
> {
    match catalog.schema(table) {
        None => Err(ErrorView::TableNotFound(table)),
        Some(schema) => Ok(
            ResultView::Rows {
                columns: seq!["column"@, "type"@, "nullable"@, "index"@],
                rows: Seq::new(
                    schema.columns.len(),
                    |i: int| column_row(catalog, table, schema.columns[i]),
                ),
            },
        ),
    }
}

/// Tell of a type.
pub fn introspect_describe(catalog: &Catalog, table: &String) -> (result: Result<
    QueryResult,
    QueryError,
>)
    ensures
        outcome(result) == describe_answer(catalog.deep_view(), table@),
{
    let ghost view = catalog.deep_view();
    let schema = match catalog.schema(table) {
        Some(schema) => schema,
        None => {
            return Err(QueryError::TableNotFound(table.clone()));
        },
    };
    let ghost told = schema.deep_view();
    let mut rows: Vec<Vec<Value>> = Vec::new();
    let mut i: usize = 0;
    while i < schema.columns.len()
        invariant
            i <= schema.columns.len(),
            view == catalog.deep_view(),
            told == schema.deep_view(),
            rows.len() == i,
            forall|j: int|
                0 <= j < i ==> (#[trigger] rows[j]).deep_view() == column_row(
                    view,
                    table@,
                    told.columns[j],
                ),
        decreases schema.columns.len() - i,
    {
        let column = &schema.columns[i];
        assert(told.columns[i as int] == column.deep_view());
        let word = match catalog.is_index_unique(table, &column.name) {
            None => "",
            Some(unique) => if unique {
                "unique"
            } else {
                "index"
            },
        };
        let mut row: Vec<Value> = Vec::new();
        row.push(Value::Str(column.name.clone()));
        row.push(Value::Str(type_label_text(column.type_id).to_owned()));
        row.push(Value::Bool(!column.required));
        row.push(Value::Str(word.to_owned()));
        assert(row.deep_view() =~= column_row(view, table@, told.columns[i as int]));
        rows.push(row);
        i = i + 1;
    }
    let mut columns: Vec<String> = Vec::new();
    columns.push("column".to_owned());
    columns.push("type".to_owned());
    columns.push("nullable".to_owned());
    columns.push("index".to_owned());
    assert(columns.deep_view() =~= seq!["column"@, "type"@, "nullable"@, "index"@]);
    assert(rows.deep_view() =~= Seq::new(
        told.columns.len(),
        |i: int| column_row(view, table@, told.columns[i]),
    ));
    Ok(QueryResult::Rows { columns, rows })
}

/// What is told of the links: where each starts and by which column, its name,
/// and where it leads.
pub open spec fn links_answer(catalog: CatalogView) -> ResultView {
    ResultView::Rows {
        columns: seq!["type"@, "link"@, "target"@, "local_key"@, "target_key"@],
        rows: Seq::new(
            catalog.links.len(),
            |i: int|
                seq![
                    ValueView::Str(catalog.links[i].owner_type),
                    ValueView::Str(catalog.links[i].name),
                    ValueView::Str(catalog.links[i].target_type),
                    ValueView::Str(catalog.links[i].local_key),
                    ValueView::Str(catalog.links[i].target_key),
                ],
        ),
    }
}

/// Tell of the links.
pub fn introspect_list_links(catalog: &Catalog) -> (result: QueryResult)
    ensures
        result.deep_view() == links_answer(catalog.deep_view()),
{
    let ghost view = catalog.deep_view();
    let mut rows: Vec<Vec<Value>> = Vec::new();
    let mut i: usize = 0;
    while i < catalog.links.len()
        invariant
            i <= catalog.links.len(),
            view == catalog.deep_view(),
            rows.len() == i,
            forall|j: int|
                0 <= j < i ==> (#[trigger] rows[j]).deep_view() == seq![
                    ValueView::Str(view.links[j].owner_type),
                    ValueView::Str(view.links[j].name),
                    ValueView::Str(view.links[j].target_type),
                    ValueView::Str(view.links[j].local_key),
                    ValueView::Str(view.links[j].target_key),
                ],
        decreases catalog.links.len() - i,
    {
        let link = &catalog.links[i];
        assert(view.links[i as int] == link.deep_view());
        let mut row: Vec<Value> = Vec::new();
        row.push(Value::Str(link.owner_type.clone()));
        row.push(Value::Str(link.name.clone()));
        row.push(Value::Str(link.target_type.clone()));
        row.push(Value::Str(link.local_key.clone()));
        row.push(Value::Str(link.target_key.clone()));
        assert(row.deep_view() =~= seq![
            ValueView::Str(view.links[i as int].owner_type),
            ValueView::Str(view.links[i as int].name),
            ValueView::Str(view.links[i as int].target_type),
            ValueView::Str(view.links[i as int].local_key),
            ValueView::Str(view.links[i as int].target_key),
        ]);
        rows.push(row);
        i = i + 1;
    }
    let mut columns: Vec<String> = Vec::new();
    columns.push("type".to_owned());
    columns.push("link".to_owned());
    columns.push("target".to_owned());
    columns.push("local_key".to_owned());
    columns.push("target_key".to_owned());
    assert(columns.deep_view() =~= seq![
        "type"@,
        "link"@,
        "target"@,
        "local_key"@,
        "target_key"@,
    ]);
    assert(rows.deep_view() =~= links_answer(view)->rows);
    QueryResult::Rows { columns, rows }
}

} // verus!
