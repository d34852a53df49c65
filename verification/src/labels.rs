//! When an explained plan has its lines whole: no name in it holds a line feed.

use vstd::prelude::*;

use crate::catalog::{CatalogView, IndexStats};
use crate::error::ErrorView;
use crate::explain::{
    agg_name, assigned_list, bool_name, bound_words, field_def_list, field_list, group_agg_list,
    group_key_list, index_number, join_strategy, kind_name, lines_whole, mode_name, node_label,
    opt_words, order_list, range_end, stats_words, window_def_list, window_name,
};
use crate::expr::ExprView;
use crate::lower::{eq_rows, literal_of};
use crate::plan::{PlanView, ProjectFieldView, StoredJsonPathView};
use crate::text::{decimal, digit_char, join_texts};
use crate::value::ValueView;
use crate::wording::{words, SubjectView, WordingModel};

verus! {

/// A text without line feeds.
pub open spec fn one_line(text: Seq<char>) -> bool {
    !text.contains('\n')
}

/// Texts without line feeds.
pub open spec fn all_lines(texts: Seq<Seq<char>>) -> bool {
    forall|i: int| 0 <= i < texts.len() ==> one_line(#[trigger] texts[i])
}

/// Expressions, paths and changes of a type are worded without line feeds.
pub open spec fn words_whole(model: WordingModel) -> bool {
    forall|subject: SubjectView|
        subject is Expr || subject is Name || subject is Path || subject is Action ==> one_line(
            #[trigger] words(model, subject),
        )
}

/// The names of the fields that have one of their own.
pub open spec fn field_aliases(fields: Seq<ProjectFieldView>) -> Seq<Seq<char>> {
    Seq::new(
        fields.len(),
        |i: int|
            match fields[i].alias {
                Some(alias) => alias,
                None => Seq::empty(),
            },
    )
}

/// The names that a node itself holds.
pub open spec fn node_names(plan: PlanView) -> Seq<Seq<char>> {
    match plan {
        PlanView::SeqScan { table } => seq![table],
        PlanView::AliasScan { table, alias } => seq![table, alias],
        PlanView::IndexScan { table, column, .. } => seq![table, column],
        PlanView::RangeScan { table, column, .. } => seq![table, column],
        PlanView::ExprIndexScan { table, .. } => seq![table],
        PlanView::ExprRangeScan { table, .. } => seq![table],
        PlanView::OrderedExprIndexScan { table, .. } => seq![table],
        PlanView::Project { fields, .. } => field_aliases(fields),
        PlanView::GroupBy { keys, aggregates, .. } => group_key_list(keys) + Seq::new(
            aggregates.len(),
            |i: int| aggregates[i].output_name,
        ),
        PlanView::Insert { table, rows, .. } => seq![table] + (if rows.len() > 0 {
            assigned_list(rows[0])
        } else {
            Seq::empty()
        }),
        PlanView::Upsert { table, key_column, assignments, on_conflict } => seq![table, key_column] + assigned_list(assignments) + assigned_list(on_conflict),
        PlanView::Update { table, assignments, .. } => seq![table] + assigned_list(assignments),
        PlanView::Delete { table, .. } => seq![table],
        PlanView::CreateTable { name, fields, .. } => seq![name] + Seq::new(fields.len(), |i: int| fields[i].name)
            + Seq::new(fields.len(), |i: int| fields[i].declared),
        PlanView::CreateLink { owner, name, .. } => seq![owner, name],
        PlanView::AlterTable { table, .. } => seq![table],
        PlanView::DropTable { name, .. } => seq![name],
        PlanView::CreateView { name, .. } => seq![name],
        PlanView::RefreshView { name } => seq![name],
        PlanView::DropView { name, .. } => seq![name],
        PlanView::Describe { table } => seq![table],
        PlanView::Window { windows, .. } => Seq::new(windows.len(), |i: int| windows[i].output_name),
        _ => Seq::empty(),
    }
}

/// No name in a plan holds a line feed.
pub open spec fn names_whole(plan: PlanView) -> bool
    decreases plan,
{
    &&& all_lines(node_names(plan))
    &&& match plan {
        PlanView::Filter { input, .. } => names_whole(*input),
        PlanView::Project { input, .. } => names_whole(*input),
        PlanView::NestedProject { input, .. } => names_whole(*input),
        PlanView::Sort { input, .. } => names_whole(*input),
        PlanView::Limit { input, .. } => names_whole(*input),
        PlanView::Offset { input, .. } => names_whole(*input),
        PlanView::Aggregate { input, .. } => names_whole(*input),
        PlanView::Distinct { input } => names_whole(*input),
        PlanView::GroupBy { input, .. } => names_whole(*input),
        PlanView::Window { input, .. } => names_whole(*input),
        PlanView::Update { input, .. } => names_whole(*input),
        PlanView::Delete { input, .. } => names_whole(*input),
        PlanView::Explain { input } => names_whole(*input),
        PlanView::NestedLoopJoin { left, right, .. } => names_whole(*left) && names_whole(*right),
        PlanView::Union { left, right, .. } => names_whole(*left) && names_whole(*right),
        _ => true,
    }
}

proof fn two_parts(a: Seq<char>, b: Seq<char>)
    requires
        one_line(a),
        one_line(b),
    ensures
        one_line(a + b),
{
    assert forall|k: int| 0 <= k < (a + b).len() implies (a + b)[k] != '\n' by {
        if k < a.len() {
            assert(a[k] == (a + b)[k]);
        } else {
            assert(b[k - a.len()] == (a + b)[k]);
        }
    }
}

/// Texts without line feeds make one without.
proof fn parts_are_lines()
    ensures
        forall|a: Seq<char>, b: Seq<char>|
            one_line(a) && one_line(b) ==> one_line(#[trigger] (a + b)),
        one_line(Seq::<char>::empty()),
{
    assert forall|a: Seq<char>, b: Seq<char>| one_line(a) && one_line(b) implies one_line(
        #[trigger] (a + b),
    ) by {
        two_parts(a, b);
    }
}

proof fn joined_is_line(parts: Seq<Seq<char>>)
    requires
        all_lines(parts),
    ensures
        one_line(join_texts(parts, ", "@)),
    decreases parts.len(),
{
    reveal_strlit(", ");
    parts_are_lines();
    if parts.len() > 1 {
        let less = parts.drop_last();
        assert forall|i: int| 0 <= i < less.len() implies one_line(#[trigger] less[i]) by {
            assert(parts[i] == less[i]);
        }
        joined_is_line(less);
        assert(parts[parts.len() - 1] == parts.last());
        assert(one_line(", "@));
    } else if parts.len() == 1 {
        assert(one_line(parts[0]));
    }
}

proof fn number_is_line(n: nat)
    ensures
        one_line(decimal(n)),
    decreases n,
{
    if n >= 10 {
        number_is_line(n / 10);
        let (front, last) = (decimal(n / 10), digit_char(n % 10));
        assert forall|k: int| 0 <= k < front.push(last).len() implies front.push(last)[k] != '\n' by {
            if k < front.len() {
                assert(front[k] == front.push(last)[k]);
            }
        }
    }
}

/// What every label is made of besides names, numbers and words.
proof fn literals_are_lines()
    ensures
        one_line(" ["@),
        one_line(" action="@),
        one_line(" alias="@),
        one_line(" argument="@),
        one_line(" as "@),
        one_line(" cols=["@),
        one_line(" column="@),
        one_line(" desc"@),
        one_line(" descending="@),
        one_line(" distinct="@),
        one_line(" end="@),
        one_line(" entries="@),
        one_line(" est_rows="@),
        one_line(" fields=["@),
        one_line(" having="@),
        one_line(" index_id="@),
        one_line(" key="@),
        one_line(" limit="@),
        one_line(" mode="@),
        one_line(" name="@),
        one_line(" offset="@),
        one_line(" on="@),
        one_line(" on_conflict=["@),
        one_line(" path="@),
        one_line(" required"@),
        one_line(" returning"@),
        one_line(" rows="@),
        one_line(" set=["@),
        one_line(" start="@),
        one_line(" strategy="@),
        one_line(" unique"@),
        one_line("("@),
        one_line(")"@),
        one_line(") mode="@),
        one_line("))"@),
        one_line("*"@),
        one_line(", "@),
        one_line(": "@),
        one_line("<"@),
        one_line("<="@),
        one_line(">"@),
        one_line(">="@),
        one_line("Aggregate fn="@),
        one_line("AliasScan table="@),
        one_line("AlterTable table="@),
        one_line("Avg"@),
        one_line("Begin"@),
        one_line("Commit"@),
        one_line("Count"@),
        one_line("CountDistinct"@),
        one_line("CreateLink owner="@),
        one_line("CreateTable name="@),
        one_line("CreateView name="@),
        one_line("Cross"@),
        one_line("Delete table="@),
        one_line("DenseRank"@),
        one_line("Describe table="@),
        one_line("Distinct"@),
        one_line("DropTable name="@),
        one_line("DropView name="@),
        one_line("Explain"@),
        one_line("ExprIndexScan table="@),
        one_line("ExprRangeScan table="@),
        one_line("Filter predicate="@),
        one_line("GroupBy keys=["@),
        one_line("IndexScan table="@),
        one_line("Inner"@),
        one_line("Insert table="@),
        one_line("LeftOuter"@),
        one_line("Limit count="@),
        one_line("ListLinks"@),
        one_line("ListTypes"@),
        one_line("Max"@),
        one_line("Min"@),
        one_line("NestedLoopJoin kind="@),
        one_line("NestedProject"@),
        one_line("None"@),
        one_line("Offset count="@),
        one_line("OrderedExprIndexScan table="@),
        one_line("Project fields=["@),
        one_line("RangeScan table="@),
        one_line("Rank"@),
        one_line("Raw"@),
        one_line("RefreshView name="@),
        one_line("RightOuter"@),
        one_line("Rollback"@),
        one_line("RowNumber"@),
        one_line("SeqScan table="@),
        one_line("Some("@),
        one_line("Some(("@),
        one_line("Sort keys=["@),
        one_line("Sum"@),
        one_line("Symmetric"@),
        one_line("UNION"@),
        one_line("UNION ALL"@),
        one_line("Update table="@),
        one_line("Upsert table="@),
        one_line("Window fns=["@),
        one_line("]"@),
        one_line("] aggs=["@),
        one_line("false"@),
        one_line("hash"@),
        one_line("hash+residual"@),
        one_line("nested-loop-bounded"@),
        one_line("none"@),
        one_line("true"@),
        one_line("unbounded"@),
        one_line("unresolved"@),
{
    reveal_strlit(" [");
    reveal_strlit(" action=");
    reveal_strlit(" alias=");
    reveal_strlit(" argument=");
    reveal_strlit(" as ");
    reveal_strlit(" cols=[");
    reveal_strlit(" column=");
    reveal_strlit(" desc");
    reveal_strlit(" descending=");
    reveal_strlit(" distinct=");
    reveal_strlit(" end=");
    reveal_strlit(" entries=");
    reveal_strlit(" est_rows=");
    reveal_strlit(" fields=[");
    reveal_strlit(" having=");
    reveal_strlit(" index_id=");
    reveal_strlit(" key=");
    reveal_strlit(" limit=");
    reveal_strlit(" mode=");
    reveal_strlit(" name=");
    reveal_strlit(" offset=");
    reveal_strlit(" on=");
    reveal_strlit(" on_conflict=[");
    reveal_strlit(" path=");
    reveal_strlit(" required");
    reveal_strlit(" returning");
    reveal_strlit(" rows=");
    reveal_strlit(" set=[");
    reveal_strlit(" start=");
    reveal_strlit(" strategy=");
    reveal_strlit(" unique");
    reveal_strlit("(");
    reveal_strlit(")");
    reveal_strlit(") mode=");
    reveal_strlit("))");
    reveal_strlit("*");
    reveal_strlit(", ");
    reveal_strlit(": ");
    reveal_strlit("<");
    reveal_strlit("<=");
    reveal_strlit(">");
    reveal_strlit(">=");
    reveal_strlit("Aggregate fn=");
    reveal_strlit("AliasScan table=");
    reveal_strlit("AlterTable table=");
    reveal_strlit("Avg");
    reveal_strlit("Begin");
    reveal_strlit("Commit");
    reveal_strlit("Count");
    reveal_strlit("CountDistinct");
    reveal_strlit("CreateLink owner=");
    reveal_strlit("CreateTable name=");
    reveal_strlit("CreateView name=");
    reveal_strlit("Cross");
    reveal_strlit("Delete table=");
    reveal_strlit("DenseRank");
    reveal_strlit("Describe table=");
    reveal_strlit("Distinct");
    reveal_strlit("DropTable name=");
    reveal_strlit("DropView name=");
    reveal_strlit("Explain");
    reveal_strlit("ExprIndexScan table=");
    reveal_strlit("ExprRangeScan table=");
    reveal_strlit("Filter predicate=");
    reveal_strlit("GroupBy keys=[");
    reveal_strlit("IndexScan table=");
    reveal_strlit("Inner");
    reveal_strlit("Insert table=");
    reveal_strlit("LeftOuter");
    reveal_strlit("Limit count=");
    reveal_strlit("ListLinks");
    reveal_strlit("ListTypes");
    reveal_strlit("Max");
    reveal_strlit("Min");
    reveal_strlit("NestedLoopJoin kind=");
    reveal_strlit("NestedProject");
    reveal_strlit("None");
    reveal_strlit("Offset count=");
    reveal_strlit("OrderedExprIndexScan table=");
    reveal_strlit("Project fields=[");
    reveal_strlit("RangeScan table=");
    reveal_strlit("Rank");
    reveal_strlit("Raw");
    reveal_strlit("RefreshView name=");
    reveal_strlit("RightOuter");
    reveal_strlit("Rollback");
    reveal_strlit("RowNumber");
    reveal_strlit("SeqScan table=");
    reveal_strlit("Some(");
    reveal_strlit("Some((");
    reveal_strlit("Sort keys=[");
    reveal_strlit("Sum");
    reveal_strlit("Symmetric");
    reveal_strlit("UNION");
    reveal_strlit("UNION ALL");
    reveal_strlit("Update table=");
    reveal_strlit("Upsert table=");
    reveal_strlit("Window fns=[");
    reveal_strlit("]");
    reveal_strlit("] aggs=[");
    reveal_strlit("false");
    reveal_strlit("hash");
    reveal_strlit("hash+residual");
    reveal_strlit("nested-loop-bounded");
    reveal_strlit("none");
    reveal_strlit("true");
    reveal_strlit("unbounded");
    reveal_strlit("unresolved");
}

proof fn stats_are_lines(stats: Option<IndexStats>, unique: bool, key: ExprView)
    ensures
        one_line(stats_words(stats, unique, key)),
{
    literals_are_lines();
    parts_are_lines();
    match stats {
        Some(stats) => {
            let empty = literal_of(key) == Ok::<ValueView, ErrorView>(ValueView::Empty);
            number_is_line((if unique { 1 } else { eq_rows(stats, empty) }) as nat);
            number_is_line(stats.total_entries as nat);
            number_is_line(stats.distinct_keys as nat);
        },
        None => {},
    }
}

proof fn bounds_are_lines(model: WordingModel, bound: Option<(ExprView, bool)>)
    requires
        words_whole(model),
    ensures
        one_line(range_end(model, bound, ">="@, ">"@)),
        one_line(range_end(model, bound, "<="@, "<"@)),
        one_line(bound_words(model, bound)),
{
    literals_are_lines();
    parts_are_lines();
    match bound {
        Some((key, inclusive)) => {
            assert(one_line(words(model, SubjectView::Expr(key))));
            assert(one_line(bool_name(inclusive)));
        },
        None => {},
    }
}

proof fn index_number_is_line(catalog: CatalogView, table: Seq<char>, path: StoredJsonPathView)
    ensures
        one_line(index_number(catalog, table, path)),
{
    literals_are_lines();
    match catalog.expression_index(table, path) {
        Some(index) => number_is_line(index.index_id as nat),
        None => {},
    }
}

proof fn scan_label_is_line(catalog: CatalogView, model: WordingModel, plan: PlanView)
    requires
        words_whole(model),
        all_lines(node_names(plan)),
        plan is SeqScan || plan is AliasScan || plan is IndexScan || plan is RangeScan
            || plan is ExprIndexScan || plan is ExprRangeScan || plan is OrderedExprIndexScan,
    ensures
        one_line(node_label(catalog, model, plan)),
{
    literals_are_lines();
    parts_are_lines();
    let names = node_names(plan);
    assert(one_line(names[0]));
    match plan {
        PlanView::AliasScan { .. } => {
            assert(one_line(names[1]));
        },
        PlanView::IndexScan { table, column, key } => {
            assert(one_line(names[1]));
            assert(one_line(words(model, SubjectView::Expr(key))));
            stats_are_lines(
                catalog.index_stats(table, column),
                catalog.is_index_unique(table, column) == Some(true),
                key,
            );
        },
        PlanView::RangeScan { start, end, .. } => {
            assert(one_line(names[1]));
            bounds_are_lines(model, start);
            bounds_are_lines(model, end);
        },
        PlanView::ExprIndexScan { table, path, key } => {
            assert(one_line(words(model, SubjectView::Path(path))));
            assert(one_line(words(model, SubjectView::Expr(key))));
            index_number_is_line(catalog, table, path);
            match catalog.expression_index(table, path) {
                Some(index) => stats_are_lines(index.stats, index.unique, key),
                None => {},
            }
        },
        PlanView::ExprRangeScan { table, path, start, end } => {
            assert(one_line(words(model, SubjectView::Path(path))));
            index_number_is_line(catalog, table, path);
            bounds_are_lines(model, start);
            bounds_are_lines(model, end);
        },
        PlanView::OrderedExprIndexScan { table, path, descending, limit, offset } => {
            assert(one_line(words(model, SubjectView::Path(path))));
            assert(one_line(words(model, SubjectView::Expr(limit))));
            assert(one_line(bool_name(descending)));
            index_number_is_line(catalog, table, path);
            assert(one_line(opt_words(model, offset))) by {
                match offset {
                    Some(expr) => {
                        assert(one_line(words(model, SubjectView::Expr(expr))));
                    },
                    None => {},
                }
            }
        },
        _ => {},
    }
}

proof fn group_label_is_line(catalog: CatalogView, model: WordingModel, plan: PlanView)
    requires
        words_whole(model),
        all_lines(node_names(plan)),
        plan is GroupBy,
    ensures
        one_line(node_label(catalog, model, plan)),
{
    literals_are_lines();
    parts_are_lines();
    match plan {
        PlanView::GroupBy { keys, aggregates, having, .. } => {
            let names = node_names(plan);
            let (by, made) = (group_key_list(keys), group_agg_list(model, aggregates));
            assert forall|i: int| 0 <= i < by.len() implies one_line(#[trigger] by[i]) by {
                assert(names[i] == by[i]);
            }
            assert forall|i: int| 0 <= i < made.len() implies one_line(#[trigger] made[i]) by {
                let agg = aggregates[i];
                assert(names[by.len() + i] == agg.output_name);
                assert(one_line(words(model, SubjectView::Name(agg.argument))));
                assert(one_line(agg_name(agg.function)));
                assert(one_line(mode_name(agg.mode)));
            }
            joined_is_line(by);
            joined_is_line(made);
            match having {
                Some(having) => {
                    assert(one_line(words(model, SubjectView::Expr(having))));
                },
                None => {},
            }
        },
        _ => {},
    }
}

proof fn operator_label_is_line(catalog: CatalogView, model: WordingModel, plan: PlanView)
    requires
        words_whole(model),
        all_lines(node_names(plan)),
        plan is Filter || plan is Project || plan is NestedProject || plan is Sort || plan is Limit
            || plan is Offset || plan is Aggregate || plan is NestedLoopJoin || plan is Distinct
            || plan is Window || plan is Union || plan is Explain,
    ensures
        one_line(node_label(catalog, model, plan)),
{
    literals_are_lines();
    parts_are_lines();
    let names = node_names(plan);
    match plan {
        PlanView::Filter { predicate, .. } => {
            assert(one_line(words(model, SubjectView::Expr(predicate))));
        },
        PlanView::Project { fields, .. } => {
            let parts = field_list(model, fields);
            assert forall|i: int| 0 <= i < parts.len() implies one_line(#[trigger] parts[i]) by {
                assert(one_line(names[i]));
                assert(one_line(words(model, SubjectView::Expr(fields[i].expr))));
            }
            joined_is_line(parts);
        },
        PlanView::Sort { keys, .. } => {
            let parts = order_list(model, keys);
            assert forall|i: int| 0 <= i < parts.len() implies one_line(#[trigger] parts[i]) by {
                assert(one_line(words(model, SubjectView::Name(keys[i].expr))));
            }
            joined_is_line(parts);
        },
        PlanView::Limit { count, .. } => {
            assert(one_line(words(model, SubjectView::Expr(count))));
        },
        PlanView::Offset { count, .. } => {
            assert(one_line(words(model, SubjectView::Expr(count))));
        },
        PlanView::Aggregate { function, argument, mode, .. } => {
            assert(one_line(agg_name(function)));
            assert(one_line(mode_name(mode)));
            match argument {
                Some(argument) => {
                    assert(one_line(words(model, SubjectView::Name(argument))));
                },
                None => {},
            }
        },
        PlanView::NestedLoopJoin { left, right, on, kind } => {
            assert(one_line(kind_name(kind)));
            assert(one_line(join_strategy(*left, *right, on, kind)));
            match on {
                Some(on) => {
                    assert(one_line(words(model, SubjectView::Expr(on))));
                },
                None => {},
            }
        },
        PlanView::Window { windows, .. } => {
            let parts = window_def_list(windows);
            assert forall|i: int| 0 <= i < parts.len() implies one_line(#[trigger] parts[i]) by {
                assert(names[i] == windows[i].output_name);
                assert(one_line(window_name(windows[i].function)));
            }
            joined_is_line(parts);
        },
        _ => {},
    }
}

/// A part of a list of texts without line feeds is one.
proof fn part_of_lines(all: Seq<Seq<char>>, part: Seq<Seq<char>>, from: int)
    requires
        all_lines(all),
        0 <= from,
        from + part.len() <= all.len(),
        forall|i: int| 0 <= i < part.len() ==> #[trigger] part[i] == all[from + i],
    ensures
        all_lines(part),
        one_line(join_texts(part, ", "@)),
{
    assert forall|i: int| 0 <= i < part.len() implies one_line(#[trigger] part[i]) by {
        assert(one_line(all[from + i]));
    }
    joined_is_line(part);
}

proof fn write_label_is_line(catalog: CatalogView, model: WordingModel, plan: PlanView)
    requires
        all_lines(node_names(plan)),
        plan is Insert || plan is Upsert || plan is Update || plan is Delete,
    ensures
        one_line(node_label(catalog, model, plan)),
{
    literals_are_lines();
    parts_are_lines();
    let names = node_names(plan);
    assert(one_line(names[0]));
    match plan {
        PlanView::Insert { rows, .. } => {
            number_is_line(rows.len() as nat);
            if rows.len() > 0 {
                part_of_lines(names, assigned_list(rows[0]), 1);
            }
        },
        PlanView::Upsert { assignments, on_conflict, .. } => {
            assert(one_line(names[1]));
            part_of_lines(names, assigned_list(assignments), 2);
            part_of_lines(names, assigned_list(on_conflict), 2 + assignments.len() as int);
        },
        PlanView::Update { assignments, .. } => {
            part_of_lines(names, assigned_list(assignments), 1);
        },
        _ => {},
    }
}

proof fn definition_label_is_line(catalog: CatalogView, model: WordingModel, plan: PlanView)
    requires
        words_whole(model),
        all_lines(node_names(plan)),
        plan is CreateTable || plan is CreateLink || plan is AlterTable || plan is DropTable
            || plan is CreateView || plan is RefreshView || plan is DropView || plan is Describe
            || plan is ListTypes || plan is ListLinks || plan is Begin || plan is Commit
            || plan is Rollback,
    ensures
        one_line(node_label(catalog, model, plan)),
{
    literals_are_lines();
    parts_are_lines();
    let names = node_names(plan);
    if names.len() > 0 {
        assert(one_line(names[0]));
    }
    match plan {
        PlanView::CreateTable { fields, .. } => {
            let parts = field_def_list(fields);
            let n = fields.len() as int;
            assert forall|i: int| 0 <= i < parts.len() implies one_line(#[trigger] parts[i]) by {
                assert(names[1 + i] == fields[i].name);
                assert(names[1 + n + i] == fields[i].declared);
            }
            joined_is_line(parts);
        },
        PlanView::CreateLink { .. } => {
            assert(one_line(names[1]));
        },
        PlanView::AlterTable { action, .. } => {
            assert(one_line(words(model, SubjectView::Action(action))));
        },
        _ => {},
    }
}

proof fn label_is_line(catalog: CatalogView, model: WordingModel, plan: PlanView)
    requires
        words_whole(model),
        all_lines(node_names(plan)),
    ensures
        one_line(node_label(catalog, model, plan)),
{
    if plan is SeqScan || plan is AliasScan || plan is IndexScan || plan is RangeScan
        || plan is ExprIndexScan || plan is ExprRangeScan || plan is OrderedExprIndexScan {
        scan_label_is_line(catalog, model, plan);
    } else if plan is GroupBy {
        group_label_is_line(catalog, model, plan);
    } else if plan is Insert || plan is Upsert || plan is Update || plan is Delete {
        write_label_is_line(catalog, model, plan);
    } else if plan is Filter || plan is Project || plan is NestedProject || plan is Sort
        || plan is Limit || plan is Offset || plan is Aggregate || plan is NestedLoopJoin
        || plan is Distinct || plan is Window || plan is Union || plan is Explain {
        operator_label_is_line(catalog, model, plan);
    } else {
        definition_label_is_line(catalog, model, plan);
    }
}

/// Where no name in a plan holds a line feed, and what is put in words for it is
/// worded without one, the line of every node is one line.
pub proof fn labels_are_lines(catalog: CatalogView, model: WordingModel, plan: PlanView)
    requires
        words_whole(model),
        names_whole(plan),
    ensures
        lines_whole(catalog, model, plan),
    decreases plan,
{
    label_is_line(catalog, model, plan);
    match plan {
        PlanView::Filter { input, .. } => labels_are_lines(catalog, model, *input),
        PlanView::Project { input, .. } => labels_are_lines(catalog, model, *input),
        PlanView::NestedProject { input, .. } => labels_are_lines(catalog, model, *input),
        PlanView::Sort { input, .. } => labels_are_lines(catalog, model, *input),
        PlanView::Limit { input, .. } => labels_are_lines(catalog, model, *input),
        PlanView::Offset { input, .. } => labels_are_lines(catalog, model, *input),
        PlanView::Aggregate { input, .. } => labels_are_lines(catalog, model, *input),
        PlanView::Distinct { input } => labels_are_lines(catalog, model, *input),
        PlanView::GroupBy { input, .. } => labels_are_lines(catalog, model, *input),
        PlanView::Window { input, .. } => labels_are_lines(catalog, model, *input),
        PlanView::Update { input, .. } => labels_are_lines(catalog, model, *input),
        PlanView::Delete { input, .. } => labels_are_lines(catalog, model, *input),
        PlanView::Explain { input } => labels_are_lines(catalog, model, *input),
        PlanView::NestedLoopJoin { left, right, .. } => {
            labels_are_lines(catalog, model, *left);
            labels_are_lines(catalog, model, *right);
        },
        PlanView::Union { left, right, .. } => {
            labels_are_lines(catalog, model, *left);
            labels_are_lines(catalog, model, *right);
        },
        _ => {},
    }
}

} // verus!
