//! `explain`: a plan as indented text, one line for each node.

use vstd::prelude::*;

use crate::catalog::{Catalog, CatalogView, IndexStats};
use crate::expr::{
    sort_keys_view, AggFunc, AggregateMode, BinOp, Expr, ExprView, SortKey, SortKeyView,
    WindowFunc,
};
use crate::group::{GroupAgg, GroupAggView, GroupKey, GroupKeyView};
use crate::join::{conjuncts, flatten_conjunctions, JoinKind};
use crate::lower::{eq_rows, estimate_eq_rows, literal_of, probes_empty_sentinel};
use crate::error::ErrorView;
use crate::plan::{
    Assignment, AssignmentView, FieldDef, FieldDefView, PlanNode, PlanView, ProjectField,
    ProjectFieldView, StoredJsonPath, StoredJsonPathView,
};
use crate::seqs::name_position;
use crate::text::{decimal, join, join_texts, position, push_decimal, push_text};
use crate::validate::{node_input, node_sides, plan_input, plan_sides};
use crate::value::ValueView;
use crate::window::{WindowDef, WindowDefView};
use crate::wording::{words, Subject, SubjectView, Wording, WordingModel};

verus! {

/// The qualifiers under which the columns of a plan go: tables and aliases.
pub open spec fn plan_qualifiers(plan: PlanView) -> Seq<Seq<char>>
    decreases plan,
{
    match plan {
        PlanView::SeqScan { table } => seq![table],
        PlanView::IndexScan { table, .. } => seq![table],
        PlanView::RangeScan { table, .. } => seq![table],
        PlanView::ExprIndexScan { table, .. } => seq![table],
        PlanView::ExprRangeScan { table, .. } => seq![table],
        PlanView::OrderedExprIndexScan { table, .. } => seq![table],
        PlanView::AliasScan { alias, .. } => seq![alias],
        PlanView::Filter { input, .. } => plan_qualifiers(*input),
        PlanView::Project { input, .. } => plan_qualifiers(*input),
        PlanView::NestedProject { input, .. } => plan_qualifiers(*input),
        PlanView::Sort { input, .. } => plan_qualifiers(*input),
        PlanView::Limit { input, .. } => plan_qualifiers(*input),
        PlanView::Offset { input, .. } => plan_qualifiers(*input),
        PlanView::Aggregate { input, .. } => plan_qualifiers(*input),
        PlanView::Distinct { input, .. } => plan_qualifiers(*input),
        PlanView::GroupBy { input, .. } => plan_qualifiers(*input),
        PlanView::Window { input, .. } => plan_qualifiers(*input),
        PlanView::Update { input, .. } => plan_qualifiers(*input),
        PlanView::Delete { input, .. } => plan_qualifiers(*input),
        PlanView::Explain { input, .. } => plan_qualifiers(*input),
        PlanView::NestedLoopJoin { left, right, .. } => plan_qualifiers(*left) + plan_qualifiers(
            *right,
        ),
        PlanView::Union { left, right, .. } => plan_qualifiers(*left) + plan_qualifiers(*right),
        _ => Seq::empty(),
    }
}

/// Append the qualifiers of a plan to `out`.
pub fn collect_plan_qualifiers(plan: &PlanNode, out: &mut Vec<String>)
    ensures
        final(out).deep_view() == old(out).deep_view() + plan_qualifiers(plan.deep_view()),
    decreases plan,
{
    let ghost before = out.deep_view();
    match plan_input(plan) {
        Some(input) => {
            collect_plan_qualifiers(input, out);
            return;
        },
        None => {},
    }
    match plan_sides(plan) {
        Some((left, right)) => {
            collect_plan_qualifiers(left, out);
            collect_plan_qualifiers(right, out);
        },
        None => match plan {
            PlanNode::SeqScan { table } => out.push(table.clone()),
            PlanNode::IndexScan { table, .. } => out.push(table.clone()),
            PlanNode::RangeScan { table, .. } => out.push(table.clone()),
            PlanNode::ExprIndexScan { table, .. } => out.push(table.clone()),
            PlanNode::ExprRangeScan { table, .. } => out.push(table.clone()),
            PlanNode::OrderedExprIndexScan { table, .. } => out.push(table.clone()),
            PlanNode::AliasScan { alias, .. } => out.push(alias.clone()),
            _ => {},
        },
    }
    assert(out.deep_view() =~= before + plan_qualifiers(plan.deep_view()));
}

/// The qualifier of a qualified column.
pub open spec fn qualifier_of(expr: ExprView) -> Option<Seq<char>> {
    match expr {
        ExprView::QualifiedField { qualifier, .. } => Some(qualifier),
        _ => None,
    }
}

/// The qualifier of a qualified column.
pub fn qualified_ref(expr: &Expr) -> (qualifier: Option<&String>)
    ensures
        qualifier.deep_view() == qualifier_of(expr.deep_view()),
{
    match expr {
        Expr::QualifiedField { qualifier, .. } => Some(qualifier),
        _ => None,
    }
}

/// An equality of a qualified column of each side.
pub open spec fn crosses_sides(expr: ExprView, left: Seq<Seq<char>>, right: Seq<Seq<char>>) -> bool {
    match expr {
        ExprView::BinaryOp(lhs, BinOp::Eq, rhs) => match (qualifier_of(*lhs), qualifier_of(*rhs)) {
            (Some(l), Some(r)) => (name_position(left, l) is Some && name_position(
                right,
                r,
            ) is Some) || (name_position(left, r) is Some && name_position(right, l) is Some),
            _ => false,
        },
        _ => false,
    }
}

/// Some conjunct from `i` on is an equality of a column of each side.
pub open spec fn any_crosses(
    parts: Seq<ExprView>,
    i: int,
    left: Seq<Seq<char>>,
    right: Seq<Seq<char>>,
) -> bool
    decreases parts.len() - i,
{
    0 <= i < parts.len() && (crosses_sides(parts[i], left, right) || any_crosses(
        parts,
        i + 1,
        left,
        right,
    ))
}

/// How a join is said to run: by a hash table where some conjunct equates
/// columns of the two sides, with the other conjuncts tested after it; by
/// testing pairs otherwise.
pub open spec fn join_strategy(
    left: PlanView,
    right: PlanView,
    on: Option<ExprView>,
    kind: JoinKind,
) -> Seq<char> {
    if kind == JoinKind::Cross || on is None {
        "nested-loop-bounded"@
    } else if any_crosses(conjuncts(on->0), 0, plan_qualifiers(left), plan_qualifiers(right)) {
        if conjuncts(on->0).len() > 1 {
            "hash+residual"@
        } else {
            "hash"@
        }
    } else {
        "nested-loop-bounded"@
    }
}

fn expr_crosses_sides(expr: &Expr, left: &Vec<String>, right: &Vec<String>) -> (crosses: bool)
    ensures
        crosses == crosses_sides(expr.deep_view(), left.deep_view(), right.deep_view()),
{
    match expr {
        Expr::BinaryOp(lhs, BinOp::Eq, rhs) => match (qualified_ref(lhs), qualified_ref(rhs)) {
            (Some(l), Some(r)) => (position(left, l).is_some() && position(right, r).is_some()) || (
            position(left, r).is_some() && position(right, l).is_some()),
            _ => false,
        },
        _ => false,
    }
}

/// How a join is said to run.
pub fn explain_join_strategy(
    left: &PlanNode,
    right: &PlanNode,
    on: &Option<Expr>,
    kind: JoinKind,
) -> (strategy: &'static str)
    ensures
        strategy@ == join_strategy(
            left.deep_view(),
            right.deep_view(),
            on.deep_view(),
            kind,
        ),
{
    if kind == JoinKind::Cross {
        return "nested-loop-bounded";
    }
    let predicate = match on {
        Some(predicate) => predicate,
        None => {
            return "nested-loop-bounded";
        },
    };
    let mut parts: Vec<&Expr> = Vec::new();
    flatten_conjunctions(predicate, &mut parts);
    let ghost views = conjuncts(predicate.deep_view());
    assert(parts.deep_view() =~= views);
    assert(parts.len() == views.len()) by {
        assert(parts.deep_view().len() == parts.len());
    }
    let mut left_names: Vec<String> = Vec::new();
    let mut right_names: Vec<String> = Vec::new();
    collect_plan_qualifiers(left, &mut left_names);
    collect_plan_qualifiers(right, &mut right_names);
    assert(left_names.deep_view() =~= plan_qualifiers(left.deep_view()));
    assert(right_names.deep_view() =~= plan_qualifiers(right.deep_view()));
    let ghost (ls, rs) = (left_names.deep_view(), right_names.deep_view());
    let mut found: bool = false;
    let mut i: usize = 0;
    while i < parts.len() && !found
        invariant
            i <= parts.len(),
            parts.deep_view() == views,
            parts.len() == views.len(),
            ls == left_names.deep_view(),
            rs == right_names.deep_view(),
            any_crosses(views, 0, ls, rs) == (found || any_crosses(views, i as int, ls, rs)),
        decreases parts.len() - i,
    {
        assert(views[i as int] == parts[i as int].deep_view());
        if expr_crosses_sides(parts[i], &left_names, &right_names) {
            found = true;
        }
        i = i + 1;
    }
    if found {
        if parts.len() > 1 {
            "hash+residual"
        } else {
            "hash"
        }
    } else {
        "nested-loop-bounded"
    }
}

/// The name of an aggregate function.
pub open spec fn agg_name(x: AggFunc) -> Seq<char> {
    match x {
        AggFunc::Count => "Count"@,
        AggFunc::CountDistinct => "CountDistinct"@,
        AggFunc::Sum => "Sum"@,
        AggFunc::Avg => "Avg"@,
        AggFunc::Min => "Min"@,
        AggFunc::Max => "Max"@,
    }
}

fn agg_name_text(x: AggFunc) -> (text: &'static str)
    ensures
        text@ == agg_name(x),
{
    match x {
        AggFunc::Count => "Count",
        AggFunc::CountDistinct => "CountDistinct",
        AggFunc::Sum => "Sum",
        AggFunc::Avg => "Avg",
        AggFunc::Min => "Min",
        AggFunc::Max => "Max",
    }
}

/// The name of an aggregate mode.
pub open spec fn mode_name(x: AggregateMode) -> Seq<char> {
    match x {
        AggregateMode::Raw => "Raw"@,
        AggregateMode::Symmetric => "Symmetric"@,
    }
}

fn mode_name_text(x: AggregateMode) -> (text: &'static str)
    ensures
        text@ == mode_name(x),
{
    match x {
        AggregateMode::Raw => "Raw",
        AggregateMode::Symmetric => "Symmetric",
    }
}

/// The name of a window function.
pub open spec fn window_name(x: WindowFunc) -> Seq<char> {
    match x {
        WindowFunc::RowNumber => "RowNumber"@,
        WindowFunc::Rank => "Rank"@,
        WindowFunc::DenseRank => "DenseRank"@,
        WindowFunc::Sum => "Sum"@,
        WindowFunc::Avg => "Avg"@,
        WindowFunc::Count => "Count"@,
        WindowFunc::Min => "Min"@,
        WindowFunc::Max => "Max"@,
    }
}

fn window_name_text(x: WindowFunc) -> (text: &'static str)
    ensures
        text@ == window_name(x),
{
    match x {
        WindowFunc::RowNumber => "RowNumber",
        WindowFunc::Rank => "Rank",
        WindowFunc::DenseRank => "DenseRank",
        WindowFunc::Sum => "Sum",
        WindowFunc::Avg => "Avg",
        WindowFunc::Count => "Count",
        WindowFunc::Min => "Min",
        WindowFunc::Max => "Max",
    }
}

/// The name of a kind of join.
pub open spec fn kind_name(x: JoinKind) -> Seq<char> {
    match x {
        JoinKind::Inner => "Inner"@,
        JoinKind::LeftOuter => "LeftOuter"@,
        JoinKind::RightOuter => "RightOuter"@,
        JoinKind::Cross => "Cross"@,
    }
}

fn kind_name_text(x: JoinKind) -> (text: &'static str)
    ensures
        text@ == kind_name(x),
{
    match x {
        JoinKind::Inner => "Inner",
        JoinKind::LeftOuter => "LeftOuter",
        JoinKind::RightOuter => "RightOuter",
        JoinKind::Cross => "Cross",
    }
}

/// `true` or `false`.
pub open spec fn bool_name(b: bool) -> Seq<char> {
    if b {
        "true"@
    } else {
        "false"@
    }
}

fn bool_name_text(b: bool) -> (text: &'static str)
    ensures
        text@ == bool_name(b),
{
    if b {
        "true"
    } else {
        "false"
    }
}

/// One end of a range, or that it is open.
pub open spec fn range_end(
    model: WordingModel,
    bound: Option<(ExprView, bool)>,
    closed: Seq<char>,
    open: Seq<char>,
) -> Seq<char> {
    match bound {
        Some((key, inclusive)) => (if inclusive {
            closed
        } else {
            open
        }) + words(model, SubjectView::Expr(key)),
        None => "unbounded"@,
    }
}

fn push_range_end<T: Fn(Subject) -> Option<String>>(
    out: &mut String,
    wording: &Wording<T>,
    bound: &Option<(Expr, bool)>,
    closed: &str,
    open: &str,
)
    requires
        wording.ok(),
    ensures
        final(out)@ == old(out)@ + range_end(wording.model@, bound.deep_view(), closed@, open@),
{
    match bound {
        Some((key, inclusive)) => {
            if *inclusive {
                push_text(out, closed);
            } else {
                push_text(out, open);
            }
            let text = wording.word(Subject::Expr(key));
            push_text(out, text.as_str());
            assert(out@ =~= old(out)@ + range_end(
                wording.model@,
                bound.deep_view(),
                closed@,
                open@,
            ));
        },
        None => push_text(out, "unbounded"),
    }
}

/// A bound, spelled out.
pub open spec fn bound_words(model: WordingModel, bound: Option<(ExprView, bool)>) -> Seq<char> {
    match bound {
        Some((key, inclusive)) => "Some(("@ + words(model, SubjectView::Expr(key)) + ", "@ + bool_name(
            inclusive,
        ) + "))"@,
        None => "None"@,
    }
}

fn push_bound<T: Fn(Subject) -> Option<String>>(out: &mut String, wording: &Wording<T>, bound: &Option<(Expr, bool)>)
    requires
        wording.ok(),
    ensures
        final(out)@ == old(out)@ + bound_words(wording.model@, bound.deep_view()),
{
    match bound {
        Some((key, inclusive)) => {
            push_text(out, "Some((");
            let text = wording.word(Subject::Expr(key));
            push_text(out, text.as_str());
            push_text(out, ", ");
            push_text(out, bool_name_text(*inclusive));
            push_text(out, "))");
            assert(out@ =~= old(out)@ + bound_words(wording.model@, bound.deep_view()));
        },
        None => push_text(out, "None"),
    }
}

/// An optional expression, spelled out.
pub open spec fn opt_words(model: WordingModel, expr: Option<ExprView>) -> Seq<char> {
    match expr {
        Some(expr) => "Some("@ + words(model, SubjectView::Expr(expr)) + ")"@,
        None => "None"@,
    }
}

fn push_opt<T: Fn(Subject) -> Option<String>>(out: &mut String, wording: &Wording<T>, expr: &Option<Expr>)
    requires
        wording.ok(),
    ensures
        final(out)@ == old(out)@ + opt_words(wording.model@, expr.deep_view()),
{
    match expr {
        Some(expr) => {
            push_text(out, "Some(");
            let text = wording.word(Subject::Expr(expr));
            push_text(out, text.as_str());
            push_text(out, ")");
            assert(out@ =~= old(out)@ + opt_words(wording.model@, Some(expr.deep_view())));
        },
        None => push_text(out, "None"),
    }
}

/// What is counted of an index and what a lookup in it is expected to find.
pub open spec fn stats_words(stats: Option<IndexStats>, unique: bool, key: ExprView) -> Seq<char> {
    match stats {
        Some(stats) => " est_rows="@ + decimal(
            (if unique {
                1
            } else {
                eq_rows(
                    stats,
                    literal_of(key) == Ok::<ValueView, ErrorView>(ValueView::Empty),
                )
            }) as nat,
        ) + " entries="@ + decimal(stats.total_entries as nat) + " distinct="@ + decimal(
            stats.distinct_keys as nat,
        ),
        None => Seq::empty(),
    }
}

fn push_stats(out: &mut String, stats: Option<IndexStats>, unique: bool, key: &Expr)
    ensures
        final(out)@ == old(out)@ + stats_words(stats, unique, key.deep_view()),
{
    match stats {
        Some(stats) => {
            let estimate: u64 = if unique {
                1
            } else {
                estimate_eq_rows(&stats, probes_empty_sentinel(key))
            };
            push_text(out, " est_rows=");
            push_decimal(out, estimate);
            push_text(out, " entries=");
            push_decimal(out, stats.total_entries);
            push_text(out, " distinct=");
            push_decimal(out, stats.distinct_keys);
            assert(out@ =~= old(out)@ + stats_words(Some(stats), unique, key.deep_view()));
        },
        None => {
            assert(out@ =~= old(out)@ + stats_words(None, unique, key.deep_view()));
        },
    }
}

/// The number of the index on a path, where there is one.
pub open spec fn index_number(catalog: CatalogView, table: Seq<char>, path: StoredJsonPathView) -> Seq<
    char,
> {
    match catalog.expression_index(table, path) {
        Some(index) => decimal(index.index_id as nat),
        None => "unresolved"@,
    }
}

fn push_index_number(out: &mut String, catalog: &Catalog, table: &String, path: &StoredJsonPath)
    ensures
        final(out)@ == old(out)@ + index_number(catalog.deep_view(), table@, path.deep_view()),
{
    match catalog.resolve_expression_index(table, path) {
        Some(index) => push_decimal(out, index.index_id),
        None => push_text(out, "unresolved"),
    }
}

/// A field of a projection, spelled out.
pub open spec fn field_words(model: WordingModel, item: ProjectFieldView) -> Seq<char> {
    match item.alias {
        Some(alias) => alias + ": "@ + words(model, SubjectView::Expr(item.expr)),
        None => words(model, SubjectView::Expr(item.expr)),
    }
}

/// A field of a projection, spelled out, for each.
pub open spec fn field_list(model: WordingModel, items: Seq<ProjectFieldView>) -> Seq<Seq<char>> {
    Seq::new(items.len(), |i: int| field_words(model, items[i]))
}

fn field_texts<T: Fn(Subject) -> Option<String>>(wording: &Wording<T>, items: &Vec<ProjectField>) -> (texts: Vec<String>)
    requires
        wording.ok(),
    ensures
        texts.deep_view() == field_list(wording.model@, items.deep_view()),
{
    let mut texts: Vec<String> = Vec::new();
    let mut i: usize = 0;
    while i < items.len()
        invariant
            i <= items.len(),
            wording.ok(),
            texts.len() == i,
            forall|j: int|
                0 <= j < i ==> (#[trigger] texts[j])@ == field_words(wording.model@, items.deep_view()[j]),
        decreases items.len() - i,
    {
        let item = &items[i];
        let ghost shown = items.deep_view()[i as int];
        let mut text = String::new();
        match &item.alias {
            Some(alias) => {
                push_text(&mut text, alias.as_str());
                push_text(&mut text, ": ");
            },
            None => {},
        }
        let spelled = wording.word(Subject::Expr(&item.expr));
        push_text(&mut text, spelled.as_str());
        assert(text@ =~= field_words(wording.model@, shown));
        texts.push(text);
        i = i + 1;
    }
    assert(texts.deep_view() =~= field_list(wording.model@, items.deep_view()));
    texts
}

/// A key of an `order` clause, by name.
pub open spec fn order_words(model: WordingModel, item: SortKeyView) -> Seq<char> {
    if item.descending {
        words(model, SubjectView::Name(item.expr)) + " desc"@
    } else {
        words(model, SubjectView::Name(item.expr))
    }
}

/// A key of an `order` clause, by name, for each.
pub open spec fn order_list(model: WordingModel, items: Seq<SortKeyView>) -> Seq<Seq<char>> {
    Seq::new(items.len(), |i: int| order_words(model, items[i]))
}

fn order_texts<T: Fn(Subject) -> Option<String>>(wording: &Wording<T>, items: &Vec<SortKey>) -> (texts: Vec<String>)
    requires
        wording.ok(),
    ensures
        texts.deep_view() == order_list(wording.model@, sort_keys_view(items@)),
{
    let mut texts: Vec<String> = Vec::new();
    let mut i: usize = 0;
    while i < items.len()
        invariant
            i <= items.len(),
            wording.ok(),
            texts.len() == i,
            forall|j: int|
                0 <= j < i ==> (#[trigger] texts[j])@ == order_words(wording.model@, sort_keys_view(items@)[j]),
        decreases items.len() - i,
    {
        let item = &items[i];
        let ghost shown = sort_keys_view(items@)[i as int];
        let mut text = wording.word(Subject::Name(&item.expr));
        if item.descending {
            push_text(&mut text, " desc");
        }
        assert(text@ =~= order_words(wording.model@, shown));
        texts.push(text);
        i = i + 1;
    }
    assert(texts.deep_view() =~= order_list(wording.model@, sort_keys_view(items@)));
    texts
}

/// An aggregate of a `group` clause, spelled out.
pub open spec fn group_agg_words(model: WordingModel, item: GroupAggView) -> Seq<char> {
    agg_name(item.function) + "("@ + words(model, SubjectView::Name(item.argument)) + ") mode="@
        + mode_name(item.mode) + " as "@ + item.output_name
}

/// An aggregate of a `group` clause, spelled out, for each.
pub open spec fn group_agg_list(model: WordingModel, items: Seq<GroupAggView>) -> Seq<Seq<char>> {
    Seq::new(items.len(), |i: int| group_agg_words(model, items[i]))
}

fn group_agg_texts<T: Fn(Subject) -> Option<String>>(wording: &Wording<T>, items: &Vec<GroupAgg>) -> (texts: Vec<String>)
    requires
        wording.ok(),
    ensures
        texts.deep_view() == group_agg_list(wording.model@, items.deep_view()),
{
    let mut texts: Vec<String> = Vec::new();
    let mut i: usize = 0;
    while i < items.len()
        invariant
            i <= items.len(),
            wording.ok(),
            texts.len() == i,
            forall|j: int|
                0 <= j < i ==> (#[trigger] texts[j])@ == group_agg_words(wording.model@, items.deep_view()[j]),
        decreases items.len() - i,
    {
        let item = &items[i];
        let ghost shown = items.deep_view()[i as int];
        let mut text = String::new();
        push_text(&mut text, agg_name_text(item.function));
        push_text(&mut text, "(");
        let argument = wording.word(Subject::Name(&item.argument));
        push_text(&mut text, argument.as_str());
        push_text(&mut text, ") mode=");
        push_text(&mut text, mode_name_text(item.mode));
        push_text(&mut text, " as ");
        push_text(&mut text, item.output_name.as_str());
        assert(text@ =~= group_agg_words(wording.model@, shown));
        texts.push(text);
        i = i + 1;
    }
    assert(texts.deep_view() =~= group_agg_list(wording.model@, items.deep_view()));
    texts
}

/// A key of a `group` clause, by name.
pub open spec fn group_key_words(item: GroupKeyView) -> Seq<char> {
    item.output_name
}

/// A key of a `group` clause, by name, for each.
pub open spec fn group_key_list(items: Seq<GroupKeyView>) -> Seq<Seq<char>> {
    Seq::new(items.len(), |i: int| group_key_words(items[i]))
}

fn group_key_texts(items: &Vec<GroupKey>) -> (texts: Vec<String>)
    ensures
        texts.deep_view() == group_key_list(items.deep_view()),
{
    let mut texts: Vec<String> = Vec::new();
    let mut i: usize = 0;
    while i < items.len()
        invariant
            i <= items.len(),
            texts.len() == i,
            forall|j: int|
                0 <= j < i ==> (#[trigger] texts[j])@ == group_key_words(items.deep_view()[j]),
        decreases items.len() - i,
    {
        let item = &items[i];
        let ghost shown = items.deep_view()[i as int];
        let text = item.output_name.clone();
        assert(text@ =~= group_key_words(shown));
        texts.push(text);
        i = i + 1;
    }
    assert(texts.deep_view() =~= group_key_list(items.deep_view()));
    texts
}

/// The field of an assignment.
pub open spec fn assigned_words(item: AssignmentView) -> Seq<char> {
    item.field
}

/// The field of an assignment, for each.
pub open spec fn assigned_list(items: Seq<AssignmentView>) -> Seq<Seq<char>> {
    Seq::new(items.len(), |i: int| assigned_words(items[i]))
}

fn assigned_texts(items: &Vec<Assignment>) -> (texts: Vec<String>)
    ensures
        texts.deep_view() == assigned_list(items.deep_view()),
{
    let mut texts: Vec<String> = Vec::new();
    let mut i: usize = 0;
    while i < items.len()
        invariant
            i <= items.len(),
            texts.len() == i,
            forall|j: int|
                0 <= j < i ==> (#[trigger] texts[j])@ == assigned_words(items.deep_view()[j]),
        decreases items.len() - i,
    {
        let item = &items[i];
        let ghost shown = items.deep_view()[i as int];
        let text = item.field.clone();
        assert(text@ =~= assigned_words(shown));
        texts.push(text);
        i = i + 1;
    }
    assert(texts.deep_view() =~= assigned_list(items.deep_view()));
    texts
}

/// A window column, spelled out.
pub open spec fn window_def_words(item: WindowDefView) -> Seq<char> {
    window_name(item.function) + " as "@ + item.output_name
}

/// A window column, spelled out, for each.
pub open spec fn window_def_list(items: Seq<WindowDefView>) -> Seq<Seq<char>> {
    Seq::new(items.len(), |i: int| window_def_words(items[i]))
}

fn window_def_texts(items: &Vec<WindowDef>) -> (texts: Vec<String>)
    ensures
        texts.deep_view() == window_def_list(items.deep_view()),
{
    let mut texts: Vec<String> = Vec::new();
    let mut i: usize = 0;
    while i < items.len()
        invariant
            i <= items.len(),
            texts.len() == i,
            forall|j: int|
                0 <= j < i ==> (#[trigger] texts[j])@ == window_def_words(items.deep_view()[j]),
        decreases items.len() - i,
    {
        let item = &items[i];
        let ghost shown = items.deep_view()[i as int];
        let mut text = String::new();
        push_text(&mut text, window_name_text(item.function));
        push_text(&mut text, " as ");
        push_text(&mut text, item.output_name.as_str());
        assert(text@ =~= window_def_words(shown));
        texts.push(text);
        i = i + 1;
    }
    assert(texts.deep_view() =~= window_def_list(items.deep_view()));
    texts
}

/// A declared field, spelled out.
pub open spec fn field_def_words(item: FieldDefView) -> Seq<char> {
    item.name + ": "@ + item.declared + (if item.required {
        " required"@
    } else {
        Seq::empty()
    }) + (if item.unique {
        " unique"@
    } else {
        Seq::empty()
    })
}

/// A declared field, spelled out, for each.
pub open spec fn field_def_list(items: Seq<FieldDefView>) -> Seq<Seq<char>> {
    Seq::new(items.len(), |i: int| field_def_words(items[i]))
}

fn field_def_texts(items: &Vec<FieldDef>) -> (texts: Vec<String>)
    ensures
        texts.deep_view() == field_def_list(items.deep_view()),
{
    let mut texts: Vec<String> = Vec::new();
    let mut i: usize = 0;
    while i < items.len()
        invariant
            i <= items.len(),
            texts.len() == i,
            forall|j: int|
                0 <= j < i ==> (#[trigger] texts[j])@ == field_def_words(items.deep_view()[j]),
        decreases items.len() - i,
    {
        let item = &items[i];
        let ghost shown = items.deep_view()[i as int];
        let mut text = item.name.clone();
        push_text(&mut text, ": ");
        push_text(&mut text, item.declared.as_str());
        if item.required {
            push_text(&mut text, " required");
        }
        if item.unique {
            push_text(&mut text, " unique");
        }
        assert(text@ =~= field_def_words(shown));
        texts.push(text);
        i = i + 1;
    }
    assert(texts.deep_view() =~= field_def_list(items.deep_view()));
    texts
}

/// The line of a node, without its indent.
pub open spec fn node_label(catalog: CatalogView, model: WordingModel, plan: PlanView) -> Seq<char> {
    match plan {
        PlanView::SeqScan { table } => "SeqScan table="@
            + table,
        PlanView::AliasScan { table, alias } => "AliasScan table="@
            + table
            + " alias="@
            + alias,
        PlanView::IndexScan { table, column, key } => "IndexScan table="@
            + table
            + " column="@
            + column
            + " key="@
            + words(model, SubjectView::Expr(key))
            + stats_words(
            catalog.index_stats(table, column),
            catalog.is_index_unique(table, column) == Some(true),
            key,
        ),
        PlanView::RangeScan { table, column, start, end } => "RangeScan table="@
            + table
            + " column="@
            + column
            + " ["@
            + range_end(model, start, ">="@, ">"@)
            + ", "@
            + range_end(model, end, "<="@, "<"@)
            + "]"@,
        PlanView::ExprIndexScan { table, path, key } => "ExprIndexScan table="@
            + table
            + " path="@
            + words(model, SubjectView::Path(path))
            + " index_id="@
            + index_number(catalog, table, path)
            + " key="@
            + words(model, SubjectView::Expr(key))
            + (match catalog.expression_index(table, path) {
            Some(index) => stats_words(index.stats, index.unique, key),
            None => Seq::empty(),
        }),
        PlanView::ExprRangeScan { table, path, start, end } => "ExprRangeScan table="@
            + table
            + " path="@
            + words(model, SubjectView::Path(path))
            + " index_id="@
            + index_number(catalog, table, path)
            + " start="@
            + bound_words(model, start)
            + " end="@
            + bound_words(model, end),
        PlanView::OrderedExprIndexScan { table, path, descending, limit, offset } => "OrderedExprIndexScan table="@
            + table
            + " path="@
            + words(model, SubjectView::Path(path))
            + " index_id="@
            + index_number(catalog, table, path)
            + " descending="@
            + bool_name(descending)
            + " limit="@
            + words(model, SubjectView::Expr(limit))
            + " offset="@
            + opt_words(model, offset),
        PlanView::Filter { predicate, .. } => "Filter predicate="@
            + words(model, SubjectView::Expr(predicate)),
        PlanView::Project { fields, .. } => "Project fields=["@
            + join_texts(field_list(model, fields), ", "@)
            + "]"@,
        PlanView::NestedProject { .. } => "NestedProject"@,
        PlanView::Sort { keys, .. } => "Sort keys=["@
            + join_texts(order_list(model, keys), ", "@)
            + "]"@,
        PlanView::Limit { count, .. } => "Limit count="@
            + words(model, SubjectView::Expr(count)),
        PlanView::Offset { count, .. } => "Offset count="@
            + words(model, SubjectView::Expr(count)),
        PlanView::Aggregate { function, argument, mode, .. } => "Aggregate fn="@
            + agg_name(function)
            + " mode="@
            + mode_name(mode)
            + " argument="@
            + (match argument {
            Some(argument) => words(model, SubjectView::Name(argument)),
            None => "*"@,
        }),
        PlanView::NestedLoopJoin { left, right, on, kind } => "NestedLoopJoin kind="@
            + kind_name(kind)
            + " strategy="@
            + join_strategy(*left, *right, on, kind)
            + " on="@
            + (match on {
            Some(on) => words(model, SubjectView::Expr(on)),
            None => "none"@,
        }),
        PlanView::Distinct { .. } => "Distinct"@,
        PlanView::GroupBy { keys, aggregates, having, .. } => "GroupBy keys=["@
            + join_texts(group_key_list(keys), ", "@)
            + "] aggs=["@
            + join_texts(group_agg_list(model, aggregates), ", "@)
            + "]"@
            + (match having {
            Some(having) => " having="@ + words(model, SubjectView::Expr(having)),
            None => Seq::empty(),
        }),
        PlanView::Insert { table, rows, .. } => "Insert table="@
            + table
            + " rows="@
            + decimal(rows.len() as nat)
            + " cols=["@
            + (if rows.len() > 0 {
            join_texts(assigned_list(rows[0]), ", "@)
        } else {
            Seq::empty()
        })
            + "]"@,
        PlanView::Upsert { table, key_column, assignments, on_conflict } => "Upsert table="@
            + table
            + " key="@
            + key_column
            + " cols=["@
            + join_texts(assigned_list(assignments), ", "@)
            + "]"@
            + (if on_conflict.len() > 0 {
            " on_conflict=["@ + join_texts(assigned_list(on_conflict), ", "@) + "]"@
        } else {
            Seq::empty()
        }),
        PlanView::Update { table, assignments, returning, .. } => "Update table="@
            + table
            + " set=["@
            + join_texts(assigned_list(assignments), ", "@)
            + "]"@
            + (if returning {
            " returning"@
        } else {
            Seq::empty()
        }),
        PlanView::Delete { table, returning, .. } => "Delete table="@
            + table
            + (if returning {
            " returning"@
        } else {
            Seq::empty()
        }),
        PlanView::CreateTable { name, fields, .. } => "CreateTable name="@
            + name
            + " fields=["@
            + join_texts(field_def_list(fields), ", "@)
            + "]"@,
        PlanView::CreateLink { owner, name, .. } => "CreateLink owner="@
            + owner
            + " name="@
            + name,
        PlanView::AlterTable { table, action } => "AlterTable table="@
            + table
            + " action="@
            + words(model, SubjectView::Action(action)),
        PlanView::DropTable { name, .. } => "DropTable name="@
            + name,
        PlanView::CreateView { name, .. } => "CreateView name="@
            + name,
        PlanView::RefreshView { name } => "RefreshView name="@
            + name,
        PlanView::DropView { name, .. } => "DropView name="@
            + name,
        PlanView::ListTypes => "ListTypes"@,
        PlanView::ListLinks => "ListLinks"@,
        PlanView::Describe { table } => "Describe table="@
            + table,
        PlanView::Window { windows, .. } => "Window fns=["@
            + join_texts(window_def_list(windows), ", "@)
            + "]"@,
        PlanView::Union { all, .. } => (if all {
            "UNION ALL"@
        } else {
            "UNION"@
        }),
        PlanView::Explain { .. } => "Explain"@,
        PlanView::Begin => "Begin"@,
        PlanView::Commit => "Commit"@,
        PlanView::Rollback => "Rollback"@,
    }
}

#[verifier::spinoff_prover]
#[verifier::rlimit(60)]
fn plan_label<T: Fn(Subject) -> Option<String>>(catalog: &Catalog, wording: &Wording<T>, plan: &PlanNode) -> (label: String)
    requires
        wording.ok(),
    ensures
        label@ == node_label(catalog.deep_view(), wording.model@, plan.deep_view()),
{
    let ghost (cat, model) = (catalog.deep_view(), wording.model@);
    let mut out = String::new();
    match plan {
        PlanNode::SeqScan { table } => {
            push_text(&mut out, "SeqScan table=");
            push_text(&mut out, table.as_str());
        },
        PlanNode::AliasScan { table, alias } => {
            push_text(&mut out, "AliasScan table=");
            push_text(&mut out, table.as_str());
            push_text(&mut out, " alias=");
            push_text(&mut out, alias.as_str());
        },
        PlanNode::IndexScan { table, column, key } => {
            push_text(&mut out, "IndexScan table=");
            push_text(&mut out, table.as_str());
            push_text(&mut out, " column=");
            push_text(&mut out, column.as_str());
            push_text(&mut out, " key=");
            let text = wording.word(Subject::Expr(key));
            push_text(&mut out, text.as_str());
            let unique: bool = match catalog.is_index_unique(table, column) {
                Some(unique) => unique,
                None => false,
            };
            push_stats(&mut out, catalog.index_stats(table, column), unique, key);
        },
        PlanNode::RangeScan { table, column, start, end } => {
            push_text(&mut out, "RangeScan table=");
            push_text(&mut out, table.as_str());
            push_text(&mut out, " column=");
            push_text(&mut out, column.as_str());
            push_text(&mut out, " [");
            push_range_end(&mut out, wording, start, ">=", ">");
            push_text(&mut out, ", ");
            push_range_end(&mut out, wording, end, "<=", "<");
            push_text(&mut out, "]");
        },
        PlanNode::ExprIndexScan { table, path, key } => {
            push_text(&mut out, "ExprIndexScan table=");
            push_text(&mut out, table.as_str());
            push_text(&mut out, " path=");
            let text = wording.word(Subject::Path(path));
            push_text(&mut out, text.as_str());
            push_text(&mut out, " index_id=");
            push_index_number(&mut out, catalog, table, path);
            push_text(&mut out, " key=");
            let text = wording.word(Subject::Expr(key));
            push_text(&mut out, text.as_str());
            match catalog.resolve_expression_index(table, path) {
                Some(index) => push_stats(&mut out, index.stats, index.unique, key),
                None => {},
            }
        },
        PlanNode::ExprRangeScan { table, path, start, end } => {
            push_text(&mut out, "ExprRangeScan table=");
            push_text(&mut out, table.as_str());
            push_text(&mut out, " path=");
            let text = wording.word(Subject::Path(path));
            push_text(&mut out, text.as_str());
            push_text(&mut out, " index_id=");
            push_index_number(&mut out, catalog, table, path);
            push_text(&mut out, " start=");
            push_bound(&mut out, wording, start);
            push_text(&mut out, " end=");
            push_bound(&mut out, wording, end);
        },
        PlanNode::OrderedExprIndexScan { table, path, descending, limit, offset } => {
            push_text(&mut out, "OrderedExprIndexScan table=");
            push_text(&mut out, table.as_str());
            push_text(&mut out, " path=");
            let text = wording.word(Subject::Path(path));
            push_text(&mut out, text.as_str());
            push_text(&mut out, " index_id=");
            push_index_number(&mut out, catalog, table, path);
            push_text(&mut out, " descending=");
            push_text(&mut out, bool_name_text(*descending));
            push_text(&mut out, " limit=");
            let text = wording.word(Subject::Expr(limit));
            push_text(&mut out, text.as_str());
            push_text(&mut out, " offset=");
            push_opt(&mut out, wording, offset);
        },
        PlanNode::Filter { predicate, .. } => {
            push_text(&mut out, "Filter predicate=");
            let text = wording.word(Subject::Expr(predicate));
            push_text(&mut out, text.as_str());
        },
        PlanNode::Project { fields, .. } => {
            push_text(&mut out, "Project fields=[");
            let texts = field_texts(wording, fields);
            let text = join(&texts, ", ");
            push_text(&mut out, text.as_str());
            push_text(&mut out, "]");
        },
        PlanNode::NestedProject { .. } => {
            push_text(&mut out, "NestedProject");
        },
        PlanNode::Sort { keys, .. } => {
            push_text(&mut out, "Sort keys=[");
            let texts = order_texts(wording, keys);
            let text = join(&texts, ", ");
            push_text(&mut out, text.as_str());
            push_text(&mut out, "]");
        },
        PlanNode::Limit { count, .. } => {
            push_text(&mut out, "Limit count=");
            let text = wording.word(Subject::Expr(count));
            push_text(&mut out, text.as_str());
        },
        PlanNode::Offset { count, .. } => {
            push_text(&mut out, "Offset count=");
            let text = wording.word(Subject::Expr(count));
            push_text(&mut out, text.as_str());
        },
        PlanNode::Aggregate { function, argument, mode, .. } => {
            push_text(&mut out, "Aggregate fn=");
            push_text(&mut out, agg_name_text(*function));
            push_text(&mut out, " mode=");
            push_text(&mut out, mode_name_text(*mode));
            push_text(&mut out, " argument=");
            match argument {
                Some(argument) => {
                    let text = wording.word(Subject::Name(argument));
                    push_text(&mut out, text.as_str());
                },
                None => push_text(&mut out, "*"),
            }
        },
        PlanNode::NestedLoopJoin { left, right, on, kind } => {
            push_text(&mut out, "NestedLoopJoin kind=");
            push_text(&mut out, kind_name_text(*kind));
            push_text(&mut out, " strategy=");
            push_text(&mut out, explain_join_strategy(left, right, on, *kind));
            push_text(&mut out, " on=");
            match on {
                Some(on) => {
                    let text = wording.word(Subject::Expr(on));
                    push_text(&mut out, text.as_str());
                },
                None => push_text(&mut out, "none"),
            }
        },
        PlanNode::Distinct { .. } => {
            push_text(&mut out, "Distinct");
        },
        PlanNode::GroupBy { keys, aggregates, having, .. } => {
            push_text(&mut out, "GroupBy keys=[");
            let texts = group_key_texts(keys);
            let text = join(&texts, ", ");
            push_text(&mut out, text.as_str());
            push_text(&mut out, "] aggs=[");
            let texts = group_agg_texts(wording, aggregates);
            let text = join(&texts, ", ");
            push_text(&mut out, text.as_str());
            push_text(&mut out, "]");
            match having {
                Some(having) => {
                    push_text(&mut out, " having=");
                    let text = wording.word(Subject::Expr(having));
                    push_text(&mut out, text.as_str());
                },
                None => {},
            }
        },
        PlanNode::Insert { table, rows, .. } => {
            push_text(&mut out, "Insert table=");
            push_text(&mut out, table.as_str());
            push_text(&mut out, " rows=");
            push_decimal(&mut out, rows.len() as u64);
            push_text(&mut out, " cols=[");
            if rows.len() > 0 {
                assert(rows.deep_view()[0] == rows[0].deep_view());
                let texts = assigned_texts(&rows[0]);
                let text = join(&texts, ", ");
                push_text(&mut out, text.as_str());
            }
            push_text(&mut out, "]");
        },
        PlanNode::Upsert { table, key_column, assignments, on_conflict } => {
            push_text(&mut out, "Upsert table=");
            push_text(&mut out, table.as_str());
            push_text(&mut out, " key=");
            push_text(&mut out, key_column.as_str());
            push_text(&mut out, " cols=[");
            let texts = assigned_texts(assignments);
            let text = join(&texts, ", ");
            push_text(&mut out, text.as_str());
            push_text(&mut out, "]");
            if on_conflict.len() > 0 {
                push_text(&mut out, " on_conflict=[");
                let texts = assigned_texts(on_conflict);
                let text = join(&texts, ", ");
                push_text(&mut out, text.as_str());
                push_text(&mut out, "]");
            }
        },
        PlanNode::Update { table, assignments, returning, .. } => {
            push_text(&mut out, "Update table=");
            push_text(&mut out, table.as_str());
            push_text(&mut out, " set=[");
            let texts = assigned_texts(assignments);
            let text = join(&texts, ", ");
            push_text(&mut out, text.as_str());
            push_text(&mut out, "]");
            if *returning {
                push_text(&mut out, " returning");
            }
        },
        PlanNode::Delete { table, returning, .. } => {
            push_text(&mut out, "Delete table=");
            push_text(&mut out, table.as_str());
            if *returning {
                push_text(&mut out, " returning");
            }
        },
        PlanNode::CreateTable { name, fields, .. } => {
            push_text(&mut out, "CreateTable name=");
            push_text(&mut out, name.as_str());
            push_text(&mut out, " fields=[");
            let texts = field_def_texts(fields);
            let text = join(&texts, ", ");
            push_text(&mut out, text.as_str());
            push_text(&mut out, "]");
        },
        PlanNode::CreateLink { owner, name, .. } => {
            push_text(&mut out, "CreateLink owner=");
            push_text(&mut out, owner.as_str());
            push_text(&mut out, " name=");
            push_text(&mut out, name.as_str());
        },
        PlanNode::AlterTable { table, action } => {
            push_text(&mut out, "AlterTable table=");
            push_text(&mut out, table.as_str());
            push_text(&mut out, " action=");
            let text = wording.word(Subject::Action(action));
            push_text(&mut out, text.as_str());
        },
        PlanNode::DropTable { name, .. } => {
            push_text(&mut out, "DropTable name=");
            push_text(&mut out, name.as_str());
        },
        PlanNode::CreateView { name, .. } => {
            push_text(&mut out, "CreateView name=");
            push_text(&mut out, name.as_str());
        },
        PlanNode::RefreshView { name } => {
            push_text(&mut out, "RefreshView name=");
            push_text(&mut out, name.as_str());
        },
        PlanNode::DropView { name, .. } => {
            push_text(&mut out, "DropView name=");
            push_text(&mut out, name.as_str());
        },
        PlanNode::ListTypes => {
            push_text(&mut out, "ListTypes");
        },
        PlanNode::ListLinks => {
            push_text(&mut out, "ListLinks");
        },
        PlanNode::Describe { table } => {
            push_text(&mut out, "Describe table=");
            push_text(&mut out, table.as_str());
        },
        PlanNode::Window { windows, .. } => {
            push_text(&mut out, "Window fns=[");
            let texts = window_def_texts(windows);
            let text = join(&texts, ", ");
            push_text(&mut out, text.as_str());
            push_text(&mut out, "]");
        },
        PlanNode::Union { all, .. } => {
            if *all {
                push_text(&mut out, "UNION ALL");
            } else {
                push_text(&mut out, "UNION");
            }
        },
        PlanNode::Explain { .. } => {
            push_text(&mut out, "Explain");
        },
        PlanNode::Begin => {
            push_text(&mut out, "Begin");
        },
        PlanNode::Commit => {
            push_text(&mut out, "Commit");
        },
        PlanNode::Rollback => {
            push_text(&mut out, "Rollback");
        },
    }
    assert(out@ =~= node_label(cat, model, plan.deep_view()));
    out
}

/// A plan as indented text: the line of a node, then its inputs one step
/// further in.
pub open spec fn tree_text(
    catalog: CatalogView,
    model: WordingModel,
    plan: PlanView,
    indent: Seq<char>,
) -> Seq<char>
    decreases plan,
{
    let line = indent + node_label(catalog, model, plan);
    let deeper = indent + "  "@;
    match plan {
        PlanView::Filter { input, .. } => line + "\n"@ + tree_text(catalog, model, *input, deeper),
        PlanView::Project { input, .. } => line + "\n"@ + tree_text(catalog, model, *input, deeper),
        PlanView::NestedProject { input, .. } => line + "\n"@ + tree_text(catalog, model, *input, deeper),
        PlanView::Sort { input, .. } => line + "\n"@ + tree_text(catalog, model, *input, deeper),
        PlanView::Limit { input, .. } => line + "\n"@ + tree_text(catalog, model, *input, deeper),
        PlanView::Offset { input, .. } => line + "\n"@ + tree_text(catalog, model, *input, deeper),
        PlanView::Aggregate { input, .. } => line + "\n"@ + tree_text(catalog, model, *input, deeper),
        PlanView::Distinct { input, .. } => line + "\n"@ + tree_text(catalog, model, *input, deeper),
        PlanView::GroupBy { input, .. } => line + "\n"@ + tree_text(catalog, model, *input, deeper),
        PlanView::Window { input, .. } => line + "\n"@ + tree_text(catalog, model, *input, deeper),
        PlanView::Update { input, .. } => line + "\n"@ + tree_text(catalog, model, *input, deeper),
        PlanView::Delete { input, .. } => line + "\n"@ + tree_text(catalog, model, *input, deeper),
        PlanView::Explain { input, .. } => line + "\n"@ + tree_text(catalog, model, *input, deeper),
        PlanView::NestedLoopJoin { left, right, .. } => line + "\n"@ + tree_text(
            catalog,
            model,
            *left,
            deeper,
        ) + "\n"@ + tree_text(catalog, model, *right, deeper),
        PlanView::Union { left, right, .. } => line + "\n"@ + tree_text(
            catalog,
            model,
            *left,
            deeper,
        ) + "\n"@ + tree_text(catalog, model, *right, deeper),
        _ => line,
    }
}

fn format_tree<T: Fn(Subject) -> Option<String>>(
    catalog: &Catalog,
    wording: &Wording<T>,
    plan: &PlanNode,
    indent: &String,
) -> (text: String)
    requires
        wording.ok(),
    ensures
        text@ == tree_text(catalog.deep_view(), wording.model@, plan.deep_view(), indent@),
    decreases plan,
{
    let mut text = indent.clone();
    let label = plan_label(catalog, wording, plan);
    push_text(&mut text, label.as_str());
    let mut deeper = indent.clone();
    push_text(&mut deeper, "  ");
    match plan_input(plan) {
        Some(input) => {
            let child = format_tree(catalog, wording, input, &deeper);
            push_text(&mut text, "\n");
            push_text(&mut text, child.as_str());
            return text;
        },
        None => {},
    }
    match plan_sides(plan) {
        Some((left, right)) => {
            let left_child = format_tree(catalog, wording, left, &deeper);
            let right_child = format_tree(catalog, wording, right, &deeper);
            push_text(&mut text, "\n");
            push_text(&mut text, left_child.as_str());
            push_text(&mut text, "\n");
            push_text(&mut text, right_child.as_str());
        },
        None => {},
    }
    text
}

/// The indent of a depth: two spaces for each step.
pub open spec fn indent_of(depth: nat) -> Seq<char>
    decreases depth,
{
    if depth == 0 {
        Seq::empty()
    } else {
        indent_of((depth - 1) as nat) + "  "@
    }
}

/// A plan as indented text, from this depth on.
pub fn format_plan_tree<T: Fn(Subject) -> Option<String>>(
    catalog: &Catalog,
    wording: &Wording<T>,
    plan: &PlanNode,
    depth: usize,
) -> (text: String)
    requires
        wording.ok(),
    ensures
        text@ == tree_text(
            catalog.deep_view(),
            wording.model@,
            plan.deep_view(),
            indent_of(depth as nat),
        ),
{
    let mut indent = String::new();
    let mut i: usize = 0;
    while i < depth
        invariant
            i <= depth,
            indent@ == indent_of(i as nat),
        decreases depth - i,
    {
        push_text(&mut indent, "  ");
        i = i + 1;
    }
    format_tree(catalog, wording, plan, &indent)
}

/// The text with `prefix` put after each of its line feeds.
pub open spec fn broken_with(text: Seq<char>, prefix: Seq<char>) -> Seq<char>
    decreases text.len(),
{
    if text.len() == 0 {
        Seq::empty()
    } else {
        let before = broken_with(text.drop_last(), prefix);
        if text.last() == '\n' {
            before.push('\n') + prefix
        } else {
            before.push(text.last())
        }
    }
}

/// The text with `prefix` put before each of its lines.
pub open spec fn each_line_after(text: Seq<char>, prefix: Seq<char>) -> Seq<char> {
    prefix + broken_with(text, prefix)
}

/// How many line feeds a text holds.
pub open spec fn line_feeds(text: Seq<char>) -> nat
    decreases text.len(),
{
    if text.len() == 0 {
        0
    } else {
        line_feeds(text.drop_last()) + (if text.last() == '\n' {
            1nat
        } else {
            0nat
        })
    }
}

/// The line of every node of a plan is one line.
pub open spec fn lines_whole(catalog: CatalogView, model: WordingModel, plan: PlanView) -> bool
    decreases plan,
{
    &&& !node_label(catalog, model, plan).contains('\n')
    &&& match plan {
        PlanView::Filter { input, .. } => lines_whole(catalog, model, *input),
        PlanView::Project { input, .. } => lines_whole(catalog, model, *input),
        PlanView::NestedProject { input, .. } => lines_whole(catalog, model, *input),
        PlanView::Sort { input, .. } => lines_whole(catalog, model, *input),
        PlanView::Limit { input, .. } => lines_whole(catalog, model, *input),
        PlanView::Offset { input, .. } => lines_whole(catalog, model, *input),
        PlanView::Aggregate { input, .. } => lines_whole(catalog, model, *input),
        PlanView::Distinct { input } => lines_whole(catalog, model, *input),
        PlanView::GroupBy { input, .. } => lines_whole(catalog, model, *input),
        PlanView::Window { input, .. } => lines_whole(catalog, model, *input),
        PlanView::Update { input, .. } => lines_whole(catalog, model, *input),
        PlanView::Delete { input, .. } => lines_whole(catalog, model, *input),
        PlanView::Explain { input } => lines_whole(catalog, model, *input),
        PlanView::NestedLoopJoin { left, right, .. } => lines_whole(catalog, model, *left)
            && lines_whole(catalog, model, *right),
        PlanView::Union { left, right, .. } => lines_whole(catalog, model, *left) && lines_whole(
            catalog,
            model,
            *right,
        ),
        _ => true,
    }
}

/// How many nodes of a plan have a line.
pub open spec fn nodes(plan: PlanView) -> nat
    decreases plan,
{
    match plan {
        PlanView::Filter { input, .. } => 1 + nodes(*input),
        PlanView::Project { input, .. } => 1 + nodes(*input),
        PlanView::NestedProject { input, .. } => 1 + nodes(*input),
        PlanView::Sort { input, .. } => 1 + nodes(*input),
        PlanView::Limit { input, .. } => 1 + nodes(*input),
        PlanView::Offset { input, .. } => 1 + nodes(*input),
        PlanView::Aggregate { input, .. } => 1 + nodes(*input),
        PlanView::Distinct { input } => 1 + nodes(*input),
        PlanView::GroupBy { input, .. } => 1 + nodes(*input),
        PlanView::Window { input, .. } => 1 + nodes(*input),
        PlanView::Update { input, .. } => 1 + nodes(*input),
        PlanView::Delete { input, .. } => 1 + nodes(*input),
        PlanView::Explain { input } => 1 + nodes(*input),
        PlanView::NestedLoopJoin { left, right, .. } => 1 + nodes(*left) + nodes(*right),
        PlanView::Union { left, right, .. } => 1 + nodes(*left) + nodes(*right),
        _ => 1,
    }
}

proof fn broken_parts(a: Seq<char>, b: Seq<char>, prefix: Seq<char>)
    ensures
        broken_with(a + b, prefix) == broken_with(a, prefix) + broken_with(b, prefix),
        line_feeds(a + b) == line_feeds(a) + line_feeds(b),
    decreases b.len(),
{
    if b.len() == 0 {
        assert(a + b =~= a);
        assert(broken_with(a, prefix) + broken_with(b, prefix) =~= broken_with(a, prefix));
    } else {
        let less = b.drop_last();
        broken_parts(a, less, prefix);
        assert((a + b).drop_last() =~= a + less);
        assert((a + b).last() == b.last());
        assert(broken_with(a + b, prefix) =~= broken_with(a, prefix) + broken_with(b, prefix));
    }
}

proof fn unbroken(a: Seq<char>, prefix: Seq<char>)
    requires
        !a.contains('\n'),
    ensures
        broken_with(a, prefix) == a,
        line_feeds(a) == 0,
    decreases a.len(),
{
    if a.len() > 0 {
        let less = a.drop_last();
        assert(a[a.len() - 1] == a.last());
        assert forall|k: int| 0 <= k < less.len() implies less[k] != '\n' by {
            assert(a[k] == less[k]);
        }
        unbroken(less, prefix);
        assert(broken_with(a, prefix) =~= a);
    } else {
        assert(broken_with(a, prefix) =~= a);
    }
}

proof fn one_break(prefix: Seq<char>)
    ensures
        broken_with("\n"@, prefix) == seq!['\n'] + prefix,
        line_feeds("\n"@) == 1,
{
    reveal_strlit("\n");
    let text = "\n"@;
    assert(text.drop_last() =~= Seq::<char>::empty());
    assert(broken_with(Seq::<char>::empty(), prefix) =~= Seq::<char>::empty());
    assert(broken_with(text, prefix) =~= seq!['\n'] + prefix);
    assert(line_feeds(Seq::<char>::empty()) == 0);
}

proof fn indent_unbroken(indent: Seq<char>)
    requires
        !indent.contains('\n'),
    ensures
        !(indent + "  "@).contains('\n'),
{
    reveal_strlit("  ");
    let deeper = indent + "  "@;
    assert forall|k: int| 0 <= k < deeper.len() implies deeper[k] != '\n' by {
        if k < indent.len() {
            assert(indent[k] == deeper[k]);
        }
    }
}

proof fn line_unbroken(indent: Seq<char>, label: Seq<char>)
    requires
        !indent.contains('\n'),
        !label.contains('\n'),
    ensures
        !(indent + label).contains('\n'),
{
    let line = indent + label;
    assert forall|k: int| 0 <= k < line.len() implies line[k] != '\n' by {
        if k < indent.len() {
            assert(indent[k] == line[k]);
        } else {
            assert(label[k - indent.len()] == line[k]);
        }
    }
}

/// A line with a text under it, after a prefix.
proof fn prefixed_under(line: Seq<char>, child: Seq<char>, prefix: Seq<char>)
    requires
        !line.contains('\n'),
    ensures
        each_line_after(line + "\n"@ + child, prefix) == prefix + line + "\n"@ + each_line_after(
            child,
            prefix,
        ),
        line_feeds(line + "\n"@ + child) == 1 + line_feeds(child),
{
    reveal_strlit("\n");
    unbroken(line, prefix);
    one_break(prefix);
    broken_parts(line, "\n"@, prefix);
    broken_parts(line + "\n"@, child, prefix);
    assert("\n"@ =~= seq!['\n']);
    assert(each_line_after(line + "\n"@ + child, prefix) =~= prefix + line + "\n"@
        + each_line_after(child, prefix));
}

/// A line with two texts under it, after a prefix.
proof fn prefixed_over_two(line: Seq<char>, first: Seq<char>, second: Seq<char>, prefix: Seq<char>)
    requires
        !line.contains('\n'),
    ensures
        each_line_after(line + "\n"@ + first + "\n"@ + second, prefix) == prefix + line + "\n"@
            + each_line_after(first, prefix) + "\n"@ + each_line_after(second, prefix),
        line_feeds(line + "\n"@ + first + "\n"@ + second) == 2 + line_feeds(first) + line_feeds(
            second,
        ),
{
    reveal_strlit("\n");
    prefixed_under(line, first, prefix);
    one_break(prefix);
    broken_parts(line + "\n"@ + first, "\n"@, prefix);
    broken_parts(line + "\n"@ + first + "\n"@, second, prefix);
    assert("\n"@ =~= seq!['\n']);
    assert(each_line_after(line + "\n"@ + first + "\n"@ + second, prefix) =~= prefix + line + "\n"@
        + each_line_after(first, prefix) + "\n"@ + each_line_after(second, prefix));
}

proof fn tree_shifts(
    catalog: CatalogView,
    model: WordingModel,
    plan: PlanView,
    prefix: Seq<char>,
    indent: Seq<char>,
)
    requires
        lines_whole(catalog, model, plan),
        !indent.contains('\n'),
    ensures
        tree_text(catalog, model, plan, prefix + indent) == each_line_after(
            tree_text(catalog, model, plan, indent),
            prefix,
        ),
        line_feeds(tree_text(catalog, model, plan, indent)) + 1 == nodes(plan),
    decreases plan,
{
    let label = node_label(catalog, model, plan);
    let line = indent + label;
    let deeper = indent + "  "@;
    line_unbroken(indent, label);
    indent_unbroken(indent);
    unbroken(line, prefix);
    assert((prefix + indent) + label =~= prefix + line);
    assert((prefix + indent) + "  "@ =~= prefix + deeper);
    match node_input(plan) {
        Some(input) => {
            tree_shifts(catalog, model, input, prefix, deeper);
            prefixed_under(line, tree_text(catalog, model, input, deeper), prefix);
        },
        None => match node_sides(plan) {
            Some((left, right)) => {
                tree_shifts(catalog, model, left, prefix, deeper);
                tree_shifts(catalog, model, right, prefix, deeper);
                prefixed_over_two(
                    line,
                    tree_text(catalog, model, left, deeper),
                    tree_text(catalog, model, right, deeper),
                    prefix,
                );
            },
            None => {},
        },
    }
}

proof fn indent_grows_in_front(depth: nat)
    ensures
        indent_of(depth + 1) == "  "@ + indent_of(depth),
        !indent_of(depth).contains('\n'),
    decreases depth,
{
    if depth > 0 {
        indent_grows_in_front((depth - 1) as nat);
        indent_unbroken(indent_of((depth - 1) as nat));
        assert(indent_of(depth + 1) =~= "  "@ + indent_of(depth));
    } else {
        assert(indent_of(1) =~= indent_of(0) + "  "@);
        assert(indent_of(1) =~= "  "@ + indent_of(0));
    }
}

/// A plan explained one level deeper is the same text with two spaces before
/// each line.
pub proof fn deeper_text_is_indented(
    catalog: CatalogView,
    model: WordingModel,
    plan: PlanView,
    depth: nat,
)
    requires
        lines_whole(catalog, model, plan),
    ensures
        tree_text(catalog, model, plan, indent_of(depth + 1)) == each_line_after(
            tree_text(catalog, model, plan, indent_of(depth)),
            "  "@,
        ),
{
    indent_grows_in_front(depth);
    tree_shifts(catalog, model, plan, "  "@, indent_of(depth));
}

/// An explained plan has one line for each node.
pub proof fn each_node_has_a_line(
    catalog: CatalogView,
    model: WordingModel,
    plan: PlanView,
    depth: nat,
)
    requires
        lines_whole(catalog, model, plan),
    ensures
        line_feeds(tree_text(catalog, model, plan, indent_of(depth))) + 1 == nodes(plan),
{
    indent_grows_in_front(depth);
    tree_shifts(catalog, model, plan, "  "@, indent_of(depth));
}

} // verus!
