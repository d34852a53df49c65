//! How a plan is told.

use vstd::prelude::*;

use crate::catalog::CatalogView;
use crate::explain::{
    any_crosses, crosses_sides, indent_of, join_strategy, node_label, plan_qualifiers,
    tree_text,
};
use crate::error::{Budget, ErrorView, ResultView};
use crate::expr::{AggFunc, AggregateMode, BinOp, ExprView, SortKeyView};
use crate::join::{conjuncts, JoinKind};
use crate::laws::expressions::inputs;
use crate::plan::PlanView;
use crate::read::answer;
use crate::seqs::{first_where_found, is_name};
use crate::session::SessionModel;
use crate::text::lines_of;
use crate::value::ValueView;
use crate::wording::{words, SubjectView, WordingModel};

verus! {

/// A plan is told by the line of its node and, under it, its inputs in their order,
/// each one step further in.
pub proof fn plans_are_told_over_their_inputs(
    catalog: CatalogView,
    model: WordingModel,
    plan: PlanView,
    indent: Seq<char>,
)
    ensures
        ({
            let read = inputs(plan);
            let line = indent + node_label(catalog, model, plan);
            let deeper = indent + "  "@;
            &&& read.len() == 0 ==> tree_text(catalog, model, plan, indent) == line
            &&& read.len() == 1 ==> tree_text(catalog, model, plan, indent) == line + "\n"@
                + tree_text(catalog, model, read[0], deeper)
            &&& read.len() == 2 ==> tree_text(catalog, model, plan, indent) == line + "\n"@
                + tree_text(catalog, model, read[0], deeper) + "\n"@ + tree_text(
                catalog,
                model,
                read[1],
                deeper,
            )
            &&& read.len() <= 2
        }),
{
}

/// An indent is two spaces for each step.
pub proof fn indents_are_two_spaces_a_step(depth: nat, i: int)
    ensures
        indent_of(depth).len() == 2 * depth,
        0 <= i < indent_of(depth).len() ==> indent_of(depth)[i] == ' ',
    decreases depth,
{
    reveal_strlit("  ");
    if depth > 0 {
        indents_are_two_spaces_a_step((depth - 1) as nat, i);
    }
}

/// The line of a node says what it is and what it is over.
pub proof fn lines_say_what_their_node_is(
    catalog: CatalogView,
    model: WordingModel,
    table: Seq<char>,
    alias: Seq<char>,
    input: PlanView,
    expr: ExprView,
    other: PlanView,
)
    ensures
        node_label(catalog, model, PlanView::SeqScan { table }) == "SeqScan table="@ + table,
        node_label(catalog, model, PlanView::AliasScan { table, alias }) == "AliasScan table="@
            + table + " alias="@ + alias,
        node_label(
            catalog,
            model,
            PlanView::Filter { input: Box::new(input), predicate: expr },
        ) == "Filter predicate="@ + words(model, SubjectView::Expr(expr)),
        node_label(
            catalog,
            model,
            PlanView::Limit { input: Box::new(input), count: expr },
        ) == "Limit count="@ + words(model, SubjectView::Expr(expr)),
        node_label(
            catalog,
            model,
            PlanView::Offset { input: Box::new(input), count: expr },
        ) == "Offset count="@ + words(model, SubjectView::Expr(expr)),
        node_label(catalog, model, PlanView::Distinct { input: Box::new(input) }) == "Distinct"@,
        node_label(
            catalog,
            model,
            PlanView::Union { left: Box::new(input), right: Box::new(other), all: true },
        ) == "UNION ALL"@,
        node_label(
            catalog,
            model,
            PlanView::Union { left: Box::new(input), right: Box::new(other), all: false },
        ) == "UNION"@,
{
}

/// A condition equates a column of one side with a column of the other, each under a
/// qualifier of its side.
pub open spec fn equates_sides(
    condition: ExprView,
    left: Seq<Seq<char>>,
    right: Seq<Seq<char>>,
) -> bool {
    &&& condition matches ExprView::BinaryOp(a, op, b)
    &&& op == BinOp::Eq
    &&& *a matches ExprView::QualifiedField { qualifier: x, field: _ }
    &&& *b matches ExprView::QualifiedField { qualifier: y, field: _ }
    &&& left.contains(x) && right.contains(y) || left.contains(y) && right.contains(x)
}

proof fn names_stand_among(names: Seq<Seq<char>>, name: Seq<char>)
    ensures
        crate::seqs::name_position(names, name) is Some <==> names.contains(name),
{
    first_where_found(names, is_name(name));
    match crate::seqs::name_position(names, name) {
        Some(p) => {
            assert(names[p] == name);
        },
        None => {
            if names.contains(name) {
                let k = choose|k: int| 0 <= k < names.len() && names[k] == name;
                assert(!is_name(name)(names[k]));
            }
        },
    }
}

proof fn crossing_equates(condition: ExprView, left: Seq<Seq<char>>, right: Seq<Seq<char>>)
    ensures
        crosses_sides(condition, left, right) == equates_sides(condition, left, right),
{
    match condition {
        ExprView::BinaryOp(a, _, b) => match (*a, *b) {
            (
                ExprView::QualifiedField { qualifier: x, .. },
                ExprView::QualifiedField { qualifier: y, .. },
            ) => {
                names_stand_among(left, x);
                names_stand_among(left, y);
                names_stand_among(right, x);
                names_stand_among(right, y);
            },
            _ => {},
        },
        _ => {},
    }
}

proof fn some_part_crosses(
    parts: Seq<ExprView>,
    i: int,
    left: Seq<Seq<char>>,
    right: Seq<Seq<char>>,
)
    requires
        0 <= i <= parts.len(),
    ensures
        any_crosses(parts, i, left, right) <==> exists|k: int|
            i <= k < parts.len() && equates_sides(#[trigger] parts[k], left, right),
    decreases parts.len() - i,
{
    if i < parts.len() {
        some_part_crosses(parts, i + 1, left, right);
        crossing_equates(parts[i], left, right);
        if equates_sides(parts[i], left, right) {
            assert(i <= i < parts.len() && equates_sides(parts[i], left, right));
        }
    }
}

/// A join is said to run by a hash table if and only if some condition of it equates
/// a column of each side, with the rest tested after where there are others.
pub proof fn joins_say_how_they_run(
    left: PlanView,
    right: PlanView,
    on: Option<ExprView>,
    kind: JoinKind,
)
    ensures
        ({
            let (a, b) = (plan_qualifiers(left), plan_qualifiers(right));
            let keyed = kind != JoinKind::Cross && (on matches Some(condition) && exists|k: int|
                0 <= k < conjuncts(condition).len() && equates_sides(
                    #[trigger] conjuncts(condition)[k],
                    a,
                    b,
                ));
            join_strategy(left, right, on, kind) == (if !keyed {
                "nested-loop-bounded"@
            } else if conjuncts(on->0).len() > 1 {
                "hash+residual"@
            } else {
                "hash"@
            })
        }),
{
    match on {
        Some(condition) => some_part_crosses(
            conjuncts(condition),
            0,
            plan_qualifiers(left),
            plan_qualifiers(right),
        ),
        None => {},
    }
}

/// The qualifiers of a scan are its table or its alias, and those of any other node
/// the qualifiers of its inputs in their order.
pub proof fn qualifiers_come_from_the_scans(plan: PlanView)
    ensures
        match plan {
            PlanView::SeqScan { table } => plan_qualifiers(plan) == seq![table],
            PlanView::IndexScan { table, .. } => plan_qualifiers(plan) == seq![table],
            PlanView::RangeScan { table, .. } => plan_qualifiers(plan) == seq![table],
            PlanView::ExprIndexScan { table, .. } => plan_qualifiers(plan) == seq![table],
            PlanView::ExprRangeScan { table, .. } => plan_qualifiers(plan) == seq![table],
            PlanView::OrderedExprIndexScan { table, .. } => plan_qualifiers(plan) == seq![table],
            PlanView::AliasScan { alias, .. } => plan_qualifiers(plan) == seq![alias],
            _ => {
                let read = inputs(plan);
                &&& read.len() == 0 ==> plan_qualifiers(plan).len() == 0
                &&& read.len() == 1 ==> plan_qualifiers(plan) == plan_qualifiers(read[0])
                &&& read.len() == 2 ==> plan_qualifiers(plan) == plan_qualifiers(read[0])
                    + plan_qualifiers(read[1])
            },
        },
{
}

/// The ends of a range scan say which side they bound and whether with the key or
/// without.
pub proof fn ranges_say_their_ends(
    catalog: CatalogView,
    model: WordingModel,
    table: Seq<char>,
    column: Seq<char>,
    key: ExprView,
    inclusive: bool,
)
    ensures
        node_label(
            catalog,
            model,
            PlanView::RangeScan { table, column, start: Some((key, inclusive)), end: None },
        ) == "RangeScan table="@ + table + " column="@ + column + " ["@ + (if inclusive {
            ">="@
        } else {
            ">"@
        }) + words(model, SubjectView::Expr(key)) + ", unbounded]"@,
        node_label(
            catalog,
            model,
            PlanView::RangeScan { table, column, start: None, end: Some((key, inclusive)) },
        ) == "RangeScan table="@ + table + " column="@ + column + " [unbounded, "@ + (if inclusive {
            "<="@
        } else {
            "<"@
        }) + words(model, SubjectView::Expr(key)) + "]"@,
{
    reveal_strlit(", unbounded]");
    reveal_strlit(" [unbounded, ");
    reveal_strlit("unbounded");
    reveal_strlit(", ");
    reveal_strlit("]");
    reveal_strlit(" [");
    assert(", unbounded]"@ =~= ", "@ + "unbounded"@ + "]"@);
    assert(" [unbounded, "@ =~= " ["@ + "unbounded"@ + ", "@);
}

/// A sort by one key says the key, and that it is descending where it is.
pub proof fn sorts_say_their_direction(
    catalog: CatalogView,
    model: WordingModel,
    input: PlanView,
    key: SortKeyView,
)
    ensures
        node_label(
            catalog,
            model,
            PlanView::Sort { input: Box::new(input), keys: seq![key] },
        ) == "Sort keys=["@ + words(model, SubjectView::Name(key.expr)) + (if key.descending {
            " desc]"@
        } else {
            "]"@
        }),
{
    reveal_strlit(" desc]");
    reveal_strlit(" desc");
    reveal_strlit("]");
    assert(" desc]"@ =~= " desc"@ + "]"@);
    assert(crate::explain::order_list(model, seq![key]) =~= seq![
        crate::explain::order_words(model, key),
    ]);
}

/// An aggregate says its function, its mode and its argument.
pub proof fn aggregates_say_what_they_take(
    catalog: CatalogView,
    model: WordingModel,
    input: PlanView,
    function: AggFunc,
    argument: ExprView,
    mode: AggregateMode,
    provenance_alias: Option<Seq<char>>,
)
    ensures
        node_label(
            catalog,
            model,
            PlanView::Aggregate {
                input: Box::new(input),
                function,
                argument: Some(argument),
                mode,
                provenance_alias,
            },
        ) == (match function {
            AggFunc::Count => "Aggregate fn=Count mode="@,
            AggFunc::CountDistinct => "Aggregate fn=CountDistinct mode="@,
            AggFunc::Sum => "Aggregate fn=Sum mode="@,
            AggFunc::Avg => "Aggregate fn=Avg mode="@,
            AggFunc::Min => "Aggregate fn=Min mode="@,
            AggFunc::Max => "Aggregate fn=Max mode="@,
        }) + (match mode {
            AggregateMode::Raw => "Raw argument="@,
            AggregateMode::Symmetric => "Symmetric argument="@,
        }) + words(model, SubjectView::Name(argument)),
{
    reveal_strlit("Aggregate fn=Count mode=");
    reveal_strlit("Aggregate fn=CountDistinct mode=");
    reveal_strlit("Aggregate fn=Sum mode=");
    reveal_strlit("Aggregate fn=Avg mode=");
    reveal_strlit("Aggregate fn=Min mode=");
    reveal_strlit("Aggregate fn=Max mode=");
    reveal_strlit("Raw argument=");
    reveal_strlit("Symmetric argument=");
    reveal_strlit("Aggregate fn=");
    reveal_strlit(" mode=");
    reveal_strlit(" argument=");
    reveal_strlit("Raw");
    reveal_strlit("Symmetric");
    reveal_strlit("Count");
    reveal_strlit("CountDistinct");
    reveal_strlit("Sum");
    reveal_strlit("Avg");
    reveal_strlit("Min");
    reveal_strlit("Max");
    assert("Raw argument="@ =~= "Raw"@ + " argument="@);
    assert("Symmetric argument="@ =~= "Symmetric"@ + " argument="@);
    assert("Aggregate fn=Count mode="@ =~= "Aggregate fn="@ + "Count"@ + " mode="@);
    assert("Aggregate fn=CountDistinct mode="@ =~= "Aggregate fn="@ + "CountDistinct"@ + " mode="@);
    assert("Aggregate fn=Sum mode="@ =~= "Aggregate fn="@ + "Sum"@ + " mode="@);
    assert("Aggregate fn=Avg mode="@ =~= "Aggregate fn="@ + "Avg"@ + " mode="@);
    assert("Aggregate fn=Min mode="@ =~= "Aggregate fn="@ + "Min"@ + " mode="@);
    assert("Aggregate fn=Max mode="@ =~= "Aggregate fn="@ + "Max"@ + " mode="@);
}

/// An explained plan is not run: it answers its tree, a row for each line.
pub proof fn explained_plans_answer_their_tree(
    catalog: CatalogView,
    model: SessionModel,
    input: PlanView,
    budget: Budget,
)
    ensures
        answer(catalog, model, PlanView::Explain { input: Box::new(input) }, budget) == Ok::<
            (ResultView, Budget),
            ErrorView,
        >(
            (
                ResultView::Rows {
                    columns: seq!["plan"@],
                    rows: lines_of(
                        tree_text(catalog, model.words, input, Seq::empty()),
                    ).map_values(|line: Seq<char>| seq![ValueView::Str(line)]),
                },
                budget,
            ),
        ),
{
    assert(indent_of(0) =~= Seq::empty());
    let text = lines_of(tree_text(catalog, model.words, input, indent_of(0)));
    assert(Seq::new(text.len(), |i: int| seq![ValueView::Str(text[i])]) =~= text.map_values(
        |line: Seq<char>| seq![ValueView::Str(line)],
    ));
}

} // verus!
