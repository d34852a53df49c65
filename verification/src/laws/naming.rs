//! What the names of columns lead to.

use vstd::prelude::*;

use crate::catalog::SchemaView;
use crate::error::ErrorView;
use crate::expr::ExprView;
use crate::group::{group_column, with_suffix};
use crate::scalars::EvalModel;
use crate::seqs::{first_where, first_where_found, first_where_is, is_name};
use crate::value::ValueView;

verus! {

/// Column `c` is the first of this name.
pub open spec fn is_column(schema: SchemaView, name: Seq<char>, c: int) -> bool {
    &&& 0 <= c < schema.columns.len()
    &&& schema.columns[c].name == name
    &&& forall|j: int| 0 <= j < c ==> (#[trigger] schema.columns[j]).name != name
}

/// What a row holds in the first column of a name.
pub open spec fn held(schema: SchemaView, row: Seq<ValueView>, name: Seq<char>) -> ValueView {
    row[choose|c: int| is_column(schema, name, c)]
}

/// A name leads to the first column of that name.
pub proof fn names_lead_to_columns(schema: SchemaView, name: Seq<char>)
    ensures
        schema.column_index(name) matches Some(c) ==> is_column(schema, name, c),
        forall|c: int| #[trigger] is_column(schema, name, c) ==> schema.column_index(name) == Some(c),
{
    let names = schema.column_names();
    first_where_found(names, is_name(name));
    match schema.column_index(name) {
        Some(c) => {
            assert(names[c] == schema.columns[c].name);
            assert forall|j: int| 0 <= j < c implies (#[trigger] schema.columns[j]).name != name by {
                assert(names[j] == schema.columns[j].name);
                assert(!is_name(name)(names[j]));
            }
        },
        None => {},
    }
    assert forall|c: int| #[trigger] is_column(schema, name, c) implies schema.column_index(name)
        == Some(c) by {
        assert(names[c] == name);
        assert forall|j: int| 0 <= j < c implies !is_name(name)(#[trigger] names[j]) by {
            assert(names[j] == schema.columns[j].name);
        }
        first_where_is(names, is_name(name), c);
    }
}

/// There is one first column of a name.
pub proof fn columns_are_found(schema: SchemaView, row: Seq<ValueView>, name: Seq<char>, c: int)
    requires
        is_column(schema, name, c),
    ensures
        held(schema, row, name) == row[c],
{
    let d = choose|d: int| is_column(schema, name, d);
    assert(is_column(schema, name, d));
    if c < d {
        assert(schema.columns[c].name != name);
    } else if d < c {
        assert(schema.columns[d].name != name);
    }
}

/// The name of the column that an expression refers to, if it is a reference.
pub open spec fn referred_name(expr: ExprView) -> Option<Seq<char>> {
    match expr {
        ExprView::Field(name) => Some(name),
        ExprView::QualifiedField { qualifier, field } => Some(qualifier + "."@ + field),
        _ => None,
    }
}

/// A column's name is `name` behind some qualifier.
pub open spec fn is_qualified(column: Seq<char>, name: Seq<char>) -> bool {
    &&& column.len() > name.len()
    &&& column[column.len() - name.len() - 1] == '.'
    &&& column.skip(column.len() - name.len()) == name
}

/// Column `c` is what a reference by `name` reads: the first column of that name,
/// or else, for a name without a qualifier, the one column of that name behind
/// some qualifier.
pub open spec fn is_named(columns: Seq<Seq<char>>, name: Seq<char>, c: int) -> bool {
    &&& 0 <= c < columns.len()
    &&& if columns.contains(name) {
        &&& columns[c] == name
        &&& forall|j: int| 0 <= j < c ==> #[trigger] columns[j] != name
    } else {
        &&& !name.contains('.')
        &&& is_qualified(columns[c], name)
        &&& forall|j: int|
            0 <= j < columns.len() && j != c ==> !is_qualified(#[trigger] columns[j], name)
    }
}

/// What a key reads on a row: the column that it refers to, or else what it
/// evaluates to.
pub open spec fn key_value(
    eval: EvalModel,
    expr: ExprView,
    row: Seq<ValueView>,
    columns: Seq<Seq<char>>,
) -> ValueView {
    match referred_name(expr) {
        Some(name) => row[choose|c: int| is_named(columns, name, c)],
        None => eval(expr, row, columns),
    }
}

proof fn suffixes_qualify(column: Seq<char>, name: Seq<char>)
    ensures
        (seq!['.'] + name).is_suffix_of(column) <==> is_qualified(column, name),
{
    let suffix = seq!['.'] + name;
    let n = column.len() - name.len();
    if suffix.is_suffix_of(column) {
        let end = column.subrange(column.len() - suffix.len(), column.len() as int);
        assert(end[0] == '.');
        assert forall|i: int| 0 <= i < name.len() implies #[trigger] column.skip(n)[i]
            == name[i] by {
            assert(end[i + 1] == suffix[i + 1]);
        }
        assert(column.skip(n) =~= name);
    }
    if is_qualified(column, name) {
        let end = column.subrange(column.len() - suffix.len(), column.len() as int);
        assert forall|i: int| 0 <= i < suffix.len() implies #[trigger] end[i] == suffix[i] by {
            if i > 0 {
                assert(column.skip(n)[i - 1] == name[i - 1]);
            }
        }
        assert(end =~= suffix);
    }
}

proof fn qualified_names_are_counted(columns: Seq<Seq<char>>, name: Seq<char>)
    ensures
        with_suffix(columns, seq!['.'] + name).len() == 0 <==> forall|j: int|
            0 <= j < columns.len() ==> !is_qualified(#[trigger] columns[j], name),
        with_suffix(columns, seq!['.'] + name).len() == 1 <==> exists|c: int|
            is_alone(columns, name, c),
    decreases columns.len(),
{
    if columns.len() > 0 {
        let less = columns.drop_last();
        let n = less.len() as int;
        qualified_names_are_counted(less, name);
        suffixes_qualify(columns.last(), name);
        assert(forall|j: int| 0 <= j < n ==> #[trigger] less[j] == columns[j]);
        assert(columns.last() == columns[n]);
        if is_qualified(columns[n], name) {
            if with_suffix(less, seq!['.'] + name).len() == 0 {
                assert(is_alone(columns, name, n)) by {
                    assert forall|j: int| 0 <= j < columns.len() && j != n implies !is_qualified(
                        #[trigger] columns[j],
                        name,
                    ) by {
                        assert(less[j] == columns[j]);
                    }
                }
            } else {
                let j = choose|j: int|
                    0 <= j < less.len() && is_qualified(#[trigger] less[j], name);
                assert(is_qualified(columns[j], name));
                assert forall|c: int| !is_alone(columns, name, c) by {
                    if c == n {
                        assert(is_qualified(columns[j], name));
                    } else {
                        assert(is_qualified(columns[n], name));
                    }
                }
            }
        } else {
            if with_suffix(less, seq!['.'] + name).len() == 0 {
                assert forall|j: int| 0 <= j < columns.len() implies !is_qualified(
                    #[trigger] columns[j],
                    name,
                ) by {
                    if j < n {
                        assert(less[j] == columns[j]);
                    }
                }
            } else {
                let j = choose|j: int|
                    0 <= j < less.len() && is_qualified(#[trigger] less[j], name);
                assert(is_qualified(columns[j], name));
            }
            if exists|c: int| is_alone(less, name, c) {
                let c = choose|c: int| is_alone(less, name, c);
                assert(is_alone(columns, name, c)) by {
                    assert(less[c] == columns[c]);
                    assert forall|j: int| 0 <= j < columns.len() && j != c implies !is_qualified(
                        #[trigger] columns[j],
                        name,
                    ) by {
                        if j < n {
                            assert(less[j] == columns[j]);
                        }
                    }
                }
            }
            if exists|c: int| is_alone(columns, name, c) {
                let c = choose|c: int| is_alone(columns, name, c);
                assert(is_alone(less, name, c)) by {
                    assert forall|j: int| 0 <= j < less.len() && j != c implies !is_qualified(
                        #[trigger] less[j],
                        name,
                    ) by {
                        assert(less[j] == columns[j]);
                    }
                }
            }
        }
    }
}

/// Column `c` alone has `name` behind some qualifier.
pub open spec fn is_alone(columns: Seq<Seq<char>>, name: Seq<char>, c: int) -> bool {
    &&& 0 <= c < columns.len()
    &&& is_qualified(columns[c], name)
    &&& forall|j: int|
        0 <= j < columns.len() && j != c ==> !is_qualified(#[trigger] columns[j], name)
}

/// A reference by name reads the column that the name stands for, and fails where
/// it stands for none or for several.
pub proof fn references_read_what_they_name(name: Seq<char>, columns: Seq<Seq<char>>)
    ensures
        group_column(name, columns) matches Ok(c) ==> is_named(columns, name, c),
        forall|c: int| #[trigger] is_named(columns, name, c) ==> group_column(name, columns) == Ok::<
            int,
            ErrorView,
        >(c),
{
    let suffix = seq!['.'] + name;
    let ends = |c: Seq<char>| suffix.is_suffix_of(c);
    first_where_found(columns, is_name(name));
    if columns.contains(name) {
        let k = choose|k: int| 0 <= k < columns.len() && columns[k] == name;
        if first_where(columns, is_name(name)) is None {
            assert(!is_name(name)(columns[k]));
        }
        let c = first_where(columns, is_name(name))->0;
        assert(is_named(columns, name, c)) by {
            assert forall|j: int| 0 <= j < c implies #[trigger] columns[j] != name by {
                assert(!is_name(name)(columns[j]));
            }
        }
        assert forall|d: int| #[trigger] is_named(columns, name, d) implies d == c by {
            if d < c {
                assert(columns[d] != name);
            } else if c < d {
                assert(columns[c] != name);
            }
        }
    } else {
        qualified_names_are_counted(columns, name);
        assert forall|k: int| 0 <= k < columns.len() implies ends(#[trigger] columns[k])
            == is_qualified(columns[k], name) by {
            suffixes_qualify(columns[k], name);
        }
        first_where_found(columns, ends);
        if with_suffix(columns, suffix).len() == 1 {
            let c = choose|c: int| is_alone(columns, name, c);
            if first_where(columns, ends) is None {
                assert(!ends(columns[c]));
            }
            let d = first_where(columns, ends)->0;
            assert(ends(columns[d]));
            assert(c == d);
        }
        assert forall|c: int| #[trigger] is_named(columns, name, c) implies group_column(
            name,
            columns,
        ) == Ok::<int, ErrorView>(c) by {
            assert(is_alone(columns, name, c));
            let d = first_where(columns, ends)->0;
            assert(ends(columns[c]));
            if first_where(columns, ends) is None {
                assert(!ends(columns[c]));
            }
            assert(ends(columns[d]));
        }
    }
}

/// There is one column that a name stands for.
pub proof fn names_stand_for_one(columns: Seq<Seq<char>>, name: Seq<char>, c: int)
    requires
        is_named(columns, name, c),
    ensures
        (choose|d: int| is_named(columns, name, d)) == c,
{
    references_read_what_they_name(name, columns);
    let d = choose|d: int| is_named(columns, name, d);
    assert(is_named(columns, name, d));
}

} // verus!
