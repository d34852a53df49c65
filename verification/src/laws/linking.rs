//! What the links of a projection are resolved to.

use vstd::prelude::*;

use crate::catalog::{first_link, first_on_path, CatalogView, ExpressionIndexMetaView, LinkDefView};
use crate::error::{Budget, ErrorView};
use crate::links::{
    correlation, field_unresolved, fields_have_link, link_chain, nested_has_link,
    resolved_fields, resolved_from, resolved_link, resolved_nested, source_table,
};
use crate::nested::{nesting_answer, NestedScope};
use crate::plan::{
    NestedFieldView, NestedProjectFieldView, NestedProjectionView, PlanView,
    ScalarLinkFieldView, StoredJsonPathView,
};
use crate::read::{answer, linked_fields};
use crate::seqs::{first_where_found, is_name};
use crate::session::SessionModel;

verus! {

/// Link `l` is the first of its owner under this name.
pub open spec fn is_link(
    links: Seq<LinkDefView>,
    owner: Seq<char>,
    name: Seq<char>,
    l: int,
) -> bool {
    &&& 0 <= l < links.len()
    &&& links[l].owner_type == owner && links[l].name == name
    &&& forall|j: int|
        0 <= j < l ==> (#[trigger] links[j]).owner_type != owner || links[j].name != name
}

proof fn first_links_are_first(links: Seq<LinkDefView>, owner: Seq<char>, name: Seq<char>)
    ensures
        match first_link(links, owner, name) {
            Some(link) => exists|l: int| #[trigger]
                is_link(links, owner, name, l) && links[l] == link,
            None => forall|l: int|
                0 <= l < links.len() ==> (#[trigger] links[l]).owner_type != owner || links[l].name
                    != name,
        },
    decreases links.len(),
{
    if links.len() > 0 {
        let less = links.drop_last();
        let last = links.len() - 1;
        first_links_are_first(less, owner, name);
        assert(forall|j: int| 0 <= j < last ==> #[trigger] less[j] == links[j]);
        match first_link(less, owner, name) {
            Some(link) => {
                let l = choose|l: int| #[trigger]
                    is_link(less, owner, name, l) && less[l] == link;
                assert(is_link(links, owner, name, l)) by {
                    assert(less[l] == links[l]);
                    assert forall|j: int| 0 <= j < l implies (
                    #[trigger] links[j]).owner_type != owner || links[j].name != name by {
                        assert(less[j] == links[j]);
                    }
                }
            },
            None => {
                assert forall|j: int| 0 <= j < last implies (
                #[trigger] links[j]).owner_type != owner || links[j].name != name by {
                    assert(less[j] == links[j]);
                }
                if links.last().owner_type == owner && links.last().name == name {
                    assert(is_link(links, owner, name, last));
                }
            },
        }
    }
}

/// A link is found by its owner and its name.
pub proof fn links_are_found_by_owner_and_name(
    catalog: CatalogView,
    owner: Seq<char>,
    name: Seq<char>,
)
    ensures
        match catalog.link(owner, name) {
            Some(link) => exists|l: int| #[trigger]
                is_link(catalog.links, owner, name, l) && catalog.links[l] == link,
            None => forall|l: int| !#[trigger] is_link(catalog.links, owner, name, l),
        },
{
    first_links_are_first(catalog.links, owner, name);
}

/// A table is found by its name: the first of that name.
pub proof fn tables_are_found_by_name(catalog: CatalogView, name: Seq<char>)
    ensures
        match catalog.table(name) {
            Some(table) => exists|t: int|
                0 <= t < catalog.tables.len() && #[trigger] catalog.tables[t] == table
                    && table.schema.table_name == name && forall|j: int|
                    0 <= j < t ==> (#[trigger] catalog.tables[j]).schema.table_name != name,
            None => forall|t: int|
                0 <= t < catalog.tables.len() ==> (#[trigger] catalog.tables[t]).schema.table_name
                    != name,
        },
{
    let names = catalog.table_names();
    first_where_found(names, is_name(name));
    match crate::seqs::name_position(names, name) {
        Some(t) => {
            assert(names[t] == catalog.tables[t].schema.table_name);
            assert forall|j: int| 0 <= j < t implies (
            #[trigger] catalog.tables[j]).schema.table_name != name by {
                assert(!is_name(name)(names[j]));
            }
            assert(catalog.tables[t] == catalog.table(name)->0);
        },
        None => {
            assert forall|t: int| 0 <= t < catalog.tables.len() implies (
            #[trigger] catalog.tables[t]).schema.table_name != name by {
                assert(!is_name(name)(names[t]));
            }
        },
    }
}

/// An index is found by its table and its column: the first on that column.
pub proof fn indexes_are_found_by_column(
    catalog: CatalogView,
    table: Seq<char>,
    column: Seq<char>,
)
    ensures
        match (catalog.table(table), catalog.index(table, column)) {
            (None, found) => found is None,
            (Some(owner), Some(index)) => exists|k: int|
                0 <= k < owner.indexes.len() && #[trigger] owner.indexes[k] == index && index.column
                    == column && forall|j: int|
                    0 <= j < k ==> (#[trigger] owner.indexes[j]).column != column,
            (Some(owner), None) => forall|k: int|
                0 <= k < owner.indexes.len() ==> (#[trigger] owner.indexes[k]).column != column,
        },
{
    match catalog.table(table) {
        Some(owner) => {
            let names = Seq::new(owner.indexes.len(), |i: int| owner.indexes[i].column);
            first_where_found(names, is_name(column));
            match owner.index_on(column) {
                Some(k) => {
                    assert(names[k] == owner.indexes[k].column);
                    assert forall|j: int| 0 <= j < k implies (
                    #[trigger] owner.indexes[j]).column != column by {
                        assert(!is_name(column)(names[j]));
                    }
                    assert(owner.indexes[k] == catalog.index(table, column)->0);
                },
                None => {
                    assert forall|k: int| 0 <= k < owner.indexes.len() implies (
                    #[trigger] owner.indexes[k]).column != column by {
                        assert(!is_name(column)(names[k]));
                    }
                },
            }
        },
        None => {},
    }
}

/// An index on a JSON path is found by its table and its path, in the format that is
/// understood.
pub proof fn path_indexes_are_found_by_path(
    indexes: Seq<ExpressionIndexMetaView>,
    path: StoredJsonPathView,
)
    ensures
        match first_on_path(indexes, path) {
            Some(index) => indexes.contains(index) && index.json_path == path
                && index.canonical_version == 1,
            None => forall|k: int|
                0 <= k < indexes.len() ==> (#[trigger] indexes[k]).json_path != path
                    || indexes[k].canonical_version != 1,
        },
    decreases indexes.len(),
{
    if indexes.len() > 0 {
        let less = indexes.drop_last();
        path_indexes_are_found_by_path(less, path);
        assert(forall|j: int| 0 <= j < less.len() ==> #[trigger] less[j] == indexes[j]);
        assert(indexes.last() == indexes[indexes.len() - 1]);
        match first_on_path(less, path) {
            Some(index) => {
                let k = choose|k: int| 0 <= k < less.len() && less[k] == index;
                assert(indexes[k] == index);
            },
            None => {
                if indexes.last().canonical_version == 1 && indexes.last().json_path == path {
                    assert(indexes.contains(indexes.last()));
                } else {
                    assert forall|k: int| 0 <= k < indexes.len() implies (
                    #[trigger] indexes[k]).json_path != path || indexes[k].canonical_version
                        != 1 by {
                        if k < less.len() {
                            assert(less[k] == indexes[k]);
                        }
                    }
                }
            },
        }
    }
}

/// A level that goes over a link to many rows is resolved to the table and the key
/// that the link leads to, correlated with the key from which the link starts; one
/// that goes over none keeps its own.
pub proof fn levels_are_correlated_by_their_link(
    catalog: CatalogView,
    nested: NestedProjectionView,
    outer: Seq<char>,
    qualify: bool,
)
    ensures
        resolved_nested(catalog, nested, outer, qualify) matches Ok(resolved) ==> {
            &&& resolved.via_link is None
            &&& resolved.name == nested.name && resolved.order == nested.order && resolved.limit
                == nested.limit && resolved.offset == nested.offset && resolved.residual
                == nested.residual
            &&& resolved.fields.len() == nested.fields.len()
            &&& match nested.via_link {
                None => resolved.table == nested.table && resolved.child_key == nested.child_key
                    && resolved.parent_key == nested.parent_key,
                Some(name) => {
                    &&& catalog.link(outer, name) matches Some(link)
                    &&& resolved.table == link.target_type
                    &&& resolved.child_key == link.target_key
                    &&& resolved.parent_key == (if qualify {
                        nested.parent_alias + "."@ + link.local_key
                    } else {
                        link.local_key
                    })
                    &&& !(catalog.index(link.target_type, link.target_key) matches Some(index)
                        && index.unique)
                },
            }
        },
{
    match correlation(catalog, nested, outer, qualify) {
        Ok(c) => fields_are_all_resolved(catalog, nested.fields, 0, c.table),
        Err(_) => {},
    }
}

proof fn fields_are_all_resolved(
    catalog: CatalogView,
    fields: Seq<crate::plan::NestedFieldView>,
    i: int,
    table: Seq<char>,
)
    requires
        0 <= i <= fields.len(),
    ensures
        crate::links::resolved_fields(catalog, fields, i, table) matches Ok(made) ==> made.len()
            == fields.len() - i,
    decreases fields.len() - i,
{
    if i < fields.len() {
        fields_are_all_resolved(catalog, fields, i + 1, table);
    }
}

/// The links of a path: each is the one of its name on the type that the one before
/// it leads to.
pub open spec fn is_chain(
    catalog: CatalogView,
    links: Seq<Seq<char>>,
    outer: Seq<char>,
    chain: Seq<LinkDefView>,
) -> bool {
    &&& chain.len() == links.len()
    &&& forall|k: int|
        0 <= k < chain.len() ==> catalog.link(
            if k == 0 {
                outer
            } else {
                chain[k - 1].target_type
            },
            links[k],
        ) == Some(#[trigger] chain[k])
}

proof fn chains_lead_on(
    catalog: CatalogView,
    alias: Seq<char>,
    links: Seq<Seq<char>>,
    i: int,
    current: Seq<char>,
)
    requires
        0 <= i <= links.len(),
    ensures
        link_chain(catalog, alias, links, i, current) matches Ok(chain) ==> is_chain(
            catalog,
            links.skip(i),
            current,
            chain,
        ),
    decreases links.len() - i,
{
    if i < links.len() {
        match catalog.link(current, links[i]) {
            Some(link) => {
                chains_lead_on(catalog, alias, links, i + 1, link.target_type);
                match (
                    link_chain(catalog, alias, links, i, current),
                    link_chain(catalog, alias, links, i + 1, link.target_type),
                ) {
                    (Ok(all), Ok(rest)) => {
                        let (from, after) = (links.skip(i), links.skip(i + 1));
                        assert forall|k: int| 0 <= k < all.len() implies catalog.link(
                            if k == 0 {
                                current
                            } else {
                                all[k - 1].target_type
                            },
                            from[k],
                        ) == Some(#[trigger] all[k]) by {
                            if k > 0 {
                                assert(all[k] == rest[k - 1]);
                                assert(from[k] == after[k - 1]);
                                if k > 1 {
                                    assert(all[k - 1] == rest[k - 2]);
                                }
                            }
                        }
                    },
                    _ => {},
                }
            },
            None => {},
        }
    }
}

/// A path over links is resolved to a hop for each of them: it starts from the key
/// of the first, each hop looks the key up that its link leads to, and hands on the
/// key from which the next link starts, the last the column asked for.
pub proof fn paths_are_resolved_link_by_link(
    catalog: CatalogView,
    field: ScalarLinkFieldView,
    outer: Seq<char>,
    k: int,
) -> (chain: Seq<LinkDefView>)
    requires
        field.resolved is None,
    ensures
        resolved_link(catalog, field, outer) matches Ok(made) ==> {
            &&& is_chain(catalog, field.links, outer, chain)
            &&& chain.len() > 0
            &&& made.name == field.name && made.column == field.column
            &&& made.resolved matches Some(resolved)
            &&& resolved.first_fk == field.outer_alias + "."@ + chain[0].local_key
            &&& resolved.hops.len() == chain.len()
            &&& 0 <= k < chain.len() ==> {
                &&& resolved.hops[k].table == chain[k].target_type
                &&& resolved.hops[k].key_col == chain[k].target_key
                &&& resolved.hops[k].out_col == (if k + 1 < chain.len() {
                    chain[k + 1].local_key
                } else {
                    field.column
                })
            }
        },
{
    chains_lead_on(catalog, field.outer_alias, field.links, 0, outer);
    assert(field.links.skip(0) =~= field.links);
    match link_chain(catalog, field.outer_alias, field.links, 0, outer) {
        Ok(chain) => chain,
        Err(_) => Seq::empty(),
    }
}

/// The table that a pipeline reads is that of the scan below its filters, sorts and
/// slices.
pub proof fn pipelines_read_their_scan(plan: PlanView)
    ensures
        match plan {
            PlanView::SeqScan { table } => source_table(plan) == Some(table),
            PlanView::AliasScan { table, .. } => source_table(plan) == Some(table),
            PlanView::Filter { input, .. } => source_table(plan) == source_table(*input),
            PlanView::Sort { input, .. } => source_table(plan) == source_table(*input),
            PlanView::Limit { input, .. } => source_table(plan) == source_table(*input),
            PlanView::Offset { input, .. } => source_table(plan) == source_table(*input),
            _ => source_table(plan) is None,
        },
{
}

proof fn inner_fields_are_resolved(
    catalog: CatalogView,
    fields: Seq<NestedFieldView>,
    i: int,
    table: Seq<char>,
)
    requires
        0 <= i <= fields.len(),
    ensures
        resolved_fields(catalog, fields, i, table) matches Ok(made) ==> made.len() == fields.len()
            - i && forall|k: int|
            0 <= k < made.len() ==> match fields[i + k] {
                NestedFieldView::Scalar { .. } => #[trigger] made[k] == fields[i + k],
                NestedFieldView::Nested(inner) => made[k] matches NestedFieldView::Nested(level)
                    && resolved_nested(catalog, *inner, table, false) == Ok::<
                    NestedProjectionView,
                    ErrorView,
                >(*level),
            },
    decreases fields.len() - i,
{
    if i < fields.len() {
        inner_fields_are_resolved(catalog, fields, i + 1, table);
        match (
            resolved_fields(catalog, fields, i, table),
            resolved_fields(catalog, fields, i + 1, table),
        ) {
            (Ok(all), Ok(rest)) => {
                assert forall|k: int| 0 <= k < all.len() implies match fields[i + k] {
                    NestedFieldView::Scalar { .. } => #[trigger] all[k] == fields[i + k],
                    NestedFieldView::Nested(inner) => all[k] matches NestedFieldView::Nested(level)
                        && resolved_nested(catalog, *inner, table, false) == Ok::<
                        NestedProjectionView,
                        ErrorView,
                    >(*level),
                } by {
                    if k > 0 {
                        assert(all[k] == rest[k - 1]);
                        assert(fields[i + 1 + (k - 1)] == fields[i + k]);
                    }
                }
            },
            _ => {},
        }
    }
}

/// The fields of a level are resolved in their places: a column stays as it is, and
/// a level within goes from the table that its own level reaches.
pub proof fn levels_within_go_from_their_own_table(
    catalog: CatalogView,
    nested: NestedProjectionView,
    outer: Seq<char>,
    qualify: bool,
)
    ensures
        resolved_nested(catalog, nested, outer, qualify) matches Ok(resolved) ==> {
            &&& resolved.fields.len() == nested.fields.len()
            &&& forall|k: int|
                0 <= k < nested.fields.len() ==> match #[trigger] nested.fields[k] {
                    NestedFieldView::Scalar { .. } => resolved.fields[k] == nested.fields[k],
                    NestedFieldView::Nested(inner) => resolved.fields[k] matches
                        NestedFieldView::Nested(level) && resolved_nested(
                        catalog,
                        *inner,
                        resolved.table,
                        false,
                    ) == Ok::<NestedProjectionView, ErrorView>(*level),
                }
        },
{
    match resolved_nested(catalog, nested, outer, qualify) {
        Ok(resolved) => {
            inner_fields_are_resolved(catalog, nested.fields, 0, resolved.table);
            assert forall|k: int| 0 <= k < nested.fields.len() implies match #[trigger] nested.fields[k] {
                NestedFieldView::Scalar { .. } => resolved.fields[k] == nested.fields[k],
                NestedFieldView::Nested(inner) => resolved.fields[k] matches
                    NestedFieldView::Nested(level) && resolved_nested(
                    catalog,
                    *inner,
                    resolved.table,
                    false,
                ) == Ok::<NestedProjectionView, ErrorView>(*level),
            } by {
                assert(nested.fields[0 + k] == nested.fields[k]);
            }
        },
        Err(_) => {},
    }
}

proof fn fields_are_resolved(
    catalog: CatalogView,
    fields: Seq<NestedProjectFieldView>,
    i: int,
    outer: Seq<char>,
)
    requires
        0 <= i <= fields.len(),
    ensures
        resolved_from(catalog, fields, i, outer) matches Ok(made) ==> made.len() == fields.len() - i
            && forall|k: int|
            0 <= k < made.len() ==> is_resolved(
                catalog,
                outer,
                fields[i + k],
                #[trigger] made[k],
            ),
    decreases fields.len() - i,
{
    if i < fields.len() {
        fields_are_resolved(catalog, fields, i + 1, outer);
        match (
            resolved_from(catalog, fields, i, outer),
            resolved_from(catalog, fields, i + 1, outer),
        ) {
            (Ok(all), Ok(rest)) => {
                assert forall|k: int| 0 <= k < all.len() implies is_resolved(
                    catalog,
                    outer,
                    fields[i + k],
                    #[trigger] all[k],
                ) by {
                    if k > 0 {
                        assert(all[k] == rest[k - 1]);
                        assert(fields[i + 1 + (k - 1)] == fields[i + k]);
                    }
                }
            },
            _ => {},
        }
    }
}

/// A field of a nesting projection as its links, which start from `outer`, make it.
pub open spec fn is_resolved(
    catalog: CatalogView,
    outer: Seq<char>,
    field: NestedProjectFieldView,
    made: NestedProjectFieldView,
) -> bool {
    match field {
        NestedProjectFieldView::Plain(_) => made == field,
        NestedProjectFieldView::Nested(nested) => made matches NestedProjectFieldView::Nested(level)
            && resolved_nested(catalog, nested, outer, true) == Ok::<
            NestedProjectionView,
            ErrorView,
        >(level),
        NestedProjectFieldView::Link(link) => made matches NestedProjectFieldView::Link(path)
            && resolved_link(catalog, link, outer) == Ok::<ScalarLinkFieldView, ErrorView>(path),
    }
}

/// A nesting projection nests the rows that its input answers. Where no field goes
/// over a link that is not resolved yet, it takes its fields as they are, and
/// otherwise each as its links make it, which start from the table that the input
/// reads.
pub proof fn nesting_plans_nest_the_rows_of_their_input(
    catalog: CatalogView,
    model: SessionModel,
    input: PlanView,
    fields: Seq<NestedProjectFieldView>,
    budget: Budget,
) -> (linked: Seq<NestedProjectFieldView>)
    ensures
        ({
            let answered = answer(
                catalog,
                model,
                PlanView::NestedProject { input: Box::new(input), fields },
                budget,
            );
            answered is Ok ==> {
                &&& answer(catalog, model, input, budget) matches Ok((got, left))
                &&& answered == nesting_answer(
                    NestedScope {
                        catalog,
                        eval: model.scalars.eval,
                        order: model.scalars.order,
                        words: model.words,
                        sizes: model.sizes,
                    },
                    model.documents,
                    got,
                    linked,
                    left,
                )
                &&& linked.len() == fields.len()
                &&& (forall|i: int| 0 <= i < fields.len() ==> !field_unresolved(#[trigger] fields[i]))
                    ==> linked == fields
                &&& (exists|i: int| 0 <= i < fields.len() && field_unresolved(#[trigger] fields[i]))
                    ==> (source_table(input) matches Some(outer) && forall|k: int|
                    0 <= k < fields.len() ==> is_resolved(
                        catalog,
                        outer,
                        fields[k],
                        #[trigger] linked[k],
                    ))
            }
        }),
{
    match linked_fields(catalog, input, fields) {
        Ok(linked) => {
            match source_table(input) {
                Some(outer) => {
                    fields_are_resolved(catalog, fields, 0, outer);
                    if exists|i: int|
                        0 <= i < fields.len() && field_unresolved(#[trigger] fields[i]) {
                        assert forall|k: int| 0 <= k < fields.len() implies is_resolved(
                            catalog,
                            outer,
                            fields[k],
                            #[trigger] linked[k],
                        ) by {
                            assert(fields[0 + k] == fields[k]);
                        }
                    }
                },
                None => {},
            }
            linked
        },
        Err(_) => fields,
    }
}

proof fn some_field_has_link(fields: Seq<NestedFieldView>, i: int)
    requires
        0 <= i <= fields.len(),
    ensures
        fields_have_link(fields, i) <==> exists|k: int|
            i <= k < fields.len() && (#[trigger] fields[k] matches NestedFieldView::Nested(inner)
                && nested_has_link(*inner)),
    decreases fields.len() - i,
{
    if i < fields.len() {
        some_field_has_link(fields, i + 1);
        if fields[i] matches NestedFieldView::Nested(inner) && nested_has_link(*inner) {
            assert(i <= i < fields.len());
        }
    }
}

/// A level goes over a link that is not resolved where it names one itself or where
/// a level within it does.
pub proof fn levels_go_over_links_at_any_depth(nested: NestedProjectionView)
    ensures
        nested_has_link(nested) <==> nested.via_link is Some || exists|k: int|
            0 <= k < nested.fields.len() && (#[trigger] nested.fields[k] matches
                NestedFieldView::Nested(inner) && nested_has_link(*inner)),
        field_unresolved(NestedProjectFieldView::Nested(nested)) == nested_has_link(nested),
{
    some_field_has_link(nested.fields, 0);
}

} // verus!
