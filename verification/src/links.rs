//! Links between types: how a traversal is resolved to tables and keys.
//!
//! Whether a hop reaches one row or many follows from the catalog as it stands
//! when a query runs: a hop to a unique key reaches at most one.

use vstd::prelude::*;

use crate::catalog::{Catalog, CatalogView, LinkDef, LinkDefView, LinkKind};
use crate::coerce::prefixed;
use crate::error::{outcome, ErrorView, QueryError};
use crate::group::{qualified, qualified_name};
use crate::plan::{
    clone_nested_field, clone_opt_expr, clone_orders, nested_field_view, nested_fields_view,
    nested_view, NestedField, NestedFieldView, NestedProjectField, NestedProjectFieldView,
    NestedProjection, NestedProjectionView, PlanNode, PlanView, ScalarLinkField,
    ScalarLinkFieldView, ScalarLinkHop, ScalarLinkHopView, ScalarLinkResolved,
    ScalarLinkResolvedView,
};
use crate::text::{clone_texts, join, join_texts, push_text};

verus! {

/// The error for a link that a type does not declare.
pub open spec fn unknown_link_error(owner: Seq<char>, link: Seq<char>) -> ErrorView {
    ErrorView::Execution(
        "unknown link `"@ + link + "` on type `"@ + owner + "`; declare it with `link "@ + owner
            + "."@ + link + " -> <Target> on <local> = <target>`"@,
    )
}

fn unknown_link(owner: &String, link: &String) -> (error: QueryError)
    ensures
        error.deep_view() == unknown_link_error(owner@, link@),
{
    let mut message = "unknown link `".to_owned();
    push_text(&mut message, link.as_str());
    push_text(&mut message, "` on type `");
    push_text(&mut message, owner.as_str());
    push_text(&mut message, "`; declare it with `link ");
    push_text(&mut message, owner.as_str());
    push_text(&mut message, ".");
    push_text(&mut message, link.as_str());
    push_text(&mut message, " -> <Target> on <local> = <target>`");
    QueryError::Execution(message)
}

/// The error for a block over a link that reaches one row.
pub open spec fn to_one_block_error(
    owner: Seq<char>,
    alias: Seq<char>,
    name: Seq<char>,
    link: LinkDefView,
) -> ErrorView {
    ErrorView::Execution(
        "link `"@ + name + "` on type `"@ + owner + "` is a to-one link (its target key `"@
            + link.target_type + "."@ + link.target_key
            + "` is unique, so a hop matches at most one row); traverse it as a path (`"@ + alias
            + "."@ + name + ".<column>`), not a block"@,
    )
}

fn to_one_block(owner: &String, alias: &String, name: &String, link: &LinkDef) -> (error: QueryError)
    ensures
        error.deep_view() == to_one_block_error(owner@, alias@, name@, link.deep_view()),
{
    let mut message = "link `".to_owned();
    push_text(&mut message, name.as_str());
    push_text(&mut message, "` on type `");
    push_text(&mut message, owner.as_str());
    push_text(&mut message, "` is a to-one link (its target key `");
    push_text(&mut message, link.target_type.as_str());
    push_text(&mut message, ".");
    push_text(&mut message, link.target_key.as_str());
    push_text(
        &mut message,
        "` is unique, so a hop matches at most one row); traverse it as a path (`",
    );
    push_text(&mut message, alias.as_str());
    push_text(&mut message, ".");
    push_text(&mut message, name.as_str());
    push_text(&mut message, ".<column>`), not a block");
    QueryError::Execution(message)
}

/// What would make a link reach one row, or that nothing would.
pub open spec fn to_one_remedy(catalog: CatalogView, link: LinkDefView) -> Seq<char> {
    if catalog.is_index_unique(link.target_type, link.target_key) == Some(false) {
        "There is no way to read one value per row here: `"@ + link.target_type + "."@
            + link.target_key
            + "` already carries a non-unique index and an index cannot be upgraded in place, so this link stays to-many."@
    } else {
        "To read one value per row, make the target key unique with `alter "@ + link.target_type
            + " add unique ."@ + link.target_key + "`."@
    }
}

/// The error for a path over a link that reaches many rows.
pub open spec fn to_many_path_error(
    catalog: CatalogView,
    owner: Seq<char>,
    alias: Seq<char>,
    name: Seq<char>,
    link: LinkDefView,
) -> ErrorView {
    ErrorView::Execution(
        "link `"@ + name + "` on type `"@ + owner + "` is a to-many link: its target key `"@
            + link.target_type + "."@ + link.target_key
            + "` is not unique, so a hop can match many rows. "@ + to_one_remedy(catalog, link)
            + " To read every match, traverse it with a block (`"@ + name + ": "@ + alias + "."@
            + name + " { ... }`)"@,
    )
}

fn to_many_path(
    catalog: &Catalog,
    owner: &String,
    alias: &String,
    name: &String,
    link: &LinkDef,
) -> (error: QueryError)
    ensures
        error.deep_view() == to_many_path_error(
            catalog.deep_view(),
            owner@,
            alias@,
            name@,
            link.deep_view(),
        ),
{
    let plain_index: bool = match catalog.is_index_unique(&link.target_type, &link.target_key) {
        Some(unique) => !unique,
        None => false,
    };
    let mut remedy = String::new();
    if plain_index {
        push_text(&mut remedy, "There is no way to read one value per row here: `");
        push_text(&mut remedy, link.target_type.as_str());
        push_text(&mut remedy, ".");
        push_text(&mut remedy, link.target_key.as_str());
        push_text(
            &mut remedy,
            "` already carries a non-unique index and an index cannot be upgraded in place, so this link stays to-many.",
        );
    } else {
        push_text(&mut remedy, "To read one value per row, make the target key unique with `alter ");
        push_text(&mut remedy, link.target_type.as_str());
        push_text(&mut remedy, " add unique .");
        push_text(&mut remedy, link.target_key.as_str());
        push_text(&mut remedy, "`.");
    }
    assert(remedy@ =~= to_one_remedy(catalog.deep_view(), link.deep_view()));
    let mut message = "link `".to_owned();
    push_text(&mut message, name.as_str());
    push_text(&mut message, "` on type `");
    push_text(&mut message, owner.as_str());
    push_text(&mut message, "` is a to-many link: its target key `");
    push_text(&mut message, link.target_type.as_str());
    push_text(&mut message, ".");
    push_text(&mut message, link.target_key.as_str());
    push_text(&mut message, "` is not unique, so a hop can match many rows. ");
    push_text(&mut message, remedy.as_str());
    push_text(&mut message, " To read every match, traverse it with a block (`");
    push_text(&mut message, name.as_str());
    push_text(&mut message, ": ");
    push_text(&mut message, alias.as_str());
    push_text(&mut message, ".");
    push_text(&mut message, name.as_str());
    push_text(&mut message, " { ... }`)");
    QueryError::Execution(message)
}

/// Where a nested projection reads its children and how they correlate.
pub struct Correlation {
    pub table: Seq<char>,
    pub child_key: Seq<char>,
    pub parent_key: Seq<char>,
}

/// The correlation of a nested projection: its own, or that of the link which
/// it goes over. The parent's key goes under the parent's alias at the top
/// level and by its bare name below.
pub open spec fn correlation(
    catalog: CatalogView,
    nested: NestedProjectionView,
    outer: Seq<char>,
    qualify: bool,
) -> Result<Correlation, ErrorView> {
    match nested.via_link {
        None => Ok(
            Correlation {
                table: nested.table,
                child_key: nested.child_key,
                parent_key: nested.parent_key,
            },
        ),
        Some(name) => match catalog.link(outer, name) {
            None => Err(unknown_link_error(outer, name)),
            Some(link) => if catalog.link_kind(link.target_type, link.target_key)
                != LinkKind::ToMany {
                Err(to_one_block_error(outer, nested.parent_alias, name, link))
            } else {
                Ok(
                    Correlation {
                        table: link.target_type,
                        child_key: link.target_key,
                        parent_key: if qualify {
                            qualified(nested.parent_alias, link.local_key)
                        } else {
                            link.local_key
                        },
                    },
                )
            },
        },
    }
}

/// A nested projection with its links resolved, at every level.
pub open spec fn resolved_nested(
    catalog: CatalogView,
    nested: NestedProjectionView,
    outer: Seq<char>,
    qualify: bool,
) -> Result<NestedProjectionView, ErrorView>
    decreases nested, 0int,
{
    match correlation(catalog, nested, outer, qualify) {
        Err(e) => Err(e),
        Ok(c) => match resolved_fields(catalog, nested.fields, 0, c.table) {
            Err(e) => Err(e),
            Ok(fields) => Ok(
                NestedProjectionView {
                    name: nested.name,
                    table: c.table,
                    parent_alias: nested.parent_alias,
                    child_key: c.child_key,
                    parent_key: c.parent_key,
                    via_link: None,
                    fields,
                    order: nested.order,
                    limit: nested.limit,
                    offset: nested.offset,
                    residual: nested.residual,
                },
            ),
        },
    }
}

/// The fields from `i` on, with their links resolved against `table`.
pub open spec fn resolved_fields(
    catalog: CatalogView,
    fields: Seq<NestedFieldView>,
    i: int,
    table: Seq<char>,
) -> Result<Seq<NestedFieldView>, ErrorView>
    decreases fields, fields.len() - i,
{
    if i < 0 || i >= fields.len() {
        Ok(Seq::empty())
    } else {
        match fields[i] {
            NestedFieldView::Scalar { .. } => prefixed(
                seq![fields[i]],
                resolved_fields(catalog, fields, i + 1, table),
            ),
            NestedFieldView::Nested(inner) => match resolved_nested(
                catalog,
                *inner,
                table,
                false,
            ) {
                Err(e) => Err(e),
                Ok(inner) => prefixed(
                    seq![NestedFieldView::Nested(Box::new(inner))],
                    resolved_fields(catalog, fields, i + 1, table),
                ),
            },
        }
    }
}

fn resolve_correlation(
    catalog: &Catalog,
    nested: &NestedProjection,
    outer: &String,
    qualify: bool,
) -> (resolved: Result<(String, String, String), QueryError>)
    ensures
        match resolved {
            Ok((table, child_key, parent_key)) => correlation(
                catalog.deep_view(),
                nested.deep_view(),
                outer@,
                qualify,
            ) == Ok::<Correlation, ErrorView>(
                Correlation {
                    table: table@,
                    child_key: child_key@,
                    parent_key: parent_key@,
                },
            ),
            Err(e) => correlation(catalog.deep_view(), nested.deep_view(), outer@, qualify) == Err::<
                Correlation,
                ErrorView,
            >(e.deep_view()),
        },
{
    let name = match &nested.via_link {
        Some(name) => name,
        None => {
            return Ok(
                (nested.table.clone(), nested.child_key.clone(), nested.parent_key.clone()),
            );
        },
    };
    let link = match catalog.link(outer, name) {
        Some(link) => link,
        None => {
            return Err(unknown_link(outer, name));
        },
    };
    let kind = catalog.derive_link_kind(&link.target_type, &link.target_key);
    if kind != LinkKind::ToMany {
        return Err(to_one_block(outer, &nested.parent_alias, name, link));
    }
    let parent_key = if qualify {
        qualified_name(&nested.parent_alias, &link.local_key)
    } else {
        link.local_key.clone()
    };
    Ok((link.target_type.clone(), link.target_key.clone(), parent_key))
}

/// Resolve the links of a nested projection, at every level.
pub fn resolve_via_link(
    catalog: &Catalog,
    nested: &NestedProjection,
    outer: &String,
    qualify_parent: bool,
) -> (resolved: Result<NestedProjection, QueryError>)
    ensures
        outcome(resolved) == resolved_nested(
            catalog.deep_view(),
            nested.deep_view(),
            outer@,
            qualify_parent,
        ),
    decreases nested,
{
    let (table, child_key, parent_key) = resolve_correlation(
        catalog,
        nested,
        outer,
        qualify_parent,
    )?;
    let fields = resolve_nested_fields(catalog, &nested.fields, &table)?;
    Ok(
        NestedProjection {
            name: nested.name.clone(),
            table,
            parent_alias: nested.parent_alias.clone(),
            child_key,
            parent_key,
            via_link: None,
            fields,
            order: clone_orders(&nested.order),
            limit: clone_opt_expr(&nested.limit),
            offset: clone_opt_expr(&nested.offset),
            residual: clone_opt_expr(&nested.residual),
        },
    )
}

fn resolve_nested_fields(catalog: &Catalog, fields: &Vec<NestedField>, table: &String) -> (resolved:
    Result<Vec<NestedField>, QueryError>)
    ensures
        match resolved {
            Ok(r) => resolved_fields(
                catalog.deep_view(),
                nested_fields_view(fields@),
                0,
                table@,
            ) == Ok::<Seq<NestedFieldView>, ErrorView>(nested_fields_view(r@)),
            Err(e) => resolved_fields(
                catalog.deep_view(),
                nested_fields_view(fields@),
                0,
                table@,
            ) == Err::<Seq<NestedFieldView>, ErrorView>(e.deep_view()),
        },
    decreases fields,
{
    let ghost views = nested_fields_view(fields@);
    let ghost cat = catalog.deep_view();
    let ghost all = resolved_fields(cat, views, 0, table@);
    let mut resolved: Vec<NestedField> = Vec::new();
    let mut i: usize = 0;
    assert(prefixed(nested_fields_view(resolved@), all) == all) by {
        assert(all matches Ok(rest) ==> nested_fields_view(resolved@) + rest =~= rest);
    }
    while i < fields.len()
        invariant
            i <= fields.len(),
            views == nested_fields_view(fields@),
            cat == catalog.deep_view(),
            all == resolved_fields(cat, views, 0, table@),
            all == prefixed(
                nested_fields_view(resolved@),
                resolved_fields(cat, views, i as int, table@),
            ),
        decreases fields.len() - i,
    {
        let ghost before = nested_fields_view(resolved@);
        assert(views[i as int] == nested_field_view(fields[i as int]));
        let field = match &fields[i] {
            NestedField::Nested(inner) => {
                assert(inner.deep_view() == nested_view(**inner));
                let inner = resolve_via_link(catalog, inner, table, false)?;
                NestedField::Nested(Box::new(inner))
            },
            NestedField::Scalar { .. } => clone_nested_field(&fields[i]),
        };
        let ghost shown = nested_field_view(field);
        resolved.push(field);
        assert(nested_fields_view(resolved@) =~= before.push(shown));
        assert(resolved_fields(cat, views, i + 1, table@) matches Ok(rest) ==> before + (seq![shown]
            + rest) =~= before.push(shown) + rest);
        i = i + 1;
    }
    assert(nested_fields_view(resolved@) + Seq::<NestedFieldView>::empty() =~= nested_fields_view(
        resolved@,
    ));
    Ok(resolved)
}

/// The links of a path from link `i` on, each declared on the type that the one
/// before it reaches, and each reaching one row.
pub open spec fn link_chain(
    catalog: CatalogView,
    alias: Seq<char>,
    links: Seq<Seq<char>>,
    i: int,
    current: Seq<char>,
) -> Result<Seq<LinkDefView>, ErrorView>
    decreases links.len() - i,
{
    if i < 0 || i >= links.len() {
        Ok(Seq::empty())
    } else {
        match catalog.link(current, links[i]) {
            None => Err(unknown_link_error(current, links[i])),
            Some(link) => if catalog.link_kind(link.target_type, link.target_key)
                != LinkKind::ToOne {
                Err(to_many_path_error(catalog, current, alias, links[i], link))
            } else {
                prefixed(seq![link], link_chain(catalog, alias, links, i + 1, link.target_type))
            },
        }
    }
}

/// The hops of a chain of links: each looks its key up in its table and hands
/// on the key of the next hop, the last the column that is asked for.
pub open spec fn chain_hops(chain: Seq<LinkDefView>, column: Seq<char>) -> Seq<ScalarLinkHopView> {
    Seq::new(
        chain.len(),
        |i: int|
            ScalarLinkHopView {
                table: chain[i].target_type,
                key_col: chain[i].target_key,
                out_col: if i + 1 < chain.len() {
                    chain[i + 1].local_key
                } else {
                    column
                },
            },
    )
}

/// The error for a path without a link.
pub open spec fn no_link_error(column: Seq<char>) -> ErrorView {
    ErrorView::Execution(
        "scalar link path for column `"@ + column
            + "` names no link to traverse; write it as `<alias>.<link>.<column>`"@,
    )
}

/// A scalar link path with its hops resolved.
pub open spec fn resolved_link(catalog: CatalogView, field: ScalarLinkFieldView, outer: Seq<char>) -> Result<
    ScalarLinkFieldView,
    ErrorView,
> {
    if field.resolved is Some {
        Ok(field)
    } else {
        match link_chain(catalog, field.outer_alias, field.links, 0, outer) {
            Err(e) => Err(e),
            Ok(chain) => if chain.len() == 0 {
                Err(no_link_error(field.column))
            } else {
                Ok(
                    ScalarLinkFieldView {
                        name: field.name,
                        outer_alias: field.outer_alias,
                        links: field.links,
                        column: field.column,
                        resolved: Some(
                            ScalarLinkResolvedView {
                                first_fk: qualified(field.outer_alias, chain[0].local_key),
                                hops: chain_hops(chain, field.column),
                            },
                        ),
                    },
                )
            },
        }
    }
}

fn resolve_chain(catalog: &Catalog, field: &ScalarLinkField, outer: &String) -> (chain: Result<
    Vec<LinkDef>,
    QueryError,
>)
    ensures
        outcome(chain) == link_chain(
            catalog.deep_view(),
            field.outer_alias@,
            field.links.deep_view(),
            0,
            outer@,
        ),
{
    let ghost (cat, alias, names) = (
        catalog.deep_view(),
        field.outer_alias@,
        field.links.deep_view(),
    );
    let ghost all = link_chain(cat, alias, names, 0, outer@);
    let mut chain: Vec<LinkDef> = Vec::new();
    let mut current = outer.clone();
    let mut i: usize = 0;
    assert(prefixed(chain.deep_view(), all) == all) by {
        assert(all matches Ok(rest) ==> chain.deep_view() + rest =~= rest);
    }
    while i < field.links.len()
        invariant
            i <= field.links.len(),
            cat == catalog.deep_view(),
            alias == field.outer_alias@,
            names == field.links.deep_view(),
            all == link_chain(cat, alias, names, 0, outer@),
            all == prefixed(chain.deep_view(), link_chain(cat, alias, names, i as int, current@)),
        decreases field.links.len() - i,
    {
        let ghost before = chain.deep_view();
        assert(names[i as int] == field.links[i as int]@);
        let link = match catalog.link(&current, &field.links[i]) {
            Some(link) => link,
            None => {
                return Err(unknown_link(&current, &field.links[i]));
            },
        };
        let kind = catalog.derive_link_kind(&link.target_type, &link.target_key);
        if kind != LinkKind::ToOne {
            return Err(
                to_many_path(catalog, &current, &field.outer_alias, &field.links[i], link),
            );
        }
        current = link.target_type.clone();
        let ghost shown = link.deep_view();
        chain.push(link.clone());
        assert(chain.deep_view() =~= before.push(shown));
        assert(link_chain(cat, alias, names, i + 1, current@) matches Ok(rest) ==> before + (
        seq![shown] + rest) =~= before.push(shown) + rest);
        i = i + 1;
    }
    assert(chain.deep_view() + Seq::<LinkDefView>::empty() =~= chain.deep_view());
    Ok(chain)
}

/// Resolve a scalar link path: each of its links must reach one row.
pub fn resolve_scalar_link_field(catalog: &Catalog, field: &ScalarLinkField, outer: &String) -> (resolved:
    Result<ScalarLinkField, QueryError>)
    ensures
        outcome(resolved) == resolved_link(catalog.deep_view(), field.deep_view(), outer@),
{
    if field.resolved.is_some() {
        return Ok(field.clone());
    }
    let chain = resolve_chain(catalog, field, outer)?;
    if chain.len() == 0 {
        let mut message = "scalar link path for column `".to_owned();
        push_text(&mut message, field.column.as_str());
        push_text(
            &mut message,
            "` names no link to traverse; write it as `<alias>.<link>.<column>`",
        );
        assert(chain.deep_view().len() == 0);
        return Err(QueryError::Execution(message));
    }
    assert(chain.deep_view()[0] == chain[0].deep_view());
    let first_fk = qualified_name(&field.outer_alias, &chain[0].local_key);
    let mut hops: Vec<ScalarLinkHop> = Vec::new();
    let ghost all = chain_hops(chain.deep_view(), field.column@);
    let mut i: usize = 0;
    while i < chain.len()
        invariant
            i <= chain.len(),
            all == chain_hops(chain.deep_view(), field.column@),
            hops.len() == i,
            forall|j: int| 0 <= j < i ==> (#[trigger] hops[j]).deep_view() == all[j],
        decreases chain.len() - i,
    {
        let out_col = if i + 1 < chain.len() {
            chain[i + 1].local_key.clone()
        } else {
            field.column.clone()
        };
        hops.push(
            ScalarLinkHop {
                table: chain[i].target_type.clone(),
                key_col: chain[i].target_key.clone(),
                out_col,
            },
        );
        i = i + 1;
    }
    assert(hops.deep_view() =~= all);
    Ok(
        ScalarLinkField {
            name: field.name.clone(),
            outer_alias: field.outer_alias.clone(),
            links: clone_texts(&field.links),
            column: field.column.clone(),
            resolved: Some(ScalarLinkResolved { first_fk, hops }),
        },
    )
}

/// A field of a nesting projection with its links resolved.
pub open spec fn resolved_field(
    catalog: CatalogView,
    field: NestedProjectFieldView,
    outer: Seq<char>,
) -> Result<NestedProjectFieldView, ErrorView> {
    match field {
        NestedProjectFieldView::Plain(_) => Ok(field),
        NestedProjectFieldView::Nested(nested) => match resolved_nested(
            catalog,
            nested,
            outer,
            true,
        ) {
            Ok(nested) => Ok(NestedProjectFieldView::Nested(nested)),
            Err(e) => Err(e),
        },
        NestedProjectFieldView::Link(link) => match resolved_link(catalog, link, outer) {
            Ok(link) => Ok(NestedProjectFieldView::Link(link)),
            Err(e) => Err(e),
        },
    }
}

/// The fields from `i` on, with their links resolved.
pub open spec fn resolved_from(
    catalog: CatalogView,
    fields: Seq<NestedProjectFieldView>,
    i: int,
    outer: Seq<char>,
) -> Result<Seq<NestedProjectFieldView>, ErrorView>
    decreases fields.len() - i,
{
    if i < 0 || i >= fields.len() {
        Ok(Seq::empty())
    } else {
        match resolved_field(catalog, fields[i], outer) {
            Ok(field) => prefixed(seq![field], resolved_from(catalog, fields, i + 1, outer)),
            Err(e) => Err(e),
        }
    }
}

/// Resolve the links of the fields of a nesting projection, as the catalog
/// stands.
pub fn resolve_nested_via_links(
    catalog: &Catalog,
    fields: &Vec<NestedProjectField>,
    outer: &String,
) -> (resolved: Result<Vec<NestedProjectField>, QueryError>)
    ensures
        outcome(resolved) == resolved_from(catalog.deep_view(), fields.deep_view(), 0, outer@),
{
    let ghost (cat, views) = (catalog.deep_view(), fields.deep_view());
    let ghost all = resolved_from(cat, views, 0, outer@);
    let mut resolved: Vec<NestedProjectField> = Vec::new();
    let mut i: usize = 0;
    assert(prefixed(resolved.deep_view(), all) == all) by {
        assert(all matches Ok(rest) ==> resolved.deep_view() + rest =~= rest);
    }
    while i < fields.len()
        invariant
            i <= fields.len(),
            cat == catalog.deep_view(),
            views == fields.deep_view(),
            all == resolved_from(cat, views, 0, outer@),
            all == prefixed(resolved.deep_view(), resolved_from(cat, views, i as int, outer@)),
        decreases fields.len() - i,
    {
        let ghost before = resolved.deep_view();
        assert(views[i as int] == fields[i as int].deep_view());
        let field = match &fields[i] {
            NestedProjectField::Nested(nested) => {
                let nested = resolve_via_link(catalog, nested, outer, true)?;
                NestedProjectField::Nested(Box::new(nested))
            },
            NestedProjectField::Plain(_) => fields[i].clone(),
            NestedProjectField::Link(link) => {
                let link = resolve_scalar_link_field(catalog, link, outer)?;
                NestedProjectField::Link(Box::new(link))
            },
        };
        let ghost shown = field.deep_view();
        resolved.push(field);
        assert(resolved.deep_view() =~= before.push(shown));
        assert(resolved_from(cat, views, i + 1, outer@) matches Ok(rest) ==> before + (seq![shown]
            + rest) =~= before.push(shown) + rest);
        i = i + 1;
    }
    assert(resolved.deep_view() + Seq::<NestedProjectFieldView>::empty() =~= resolved.deep_view());
    Ok(resolved)
}

/// Some level of a nested projection goes over a link that is not resolved.
pub open spec fn nested_has_link(nested: NestedProjectionView) -> bool
    decreases nested, 0int,
{
    nested.via_link is Some || fields_have_link(nested.fields, 0)
}

/// Some field from `i` on goes over a link that is not resolved.
pub open spec fn fields_have_link(fields: Seq<NestedFieldView>, i: int) -> bool
    decreases fields, fields.len() - i,
{
    0 <= i < fields.len() && ((match fields[i] {
        NestedFieldView::Nested(inner) => nested_has_link(*inner),
        NestedFieldView::Scalar { .. } => false,
    }) || fields_have_link(fields, i + 1))
}

fn nested_has(nested: &NestedProjection) -> (has: bool)
    ensures
        has == nested_has_link(nested.deep_view()),
    decreases nested,
{
    nested.via_link.is_some() || fields_have(&nested.fields)
}

fn fields_have(fields: &Vec<NestedField>) -> (has: bool)
    ensures
        has == fields_have_link(nested_fields_view(fields@), 0),
    decreases fields,
{
    let ghost views = nested_fields_view(fields@);
    let mut i: usize = 0;
    while i < fields.len()
        invariant
            i <= fields.len(),
            views == nested_fields_view(fields@),
            fields_have_link(views, 0) == fields_have_link(views, i as int),
        decreases fields.len() - i,
    {
        assert(views[i as int] == nested_field_view(fields[i as int]));
        match &fields[i] {
            NestedField::Nested(inner) => {
                assert(inner.deep_view() == nested_view(**inner));
                if nested_has(inner) {
                    return true;
                }
            },
            NestedField::Scalar { .. } => {},
        }
        i = i + 1;
    }
    false
}

/// A field goes over a link that is not resolved.
pub open spec fn field_unresolved(field: NestedProjectFieldView) -> bool {
    match field {
        NestedProjectFieldView::Plain(_) => false,
        NestedProjectFieldView::Nested(nested) => nested_has_link(nested),
        NestedProjectFieldView::Link(link) => link.resolved is None,
    }
}

/// Whether some field goes over a link that is not resolved.
pub fn nested_fields_have_via_link(fields: &Vec<NestedProjectField>) -> (have: bool)
    ensures
        have == (exists|i: int|
            0 <= i < fields.len() && field_unresolved(#[trigger] fields.deep_view()[i])),
{
    let ghost views = fields.deep_view();
    let mut i: usize = 0;
    while i < fields.len()
        invariant
            i <= fields.len(),
            views == fields.deep_view(),
            forall|j: int| 0 <= j < i ==> !field_unresolved(#[trigger] views[j]),
        decreases fields.len() - i,
    {
        assert(views[i as int] == fields[i as int].deep_view());
        let unresolved: bool = match &fields[i] {
            NestedProjectField::Nested(nested) => nested_has(nested),
            NestedProjectField::Plain(_) => false,
            NestedProjectField::Link(link) => link.resolved.is_none(),
        };
        if unresolved {
            return true;
        }
        i = i + 1;
    }
    false
}

/// The table that a pipeline reads.
pub open spec fn source_table(plan: PlanView) -> Option<Seq<char>>
    decreases plan,
{
    match plan {
        PlanView::AliasScan { table, .. } => Some(table),
        PlanView::SeqScan { table } => Some(table),
        PlanView::Filter { input, .. } => source_table(*input),
        PlanView::Sort { input, .. } => source_table(*input),
        PlanView::Limit { input, .. } => source_table(*input),
        PlanView::Offset { input, .. } => source_table(*input),
        _ => None,
    }
}

/// The table that a pipeline reads.
pub fn scan_source_table(plan: &PlanNode) -> (table: Option<&String>)
    ensures
        table.deep_view() == source_table(plan.deep_view()),
    decreases plan,
{
    match plan {
        PlanNode::AliasScan { table, .. } => Some(table),
        PlanNode::SeqScan { table } => Some(table),
        PlanNode::Filter { input, .. } => scan_source_table(input),
        PlanNode::Sort { input, .. } => scan_source_table(input),
        PlanNode::Limit { input, .. } => scan_source_table(input),
        PlanNode::Offset { input, .. } => scan_source_table(input),
        _ => None,
    }
}

/// A number, held to 64 bits.
pub open spec fn saturated(n: int) -> int {
    if n > u64::MAX {
        u64::MAX as int
    } else {
        n
    }
}

/// Whether looking `keys` keys up one by one is expected to read less than a
/// quarter of what a full scan reads.
pub open spec fn probe_pays_off(
    catalog: CatalogView,
    table: Seq<char>,
    column: Seq<char>,
    keys: int,
) -> bool {
    match catalog.index_stats(table, column) {
        None => false,
        Some(stats) => if stats.distinct_keys == 0 {
            true
        } else {
            let total = stats.total_entries as int;
            let distinct = stats.distinct_keys as int;
            let bucket = if total % distinct == 0 {
                total / distinct
            } else {
                total / distinct + 1
            };
            saturated(saturated(keys * bucket) * 4) <= total
        },
    }
}

fn saturating_product(a: u64, b: u64) -> (product: u64)
    ensures
        product == saturated(a * b),
{
    match a.checked_mul(b) {
        Some(product) => product,
        None => u64::MAX,
    }
}

/// Whether looking keys up one by one beats a full scan.
pub fn child_index_probe_pays_off(
    catalog: &Catalog,
    table: &String,
    column: &String,
    n_keys: usize,
) -> (pays_off: bool)
    ensures
        pays_off == probe_pays_off(catalog.deep_view(), table@, column@, n_keys as int),
{
    match catalog.index_stats(table, column) {
        None => false,
        Some(stats) => {
            if stats.distinct_keys == 0 {
                return true;
            }
            let whole: u64 = stats.total_entries / stats.distinct_keys;
            let bucket: u64 = if stats.total_entries % stats.distinct_keys == 0 {
                whole
            } else {
                assert(whole < u64::MAX) by (nonlinear_arith)
                    requires
                        whole == stats.total_entries / stats.distinct_keys,
                        stats.total_entries % stats.distinct_keys != 0,
                        stats.distinct_keys > 0,
                {
                    assert(stats.total_entries == stats.distinct_keys * whole + stats.total_entries
                        % stats.distinct_keys);
                }
                whole + 1
            };
            let fetched: u64 = saturating_product(n_keys as u64, bucket);
            saturating_product(fetched, 4) <= stats.total_entries
        },
    }
}

/// Names in quotes.
pub open spec fn quoted(names: Seq<Seq<char>>) -> Seq<Seq<char>> {
    Seq::new(names.len(), |i: int| "'"@ + names[i] + "'"@)
}

/// A list of views, and the verb that goes with it.
pub open spec fn view_list(names: Seq<Seq<char>>) -> (Seq<char>, Seq<char>) {
    if names.len() == 1 {
        ("view "@ + quoted(names)[0], "has"@)
    } else {
        ("views "@ + join_texts(quoted(names), ", "@), "have"@)
    }
}

/// A list of views, and the verb that goes with it.
pub fn describe_view_list(names: &Vec<String>) -> (described: (String, &'static str))
    ensures
        (described.0@, described.1@) == view_list(names.deep_view()),
{
    let ghost views = names.deep_view();
    let mut marked: Vec<String> = Vec::new();
    let mut i: usize = 0;
    while i < names.len()
        invariant
            i <= names.len(),
            views == names.deep_view(),
            marked.len() == i,
            forall|j: int| 0 <= j < i ==> (#[trigger] marked[j])@ == quoted(views)[j],
        decreases names.len() - i,
    {
        let mut name = "'".to_owned();
        push_text(&mut name, names[i].as_str());
        push_text(&mut name, "'");
        marked.push(name);
        i = i + 1;
    }
    assert(marked.deep_view() =~= quoted(views));
    assert(views.len() == names.len());
    if marked.len() == 1 {
        let mut text = "view ".to_owned();
        push_text(&mut text, marked[0].as_str());
        (text, "has")
    } else {
        let mut text = "views ".to_owned();
        let list = join(&marked, ", ");
        push_text(&mut text, list.as_str());
        (text, "have")
    }
}

/// A resolved nested projection has no link left, at any level.
pub proof fn resolution_leaves_no_link(
    catalog: CatalogView,
    nested: NestedProjectionView,
    outer: Seq<char>,
    qualify: bool,
)
    ensures
        resolved_nested(catalog, nested, outer, qualify) matches Ok(resolved) ==> !nested_has_link(
            resolved,
        ),
    decreases nested, 0int,
{
    match correlation(catalog, nested, outer, qualify) {
        Ok(c) => {
            resolved_fields_have_no_link(catalog, nested.fields, 0, c.table);
        },
        Err(_) => {},
    }
}

proof fn resolved_fields_have_no_link(
    catalog: CatalogView,
    fields: Seq<NestedFieldView>,
    i: int,
    table: Seq<char>,
)
    requires
        0 <= i,
    ensures
        resolved_fields(catalog, fields, i, table) matches Ok(resolved) ==> !fields_have_link(
            resolved,
            0,
        ),
    decreases fields, fields.len() - i,
{
    if i < fields.len() {
        resolved_fields_have_no_link(catalog, fields, i + 1, table);
        match fields[i] {
            NestedFieldView::Nested(inner) => {
                resolution_leaves_no_link(catalog, *inner, table, false);
            },
            NestedFieldView::Scalar { .. } => {},
        }
        match (
            resolved_fields(catalog, fields, i, table),
            resolved_fields(catalog, fields, i + 1, table),
        ) {
            (Ok(all), Ok(rest)) => {
                assert(all[0] == all.first());
                links_shift(all, rest, 0);
            },
            _ => {},
        }
    }
}

proof fn links_shift(all: Seq<NestedFieldView>, rest: Seq<NestedFieldView>, k: int)
    requires
        0 <= k,
        all.len() == rest.len() + 1,
        forall|j: int| 0 <= j < rest.len() ==> all[j + 1] == #[trigger] rest[j],
    ensures
        fields_have_link(all, k + 1) == fields_have_link(rest, k),
    decreases rest.len() - k,
{
    if k < rest.len() {
        links_shift(all, rest, k + 1);
    }
}

/// What a path over links reaches is at most one row at each hop.
pub proof fn chains_reach_one_row(
    catalog: CatalogView,
    alias: Seq<char>,
    links: Seq<Seq<char>>,
    i: int,
    current: Seq<char>,
)
    requires
        0 <= i,
    ensures
        link_chain(catalog, alias, links, i, current) matches Ok(chain) ==> forall|k: int|
            0 <= k < chain.len() ==> catalog.is_index_unique(
                (#[trigger] chain[k]).target_type,
                chain[k].target_key,
            ) == Some(true),
    decreases links.len() - i,
{
    if i < links.len() {
        match catalog.link(current, links[i]) {
            Some(link) => {
                chains_reach_one_row(catalog, alias, links, i + 1, link.target_type);
                match link_chain(catalog, alias, links, i, current) {
                    Ok(chain) => {
                        let rest = link_chain(catalog, alias, links, i + 1, link.target_type)->Ok_0;
                        assert forall|k: int| 0 <= k < chain.len() implies catalog.is_index_unique(
                            (#[trigger] chain[k]).target_type,
                            chain[k].target_key,
                        ) == Some(true) by {
                            if k > 0 {
                                assert(chain[k] == rest[k - 1]);
                            }
                        }
                    },
                    Err(_) => {},
                }
            },
            None => {},
        }
    }
}

} // verus!
