//! Query plans.

use vstd::prelude::*;

use crate::expr::{
    clone_expr, clone_segments, clone_sort_keys, sort_keys_view, AggFunc, AggregateMode, Expr,
    ExprView, Literal, LiteralView, PathSeg, PathSegView, SortKey, SortKeyView,
};
use crate::group::{GroupAgg, GroupAggView, GroupKey, GroupKeyView};
use crate::join::JoinKind;
use crate::text::clone_texts;
use crate::window::{WindowDef, WindowDefView};

verus! {

/// Copying a `T` keeps what it stands for.
pub open spec fn clones_keep_view<T: DeepView + Clone>() -> bool {
    forall|a: T, b: T| #[trigger] call_ensures(T::clone, (&a,), b) ==> b.deep_view() == a.deep_view()
}

/// A copy of `items`.
pub fn clone_all<T: DeepView + Clone>(items: &Vec<T>) -> (copy: Vec<T>)
    requires
        clones_keep_view::<T>(),
    ensures
        copy.deep_view() == items.deep_view(),
        copy.len() == items.len(),
{
    let mut copy: Vec<T> = Vec::new();
    let mut i: usize = 0;
    while i < items.len()
        invariant
            clones_keep_view::<T>(),
            i <= items.len(),
            copy.len() == i,
            forall|j: int| 0 <= j < i ==> (#[trigger] copy[j]).deep_view() == items[j].deep_view(),
        decreases items.len() - i,
    {
        let item = items[i].clone();
        copy.push(item);
        i = i + 1;
    }
    assert(copy.deep_view() =~= items.deep_view());
    copy
}

/// A copy of `lists`.
pub fn clone_all2<T: DeepView + Clone>(lists: &Vec<Vec<T>>) -> (copy: Vec<Vec<T>>)
    requires
        clones_keep_view::<T>(),
    ensures
        copy.deep_view() == lists.deep_view(),
        copy.len() == lists.len(),
{
    let mut copy: Vec<Vec<T>> = Vec::new();
    let mut i: usize = 0;
    while i < lists.len()
        invariant
            clones_keep_view::<T>(),
            i <= lists.len(),
            copy.len() == i,
            forall|j: int| 0 <= j < i ==> (#[trigger] copy[j]).deep_view() == lists[j].deep_view(),
        decreases lists.len() - i,
    {
        copy.push(clone_all(&lists[i]));
        i = i + 1;
    }
    assert(copy.deep_view() =~= lists.deep_view());
    copy
}

/// A copy of `item`.
pub fn clone_opt<T: DeepView + Clone>(item: &Option<T>) -> (copy: Option<T>)
    requires
        clones_keep_view::<T>(),
    ensures
        copy.deep_view() == item.deep_view(),
{
    match item {
        Some(inner) => Some(inner.clone()),
        None => None,
    }
}

/// A copy of `text`.
pub fn clone_opt_text(text: &Option<String>) -> (copy: Option<String>)
    ensures
        copy.deep_view() == text.deep_view(),
{
    match text {
        Some(inner) => Some(inner.clone()),
        None => None,
    }
}

/// A copy of `expr`.
pub fn clone_opt_expr(expr: &Option<Expr>) -> (copy: Option<Expr>)
    ensures
        copy.deep_view() == expr.deep_view(),
{
    match expr {
        Some(inner) => Some(clone_expr(inner)),
        None => None,
    }
}

/// A copy of `bound`.
pub fn clone_bound(bound: &Option<(Expr, bool)>) -> (copy: Option<(Expr, bool)>)
    ensures
        copy.deep_view() == bound.deep_view(),
{
    match bound {
        Some((expr, inclusive)) => Some((clone_expr(expr), *inclusive)),
        None => None,
    }
}

pub fn clone_orders(orders: &Vec<(String, bool)>) -> (copy: Vec<(String, bool)>)
    ensures
        copy.deep_view() == orders.deep_view(),
{
    let mut copy: Vec<(String, bool)> = Vec::new();
    let mut i: usize = 0;
    while i < orders.len()
        invariant
            i <= orders.len(),
            copy.len() == i,
            forall|j: int| 0 <= j < i ==> (#[trigger] copy[j]).deep_view() == orders[j].deep_view(),
        decreases orders.len() - i,
    {
        copy.push((orders[i].0.clone(), orders[i].1));
        i = i + 1;
    }
    assert(copy.deep_view() =~= orders.deep_view());
    copy
}

/// A JSON path as an index stores it.
#[derive(Debug, PartialEq, Eq)]
pub struct StoredJsonPath {
    pub column: String,
    pub segments: Vec<PathSeg>,
}

/// What a [`StoredJsonPath`] stands for.
pub struct StoredJsonPathView {
    pub column: Seq<char>,
    pub segments: Seq<PathSegView>,
}

impl DeepView for StoredJsonPath {
    type V = StoredJsonPathView;

    open spec fn deep_view(&self) -> StoredJsonPathView {
        StoredJsonPathView {
            column: self.column@,
            segments: self.segments.deep_view(),
        }
    }
}

impl Clone for StoredJsonPath {
    fn clone(&self) -> (copy: Self)
        ensures
            copy.deep_view() == self.deep_view(),
    {
        StoredJsonPath {
            column: self.column.clone(),
            segments: clone_segments(&self.segments),
        }
    }
}

/// A value for a field.
#[derive(Debug, PartialEq, Eq)]
pub struct Assignment {
    pub field: String,
    pub value: Expr,
}

/// What a [`Assignment`] stands for.
pub struct AssignmentView {
    pub field: Seq<char>,
    pub value: ExprView,
}

impl DeepView for Assignment {
    type V = AssignmentView;

    open spec fn deep_view(&self) -> AssignmentView {
        AssignmentView {
            field: self.field@,
            value: self.value.deep_view(),
        }
    }
}

impl Clone for Assignment {
    fn clone(&self) -> (copy: Self)
        ensures
            copy.deep_view() == self.deep_view(),
    {
        Assignment {
            field: self.field.clone(),
            value: clone_expr(&self.value),
        }
    }
}

/// One field of a projection.
#[derive(Debug, PartialEq, Eq)]
pub struct ProjectField {
    pub alias: Option<String>,
    pub expr: Expr,
}

/// What a [`ProjectField`] stands for.
pub struct ProjectFieldView {
    pub alias: Option<Seq<char>>,
    pub expr: ExprView,
}

impl DeepView for ProjectField {
    type V = ProjectFieldView;

    open spec fn deep_view(&self) -> ProjectFieldView {
        ProjectFieldView {
            alias: self.alias.deep_view(),
            expr: self.expr.deep_view(),
        }
    }
}

impl Clone for ProjectField {
    fn clone(&self) -> (copy: Self)
        ensures
            copy.deep_view() == self.deep_view(),
    {
        ProjectField {
            alias: clone_opt_text(&self.alias),
            expr: clone_expr(&self.expr),
        }
    }
}

/// One field of a type declaration.
#[derive(Debug, PartialEq, Eq)]
pub struct FieldDef {
    pub name: String,
    pub declared: String,
    pub required: bool,
    pub unique: bool,
    pub auto_increment: bool,
    pub default_value: Option<Literal>,
}

/// What a [`FieldDef`] stands for.
pub struct FieldDefView {
    pub name: Seq<char>,
    pub declared: Seq<char>,
    pub required: bool,
    pub unique: bool,
    pub auto_increment: bool,
    pub default_value: Option<LiteralView>,
}

impl DeepView for FieldDef {
    type V = FieldDefView;

    open spec fn deep_view(&self) -> FieldDefView {
        FieldDefView {
            name: self.name@,
            declared: self.declared@,
            required: self.required,
            unique: self.unique,
            auto_increment: self.auto_increment,
            default_value: self.default_value.deep_view(),
        }
    }
}

impl Clone for FieldDef {
    fn clone(&self) -> (copy: Self)
        ensures
            copy.deep_view() == self.deep_view(),
    {
        FieldDef {
            name: self.name.clone(),
            declared: self.declared.clone(),
            required: self.required,
            unique: self.unique,
            auto_increment: self.auto_increment,
            default_value: clone_opt(&self.default_value),
        }
    }
}

/// What an index is on.
#[derive(Debug, PartialEq, Eq)]
pub enum IndexTarget {
    Column(String),
    JsonPath(StoredJsonPath),
}

/// What a [`IndexTarget`] stands for.
pub enum IndexTargetView {
    Column(Seq<char>),
    JsonPath(StoredJsonPathView),
}

impl DeepView for IndexTarget {
    type V = IndexTargetView;

    open spec fn deep_view(&self) -> IndexTargetView {
        match self {
            IndexTarget::Column(item) => IndexTargetView::Column(item@),
            IndexTarget::JsonPath(item) => IndexTargetView::JsonPath(item.deep_view()),
        }
    }
}

impl Clone for IndexTarget {
    fn clone(&self) -> (copy: Self)
        ensures
            copy.deep_view() == self.deep_view(),
    {
        match self {
            IndexTarget::Column(item) => IndexTarget::Column(item.clone()),
            IndexTarget::JsonPath(item) => IndexTarget::JsonPath(item.clone()),
        }
    }
}

/// A change of a type.
#[derive(Debug, PartialEq, Eq)]
pub enum AlterAction {
    AddColumn { name: String, declared: String, required: bool },
    DropColumn { name: String, if_exists: bool },
    AddIndex { target: IndexTarget, if_not_exists: bool },
    AddUnique { target: IndexTarget, if_not_exists: bool },
    DropIndex { target: IndexTarget, if_exists: bool },
    AddLink { name: String, target: String, local_key: String, target_key: String },
}

/// What a [`AlterAction`] stands for.
pub enum AlterActionView {
    AddColumn { name: Seq<char>, declared: Seq<char>, required: bool },
    DropColumn { name: Seq<char>, if_exists: bool },
    AddIndex { target: IndexTargetView, if_not_exists: bool },
    AddUnique { target: IndexTargetView, if_not_exists: bool },
    DropIndex { target: IndexTargetView, if_exists: bool },
    AddLink { name: Seq<char>, target: Seq<char>, local_key: Seq<char>, target_key: Seq<char> },
}

impl DeepView for AlterAction {
    type V = AlterActionView;

    open spec fn deep_view(&self) -> AlterActionView {
        match self {
            AlterAction::AddColumn { name, declared, required } => AlterActionView::AddColumn {
                name: name@,
                declared: declared@,
                required: *required,
            },
            AlterAction::DropColumn { name, if_exists } => AlterActionView::DropColumn {
                name: name@,
                if_exists: *if_exists,
            },
            AlterAction::AddIndex { target, if_not_exists } => AlterActionView::AddIndex {
                target: target.deep_view(),
                if_not_exists: *if_not_exists,
            },
            AlterAction::AddUnique { target, if_not_exists } => AlterActionView::AddUnique {
                target: target.deep_view(),
                if_not_exists: *if_not_exists,
            },
            AlterAction::DropIndex { target, if_exists } => AlterActionView::DropIndex {
                target: target.deep_view(),
                if_exists: *if_exists,
            },
            AlterAction::AddLink { name, target, local_key, target_key } => AlterActionView::AddLink {
                name: name@,
                target: target@,
                local_key: local_key@,
                target_key: target_key@,
            },
        }
    }
}

impl Clone for AlterAction {
    fn clone(&self) -> (copy: Self)
        ensures
            copy.deep_view() == self.deep_view(),
    {
        match self {
            AlterAction::AddColumn { name, declared, required } => AlterAction::AddColumn {
                name: name.clone(),
                declared: declared.clone(),
                required: *required,
            },
            AlterAction::DropColumn { name, if_exists } => AlterAction::DropColumn {
                name: name.clone(),
                if_exists: *if_exists,
            },
            AlterAction::AddIndex { target, if_not_exists } => AlterAction::AddIndex {
                target: target.clone(),
                if_not_exists: *if_not_exists,
            },
            AlterAction::AddUnique { target, if_not_exists } => AlterAction::AddUnique {
                target: target.clone(),
                if_not_exists: *if_not_exists,
            },
            AlterAction::DropIndex { target, if_exists } => AlterAction::DropIndex {
                target: target.clone(),
                if_exists: *if_exists,
            },
            AlterAction::AddLink { name, target, local_key, target_key } => AlterAction::AddLink {
                name: name.clone(),
                target: target.clone(),
                local_key: local_key.clone(),
                target_key: target_key.clone(),
            },
        }
    }
}

/// One hop of a resolved link path: the key of a table, and the column read there.
#[derive(Debug, PartialEq, Eq)]
pub struct ScalarLinkHop {
    pub table: String,
    pub key_col: String,
    pub out_col: String,
}

/// What a [`ScalarLinkHop`] stands for.
pub struct ScalarLinkHopView {
    pub table: Seq<char>,
    pub key_col: Seq<char>,
    pub out_col: Seq<char>,
}

impl DeepView for ScalarLinkHop {
    type V = ScalarLinkHopView;

    open spec fn deep_view(&self) -> ScalarLinkHopView {
        ScalarLinkHopView {
            table: self.table@,
            key_col: self.key_col@,
            out_col: self.out_col@,
        }
    }
}

impl Clone for ScalarLinkHop {
    fn clone(&self) -> (copy: Self)
        ensures
            copy.deep_view() == self.deep_view(),
    {
        ScalarLinkHop {
            table: self.table.clone(),
            key_col: self.key_col.clone(),
            out_col: self.out_col.clone(),
        }
    }
}

/// A resolved link path: the column it starts from, and its hops.
#[derive(Debug, PartialEq, Eq)]
pub struct ScalarLinkResolved {
    pub first_fk: String,
    pub hops: Vec<ScalarLinkHop>,
}

/// What a [`ScalarLinkResolved`] stands for.
pub struct ScalarLinkResolvedView {
    pub first_fk: Seq<char>,
    pub hops: Seq<ScalarLinkHopView>,
}

impl DeepView for ScalarLinkResolved {
    type V = ScalarLinkResolvedView;

    open spec fn deep_view(&self) -> ScalarLinkResolvedView {
        ScalarLinkResolvedView {
            first_fk: self.first_fk@,
            hops: self.hops.deep_view(),
        }
    }
}

impl Clone for ScalarLinkResolved {
    fn clone(&self) -> (copy: Self)
        ensures
            copy.deep_view() == self.deep_view(),
    {
        ScalarLinkResolved {
            first_fk: self.first_fk.clone(),
            hops: clone_all(&self.hops),
        }
    }
}

/// A field that follows links to one value.
#[derive(Debug, PartialEq, Eq)]
pub struct ScalarLinkField {
    pub name: String,
    pub outer_alias: String,
    pub links: Vec<String>,
    pub column: String,
    pub resolved: Option<ScalarLinkResolved>,
}

/// What a [`ScalarLinkField`] stands for.
pub struct ScalarLinkFieldView {
    pub name: Seq<char>,
    pub outer_alias: Seq<char>,
    pub links: Seq<Seq<char>>,
    pub column: Seq<char>,
    pub resolved: Option<ScalarLinkResolvedView>,
}

impl DeepView for ScalarLinkField {
    type V = ScalarLinkFieldView;

    open spec fn deep_view(&self) -> ScalarLinkFieldView {
        ScalarLinkFieldView {
            name: self.name@,
            outer_alias: self.outer_alias@,
            links: self.links.deep_view(),
            column: self.column@,
            resolved: self.resolved.deep_view(),
        }
    }
}

impl Clone for ScalarLinkField {
    fn clone(&self) -> (copy: Self)
        ensures
            copy.deep_view() == self.deep_view(),
    {
        ScalarLinkField {
            name: self.name.clone(),
            outer_alias: self.outer_alias.clone(),
            links: clone_texts(&self.links),
            column: self.column.clone(),
            resolved: clone_opt(&self.resolved),
        }
    }
}

/// A nested projection: the rows of a child table that belong to each parent.
#[derive(Debug, PartialEq, Eq)]
pub struct NestedProjection {
    pub name: String,
    pub table: String,
    pub parent_alias: String,
    pub child_key: String,
    pub parent_key: String,
    pub via_link: Option<String>,
    pub fields: Vec<NestedField>,
    pub order: Vec<(String, bool)>,
    pub limit: Option<Expr>,
    pub offset: Option<Expr>,
    pub residual: Option<Expr>,
}

/// What a [`NestedProjection`] stands for.
pub struct NestedProjectionView {
    pub name: Seq<char>,
    pub table: Seq<char>,
    pub parent_alias: Seq<char>,
    pub child_key: Seq<char>,
    pub parent_key: Seq<char>,
    pub via_link: Option<Seq<char>>,
    pub fields: Seq<NestedFieldView>,
    pub order: Seq<(Seq<char>, bool)>,
    pub limit: Option<ExprView>,
    pub offset: Option<ExprView>,
    pub residual: Option<ExprView>,
}

/// One field of a nested projection.
#[derive(Debug, PartialEq, Eq)]
pub enum NestedField {
    Scalar { key: String, column: String },
    Nested(Box<NestedProjection>),
}

/// What a [`NestedField`] stands for.
pub enum NestedFieldView {
    Scalar { key: Seq<char>, column: Seq<char> },
    Nested(Box<NestedProjectionView>),
}

/// What a nested projection stands for.
pub open spec fn nested_view(nested: NestedProjection) -> NestedProjectionView
    decreases nested,
{
    NestedProjectionView {
        name: nested.name@,
        table: nested.table@,
        parent_alias: nested.parent_alias@,
        child_key: nested.child_key@,
        parent_key: nested.parent_key@,
        via_link: nested.via_link.deep_view(),
        fields: nested_fields_view(nested.fields@),
        order: nested.order.deep_view(),
        limit: nested.limit.deep_view(),
        offset: nested.offset.deep_view(),
        residual: nested.residual.deep_view(),
    }
}

/// What the fields of a nested projection stand for.
pub open spec fn nested_fields_view(fields: Seq<NestedField>) -> Seq<NestedFieldView>
    decreases fields,
{
    Seq::new(
        fields.len(),
        |i: int|
            if 0 <= i < fields.len() {
                nested_field_view(fields[i])
            } else {
                NestedFieldView::Scalar { key: Seq::empty(), column: Seq::empty() }
            },
    )
}

/// What a field of a nested projection stands for.
pub open spec fn nested_field_view(field: NestedField) -> NestedFieldView
    decreases field,
{
    match field {
        NestedField::Scalar { key, column } => NestedFieldView::Scalar {
            key: key@,
            column: column@,
        },
        NestedField::Nested(inner) => NestedFieldView::Nested(Box::new(nested_view(*inner))),
    }
}

impl DeepView for NestedProjection {
    type V = NestedProjectionView;

    open spec fn deep_view(&self) -> NestedProjectionView {
        nested_view(*self)
    }
}

/// A copy of `nested`.
pub fn clone_nested(nested: &NestedProjection) -> (copy: NestedProjection)
    ensures
        nested_view(copy) == nested_view(*nested),
    decreases nested,
{
    NestedProjection {
        name: nested.name.clone(),
        table: nested.table.clone(),
        parent_alias: nested.parent_alias.clone(),
        child_key: nested.child_key.clone(),
        parent_key: nested.parent_key.clone(),
        via_link: clone_opt_text(&nested.via_link),
        fields: clone_nested_fields(&nested.fields),
        order: clone_orders(&nested.order),
        limit: clone_opt_expr(&nested.limit),
        offset: clone_opt_expr(&nested.offset),
        residual: clone_opt_expr(&nested.residual),
    }
}

fn clone_nested_fields(fields: &Vec<NestedField>) -> (copy: Vec<NestedField>)
    ensures
        nested_fields_view(copy@) == nested_fields_view(fields@),
    decreases fields,
{
    let mut copy: Vec<NestedField> = Vec::new();
    let mut i: usize = 0;
    while i < fields.len()
        invariant
            i <= fields.len(),
            copy.len() == i,
            forall|j: int|
                0 <= j < i ==> nested_field_view(#[trigger] copy[j]) == nested_field_view(fields[j]),
        decreases fields.len() - i,
    {
        copy.push(clone_nested_field(&fields[i]));
        i = i + 1;
    }
    assert(nested_fields_view(copy@) =~= nested_fields_view(fields@));
    copy
}

/// A copy of `field`.
pub fn clone_nested_field(field: &NestedField) -> (copy: NestedField)
    ensures
        nested_field_view(copy) == nested_field_view(*field),
    decreases field,
{
    match field {
        NestedField::Scalar { key, column } => NestedField::Scalar {
            key: key.clone(),
            column: column.clone(),
        },
        NestedField::Nested(inner) => NestedField::Nested(Box::new(clone_nested(inner))),
    }
}

/// One field of a projection that may nest.
#[derive(Debug, PartialEq, Eq)]
pub enum NestedProjectField {
    Plain(ProjectField),
    Nested(Box<NestedProjection>),
    Link(Box<ScalarLinkField>),
}

/// What a [`NestedProjectField`] stands for.
pub enum NestedProjectFieldView {
    Plain(ProjectFieldView),
    Nested(NestedProjectionView),
    Link(ScalarLinkFieldView),
}

impl DeepView for NestedProjectField {
    type V = NestedProjectFieldView;

    open spec fn deep_view(&self) -> NestedProjectFieldView {
        match self {
            NestedProjectField::Plain(field) => NestedProjectFieldView::Plain(field.deep_view()),
            NestedProjectField::Nested(nested) => NestedProjectFieldView::Nested(
                nested_view(**nested),
            ),
            NestedProjectField::Link(link) => NestedProjectFieldView::Link(link.deep_view()),
        }
    }
}

impl Clone for NestedProjectField {
    fn clone(&self) -> (copy: Self)
        ensures
            copy.deep_view() == self.deep_view(),
    {
        match self {
            NestedProjectField::Plain(field) => NestedProjectField::Plain(field.clone()),
            NestedProjectField::Nested(nested) => NestedProjectField::Nested(
                Box::new(clone_nested(nested)),
            ),
            NestedProjectField::Link(link) => {
                let field: &ScalarLinkField = link;
                NestedProjectField::Link(Box::new(field.clone()))
            },
        }
    }
}

/// A query plan.
#[derive(Debug, PartialEq, Eq)]
pub enum PlanNode {
    SeqScan { table: String },
    AliasScan { table: String, alias: String },
    IndexScan { table: String, column: String, key: Expr },
    RangeScan {
        table: String,
        column: String,
        start: Option<(Expr, bool)>,
        end: Option<(Expr, bool)>,
    },
    ExprIndexScan { table: String, path: StoredJsonPath, key: Expr },
    ExprRangeScan {
        table: String,
        path: StoredJsonPath,
        start: Option<(Expr, bool)>,
        end: Option<(Expr, bool)>,
    },
    OrderedExprIndexScan {
        table: String,
        path: StoredJsonPath,
        descending: bool,
        limit: Expr,
        offset: Option<Expr>,
    },
    Filter { input: Box<PlanNode>, predicate: Expr },
    Project { input: Box<PlanNode>, fields: Vec<ProjectField> },
    NestedProject { input: Box<PlanNode>, fields: Vec<NestedProjectField> },
    Sort { input: Box<PlanNode>, keys: Vec<SortKey> },
    Limit { input: Box<PlanNode>, count: Expr },
    Offset { input: Box<PlanNode>, count: Expr },
    Aggregate {
        input: Box<PlanNode>,
        function: AggFunc,
        argument: Option<Expr>,
        mode: AggregateMode,
        provenance_alias: Option<String>,
    },
    GroupBy {
        input: Box<PlanNode>,
        keys: Vec<GroupKey>,
        aggregates: Vec<GroupAgg>,
        having: Option<Expr>,
    },
    Distinct { input: Box<PlanNode> },
    Window { input: Box<PlanNode>, windows: Vec<WindowDef> },
    NestedLoopJoin { left: Box<PlanNode>, right: Box<PlanNode>, on: Option<Expr>, kind: JoinKind },
    Union { left: Box<PlanNode>, right: Box<PlanNode>, all: bool },
    Insert { table: String, rows: Vec<Vec<Assignment>>, returning: bool },
    Upsert {
        table: String,
        key_column: String,
        assignments: Vec<Assignment>,
        on_conflict: Vec<Assignment>,
    },
    Update { input: Box<PlanNode>, table: String, assignments: Vec<Assignment>, returning: bool },
    Delete { input: Box<PlanNode>, table: String, returning: bool },
    CreateTable { name: String, fields: Vec<FieldDef>, if_not_exists: bool },
    CreateLink {
        owner: String,
        name: String,
        target: String,
        local_key: String,
        target_key: String,
    },
    AlterTable { table: String, action: AlterAction },
    DropTable { name: String, if_exists: bool },
    CreateView { name: String, query_text: String },
    RefreshView { name: String },
    DropView { name: String, if_exists: bool },
    ListTypes,
    ListLinks,
    Describe { table: String },
    Explain { input: Box<PlanNode> },
    Begin,
    Commit,
    Rollback,
}

/// What a [`PlanNode`] stands for.
pub enum PlanView {
    SeqScan { table: Seq<char> },
    AliasScan { table: Seq<char>, alias: Seq<char> },
    IndexScan { table: Seq<char>, column: Seq<char>, key: ExprView },
    RangeScan {
        table: Seq<char>,
        column: Seq<char>,
        start: Option<(ExprView, bool)>,
        end: Option<(ExprView, bool)>,
    },
    ExprIndexScan { table: Seq<char>, path: StoredJsonPathView, key: ExprView },
    ExprRangeScan {
        table: Seq<char>,
        path: StoredJsonPathView,
        start: Option<(ExprView, bool)>,
        end: Option<(ExprView, bool)>,
    },
    OrderedExprIndexScan {
        table: Seq<char>,
        path: StoredJsonPathView,
        descending: bool,
        limit: ExprView,
        offset: Option<ExprView>,
    },
    Filter { input: Box<PlanView>, predicate: ExprView },
    Project { input: Box<PlanView>, fields: Seq<ProjectFieldView> },
    NestedProject { input: Box<PlanView>, fields: Seq<NestedProjectFieldView> },
    Sort { input: Box<PlanView>, keys: Seq<SortKeyView> },
    Limit { input: Box<PlanView>, count: ExprView },
    Offset { input: Box<PlanView>, count: ExprView },
    Aggregate {
        input: Box<PlanView>,
        function: AggFunc,
        argument: Option<ExprView>,
        mode: AggregateMode,
        provenance_alias: Option<Seq<char>>,
    },
    GroupBy {
        input: Box<PlanView>,
        keys: Seq<GroupKeyView>,
        aggregates: Seq<GroupAggView>,
        having: Option<ExprView>,
    },
    Distinct { input: Box<PlanView> },
    Window { input: Box<PlanView>, windows: Seq<WindowDefView> },
    NestedLoopJoin {
        left: Box<PlanView>,
        right: Box<PlanView>,
        on: Option<ExprView>,
        kind: JoinKind,
    },
    Union { left: Box<PlanView>, right: Box<PlanView>, all: bool },
    Insert { table: Seq<char>, rows: Seq<Seq<AssignmentView>>, returning: bool },
    Upsert {
        table: Seq<char>,
        key_column: Seq<char>,
        assignments: Seq<AssignmentView>,
        on_conflict: Seq<AssignmentView>,
    },
    Update {
        input: Box<PlanView>,
        table: Seq<char>,
        assignments: Seq<AssignmentView>,
        returning: bool,
    },
    Delete { input: Box<PlanView>, table: Seq<char>, returning: bool },
    CreateTable { name: Seq<char>, fields: Seq<FieldDefView>, if_not_exists: bool },
    CreateLink {
        owner: Seq<char>,
        name: Seq<char>,
        target: Seq<char>,
        local_key: Seq<char>,
        target_key: Seq<char>,
    },
    AlterTable { table: Seq<char>, action: AlterActionView },
    DropTable { name: Seq<char>, if_exists: bool },
    CreateView { name: Seq<char>, query_text: Seq<char> },
    RefreshView { name: Seq<char> },
    DropView { name: Seq<char>, if_exists: bool },
    ListTypes,
    ListLinks,
    Describe { table: Seq<char> },
    Explain { input: Box<PlanView> },
    Begin,
    Commit,
    Rollback,
}

/// What a plan stands for.
pub open spec fn plan_view(plan: PlanNode) -> PlanView
    decreases plan,
{
    match plan {
        PlanNode::SeqScan { table } => PlanView::SeqScan {
            table: table@,
        },
        PlanNode::AliasScan { table, alias } => PlanView::AliasScan {
            table: table@,
            alias: alias@,
        },
        PlanNode::IndexScan { table, column, key } => PlanView::IndexScan {
            table: table@,
            column: column@,
            key: key.deep_view(),
        },
        PlanNode::RangeScan { table, column, start, end } => PlanView::RangeScan {
            table: table@,
            column: column@,
            start: start.deep_view(),
            end: end.deep_view(),
        },
        PlanNode::ExprIndexScan { table, path, key } => PlanView::ExprIndexScan {
            table: table@,
            path: path.deep_view(),
            key: key.deep_view(),
        },
        PlanNode::ExprRangeScan { table, path, start, end } => PlanView::ExprRangeScan {
            table: table@,
            path: path.deep_view(),
            start: start.deep_view(),
            end: end.deep_view(),
        },
        PlanNode::OrderedExprIndexScan { table, path, descending, limit, offset } => PlanView::OrderedExprIndexScan {
            table: table@,
            path: path.deep_view(),
            descending: descending,
            limit: limit.deep_view(),
            offset: offset.deep_view(),
        },
        PlanNode::Filter { input, predicate } => PlanView::Filter {
            input: Box::new(plan_view(*input)),
            predicate: predicate.deep_view(),
        },
        PlanNode::Project { input, fields } => PlanView::Project {
            input: Box::new(plan_view(*input)),
            fields: fields.deep_view(),
        },
        PlanNode::NestedProject { input, fields } => PlanView::NestedProject {
            input: Box::new(plan_view(*input)),
            fields: fields.deep_view(),
        },
        PlanNode::Sort { input, keys } => PlanView::Sort {
            input: Box::new(plan_view(*input)),
            keys: sort_keys_view(keys@),
        },
        PlanNode::Limit { input, count } => PlanView::Limit {
            input: Box::new(plan_view(*input)),
            count: count.deep_view(),
        },
        PlanNode::Offset { input, count } => PlanView::Offset {
            input: Box::new(plan_view(*input)),
            count: count.deep_view(),
        },
        PlanNode::Aggregate { input, function, argument, mode, provenance_alias } => PlanView::Aggregate {
            input: Box::new(plan_view(*input)),
            function: function,
            argument: argument.deep_view(),
            mode: mode,
            provenance_alias: provenance_alias.deep_view(),
        },
        PlanNode::GroupBy { input, keys, aggregates, having } => PlanView::GroupBy {
            input: Box::new(plan_view(*input)),
            keys: keys.deep_view(),
            aggregates: aggregates.deep_view(),
            having: having.deep_view(),
        },
        PlanNode::Distinct { input } => PlanView::Distinct {
            input: Box::new(plan_view(*input)),
        },
        PlanNode::Window { input, windows } => PlanView::Window {
            input: Box::new(plan_view(*input)),
            windows: windows.deep_view(),
        },
        PlanNode::NestedLoopJoin { left, right, on, kind } => PlanView::NestedLoopJoin {
            left: Box::new(plan_view(*left)),
            right: Box::new(plan_view(*right)),
            on: on.deep_view(),
            kind: kind,
        },
        PlanNode::Union { left, right, all } => PlanView::Union {
            left: Box::new(plan_view(*left)),
            right: Box::new(plan_view(*right)),
            all: all,
        },
        PlanNode::Insert { table, rows, returning } => PlanView::Insert {
            table: table@,
            rows: rows.deep_view(),
            returning: returning,
        },
        PlanNode::Upsert { table, key_column, assignments, on_conflict } => PlanView::Upsert {
            table: table@,
            key_column: key_column@,
            assignments: assignments.deep_view(),
            on_conflict: on_conflict.deep_view(),
        },
        PlanNode::Update { input, table, assignments, returning } => PlanView::Update {
            input: Box::new(plan_view(*input)),
            table: table@,
            assignments: assignments.deep_view(),
            returning: returning,
        },
        PlanNode::Delete { input, table, returning } => PlanView::Delete {
            input: Box::new(plan_view(*input)),
            table: table@,
            returning: returning,
        },
        PlanNode::CreateTable { name, fields, if_not_exists } => PlanView::CreateTable {
            name: name@,
            fields: fields.deep_view(),
            if_not_exists: if_not_exists,
        },
        PlanNode::CreateLink { owner, name, target, local_key, target_key } => PlanView::CreateLink {
            owner: owner@,
            name: name@,
            target: target@,
            local_key: local_key@,
            target_key: target_key@,
        },
        PlanNode::AlterTable { table, action } => PlanView::AlterTable {
            table: table@,
            action: action.deep_view(),
        },
        PlanNode::DropTable { name, if_exists } => PlanView::DropTable {
            name: name@,
            if_exists: if_exists,
        },
        PlanNode::CreateView { name, query_text } => PlanView::CreateView {
            name: name@,
            query_text: query_text@,
        },
        PlanNode::RefreshView { name } => PlanView::RefreshView {
            name: name@,
        },
        PlanNode::DropView { name, if_exists } => PlanView::DropView {
            name: name@,
            if_exists: if_exists,
        },
        PlanNode::ListTypes => PlanView::ListTypes,
        PlanNode::ListLinks => PlanView::ListLinks,
        PlanNode::Describe { table } => PlanView::Describe {
            table: table@,
        },
        PlanNode::Explain { input } => PlanView::Explain {
            input: Box::new(plan_view(*input)),
        },
        PlanNode::Begin => PlanView::Begin,
        PlanNode::Commit => PlanView::Commit,
        PlanNode::Rollback => PlanView::Rollback,
    }
}

impl DeepView for PlanNode {
    type V = PlanView;

    open spec fn deep_view(&self) -> PlanView {
        plan_view(*self)
    }
}

/// A copy of `plan`.
pub fn clone_plan(plan: &PlanNode) -> (copy: PlanNode)
    ensures
        plan_view(copy) == plan_view(*plan),
    decreases plan,
{
    match plan {
        PlanNode::SeqScan { table } => PlanNode::SeqScan {
            table: table.clone(),
        },
        PlanNode::AliasScan { table, alias } => PlanNode::AliasScan {
            table: table.clone(),
            alias: alias.clone(),
        },
        PlanNode::IndexScan { table, column, key } => PlanNode::IndexScan {
            table: table.clone(),
            column: column.clone(),
            key: clone_expr(key),
        },
        PlanNode::RangeScan { table, column, start, end } => PlanNode::RangeScan {
            table: table.clone(),
            column: column.clone(),
            start: clone_bound(start),
            end: clone_bound(end),
        },
        PlanNode::ExprIndexScan { table, path, key } => PlanNode::ExprIndexScan {
            table: table.clone(),
            path: path.clone(),
            key: clone_expr(key),
        },
        PlanNode::ExprRangeScan { table, path, start, end } => PlanNode::ExprRangeScan {
            table: table.clone(),
            path: path.clone(),
            start: clone_bound(start),
            end: clone_bound(end),
        },
        PlanNode::OrderedExprIndexScan { table, path, descending, limit, offset } => PlanNode::OrderedExprIndexScan {
            table: table.clone(),
            path: path.clone(),
            descending: *descending,
            limit: clone_expr(limit),
            offset: clone_opt_expr(offset),
        },
        PlanNode::Filter { input, predicate } => PlanNode::Filter {
            input: Box::new(clone_plan(input)),
            predicate: clone_expr(predicate),
        },
        PlanNode::Project { input, fields } => PlanNode::Project {
            input: Box::new(clone_plan(input)),
            fields: clone_all(fields),
        },
        PlanNode::NestedProject { input, fields } => PlanNode::NestedProject {
            input: Box::new(clone_plan(input)),
            fields: clone_all(fields),
        },
        PlanNode::Sort { input, keys } => PlanNode::Sort {
            input: Box::new(clone_plan(input)),
            keys: clone_sort_keys(keys),
        },
        PlanNode::Limit { input, count } => PlanNode::Limit {
            input: Box::new(clone_plan(input)),
            count: clone_expr(count),
        },
        PlanNode::Offset { input, count } => PlanNode::Offset {
            input: Box::new(clone_plan(input)),
            count: clone_expr(count),
        },
        PlanNode::Aggregate { input, function, argument, mode, provenance_alias } => PlanNode::Aggregate {
            input: Box::new(clone_plan(input)),
            function: *function,
            argument: clone_opt_expr(argument),
            mode: *mode,
            provenance_alias: clone_opt_text(provenance_alias),
        },
        PlanNode::GroupBy { input, keys, aggregates, having } => PlanNode::GroupBy {
            input: Box::new(clone_plan(input)),
            keys: clone_all(keys),
            aggregates: clone_all(aggregates),
            having: clone_opt_expr(having),
        },
        PlanNode::Distinct { input } => PlanNode::Distinct {
            input: Box::new(clone_plan(input)),
        },
        PlanNode::Window { input, windows } => PlanNode::Window {
            input: Box::new(clone_plan(input)),
            windows: clone_all(windows),
        },
        PlanNode::NestedLoopJoin { left, right, on, kind } => PlanNode::NestedLoopJoin {
            left: Box::new(clone_plan(left)),
            right: Box::new(clone_plan(right)),
            on: clone_opt_expr(on),
            kind: *kind,
        },
        PlanNode::Union { left, right, all } => PlanNode::Union {
            left: Box::new(clone_plan(left)),
            right: Box::new(clone_plan(right)),
            all: *all,
        },
        PlanNode::Insert { table, rows, returning } => PlanNode::Insert {
            table: table.clone(),
            rows: clone_all2(rows),
            returning: *returning,
        },
        PlanNode::Upsert { table, key_column, assignments, on_conflict } => PlanNode::Upsert {
            table: table.clone(),
            key_column: key_column.clone(),
            assignments: clone_all(assignments),
            on_conflict: clone_all(on_conflict),
        },
        PlanNode::Update { input, table, assignments, returning } => PlanNode::Update {
            input: Box::new(clone_plan(input)),
            table: table.clone(),
            assignments: clone_all(assignments),
            returning: *returning,
        },
        PlanNode::Delete { input, table, returning } => PlanNode::Delete {
            input: Box::new(clone_plan(input)),
            table: table.clone(),
            returning: *returning,
        },
        PlanNode::CreateTable { name, fields, if_not_exists } => PlanNode::CreateTable {
            name: name.clone(),
            fields: clone_all(fields),
            if_not_exists: *if_not_exists,
        },
        PlanNode::CreateLink { owner, name, target, local_key, target_key } => PlanNode::CreateLink {
            owner: owner.clone(),
            name: name.clone(),
            target: target.clone(),
            local_key: local_key.clone(),
            target_key: target_key.clone(),
        },
        PlanNode::AlterTable { table, action } => PlanNode::AlterTable {
            table: table.clone(),
            action: action.clone(),
        },
        PlanNode::DropTable { name, if_exists } => PlanNode::DropTable {
            name: name.clone(),
            if_exists: *if_exists,
        },
        PlanNode::CreateView { name, query_text } => PlanNode::CreateView {
            name: name.clone(),
            query_text: query_text.clone(),
        },
        PlanNode::RefreshView { name } => PlanNode::RefreshView {
            name: name.clone(),
        },
        PlanNode::DropView { name, if_exists } => PlanNode::DropView {
            name: name.clone(),
            if_exists: *if_exists,
        },
        PlanNode::ListTypes => PlanNode::ListTypes,
        PlanNode::ListLinks => PlanNode::ListLinks,
        PlanNode::Describe { table } => PlanNode::Describe {
            table: table.clone(),
        },
        PlanNode::Explain { input } => PlanNode::Explain {
            input: Box::new(clone_plan(input)),
        },
        PlanNode::Begin => PlanNode::Begin,
        PlanNode::Commit => PlanNode::Commit,
        PlanNode::Rollback => PlanNode::Rollback,
    }
}

impl Clone for PlanNode {
    fn clone(&self) -> (copy: Self)
        ensures
            copy.deep_view() == self.deep_view(),
    {
        clone_plan(self)
    }
}

} // verus!
