//! Statements through the engine: what each plan answers, which steps it has
//! the storage take, and how it fails.

use powdb_query::aggregate::RowId;
use powdb_query::catalog::{
    Catalog, ColumnDef, ColumnIndex, IndexEntry, IndexStats, LinkDef, Schema, StoredRow, Table,
};
use powdb_query::coerce::Coercion;
use powdb_query::define::TypeNames;
use powdb_query::engine::{finish, Engine, StorageReport};
use powdb_query::error::{QueryError, QueryResult};
use powdb_query::expr::{
    AggFunc, AggregateMode, BinOp, Expr, Literal, PathSeg, SortKey, UnaryOp, WindowFunc,
};
use powdb_query::group::{GroupAgg, GroupKey};
use powdb_query::join::JoinKind;
use powdb_query::nested::Documents;
use powdb_query::plan::{
    AlterAction, Assignment, FieldDef, IndexTarget, NestedField, NestedProjectField,
    NestedProjection, PlanNode, ProjectField, ScalarLinkField,
};
use powdb_query::scalars::{FloatOp, Order, Scalars};
use powdb_query::session::{Compiler, Holding, Limits, Session, Sizes, Subqueries};
use powdb_query::storage::{Decision, Reply, StorageOp, ViewDef};
use powdb_query::validate::PlanCheck;
use powdb_query::value::{TypeId, Value};
use powdb_query::views::{Parser, Statement};
use powdb_query::window::WindowDef;
use powdb_query::wording::{Subject, Wording};

fn bits(x: f64) -> u64 {
    x.to_bits()
}

fn text(s: &str) -> String {
    s.to_string()
}

fn texts(names: &[&str]) -> Vec<String> {
    names.iter().map(|name| name.to_string()).collect()
}

fn str_value(s: &str) -> Value {
    Value::Str(s.to_string())
}

fn field(name: &str) -> Expr {
    Expr::Field(name.to_string())
}

fn number(value: &Value) -> Option<f64> {
    match value {
        Value::Int(i) => Some(*i as f64),
        Value::Float(b) => Some(f64::from_bits(*b)),
        _ => None,
    }
}

fn literal_value(literal: &Literal) -> Value {
    match literal {
        Literal::Int(i) => Value::Int(*i),
        Literal::Float(b) => Value::Float(*b),
        Literal::Bool(b) => Value::Bool(*b),
        Literal::String(s) => Value::Str(s.clone()),
    }
}

fn read(name: &str, row: &[Value], columns: &[String]) -> Value {
    match columns.iter().position(|column| column == name) {
        Some(at) => match row.get(at) {
            Some(value) => value.clone(),
            None => Value::Empty,
        },
        None => Value::Empty,
    }
}

fn binary(left: &Value, op: BinOp, right: &Value) -> Value {
    let both = match (left, right) {
        (Value::Bool(a), Value::Bool(b)) => Some((*a, *b)),
        _ => None,
    };
    match (op, both) {
        (BinOp::And, Some((a, b))) => return Value::Bool(a && b),
        (BinOp::Or, Some((a, b))) => return Value::Bool(a || b),
        _ => {}
    }
    if matches!(left, Value::Empty) || matches!(right, Value::Empty) {
        return Value::Empty;
    }
    let standing = order(left, right);
    match op {
        BinOp::Eq => Value::Bool(standing == Order::Equal),
        BinOp::Neq => Value::Bool(standing != Order::Equal),
        BinOp::Lt => Value::Bool(standing == Order::Less),
        BinOp::Gt => Value::Bool(standing == Order::Greater),
        BinOp::Lte => Value::Bool(standing != Order::Greater),
        BinOp::Gte => Value::Bool(standing != Order::Less),
        BinOp::Add => match (left, right) {
            (Value::Int(a), Value::Int(b)) => Value::Int(a.wrapping_add(*b)),
            _ => Value::Empty,
        },
        BinOp::Mul => match (left, right) {
            (Value::Int(a), Value::Int(b)) => Value::Int(a.wrapping_mul(*b)),
            _ => Value::Empty,
        },
        _ => Value::Empty,
    }
}

fn eval(expr: &Expr, row: &Vec<Value>, columns: &Vec<String>) -> Value {
    match expr {
        Expr::Field(name) => read(name, row, columns),
        Expr::QualifiedField { qualifier, field } => {
            read(&format!("{}.{}", qualifier, field), row, columns)
        }
        Expr::Literal(literal) => literal_value(literal),
        Expr::ValueLit(value) => value.clone(),
        Expr::BinaryOp(left, op, right) => {
            binary(&eval(left, row, columns), *op, &eval(right, row, columns))
        }
        Expr::UnaryOp(UnaryOp::Not, inner) => match eval(inner, row, columns) {
            Value::Bool(b) => Value::Bool(!b),
            _ => Value::Empty,
        },
        Expr::UnaryOp(UnaryOp::IsNull, inner) => {
            Value::Bool(matches!(eval(inner, row, columns), Value::Empty))
        }
        Expr::InList { expr, list, negated } => {
            let needle = eval(expr, row, columns);
            let found = list
                .iter()
                .any(|item| order(&eval(item, row, columns), &needle) == Order::Equal);
            Value::Bool(found != *negated)
        }
        Expr::JsonPath { base, .. } => match eval(base, row, columns) {
            Value::Json(bytes) => String::from_utf8(bytes)
                .ok()
                .and_then(|s| s.parse().ok())
                .map(Value::Int)
                .unwrap_or(Value::Empty),
            _ => Value::Empty,
        },
        _ => Value::Empty,
    }
}

fn rank(value: &Value) -> u8 {
    match value {
        Value::Int(_) | Value::Float(_) => 0,
        Value::Bool(_) => 1,
        Value::Str(_) => 2,
        Value::DateTime(_) => 3,
        Value::Uuid(_) => 4,
        Value::Bytes(_) => 5,
        Value::Json(_) => 6,
        Value::Empty => 7,
    }
}

fn placed<T: PartialOrd>(a: T, b: T) -> Order {
    if a < b {
        Order::Less
    } else if b < a {
        Order::Greater
    } else {
        Order::Equal
    }
}

fn order(left: &Value, right: &Value) -> Order {
    match (left, right) {
        (Value::Int(a), Value::Int(b)) => placed(a, b),
        (Value::Str(a), Value::Str(b)) => placed(a, b),
        (Value::Bool(a), Value::Bool(b)) => placed(a, b),
        (Value::DateTime(a), Value::DateTime(b)) => placed(a, b),
        (Value::Uuid(a), Value::Uuid(b)) => placed(a, b),
        (Value::Bytes(a), Value::Bytes(b)) => placed(a, b),
        (Value::Json(a), Value::Json(b)) => placed(a, b),
        _ => match (number(left), number(right)) {
            (Some(a), Some(b)) => placed(a, b),
            _ => placed(rank(left), rank(right)),
        },
    }
}

fn float(op: FloatOp) -> u64 {
    match op {
        FloatOp::FromInt(i) => (i as f64).to_bits(),
        FloatOp::Sum(a, b) => (f64::from_bits(a) + f64::from_bits(b)).to_bits(),
        FloatOp::Quotient(a, n) => (f64::from_bits(a) / (n as f64)).to_bits(),
    }
}

fn int_lit(n: i64) -> Expr {
    Expr::Literal(Literal::Int(n))
}

fn str_lit(s: &str) -> Expr {
    Expr::Literal(Literal::String(s.to_string()))
}

fn compare(left: Expr, op: BinOp, right: Expr) -> Expr {
    Expr::BinaryOp(Box::new(left), op, Box::new(right))
}

fn column(name: &str, type_id: TypeId, required: bool, position: u16) -> ColumnDef {
    ColumnDef { name: text(name), type_id, required, position }
}

fn schema(name: &str, columns: &[(&str, TypeId, bool)]) -> Schema {
    Schema {
        table_name: text(name),
        columns: columns
            .iter()
            .enumerate()
            .map(|(i, (n, t, r))| column(n, *t, *r, i as u16))
            .collect(),
    }
}

fn rid(slot: u16) -> RowId {
    RowId { page_id: 1, slot_index: slot }
}

fn table(name: &str, columns: &[(&str, TypeId, bool)], rows: Vec<Vec<Value>>) -> Table {
    let n = columns.len();
    Table {
        schema: schema(name, columns),
        rows: rows
            .into_iter()
            .enumerate()
            .map(|(i, values)| StoredRow { rid: rid(i as u16), values })
            .collect(),
        indexes: vec![],
        expression_indexes: vec![],
        defaults: vec![None; n],
        auto_columns: vec![false; n],
    }
}

fn sorted_entries(mut entries: Vec<IndexEntry>) -> Vec<IndexEntry> {
    entries.sort_by(|a, b| match order(&a.key, &b.key) {
        Order::Less => std::cmp::Ordering::Less,
        Order::Equal => std::cmp::Ordering::Equal,
        Order::Greater => std::cmp::Ordering::Greater,
    });
    entries
}

fn with_index(mut table: Table, name: &str, unique: bool) -> Table {
    let at = table.schema.columns.iter().position(|c| c.name == name).unwrap();
    let entries = sorted_entries(
        table
            .rows
            .iter()
            .filter(|row| !matches!(row.values[at], Value::Empty))
            .map(|row| IndexEntry { key: row.values[at].clone(), rid: row.rid })
            .collect(),
    );
    let mut distinct: u64 = 0;
    for (i, entry) in entries.iter().enumerate() {
        if i == 0 || entries[i - 1].key != entry.key {
            distinct += 1;
        }
    }
    let stats = IndexStats {
        total_entries: entries.len() as u64,
        distinct_keys: distinct,
        empty_count: 0,
    };
    table.indexes.push(ColumnIndex {
        column: text(name),
        unique,
        entries,
        stats: Some(stats),
    });
    table
}

fn seq_scan(table: &str) -> PlanNode {
    PlanNode::SeqScan { table: text(table) }
}

fn filter(input: PlanNode, predicate: Expr) -> PlanNode {
    PlanNode::Filter { input: Box::new(input), predicate }
}

fn bare(name: &str) -> ProjectField {
    ProjectField { alias: None, expr: field(name) }
}

fn project(input: PlanNode, names: &[&str]) -> PlanNode {
    PlanNode::Project {
        input: Box::new(input),
        fields: names.iter().map(|name| bare(name)).collect(),
    }
}

fn sort(input: PlanNode, name: &str, descending: bool) -> PlanNode {
    PlanNode::Sort { input: Box::new(input), keys: vec![SortKey { expr: field(name), descending }] }
}

fn limit(input: PlanNode, count: i64) -> PlanNode {
    PlanNode::Limit { input: Box::new(input), count: int_lit(count) }
}

fn aggregate(input: PlanNode, function: AggFunc, argument: &str) -> PlanNode {
    PlanNode::Aggregate {
        input: Box::new(input),
        function,
        argument: Some(field(argument)),
        mode: AggregateMode::Raw,
        provenance_alias: None,
    }
}

fn word(subject: Subject) -> Option<String> {
    match subject {
        Subject::Expr(Expr::Field(name)) => Some(format!(".{}", name)),
        Subject::Expr(expr) => Some(format!("{:?}", expr)),
        Subject::Name(Expr::Field(name)) => Some(name.clone()),
        Subject::Name(_) => Some(text("?")),
        Subject::Path(path) => Some(format!("{}->{}", path.column, path.segments.len())),
        Subject::Action(_) => Some(text("change")),
        Subject::Number(bits) => Some(format!("{}", f64::from_bits(bits))),
        Subject::Document(bytes) => String::from_utf8(bytes.clone()).ok(),
        Subject::Plain(value) => Some(format!("{:?}", value)),
        Subject::Value(value) => Some(format!("{:?}", value)),
    }
}

fn document(source: &String) -> Result<Vec<u8>, String> {
    Ok(source.as_bytes().to_vec())
}

fn no_subqueries(
    expr: &Expr,
    _outer: Option<(&Vec<Value>, &Vec<String>)>,
) -> Result<Expr, QueryError> {
    Ok(expr.clone())
}

fn size(held: Holding) -> usize {
    match held {
        Holding::Rows(rows) => rows.iter().map(|row| 10 * row.len()).sum(),
        Holding::Provenance(input) => input.provenance.len(),
    }
}

fn compilable(predicate: Option<&Expr>, _table: &Table) -> bool {
    match predicate {
        None => true,
        Some(Expr::BinaryOp(_, _, right)) => matches!(**right, Expr::Literal(_)),
        Some(_) => false,
    }
}

fn go_on() -> Result<(), QueryError> {
    Ok(())
}

fn coerce(value: &Value, column: &ColumnDef) -> Result<Value, String> {
    match (value, column.type_id) {
        (Value::Empty, _) => Ok(Value::Empty),
        (Value::Int(n), TypeId::Float) => Ok(Value::Float((*n as f64).to_bits())),
        (Value::Str(s), TypeId::Bytes) => Ok(Value::Bytes(s.as_bytes().to_vec())),
        (Value::Str(s), TypeId::Uuid) if s.len() == 16 => {
            let mut bytes = [0u8; 16];
            bytes.copy_from_slice(s.as_bytes());
            Ok(Value::Uuid(bytes))
        }
        (Value::Int(n), TypeId::DateTime) => Ok(Value::DateTime(*n)),
        _ if value.type_id() == column.type_id => Ok(value.clone()),
        _ => Err(format!("column '{}' takes another type", column.name)),
    }
}

fn type_of(declared: &String) -> Result<TypeId, String> {
    match declared.as_str() {
        "int" => Ok(TypeId::Int),
        "float" => Ok(TypeId::Float),
        "str" => Ok(TypeId::Str),
        "json" => Ok(TypeId::Json),
        _ => Err(format!("unknown type {}", declared)),
    }
}

fn parse(source: &String) -> Result<Statement, String> {
    match source.split_once(" union ") {
        Some((left, right)) => Ok(Statement::Union {
            left: Box::new(parse(&left.to_string())?),
            right: Box::new(parse(&right.to_string())?),
        }),
        None if source.is_empty() => Err(text("nothing to read")),
        None => Ok(Statement::Query { source: source.clone(), joins: vec![] }),
    }
}

fn no_check(_catalog: &Catalog, _plan: &PlanNode) -> Result<(), QueryError> {
    Ok(())
}

fn wide_limits() -> Limits {
    Limits { sort_rows: 1000, join_pairs: 1000, join_rows: 1000 }
}

fn engine_with(
    catalog: Catalog,
    limits: Limits,
    memory_limit: usize,
) -> Engine<
    impl Fn(&Expr, &Vec<Value>, &Vec<String>) -> Value,
    impl Fn(&Value, &Value) -> Order,
    impl Fn(FloatOp) -> u64,
    impl Fn(Subject) -> Option<String>,
    impl Fn(&String) -> Result<Vec<u8>, String>,
    impl Fn(&Expr, Option<(&Vec<Value>, &Vec<String>)>) -> Result<Expr, QueryError>,
    impl Fn(Holding) -> usize,
    impl Fn(Option<&Expr>, &Table) -> bool,
    impl Fn() -> Result<(), QueryError>,
    impl Fn(&Value, &ColumnDef) -> Result<Value, String>,
    impl Fn(&String) -> Result<TypeId, String>,
    impl Fn(&String) -> Result<Statement, String>,
    impl Fn(&Catalog, &PlanNode) -> Result<(), QueryError>,
> {
    Engine {
        catalog,
        views: vec![],
        in_transaction: false,
        session: Session {
            scalars: Scalars::new(eval, order, float),
            wording: Wording::new(word),
            documents: Documents::new(document),
            subqueries: Subqueries::new(no_subqueries),
            sizes: Sizes::new(size),
            compiler: Compiler::new(compilable),
            poll: go_on,
            limits,
        },
        coercion: Coercion::new(coerce),
        types: TypeNames::new(type_of),
        parser: Parser::new(parse),
        check: PlanCheck::new(no_check),
        memory_limit,
    }
}

fn answer(decision: Result<Decision, QueryError>) -> QueryResult {
    match decision {
        Ok(Decision::Answer { result }) => result,
        other => panic!("expected an answer, got {other:?}"),
    }
}

fn answered_rows(decision: Result<Decision, QueryError>) -> Vec<Vec<Value>> {
    match answer(decision) {
        QueryResult::Rows { rows, .. } => rows,
        other => panic!("expected rows, got {other:?}"),
    }
}

fn written(decision: Result<Decision, QueryError>) -> (Vec<StorageOp>, Reply) {
    match decision {
        Ok(Decision::Write { ops, reply }) => (ops, reply),
        other => panic!("expected steps, got {other:?}"),
    }
}

fn execution(message: &str) -> QueryError {
    QueryError::Execution(message.to_string())
}

fn shop() -> Catalog {
    let item = table(
        "Item",
        &[
            ("id", TypeId::Int, true),
            ("name", TypeId::Str, false),
            ("price", TypeId::Float, false),
            ("qty", TypeId::Int, false),
        ],
        vec![
            vec![Value::Int(1), str_value("pen"), Value::Float(bits(1.5)), Value::Int(10)],
            vec![Value::Int(2), str_value("ink"), Value::Float(bits(4.0)), Value::Int(3)],
            vec![Value::Int(3), str_value("pad"), Value::Float(bits(2.5)), Value::Empty],
            vec![Value::Int(4), str_value("pen"), Value::Float(bits(9.0)), Value::Int(3)],
        ],
    );
    let tag = table(
        "Tag",
        &[
            ("tid", TypeId::Int, true),
            ("item_id", TypeId::Int, false),
            ("label", TypeId::Str, false),
        ],
        vec![
            vec![Value::Int(10), Value::Int(1), str_value("blue")],
            vec![Value::Int(11), Value::Int(2), str_value("black")],
            vec![Value::Int(12), Value::Int(1), str_value("new")],
            vec![Value::Int(13), Value::Empty, str_value("lost")],
        ],
    );
    let empty = table(
        "Gauge",
        &[("id", TypeId::Int, true), ("v", TypeId::Float, false)],
        vec![vec![Value::Int(1), Value::Empty], vec![Value::Int(2), Value::Empty]],
    );
    Catalog { tables: vec![with_index(item, "id", true), tag, empty], links: vec![] }
}

fn run(plan: &PlanNode) -> Result<Decision, QueryError> {
    engine_with(shop(), wide_limits(), 1_000_000).execute_plan(plan)
}

fn ints_of(rows: &[Vec<Value>], at: usize) -> Vec<i64> {
    rows.iter()
        .map(|row| match row[at] {
            Value::Int(n) => n,
            _ => panic!("expected an int, got {:?}", row[at]),
        })
        .collect()
}

fn assign(name: &str, value: Expr) -> Assignment {
    Assignment { field: text(name), value }
}

fn join(left: PlanNode, right: PlanNode, on: Option<Expr>, kind: JoinKind) -> PlanNode {
    PlanNode::NestedLoopJoin { left: Box::new(left), right: Box::new(right), on, kind }
}

fn alias(name: &str, as_name: &str) -> PlanNode {
    PlanNode::AliasScan { table: text(name), alias: text(as_name) }
}

fn qualified(qualifier: &str, name: &str) -> Expr {
    Expr::QualifiedField { qualifier: text(qualifier), field: text(name) }
}

fn items_with_tags(kind: JoinKind) -> PlanNode {
    join(
        alias("Item", "i"),
        alias("Tag", "t"),
        Some(compare(qualified("i", "id"), BinOp::Eq, qualified("t", "item_id"))),
        kind,
    )
}

#[test]
fn a_scan_answers_the_rows_in_storage_order() {
    assert_eq!(
        answer(run(&project(seq_scan("Item"), &["id", "name"]))),
        QueryResult::Rows {
            columns: texts(&["id", "name"]),
            rows: vec![
                vec![Value::Int(1), str_value("pen")],
                vec![Value::Int(2), str_value("ink")],
                vec![Value::Int(3), str_value("pad")],
                vec![Value::Int(4), str_value("pen")],
            ],
        }
    );
}

#[test]
fn a_missing_table_is_named() {
    assert_eq!(run(&seq_scan("Nope")), Err(QueryError::TableNotFound(text("Nope"))));
}

#[test]
fn a_missing_column_is_named() {
    let plan = PlanNode::Insert {
        table: text("Item"),
        rows: vec![vec![assign("colour", str_lit("red"))]],
        returning: false,
    };
    assert_eq!(
        run(&plan),
        Err(QueryError::ColumnNotFound { table: text(""), column: text("colour") })
    );
}

#[test]
fn a_filter_keeps_the_rows_that_hold() {
    let plan = filter(seq_scan("Item"), compare(field("qty"), BinOp::Eq, int_lit(3)));
    assert_eq!(ints_of(&answered_rows(run(&plan)), 0), vec![2, 4]);
}

#[test]
fn an_index_lookup_and_its_filter_agree() {
    let probe = PlanNode::IndexScan { table: text("Item"), column: text("id"), key: int_lit(3) };
    let scan = filter(seq_scan("Item"), compare(field("id"), BinOp::Eq, int_lit(3)));
    assert_eq!(answered_rows(run(&probe)), answered_rows(run(&scan)));
    let unindexed =
        PlanNode::IndexScan { table: text("Item"), column: text("qty"), key: int_lit(3) };
    assert_eq!(ints_of(&answered_rows(run(&unindexed)), 0), vec![2, 4]);
}

#[test]
fn a_range_scan_is_bounded_on_both_sides() {
    let plan = PlanNode::RangeScan {
        table: text("Item"),
        column: text("id"),
        start: Some((int_lit(2), true)),
        end: Some((int_lit(4), false)),
    };
    assert_eq!(ints_of(&answered_rows(run(&plan)), 0), vec![2, 3]);
}

#[test]
fn a_driven_conjunction_answers_like_its_filter() {
    let predicate = compare(
        compare(field("id"), BinOp::Eq, int_lit(4)),
        BinOp::And,
        compare(field("qty"), BinOp::Eq, int_lit(3)),
    );
    assert_eq!(
        ints_of(&answered_rows(run(&filter(seq_scan("Item"), predicate))), 0),
        vec![4]
    );
}

#[test]
fn a_sort_puts_nulls_last_in_both_directions() {
    let up = answered_rows(run(&sort(seq_scan("Item"), "qty", false)));
    assert_eq!(ints_of(&up, 0), vec![2, 4, 1, 3]);
    let down = answered_rows(run(&sort(seq_scan("Item"), "qty", true)));
    assert_eq!(ints_of(&down, 0), vec![1, 2, 4, 3]);
}

#[test]
fn the_first_rows_of_an_order_begin_the_whole_order() {
    let whole = answered_rows(run(&project(sort(seq_scan("Item"), "price", true), &["id"])));
    let first =
        answered_rows(run(&project(limit(sort(seq_scan("Item"), "price", true), 2), &["id"])));
    assert_eq!(ints_of(&whole, 0), vec![4, 2, 3, 1]);
    assert_eq!(ints_of(&first, 0), vec![4, 2]);
}

#[test]
fn a_limit_of_no_rows_answers_none() {
    let plan = project(limit(seq_scan("Item"), 0), &["id"]);
    assert_eq!(
        answer(run(&plan)),
        QueryResult::Rows { columns: texts(&["id"]), rows: vec![] }
    );
}

#[test]
fn an_offset_drops_the_first_rows() {
    let plan = PlanNode::Offset { input: Box::new(seq_scan("Item")), count: int_lit(3) };
    assert_eq!(ints_of(&answered_rows(run(&plan)), 0), vec![4]);
}

#[test]
fn a_limit_must_be_a_count() {
    let plan = PlanNode::Limit { input: Box::new(seq_scan("Item")), count: str_lit("two") };
    assert!(matches!(run(&plan), Err(QueryError::Execution(_))));
}

#[test]
fn too_many_rows_to_sort_are_refused() {
    let limits = Limits { sort_rows: 3, join_pairs: 1000, join_rows: 1000 };
    let plan = sort(seq_scan("Item"), "qty", false);
    assert_eq!(
        engine_with(shop(), limits, 1_000_000).execute_plan(&plan),
        Err(QueryError::SortLimitExceeded)
    );
}

#[test]
fn the_first_rows_are_held_without_sorting_all() {
    let limits = Limits { sort_rows: 3, join_pairs: 1000, join_rows: 1000 };
    let plan = project(limit(sort(seq_scan("Item"), "qty", false), 2), &["id"]);
    let decision = engine_with(shop(), limits, 1_000_000).execute_plan(&plan);
    assert_eq!(ints_of(&answered_rows(decision), 0), vec![2, 4]);
}

#[test]
fn a_sum_of_one_column_is_exact() {
    assert_eq!(
        answer(run(&aggregate(seq_scan("Item"), AggFunc::Sum, "qty"))),
        QueryResult::Scalar(Value::Int(16))
    );
    assert_eq!(
        answer(run(&aggregate(seq_scan("Item"), AggFunc::Sum, "price"))),
        QueryResult::Scalar(Value::Float(bits(17.0)))
    );
    assert_eq!(
        answer(run(&aggregate(seq_scan("Item"), AggFunc::Avg, "price"))),
        QueryResult::Scalar(Value::Float(bits(4.25)))
    );
}

#[test]
fn a_sum_of_no_float_is_a_float_where_it_is_read_off_the_column() {
    assert_eq!(
        answer(run(&aggregate(seq_scan("Gauge"), AggFunc::Sum, "v"))),
        QueryResult::Scalar(Value::Float(bits(0.0)))
    );
    let listed = Expr::InList {
        expr: Box::new(field("id")),
        list: vec![int_lit(1), int_lit(2)],
        negated: false,
    };
    assert_eq!(
        answer(run(&aggregate(filter(seq_scan("Gauge"), listed), AggFunc::Sum, "v"))),
        QueryResult::Scalar(Value::Int(0))
    );
}

#[test]
fn counts_skip_nulls_but_not_rows() {
    let every = PlanNode::Aggregate {
        input: Box::new(seq_scan("Item")),
        function: AggFunc::Count,
        argument: None,
        mode: AggregateMode::Raw,
        provenance_alias: None,
    };
    assert_eq!(answer(run(&every)), QueryResult::Scalar(Value::Int(4)));
    assert_eq!(
        answer(run(&aggregate(seq_scan("Item"), AggFunc::Count, "qty"))),
        QueryResult::Scalar(Value::Int(3))
    );
    assert_eq!(
        answer(run(&aggregate(seq_scan("Item"), AggFunc::CountDistinct, "qty"))),
        QueryResult::Scalar(Value::Int(2))
    );
    assert_eq!(
        answer(run(&aggregate(seq_scan("Item"), AggFunc::Min, "price"))),
        QueryResult::Scalar(Value::Float(bits(1.5)))
    );
    assert_eq!(
        answer(run(&aggregate(seq_scan("Item"), AggFunc::Max, "name"))),
        QueryResult::Scalar(str_value("pen"))
    );
}

#[test]
fn a_grouping_answers_each_key_once_in_order_of_appearance() {
    let plan = PlanNode::GroupBy {
        input: Box::new(seq_scan("Item")),
        keys: vec![GroupKey { expr: field("name"), output_name: text("name") }],
        aggregates: vec![GroupAgg {
            function: AggFunc::Count,
            argument: field("id"),
            mode: AggregateMode::Raw,
            provenance_alias: None,
            output_name: text("n"),
        }],
        having: None,
    };
    assert_eq!(
        answer(run(&plan)),
        QueryResult::Rows {
            columns: texts(&["name", "n"]),
            rows: vec![
                vec![str_value("pen"), Value::Int(2)],
                vec![str_value("ink"), Value::Int(1)],
                vec![str_value("pad"), Value::Int(1)],
            ],
        }
    );
}

#[test]
fn having_keeps_the_groups_that_hold() {
    let plan = PlanNode::GroupBy {
        input: Box::new(seq_scan("Item")),
        keys: vec![GroupKey { expr: field("name"), output_name: text("name") }],
        aggregates: vec![GroupAgg {
            function: AggFunc::Count,
            argument: field("id"),
            mode: AggregateMode::Raw,
            provenance_alias: None,
            output_name: text("n"),
        }],
        having: Some(compare(field("n"), BinOp::Gt, int_lit(1))),
    };
    assert_eq!(answered_rows(run(&plan)), vec![vec![str_value("pen"), Value::Int(2)]]);
}

#[test]
fn an_inner_join_answers_the_pairs_that_match() {
    let rows = answered_rows(run(&items_with_tags(JoinKind::Inner)));
    assert_eq!(ints_of(&rows, 0), vec![1, 1, 2]);
    assert_eq!(ints_of(&rows, 4), vec![10, 12, 11]);
}

#[test]
fn a_hash_join_and_a_nested_loop_agree() {
    let nested = join(
        alias("Item", "i"),
        alias("Tag", "t"),
        Some(compare(
            compare(qualified("i", "id"), BinOp::Lte, qualified("t", "item_id")),
            BinOp::And,
            compare(qualified("i", "id"), BinOp::Gte, qualified("t", "item_id")),
        )),
        JoinKind::Inner,
    );
    assert_eq!(
        answered_rows(run(&nested)),
        answered_rows(run(&items_with_tags(JoinKind::Inner)))
    );
}

#[test]
fn a_left_outer_join_keeps_every_left_row() {
    let rows = answered_rows(run(&items_with_tags(JoinKind::LeftOuter)));
    assert_eq!(ints_of(&rows, 0), vec![1, 1, 2, 3, 4]);
    assert_eq!(rows[3][4], Value::Empty);
    assert_eq!(rows[3].len(), 7);
}

#[test]
fn a_nested_loop_over_too_many_pairs_is_refused() {
    let limits = Limits { sort_rows: 1000, join_pairs: 15, join_rows: 1000 };
    let plan = join(alias("Item", "i"), alias("Tag", "t"), None, JoinKind::Cross);
    assert_eq!(
        engine_with(shop(), limits, 1_000_000).execute_plan(&plan),
        Err(QueryError::NestedLoopPairLimitExceeded { left_rows: 4, right_rows: 4, limit: 15 })
    );
}

#[test]
fn a_join_with_too_many_rows_is_refused() {
    let limits = Limits { sort_rows: 1000, join_pairs: 1000, join_rows: 2 };
    assert_eq!(
        engine_with(shop(), limits, 1_000_000).execute_plan(&items_with_tags(JoinKind::Inner)),
        Err(QueryError::JoinLimitExceeded)
    );
}

#[test]
fn what_a_query_holds_is_counted() {
    let plan = sort(seq_scan("Item"), "qty", false);
    assert_eq!(
        engine_with(shop(), wide_limits(), 100).execute_plan(&plan),
        Err(QueryError::MemoryLimitExceeded { limit: 100 })
    );
}

#[test]
fn a_symmetric_sum_counts_each_source_row_once() {
    let sum = |mode: AggregateMode, source: Option<String>| PlanNode::Aggregate {
        input: Box::new(items_with_tags(JoinKind::Inner)),
        function: AggFunc::Sum,
        argument: Some(qualified("i", "qty")),
        mode,
        provenance_alias: source,
    };
    assert_eq!(
        answer(run(&sum(AggregateMode::Raw, None))),
        QueryResult::Scalar(Value::Int(23))
    );
    assert_eq!(
        answer(run(&sum(AggregateMode::Symmetric, Some(text("i"))))),
        QueryResult::Scalar(Value::Int(13))
    );
}

#[test]
fn a_union_answers_each_row_once_unless_it_takes_all() {
    let halves = |all: bool| PlanNode::Union {
        left: Box::new(project(seq_scan("Item"), &["name"])),
        right: Box::new(PlanNode::Project {
            input: Box::new(seq_scan("Tag")),
            fields: vec![ProjectField { alias: None, expr: str_lit("cap") }],
        }),
        all,
    };
    assert_eq!(answered_rows(run(&halves(true))).len(), 8);
    assert_eq!(
        answered_rows(run(&halves(false))),
        vec![
            vec![str_value("pen")],
            vec![str_value("ink")],
            vec![str_value("pad")],
            vec![str_value("cap")],
        ]
    );
}

#[test]
fn a_union_answers_the_repeats_of_its_left_side_once() {
    let none = filter(seq_scan("Tag"), compare(field("tid"), BinOp::Lt, int_lit(0)));
    let plan = |all: bool| PlanNode::Union {
        left: Box::new(project(seq_scan("Item"), &["name"])),
        right: Box::new(project(
            filter(seq_scan("Tag"), compare(field("tid"), BinOp::Lt, int_lit(0))),
            &["label"],
        )),
        all,
    };
    assert_eq!(answered_rows(run(&none)).len(), 0);
    assert_eq!(answered_rows(run(&plan(true))).len(), 4);
    assert_eq!(
        answered_rows(run(&plan(false))),
        vec![vec![str_value("pen")], vec![str_value("ink")], vec![str_value("pad")]]
    );
}

fn union_of(left: PlanNode, right: PlanNode) -> PlanNode {
    PlanNode::Union { left: Box::new(left), right: Box::new(right), all: true }
}

#[test]
fn a_union_of_sides_of_different_widths_is_ordered_by_what_its_rows_have() {
    let names = || project(seq_scan("Item"), &["id"]);
    let wide = sort(union_of(names(), project(seq_scan("Tag"), &["tid", "label"])), "id", true);
    assert_eq!(
        ints_of(&answered_rows(run(&wide)), 0),
        vec![13, 12, 11, 10, 4, 3, 2, 1]
    );
    let both = || project(seq_scan("Item"), &["id", "name"]);
    let narrow = |by: &str| sort(union_of(both(), project(seq_scan("Tag"), &["tid"])), by, true);
    assert_eq!(
        ints_of(&answered_rows(run(&narrow("id"))), 0),
        vec![13, 12, 11, 10, 4, 3, 2, 1]
    );
    assert_eq!(
        run(&narrow("name")),
        Err(execution("a row has no value for a column that is looked up"))
    );
}

#[test]
fn a_row_that_ends_before_its_key_is_neither_grouped_nor_joined_nor_windowed() {
    let short = execution("a row has no value for a column that is looked up");
    let narrow = || {
        union_of(
            project(seq_scan("Item"), &["id", "qty"]),
            project(seq_scan("Tag"), &["tid"]),
        )
    };
    let grouped = |by: &str| PlanNode::GroupBy {
        input: Box::new(narrow()),
        keys: vec![GroupKey { expr: field(by), output_name: text("k") }],
        aggregates: vec![],
        having: None,
    };
    assert_eq!(run(&grouped("qty")), Err(execution("a row has no value for a column that is looked up")));
    assert_eq!(answered_rows(run(&grouped("id"))).len(), 8);
    let windowed = |by: &str| PlanNode::Window {
        input: Box::new(narrow()),
        windows: vec![WindowDef {
            function: WindowFunc::RowNumber,
            args: vec![],
            mode: AggregateMode::Raw,
            partition_by: vec![],
            order_by: vec![SortKey { expr: field(by), descending: false }],
            output_name: text("n"),
        }],
    };
    assert_eq!(run(&windowed("qty")), Err(execution("a row has no value for a column that is looked up")));
    assert_eq!(answered_rows(run(&windowed("id"))).len(), 8);
    let joined = |by: &str| {
        join(
            narrow(),
            project(seq_scan("Gauge"), &["v"]),
            Some(compare(field(by), BinOp::Eq, field("v"))),
            JoinKind::Inner,
        )
    };
    assert_eq!(run(&joined("qty")), Err(short));
    assert_eq!(answered_rows(run(&joined("id"))).len(), 0);
}

#[test]
fn distinct_rows_come_in_order_of_first_appearance() {
    let plan = PlanNode::Distinct { input: Box::new(project(seq_scan("Item"), &["name"])) };
    assert_eq!(
        answered_rows(run(&plan)),
        vec![vec![str_value("pen")], vec![str_value("ink")], vec![str_value("pad")]]
    );
}

#[test]
fn a_window_ranks_with_ties() {
    let window = |function: WindowFunc, name: &str| WindowDef {
        function,
        args: vec![],
        mode: AggregateMode::Raw,
        partition_by: vec![],
        order_by: vec![SortKey { expr: field("qty"), descending: false }],
        output_name: text(name),
    };
    let plan = PlanNode::Window {
        input: Box::new(filter(
            seq_scan("Item"),
            Expr::UnaryOp(
                UnaryOp::Not,
                Box::new(Expr::UnaryOp(UnaryOp::IsNull, Box::new(field("qty")))),
            ),
        )),
        windows: vec![
            window(WindowFunc::RowNumber, "n"),
            window(WindowFunc::Rank, "r"),
            window(WindowFunc::DenseRank, "d"),
        ],
    };
    let rows = answered_rows(run(&plan));
    assert_eq!(ints_of(&rows, 0), vec![1, 2, 4]);
    assert_eq!(ints_of(&rows, 4), vec![3, 1, 2]);
    assert_eq!(ints_of(&rows, 5), vec![3, 1, 1]);
    assert_eq!(ints_of(&rows, 6), vec![2, 1, 1]);
}

fn tags_of_items(bound: Option<Expr>) -> PlanNode {
    PlanNode::NestedProject {
        input: Box::new(seq_scan("Item")),
        fields: vec![
            NestedProjectField::Plain(bare("id")),
            NestedProjectField::Nested(Box::new(NestedProjection {
                name: text("tags"),
                table: text("Tag"),
                parent_alias: text("Item"),
                child_key: text("item_id"),
                parent_key: text("id"),
                via_link: None,
                fields: vec![NestedField::Scalar { key: text("l"), column: text("label") }],
                order: vec![(text("label"), true)],
                limit: bound,
                offset: None,
                residual: None,
            })),
        ],
    }
}

#[test]
fn a_nested_projection_keeps_every_parent_row() {
    let rows = answered_rows(run(&tags_of_items(None)));
    let json = |s: &str| Value::Json(s.as_bytes().to_vec());
    assert_eq!(
        rows,
        vec![
            vec![Value::Int(1), json("[{\"l\":\"new\"},{\"l\":\"blue\"}]")],
            vec![Value::Int(2), json("[{\"l\":\"black\"}]")],
            vec![Value::Int(3), json("[]")],
            vec![Value::Int(4), json("[]")],
        ]
    );
}

#[test]
fn a_nested_limit_must_be_a_count() {
    assert_eq!(
        run(&tags_of_items(Some(int_lit(-1)))),
        Err(execution("nested projection `tags` limit must be a non-negative integer literal"))
    );
}

#[test]
fn what_a_nested_level_holds_is_counted() {
    // Three children of two columns each, the key and the label twice.
    assert!(run(&tags_of_items(None)).is_ok());
    let tight = engine_with(shop(), wide_limits(), 89).execute_plan(&tags_of_items(None));
    assert_eq!(tight, Err(QueryError::MemoryLimitExceeded { limit: 89 }));
    let enough = engine_with(shop(), wide_limits(), 90).execute_plan(&tags_of_items(None));
    assert!(enough.is_ok());
}

fn linked_shop() -> Catalog {
    let mut catalog = shop();
    catalog.links.push(LinkDef {
        owner_type: text("Tag"),
        name: text("item"),
        target_type: text("Item"),
        local_key: text("item_id"),
        target_key: text("id"),
    });
    catalog
}

fn item_name_of_tags() -> PlanNode {
    PlanNode::NestedProject {
        input: Box::new(alias("Tag", "t")),
        fields: vec![
            NestedProjectField::Plain(ProjectField { alias: None, expr: qualified("t", "tid") }),
            NestedProjectField::Link(Box::new(ScalarLinkField {
                name: text("item_name"),
                outer_alias: text("t"),
                links: vec![text("item")],
                column: text("name"),
                resolved: None,
            })),
        ],
    }
}

#[test]
fn a_path_over_links_reaches_one_row_or_nothing() {
    let engine = engine_with(linked_shop(), wide_limits(), 1_000_000);
    let rows = answered_rows(engine.execute_plan(&item_name_of_tags()));
    assert_eq!(
        rows,
        vec![
            vec![Value::Int(10), str_value("pen")],
            vec![Value::Int(11), str_value("ink")],
            vec![Value::Int(12), str_value("pen")],
            vec![Value::Int(13), Value::Empty],
        ]
    );
}

#[test]
fn a_path_over_links_needs_a_unique_key() {
    let mut catalog = linked_shop();
    catalog.links[0].target_key = text("name");
    catalog.links[0].local_key = text("label");
    let engine = engine_with(catalog, wide_limits(), 1_000_000);
    assert!(matches!(
        engine.execute_plan(&item_name_of_tags()),
        Err(QueryError::Execution(_)) | Err(QueryError::TypeError(_))
    ));
}

#[test]
fn an_insert_stores_full_rows_and_marks_views_stale() {
    let plan = PlanNode::Insert {
        table: text("Item"),
        rows: vec![vec![assign("id", int_lit(9)), assign("price", int_lit(2))]],
        returning: false,
    };
    let (ops, reply) = written(run(&plan));
    assert_eq!(
        ops,
        vec![
            StorageOp::Insert {
                table: text("Item"),
                rows: vec![vec![
                    Value::Int(9),
                    Value::Empty,
                    Value::Float(bits(2.0)),
                    Value::Empty,
                ]],
            },
            StorageOp::MarkDependentsDirty { table: text("Item") },
        ]
    );
    assert_eq!(reply, Reply::Inserted { columns: None });
}

#[test]
fn a_required_column_needs_a_value() {
    let plan = PlanNode::Insert {
        table: text("Item"),
        rows: vec![vec![assign("name", str_lit("cap"))]],
        returning: false,
    };
    assert_eq!(
        run(&plan),
        Err(execution("column 'id' is required but no value was provided"))
    );
}

#[test]
fn a_default_fills_what_an_insert_leaves_out() {
    let mut catalog = shop();
    catalog.tables[0].defaults[3] = Some(Value::Int(7));
    catalog.tables[0].auto_columns[0] = true;
    let plan = PlanNode::Insert {
        table: text("Item"),
        rows: vec![vec![assign("name", str_lit("cap"))]],
        returning: true,
    };
    let (ops, reply) = written(engine_with(catalog, wide_limits(), 1_000_000).execute_plan(&plan));
    assert_eq!(
        ops[0],
        StorageOp::Insert {
            table: text("Item"),
            rows: vec![vec![Value::Empty, str_value("cap"), Value::Empty, Value::Int(7)]],
        }
    );
    assert_eq!(
        reply,
        Reply::Inserted { columns: Some(texts(&["id", "name", "price", "qty"])) }
    );
}

#[test]
fn an_upsert_inserts_or_updates_by_a_unique_key() {
    let upsert = |id: i64| PlanNode::Upsert {
        table: text("Item"),
        key_column: text("id"),
        assignments: vec![assign("id", int_lit(id)), assign("qty", int_lit(5))],
        on_conflict: vec![],
    };
    let (fresh, _) = written(run(&upsert(8)));
    assert_eq!(
        fresh[0],
        StorageOp::Insert {
            table: text("Item"),
            rows: vec![vec![Value::Int(8), Value::Empty, Value::Empty, Value::Int(5)]],
        }
    );
    let (taken, reply) = written(run(&upsert(2)));
    assert_eq!(
        taken[0],
        StorageOp::Update {
            table: text("Item"),
            rid: rid(1),
            values: vec![
                Value::Int(2),
                str_value("ink"),
                Value::Float(bits(4.0)),
                Value::Int(5),
            ],
            changed: vec![3],
        }
    );
    assert_eq!(reply, Reply::Fixed { result: QueryResult::Modified(1) });
}

#[test]
fn an_upsert_needs_a_unique_index() {
    let plan = PlanNode::Upsert {
        table: text("Item"),
        key_column: text("qty"),
        assignments: vec![assign("id", int_lit(1)), assign("qty", int_lit(5))],
        on_conflict: vec![],
    };
    assert!(matches!(run(&plan), Err(QueryError::Execution(_))));
}

#[test]
fn an_update_changes_the_assigned_columns_alone() {
    let plan = PlanNode::Update {
        input: Box::new(filter(seq_scan("Item"), compare(field("qty"), BinOp::Eq, int_lit(3)))),
        table: text("Item"),
        assignments: vec![assign("qty", compare(field("qty"), BinOp::Add, int_lit(1)))],
        returning: false,
    };
    let (ops, reply) = written(run(&plan));
    assert_eq!(
        ops,
        vec![
            StorageOp::Update {
                table: text("Item"),
                rid: rid(1),
                values: vec![
                    Value::Int(2),
                    str_value("ink"),
                    Value::Float(bits(4.0)),
                    Value::Int(4),
                ],
                changed: vec![3],
            },
            StorageOp::Update {
                table: text("Item"),
                rid: rid(3),
                values: vec![
                    Value::Int(4),
                    str_value("pen"),
                    Value::Float(bits(9.0)),
                    Value::Int(4),
                ],
                changed: vec![3],
            },
            StorageOp::MarkDependentsDirty { table: text("Item") },
        ]
    );
    assert_eq!(reply, Reply::Fixed { result: QueryResult::Modified(2) });
}

#[test]
fn an_update_to_another_type_is_a_type_error() {
    let plan = PlanNode::Update {
        input: Box::new(seq_scan("Item")),
        table: text("Item"),
        assignments: vec![assign("qty", str_lit("many"))],
        returning: false,
    };
    assert_eq!(
        run(&plan),
        Err(QueryError::TypeError(text("column 'qty' takes another type")))
    );
}

#[test]
fn a_delete_removes_the_rows_that_hold() {
    let plan = PlanNode::Delete {
        input: Box::new(filter(seq_scan("Item"), compare(field("id"), BinOp::Lt, int_lit(3)))),
        table: text("Item"),
        returning: false,
    };
    let (ops, reply) = written(run(&plan));
    assert_eq!(
        ops,
        vec![
            StorageOp::Delete { table: text("Item"), rids: vec![rid(0), rid(1)] },
            StorageOp::MarkDependentsDirty { table: text("Item") },
        ]
    );
    assert_eq!(reply, Reply::Deleted);
}

#[test]
fn a_delete_may_answer_what_it_removes() {
    let plan = PlanNode::Delete {
        input: Box::new(PlanNode::IndexScan {
            table: text("Item"),
            column: text("id"),
            key: int_lit(4),
        }),
        table: text("Item"),
        returning: true,
    };
    let (_, reply) = written(run(&plan));
    match reply {
        Reply::Fixed { result: QueryResult::Rows { rows, .. } } => {
            assert_eq!(ints_of(&rows, 0), vec![4]);
        }
        other => panic!("expected rows, got {other:?}"),
    }
}

fn declared(name: &str, type_text: &str, unique: bool) -> FieldDef {
    FieldDef {
        name: text(name),
        declared: text(type_text),
        required: false,
        unique,
        auto_increment: false,
        default_value: None,
    }
}

#[test]
fn a_new_type_gets_its_table_and_its_unique_indexes() {
    let plan = PlanNode::CreateTable {
        name: text("User"),
        fields: vec![declared("id", "int", true), declared("nick", "str", false)],
        if_not_exists: false,
    };
    let (ops, reply) = written(run(&plan));
    assert_eq!(
        ops,
        vec![
            StorageOp::CreateTable {
                schema: schema("User", &[("id", TypeId::Int, false), ("nick", TypeId::Str, false)]),
                defaults: vec![None, None],
                auto_columns: vec![false, false],
            },
            StorageOp::CreateIndex { table: text("User"), column: text("id"), unique: true },
        ]
    );
    assert_eq!(reply, Reply::Fixed { result: QueryResult::Created(text("User")) });
}

#[test]
fn a_type_is_not_made_twice() {
    let make = |if_not_exists: bool| PlanNode::CreateTable {
        name: text("Item"),
        fields: vec![declared("id", "int", false)],
        if_not_exists,
    };
    assert_eq!(run(&make(false)), Err(execution("cannot create type 'Item': it already exists")));
    assert_eq!(
        answer(run(&make(true))),
        QueryResult::Executed { message: text("type 'Item' already exists (skipped)") }
    );
}

#[test]
fn a_unique_index_needs_distinct_values() {
    let unique_on = |name: &str| PlanNode::AlterTable {
        table: text("Item"),
        action: AlterAction::AddUnique {
            target: IndexTarget::Column(text(name)),
            if_not_exists: false,
        },
    };
    assert!(run(&unique_on("name")).is_err());
    let (ops, _) = written(run(&unique_on("price")));
    assert!(ops.contains(&StorageOp::CreateIndex {
        table: text("Item"),
        column: text("price"),
        unique: true,
    }));
}

#[test]
fn a_column_is_added_and_dropped() {
    let added = PlanNode::AlterTable {
        table: text("Item"),
        action: AlterAction::AddColumn {
            name: text("note"),
            declared: text("str"),
            required: false,
        },
    };
    let (ops, _) = written(run(&added));
    assert_eq!(
        ops[0],
        StorageOp::AddColumn { table: text("Item"), column: column("note", TypeId::Str, false, 4) }
    );
    let dropped = PlanNode::AlterTable {
        table: text("Item"),
        action: AlterAction::DropColumn { name: text("qty"), if_exists: false },
    };
    let (ops, _) = written(run(&dropped));
    assert_eq!(ops[0], StorageOp::DropColumn { table: text("Item"), name: text("qty") });
}

#[test]
fn a_link_is_declared() {
    let plan = PlanNode::CreateLink {
        owner: text("Tag"),
        name: text("item"),
        target: text("Item"),
        local_key: text("item_id"),
        target_key: text("id"),
    };
    let (ops, reply) = written(run(&plan));
    assert_eq!(
        ops,
        vec![StorageOp::CreateLink {
            link: LinkDef {
                owner_type: text("Tag"),
                name: text("item"),
                target_type: text("Item"),
                local_key: text("item_id"),
                target_key: text("id"),
            },
        }]
    );
    assert_eq!(
        reply,
        Reply::Fixed { result: QueryResult::Executed { message: text("link 'item' added to 'Tag'") } }
    );
}

fn view(name: &str, source: &str, dirty: bool) -> ViewDef {
    ViewDef { name: text(name), query: text(source), depends_on: texts(&[source]), dirty }
}

fn viewed_shop() -> Catalog {
    let mut catalog = shop();
    catalog.tables.push(table(
        "Cheap",
        &[("id", TypeId::Int, false)],
        vec![vec![Value::Int(1)]],
    ));
    catalog
}

#[test]
fn a_stale_view_is_refreshed_before_it_is_read() {
    let mut engine = engine_with(viewed_shop(), wide_limits(), 1_000_000);
    engine.views = vec![view("Cheap", "Item", true)];
    assert_eq!(
        engine.execute_plan(&seq_scan("Cheap")),
        Ok(Decision::Refresh { view: text("Cheap") })
    );
    assert_eq!(
        engine.refresh_view(&text("Cheap")),
        Ok(Decision::RunSource { view: text("Cheap"), query: text("Item"), create: false })
    );
    let rows = QueryResult::Rows {
        columns: texts(&["id"]),
        rows: vec![vec![Value::Int(3)]],
    };
    let (ops, reply) =
        written(engine.source_answered(&text("Cheap"), &text("Item"), false, rows));
    assert_eq!(
        ops,
        vec![
            StorageOp::Clear { table: text("Cheap") },
            StorageOp::Insert { table: text("Cheap"), rows: vec![vec![Value::Int(3)]] },
            StorageOp::CommitStatement,
            StorageOp::MarkClean { name: text("Cheap") },
        ]
    );
    assert_eq!(
        reply,
        Reply::Fixed {
            result: QueryResult::Executed {
                message: text("materialized view 'Cheap' refreshed"),
            },
        }
    );
    for op in ops {
        engine.applied(op);
    }
    assert!(matches!(
        engine.execute_plan(&seq_scan("Cheap")),
        Ok(Decision::Answer { .. })
    ));
}

#[test]
fn a_change_makes_the_views_over_its_table_stale() {
    let mut engine = engine_with(viewed_shop(), wide_limits(), 1_000_000);
    engine.views = vec![view("Cheap", "Item", false), view("Other", "Tag", false)];
    let plan = PlanNode::Delete {
        input: Box::new(seq_scan("Item")),
        table: text("Item"),
        returning: false,
    };
    let (ops, _) = written(engine.execute_plan(&plan));
    for op in ops {
        engine.applied(op);
    }
    assert!(engine.views[0].dirty);
    assert!(!engine.views[1].dirty);
}

#[test]
fn a_new_view_is_registered_after_its_rows_are_committed() {
    let engine = engine_with(shop(), wide_limits(), 1_000_000);
    assert_eq!(
        engine.execute_plan(&PlanNode::CreateView {
            name: text("Names"),
            query_text: text("Item union Tag"),
        }),
        Ok(Decision::RunSource {
            view: text("Names"),
            query: text("Item union Tag"),
            create: true,
        })
    );
    let rows = QueryResult::Rows {
        columns: texts(&["name", "n"]),
        rows: vec![
            vec![Value::Empty, Value::Empty],
            vec![str_value("pen"), Value::Empty],
        ],
    };
    let (ops, _) =
        written(engine.source_answered(&text("Names"), &text("Item union Tag"), true, rows));
    assert_eq!(ops.len(), 4);
    assert_eq!(
        ops[0],
        StorageOp::CreateTable {
            schema: schema("Names", &[("name", TypeId::Str, false), ("n", TypeId::Str, false)]),
            defaults: vec![None, None],
            auto_columns: vec![false, false],
        }
    );
    assert_eq!(ops[2], StorageOp::CommitStatement);
    assert_eq!(
        ops[3],
        StorageOp::RegisterView {
            view: ViewDef {
                name: text("Names"),
                query: text("Item union Tag"),
                depends_on: texts(&["Item", "Tag"]),
                dirty: false,
            },
        }
    );
}

#[test]
fn a_view_over_mixed_types_is_refused() {
    let engine = engine_with(shop(), wide_limits(), 1_000_000);
    let rows = QueryResult::Rows {
        columns: texts(&["v"]),
        rows: vec![vec![Value::Int(1)], vec![str_value("one")]],
    };
    assert!(matches!(
        engine.source_answered(&text("V"), &text("Item"), true, rows),
        Err(QueryError::ViewError(_))
    ));
}

#[test]
fn a_view_that_is_not_there_cannot_be_dropped() {
    let engine = engine_with(shop(), wide_limits(), 1_000_000);
    assert!(engine.drop_view(&text("V")).is_err());
    assert_eq!(
        answer(run(&PlanNode::DropView { name: text("V"), if_exists: true })),
        QueryResult::Executed { message: text("view 'V' does not exist (skipped)") }
    );
}

#[test]
fn the_tables_of_a_view_are_those_of_both_halves() {
    let engine = engine_with(shop(), wide_limits(), 1_000_000);
    assert_eq!(
        engine.extract_view_deps(&text("V"), &text("Item union Tag")),
        Ok(texts(&["Item", "Tag"]))
    );
    assert!(matches!(
        engine.extract_view_deps(&text("V"), &text("")),
        Err(QueryError::ViewError(_))
    ));
}

#[test]
fn a_dropped_table_takes_the_source_of_its_views() {
    let mut engine = engine_with(viewed_shop(), wide_limits(), 1_000_000);
    engine.views = vec![view("Cheap", "Item", false)];
    let (ops, reply) = written(
        engine.execute_plan(&PlanNode::DropTable { name: text("Item"), if_exists: false }),
    );
    assert_eq!(
        ops,
        vec![
            StorageOp::DropTable { name: text("Item") },
            StorageOp::MarkDependentsDirty { table: text("Item") },
        ]
    );
    assert_eq!(
        reply,
        Reply::Fixed {
            result: QueryResult::Executed {
                message: text(
                    "table 'Item' dropped; view 'Cheap' has no source and will fail until \
                     dropped or recreated"
                ),
            },
        }
    );
}

#[test]
fn transactions_do_not_nest() {
    let mut engine = engine_with(shop(), wide_limits(), 1_000_000);
    assert_eq!(
        engine.execute_plan(&PlanNode::Commit),
        Err(execution("no active transaction to commit"))
    );
    assert_eq!(
        engine.execute_plan(&PlanNode::Rollback),
        Err(execution("no active transaction to roll back"))
    );
    let (ops, reply) = written(engine.execute_plan(&PlanNode::Begin));
    assert_eq!(ops, vec![StorageOp::Begin]);
    assert_eq!(
        reply,
        Reply::Fixed { result: QueryResult::Executed { message: text("transaction started") } }
    );
    engine.applied(StorageOp::Begin);
    assert_eq!(
        engine.execute_plan(&PlanNode::Begin),
        Err(execution("already in a transaction (nested transactions not supported)"))
    );
    let (ops, _) = written(engine.execute_plan(&PlanNode::Commit));
    assert_eq!(ops, vec![StorageOp::Commit]);
    engine.applied(StorageOp::Commit);
    assert!(!engine.in_transaction);
}

#[test]
fn a_report_of_the_storage_is_answered() {
    let report = |rows: Vec<Vec<Value>>| StorageReport { rows, removed: 3, index_id: 12 };
    let rows = || vec![vec![Value::Int(1)], vec![Value::Int(2)]];
    assert_eq!(
        finish(Reply::Inserted { columns: None }, report(rows())),
        QueryResult::Modified(2)
    );
    assert_eq!(
        finish(Reply::Inserted { columns: Some(texts(&["id"])) }, report(rows())),
        QueryResult::Rows { columns: texts(&["id"]), rows: rows() }
    );
    assert_eq!(finish(Reply::Deleted, report(vec![])), QueryResult::Modified(3));
    assert_eq!(
        finish(Reply::PathIndex { table: text("Doc"), unique: true }, report(vec![])),
        QueryResult::Executed { message: text("unique expression index 12 on 'Doc' created") }
    );
    assert_eq!(
        finish(Reply::PathIndex { table: text("Doc"), unique: false }, report(vec![])),
        QueryResult::Executed { message: text("expression index 12 on 'Doc' created") }
    );
}

#[test]
fn a_registered_view_can_be_forgotten() {
    let mut engine = engine_with(shop(), wide_limits(), 1_000_000);
    engine.applied(StorageOp::RegisterView { view: view("V", "Item", false) });
    assert_eq!(engine.views, vec![view("V", "Item", false)]);
    engine.applied(StorageOp::UnregisterView { name: text("V") });
    assert_eq!(engine.views, vec![]);
}

#[test]
fn an_aggregate_that_nothing_computes_is_refused() {
    let stray = Expr::FunctionCall(AggFunc::Sum, Box::new(field("qty")), AggregateMode::Raw);
    let plan = filter(seq_scan("Item"), compare(stray, BinOp::Gt, int_lit(1)));
    assert!(run(&plan).is_err());
}

#[test]
fn a_path_into_a_column_that_is_no_document_is_a_type_error() {
    let path = Expr::JsonPath {
        base: Box::new(field("name")),
        segments: vec![PathSeg::Key(text("a"))],
    };
    let plan = filter(seq_scan("Item"), compare(path, BinOp::Eq, int_lit(1)));
    assert!(matches!(run(&plan), Err(QueryError::TypeError(_))));
}

#[test]
fn a_statement_that_writes_is_not_read_from() {
    let plan = PlanNode::Limit { input: Box::new(PlanNode::Begin), count: int_lit(1) };
    assert_eq!(run(&plan), Err(execution("this statement cannot be read from")));
}

#[test]
fn a_plan_that_is_ready_stays_as_it_is() {
    let engine = engine_with(shop(), wide_limits(), 1_000_000);
    let plan = PlanNode::Union {
        left: Box::new(PlanNode::IndexScan {
            table: text("Item"),
            column: text("qty"),
            key: int_lit(3),
        }),
        right: Box::new(filter(
            seq_scan("Item"),
            compare(
                compare(field("id"), BinOp::Eq, int_lit(4)),
                BinOp::And,
                compare(field("qty"), BinOp::Eq, int_lit(3)),
            ),
        )),
        all: false,
    };
    let once = engine.lower(&plan).unwrap();
    let twice = engine.lower(&once).unwrap();
    assert!(once != plan);
    assert_eq!(once, twice);
}

#[test]
fn types_and_columns_are_listed() {
    assert_eq!(
        answered_rows(run(&PlanNode::ListTypes)),
        vec![
            vec![str_value("Item"), Value::Int(4)],
            vec![str_value("Tag"), Value::Int(3)],
            vec![str_value("Gauge"), Value::Int(2)],
        ]
    );
    assert_eq!(
        run(&PlanNode::Describe { table: text("Nope") }),
        Err(QueryError::TableNotFound(text("Nope")))
    );
}

#[test]
fn an_explained_plan_is_told_and_not_run() {
    let plan = PlanNode::Explain { input: Box::new(filter(seq_scan("Nope"), field("x"))) };
    match answer(run(&plan)) {
        QueryResult::Rows { rows, .. } => assert!(rows.len() >= 2),
        other => panic!("expected rows, got {other:?}"),
    }
}

#[test]
fn a_limit_after_an_offset_is_a_slice() {
    let after = PlanNode::Offset { input: Box::new(seq_scan("Item")), count: int_lit(1) };
    assert_eq!(ints_of(&answered_rows(run(&limit(after, 2))), 0), vec![2, 3]);
    let past = PlanNode::Offset { input: Box::new(seq_scan("Item")), count: int_lit(9) };
    assert_eq!(answered_rows(run(&limit(past, 2))), Vec::<Vec<Value>>::new());
}

#[test]
fn a_range_with_its_index_answers_like_its_condition() {
    let range = PlanNode::RangeScan {
        table: text("Item"),
        column: text("id"),
        start: Some((int_lit(1), false)),
        end: Some((int_lit(3), true)),
    };
    let condition = compare(
        compare(field("id"), BinOp::Gt, int_lit(1)),
        BinOp::And,
        compare(field("id"), BinOp::Lte, int_lit(3)),
    );
    let mut unindexed = shop();
    unindexed.tables[0].indexes.clear();
    let engine = engine_with(unindexed, wide_limits(), 1_000_000);
    assert_eq!(
        answered_rows(run(&range)),
        answered_rows(engine.execute_plan(&filter(seq_scan("Item"), condition)))
    );
}

#[test]
fn a_join_tests_its_other_conditions_on_each_pair() {
    let plan = join(
        alias("Item", "i"),
        alias("Tag", "t"),
        Some(compare(
            compare(qualified("i", "id"), BinOp::Eq, qualified("t", "item_id")),
            BinOp::And,
            compare(qualified("t", "label"), BinOp::Eq, str_lit("new")),
        )),
        JoinKind::LeftOuter,
    );
    let rows = answered_rows(run(&plan));
    assert_eq!(ints_of(&rows, 0), vec![1, 2, 3, 4]);
    assert_eq!(rows[0][4], Value::Int(12));
    assert_eq!(rows[1][4], Value::Empty);
}

#[test]
fn a_symmetric_sum_without_repeats_is_the_raw_sum() {
    let sum = |mode: AggregateMode, source: Option<String>| PlanNode::Aggregate {
        input: Box::new(alias("Item", "i")),
        function: AggFunc::Sum,
        argument: Some(qualified("i", "qty")),
        mode,
        provenance_alias: source,
    };
    assert_eq!(
        answer(run(&sum(AggregateMode::Symmetric, Some(text("i"))))),
        answer(run(&sum(AggregateMode::Raw, None)))
    );
}

#[test]
fn an_upsert_leaves_the_key_of_the_row_that_it_finds() {
    let plan = PlanNode::Upsert {
        table: text("Item"),
        key_column: text("id"),
        assignments: vec![assign("id", int_lit(2))],
        on_conflict: vec![assign("id", int_lit(77)), assign("name", str_lit("nib"))],
    };
    let (ops, _) = written(run(&plan));
    match &ops[0] {
        StorageOp::Update { values, changed, .. } => {
            assert_eq!(values[0], Value::Int(2));
            assert_eq!(values[1], str_value("nib"));
            assert_eq!(changed, &vec![1]);
        }
        other => panic!("expected an update, got {other:?}"),
    }
}

#[test]
fn a_filtered_lookup_answers_like_its_filters() {
    let driven = filter(
        PlanNode::IndexScan { table: text("Item"), column: text("id"), key: int_lit(4) },
        compare(field("name"), BinOp::Eq, str_lit("pen")),
    );
    assert_eq!(ints_of(&answered_rows(run(&driven)), 0), vec![4]);
    let none = filter(
        PlanNode::IndexScan { table: text("Item"), column: text("id"), key: int_lit(4) },
        compare(field("name"), BinOp::Eq, str_lit("ink")),
    );
    assert_eq!(answered_rows(run(&none)), Vec::<Vec<Value>>::new());
}

#[test]
fn a_limit_and_an_offset_of_the_same_count_part_the_rows() {
    let all = answered_rows(run(&seq_scan("Item")));
    for count in [0, 1, 3, 9] {
        let first = answered_rows(run(&limit(seq_scan("Item"), count)));
        let rest = answered_rows(run(&PlanNode::Offset {
            input: Box::new(seq_scan("Item")),
            count: int_lit(count),
        }));
        assert_eq!(first.len(), (count as usize).min(all.len()));
        assert_eq!([first, rest].concat(), all);
    }
}

#[test]
fn a_delete_removes_the_same_rows_whether_or_not_it_returns_them() {
    let delete = |returning: bool| PlanNode::Delete {
        input: Box::new(filter(seq_scan("Item"), compare(field("qty"), BinOp::Eq, int_lit(3)))),
        table: text("Item"),
        returning,
    };
    let (ops, reply) = written(run(&delete(true)));
    let (silent_ops, silent) = written(run(&delete(false)));
    assert_eq!(ops, silent_ops);
    assert_eq!(ops[0], StorageOp::Delete { table: text("Item"), rids: vec![rid(1), rid(3)] });
    assert_eq!(silent, Reply::Deleted);
    match reply {
        Reply::Fixed { result: QueryResult::Rows { rows, .. } } => {
            assert_eq!(ints_of(&rows, 0), vec![2, 4]);
        }
        other => panic!("expected rows, got {other:?}"),
    }
}

#[test]
fn an_index_on_a_datetime_column_finds_the_integers_that_it_stores() {
    let events = table(
        "Event",
        &[("id", TypeId::Int, true), ("at", TypeId::DateTime, false)],
        vec![
            vec![Value::Int(1), Value::Int(5)],
            vec![Value::Int(2), Value::DateTime(5)],
            vec![Value::Int(3), Value::Int(7)],
        ],
    );
    let catalog = Catalog { tables: vec![with_index(events, "at", false)], links: vec![] };
    let engine = engine_with(catalog, wide_limits(), 1_000_000);
    let lookup = |key: Expr| PlanNode::IndexScan { table: text("Event"), column: text("at"), key };
    let found = |key: Expr| ints_of(&answered_rows(engine.execute_plan(&lookup(key))), 0);
    assert_eq!(found(int_lit(5)), vec![1]);
    assert_eq!(found(int_lit(7)), vec![3]);
    assert_eq!(found(Expr::ValueLit(Value::DateTime(5))), vec![2]);
}

fn refuse_limits(_catalog: &Catalog, plan: &PlanNode) -> Result<(), QueryError> {
    match plan {
        PlanNode::Limit { .. } => Err(execution("a limit is refused")),
        PlanNode::IndexScan { .. } => Err(execution("a lookup is refused")),
        PlanNode::Delete { .. } => Err(execution("a delete is refused")),
        _ => Ok(()),
    }
}

fn checked_run(plan: &PlanNode) -> Result<Decision, QueryError> {
    let engine = engine_with(shop(), wide_limits(), 1_000_000);
    let engine = Engine {
        catalog: engine.catalog,
        views: engine.views,
        in_transaction: engine.in_transaction,
        session: engine.session,
        coercion: engine.coercion,
        types: engine.types,
        parser: engine.parser,
        check: PlanCheck::new(refuse_limits),
        memory_limit: engine.memory_limit,
    };
    engine.execute_plan(plan)
}

#[test]
fn a_plan_that_the_check_refuses_is_neither_answered_nor_written() {
    assert_eq!(checked_run(&limit(seq_scan("Item"), 1)), Err(execution("a limit is refused")));
    assert_eq!(answered_rows(checked_run(&seq_scan("Item"))).len(), 4);
    let delete = PlanNode::Delete {
        input: Box::new(seq_scan("Item")),
        table: text("Item"),
        returning: false,
    };
    assert_eq!(checked_run(&delete), Err(execution("a delete is refused")));
    // The plan that is checked is the one that is run.
    let lookup = |column: &str| PlanNode::IndexScan {
        table: text("Item"),
        column: text(column),
        key: int_lit(3),
    };
    assert_eq!(checked_run(&lookup("id")), Err(execution("a lookup is refused")));
    assert_eq!(ints_of(&answered_rows(checked_run(&lookup("qty"))), 0), vec![2, 4]);
}

fn run_over_stale(plan: &PlanNode) -> Result<Decision, QueryError> {
    let mut engine = engine_with(viewed_shop(), wide_limits(), 1_000_000);
    engine.views = vec![view("Cheap", "Item", true)];
    engine.execute_plan(plan)
}

fn refresh_of_cheap() -> Result<Decision, QueryError> {
    Ok(Decision::Refresh { view: text("Cheap") })
}

#[test]
fn an_update_is_refused_before_a_view_is_refreshed_for_it() {
    let update = |name: &str, value: Expr| PlanNode::Update {
        input: Box::new(project(seq_scan("Cheap"), &["id"])),
        table: text("Item"),
        assignments: vec![assign(name, value)],
        returning: false,
    };
    assert_eq!(
        run_over_stale(&update("nope", int_lit(1))),
        Err(QueryError::ColumnNotFound { table: text(""), column: text("nope") })
    );
    assert!(matches!(
        run_over_stale(&update("qty", str_lit("many"))),
        Err(QueryError::TypeError(_))
    ));
    assert_eq!(run_over_stale(&update("qty", int_lit(1))), refresh_of_cheap());
}

#[test]
fn a_delete_that_returns_rows_needs_its_table_before_a_view_is_refreshed() {
    let delete = |table: &str, returning: bool| PlanNode::Delete {
        input: Box::new(project(seq_scan("Cheap"), &["id"])),
        table: text(table),
        returning,
    };
    assert_eq!(
        run_over_stale(&delete("Nothing", true)),
        Err(QueryError::TableNotFound(text("Nothing")))
    );
    assert_eq!(run_over_stale(&delete("Nothing", false)), refresh_of_cheap());
    assert_eq!(run_over_stale(&delete("Item", true)), refresh_of_cheap());
}

#[test]
fn a_link_that_leads_nowhere_comes_before_a_refresh() {
    let nesting = |fields: Vec<NestedProjectField>| PlanNode::NestedProject {
        input: Box::new(seq_scan("Cheap")),
        fields,
    };
    let linked = nesting(vec![NestedProjectField::Link(Box::new(ScalarLinkField {
        name: text("item_name"),
        outer_alias: text("Cheap"),
        links: vec![text("item")],
        column: text("name"),
        resolved: None,
    }))]);
    assert!(matches!(
        run_over_stale(&linked),
        Err(QueryError::Execution(_)) | Err(QueryError::TypeError(_))
    ));
    assert!(run_over_stale(&limit(linked, 1)).is_err());
    let plain = nesting(vec![NestedProjectField::Plain(bare("id"))]);
    assert_eq!(run_over_stale(&plain), refresh_of_cheap());
}

#[test]
fn an_error_of_the_left_side_comes_before_a_refresh_for_the_right() {
    let missing = Err(QueryError::TableNotFound(text("Nothing")));
    assert_eq!(
        run_over_stale(&union_of(seq_scan("Nothing"), seq_scan("Cheap"))),
        missing
    );
    assert_eq!(
        run_over_stale(&union_of(seq_scan("Cheap"), seq_scan("Nothing"))),
        refresh_of_cheap()
    );
    assert_eq!(
        run_over_stale(&union_of(seq_scan("Item"), seq_scan("Cheap"))),
        refresh_of_cheap()
    );
}

#[test]
fn a_delete_by_an_index_misses_no_row() {
    let mut catalog = shop();
    let item = catalog.tables.remove(0);
    catalog.tables.insert(0, with_index(item, "qty", false));
    let engine = engine_with(catalog, wide_limits(), 1_000_000);
    let rids = |input: PlanNode| {
        let plan = PlanNode::Delete {
            input: Box::new(input),
            table: text("Item"),
            returning: false,
        };
        match written(engine.execute_plan(&plan)).0.swap_remove(0) {
            StorageOp::Delete { rids, .. } => rids,
            other => panic!("expected a delete, got {other:?}"),
        }
    };
    let lookup = PlanNode::IndexScan {
        table: text("Item"),
        column: text("qty"),
        key: int_lit(3),
    };
    assert_eq!(rids(lookup), vec![rid(1), rid(3)]);
    let range = PlanNode::RangeScan {
        table: text("Item"),
        column: text("qty"),
        start: Some((int_lit(3), false)),
        end: None,
    };
    assert_eq!(rids(range), vec![rid(0)]);
}

#[test]
fn a_grouped_sum_is_the_sum_over_the_rows_of_the_group() {
    let grouped = PlanNode::GroupBy {
        input: Box::new(seq_scan("Item")),
        keys: vec![GroupKey { expr: field("name"), output_name: text("name") }],
        aggregates: vec![GroupAgg {
            function: AggFunc::Sum,
            argument: field("qty"),
            mode: AggregateMode::Raw,
            provenance_alias: None,
            output_name: text("total"),
        }],
        having: None,
    };
    let rows = answered_rows(run(&grouped));
    assert_eq!(rows.len(), 3);
    for row in rows {
        let name = match &row[0] {
            Value::Str(name) => name.clone(),
            other => panic!("expected a name, got {other:?}"),
        };
        let of_name = compare(field("name"), BinOp::Eq, str_lit(&name));
        let scalar = run(&aggregate(filter(seq_scan("Item"), of_name), AggFunc::Sum, "qty"));
        assert_eq!(answer(scalar), QueryResult::Scalar(row[1].clone()));
    }
}
