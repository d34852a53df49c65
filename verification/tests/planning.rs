//! How plans are made ready: literals coerced, lookups lowered, mistakes found.

use powdb_query::aggregate::RowId;
use powdb_query::catalog::{
    Catalog, ColumnDef, ColumnIndex, IndexEntry, IndexStats, Schema, StoredRow, Table,
};
use powdb_query::coerce::{
    coerce_literal, coerce_typed_literals, is_string_spelled, is_typed_comparison, Coercion,
};
use powdb_query::define::TypeNames;
use powdb_query::engine::Engine;
use powdb_query::error::QueryError;
use powdb_query::explain::format_plan_tree;
use powdb_query::expr::{AggFunc, AggregateMode, BinOp, Expr, Literal, PathSeg, UnaryOp};
use powdb_query::lower::{
    estimate_eq_rows, expression_index_fallback, extract_single_bound, lower_unindexed_scans,
    try_extract_eq_index_key,
};
use powdb_query::mentions::{contains_subquery, expr_mentions};
use powdb_query::nested::Documents;
use powdb_query::plan::{PlanNode, ProjectField, StoredJsonPath};
use powdb_query::scalars::{FloatOp, Order, Scalars};
use powdb_query::scope::validate_json_path_types;
use powdb_query::session::{Compiler, Holding, Limits, Session, Sizes, Subqueries};
use powdb_query::validate::{validate_no_stray_aggregates, PlanCheck};
use powdb_query::value::{TypeId, Value};
use powdb_query::views::{Parser, Statement};
use powdb_query::wording::{Subject, Wording};

fn bits(x: f64) -> u64 {
    x.to_bits()
}

fn text(s: &str) -> String {
    s.to_string()
}

fn field(name: &str) -> Expr {
    Expr::Field(name.to_string())
}

fn number(value: &Value) -> Option<f64> {
    match value {
        Value::Int(i) => Some(*i as f64),
        Value::Float(b) => Some(f64::from_bits(*b)),
        _ => None,
    }
}

fn literal_value(literal: &Literal) -> Value {
    match literal {
        Literal::Int(i) => Value::Int(*i),
        Literal::Float(b) => Value::Float(*b),
        Literal::Bool(b) => Value::Bool(*b),
        Literal::String(s) => Value::Str(s.clone()),
    }
}

fn read(name: &str, row: &[Value], columns: &[String]) -> Value {
    match columns.iter().position(|column| column == name) {
        Some(at) => match row.get(at) {
            Some(value) => value.clone(),
            None => Value::Empty,
        },
        None => Value::Empty,
    }
}

fn binary(left: &Value, op: BinOp, right: &Value) -> Value {
    let both = match (left, right) {
        (Value::Bool(a), Value::Bool(b)) => Some((*a, *b)),
        _ => None,
    };
    match (op, both) {
        (BinOp::And, Some((a, b))) => return Value::Bool(a && b),
        (BinOp::Or, Some((a, b))) => return Value::Bool(a || b),
        _ => {}
    }
    if matches!(left, Value::Empty) || matches!(right, Value::Empty) {
        return Value::Empty;
    }
    let standing = order(left, right);
    match op {
        BinOp::Eq => Value::Bool(standing == Order::Equal),
        BinOp::Neq => Value::Bool(standing != Order::Equal),
        BinOp::Lt => Value::Bool(standing == Order::Less),
        BinOp::Gt => Value::Bool(standing == Order::Greater),
        BinOp::Lte => Value::Bool(standing != Order::Greater),
        BinOp::Gte => Value::Bool(standing != Order::Less),
        BinOp::Add => match (left, right) {
            (Value::Int(a), Value::Int(b)) => Value::Int(a.wrapping_add(*b)),
            _ => Value::Empty,
        },
        BinOp::Mul => match (left, right) {
            (Value::Int(a), Value::Int(b)) => Value::Int(a.wrapping_mul(*b)),
            _ => Value::Empty,
        },
        _ => Value::Empty,
    }
}

fn eval(expr: &Expr, row: &Vec<Value>, columns: &Vec<String>) -> Value {
    match expr {
        Expr::Field(name) => read(name, row, columns),
        Expr::QualifiedField { qualifier, field } => {
            read(&format!("{}.{}", qualifier, field), row, columns)
        }
        Expr::Literal(literal) => literal_value(literal),
        Expr::ValueLit(value) => value.clone(),
        Expr::BinaryOp(left, op, right) => {
            binary(&eval(left, row, columns), *op, &eval(right, row, columns))
        }
        Expr::UnaryOp(UnaryOp::Not, inner) => match eval(inner, row, columns) {
            Value::Bool(b) => Value::Bool(!b),
            _ => Value::Empty,
        },
        Expr::UnaryOp(UnaryOp::IsNull, inner) => {
            Value::Bool(matches!(eval(inner, row, columns), Value::Empty))
        }
        Expr::InList { expr, list, negated } => {
            let needle = eval(expr, row, columns);
            let found = list
                .iter()
                .any(|item| order(&eval(item, row, columns), &needle) == Order::Equal);
            Value::Bool(found != *negated)
        }
        Expr::JsonPath { base, .. } => match eval(base, row, columns) {
            Value::Json(bytes) => String::from_utf8(bytes)
                .ok()
                .and_then(|s| s.parse().ok())
                .map(Value::Int)
                .unwrap_or(Value::Empty),
            _ => Value::Empty,
        },
        _ => Value::Empty,
    }
}

fn rank(value: &Value) -> u8 {
    match value {
        Value::Int(_) | Value::Float(_) => 0,
        Value::Bool(_) => 1,
        Value::Str(_) => 2,
        Value::DateTime(_) => 3,
        Value::Uuid(_) => 4,
        Value::Bytes(_) => 5,
        Value::Json(_) => 6,
        Value::Empty => 7,
    }
}

fn placed<T: PartialOrd>(a: T, b: T) -> Order {
    if a < b {
        Order::Less
    } else if b < a {
        Order::Greater
    } else {
        Order::Equal
    }
}

fn order(left: &Value, right: &Value) -> Order {
    match (left, right) {
        (Value::Int(a), Value::Int(b)) => placed(a, b),
        (Value::Str(a), Value::Str(b)) => placed(a, b),
        (Value::Bool(a), Value::Bool(b)) => placed(a, b),
        (Value::DateTime(a), Value::DateTime(b)) => placed(a, b),
        (Value::Uuid(a), Value::Uuid(b)) => placed(a, b),
        (Value::Bytes(a), Value::Bytes(b)) => placed(a, b),
        (Value::Json(a), Value::Json(b)) => placed(a, b),
        _ => match (number(left), number(right)) {
            (Some(a), Some(b)) => placed(a, b),
            _ => placed(rank(left), rank(right)),
        },
    }
}

fn float(op: FloatOp) -> u64 {
    match op {
        FloatOp::FromInt(i) => (i as f64).to_bits(),
        FloatOp::Sum(a, b) => (f64::from_bits(a) + f64::from_bits(b)).to_bits(),
        FloatOp::Quotient(a, n) => (f64::from_bits(a) / (n as f64)).to_bits(),
    }
}

fn scalars() -> Scalars<
    impl Fn(&Expr, &Vec<Value>, &Vec<String>) -> Value,
    impl Fn(&Value, &Value) -> Order,
    impl Fn(FloatOp) -> u64,
> {
    Scalars::new(eval, order, float)
}

fn int_lit(n: i64) -> Expr {
    Expr::Literal(Literal::Int(n))
}

fn str_lit(s: &str) -> Expr {
    Expr::Literal(Literal::String(s.to_string()))
}

fn compare(left: Expr, op: BinOp, right: Expr) -> Expr {
    Expr::BinaryOp(Box::new(left), op, Box::new(right))
}

fn column(name: &str, type_id: TypeId, required: bool, position: u16) -> ColumnDef {
    ColumnDef { name: text(name), type_id, required, position }
}

fn schema(name: &str, columns: &[(&str, TypeId, bool)]) -> Schema {
    Schema {
        table_name: text(name),
        columns: columns
            .iter()
            .enumerate()
            .map(|(i, (n, t, r))| column(n, *t, *r, i as u16))
            .collect(),
    }
}

fn rid(slot: u16) -> RowId {
    RowId { page_id: 1, slot_index: slot }
}

fn table(name: &str, columns: &[(&str, TypeId, bool)], rows: Vec<Vec<Value>>) -> Table {
    let n = columns.len();
    Table {
        schema: schema(name, columns),
        rows: rows
            .into_iter()
            .enumerate()
            .map(|(i, values)| StoredRow { rid: rid(i as u16), values })
            .collect(),
        indexes: vec![],
        expression_indexes: vec![],
        defaults: vec![None; n],
        auto_columns: vec![false; n],
    }
}

fn sorted_entries(mut entries: Vec<IndexEntry>) -> Vec<IndexEntry> {
    entries.sort_by(|a, b| match order(&a.key, &b.key) {
        Order::Less => std::cmp::Ordering::Less,
        Order::Equal => std::cmp::Ordering::Equal,
        Order::Greater => std::cmp::Ordering::Greater,
    });
    entries
}

fn with_index(mut table: Table, name: &str, unique: bool) -> Table {
    let at = table.schema.columns.iter().position(|c| c.name == name).unwrap();
    let entries = sorted_entries(
        table
            .rows
            .iter()
            .filter(|row| !matches!(row.values[at], Value::Empty))
            .map(|row| IndexEntry { key: row.values[at].clone(), rid: row.rid })
            .collect(),
    );
    let mut distinct: u64 = 0;
    for (i, entry) in entries.iter().enumerate() {
        if i == 0 || entries[i - 1].key != entry.key {
            distinct += 1;
        }
    }
    let stats = IndexStats {
        total_entries: entries.len() as u64,
        distinct_keys: distinct,
        empty_count: 0,
    };
    table.indexes.push(ColumnIndex {
        column: text(name),
        unique,
        entries,
        stats: Some(stats),
    });
    table
}

fn seq_scan(table: &str) -> PlanNode {
    PlanNode::SeqScan { table: text(table) }
}

fn filter(input: PlanNode, predicate: Expr) -> PlanNode {
    PlanNode::Filter { input: Box::new(input), predicate }
}

fn limit(input: PlanNode, count: i64) -> PlanNode {
    PlanNode::Limit { input: Box::new(input), count: int_lit(count) }
}

fn word(subject: Subject) -> Option<String> {
    match subject {
        Subject::Expr(Expr::Field(name)) => Some(format!(".{}", name)),
        Subject::Expr(expr) => Some(format!("{:?}", expr)),
        Subject::Name(Expr::Field(name)) => Some(name.clone()),
        Subject::Name(_) => Some(text("?")),
        Subject::Path(path) => Some(format!("{}->{}", path.column, path.segments.len())),
        Subject::Action(_) => Some(text("change")),
        Subject::Number(bits) => Some(format!("{}", f64::from_bits(bits))),
        Subject::Document(bytes) => String::from_utf8(bytes.clone()).ok(),
        Subject::Plain(value) => Some(format!("{:?}", value)),
        Subject::Value(value) => Some(format!("{:?}", value)),
    }
}

fn document(source: &String) -> Result<Vec<u8>, String> {
    Ok(source.as_bytes().to_vec())
}

fn no_subqueries(
    expr: &Expr,
    _outer: Option<(&Vec<Value>, &Vec<String>)>,
) -> Result<Expr, QueryError> {
    Ok(expr.clone())
}

fn size(held: Holding) -> usize {
    match held {
        Holding::Rows(rows) => rows.iter().map(|row| 10 * row.len()).sum(),
        Holding::Provenance(input) => input.provenance.len(),
    }
}

fn compilable(predicate: Option<&Expr>, _table: &Table) -> bool {
    match predicate {
        None => true,
        Some(Expr::BinaryOp(_, _, right)) => matches!(**right, Expr::Literal(_)),
        Some(_) => false,
    }
}

fn go_on() -> Result<(), QueryError> {
    Ok(())
}

fn coerce(value: &Value, column: &ColumnDef) -> Result<Value, String> {
    match (value, column.type_id) {
        (Value::Empty, _) => Ok(Value::Empty),
        (Value::Int(n), TypeId::Float) => Ok(Value::Float((*n as f64).to_bits())),
        (Value::Str(s), TypeId::Bytes) => Ok(Value::Bytes(s.as_bytes().to_vec())),
        (Value::Str(s), TypeId::Uuid) if s.len() == 16 => {
            let mut bytes = [0u8; 16];
            bytes.copy_from_slice(s.as_bytes());
            Ok(Value::Uuid(bytes))
        }
        (Value::Int(n), TypeId::DateTime) => Ok(Value::DateTime(*n)),
        _ if value.type_id() == column.type_id => Ok(value.clone()),
        _ => Err(format!("column '{}' takes another type", column.name)),
    }
}

fn type_of(declared: &String) -> Result<TypeId, String> {
    match declared.as_str() {
        "int" => Ok(TypeId::Int),
        "float" => Ok(TypeId::Float),
        "str" => Ok(TypeId::Str),
        "json" => Ok(TypeId::Json),
        _ => Err(format!("unknown type {}", declared)),
    }
}

fn parse(source: &String) -> Result<Statement, String> {
    match source.split_once(" union ") {
        Some((left, right)) => Ok(Statement::Union {
            left: Box::new(parse(&left.to_string())?),
            right: Box::new(parse(&right.to_string())?),
        }),
        None if source.is_empty() => Err(text("nothing to read")),
        None => Ok(Statement::Query { source: source.clone(), joins: vec![] }),
    }
}

fn no_check(_catalog: &Catalog, _plan: &PlanNode) -> Result<(), QueryError> {
    Ok(())
}

fn wide_limits() -> Limits {
    Limits { sort_rows: 1000, join_pairs: 1000, join_rows: 1000 }
}

fn engine_with(
    catalog: Catalog,
    limits: Limits,
    memory_limit: usize,
) -> Engine<
    impl Fn(&Expr, &Vec<Value>, &Vec<String>) -> Value,
    impl Fn(&Value, &Value) -> Order,
    impl Fn(FloatOp) -> u64,
    impl Fn(Subject) -> Option<String>,
    impl Fn(&String) -> Result<Vec<u8>, String>,
    impl Fn(&Expr, Option<(&Vec<Value>, &Vec<String>)>) -> Result<Expr, QueryError>,
    impl Fn(Holding) -> usize,
    impl Fn(Option<&Expr>, &Table) -> bool,
    impl Fn() -> Result<(), QueryError>,
    impl Fn(&Value, &ColumnDef) -> Result<Value, String>,
    impl Fn(&String) -> Result<TypeId, String>,
    impl Fn(&String) -> Result<Statement, String>,
    impl Fn(&Catalog, &PlanNode) -> Result<(), QueryError>,
> {
    Engine {
        catalog,
        views: vec![],
        in_transaction: false,
        session: Session {
            scalars: Scalars::new(eval, order, float),
            wording: Wording::new(word),
            documents: Documents::new(document),
            subqueries: Subqueries::new(no_subqueries),
            sizes: Sizes::new(size),
            compiler: Compiler::new(compilable),
            poll: go_on,
            limits,
        },
        coercion: Coercion::new(coerce),
        types: TypeNames::new(type_of),
        parser: Parser::new(parse),
        check: PlanCheck::new(no_check),
        memory_limit,
    }
}

fn execution(message: &str) -> QueryError {
    QueryError::Execution(message.to_string())
}

fn events() -> Catalog {
    let event = table(
        "Event",
        &[
            ("id", TypeId::Int, true),
            ("token", TypeId::Uuid, false),
            ("raw", TypeId::Bytes, false),
            ("at", TypeId::DateTime, false),
            ("price", TypeId::Float, false),
            ("doc", TypeId::Json, false),
        ],
        (0..20)
            .map(|n| {
                vec![
                    Value::Int(n),
                    Value::Empty,
                    Value::Empty,
                    Value::Empty,
                    Value::Float(bits(n as f64)),
                    Value::Empty,
                ]
            })
            .collect(),
    );
    Catalog { tables: vec![with_index(with_index(event, "id", true), "price", false)], links: vec![] }
}

fn coerced(plan: &PlanNode) -> Result<PlanNode, QueryError> {
    coerce_typed_literals(&events(), &Coercion::new(coerce), plan)
}

fn lowered(catalog: &Catalog, plan: &PlanNode) -> PlanNode {
    lower_unindexed_scans(catalog, &scalars(), plan)
}

fn uuid_lit() -> Expr {
    let mut bytes = [0u8; 16];
    bytes.copy_from_slice(b"0123456789abcdef");
    Expr::ValueLit(Value::Uuid(bytes))
}

#[test]
fn three_types_are_spelled_as_strings() {
    for t in [TypeId::DateTime, TypeId::Uuid, TypeId::Bytes] {
        assert!(is_string_spelled(t));
    }
    for t in [TypeId::Int, TypeId::Float, TypeId::Bool, TypeId::Str, TypeId::Json] {
        assert!(!is_string_spelled(t));
    }
}

#[test]
fn a_pattern_is_no_typed_comparison() {
    assert!(is_typed_comparison(BinOp::Eq));
    assert!(is_typed_comparison(BinOp::Gte));
    assert!(!is_typed_comparison(BinOp::Like));
    assert!(!is_typed_comparison(BinOp::And));
}

#[test]
fn a_string_against_a_uuid_becomes_a_uuid() {
    let plan = filter(
        seq_scan("Event"),
        compare(field("token"), BinOp::Eq, str_lit("0123456789abcdef")),
    );
    assert_eq!(
        coerced(&plan),
        Ok(filter(seq_scan("Event"), compare(field("token"), BinOp::Eq, uuid_lit())))
    );
    let turned = filter(
        seq_scan("Event"),
        compare(str_lit("0123456789abcdef"), BinOp::Neq, field("token")),
    );
    assert_eq!(
        coerced(&turned),
        Ok(filter(seq_scan("Event"), compare(uuid_lit(), BinOp::Neq, field("token"))))
    );
}

#[test]
fn a_string_that_is_no_uuid_is_an_error() {
    let plan = filter(seq_scan("Event"), compare(field("token"), BinOp::Eq, str_lit("short")));
    assert_eq!(
        coerced(&plan),
        Err(execution("column 'token' takes another type"))
    );
}

#[test]
fn an_integer_against_a_datetime_stays_an_integer() {
    assert_eq!(
        coerce_literal(&Coercion::new(coerce), &text("at"), TypeId::DateTime, &Literal::Int(5)),
        Ok(int_lit(5))
    );
    let plan = filter(seq_scan("Event"), compare(field("at"), BinOp::Gt, int_lit(5)));
    assert_eq!(coerced(&plan).unwrap(), plan);
}

#[test]
fn every_item_of_a_list_is_coerced() {
    let plan = filter(
        seq_scan("Event"),
        Expr::InList {
            expr: Box::new(field("raw")),
            list: vec![str_lit("a"), str_lit("b")],
            negated: false,
        },
    );
    let bytes = |s: &str| Expr::ValueLit(Value::Bytes(s.as_bytes().to_vec()));
    assert_eq!(
        coerced(&plan),
        Ok(filter(
            seq_scan("Event"),
            Expr::InList {
                expr: Box::new(field("raw")),
                list: vec![bytes("a"), bytes("b")],
                negated: false,
            },
        ))
    );
}

#[test]
fn a_renamed_column_is_left_alone() {
    let plan = filter(
        PlanNode::Project {
            input: Box::new(seq_scan("Event")),
            fields: vec![ProjectField { alias: Some(text("token")), expr: field("id") }],
        },
        compare(field("token"), BinOp::Eq, str_lit("anything")),
    );
    assert_eq!(coerced(&plan).unwrap(), plan);
}

#[test]
fn coercion_is_idempotent() {
    let plan = filter(
        PlanNode::IndexScan {
            table: text("Event"),
            column: text("token"),
            key: str_lit("0123456789abcdef"),
        },
        compare(field("raw"), BinOp::Eq, str_lit("x")),
    );
    let once = coerced(&plan).unwrap();
    assert!(once != plan);
    assert_eq!(coerced(&once).unwrap(), once);
}

#[test]
fn a_lookup_without_its_index_becomes_a_filter() {
    let plan = PlanNode::IndexScan { table: text("Event"), column: text("at"), key: int_lit(4) };
    assert_eq!(
        lowered(&events(), &plan),
        filter(seq_scan("Event"), compare(field("at"), BinOp::Eq, int_lit(4)))
    );
    let kept = PlanNode::IndexScan { table: text("Event"), column: text("id"), key: int_lit(4) };
    assert_eq!(lowered(&events(), &kept), kept);
}

#[test]
fn a_range_without_its_index_becomes_its_bounds() {
    let plan = PlanNode::RangeScan {
        table: text("Event"),
        column: text("at"),
        start: Some((int_lit(1), true)),
        end: Some((int_lit(9), false)),
    };
    assert_eq!(
        lowered(&events(), &plan),
        filter(
            seq_scan("Event"),
            compare(
                compare(field("at"), BinOp::Gte, int_lit(1)),
                BinOp::And,
                compare(field("at"), BinOp::Lt, int_lit(9)),
            ),
        )
    );
}

#[test]
fn a_conjunction_is_driven_by_its_best_index() {
    let plan = filter(
        seq_scan("Event"),
        compare(
            compare(field("price"), BinOp::Gt, int_lit(3)),
            BinOp::And,
            compare(int_lit(7), BinOp::Eq, field("id")),
        ),
    );
    assert_eq!(
        lowered(&events(), &plan),
        filter(
            PlanNode::IndexScan { table: text("Event"), column: text("id"), key: int_lit(7) },
            compare(field("price"), BinOp::Gt, int_lit(3)),
        )
    );
}

#[test]
fn an_integer_bound_of_a_float_index_becomes_a_float() {
    let plan = filter(
        seq_scan("Event"),
        compare(
            compare(field("price"), BinOp::Gt, int_lit(3)),
            BinOp::And,
            compare(field("at"), BinOp::Eq, int_lit(7)),
        ),
    );
    assert_eq!(
        lowered(&events(), &plan),
        filter(
            PlanNode::RangeScan {
                table: text("Event"),
                column: text("price"),
                start: Some((Expr::Literal(Literal::Float(bits(3.0))), false)),
                end: None,
            },
            compare(field("at"), BinOp::Eq, int_lit(7)),
        )
    );
}

#[test]
fn lowering_is_idempotent() {
    let plan = PlanNode::Union {
        left: Box::new(PlanNode::RangeScan {
            table: text("Event"),
            column: text("at"),
            start: Some((int_lit(1), true)),
            end: None,
        }),
        right: Box::new(filter(
            seq_scan("Event"),
            compare(
                compare(field("id"), BinOp::Eq, int_lit(1)),
                BinOp::And,
                compare(field("at"), BinOp::Eq, int_lit(7)),
            ),
        )),
        all: true,
    };
    let once = lowered(&events(), &plan);
    assert!(once != plan);
    assert_eq!(lowered(&events(), &once), once);
}

fn doc_path() -> StoredJsonPath {
    StoredJsonPath { column: text("doc"), segments: vec![PathSeg::Key(text("a"))] }
}

#[test]
fn a_path_lookup_without_its_index_becomes_a_filter() {
    let plan =
        PlanNode::ExprIndexScan { table: text("Event"), path: doc_path(), key: int_lit(1) };
    let path = Expr::JsonPath {
        base: Box::new(field("doc")),
        segments: vec![PathSeg::Key(text("a"))],
    };
    let expected = filter(seq_scan("Event"), compare(path, BinOp::Eq, int_lit(1)));
    assert_eq!(expression_index_fallback(&plan).unwrap(), expected);
    assert_eq!(lowered(&events(), &plan), expected);
    assert!(expression_index_fallback(&seq_scan("Event")).is_none());
}

#[test]
fn only_a_comparison_with_a_literal_is_looked_up() {
    let name = text("Event");
    assert_eq!(
        try_extract_eq_index_key(&name, &compare(field("id"), BinOp::Eq, int_lit(1))),
        Some(PlanNode::IndexScan { table: name.clone(), column: text("id"), key: int_lit(1) })
    );
    assert!(try_extract_eq_index_key(&name, &compare(field("id"), BinOp::Eq, field("at"))).is_none());
    assert!(extract_single_bound(&compare(field("id"), BinOp::Eq, int_lit(1))).is_none());
    let bound = extract_single_bound(&compare(int_lit(1), BinOp::Lte, field("id"))).unwrap();
    assert!(bound.lower && bound.inclusive);
    assert_eq!(bound.key, int_lit(1));
}

#[test]
fn an_equality_is_expected_to_find_an_average_bucket() {
    let stats = IndexStats { total_entries: 100, distinct_keys: 10, empty_count: 0 };
    assert_eq!(estimate_eq_rows(&stats, false), 10);
}

#[test]
fn a_stray_aggregate_is_found_anywhere() {
    let stray = Expr::FunctionCall(AggFunc::Count, Box::new(field("id")), AggregateMode::Raw);
    let plan = limit(filter(seq_scan("Event"), compare(stray, BinOp::Gt, int_lit(0))), 1);
    assert!(validate_no_stray_aggregates(&plan).is_err());
    assert!(validate_no_stray_aggregates(&seq_scan("Event")).is_ok());
}

#[test]
fn a_path_needs_a_document_at_its_base() {
    let path = |base: &str| Expr::JsonPath {
        base: Box::new(field(base)),
        segments: vec![PathSeg::Key(text("a"))],
    };
    let asks = |base: &str| {
        filter(seq_scan("Event"), compare(path(base), BinOp::Eq, int_lit(1)))
    };
    assert!(validate_json_path_types(&events(), &asks("doc")).is_ok());
    assert!(matches!(
        validate_json_path_types(&events(), &asks("id")),
        Err(QueryError::TypeError(_))
    ));
}

#[test]
fn mentions_are_found() {
    let expr = compare(field("id"), BinOp::Gt, int_lit(1));
    assert!(expr_mentions(&expr, &text("id")));
    assert!(!expr_mentions(&expr, &text("at")));
    assert!(!contains_subquery(&expr));
    assert!(contains_subquery(&Expr::ExistsSubquery {
        subquery: text("Event"),
        negated: false,
    }));
}

#[test]
fn a_plan_is_told_as_a_tree() {
    let plan = limit(filter(seq_scan("Event"), compare(field("id"), BinOp::Gt, int_lit(1))), 5);
    let told = format_plan_tree(&events(), &Wording::new(word), &plan, 0);
    let lines: Vec<&str> = told.lines().collect();
    assert_eq!(lines.len(), 3);
    assert!(lines[0].starts_with("Limit"));
    assert!(lines[1].trim_start().starts_with("Filter"));
    assert!(lines[2].trim_start().starts_with("SeqScan"));
    assert!(lines[2].contains("Event"));
}

#[test]
fn a_literal_over_a_missing_path_index_is_coerced_at_once() {
    let engine = engine_with(events(), wide_limits(), 1_000_000);
    let over = |scan: PlanNode, literal: &str| {
        filter(scan, compare(field("token"), BinOp::Eq, str_lit(literal)))
    };
    let scans = || {
        vec![
            PlanNode::ExprIndexScan { table: text("Event"), path: doc_path(), key: int_lit(1) },
            PlanNode::ExprRangeScan {
                table: text("Event"),
                path: doc_path(),
                start: Some((int_lit(1), true)),
                end: None,
            },
            PlanNode::OrderedExprIndexScan {
                table: text("Event"),
                path: doc_path(),
                descending: false,
                limit: int_lit(2),
                offset: None,
            },
        ]
    };
    for scan in scans() {
        let once = engine.lower(&over(scan, "0123456789abcdef")).unwrap();
        match &once {
            PlanNode::Filter { predicate, .. } => {
                assert_eq!(*predicate, compare(field("token"), BinOp::Eq, uuid_lit()));
            }
            other => panic!("expected a filter, got {other:?}"),
        }
        assert_eq!(engine.lower(&once).unwrap(), once);
        assert_eq!(engine.execute_plan(&once), engine.execute_plan(&once));
    }
    for scan in scans() {
        assert_eq!(
            engine.lower(&over(scan, "short")),
            Err(execution("column 'token' takes another type"))
        );
    }
}

#[test]
fn what_stands_in_for_a_lookup_is_made_ready_too() {
    let engine = engine_with(events(), wide_limits(), 1_000_000);
    let inner = compare(field("token"), BinOp::Eq, str_lit("0123456789abcdef"));
    let plan = PlanNode::IndexScan { table: text("Event"), column: text("raw"), key: inner };
    let once = engine.lower(&plan).unwrap();
    assert_eq!(
        once,
        filter(
            seq_scan("Event"),
            compare(
                field("raw"),
                BinOp::Eq,
                compare(field("token"), BinOp::Eq, uuid_lit()),
            ),
        )
    );
    assert_eq!(engine.lower(&once).unwrap(), once);
}

#[test]
fn a_path_over_an_index_needs_a_document_at_its_base_too() {
    let engine = engine_with(events(), wide_limits(), 1_000_000);
    let path = Expr::JsonPath {
        base: Box::new(field("price")),
        segments: vec![PathSeg::Key(text("a"))],
    };
    let plan = filter(
        PlanNode::ExprIndexScan { table: text("Event"), path: doc_path(), key: int_lit(1) },
        compare(path, BinOp::Eq, int_lit(1)),
    );
    assert!(matches!(engine.execute_plan(&plan), Err(QueryError::TypeError(_))));
}

#[test]
fn a_plan_told_one_level_deeper_is_indented_by_two_spaces() {
    let plan = PlanNode::Union {
        left: Box::new(limit(seq_scan("Event"), 5)),
        right: Box::new(seq_scan("Event")),
        all: true,
    };
    let told = |depth: usize| format_plan_tree(&events(), &Wording::new(word), &plan, depth);
    for depth in [0, 1, 2] {
        let deeper: Vec<String> = told(depth).lines().map(|line| format!("  {line}")).collect();
        assert_eq!(told(depth + 1), deeper.join("\n"));
    }
    assert_eq!(told(0).lines().count(), 4);
}
