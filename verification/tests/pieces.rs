//! The parts that plans are run with.

use powdb_query::aggregate::RowId;
use powdb_query::catalog::{
    Catalog, ColumnDef, ColumnIndex, ExpressionIndexMeta, IndexEntry, IndexStats, LinkDef,
    Schema, StoredRow, Table,
};
use powdb_query::coerce::Coercion;
use powdb_query::define::TypeNames;
use powdb_query::engine::Engine;
use powdb_query::error::{Budget, QueryError, QueryResult};
use powdb_query::expr::{AggFunc, BinOp, Expr, Literal, PathSeg, UnaryOp};
use powdb_query::fast::agg_single_col_fast;
use powdb_query::index::{fetch_rows, scan_rows};
use powdb_query::join::{
    check_nested_loop_pair_limit, execute_materialized_join, try_extract_equi_join_keys,
    JoinKind,
};
use powdb_query::json::{push_json_string, push_json_value};
use powdb_query::keys::KeyTable;
use powdb_query::links::{describe_view_list, nested_fields_have_via_link, scan_source_table};
use powdb_query::mentions::predicate_column_indices_json;
use powdb_query::nested::Documents;
use powdb_query::operators::{append_rows, sliced_positions};
use powdb_query::plan::{
    NestedProjectField, PlanNode, ProjectField, ScalarLinkField, StoredJsonPath,
};
use powdb_query::scalars::{FloatOp, Order, Scalars};
use powdb_query::session::{Compiler, Holding, Limits, Session, Sizes, Subqueries};
use powdb_query::sort::{cooperative_stable_sort_by, first_positions, Comparator};
use powdb_query::storage::{Decision, ViewDef};
use powdb_query::text::{push_decimal, push_signed, text_contains, text_ends_with};
use powdb_query::validate::PlanCheck;
use powdb_query::value::{TypeId, Value};
use powdb_query::views::{mark_dependents_dirty, parse_stored_view_source, Parser, Statement};
use powdb_query::wording::{Subject, Wording};

fn bits(x: f64) -> u64 {
    x.to_bits()
}

fn text(s: &str) -> String {
    s.to_string()
}

fn texts(names: &[&str]) -> Vec<String> {
    names.iter().map(|name| name.to_string()).collect()
}

fn str_value(s: &str) -> Value {
    Value::Str(s.to_string())
}

fn field(name: &str) -> Expr {
    Expr::Field(name.to_string())
}

fn number(value: &Value) -> Option<f64> {
    match value {
        Value::Int(i) => Some(*i as f64),
        Value::Float(b) => Some(f64::from_bits(*b)),
        _ => None,
    }
}

fn literal_value(literal: &Literal) -> Value {
    match literal {
        Literal::Int(i) => Value::Int(*i),
        Literal::Float(b) => Value::Float(*b),
        Literal::Bool(b) => Value::Bool(*b),
        Literal::String(s) => Value::Str(s.clone()),
    }
}

fn read(name: &str, row: &[Value], columns: &[String]) -> Value {
    match columns.iter().position(|column| column == name) {
        Some(at) => match row.get(at) {
            Some(value) => value.clone(),
            None => Value::Empty,
        },
        None => Value::Empty,
    }
}

fn binary(left: &Value, op: BinOp, right: &Value) -> Value {
    let both = match (left, right) {
        (Value::Bool(a), Value::Bool(b)) => Some((*a, *b)),
        _ => None,
    };
    match (op, both) {
        (BinOp::And, Some((a, b))) => return Value::Bool(a && b),
        (BinOp::Or, Some((a, b))) => return Value::Bool(a || b),
        _ => {}
    }
    if matches!(left, Value::Empty) || matches!(right, Value::Empty) {
        return Value::Empty;
    }
    let standing = order(left, right);
    match op {
        BinOp::Eq => Value::Bool(standing == Order::Equal),
        BinOp::Neq => Value::Bool(standing != Order::Equal),
        BinOp::Lt => Value::Bool(standing == Order::Less),
        BinOp::Gt => Value::Bool(standing == Order::Greater),
        BinOp::Lte => Value::Bool(standing != Order::Greater),
        BinOp::Gte => Value::Bool(standing != Order::Less),
        BinOp::Add => match (left, right) {
            (Value::Int(a), Value::Int(b)) => Value::Int(a.wrapping_add(*b)),
            _ => Value::Empty,
        },
        BinOp::Mul => match (left, right) {
            (Value::Int(a), Value::Int(b)) => Value::Int(a.wrapping_mul(*b)),
            _ => Value::Empty,
        },
        _ => Value::Empty,
    }
}

fn eval(expr: &Expr, row: &Vec<Value>, columns: &Vec<String>) -> Value {
    match expr {
        Expr::Field(name) => read(name, row, columns),
        Expr::QualifiedField { qualifier, field } => {
            read(&format!("{}.{}", qualifier, field), row, columns)
        }
        Expr::Literal(literal) => literal_value(literal),
        Expr::ValueLit(value) => value.clone(),
        Expr::BinaryOp(left, op, right) => {
            binary(&eval(left, row, columns), *op, &eval(right, row, columns))
        }
        Expr::UnaryOp(UnaryOp::Not, inner) => match eval(inner, row, columns) {
            Value::Bool(b) => Value::Bool(!b),
            _ => Value::Empty,
        },
        Expr::UnaryOp(UnaryOp::IsNull, inner) => {
            Value::Bool(matches!(eval(inner, row, columns), Value::Empty))
        }
        Expr::InList { expr, list, negated } => {
            let needle = eval(expr, row, columns);
            let found = list
                .iter()
                .any(|item| order(&eval(item, row, columns), &needle) == Order::Equal);
            Value::Bool(found != *negated)
        }
        Expr::JsonPath { base, .. } => match eval(base, row, columns) {
            Value::Json(bytes) => String::from_utf8(bytes)
                .ok()
                .and_then(|s| s.parse().ok())
                .map(Value::Int)
                .unwrap_or(Value::Empty),
            _ => Value::Empty,
        },
        _ => Value::Empty,
    }
}

fn rank(value: &Value) -> u8 {
    match value {
        Value::Int(_) | Value::Float(_) => 0,
        Value::Bool(_) => 1,
        Value::Str(_) => 2,
        Value::DateTime(_) => 3,
        Value::Uuid(_) => 4,
        Value::Bytes(_) => 5,
        Value::Json(_) => 6,
        Value::Empty => 7,
    }
}

fn placed<T: PartialOrd>(a: T, b: T) -> Order {
    if a < b {
        Order::Less
    } else if b < a {
        Order::Greater
    } else {
        Order::Equal
    }
}

fn order(left: &Value, right: &Value) -> Order {
    match (left, right) {
        (Value::Int(a), Value::Int(b)) => placed(a, b),
        (Value::Str(a), Value::Str(b)) => placed(a, b),
        (Value::Bool(a), Value::Bool(b)) => placed(a, b),
        (Value::DateTime(a), Value::DateTime(b)) => placed(a, b),
        (Value::Uuid(a), Value::Uuid(b)) => placed(a, b),
        (Value::Bytes(a), Value::Bytes(b)) => placed(a, b),
        (Value::Json(a), Value::Json(b)) => placed(a, b),
        _ => match (number(left), number(right)) {
            (Some(a), Some(b)) => placed(a, b),
            _ => placed(rank(left), rank(right)),
        },
    }
}

fn float(op: FloatOp) -> u64 {
    match op {
        FloatOp::FromInt(i) => (i as f64).to_bits(),
        FloatOp::Sum(a, b) => (f64::from_bits(a) + f64::from_bits(b)).to_bits(),
        FloatOp::Quotient(a, n) => (f64::from_bits(a) / (n as f64)).to_bits(),
    }
}

fn scalars() -> Scalars<
    impl Fn(&Expr, &Vec<Value>, &Vec<String>) -> Value,
    impl Fn(&Value, &Value) -> Order,
    impl Fn(FloatOp) -> u64,
> {
    Scalars::new(eval, order, float)
}

fn int_lit(n: i64) -> Expr {
    Expr::Literal(Literal::Int(n))
}

fn compare(left: Expr, op: BinOp, right: Expr) -> Expr {
    Expr::BinaryOp(Box::new(left), op, Box::new(right))
}

fn column(name: &str, type_id: TypeId, required: bool, position: u16) -> ColumnDef {
    ColumnDef { name: text(name), type_id, required, position }
}

fn schema(name: &str, columns: &[(&str, TypeId, bool)]) -> Schema {
    Schema {
        table_name: text(name),
        columns: columns
            .iter()
            .enumerate()
            .map(|(i, (n, t, r))| column(n, *t, *r, i as u16))
            .collect(),
    }
}

fn rid(slot: u16) -> RowId {
    RowId { page_id: 1, slot_index: slot }
}

fn table(name: &str, columns: &[(&str, TypeId, bool)], rows: Vec<Vec<Value>>) -> Table {
    let n = columns.len();
    Table {
        schema: schema(name, columns),
        rows: rows
            .into_iter()
            .enumerate()
            .map(|(i, values)| StoredRow { rid: rid(i as u16), values })
            .collect(),
        indexes: vec![],
        expression_indexes: vec![],
        defaults: vec![None; n],
        auto_columns: vec![false; n],
    }
}

fn sorted_entries(mut entries: Vec<IndexEntry>) -> Vec<IndexEntry> {
    entries.sort_by(|a, b| match order(&a.key, &b.key) {
        Order::Less => std::cmp::Ordering::Less,
        Order::Equal => std::cmp::Ordering::Equal,
        Order::Greater => std::cmp::Ordering::Greater,
    });
    entries
}

fn with_index(mut table: Table, name: &str, unique: bool) -> Table {
    let at = table.schema.columns.iter().position(|c| c.name == name).unwrap();
    let entries = sorted_entries(
        table
            .rows
            .iter()
            .filter(|row| !matches!(row.values[at], Value::Empty))
            .map(|row| IndexEntry { key: row.values[at].clone(), rid: row.rid })
            .collect(),
    );
    let mut distinct: u64 = 0;
    for (i, entry) in entries.iter().enumerate() {
        if i == 0 || entries[i - 1].key != entry.key {
            distinct += 1;
        }
    }
    let stats = IndexStats {
        total_entries: entries.len() as u64,
        distinct_keys: distinct,
        empty_count: 0,
    };
    table.indexes.push(ColumnIndex {
        column: text(name),
        unique,
        entries,
        stats: Some(stats),
    });
    table
}

fn seq_scan(table: &str) -> PlanNode {
    PlanNode::SeqScan { table: text(table) }
}

fn filter(input: PlanNode, predicate: Expr) -> PlanNode {
    PlanNode::Filter { input: Box::new(input), predicate }
}

fn bare(name: &str) -> ProjectField {
    ProjectField { alias: None, expr: field(name) }
}

fn limit(input: PlanNode, count: i64) -> PlanNode {
    PlanNode::Limit { input: Box::new(input), count: int_lit(count) }
}

fn word(subject: Subject) -> Option<String> {
    match subject {
        Subject::Expr(Expr::Field(name)) => Some(format!(".{}", name)),
        Subject::Expr(expr) => Some(format!("{:?}", expr)),
        Subject::Name(Expr::Field(name)) => Some(name.clone()),
        Subject::Name(_) => Some(text("?")),
        Subject::Path(path) => Some(format!("{}->{}", path.column, path.segments.len())),
        Subject::Action(_) => Some(text("change")),
        Subject::Number(bits) => Some(format!("{}", f64::from_bits(bits))),
        Subject::Document(bytes) => String::from_utf8(bytes.clone()).ok(),
        Subject::Plain(value) => Some(format!("{:?}", value)),
        Subject::Value(value) => Some(format!("{:?}", value)),
    }
}

fn document(source: &String) -> Result<Vec<u8>, String> {
    Ok(source.as_bytes().to_vec())
}

fn no_subqueries(
    expr: &Expr,
    _outer: Option<(&Vec<Value>, &Vec<String>)>,
) -> Result<Expr, QueryError> {
    Ok(expr.clone())
}

fn size(held: Holding) -> usize {
    match held {
        Holding::Rows(rows) => rows.iter().map(|row| 10 * row.len()).sum(),
        Holding::Provenance(input) => input.provenance.len(),
    }
}

fn compilable(predicate: Option<&Expr>, _table: &Table) -> bool {
    match predicate {
        None => true,
        Some(Expr::BinaryOp(_, _, right)) => matches!(**right, Expr::Literal(_)),
        Some(_) => false,
    }
}

fn go_on() -> Result<(), QueryError> {
    Ok(())
}

fn coerce(value: &Value, column: &ColumnDef) -> Result<Value, String> {
    match (value, column.type_id) {
        (Value::Empty, _) => Ok(Value::Empty),
        (Value::Int(n), TypeId::Float) => Ok(Value::Float((*n as f64).to_bits())),
        (Value::Str(s), TypeId::Bytes) => Ok(Value::Bytes(s.as_bytes().to_vec())),
        (Value::Str(s), TypeId::Uuid) if s.len() == 16 => {
            let mut bytes = [0u8; 16];
            bytes.copy_from_slice(s.as_bytes());
            Ok(Value::Uuid(bytes))
        }
        (Value::Int(n), TypeId::DateTime) => Ok(Value::DateTime(*n)),
        _ if value.type_id() == column.type_id => Ok(value.clone()),
        _ => Err(format!("column '{}' takes another type", column.name)),
    }
}

fn type_of(declared: &String) -> Result<TypeId, String> {
    match declared.as_str() {
        "int" => Ok(TypeId::Int),
        "float" => Ok(TypeId::Float),
        "str" => Ok(TypeId::Str),
        "json" => Ok(TypeId::Json),
        _ => Err(format!("unknown type {}", declared)),
    }
}

fn parse(source: &String) -> Result<Statement, String> {
    match source.split_once(" union ") {
        Some((left, right)) => Ok(Statement::Union {
            left: Box::new(parse(&left.to_string())?),
            right: Box::new(parse(&right.to_string())?),
        }),
        None if source.is_empty() => Err(text("nothing to read")),
        None => Ok(Statement::Query { source: source.clone(), joins: vec![] }),
    }
}

fn no_check(_catalog: &Catalog, _plan: &PlanNode) -> Result<(), QueryError> {
    Ok(())
}

fn wide_limits() -> Limits {
    Limits { sort_rows: 1000, join_pairs: 1000, join_rows: 1000 }
}

fn engine_with(
    catalog: Catalog,
    limits: Limits,
    memory_limit: usize,
) -> Engine<
    impl Fn(&Expr, &Vec<Value>, &Vec<String>) -> Value,
    impl Fn(&Value, &Value) -> Order,
    impl Fn(FloatOp) -> u64,
    impl Fn(Subject) -> Option<String>,
    impl Fn(&String) -> Result<Vec<u8>, String>,
    impl Fn(&Expr, Option<(&Vec<Value>, &Vec<String>)>) -> Result<Expr, QueryError>,
    impl Fn(Holding) -> usize,
    impl Fn(Option<&Expr>, &Table) -> bool,
    impl Fn() -> Result<(), QueryError>,
    impl Fn(&Value, &ColumnDef) -> Result<Value, String>,
    impl Fn(&String) -> Result<TypeId, String>,
    impl Fn(&String) -> Result<Statement, String>,
    impl Fn(&Catalog, &PlanNode) -> Result<(), QueryError>,
> {
    Engine {
        catalog,
        views: vec![],
        in_transaction: false,
        session: Session {
            scalars: Scalars::new(eval, order, float),
            wording: Wording::new(word),
            documents: Documents::new(document),
            subqueries: Subqueries::new(no_subqueries),
            sizes: Sizes::new(size),
            compiler: Compiler::new(compilable),
            poll: go_on,
            limits,
        },
        coercion: Coercion::new(coerce),
        types: TypeNames::new(type_of),
        parser: Parser::new(parse),
        check: PlanCheck::new(no_check),
        memory_limit,
    }
}

fn answer(decision: Result<Decision, QueryError>) -> QueryResult {
    match decision {
        Ok(Decision::Answer { result }) => result,
        other => panic!("expected an answer, got {other:?}"),
    }
}

fn answered_rows(decision: Result<Decision, QueryError>) -> Vec<Vec<Value>> {
    match answer(decision) {
        QueryResult::Rows { rows, .. } => rows,
        other => panic!("expected rows, got {other:?}"),
    }
}

fn json_text(s: &str) -> String {
    let mut out = String::new();
    push_json_string(&mut out, s);
    out
}

#[test]
fn json_strings_escape_what_they_must() {
    assert_eq!(json_text("plain"), "\"plain\"");
    assert_eq!(json_text("a\"b\\c"), "\"a\\\"b\\\\c\"");
    assert_eq!(json_text("\n\r\t"), "\"\\n\\r\\t\"");
    assert_eq!(json_text("\u{1}"), "\"\\u0001\"");
}

#[test]
fn json_values_are_worded() {
    let spelled = |value: &Value| {
        let mut out = String::new();
        push_json_value(&mut out, &Wording::new(word), value);
        out
    };
    assert_eq!(spelled(&Value::Empty), "null");
    assert_eq!(spelled(&Value::Int(-5)), "-5");
    assert_eq!(spelled(&Value::Int(i64::MIN)), "-9223372036854775808");
    assert_eq!(spelled(&Value::Bool(true)), "true");
    assert_eq!(spelled(&Value::Float(bits(2.5))), "2.5");
    assert_eq!(spelled(&Value::Float(bits(f64::NAN))), "null");
    assert_eq!(spelled(&Value::Float(bits(f64::INFINITY))), "null");
    assert_eq!(spelled(&str_value("x")), "\"x\"");
    assert_eq!(spelled(&Value::Json(b"{\"a\":1}".to_vec())), "{\"a\":1}");
}

#[test]
fn keys_are_numbered_in_order_of_appearance() {
    let mut keys = KeyTable::new();
    let key = |n: i64, s: &str| vec![Value::Int(n), str_value(s)];
    assert_eq!(keys.find(&key(1, "a")), None);
    assert_eq!(keys.find_or_insert(key(1, "a")), 0);
    assert_eq!(keys.find_or_insert(key(2, "a")), 1);
    assert_eq!(keys.find_or_insert(key(1, "b")), 2);
    assert_eq!(keys.find_or_insert(key(1, "a")), 0);
    assert_eq!(keys.find(&key(1, "b")), Some(2));
    assert_eq!(keys.len(), 3);
    assert_eq!(keys.key(1), key(2, "a"));
}

#[test]
fn keys_of_different_types_differ() {
    let mut keys = KeyTable::new();
    assert_eq!(keys.find_or_insert(vec![Value::Int(4)]), 0);
    assert_eq!(keys.find_or_insert(vec![Value::Float(bits(4.0))]), 1);
    assert_eq!(keys.find_or_insert(vec![Value::DateTime(4)]), 2);
    assert_eq!(keys.find_or_insert(vec![Value::Float(bits(0.0))]), 3);
    assert_eq!(keys.find_or_insert(vec![Value::Float(bits(-0.0))]), 4);
    assert_eq!(keys.find(&vec![Value::Int(4)]), Some(0));
}

#[test]
fn many_keys_are_all_found_again() {
    let mut keys = KeyTable::new();
    for n in 0..500 {
        assert_eq!(keys.find_or_insert(vec![Value::Int(n), Value::Bool(n % 2 == 0)]), n as usize);
    }
    for n in 0..500 {
        assert_eq!(
            keys.find(&vec![Value::Int(n), Value::Bool(n % 2 == 0)]),
            Some(n as usize)
        );
        assert_eq!(keys.find(&vec![Value::Int(n), Value::Bool(n % 2 != 0)]), None);
    }
}

fn tens(a: &i64, b: &i64) -> Order {
    placed(a / 10, b / 10)
}

#[test]
fn a_sort_keeps_ties_in_place() {
    let mut budget = Budget { used: 0, limit: usize::MAX };
    let mut values: Vec<i64> = vec![31, 12, 30, 11, 25, 10];
    let sorted =
        cooperative_stable_sort_by(&mut values, &Comparator::new(tens), &mut budget, &go_on);
    assert_eq!(sorted, Ok(()));
    assert_eq!(values, vec![12, 11, 10, 25, 31, 30]);
    assert!(budget.used > 0);
}

#[test]
fn a_sort_stays_in_its_budget_or_fails() {
    let mut budget = Budget { used: 0, limit: 1 };
    let mut values: Vec<i64> = vec![3, 2, 1];
    let sorted =
        cooperative_stable_sort_by(&mut values, &Comparator::new(tens), &mut budget, &go_on);
    assert_eq!(sorted, Err(QueryError::MemoryLimitExceeded { limit: 1 }));
}

fn stop() -> Result<(), QueryError> {
    Err(QueryError::Cancelled)
}

#[test]
fn a_sort_can_be_stopped() {
    let mut budget = Budget { used: 0, limit: usize::MAX };
    let mut values: Vec<i64> = (0..5000).rev().collect();
    let sorted =
        cooperative_stable_sort_by(&mut values, &Comparator::new(tens), &mut budget, &stop);
    assert_eq!(sorted, Err(QueryError::Cancelled));
    values.sort();
    assert_eq!(values, (0..5000).collect::<Vec<i64>>());
}

#[test]
fn the_first_positions_are_those_of_the_stable_order() {
    let values: Vec<i64> = vec![31, 12, 30, 11, 25, 10];
    assert_eq!(first_positions(&values, &Comparator::new(tens), 4), vec![1, 3, 5, 4]);
    assert_eq!(first_positions(&values, &Comparator::new(tens), 0), Vec::<usize>::new());
    assert_eq!(first_positions(&values, &Comparator::new(tens), 9), vec![1, 3, 5, 4, 0, 2]);
}

#[test]
fn a_view_list_agrees_with_its_verb() {
    assert_eq!(describe_view_list(&texts(&["V"])), (text("view 'V'"), "has"));
    assert_eq!(describe_view_list(&texts(&["A", "B"])), (text("views 'A', 'B'"), "have"));
}

#[test]
fn a_stored_source_that_cannot_be_read_names_its_view() {
    match parse_stored_view_source(&Parser::new(parse), &text("V"), &text("")) {
        Err(QueryError::ViewError(message)) => {
            assert!(message.contains("V"));
            assert!(message.contains("nothing to read"));
        }
        other => panic!("expected a view error, got {other:?}"),
    }
    assert_eq!(
        parse_stored_view_source(&Parser::new(parse), &text("V"), &text("Item")),
        Ok(Statement::Query { source: text("Item"), joins: vec![] })
    );
}

#[test]
fn only_dependents_are_marked() {
    let view = |name: &str, table: &str| ViewDef {
        name: text(name),
        query: text("q"),
        depends_on: texts(&[table]),
        dirty: false,
    };
    let mut views = vec![view("a", "T"), view("b", "U"), view("c", "T")];
    mark_dependents_dirty(&mut views, &text("T"));
    assert_eq!(
        views.iter().map(|v| v.dirty).collect::<Vec<bool>>(),
        vec![true, false, true]
    );
}

#[test]
fn pairs_of_a_nested_loop_are_counted() {
    assert_eq!(check_nested_loop_pair_limit(3, 4, 12), Ok(12));
    assert_eq!(
        check_nested_loop_pair_limit(3, 4, 11),
        Err(QueryError::NestedLoopPairLimitExceeded { left_rows: 3, right_rows: 4, limit: 11 })
    );
    assert!(check_nested_loop_pair_limit(usize::MAX, 2, usize::MAX).is_err());
}

#[test]
fn an_equality_between_the_sides_is_a_join_key() {
    let left = texts(&["a.id", "a.x"]);
    let right = texts(&["b.id", "b.y"]);
    let side = |qualifier: &str, name: &str| Expr::QualifiedField {
        qualifier: text(qualifier),
        field: text(name),
    };
    assert_eq!(
        try_extract_equi_join_keys(
            &compare(side("b", "y"), BinOp::Eq, side("a", "x")),
            &left,
            &right,
        ),
        Some((1, 1))
    );
    assert_eq!(
        try_extract_equi_join_keys(
            &compare(side("a", "id"), BinOp::Eq, side("a", "x")),
            &left,
            &right,
        ),
        None
    );
}

#[test]
fn a_predicate_reads_the_columns_that_it_names() {
    let columns = texts(&["a", "b", "c"]);
    let predicate = compare(
        compare(field("c"), BinOp::Gt, int_lit(1)),
        BinOp::And,
        compare(field("a"), BinOp::Eq, int_lit(2)),
    );
    assert_eq!(predicate_column_indices_json(&predicate, &columns), vec![0, 2]);
}

#[test]
fn numbers_are_spelled_in_full() {
    let mut out = String::new();
    push_decimal(&mut out, u64::MAX);
    assert_eq!(out, "18446744073709551615");
    let mut low = String::new();
    push_signed(&mut low, i64::MIN);
    assert_eq!(low, "-9223372036854775808");
    let mut zero = String::new();
    push_decimal(&mut zero, 0);
    assert_eq!(zero, "0");
}

#[test]
fn unresolved_links_are_found() {
    let link = |links: Vec<String>| ScalarLinkField {
        name: text("n"),
        outer_alias: text("a"),
        links,
        column: text("c"),
        resolved: None,
    };
    assert!(nested_fields_have_via_link(&vec![NestedProjectField::Link(Box::new(link(vec![
        text("l")
    ])))]));
    assert!(!nested_fields_have_via_link(&vec![NestedProjectField::Plain(bare("a"))]));
}

#[test]
fn the_source_of_a_scan_is_found_below_filters() {
    let plan = limit(filter(seq_scan("T"), compare(field("a"), BinOp::Gt, int_lit(1))), 3);
    assert_eq!(scan_source_table(&plan), Some(&text("T")));
    assert_eq!(scan_source_table(&PlanNode::ListTypes), None);
}

fn docs() -> Catalog {
    let mut doc = table(
        "Doc",
        &[("id", TypeId::Int, true), ("body", TypeId::Json, false)],
        vec![
            vec![Value::Int(1), Value::Json(b"30".to_vec())],
            vec![Value::Int(2), Value::Json(b"10".to_vec())],
            vec![Value::Int(3), Value::Empty],
            vec![Value::Int(4), Value::Json(b"10".to_vec())],
        ],
    );
    let entry = |key: i64, slot: u16| IndexEntry { key: Value::Int(key), rid: rid(slot) };
    doc.expression_indexes.push(ExpressionIndexMeta {
        index_id: 7,
        canonical_version: 1,
        json_path: weight(),
        unique: false,
        entries: vec![entry(10, 1), entry(10, 3), entry(30, 0)],
        empty_rids: vec![rid(2)],
        ascending: vec![rid(1), rid(3), rid(0), rid(2)],
        descending: vec![rid(0), rid(1), rid(3), rid(2)],
        stats: Some(IndexStats { total_entries: 4, distinct_keys: 2, empty_count: 1 }),
    });
    Catalog { tables: vec![doc], links: vec![] }
}

fn weight() -> StoredJsonPath {
    StoredJsonPath { column: text("body"), segments: vec![PathSeg::Key(text("w"))] }
}

fn first_column(decision: Result<Decision, QueryError>) -> Vec<Value> {
    answered_rows(decision).into_iter().map(|row| row[0].clone()).collect()
}

#[test]
fn an_index_on_a_path_answers_lookups_ranges_and_orders() {
    let engine = engine_with(docs(), wide_limits(), 1_000_000);
    let lookup = PlanNode::ExprIndexScan { table: text("Doc"), path: weight(), key: int_lit(10) };
    assert_eq!(first_column(engine.execute_plan(&lookup)), vec![Value::Int(2), Value::Int(4)]);
    let range = PlanNode::ExprRangeScan {
        table: text("Doc"),
        path: weight(),
        start: Some((int_lit(11), true)),
        end: None,
    };
    assert_eq!(first_column(engine.execute_plan(&range)), vec![Value::Int(1)]);
    let ordered = PlanNode::OrderedExprIndexScan {
        table: text("Doc"),
        path: weight(),
        descending: true,
        limit: int_lit(2),
        offset: Some(int_lit(1)),
    };
    assert_eq!(first_column(engine.execute_plan(&ordered)), vec![Value::Int(2), Value::Int(4)]);
}

#[test]
fn a_probe_pays_off_where_it_fetches_a_quarter() {
    let many = table(
        "T",
        &[("k", TypeId::Int, false)],
        (0..40).map(|n| vec![Value::Int(n % 20)]).collect(),
    );
    let catalog = Catalog { tables: vec![with_index(many, "k", false)], links: vec![] };
    let engine = engine_with(catalog, wide_limits(), 1_000_000);
    // Two rows for each key, out of forty: five keys fetch ten.
    assert!(engine.child_index_probe_pays_off(&text("T"), &text("k"), 5));
    assert!(!engine.child_index_probe_pays_off(&text("T"), &text("k"), 6));
    assert!(!engine.child_index_probe_pays_off(&text("T"), &text("j"), 1));
}

#[test]
fn links_are_resolved_against_the_catalog() {
    let item = with_index(
        table("Item", &[("id", TypeId::Int, true), ("name", TypeId::Str, false)], vec![]),
        "id",
        true,
    );
    let tag = table("Tag", &[("item_id", TypeId::Int, false)], vec![]);
    let catalog = Catalog {
        tables: vec![item, tag],
        links: vec![LinkDef {
            owner_type: text("Tag"),
            name: text("item"),
            target_type: text("Item"),
            local_key: text("item_id"),
            target_key: text("id"),
        }],
    };
    let engine = engine_with(catalog, wide_limits(), 1_000_000);
    let fields = vec![NestedProjectField::Link(Box::new(ScalarLinkField {
        name: text("n"),
        outer_alias: text("Tag"),
        links: vec![text("item")],
        column: text("name"),
        resolved: None,
    }))];
    let resolved = engine.resolve_nested_via_links(&fields, &text("Tag")).unwrap();
    match &resolved[0] {
        NestedProjectField::Link(link) => {
            let found = link.resolved.as_ref().unwrap();
            assert_eq!(found.first_fk, "Tag.item_id");
            assert_eq!(found.hops.len(), 1);
            assert_eq!(found.hops[0].table, "Item");
            assert_eq!(found.hops[0].key_col, "id");
            assert_eq!(found.hops[0].out_col, "name");
        }
        other => panic!("expected a link, got {other:?}"),
    }
    assert!(!nested_fields_have_via_link(&resolved));
    assert!(engine.resolve_nested_via_links(&fields, &text("Item")).is_err());
}

#[test]
fn an_aggregate_can_be_stopped() {
    let many = table("T", &[("k", TypeId::Int, false)], vec![vec![Value::Int(1)]]);
    let catalog = Catalog { tables: vec![many], links: vec![] };
    let sum = |poll: fn() -> Result<(), QueryError>| {
        agg_single_col_fast(
            &catalog,
            &scalars(),
            &Compiler::new(compilable),
            &text("T"),
            &text("k"),
            AggFunc::Sum,
            None,
            &poll,
        )
    };
    assert_eq!(sum(stop), Err(QueryError::Cancelled));
    assert_eq!(sum(go_on), Ok(Some(QueryResult::Scalar(Value::Int(1)))));
}

#[test]
fn an_aggregate_is_left_to_the_general_way_where_its_column_is_no_number() {
    let named = table("T", &[("k", TypeId::Str, false)], vec![vec![str_value("a")]]);
    let catalog = Catalog { tables: vec![named], links: vec![] };
    let asked = |name: &str, column: &str| {
        agg_single_col_fast(
            &catalog,
            &scalars(),
            &Compiler::new(compilable),
            &text(name),
            &text(column),
            AggFunc::Max,
            None,
            &go_on,
        )
    };
    assert_eq!(asked("T", "k"), Ok(None));
    assert_eq!(asked("T", "j"), Ok(None));
    assert_eq!(asked("U", "k"), Err(QueryError::TableNotFound(text("U"))));
}

#[test]
fn each_pair_of_a_join_asks_whether_to_go_on() {
    let columns = |name: &str| vec![text(name)];
    let rows = || vec![vec![Value::Int(1)], vec![Value::Int(2)]];
    let equal = compare(field("a"), BinOp::Eq, field("b"));
    let less = compare(field("a"), BinOp::Lt, field("b"));
    let joined = |on: &Expr, poll: fn() -> Result<(), QueryError>| {
        execute_materialized_join(
            &scalars(),
            &columns("a"),
            &rows(),
            &columns("b"),
            &rows(),
            Some(on),
            JoinKind::Inner,
            100,
            100,
            &poll,
        )
    };
    let found = |on: &Expr| match joined(on, go_on) {
        Ok(QueryResult::Rows { rows, .. }) => rows,
        other => panic!("expected rows, got {other:?}"),
    };
    assert_eq!(found(&equal).len(), 2);
    assert_eq!(found(&less), vec![vec![Value::Int(1), Value::Int(2)]]);
    assert_eq!(joined(&equal, stop), Err(QueryError::Cancelled));
    assert_eq!(joined(&less, stop), Err(QueryError::Cancelled));
}

#[test]
fn each_row_of_a_scan_asks_whether_to_go_on() {
    let rows = || vec![vec![Value::Int(1)], vec![Value::Int(2)], vec![Value::Int(3)]];
    let numbers = table("T", &[("k", TypeId::Int, false)], rows());
    let empty = table("U", &[("k", TypeId::Int, false)], vec![]);
    assert_eq!(scan_rows(&numbers, &go_on), Ok(rows()));
    assert_eq!(scan_rows(&numbers, &stop), Err(QueryError::Cancelled));
    assert_eq!(scan_rows(&empty, &stop), Ok(vec![]));

    let wanted = vec![rid(2), rid(9), rid(0)];
    let fetched = vec![vec![Value::Int(3)], vec![Value::Int(1)]];
    assert_eq!(fetch_rows(&numbers, &wanted, &go_on), Ok(fetched));
    assert_eq!(fetch_rows(&numbers, &wanted, &stop), Err(QueryError::Cancelled));

    let more = vec![vec![Value::Int(1)]];
    let mut both = rows();
    both.extend(more.clone());
    assert_eq!(append_rows(rows(), &more, &go_on), Ok(both));
    assert_eq!(append_rows(rows(), &more, &stop), Err(QueryError::Cancelled));
    assert_eq!(append_rows(rows(), &vec![], &stop), Ok(rows()));

    assert_eq!(sliced_positions(5, 1, 3, &go_on), Ok(vec![1, 2, 3]));
    assert_eq!(sliced_positions(5, 1, 3, &stop), Err(QueryError::Cancelled));
    assert_eq!(sliced_positions(5, 5, 3, &stop), Ok(vec![]));
}

#[test]
fn the_end_and_the_characters_of_a_text_are_found() {
    assert!(text_ends_with(&text("a.name"), &text(".name")));
    assert!(text_ends_with(&text("name"), &text("")));
    assert!(!text_ends_with(&text("name"), &text("a.name")));
    assert!(!text_ends_with(&text("namex"), &text("name")));
    assert!(text_contains(&text("a.b"), '.'));
    assert!(!text_contains(&text("ab"), '.'));
}
