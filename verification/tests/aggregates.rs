//! Aggregates on every path: over all rows, by group, once per source row, and
//! over a window.

use powdb_query::aggregate::{
    aggregate_rows, aggregate_rows_with_provenance, NumericAgg, ProvenanceRows, RowId,
};
use powdb_query::error::{Budget, QueryError, QueryResult};
use powdb_query::expr::{
    AggFunc, AggregateMode, BinOp, Expr, Literal, SortKey, UnaryOp, WindowFunc,
};
use powdb_query::group::{exec_group_by, GroupAgg};
use powdb_query::scalars::{FloatOp, Order, Scalars};
use powdb_query::value::Value;
use powdb_query::window::{execute_window, WindowDef};

const HUGE: i64 = 4_000_000_000_000_000_000;

fn bits(x: f64) -> u64 {
    x.to_bits()
}

fn number(value: &Value) -> Option<f64> {
    match value {
        Value::Int(i) => Some(*i as f64),
        Value::Float(b) => Some(f64::from_bits(*b)),
        _ => None,
    }
}

fn literal_value(literal: &Literal) -> Value {
    match literal {
        Literal::Int(i) => Value::Int(*i),
        Literal::Float(b) => Value::Float(*b),
        Literal::Bool(b) => Value::Bool(*b),
        Literal::String(s) => Value::Str(s.clone()),
    }
}

fn read(name: &str, row: &[Value], columns: &[String]) -> Value {
    match columns.iter().position(|column| column == name) {
        Some(at) => match row.get(at) {
            Some(value) => value.clone(),
            None => Value::Empty,
        },
        None => Value::Empty,
    }
}

fn binary(left: &Value, op: BinOp, right: &Value) -> Value {
    let both = match (left, right) {
        (Value::Bool(a), Value::Bool(b)) => Some((*a, *b)),
        _ => None,
    };
    match (op, both) {
        (BinOp::And, Some((a, b))) => return Value::Bool(a && b),
        (BinOp::Or, Some((a, b))) => return Value::Bool(a || b),
        _ => {}
    }
    if matches!(left, Value::Empty) || matches!(right, Value::Empty) {
        return Value::Empty;
    }
    let standing = order(left, right);
    match op {
        BinOp::Eq => Value::Bool(standing == Order::Equal),
        BinOp::Neq => Value::Bool(standing != Order::Equal),
        BinOp::Lt => Value::Bool(standing == Order::Less),
        BinOp::Gt => Value::Bool(standing == Order::Greater),
        BinOp::Lte => Value::Bool(standing != Order::Greater),
        BinOp::Gte => Value::Bool(standing != Order::Less),
        BinOp::Add => match (left, right) {
            (Value::Int(a), Value::Int(b)) => Value::Int(a.wrapping_add(*b)),
            _ => Value::Empty,
        },
        BinOp::Mul => match (left, right) {
            (Value::Int(a), Value::Int(b)) => Value::Int(a.wrapping_mul(*b)),
            _ => Value::Empty,
        },
        _ => Value::Empty,
    }
}

fn eval(expr: &Expr, row: &Vec<Value>, columns: &Vec<String>) -> Value {
    match expr {
        Expr::Field(name) => read(name, row, columns),
        Expr::QualifiedField { qualifier, field } => {
            read(&format!("{}.{}", qualifier, field), row, columns)
        }
        Expr::Literal(literal) => literal_value(literal),
        Expr::ValueLit(value) => value.clone(),
        Expr::BinaryOp(left, op, right) => {
            binary(&eval(left, row, columns), *op, &eval(right, row, columns))
        }
        Expr::UnaryOp(UnaryOp::Not, inner) => match eval(inner, row, columns) {
            Value::Bool(b) => Value::Bool(!b),
            _ => Value::Empty,
        },
        Expr::UnaryOp(UnaryOp::IsNull, inner) => {
            Value::Bool(matches!(eval(inner, row, columns), Value::Empty))
        }
        Expr::InList { expr, list, negated } => {
            let needle = eval(expr, row, columns);
            let found = list
                .iter()
                .any(|item| order(&eval(item, row, columns), &needle) == Order::Equal);
            Value::Bool(found != *negated)
        }
        Expr::JsonPath { base, .. } => match eval(base, row, columns) {
            Value::Json(bytes) => String::from_utf8(bytes)
                .ok()
                .and_then(|s| s.parse().ok())
                .map(Value::Int)
                .unwrap_or(Value::Empty),
            _ => Value::Empty,
        },
        _ => Value::Empty,
    }
}

fn rank(value: &Value) -> u8 {
    match value {
        Value::Int(_) | Value::Float(_) => 0,
        Value::Bool(_) => 1,
        Value::Str(_) => 2,
        Value::DateTime(_) => 3,
        Value::Uuid(_) => 4,
        Value::Bytes(_) => 5,
        Value::Json(_) => 6,
        Value::Empty => 7,
    }
}

fn placed<T: PartialOrd>(a: T, b: T) -> Order {
    if a < b {
        Order::Less
    } else if b < a {
        Order::Greater
    } else {
        Order::Equal
    }
}

fn order(left: &Value, right: &Value) -> Order {
    match (left, right) {
        (Value::Int(a), Value::Int(b)) => placed(a, b),
        (Value::Str(a), Value::Str(b)) => placed(a, b),
        (Value::Bool(a), Value::Bool(b)) => placed(a, b),
        (Value::DateTime(a), Value::DateTime(b)) => placed(a, b),
        (Value::Uuid(a), Value::Uuid(b)) => placed(a, b),
        (Value::Bytes(a), Value::Bytes(b)) => placed(a, b),
        (Value::Json(a), Value::Json(b)) => placed(a, b),
        _ => match (number(left), number(right)) {
            (Some(a), Some(b)) => placed(a, b),
            _ => placed(rank(left), rank(right)),
        },
    }
}

fn float(op: FloatOp) -> u64 {
    match op {
        FloatOp::FromInt(i) => (i as f64).to_bits(),
        FloatOp::Sum(a, b) => (f64::from_bits(a) + f64::from_bits(b)).to_bits(),
        FloatOp::Quotient(a, n) => (f64::from_bits(a) / (n as f64)).to_bits(),
    }
}

fn scalars() -> Scalars<
    impl Fn(&Expr, &Vec<Value>, &Vec<String>) -> Value,
    impl Fn(&Value, &Value) -> Order,
    impl Fn(FloatOp) -> u64,
> {
    Scalars::new(eval, order, float)
}

fn str_rows() -> Vec<Vec<Value>> {
    vec![vec![Value::Str("north".to_string())]]
}

fn overflow_rows() -> Vec<Vec<Value>> {
    vec![
        vec![Value::Int(HUGE)],
        vec![Value::Int(HUGE)],
        vec![Value::Int(HUGE)],
    ]
}

fn value_columns() -> Vec<String> {
    vec!["v".to_string()]
}

fn value_field() -> Expr {
    Expr::Field("v".to_string())
}

fn copied(rows: &[Vec<Value>]) -> Vec<Vec<Value>> {
    rows.iter()
        .map(|row| row.iter().map(|value| value.clone()).collect())
        .collect()
}

fn no_limit() -> Budget {
    Budget { used: 0, limit: usize::MAX }
}

fn poll() -> Result<(), QueryError> {
    Ok(())
}

fn scalar_agg(func: AggFunc, rows: &[Vec<Value>]) -> Result<QueryResult, QueryError> {
    aggregate_rows(
        &scalars(),
        func,
        Some(&value_field()),
        &value_columns(),
        &copied(rows),
        &poll,
    )
}

fn grouped_agg(func: AggFunc, rows: Vec<Vec<Value>>) -> Result<QueryResult, QueryError> {
    exec_group_by(
        &scalars(),
        &value_columns(),
        &rows,
        &vec![],
        &vec![GroupAgg {
            function: func,
            argument: value_field(),
            mode: AggregateMode::Raw,
            provenance_alias: None,
            output_name: "total".to_string(),
        }],
        &None,
        &poll,
    )
}

fn symmetric_agg(func: AggFunc, rows: Vec<Vec<Value>>) -> Result<QueryResult, QueryError> {
    let provenance = (0..rows.len())
        .map(|slot| vec![Some(RowId { page_id: 1, slot_index: slot as u16 })])
        .collect();
    let input = ProvenanceRows {
        columns: vec!["a.v".to_string()],
        rows,
        source_aliases: vec!["a".to_string()],
        provenance,
    };
    aggregate_rows_with_provenance(
        &scalars(),
        func,
        Some(&Expr::QualifiedField { qualifier: "a".to_string(), field: "v".to_string() }),
        &input,
        &"a".to_string(),
        &mut no_limit(),
        &poll,
    )
}

fn window_over(
    func: WindowFunc,
    columns: Vec<String>,
    rows: Vec<Vec<Value>>,
    partition_by: Vec<Expr>,
    order_by: Vec<SortKey>,
) -> Result<QueryResult, QueryError> {
    execute_window(
        &scalars(),
        QueryResult::Rows { columns, rows },
        &vec![WindowDef {
            function: func,
            args: vec![value_field()],
            mode: AggregateMode::Raw,
            partition_by,
            order_by,
            output_name: "w".to_string(),
        }],
        &mut no_limit(),
        &poll,
    )
}

fn window_agg(func: WindowFunc, rows: Vec<Vec<Value>>) -> Result<QueryResult, QueryError> {
    window_over(func, value_columns(), rows, Vec::new(), Vec::new())
}

/// The appended window column, in the input's original row order.
fn window_column(result: Result<QueryResult, QueryError>) -> Vec<Value> {
    match result {
        Ok(QueryResult::Rows { rows, .. }) => rows
            .into_iter()
            .map(|row| row.last().cloned().expect("window column is appended"))
            .collect(),
        other => panic!("expected window rows, got {other:?}"),
    }
}

fn assert_non_numeric(result: Result<QueryResult, QueryError>) {
    match result {
        Err(QueryError::TypeError(message)) => {
            assert!(message.contains("numeric"), "unexpected message: {message}");
        }
        other => panic!("expected a non-numeric type error, got {other:?}"),
    }
}

fn assert_overflow(result: Result<QueryResult, QueryError>) {
    match result {
        Err(QueryError::Execution(message)) => {
            assert!(message.contains("overflow"), "unexpected message: {message}");
        }
        other => panic!("expected an overflow error, got {other:?}"),
    }
}

/// The message of an error, as a client reads it.
fn shown(error: &QueryError) -> String {
    error.to_text().expect("the error has a message")
}

#[test]
fn scalar_sum_over_str_is_a_type_error() {
    assert_non_numeric(scalar_agg(AggFunc::Sum, &str_rows()));
}

#[test]
fn scalar_avg_over_str_is_a_type_error() {
    assert_non_numeric(scalar_agg(AggFunc::Avg, &str_rows()));
}

#[test]
fn grouped_sum_over_str_is_a_type_error() {
    assert_non_numeric(grouped_agg(AggFunc::Sum, str_rows()));
}

#[test]
fn grouped_avg_over_str_is_a_type_error() {
    assert_non_numeric(grouped_agg(AggFunc::Avg, str_rows()));
}

#[test]
fn symmetric_sum_over_str_is_a_type_error() {
    assert_non_numeric(symmetric_agg(AggFunc::Sum, str_rows()));
}

#[test]
fn symmetric_avg_over_str_is_a_type_error() {
    assert_non_numeric(symmetric_agg(AggFunc::Avg, str_rows()));
}

#[test]
fn window_sum_over_str_is_a_type_error() {
    assert_non_numeric(window_agg(WindowFunc::Sum, str_rows()));
}

#[test]
fn window_avg_over_str_is_a_type_error() {
    assert_non_numeric(window_agg(WindowFunc::Avg, str_rows()));
}

#[test]
fn non_numeric_error_names_the_offending_type() {
    for (value, label) in [
        (Value::Bool(true), "bool"),
        (Value::DateTime(0), "datetime"),
        (Value::Uuid([0; 16]), "uuid"),
        (Value::Bytes(vec![1]), "bytes"),
    ] {
        let error = scalar_agg(AggFunc::Sum, &[vec![value]]).unwrap_err();
        assert!(shown(&error).contains(label), "expected {label} in {error:?}");
    }
}

#[test]
fn nulls_are_still_skipped_rather_than_rejected() {
    let rows = vec![vec![Value::Int(2)], vec![Value::Empty], vec![Value::Int(3)]];
    assert!(matches!(
        scalar_agg(AggFunc::Sum, &rows).unwrap(),
        QueryResult::Scalar(Value::Int(5))
    ));
    assert!(matches!(
        window_agg(WindowFunc::Sum, rows).unwrap(),
        QueryResult::Rows { .. }
    ));
}

#[test]
fn scalar_sum_overflow_is_an_error() {
    assert_overflow(scalar_agg(AggFunc::Sum, &overflow_rows()));
}

#[test]
fn grouped_sum_overflow_is_an_error() {
    assert_overflow(grouped_agg(AggFunc::Sum, overflow_rows()));
}

#[test]
fn symmetric_sum_overflow_is_an_error() {
    assert_overflow(symmetric_agg(AggFunc::Sum, overflow_rows()));
}

#[test]
fn window_sum_overflow_is_an_error() {
    assert_overflow(window_agg(WindowFunc::Sum, overflow_rows()));
}

/// Total 5e18 (fits in i64); the running prefix reaches 1e19 (does not).
fn transient_overflow_rows() -> Vec<Vec<Value>> {
    vec![
        vec![Value::Int(5_000_000_000_000_000_000)],
        vec![Value::Int(5_000_000_000_000_000_000)],
        vec![Value::Int(-5_000_000_000_000_000_000)],
    ]
}

#[test]
fn window_sum_survives_a_transient_running_overflow() {
    let expected = Value::Int(5_000_000_000_000_000_000);
    assert_eq!(
        window_column(window_agg(WindowFunc::Sum, transient_overflow_rows())),
        vec![expected.clone(), expected.clone(), expected]
    );
}

#[test]
fn window_and_scalar_sum_agree_on_a_transient_overflow() {
    let scalar = match scalar_agg(AggFunc::Sum, &transient_overflow_rows()).unwrap() {
        QueryResult::Scalar(value) => value,
        other => panic!("expected a scalar, got {other:?}"),
    };
    for value in window_column(window_agg(WindowFunc::Sum, transient_overflow_rows())) {
        assert_eq!(value, scalar);
    }
}

#[test]
fn window_sum_finalizes_each_partition_independently() {
    // Two partitions, each transiently overflowing: the first ends at the
    // partition boundary, the second at the end of the rows.
    let mut rows = Vec::new();
    for key in ["a", "b"] {
        for row in transient_overflow_rows() {
            rows.push(vec![Value::Str(key.to_string()), row[0].clone()]);
        }
    }
    let result = window_over(
        WindowFunc::Sum,
        vec!["k".to_string(), "v".to_string()],
        rows,
        vec![Expr::Field("k".to_string())],
        Vec::new(),
    );
    assert_eq!(
        window_column(result),
        vec![Value::Int(5_000_000_000_000_000_000); 6]
    );
}

#[test]
fn window_running_sum_still_errors_when_an_emitted_prefix_overflows() {
    // With an `order` clause the running prefix is the emitted value, so a
    // prefix of 1e19 is a real overflow of a reported number.
    assert_overflow(window_over(
        WindowFunc::Sum,
        value_columns(),
        transient_overflow_rows(),
        Vec::new(),
        vec![SortKey { expr: value_field(), descending: true }],
    ));
}

#[test]
fn whole_partition_frame_still_back_fills_the_other_aggregates() {
    let rows = vec![vec![Value::Int(2)], vec![Value::Empty], vec![Value::Int(8)]];
    for (func, expected) in [
        (WindowFunc::Avg, Value::Float(bits(5.0))),
        (WindowFunc::Min, Value::Int(2)),
        (WindowFunc::Max, Value::Int(8)),
        (WindowFunc::Count, Value::Int(2)),
    ] {
        assert_eq!(
            window_column(window_agg(func, rows.clone())),
            vec![expected.clone(); 3],
            "{func:?}"
        );
    }
}

#[test]
fn overflow_error_does_not_claim_a_type_mismatch() {
    let error = scalar_agg(AggFunc::Sum, &overflow_rows()).unwrap_err();
    assert!(
        !matches!(error, QueryError::TypeError(_)),
        "every summed value was a well typed int; only the total overflowed, \
         so the `type mismatch: ` prefix would be false. got {error:?}"
    );
    assert_eq!(
        shown(&error),
        "cannot compute sum: the integer total overflows int64"
    );
}

#[test]
fn non_numeric_error_message_is_byte_exact() {
    let error = scalar_agg(AggFunc::Sum, &str_rows()).unwrap_err();
    assert_eq!(
        shown(&error),
        "type mismatch: sum requires a numeric argument, but a str value was aggregated"
    );
}

#[test]
fn generic_sum_over_only_nulls_is_int_zero() {
    let nulls = vec![vec![Value::Empty], vec![Value::Empty]];
    assert!(matches!(
        scalar_agg(AggFunc::Sum, &nulls).unwrap(),
        QueryResult::Scalar(Value::Int(0))
    ));
    assert_eq!(
        window_column(window_agg(WindowFunc::Sum, nulls)),
        vec![Value::Int(0); 2]
    );
}

#[test]
fn avg_of_large_ints_stays_exact_instead_of_overflowing() {
    // An average is only ever reported as a float, so a total that does not fit
    // in i64 is still a correct answer.
    let expected = HUGE as f64;
    for result in [
        scalar_agg(AggFunc::Avg, &overflow_rows()).unwrap(),
        symmetric_agg(AggFunc::Avg, overflow_rows()).unwrap(),
    ] {
        match result {
            QueryResult::Scalar(Value::Float(avg)) => {
                let avg = f64::from_bits(avg);
                assert!((avg - expected).abs() < 1.0, "got {avg}");
            }
            other => panic!("expected a float average, got {other:?}"),
        }
    }
}

#[test]
fn a_refused_value_leaves_the_total_as_it_was() {
    let mut total = NumericAgg::new();
    assert_eq!(total.push(&scalars(), "sum", &Value::Int(4)), Ok(()));
    let before = total;
    assert!(total.push(&scalars(), "sum", &Value::Str("x".to_string())).is_err());
    assert_eq!(total, before);
    assert_eq!(total.push(&scalars(), "sum", &Value::Empty), Ok(()));
    assert_eq!(total, before);
    assert_eq!(total.push(&scalars(), "sum", &Value::Int(1)), Ok(()));
    assert_eq!(total.count, 2);
    assert_eq!(total.sum(&scalars(), "sum"), Ok(Value::Int(5)));
}

fn stopped() -> Result<(), QueryError> {
    Err(QueryError::Cancelled)
}

#[test]
fn each_row_of_an_aggregate_asks_whether_to_go_on() {
    let rows = vec![vec![Value::Int(1)], vec![Value::Int(2)]];
    for func in [AggFunc::Sum, AggFunc::Min, AggFunc::CountDistinct] {
        assert_eq!(
            aggregate_rows(
                &scalars(),
                func,
                Some(&value_field()),
                &value_columns(),
                &rows,
                &stopped,
            ),
            Err(QueryError::Cancelled)
        );
    }
}

#[test]
fn each_row_of_a_grouping_asks_whether_to_go_on() {
    let grouped = |rows: &Vec<Vec<Value>>| {
        exec_group_by(
            &scalars(),
            &value_columns(),
            rows,
            &vec![],
            &vec![GroupAgg {
                function: AggFunc::Sum,
                argument: value_field(),
                mode: AggregateMode::Raw,
                provenance_alias: None,
                output_name: "total".to_string(),
            }],
            &None,
            &stopped,
        )
    };
    assert_eq!(grouped(&vec![vec![Value::Int(1)]]), Err(QueryError::Cancelled));
    assert!(grouped(&vec![]).is_ok());
}

#[test]
fn each_row_of_a_window_asks_whether_to_go_on() {
    let windowed = |rows: Vec<Vec<Value>>| {
        execute_window(
            &scalars(),
            QueryResult::Rows { columns: value_columns(), rows },
            &vec![WindowDef {
                function: WindowFunc::Sum,
                args: vec![value_field()],
                mode: AggregateMode::Raw,
                partition_by: vec![],
                order_by: vec![],
                output_name: "w".to_string(),
            }],
            &mut no_limit(),
            &stopped,
        )
    };
    assert_eq!(windowed(vec![vec![Value::Int(1)]]), Err(QueryError::Cancelled));
    assert!(windowed(vec![]).is_ok());
}
