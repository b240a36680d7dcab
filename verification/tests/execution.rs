use sparkx::batch::Batch;
use sparkx::cells::value_at;
use sparkx::column::Column;
use sparkx::execution::aggregate::hash_aggregate;
use sparkx::execution::concat::concat_batches;
use sparkx::execution::join::hash_join;
use sparkx::execution::sort::{sort_batch, sort_batches};
use sparkx::execution::stream::{filter_batch, filter_scanned, limit_batch, project_batch};
use sparkx::expr::{AggregateFunction, Expr, Operator};
use sparkx::floats::{NO_NUMBER, NO_SINGLE_NUMBER};
use sparkx::kernels::{
    add_floats, cast_column, divide_floats,
};
use sparkx::logical::{JoinType, SortExpr};
use sparkx::scalar::ScalarValue;
use sparkx::types::{DataType, Field, Schema};

fn field(name: &str, data_type: DataType) -> Field {
    Field::new(name.to_owned(), data_type, true)
}

fn column(name: &str) -> Expr {
    Expr::column(name.to_owned())
}

fn number(n: i64) -> Expr {
    Expr::literal(ScalarValue::Int64(n))
}

fn call(function: AggregateFunction, argument: Expr, distinct: bool) -> Expr {
    Expr::Aggregate {
        function,
        expr: Box::new(argument),
        distinct,
    }
}

fn schema() -> Schema {
    Schema::new(vec![
        field("key", DataType::Utf8),
        field("n", DataType::Int64),
        field("x", DataType::Float64),
    ])
}

fn texts(cells: &[Option<&str>]) -> Column {
    Column::Utf8(cells.iter().map(|s| s.map(|s| s.to_owned())).collect())
}

fn floats(cells: &[Option<f64>]) -> Column {
    Column::Float64(cells.iter().map(|x| x.map(f64::to_bits)).collect())
}

fn batch() -> Batch {
    Batch::try_new(
        schema(),
        vec![
            texts(&[Some("b"), Some("a"), None, Some("b"), Some("a")]),
            Column::Int64(vec![Some(3), Some(1), Some(7), None, Some(1)]),
            floats(&[Some(0.5), Some(1.5), Some(2.5), Some(3.5), None]),
        ],
        None,
    )
    .unwrap()
}

fn rows(batch: &Batch) -> Vec<Vec<ScalarValue>> {
    (0..batch.num_rows())
        .map(|row| {
            batch
                .columns()
                .iter()
                .map(|column| value_at(column, row).unwrap())
                .collect()
        })
        .collect()
}

fn text(s: &str) -> ScalarValue {
    ScalarValue::Utf8(s.to_owned())
}

fn float(x: f64) -> ScalarValue {
    ScalarValue::Float64(x.to_bits())
}

#[test]
fn aggregates_have_exact_values_and_ordered_keys() {
    let output = Schema::new(vec![
        field("key", DataType::Utf8),
        field("count", DataType::UInt64),
        field("sum", DataType::Float64),
        field("avg", DataType::Float64),
        field("min", DataType::Int64),
        field("max", DataType::Float64),
    ]);
    let result = hash_aggregate(
        &vec![batch()],
        &vec![column("key")],
        &vec![
            call(AggregateFunction::Count, column("n"), false),
            call(AggregateFunction::Sum, column("n"), false),
            call(AggregateFunction::Avg, column("x"), false),
            call(AggregateFunction::Min, column("n"), false),
            call(AggregateFunction::Max, column("x"), false).alias("max".to_owned()),
        ],
        &output,
    )
    .unwrap();
    assert_eq!(
        rows(&result),
        vec![
            vec![
                ScalarValue::Null,
                ScalarValue::UInt64(1),
                float(7.0),
                float(2.5),
                ScalarValue::Int64(7),
                float(2.5),
            ],
            vec![
                text("a"),
                ScalarValue::UInt64(2),
                float(2.0),
                float(1.5),
                ScalarValue::Int64(1),
                float(1.5),
            ],
            vec![
                text("b"),
                ScalarValue::UInt64(1),
                float(3.0),
                float(2.0),
                ScalarValue::Int64(3),
                float(3.5),
            ],
        ]
    );
}

#[test]
fn distinct_aggregates_take_each_value_once() {
    let output = Schema::new(vec![
        field("count", DataType::UInt64),
        field("sum", DataType::Float64),
        field("avg", DataType::Float64),
    ]);
    let result = hash_aggregate(
        &vec![batch(), batch()],
        &vec![],
        &vec![
            call(AggregateFunction::Count, column("n"), true),
            call(AggregateFunction::Sum, column("n"), true),
            call(AggregateFunction::Avg, column("n"), true),
        ],
        &output,
    )
    .unwrap();
    assert_eq!(
        rows(&result),
        vec![vec![
            ScalarValue::UInt64(3),
            float(11.0),
            float(11.0 / 3.0)
        ]]
    );
}

#[test]
fn counting_in_parts_gives_the_count_of_all() {
    let output = || Schema::new(vec![field("count", DataType::UInt64)]);
    let count = |batches: Vec<Batch>| {
        let calls = vec![call(AggregateFunction::Count, column("n"), false)];
        let result = hash_aggregate(&batches, &vec![], &calls, &output()).unwrap();
        match value_at(result.column(0), 0).unwrap() {
            ScalarValue::UInt64(n) => n,
            other => panic!("{other:?}"),
        }
    };
    assert_eq!(count(vec![batch()]), 4);
    assert_eq!(
        count(vec![batch(), batch()]),
        count(vec![batch()]) + count(vec![batch()])
    );
}

#[test]
fn aggregates_say_what_they_cannot_take() {
    let output = Schema::new(vec![field("value", DataType::Float64)]);
    let run = |expr: Expr| {
        hash_aggregate(&vec![batch()], &vec![], &vec![expr], &output)
            .unwrap_err()
            .to_text()
    };
    assert_eq!(
        run(call(AggregateFunction::Sum, column("key"), false)),
        "execution error: SUM does not support Utf8(\"b\")"
    );
    assert_eq!(
        run(call(AggregateFunction::Avg, column("key"), false)),
        "execution error: numeric aggregate does not support Utf8(\"b\")"
    );
    assert_eq!(
        run(column("n")),
        "planning error: expected aggregate expression, got #n"
    );
}

#[test]
fn filters_keep_only_what_is_true() {
    let predicate = Expr::binary(column("n"), Operator::Gt, number(1));
    let kept = filter_batch(&batch(), &predicate).unwrap();
    assert_eq!(*kept.column(1), Column::Int64(vec![Some(3), Some(7)]));
    assert_eq!(
        filter_batch(&batch(), &column("n")).unwrap_err().to_text(),
        "execution error: filter predicate did not produce Boolean values"
    );
    let both = vec![
        predicate,
        Expr::binary(column("n"), Operator::Lt, number(5)),
    ];
    assert_eq!(filter_scanned(&batch(), &both).unwrap().num_rows(), 1);
}

#[test]
fn a_filter_in_a_scan_does_what_it_does_after_it() {
    let first = Expr::binary(column("n"), Operator::GtEq, number(1));
    let second = Expr::binary(column("n"), Operator::Lt, number(5));
    let in_scan = filter_scanned(&batch(), &vec![first.clone(), second.clone()]).unwrap();
    let after = filter_batch(&filter_scanned(&batch(), &vec![first]).unwrap(), &second).unwrap();
    assert_eq!(in_scan, after);
}

#[test]
fn projections_fit_their_schema_or_say_why_not() {
    let doubled = Expr::binary(column("n"), Operator::Multiply, number(2));
    let output = Schema::new(vec![field("doubled", DataType::Int64)]);
    let result = project_batch(&batch(), &vec![doubled.clone()], &output).unwrap();
    assert_eq!(
        *result.column(0),
        Column::Int64(vec![Some(6), Some(2), Some(14), None, Some(2)])
    );
    let strict = Schema::new(vec![Field::new(
        "doubled".to_owned(),
        DataType::Int64,
        false,
    )]);
    assert_eq!(
        project_batch(&batch(), &vec![doubled], &strict)
            .unwrap_err()
            .to_text(),
        "Arrow error: Invalid argument error: Column 'doubled' is declared as non-nullable but \
         contains null values"
    );
}

#[test]
fn limits_let_the_first_rows_through() {
    let (kept, left) = limit_batch(&batch(), 2);
    assert_eq!(kept.unwrap().num_rows(), 2);
    assert_eq!(left, 0);
    let (kept, left) = limit_batch(&batch(), 7);
    assert_eq!(kept.unwrap().num_rows(), 5);
    assert_eq!(left, 2);
    let (kept, left) = limit_batch(&batch(), 0);
    assert!(kept.is_none());
    assert_eq!(left, 0);
}

#[test]
fn sorting_goes_by_the_keys_and_puts_nulls_where_they_belong() {
    let key = |name: &str, ascending: bool, nulls_first: bool| SortExpr {
        expr: column(name),
        ascending,
        nulls_first,
    };
    let sorted = sort_batch(&batch(), &vec![key("n", true, false)]).unwrap();
    assert_eq!(
        *sorted.column(1),
        Column::Int64(vec![Some(1), Some(1), Some(3), Some(7), None])
    );
    let sorted = sort_batch(&batch(), &vec![key("n", false, true), key("x", true, true)]).unwrap();
    assert_eq!(
        *sorted.column(1),
        Column::Int64(vec![None, Some(7), Some(3), Some(1), Some(1)])
    );
    assert_eq!(
        *sorted.column(2),
        floats(&[Some(3.5), Some(2.5), Some(0.5), None, Some(1.5)])
    );
    assert_eq!(
        sort_batch(&batch(), &vec![]).unwrap_err().to_text(),
        "Arrow error: Invalid argument error: Sort requires at least one column"
    );
    let empty = sort_batches(&vec![], &vec![key("n", true, true)], &schema()).unwrap();
    assert_eq!(empty.num_rows(), 0);
    assert_eq!(empty.num_columns(), 3);
}

#[test]
fn batches_are_put_together_in_order() {
    let both = concat_batches(&schema(), &vec![batch(), batch()]).unwrap();
    assert_eq!(both.num_rows(), 10);
    assert_eq!(rows(&both)[5..], rows(&batch())[..]);
}

#[test]
fn joins_pair_equal_keys_and_never_nulls() {
    let right_schema = Schema::new(vec![
        field("code", DataType::Utf8),
        field("label", DataType::Utf8),
    ]);
    let right = Batch::try_new(
        right_schema,
        vec![
            texts(&[Some("a"), None, Some("a")]),
            texts(&[Some("one"), Some("none"), Some("two")]),
        ],
        None,
    )
    .unwrap();
    let output = Schema::new(vec![
        field("key", DataType::Utf8),
        field("n", DataType::Int64),
        field("x", DataType::Float64),
        field("code", DataType::Utf8),
        field("label", DataType::Utf8),
    ]);
    let join = |join_type: JoinType| {
        hash_join(
            &vec![batch()],
            &vec![right.clone()],
            join_type,
            &vec![column("key")],
            &vec![column("code")],
            &output,
        )
        .unwrap()
    };
    let inner = join(JoinType::Inner);
    assert_eq!(inner.num_rows(), 4);
    assert_eq!(
        *inner.column(4),
        texts(&[Some("one"), Some("two"), Some("one"), Some("two")])
    );
    let left = join(JoinType::Left);
    assert_eq!(left.num_rows(), 7);
    assert_eq!(
        *left.column(4),
        texts(&[
            None,
            Some("one"),
            Some("two"),
            None,
            None,
            Some("one"),
            Some("two"),
        ])
    );
}

#[test]
fn what_is_no_number_has_one_bit_pattern() {
    let zero = 0.0f64.to_bits();
    assert_eq!(divide_floats(zero, zero), NO_NUMBER);
    assert_eq!(add_floats((-f64::NAN).to_bits(), zero), NO_NUMBER);
    assert!(f64::from_bits(NO_NUMBER).is_nan());
    assert!(f32::from_bits(NO_SINGLE_NUMBER).is_nan());
    let infinity = f64::INFINITY.to_bits();
    assert_eq!(add_floats(infinity, zero), infinity);

    let cells = Column::Float64(vec![Some((-f64::NAN).to_bits()), Some(1.5f64.to_bits()), None]);
    let cast = cast_column(&cells, &DataType::Float32).unwrap();
    let singles = vec![Some(NO_SINGLE_NUMBER), Some(1.5f32.to_bits()), None];
    assert_eq!(cast, Column::Float32(singles));
}
