use sparkx::batch::Batch;
use sparkx::cells::value_at;
use sparkx::column::Column;
use sparkx::evaluate::evaluate;
use sparkx::execution::run::execute;
use sparkx::expr::{Expr, Operator};
use sparkx::planner::PhysicalPlanner;
use sparkx::scalar::ScalarValue;
use sparkx::session::{QueryResult, Session, SessionConfig};
use sparkx::table::MemoryTable;
use sparkx::types::{DataType, Field, Schema};
use sparkx::SparkXError;
use std::collections::BTreeMap;

fn integers(cells: &[i64]) -> Column {
    Column::Int64(cells.iter().map(|n| Some(*n)).collect())
}

fn floats(cells: &[f64]) -> Column {
    Column::Float64(cells.iter().map(|x| Some(x.to_bits())).collect())
}

fn texts(cells: &[&str]) -> Column {
    Column::Utf8(cells.iter().map(|s| Some((*s).to_owned())).collect())
}

fn field(name: &str, data_type: DataType, nullable: bool) -> Field {
    Field::new(name.to_owned(), data_type, nullable)
}

fn float(value: f64) -> ScalarValue {
    ScalarValue::Float64(value.to_bits())
}

fn sales_schema() -> Schema {
    Schema::new(vec![
        field("id", DataType::Int64, false),
        field("region", DataType::Utf8, false),
        field("customer_id", DataType::Int64, false),
        field("amount", DataType::Float64, false),
    ])
}

fn sales_batch(offset: i64) -> Batch {
    Batch::try_new(
        sales_schema(),
        vec![
            integers(&[offset, offset + 1]),
            texts(&["east", "west"]),
            integers(&[10, 20]),
            floats(&[10.0 + offset as f64, 20.0 + offset as f64]),
        ],
        None,
    )
    .unwrap()
}

fn session(distributed: bool) -> Session {
    let mut session = Session::new(SessionConfig {
        batch_size: 2,
        channel_capacity: 1,
        workers: 2,
        distributed,
        ..SessionConfig::default()
    });
    let partitions = (0..4)
        .map(|partition| vec![sales_batch(partition * 2)])
        .collect();
    session.register_memory(
        "sales",
        MemoryTable::new(sales_schema(), partitions).unwrap(),
    );
    session
}

#[test]
fn normalizes_zero_resource_settings() {
    let mut session = Session::new(SessionConfig {
        batch_size: 0,
        channel_capacity: 0,
        workers: 0,
        distributed: false,
        memory_limit_bytes: 0,
    });
    assert_eq!(session.config().batch_size, 1);
    assert_eq!(session.config().channel_capacity, 1);
    assert_eq!(session.config().workers, 1);
    assert_eq!(session.config().memory_limit_bytes, 1);
}

fn grouped_totals(result: &QueryResult) -> BTreeMap<String, (u64, f64)> {
    let mut values = BTreeMap::new();
    for batch in &result.batches {
        for row in 0..batch.num_rows() {
            let ScalarValue::Utf8(region) = value_at(batch.column(0), row).unwrap() else {
                panic!("region must be UTF-8")
            };
            let ScalarValue::UInt64(count) = value_at(batch.column(1), row).unwrap() else {
                panic!("the count must be unsigned")
            };
            let ScalarValue::Float64(total) = value_at(batch.column(2), row).unwrap() else {
                panic!("the total must be a floating-point number")
            };
            values.insert(region, (count, f64::from_bits(total)));
        }
    }
    values
}

fn result_rows(result: &QueryResult) -> Vec<Vec<ScalarValue>> {
    result
        .batches
        .iter()
        .flat_map(|batch| {
            (0..batch.num_rows()).map(|row| {
                batch
                    .columns()
                    .iter()
                    .map(|column| value_at(column, row).unwrap())
                    .collect()
            })
        })
        .collect()
}

#[test]
fn filters_projects_sorts_and_limits() {
    let result = session(false)
        .execute_sql(
            "SELECT id, amount * 2 AS doubled FROM sales WHERE amount >= 22 ORDER BY id DESC LIMIT 3",
            false,
        )
        .unwrap();
    assert_eq!(result.row_count(), 3);
    assert_eq!(*result.batches[0].column(0), integers(&[7, 5, 3]));
    assert!(result.metrics.input_rows >= 8);
}

#[test]
fn plans_only_ordered_limits_as_topk() {
    let ordered = session(false)
        .explain("SELECT id FROM sales ORDER BY id DESC LIMIT 3")
        .unwrap();
    assert!(ordered.contains("TopKExec#0"));
    assert!(!ordered.contains("SortExec"));
    assert!(!ordered.contains("LimitExec"));

    let unordered = session(false)
        .explain("SELECT id FROM sales LIMIT 3")
        .unwrap();
    assert!(unordered.contains("LimitExec#0"));
    assert!(!unordered.contains("TopKExec"));
}

#[test]
fn preserves_aliases_and_coerces_mixed_numeric_arithmetic() {
    let result = session(false)
        .execute_sql("SELECT id AS order_id, id * 1.5 AS weighted FROM sales LIMIT 1", false)
        .unwrap();
    assert_eq!(result.batches[0].schema().fields[0].name, "order_id");
    assert_eq!(result.batches[0].schema().fields[1].name, "weighted");
    assert_eq!(
        result.batches[0].schema().fields[1].data_type,
        DataType::Float64
    );
}

#[test]
fn executes_explicit_casts_and_preserves_nulls() {
    let result = session(false)
        .execute_sql(
            "SELECT CAST(id AS DOUBLE) AS id_double, \
                    CAST(amount AS BIGINT) AS amount_integer, \
                    CAST(id AS VARCHAR) AS id_text, \
                    CAST(NULL AS BOOLEAN) AS missing \
             FROM sales ORDER BY id_double LIMIT 1", false)
        .unwrap();
    let batch = &result.batches[0];

    assert_eq!(batch.schema().fields[0].data_type, DataType::Float64);
    assert_eq!(batch.schema().fields[1].data_type, DataType::Int64);
    assert_eq!(batch.schema().fields[2].data_type, DataType::Utf8);
    assert_eq!(batch.schema().fields[3].data_type, DataType::Boolean);
    assert_eq!(
        value_at(batch.column(0), 0).unwrap(),
        float(0.0)
    );
    assert_eq!(
        value_at(batch.column(1), 0).unwrap(),
        ScalarValue::Int64(10)
    );
    assert_eq!(
        value_at(batch.column(2), 0).unwrap(),
        ScalarValue::Utf8("0".to_owned())
    );
    assert_eq!(
        value_at(batch.column(3), 0).unwrap(),
        ScalarValue::Null
    );
}

#[test]
fn null_arithmetic_propagates_and_invalid_implicit_coercions_are_rejected() {
    let result = session(false)
        .execute_sql("SELECT id + NULL AS missing FROM sales LIMIT 1", false)
        .unwrap();
    assert_eq!(
        result.batches[0].schema().fields[0].data_type,
        DataType::Int64
    );
    assert_eq!(
        value_at(result.batches[0].column(0), 0).unwrap(),
        ScalarValue::Null
    );

    let error = session(false)
        .sql("SELECT amount + region FROM sales")
        .unwrap_err();
    assert!(
        matches!(error, SparkXError::Planning(message) if message.contains("requires numeric operands"))
    );

    let error = session(false)
        .sql("SELECT CAST(id AS DATE) FROM sales")
        .unwrap_err();
    assert!(matches!(error, SparkXError::Unsupported(message) if message.contains("DATE")));
}

#[test]
fn optimizer_folds_constants_simplifies_booleans_and_propagates_nulls() {
    let result = session(false)
        .execute_sql(
            "SELECT 1 + 2 AS three, amount + NULL AS missing \
             FROM sales WHERE TRUE AND amount > (5 + 5) LIMIT 1", false)
        .unwrap();

    assert_eq!(
        value_at(result.batches[0].column(0), 0).unwrap(),
        ScalarValue::Int64(3)
    );
    assert_eq!(
        value_at(result.batches[0].column(1), 0).unwrap(),
        ScalarValue::Null
    );
    assert!(result.optimized_plan.contains("3 AS three"));
    assert!(
        result
            .optimized_plan
            .contains("CAST(NULL AS Float64) AS missing")
    );
    assert!(result.optimized_plan.contains("filters=[(#amount > 10)]"));
    assert!(!result.optimized_plan.contains("(5 + 5)"));
    assert!(!result.optimized_plan.contains("true AND"));
}

#[test]
fn native_grouped_aggregates_are_correct() {
    let result = session(false)
        .execute_sql(
            "SELECT region, COUNT(*) AS rows, SUM(amount) AS revenue FROM sales GROUP BY region",
            false,
        )
        .unwrap();
    let totals = grouped_totals(&result);
    assert_eq!(totals["east"].0, 4);
    assert_eq!(totals["west"].0, 4);
    assert!((totals["east"].1 - 52.0).abs() < f64::EPSILON);
    assert!((totals["west"].1 - 92.0).abs() < f64::EPSILON);
}

#[test]
fn encoded_multi_column_group_keys_match_across_runners() {
    fn keyed_session(distributed: bool) -> Session {
        let schema = Schema::new(vec![
            field("category", DataType::Utf8, true),
            field("code", DataType::Int64, true),
            field("amount", DataType::Float64, false),
        ]);
        let batches = vec![
            Batch::try_new(
                schema.clone(),
                vec![
                    Column::Utf8(vec![Some("a".to_owned()), Some("a".to_owned()), None]),
                    Column::Int64(vec![Some(1), Some(1), Some(2)]),
                    floats(&[1.0, 2.0, 3.0]),
                ],
                None,
            )
            .unwrap(),
            Batch::try_new(
                schema.clone(),
                vec![
                    Column::Utf8(vec![Some("a".to_owned()), Some("b".to_owned()), None]),
                    Column::Int64(vec![Some(2), Some(1), Some(2)]),
                    floats(&[4.0, 5.0, 6.0]),
                ],
                None,
            )
            .unwrap(),
        ];
        let mut session = Session::new(SessionConfig {
            distributed,
            workers: 2,
            ..SessionConfig::default()
        });
        session.register_memory(
            "keyed",
            MemoryTable::new(
                schema,
                batches.into_iter().map(|batch| vec![batch]).collect(),
            )
            .unwrap(),
        );
        session
    }

    let sql = "SELECT category, code, COUNT(*) AS rows, SUM(amount) AS total \
               FROM keyed GROUP BY category, code";
    let native = keyed_session(false).execute_sql(sql, false).unwrap();
    let cluster = keyed_session(true).execute_sql(sql, false).unwrap();
    let rows = result_rows(&native);

    assert_eq!(result_rows(&cluster), rows);
    assert_eq!(rows.len(), 4);
    for expected in [
        vec![
            ScalarValue::Null,
            ScalarValue::Int64(2),
            ScalarValue::UInt64(2),
            float(9.0),
        ],
        vec![
            ScalarValue::Utf8("a".to_owned()),
            ScalarValue::Int64(1),
            ScalarValue::UInt64(2),
            float(3.0),
        ],
        vec![
            ScalarValue::Utf8("a".to_owned()),
            ScalarValue::Int64(2),
            ScalarValue::UInt64(1),
            float(4.0),
        ],
        vec![
            ScalarValue::Utf8("b".to_owned()),
            ScalarValue::Int64(1),
            ScalarValue::UInt64(1),
            float(5.0),
        ],
    ] {
        assert!(rows.contains(&expected));
    }
    assert!(cluster.distributed);
}

#[test]
fn aggregate_states_cover_distinct_avg_min_and_max() {
    let result = session(false)
        .execute_sql(
            "SELECT COUNT(DISTINCT region) AS regions, AVG(amount) AS average, MIN(amount) AS minimum, MAX(amount) AS maximum FROM sales",
            false,
        )
        .unwrap();
    let batch = &result.batches[0];
    assert_eq!(
        value_at(batch.column(0), 0).unwrap(),
        ScalarValue::UInt64(2)
    );
    assert_eq!(
        value_at(batch.column(1), 0).unwrap(),
        float(18.0)
    );
    assert_eq!(
        value_at(batch.column(2), 0).unwrap(),
        float(10.0)
    );
    assert_eq!(
        value_at(batch.column(3), 0).unwrap(),
        float(26.0)
    );
}

#[test]
fn global_aggregates_handle_empty_input() {
    let mut session = Session::new(SessionConfig::default());
    session.register_memory(
        "empty_sales",
        MemoryTable::new(sales_schema(), Vec::new()).unwrap(),
    );
    let result = session
        .execute_sql("SELECT COUNT(*) AS rows, SUM(amount) AS revenue FROM empty_sales", false)
        .unwrap();
    assert_eq!(
        value_at(result.batches[0].column(0), 0).unwrap(),
        ScalarValue::UInt64(0)
    );
    assert_eq!(
        value_at(result.batches[0].column(1), 0).unwrap(),
        ScalarValue::Null
    );

    let grouped = session
        .execute_sql("SELECT region, COUNT(*) AS rows FROM empty_sales GROUP BY region", false)
        .unwrap();
    assert_eq!(grouped.row_count(), 0);
    assert_eq!(grouped.batches.len(), 1);
    assert_eq!(grouped.batches[0].num_columns(), 2);
}

#[test]
fn local_cluster_matches_native_aggregate() {
    let sql = "SELECT region, COUNT(*) AS rows, SUM(amount) AS revenue FROM sales GROUP BY region";
    let native = session(false).execute_sql(sql, false).unwrap();
    let cluster = session(true).execute_sql(sql, false).unwrap();
    assert_eq!(grouped_totals(&native), grouped_totals(&cluster));
    assert!(cluster.distributed);
    assert_eq!(cluster.stages, 2);
    assert!(cluster.metrics.shuffled_rows > 0);
    assert!(cluster.metrics.shuffled_bytes > 0);
    assert_eq!(cluster.metrics.tasks, 4);
    assert_eq!(cluster.metrics.operators.len(), 2);
    assert_eq!(cluster.metrics.operators[0].operator_id, 0);
    assert_eq!(cluster.metrics.operators[0].name, "HashAggregate");
    assert_eq!(cluster.metrics.operators[0].output_rows, 2);
    assert_eq!(cluster.metrics.operators[1].operator_id, 1);
    assert_eq!(cluster.metrics.operators[1].name, "Scan");
}

#[test]
fn local_cluster_matches_native_null_filter_semantics() {
    fn nullable_session(distributed: bool) -> Session {
        let schema = Schema::new(vec![field(
            "flag",
            DataType::Boolean,
            true,
        )]);
        let partitions = vec![
            vec![
                Batch::try_new(
                    schema.clone(),
                    vec![Column::Boolean(vec![Some(true), Some(false)])],
                    None,
                )
                .unwrap(),
            ],
            vec![
                Batch::try_new(
                    schema.clone(),
                    vec![Column::Boolean(vec![None, Some(true)])],
                    None,
                )
                .unwrap(),
            ],
        ];
        let mut session = Session::new(SessionConfig {
            distributed,
            workers: 2,
            ..SessionConfig::default()
        });
        session.register_memory("flags", MemoryTable::new(schema, partitions).unwrap());
        session
    }

    let sql = "SELECT COUNT(*) AS rows FROM flags WHERE flag OR NULL";
    let native = nullable_session(false).execute_sql(sql, false).unwrap();
    let cluster = nullable_session(true).execute_sql(sql, false).unwrap();
    let native_count = value_at(native.batches[0].column(0), 0).unwrap();
    let cluster_count = value_at(cluster.batches[0].column(0), 0).unwrap();

    assert_eq!(native_count, ScalarValue::UInt64(2));
    assert_eq!(cluster_count, native_count);
    assert!(cluster.distributed);
    assert_eq!(cluster.stages, 2);
}

#[test]
fn distinct_aggregate_safely_falls_back_to_native() {
    let result = session(true)
        .execute_sql("SELECT COUNT(DISTINCT customer_id) AS customers FROM sales", false)
        .unwrap();
    assert!(!result.distributed);
    assert_eq!(result.stages, 1);
    assert_eq!(
        value_at(result.batches[0].column(0), 0).unwrap(),
        ScalarValue::UInt64(2)
    );
}

#[test]
fn executes_inner_hash_join() {
    let mut session = session(false);
    let schema = Schema::new(vec![
        field("customer_id", DataType::Int64, false),
        field("tier", DataType::Utf8, false),
    ]);
    let batch = Batch::try_new(
        schema.clone(),
        vec![
            integers(&[10, 20]),
            texts(&["gold", "silver"]),
        ],
        None,
    )
    .unwrap();
    session.register_memory(
        "customers",
        MemoryTable::new(schema, vec![vec![batch]]).unwrap(),
    );
    let result = session
        .execute_sql(
            "SELECT sales.id, customers.tier FROM sales JOIN customers ON sales.customer_id = customers.customer_id",
            false,
        )
        .unwrap();
    assert_eq!(result.row_count(), 8);
}

#[test]
fn encoded_multi_column_join_keys_preserve_matches() {
    let mut session = session(false);
    let schema = Schema::new(vec![
        field("customer_id", DataType::Int64, true),
        field("region", DataType::Utf8, true),
        field("label", DataType::Utf8, false),
    ]);
    let batch = Batch::try_new(
        schema.clone(),
        vec![
            Column::Int64(vec![Some(10), Some(20), None]),
            Column::Utf8(vec![
                Some("east".to_owned()),
                Some("west".to_owned()),
                Some("east".to_owned()),
            ]),
            texts(&["east-10", "west-20", "null-key"]),
        ],
        None,
    )
    .unwrap();
    session.register_memory(
        "lookup",
        MemoryTable::new(schema, vec![vec![batch]]).unwrap(),
    );

    let result = session
        .execute_sql(
            "SELECT sales.id, lookup.label FROM sales JOIN lookup \
             ON sales.customer_id = lookup.customer_id AND sales.region = lookup.region \
             ORDER BY sales.id", false)
        .unwrap();
    let rows = result_rows(&result);
    assert_eq!(rows.len(), 8);
    for (index, row) in rows.iter().enumerate() {
        assert_eq!(row[0], ScalarValue::Int64(index as i64));
        assert_eq!(
            row[1],
            ScalarValue::Utf8(if index % 2 == 0 { "east-10" } else { "west-20" }.to_owned())
        );
    }
}

#[test]
fn detects_ambiguous_join_columns_and_resolves_qualified_columns() {
    let mut session = session(false);
    let schema = Schema::new(vec![
        field("id", DataType::Int64, false),
        field("customer_id", DataType::Int64, false),
    ]);
    let batch = Batch::try_new(
        schema.clone(),
        vec![
            integers(&[100, 200]),
            integers(&[10, 20]),
        ],
        None,
    )
    .unwrap();
    session.register_memory(
        "customers",
        MemoryTable::new(schema, vec![vec![batch]]).unwrap(),
    );

    let error = session
        .sql("SELECT id FROM sales JOIN customers ON sales.customer_id = customers.customer_id")
        .unwrap_err();
    assert!(matches!(error, SparkXError::Planning(message) if message.contains("ambiguous")));

    let error = session
        .sql("SELECT sales.id FROM sales JOIN customers ON customer_id = customer_id")
        .unwrap_err();
    assert!(matches!(error, SparkXError::Planning(message) if message.contains("ambiguous")));

    let result = session
        .execute_sql(
            "SELECT sales.id AS sale_id, customers.id AS customer_row_id \
             FROM sales JOIN customers \
             ON sales.customer_id = customers.customer_id \
             ORDER BY sale_id LIMIT 1", false)
        .unwrap();
    assert_eq!(
        value_at(result.batches[0].column(0), 0).unwrap(),
        ScalarValue::Int64(0)
    );
    assert_eq!(
        value_at(result.batches[0].column(1), 0).unwrap(),
        ScalarValue::Int64(100)
    );
}

#[test]
fn table_aliases_define_the_visible_qualifier() {
    let mut session = session(false);
    let result = session
        .execute_sql("SELECT s.id FROM sales AS s ORDER BY s.id LIMIT 1", false)
        .unwrap();
    assert_eq!(
        value_at(result.batches[0].column(0), 0).unwrap(),
        ScalarValue::Int64(0)
    );

    let error = session.sql("SELECT sales.id FROM sales AS s").unwrap_err();
    assert!(matches!(error, SparkXError::Planning(message) if message.contains("does not exist")));
}

#[test]
fn executes_left_hash_join_with_null_extension() {
    let mut session = session(false);
    let schema = Schema::new(vec![
        field("customer_id", DataType::Int64, false),
        field("tier", DataType::Utf8, false),
    ]);
    let batch = Batch::try_new(
        schema.clone(),
        vec![
            integers(&[10]),
            texts(&["gold"]),
        ],
        None,
    )
    .unwrap();
    session.register_memory(
        "customers",
        MemoryTable::new(schema, vec![vec![batch]]).unwrap(),
    );
    let result = session
        .execute_sql(
            "SELECT COUNT(customers.tier) AS matched FROM sales LEFT JOIN customers ON sales.customer_id = customers.customer_id",
            false,
        )
        .unwrap();
    assert_eq!(
        value_at(result.batches[0].column(0), 0).unwrap(),
        ScalarValue::UInt64(4)
    );
}

#[test]
fn implements_sql_three_valued_boolean_logic() {
    let schema = Schema::new(vec![field(
        "flag",
        DataType::Boolean,
        true,
    )]);
    let batch = Batch::try_new(
        schema.clone(),
        vec![Column::Boolean(vec![
            Some(true),
            Some(false),
            None,
        ])],
        None,
    )
    .unwrap();
    let mut session = Session::new(SessionConfig::default());
    session.register_memory(
        "flags",
        MemoryTable::new(schema, vec![vec![batch]]).unwrap(),
    );

    let result = session
        .execute_sql(
            "SELECT flag, flag AND NULL AS and_unknown, flag OR NULL AS or_unknown, \
             flag IS NULL AS missing, flag IS NOT NULL AS present FROM flags", false)
        .unwrap();
    let batch = &result.batches[0];
    let expected = [
        [
            ScalarValue::Boolean(true),
            ScalarValue::Null,
            ScalarValue::Boolean(true),
            ScalarValue::Boolean(false),
            ScalarValue::Boolean(true),
        ],
        [
            ScalarValue::Boolean(false),
            ScalarValue::Boolean(false),
            ScalarValue::Null,
            ScalarValue::Boolean(false),
            ScalarValue::Boolean(true),
        ],
        [
            ScalarValue::Null,
            ScalarValue::Null,
            ScalarValue::Null,
            ScalarValue::Boolean(true),
            ScalarValue::Boolean(false),
        ],
    ];
    for (row, expected_row) in expected.iter().enumerate() {
        for (column, expected_value) in expected_row.iter().enumerate() {
            assert_eq!(
                value_at(batch.column(column), row).unwrap(),
                *expected_value
            );
        }
    }

    let filtered = session
        .execute_sql("SELECT flag FROM flags WHERE flag OR NULL", false)
        .unwrap();
    assert_eq!(filtered.row_count(), 1);
    assert_eq!(
        value_at(filtered.batches[0].column(0), 0).unwrap(),
        ScalarValue::Boolean(true)
    );

    let missing = session
        .execute_sql("SELECT flag FROM flags WHERE flag IS NULL", false)
        .unwrap();
    assert_eq!(missing.row_count(), 1);
    assert_eq!(
        value_at(missing.batches[0].column(0), 0).unwrap(),
        ScalarValue::Null
    );
}

#[test]
fn null_comparisons_produce_unknown() {
    let mut session = session(false);
    let result = session
        .execute_sql("SELECT id = NULL AS comparison FROM sales LIMIT 1", false)
        .unwrap();
    assert_eq!(
        value_at(result.batches[0].column(0), 0).unwrap(),
        ScalarValue::Null
    );

    let filtered = session
        .execute_sql("SELECT id FROM sales WHERE id = NULL", false)
        .unwrap();
    assert_eq!(filtered.row_count(), 0);
}

#[test]
fn explains_all_three_plan_layers() {
    let explanation = session(false)
        .explain(
            "SELECT region, SUM(amount) AS revenue FROM sales WHERE amount > 10 GROUP BY region",
        )
        .unwrap();
    assert!(explanation.contains("== Logical Plan =="));
    assert!(explanation.contains("== Optimized Logical Plan =="));
    assert!(explanation.contains("== Physical Plan =="));
    assert!(explanation.contains("HashAggregate"));
}

#[test]
fn physical_operator_ids_and_metrics_are_stable() {
    let sql = "SELECT id, amount FROM sales WHERE amount >= 22 ORDER BY id LIMIT 2";
    let first = session(false).execute_sql(sql, false).unwrap();
    let second = session(false).execute_sql(sql, false).unwrap();

    assert_eq!(first.physical_plan, second.physical_plan);
    assert!(first.physical_plan.contains("TopKExec#0"));
    assert!(first.physical_plan.contains("ProjectionExec#1"));
    assert!(first.physical_plan.contains("ScanExec#2"));

    let operators = first
        .metrics
        .operators
        .iter()
        .map(|operator| (operator.operator_id, operator.name.as_str()))
        .collect::<Vec<_>>();
    assert_eq!(operators, vec![(0, "TopK"), (1, "Projection"), (2, "Scan")]);
    assert!(first
        .metrics
        .operators
        .iter()
        .all(|operator| operator.output_batches > 0));
    assert_eq!(first.metrics.operators[0].output_rows, 2);
}

#[test]
fn a_distributed_query_keeps_within_its_memory() {
    let sql = "SELECT region, COUNT(*) AS rows FROM sales GROUP BY region";
    let mut small = Session::new(SessionConfig {
        distributed: true,
        memory_limit_bytes: 1,
        ..SessionConfig::default()
    });
    let partitions = (0..2).map(|i| vec![sales_batch(i)]).collect();
    let table = MemoryTable::new(sales_schema(), partitions).unwrap();
    small.register_memory("sales", table);
    assert!(matches!(
        small.execute_sql(sql, false),
        Err(SparkXError::ResourceExhausted(_))
    ));
}

#[test]
fn rejects_unknown_columns_during_planning() {
    let error = session(false).sql("SELECT missing FROM sales").unwrap_err();
    assert!(matches!(error, SparkXError::Planning(_)));
}

#[test]
fn a_limit_reads_no_further_than_it_lets_through() {
    let schema = || Schema::new(vec![field("value", DataType::Int64, false)]);
    let batch = |cells: &[i64]| Batch::try_new(schema(), vec![integers(cells)], None).unwrap();
    let mut session = Session::new(SessionConfig::default());
    session.register_memory(
        "numbers",
        MemoryTable::from_batches(&vec![batch(&[1, 2]), batch(&[0])], 1).unwrap(),
    );
    let run = |limit: usize| {
        let sql = format!("SELECT 10 / value AS q FROM numbers LIMIT {limit}");
        session.execute_sql(&sql, false)
    };
    assert_eq!(run(0).unwrap().row_count(), 0);
    assert_eq!(run(1).unwrap().row_count(), 1);
    assert_eq!(run(2).unwrap().row_count(), 2);
    assert!(run(3).is_err());
}

#[test]
fn simplification_keeps_the_values_of_columns_without_a_type() {
    let schema = Schema::new(vec![field("c", DataType::Null, true)]);
    let batch = Batch::try_new(schema.clone(), vec![Column::Null(2)], None).unwrap();
    let expr = Expr::Binary {
        left: Box::new(Expr::Literal(ScalarValue::Boolean(true))),
        op: Operator::And,
        right: Box::new(Expr::Column("c".to_owned())),
    };
    let simple = expr.simplify(&schema).unwrap();
    assert_eq!(simple, Expr::Column("c".to_owned()));
    let (before, after) = (
        evaluate(&expr, &batch).unwrap(),
        evaluate(&simple, &batch).unwrap(),
    );
    assert_eq!(before, Column::Boolean(vec![None, None]));
    for row in 0..2 {
        assert_eq!(value_at(&before, row).unwrap(), value_at(&after, row).unwrap());
    }
}

#[test]
fn an_optimized_query_gives_the_rows_of_the_plan_as_it_was() {
    let session = session(false);
    for sql in [
        "SELECT amount + 1.0 AS more, region FROM sales WHERE id > 1 AND TRUE",
        "SELECT region, COUNT(*) AS n, MAX(amount + (1 + 1)) AS most FROM sales WHERE id > 0 GROUP BY region",
        "SELECT a.id, b.amount FROM sales a JOIN sales b ON a.id = b.id",
        "SELECT id, amount FROM sales WHERE amount > 10.0 ORDER BY amount DESC LIMIT 2",
    ] {
        let planned = session.plan(session.sql(sql).unwrap()).unwrap();
        let catalog = session.catalog();
        let plain = PhysicalPlanner::create_physical_plan(&planned.logical, catalog).unwrap();
        let before = execute(&plain, session.tables(), None).unwrap();
        let after = execute(&planned.physical, session.tables(), None).unwrap();
        assert_eq!(before.len(), after.len(), "{sql}");
        for (a, b) in before.iter().zip(&after) {
            assert_eq!(a.columns(), b.columns(), "{sql}");
        }
    }
}

#[test]
fn a_spread_aggregation_notes_what_it_claimed() {
    let sql = "SELECT region, COUNT(*) AS n FROM sales GROUP BY region";
    let spread = session(true).execute_sql(sql, false).unwrap();
    assert!(spread.distributed);
    assert!(spread.metrics.peak_memory_bytes > 0);
    let native = session(false).execute_sql(sql, false).unwrap();
    assert_eq!(native.metrics.peak_memory_bytes, 0);
}
