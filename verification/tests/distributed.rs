use sparkx::batch::Batch;
use sparkx::column::Column;
use sparkx::distributed::local::{
    local_registration, partial_aggregate_exprs, report_partition, LocalCluster,
};
use sparkx::distributed::merge::merge_partials;
use sparkx::distributed::run::settle_shuffle;
use sparkx::expr::{AggregateFunction, Expr};
use sparkx::protocol::{TaskState, WorkerMessage};
use sparkx::session::{Session, SessionConfig};
use sparkx::table::MemoryTable;
use sparkx::types::{DataType, Field, Schema};
use sparkx::{QueryMemory, SparkXError};

fn field(name: &str, data_type: DataType) -> Field {
    Field::new(name.to_owned(), data_type, true)
}

fn call(function: AggregateFunction) -> Expr {
    Expr::Aggregate {
        function,
        expr: Box::new(Expr::column("x".to_owned())),
        distinct: false,
    }
}

fn floats(cells: &[Option<f64>]) -> Column {
    Column::Float64(cells.iter().map(|x| x.map(f64::to_bits)).collect())
}

#[test]
fn averages_are_computed_from_sums_and_counts() {
    let partials = partial_aggregate_exprs(&vec![
        call(AggregateFunction::Max),
        call(AggregateFunction::Avg).alias("mean".to_owned()),
    ])
    .unwrap();
    let texts: Vec<String> = partials.iter().map(|expr| expr.to_text()).collect();
    assert_eq!(
        texts,
        vec![
            "MAX(#x) AS MAX(#x)",
            "SUM(#x) AS __sparkx_avg_sum_1",
            "COUNT(#x) AS __sparkx_avg_count_1",
        ]
    );
    assert!(matches!(
        partial_aggregate_exprs(&vec![Expr::column("x".to_owned())]),
        Err(SparkXError::Planning(_))
    ));
}

fn partials(keys: &[i32], counts: &[u64], sums: &[Option<f64>]) -> Batch {
    Batch::try_new(
        Schema::new(vec![
            field("key", DataType::Int32),
            field("count", DataType::UInt64),
            field("sum", DataType::Float64),
            field("avg_sum", DataType::Float64),
            field("avg_count", DataType::UInt64),
        ]),
        vec![
            Column::Int32(keys.iter().map(|n| Some(*n)).collect()),
            Column::UInt64(counts.iter().map(|n| Some(*n)).collect()),
            floats(sums),
            floats(sums),
            Column::UInt64(counts.iter().map(|n| Some(*n)).collect()),
        ],
        None,
    )
    .unwrap()
}

#[test]
fn partial_results_merge_by_their_keys() {
    let schema = Schema::new(vec![
        field("key", DataType::Int32),
        field("count", DataType::UInt64),
        field("sum", DataType::Float64),
        field("avg", DataType::Float64),
    ]);
    let aggregates = vec![
        call(AggregateFunction::Count),
        call(AggregateFunction::Sum),
        call(AggregateFunction::Avg),
    ];
    let batches = vec![
        partials(&[7, -1], &[2, 1], &[Some(3.0), None]),
        partials(&[-1, 7], &[4, 2], &[Some(2.0), Some(5.0)]),
    ];
    let mut memory = QueryMemory::new(1_000_000);
    let merged = merge_partials(&batches, 1, &aggregates, &schema, &mut memory).unwrap();
    assert_eq!(*merged.column(0), Column::Int32(vec![Some(-1), Some(7)]));
    assert_eq!(*merged.column(1), Column::UInt64(vec![Some(5), Some(4)]));
    assert_eq!(*merged.column(2), floats(&[Some(2.0), Some(8.0)]));
    assert_eq!(*merged.column(3), floats(&[Some(0.4), Some(2.0)]));
    assert_eq!(memory.reserved_bytes(), 0);
    assert!(memory.peak_bytes() > 0);

    let mut small = QueryMemory::new(100);
    assert!(matches!(
        merge_partials(&batches, 1, &aggregates, &schema, &mut small),
        Err(SparkXError::ResourceExhausted(_))
    ));
    assert_eq!(small.reserved_bytes(), 0);

    let other = Schema::new(vec![
        field("key", DataType::Int64),
        field("count", DataType::UInt64),
    ]);
    assert_eq!(
        merge_partials(&batches, 1, &vec![call(AggregateFunction::Count)], &other, &mut memory)
            .unwrap_err()
            .to_text(),
        "Arrow error: Invalid argument error: RowConverter column schema mismatch, expected Int64 \
         got Int32"
    );
}

#[test]
fn workers_of_the_process_register_and_report() {
    match local_registration(12, 99) {
        WorkerMessage::Register { registration, .. } => {
            assert_eq!(registration.worker_id.as_str(), "local-worker-0012");
            assert_eq!(registration.slots, 1);
        }
        other => panic!("{other:?}"),
    }
    assert!(matches!(
        report_partition(None),
        TaskState::Succeeded { output_blocks, .. } if output_blocks.is_empty()
    ));
    assert!(matches!(
        report_partition(Some(&SparkXError::Cancelled)),
        TaskState::Cancelled { .. }
    ));
    assert!(matches!(
        report_partition(Some(&SparkXError::execution("x".to_owned()))),
        TaskState::Failed { retryable: false, .. }
    ));
    assert_eq!(LocalCluster::new(0).workers_for(4), 1);
    assert_eq!(LocalCluster::new(8).workers_for(4), 4);
}

#[test]
fn claims_for_a_shuffle_follow_what_arrived() {
    let mut memory = QueryMemory::new(100);
    let mut claim = memory.try_reserve(40).unwrap();
    settle_shuffle(&mut claim, &mut memory, 40, 25).unwrap();
    assert_eq!(claim.bytes(), 25);
    settle_shuffle(&mut claim, &mut memory, 25, 60).unwrap();
    assert_eq!(memory.reserved_bytes(), 60);
    assert!(settle_shuffle(&mut claim, &mut memory, 60, 101).is_err());
    assert_eq!(memory.reserved_bytes(), 60);
}

#[test]
fn clusters_and_single_processes_agree_on_counts() {
    let schema = || Schema::new(vec![field("k", DataType::Utf8), field("n", DataType::Int64)]);
    let batch = |keys: &[&str], numbers: &[i64]| {
        let keys = keys.iter().map(|s| Some((*s).to_owned())).collect();
        let numbers = numbers.iter().map(|n| Some(*n)).collect();
        Batch::try_new(
            schema(),
            vec![Column::Utf8(keys), Column::Int64(numbers)],
            None,
        )
        .unwrap()
    };
    let run = |distributed: bool| {
        let mut session = Session::new(SessionConfig {
            distributed,
            ..SessionConfig::default()
        });
        let partitions = vec![
            vec![batch(&["x", "y"], &[1, 2])],
            vec![batch(&["y"], &[3])],
        ];
        session.register_memory("t", MemoryTable::new(schema(), partitions).unwrap());
        session
            .execute_sql(
                "SELECT k, COUNT(n) AS c, MIN(n) AS lo, MAX(n) AS hi FROM t GROUP BY k",
                false,
            )
            .unwrap()
    };
    let native = run(false);
    let cluster = run(true);
    assert!(!native.distributed && cluster.distributed);
    assert_eq!(native.batches, cluster.batches);
    let mut session = Session::new(SessionConfig {
        distributed: true,
        ..SessionConfig::default()
    });
    session.register_memory("t", MemoryTable::new(schema(), vec![]).unwrap());
    assert!(matches!(
        session.execute_sql("SELECT n FROM t", true),
        Err(SparkXError::Cancelled)
    ));
}

#[test]
fn clusters_and_single_processes_agree_on_extremes() {
    let schema = || Schema::new(vec![field("k", DataType::Utf8), field("n", DataType::Int64)]);
    let batch = |keys: &[&str], numbers: &[Option<i64>]| {
        let keys = keys.iter().map(|s| Some((*s).to_owned())).collect();
        Batch::try_new(
            schema(),
            vec![Column::Utf8(keys), Column::Int64(numbers.to_vec())],
            None,
        )
        .unwrap()
    };
    let run = |distributed: bool| {
        let mut session = Session::new(SessionConfig {
            distributed,
            ..SessionConfig::default()
        });
        let partitions = vec![
            vec![batch(&["x", "y"], &[Some(4), None])],
            vec![batch(&["y", "x", "x"], &[Some(-3), Some(9), Some(-1)])],
        ];
        let table = MemoryTable::new(schema(), partitions).unwrap();
        session.register_memory("t", table);
        let sql = "SELECT k, MIN(n) AS low, MAX(n) AS high FROM t GROUP BY k";
        session.execute_sql(sql, false).unwrap()
    };
    let native = run(false);
    let cluster = run(true);
    assert!(cluster.distributed);
    assert_eq!(native.batches[0].columns(), cluster.batches[0].columns());
    let low = Column::Int64(vec![Some(-1), Some(-3)]);
    assert_eq!(*native.batches[0].column(1), low);
    assert_eq!(cluster.metrics.shuffled_rows, 4);
    assert_eq!(cluster.metrics.tasks, 2);
    assert_eq!(native.metrics.output_rows, 2);
}
