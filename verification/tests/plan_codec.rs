use sparkx::batch::Batch;
use sparkx::column::Column;
use sparkx::catalog::Catalog;
use sparkx::execution::run::execute;
use sparkx::fragment::MAX_PLAN_FRAGMENT_BYTES;
use sparkx::optimizer::Optimizer;
use sparkx::physical::PhysicalPlan;
use sparkx::plan_codec::PhysicalPlanCodec;
use sparkx::planner::PhysicalPlanner;
use sparkx::protocol::{QueryId, StageId, StagePlan};
use sparkx::session::{Session, SessionConfig};
use sparkx::table::MemoryTable;
use sparkx::types::{DataType, Field, Schema};
use sparkx::SparkXError;

fn integers(cells: &[i64]) -> Column {
    Column::Int64(cells.iter().map(|n| Some(*n)).collect())
}

fn floats(cells: &[f64]) -> Column {
    Column::Float64(cells.iter().map(|x| Some(x.to_bits())).collect())
}

fn texts(cells: &[&str]) -> Column {
    Column::Utf8(cells.iter().map(|s| Some((*s).to_owned())).collect())
}

fn field(name: &str, data_type: DataType, nullable: bool) -> Field {
    Field::new(name.to_owned(), data_type, nullable)
}

fn test_session() -> Session {
    let mut session = Session::new(SessionConfig::default());
    let sales_schema = Schema::new(vec![
        field("id", DataType::Int64, false),
        field("region", DataType::Utf8, false),
        field("customer_id", DataType::Int64, false),
        field("amount", DataType::Float64, false),
    ]);
    let sales = Batch::try_new(
        sales_schema.clone(),
        vec![
            integers(&[1, 2, 3, 4]),
            texts(&["east", "west", "east", "west"]),
            integers(&[10, 20, 10, 20]),
            floats(&[12.0, 8.0, 18.0, 72.0]),
        ],
        None,
    )
    .unwrap();
    session.register_memory("sales", MemoryTable::from_batches(&vec![sales], 2).unwrap());

    let customers_schema = Schema::new(vec![
        field("customer_id", DataType::Int64, false),
        field("name", DataType::Utf8, false),
    ]);
    let customers = Batch::try_new(
        customers_schema.clone(),
        vec![
            integers(&[10, 20]),
            texts(&["Ada", "Ben"]),
        ],
        None,
    )
    .unwrap();
    session.register_memory(
        "customers",
        MemoryTable::new(customers_schema, vec![vec![customers]]).unwrap(),
    );
    session
}

fn physical_plan(session: &Session, sql: &str) -> PhysicalPlan {
    let optimized = Optimizer
        .optimize(session.sql(sql).unwrap())
        .unwrap();
    PhysicalPlanner::create_physical_plan(&optimized, session.catalog()).unwrap()
}

#[test]
fn round_trips_and_executes_every_physical_operator_shape() {
    let session = test_session();
    let queries = [
        "SELECT id, amount + 1 AS adjusted FROM sales WHERE amount > 10 ORDER BY adjusted DESC LIMIT 2",
        "SELECT region, SUM(amount) AS revenue FROM sales GROUP BY region HAVING revenue > 1 ORDER BY revenue DESC",
        "SELECT id FROM sales LIMIT 2",
        "SELECT sales.id, customers.name FROM sales LEFT JOIN customers ON sales.customer_id = customers.customer_id ORDER BY sales.id",
    ];

    for sql in queries {
        let original = physical_plan(&session, sql);
        let bytes = PhysicalPlanCodec::encode(&original).unwrap();
        PhysicalPlanCodec::validate_fragment(&bytes).unwrap();
        let decoded = PhysicalPlanCodec::decode(&bytes, session.catalog()).unwrap();

        assert_eq!(decoded.explain(), original.explain(), "query: {sql}");
        assert_eq!(decoded.schema(), original.schema(), "query: {sql}");
        assert_eq!(
            execute(&decoded, session.tables(), None).unwrap(),
            execute(&original, session.tables(), None).unwrap(),
            "query: {sql}"
        );
    }
}

#[test]
fn stage_plan_owns_a_valid_decodable_fragment() {
    let session = test_session();
    let physical = physical_plan(&session, "SELECT id FROM sales WHERE amount > 10");
    let stage = StagePlan::from_physical_plan(
        QueryId::new("query-codec").unwrap(),
        StageId(1),
        Vec::new(),
        2,
        &physical,
    )
    .unwrap();

    stage.validate().unwrap();
    let decoded_stage = stage.clone();
    let decoded_plan = decoded_stage
        .decode_physical_plan(session.catalog())
        .unwrap();

    assert_eq!(decoded_plan.explain(), physical.explain());
}

#[test]
fn rejects_corrupt_versions_unknown_tables_and_schema_drift() {
    let session = test_session();
    let physical = physical_plan(&session, "SELECT id FROM sales");
    let bytes = PhysicalPlanCodec::encode(&physical).unwrap();

    assert!(matches!(
        PhysicalPlanCodec::validate_fragment(&vec![]),
        Err(SparkXError::Protocol(_))
    ));
    assert!(matches!(
        PhysicalPlanCodec::validate_fragment(&bytes[..bytes.len() / 2].to_vec()),
        Err(SparkXError::Protocol(_))
    ));

    let mut wrong_version = bytes.clone();
    assert_eq!(wrong_version[0], 8);
    wrong_version[1] = wrong_version[1].saturating_add(1);
    assert!(matches!(
        PhysicalPlanCodec::validate_fragment(&wrong_version),
        Err(SparkXError::Protocol(_))
    ));

    assert!(matches!(
        PhysicalPlanCodec::decode(&bytes, &Catalog::default()),
        Err(SparkXError::Protocol(_))
    ));

    let mut drifted_catalog = Catalog::default();
    let drifted_schema = Schema::new(vec![field("id", DataType::Utf8, false)]);
    drifted_catalog.register(
        "sales",
        MemoryTable::new(drifted_schema, vec![Vec::new()])
            .unwrap()
            .describe(),
    );
    assert!(matches!(
        PhysicalPlanCodec::decode(&bytes, &drifted_catalog),
        Err(SparkXError::Protocol(_))
    ));
}

#[test]
fn enforces_fragment_size_depth_and_supported_types() {
    assert!(matches!(
        PhysicalPlanCodec::validate_fragment(&vec![0; MAX_PLAN_FRAGMENT_BYTES + 1]),
        Err(SparkXError::Protocol(_))
    ));

    let schema = Schema::new(vec![field(
        "payload",
        DataType::Other("Binary".to_owned()),
        false,
    )]);
    let provider = MemoryTable::new(schema.clone(), vec![Vec::new()])
        .unwrap()
        .describe();
    let unsupported = PhysicalPlan::Scan {
        id: 0,
        table_name: "binary_input".to_owned(),
        provider,
        projection: None,
        filters: Vec::new(),
        schema: schema.clone(),
    };
    assert!(matches!(
        PhysicalPlanCodec::encode(&unsupported),
        Err(SparkXError::Protocol(_))
    ));

    let base_schema = Schema::new(vec![field(
        "value",
        DataType::Int64,
        false,
    )]);
    let base_provider = MemoryTable::new(base_schema.clone(), vec![Vec::new()])
        .unwrap()
        .describe();
    let mut deep = PhysicalPlan::Scan {
        id: 0,
        table_name: "deep".to_owned(),
        provider: base_provider,
        projection: None,
        filters: Vec::new(),
        schema: base_schema.clone(),
    };
    for id in 1..=128 {
        deep = PhysicalPlan::Limit {
            id,
            input: Box::new(deep),
            limit: 1,
            schema: base_schema.clone(),
        };
    }
    assert!(matches!(
        PhysicalPlanCodec::encode(&deep),
        Err(SparkXError::Protocol(_))
    ));
}
