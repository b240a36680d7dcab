use sparkx::batch::Batch;
use sparkx::column::Column;
use sparkx::coordinator::StageStatus;
use sparkx::protocol::{
    PartitionId, QueryId, ShuffleBlock, ShuffleLocation, StageId, StagePlan, TaskAttemptId,
    WorkerId,
};
use sparkx::remote::{
    check_remote_plan, decide, flight_endpoint, may_recover, remote_stages, renew_stage,
    stage_failure, stage_timeout, telling_stage, PartitionFailure, RemoteStageConfig,
    RemoteStageResult, RemoteStageRunner, StageStep,
};
use sparkx::session::{Session, SessionConfig};
use sparkx::table::MemoryTable;
use sparkx::types::{DataType, Field, Schema};
use sparkx::SparkXError;

fn schema(name: &str) -> Schema {
    Schema::new(vec![Field::new(name.to_owned(), DataType::Int64, false)])
}

fn batch(cells: &[i64]) -> Batch {
    let cells = cells.iter().map(|n| Some(*n)).collect();
    Batch::try_new(schema("value"), vec![Column::Int64(cells)], None).unwrap()
}

#[test]
fn configurations_of_clients_are_checked() {
    let config = || RemoteStageConfig::new("http://127.0.0.1:9".to_owned());
    config().validate().unwrap();
    for broken in [
        RemoteStageConfig {
            coordinator_endpoint: String::new(),
            ..config()
        },
        RemoteStageConfig {
            poll_interval_ns: 0,
            ..config()
        },
        RemoteStageConfig {
            timeout_ns: 0,
            ..config()
        },
    ] {
        assert!(matches!(broken.validate(), Err(SparkXError::Planning(_))));
    }
}

#[test]
fn clients_decide_by_how_their_stage_stands() {
    assert_eq!(
        decide(true, StageStatus::Succeeded, 0, 10),
        StageStep::Withdraw
    );
    assert_eq!(
        decide(false, StageStatus::Succeeded, 99, 10),
        StageStep::Fetch
    );
    assert_eq!(
        decide(false, StageStatus::Failed, 0, 10),
        StageStep::Explain
    );
    assert_eq!(
        decide(false, StageStatus::Cancelled, 0, 10),
        StageStep::Stop
    );
    assert_eq!(decide(false, StageStatus::Running, 9, 10), StageStep::Wait);
    assert_eq!(
        decide(false, StageStatus::Blocked, 10, 10),
        StageStep::TimeOut
    );
}

#[test]
fn failures_name_their_partitions() {
    let query = QueryId::new("q").unwrap();
    let failure = |partition: u32, error: &str| PartitionFailure {
        partition,
        attempt: 0,
        error: error.to_owned(),
    };
    assert_eq!(
        stage_failure(&query, StageId(2), &vec![failure(0, "x"), failure(3, "y")]).to_text(),
        "execution error: remote query q stage 2 failed: partition 0 attempt 0: x; partition 3 \
         attempt 0: y"
    );
    assert_eq!(
        stage_failure(&query, StageId(2), &vec![]).to_text(),
        "execution error: remote query q stage 2 failed"
    );
    assert_eq!(
        stage_timeout(&query, StageId(2), "20ms").to_text(),
        "execution error: remote query q stage 2 exceeded its 20ms timeout"
    );
}

#[test]
fn outputs_have_one_schema_and_a_reachable_place() {
    let mut result = RemoteStageResult::new(vec![]);
    result
        .merge_download(schema("value"), vec![batch(&[1])])
        .unwrap();
    result
        .merge_download(schema("value"), vec![batch(&[2]), batch(&[3])])
        .unwrap();
    assert_eq!(result.batches.len(), 3);
    assert!(matches!(
        result.merge_download(schema("other"), vec![]),
        Err(SparkXError::Protocol(_))
    ));
    let block = |location: ShuffleLocation| ShuffleBlock {
        producer: TaskAttemptId {
            query_id: QueryId::new("q").unwrap(),
            stage_id: StageId(0),
            partition_id: PartitionId(0),
            attempt: 0,
        },
        output_partition: PartitionId(0),
        rows: 0,
        bytes: 0,
        checksum: "crc32:0".to_owned(),
        location,
    };
    let worker_id = || WorkerId::new("w").unwrap();
    let flight = block(ShuffleLocation::Flight {
        worker_id: worker_id(),
        endpoint: "http://w:1".to_owned(),
        ticket: "t".to_owned(),
    });
    assert_eq!(flight_endpoint(&flight).unwrap(), "http://w:1");
    let local = block(ShuffleLocation::Worker {
        worker_id: worker_id(),
    });
    assert!(matches!(
        flight_endpoint(&local),
        Err(SparkXError::Unsupported(_))
    ));
}

#[test]
fn session_rejects_global_remote_sql_before_submission() {
    let mut session = Session::new(SessionConfig::default());
    session.register_memory(
        "input",
        MemoryTable::from_batches(&vec![batch(&[1, 2])], 1).unwrap(),
    );
    let check = |sql: &str| {
        let planned = session.plan(session.sql(sql).unwrap()).unwrap();
        check_remote_plan(&planned.physical)
    };
    check("SELECT value + 10 AS shifted FROM input WHERE value > 1").unwrap();
    assert!(matches!(
        check("SELECT COUNT(*) FROM input"),
        Err(SparkXError::Unsupported(message)) if message.contains("multi-stage merge planning")
    ));
}

#[test]
fn a_query_has_the_stages_of_its_plan() {
    let mut session = Session::new(SessionConfig::default());
    let table = MemoryTable::from_batches(&vec![batch(&[1, 2]), batch(&[3])], 2).unwrap();
    session.register_memory("input", table);
    let stages = |sql: &str| {
        let planned = session.plan(session.sql(sql).unwrap()).unwrap();
        remote_stages(&planned.physical, QueryId::new("query").unwrap())
    };
    let found = stages("SELECT value FROM input WHERE value > 1").unwrap();
    assert_eq!(found.len(), 1);
    assert_eq!((found[0].stage_id, found[0].partition_count), (StageId(0), 2));
    assert_eq!(found[0].query_id.as_str(), "query");
    let joined = stages("SELECT a.value FROM input a JOIN input b ON a.value = b.value").unwrap();
    assert_eq!(joined.len(), 3);
    assert!(matches!(
        stages("SELECT COUNT(*) FROM input"),
        Err(SparkXError::Unsupported(_))
    ));
}

#[test]
fn the_first_failed_stage_tells_how_a_query_stands() {
    let (running, failed) = (StageStatus::Running, StageStatus::Failed);
    assert_eq!(telling_stage(&vec![running, failed, failed]), 1);
    assert_eq!(telling_stage(&vec![running, running]), 1);
    assert_eq!(telling_stage(&vec![failed, StageStatus::Succeeded]), 0);
}

#[test]
fn a_runner_has_a_sound_configuration() {
    let config = RemoteStageConfig::new("http://here:1".to_owned());
    let runner = RemoteStageRunner::new(config).unwrap();
    assert_eq!(runner.config().coordinator_endpoint, "http://here:1");
    let mut config = RemoteStageConfig::new("http://here:1".to_owned());
    config.poll_interval_ns = 0;
    assert!(matches!(RemoteStageRunner::new(config), Err(SparkXError::Planning(_))));
}

#[test]
fn lost_output_is_computed_again_within_the_budget() {
    let mut config = RemoteStageConfig::new("http://here:1".to_owned());
    assert_eq!(config.max_query_retries, 0);
    let gone = SparkXError::transport("connection refused".to_owned());
    assert!(!may_recover(&gone, &vec![], 0, &config, 0));
    config.max_query_retries = 1;
    assert!(may_recover(&gone, &vec![], 0, &config, 0));
    assert!(!may_recover(&gone, &vec![], 1, &config, 0));
    assert!(!may_recover(&gone, &vec![], 0, &config, config.timeout_ns));
    let missing = SparkXError::NotFound("data-plane block does not exist".to_owned());
    assert!(may_recover(&missing, &vec![], 0, &config, 0));
    let full = SparkXError::resource_exhausted("no memory".to_owned());
    assert!(!may_recover(&full, &vec![], 0, &config, 0));

    let failure = |error: &str| PartitionFailure {
        partition: 0,
        attempt: 0,
        error: error.to_owned(),
    };
    let lost = "transport error: upstream block unavailable: data-plane block does not exist";
    let stage = SparkXError::execution("remote query failed".to_owned());
    assert!(may_recover(&stage, &vec![failure(lost)], 0, &config, 0));
    let mixed = vec![failure(lost), failure("planning error: no such column")];
    assert!(!may_recover(&stage, &mixed, 0, &config, 0));
    assert!(!may_recover(&stage, &vec![], 0, &config, 0));
}

#[test]
fn a_query_that_is_run_again_has_another_name() {
    let stage = StagePlan {
        query_id: QueryId::new("lost-producer").unwrap(),
        stage_id: StageId(2),
        input_stages: vec![StageId(0), StageId(1)],
        partition_count: 1,
        plan_fragment: vec![1],
        output_exchange: None,
        partitioned_input: true,
    };
    let again = renew_stage(&stage, 1).unwrap();
    assert_eq!(again.query_id.as_str(), "lost-producer-retry-1");
    assert_eq!(again.input_stages, stage.input_stages);
    assert!(again.partitioned_input);
    let old = TaskAttemptId {
        query_id: stage.query_id.clone(),
        stage_id: StageId(2),
        partition_id: PartitionId(0),
        attempt: 0,
    };
    assert!(old.validate_for(&stage).is_ok());
    assert!(old.validate_for(&again).is_err());

    let long = StagePlan {
        query_id: QueryId::new(&"q".repeat(125)).unwrap(),
        ..stage
    };
    assert!(renew_stage(&long, 1).is_err());
}
