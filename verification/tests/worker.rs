use sparkx::control_plane::{check_message_size, validate_ack, ControlPlane, MAX_CONTROL_MESSAGE_BYTES};
use sparkx::coordinator::{Coordinator, CoordinatorConfig, StageStatus};
use sparkx::metrics::QueryMetrics;
use sparkx::physical::PhysicalPlan;
use sparkx::protocol::{
    CoordinatorMessage, PartitionId, QueryId, ShuffleBlock, ShuffleLocation, StageId, StagePlan,
    TaskAttemptId, TaskLease, TaskState, WorkerId, WorkerMessage, PROTOCOL_VERSION,
};
use sparkx::table::MemoryTable;
use sparkx::types::{DataType, Field, Schema};
use sparkx::worker::{TaskOutput, WorkerAction, WorkerConfig, WorkerState};
use sparkx::{QueryMemory, SparkXError};

fn worker_id() -> WorkerId {
    WorkerId::new("worker-a").unwrap()
}

fn config() -> WorkerConfig {
    WorkerConfig::new("http://127.0.0.1:50051".to_owned(), worker_id())
}

fn stage(partition_count: u32) -> StagePlan {
    let schema = || Schema::new(vec![Field::new("value".to_owned(), DataType::Int64, false)]);
    let plan = PhysicalPlan::Scan {
        id: 0,
        table_name: "input".to_owned(),
        provider: MemoryTable::new(schema(), vec![]).unwrap().describe(),
        projection: None,
        filters: vec![],
        schema: schema(),
    };
    let query = QueryId::new("query").unwrap();
    StagePlan::from_physical_plan(query, StageId(0), vec![], partition_count, &plan).unwrap()
}

fn task(partition: u32) -> TaskAttemptId {
    TaskAttemptId {
        query_id: QueryId::new("query").unwrap(),
        stage_id: StageId(0),
        partition_id: PartitionId(partition),
        attempt: 0,
    }
}

fn lease(worker: &str) -> TaskLease {
    TaskLease {
        worker_id: WorkerId::new(worker).unwrap(),
        issued_at_ms: 7,
        expires_at_ms: 100,
    }
}

fn assign(partition: u32, worker: &str) -> CoordinatorMessage {
    CoordinatorMessage::AssignTask {
        version: PROTOCOL_VERSION,
        stage: stage(4),
        task: task(partition),
        lease: lease(worker),
    }
}

fn output(rows: u64) -> TaskOutput {
    TaskOutput::of_blocks(vec![ShuffleBlock {
        producer: task(0),
        output_partition: PartitionId(0),
        rows,
        bytes: 8 * rows,
        checksum: "crc32:1".to_owned(),
        location: ShuffleLocation::Worker {
            worker_id: worker_id(),
        },
    }])
}

fn state_of(report: &WorkerMessage) -> &TaskState {
    match report {
        WorkerMessage::TaskUpdate { state, .. } => state,
        other => panic!("{other:?}"),
    }
}

#[test]
fn configurations_are_checked() {
    config().validate().unwrap();
    let broken = [
        WorkerConfig {
            coordinator_endpoint: " ".to_owned(),
            ..config()
        },
        WorkerConfig {
            slots: 0,
            ..config()
        },
        WorkerConfig {
            memory_bytes: 0,
            ..config()
        },
        WorkerConfig {
            batch_size: 0,
            ..config()
        },
        WorkerConfig {
            channel_capacity: 0,
            ..config()
        },
        WorkerConfig {
            heartbeat_interval_ns: 0,
            ..config()
        },
        WorkerConfig {
            poll_interval_ns: 0,
            ..config()
        },
        WorkerConfig {
            data_storage_bytes: 0,
            ..config()
        },
        WorkerConfig {
            max_terminal_tasks: Some(0),
            ..config()
        },
    ];
    for config in broken {
        assert!(matches!(config.validate(), Err(SparkXError::Planning(_))));
    }
}

#[test]
fn a_worker_takes_its_own_leases_up_to_its_slots() {
    let mut state = WorkerState::new(&config());
    assert_eq!(
        state.receive(assign(0, "worker-b")).unwrap_err().to_text(),
        "protocol error: worker worker-a received a lease owned by worker-b"
    );
    match state.receive(assign(0, "worker-a")).unwrap() {
        WorkerAction::Start { report, task: started, .. } => {
            assert_eq!(started, task(0));
            assert_eq!(*state_of(&report), TaskState::Running { started_at_ms: 7 });
        }
        other => panic!("{other:?}"),
    }
    assert_eq!(
        state.receive(assign(1, "worker-a")).unwrap_err().to_text(),
        "protocol error: worker worker-a received more assignments than its 1 slots"
    );
    let mut memory = QueryMemory::new(100);
    let _claim = memory.try_reserve(30).unwrap();
    let heartbeat = state.heartbeat(9, &memory);
    assert_eq!(heartbeat.available_slots, 0);
    assert_eq!(heartbeat.available_memory_bytes, 70);
    let ending = state.complete(task(0), &lease("worker-a"), Ok(output(3)));
    assert!(matches!(
        state_of(&ending.report),
        TaskState::Succeeded { finished_at_ms: 7, output_blocks } if output_blocks.len() == 1
    ));
    assert_eq!(ending.uncommitted.len(), 1);
    assert!(ending.discard.is_empty());
    assert!(state.settle().is_none());
    assert_eq!(state.heartbeat(10, &memory).available_slots, 1);
    let summary = state.summary(QueryMetrics::default().snapshot());
    assert_eq!(summary.completed_tasks, 1);
    assert_eq!(summary.output_rows, 3);
    assert_eq!(summary.output_bytes, 24);
}

#[test]
fn tasks_of_a_cancelled_query_end_cancelled() {
    let mut state = WorkerState::new(&config());
    state.receive(assign(0, "worker-a")).unwrap();
    let cancel = CoordinatorMessage::CancelQuery {
        version: PROTOCOL_VERSION,
        query_id: QueryId::new("query").unwrap(),
        reason: "no longer wanted".to_owned(),
    };
    match state.receive(cancel).unwrap() {
        WorkerAction::Interrupt { tasks } => assert_eq!(tasks, vec![task(0)]),
        other => panic!("{other:?}"),
    }
    let ending = state.complete(task(0), &lease("worker-a"), Ok(output(3)));
    assert_eq!(
        *state_of(&ending.report),
        TaskState::Cancelled {
            finished_at_ms: 7,
            reason: "no longer wanted".to_owned(),
        }
    );
    assert_eq!(ending.discard.len(), 1);
    assert!(ending.uncommitted.is_empty());
}

#[test]
fn failures_are_retried_where_that_may_help() {
    let cases = [
        (SparkXError::Io("disk".to_owned()), true),
        (SparkXError::Parquet("page".to_owned()), true),
        (SparkXError::Transport("peer".to_owned()), true),
        (SparkXError::planning("plan".to_owned()), false),
    ];
    for (error, expected) in cases {
        let mut state = WorkerState::new(&config());
        state.receive(assign(0, "worker-a")).unwrap();
        let text = error.to_text();
        let ending = state.complete(task(0), &lease("worker-a"), Err(error));
        assert_eq!(
            *state_of(&ending.report),
            TaskState::Failed {
                finished_at_ms: 7,
                error: text,
                retryable: expected,
            }
        );
    }
}

#[test]
fn a_worker_stops_when_told_or_when_it_has_done_enough() {
    let mut state = WorkerState::new(&config());
    state.receive(assign(0, "worker-a")).unwrap();
    assert_eq!(state.shut_down(), vec![task(0)]);
    assert!(state.is_stopping() && !state.is_over());
    let ending = state.complete(task(0), &lease("worker-a"), Err(SparkXError::Cancelled));
    assert!(matches!(
        state_of(&ending.report),
        TaskState::Failed { retryable: true, .. }
    ));
    assert!(state.is_over());

    let mut state = WorkerState::new(&WorkerConfig {
        max_terminal_tasks: Some(1),
        ..config()
    });
    state.receive(assign(0, "worker-a")).unwrap();
    state.complete(task(0), &lease("worker-a"), Ok(output(1)));
    assert_eq!(state.settle(), Some(vec![]));
    assert!(state.is_over());
}

fn service() -> ControlPlane {
    let mut service = ControlPlane::new(Coordinator::new(CoordinatorConfig::default()).unwrap());
    service.submit_stage(stage(2)).unwrap();
    let registration = WorkerState::new(&config()).registration(1024);
    service
        .worker_message(
            WorkerMessage::Register {
                version: PROTOCOL_VERSION,
                registration,
            },
            0,
        )
        .unwrap();
    service
}

#[test]
fn a_cancellation_reaches_the_workers_of_its_query_first() {
    let mut service = service();
    assert!(matches!(
        service.poll_assignment(&worker_id(), 1).unwrap(),
        Some(CoordinatorMessage::AssignTask { .. })
    ));
    let query = || QueryId::new("query").unwrap();
    let message = service.cancel_query(query(), "enough".to_owned()).unwrap();
    assert_eq!(
        service.poll_assignment(&worker_id(), 2).unwrap(),
        Some(message)
    );
    assert_eq!(service.poll_assignment(&worker_id(), 3).unwrap(), None);
    assert_eq!(
        service.coordinator().stage_status(&query(), StageId(0)).unwrap(),
        StageStatus::Cancelled
    );
    assert!(matches!(
        service.cancel_query(QueryId::new("other").unwrap(), "enough".to_owned()),
        Err(SparkXError::NotFound(_))
    ));
}

#[test]
fn messages_are_bounded_and_acknowledged() {
    check_message_size(MAX_CONTROL_MESSAGE_BYTES).unwrap();
    assert_eq!(
        check_message_size(MAX_CONTROL_MESSAGE_BYTES + 1)
            .unwrap_err()
            .to_text(),
        "resource exhausted: control message is 100663297 bytes; maximum is 100663296"
    );
    validate_ack(true).unwrap();
    assert!(matches!(validate_ack(false), Err(SparkXError::Protocol(_))));
}
