use serde_json::Value;
use sparkx::SparkXError;
use sparkx::protocol::{
    CoordinatorMessage, PROTOCOL_VERSION, PartitionId, QueryId, ShuffleBlock, ShuffleLocation,
    StageId, StagePlan, TaskAttemptId, TaskLease, TaskState, WorkerHeartbeat, WorkerId,
    WorkerMessage, WorkerRegistration,
};

fn stage() -> StagePlan {
    StagePlan {
        query_id: QueryId::new("query-42").unwrap(),
        stage_id: StageId(2),
        input_stages: vec![StageId(1)],
        partition_count: 4,
        plan_fragment: vec![1, 2, 3],
        output_exchange: None,
        partitioned_input: false,
    }
}

fn task() -> TaskAttemptId {
    TaskAttemptId {
        query_id: QueryId::new("query-42").unwrap(),
        stage_id: StageId(2),
        partition_id: PartitionId(3),
        attempt: 1,
    }
}

fn object(entries: Vec<(&str, Value)>) -> Value {
    let mut map = serde_json::Map::new();
    for (name, value) in entries {
        map.insert(name.to_owned(), value);
    }
    Value::Object(map)
}

fn assignment_to_json(message: &CoordinatorMessage) -> String {
    let CoordinatorMessage::AssignTask {
        version,
        stage,
        task,
        lease,
    } = message
    else {
        panic!("not an assignment");
    };
    let inputs = stage.input_stages.iter().map(|id| Value::from(id.0));
    let fragment = stage.plan_fragment.iter().map(|byte| Value::from(*byte));
    object(vec![
        ("type", Value::from("assign_task")),
        ("version", Value::from(*version)),
        (
            "stage",
            object(vec![
                ("query_id", Value::from(stage.query_id.as_str())),
                ("stage_id", Value::from(stage.stage_id.0)),
                ("input_stages", Value::from(inputs.collect::<Vec<Value>>())),
                ("partition_count", Value::from(stage.partition_count)),
                ("plan_fragment", Value::from(fragment.collect::<Vec<Value>>())),
            ]),
        ),
        (
            "task",
            object(vec![
                ("query_id", Value::from(task.query_id.as_str())),
                ("stage_id", Value::from(task.stage_id.0)),
                ("partition_id", Value::from(task.partition_id.0)),
                ("attempt", Value::from(task.attempt)),
            ]),
        ),
        (
            "lease",
            object(vec![
                ("worker_id", Value::from(lease.worker_id.as_str())),
                ("issued_at_ms", Value::from(lease.issued_at_ms)),
                ("expires_at_ms", Value::from(lease.expires_at_ms)),
            ]),
        ),
    ])
    .to_string()
}

fn number(value: &Value, name: &str) -> u64 {
    value[name].as_u64().unwrap()
}

fn numbers(value: &Value, name: &str) -> Vec<u64> {
    let values = value[name].as_array().unwrap();
    values.iter().map(|value| value.as_u64().unwrap()).collect()
}

fn assignment_from_json(json: &str) -> CoordinatorMessage {
    let value: Value = serde_json::from_str(json).unwrap();
    assert_eq!(value["type"], "assign_task");
    let (stage, task, lease) = (&value["stage"], &value["task"], &value["lease"]);
    CoordinatorMessage::AssignTask {
        version: number(&value, "version") as u16,
        stage: StagePlan {
            query_id: QueryId::new(stage["query_id"].as_str().unwrap()).unwrap(),
            stage_id: StageId(number(stage, "stage_id") as u32),
            input_stages: numbers(stage, "input_stages")
                .into_iter()
                .map(|id| StageId(id as u32))
                .collect(),
            partition_count: number(stage, "partition_count") as u32,
            plan_fragment: numbers(stage, "plan_fragment")
                .into_iter()
                .map(|byte| byte as u8)
                .collect(),
            output_exchange: None,
            partitioned_input: false,
        },
        task: TaskAttemptId {
            query_id: QueryId::new(task["query_id"].as_str().unwrap()).unwrap(),
            stage_id: StageId(number(task, "stage_id") as u32),
            partition_id: PartitionId(number(task, "partition_id") as u32),
            attempt: number(task, "attempt") as u32,
        },
        lease: TaskLease {
            worker_id: WorkerId::new(lease["worker_id"].as_str().unwrap()).unwrap(),
            issued_at_ms: number(lease, "issued_at_ms"),
            expires_at_ms: number(lease, "expires_at_ms"),
        },
    }
}

#[test]
fn coordinator_assignment_round_trips_and_validates() {
    let message = CoordinatorMessage::AssignTask {
        version: PROTOCOL_VERSION,
        stage: stage(),
        task: task(),
        lease: TaskLease {
            worker_id: WorkerId::new("worker-a").unwrap(),
            issued_at_ms: 1_000,
            expires_at_ms: 31_000,
        },
    };
    message.validate().unwrap();

    let json = assignment_to_json(&message);
    assert!(json.contains("\"type\":\"assign_task\""));
    let decoded = assignment_from_json(&json);
    assert_eq!(decoded, message);
    decoded.validate().unwrap();
}

#[test]
fn rejects_inconsistent_stage_task_and_lease_contracts() {
    let mut invalid_stage = stage();
    invalid_stage.partition_count = 0;
    assert!(matches!(
        invalid_stage.validate(),
        Err(SparkXError::Protocol(_))
    ));

    let mut recursive_stage = stage();
    recursive_stage.input_stages.push(recursive_stage.stage_id);
    assert!(matches!(
        recursive_stage.validate(),
        Err(SparkXError::Protocol(_))
    ));

    let invalid_partition = CoordinatorMessage::AssignTask {
        version: PROTOCOL_VERSION,
        stage: stage(),
        task: TaskAttemptId {
            partition_id: PartitionId(4),
            ..task()
        },
        lease: TaskLease {
            worker_id: WorkerId::new("worker-a").unwrap(),
            issued_at_ms: 1_000,
            expires_at_ms: 31_000,
        },
    };
    assert!(matches!(
        invalid_partition.validate(),
        Err(SparkXError::Protocol(_))
    ));

    let expired_lease = CoordinatorMessage::AssignTask {
        version: PROTOCOL_VERSION,
        stage: stage(),
        task: task(),
        lease: TaskLease {
            worker_id: WorkerId::new("worker-a").unwrap(),
            issued_at_ms: 1_000,
            expires_at_ms: 1_000,
        },
    };
    assert!(matches!(
        expired_lease.validate(),
        Err(SparkXError::Protocol(_))
    ));

    let wrong_version = CoordinatorMessage::CancelQuery {
        version: PROTOCOL_VERSION + 1,
        query_id: QueryId::new("query-42").unwrap(),
        reason: "deadline exceeded".to_owned(),
    };
    assert!(matches!(
        wrong_version.validate(),
        Err(SparkXError::Protocol(_))
    ));
}

#[test]
fn worker_lifecycle_messages_round_trip_and_validate() {
    let messages = vec![
        WorkerMessage::Register {
            version: PROTOCOL_VERSION,
            registration: WorkerRegistration {
                worker_id: WorkerId::new("worker-a").unwrap(),
                slots: 8,
                memory_bytes: 16 * 1024 * 1024 * 1024,
            },
        },
        WorkerMessage::Heartbeat {
            version: PROTOCOL_VERSION,
            heartbeat: WorkerHeartbeat {
                worker_id: WorkerId::new("worker-a").unwrap(),
                observed_at_ms: 2_000,
                available_slots: 6,
                available_memory_bytes: 12 * 1024 * 1024 * 1024,
            },
        },
        WorkerMessage::TaskUpdate {
            version: PROTOCOL_VERSION,
            worker_id: WorkerId::new("worker-a").unwrap(),
            task: task(),
            state: TaskState::Succeeded {
                finished_at_ms: 4_000,
                output_blocks: vec![ShuffleBlock {
                    producer: task(),
                    output_partition: PartitionId(0),
                    rows: 10_000,
                    bytes: 640_000,
                    checksum: "crc32c:42".to_owned(),
                    location: ShuffleLocation::Worker {
                        worker_id: WorkerId::new("worker-a").unwrap(),
                    },
                }],
            },
        },
    ];

    for message in messages {
        message.validate().unwrap();
        let decoded = message.clone();
        assert_eq!(decoded, message);
        decoded.validate().unwrap();
    }
}

#[test]
fn rejects_output_blocks_owned_by_another_attempt() {
    let message = WorkerMessage::TaskUpdate {
        version: PROTOCOL_VERSION,
        worker_id: WorkerId::new("worker-a").unwrap(),
        task: task(),
        state: TaskState::Succeeded {
            finished_at_ms: 4_000,
            output_blocks: vec![ShuffleBlock {
                producer: TaskAttemptId {
                    attempt: 2,
                    ..task()
                },
                output_partition: PartitionId(0),
                rows: 1,
                bytes: 8,
                checksum: "crc32c:99".to_owned(),
                location: ShuffleLocation::ObjectStore {
                    uri: "s3://shuffle/query-42/stage-2/block-0".to_owned(),
                },
            }],
        },
    };

    assert!(matches!(message.validate(), Err(SparkXError::Protocol(_))));
}

#[test]
fn rejects_in_memory_blocks_owned_by_another_worker() {
    let message = WorkerMessage::TaskUpdate {
        version: PROTOCOL_VERSION,
        worker_id: WorkerId::new("worker-a").unwrap(),
        task: task(),
        state: TaskState::Succeeded {
            finished_at_ms: 4_000,
            output_blocks: vec![ShuffleBlock {
                producer: task(),
                output_partition: PartitionId(0),
                rows: 1,
                bytes: 8,
                checksum: "crc32c:11".to_owned(),
                location: ShuffleLocation::Worker {
                    worker_id: WorkerId::new("worker-b").unwrap(),
                },
            }],
        },
    };

    assert!(matches!(message.validate(), Err(SparkXError::Protocol(_))));
}

#[test]
fn rejects_workers_without_executable_resources() {
    let message = WorkerMessage::Register {
        version: PROTOCOL_VERSION,
        registration: WorkerRegistration {
            worker_id: WorkerId::new("worker-empty").unwrap(),
            slots: 0,
            memory_bytes: 0,
        },
    };

    assert!(matches!(message.validate(), Err(SparkXError::Protocol(_))));
}
