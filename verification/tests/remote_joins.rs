use sparkx::batch::Batch;
use sparkx::catalog::Catalog;
use sparkx::cells::value_at;
use sparkx::cluster::assignment::{run_task, select_blocks, StageInputs};
use sparkx::cluster::block_store::{BlockEntry, BlockStore};
use sparkx::cluster::join::plan_remote_join;
use sparkx::column::Column;
use sparkx::control_plane::ControlPlane;
use sparkx::coordinator::{Coordinator, CoordinatorConfig, StageStatus};
use sparkx::protocol::{
    QueryId, ShuffleBlock, ShuffleLocation, StageId, TaskState, WorkerId, WorkerMessage,
    PROTOCOL_VERSION,
};
use sparkx::remote::RemoteStageResult;
use sparkx::session::{Session, SessionConfig};
use sparkx::table::{MemoryTable, NamedTable};
use sparkx::types::{DataType, Field, Schema};
use sparkx::worker::{TaskOutput, WorkerAction, WorkerConfig, WorkerState};
use sparkx::{QueryMemory, QueryMetrics};

/// A block's schema and batches.
type Block = (Schema, Vec<Batch>);

type Rows<'a> = &'a [(Option<i64>, Option<i64>)];

fn table(rows: Rows, partitions: usize) -> MemoryTable {
    let schema = Schema::new(vec![
        Field::new("id".to_owned(), DataType::Int64, true),
        Field::new("value".to_owned(), DataType::Int64, true),
    ]);
    let mut batches: Vec<Vec<Batch>> = (0..partitions).map(|_| vec![]).collect();
    for (index, (id, value)) in rows.iter().enumerate() {
        let columns = vec![Column::Int64(vec![*id]), Column::Int64(vec![*value])];
        batches[index % partitions].push(Batch::try_new(schema.clone(), columns, None).unwrap());
    }
    MemoryTable::new(schema, batches).unwrap()
}

fn rows(batches: &[Batch]) -> Vec<String> {
    let mut rows = Vec::new();
    for batch in batches {
        for row in 0..batch.num_rows() {
            let cells: Vec<String> = (0..batch.num_columns())
                .map(|column| format!("{:?}", value_at(batch.column(column), row)))
                .collect();
            rows.push(cells.join(","));
        }
    }
    rows.sort();
    rows
}

fn left() -> MemoryTable {
    table(
        &[
            (Some(1), Some(10)),
            (Some(1), Some(11)),
            (Some(2), Some(20)),
            (None, Some(30)),
        ],
        2,
    )
}

fn right() -> MemoryTable {
    table(
        &[
            (Some(1), Some(100)),
            (Some(1), Some(101)),
            (Some(3), Some(300)),
            (None, Some(400)),
        ],
        3,
    )
}

fn tables() -> Vec<NamedTable> {
    vec![
        NamedTable {
            name: "a".to_owned(),
            table: left(),
        },
        NamedTable {
            name: "b".to_owned(),
            table: right(),
        },
    ]
}

struct Worker {
    id: WorkerId,
    state: WorkerState,
    memory: QueryMemory,
    metrics: QueryMetrics,
}

/// Polls for a task and runs it to its end; what it puts out goes into the store.
fn work(worker: &mut Worker, plane: &mut ControlPlane, store: &mut BlockStore<Block>) -> bool {
    let Some(message) = plane.poll_assignment(&worker.id, 0).unwrap() else {
        return false;
    };
    let WorkerAction::Start {
        report,
        stage,
        task,
        lease,
    } = worker.state.receive(message).unwrap()
    else {
        panic!("expected an assignment");
    };
    plane.worker_message(report, 0).unwrap();

    let mut inputs = Vec::new();
    for input in &stage.input_stages {
        let coordinator = plane.coordinator();
        inputs.extend(coordinator.stage_output_blocks(&stage.query_id, *input).unwrap());
    }
    let blocks = select_blocks(&stage, &task, &inputs);
    let mut arrived = StageInputs::new(&stage.input_stages, blocks.len()).unwrap();
    for block in &blocks {
        let ShuffleLocation::Flight { ticket, .. } = &block.location else {
            panic!("{block:?}");
        };
        let (schema, batches) = store.get(ticket).unwrap().content.clone();
        arrived
            .take_in(block.producer.stage_id, schema, batches)
            .unwrap();
    }
    let tables = arrived.into_tables(tables()).unwrap();
    let mut catalog = Catalog::default();
    for table in &tables {
        catalog.register(&table.name, table.table.describe());
    }
    let plan = stage.decode_physical_plan(&catalog).unwrap();
    let outputs = run_task(
        &stage,
        &task,
        &catalog,
        &tables,
        &mut worker.memory,
        &mut worker.metrics,
        false,
    )
    .unwrap();

    let mut blocks = Vec::new();
    for output in outputs {
        let rows = output.batches.iter().map(|b| b.num_rows() as u64).sum();
        let ticket = format!("{task:?}/{:?}", output.partition);
        store
            .insert(BlockEntry {
                ticket: ticket.clone(),
                checksum: "crc32:0".to_owned(),
                charged_bytes: 1,
                content: (plan.schema().clone(), output.batches),
            })
            .unwrap();
        blocks.push(ShuffleBlock {
            producer: task.clone(),
            output_partition: output.partition,
            rows,
            bytes: 1,
            checksum: "crc32:0".to_owned(),
            location: ShuffleLocation::Flight {
                worker_id: worker.id.clone(),
                endpoint: "http://here:1".to_owned(),
                ticket,
            },
        });
        output.reservation.release(&mut worker.memory);
    }
    let result = Ok(TaskOutput::of_blocks(blocks));
    let ending = worker.state.complete(task, &lease, result);
    assert!(matches!(
        &ending.report,
        WorkerMessage::TaskUpdate {
            state: TaskState::Succeeded { .. },
            ..
        }
    ));
    plane.worker_message(ending.report, 0).unwrap();
    true
}

fn join_remotely(sql: &str, query: &str) -> (Vec<String>, Vec<String>, usize, Vec<usize>) {
    let mut session = Session::new(SessionConfig::default());
    session.register_memory("a", left());
    session.register_memory("b", right());
    let native = session.execute_sql(sql, false).unwrap();
    let planned = session.plan(session.sql(sql).unwrap()).unwrap();
    let query = QueryId::new(query).unwrap();
    let stages = plan_remote_join(&planned.physical, query.clone())
        .unwrap()
        .unwrap();

    let coordinator = Coordinator::new(CoordinatorConfig::default()).unwrap();
    let mut plane = ControlPlane::new(coordinator);
    let mut workers = Vec::new();
    for name in ["join-a", "join-b"] {
        let id = WorkerId::new(name).unwrap();
        let config = WorkerConfig::new("http://here:0".to_owned(), id.clone());
        let state = WorkerState::new(&config);
        plane
            .worker_message(
                WorkerMessage::Register {
                    version: PROTOCOL_VERSION,
                    registration: state.registration(1_000_000),
                },
                0,
            )
            .unwrap();
        workers.push(Worker {
            id,
            state,
            memory: QueryMemory::new(1_000_000),
            metrics: QueryMetrics::default(),
        });
    }
    let count = stages.len();
    let last = StageId(count as u32 - 1);
    for stage in stages {
        plane.submit_stage(stage).unwrap();
    }
    let mut store = BlockStore::new(1_000_000).unwrap();
    let mut tasks = 0;
    while plane.coordinator().stage_status(&query, last).unwrap() != StageStatus::Succeeded {
        let before = tasks;
        for worker in &mut workers {
            if work(worker, &mut plane, &mut store) {
                tasks += 1;
            }
        }
        assert!(tasks > before, "nothing was assigned");
    }
    for worker in &workers {
        assert_eq!(worker.memory.reserved_bytes(), 0);
        assert!(worker.metrics.snapshot().tasks > 0);
    }

    let coordinator = plane.coordinator();
    let blocks = coordinator.stage_output_blocks(&query, last).unwrap();
    let mut result = RemoteStageResult::new(blocks.clone());
    for block in &blocks {
        let ShuffleLocation::Flight { ticket, .. } = &block.location else {
            panic!("{block:?}");
        };
        let (schema, batches) = store.get(ticket).unwrap().content.clone();
        result.merge_download(schema, batches).unwrap();
    }
    let counts = (0..2)
        .map(|id| coordinator.stage_output_blocks(&query, StageId(id)).unwrap())
        .map(|blocks| blocks.len())
        .collect();
    (rows(&native.batches), rows(&result.batches), tasks, counts)
}

#[test]
fn remote_inner_join_matches_native_across_unequal_partitions() {
    let (native, remote, tasks, counts) = join_remotely(
        "SELECT a.id, a.value AS av, b.value AS bv FROM a JOIN b ON a.id = b.id WHERE a.value > 0",
        "remote-inner",
    );
    assert_eq!(remote, native);
    assert_eq!(remote.len(), 4);
    assert_eq!(tasks, 8);
    assert_eq!(counts, vec![6, 9]);
}

#[test]
fn remote_left_join_matches_native() {
    let (native, remote, _, _) = join_remotely(
        "SELECT a.value AS av, b.value AS bv FROM a LEFT JOIN b ON a.id = b.id",
        "remote-left",
    );
    assert_eq!(remote, native);
    assert_eq!(remote.len(), 6);
}
