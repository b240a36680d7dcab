use sparkx::batch::Batch;
use sparkx::catalog::Catalog;
use sparkx::cluster::assignment::{map_download_error, run_task, StageInputs};
use sparkx::cluster::block_store::{
    block_checksum, block_file, block_file_names, block_metadata, check_header, check_persisted,
    check_room, classify_file, split_block_file, BlockEntry, BlockStore, FileRole,
};
use sparkx::cluster::data_plane::{
    acknowledge, advertised_endpoint, begin_upload, check_arrival, grow_upload, map_answer,
    map_status, ticket_for, BlockAction, BlockTicket, BoundAddress, StatusCode, UploadAck,
};
use sparkx::column::Column;
use sparkx::physical::PhysicalPlan;
use sparkx::protocol::{
    HashExchange, PartitionId, QueryId, ShuffleBlock, ShuffleLocation, StageId, StagePlan,
    TaskAttemptId, WorkerId,
};
use sparkx::table::{MemoryTable, NamedTable};
use sparkx::types::{DataType, Field, Schema};
use sparkx::{QueryMemory, QueryMetrics, SparkXError};

fn entry(ticket: &str, checksum: &str, charged_bytes: u64) -> BlockEntry<u8> {
    BlockEntry {
        ticket: ticket.to_owned(),
        checksum: checksum.to_owned(),
        charged_bytes,
        content: 1,
    }
}

#[test]
fn stored_blocks_take_room_until_they_are_removed() {
    assert_eq!(
        BlockStore::<u8>::new(0).unwrap_err().to_text(),
        "planning error: data-plane storage capacity must be greater than zero"
    );
    let mut store = BlockStore::new(100).unwrap();
    store.insert(entry("a", "crc32:1", 60)).unwrap();
    assert_eq!(store.available_bytes(), 40);
    assert_eq!(store.upload_budget("a"), 100);
    assert_eq!(store.upload_budget("b"), 40);

    store.insert(entry("a", "crc32:1", 60)).unwrap();
    assert_eq!(store.available_bytes(), 40);
    assert_eq!(
        store
            .insert(entry("a", "crc32:2", 60))
            .unwrap_err()
            .to_text(),
        "protocol error: immutable block checksum mismatch"
    );
    assert!(matches!(
        store.insert(entry("b", "crc32:3", 41)),
        Err(SparkXError::ResourceExhausted(_))
    ));
    assert_eq!(store.get("a").unwrap().charged_bytes, 60);

    store.remove("a").unwrap();
    assert_eq!(store.available_bytes(), 100);
    assert!(matches!(store.get("a"), Err(SparkXError::NotFound(_))));
    assert!(matches!(store.remove("a"), Err(SparkXError::NotFound(_))));
}

#[test]
fn opened_stores_adopt_blocks_once_and_within_their_room() {
    let mut store = BlockStore::new(100).unwrap();
    store.adopt(entry("a", "crc32:1", 60)).unwrap();
    assert!(matches!(
        store.adopt(entry("b", "crc32:2", 41)),
        Err(SparkXError::ResourceExhausted(_))
    ));
    assert_eq!(
        store.adopt(entry("a", "crc32:1", 10)).unwrap_err().to_text(),
        "protocol error: duplicate persisted block ticket"
    );
}

#[test]
fn files_of_a_store_are_told_by_their_names() {
    assert_eq!(
        block_file_names("ticket"),
        (
            format!("sparkx-{:08x}.block", crc32fast::hash(b"ticket")),
            format!("sparkx-{:08x}.pending", crc32fast::hash(b"ticket")),
        )
    );
    assert_eq!(
        block_checksum(&vec![1, 2, 3]),
        format!("crc32:{:08x}", crc32fast::hash(&[1, 2, 3]))
    );
    assert_eq!(classify_file("sparkx-interrupted.pending"), FileRole::Unfinished);
    assert_eq!(classify_file("sparkx-0badcafe.block"), FileRole::Block);
    assert_eq!(classify_file("sparkx-0badcafe.txt"), FileRole::Foreign);
    assert_eq!(classify_file(".sparkx.lock"), FileRole::Foreign);
    let metadata = block_metadata(&vec![2, 3], &vec![10, 20], &vec![1, 2, 3]);
    assert_eq!((metadata.rows, metadata.bytes), (5, 30));
    assert_eq!(metadata.checksum, block_checksum(&vec![1, 2, 3]));
}

#[test]
fn checksums_are_those_of_the_ethernet_polynomial() {
    assert_eq!(block_checksum(&b"123456789".to_vec()), "crc32:cbf43926");
    assert_eq!(block_checksum(&Vec::new()), "crc32:00000000");
}

#[test]
fn headers_of_persisted_blocks_are_checked() {
    let file = block_file(&vec![9; 0x0304], &vec![1, 2, 3]);
    assert_eq!(file[..4], 0x0304u32.to_le_bytes());
    assert_eq!(file.len(), 4 + 0x0304 + 3);
    assert_eq!(split_block_file(&file).unwrap(), (vec![9; 0x0304], vec![1, 2, 3]));
    let longest = block_file(&vec![7; 4096], &Vec::new());
    assert_eq!(split_block_file(&longest).unwrap(), (vec![7; 4096], Vec::new()));
    assert_eq!(
        split_block_file(&block_file(&vec![7; 4097], &Vec::new())).unwrap_err().to_text(),
        "protocol error: invalid persisted block header length"
    );
    assert!(matches!(split_block_file(&vec![1, 0, 0]), Err(SparkXError::Io(_))));
    assert!(matches!(split_block_file(&vec![2, 0, 0, 0, 5]), Err(SparkXError::Io(_))));
    check_room(10, 86, 100).unwrap();
    assert!(check_room(10, 87, 100).is_err());
    check_header(5, "crc32:1", "crc32:1").unwrap();
    assert_eq!(
        check_header(4, "crc32:1", "crc32:1").unwrap_err().to_text(),
        "protocol error: persisted block version mismatch"
    );
    assert!(check_header(5, "crc32:1", "crc32:2").is_err());
    check_persisted("t", "t", "c", "c").unwrap();
    assert_eq!(
        check_persisted("t", "u", "c", "c").unwrap_err().to_text(),
        "protocol error: persisted block ticket mismatch"
    );
}

fn task(partition: u32) -> TaskAttemptId {
    TaskAttemptId {
        query_id: QueryId::new("query").unwrap(),
        stage_id: StageId(1),
        partition_id: PartitionId(partition),
        attempt: 0,
    }
}

fn worker() -> WorkerId {
    WorkerId::new("worker").unwrap()
}

fn block() -> ShuffleBlock {
    ShuffleBlock {
        producer: task(0),
        output_partition: PartitionId(2),
        rows: 3,
        bytes: 24,
        checksum: "crc32:00000001".to_owned(),
        location: ShuffleLocation::Flight {
            worker_id: worker(),
            endpoint: "http://here:1".to_owned(),
            ticket: "ticket".to_owned(),
        },
    }
}

#[test]
fn blocks_are_had_only_from_their_owner() {
    assert_eq!(
        ticket_for(&block(), "http://here:1", BlockAction::Download).unwrap(),
        "ticket"
    );
    assert_eq!(
        ticket_for(&block(), "http://there:2", BlockAction::Download)
            .unwrap_err()
            .to_text(),
        "protocol error: block belongs to http://here:1, but client is connected to \
         http://there:2"
    );
    let local = ShuffleBlock {
        location: ShuffleLocation::Worker { worker_id: worker() },
        ..block()
    };
    assert_eq!(
        ticket_for(&local, "http://here:1", BlockAction::Delete)
            .unwrap_err()
            .to_text(),
        "protocol error: cannot delete a non-Flight shuffle block with the Flight client"
    );
}

#[test]
fn what_arrives_is_what_was_announced() {
    check_arrival(&block(), 3, 24, "crc32:00000001").unwrap();
    assert_eq!(
        check_arrival(&block(), 2, 24, "crc32:00000002")
            .unwrap_err()
            .to_text(),
        "protocol error: downloaded block metadata mismatch: expected rows=3 bytes=24 \
         checksum=crc32:00000001, got rows=2 bytes=24 checksum=crc32:00000002"
    );
}

#[test]
fn uploads_are_acknowledged_once_for_their_ticket() {
    let ack = |ticket: &str| UploadAck {
        rows: 3,
        bytes: 24,
        checksum: "crc32:00000001".to_owned(),
        ticket: ticket.to_owned(),
    };
    let run = |acks: Vec<UploadAck>| {
        acknowledge(
            worker(),
            task(0),
            PartitionId(2),
            "http://here:1".to_owned(),
            "ticket",
            acks,
        )
    };
    assert_eq!(run(vec![ack("ticket")]).unwrap(), block());
    assert_eq!(
        run(vec![]).unwrap_err().to_text(),
        "protocol error: data-plane upload returned 0 acknowledgements; expected one"
    );
    assert!(run(vec![ack("other")]).is_err());
}

#[test]
fn uploads_stop_where_there_is_no_room() {
    assert!(matches!(
        begin_upload(0),
        Err(SparkXError::ResourceExhausted(_))
    ));
    begin_upload(1).unwrap();
    assert_eq!(grow_upload(10, 5, 15).unwrap(), 15);
    assert_eq!(
        grow_upload(10, 6, 15).unwrap_err().to_text(),
        "resource exhausted: data-plane block needs more than the 15 available bytes"
    );
    assert!(grow_upload(0, 0, 0).is_err());
    assert!(grow_upload(u64::MAX, 1, u64::MAX).is_ok());
}

#[test]
fn refusals_arrive_as_they_were() {
    for error in [
        SparkXError::protocol("p".to_owned()),
        SparkXError::NotFound("n".to_owned()),
        SparkXError::resource_exhausted("r".to_owned()),
        SparkXError::Cancelled,
    ] {
        let (code, message) = map_status(&error);
        assert_eq!(map_answer(code, message).unwrap().to_text(), error.to_text());
    }
    let (code, message) = map_status(&SparkXError::execution("e".to_owned()));
    assert_eq!(code, StatusCode::Internal);
    assert_eq!(message, "execution error: e");
    assert!(map_answer(code, message).is_none());
}

#[test]
fn tickets_are_of_this_version_and_of_sound_names() {
    BlockTicket::new(&worker(), &task(0), PartitionId(0))
        .validate()
        .unwrap();
    let old = BlockTicket {
        version: 4,
        ..BlockTicket::new(&worker(), &task(0), PartitionId(0))
    };
    assert_eq!(
        old.validate().unwrap_err().to_text(),
        "protocol error: unsupported data-plane protocol version 4; expected 5"
    );
}

#[test]
fn endpoints_are_reachable_or_refused() {
    let bound = |host: &str, is_unspecified: bool| BoundAddress {
        host: host.to_owned(),
        is_unspecified,
        port: 80,
    };
    let host = |text: &str| Some(text.to_owned());
    let local = bound("127.0.0.1", false);
    assert_eq!(
        advertised_endpoint(&local, &None, &None).unwrap(),
        "http://127.0.0.1:80"
    );
    assert_eq!(
        advertised_endpoint(&local, &host("data.example"), &None).unwrap(),
        "http://data.example:80"
    );
    assert_eq!(
        advertised_endpoint(&local, &host("::1"), &host("[::1]")).unwrap(),
        "http://[::1]:80"
    );
    for (bound, advertised) in [
        (bound("0.0.0.0", true), None),
        (bound("127.0.0.1", false), host("  ")),
        (bound("127.0.0.1", false), host("a b")),
        (bound("127.0.0.1", false), host("http://x")),
        (bound("127.0.0.1", false), host("x:1")),
    ] {
        assert!(matches!(
            advertised_endpoint(&bound, &advertised, &None),
            Err(SparkXError::Planning(_))
        ));
    }
}

fn schema() -> Schema {
    Schema::new(vec![Field::new("value".to_owned(), DataType::Int64, false)])
}

fn batch(cells: &[i64]) -> Batch {
    let cells = cells.iter().map(|n| Some(*n)).collect();
    Batch::try_new(schema(), vec![Column::Int64(cells)], None).unwrap()
}

#[test]
fn inputs_are_of_declared_stages_and_of_one_schema() {
    assert_eq!(
        StageInputs::new(&vec![], 1).unwrap_err().to_text(),
        "protocol error: task without stage dependencies received input blocks"
    );
    let mut inputs = StageInputs::new(&vec![StageId(1)], 1).unwrap();
    assert_eq!(inputs.endpoint_of(&block()).unwrap(), "http://here:1");
    let stray = ShuffleBlock {
        producer: TaskAttemptId {
            stage_id: StageId(9),
            ..task(0)
        },
        ..block()
    };
    assert_eq!(
        inputs.endpoint_of(&stray).unwrap_err().to_text(),
        "protocol error: worker received a block from undeclared stage 9"
    );
    inputs
        .take_in(StageId(1), schema(), vec![batch(&[1])])
        .unwrap();
    inputs
        .take_in(StageId(1), schema(), vec![batch(&[2, 3])])
        .unwrap();
    let other = Schema::new(vec![Field::new("other".to_owned(), DataType::Int64, false)]);
    assert_eq!(
        inputs
            .take_in(StageId(1), other, vec![])
            .unwrap_err()
            .to_text(),
        "protocol error: stage 1 input blocks contain different Arrow schemas"
    );
    let tables = inputs.into_tables(vec![]).unwrap();
    assert_eq!(tables.len(), 1);
    assert_eq!(tables[0].name, "__sparkx_stage_input_1");
    assert_eq!(
        tables[0].table.scan_partition(0, &None).unwrap().len(),
        2
    );
    let missing = StageInputs::new(&vec![StageId(1)], 0).unwrap();
    assert_eq!(
        missing.into_tables(vec![]).unwrap_err().to_text(),
        "protocol error: stage 1 dependency produced no input block manifest"
    );
    assert_eq!(
        map_download_error(SparkXError::NotFound("gone".to_owned())).to_text(),
        "transport error: upstream block unavailable: gone"
    );
}

#[test]
fn tasks_run_their_partition_and_deal_their_rows() {
    let table = || MemoryTable::new(schema(), vec![vec![batch(&[1, 2])], vec![batch(&[3])]]).unwrap();
    let plan = PhysicalPlan::Scan {
        id: 0,
        table_name: "input".to_owned(),
        provider: table().describe(),
        projection: None,
        filters: vec![],
        schema: schema(),
    };
    let mut stage = StagePlan::from_physical_plan(
        QueryId::new("query").unwrap(),
        StageId(1),
        vec![],
        2,
        &plan,
    )
    .unwrap();
    let mut catalog = Catalog::default();
    catalog.register("input", table().describe());
    let tables = vec![NamedTable {
        name: "input".to_owned(),
        table: table(),
    }];
    let mut memory = QueryMemory::new(1_000_000);
    let mut metrics = QueryMetrics::default();
    let outputs = run_task(&stage, &task(1), &catalog, &tables, &mut memory, &mut metrics, false).unwrap();
    assert_eq!(outputs.len(), 1);
    assert_eq!(outputs[0].partition, PartitionId(1));
    assert_eq!(outputs[0].batches, vec![batch(&[3])]);
    assert_eq!(memory.reserved_bytes(), 0);
    assert_eq!(metrics.snapshot().tasks, 1);
    assert_eq!(metrics.snapshot().input_rows, 1);

    stage.output_exchange = Some(HashExchange {
        columns: vec![0],
        partition_count: 4,
    });
    let outputs = run_task(&stage, &task(0), &catalog, &tables, &mut memory, &mut metrics, false).unwrap();
    assert_eq!(outputs.len(), 4);
    let rows: usize = outputs
        .iter()
        .flat_map(|output| &output.batches)
        .map(|batch| batch.num_rows())
        .sum();
    assert_eq!(rows, 2);
    assert!(matches!(
        run_task(&stage, &task(0), &catalog, &tables, &mut memory, &mut metrics, true),
        Err(SparkXError::Cancelled)
    ));
    assert!(matches!(
        run_task(&stage, &task(7), &catalog, &tables, &mut memory, &mut metrics, false),
        Err(SparkXError::Execution(_))
    ));
}
