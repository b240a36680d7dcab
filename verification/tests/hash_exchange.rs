use sparkx::batch::Batch;
use sparkx::cells::value_at;
use sparkx::cluster::hash_exchange::repartition;
use sparkx::column::Column;
use sparkx::protocol::HashExchange;
use sparkx::scalar::ScalarValue;
use sparkx::types::{DataType, Field, Schema};
use sparkx::{QueryMemory, SparkXError};

fn key_schema() -> Schema {
    Schema::new(vec![Field::new("key".to_owned(), DataType::Int64, false)])
}

#[test]
fn composite_and_null_keys_route_consistently_across_batches() {
    let schema = Schema::new(vec![
        Field::new("key".to_owned(), DataType::Utf8, true),
        Field::new("value".to_owned(), DataType::Int64, false),
    ]);
    let batch = Batch::try_new(
        schema.clone(),
        vec![
            Column::Utf8(vec![
                Some("a".to_owned()),
                None,
                Some("a".to_owned()),
                Some("b".to_owned()),
            ]),
            Column::Int64(vec![Some(1), Some(2), Some(1), Some(3)]),
        ],
        None,
    )
    .unwrap();
    let mut memory = QueryMemory::new(1_000_000);
    let exchange = HashExchange {
        columns: vec![0, 1],
        partition_count: 7,
    };
    let outputs = repartition(
        &schema,
        &vec![batch.clone(), batch],
        &exchange,
        &mut memory,
        false,
    )
    .unwrap();
    assert_eq!(outputs.len(), 7);
    let mut keys: Vec<(Vec<ScalarValue>, u32)> = Vec::new();
    let mut count = 0;
    for output in &outputs {
        for batch in &output.batches {
            for row in 0..batch.num_rows() {
                let key = vec![
                    value_at(batch.column(0), row).unwrap(),
                    value_at(batch.column(1), row).unwrap(),
                ];
                match keys.iter().find(|(known, _)| *known == key) {
                    Some((_, previous)) => assert_eq!(*previous, output.partition.0),
                    None => keys.push((key, output.partition.0)),
                }
                count += 1;
            }
        }
    }
    assert_eq!(count, 8);
    assert_eq!(keys.len(), 3);
    assert!(memory.reserved_bytes() > 0);
    for output in outputs {
        output.reservation.release(&mut memory);
    }
    assert_eq!(memory.reserved_bytes(), 0);
}

#[test]
fn empty_input_preserves_all_destinations_and_invalid_keys_fail() {
    let schema = key_schema();
    let mut memory = QueryMemory::new(1024);
    let mut exchange = HashExchange {
        columns: vec![0],
        partition_count: 3,
    };
    let outputs = repartition(&schema, &vec![], &exchange, &mut memory, false).unwrap();
    assert_eq!(outputs.len(), 3);
    assert!(outputs.iter().all(|output| output.batches.is_empty()));
    exchange.columns = vec![1];
    assert!(repartition(&schema, &vec![], &exchange, &mut memory, false).is_err());
}

#[test]
fn exhaustion_and_cancellation_release_reservations() {
    let schema = key_schema();
    let batch = Batch::try_new(
        schema.clone(),
        vec![Column::Int64(vec![Some(1), Some(2), Some(3)])],
        None,
    )
    .unwrap();
    let mut memory = QueryMemory::new(1);
    let exchange = HashExchange {
        columns: vec![0],
        partition_count: 2,
    };
    assert!(repartition(&schema, &vec![batch], &exchange, &mut memory, false).is_err());
    assert_eq!(memory.reserved_bytes(), 0);
    assert!(matches!(
        repartition(&schema, &vec![], &exchange, &mut memory, true),
        Err(SparkXError::Cancelled)
    ));
}

#[test]
fn rows_go_where_the_checksum_of_their_key_says() {
    let schema = key_schema();
    let batch = Batch::try_new(schema.clone(), vec![Column::Int64(vec![Some(1)])], None).unwrap();
    let mut memory = QueryMemory::new(1_000_000);
    let exchange = HashExchange {
        columns: vec![0],
        partition_count: 1000,
    };
    // The row format of a whole number: a mark that it is not NULL, and its bytes from the highest
    // on with the sign turned.
    let key = [1u8, 0x80, 0, 0, 0, 0, 0, 0, 1];
    let expected = crc32fast::hash(&key) % 1000;
    let outputs = repartition(&schema, &vec![batch], &exchange, &mut memory, false).unwrap();
    for output in &outputs {
        let rows: usize = output.batches.iter().map(|batch| batch.num_rows()).sum();
        assert_eq!(rows, usize::from(output.partition.0 == expected));
    }
}
