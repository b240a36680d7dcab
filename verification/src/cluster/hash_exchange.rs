//! Rows dealt to partitions by the hash of their keys.

use crate::batch::{batch_views, made_batch, Batch, BatchView};
use crate::column::{column_views, row_numbers, Column, ColumnView};
use crate::distributed::merge::{capped, key_bytes, measure_keys};
use crate::error::{ErrorView, SparkXError};
use crate::kernels::{row_key, row_of, text_bytes};
use crate::memory::{MemoryReservation, MemoryView, QueryMemory};
use crate::protocol::{HashExchange, HashExchangeView, PartitionId};
use crate::row_key::{encode_keys, encoded, key_views, type_views};
use crate::types::{DataType, DataTypeView, Schema, SchemaView};
use vstd::prelude::*;

verus! {

/// A remainder after some bits more, of which the lowest comes first, by the polynomial of IEEE
/// 802.3.
pub open spec fn remainder_after(remainder: u32, bits: nat) -> u32
    decreases bits,
{
    if bits == 0 {
        remainder
    } else {
        let before = remainder_after(remainder, (bits - 1) as nat);
        if before % 2 == 1 {
            (before / 2) as u32 ^ 0xEDB8_8320
        } else {
            (before / 2) as u32
        }
    }
}

/// The remainder of the first `upto` bytes.
pub open spec fn remainder_of(bytes: Seq<u8>, upto: int) -> u32
    decreases upto,
{
    if upto <= 0 {
        0xFFFF_FFFF
    } else {
        remainder_after(remainder_of(bytes, upto - 1) ^ (bytes[upto - 1] as u32), 8)
    }
}

/// The CRC-32 checksum of bytes.
pub open spec fn crc32(bytes: Seq<u8>) -> u32 {
    remainder_of(bytes, bytes.len() as int) ^ 0xFFFF_FFFF
}

/// `crc32fast::hash`: the CRC-32 checksum of bytes, by the polynomial of IEEE 802.3 with reflected
/// bits, which begins and ends with all bits turned over.
#[verifier::external_body]
pub(crate) fn checksum(bytes: &[u8]) -> (r: u32)
    ensures
        r == crc32(bytes@),
{
    crc32fast::hash(bytes)
}

/// The bytes that the cells of a column take.
pub open spec fn column_bytes(column: ColumnView) -> nat {
    match column {
        ColumnView::Null(_) => 0,
        ColumnView::Boolean(cells) => cells.len(),
        ColumnView::Int32(cells) => 4 * cells.len(),
        ColumnView::UInt32(cells) => 4 * cells.len(),
        ColumnView::Float32(cells) => 4 * cells.len(),
        ColumnView::Int64(cells) => 8 * cells.len(),
        ColumnView::UInt64(cells) => 8 * cells.len(),
        ColumnView::Float64(cells) => 8 * cells.len(),
        ColumnView::Utf8(cells) => 4 * cells.len() + text_bytes(cells, cells.len() as int),
    }
}

/// The bytes that the first `upto` columns take.
pub open spec fn columns_bytes(columns: Seq<ColumnView>, upto: int) -> nat
    decreases upto,
{
    if upto <= 0 {
        0
    } else {
        columns_bytes(columns, upto - 1) + column_bytes(columns[upto - 1])
    }
}

/// What a batch is charged.
pub open spec fn batch_charge(columns: Seq<ColumnView>) -> u64 {
    capped(columns_bytes(columns, columns.len() as int) as int)
}

fn measure_texts(cells: &Vec<Option<String>>) -> (r: u64)
    ensures
        r == capped(
            text_bytes(crate::column::text_cells(cells@), cells.len() as int) as int,
        ),
{
    let ghost views = crate::column::text_cells(cells@);
    let mut total: u64 = 0;
    for i in 0..cells.len()
        invariant
            views == crate::column::text_cells(cells@),
            total == capped(text_bytes(views, i as int) as int),
    {
        proof {
            assert(views[i as int] == crate::column::text_cell(cells@[i as int]));
        }
        if let Some(text) = &cells[i] {
            let more: u64 = text.as_str().as_bytes().len() as u64;
            total = if more > u64::MAX - total {
                u64::MAX
            } else {
                total + more
            };
        }
    }
    total
}

fn measure_column(column: &Column) -> (r: u64)
    ensures
        r == capped(column_bytes(column@) as int),
{
    let (width, more): (u64, u64) = match column {
        Column::Null(_) => (0, 0),
        Column::Boolean(_) => (1, 0),
        Column::Int32(_) | Column::UInt32(_) | Column::Float32(_) => (4, 0),
        Column::Int64(_) | Column::UInt64(_) | Column::Float64(_) => (8, 0),
        Column::Utf8(cells) => (4, measure_texts(cells)),
    };
    let total: u128 = column.len() as u128 * width as u128 + more as u128;
    proof {
        assert(column@.len() * 4 == 4 * column@.len()) by (nonlinear_arith);
        assert(column@.len() * 8 == 8 * column@.len()) by (nonlinear_arith);
        assert(column@.len() * 0 == 0) by (nonlinear_arith);
    }
    if total > u64::MAX as u128 {
        u64::MAX
    } else {
        total as u64
    }
}

impl Batch {
    /// What this batch is charged.
    pub fn memory_size(&self) -> (r: u64)
        ensures
            r == batch_charge(self@.columns),
    {
        let columns = self.columns();
        let ghost views = column_views(columns@);
        let mut total: u64 = 0;
        for i in 0..columns.len()
            invariant
                views == column_views(columns@),
                total == capped(columns_bytes(views, i as int) as int),
        {
            proof {
                assert(views[i as int] == columns@[i as int]@);
            }
            let more: u64 = measure_column(&columns[i]);
            total = if more > u64::MAX - total {
                u64::MAX
            } else {
                total + more
            };
        }
        total
    }
}

/// The partition of a key.
pub open spec fn partition_of(key: Seq<u8>, partition_count: u32) -> u32 {
    crc32(key) % partition_count
}

/// The rows among the first `upto` whose keys belong to a partition.
pub open spec fn rows_of_partition(
    keys: Seq<Seq<u8>>,
    partition_count: u32,
    partition: int,
    upto: int,
) -> Seq<int>
    decreases upto,
{
    if upto <= 0 {
        Seq::empty()
    } else if partition_of(keys[upto - 1], partition_count) == partition {
        rows_of_partition(keys, partition_count, partition, upto - 1).push(upto - 1)
    } else {
        rows_of_partition(keys, partition_count, partition, upto - 1)
    }
}

/// Every row goes to exactly one partition, that of its key, and rows keep their order.
pub proof fn every_row_goes_to_one_partition(
    keys: Seq<Seq<u8>>,
    partition_count: u32,
    partition: int,
    upto: int,
)
    requires
        0 <= upto <= keys.len(),
        partition_count > 0,
    ensures
        ({
            let rows = rows_of_partition(keys, partition_count, partition, upto);
            &&& rows.len() <= upto
            &&& forall|i: int|
                0 <= i < rows.len() ==> 0 <= #[trigger] rows[i] < upto && partition_of(
                    keys[rows[i]],
                    partition_count,
                ) == partition
            &&& forall|i: int, j: int|
                0 <= i < j < rows.len() ==> #[trigger] rows[i] < #[trigger] rows[j]
            &&& forall|row: int|
                0 <= row < upto && partition_of(#[trigger] keys[row], partition_count) == partition
                    ==> rows.contains(row)
        }),
    decreases upto,
{
    if upto > 0 {
        every_row_goes_to_one_partition(keys, partition_count, partition, upto - 1);
        let before = rows_of_partition(keys, partition_count, partition, upto - 1);
        let rows = rows_of_partition(keys, partition_count, partition, upto);
        assert forall|row: int|
            0 <= row < upto && partition_of(#[trigger] keys[row], partition_count)
                == partition implies rows.contains(row) by {
            if row == upto - 1 {
                assert(rows[rows.len() - 1] == row);
            } else {
                assert(before.contains(row));
                let i = choose|i: int| 0 <= i < before.len() && before[i] == row;
                assert(rows[i] == row);
            }
        }
    }
}

/// Rows with equal cells in the key columns go to the same partition, in whichever batches they are.
pub proof fn equal_keys_meet(
    left: Seq<ColumnView>,
    left_row: int,
    right: Seq<ColumnView>,
    right_row: int,
    partition_count: u32,
)
    requires
        partition_count > 0,
        row_of(left, left_row) == row_of(right, right_row),
    ensures
        partition_of(row_key(row_of(left, left_row)), partition_count) == partition_of(
            row_key(row_of(right, right_row)),
            partition_count,
        ),
        partition_of(row_key(row_of(left, left_row)), partition_count) < partition_count,
{
}

/// What a partition received, with what that is charged.
#[derive(Debug)]
pub struct PartitionOutput {
    pub partition: PartitionId,
    pub batches: Vec<Batch>,
    pub reservation: MemoryReservation,
}

pub struct PartitionView {
    pub partition: PartitionId,
    pub batches: Seq<BatchView>,
    pub held: u64,
}

impl View for PartitionOutput {
    type V = PartitionView;

    open spec fn view(&self) -> PartitionView {
        PartitionView {
            partition: self.partition,
            batches: batch_views(self.batches@),
            held: self.reservation@,
        }
    }
}

pub open spec fn output_views(outputs: Seq<PartitionOutput>) -> Seq<PartitionView> {
    Seq::new(outputs.len(), |i: int| outputs[i]@)
}

/// The partitions' outputs and the budget.
pub struct ExchangeTable {
    pub outputs: Seq<PartitionView>,
    pub memory: MemoryView,
}

/// The outputs before any batch.
pub open spec fn no_outputs(partition_count: u32) -> Seq<PartitionView> {
    Seq::new(
        partition_count as nat,
        |i: int|
            PartitionView { partition: PartitionId(i as u32), batches: Seq::empty(), held: 0 },
    )
}

/// The table after a partition received some rows of a batch.
pub open spec fn received(
    table: ExchangeTable,
    schema: SchemaView,
    batch: BatchView,
    partition: int,
    rows: Seq<int>,
) -> Result<ExchangeTable, ErrorView> {
    if rows.len() == 0 {
        Ok(table)
    } else {
        match made_batch(schema, batch.taken(rows).columns, None) {
            Err(error) => Err(error),
            Ok(output) => {
                let bytes = batch_charge(output.columns);
                let part = table.outputs[partition];
                if part.held + bytes > u64::MAX {
                    Err(ErrorView::ResourceExhausted("memory reservation size overflowed"@))
                } else {
                    match table.memory.check(bytes) {
                        Err(error) => Err(error),
                        Ok(()) => Ok(
                            ExchangeTable {
                                outputs: table.outputs.update(
                                    partition,
                                    PartitionView {
                                        partition: part.partition,
                                        batches: part.batches.push(output),
                                        held: (part.held + bytes) as u64,
                                    },
                                ),
                                memory: table.memory.claimed(bytes),
                            },
                        ),
                    }
                }
            },
        }
    }
}

/// The table after the first `upto` partitions received their rows of a batch.
pub open spec fn all_received(
    table: ExchangeTable,
    schema: SchemaView,
    batch: BatchView,
    keys: Seq<Seq<u8>>,
    partition_count: u32,
    upto: int,
) -> Result<ExchangeTable, ErrorView>
    decreases upto,
{
    if upto <= 0 {
        Ok(table)
    } else {
        match all_received(table, schema, batch, keys, partition_count, upto - 1) {
            Err(error) => Err(error),
            Ok(before) => received(
                before,
                schema,
                batch,
                upto - 1,
                rows_of_partition(keys, partition_count, upto - 1, keys.len() as int),
            ),
        }
    }
}

proof fn receiving_fails_early(
    table: ExchangeTable,
    schema: SchemaView,
    batch: BatchView,
    keys: Seq<Seq<u8>>,
    partition_count: u32,
    upto: int,
    full: int,
)
    requires
        0 <= upto <= full,
        all_received(table, schema, batch, keys, partition_count, upto) is Err,
    ensures
        all_received(table, schema, batch, keys, partition_count, full) == all_received(
            table,
            schema,
            batch,
            keys,
            partition_count,
            upto,
        ),
    decreases full - upto,
{
    if upto < full {
        receiving_fails_early(table, schema, batch, keys, partition_count, upto, full - 1);
    }
}

/// The columns that a list of places names.
pub open spec fn columns_at(columns: Seq<ColumnView>, places: Seq<usize>) -> Seq<ColumnView> {
    Seq::new(places.len(), |i: int| columns[places[i] as int])
}

/// The types of the fields that a list of places names.
pub open spec fn types_at(schema: SchemaView, places: Seq<usize>) -> Seq<DataTypeView> {
    Seq::new(places.len(), |i: int| schema.fields[places[i] as int].data_type)
}

/// What the places of a batch's rows are charged while it is dealt.
pub open spec fn places_charge(rows: nat) -> u64 {
    capped((rows * 24) as int)
}

/// The table after one batch more. Its keys and the places of its rows are charged while it is
/// dealt.
pub open spec fn batch_dealt(
    table: ExchangeTable,
    schema: SchemaView,
    exchange: HashExchangeView,
    batch: BatchView,
) -> Result<ExchangeTable, ErrorView> {
    match encoded(
        types_at(schema, exchange.columns),
        columns_at(batch.columns, exchange.columns),
        batch.rows,
    ) {
        Err(error) => Err(error),
        Ok(keys) => {
            let keys_charge = capped(key_bytes(keys, keys.len() as int) as int);
            let rows_charge = places_charge(batch.rows);
            match table.memory.check(keys_charge) {
                Err(error) => Err(error),
                Ok(()) => {
                    let memory = table.memory.claimed(keys_charge);
                    match memory.check(rows_charge) {
                        Err(error) => Err(error),
                        Ok(()) => match all_received(
                            ExchangeTable { memory: memory.claimed(rows_charge), ..table },
                            schema,
                            batch,
                            keys,
                            exchange.partition_count,
                            exchange.partition_count as int,
                        ) {
                            Err(error) => Err(error),
                            Ok(next) => Ok(
                                ExchangeTable {
                                    memory: next.memory.returned(rows_charge).returned(keys_charge),
                                    ..next
                                },
                            ),
                        },
                    }
                },
            }
        },
    }
}

/// The table after the first `upto` batches.
pub open spec fn batches_dealt(
    schema: SchemaView,
    batches: Seq<BatchView>,
    exchange: HashExchangeView,
    memory: MemoryView,
    upto: int,
) -> Result<ExchangeTable, ErrorView>
    decreases upto,
{
    if upto <= 0 {
        Ok(ExchangeTable { outputs: no_outputs(exchange.partition_count), memory })
    } else {
        match batches_dealt(schema, batches, exchange, memory, upto - 1) {
            Err(error) => Err(error),
            Ok(table) => batch_dealt(table, schema, exchange, batches[upto - 1]),
        }
    }
}

proof fn dealing_fails_early(
    schema: SchemaView,
    batches: Seq<BatchView>,
    exchange: HashExchangeView,
    memory: MemoryView,
    upto: int,
    full: int,
)
    requires
        0 <= upto <= full,
        batches_dealt(schema, batches, exchange, memory, upto) is Err,
    ensures
        batches_dealt(schema, batches, exchange, memory, full) == batches_dealt(
            schema,
            batches,
            exchange,
            memory,
            upto,
        ),
    decreases full - upto,
{
    if upto < full {
        dealing_fails_early(schema, batches, exchange, memory, upto, full - 1);
    }
}

/// Whether an exchange names columns of a schema and has somewhere to send rows.
pub open spec fn exchange_is_valid(exchange: HashExchangeView, schema: SchemaView) -> bool {
    &&& exchange.partition_count > 0
    &&& exchange.columns.len() > 0
    &&& forall|i: int|
        0 <= i < exchange.columns.len() ==> #[trigger] exchange.columns[i] < schema.fields.len()
}

/// What repartitioning gives, or why it gives nothing.
pub open spec fn repartitioned(
    schema: SchemaView,
    batches: Seq<BatchView>,
    exchange: HashExchangeView,
    memory: MemoryView,
    cancelled: bool,
) -> Result<ExchangeTable, ErrorView> {
    if cancelled {
        Err(ErrorView::Cancelled)
    } else if !exchange_is_valid(exchange, schema) {
        Err(ErrorView::Protocol("invalid hash exchange keys or partition count"@))
    } else {
        batches_dealt(schema, batches, exchange, memory, batches.len() as int)
    }
}

/// What the first `upto` partitions are charged.
pub open spec fn held_by(outputs: Seq<PartitionView>, upto: int) -> nat
    decreases upto,
{
    if upto <= 0 {
        0
    } else {
        held_by(outputs, upto - 1) + outputs[upto - 1].held as nat
    }
}

proof fn held_after_update(
    outputs: Seq<PartitionView>,
    place: int,
    part: PartitionView,
    upto: int,
)
    requires
        0 <= place < outputs.len(),
        0 <= upto <= outputs.len(),
    ensures
        held_by(outputs.update(place, part), upto) == held_by(outputs, upto) + (if place < upto {
            part.held - outputs[place].held
        } else {
            0
        }),
    decreases upto,
{
    if upto > 0 {
        held_after_update(outputs, place, part, upto - 1);
    }
}

/// Whether a budget holds what the partitions are charged, beside what else it held.
pub open spec fn accounts_for(
    memory: MemoryView,
    outputs: Seq<PartitionView>,
    first: MemoryView,
    extra: int,
) -> bool {
    &&& memory.wf()
    &&& memory.limit == first.limit
    &&& memory.peak >= first.peak
    &&& memory.reserved == first.reserved + held_by(outputs, outputs.len() as int) + extra
}

fn release_outputs(outputs: Vec<PartitionOutput>, memory: &mut QueryMemory)
    requires
        old(memory).wf(),
        held_by(output_views(outputs@), outputs.len() as int) <= old(memory)@.reserved,
    ensures
        final(memory).wf(),
        final(memory)@ == (MemoryView {
            reserved: (old(memory)@.reserved - held_by(
                output_views(outputs@),
                outputs.len() as int,
            )) as nat,
            ..old(memory)@
        }),
{
    let ghost views = output_views(outputs@);
    let ghost before = memory@;
    let mut rest = outputs;
    while rest.len() > 0
        invariant
            memory.wf(),
            rest.len() <= views.len(),
            forall|k: int| 0 <= k < rest.len() ==> (#[trigger] rest@[k])@ == views[k],
            held_by(views, rest.len() as int) <= memory@.reserved,
            memory@.reserved - held_by(views, rest.len() as int) == before.reserved - held_by(
                views,
                views.len() as int,
            ),
            memory@.limit == before.limit,
            memory@.peak == before.peak,
            views.len() == outputs.len(),
        decreases rest.len(),
    {
        proof {
            assert(rest@[rest.len() - 1]@ == views[rest.len() - 1]);
        }
        if let Some(output) = rest.pop() {
            output.reservation.release(memory);
        }
    }
}

fn route(keys: &Vec<Vec<u8>>, partition_count: u32, partition: u32) -> (r: Vec<Option<usize>>)
    requires
        partition_count > 0,
    ensures
        row_numbers(r@) == rows_of_partition(
            key_views(keys@),
            partition_count,
            partition as int,
            keys.len() as int,
        ),
        crate::batch::rows_within(r@, keys.len() as nat),
{
    let ghost views = key_views(keys@);
    let mut rows: Vec<Option<usize>> = Vec::new();
    proof {
        assert(row_numbers(rows@) =~= Seq::empty());
    }
    for i in 0..keys.len()
        invariant
            partition_count > 0,
            views == key_views(keys@),
            row_numbers(rows@) == rows_of_partition(
                views,
                partition_count,
                partition as int,
                i as int,
            ),
            crate::batch::rows_within(rows@, keys.len() as nat),
    {
        let ghost before = row_numbers(rows@);
        proof {
            assert(views[i as int] == keys@[i as int]@);
        }
        if checksum(keys[i].as_slice()) % partition_count == partition {
            rows.push(Some(i));
            proof {
                assert(row_numbers(rows@) =~= before.push(i as int));
            }
        }
    }
    rows
}

/// Gives a partition its rows of a batch.
fn receive(
    outputs: &mut Vec<PartitionOutput>,
    memory: &mut QueryMemory,
    schema: &Schema,
    batch: &Batch,
    partition: usize,
    rows: &Vec<Option<usize>>,
    Ghost(first): Ghost<MemoryView>,
    Ghost(extra): Ghost<int>,
) -> (r: Result<(), SparkXError>)
    requires
        batch.wf(),
        partition < old(outputs).len(),
        crate::batch::rows_within(rows@, batch@.rows),
        accounts_for(old(memory)@, output_views(old(outputs)@), first, extra),
        extra >= 0,
    ensures
        accounts_for(final(memory)@, output_views(final(outputs)@), first, extra),
        final(outputs).len() == old(outputs).len(),
        match r {
            Ok(()) => received(
                ExchangeTable { outputs: output_views(old(outputs)@), memory: old(memory)@ },
                schema@,
                batch@,
                partition as int,
                row_numbers(rows@),
            ) == Ok::<ExchangeTable, ErrorView>(
                ExchangeTable { outputs: output_views(final(outputs)@), memory: final(memory)@ },
            ),
            Err(error) => received(
                ExchangeTable { outputs: output_views(old(outputs)@), memory: old(memory)@ },
                schema@,
                batch@,
                partition as int,
                row_numbers(rows@),
            ) == Err::<ExchangeTable, ErrorView>(error@),
        },
{
    let ghost views = output_views(outputs@);
    if rows.len() == 0 {
        return Ok(());
    }
    let taken = batch.take(rows);
    let output = match Batch::try_new(
        schema.clone(),
        crate::execution::run::copy_columns(&taken),
        None,
    ) {
        Ok(output) => output,
        Err(error) => return Err(error),
    };
    let bytes: u64 = output.memory_size();
    let mut part = outputs.remove(partition);
    let ghost old_part = part@;
    proof {
        assert(old_part == views[partition as int]);
    }
    let grown = part.reservation.try_grow(memory, bytes);
    match grown {
        Ok(()) => {
            let ghost batches = batch_views(part.batches@);
            let ghost view = output@;
            part.batches.push(output);
            proof {
                assert(batch_views(part.batches@) =~= batches.push(view));
            }
            let ghost new_part = part@;
            outputs.insert(partition, part);
            proof {
                assert(output_views(outputs@) =~= views.update(partition as int, new_part));
                held_after_update(views, partition as int, new_part, views.len() as int);
            }
            Ok(())
        },
        Err(error) => {
            outputs.insert(partition, part);
            proof {
                assert(output_views(outputs@) =~= views);
            }
            Err(error)
        },
    }
}

/// Deals the rows of a batch.
fn deal_batch(
    outputs: &mut Vec<PartitionOutput>,
    memory: &mut QueryMemory,
    schema: &Schema,
    exchange: &HashExchange,
    types: &Vec<DataType>,
    batch: &Batch,
    Ghost(first): Ghost<MemoryView>,
) -> (r: Result<(), SparkXError>)
    requires
        batch.wf(),
        batch@.columns.len() == schema@.fields.len(),
        exchange_is_valid(exchange@, schema@),
        type_views(types@) == types_at(schema@, exchange@.columns),
        old(outputs).len() == exchange.partition_count,
        accounts_for(old(memory)@, output_views(old(outputs)@), first, 0),
    ensures
        accounts_for(final(memory)@, output_views(final(outputs)@), first, 0),
        final(outputs).len() == old(outputs).len(),
        match r {
            Ok(()) => batch_dealt(
                ExchangeTable { outputs: output_views(old(outputs)@), memory: old(memory)@ },
                schema@,
                exchange@,
                batch@,
            ) == Ok::<ExchangeTable, ErrorView>(
                ExchangeTable { outputs: output_views(final(outputs)@), memory: final(memory)@ },
            ),
            Err(error) => batch_dealt(
                ExchangeTable { outputs: output_views(old(outputs)@), memory: old(memory)@ },
                schema@,
                exchange@,
                batch@,
            ) == Err::<ExchangeTable, ErrorView>(error@),
        },
{
    let rows: usize = batch.num_rows();
    let mut columns: Vec<Column> = Vec::new();
    for i in 0..exchange.columns.len()
        invariant
            batch.wf(),
            batch@.columns.len() == schema@.fields.len(),
            exchange_is_valid(exchange@, schema@),
            rows == batch@.rows,
            columns.len() == i,
            forall|k: int|
                0 <= k < i ==> (#[trigger] columns@[k])@
                    == batch@.columns[exchange.columns@[k] as int] && columns@[k]@.len() == rows,
    {
        proof {
            assert(exchange@.columns[i as int] < schema@.fields.len());
            assert(batch@.columns[exchange.columns@[i as int] as int].len() == batch@.rows);
        }
        columns.push(batch.column(exchange.columns[i]).clone());
    }
    proof {
        assert(column_views(columns@) =~= columns_at(batch@.columns, exchange@.columns));
        assert(type_views(types@).len() == types.len());
    }
    let keys = match encode_keys(types, &columns, rows) {
        Ok(keys) => keys,
        Err(error) => return Err(error),
    };
    let ghost key_list = key_views(keys@);
    let keys_reservation = match memory.try_reserve(measure_keys(&keys)) {
        Ok(reservation) => reservation,
        Err(error) => return Err(error),
    };
    let charge: u128 = rows as u128 * 24;
    let rows_bytes: u64 = if charge > u64::MAX as u128 {
        u64::MAX
    } else {
        charge as u64
    };
    let rows_reservation = match memory.try_reserve(rows_bytes) {
        Ok(reservation) => reservation,
        Err(error) => {
            keys_reservation.release(memory);
            return Err(error);
        },
    };
    let ghost start = ExchangeTable { outputs: output_views(outputs@), memory: memory@ };
    let ghost extra = keys_reservation@ + rows_reservation@;
    for partition in 0..exchange.partition_count
        invariant
            batch.wf(),
            rows == batch@.rows,
            key_list == key_views(keys@),
            keys.len() == rows,
            exchange.partition_count > 0,
            outputs.len() == exchange.partition_count,
            outputs.len() == old(outputs).len(),
            extra == keys_reservation@ + rows_reservation@,
            accounts_for(memory@, output_views(outputs@), first, extra),
            keys_reservation@ == capped(key_bytes(key_list, key_list.len() as int) as int),
            rows_reservation@ == places_charge(batch@.rows),
            all_received(
                start,
                schema@,
                batch@,
                key_list,
                exchange.partition_count,
                partition as int,
            ) == Ok::<ExchangeTable, ErrorView>(
                ExchangeTable { outputs: output_views(outputs@), memory: memory@ },
            ),
            encoded(
                types_at(schema@, exchange@.columns),
                columns_at(batch@.columns, exchange@.columns),
                batch@.rows,
            ) == Ok::<Seq<Seq<u8>>, ErrorView>(key_list),
            old(memory)@.check(keys_reservation@) is Ok,
            old(memory)@.claimed(keys_reservation@).check(rows_reservation@) is Ok,
            start == (ExchangeTable {
                outputs: output_views(old(outputs)@),
                memory: old(memory)@.claimed(keys_reservation@).claimed(rows_reservation@),
            }),
    {
        let places = route(&keys, exchange.partition_count, partition);
        match receive(
            outputs,
            memory,
            schema,
            batch,
            partition as usize,
            &places,
            Ghost(first),
            Ghost(extra),
        ) {
            Ok(()) => {},
            Err(error) => {
                proof {
                    receiving_fails_early(
                        start,
                        schema@,
                        batch@,
                        key_list,
                        exchange.partition_count,
                        partition + 1,
                        exchange.partition_count as int,
                    );
                }
                rows_reservation.release(memory);
                keys_reservation.release(memory);
                return Err(error);
            },
        }
    }
    rows_reservation.release(memory);
    keys_reservation.release(memory);
    Ok(())
}

/// Deals the rows of batches to partitions by the hash of their keys. A partition that receives
/// nothing has an empty list. What is refused leaves nothing claimed.
pub fn repartition(
    schema: &Schema,
    batches: &Vec<Batch>,
    exchange: &HashExchange,
    memory: &mut QueryMemory,
    cancelled: bool,
) -> (r: Result<Vec<PartitionOutput>, SparkXError>)
    requires
        old(memory).wf(),
        forall|i: int|
            0 <= i < batches.len() ==> (#[trigger] batches@[i]).wf()
                && batches@[i]@.columns.len() == schema@.fields.len(),
    ensures
        final(memory).wf(),
        final(memory)@.limit == old(memory)@.limit,
        final(memory)@.peak >= old(memory)@.peak,
        match r {
            Ok(outputs) => {
                &&& repartitioned(
                    schema@,
                    batch_views(batches@),
                    exchange@,
                    old(memory)@,
                    cancelled,
                ) == Ok::<ExchangeTable, ErrorView>(
                    ExchangeTable { outputs: output_views(outputs@), memory: final(memory)@ },
                )
                &&& outputs.len() == exchange.partition_count
                &&& final(memory)@.reserved == old(memory)@.reserved + held_by(
                    output_views(outputs@),
                    outputs.len() as int,
                )
            },
            Err(error) => {
                &&& repartitioned(
                    schema@,
                    batch_views(batches@),
                    exchange@,
                    old(memory)@,
                    cancelled,
                ) == Err::<ExchangeTable, ErrorView>(error@)
                &&& final(memory)@.reserved == old(memory)@.reserved
            },
        },
{
    if cancelled {
        return Err(SparkXError::Cancelled);
    }
    let width: usize = schema.fields.len();
    let mut valid: bool = exchange.partition_count > 0 && exchange.columns.len() > 0;
    for i in 0..exchange.columns.len()
        invariant
            width == schema@.fields.len(),
            valid == (exchange.partition_count > 0 && exchange.columns.len() > 0 && forall|k: int|
                0 <= k < i ==> #[trigger] exchange@.columns[k] < width),
    {
        if exchange.columns[i] >= width {
            proof {
                assert(exchange@.columns[i as int] >= width);
            }
            valid = false;
        }
    }
    if !valid {
        return Err(
            SparkXError::protocol("invalid hash exchange keys or partition count".to_owned()),
        );
    }
    let mut types: Vec<DataType> = Vec::new();
    for i in 0..exchange.columns.len()
        invariant
            exchange_is_valid(exchange@, schema@),
            types.len() == i,
            forall|k: int|
                0 <= k < i ==> (#[trigger] types@[k])@
                    == schema@.fields[exchange@.columns[k] as int].data_type,
    {
        proof {
            assert(exchange@.columns[i as int] < schema@.fields.len());
        }
        types.push(schema.fields[exchange.columns[i]].data_type.clone());
    }
    proof {
        assert(type_views(types@) =~= types_at(schema@, exchange@.columns));
    }
    let mut outputs: Vec<PartitionOutput> = Vec::new();
    for partition in 0..exchange.partition_count
        invariant
            memory.wf(),
            memory@ == old(memory)@,
            outputs.len() == partition,
            forall|k: int|
                0 <= k < partition ==> (#[trigger] outputs@[k])@ == no_outputs(
                    exchange.partition_count,
                )[k],
    {
        let reservation = match memory.try_reserve(0) {
            Ok(reservation) => reservation,
            Err(error) => return Err(error),
        };
        let batches: Vec<Batch> = Vec::new();
        proof {
            assert(batch_views(batches@) =~= Seq::empty());
        }
        outputs.push(
            PartitionOutput { partition: PartitionId(partition), batches, reservation },
        );
    }
    let ghost views = batch_views(batches@);
    proof {
        assert(output_views(outputs@) =~= no_outputs(exchange.partition_count));
        nothing_is_held(exchange.partition_count, exchange.partition_count as int);
    }
    for i in 0..batches.len()
        invariant
            forall|i: int|
                0 <= i < batches.len() ==> (#[trigger] batches@[i]).wf()
                    && batches@[i]@.columns.len() == schema@.fields.len(),
            views == batch_views(batches@),
            exchange_is_valid(exchange@, schema@),
            type_views(types@) == types_at(schema@, exchange@.columns),
            outputs.len() == exchange.partition_count,
            accounts_for(memory@, output_views(outputs@), old(memory)@, 0),
            !cancelled,
            batches_dealt(schema@, views, exchange@, old(memory)@, i as int) == Ok::<
                ExchangeTable,
                ErrorView,
            >(ExchangeTable { outputs: output_views(outputs@), memory: memory@ }),
    {
        proof {
            assert(views[i as int] == batches@[i as int]@);
        }
        match deal_batch(
            &mut outputs,
            memory,
            schema,
            exchange,
            &types,
            &batches[i],
            Ghost(old(memory)@),
        ) {
            Ok(()) => {},
            Err(error) => {
                proof {
                    dealing_fails_early(
                        schema@,
                        views,
                        exchange@,
                        old(memory)@,
                        i + 1,
                        batches.len() as int,
                    );
                }
                release_outputs(outputs, memory);
                return Err(error);
            },
        }
    }
    Ok(outputs)
}

proof fn nothing_is_held(partition_count: u32, upto: int)
    requires
        0 <= upto <= partition_count,
    ensures
        held_by(no_outputs(partition_count), upto) == 0,
    decreases upto,
{
    if upto > 0 {
        nothing_is_held(partition_count, upto - 1);
    }
}

} // verus!
