//! Tables held in memory.

use crate::batch::{batch_views, Batch, BatchView};
use crate::catalog::{no_table, no_table_failure, Table, TableView};
use crate::column::{column_views, Column};
use crate::error::{ErrorView, SparkXError};
use crate::text::{decimal, join, lowercase, numeral, same_text, small_letters};
use crate::types::{Field, Schema, SchemaView};
use vstd::prelude::*;

verus! {

/// A table whose partitions are lists of batches of one schema.
#[derive(Debug)]
pub struct MemoryTable {
    schema: Schema,
    partitions: Vec<Vec<Batch>>,
}

pub struct MemoryTableView {
    pub schema: SchemaView,
    pub partitions: Seq<Seq<BatchView>>,
}

pub open spec fn partition_views(partitions: Seq<Vec<Batch>>) -> Seq<Seq<BatchView>> {
    Seq::new(partitions.len(), |i: int| batch_views(partitions[i]@))
}

impl View for MemoryTable {
    type V = MemoryTableView;

    closed spec fn view(&self) -> MemoryTableView {
        MemoryTableView { schema: self.schema@, partitions: partition_views(self.partitions@) }
    }
}

/// Whether every batch is a valid one of a schema.
pub open spec fn all_of_schema(batches: Seq<BatchView>, schema: SchemaView) -> bool {
    forall|i: int| 0 <= i < batches.len() ==> (#[trigger] batches[i]).schema == schema
}

pub open spec fn all_valid(batches: Seq<BatchView>) -> bool {
    forall|i: int| 0 <= i < batches.len() ==> (#[trigger] batches[i]).wf()
}

impl MemoryTableView {
    /// What holds of every table: at least one partition, and batches of the table's schema.
    pub open spec fn wf(self) -> bool {
        &&& 1 <= self.partitions.len() <= usize::MAX
        &&& forall|i: int|
            0 <= i < self.partitions.len() ==> all_valid(#[trigger] self.partitions[i])
                && all_of_schema(self.partitions[i], self.schema)
    }

    /// What planning reads of the table.
    pub open spec fn described(self) -> TableView {
        TableView { schema: self.schema, partition_count: self.partitions.len() as usize }
    }
}

/// Whether all batches of the partitions are of a schema.
pub open spec fn partitions_agree(partitions: Seq<Seq<BatchView>>, schema: SchemaView) -> bool {
    forall|i: int|
        0 <= i < partitions.len() ==> all_of_schema(#[trigger] partitions[i], schema)
}

/// The table that partitions make, or why they make none. Without partitions there is an empty one.
pub open spec fn made_table(schema: SchemaView, partitions: Seq<Seq<BatchView>>) -> Result<
    MemoryTableView,
    ErrorView,
> {
    if !partitions_agree(partitions, schema) {
        Err(ErrorView::Planning("all in-memory batches must use the table schema"@))
    } else {
        Ok(
            MemoryTableView {
                schema,
                partitions: if partitions.len() == 0 {
                    seq![Seq::empty()]
                } else {
                    partitions
                },
            },
        )
    }
}

pub open spec fn memory_table_outcome(r: Result<MemoryTable, SparkXError>) -> Result<
    MemoryTableView,
    ErrorView,
> {
    match r {
        Ok(table) => Ok(table@),
        Err(error) => Err(error@),
    }
}

/// The places among the first `upto` batches that go to a partition when they go round.
pub open spec fn dealt(batches: Seq<BatchView>, partitions: int, target: int, upto: int) -> Seq<
    BatchView,
>
    decreases upto,
{
    if upto <= 0 {
        Seq::empty()
    } else if (upto - 1) % partitions == target {
        dealt(batches, partitions, target, upto - 1).push(batches[upto - 1])
    } else {
        dealt(batches, partitions, target, upto - 1)
    }
}

/// The table of batches that are dealt to partitions one after the other.
pub open spec fn dealt_table(batches: Seq<BatchView>, partitions: nat) -> Result<
    MemoryTableView,
    ErrorView,
> {
    let count = if partitions == 0 {
        1
    } else {
        partitions
    };
    if batches.len() == 0 {
        Err(ErrorView::Planning("at least one batch is required"@))
    } else {
        made_table(
            batches[0].schema,
            Seq::new(
                count,
                |target: int| dealt(batches, count as int, target, batches.len() as int),
            ),
        )
    }
}

/// The error of a column that a batch does not have.
pub open spec fn projection_failure(index: nat, width: nat) -> ErrorView {
    ErrorView::Arrow(
        "Schema error: project index "@ + numeral(index) + " out of bounds, max field "@ + numeral(
            width,
        ),
    )
}

/// What keeps a projection from being made, if anything does.
pub open spec fn projection_check(indices: Seq<usize>, width: nat, from: int) -> Result<
    (),
    ErrorView,
>
    decreases indices.len() - from,
{
    if from >= indices.len() {
        Ok(())
    } else if indices[from] >= width {
        Err(projection_failure(indices[from] as nat, width))
    } else {
        projection_check(indices, width, from + 1)
    }
}

impl BatchView {
    /// The batch with some columns of this one.
    pub open spec fn with_columns(self, indices: Seq<usize>) -> BatchView {
        BatchView {
            schema: SchemaView {
                fields: Seq::new(indices.len(), |i: int| self.schema.fields[indices[i] as int]),
                ..self.schema
            },
            columns: Seq::new(indices.len(), |i: int| self.columns[indices[i] as int]),
            rows: self.rows,
        }
    }

    /// The batch with some columns of this one, or why there is none.
    pub open spec fn projection(self, indices: Seq<usize>) -> Result<BatchView, ErrorView> {
        match projection_check(indices, self.columns.len(), 0) {
            Err(error) => Err(error),
            Ok(()) => Ok(self.with_columns(indices)),
        }
    }
}

proof fn projections_are_valid(batch: BatchView, indices: Seq<usize>)
    requires
        batch.wf(),
        forall|i: int| 0 <= i < indices.len() ==> #[trigger] indices[i] < batch.columns.len(),
    ensures
        crate::batch::made_batch(
            batch.with_columns(indices).schema,
            batch.with_columns(indices).columns,
            Some(batch.rows as usize),
        ) == Ok::<BatchView, ErrorView>(batch.with_columns(indices)),
{
    let next = batch.with_columns(indices);
    assert forall|i: int| 0 <= i < next.columns.len() implies (#[trigger] next.columns[i]).len()
        == batch.rows by {
        assert(batch.columns[indices[i] as int].len() == batch.rows);
    }
    projected_nulls_are_fine(batch, indices, 0);
    projected_types_are_fine(batch, indices, 0);
}

proof fn projected_nulls_are_fine(batch: BatchView, indices: Seq<usize>, from: int)
    requires
        0 <= from,
        batch.wf(),
        forall|i: int| 0 <= i < indices.len() ==> #[trigger] indices[i] < batch.columns.len(),
    ensures
        crate::batch::nulls_check(
            batch.with_columns(indices).schema,
            batch.with_columns(indices).columns,
            from,
        ) is Ok,
    decreases indices.len() - from,
{
    if from < indices.len() {
        let column = batch.columns[indices[from] as int];
        projected_nulls_are_fine(batch, indices, from + 1);
    }
}

proof fn projected_types_are_fine(batch: BatchView, indices: Seq<usize>, from: int)
    requires
        0 <= from,
        batch.wf(),
        forall|i: int| 0 <= i < indices.len() ==> #[trigger] indices[i] < batch.columns.len(),
    ensures
        crate::batch::types_check(
            batch.with_columns(indices).schema,
            batch.with_columns(indices).columns,
            from,
        ) is Ok,
    decreases indices.len() - from,
{
    if from < indices.len() {
        let column = batch.columns[indices[from] as int];
        projected_types_are_fine(batch, indices, from + 1);
    }
}

impl Batch {
    /// The batch with some columns of this one.
    pub fn project(&self, indices: &Vec<usize>) -> (r: Result<Batch, SparkXError>)
        requires
            self.wf(),
        ensures
            crate::batch::batch_outcome(r) == self@.projection(indices@),
            r matches Ok(batch) ==> batch.wf(),
    {
        let width: usize = self.num_columns();
        let mut fields: Vec<Field> = Vec::new();
        let mut columns: Vec<Column> = Vec::new();
        for i in 0..indices.len()
            invariant
                self.wf(),
                width == self@.columns.len(),
                fields.len() == i,
                columns.len() == i,
                projection_check(indices@, width as nat, 0) == projection_check(
                    indices@,
                    width as nat,
                    i as int,
                ),
                forall|k: int| 0 <= k < i ==> #[trigger] indices@[k] < width,
                forall|k: int|
                    0 <= k < i ==> (#[trigger] fields@[k])@
                        == self@.schema.fields[indices@[k] as int],
                forall|k: int|
                    0 <= k < i ==> (#[trigger] columns@[k])@ == self@.columns[indices@[k] as int],
        {
            let index: usize = indices[i];
            if index >= width {
                let mut message: String = join(
                    "Schema error: project index ",
                    decimal(index as u64).as_str(),
                );
                message.append(" out of bounds, max field ");
                message.append(decimal(width as u64).as_str());
                return Err(SparkXError::Arrow(message));
            }
            let schema = self.schema();
            proof {
                assert(schema@.fields[index as int] == schema.fields@[index as int]@);
            }
            fields.push(schema.fields[index].clone());
            columns.push(self.column(index).clone());
        }
        let schema = Schema { fields, metadata: crate::types::clone_metadata(&self.schema().metadata) };
        proof {
            let next = self@.with_columns(indices@);
            assert(schema@.fields =~= next.schema.fields);
            assert(column_views(columns@) =~= next.columns);
            projections_are_valid(self@, indices@);
        }
        Batch::try_new(schema, columns, Some(self.num_rows()))
    }
}

impl MemoryTable {
    pub open spec fn wf(&self) -> bool {
        self@.wf()
    }

    /// A table of a schema with the given partitions.
    pub fn new(schema: Schema, partitions: Vec<Vec<Batch>>) -> (r: Result<Self, SparkXError>)
        requires
            forall|i: int|
                0 <= i < partitions.len() ==> all_valid(
                    #[trigger] partition_views(partitions@)[i],
                ),
        ensures
            memory_table_outcome(r) == made_table(schema@, partition_views(partitions@)),
            r matches Ok(table) ==> table.wf(),
    {
        let ghost views = partition_views(partitions@);
        for i in 0..partitions.len()
            invariant
                views == partition_views(partitions@),
                forall|k: int| 0 <= k < i ==> all_of_schema(#[trigger] views[k], schema@),
        {
            let batches = &partitions[i];
            proof {
                assert(views[i as int] == batch_views(partitions@[i as int]@));
            }
            for k in 0..batches.len()
                invariant
                    views == partition_views(partitions@),
                    i < partitions.len(),
                    batches@ == partitions@[i as int]@,
                    views[i as int] == batch_views(batches@),
                    forall|j: int|
                        0 <= j < k ==> (#[trigger] views[i as int][j]).schema == schema@,
            {
                proof {
                    assert(views[i as int][k as int] == batches@[k as int]@);
                }
                if !batches[k].schema().same(&schema) {
                    proof {
                        assert(views[i as int][k as int].schema != schema@);
                        assert(!all_of_schema(views[i as int], schema@));
                    }
                    return Err(
                        SparkXError::planning(
                            "all in-memory batches must use the table schema".to_owned(),
                        ),
                    );
                }
            }
        }
        let partitions = if partitions.len() == 0 {
            let one: Vec<Vec<Batch>> = vec![Vec::new()];
            proof {
                assert(batch_views(one@[0]@) =~= Seq::empty());
                assert(partition_views(one@) =~= seq![Seq::empty()]);
            }
            one
        } else {
            partitions
        };
        Ok(MemoryTable { schema, partitions })
    }

    /// A table whose batches are dealt to partitions one after the other.
    pub fn from_batches(batches: &Vec<Batch>, partitions: usize) -> (r: Result<Self, SparkXError>)
        requires
            all_valid(batch_views(batches@)),
        ensures
            memory_table_outcome(r) == dealt_table(batch_views(batches@), partitions as nat),
            r matches Ok(table) ==> table.wf(),
    {
        let ghost views = batch_views(batches@);
        if batches.len() == 0 {
            return Err(SparkXError::planning("at least one batch is required".to_owned()));
        }
        let count: usize = if partitions == 0 {
            1
        } else {
            partitions
        };
        let mut output: Vec<Vec<Batch>> = Vec::new();
        for target in 0..count
            invariant
                count > 0,
                views == batch_views(batches@),
                all_valid(views),
                output.len() == target,
                forall|k: int|
                    0 <= k < target ==> batch_views((#[trigger] output@[k])@) == dealt(
                        views,
                        count as int,
                        k,
                        views.len() as int,
                    ) && all_valid(batch_views(output@[k]@)),
        {
            let mut part: Vec<Batch> = Vec::new();
            proof {
                assert(batch_views(part@) =~= Seq::empty());
            }
            for i in 0..batches.len()
                invariant
                    count > 0,
                    views == batch_views(batches@),
                    all_valid(views),
                    batch_views(part@) == dealt(views, count as int, target as int, i as int),
                    all_valid(batch_views(part@)),
            {
                let ghost before = batch_views(part@);
                proof {
                    assert(views[i as int] == batches@[i as int]@);
                }
                if i % count == target {
                    part.push(batches[i].clone());
                    proof {
                        assert(batch_views(part@) =~= before.push(views[i as int]));
                        assert forall|k: int| 0 <= k < batch_views(part@).len() implies (
                        #[trigger] batch_views(part@)[k]).wf() by {
                            if k < before.len() {
                                assert(before[k].wf());
                            }
                        }
                    }
                }
            }
            output.push(part);
        }
        proof {
            assert(partition_views(output@) =~= Seq::new(
                count as nat,
                |target: int| dealt(views, count as int, target, views.len() as int),
            ));
            assert forall|i: int| 0 <= i < output.len() implies all_valid(
                #[trigger] partition_views(output@)[i],
            ) by {
                assert(partition_views(output@)[i] == batch_views(output@[i]@));
            }
            assert(views[0] == batches@[0]@);
        }
        MemoryTable::new(batches[0].schema().clone(), output)
    }

    pub fn schema(&self) -> (r: &Schema)
        ensures
            r@ == self@.schema,
    {
        &self.schema
    }

    pub fn partition_count(&self) -> (r: usize)
        ensures
            r == self@.partitions.len(),
    {
        self.partitions.len()
    }

    /// What planning reads of this table.
    pub fn describe(&self) -> (r: Table)
        ensures
            r@ == self@.described(),
    {
        Table { schema: self.schema.clone(), partition_count: self.partitions.len() }
    }
}

/// The batches of the first `upto` with the columns that a projection names.
pub open spec fn projected_batches(
    batches: Seq<BatchView>,
    projection: Option<Seq<usize>>,
    upto: int,
) -> Result<Seq<BatchView>, ErrorView>
    decreases upto,
{
    if upto <= 0 {
        Ok(Seq::empty())
    } else {
        match projected_batches(batches, projection, upto - 1) {
            Err(error) => Err(error),
            Ok(before) => match projection {
                None => Ok(before.push(batches[upto - 1])),
                Some(indices) => match batches[upto - 1].projection(indices) {
                    Err(error) => Err(error),
                    Ok(batch) => Ok(before.push(batch)),
                },
            },
        }
    }
}

proof fn projecting_fails_early(
    batches: Seq<BatchView>,
    projection: Option<Seq<usize>>,
    upto: int,
    full: int,
)
    requires
        0 <= upto <= full,
        projected_batches(batches, projection, upto) is Err,
    ensures
        projected_batches(batches, projection, full) == projected_batches(
            batches,
            projection,
            upto,
        ),
    decreases full - upto,
{
    if upto < full {
        projecting_fails_early(batches, projection, upto, full - 1);
    }
}

/// What a scan of a partition gives.
pub open spec fn scanned_partition(
    table: MemoryTableView,
    partition: nat,
    projection: Option<Seq<usize>>,
) -> Result<Seq<BatchView>, ErrorView> {
    if partition >= table.partitions.len() {
        Err(ErrorView::Execution("invalid partition "@ + numeral(partition)))
    } else {
        let batches = table.partitions[partition as int];
        projected_batches(batches, projection, batches.len() as int)
    }
}

pub open spec fn batches_outcome(r: Result<Vec<Batch>, SparkXError>) -> Result<
    Seq<BatchView>,
    ErrorView,
> {
    match r {
        Ok(batches) => Ok(batch_views(batches@)),
        Err(error) => Err(error@),
    }
}

impl MemoryTable {
    /// The batches of a partition, with the columns that a projection names.
    pub fn scan_partition(&self, partition: usize, projection: &Option<Vec<usize>>) -> (r: Result<
        Vec<Batch>,
        SparkXError,
    >)
        requires
            self.wf(),
        ensures
            batches_outcome(r) == scanned_partition(
                self@,
                partition as nat,
                crate::physical::indices_view(*projection),
            ),
            r matches Ok(batches) ==> all_valid(batch_views(batches@)),
    {
        if partition >= self.partitions.len() {
            return Err(
                SparkXError::execution(
                    join("invalid partition ", decimal(partition as u64).as_str()),
                ),
            );
        }
        let ghost wanted = crate::physical::indices_view(*projection);
        let batches = &self.partitions[partition];
        let ghost views = batch_views(batches@);
        proof {
            assert(self@.partitions[partition as int] == views);
        }
        let mut output: Vec<Batch> = Vec::new();
        proof {
            assert(batch_views(output@) =~= Seq::empty());
        }
        for i in 0..batches.len()
            invariant
                views == batch_views(batches@),
                all_valid(views),
                wanted == crate::physical::indices_view(*projection),
                projected_batches(views, wanted, i as int) == Ok::<Seq<BatchView>, ErrorView>(
                    batch_views(output@),
                ),
                all_valid(batch_views(output@)),
                partition < self@.partitions.len(),
                self@.partitions[partition as int] == views,
        {
            let ghost before = batch_views(output@);
            proof {
                assert(views[i as int] == batches@[i as int]@);
                assert(views[i as int].wf());
            }
            let batch = match projection {
                None => batches[i].clone(),
                Some(indices) => match batches[i].project(indices) {
                    Ok(batch) => batch,
                    Err(error) => {
                        proof {
                            projecting_fails_early(views, wanted, i + 1, batches.len() as int);
                        }
                        return Err(error);
                    },
                },
            };
            let ghost view = batch@;
            output.push(batch);
            proof {
                assert(batch_views(output@) =~= before.push(view));
                assert forall|k: int| 0 <= k < batch_views(output@).len() implies (
                #[trigger] batch_views(output@)[k]).wf() by {
                    if k < before.len() {
                        assert(before[k].wf());
                    }
                }
            }
        }
        Ok(output)
    }
}

/// A table under a name.
#[derive(Debug)]
pub struct NamedTable {
    pub name: String,
    pub table: MemoryTable,
}

pub struct NamedTableView {
    pub name: Seq<char>,
    pub table: MemoryTableView,
}

impl View for NamedTable {
    type V = NamedTableView;

    open spec fn view(&self) -> NamedTableView {
        NamedTableView { name: self.name@, table: self.table@ }
    }
}

pub open spec fn named_views(tables: Seq<NamedTable>) -> Seq<NamedTableView> {
    Seq::new(tables.len(), |i: int| tables[i]@)
}

/// The place of the first table from `from` on with a name, in which case does not matter.
pub open spec fn table_place(tables: Seq<NamedTableView>, name: Seq<char>, from: int) -> Result<
    int,
    ErrorView,
>
    decreases tables.len() - from,
{
    if from >= tables.len() {
        Err(no_table_failure(name))
    } else if small_letters(tables[from].name) == small_letters(name) {
        Ok(from)
    } else {
        table_place(tables, name, from + 1)
    }
}

/// The table of a name.
pub fn find_named<'a>(tables: &'a Vec<NamedTable>, name: &str) -> (r: Result<
    &'a MemoryTable,
    SparkXError,
>)
    ensures
        match r {
            Ok(table) => table_place(named_views(tables@), name@, 0) matches Ok(place) && 0 <= place
                < tables.len() && table@ == named_views(tables@)[place].table && *table
                == tables@[place].table,
            Err(error) => table_place(named_views(tables@), name@, 0) == Err::<int, ErrorView>(
                error@,
            ),
        },
{
    let ghost views = named_views(tables@);
    let wanted = lowercase(name);
    for i in 0..tables.len()
        invariant
            views == named_views(tables@),
            wanted@ == small_letters(name@),
            table_place(views, name@, 0) == table_place(views, name@, i as int),
    {
        proof {
            assert(views[i as int] == tables@[i as int]@);
        }
        if same_text(lowercase(tables[i].name.as_str()).as_str(), wanted.as_str()) {
            return Ok(&tables[i].table);
        }
    }
    Err(no_table(name))
}

} // verus!
