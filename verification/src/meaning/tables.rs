//! What tables hold and how they are found and read.

use crate::batch::{taken_keeps_validity, BatchView};
use crate::catalog::{find_table, TableView};
use crate::column::ColumnView;
use crate::error::ErrorView;
use crate::execution::run::{
    produces, runs, scan_added, scanned, scanned_batch, scanned_batches, Trace,
};
use crate::execution::stream::{filtered, filtered_by_all};
use crate::expr::ExprView;
use crate::meaning::evaluation::says;
use crate::meaning::operators::{
    a_filter_keeps_what_is_true, are_the_places_of_truth, has_rows_at, same_cell,
};
use crate::meaning::results::{
    is_true_of_all, values_go_with_their_rows,
};
use crate::physical::PhysicalView;
use crate::table::{
    dealt, dealt_table, projected_batches, projection_check, scanned_partition, table_place,
    MemoryTableView, NamedTableView,
};
use crate::text::small_letters;
use crate::types::SchemaView;
use vstd::prelude::*;

verus! {

// ---- names

/// Whether two characters are the same, or one letter of ASCII in both cases.
pub open spec fn same_letter(a: char, b: char) -> bool {
    ||| a == b
    ||| 'A' <= a <= 'Z' && b as int == a as int + ('a' as int - 'A' as int)
    ||| 'A' <= b <= 'Z' && a as int == b as int + ('a' as int - 'A' as int)
}

/// Whether two names are the same but for the case of their letters.
pub open spec fn same_name(a: Seq<char>, b: Seq<char>) -> bool {
    a.len() == b.len() && forall|i: int| 0 <= i < a.len() ==> #[trigger] same_letter(a[i], b[i])
}

/// Names are told apart without regard to the case of their letters.
pub proof fn case_does_not_matter(a: Seq<char>, b: Seq<char>)
    ensures
        small_letters(a) == small_letters(b) <==> same_name(a, b),
{
    if same_name(a, b) {
        assert forall|i: int| 0 <= i < a.len() implies small_letters(a)[i] == small_letters(
            b,
        )[i] by {
            assert(same_letter(a[i], b[i]));
        }
        assert(small_letters(a) =~= small_letters(b));
    }
    if small_letters(a) == small_letters(b) {
        assert(small_letters(a).len() == a.len());
        assert(small_letters(b).len() == b.len());
        assert forall|i: int| 0 <= i < a.len() implies #[trigger] same_letter(a[i], b[i]) by {
            assert(small_letters(a)[i] == small_letters(b)[i]);
        }
    }
}

/// A table that was registered is found under its name in any case, and every other table stays what it
/// was.
pub proof fn what_is_registered_is_found(
    tables: Map<Seq<char>, TableView>,
    name: Seq<char>,
    table: TableView,
    other: Seq<char>,
)
    ensures
        ({
            let next = tables.insert(small_letters(name), table);
            if same_name(other, name) {
                find_table(next, other) == Ok::<TableView, ErrorView>(table)
            } else {
                find_table(next, other) == find_table(tables, other)
            }
        }),
{
    case_does_not_matter(other, name);
}

/// The table that is read is the first with the name, and the name is missing only where none has it.
pub proof fn the_table_of_a_name(tables: Seq<NamedTableView>, name: Seq<char>, from: int)
    requires
        0 <= from <= tables.len(),
    ensures
        table_place(tables, name, from) matches Ok(place) ==> from <= place < tables.len()
            && same_name(tables[place].name, name) && forall|i: int|
            from <= i < place ==> !same_name((#[trigger] tables[i]).name, name),
        table_place(tables, name, from) is Err ==> forall|i: int|
            from <= i < tables.len() ==> !same_name((#[trigger] tables[i]).name, name),
    decreases tables.len() - from,
{
    if from < tables.len() {
        case_does_not_matter(tables[from].name, name);
        the_table_of_a_name(tables, name, from + 1);
    }
}

// ---- dealing

/// Batches are dealt round: the first to the first partition, the next to the next, and again from the
/// first.
pub proof fn batches_are_dealt_round(
    batches: Seq<BatchView>,
    partitions: int,
    target: int,
    upto: int,
    k: int,
)
    requires
        0 <= target < partitions,
        0 <= upto <= batches.len(),
        0 <= k,
    ensures
        k < dealt(batches, partitions, target, upto).len() <==> k * partitions + target < upto,
        k < dealt(batches, partitions, target, upto).len() ==> dealt(
            batches,
            partitions,
            target,
            upto,
        )[k] == batches[k * partitions + target],
    decreases upto,
{
    assert(k * partitions >= 0) by (nonlinear_arith)
        requires
            0 <= k,
            0 < partitions,
    ;
    if upto > 0 {
        let at = upto - 1;
        let before = dealt(batches, partitions, target, at);
        batches_are_dealt_round(batches, partitions, target, at, k);
        if at % partitions == target {
            let q = at / partitions;
            vstd::arithmetic::div_mod::lemma_fundamental_div_mod(at, partitions);
            assert(q >= 0) by (nonlinear_arith)
                requires
                    q == at / partitions,
                    at >= 0,
                    partitions > 0,
            ;
            assert(q * partitions + target == at) by (nonlinear_arith)
                requires
                    at == partitions * q + target,
            ;
            batches_are_dealt_round(batches, partitions, target, at, q);
            if q > 0 {
                batches_are_dealt_round(batches, partitions, target, at, q - 1);
                assert((q - 1) * partitions == q * partitions - partitions) by (nonlinear_arith);
            }
            assert(before.len() == q);
            if k > q {
                assert(k * partitions > q * partitions) by (nonlinear_arith)
                    requires
                        k > q,
                        partitions > 0,
                ;
            } else if k < q {
                assert(k * partitions < q * partitions) by (nonlinear_arith)
                    requires
                        k < q,
                        partitions > 0,
                ;
            }
        } else if k * partitions + target == at {
            vstd::arithmetic::div_mod::lemma_fundamental_div_mod_converse(
                at,
                partitions,
                k,
                target,
            );
        }
    }
}

/// A table of batches has as many partitions as it was asked for, and at least one, and each has the
/// batches that are dealt to it.
pub proof fn a_table_is_dealt(batches: Seq<BatchView>, partitions: nat, table: MemoryTableView)
    requires
        dealt_table(batches, partitions) == Ok::<MemoryTableView, ErrorView>(table),
    ensures
        batches.len() > 0,
        table.schema == batches[0].schema,
        partitions > 0 ==> table.partitions.len() == partitions,
        partitions == 0 ==> table.partitions.len() == 1,
        forall|i: int|
            0 <= i < batches.len() ==> table.partitions[i % table.partitions.len() as int][i
                / table.partitions.len() as int] == #[trigger] batches[i],
{
    let count = table.partitions.len() as int;
    assert forall|i: int| 0 <= i < batches.len() implies table.partitions[i % count][i / count]
        == #[trigger] batches[i] by {
        vstd::arithmetic::div_mod::lemma_fundamental_div_mod(i, count);
        let (q, target) = (i / count, i % count);
        assert(q >= 0) by (nonlinear_arith)
            requires
                q == i / count,
                i >= 0,
                count > 0,
        ;
        assert(0 <= target < count) by (nonlinear_arith)
            requires
                target == i % count,
                count > 0,
        ;
        assert(q * count + target == i) by (nonlinear_arith)
            requires
                i == count * q + target,
        ;
        batches_are_dealt_round(batches, count, target, batches.len() as int, q);
        assert(table.partitions[target] == dealt(batches, count, target, batches.len() as int));
    }
}

// ---- scanning

/// Whether a batch has some columns of another, in the order in which they are named, and all of them
/// where none are named.
pub open spec fn has_columns_of(
    out: BatchView,
    batch: BatchView,
    projection: Option<Seq<usize>>,
) -> bool {
    &&& out.rows == batch.rows
    &&& match projection {
        None => out.columns == batch.columns,
        Some(indices) => are_named(indices, batch.columns.len()) && out.columns == Seq::new(
            indices.len(),
            |c: int| batch.columns[indices[c] as int],
        ),
    }
}

/// Whether numbers are those of columns.
pub open spec fn are_named(indices: Seq<usize>, width: nat) -> bool {
    forall|i: int| 0 <= i < indices.len() ==> #[trigger] indices[i] < width
}

proof fn checked_indices(indices: Seq<usize>, width: nat, from: int)
    requires
        0 <= from,
        projection_check(indices, width, from) is Ok,
    ensures
        forall|i: int| from <= i < indices.len() ==> #[trigger] indices[i] < width,
    decreases indices.len() - from,
{
    if from < indices.len() {
        checked_indices(indices, width, from + 1);
    }
}

proof fn batches_keep_columns(
    batches: Seq<BatchView>,
    projection: Option<Seq<usize>>,
    upto: int,
)
    requires
        0 <= upto <= batches.len(),
    ensures
        projected_batches(batches, projection, upto) matches Ok(out) ==> out.len() == upto
            && forall|i: int|
            0 <= i < upto ==> has_columns_of(#[trigger] out[i], batches[i], projection),
    decreases upto,
{
    if upto > 0 {
        batches_keep_columns(batches, projection, upto - 1);
        if projected_batches(batches, projection, upto) is Ok {
            if let Some(indices) = projection {
                checked_indices(indices, batches[upto - 1].columns.len(), 0);
            }
        }
    }
}

/// Whether a batch is what a scan makes of another: some of its columns, under the names of the scan, and
/// of the rows those that pass the filters.
pub open spec fn is_read_of(
    out: BatchView,
    batch: BatchView,
    projection: Option<Seq<usize>>,
    filters: Seq<ExprView>,
    schema: SchemaView,
) -> bool {
    exists|named: BatchView|
        {
            &&& has_columns_of(named, batch, projection)
            &&& named.schema == schema
            &&& #[trigger] filtered_by_all(named, filters, filters.len() as int) == Ok::<
                BatchView,
                ErrorView,
            >(out)
        }
}

/// Whether batches are what a scan makes of others, one by one.
pub open spec fn are_read_of(
    out: Seq<BatchView>,
    batches: Seq<BatchView>,
    projection: Option<Seq<usize>>,
    filters: Seq<ExprView>,
    schema: SchemaView,
) -> bool {
    &&& out.len() == batches.len()
    &&& forall|i: int|
        0 <= i < out.len() ==> is_read_of(
            #[trigger] out[i],
            batches[i],
            projection,
            filters,
            schema,
        )
}

proof fn columns_go_with_the_batch(
    named: BatchView,
    kept: BatchView,
    batch: BatchView,
    projection: Option<Seq<usize>>,
)
    requires
        named.columns == kept.columns,
        named.rows == kept.rows,
        has_columns_of(kept, batch, projection),
    ensures
        has_columns_of(named, batch, projection),
{
}

proof fn scans_read_batches(
    before: Seq<BatchView>,
    known: Seq<BatchView>,
    part: Seq<BatchView>,
    kept: Seq<BatchView>,
    projection: Option<Seq<usize>>,
    filters: Seq<ExprView>,
    schema: SchemaView,
    upto: int,
)
    requires
        0 <= upto <= part.len(),
        kept.len() == part.len(),
        forall|i: int|
            0 <= i < part.len() ==> has_columns_of(#[trigger] kept[i], part[i], projection)
                && part[i].rows <= usize::MAX,
        are_read_of(before, known, projection, filters, schema),
        scanned_batches(before, kept, filters, schema, upto) is Ok,
    ensures
        are_read_of(
            scanned_batches(before, kept, filters, schema, upto)->Ok_0,
            known + part.take(upto),
            projection,
            filters,
            schema,
        ),
    decreases upto,
{
    let all = known + part.take(upto);
    if upto > 0 {
        scans_read_batches(before, known, part, kept, projection, filters, schema, upto - 1);
        let fewer = known + part.take(upto - 1);
        let out = scanned_batches(before, kept, filters, schema, upto)->Ok_0;
        assert(all =~= fewer.push(part[upto - 1]));
        assert(has_columns_of(kept[upto - 1], part[upto - 1], projection));
        let batch = kept[upto - 1];
        assert(batch.rows <= usize::MAX);
        assert(scanned_batch(batch, filters, schema) is Ok);
        let named = crate::batch::made_batch(
            schema,
            batch.columns,
            Some(batch.rows as usize),
        )->Ok_0;
        columns_go_with_the_batch(named, batch, part[upto - 1], projection);
        assert(filtered_by_all(named, filters, filters.len() as int) == Ok::<BatchView, ErrorView>(
            out[out.len() - 1],
        ));
        assert(is_read_of(out[out.len() - 1], part[upto - 1], projection, filters, schema));
        let few = scanned_batches(before, kept, filters, schema, upto - 1)->Ok_0;
        assert forall|i: int| 0 <= i < out.len() implies is_read_of(
            #[trigger] out[i],
            all[i],
            projection,
            filters,
            schema,
        ) by {
            if i < few.len() {
                assert(is_read_of(few[i], fewer[i], projection, filters, schema));
            }
        }
    } else {
        assert(all =~= known);
    }
}

proof fn a_partition_is_read(
    before: Seq<BatchView>,
    known: Seq<BatchView>,
    table: MemoryTableView,
    partition: nat,
    projection: Option<Seq<usize>>,
    filters: Seq<ExprView>,
    schema: SchemaView,
)
    requires
        table.wf(),
        are_read_of(before, known, projection, filters, schema),
        scan_added(before, table, partition, projection, filters, schema) is Ok,
    ensures
        partition < table.partitions.len(),
        are_read_of(
            scan_added(before, table, partition, projection, filters, schema)->Ok_0,
            known + table.partitions[partition as int],
            projection,
            filters,
            schema,
        ),
{
    let part = table.partitions[partition as int];
    let kept = scanned_partition(table, partition, projection)->Ok_0;
    batches_keep_columns(part, projection, part.len() as int);
    assert forall|i: int| 0 <= i < part.len() implies has_columns_of(
        #[trigger] kept[i],
        part[i],
        projection,
    ) && part[i].rows <= usize::MAX by {
        assert(part[i].wf());
    }
    scans_read_batches(
        before,
        known,
        part,
        kept,
        projection,
        filters,
        schema,
        part.len() as int,
    );
    assert(part.take(part.len() as int) =~= part);
}

proof fn partitions_are_read(
    table: MemoryTableView,
    projection: Option<Seq<usize>>,
    filters: Seq<ExprView>,
    schema: SchemaView,
    upto: int,
)
    requires
        table.wf(),
        0 <= upto <= table.partitions.len(),
        scanned(table, projection, filters, schema, upto) is Ok,
    ensures
        are_read_of(
            scanned(table, projection, filters, schema, upto)->Ok_0,
            table.partitions.take(upto).flatten(),
            projection,
            filters,
            schema,
        ),
    decreases upto,
{
    if upto > 0 {
        partitions_are_read(table, projection, filters, schema, upto - 1);
        let before = scanned(table, projection, filters, schema, upto - 1)->Ok_0;
        let known = table.partitions.take(upto - 1);
        let all = table.partitions.take(upto);
        a_partition_is_read(
            before,
            known.flatten(),
            table,
            (upto - 1) as nat,
            projection,
            filters,
            schema,
        );
        assert(all.drop_last() =~= known);
        all.lemma_flatten_and_flatten_alt_are_equivalent();
        known.lemma_flatten_and_flatten_alt_are_equivalent();
        assert(known.flatten() + table.partitions[upto - 1] == all.flatten());
    } else {
        assert(table.partitions.take(0).flatten() =~= Seq::empty());
    }
}

/// A scan reads the batches of the table of its name: those of all partitions, one partition after the
/// other, or those of one.
pub proof fn a_scan_reads_its_table(
    plan: PhysicalView,
    tables: Seq<NamedTableView>,
    partition: Option<usize>,
    out: Seq<BatchView>,
)
    requires
        plan is Scan,
        forall|i: int| 0 <= i < tables.len() ==> (#[trigger] tables[i]).table.wf(),
        produces(plan, tables, partition, Ok(out)),
    ensures
        exists|place: int|
            {
                &&& 0 <= place < tables.len()
                &&& same_name((#[trigger] tables[place]).name, plan->Scan_table_name)
                &&& match partition {
                    None => are_read_of(
                        out,
                        tables[place].table.partitions.flatten(),
                        plan->Scan_projection,
                        plan->Scan_filters,
                        plan->Scan_schema,
                    ),
                    Some(partition) => partition < tables[place].table.partitions.len()
                        && are_read_of(
                        out,
                        tables[place].table.partitions[partition as int],
                        plan->Scan_projection,
                        plan->Scan_filters,
                        plan->Scan_schema,
                    ),
                }
            },
{
    let trace = choose|trace: Trace| #[trigger]
        runs(plan, tables, partition, trace) && trace.result() == Ok::<Seq<BatchView>, ErrorView>(
            out,
        );
    the_table_of_a_name(tables, plan->Scan_table_name, 0);
    let place = table_place(tables, plan->Scan_table_name, 0)->Ok_0;
    let table = tables[place].table;
    assert(table.wf());
    let (projection, filters, schema) = (
        plan->Scan_projection,
        plan->Scan_filters,
        plan->Scan_schema,
    );
    match partition {
        None => {
            let all = table.partitions;
            partitions_are_read(table, projection, filters, schema, all.len() as int);
            assert(all.take(all.len() as int) =~= all);
        },
        Some(partition) => {
            let nothing = Seq::<BatchView>::empty();
            assert(are_read_of(nothing, nothing, projection, filters, schema));
            a_partition_is_read(
                nothing,
                nothing,
                table,
                partition as nat,
                projection,
                filters,
                schema,
            );
            assert(nothing + table.partitions[partition as int]
                =~= table.partitions[partition as int]);
        },
    }
}

/// Whether a batch has rows of another, from the first to the last, and has each row of which all of
/// some conditions are true.
pub open spec fn has_what_passes(
    out: BatchView,
    batch: BatchView,
    predicates: Seq<ExprView>,
    places: Seq<int>,
) -> bool {
    &&& has_rows_at(out, batch, places)
    &&& forall|k: int, l: int|
        0 <= k < l < places.len() ==> #[trigger] places[k] < #[trigger] places[l]
    &&& forall|row: int|
        0 <= row < batch.rows && #[trigger] passes_all(predicates, batch, row) ==> places.contains(
            row,
        )
}

/// Whether all of some conditions are true of a row.
pub open spec fn passes_all(predicates: Seq<ExprView>, batch: BatchView, row: int) -> bool {
    forall|k: int|
        0 <= k < predicates.len() ==> (#[trigger] predicates[k]).value(batch) is Ok
            && predicates[k].value(batch)->Ok_0 is Boolean && says(
            predicates[k].value(batch)->Ok_0,
            row,
        ) == Some(true)
}

/// Whether a condition was true of every row of a batch where the row came from.
pub open spec fn was_true_of_all(predicate: ExprView, out: BatchView) -> bool {
    exists|source: BatchView, places: Seq<int>| #[trigger]
        was_true_at(predicate, out, source, places)
}

pub open spec fn was_true_at(
    predicate: ExprView,
    out: BatchView,
    source: BatchView,
    places: Seq<int>,
) -> bool {
    &&& source.wf()
    &&& source.schema == out.schema
    &&& has_rows_at(out, source, places)
    &&& predicate.value(source) is Ok
    &&& predicate.value(source)->Ok_0 is Boolean
    &&& forall|row: int|
        0 <= row < out.rows ==> says(predicate.value(source)->Ok_0, #[trigger] places[row]) == Some(
            true,
        )
}

proof fn what_was_true_is_true(predicate: ExprView, out: BatchView)
    requires
        out.wf(),
        was_true_of_all(predicate, out),
    ensures
        is_true_of_all(predicate, out),
{
    let (source, places) = choose|source: BatchView, places: Seq<int>| #[trigger]
        was_true_at(predicate, out, source, places);
    assert forall|column: ColumnView, row: int|
        #![trigger says(column, row)]
        predicate.value(out) == Ok::<ColumnView, ErrorView>(column) && 0 <= row
            < out.rows implies column is Boolean && says(column, row) == Some(true) by {
        values_go_with_their_rows(predicate, out, source, places, row);
        assert(says(predicate.value(source)->Ok_0, places[row]) == Some(true));
    }
}

proof fn what_was_true_stays(
    predicate: ExprView,
    out: BatchView,
    rest: BatchView,
    kept: Seq<int>,
)
    requires
        out.schema == rest.schema,
        has_rows_at(out, rest, kept),
        was_true_of_all(predicate, rest),
    ensures
        was_true_of_all(predicate, out),
{
    let (source, places) = choose|source: BatchView, places: Seq<int>| #[trigger]
        was_true_at(predicate, rest, source, places);
    let all = Seq::new(kept.len(), |k: int| places[kept[k]]);
    rows_of_rows(out, rest, source, kept, places);
    assert forall|row: int| 0 <= row < out.rows implies says(
        predicate.value(source)->Ok_0,
        #[trigger] all[row],
    ) == Some(true) by {
        assert(0 <= kept[row] < rest.rows);
        assert(says(predicate.value(source)->Ok_0, places[kept[row]]) == Some(true));
    }
    assert(was_true_at(predicate, out, source, all));
}

proof fn one_filter_more(
    batch: BatchView,
    rest: BatchView,
    predicates: Seq<ExprView>,
    before: Seq<int>,
    predicate: ExprView,
    out: BatchView,
    kept: Seq<int>,
)
    requires
        batch.wf(),
        rest.wf(),
        rest.schema == batch.schema,
        has_what_passes(rest, batch, predicates, before),
        predicate.value(rest) is Ok,
        predicate.value(rest)->Ok_0 is Boolean,
        predicate.value(rest)->Ok_0.len() == rest.rows,
        are_the_places_of_truth(kept, predicate.value(rest)->Ok_0),
        has_rows_at(out, rest, kept),
    ensures
        has_what_passes(
            out,
            batch,
            predicates.push(predicate),
            Seq::new(kept.len(), |k: int| before[kept[k]]),
        ),
{
    let truths = predicate.value(rest)->Ok_0;
    let places = Seq::new(kept.len(), |k: int| before[kept[k]]);
    let all = predicates.push(predicate);
    rows_of_rows(out, rest, batch, kept, before);
    assert forall|k: int, l: int| 0 <= k < l < places.len() implies #[trigger] places[k]
        < #[trigger] places[l] by {
        assert(kept[k] < kept[l]);
        assert(before[kept[k]] < before[kept[l]]);
    }
    assert forall|row: int|
        0 <= row < batch.rows && #[trigger] passes_all(all, batch, row) implies places.contains(
        row,
    ) by {
        assert forall|k: int| 0 <= k < predicates.len() implies (#[trigger] predicates[k]).value(
            batch,
        ) is Ok && predicates[k].value(batch)->Ok_0 is Boolean && says(
            predicates[k].value(batch)->Ok_0,
            row,
        ) == Some(true) by {
            assert(all[k] == predicates[k]);
        }
        assert(passes_all(predicates, batch, row));
        assert(before.contains(row));
        let i = choose|i: int| 0 <= i < before.len() && before[i] == row;
        assert(all[predicates.len() as int] == predicate);
        values_go_with_their_rows(predicate, rest, batch, before, i);
        assert(says(truths, i) == Some(true));
        assert(kept.contains(i));
        let k = choose|k: int| 0 <= k < kept.len() && kept[k] == i;
        assert(places[k] == row);
    }
}

/// The filters of a scan let a row through where all of them are true of it, and no other row: each is
/// true of every row that comes out.
pub proof fn filters_of_a_scan(
    batch: BatchView,
    predicates: Seq<ExprView>,
    out: BatchView,
    upto: int,
) -> (places: Seq<int>)
    requires
        batch.wf(),
        0 <= upto <= predicates.len(),
        filtered_by_all(batch, predicates, upto) == Ok::<BatchView, ErrorView>(out),
    ensures
        out.wf(),
        out.schema == batch.schema,
        has_what_passes(out, batch, predicates.take(upto), places),
        forall|k: int|
            0 <= k < upto ==> was_true_of_all(#[trigger] predicates[k], out) && is_true_of_all(
                predicates[k],
                out,
            ),
    decreases upto,
{
    if upto <= 0 {
        let places = Seq::new(batch.rows, |i: int| i);
        assert forall|row: int|
            0 <= row < batch.rows && #[trigger] passes_all(
                predicates.take(0),
                batch,
                row,
            ) implies places.contains(row) by {
            assert(places[row] == row);
        }
        places
    } else {
        let rest = filtered_by_all(batch, predicates, upto - 1)->Ok_0;
        let before = filters_of_a_scan(batch, predicates, rest, upto - 1);
        let predicate = predicates[upto - 1];
        a_filter_keeps_what_is_true(rest, predicate, out);
        filters_keep_validity(rest, predicate, out);
        let truths = predicate.value(rest)->Ok_0;
        crate::values::values_are_typed(predicate, rest);
        let kept = choose|kept: Seq<int>| #[trigger]
            are_the_places_of_truth(kept, truths) && has_rows_at(out, rest, kept);
        one_filter_more(batch, rest, predicates.take(upto - 1), before, predicate, out, kept);
        assert(predicates.take(upto) =~= predicates.take(upto - 1).push(predicate));
        assert(was_true_at(predicate, out, rest, kept));
        assert forall|k: int| 0 <= k < upto implies was_true_of_all(#[trigger] predicates[k], out)
            && is_true_of_all(predicates[k], out) by {
            if k < upto - 1 {
                what_was_true_stays(predicates[k], out, rest, kept);
            }
            what_was_true_is_true(predicates[k], out);
        }
        Seq::new(kept.len(), |k: int| before[kept[k]])
    }
}

proof fn filters_keep_validity(batch: BatchView, predicate: ExprView, out: BatchView)
    requires
        batch.wf(),
        filtered(batch, predicate) == Ok::<BatchView, ErrorView>(out),
    ensures
        out.wf(),
        out.schema == batch.schema,
{
    let cells = predicate.value(batch)->Ok_0->Boolean_0;
    crate::values::values_are_typed(predicate, batch);
    let own = crate::execution::stream::true_places(cells, cells.len() as int);
    crate::execution::stream::true_places_are_exact(cells, cells.len() as int);
    crate::meaning::results::few_places(own, batch.rows as int);
    taken_keeps_validity(batch, own);
}

proof fn rows_of_rows(
    out: BatchView,
    rest: BatchView,
    batch: BatchView,
    kept: Seq<int>,
    before: Seq<int>,
)
    requires
        has_rows_at(out, rest, kept),
        has_rows_at(rest, batch, before),
    ensures
        has_rows_at(out, batch, Seq::new(kept.len(), |k: int| before[kept[k]])),
{
    let places = Seq::new(kept.len(), |k: int| before[kept[k]]);
    assert forall|c: int, k: int|
        #![trigger out.columns[c], places[k]]
        0 <= c < out.columns.len() && 0 <= k < places.len() implies same_cell(
        out.columns[c],
        k,
        batch.columns[c],
        places[k],
    ) by {
        assert(same_cell(out.columns[c], k, rest.columns[c], kept[k]));
        assert(same_cell(rest.columns[c], kept[k], batch.columns[c], before[kept[k]]));
    }
    assert forall|k: int| 0 <= k < places.len() implies 0 <= #[trigger] places[k] < batch.rows by {
        assert(0 <= kept[k] < rest.rows);
        assert(0 <= before[kept[k]] < batch.rows);
    }
}

} // verus!
