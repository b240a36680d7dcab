//! What is kept and counted.

use crate::cluster::block_store::{
    charged, hex_digit, hex_numeral, insertion_keeps_validity, removal_keeps_validity,
    ticket_place_is_exact, BlockEntryView, BlockStoreView,
};
use crate::memory::MemoryView;
use crate::metrics::{counted, MetricsView};
use vstd::prelude::*;

verus! {

// ---- blocks

/// Whether a store has a block under its ticket.
pub open spec fn keeps<T>(store: BlockStoreView<T>, entry: BlockEntryView<T>) -> bool {
    exists|i: int| 0 <= i < store.blocks.len() && #[trigger] store.blocks[i] == entry
}

/// Whether a store has some block under a ticket.
pub open spec fn keeps_ticket<T>(store: BlockStoreView<T>, ticket: Seq<char>) -> bool {
    exists|i: int| 0 <= i < store.blocks.len() && (#[trigger] store.blocks[i]).ticket == ticket
}

/// The block that is looked up under a ticket is the one that is kept under it.
pub proof fn a_ticket_finds_its_block<T>(store: BlockStoreView<T>, entry: BlockEntryView<T>)
    requires
        store.wf(),
    ensures
        store.has(entry.ticket) <==> keeps_ticket(store, entry.ticket),
        keeps(store, entry) <==> store.has(entry.ticket) && store.blocks[store.place(
            entry.ticket,
        )] == entry,
{
    ticket_place_is_exact(store.blocks, entry.ticket, 0);
    let place = store.place(entry.ticket);
    if keeps_ticket(store, entry.ticket) {
        let i = choose|i: int|
            0 <= i < store.blocks.len() && (#[trigger] store.blocks[i]).ticket == entry.ticket;
        assert(store.has(entry.ticket));
    }
    if keeps(store, entry) {
        let i = choose|i: int| 0 <= i < store.blocks.len() && #[trigger] store.blocks[i] == entry;
        assert(store.blocks[i].ticket == entry.ticket);
        assert(store.blocks[place].ticket == entry.ticket);
        if i < place {
            assert(store.blocks[i].ticket != store.blocks[place].ticket);
        } else if place < i {
            assert(store.blocks[place].ticket != store.blocks[i].ticket);
        }
    }
    if store.has(entry.ticket) {
        assert(store.blocks[place].ticket == entry.ticket);
    }
}

/// A block that is taken is kept from then on with what it holds, everything that was kept stays, and the
/// room that is left is less by what the block is charged.
pub proof fn what_is_stored_is_kept<T>(
    store: BlockStoreView<T>,
    entry: BlockEntryView<T>,
    other: BlockEntryView<T>,
)
    requires
        store.wf(),
        store.insertion_check(entry) is Ok,
    ensures
        keeps_ticket(store.inserted(entry), entry.ticket),
        !keeps_ticket(store, entry.ticket) ==> keeps(store.inserted(entry), entry)
            && store.inserted(entry).used == store.used + entry.charged_bytes,
        keeps(store, other) ==> keeps(store.inserted(entry), other),
        keeps(store.inserted(entry), other) ==> keeps(store, other) || other == entry,
        store.inserted(entry).capacity == store.capacity,
        store.inserted(entry).used <= store.capacity,
{
    let next = store.inserted(entry);
    a_ticket_finds_its_block(store, entry);
    insertion_keeps_validity(store, entry);
    if store.has(entry.ticket) {
        assert(next == store);
    } else {
        let last = store.blocks.len() as int;
        assert(next.blocks[last] == entry);
        if keeps(store, other) {
            let i = choose|i: int|
                0 <= i < store.blocks.len() && #[trigger] store.blocks[i] == other;
            assert(next.blocks[i] == other);
        }
        if keeps(next, other) {
            let i = choose|i: int| 0 <= i < next.blocks.len() && #[trigger] next.blocks[i] == other;
            if i < last {
                assert(store.blocks[i] == other);
            }
        }
    }
}

/// A block is taken where its ticket is new and it fits, or where its ticket is known with the same
/// checksum, and else it is refused.
pub proof fn which_blocks_are_taken<T>(store: BlockStoreView<T>, entry: BlockEntryView<T>)
    requires
        store.wf(),
    ensures
        !keeps_ticket(store, entry.ticket) ==> (store.insertion_check(entry) is Ok <==> store.used
            + entry.charged_bytes <= store.capacity),
        forall|known: BlockEntryView<T>|
            #[trigger] keeps(store, known) && known.ticket == entry.ticket ==> (
            store.insertion_check(entry) is Ok <==> known.checksum == entry.checksum),
{
    a_ticket_finds_its_block(store, entry);
    assert forall|known: BlockEntryView<T>|
        #[trigger] keeps(store, known) && known.ticket == entry.ticket implies (
    store.insertion_check(entry) is Ok <==> known.checksum == entry.checksum) by {
        a_ticket_finds_its_block(store, known);
    }
}

/// A block that is removed is no longer kept, everything else stays, and the room that it was charged is
/// free again.
pub proof fn what_is_removed_is_gone<T>(
    store: BlockStoreView<T>,
    entry: BlockEntryView<T>,
    other: BlockEntryView<T>,
)
    requires
        store.wf(),
        keeps(store, entry),
    ensures
        !keeps_ticket(store.removed(entry.ticket), entry.ticket),
        store.removed(entry.ticket).used == store.used - entry.charged_bytes,
        store.removed(entry.ticket).capacity == store.capacity,
        other.ticket != entry.ticket ==> (keeps(store.removed(entry.ticket), other) <==> keeps(
            store,
            other,
        )),
{
    a_ticket_finds_its_block(store, entry);
    let next = store.removed(entry.ticket);
    let place = store.place(entry.ticket);
    removal_keeps_validity(store, entry.ticket);
    ticket_place_is_exact(store.blocks, entry.ticket, 0);
    if keeps_ticket(next, entry.ticket) {
        let i = choose|i: int|
            0 <= i < next.blocks.len() && (#[trigger] next.blocks[i]).ticket == entry.ticket;
        let j = if i < place {
            i
        } else {
            i + 1
        };
        assert(next.blocks[i] == store.blocks[j]);
        if j < place {
            assert(store.blocks[j].ticket != store.blocks[place].ticket);
        } else {
            assert(store.blocks[place].ticket != store.blocks[j].ticket);
        }
    }
    if keeps(next, other) {
        let i = choose|i: int| 0 <= i < next.blocks.len() && #[trigger] next.blocks[i] == other;
        let j = if i < place {
            i
        } else {
            i + 1
        };
        assert(store.blocks[j] == other);
    }
    if keeps(store, other) && other.ticket != entry.ticket {
        let i = choose|i: int| 0 <= i < store.blocks.len() && #[trigger] store.blocks[i] == other;
        let j = if i < place {
            i
        } else {
            i - 1
        };
        assert(i != place);
        assert(next.blocks[j] == other);
    }
    charge_of_one(store.blocks, place, store.blocks.len() as int);
}

proof fn charge_of_one<T>(blocks: Seq<BlockEntryView<T>>, i: int, upto: int)
    requires
        0 <= i < upto <= blocks.len(),
    ensures
        blocks[i].charged_bytes <= charged(blocks, upto),
    decreases upto,
{
    if i < upto - 1 {
        charge_of_one(blocks, i, upto - 1);
    }
}

/// Different numbers of so many hexadecimal digits are written differently.
pub proof fn hexadecimal_tells_apart(a: nat, b: nat, digits: nat)
    requires
        hex_numeral(a, digits) == hex_numeral(b, digits),
        a < vstd::arithmetic::power::pow(16, digits),
        b < vstd::arithmetic::power::pow(16, digits),
    ensures
        a == b,
    decreases digits,
{
    vstd::arithmetic::power::lemma_pow0(16);
    if digits > 0 {
        let rest = (digits - 1) as nat;
        let (x, y) = (hex_numeral(a, digits), hex_numeral(b, digits));
        assert(x.drop_last() =~= hex_numeral(a / 16, rest));
        assert(y.drop_last() =~= hex_numeral(b / 16, rest));
        assert(x.last() == hex_digit(a % 16));
        assert(y.last() == hex_digit(b % 16));
        assert(a % 16 == b % 16);
        reveal(vstd::arithmetic::power::pow);
        assert(vstd::arithmetic::power::pow(16, digits) == 16 * vstd::arithmetic::power::pow(
            16,
            rest,
        ));
        hexadecimal_tells_apart(a / 16, b / 16, rest);
    }
}

// ---- memory

/// Memory is granted exactly where it fits beside what is claimed already; what is claimed is then more
/// by as much, the peak is the most that was ever claimed, and what is given back is free again.
pub proof fn memory_is_granted_where_it_fits(memory: MemoryView, bytes: u64)
    requires
        memory.wf(),
    ensures
        memory.check(bytes) is Ok <==> memory.reserved + bytes <= memory.limit,
        memory.claimed(bytes).reserved == memory.reserved + bytes,
        memory.claimed(bytes).limit == memory.limit,
        memory.claimed(bytes).peak >= memory.peak,
        memory.claimed(bytes).peak >= memory.reserved + bytes,
        memory.claimed(bytes).peak == memory.peak || memory.claimed(bytes).peak == memory.reserved
            + bytes,
        bytes <= memory.reserved ==> memory.returned(bytes).reserved == memory.reserved - bytes,
        memory.returned(bytes).peak == memory.peak,
        memory.returned(bytes).limit == memory.limit,
{
}

// ---- counters

/// A counter counts: it is more by what is added, where it does not run over.
pub proof fn counters_count(counter: u64, more: nat)
    requires
        counter + more <= u64::MAX,
    ensures
        counted(counter, more) == counter + more,
{
}

/// Each record of a query counts in its own counter and in no other.
pub proof fn records_count_apart(metrics: MetricsView, rows: nat, bytes: u64)
    requires
        metrics.input_rows + rows <= u64::MAX,
        metrics.output_rows + rows <= u64::MAX,
        metrics.shuffled_rows + rows <= u64::MAX,
        metrics.bytes_scanned + bytes <= u64::MAX,
        metrics.shuffled_bytes + bytes <= u64::MAX,
        metrics.input_batches < u64::MAX,
        metrics.output_batches < u64::MAX,
        metrics.tasks < u64::MAX,
    ensures
        metrics.with_input(rows) == (MetricsView {
            input_rows: (metrics.input_rows + rows) as u64,
            input_batches: (metrics.input_batches + 1) as u64,
            ..metrics
        }),
        metrics.with_output(rows) == (MetricsView {
            output_rows: (metrics.output_rows + rows) as u64,
            output_batches: (metrics.output_batches + 1) as u64,
            ..metrics
        }),
        metrics.with_scanned_bytes(bytes) == (MetricsView {
            bytes_scanned: (metrics.bytes_scanned + bytes) as u64,
            ..metrics
        }),
        metrics.with_shuffled_rows(rows) == (MetricsView {
            shuffled_rows: (metrics.shuffled_rows + rows) as u64,
            ..metrics
        }),
        metrics.with_shuffled_bytes(bytes) == (MetricsView {
            shuffled_bytes: (metrics.shuffled_bytes + bytes) as u64,
            ..metrics
        }),
        metrics.with_task() == (MetricsView { tasks: (metrics.tasks + 1) as u64, ..metrics }),
{
    counters_count(metrics.input_rows, rows);
    counters_count(metrics.output_rows, rows);
    counters_count(metrics.shuffled_rows, rows);
    counters_count(metrics.bytes_scanned, bytes as nat);
    counters_count(metrics.shuffled_bytes, bytes as nat);
    counters_count(metrics.input_batches, 1);
    counters_count(metrics.output_batches, 1);
    counters_count(metrics.tasks, 1);
}

} // verus!
