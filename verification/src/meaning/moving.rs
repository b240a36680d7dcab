//! What goes between workers and clients.

use crate::batch::BatchView;
use crate::cluster::assignment::{admitted, blocks_read, input_place, StageInputView};
use crate::cluster::data_plane::{arrival_check, block_ticket, BlockAction};
use crate::coordinator::StageStatus;
use crate::protocol::{PartitionId, ShuffleBlockView, ShuffleLocationView, StageId};
use crate::remote::next_step;
use crate::types::SchemaView;
use vstd::prelude::*;

verus! {

/// A client withdraws its query where it was cancelled, fetches what a stage that succeeded put out, says
/// why one failed, and waits for any other until its time is over.
pub proof fn what_a_client_does_next(
    cancelled: bool,
    status: StageStatus,
    elapsed: u64,
    timeout: u64,
)
    ensures
        ({
            let step = next_step(cancelled, status, elapsed, timeout);
            let ended = status is Succeeded || status is Failed || status is Cancelled;
            &&& step is Withdraw <==> cancelled
            &&& step is Fetch <==> !cancelled && status is Succeeded
            &&& step is Explain <==> !cancelled && status is Failed
            &&& step is Stop <==> !cancelled && status is Cancelled
            &&& step is TimeOut <==> !cancelled && !ended && elapsed >= timeout
            &&& step is Wait <==> !cancelled && !ended && elapsed < timeout
        }),
{
}

/// A block that arrived is the one that was announced where its rows, its bytes and its checksum are.
pub proof fn which_arrivals_are_right(
    block: ShuffleBlockView,
    rows: u64,
    bytes: u64,
    checksum: Seq<char>,
)
    ensures
        arrival_check(block, rows, bytes, checksum) is Ok <==> rows == block.rows && bytes
            == block.bytes && checksum == block.checksum,
{
}

/// A block is had by its own ticket from the worker that has it, and from no other.
pub proof fn blocks_are_had_from_their_worker(
    location: ShuffleLocationView,
    endpoint: Seq<char>,
    action: BlockAction,
)
    ensures
        block_ticket(location, endpoint, action) is Ok <==> location is Flight
            && location->Flight_endpoint == endpoint,
        block_ticket(location, endpoint, action) matches Ok(ticket) ==> ticket
            == location->Flight_ticket,
{
}

/// A task reads the blocks for its own partition, in their order, and all blocks where its input is not
/// divided.
pub proof fn which_blocks_a_task_reads(
    blocks: Seq<ShuffleBlockView>,
    partition: Option<PartitionId>,
    upto: int,
) -> (places: Seq<int>)
    requires
        0 <= upto <= blocks.len(),
    ensures
        ({
            let read = blocks_read(blocks, partition, upto);
            &&& read.len() == places.len()
            &&& forall|k: int|
                0 <= k < places.len() ==> 0 <= #[trigger] places[k] < upto && read[k]
                    == blocks[places[k]] && (partition is None
                    || blocks[places[k]].output_partition == partition->Some_0)
            &&& forall|k: int, l: int|
                0 <= k < l < places.len() ==> #[trigger] places[k] < #[trigger] places[l]
            &&& forall|i: int|
                0 <= i < upto && (partition is None || (#[trigger] blocks[i]).output_partition
                    == partition->Some_0) ==> places.contains(i)
        }),
    decreases upto,
{
    if upto <= 0 {
        Seq::empty()
    } else {
        let before = which_blocks_a_task_reads(blocks, partition, upto - 1);
        let at = upto - 1;
        let is_read = partition is None || blocks[at].output_partition == partition->Some_0;
        let places = if is_read {
            before.push(at)
        } else {
            before
        };
        let read = blocks_read(blocks, partition, upto);
        assert forall|k: int| 0 <= k < places.len() implies 0 <= #[trigger] places[k] < upto
            && read[k] == blocks[places[k]] && (partition is None
            || blocks[places[k]].output_partition == partition->Some_0) by {
            if k < before.len() {
                assert(places[k] == before[k]);
            }
        }
        assert forall|k: int, l: int| 0 <= k < l < places.len() implies #[trigger] places[k]
            < #[trigger] places[l] by {
            assert(places[k] == before[k]);
            if l < before.len() {
                assert(places[l] == before[l]);
            }
        }
        assert forall|i: int|
            0 <= i < upto && (partition is None || (#[trigger] blocks[i]).output_partition
                == partition->Some_0) implies places.contains(i) by {
            if i < at {
                assert(before.contains(i));
                let k = choose|k: int| 0 <= k < before.len() && before[k] == i;
                assert(places[k] == i);
            } else {
                assert(places[places.len() - 1] == i);
            }
        }
        places
    }
}

/// Batches that arrive from a stage come behind those that came from it before, and the inputs from other
/// stages stay as they are.
pub proof fn what_arrives_joins_its_input(
    inputs: Seq<StageInputView>,
    stage: StageId,
    schema: SchemaView,
    batches: Seq<BatchView>,
    at: int,
    i: int,
)
    requires
        0 <= at < inputs.len(),
        inputs[at].stage_id == stage,
        0 <= i < inputs.len(),
        forall|j: int, k: int|
            0 <= j < k < inputs.len() ==> (#[trigger] inputs[j]).stage_id != (
            #[trigger] inputs[k]).stage_id,
    ensures
        admitted(inputs, stage, schema, batches).len() == inputs.len(),
        inputs[i].stage_id == stage ==> {
            let input = admitted(inputs, stage, schema, batches)[i];
            &&& input.stage_id == stage
            &&& input.schema == Some(schema)
            &&& input.batches == inputs[i].batches + batches
        },
        inputs[i].stage_id != stage ==> admitted(inputs, stage, schema, batches)[i] == inputs[i],
{
    the_place_of_an_input(inputs, stage, 0);
    let place = input_place(inputs, stage, 0);
    if place < at {
        assert(inputs[place].stage_id != inputs[at].stage_id);
    }
    assert(place == at);
    if inputs[i].stage_id == stage {
        if at < i {
            assert(inputs[at].stage_id != inputs[i].stage_id);
        } else if i < at {
            assert(inputs[i].stage_id != inputs[at].stage_id);
        }
    }
}

proof fn the_place_of_an_input(inputs: Seq<StageInputView>, stage: StageId, from: int)
    requires
        0 <= from <= inputs.len(),
    ensures
        ({
            let place = input_place(inputs, stage, from);
            &&& from <= place <= inputs.len()
            &&& place < inputs.len() ==> inputs[place].stage_id == stage
            &&& forall|i: int| from <= i < place ==> (#[trigger] inputs[i]).stage_id != stage
        }),
    decreases inputs.len() - from,
{
    if from < inputs.len() {
        the_place_of_an_input(inputs, stage, from + 1);
    }
}

} // verus!
