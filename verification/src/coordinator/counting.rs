//! Facts about the number of partitions with a property.

use crate::coordinator::model::{
    count, count_in_stage, count_in_stages, expired, leased, leased_for, CoordinatorState,
    PartitionState, StageState,
};
use vstd::prelude::*;

verus! {

/// Counts grow with the number of stages.
pub(crate) proof fn count_in_stages_grows(
    stages: Seq<StageState>,
    low: int,
    high: int,
    property: spec_fn(StageState, PartitionState) -> bool,
)
    requires
        low <= high <= stages.len(),
    ensures
        count_in_stages(stages, low, property) <= count_in_stages(stages, high, property),
    decreases high - low,
{
    if low < high {
        count_in_stages_grows(stages, low, high - 1, property);
    }
}

/// Counts grow with the number of partitions.
pub(crate) proof fn count_in_stage_grows(
    stage: StageState,
    low: int,
    high: int,
    property: spec_fn(StageState, PartitionState) -> bool,
)
    requires
        low <= high,
    ensures
        count_in_stage(stage, low, property) <= count_in_stage(stage, high, property),
    decreases high - low,
{
    if low < high {
        count_in_stage_grows(stage, low, high - 1, property);
    }
}

pub open spec fn one_if(b: bool) -> nat {
    if b {
        1
    } else {
        0
    }
}

/// One replaced partition changes the leases of a stage by one at most.
pub(crate) proof fn count_in_stage_after_update(
    stage: StageState,
    index: int,
    partition: PartitionState,
    upto: int,
    worker: Seq<char>,
)
    requires
        0 <= index < stage.partitions.len(),
        0 <= upto <= stage.partitions.len(),
    ensures
        count_in_stage(stage.with_partition(index, partition), upto, leased(worker)) + (if index
            < upto {
            one_if(stage.partitions[index].leased_to(worker))
        } else {
            0
        }) == count_in_stage(stage, upto, leased(worker)) + (if index < upto {
            one_if(partition.leased_to(worker))
        } else {
            0
        }),
    decreases upto,
{
    if upto > 0 {
        count_in_stage_after_update(stage, index, partition, upto - 1, worker);
    }
}

/// One replaced partition changes the leases of a worker by one at most.
pub(crate) proof fn count_after_update(
    state: CoordinatorState,
    s: int,
    p: int,
    partition: PartitionState,
    upto: int,
    worker: Seq<char>,
)
    requires
        0 <= s < state.stages.len(),
        0 <= p < state.stages[s].partitions.len(),
        0 <= upto <= state.stages.len(),
    ensures
        count_in_stages(state.with_partition(s, p, partition).stages, upto, leased(worker)) + (if s
            < upto {
            one_if(state.stages[s].partitions[p].leased_to(worker))
        } else {
            0
        }) == count_in_stages(state.stages, upto, leased(worker)) + (if s < upto {
            one_if(partition.leased_to(worker))
        } else {
            0
        }),
    decreases upto,
{
    if upto > 0 {
        count_after_update(state, s, p, partition, upto - 1, worker);
        if s == upto - 1 {
            count_in_stage_after_update(
                state.stages[s],
                p,
                partition,
                state.stages[s].partitions.len() as int,
                worker,
            );
        }
    }
}

/// A new stage without leases changes no count of leases.
pub(crate) proof fn count_after_insert(
    stages: Seq<StageState>,
    at: int,
    stage: StageState,
    upto: int,
    worker: Seq<char>,
)
    requires
        0 <= at <= stages.len(),
        0 <= upto <= stages.len() + 1,
        forall|p: int|
            0 <= p < stage.partitions.len() ==> !(#[trigger] stage.partitions[p]).leased_to(worker),
    ensures
        count_in_stages(stages.insert(at, stage), upto, leased(worker)) == count_in_stages(
            stages,
            if at < upto {
                upto - 1
            } else {
                upto
            },
            leased(worker),
        ),
    decreases upto,
{
    if upto > 0 {
        count_after_insert(stages, at, stage, upto - 1, worker);
        if at == upto - 1 {
            no_lease_counts_nothing(stage, stage.partitions.len() as int, worker);
        }
    }
}

pub(crate) proof fn no_lease_counts_nothing(stage: StageState, upto: int, worker: Seq<char>)
    requires
        upto <= stage.partitions.len(),
        forall|p: int|
            0 <= p < stage.partitions.len() ==> !(#[trigger] stage.partitions[p]).leased_to(worker),
    ensures
        count_in_stage(stage, upto, leased(worker)) == 0,
    decreases upto,
{
    if upto > 0 {
        no_lease_counts_nothing(stage, upto - 1, worker);
    }
}

/// As the clock goes on, a worker loses all its leases when it is given up, and else those that
/// have run out.
pub(crate) proof fn count_after_advance(
    state: CoordinatorState,
    now_ms: u64,
    upto: int,
    worker: Seq<char>,
)
    requires
        0 <= upto <= state.stages.len(),
    ensures
        state.worker_times_out(worker, now_ms) ==> count_in_stages(
            state.advanced(now_ms).stages,
            upto,
            leased(worker),
        ) == 0,
        !state.worker_times_out(worker, now_ms) ==> count_in_stages(
            state.advanced(now_ms).stages,
            upto,
            leased(worker),
        ) + count_in_stages(state.stages, upto, expired(worker, now_ms)) == count_in_stages(
            state.stages,
            upto,
            leased(worker),
        ),
    decreases upto,
{
    if upto > 0 {
        count_after_advance(state, now_ms, upto - 1, worker);
        count_in_stage_after_advance(
            state,
            now_ms,
            state.stages[upto - 1],
            state.stages[upto - 1].partitions.len() as int,
            worker,
        );
    }
}

proof fn count_in_stage_after_advance(
    state: CoordinatorState,
    now_ms: u64,
    stage: StageState,
    upto: int,
    worker: Seq<char>,
)
    requires
        0 <= upto <= stage.partitions.len(),
    ensures
        state.worker_times_out(worker, now_ms) ==> count_in_stage(
            state.advanced_stage(stage, now_ms),
            upto,
            leased(worker),
        ) == 0,
        !state.worker_times_out(worker, now_ms) ==> count_in_stage(
            state.advanced_stage(stage, now_ms),
            upto,
            leased(worker),
        ) + count_in_stage(stage, upto, expired(worker, now_ms)) == count_in_stage(
            stage,
            upto,
            leased(worker),
        ),
    decreases upto,
{
    if upto > 0 {
        count_in_stage_after_advance(state, now_ms, stage, upto - 1, worker);
    }
}

/// Cancelling a query takes from a worker the leases that it held for that query.
pub(crate) proof fn count_after_cancel(
    state: CoordinatorState,
    query_id: Seq<char>,
    reason: Seq<char>,
    upto: int,
    worker: Seq<char>,
)
    requires
        0 <= upto <= state.stages.len(),
    ensures
        count_in_stages(state.with_cancelled(query_id, reason).stages, upto, leased(worker))
            + count_in_stages(state.stages, upto, leased_for(query_id, worker)) == count_in_stages(
            state.stages,
            upto,
            leased(worker),
        ),
    decreases upto,
{
    if upto > 0 {
        count_after_cancel(state, query_id, reason, upto - 1, worker);
        count_in_stage_after_cancel(
            state,
            query_id,
            reason,
            upto - 1,
            state.stages[upto - 1].partitions.len() as int,
            worker,
        );
    }
}

proof fn count_in_stage_after_cancel(
    state: CoordinatorState,
    query_id: Seq<char>,
    reason: Seq<char>,
    s: int,
    upto: int,
    worker: Seq<char>,
)
    requires
        0 <= s < state.stages.len(),
        0 <= upto <= state.stages[s].partitions.len(),
    ensures
        count_in_stage(state.with_cancelled(query_id, reason).stages[s], upto, leased(worker))
            + count_in_stage(state.stages[s], upto, leased_for(query_id, worker))
            == count_in_stage(state.stages[s], upto, leased(worker)),
    decreases upto,
{
    if upto > 0 {
        count_in_stage_after_cancel(state, query_id, reason, s, upto - 1, worker);
    }
}

/// Where some partition of a worker's is leased, the count is not zero.
pub(crate) proof fn a_lease_counts(state: CoordinatorState, s: int, p: int, worker: Seq<char>)
    requires
        0 <= s < state.stages.len(),
        0 <= p < state.stages[s].partitions.len(),
        state.stages[s].partitions[p].leased_to(worker),
    ensures
        count(state.stages, leased(worker)) >= 1,
{
    count_in_stage_grows(
        state.stages[s],
        p + 1,
        state.stages[s].partitions.len() as int,
        leased(worker),
    );
    count_in_stages_grows(state.stages, s + 1, state.stages.len() as int, leased(worker));
}

} // verus!
