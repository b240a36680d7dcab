//! How the coordinator of a process deals out the partitions of its one stage.

use crate::coordinator::model::{
    count_in_stage, count_in_stages, expired, CoordinatorState, PartitionState, StageState,
};
use crate::coordinator::laws::{stage_index_is, worker_index_is};
use crate::coordinator::{Coordinator, CoordinatorConfig};
use crate::distributed::local::{
    local_registration, partition_state, report_partition, worker_number,
};
use crate::error::{ErrorView, SparkXError};
use crate::protocol::{
    text_id_check, CoordinatorMessage, CoordinatorMessageView, StagePlan, StagePlanView,
    TaskAttemptId, WorkerId, WorkerMessage, WorkerMessageView, WorkerRegistrationView,
    PROTOCOL_VERSION,
};
use crate::text::{blank, digit, digit_value, digits_value, numeral, white_space};
use vstd::prelude::*;
use vstd::utf8::{is_ascii_chars, is_ascii_chars_encode_utf8};

verus! {

/// The rules of a coordinator in one process: nothing falls silent, and nothing is tried twice.
pub open spec fn local_config(partition_count: u32) -> CoordinatorConfig {
    CoordinatorConfig {
        lease_duration_ms: (u64::MAX / 2) as u64,
        heartbeat_timeout_ms: (u64::MAX / 2) as u64,
        max_task_attempts: 1,
        max_stage_partitions: partition_count,
    }
}

/// Whether a coordinator has a stage without inputs as its only one, its workers are free, and the
/// first `done` partitions of the stage have succeeded while the others wait.
pub open spec fn idle(state: CoordinatorState, plan: StagePlanView, done: int) -> bool {
    &&& state.wf()
    &&& state.config == local_config(plan.partition_count)
    &&& state.cancelled.len() == 0
    &&& plan.input_stages.len() == 0
    &&& state.stages.len() == 1
    &&& state.stages[0].plan == plan
    &&& 0 <= done <= plan.partition_count
    &&& forall|p: int|
        0 <= p < plan.partition_count ==> if p < done {
            (#[trigger] state.stages[0].partitions[p]) is Succeeded
        } else {
            state.stages[0].partitions[p] == (PartitionState::Pending { next_attempt: 0 })
        }
    &&& state.workers.len() > 0
    &&& forall|w: int|
        0 <= w < state.workers.len() ==> (#[trigger] state.workers[w]).alive
            && state.workers[w].available_slots == 1 && state.workers[w].registration.slots == 1
}

// ---- the clock stands at zero

proof fn nothing_expires_in_stage(stage: StageState, upto: int, worker: Seq<char>)
    requires
        upto <= stage.partitions.len(),
        forall|p: int|
            0 <= p < stage.partitions.len() ==> !(#[trigger] stage.partitions[p]).lease_expired(0),
    ensures
        count_in_stage(stage, upto, expired(worker, 0)) == 0,
    decreases upto,
{
    if upto > 0 {
        nothing_expires_in_stage(stage, upto - 1, worker);
    }
}

proof fn nothing_expires(state: CoordinatorState, upto: int, worker: Seq<char>)
    requires
        state.wf(),
        upto <= state.stages.len(),
    ensures
        count_in_stages(state.stages, upto, expired(worker, 0)) == 0,
    decreases upto,
{
    if upto > 0 {
        nothing_expires(state, upto - 1, worker);
        let stage = state.stages[upto - 1];
        assert(state.stage_wf(stage));
        assert forall|p: int| 0 <= p < stage.partitions.len() implies !(
        #[trigger] stage.partitions[p]).lease_expired(0) by {
            assert(state.partition_wf(stage.plan, p, stage.partitions[p]));
        }
        nothing_expires_in_stage(stage, stage.partitions.len() as int, worker);
    }
}

/// At time zero nothing has fallen silent and no lease has run out.
pub proof fn nothing_happens_at_zero(state: CoordinatorState)
    requires
        state.wf(),
    ensures
        state.advanced(0) == state,
{
    let next = state.advanced(0);
    assert forall|id: Seq<char>| !state.worker_times_out(id, 0) by {}
    assert forall|s: int| 0 <= s < state.stages.len() implies next.stages[s]
        == #[trigger] state.stages[s] by {
        let stage = state.stages[s];
        assert(state.stage_wf(stage));
        assert forall|p: int| 0 <= p < stage.partitions.len() implies next.stages[s].partitions[p]
            == #[trigger] stage.partitions[p] by {
            assert(state.partition_wf(stage.plan, p, stage.partitions[p]));
        }
        assert(next.stages[s].partitions =~= stage.partitions);
    }
    assert(next.stages =~= state.stages);
    assert forall|w: int| 0 <= w < state.workers.len() implies next.workers[w]
        == #[trigger] state.workers[w] by {
        let worker = state.workers[w];
        assert(state.worker_wf(worker));
        nothing_expires(state, state.stages.len() as int, worker.id());
        assert(!state.times_out(worker, 0));
    }
    assert(next.workers =~= state.workers);
}

// ---- one partition after the other

proof fn the_next_waits(stage: StageState, done: int, from: int)
    requires
        0 <= from <= done < stage.partitions.len(),
        forall|p: int| 0 <= p < done ==> (#[trigger] stage.partitions[p]) is Succeeded,
        stage.partitions[done] is Pending,
    ensures
        stage.pending_from(from) == Some(done),
    decreases done - from,
{
    if from < done {
        the_next_waits(stage, done, from + 1);
    }
}

/// An idle coordinator gives out the partitions in their order.
pub proof fn partitions_come_in_order(state: CoordinatorState, plan: StagePlanView, done: int)
    requires
        idle(state, plan, done),
        done < plan.partition_count,
    ensures
        state.pending_from(0) == Some((0int, done)),
        state.next_assignment(0) == state.assigned(0, 0),
        state.next_assignment(0).1 == Ok::<Option<CoordinatorMessageView>, ErrorView>(
            Some(
                CoordinatorMessageView::AssignTask {
                    version: PROTOCOL_VERSION,
                    stage: plan,
                    task: state.attempt_at(0, done),
                    lease: state.lease_for(0, 0),
                },
            ),
        ),
{
    nothing_happens_at_zero(state);
    assert(state.stage_wf(state.stages[0]));
    assert(state.stages[0].partitions[done] is Pending);
    the_next_waits(state.stages[0], done, 0);
    assert(state.workers[0].is_free());
    assert(!state.is_cancelled(plan.query_id));
}

/// The report on the partition that an idle coordinator gave out last.
pub open spec fn end_report(
    before: CoordinatorState,
    done: int,
    error: Option<ErrorView>,
) -> WorkerMessageView {
    WorkerMessageView::TaskUpdate {
        version: PROTOCOL_VERSION,
        worker_id: before.workers[0].id(),
        task: before.attempt_at(0, done),
        state: partition_state(error),
    }
}

proof fn error_texts_say_something(error: ErrorView)
    ensures
        !blank(error.text()),
        !blank("query cancellation reached local worker"@),
{
    reveal_strlit("Arrow error: ");
    reveal_strlit("Parquet error: ");
    reveal_strlit("I/O error: ");
    reveal_strlit("SQL parse error: ");
    reveal_strlit("transport error: ");
    reveal_strlit("planning error: ");
    reveal_strlit("execution error: ");
    reveal_strlit("unsupported operation: ");
    reveal_strlit("protocol error: ");
    reveal_strlit("resource not found: ");
    reveal_strlit("resource exhausted: ");
    reveal_strlit("query was cancelled");
    reveal_strlit("operator channel closed unexpectedly");
    reveal_strlit("query cancellation reached local worker");
    assert(!white_space(error.text()[0]));
    assert(!white_space("query cancellation reached local worker"@[0]));
}

/// A report on the partition that was given out last is taken, and after a success the coordinator
/// is idle again, with one more partition done.
pub proof fn a_report_is_taken(
    before: CoordinatorState,
    plan: StagePlanView,
    done: int,
    error: Option<ErrorView>,
    next: CoordinatorState,
    result: Result<(), ErrorView>,
)
    requires
        idle(before, plan, done),
        done < plan.partition_count,
        before.assigned(0, 0).0.wf(),
        before.assigned(0, 0).0.handles(end_report(before, done, error), 0, next, result),
        next.wf(),
    ensures
        result == Ok::<(), ErrorView>(()),
        error is None ==> idle(next, plan, done + 1),
{
    let busy = before.assigned(0, 0).0;
    let message = end_report(before, done, error);
    let task = before.attempt_at(0, done);
    let worker = before.workers[0].id();
    partitions_come_in_order(before, plan, done);
    nothing_happens_at_zero(busy);
    if let Some(error) = error {
        error_texts_say_something(error);
    }
    assert(before.worker_wf(before.workers[0]));
    assert(before.stage_wf(before.stages[0]));
    assert(message.check() is Ok);
    assert(busy.workers[0].id() == worker);
    worker_index_is(busy, 0);
    assert(busy.has_worker(worker));
    assert(busy.stages[0].is(plan.query_id, plan.stage_id));
    stage_index_is(busy, 0);
    assert(busy.has_stage(plan.query_id, plan.stage_id));
    assert(busy.stages[0].partitions[done] is Active);
    assert(task.check_for(plan) is Ok);
    assert(result == Ok::<(), ErrorView>(()));
    if error is None {
        let ended = next.stages[0].partitions;
        assert(ended.len() == plan.partition_count);
        assert forall|p: int| 0 <= p < plan.partition_count implies if p < done + 1 {
            (#[trigger] ended[p]) is Succeeded
        } else {
            ended[p] == (PartitionState::Pending { next_attempt: 0 })
        } by {
            if p != done {
                assert(ended[p] == before.stages[0].partitions[p]);
            }
        }
        assert forall|w: int| 0 <= w < next.workers.len() implies (
        #[trigger] next.workers[w]).alive && next.workers[w].available_slots == 1
            && next.workers[w].registration.slots == 1 by {
            if w > 0 {
                assert(next.workers[w] == before.workers[w] || next.workers[w]
                    == before.workers[w].released(1));
            }
        }
    }
}

// ---- the names of the workers

proof fn a_prefix_reads_the_same(s: Seq<char>, c: char, upto: int)
    requires
        upto <= s.len(),
    ensures
        digits_value(s.push(c), upto) == digits_value(s, upto),
    decreases upto,
{
    if upto > 0 {
        a_prefix_reads_the_same(s, c, upto - 1);
    }
}

proof fn numerals_read_back(n: nat)
    ensures
        numeral(n).len() > 0,
        digits_value(numeral(n), numeral(n).len() as int) == Some(n),
        is_ascii_chars(numeral(n)),
    decreases n,
{
    assert(digit_value(digit(n % 10)) == Some(n % 10));
    if n < 10 {
        let s = numeral(n);
        assert(s[0] == digit(n));
        assert(digits_value(s, 0) == Some(0nat));
        assert(digits_value(s, 1) == Some(n));
    } else {
        numerals_read_back(n / 10);
        let s = numeral(n / 10);
        a_prefix_reads_the_same(s, digit(n % 10), s.len() as int);
        assert(numeral(n).drop_last() =~= s);
        assert(numeral(n)[s.len() as int] == digit(n % 10));
    }
}

proof fn leading_zeros_count_nothing(zeros: Seq<char>, s: Seq<char>, upto: int)
    requires
        0 <= upto <= zeros.len() + s.len(),
        forall|i: int| 0 <= i < zeros.len() ==> zeros[i] == '0',
    ensures
        digits_value(zeros + s, upto) == if upto <= zeros.len() {
            Some(0nat)
        } else {
            digits_value(s, upto - zeros.len())
        },
    decreases upto,
{
    if upto > 0 {
        leading_zeros_count_nothing(zeros, s, upto - 1);
        if upto <= zeros.len() {
            assert((zeros + s)[upto - 1] == '0');
        } else {
            assert((zeros + s)[upto - 1] == s[upto - 1 - zeros.len()]);
            if upto - 1 == zeros.len() {
                assert(digits_value(s, 0) == Some(0nat));
            }
        }
    }
}

proof fn worker_numbers_read_back(n: nat)
    ensures
        digits_value(worker_number(n), worker_number(n).len() as int) == Some(n),
        is_ascii_chars(worker_number(n)),
        worker_number(n).len() <= numeral(n).len() + 3,
{
    reveal_strlit("000");
    reveal_strlit("00");
    reveal_strlit("0");
    numerals_read_back(n);
    let s = numeral(n);
    leading_zeros_count_nothing("000"@, s, 3int + s.len());
    leading_zeros_count_nothing("00"@, s, 2int + s.len());
    leading_zeros_count_nothing("0"@, s, 1int + s.len());
}

spec fn power_of_ten(k: nat) -> nat
    decreases k,
{
    if k == 0 {
        1
    } else {
        10 * power_of_ten((k - 1) as nat)
    }
}

proof fn numerals_are_short(n: nat, k: nat)
    requires
        n < power_of_ten(k),
    ensures
        numeral(n).len() <= k + 1,
    decreases k,
{
    if n >= 10 {
        numerals_are_short(n / 10, (k - 1) as nat);
    }
}

/// The name of a worker of the process.
pub open spec fn local_worker(index: nat) -> Seq<char> {
    "local-worker-"@ + worker_number(index)
}

/// No two workers of a process have one name.
pub proof fn worker_names_differ(a: nat, b: nat)
    requires
        a != b,
    ensures
        local_worker(a) != local_worker(b),
{
    worker_numbers_read_back(a);
    worker_numbers_read_back(b);
    let name = "local-worker-"@;
    assert(local_worker(a).skip(name.len() as int) =~= worker_number(a));
    assert(local_worker(b).skip(name.len() as int) =~= worker_number(b));
}

proof fn worker_names_are_valid(index: nat)
    requires
        index <= u32::MAX,
    ensures
        text_id_check("worker"@, local_worker(index)) is Ok,
{
    let name = local_worker(index);
    reveal_strlit("local-worker-");
    worker_numbers_read_back(index);
    reveal_with_fuel(power_of_ten, 11);
    assert(power_of_ten(10) == 10_000_000_000);
    numerals_are_short(index, 10);
    assert(name[0] == 'l');
    assert(!white_space(name[0]));
    assert forall|i: int| 0 <= i < name.len() implies (name[i] as nat) < 128 by {
        if i >= 13 {
            assert(name[i] == worker_number(index)[i - 13]);
        }
    }
    assert(is_ascii_chars(name));
    is_ascii_chars_encode_utf8(name);
}

// ---- running it

/// A coordinator that has taken on a stage and knows some workers.
pub fn start_local(stage: StagePlan, workers: usize, memory_bytes: u64) -> (r: Result<
    Coordinator,
    SparkXError,
>)
    requires
        stage@.check() is Ok,
        stage@.input_stages.len() == 0,
        1 <= workers <= u32::MAX,
        memory_bytes > 0,
    ensures
        r matches Ok(coordinator) && coordinator.wf() && idle(coordinator@, stage@, 0),
{
    let ghost plan = stage@;
    let config = CoordinatorConfig {
        lease_duration_ms: u64::MAX / 2,
        heartbeat_timeout_ms: u64::MAX / 2,
        max_task_attempts: 1,
        max_stage_partitions: stage.partition_count,
    };
    let mut coordinator = match Coordinator::new(config) {
        Ok(coordinator) => coordinator,
        Err(error) => return Err(error),
    };
    match coordinator.submit_stage(stage) {
        Ok(()) => {},
        Err(error) => return Err(error),
    }
    proof {
        let fresh = CoordinatorState::fresh_stage(plan);
        assert(coordinator@.stages =~= seq![fresh]);
    }
    for i in 0..workers
        invariant
            1 <= workers <= u32::MAX,
            memory_bytes > 0,
            plan.input_stages.len() == 0,
            coordinator.wf(),
            coordinator@.config == local_config(plan.partition_count),
            coordinator@.cancelled.len() == 0,
            coordinator@.stages == seq![CoordinatorState::fresh_stage(plan)],
            coordinator@.workers.len() == i,
            forall|w: int|
                0 <= w < i ==> (#[trigger] coordinator@.workers[w]).alive
                    && coordinator@.workers[w].available_slots == 1
                    && coordinator@.workers[w].registration.slots == 1,
            forall|w: int, j: nat|
                0 <= w < i && i <= j ==> (#[trigger] coordinator@.workers[w]).id()
                    != #[trigger] local_worker(j),
    {
        let ghost before = coordinator@;
        let ghost registration = WorkerRegistrationView {
            worker_id: local_worker(i as nat),
            slots: 1,
            memory_bytes,
        };
        proof {
            worker_names_are_valid(i as nat);
            nothing_happens_at_zero(before);
            assert(!before.has_worker(local_worker(i as nat)));
        }
        match coordinator.handle_worker_message(local_registration(i as u64, memory_bytes), 0) {
            Ok(()) => {},
            Err(error) => return Err(error),
        }
        proof {
            let worker = CoordinatorState::fresh_worker(registration, 0);
            let at = choose|at: int|
                0 <= at <= before.workers.len() && coordinator@.workers
                    == #[trigger] before.workers.insert(at, worker);
            let next = coordinator@.workers;
            assert forall|w: int| 0 <= w < i + 1 implies (#[trigger] next[w]).alive
                && next[w].available_slots == 1 && next[w].registration.slots == 1 by {
                if w < at {
                    assert(next[w] == before.workers[w]);
                } else if w > at {
                    assert(next[w] == before.workers[w - 1]);
                }
            }
            assert forall|w: int, j: nat| 0 <= w < i + 1 && i + 1 <= j implies (
            #[trigger] next[w]).id() != #[trigger] local_worker(j) by {
                if w < at {
                    assert(next[w] == before.workers[w]);
                } else if w > at {
                    assert(next[w] == before.workers[w - 1]);
                } else {
                    worker_names_differ(i as nat, j);
                }
            }
        }
    }
    Ok(coordinator)
}

/// Takes the next partition that is to be done.
pub(crate) fn take_task(coordinator: &mut Coordinator, Ghost(plan): Ghost<StagePlanView>, Ghost(done):
    Ghost<int>) -> (r: Result<(StagePlan, TaskAttemptId, WorkerId), SparkXError>)
    requires
        old(coordinator).wf(),
        idle(old(coordinator)@, plan, done),
        done < plan.partition_count,
    ensures
        final(coordinator).wf(),
        final(coordinator)@ == old(coordinator)@.assigned(0, 0).0,
        r matches Ok((stage, task, worker)) && stage@ == plan && task@ == old(
            coordinator,
        )@.attempt_at(0, done) && worker@ == old(coordinator)@.workers[0].id(),
{
    proof {
        partitions_come_in_order(coordinator@, plan, done);
    }
    match coordinator.next_assignment(0) {
        Ok(Some(CoordinatorMessage::AssignTask { stage, task, lease, .. })) => Ok(
            (stage, task, lease.worker_id),
        ),
        Ok(Some(_)) => Err(
            SparkXError::execution(
                "local coordinator returned a cancellation while scheduling".to_owned(),
            ),
        ),
        Ok(None) => Err(
            SparkXError::execution(
                "local coordinator has unfinished partitions but no running tasks".to_owned(),
            ),
        ),
        Err(error) => Err(error),
    }
}

/// Reports the end of the partition that was taken last.
pub(crate) fn end_task(
    coordinator: &mut Coordinator,
    worker_id: WorkerId,
    task: TaskAttemptId,
    error: Option<&SparkXError>,
    Ghost(before): Ghost<CoordinatorState>,
    Ghost(plan): Ghost<StagePlanView>,
    Ghost(done): Ghost<int>,
) -> (r: Result<(), SparkXError>)
    requires
        old(coordinator).wf(),
        idle(before, plan, done),
        done < plan.partition_count,
        old(coordinator)@ == before.assigned(0, 0).0,
        task@ == before.attempt_at(0, done),
        worker_id@ == before.workers[0].id(),
    ensures
        final(coordinator).wf(),
        r is Ok,
        error is None ==> idle(final(coordinator)@, plan, done + 1),
{
    let ghost failure = match error {
        Some(error) => Some(error@),
        None => None,
    };
    let state = report_partition(error);
    let message = WorkerMessage::TaskUpdate { version: PROTOCOL_VERSION, worker_id, task, state };
    proof {
        assert(message@ == end_report(before, done, failure));
    }
    let r = coordinator.handle_worker_message(message, 0);
    proof {
        a_report_is_taken(
            before,
            plan,
            done,
            failure,
            coordinator@,
            crate::error::outcome(r),
        );
    }
    r
}

} // verus!
