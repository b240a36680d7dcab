//! What the coordinator's service does with a request.

use crate::coordinator::model::{query_not_found_failure, CoordinatorState};
use crate::coordinator::{
    assignment_outcome, cancellation_outcome, worker_names, Coordinator,
};
use crate::error::{outcome, ErrorView, SparkXError};
use crate::protocol::{
    CoordinatorMessage, CoordinatorMessageView, QueryId, StagePlan, WorkerId, WorkerMessage,
};
use crate::text::{before, decimal, join, numeral};
use vstd::prelude::*;

verus! {

/// The largest request or response, in bytes.
pub const MAX_CONTROL_MESSAGE_BYTES: usize = 96 * 1024 * 1024;

/// What is wrong with the size of a message, if anything is.
pub open spec fn message_size_check(size: usize) -> Result<(), ErrorView> {
    if size > MAX_CONTROL_MESSAGE_BYTES {
        Err(
            ErrorView::ResourceExhausted(
                "control message is "@ + numeral(size as nat) + " bytes; maximum is "@ + numeral(
                    MAX_CONTROL_MESSAGE_BYTES as nat,
                ),
            ),
        )
    } else {
        Ok(())
    }
}

pub fn check_message_size(size: usize) -> (r: Result<(), SparkXError>)
    ensures
        outcome(r) == message_size_check(size),
{
    if size > MAX_CONTROL_MESSAGE_BYTES {
        let mut message: String = join("control message is ", decimal(size as u64).as_str());
        message.append(" bytes; maximum is ");
        message.append(decimal(MAX_CONTROL_MESSAGE_BYTES as u64).as_str());
        return Err(SparkXError::resource_exhausted(message));
    }
    Ok(())
}

/// Whether a request was accepted.
pub fn validate_ack(accepted: bool) -> (r: Result<(), SparkXError>)
    ensures
        outcome(r) == (if accepted {
            Ok(())
        } else {
            Err(ErrorView::Protocol("control service returned a negative acknowledgement"@))
        }),
{
    if accepted {
        Ok(())
    } else {
        Err(
            SparkXError::protocol(
                "control service returned a negative acknowledgement".to_owned(),
            ),
        )
    }
}

/// Messages that wait for a worker.
#[derive(Debug)]
struct Waiting {
    worker_id: WorkerId,
    messages: Vec<CoordinatorMessage>,
}

pub struct WaitingView {
    pub worker_id: Seq<char>,
    pub messages: Seq<CoordinatorMessageView>,
}

pub open spec fn message_views(messages: Seq<CoordinatorMessage>) -> Seq<CoordinatorMessageView> {
    Seq::new(messages.len(), |i: int| messages[i]@)
}

impl View for Waiting {
    type V = WaitingView;

    closed spec fn view(&self) -> WaitingView {
        WaitingView { worker_id: self.worker_id@, messages: message_views(self.messages@) }
    }
}

closed spec fn waiting_views(waiting: Seq<Waiting>) -> Seq<WaitingView> {
    Seq::new(waiting.len(), |i: int| waiting[i]@)
}

/// The coordinator, with the messages that wait for its workers.
#[derive(Debug)]
pub struct ControlPlane {
    coordinator: Coordinator,
    waiting: Vec<Waiting>,
}

pub struct ControlView {
    pub coordinator: CoordinatorState,
    pub waiting: Seq<WaitingView>,
}

impl View for ControlPlane {
    type V = ControlView;

    closed spec fn view(&self) -> ControlView {
        ControlView { coordinator: self.coordinator@, waiting: waiting_views(self.waiting@) }
    }
}

/// The place of the messages for a worker from `from` on, or the number of places.
pub open spec fn waiting_place(waiting: Seq<WaitingView>, worker: Seq<char>, from: int) -> int
    decreases waiting.len() - from,
{
    if from >= waiting.len() {
        waiting.len() as int
    } else if waiting[from].worker_id == worker {
        from
    } else {
        waiting_place(waiting, worker, from + 1)
    }
}

/// The first message that waits for a worker.
pub open spec fn first_waiting(waiting: Seq<WaitingView>, worker: Seq<char>) -> Option<
    CoordinatorMessageView,
> {
    let place = waiting_place(waiting, worker, 0);
    if place < waiting.len() && waiting[place].messages.len() > 0 {
        Some(waiting[place].messages[0])
    } else {
        None
    }
}

/// The messages that wait, without the first for a worker.
pub open spec fn after_delivery(waiting: Seq<WaitingView>, worker: Seq<char>) -> Seq<WaitingView> {
    let place = waiting_place(waiting, worker, 0);
    waiting.update(
        place,
        WaitingView { worker_id: worker, messages: waiting[place].messages.skip(1) },
    )
}

/// The messages that wait, with one more for a worker.
pub open spec fn with_message(
    waiting: Seq<WaitingView>,
    worker: Seq<char>,
    message: CoordinatorMessageView,
) -> Seq<WaitingView> {
    let place = waiting_place(waiting, worker, 0);
    if place < waiting.len() {
        waiting.update(
            place,
            WaitingView { worker_id: worker, messages: waiting[place].messages.push(message) },
        )
    } else {
        waiting.push(WaitingView { worker_id: worker, messages: seq![message] })
    }
}

/// The messages that wait, with one more for each of the first `upto` workers.
pub open spec fn with_messages(
    waiting: Seq<WaitingView>,
    workers: Seq<Seq<char>>,
    message: CoordinatorMessageView,
    upto: int,
) -> Seq<WaitingView>
    decreases upto,
{
    if upto <= 0 {
        waiting
    } else {
        with_message(
            with_messages(waiting, workers, message, upto - 1),
            workers[upto - 1],
            message,
        )
    }
}

proof fn waiting_place_is_within(waiting: Seq<WaitingView>, worker: Seq<char>, from: int)
    requires
        0 <= from <= waiting.len(),
    ensures
        from <= waiting_place(waiting, worker, from) <= waiting.len(),
        waiting_place(waiting, worker, from) < waiting.len() ==> waiting[waiting_place(
            waiting,
            worker,
            from,
        )].worker_id == worker,
    decreases waiting.len() - from,
{
    if from < waiting.len() && waiting[from].worker_id != worker {
        waiting_place_is_within(waiting, worker, from + 1);
    }
}

/// A message that was queued for a worker is the next that it is given, where none waited before.
pub proof fn a_queued_message_is_delivered(
    waiting: Seq<WaitingView>,
    worker: Seq<char>,
    message: CoordinatorMessageView,
)
    requires
        first_waiting(waiting, worker) is None,
    ensures
        first_waiting(with_message(waiting, worker, message), worker) == Some(message),
{
    waiting_place_is_within(waiting, worker, 0);
    let next = with_message(waiting, worker, message);
    let place = waiting_place(waiting, worker, 0);
    same_place(waiting, next, worker, 0, place);
}

proof fn same_place(
    waiting: Seq<WaitingView>,
    next: Seq<WaitingView>,
    worker: Seq<char>,
    from: int,
    place: int,
)
    requires
        0 <= from <= place,
        place == waiting_place(waiting, worker, from),
        place < next.len(),
        waiting.len() <= next.len(),
        next[place].worker_id == worker,
        forall|i: int|
            0 <= i < waiting.len() && i != place ==> #[trigger] next[i] == waiting[i],
    ensures
        waiting_place(next, worker, from) == place,
    decreases waiting.len() - from,
{
    if from < waiting.len() && waiting[from].worker_id != worker {
        assert(from != place) by {
            waiting_place_is_within(waiting, worker, from + 1);
        }
        same_place(waiting, next, worker, from + 1, place);
    }
}

/// Whether a list names the workers that are at a query, in order.
pub open spec fn lists_workers(
    state: CoordinatorState,
    query: Seq<char>,
    names: Seq<Seq<char>>,
) -> bool {
    &&& forall|id: Seq<char>| names.contains(id) <==> #[trigger] state.works_for(id, query)
    &&& forall|i: int, j: int|
        0 <= i < j < names.len() ==> before(#[trigger] names[i], #[trigger] names[j])
}

impl ControlView {
    /// What a worker is given when it asks, and the state after that: a message that waits for it,
    /// and else a task.
    pub open spec fn polled(self, worker: Seq<char>, now_ms: u64) -> (
        ControlView,
        Result<Option<CoordinatorMessageView>, ErrorView>,
    ) {
        match first_waiting(self.waiting, worker) {
            Some(message) => (
                ControlView { waiting: after_delivery(self.waiting, worker), ..self },
                Ok(Some(message)),
            ),
            None => {
                let (coordinator, assignment) = self.coordinator.next_assignment_for(
                    worker,
                    now_ms,
                );
                (ControlView { coordinator, ..self }, assignment)
            },
        }
    }
}

impl ControlPlane {
    pub closed spec fn wf(&self) -> bool {
        self.coordinator.wf()
    }

    /// The service of a coordinator.
    pub fn new(coordinator: Coordinator) -> (r: Self)
        requires
            coordinator.wf(),
        ensures
            r.wf(),
            r@ == (ControlView { coordinator: coordinator@, waiting: Seq::empty() }),
    {
        let r = ControlPlane { coordinator, waiting: Vec::new() };
        proof {
            assert(r@.waiting =~= Seq::empty());
        }
        r
    }

    pub fn coordinator(&self) -> (r: &Coordinator)
        requires
            self.wf(),
        ensures
            r@ == self@.coordinator,
            r.wf(),
    {
        &self.coordinator
    }

    /// Takes on a stage.
    pub fn submit_stage(&mut self, stage: StagePlan) -> (r: Result<(), SparkXError>)
        requires
            old(self).wf(),
        ensures
            final(self).wf(),
            final(self)@.waiting == old(self)@.waiting,
            outcome(r) == old(self)@.coordinator.submission_check(stage@),
            r is Err ==> final(self)@ == old(self)@,
            r is Ok ==> old(self)@.coordinator.is_with_stage(
                CoordinatorState::fresh_stage(stage@),
                final(self)@.coordinator,
            ),
    {
        self.coordinator.submit_stage(stage)
    }

    /// Takes in a message of a worker.
    pub fn worker_message(&mut self, message: WorkerMessage, now_ms: u64) -> (r: Result<
        (),
        SparkXError,
    >)
        requires
            old(self).wf(),
        ensures
            final(self).wf(),
            final(self)@.waiting == old(self)@.waiting,
            old(self)@.coordinator.handles(
                message@,
                now_ms,
                final(self)@.coordinator,
                outcome(r),
            ),
    {
        self.coordinator.handle_worker_message(message, now_ms)
    }

    fn find(&self, worker_id: &WorkerId) -> (r: usize)
        ensures
            r == waiting_place(self@.waiting, worker_id@, 0),
            r <= self.waiting.len(),
            self@.waiting.len() == self.waiting.len(),
    {
        let ghost views = waiting_views(self.waiting@);
        let mut i: usize = 0;
        while i < self.waiting.len()
            invariant
                views == waiting_views(self.waiting@),
                i <= self.waiting.len(),
                waiting_place(views, worker_id@, 0) == waiting_place(
                    views,
                    worker_id@,
                    i as int,
                ),
            decreases self.waiting.len() - i,
        {
            proof {
                assert(views[i as int] == self.waiting@[i as int]@);
            }
            if self.waiting[i].worker_id.same(worker_id) {
                return i;
            }
            i = i + 1;
        }
        i
    }

    /// What a worker is given when it asks.
    pub fn poll_assignment(&mut self, worker_id: &WorkerId, now_ms: u64) -> (r: Result<
        Option<CoordinatorMessage>,
        SparkXError,
    >)
        requires
            old(self).wf(),
        ensures
            final(self).wf(),
            (final(self)@, assignment_outcome(r)) == old(self)@.polled(worker_id@, now_ms),
    {
        let ghost before = self@.waiting;
        let place: usize = self.find(worker_id);
        if place < self.waiting.len() {
            proof {
                assert(before[place as int] == self.waiting@[place as int]@);
                waiting_place_is_within(before, worker_id@, 0);
            }
            if self.waiting[place].messages.len() > 0 {
                let mut entry = self.waiting.remove(place);
                let ghost messages = message_views(entry.messages@);
                proof {
                    assert(messages == before[place as int].messages);
                    assert(messages[0] == entry.messages@[0]@);
                }
                let message = entry.messages.remove(0);
                proof {
                    assert(message_views(entry.messages@) =~= messages.skip(1));
                }
                let ghost view = entry@;
                self.waiting.insert(place, entry);
                proof {
                    assert(self@.waiting =~= before.update(place as int, view));
                }
                return Ok(Some(message));
            }
        }
        self.coordinator.next_assignment_for(worker_id, now_ms)
    }

    fn queue(&mut self, worker_id: WorkerId, message: CoordinatorMessage)
        ensures
            final(self)@.coordinator == old(self)@.coordinator,
            final(self).wf() == old(self).wf(),
            final(self)@.waiting == with_message(old(self)@.waiting, worker_id@, message@),
    {
        let ghost before = self@.waiting;
        let ghost view = message@;
        let place: usize = self.find(&worker_id);
        proof {
            waiting_place_is_within(before, worker_id@, 0);
        }
        if place < self.waiting.len() {
            proof {
                assert(before[place as int] == self.waiting@[place as int]@);
            }
            let mut entry = self.waiting.remove(place);
            let ghost messages = message_views(entry.messages@);
            entry.messages.push(message);
            proof {
                assert(message_views(entry.messages@) =~= messages.push(view));
            }
            let ghost entry_view = entry@;
            self.waiting.insert(place, entry);
            proof {
                assert(self@.waiting =~= before.update(place as int, entry_view));
            }
        } else {
            let messages: Vec<CoordinatorMessage> = vec![message];
            proof {
                assert(message_views(messages@) =~= seq![view]);
            }
            let entry = Waiting { worker_id, messages };
            let ghost entry_view = entry@;
            self.waiting.push(entry);
            proof {
                assert(self@.waiting =~= before.push(entry_view));
            }
        }
    }

    /// Cancels a query, and queues the cancellation for each worker that is at it.
    pub fn cancel_query(&mut self, query_id: QueryId, reason: String) -> (r: Result<
        CoordinatorMessage,
        SparkXError,
    >)
        requires
            old(self).wf(),
        ensures
            final(self).wf(),
            if !old(self)@.coordinator.has_query(query_id@) {
                &&& r matches Err(error)
                &&& error@ == query_not_found_failure(query_id@)
                &&& final(self)@ == old(self)@
            } else {
                &&& (final(self)@.coordinator, cancellation_outcome(r)) == old(
                    self,
                )@.coordinator.cancel_query(query_id@, reason@)
                &&& match r {
                    Ok(message) => exists|names: Seq<Seq<char>>|
                        #[trigger] lists_workers(old(self)@.coordinator, query_id@, names)
                            && final(self)@.waiting == with_messages(
                            old(self)@.waiting,
                            names,
                            message@,
                            names.len() as int,
                        ),
                    Err(_) => final(self)@.waiting == old(self)@.waiting,
                }
            },
    {
        let workers = match self.coordinator.active_workers_for_query(&query_id) {
            Ok(workers) => workers,
            Err(error) => return Err(error),
        };
        let ghost names = worker_names(workers@);
        let ghost before = self@.waiting;
        proof {
            assert(lists_workers(self@.coordinator, query_id@, names));
        }
        let message = match self.coordinator.cancel_query(query_id, reason) {
            Ok(message) => message,
            Err(error) => return Err(error),
        };
        let ghost state = self@.coordinator;
        for i in 0..workers.len()
            invariant
                self.wf(),
                self@.coordinator == state,
                names == worker_names(workers@),
                self@.waiting == with_messages(before, names, message@, i as int),
        {
            proof {
                assert(names[i as int] == workers@[i as int]@);
            }
            self.queue(workers[i].clone(), message.clone());
        }
        Ok(message)
    }
}

} // verus!
