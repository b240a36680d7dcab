//! A spread plan at work: what its partitions give is sent, arrives, and is merged.

use crate::batch::{batch_outcome, batch_views, Batch, BatchView};
use crate::catalog::{Catalog, TableView};
use crate::cluster::hash_exchange::batch_charge;
use crate::coordinator::Coordinator;
use crate::distributed::local::{
    is_mergeable, merge_step, one_batch_each, partition_gives, partition_meters, run_partition,
    step_peak, ClusterPlan, ClusterPlanView,
};
use crate::distributed::merge::merge_partials;
use crate::distributed::schedule::{end_task, idle, start_local, take_task};
use crate::error::{outcome, ErrorView, SparkXError};
use crate::execution::run::{emitted, misfit_error, operator_metrics};
use crate::expr::{expr_views, Expr, ExprView};
use crate::memory::{MemoryReservation, MemoryView, QueryMemory};
use crate::metrics::{MetricsView, QueryMetrics};
use crate::physical::PhysicalPlan;
use crate::table::{all_valid, named_views, NamedTable, NamedTableView};
use vstd::prelude::*;

verus! {

/// What keeps a claim on a budget from growing, if anything does.
pub open spec fn growth_check(claim: nat, memory: MemoryView, bytes: u64) -> Result<
    (),
    ErrorView,
> {
    if claim + bytes > u64::MAX {
        Err(ErrorView::ResourceExhausted("memory reservation size overflowed"@))
    } else {
        memory.check(bytes)
    }
}

/// Corrects a claim that was made for what was sent to what arrived.
pub fn settle_shuffle(
    reservation: &mut MemoryReservation,
    memory: &mut QueryMemory,
    sent: u64,
    arrived: u64,
) -> (r: Result<(), SparkXError>)
    requires
        old(memory).wf(),
        sent <= old(reservation)@ <= old(memory)@.reserved,
    ensures
        final(memory).wf(),
        outcome(r) == if arrived > sent {
            growth_check(old(reservation)@ as nat, old(memory)@, (arrived - sent) as u64)
        } else {
            Ok(())
        },
        r is Ok ==> final(reservation)@ == old(reservation)@ - sent + arrived,
        r is Ok ==> final(memory)@ == if arrived > sent {
            old(memory)@.claimed((arrived - sent) as u64)
        } else {
            old(memory)@.returned((sent - arrived) as u64)
        },
        r is Err ==> final(reservation)@ == old(reservation)@ && final(memory)@ == old(memory)@,
{
    if arrived > sent {
        reservation.try_grow(memory, arrived - sent)
    } else {
        reservation.shrink(memory, sent - arrived);
        Ok(())
    }
}

/// What some batches are charged together.
pub open spec fn arrival_bytes(batches: Seq<BatchView>, upto: int) -> nat
    decreases upto,
{
    if upto <= 0 {
        0
    } else {
        arrival_bytes(batches, upto - 1) + batch_charge(batches[upto - 1].columns) as nat
    }
}

/// What some batches are charged together, where that can be counted.
pub open spec fn arrival_charge(batches: Seq<BatchView>) -> u64 {
    let total = arrival_bytes(batches, batches.len() as int);
    if total > u64::MAX {
        u64::MAX
    } else {
        total as u64
    }
}

pub(crate) proof fn arrival_of_one(batch: BatchView)
    ensures
        arrival_charge(seq![batch]) == batch_charge(batch.columns),
{
    reveal_with_fuel(arrival_bytes, 2);
}

fn measure_arrival(batches: &Vec<Batch>) -> (r: u64)
    ensures
        r == arrival_charge(batch_views(batches@)),
{
    let ghost views = batch_views(batches@);
    let mut total: u64 = 0;
    for i in 0..batches.len()
        invariant
            views == batch_views(batches@),
            total == (if arrival_bytes(views, i as int) > u64::MAX {
                u64::MAX as nat
            } else {
                arrival_bytes(views, i as int)
            }),
    {
        proof {
            assert(views[i as int] == batches@[i as int]@);
        }
        total = match total.checked_add(batches[i].memory_size()) {
            Some(next) => next,
            None => u64::MAX,
        };
    }
    total
}

/// Metrics after the first `upto` of some batches arrived.
pub open spec fn arrivals_metrics(metrics: MetricsView, batches: Seq<BatchView>, upto: int) -> MetricsView
    decreases upto,
{
    if upto <= 0 {
        metrics
    } else {
        let batch = batches[upto - 1];
        arrivals_metrics(metrics, batches, upto - 1).with_shuffled_rows(
            batch.rows,
        ).with_shuffled_bytes(batch_charge(batch.columns))
    }
}

fn record_arrivals(batches: &Vec<Batch>, metrics: &mut QueryMetrics)
    ensures
        final(metrics)@ == arrivals_metrics(
            old(metrics)@,
            batch_views(batches@),
            batches.len() as int,
        ),
{
    let ghost views = batch_views(batches@);
    for i in 0..batches.len()
        invariant
            views == batch_views(batches@),
            metrics@ == arrivals_metrics(old(metrics)@, views, i as int),
    {
        proof {
            assert(views[i as int] == batches@[i as int]@);
        }
        metrics.add_shuffled_rows(batches[i].num_rows());
        metrics.add_shuffled_bytes(batches[i].memory_size());
    }
}

/// A spread plan of which some partitions are done.
#[derive(Debug)]
pub struct LocalRun {
    coordinator: Coordinator,
    cluster: ClusterPlan,
    done: u32,
    partials: Vec<Batch>,
    reservation: MemoryReservation,
}

/// Whether an error is one that the next partition of a run can end with: its own, or that of a
/// budget that has no room for what it gave.
pub open spec fn step_fails(
    cluster: ClusterPlanView,
    keys: Seq<ExprView>,
    catalog: Map<Seq<char>, TableView>,
    tables: Seq<NamedTableView>,
    partition: usize,
    claim: nat,
    memory: MemoryView,
    error: ErrorView,
) -> bool {
    ||| partition_gives(cluster, keys, catalog, tables, partition, Err(error))
    ||| exists|partial: BatchView|
        #[trigger] partition_gives(cluster, keys, catalog, tables, partition, Ok(seq![partial]))
            && growth_check(claim, memory, batch_charge(partial.columns)) == Err::<(), ErrorView>(
            error,
        )
}

impl LocalRun {
    pub closed spec fn cluster(&self) -> ClusterPlanView {
        self.cluster@
    }

    pub open spec fn partitions(&self) -> int {
        self.cluster().stage.partition_count as int
    }

    /// How many partitions are done.
    pub closed spec fn done(&self) -> int {
        self.done as int
    }

    /// What has arrived.
    pub closed spec fn partials(&self) -> Seq<BatchView> {
        batch_views(self.partials@)
    }

    /// What is claimed of the query's budget for what was sent.
    pub closed spec fn claim(&self) -> nat {
        self.reservation@ as nat
    }

    pub closed spec fn wf(&self) -> bool {
        &&& self.coordinator.wf()
        &&& idle(self.coordinator@, self.cluster@.stage, self.done as int)
        &&& all_valid(batch_views(self.partials@))
    }

    /// A run of which nothing is done, with some workers.
    pub fn start(cluster: ClusterPlan, workers: usize, memory: &mut QueryMemory) -> (r: Result<
        Self,
        SparkXError,
    >)
        requires
            old(memory).wf(),
            1 <= workers <= u32::MAX,
            cluster@.stage.check() is Ok,
            cluster@.stage.input_stages.len() == 0,
        ensures
            final(memory)@ == old(memory)@,
            final(memory).wf(),
            r matches Ok(run) && run.wf() && run.cluster() == cluster@ && run.done() == 0
                && run.partials() == Seq::<BatchView>::empty() && run.claim() == 0,
    {
        let coordinator = match start_local(cluster.stage.clone(), workers, memory.limit_bytes()) {
            Ok(coordinator) => coordinator,
            Err(error) => return Err(error),
        };
        let reservation = match memory.try_reserve(0) {
            Ok(reservation) => reservation,
            Err(error) => return Err(error),
        };
        let run = LocalRun { coordinator, cluster, done: 0, partials: Vec::new(), reservation };
        proof {
            assert(run.partials() =~= Seq::empty());
        }
        Ok(run)
    }

    pub fn is_over(&self) -> (r: bool)
        requires
            self.wf(),
        ensures
            r == (self.done() == self.partitions()),
    {
        self.done == self.cluster.stage.partition_count
    }

    /// Runs the next partition, reports its end, and claims room for what it gave, which is to be
    /// sent.
    pub fn next_partial(
        &mut self,
        group_exprs: &Vec<Expr>,
        catalog: &Catalog,
        tables: &Vec<NamedTable>,
        memory: &mut QueryMemory,
        metrics: &mut QueryMetrics,
    ) -> (r: Result<Batch, SparkXError>)
        requires
            old(self).wf(),
            old(self).done() < old(self).partitions(),
            catalog.wf(),
            old(memory).wf(),
            forall|i: int| 0 <= i < tables.len() ==> (#[trigger] tables@[i]).table.wf(),
        ensures
            final(memory).wf(),
            final(self).cluster() == old(self).cluster(),
            final(self).partials() == old(self).partials(),
            match r {
                Ok(batch) => {
                    let bytes = batch_charge(batch@.columns);
                    &&& final(self).wf()
                    &&& partition_gives(
                        old(self).cluster(),
                        expr_views(group_exprs@),
                        catalog@,
                        named_views(tables@),
                        old(self).done() as usize,
                        Ok(seq![batch@]),
                    )
                    &&& partition_meters(
                        old(self).cluster(),
                        expr_views(group_exprs@),
                        catalog@,
                        named_views(tables@),
                        old(self).done() as usize,
                        old(metrics)@,
                        Ok(seq![batch@]),
                        final(metrics)@,
                    )
                    &&& batch.wf()
                    &&& growth_check(old(self).claim(), old(memory)@, bytes) is Ok
                    &&& final(memory)@ == old(memory)@.claimed(bytes)
                    &&& final(self).claim() == old(self).claim() + bytes
                    &&& final(self).done() == old(self).done() + 1
                },
                Err(error) => {
                    &&& step_fails(
                        old(self).cluster(),
                        expr_views(group_exprs@),
                        catalog@,
                        named_views(tables@),
                        old(self).done() as usize,
                        old(self).claim(),
                        old(memory)@,
                        error@,
                    )
                    &&& final(memory)@ == old(memory)@
                    &&& final(self).claim() == old(self).claim()
                },
            },
    {
        let ghost plan = self.cluster@.stage;
        let ghost place = self.done as int;
        let ghost before = self.coordinator@;
        let (stage, task, worker_id) = match take_task(
            &mut self.coordinator,
            Ghost(plan),
            Ghost(place),
        ) {
            Ok(taken) => taken,
            Err(error) => return Err(error),
        };
        let partition: usize = task.partition_id.0 as usize;
        let result = run_partition(
            &stage,
            &self.cluster,
            group_exprs,
            catalog,
            tables,
            partition,
            metrics,
        );
        let failure: Option<&SparkXError> = match &result {
            Ok(_) => None,
            Err(error) => Some(error),
        };
        match end_task(
            &mut self.coordinator,
            worker_id,
            task,
            failure,
            Ghost(before),
            Ghost(plan),
            Ghost(place),
        ) {
            Ok(()) => {},
            Err(error) => return Err(error),
        }
        let mut batches = match result {
            Ok(batches) => batches,
            Err(error) => return Err(error),
        };
        self.done = self.done + 1;
        let ghost given = batch_views(batches@);
        proof {
            one_batch_each(
                self.cluster@,
                expr_views(group_exprs@),
                catalog@,
                named_views(tables@),
                partition,
                given,
            );
            assert(given[0] == batches@[0]@);
            assert(given =~= seq![given[0]]);
            assert(given[0].wf());
        }
        let batch = batches.remove(0);
        match self.reservation.try_grow(memory, batch.memory_size()) {
            Ok(()) => Ok(batch),
            Err(error) => Err(error),
        }
    }

    /// Takes what arrived of what was sent, which had a claim of so many bytes.
    pub fn arrived(
        &mut self,
        sent: u64,
        batches: Vec<Batch>,
        memory: &mut QueryMemory,
        metrics: &mut QueryMetrics,
    ) -> (r: Result<(), SparkXError>)
        requires
            old(self).wf(),
            old(memory).wf(),
            sent <= old(self).claim() <= old(memory)@.reserved,
            all_valid(batch_views(batches@)),
        ensures
            final(self).wf(),
            final(memory).wf(),
            final(self).cluster() == old(self).cluster(),
            final(self).done() == old(self).done(),
            ({
                let bytes = arrival_charge(batch_views(batches@));
                &&& outcome(r) == if bytes > sent {
                    growth_check(old(self).claim(), old(memory)@, (bytes - sent) as u64)
                } else {
                    Ok(())
                }
                &&& r is Ok ==> {
                    &&& final(metrics)@ == arrivals_metrics(
                        old(metrics)@,
                        batch_views(batches@),
                        batches.len() as int,
                    )
                    &&& final(self).partials() == old(self).partials() + batch_views(batches@)
                    &&& final(self).claim() == old(self).claim() - sent + bytes
                    &&& final(memory)@ == if bytes > sent {
                        old(memory)@.claimed((bytes - sent) as u64)
                    } else {
                        old(memory)@.returned((sent - bytes) as u64)
                    }
                }
                &&& r is Err ==> {
                    &&& final(metrics)@ == old(metrics)@
                    &&& final(self).partials() == old(self).partials()
                    &&& final(self).claim() == old(self).claim()
                    &&& final(memory)@ == old(memory)@
                }
            }),
    {
        let bytes: u64 = measure_arrival(&batches);
        match settle_shuffle(&mut self.reservation, memory, sent, bytes) {
            Ok(()) => {},
            Err(error) => return Err(error),
        }
        record_arrivals(&batches, metrics);
        let ghost first = batch_views(self.partials@);
        let ghost second = batch_views(batches@);
        let mut batches = batches;
        self.partials.append(&mut batches);
        proof {
            assert(batch_views(self.partials@) =~= first + second);
            assert forall|k: int| 0 <= k < (first + second).len() implies (
            #[trigger] (first + second)[k]).wf() by {
                if k < first.len() {
                    assert(first[k].wf());
                } else {
                    assert(second[k - first.len()].wf());
                }
            }
        }
        Ok(())
    }

    /// Merges what arrived, counts that as what the plan's operator put out, and gives the claim
    /// back.
    pub fn finish(
        self,
        plan: &PhysicalPlan,
        memory: &mut QueryMemory,
        metrics: &mut QueryMetrics,
    ) -> (r: Result<Batch, SparkXError>)
        requires
            self.wf(),
            old(memory).wf(),
            self.claim() <= old(memory)@.reserved,
        ensures
            final(memory).wf(),
            final(memory)@.limit == old(memory)@.limit,
            final(memory)@.reserved == old(memory)@.reserved - self.claim(),
            batch_outcome(r) == merge_step(plan@, self.partials(), old(memory)@),
            r is Ok ==> final(memory)@.peak == step_peak(plan@, self.partials(), old(memory)@),
            r matches Ok(batch) ==> batch.wf(),
            r matches Ok(batch) ==> final(metrics)@ == operator_metrics(
                old(metrics)@,
                plan@,
                Ok(seq![batch@]),
            ),
            r is Err ==> final(metrics)@ == old(metrics)@,
    {
        let ghost given = self.partials();
        proof {
            assert forall|i: int| 0 <= i < self.partials.len() implies (
            #[trigger] self.partials@[i]).wf() by {
                assert(given[i] == self.partials@[i]@);
                assert(given[i].wf());
            }
        }
        let r = match plan {
            PhysicalPlan::HashAggregate { group_exprs, aggregate_exprs, schema, .. } => {
                if is_mergeable(&self.partials, group_exprs.len(), aggregate_exprs, schema) {
                    merge_partials(
                        &self.partials,
                        group_exprs.len(),
                        aggregate_exprs,
                        schema,
                        memory,
                    )
                } else {
                    Err(misfit_error())
                }
            },
            _ => Err(misfit_error()),
        };
        self.reservation.release(memory);
        if let Ok(batch) = &r {
            proof {
                reveal_with_fuel(emitted, 2);
            }
            metrics.record_operator_output(plan.id(), "HashAggregate", batch.num_rows());
        }
        r
    }

    /// Gives up, and gives the claim back.
    pub fn abandon(self, memory: &mut QueryMemory)
        requires
            old(memory).wf(),
            self.claim() <= old(memory)@.reserved,
        ensures
            final(memory).wf(),
            final(memory)@.limit == old(memory)@.limit,
            final(memory)@.reserved == old(memory)@.reserved - self.claim(),
    {
        self.reservation.release(memory);
    }
}

} // verus!
