//! What a query did, in numbers.

use vstd::prelude::*;

verus! {

/// What one operator did.
#[derive(Debug, PartialEq, Eq)]
pub struct OperatorMetricsSnapshot {
    pub operator_id: u32,
    pub name: String,
    pub output_rows: u64,
    pub output_batches: u64,
    pub elapsed_ns: u64,
}

pub struct OperatorView {
    pub operator_id: u32,
    pub name: Seq<char>,
    pub output_rows: u64,
    pub output_batches: u64,
    pub elapsed_ns: u64,
}

impl View for OperatorMetricsSnapshot {
    type V = OperatorView;

    open spec fn view(&self) -> OperatorView {
        OperatorView {
            operator_id: self.operator_id,
            name: self.name@,
            output_rows: self.output_rows,
            output_batches: self.output_batches,
            elapsed_ns: self.elapsed_ns,
        }
    }
}

impl Clone for OperatorMetricsSnapshot {
    fn clone(&self) -> (r: Self)
        ensures
            r@ == self@,
    {
        OperatorMetricsSnapshot {
            operator_id: self.operator_id,
            name: self.name.clone(),
            output_rows: self.output_rows,
            output_batches: self.output_batches,
            elapsed_ns: self.elapsed_ns,
        }
    }
}

/// What a query did up to some moment. Operators stand in the order of their numbers.
#[derive(Debug, PartialEq, Eq)]
pub struct MetricsSnapshot {
    pub input_rows: u64,
    pub output_rows: u64,
    pub input_batches: u64,
    pub output_batches: u64,
    pub bytes_scanned: u64,
    pub shuffled_rows: u64,
    pub shuffled_bytes: u64,
    pub pruned_partitions: u64,
    pub tasks: u64,
    pub elapsed_ns: u64,
    pub memory_limit_bytes: u64,
    pub peak_memory_bytes: u64,
    pub operators: Vec<OperatorMetricsSnapshot>,
}

pub struct MetricsView {
    pub input_rows: u64,
    pub output_rows: u64,
    pub input_batches: u64,
    pub output_batches: u64,
    pub bytes_scanned: u64,
    pub shuffled_rows: u64,
    pub shuffled_bytes: u64,
    pub pruned_partitions: u64,
    pub tasks: u64,
    pub elapsed_ns: u64,
    pub memory_limit_bytes: u64,
    pub peak_memory_bytes: u64,
    pub operators: Seq<OperatorView>,
}

/// The views of a list of operators.
pub open spec fn operator_views(operators: Seq<OperatorMetricsSnapshot>) -> Seq<OperatorView> {
    Seq::new(operators.len(), |i: int| operators[i]@)
}

impl View for MetricsSnapshot {
    type V = MetricsView;

    open spec fn view(&self) -> MetricsView {
        MetricsView {
            input_rows: self.input_rows,
            output_rows: self.output_rows,
            input_batches: self.input_batches,
            output_batches: self.output_batches,
            bytes_scanned: self.bytes_scanned,
            shuffled_rows: self.shuffled_rows,
            shuffled_bytes: self.shuffled_bytes,
            pruned_partitions: self.pruned_partitions,
            tasks: self.tasks,
            elapsed_ns: self.elapsed_ns,
            memory_limit_bytes: self.memory_limit_bytes,
            peak_memory_bytes: self.peak_memory_bytes,
            operators: operator_views(self.operators@),
        }
    }
}

/// Addition on a counter: it starts again at zero past its last value.
pub open spec fn counted(counter: u64, more: nat) -> u64 {
    ((counter + more) % 0x1_0000_0000_0000_0000) as u64
}

fn count(counter: u64, more: u64) -> (r: u64)
    ensures
        r == counted(counter, more as nat),
{
    let sum: u128 = counter as u128 + more as u128;
    (sum % 0x1_0000_0000_0000_0000u128) as u64
}

/// An operator of which nothing was recorded yet.
pub open spec fn idle_operator(operator_id: u32, name: Seq<char>) -> OperatorView {
    OperatorView { operator_id, name, output_rows: 0, output_batches: 0, elapsed_ns: 0 }
}

/// The place among operators, in the order of their numbers, of the first at or after `from` that
/// does not come before `id`.
pub open spec fn operator_place(operators: Seq<OperatorView>, id: u32, from: int) -> int
    decreases operators.len() - from,
{
    if from >= operators.len() {
        from
    } else if operators[from].operator_id < id {
        operator_place(operators, id, from + 1)
    } else {
        from
    }
}

/// Operators with an entry for `id`, which is made where there is none.
pub open spec fn with_entry(operators: Seq<OperatorView>, id: u32, name: Seq<char>) -> Seq<
    OperatorView,
> {
    let at = operator_place(operators, id, 0);
    if at < operators.len() && operators[at].operator_id == id {
        operators
    } else {
        operators.insert(at, idle_operator(id, name))
    }
}

impl OperatorView {
    /// This entry with a batch of `rows` rows counted.
    pub open spec fn with_output(self, rows: nat) -> OperatorView {
        OperatorView {
            output_rows: counted(self.output_rows, rows),
            output_batches: counted(self.output_batches, 1),
            ..self
        }
    }

    /// This entry with some time added.
    pub open spec fn with_elapsed(self, elapsed_ns: nat) -> OperatorView {
        OperatorView { elapsed_ns: counted(self.elapsed_ns, elapsed_ns), ..self }
    }
}

impl MetricsView {
    /// These metrics with a batch of `rows` rows read.
    pub open spec fn with_input(self, rows: nat) -> MetricsView {
        MetricsView {
            input_rows: counted(self.input_rows, rows),
            input_batches: counted(self.input_batches, 1),
            ..self
        }
    }

    /// These metrics with a batch of `rows` rows put out.
    pub open spec fn with_output(self, rows: nat) -> MetricsView {
        MetricsView {
            output_rows: counted(self.output_rows, rows),
            output_batches: counted(self.output_batches, 1),
            ..self
        }
    }

    pub open spec fn with_scanned_bytes(self, bytes: u64) -> MetricsView {
        MetricsView { bytes_scanned: counted(self.bytes_scanned, bytes as nat), ..self }
    }

    pub open spec fn with_shuffled_rows(self, rows: nat) -> MetricsView {
        MetricsView { shuffled_rows: counted(self.shuffled_rows, rows), ..self }
    }

    pub open spec fn with_shuffled_bytes(self, bytes: u64) -> MetricsView {
        MetricsView { shuffled_bytes: counted(self.shuffled_bytes, bytes as nat), ..self }
    }

    pub open spec fn with_task(self) -> MetricsView {
        MetricsView { tasks: counted(self.tasks, 1), ..self }
    }

    /// The place of the entry of operator `id`.
    pub open spec fn entry_place(self, id: u32) -> int {
        operator_place(self.operators, id, 0)
    }

    /// These metrics with a batch of `rows` rows that operator `id` put out.
    pub open spec fn with_operator_output(self, id: u32, name: Seq<char>, rows: nat) -> MetricsView {
        let operators = with_entry(self.operators, id, name);
        let at = self.entry_place(id);
        MetricsView { operators: operators.update(at, operators[at].with_output(rows)), ..self }
    }

    /// These metrics with some time that operator `id` took.
    pub open spec fn with_operator_elapsed(
        self,
        id: u32,
        name: Seq<char>,
        elapsed_ns: nat,
    ) -> MetricsView {
        let operators = with_entry(self.operators, id, name);
        let at = self.entry_place(id);
        MetricsView {
            operators: operators.update(at, operators[at].with_elapsed(elapsed_ns)),
            ..self
        }
    }

    /// The metrics of a query that begins.
    pub open spec fn fresh() -> MetricsView {
        MetricsView {
            input_rows: 0,
            output_rows: 0,
            input_batches: 0,
            output_batches: 0,
            bytes_scanned: 0,
            shuffled_rows: 0,
            shuffled_bytes: 0,
            pruned_partitions: 0,
            tasks: 0,
            elapsed_ns: 0,
            memory_limit_bytes: 0,
            peak_memory_bytes: 0,
            operators: Seq::empty(),
        }
    }

    /// What holds of the metrics of every query: one entry for an operator, in order.
    pub open spec fn wf(self) -> bool {
        forall|i: int, j: int|
            0 <= i < j < self.operators.len() ==> (#[trigger] self.operators[i]).operator_id < (
            #[trigger] self.operators[j]).operator_id
    }

    pub open spec fn has_operator(self, id: u32) -> bool {
        exists|i: int| 0 <= i < self.operators.len() && (#[trigger] self.operators[i]).operator_id
            == id
    }

    /// What was recorded of operator `id`; its name is kept from the first record.
    pub open spec fn operator(self, id: u32, name: Seq<char>) -> OperatorView {
        if self.has_operator(id) {
            self.operators[choose|i: int|
                0 <= i < self.operators.len() && (#[trigger] self.operators[i]).operator_id == id]
        } else {
            idle_operator(id, name)
        }
    }

    /// Whether `next` is these metrics with the entry of `operator` replaced or added.
    pub open spec fn is_with_operator(self, operator: OperatorView, next: MetricsView) -> bool {
        &&& next == (MetricsView { operators: next.operators, ..self })
        &&& next.wf()
        &&& next.has_operator(operator.operator_id)
        &&& next.operator(operator.operator_id, operator.name) == operator
        &&& forall|id: u32|
            id != operator.operator_id ==> {
                &&& next.has_operator(id) == #[trigger] self.has_operator(id)
                &&& next.operator(id, Seq::empty()) == self.operator(id, Seq::empty())
            }
    }
}

/// The counters of a running query.
#[derive(Debug)]
pub struct QueryMetrics {
    counters: MetricsSnapshot,
}

impl View for QueryMetrics {
    type V = MetricsView;

    closed spec fn view(&self) -> MetricsView {
        self.counters@
    }
}

impl Default for QueryMetrics {
    fn default() -> (r: Self)
        ensures
            r@ == MetricsView::fresh(),
            r@.wf(),
    {
        let operators: Vec<OperatorMetricsSnapshot> = Vec::new();
        proof {
            assert(operator_views(operators@) =~= Seq::empty());
        }
        QueryMetrics {
            counters: MetricsSnapshot {
                input_rows: 0,
                output_rows: 0,
                input_batches: 0,
                output_batches: 0,
                bytes_scanned: 0,
                shuffled_rows: 0,
                shuffled_bytes: 0,
                pruned_partitions: 0,
                tasks: 0,
                elapsed_ns: 0,
                memory_limit_bytes: 0,
                peak_memory_bytes: 0,
                operators,
            },
        }
    }
}

impl QueryMetrics {
    /// Counts a batch of `rows` rows that was read.
    pub fn record_input(&mut self, rows: usize)
        ensures
            final(self)@ == old(self)@.with_input(rows as nat),
    {
        self.counters.input_rows = count(self.counters.input_rows, rows as u64);
        self.counters.input_batches = count(self.counters.input_batches, 1);
    }

    /// Counts a batch of `rows` rows that was put out.
    pub fn record_output(&mut self, rows: usize)
        ensures
            final(self)@ == old(self)@.with_output(rows as nat),
    {
        self.counters.output_rows = count(self.counters.output_rows, rows as u64);
        self.counters.output_batches = count(self.counters.output_batches, 1);
    }

    pub fn add_scanned_bytes(&mut self, bytes: u64)
        ensures
            final(self)@ == old(self)@.with_scanned_bytes(bytes),
    {
        self.counters.bytes_scanned = count(self.counters.bytes_scanned, bytes);
    }

    pub fn add_shuffled_rows(&mut self, rows: usize)
        ensures
            final(self)@ == old(self)@.with_shuffled_rows(rows as nat),
    {
        self.counters.shuffled_rows = count(self.counters.shuffled_rows, rows as u64);
    }

    pub fn add_shuffled_bytes(&mut self, bytes: u64)
        ensures
            final(self)@ == old(self)@.with_shuffled_bytes(bytes),
    {
        self.counters.shuffled_bytes = count(self.counters.shuffled_bytes, bytes);
    }

    pub fn add_pruned_partitions(&mut self, partitions: u64)
        ensures
            final(self)@ == (MetricsView {
                pruned_partitions: counted(old(self)@.pruned_partitions, partitions as nat),
                ..old(self)@
            }),
    {
        self.counters.pruned_partitions = count(self.counters.pruned_partitions, partitions);
    }

    pub fn add_task(&mut self)
        ensures
            final(self)@ == old(self)@.with_task(),
    {
        self.counters.tasks = count(self.counters.tasks, 1);
    }

    /// Notes how long the query took, in nanoseconds, of which the counter keeps the lower half.
    pub fn set_elapsed(&mut self, elapsed_ns: u128)
        ensures
            final(self)@ == (MetricsView {
                elapsed_ns: counted(0, elapsed_ns as nat),
                ..old(self)@
            }),
    {
        self.counters.elapsed_ns = (elapsed_ns % 0x1_0000_0000_0000_0000u128) as u64;
    }

    /// Notes the memory limit of the query and the most that it ever claimed.
    pub fn set_memory_usage(&mut self, limit_bytes: u64, peak_bytes: u64)
        ensures
            final(self)@ == (MetricsView {
                memory_limit_bytes: limit_bytes,
                peak_memory_bytes: peak_bytes,
                ..old(self)@
            }),
    {
        self.counters.memory_limit_bytes = limit_bytes;
        self.counters.peak_memory_bytes = peak_bytes;
    }

    /// The place of an operator's entry, which is made where there is none.
    fn operator_entry(&mut self, operator_id: u32, name: &str) -> (at: usize)
        ensures
            at == old(self)@.entry_place(operator_id),
            at < final(self)@.operators.len(),
            final(self)@ == (MetricsView {
                operators: with_entry(old(self)@.operators, operator_id, name@),
                ..old(self)@
            }),
    {
        let ghost before = self@;
        let count: usize = self.counters.operators.len();
        let mut at: usize = 0;
        while at < count && self.counters.operators[at].operator_id < operator_id
            invariant
                at <= count,
                self@ == before,
                count == before.operators.len(),
                before.entry_place(operator_id) == operator_place(
                    before.operators,
                    operator_id,
                    at as int,
                ),
            decreases count - at,
        {
            proof {
                assert(before.operators[at as int].operator_id < operator_id);
            }
            at += 1;
        }
        if at < count && self.counters.operators[at].operator_id == operator_id {
            proof {
                assert(before.operators[at as int].operator_id == operator_id);
            }
            return at;
        }
        self.counters.operators.insert(
            at,
            OperatorMetricsSnapshot {
                operator_id,
                name: name.to_owned(),
                output_rows: 0,
                output_batches: 0,
                elapsed_ns: 0,
            },
        );
        proof {
            if at < count {
                assert(before.operators[at as int].operator_id > operator_id);
            }
            assert(self@.operators =~= before.operators.insert(
                at as int,
                idle_operator(operator_id, name@),
            ));
        }
        at
    }

    /// Counts a batch of `rows` rows that an operator put out.
    pub fn record_operator_output(&mut self, operator_id: u32, name: &str, rows: usize)
        ensures
            final(self)@ == old(self)@.with_operator_output(operator_id, name@, rows as nat),
    {
        let at: usize = self.operator_entry(operator_id, name);
        let ghost between = self@;
        let rows_now: u64 = count(self.counters.operators[at].output_rows, rows as u64);
        let batches_now: u64 = count(self.counters.operators[at].output_batches, 1);
        self.counters.operators[at].output_rows = rows_now;
        self.counters.operators[at].output_batches = batches_now;
        proof {
            let changed = between.operators[at as int].with_output(rows as nat);
            assert(self@.operators =~= between.operators.update(at as int, changed));
        }
    }

    /// Adds to the time that an operator took, in nanoseconds.
    pub fn add_operator_elapsed(&mut self, operator_id: u32, name: &str, elapsed_ns: u128)
        ensures
            final(self)@ == old(self)@.with_operator_elapsed(
                operator_id,
                name@,
                counted(0, elapsed_ns as nat) as nat,
            ),
    {
        let at: usize = self.operator_entry(operator_id, name);
        let ghost between = self@;
        let more: u64 = (elapsed_ns % 0x1_0000_0000_0000_0000u128) as u64;
        let elapsed_now: u64 = count(self.counters.operators[at].elapsed_ns, more);
        self.counters.operators[at].elapsed_ns = elapsed_now;
        proof {
            let changed = between.operators[at as int].with_elapsed(more as nat);
            assert(self@.operators =~= between.operators.update(at as int, changed));
        }
    }

    /// What was recorded up to now.
    pub fn snapshot(&self) -> (r: MetricsSnapshot)
        ensures
            r@ == self@,
    {
        let mut operators: Vec<OperatorMetricsSnapshot> = Vec::new();
        for i in 0..self.counters.operators.len()
            invariant
                operators.len() == i,
                forall|k: int| 0 <= k < i ==> (#[trigger] operators@[k])@ == self@.operators[k],
        {
            operators.push(self.counters.operators[i].clone());
        }
        proof {
            assert(operator_views(operators@) =~= self@.operators);
        }
        MetricsSnapshot {
            input_rows: self.counters.input_rows,
            output_rows: self.counters.output_rows,
            input_batches: self.counters.input_batches,
            output_batches: self.counters.output_batches,
            bytes_scanned: self.counters.bytes_scanned,
            shuffled_rows: self.counters.shuffled_rows,
            shuffled_bytes: self.counters.shuffled_bytes,
            pruned_partitions: self.counters.pruned_partitions,
            tasks: self.counters.tasks,
            elapsed_ns: self.counters.elapsed_ns,
            memory_limit_bytes: self.counters.memory_limit_bytes,
            peak_memory_bytes: self.counters.peak_memory_bytes,
            operators,
        }
    }
}

/// A number names one operator.
proof fn operator_is(metrics: MetricsView, i: int)
    requires
        metrics.wf(),
        0 <= i < metrics.operators.len(),
    ensures
        metrics.has_operator(metrics.operators[i].operator_id),
        forall|name: Seq<char>| #[trigger]
            metrics.operator(metrics.operators[i].operator_id, name) == metrics.operators[i],
{
    let id = metrics.operators[i].operator_id;
    let j = choose|j: int|
        0 <= j < metrics.operators.len() && (#[trigger] metrics.operators[j]).operator_id == id;
    assert(metrics.operators[i].operator_id == id);
    if i < j {
        assert(metrics.operators[i].operator_id < metrics.operators[j].operator_id);
    } else if j < i {
        assert(metrics.operators[j].operator_id < metrics.operators[i].operator_id);
    }
}

/// Replacing an entry by one of the same number changes nothing for the others.
proof fn operator_changed(metrics: MetricsView, at: int, changed: OperatorView, next: MetricsView)
    requires
        metrics.wf(),
        0 <= at < metrics.operators.len(),
        changed.operator_id == metrics.operators[at].operator_id,
        next == (MetricsView { operators: metrics.operators.update(at, changed), ..metrics }),
    ensures
        next.wf(),
        next.has_operator(changed.operator_id),
        forall|name: Seq<char>| #[trigger] next.operator(changed.operator_id, name) == changed,
        forall|id: u32|
            id != changed.operator_id ==> {
                &&& next.has_operator(id) == #[trigger] metrics.has_operator(id)
                &&& next.operator(id, Seq::empty()) == metrics.operator(id, Seq::empty())
            },
{
    assert forall|i: int, j: int| 0 <= i < j < next.operators.len() implies (
    #[trigger] next.operators[i]).operator_id < (#[trigger] next.operators[j]).operator_id by {
        assert(metrics.operators[i].operator_id < metrics.operators[j].operator_id);
    }
    operator_is(next, at);
    assert forall|id: u32| id != changed.operator_id implies {
        &&& next.has_operator(id) == #[trigger] metrics.has_operator(id)
        &&& next.operator(id, Seq::empty()) == metrics.operator(id, Seq::empty())
    } by {
        if metrics.has_operator(id) {
            let i = choose|i: int|
                0 <= i < metrics.operators.len() && (#[trigger] metrics.operators[i]).operator_id
                    == id;
            assert(next.operators[i] == metrics.operators[i]);
            operator_is(next, i);
            operator_is(metrics, i);
        }
        if next.has_operator(id) {
            let i = choose|i: int|
                0 <= i < next.operators.len() && (#[trigger] next.operators[i]).operator_id == id;
            assert(metrics.operators[i] == next.operators[i]);
        }
    }
}

proof fn the_place_parts(operators: Seq<OperatorView>, id: u32, from: int)
    requires
        0 <= from <= operators.len(),
    ensures
        from <= operator_place(operators, id, from) <= operators.len(),
        forall|i: int|
            from <= i < operator_place(operators, id, from) ==> (
            #[trigger] operators[i]).operator_id < id,
        operator_place(operators, id, from) < operators.len() ==> operators[operator_place(
            operators,
            id,
            from,
        )].operator_id >= id,
    decreases operators.len() - from,
{
    if from < operators.len() && operators[from].operator_id < id {
        the_place_parts(operators, id, from + 1);
    }
}

/// Making an entry for an operator leaves those of the others as they are.
proof fn an_entry_is_made(metrics: MetricsView, id: u32, name: Seq<char>, next: MetricsView)
    requires
        metrics.wf(),
        next == (MetricsView { operators: with_entry(metrics.operators, id, name), ..metrics }),
    ensures
        metrics.entry_place(id) < next.operators.len(),
        next.operators[metrics.entry_place(id)] == metrics.operator(id, name),
        metrics.is_with_operator(metrics.operator(id, name), next),
{
    let at = metrics.entry_place(id);
    the_place_parts(metrics.operators, id, 0);
    if at < metrics.operators.len() && metrics.operators[at].operator_id == id {
        operator_is(metrics, at);
        assert(next == metrics);
        assert forall|other: u32| next.has_operator(other) == #[trigger] metrics.has_operator(
            other,
        ) by {}
    } else {
        if metrics.has_operator(id) {
            let i = choose|i: int|
                0 <= i < metrics.operators.len() && (#[trigger] metrics.operators[i]).operator_id
                    == id;
            if at < i {
                assert(metrics.operators[at].operator_id < metrics.operators[i].operator_id);
            }
        }
        assert forall|i: int, j: int| 0 <= i < j < next.operators.len() implies (
        #[trigger] next.operators[i]).operator_id < (#[trigger] next.operators[j]).operator_id by {
            if j < at {
                assert(metrics.operators[i].operator_id < metrics.operators[j].operator_id);
            } else if j == at {
                assert(next.operators[i] == metrics.operators[i]);
            } else {
                let later = metrics.operators[j - 1];
                assert(next.operators[j] == later);
                if i < at {
                    assert(metrics.operators[i].operator_id < later.operator_id);
                } else if i == at {
                    if at < j - 1 {
                        assert(metrics.operators[at].operator_id < later.operator_id);
                    }
                } else {
                    assert(metrics.operators[i - 1].operator_id < later.operator_id);
                }
            }
        }
        operator_is(next, at);
        assert forall|other: u32| other != id implies {
            &&& next.has_operator(other) == #[trigger] metrics.has_operator(other)
            &&& next.operator(other, Seq::empty()) == metrics.operator(other, Seq::empty())
        } by {
            if metrics.has_operator(other) {
                let i = choose|i: int|
                    0 <= i < metrics.operators.len() && (
                    #[trigger] metrics.operators[i]).operator_id == other;
                let j = if i < at {
                    i
                } else {
                    i + 1
                };
                assert(next.operators[j] == metrics.operators[i]);
                operator_is(next, j);
                operator_is(metrics, i);
            }
            if next.has_operator(other) {
                let j = choose|j: int|
                    0 <= j < next.operators.len() && (#[trigger] next.operators[j]).operator_id
                        == other;
                let i = if j < at {
                    j
                } else {
                    j - 1
                };
                assert(metrics.operators[i] == next.operators[j]);
            }
        }
    }
}

/// What is recorded of an operator is added to its own entry, which keeps the name that it had, and
/// to no other.
pub proof fn a_record_touches_one_operator(
    metrics: MetricsView,
    id: u32,
    name: Seq<char>,
    rows: nat,
    elapsed_ns: nat,
)
    requires
        metrics.wf(),
    ensures
        metrics.is_with_operator(
            metrics.operator(id, name).with_output(rows),
            metrics.with_operator_output(id, name, rows),
        ),
        metrics.is_with_operator(
            metrics.operator(id, name).with_elapsed(elapsed_ns),
            metrics.with_operator_elapsed(id, name, elapsed_ns),
        ),
{
    let between = MetricsView {
        operators: with_entry(metrics.operators, id, name),
        ..metrics
    };
    let at = metrics.entry_place(id);
    the_place_parts(metrics.operators, id, 0);
    an_entry_is_made(metrics, id, name, between);
    operator_is(between, at);
    let entry = metrics.operator(id, name);
    operator_changed(
        between,
        at,
        entry.with_output(rows),
        metrics.with_operator_output(id, name, rows),
    );
    operator_changed(
        between,
        at,
        entry.with_elapsed(elapsed_ns),
        metrics.with_operator_elapsed(id, name, elapsed_ns),
    );
    assert forall|other: u32| other != id implies {
        &&& metrics.with_operator_output(id, name, rows).has_operator(other)
            == #[trigger] metrics.has_operator(other)
        &&& metrics.with_operator_elapsed(id, name, elapsed_ns).has_operator(other)
            == metrics.has_operator(other)
        &&& metrics.with_operator_output(id, name, rows).operator(other, Seq::empty())
            == metrics.operator(other, Seq::empty())
        &&& metrics.with_operator_elapsed(id, name, elapsed_ns).operator(other, Seq::empty())
            == metrics.operator(other, Seq::empty())
    } by {
        assert(between.has_operator(other) == metrics.has_operator(other));
    }
}

} // verus!
