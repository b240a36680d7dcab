//! Messages between the coordinator and its workers, and what makes each of them valid.
//!
//! The messages are plain values. Whatever carries them turns bytes into these types and asks
//! [`CoordinatorMessage::validate`] or [`WorkerMessage::validate`] before it acts on one.

use crate::error::{outcome, ErrorView, SparkXError};
use crate::fragment::{fragment_size_check, validate_fragment_size};
use crate::text::{
    before, blank, byte_length, decimal, is_blank, join, numeral, relate, Relation,
};
use vstd::prelude::*;

verus! {

/// The protocol version that this build speaks.
pub const PROTOCOL_VERSION: u16 = 5;

/// The longest identifier, in bytes of UTF-8.
pub const MAX_ID_BYTES: usize = 128;

/// The error of a message that breaks the protocol.
pub open spec fn protocol_failure(message: Seq<char>) -> ErrorView {
    ErrorView::Protocol("invalid distributed protocol message: "@ + message)
}

pub(crate) fn protocol_error(message: &str) -> (r: SparkXError)
    ensures
        r@ == protocol_failure(message@),
{
    SparkXError::protocol(join("invalid distributed protocol message: ", message))
}

/// What is wrong with a textual identifier, if anything is.
pub open spec fn text_id_check(kind: Seq<char>, value: Seq<char>) -> Result<(), ErrorView> {
    if blank(value) {
        Err(protocol_failure(kind + " ID must not be empty"@))
    } else if byte_length(value) > MAX_ID_BYTES {
        Err(protocol_failure(kind + " ID must not exceed 128 bytes"@))
    } else {
        Ok(())
    }
}

fn validate_text_id(kind: &str, value: &str) -> (r: Result<(), SparkXError>)
    ensures
        outcome(r) == text_id_check(kind@, value@),
{
    if is_blank(value) {
        return Err(protocol_error(join(kind, " ID must not be empty").as_str()));
    }
    if value.as_bytes().len() > MAX_ID_BYTES {
        return Err(protocol_error(join(kind, " ID must not exceed 128 bytes").as_str()));
    }
    Ok(())
}

/// The name of a query.
#[derive(Debug, PartialEq, Eq, PartialOrd, Ord, Hash)]
pub struct QueryId(String);

impl View for QueryId {
    type V = Seq<char>;

    closed spec fn view(&self) -> Seq<char> {
        self.0@
    }
}

impl Clone for QueryId {
    fn clone(&self) -> (r: Self)
        ensures
            r@ == self@,
    {
        QueryId(self.0.clone())
    }
}

impl QueryId {
    /// An identifier with the text `value`, where that text is not blank and not too long.
    pub fn new(value: &str) -> (r: Result<Self, SparkXError>)
        ensures
            match r {
                Ok(id) => id@ == value@ && text_id_check("query"@, value@) is Ok,
                Err(error) => text_id_check("query"@, value@) == Err::<(), _>(error@),
            },
    {
        match validate_text_id("query", value) {
            Ok(()) => Ok(QueryId(value.to_owned())),
            Err(error) => Err(error),
        }
    }

    /// An identifier as it came over the wire. Message validation tells whether it is sound.
    pub fn unchecked(value: String) -> (r: Self)
        ensures
            r@ == value@,
    {
        QueryId(value)
    }

    pub fn as_str(&self) -> (r: &str)
        ensures
            r@ == self@,
    {
        self.0.as_str()
    }

    /// How this identifier stands to `other` in the order of strings.
    pub fn relate(&self, other: &QueryId) -> (r: Relation)
        ensures
            r == Relation::Less <==> before(self@, other@),
            r == Relation::Same <==> self@ == other@,
            r == Relation::Greater <==> before(other@, self@),
    {
        relate(self.0.as_str(), other.0.as_str())
    }

    pub fn same(&self, other: &QueryId) -> (r: bool)
        ensures
            r == (self@ == other@),
    {
        self.0 == other.0
    }

    fn validate(&self) -> (r: Result<(), SparkXError>)
        ensures
            outcome(r) == text_id_check("query"@, self@),
    {
        validate_text_id("query", self.0.as_str())
    }
}

/// The name of a worker.
#[derive(Debug, PartialEq, Eq, PartialOrd, Ord, Hash)]
pub struct WorkerId(String);

impl View for WorkerId {
    type V = Seq<char>;

    closed spec fn view(&self) -> Seq<char> {
        self.0@
    }
}

impl Clone for WorkerId {
    fn clone(&self) -> (r: Self)
        ensures
            r@ == self@,
    {
        WorkerId(self.0.clone())
    }
}

impl WorkerId {
    /// An identifier with the text `value`, where that text is not blank and not too long.
    pub fn new(value: &str) -> (r: Result<Self, SparkXError>)
        ensures
            match r {
                Ok(id) => id@ == value@ && text_id_check("worker"@, value@) is Ok,
                Err(error) => text_id_check("worker"@, value@) == Err::<(), _>(error@),
            },
    {
        match validate_text_id("worker", value) {
            Ok(()) => Ok(WorkerId(value.to_owned())),
            Err(error) => Err(error),
        }
    }

    /// An identifier as it came over the wire. Message validation tells whether it is sound.
    pub fn unchecked(value: String) -> (r: Self)
        ensures
            r@ == value@,
    {
        WorkerId(value)
    }

    pub fn as_str(&self) -> (r: &str)
        ensures
            r@ == self@,
    {
        self.0.as_str()
    }

    /// How this identifier stands to `other` in the order of strings.
    pub fn relate(&self, other: &WorkerId) -> (r: Relation)
        ensures
            r == Relation::Less <==> before(self@, other@),
            r == Relation::Same <==> self@ == other@,
            r == Relation::Greater <==> before(other@, self@),
    {
        relate(self.0.as_str(), other.0.as_str())
    }

    pub fn same(&self, other: &WorkerId) -> (r: bool)
        ensures
            r == (self@ == other@),
    {
        self.0 == other.0
    }

    fn validate(&self) -> (r: Result<(), SparkXError>)
        ensures
            outcome(r) == text_id_check("worker"@, self@),
    {
        validate_text_id("worker", self.0.as_str())
    }
}

/// The number of a stage within its query.
#[derive(Debug, Clone, Copy, PartialEq, Eq, PartialOrd, Ord, Hash, Structural)]
pub struct StageId(pub u32);

/// The number of a partition within its stage.
#[derive(Debug, Clone, Copy, PartialEq, Eq, PartialOrd, Ord, Hash, Structural)]
pub struct PartitionId(pub u32);

/// How a stage spreads its rows over output partitions: by a hash of some of its columns.
#[derive(Debug, PartialEq, Eq)]
pub struct HashExchange {
    pub columns: Vec<usize>,
    pub partition_count: u32,
}

pub struct HashExchangeView {
    pub columns: Seq<usize>,
    pub partition_count: u32,
}

impl View for HashExchange {
    type V = HashExchangeView;

    open spec fn view(&self) -> HashExchangeView {
        HashExchangeView { columns: self.columns@, partition_count: self.partition_count }
    }
}

impl Clone for HashExchange {
    fn clone(&self) -> (r: Self)
        ensures
            r@ == self@,
    {
        let columns = self.columns.clone();
        proof {
            assert(columns@ =~= self.columns@);
        }
        HashExchange { columns, partition_count: self.partition_count }
    }
}

/// One stage of a query: a plan fragment that runs once for each of its partitions.
#[derive(Debug, PartialEq, Eq)]
pub struct StagePlan {
    pub query_id: QueryId,
    pub stage_id: StageId,
    /// The stages whose output this one reads.
    pub input_stages: Vec<StageId>,
    pub partition_count: u32,
    /// An encoded physical plan.
    pub plan_fragment: Vec<u8>,
    /// How the output is spread over partitions, where it is.
    pub output_exchange: Option<HashExchange>,
    /// Whether a partition reads only the input blocks of its own number.
    pub partitioned_input: bool,
}

pub struct StagePlanView {
    pub query_id: Seq<char>,
    pub stage_id: StageId,
    pub input_stages: Seq<StageId>,
    pub partition_count: u32,
    pub plan_fragment: Seq<u8>,
    pub output_exchange: Option<HashExchangeView>,
    pub partitioned_input: bool,
}

impl View for StagePlan {
    type V = StagePlanView;

    open spec fn view(&self) -> StagePlanView {
        StagePlanView {
            query_id: self.query_id@,
            stage_id: self.stage_id,
            input_stages: self.input_stages@,
            partition_count: self.partition_count,
            plan_fragment: self.plan_fragment@,
            output_exchange: match self.output_exchange {
                Some(exchange) => Some(exchange@),
                None => None,
            },
            partitioned_input: self.partitioned_input,
        }
    }
}

impl Clone for StagePlan {
    fn clone(&self) -> (r: Self)
        ensures
            r@ == self@,
    {
        let input_stages = self.input_stages.clone();
        let plan_fragment = self.plan_fragment.clone();
        let output_exchange = match &self.output_exchange {
            Some(exchange) => Some(exchange.clone()),
            None => None,
        };
        proof {
            assert(input_stages@ =~= self.input_stages@);
            assert(plan_fragment@ =~= self.plan_fragment@);
        }
        StagePlan {
            query_id: self.query_id.clone(),
            stage_id: self.stage_id,
            input_stages,
            partition_count: self.partition_count,
            plan_fragment,
            output_exchange,
            partitioned_input: self.partitioned_input,
        }
    }
}

/// What is wrong with the first `count` dependencies of a stage, if anything is: the first of them
/// that is the stage itself or occurs before.
pub open spec fn dependency_check(stage: StageId, dependencies: Seq<StageId>, count: int) -> Result<
    (),
    ErrorView,
>
    decreases count,
{
    if count <= 0 {
        Ok(())
    } else {
        let earlier = dependency_check(stage, dependencies, count - 1);
        if earlier is Err {
            earlier
        } else if dependencies[count - 1] == stage {
            Err(protocol_failure("stage cannot depend on itself"@))
        } else if dependencies.take(count - 1).contains(dependencies[count - 1]) {
            Err(protocol_failure("stage dependencies must be unique"@))
        } else {
            Ok(())
        }
    }
}

impl StagePlanView {
    /// What is wrong with a stage, if anything is.
    pub open spec fn check(self) -> Result<(), ErrorView> {
        if text_id_check("query"@, self.query_id) is Err {
            text_id_check("query"@, self.query_id)
        } else if self.partition_count == 0 {
            Err(protocol_failure("stage partition count must be greater than zero"@))
        } else if fragment_size_check(self.plan_fragment.len()) is Err {
            fragment_size_check(self.plan_fragment.len())
        } else {
            dependency_check(self.stage_id, self.input_stages, self.input_stages.len() as int)
        }
    }
}

pub(crate) proof fn dependency_check_fails_on(
    stage: StageId,
    dependencies: Seq<StageId>,
    count: int,
    full: int,
)
    requires
        0 <= count <= full,
        dependency_check(stage, dependencies, count) is Err,
    ensures
        dependency_check(stage, dependencies, full) == dependency_check(stage, dependencies, count),
    decreases full - count,
{
    if count < full {
        dependency_check_fails_on(stage, dependencies, count, full - 1);
    }
}

impl StagePlan {
    /// Checks the identifier, the partition count, the size of the fragment and the dependencies,
    /// in that order. The fragment itself is checked where it is decoded.
    pub fn validate(&self) -> (r: Result<(), SparkXError>)
        ensures
            outcome(r) == self@.check(),
    {
        match self.query_id.validate() {
            Ok(()) => {},
            Err(error) => return Err(error),
        }
        if self.partition_count == 0 {
            return Err(protocol_error("stage partition count must be greater than zero"));
        }
        match validate_fragment_size(self.plan_fragment.len()) {
            Ok(()) => {},
            Err(error) => return Err(error),
        }
        let count: usize = self.input_stages.len();
        let mut i: usize = 0;
        while i < count
            invariant
                i <= count,
                count == self.input_stages.len(),
                dependency_check(self.stage_id, self.input_stages@, i as int) is Ok,
                self@.check() == dependency_check(
                    self.stage_id,
                    self.input_stages@,
                    count as int,
                ),
            decreases count - i,
        {
            let dependency = self.input_stages[i];
            if dependency == self.stage_id {
                proof {
                    dependency_check_fails_on(
                        self.stage_id,
                        self.input_stages@,
                        i + 1,
                        count as int,
                    );
                }
                return Err(protocol_error("stage cannot depend on itself"));
            }
            let mut j: usize = 0;
            while j < i
                invariant
                    j <= i < count,
                    count == self.input_stages.len(),
                    dependency == self.input_stages@[i as int],
                    dependency != self.stage_id,
                    dependency_check(self.stage_id, self.input_stages@, i as int) is Ok,
                    self@.check() == dependency_check(
                        self.stage_id,
                        self.input_stages@,
                        count as int,
                    ),
                    forall|k: int| 0 <= k < j ==> self.input_stages@[k] != dependency,
                decreases i - j,
            {
                if self.input_stages[j] == dependency {
                    proof {
                        assert(self.input_stages@.take(i as int)[j as int] == dependency);
                        dependency_check_fails_on(
                            self.stage_id,
                            self.input_stages@,
                            i + 1,
                            count as int,
                        );
                    }
                    return Err(protocol_error("stage dependencies must be unique"));
                }
                j += 1;
            }
            i += 1;
        }
        Ok(())
    }
}

/// One attempt at one partition of a stage.
#[derive(Debug, PartialEq, Eq)]
pub struct TaskAttemptId {
    pub query_id: QueryId,
    pub stage_id: StageId,
    pub partition_id: PartitionId,
    pub attempt: u32,
}

pub struct TaskAttemptView {
    pub query_id: Seq<char>,
    pub stage_id: StageId,
    pub partition_id: PartitionId,
    pub attempt: u32,
}

impl View for TaskAttemptId {
    type V = TaskAttemptView;

    open spec fn view(&self) -> TaskAttemptView {
        TaskAttemptView {
            query_id: self.query_id@,
            stage_id: self.stage_id,
            partition_id: self.partition_id,
            attempt: self.attempt,
        }
    }
}

impl Clone for TaskAttemptId {
    fn clone(&self) -> (r: Self)
        ensures
            r@ == self@,
    {
        TaskAttemptId {
            query_id: self.query_id.clone(),
            stage_id: self.stage_id,
            partition_id: self.partition_id,
            attempt: self.attempt,
        }
    }
}

impl TaskAttemptView {
    /// What keeps an attempt from belonging to a stage, if anything does.
    pub open spec fn check_for(self, stage: StagePlanView) -> Result<(), ErrorView> {
        if text_id_check("query"@, self.query_id) is Err {
            text_id_check("query"@, self.query_id)
        } else if self.query_id != stage.query_id {
            Err(protocol_failure("task query does not match its stage"@))
        } else if self.stage_id != stage.stage_id {
            Err(protocol_failure("task stage does not match its stage plan"@))
        } else if self.partition_id.0 >= stage.partition_count {
            Err(
                protocol_failure(
                    "task partition "@ + numeral(self.partition_id.0 as nat)
                        + " is outside stage partition count "@ + numeral(
                        stage.partition_count as nat,
                    ),
                ),
            )
        } else {
            Ok(())
        }
    }
}

impl TaskAttemptId {
    /// Checks that this attempt is one at a partition of `stage`.
    pub fn validate_for(&self, stage: &StagePlan) -> (r: Result<(), SparkXError>)
        ensures
            outcome(r) == self@.check_for(stage@),
    {
        match self.query_id.validate() {
            Ok(()) => {},
            Err(error) => return Err(error),
        }
        if !self.query_id.same(&stage.query_id) {
            return Err(protocol_error("task query does not match its stage"));
        }
        if self.stage_id != stage.stage_id {
            return Err(protocol_error("task stage does not match its stage plan"));
        }
        if self.partition_id.0 >= stage.partition_count {
            let mut message: String = "task partition ".to_owned();
            message.append(decimal(self.partition_id.0 as u64).as_str());
            message.append(" is outside stage partition count ");
            message.append(decimal(stage.partition_count as u64).as_str());
            return Err(protocol_error(message.as_str()));
        }
        Ok(())
    }

    /// Checks the identifier of the query that this attempt belongs to.
    pub fn validate(&self) -> (r: Result<(), SparkXError>)
        ensures
            outcome(r) == text_id_check("query"@, self@.query_id),
    {
        self.query_id.validate()
    }

    pub fn same(&self, other: &TaskAttemptId) -> (r: bool)
        ensures
            r == (self@ == other@),
    {
        self.query_id.same(&other.query_id) && self.stage_id == other.stage_id && self.partition_id
            == other.partition_id && self.attempt == other.attempt
    }
}

/// A worker's claim on a task, for a span of the coordinator's time.
#[derive(Debug, PartialEq, Eq)]
pub struct TaskLease {
    pub worker_id: WorkerId,
    pub issued_at_ms: u64,
    pub expires_at_ms: u64,
}

pub struct TaskLeaseView {
    pub worker_id: Seq<char>,
    pub issued_at_ms: u64,
    pub expires_at_ms: u64,
}

impl View for TaskLease {
    type V = TaskLeaseView;

    open spec fn view(&self) -> TaskLeaseView {
        TaskLeaseView {
            worker_id: self.worker_id@,
            issued_at_ms: self.issued_at_ms,
            expires_at_ms: self.expires_at_ms,
        }
    }
}

impl Clone for TaskLease {
    fn clone(&self) -> (r: Self)
        ensures
            r@ == self@,
    {
        TaskLease {
            worker_id: self.worker_id.clone(),
            issued_at_ms: self.issued_at_ms,
            expires_at_ms: self.expires_at_ms,
        }
    }
}

impl TaskLeaseView {
    /// What is wrong with a lease, if anything is.
    pub open spec fn check(self) -> Result<(), ErrorView> {
        if text_id_check("worker"@, self.worker_id) is Err {
            text_id_check("worker"@, self.worker_id)
        } else if self.expires_at_ms <= self.issued_at_ms {
            Err(protocol_failure("task lease must expire after it is issued"@))
        } else {
            Ok(())
        }
    }
}

impl TaskLease {
    pub fn validate(&self) -> (r: Result<(), SparkXError>)
        ensures
            outcome(r) == self@.check(),
    {
        match self.worker_id.validate() {
            Ok(()) => {},
            Err(error) => return Err(error),
        }
        if self.expires_at_ms <= self.issued_at_ms {
            return Err(protocol_error("task lease must expire after it is issued"));
        }
        Ok(())
    }
}

/// Where the rows of a block can be had.
#[derive(Debug, PartialEq, Eq)]
pub enum ShuffleLocation {
    /// In the memory of a worker.
    Worker { worker_id: WorkerId },
    /// From the Flight service of a worker, against a ticket.
    Flight { worker_id: WorkerId, endpoint: String, ticket: String },
    /// In an object store.
    ObjectStore { uri: String },
}

pub enum ShuffleLocationView {
    Worker { worker_id: Seq<char> },
    Flight { worker_id: Seq<char>, endpoint: Seq<char>, ticket: Seq<char> },
    ObjectStore { uri: Seq<char> },
}

impl View for ShuffleLocation {
    type V = ShuffleLocationView;

    open spec fn view(&self) -> ShuffleLocationView {
        match self {
            ShuffleLocation::Worker { worker_id } => ShuffleLocationView::Worker {
                worker_id: worker_id@,
            },
            ShuffleLocation::Flight { worker_id, endpoint, ticket } => ShuffleLocationView::Flight {
                worker_id: worker_id@,
                endpoint: endpoint@,
                ticket: ticket@,
            },
            ShuffleLocation::ObjectStore { uri } => ShuffleLocationView::ObjectStore { uri: uri@ },
        }
    }
}

impl Clone for ShuffleLocation {
    fn clone(&self) -> (r: Self)
        ensures
            r@ == self@,
    {
        match self {
            ShuffleLocation::Worker { worker_id } => ShuffleLocation::Worker {
                worker_id: worker_id.clone(),
            },
            ShuffleLocation::Flight { worker_id, endpoint, ticket } => ShuffleLocation::Flight {
                worker_id: worker_id.clone(),
                endpoint: endpoint.clone(),
                ticket: ticket.clone(),
            },
            ShuffleLocation::ObjectStore { uri } => ShuffleLocation::ObjectStore {
                uri: uri.clone(),
            },
        }
    }
}

impl ShuffleLocationView {
    /// What keeps a worker from reporting a block at this place, if anything does.
    pub open spec fn check_for(self, reporting_worker: Seq<char>) -> Result<(), ErrorView> {
        match self {
            ShuffleLocationView::Worker { worker_id } => owner_check(worker_id, reporting_worker),
            ShuffleLocationView::Flight { worker_id, endpoint, ticket } => {
                if owner_check(worker_id, reporting_worker) is Err {
                    owner_check(worker_id, reporting_worker)
                } else if blank(endpoint) {
                    Err(protocol_failure("shuffle Flight endpoint must not be empty"@))
                } else if blank(ticket) {
                    Err(protocol_failure("shuffle Flight ticket must not be empty"@))
                } else {
                    Ok(())
                }
            },
            ShuffleLocationView::ObjectStore { uri } => {
                if blank(uri) {
                    Err(protocol_failure("shuffle object-store location must not be empty"@))
                } else {
                    Ok(())
                }
            },
        }
    }
}

/// What keeps `owner` from being the worker that reports a block, if anything does.
pub open spec fn owner_check(owner: Seq<char>, reporting_worker: Seq<char>) -> Result<
    (),
    ErrorView,
> {
    if text_id_check("worker"@, owner) is Err {
        text_id_check("worker"@, owner)
    } else if owner != reporting_worker {
        Err(
            protocol_failure(
                "in-memory shuffle block must be owned by the reporting worker"@,
            ),
        )
    } else {
        Ok(())
    }
}

fn validate_owner(owner: &WorkerId, reporting_worker: &WorkerId) -> (r: Result<(), SparkXError>)
    ensures
        outcome(r) == owner_check(owner@, reporting_worker@),
{
    match owner.validate() {
        Ok(()) => {},
        Err(error) => return Err(error),
    }
    if !owner.same(reporting_worker) {
        return Err(
            protocol_error("in-memory shuffle block must be owned by the reporting worker"),
        );
    }
    Ok(())
}

/// One block of a task's output.
#[derive(Debug, PartialEq, Eq)]
pub struct ShuffleBlock {
    pub producer: TaskAttemptId,
    pub output_partition: PartitionId,
    pub rows: u64,
    pub bytes: u64,
    pub checksum: String,
    pub location: ShuffleLocation,
}

pub struct ShuffleBlockView {
    pub producer: TaskAttemptView,
    pub output_partition: PartitionId,
    pub rows: u64,
    pub bytes: u64,
    pub checksum: Seq<char>,
    pub location: ShuffleLocationView,
}

impl View for ShuffleBlock {
    type V = ShuffleBlockView;

    open spec fn view(&self) -> ShuffleBlockView {
        ShuffleBlockView {
            producer: self.producer@,
            output_partition: self.output_partition,
            rows: self.rows,
            bytes: self.bytes,
            checksum: self.checksum@,
            location: self.location@,
        }
    }
}

impl Clone for ShuffleBlock {
    fn clone(&self) -> (r: Self)
        ensures
            r@ == self@,
    {
        ShuffleBlock {
            producer: self.producer.clone(),
            output_partition: self.output_partition,
            rows: self.rows,
            bytes: self.bytes,
            checksum: self.checksum.clone(),
            location: self.location.clone(),
        }
    }
}

impl ShuffleBlockView {
    /// What keeps a block from being output of `task` on `reporting_worker`, if anything does.
    pub open spec fn check_for(
        self,
        task: TaskAttemptView,
        reporting_worker: Seq<char>,
    ) -> Result<(), ErrorView> {
        if self.producer != task {
            Err(protocol_failure("shuffle block producer does not match task update"@))
        } else if blank(self.checksum) {
            Err(protocol_failure("shuffle block checksum must not be empty"@))
        } else {
            self.location.check_for(reporting_worker)
        }
    }
}

impl ShuffleBlock {
    fn validate_for(&self, task: &TaskAttemptId, reporting_worker: &WorkerId) -> (r: Result<
        (),
        SparkXError,
    >)
        ensures
            outcome(r) == self@.check_for(task@, reporting_worker@),
    {
        if !self.producer.same(task) {
            return Err(protocol_error("shuffle block producer does not match task update"));
        }
        if is_blank(self.checksum.as_str()) {
            return Err(protocol_error("shuffle block checksum must not be empty"));
        }
        match &self.location {
            ShuffleLocation::Worker { worker_id } => validate_owner(worker_id, reporting_worker),
            ShuffleLocation::Flight { worker_id, endpoint, ticket } => {
                match validate_owner(worker_id, reporting_worker) {
                    Ok(()) => {},
                    Err(error) => return Err(error),
                }
                if is_blank(endpoint.as_str()) {
                    return Err(protocol_error("shuffle Flight endpoint must not be empty"));
                }
                if is_blank(ticket.as_str()) {
                    return Err(protocol_error("shuffle Flight ticket must not be empty"));
                }
                Ok(())
            },
            ShuffleLocation::ObjectStore { uri } => {
                if is_blank(uri.as_str()) {
                    return Err(protocol_error("shuffle object-store location must not be empty"));
                }
                Ok(())
            },
        }
    }
}

/// The views of a list of blocks.
pub open spec fn block_views(blocks: Seq<ShuffleBlock>) -> Seq<ShuffleBlockView> {
    Seq::new(blocks.len(), |i: int| blocks[i]@)
}

/// A copy of a list of blocks.
pub fn clone_blocks(blocks: &Vec<ShuffleBlock>) -> (r: Vec<ShuffleBlock>)
    ensures
        block_views(r@) == block_views(blocks@),
{
    let mut r: Vec<ShuffleBlock> = Vec::new();
    for i in 0..blocks.len()
        invariant
            r.len() == i,
            forall|k: int| 0 <= k < i ==> (#[trigger] r@[k])@ == blocks@[k]@,
    {
        r.push(blocks[i].clone());
    }
    proof {
        assert(block_views(r@) =~= block_views(blocks@));
    }
    r
}

/// What a worker reports of a task.
#[derive(Debug, PartialEq, Eq)]
pub enum TaskState {
    Running { started_at_ms: u64 },
    Succeeded { finished_at_ms: u64, output_blocks: Vec<ShuffleBlock> },
    Failed { finished_at_ms: u64, error: String, retryable: bool },
    Cancelled { finished_at_ms: u64, reason: String },
}

pub enum TaskStateView {
    Running { started_at_ms: u64 },
    Succeeded { finished_at_ms: u64, output_blocks: Seq<ShuffleBlockView> },
    Failed { finished_at_ms: u64, error: Seq<char>, retryable: bool },
    Cancelled { finished_at_ms: u64, reason: Seq<char> },
}

impl View for TaskState {
    type V = TaskStateView;

    open spec fn view(&self) -> TaskStateView {
        match self {
            TaskState::Running { started_at_ms } => TaskStateView::Running {
                started_at_ms: *started_at_ms,
            },
            TaskState::Succeeded { finished_at_ms, output_blocks } => TaskStateView::Succeeded {
                finished_at_ms: *finished_at_ms,
                output_blocks: block_views(output_blocks@),
            },
            TaskState::Failed { finished_at_ms, error, retryable } => TaskStateView::Failed {
                finished_at_ms: *finished_at_ms,
                error: error@,
                retryable: *retryable,
            },
            TaskState::Cancelled { finished_at_ms, reason } => TaskStateView::Cancelled {
                finished_at_ms: *finished_at_ms,
                reason: reason@,
            },
        }
    }
}

impl Clone for TaskState {
    fn clone(&self) -> (r: Self)
        ensures
            r@ == self@,
    {
        match self {
            TaskState::Running { started_at_ms } => TaskState::Running {
                started_at_ms: *started_at_ms,
            },
            TaskState::Succeeded { finished_at_ms, output_blocks } => TaskState::Succeeded {
                finished_at_ms: *finished_at_ms,
                output_blocks: clone_blocks(output_blocks),
            },
            TaskState::Failed { finished_at_ms, error, retryable } => TaskState::Failed {
                finished_at_ms: *finished_at_ms,
                error: error.clone(),
                retryable: *retryable,
            },
            TaskState::Cancelled { finished_at_ms, reason } => TaskState::Cancelled {
                finished_at_ms: *finished_at_ms,
                reason: reason.clone(),
            },
        }
    }
}

/// What is wrong with the first of the blocks that a task cannot have put out, if there is one.
pub open spec fn blocks_check(
    blocks: Seq<ShuffleBlockView>,
    task: TaskAttemptView,
    worker: Seq<char>,
) -> Result<(), ErrorView>
    decreases blocks.len(),
{
    if blocks.len() == 0 {
        Ok(())
    } else if blocks[0].check_for(task, worker) is Err {
        blocks[0].check_for(task, worker)
    } else {
        blocks_check(blocks.drop_first(), task, worker)
    }
}

impl TaskStateView {
    /// What keeps `worker` from reporting this state of `task`, if anything does.
    pub open spec fn check_for(self, task: TaskAttemptView, worker: Seq<char>) -> Result<
        (),
        ErrorView,
    > {
        match self {
            TaskStateView::Running { .. } => Ok(()),
            TaskStateView::Succeeded { output_blocks, .. } => blocks_check(
                output_blocks,
                task,
                worker,
            ),
            TaskStateView::Failed { error, .. } => {
                if blank(error) {
                    Err(protocol_failure("failed task must include an error"@))
                } else {
                    Ok(())
                }
            },
            TaskStateView::Cancelled { reason, .. } => {
                if blank(reason) {
                    Err(protocol_failure("cancelled task must include a reason"@))
                } else {
                    Ok(())
                }
            },
        }
    }
}

impl TaskState {
    fn validate_for(&self, task: &TaskAttemptId, worker_id: &WorkerId) -> (r: Result<
        (),
        SparkXError,
    >)
        ensures
            outcome(r) == self@.check_for(task@, worker_id@),
    {
        match self {
            TaskState::Running { .. } => Ok(()),
            TaskState::Succeeded { output_blocks, .. } => {
                let ghost views = block_views(output_blocks@);
                proof {
                    assert(views.skip(0) =~= views);
                }
                for i in 0..output_blocks.len()
                    invariant
                        views == block_views(output_blocks@),
                        self@.check_for(task@, worker_id@) == blocks_check(
                            views,
                            task@,
                            worker_id@,
                        ),
                        blocks_check(views, task@, worker_id@) == blocks_check(
                            views.skip(i as int),
                            task@,
                            worker_id@,
                        ),
                {
                    proof {
                        assert(views.skip(i as int)[0] == output_blocks@[i as int]@);
                        assert(views.skip(i as int).drop_first() =~= views.skip(i + 1));
                    }
                    match output_blocks[i].validate_for(task, worker_id) {
                        Ok(()) => {},
                        Err(error) => return Err(error),
                    }
                }
                Ok(())
            },
            TaskState::Failed { error, .. } => {
                if is_blank(error.as_str()) {
                    return Err(protocol_error("failed task must include an error"));
                }
                Ok(())
            },
            TaskState::Cancelled { reason, .. } => {
                if is_blank(reason.as_str()) {
                    return Err(protocol_error("cancelled task must include a reason"));
                }
                Ok(())
            },
        }
    }
}

/// What a worker offers when it joins.
#[derive(Debug, PartialEq, Eq)]
pub struct WorkerRegistration {
    pub worker_id: WorkerId,
    pub slots: u32,
    pub memory_bytes: u64,
}

pub struct WorkerRegistrationView {
    pub worker_id: Seq<char>,
    pub slots: u32,
    pub memory_bytes: u64,
}

impl View for WorkerRegistration {
    type V = WorkerRegistrationView;

    open spec fn view(&self) -> WorkerRegistrationView {
        WorkerRegistrationView {
            worker_id: self.worker_id@,
            slots: self.slots,
            memory_bytes: self.memory_bytes,
        }
    }
}

impl Clone for WorkerRegistration {
    fn clone(&self) -> (r: Self)
        ensures
            r@ == self@,
    {
        WorkerRegistration {
            worker_id: self.worker_id.clone(),
            slots: self.slots,
            memory_bytes: self.memory_bytes,
        }
    }
}

impl WorkerRegistrationView {
    /// What is wrong with a registration, if anything is.
    pub open spec fn check(self) -> Result<(), ErrorView> {
        if text_id_check("worker"@, self.worker_id) is Err {
            text_id_check("worker"@, self.worker_id)
        } else if self.slots == 0 {
            Err(protocol_failure("worker must advertise at least one slot"@))
        } else if self.memory_bytes == 0 {
            Err(protocol_failure("worker must advertise non-zero memory"@))
        } else {
            Ok(())
        }
    }
}

impl WorkerRegistration {
    fn validate(&self) -> (r: Result<(), SparkXError>)
        ensures
            outcome(r) == self@.check(),
    {
        match self.worker_id.validate() {
            Ok(()) => {},
            Err(error) => return Err(error),
        }
        if self.slots == 0 {
            return Err(protocol_error("worker must advertise at least one slot"));
        }
        if self.memory_bytes == 0 {
            return Err(protocol_error("worker must advertise non-zero memory"));
        }
        Ok(())
    }
}

/// A worker's sign of life.
#[derive(Debug, PartialEq, Eq)]
pub struct WorkerHeartbeat {
    pub worker_id: WorkerId,
    pub observed_at_ms: u64,
    pub available_slots: u32,
    pub available_memory_bytes: u64,
}

pub struct WorkerHeartbeatView {
    pub worker_id: Seq<char>,
    pub observed_at_ms: u64,
    pub available_slots: u32,
    pub available_memory_bytes: u64,
}

impl View for WorkerHeartbeat {
    type V = WorkerHeartbeatView;

    open spec fn view(&self) -> WorkerHeartbeatView {
        WorkerHeartbeatView {
            worker_id: self.worker_id@,
            observed_at_ms: self.observed_at_ms,
            available_slots: self.available_slots,
            available_memory_bytes: self.available_memory_bytes,
        }
    }
}

impl Clone for WorkerHeartbeat {
    fn clone(&self) -> (r: Self)
        ensures
            r@ == self@,
    {
        WorkerHeartbeat {
            worker_id: self.worker_id.clone(),
            observed_at_ms: self.observed_at_ms,
            available_slots: self.available_slots,
            available_memory_bytes: self.available_memory_bytes,
        }
    }
}

/// What the coordinator tells a worker.
#[derive(Debug, PartialEq, Eq)]
pub enum CoordinatorMessage {
    AssignTask { version: u16, stage: StagePlan, task: TaskAttemptId, lease: TaskLease },
    CancelQuery { version: u16, query_id: QueryId, reason: String },
}

pub enum CoordinatorMessageView {
    AssignTask { version: u16, stage: StagePlanView, task: TaskAttemptView, lease: TaskLeaseView },
    CancelQuery { version: u16, query_id: Seq<char>, reason: Seq<char> },
}

impl View for CoordinatorMessage {
    type V = CoordinatorMessageView;

    open spec fn view(&self) -> CoordinatorMessageView {
        match self {
            CoordinatorMessage::AssignTask { version, stage, task, lease } => {
                CoordinatorMessageView::AssignTask {
                    version: *version,
                    stage: stage@,
                    task: task@,
                    lease: lease@,
                }
            },
            CoordinatorMessage::CancelQuery { version, query_id, reason } => {
                CoordinatorMessageView::CancelQuery {
                    version: *version,
                    query_id: query_id@,
                    reason: reason@,
                }
            },
        }
    }
}

impl Clone for CoordinatorMessage {
    fn clone(&self) -> (r: Self)
        ensures
            r@ == self@,
    {
        match self {
            CoordinatorMessage::AssignTask { version, stage, task, lease } => {
                CoordinatorMessage::AssignTask {
                    version: *version,
                    stage: stage.clone(),
                    task: task.clone(),
                    lease: lease.clone(),
                }
            },
            CoordinatorMessage::CancelQuery { version, query_id, reason } => {
                CoordinatorMessage::CancelQuery {
                    version: *version,
                    query_id: query_id.clone(),
                    reason: reason.clone(),
                }
            },
        }
    }
}

/// What is wrong with a message's protocol version, if anything is.
pub open spec fn version_check(version: u16) -> Result<(), ErrorView> {
    if version != PROTOCOL_VERSION {
        Err(
            protocol_failure(
                "unsupported protocol version "@ + numeral(version as nat) + "; expected "@
                    + numeral(PROTOCOL_VERSION as nat),
            ),
        )
    } else {
        Ok(())
    }
}

fn validate_version(version: u16) -> (r: Result<(), SparkXError>)
    ensures
        outcome(r) == version_check(version),
{
    if version != PROTOCOL_VERSION {
        let mut message: String = "unsupported protocol version ".to_owned();
        message.append(decimal(version as u64).as_str());
        message.append("; expected ");
        message.append(decimal(PROTOCOL_VERSION as u64).as_str());
        return Err(protocol_error(message.as_str()));
    }
    Ok(())
}

impl CoordinatorMessageView {
    /// What is wrong with a message, if anything is.
    pub open spec fn check(self) -> Result<(), ErrorView> {
        match self {
            CoordinatorMessageView::AssignTask { version, stage, task, lease } => {
                if version_check(version) is Err {
                    version_check(version)
                } else if stage.check() is Err {
                    stage.check()
                } else if task.check_for(stage) is Err {
                    task.check_for(stage)
                } else {
                    lease.check()
                }
            },
            CoordinatorMessageView::CancelQuery { version, query_id, reason } => {
                if version_check(version) is Err {
                    version_check(version)
                } else if text_id_check("query"@, query_id) is Err {
                    text_id_check("query"@, query_id)
                } else if blank(reason) {
                    Err(protocol_failure("query cancellation must include a reason"@))
                } else {
                    Ok(())
                }
            },
        }
    }
}

impl CoordinatorMessage {
    pub fn validate(&self) -> (r: Result<(), SparkXError>)
        ensures
            outcome(r) == self@.check(),
    {
        match self {
            CoordinatorMessage::AssignTask { version, stage, task, lease } => {
                match validate_version(*version) {
                    Ok(()) => {},
                    Err(error) => return Err(error),
                }
                match stage.validate() {
                    Ok(()) => {},
                    Err(error) => return Err(error),
                }
                match task.validate_for(stage) {
                    Ok(()) => {},
                    Err(error) => return Err(error),
                }
                lease.validate()
            },
            CoordinatorMessage::CancelQuery { version, query_id, reason } => {
                match validate_version(*version) {
                    Ok(()) => {},
                    Err(error) => return Err(error),
                }
                match query_id.validate() {
                    Ok(()) => {},
                    Err(error) => return Err(error),
                }
                if is_blank(reason.as_str()) {
                    return Err(protocol_error("query cancellation must include a reason"));
                }
                Ok(())
            },
        }
    }
}

/// What a worker tells the coordinator.
#[derive(Debug, PartialEq, Eq)]
pub enum WorkerMessage {
    Register { version: u16, registration: WorkerRegistration },
    Heartbeat { version: u16, heartbeat: WorkerHeartbeat },
    TaskUpdate { version: u16, worker_id: WorkerId, task: TaskAttemptId, state: TaskState },
}

pub enum WorkerMessageView {
    Register { version: u16, registration: WorkerRegistrationView },
    Heartbeat { version: u16, heartbeat: WorkerHeartbeatView },
    TaskUpdate { version: u16, worker_id: Seq<char>, task: TaskAttemptView, state: TaskStateView },
}

impl View for WorkerMessage {
    type V = WorkerMessageView;

    open spec fn view(&self) -> WorkerMessageView {
        match self {
            WorkerMessage::Register { version, registration } => WorkerMessageView::Register {
                version: *version,
                registration: registration@,
            },
            WorkerMessage::Heartbeat { version, heartbeat } => WorkerMessageView::Heartbeat {
                version: *version,
                heartbeat: heartbeat@,
            },
            WorkerMessage::TaskUpdate { version, worker_id, task, state } => {
                WorkerMessageView::TaskUpdate {
                    version: *version,
                    worker_id: worker_id@,
                    task: task@,
                    state: state@,
                }
            },
        }
    }
}

impl Clone for WorkerMessage {
    fn clone(&self) -> (r: Self)
        ensures
            r@ == self@,
    {
        match self {
            WorkerMessage::Register { version, registration } => WorkerMessage::Register {
                version: *version,
                registration: registration.clone(),
            },
            WorkerMessage::Heartbeat { version, heartbeat } => WorkerMessage::Heartbeat {
                version: *version,
                heartbeat: heartbeat.clone(),
            },
            WorkerMessage::TaskUpdate { version, worker_id, task, state } => {
                WorkerMessage::TaskUpdate {
                    version: *version,
                    worker_id: worker_id.clone(),
                    task: task.clone(),
                    state: state.clone(),
                }
            },
        }
    }
}

impl WorkerMessageView {
    /// What is wrong with a message, if anything is.
    pub open spec fn check(self) -> Result<(), ErrorView> {
        match self {
            WorkerMessageView::Register { version, registration } => {
                if version_check(version) is Err {
                    version_check(version)
                } else {
                    registration.check()
                }
            },
            WorkerMessageView::Heartbeat { version, heartbeat } => {
                if version_check(version) is Err {
                    version_check(version)
                } else {
                    text_id_check("worker"@, heartbeat.worker_id)
                }
            },
            WorkerMessageView::TaskUpdate { version, worker_id, task, state } => {
                if version_check(version) is Err {
                    version_check(version)
                } else if text_id_check("worker"@, worker_id) is Err {
                    text_id_check("worker"@, worker_id)
                } else if text_id_check("query"@, task.query_id) is Err {
                    text_id_check("query"@, task.query_id)
                } else {
                    state.check_for(task, worker_id)
                }
            },
        }
    }
}

impl WorkerMessage {
    pub fn validate(&self) -> (r: Result<(), SparkXError>)
        ensures
            outcome(r) == self@.check(),
    {
        match self {
            WorkerMessage::Register { version, registration } => {
                match validate_version(*version) {
                    Ok(()) => {},
                    Err(error) => return Err(error),
                }
                registration.validate()
            },
            WorkerMessage::Heartbeat { version, heartbeat } => {
                match validate_version(*version) {
                    Ok(()) => {},
                    Err(error) => return Err(error),
                }
                heartbeat.worker_id.validate()
            },
            WorkerMessage::TaskUpdate { version, worker_id, task, state } => {
                match validate_version(*version) {
                    Ok(()) => {},
                    Err(error) => return Err(error),
                }
                match worker_id.validate() {
                    Ok(()) => {},
                    Err(error) => return Err(error),
                }
                match task.query_id.validate() {
                    Ok(()) => {},
                    Err(error) => return Err(error),
                }
                state.validate_for(task, worker_id)
            },
        }
    }
}

/// The name of the table through which a plan reads the output of a stage.
pub open spec fn stage_input_name(stage: StageId) -> Seq<char> {
    "__sparkx_stage_input_"@ + numeral(stage.0 as nat)
}

pub fn stage_input_table_name(stage: StageId) -> (r: String)
    ensures
        r@ == stage_input_name(stage),
{
    join("__sparkx_stage_input_", decimal(stage.0 as u64).as_str())
}

} // verus!
