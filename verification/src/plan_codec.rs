//! Plan fragments: physical plans in bytes.
//!
//! Tables themselves are not encoded. A scan carries the name of its table and its schema; where a
//! fragment is decoded, the table is looked up and its fields are held against that schema.

pub mod checks;
pub mod codes;
pub mod exprs;
pub mod planned;
pub mod plans;
pub mod schemas;

use crate::catalog::{Catalog, TableView};
use crate::error::{outcome, ErrorView, SparkXError};
use crate::fragment::{codec_error, codec_failure, fragment_size_check, validate_fragment_size};
use crate::physical::{physical_outcome, PhysicalPlan, PhysicalView};
use crate::protocol::{QueryId, StageId, StagePlan, StagePlanView};
use crate::text::{decimal, join, numeral};
use crate::wire::fields::{
    all_sound, message_bytes, message_reads_back, parse_message, parsed, raw_views,
    short_is_writable, write_message, RawField, RawView, RECURSION_LIMIT,
};
use crate::wire::plans::{
    input_of, input_reads_back, input_slot, plan_fits, push_input, read_input, WirePlan,
    WirePlanView,
};
use crate::wire::slots::{
    low_half, number, number_in, number_slot, number_slot_reads_back, plus_nothing, push_number,
    slots_stand_apart, with_tag,
};
use checks::{plan_survives, transportable, validate_wire_plan, what_decodes_is_valid, wire_check};
use codes::PLAN_CODEC_VERSION;
use plans::{decode_plan, decoded_plan, encode_plan, encoded_plan};
use vstd::prelude::*;

verus! {

/// The message that a fragment consists of: the version and the plan.
pub open spec fn envelope_fields(root: WirePlanView) -> Seq<RawView> {
    number_slot(1, PLAN_CODEC_VERSION as u64) + input_slot(2, root)
}

/// The bytes of a plan, or the error that it has none.
pub open spec fn encoded_fragment(plan: PhysicalView) -> Result<Seq<u8>, ErrorView> {
    match encoded_plan(plan, 0) {
        Err(error) => Err(error),
        Ok(root) => {
            let bytes = message_bytes(envelope_fields(root));
            match fragment_size_check(bytes.len()) {
                Err(error) => Err(error),
                Ok(()) => Ok(bytes),
            }
        },
    }
}

/// The plan message in a fragment, or the error that there is none.
pub open spec fn decoded_envelope(bytes: Seq<u8>) -> Result<WirePlanView, ErrorView> {
    match fragment_size_check(bytes.len()) {
        Err(error) => Err(error),
        Ok(()) => match parsed(bytes, RECURSION_LIMIT as nat) {
            None => Err(malformed()),
            Some(fields) => match (
                number(with_tag(fields, 1)),
                input_of(with_tag(fields, 2), RECURSION_LIMIT as nat),
            ) {
                (Some(version), Some(root)) => if low_half(version as nat) != PLAN_CODEC_VERSION {
                    Err(
                        codec_failure(
                            "unsupported plan codec version "@ + numeral(
                                low_half(version as nat) as nat,
                            ) + "; expected 1"@,
                        ),
                    )
                } else if root is Absent {
                    Err(codec_failure("plan envelope has no root operator"@))
                } else {
                    Ok(root)
                },
                _ => Err(malformed()),
            },
        },
    }
}

/// The error of bytes that are no message.
pub open spec fn malformed() -> ErrorView {
    codec_failure("cannot decode Protobuf envelope: malformed message"@)
}

/// What is wrong with a fragment, if anything is.
pub open spec fn fragment_check(bytes: Seq<u8>) -> Result<(), ErrorView> {
    match decoded_envelope(bytes) {
        Err(error) => Err(error),
        Ok(root) => wire_check(root, 0),
    }
}

/// The plan in a fragment over the tables of a catalog, or the first error.
pub open spec fn decoded_fragment(bytes: Seq<u8>, tables: Map<Seq<char>, TableView>) -> Result<
    PhysicalView,
    ErrorView,
> {
    match decoded_envelope(bytes) {
        Err(error) => Err(error),
        Ok(root) => decoded_plan(root, tables, 0),
    }
}

/// Bytes that were made, as contracts see them.
pub open spec fn bytes_outcome(r: Result<Vec<u8>, SparkXError>) -> Result<Seq<u8>, ErrorView> {
    match r {
        Ok(bytes) => Ok(bytes@),
        Err(error) => Err(error@),
    }
}

fn decode_envelope(bytes: &Vec<u8>) -> (r: Result<WirePlan, SparkXError>)
    ensures
        plans::wire_plan_outcome(r) == decoded_envelope(bytes@),
{
    match validate_fragment_size(bytes.len()) {
        Ok(()) => {},
        Err(error) => return Err(error),
    }
    let fields = match parse_message(bytes, RECURSION_LIMIT) {
        Some(fields) => fields,
        None => {
            return Err(codec_error("cannot decode Protobuf envelope: malformed message"));
        },
    };
    let end: usize = fields.len();
    proof {
        assert(raw_views(fields@).subrange(0, end as int) =~= raw_views(fields@));
    }
    match (number_in(&fields, 0, end, 1), read_input(&fields, 2, RECURSION_LIMIT)) {
        (Some(version), Some(root)) => {
            let version: u32 = (version % 0x1_0000_0000) as u32;
            if version != PLAN_CODEC_VERSION {
                let mut message: String = join(
                    "unsupported plan codec version ",
                    decimal(version as u64).as_str(),
                );
                message.append("; expected 1");
                return Err(codec_error(message.as_str()));
            }
            if let WirePlan::Absent = root {
                return Err(codec_error("plan envelope has no root operator"));
            }
            Ok(root)
        },
        _ => Err(codec_error("cannot decode Protobuf envelope: malformed message")),
    }
}

/// The codec of plan fragments.
pub struct PhysicalPlanCodec;

impl PhysicalPlanCodec {
    /// The bytes of a plan.
    pub fn encode(plan: &PhysicalPlan) -> (r: Result<Vec<u8>, SparkXError>)
        ensures
            bytes_outcome(r) == encoded_fragment(plan@),
    {
        let root = match encode_plan(plan, 0) {
            Ok(root) => root,
            Err(error) => return Err(error),
        };
        let mut fields: Vec<RawField> = Vec::new();
        proof {
            assert(raw_views(fields@) =~= Seq::empty());
        }
        push_number(&mut fields, 1, PLAN_CODEC_VERSION as u64);
        push_input(&mut fields, 2, &root);
        proof {
            assert(raw_views(fields@) =~= envelope_fields(root@));
            envelope_is_sound(root@);
        }
        let bytes = write_message(&fields);
        match validate_fragment_size(bytes.len()) {
            Ok(()) => Ok(bytes),
            Err(error) => Err(error),
        }
    }

    /// Checks a fragment, whatever the tables.
    pub fn validate_fragment(bytes: &Vec<u8>) -> (r: Result<(), SparkXError>)
        ensures
            outcome(r) == fragment_check(bytes@),
    {
        match decode_envelope(bytes) {
            Ok(root) => validate_wire_plan(&root, 0),
            Err(error) => Err(error),
        }
    }

    /// The plan in a fragment over the tables of a catalog.
    pub fn decode(bytes: &Vec<u8>, catalog: &Catalog) -> (r: Result<PhysicalPlan, SparkXError>)
        requires
            catalog.wf(),
        ensures
            physical_outcome(r) == decoded_fragment(bytes@, catalog@),
    {
        match decode_envelope(bytes) {
            Ok(root) => decode_plan(&root, catalog, 0),
            Err(error) => Err(error),
        }
    }
}

proof fn envelope_is_sound(root: WirePlanView)
    ensures
        all_sound(envelope_fields(root)),
{
}

/// A plan that was encoded decodes to the same plan: a worker that has the tables that a plan reads
/// runs what it was sent. Messages may stand within each other only so deep, which bounds the depth
/// of the plan and of its expressions.
pub proof fn fragment_survives(plan: PhysicalView, tables: Map<Seq<char>, TableView>)
    requires
        transportable(plan, tables),
        encoded_fragment(plan) is Ok,
        plan_fits(encoded_plan(plan, 0)->Ok_0, (RECURSION_LIMIT - 1) as nat),
    ensures
        decoded_fragment(encoded_fragment(plan)->Ok_0, tables) == Ok::<PhysicalView, ErrorView>(
            plan,
        ),
        fragment_check(encoded_fragment(plan)->Ok_0) is Ok,
{
    let root = encoded_plan(plan, 0)->Ok_0;
    let fields = envelope_fields(root);
    let none = Seq::<RawView>::empty();
    plan_survives(plan, tables, 0);
    envelope_is_sound(root);
    short_is_writable(fields);
    message_reads_back(fields, RECURSION_LIMIT as nat);
    plus_nothing(fields);
    slots_stand_apart(
        number_slot(1, PLAN_CODEC_VERSION as u64),
        input_slot(2, root),
        none,
        none,
        none,
        none,
        none,
        fields,
    );
    number_slot_reads_back(1, PLAN_CODEC_VERSION as u64);
    input_reads_back(2, root, RECURSION_LIMIT as nat);
    what_decodes_is_valid(root, tables, 0);
}

/// What comes of making a stage of a plan.
pub open spec fn stage_of(
    query_id: Seq<char>,
    stage_id: StageId,
    input_stages: Seq<StageId>,
    partition_count: u32,
    plan: PhysicalView,
) -> Result<StagePlanView, ErrorView> {
    match encoded_fragment(plan) {
        Err(error) => Err(error),
        Ok(plan_fragment) => {
            let stage = StagePlanView {
                query_id,
                stage_id,
                input_stages,
                partition_count,
                plan_fragment,
                output_exchange: None,
                partitioned_input: false,
            };
            match stage.check() {
                Err(error) => Err(error),
                Ok(()) => Ok(stage),
            }
        },
    }
}

/// A stage that was made, as contracts see it.
pub open spec fn stage_outcome(r: Result<StagePlan, SparkXError>) -> Result<
    StagePlanView,
    ErrorView,
> {
    match r {
        Ok(stage) => Ok(stage@),
        Err(error) => Err(error@),
    }
}

impl StagePlan {
    /// A stage that runs a plan.
    pub fn from_physical_plan(
        query_id: QueryId,
        stage_id: StageId,
        input_stages: Vec<StageId>,
        partition_count: u32,
        plan: &PhysicalPlan,
    ) -> (r: Result<Self, SparkXError>)
        ensures
            stage_outcome(r) == stage_of(
                query_id@,
                stage_id,
                input_stages@,
                partition_count,
                plan@,
            ),
    {
        let plan_fragment = match PhysicalPlanCodec::encode(plan) {
            Ok(bytes) => bytes,
            Err(error) => return Err(error),
        };
        let stage = StagePlan {
            query_id,
            stage_id,
            input_stages,
            partition_count,
            plan_fragment,
            output_exchange: None,
            partitioned_input: false,
        };
        match stage.validate() {
            Ok(()) => Ok(stage),
            Err(error) => Err(error),
        }
    }

    /// The plan that a stage runs, over the tables of a catalog.
    pub fn decode_physical_plan(&self, catalog: &Catalog) -> (r: Result<PhysicalPlan, SparkXError>)
        requires
            catalog.wf(),
        ensures
            physical_outcome(r) == match self@.check() {
                Err(error) => Err(error),
                Ok(()) => decoded_fragment(self@.plan_fragment, catalog@),
            },
    {
        match self.validate() {
            Ok(()) => PhysicalPlanCodec::decode(&self.plan_fragment, catalog),
            Err(error) => Err(error),
        }
    }
}

/// A stage made of a plan runs that plan.
pub proof fn stage_runs_its_plan(
    query_id: Seq<char>,
    stage_id: StageId,
    input_stages: Seq<StageId>,
    partition_count: u32,
    plan: PhysicalView,
    tables: Map<Seq<char>, TableView>,
)
    requires
        transportable(plan, tables),
        stage_of(query_id, stage_id, input_stages, partition_count, plan) is Ok,
        plan_fits(encoded_plan(plan, 0)->Ok_0, (RECURSION_LIMIT - 1) as nat),
    ensures
        ({
            let stage = stage_of(query_id, stage_id, input_stages, partition_count, plan)->Ok_0;
            &&& stage.check() is Ok
            &&& decoded_fragment(stage.plan_fragment, tables) == Ok::<PhysicalView, ErrorView>(plan)
        }),
{
    fragment_survives(plan, tables);
}

} // verus!
