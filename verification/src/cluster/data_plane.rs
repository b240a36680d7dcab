//! What the exchange of blocks between workers decides.

use crate::error::{outcome, ErrorView, SparkXError};
use crate::protocol::{
    PartitionId, ShuffleBlock, ShuffleBlockView, ShuffleLocation, ShuffleLocationView,
    TaskAttemptId, TaskAttemptView, WorkerId, PROTOCOL_VERSION,
};
use crate::text::{
    blank, characters, decimal, is_blank, join, numeral, same_text, white_space,
};
use vstd::prelude::*;

verus! {

/// The largest message of the exchange.
pub const MAX_FLIGHT_MESSAGE_BYTES: usize = 4 * 1024 * 1024;

/// What a ticket names: the output of an attempt for a partition.
#[derive(Debug)]
pub struct BlockTicket {
    pub version: u16,
    pub worker_id: WorkerId,
    pub producer: TaskAttemptId,
    pub output_partition: PartitionId,
}

/// What is wrong with a ticket, if anything is.
pub open spec fn ticket_check(ticket: BlockTicket) -> Result<(), ErrorView> {
    if ticket.version != PROTOCOL_VERSION {
        Err(
            ErrorView::Protocol(
                "unsupported data-plane protocol version "@ + numeral(ticket.version as nat)
                    + "; expected "@ + numeral(PROTOCOL_VERSION as nat),
            ),
        )
    } else {
        match crate::protocol::text_id_check("worker"@, ticket.worker_id@) {
            Err(error) => Err(error),
            Ok(()) => crate::protocol::text_id_check("query"@, ticket.producer@.query_id),
        }
    }
}

impl BlockTicket {
    /// The ticket of an attempt's output for a partition.
    pub fn new(worker_id: &WorkerId, producer: &TaskAttemptId, output_partition: PartitionId) -> (r:
        Self)
        ensures
            r.version == PROTOCOL_VERSION,
            r.worker_id@ == worker_id@,
            r.producer@ == producer@,
            r.output_partition == output_partition,
    {
        BlockTicket {
            version: PROTOCOL_VERSION,
            worker_id: worker_id.clone(),
            producer: producer.clone(),
            output_partition,
        }
    }
}

impl BlockTicket {
    pub fn validate(&self) -> (r: Result<(), SparkXError>)
        ensures
            outcome(r) == ticket_check(*self),
    {
        if self.version != PROTOCOL_VERSION {
            let mut message: String = join(
                "unsupported data-plane protocol version ",
                decimal(self.version as u64).as_str(),
            );
            message.append("; expected ");
            message.append(decimal(PROTOCOL_VERSION as u64).as_str());
            return Err(SparkXError::protocol(message));
        }
        match WorkerId::new(self.worker_id.as_str()) {
            Ok(_) => self.producer.validate(),
            Err(error) => Err(error),
        }
    }
}

/// The kind of answer to a request that is refused.
#[derive(Debug, Clone, Copy, PartialEq, Eq, Structural)]
pub enum StatusCode {
    InvalidArgument,
    NotFound,
    ResourceExhausted,
    Cancelled,
    Internal,
}

/// The answer to a request that was refused with an error: its kind and its message.
pub open spec fn status_of(error: ErrorView) -> (StatusCode, Seq<char>) {
    match error {
        ErrorView::Protocol(message) => (StatusCode::InvalidArgument, message),
        ErrorView::Planning(message) => (StatusCode::InvalidArgument, message),
        ErrorView::NotFound(message) => (StatusCode::NotFound, message),
        ErrorView::ResourceExhausted(message) => (StatusCode::ResourceExhausted, message),
        ErrorView::Cancelled => (StatusCode::Cancelled, "query was cancelled"@),
        other => (StatusCode::Internal, other.text()),
    }
}

/// The answer to a request that was refused with an error.
pub fn map_status(error: &SparkXError) -> (r: (StatusCode, String))
    ensures
        (r.0, r.1@) == status_of(error@),
{
    match error {
        SparkXError::Protocol(message) | SparkXError::Planning(message) => (
            StatusCode::InvalidArgument,
            message.clone(),
        ),
        SparkXError::NotFound(message) => (StatusCode::NotFound, message.clone()),
        SparkXError::ResourceExhausted(message) => (
            StatusCode::ResourceExhausted,
            message.clone(),
        ),
        SparkXError::Cancelled => (StatusCode::Cancelled, "query was cancelled".to_owned()),
        other => (StatusCode::Internal, other.to_text()),
    }
}

/// The error that an answer stands for, where its kind says which.
pub open spec fn error_of(code: StatusCode, message: Seq<char>) -> Option<ErrorView> {
    match code {
        StatusCode::InvalidArgument => Some(ErrorView::Protocol(message)),
        StatusCode::NotFound => Some(ErrorView::NotFound(message)),
        StatusCode::ResourceExhausted => Some(ErrorView::ResourceExhausted(message)),
        StatusCode::Cancelled => Some(ErrorView::Cancelled),
        StatusCode::Internal => None,
    }
}

/// The error that an answer stands for, where its kind says which.
pub fn map_answer(code: StatusCode, message: String) -> (r: Option<SparkXError>)
    ensures
        match r {
            Some(error) => error_of(code, message@) == Some(error@),
            None => error_of(code, message@) is None,
        },
{
    match code {
        StatusCode::InvalidArgument => Some(SparkXError::protocol(message)),
        StatusCode::NotFound => Some(SparkXError::NotFound(message)),
        StatusCode::ResourceExhausted => Some(SparkXError::resource_exhausted(message)),
        StatusCode::Cancelled => Some(SparkXError::Cancelled),
        StatusCode::Internal => None,
    }
}

/// A refused request fails at its sender as it failed at its receiver.
pub proof fn a_refusal_arrives(error: ErrorView)
    requires
        error is Protocol || error is NotFound || error is ResourceExhausted || error is Cancelled,
    ensures
        error_of(status_of(error).0, status_of(error).1) == Some(error),
{
}

/// What is to be done with a block.
#[derive(Debug, Clone, Copy, PartialEq, Eq, Structural)]
pub enum BlockAction {
    Download,
    Delete,
}

impl BlockAction {
    pub open spec fn text(self) -> Seq<char> {
        match self {
            BlockAction::Download => "cannot download"@,
            BlockAction::Delete => "cannot delete"@,
        }
    }
}

/// The ticket by which a block is had from the worker at an endpoint, or why it is not.
pub open spec fn block_ticket(
    location: ShuffleLocationView,
    endpoint: Seq<char>,
    action: BlockAction,
) -> Result<Seq<char>, ErrorView> {
    match location {
        ShuffleLocationView::Flight { endpoint: owner, ticket, .. } => if owner == endpoint {
            Ok(ticket)
        } else {
            Err(
                ErrorView::Protocol(
                    "block belongs to "@ + owner + ", but client is connected to "@ + endpoint,
                ),
            )
        },
        _ => Err(
            ErrorView::Protocol(
                action.text() + " a non-Flight shuffle block with the Flight client"@,
            ),
        ),
    }
}

/// The ticket by which a block is had from the worker at an endpoint.
pub fn ticket_for(block: &ShuffleBlock, endpoint: &str, action: BlockAction) -> (r: Result<
    String,
    SparkXError,
>)
    ensures
        match r {
            Ok(ticket) => block_ticket(block@.location, endpoint@, action) == Ok::<
                Seq<char>,
                ErrorView,
            >(ticket@),
            Err(error) => block_ticket(block@.location, endpoint@, action) == Err::<
                Seq<char>,
                ErrorView,
            >(error@),
        },
{
    match &block.location {
        ShuffleLocation::Flight { endpoint: owner, ticket, .. } => {
            if same_text(owner.as_str(), endpoint) {
                return Ok(ticket.clone());
            }
            let mut message: String = join("block belongs to ", owner.as_str());
            message.append(", but client is connected to ");
            message.append(endpoint);
            Err(SparkXError::protocol(message))
        },
        _ => {
            let verb = match action {
                BlockAction::Download => "cannot download",
                BlockAction::Delete => "cannot delete",
            };
            Err(
                SparkXError::protocol(
                    join(verb, " a non-Flight shuffle block with the Flight client"),
                ),
            )
        },
    }
}

/// How the size and the checksum of a block read.
pub open spec fn metadata_text(rows: u64, bytes: u64, checksum: Seq<char>) -> Seq<char> {
    "rows="@ + numeral(rows as nat) + " bytes="@ + numeral(bytes as nat) + " checksum="@ + checksum
}

fn show_metadata(rows: u64, bytes: u64, checksum: &str) -> (r: String)
    ensures
        r@ == metadata_text(rows, bytes, checksum@),
{
    let mut text: String = join("rows=", decimal(rows).as_str());
    text.append(" bytes=");
    text.append(decimal(bytes).as_str());
    text.append(" checksum=");
    text.append(checksum);
    text
}

/// What is wrong with a block that arrived, if anything is.
pub open spec fn arrival_check(
    block: ShuffleBlockView,
    rows: u64,
    bytes: u64,
    checksum: Seq<char>,
) -> Result<(), ErrorView> {
    if rows != block.rows || bytes != block.bytes || checksum != block.checksum {
        Err(
            ErrorView::Protocol(
                "downloaded block metadata mismatch: expected "@ + metadata_text(
                    block.rows,
                    block.bytes,
                    block.checksum,
                ) + ", got "@ + metadata_text(rows, bytes, checksum),
            ),
        )
    } else {
        Ok(())
    }
}

/// Whether what arrived is the block that was announced.
pub fn check_arrival(block: &ShuffleBlock, rows: u64, bytes: u64, checksum: &str) -> (r: Result<
    (),
    SparkXError,
>)
    ensures
        outcome(r) == arrival_check(block@, rows, bytes, checksum@),
{
    if rows != block.rows || bytes != block.bytes || !same_text(
        checksum,
        block.checksum.as_str(),
    ) {
        let mut message: String = join(
            "downloaded block metadata mismatch: expected ",
            show_metadata(block.rows, block.bytes, block.checksum.as_str()).as_str(),
        );
        message.append(", got ");
        message.append(show_metadata(rows, bytes, checksum).as_str());
        return Err(SparkXError::protocol(message));
    }
    Ok(())
}

/// The answer to an upload.
#[derive(Debug)]
pub struct UploadAck {
    pub rows: u64,
    pub bytes: u64,
    pub checksum: String,
    pub ticket: String,
}

/// The block that an upload made, by its answers.
pub open spec fn uploaded(
    worker_id: Seq<char>,
    producer: TaskAttemptView,
    output_partition: PartitionId,
    endpoint: Seq<char>,
    ticket: Seq<char>,
    acks: Seq<UploadAck>,
) -> Result<ShuffleBlockView, ErrorView> {
    if acks.len() != 1 {
        Err(
            ErrorView::Protocol(
                "data-plane upload returned "@ + numeral(acks.len())
                    + " acknowledgements; expected one"@,
            ),
        )
    } else if acks[0].ticket@ != ticket {
        Err(
            ErrorView::Protocol(
                "data-plane upload acknowledgement returned a different ticket"@,
            ),
        )
    } else {
        Ok(
            ShuffleBlockView {
                producer,
                output_partition,
                rows: acks[0].rows,
                bytes: acks[0].bytes,
                checksum: acks[0].checksum@,
                location: ShuffleLocationView::Flight { worker_id, endpoint, ticket },
            },
        )
    }
}

/// The block that an upload made.
pub fn acknowledge(
    worker_id: WorkerId,
    producer: TaskAttemptId,
    output_partition: PartitionId,
    endpoint: String,
    ticket: &str,
    acks: Vec<UploadAck>,
) -> (r: Result<ShuffleBlock, SparkXError>)
    ensures
        match r {
            Ok(block) => uploaded(
                worker_id@,
                producer@,
                output_partition,
                endpoint@,
                ticket@,
                acks@,
            ) == Ok::<ShuffleBlockView, ErrorView>(block@),
            Err(error) => uploaded(
                worker_id@,
                producer@,
                output_partition,
                endpoint@,
                ticket@,
                acks@,
            ) == Err::<ShuffleBlockView, ErrorView>(error@),
        },
{
    if acks.len() != 1 {
        let mut message: String = join(
            "data-plane upload returned ",
            decimal(acks.len() as u64).as_str(),
        );
        message.append(" acknowledgements; expected one");
        return Err(SparkXError::protocol(message));
    }
    let ack = &acks[0];
    if !same_text(ack.ticket.as_str(), ticket) {
        return Err(
            SparkXError::protocol(
                "data-plane upload acknowledgement returned a different ticket".to_owned(),
            ),
        );
    }
    Ok(
        ShuffleBlock {
            producer,
            output_partition,
            rows: ack.rows,
            bytes: ack.bytes,
            checksum: ack.checksum.clone(),
            location: ShuffleLocation::Flight { worker_id, endpoint, ticket: ack.ticket.clone() },
        },
    )
}

/// What is wrong with an upload that begins, if anything is.
pub fn begin_upload(available: u64) -> (r: Result<(), SparkXError>)
    ensures
        outcome(r) == (if available == 0 {
            Err(ErrorView::ResourceExhausted("data-plane storage has no available capacity"@))
        } else {
            Ok(())
        }),
{
    if available == 0 {
        return Err(
            SparkXError::resource_exhausted(
                "data-plane storage has no available capacity".to_owned(),
            ),
        );
    }
    Ok(())
}

/// The bytes of an upload after one batch more, or the error that there is no room for them. Even
/// an upload without bytes takes one.
pub open spec fn grown_upload(received: u64, more: u64, available: u64) -> Result<u64, ErrorView> {
    let next = crate::worker::saturated(received, more);
    let needed = if next == 0 {
        1u64
    } else {
        next
    };
    if needed > available {
        Err(
            ErrorView::ResourceExhausted(
                "data-plane block needs more than the "@ + numeral(available as nat)
                    + " available bytes"@,
            ),
        )
    } else {
        Ok(next)
    }
}

/// Takes one batch more of an upload.
pub fn grow_upload(received: u64, more: u64, available: u64) -> (r: Result<u64, SparkXError>)
    ensures
        outcome(r) == grown_upload(received, more, available),
{
    let next: u64 = match received.checked_add(more) {
        Some(next) => next,
        None => u64::MAX,
    };
    let needed: u64 = if next == 0 {
        1
    } else {
        next
    };
    if needed > available {
        let mut message: String = join(
            "data-plane block needs more than the ",
            decimal(available).as_str(),
        );
        message.append(" available bytes");
        return Err(SparkXError::resource_exhausted(message));
    }
    Ok(next)
}

/// The address at which a server listens.
#[derive(Debug)]
pub struct BoundAddress {
    /// The address as a URL has it: one of version 6 stands in brackets.
    pub host: String,
    /// Whether the address stands for all of the machine's.
    pub is_unspecified: bool,
    pub port: u16,
}

pub open spec fn has_char(text: Seq<char>, c: char) -> bool {
    exists|i: int| 0 <= i < text.len() && #[trigger] text[i] == c
}

pub open spec fn has_white_space(text: Seq<char>) -> bool {
    exists|i: int| 0 <= i < text.len() && white_space(#[trigger] text[i])
}

/// The host by which others reach a server, or why there is none. `as_ipv6` is the host in
/// brackets, where it is an address of version 6.
pub open spec fn reachable_host(
    bound: BoundAddress,
    advertised: Option<String>,
    as_ipv6: Option<String>,
) -> Result<Seq<char>, ErrorView> {
    match advertised {
        None => if bound.is_unspecified {
            Err(
                ErrorView::Planning(
                    "data-plane bind address is unspecified; provide an advertised host"@,
                ),
            )
        } else {
            Ok(bound.host@)
        },
        Some(host) => if blank(host@) {
            Err(ErrorView::Planning("data-plane advertised host must not be empty"@))
        } else if has_white_space(host@) || has_char(host@, '/') || has_char(host@, '?') {
            Err(
                ErrorView::Planning(
                    "data-plane advertised host must be a hostname or IP without a scheme or path"@,
                ),
            )
        } else if has_char(host@, ':') && host@[0] != '[' {
            match as_ipv6 {
                Some(address) => Ok(address@),
                None => Err(
                    ErrorView::Planning(
                        "data-plane advertised host must not include a port; configure the port in --data-bind"@,
                    ),
                ),
            }
        } else {
            Ok(host@)
        },
    }
}

fn holds_char(text: &Vec<char>, c: char) -> (r: bool)
    ensures
        r == has_char(text@, c),
{
    for i in 0..text.len()
        invariant
            forall|k: int| 0 <= k < i ==> #[trigger] text@[k] != c,
    {
        if text[i] == c {
            return true;
        }
    }
    false
}

fn holds_white_space(text: &Vec<char>) -> (r: bool)
    ensures
        r == has_white_space(text@),
{
    for i in 0..text.len()
        invariant
            forall|k: int| 0 <= k < i ==> !white_space(#[trigger] text@[k]),
    {
        if crate::text::is_white_space(text[i]) {
            return true;
        }
    }
    false
}

/// The endpoint at which others reach a server.
pub fn advertised_endpoint(
    bound: &BoundAddress,
    advertised: &Option<String>,
    as_ipv6: &Option<String>,
) -> (r: Result<String, SparkXError>)
    ensures
        match r {
            Ok(endpoint) => reachable_host(*bound, *advertised, *as_ipv6) matches Ok(host)
                && endpoint@ == "http://"@ + host + ":"@ + numeral(bound.port as nat),
            Err(error) => reachable_host(*bound, *advertised, *as_ipv6) == Err::<
                Seq<char>,
                ErrorView,
            >(error@),
        },
{
    let host: String = match advertised {
        None => {
            if bound.is_unspecified {
                return Err(
                    SparkXError::planning(
                        "data-plane bind address is unspecified; provide an advertised host".to_owned(),
                    ),
                );
            }
            bound.host.clone()
        },
        Some(host) => {
            if is_blank(host.as_str()) {
                return Err(
                    SparkXError::planning(
                        "data-plane advertised host must not be empty".to_owned(),
                    ),
                );
            }
            let chars = characters(host.as_str());
            if holds_white_space(&chars) || holds_char(&chars, '/') || holds_char(&chars, '?') {
                return Err(
                    SparkXError::planning(
                        "data-plane advertised host must be a hostname or IP without a scheme or path".to_owned(),
                    ),
                );
            }
            if holds_char(&chars, ':') && chars[0] != '[' {
                match as_ipv6 {
                    Some(address) => address.clone(),
                    None => return Err(
                        SparkXError::planning(
                            "data-plane advertised host must not include a port; configure the port in --data-bind".to_owned(),
                        ),
                    ),
                }
            } else {
                host.clone()
            }
        },
    };
    let mut endpoint: String = join("http://", host.as_str());
    endpoint.append(":");
    endpoint.append(decimal(bound.port as u64).as_str());
    Ok(endpoint)
}

} // verus!
