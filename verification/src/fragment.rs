//! The size of an encoded plan fragment, and the error of one that is not sound.

use crate::error::{outcome, ErrorView, SparkXError};
use crate::text::{decimal, join, numeral};
use vstd::prelude::*;

verus! {

/// The largest plan fragment, in bytes.
pub const MAX_PLAN_FRAGMENT_BYTES: usize = 16 * 1024 * 1024;

/// The error of a fragment that is not sound.
pub open spec fn codec_failure(message: Seq<char>) -> ErrorView {
    ErrorView::Protocol("invalid physical plan fragment: "@ + message)
}

pub(crate) fn codec_error(message: &str) -> (r: SparkXError)
    ensures
        r@ == codec_failure(message@),
{
    SparkXError::protocol(join("invalid physical plan fragment: ", message))
}

/// What is wrong with a fragment of `bytes` bytes, if anything is.
pub open spec fn fragment_size_check(bytes: nat) -> Result<(), ErrorView> {
    if bytes == 0 {
        Err(codec_failure("plan fragment must not be empty"@))
    } else if bytes > MAX_PLAN_FRAGMENT_BYTES {
        Err(
            codec_failure(
                "plan fragment is "@ + numeral(bytes) + " bytes; maximum is "@ + numeral(
                    MAX_PLAN_FRAGMENT_BYTES as nat,
                ) + " bytes"@,
            ),
        )
    } else {
        Ok(())
    }
}

pub(crate) fn validate_fragment_size(bytes: usize) -> (r: Result<(), SparkXError>)
    ensures
        outcome(r) == fragment_size_check(bytes as nat),
{
    if bytes == 0 {
        return Err(codec_error("plan fragment must not be empty"));
    }
    if bytes > MAX_PLAN_FRAGMENT_BYTES {
        let mut message: String = "plan fragment is ".to_owned();
        message.append(decimal(bytes as u64).as_str());
        message.append(" bytes; maximum is ");
        message.append(decimal(MAX_PLAN_FRAGMENT_BYTES as u64).as_str());
        message.append(" bytes");
        return Err(codec_error(message.as_str()));
    }
    Ok(())
}

} // verus!
