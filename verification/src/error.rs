//! The error type surfaced to callers of the hydration pipeline.

use vstd::prelude::*;

verus! {

#[derive(Debug)]
pub enum ContractError {
    Unauthorized {},
    CustomError { val: String },
}

/// The fatal error for a field key with no delimiter bounding its payload.
pub open spec fn is_unterminated_error(e: ContractError) -> bool {
    e matches ContractError::CustomError { val } && val@ == "unable to deserialize"@
}

/// The fatal error for a payload that cannot be decoded, or a final text that
/// does not parse as a dispatch message.
pub open spec fn is_deserialization_error(e: ContractError) -> bool {
    e matches ContractError::CustomError { val } && val@ == "DeserializationError"@
}

pub fn unterminated_error() -> (e: ContractError)
    ensures
        is_unterminated_error(e),
{
    ContractError::CustomError { val: "unable to deserialize".to_owned() }
}

pub fn deserialization_error() -> (e: ContractError)
    ensures
        is_deserialization_error(e),
{
    ContractError::CustomError { val: "DeserializationError".to_owned() }
}

} // verus!
