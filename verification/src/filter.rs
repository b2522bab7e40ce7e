//! Message filter contract: the answers it gives about a message.
use vstd::prelude::*;

verus! {

#[derive(Debug)]
pub struct MigrateMsg {}

/// The address of the protobuf registry, if set.
#[derive(Debug)]
pub struct ProtobufRegistryResponse {
    pub protobuf_registry: Option<String>,
}

/// The verdict of a filter on a message.
#[derive(Debug)]
pub enum FilterResponse {
    Pass {},
    Fail {
        /// The reason for the filter failing.
        reason: String,
    },
    Fatal {
        /// The fatal reason for the filter failing.
        reason: String,
    },
}

#[derive(Debug)]
pub enum ContractError {
    Std { msg: String },
    ReplyParseError { err: String },
    Unauthorized {},
    JsonSerialization { err: String },
    UnknownReplyID { id: u64 },
    MissingProtobufRegistry {},
}

} // verus!
