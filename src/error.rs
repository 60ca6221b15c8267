use vstd::prelude::*;

verus! {

/// Errors of the replication core.
#[derive(Clone, Debug, PartialEq)]
pub enum Error {
    /// No metadata is known for the table.
    MetadataError { schema: String, tb: String },
    /// A replication frame broke a decoding invariant.
    ExtractorError { reason: ExtractorFault },
    /// A multi-key command whose keys hash to different cluster slots.
    RedisCmdError { cmd: String },
    /// An RDB payload that does not follow the format.
    RdbError,
    /// A slot that no node serves, or whose node has no sinker.
    RedisRouteError { slot: u16 },
}

/// Why a replication frame could not be decoded.
#[derive(Clone, Copy, Debug, PartialEq, Eq, Structural)]
pub enum ExtractorFault {
    /// A column came as an unchanged TOAST value, whose content is not sent.
    UnchangedToast,
    /// A row refers to a relation that no relation frame has described.
    UnknownRelation,
    /// A tuple holds more columns than its relation.
    TooManyColumns,
    /// A column's type is not known.
    UnknownType,
}

} // verus!
