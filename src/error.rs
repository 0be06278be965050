use vstd::prelude::*;

verus! {

/// The errors that the library reports to its callers.
#[derive(Debug, Clone, Copy, PartialEq, Eq, Structural)]
pub enum ClientError {
    /// The connection or a frame on it failed.
    TransportError,
    /// The schema blob does not follow the schema format.
    MalformedSchema,
    /// The schema blob carries a version tag that this client does not read.
    UnsupportedSchemaVersion,
    /// No storage entry of that name exists in that module.
    UnknownStorageItem,
    /// The number of keys does not fit the storage entry's kind.
    KeyArityMismatch,
    /// A payload does not have the expected shape.
    DecodeError,
    /// The client is not set up for the requested operation.
    ConfigurationError,
}

} // verus!
