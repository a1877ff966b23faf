use vstd::prelude::*;

verus! {

#[verifier::external_type_specification]
#[verifier::external_body]
pub struct ExRedisError(redis::RedisError);

#[verifier::external_type_specification]
#[verifier::external_body]
pub struct ExIoError(std::io::Error);

/// Errors reported by the queue library.
#[derive(Debug)]
pub enum BullRsError {
    /// Error related to Redis operations
    RedisError(redis::RedisError),
    /// Error related to IO operations
    IoError(std::io::Error),
    /// Error related to script loading or execution
    ScriptError(String),
    /// Error when parsing lua scripts
    ParsingError(String),
    /// Error for circular references
    CircularReferenceError(String),
    /// Error when a path mapping is not found
    PathMappingNotFoundError(String),
    /// Error related to serialization or deserialization
    SerializationError(String),
    /// Error related to process execution
    ProcessError(String),
    /// Error when a process times out
    ProcessTimeout,
    /// Error when maximum process limit is reached
    ProcessLimitReached,
    /// Error related to system time operations
    SystemTimeError(String),
    /// Error when an invalid argument is provided
    InvalidArgument(String),
    /// Error when a file is not found
    FileNotFound(String),
    /// General errors
    GeneralError(String),
}

} // verus!
