//! The errors that the library's functions return.

use crate::node::{NodeHandle, PortHandle};
use crate::types::text;
use vstd::prelude::*;
use vstd::string::StringExecFns;

verus! {

/// A value or a row does not have the asked shape.
#[derive(Debug, PartialEq, Eq)]
pub enum TypeError {
    /// The row has no value at this index.
    InvalidFieldIndex(usize),
    /// Bytes do not hold what they were read as.
    SerializationError(String),
}

/// A store could not do what was asked.
#[derive(Debug, PartialEq, Eq)]
pub enum StorageError {
    /// The handle names no database of the transaction.
    InvalidDatabase,
    /// A cursor stands on no entry.
    InvalidRecord,
    /// Stored bytes are not the stored form of the named type.
    DeserializationError { typ: String, reason: String },
    /// A value of the named type has no stored form.
    SerializationError { typ: String, reason: String },
}

/// A node of the graph could not go on.
#[derive(Debug, PartialEq, Eq)]
pub enum ExecutionError {
    /// The graph has no node of this handle.
    InvalidNodeHandle(NodeHandle),
    /// The node has no port of this handle.
    InvalidPortHandle(PortHandle),
    /// The port keeps no rows of the asked kind.
    InvalidPortType,
    /// The schemas kept from an earlier run do not fit the graph.
    IncompatibleSchemas,
    /// The checkpoint kept from an earlier run does not cover every source.
    InconsistentCheckpointMetadata,
    /// A commit marker of another epoch than the one that was awaited.
    InvalidEpoch { expected: u64, received: u64 },
    /// The store holds no row under the key of an update or a delete.
    RecordNotFound,
    /// The writer only adds rows and was handed an update.
    UnsupportedUpdateOperation(String),
    /// The writer only adds rows and was handed a delete.
    UnsupportedDeleteOperation(String),
    /// The store failed.
    InternalDatabaseError(StorageError),
    /// Another failure, in words.
    InternalStringError(String),
}

/// A database of cached rows could not do what was asked.
#[derive(Debug, PartialEq, Eq)]
pub enum DatabaseError {
    InvalidOperation(String),
    OpenOrCreateError(String),
    DeserializationError { typ: String, reason: String },
    SerializationError { typ: String, reason: String },
    InvalidDatasetIdentifier(String),
    InvalidKey(String),
    /// Another failure, in words.
    InternalError(String),
}

impl DatabaseError {
    /// The error in words.
    pub fn message(&self) -> (words: String)
        ensures
            words@ == (match self {
                DatabaseError::InvalidOperation(what) => "Invalid operation: "@ + what@,
                DatabaseError::OpenOrCreateError(place) => "Unable to open or create database at location: "@
                    + place@,
                DatabaseError::DeserializationError { typ, reason } => "Unable to deserialize type: "@ + typ@
                    + " - Reason: "@ + reason@,
                DatabaseError::SerializationError { typ, reason } => "Unable to serialize type: "@ + typ@
                    + " - Reason: "@ + reason@,
                DatabaseError::InvalidDatasetIdentifier(name) => "Invalid dataset: "@ + name@,
                DatabaseError::InvalidKey(key) => "Invalid key: "@ + key@,
                DatabaseError::InternalError(what) => what@,
            }),
    {
        match self {
            DatabaseError::InvalidOperation(what) => text("Invalid operation: ").concat(what.as_str()),
            DatabaseError::OpenOrCreateError(place) => text(
                "Unable to open or create database at location: ",
            ).concat(place.as_str()),
            DatabaseError::DeserializationError { typ, reason } => text("Unable to deserialize type: ").concat(
                typ.as_str(),
            ).concat(" - Reason: ").concat(reason.as_str()),
            DatabaseError::SerializationError { typ, reason } => text("Unable to serialize type: ").concat(
                typ.as_str(),
            ).concat(" - Reason: ").concat(reason.as_str()),
            DatabaseError::InvalidDatasetIdentifier(name) => text("Invalid dataset: ").concat(name.as_str()),
            DatabaseError::InvalidKey(key) => text("Invalid key: ").concat(key.as_str()),
            DatabaseError::InternalError(what) => what.clone(),
        }
    }
}

/// The schema of a Postgres table cannot be taken over.
#[derive(Debug, PartialEq, Eq)]
pub enum PostgresSchemaError {
    SchemaReplicationIdentityError(String),
    ColumnTypeNotSupported(String),
    CustomTypeNotSupported,
    ColumnTypeNotFound,
    InvalidColumnType,
    ValueConversionError(String),
    UnsupportedReplicationType(String),
}

impl PostgresSchemaError {
    /// The error in words.
    pub fn message(&self) -> (words: String)
        ensures
            words@ == (match self {
                PostgresSchemaError::SchemaReplicationIdentityError(schema) => "Schema's '"@ + schema@
                    + "' replication identity settings is not correct. It is either not set or NOTHING"@,
                PostgresSchemaError::ColumnTypeNotSupported(typ) => "Column type "@ + typ@ + " not supported"@,
                PostgresSchemaError::CustomTypeNotSupported => "CustomTypeNotSupported"@,
                PostgresSchemaError::ColumnTypeNotFound => "ColumnTypeNotFound"@,
                PostgresSchemaError::InvalidColumnType => "Invalid column type"@,
                PostgresSchemaError::ValueConversionError(what) => "Value conversion error: "@ + what@,
                PostgresSchemaError::UnsupportedReplicationType(typ) => "Unsupported replication type - '"@ + typ@
                    + "'"@,
            }),
    {
        match self {
            PostgresSchemaError::SchemaReplicationIdentityError(schema) => text("Schema's '").concat(
                schema.as_str(),
            ).concat("' replication identity settings is not correct. It is either not set or NOTHING"),
            PostgresSchemaError::ColumnTypeNotSupported(typ) => text("Column type ").concat(typ.as_str()).concat(
                " not supported",
            ),
            PostgresSchemaError::CustomTypeNotSupported => text("CustomTypeNotSupported"),
            PostgresSchemaError::ColumnTypeNotFound => text("ColumnTypeNotFound"),
            PostgresSchemaError::InvalidColumnType => text("Invalid column type"),
            PostgresSchemaError::ValueConversionError(what) => text("Value conversion error: ").concat(
                what.as_str(),
            ),
            PostgresSchemaError::UnsupportedReplicationType(typ) => text("Unsupported replication type - '").concat(
                typ.as_str(),
            ).concat("'"),
        }
    }
}

/// A stream of changes of a Snowflake table cannot be read.
#[derive(Debug, PartialEq, Eq)]
pub enum SnowflakeStreamError {
    UnsupportedActionInStream(String),
    CannotDetermineAction,
}

impl SnowflakeStreamError {
    /// The error in words.
    pub fn message(&self) -> (words: String)
        ensures
            words@ == (match self {
                SnowflakeStreamError::UnsupportedActionInStream(action) => "Unsupported \""@ + action@
                    + "\" action in stream"@,
                SnowflakeStreamError::CannotDetermineAction => "Cannot determine action"@,
            }),
    {
        match self {
            SnowflakeStreamError::UnsupportedActionInStream(action) => text("Unsupported \"").concat(
                action.as_str(),
            ).concat("\" action in stream"),
            SnowflakeStreamError::CannotDetermineAction => text("Cannot determine action"),
        }
    }
}

/// What a forwarder of ingested operations answers when it cannot hand one on.
#[derive(Debug, PartialEq, Eq)]
pub enum IngestorError {
    /// The channel to the pipeline did not take the message.
    ChannelError(String),
}

/// A connector could not go on.
#[derive(Debug, PartialEq, Eq)]
pub enum ConnectorError {
    TableNotFound(String),
    ColumnsNotFound,
    /// The connector was used before it was given an ingestor.
    InitializationError,
    WrongConnectionConfiguration,
    UnsupportedConnectorMethod(String),
    UnexpectedQueryMessageError,
    SchemaIdentifierNotFound,
    PostgresSchemaError(PostgresSchemaError),
    SnowflakeStreamError(SnowflakeStreamError),
    TypeError(TypeError),
    InternalError(String),
    IngestorError(IngestorError),
    EthTooManyRecurisions(usize),
    EmptyMessage,
}

} // verus!
