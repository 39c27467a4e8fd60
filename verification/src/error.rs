//! What can go wrong in a replay.
use crate::event::SuiEvent;
use crate::types::{
    ObjectDigest, ObjectID, Owner, SequenceNumber, TransactionDigest, TransactionEffects,
};
use std::sync::Arc;
use vstd::prelude::*;

verus! {

/// The text of an error: a message, or the message of another error.
#[derive(Debug, PartialEq)]
pub enum ErrorText {
    Message(String),
    Of(Arc<LocalExecError>),
}

impl Clone for ErrorText {
    fn clone(&self) -> (r: Self)
        ensures
            r == *self,
    {
        match self {
            ErrorText::Message(text) => ErrorText::Message(text.clone()),
            ErrorText::Of(err) => ErrorText::Of(err.clone()),
        }
    }
}

/// What a store of objects answers when it cannot serve a request.
#[derive(Debug, PartialEq)]
pub enum SuiError {
    GenericStorageError(ErrorText),
    InvalidChildObjectAccess { object: ObjectID, given_parent: ObjectID, actual_owner: Owner },
    /// Any other failure, by its message.
    Other(String),
}

impl Clone for SuiError {
    fn clone(&self) -> (r: Self)
        ensures
            r == *self,
    {
        match self {
            SuiError::GenericStorageError(err) => SuiError::GenericStorageError(err.clone()),
            SuiError::InvalidChildObjectAccess { object, given_parent, actual_owner } => {
                SuiError::InvalidChildObjectAccess {
                    object: *object,
                    given_parent: *given_parent,
                    actual_owner: *actual_owner,
                }
            },
            SuiError::Other(text) => SuiError::Other(text.clone()),
        }
    }
}

/// Why a replay or one of its steps failed.
#[derive(Debug, PartialEq)]
#[allow(inconsistent_fields)]
pub enum LocalExecError {
    SuiError { err: SuiError },
    /// The node answered a request with an error.
    SuiRpcError { err: ErrorText },
    /// The node did not answer in time.
    SuiRpcRequestTimeout,
    UnableToQuerySystemEvents { rpc_err: String },
    /// A text that should name a struct type does not.
    InvalidStructTag { err: String },
    /// An object that must be in a cache is not there.
    InternalCacheInvariantViolation { id: ObjectID, version: Option<SequenceNumber> },
    FrameworkObjectVersionTableNotPopulated { epoch: u64 },
    ProtocolVersionNotFound { epoch: u64 },
    EventNotFound { epoch: u64 },
    UnableToDetermineCheckpoint { epoch: u64 },
    UnexpectedEventFormat { event: SuiEvent },
    InvalidEpochChangeTx { epoch: u64 },
    ObjectNotExist { id: ObjectID },
    ObjectVersionNotFound { id: ObjectID, version: SequenceNumber },
    ObjectVersionTooHigh {
        id: ObjectID,
        asked_version: SequenceNumber,
        latest_version: SequenceNumber,
    },
    ObjectDeleted { id: ObjectID, version: SequenceNumber, digest: ObjectDigest },
    UserInputError { err: String },
    /// The local outcome differs from the one on chain.
    EffectsForked {
        digest: TransactionDigest,
        diff: String,
        on_chain: Arc<TransactionEffects>,
        local: Arc<TransactionEffects>,
    },
    /// Any other failure, by its message.
    Other { err: String },
}

impl Clone for LocalExecError {
    fn clone(&self) -> (r: Self)
        ensures
            r == *self,
    {
        match self {
            LocalExecError::SuiError { err } => LocalExecError::SuiError { err: err.clone() },
            LocalExecError::SuiRpcError { err } => LocalExecError::SuiRpcError { err: err.clone() },
            LocalExecError::SuiRpcRequestTimeout => LocalExecError::SuiRpcRequestTimeout,
            LocalExecError::UnableToQuerySystemEvents { rpc_err } => {
                LocalExecError::UnableToQuerySystemEvents { rpc_err: rpc_err.clone() }
            },
            LocalExecError::InvalidStructTag { err } => {
                LocalExecError::InvalidStructTag { err: err.clone() }
            },
            LocalExecError::InternalCacheInvariantViolation { id, version } => {
                LocalExecError::InternalCacheInvariantViolation { id: *id, version: *version }
            },
            LocalExecError::FrameworkObjectVersionTableNotPopulated { epoch } => {
                LocalExecError::FrameworkObjectVersionTableNotPopulated { epoch: *epoch }
            },
            LocalExecError::ProtocolVersionNotFound { epoch } => {
                LocalExecError::ProtocolVersionNotFound { epoch: *epoch }
            },
            LocalExecError::EventNotFound { epoch } => LocalExecError::EventNotFound {
                epoch: *epoch,
            },
            LocalExecError::UnableToDetermineCheckpoint { epoch } => {
                LocalExecError::UnableToDetermineCheckpoint { epoch: *epoch }
            },
            LocalExecError::UnexpectedEventFormat { event } => {
                LocalExecError::UnexpectedEventFormat { event: event.clone() }
            },
            LocalExecError::InvalidEpochChangeTx { epoch } => {
                LocalExecError::InvalidEpochChangeTx { epoch: *epoch }
            },
            LocalExecError::ObjectNotExist { id } => LocalExecError::ObjectNotExist { id: *id },
            LocalExecError::ObjectVersionNotFound { id, version } => {
                LocalExecError::ObjectVersionNotFound { id: *id, version: *version }
            },
            LocalExecError::ObjectVersionTooHigh { id, asked_version, latest_version } => {
                LocalExecError::ObjectVersionTooHigh {
                    id: *id,
                    asked_version: *asked_version,
                    latest_version: *latest_version,
                }
            },
            LocalExecError::ObjectDeleted { id, version, digest } => {
                LocalExecError::ObjectDeleted { id: *id, version: *version, digest: *digest }
            },
            LocalExecError::UserInputError { err } => LocalExecError::UserInputError {
                err: err.clone(),
            },
            LocalExecError::EffectsForked { digest, diff, on_chain, local } => {
                LocalExecError::EffectsForked {
                    digest: *digest,
                    diff: diff.clone(),
                    on_chain: on_chain.clone(),
                    local: local.clone(),
                }
            },
            LocalExecError::Other { err } => LocalExecError::Other { err: err.clone() },
        }
    }
}

} // verus!
