//! Replaying one transaction on a network of its own, by way of a certificate.
use crate::error::{LocalExecError, SuiError};
use crate::inputs::{keys_of, object_keys};
use crate::local_exec::LocalExec;
use crate::sandbox::ExecutionSandboxState;
use crate::types::{
    clone_objects, Object, ObjectID, SequenceNumber, TransactionDigest, TransactionEffects,
};
use std::sync::Arc;
use vstd::prelude::*;

verus! {

/// The length of an epoch of the network that is set up.
pub const ONE_DAY_MS: u64 = 86_400_000;

/// The validator to set up.
#[derive(Debug, PartialEq)]
pub struct AuthorityPlan {
    pub protocol_version: u64,
    pub reference_gas_price: u64,
    pub objects: Vec<Object>,
}

/// The epoch to begin on the validator. It has no validators of its own.
#[derive(Clone, Copy, Debug, PartialEq, Eq, Structural)]
pub struct EpochPlan {
    pub epoch: u64,
    pub protocol_version: u64,
    pub reference_gas_price: u64,
    pub safe_mode: bool,
    pub epoch_start_timestamp_ms: u64,
    pub epoch_duration_ms: u64,
    /// The epoch that the committee of the validator is moved to.
    pub committee_epoch: u64,
}

/// The validator that has some objects.
pub fn authority_state(
    protocol_version: u64,
    objects: &Vec<Object>,
    reference_gas_price: u64,
) -> (r: AuthorityPlan)
    ensures
        r.protocol_version == protocol_version,
        r.reference_gas_price == reference_gas_price,
        r.objects@ == objects@,
{
    AuthorityPlan { protocol_version, reference_gas_price, objects: clone_objects(objects) }
}

/// The epoch in which a transaction was executed.
pub fn create_epoch_store(
    reference_gas_price: u64,
    executed_epoch: u64,
    epoch_start_timestamp: u64,
    protocol_version: u64,
) -> (r: EpochPlan)
    ensures
        r == (EpochPlan {
            epoch: executed_epoch,
            protocol_version,
            reference_gas_price,
            safe_mode: false,
            epoch_start_timestamp_ms: epoch_start_timestamp,
            epoch_duration_ms: ONE_DAY_MS,
            committee_epoch: executed_epoch,
        }),
{
    EpochPlan {
        epoch: executed_epoch,
        protocol_version,
        reference_gas_price,
        safe_mode: false,
        epoch_start_timestamp_ms: epoch_start_timestamp,
        epoch_duration_ms: ONE_DAY_MS,
        committee_epoch: executed_epoch,
    }
}

/// The network that a transaction is replayed on: a validator with the objects that the
/// transaction needs, in the epoch in which it was executed.
pub fn prep_network(
    objects: &Vec<Object>,
    reference_gas_price: u64,
    executed_epoch: u64,
    epoch_start_timestamp: u64,
    protocol_version: u64,
) -> (r: (AuthorityPlan, EpochPlan))
    ensures
        is_network_for(
            r.0,
            r.1,
            objects@,
            reference_gas_price,
            executed_epoch,
            epoch_start_timestamp,
            protocol_version,
        ),
{
    (
        authority_state(protocol_version, objects, reference_gas_price),
        create_epoch_store(
            reference_gas_price,
            executed_epoch,
            epoch_start_timestamp,
            protocol_version,
        ),
    )
}

/// Whether a network is the one to replay a transaction on.
pub open spec fn is_network_for(
    authority: AuthorityPlan,
    epoch: EpochPlan,
    objects: Seq<Object>,
    reference_gas_price: u64,
    executed_epoch: u64,
    epoch_start_timestamp: u64,
    protocol_version: u64,
) -> bool {
    &&& authority.protocol_version == protocol_version
    &&& authority.reference_gas_price == reference_gas_price
    &&& authority.objects@ == objects
    &&& epoch == (EpochPlan {
        epoch: executed_epoch,
        protocol_version,
        reference_gas_price,
        safe_mode: false,
        epoch_start_timestamp_ms: epoch_start_timestamp,
        epoch_duration_ms: ONE_DAY_MS,
        committee_epoch: executed_epoch,
    })
}

/// What has been done last, and what came of it.
#[derive(Debug)]
pub enum CertificateEvent<E> {
    /// Nothing has been done yet.
    Begin,
    NetworkPrepared,
    /// The validator has taken the transaction, or not.
    TransactionHandled(Result<(), SuiError>),
    /// There is a certificate with this digest.
    Certified(TransactionDigest),
    SharedVersionsSet,
    EpochLocked,
    /// The certificate has been executed: the effects or why they could not be read,
    /// and the error, if there was one.
    Executed { effects: Result<Arc<TransactionEffects>, LocalExecError>, error: Option<E> },
}

/// What to do next.
#[derive(Debug)]
pub enum CertificateAction<S, E> {
    PrepareNetwork(AuthorityPlan, EpochPlan),
    /// Hand the signed transaction to the validator.
    HandleTransaction(Arc<Vec<u8>>),
    /// Make a certificate from the vote of the validator, with a committee that has been moved
    /// to this epoch.
    Certify { epoch: u64 },
    /// Fix the versions at which a transaction sees shared objects.
    SetSharedVersions { tx: TransactionDigest, versions: Vec<(ObjectID, SequenceNumber)> },
    /// Let the validator execute transactions of this epoch.
    LockEpoch(u64),
    ExecuteCertificate,
    Done(Result<ExecutionSandboxState<S, E>, LocalExecError>),
}

/// What follows on an event when a transaction is replayed with the state of another replay.
pub open spec fn certificate_step<S, E>(
    pre_run: &ExecutionSandboxState<S, E>,
    event: CertificateEvent<E>,
    r: CertificateAction<S, E>,
) -> bool {
    let info = pre_run.transaction_info;
    match event {
        CertificateEvent::Begin => r matches CertificateAction::PrepareNetwork(authority, epoch)
            && is_network_for(
            authority,
            epoch,
            pre_run.required_objects@,
            info.reference_gas_price,
            info.executed_epoch,
            info.epoch_start_timestamp,
            info.protocol_version,
        ),
        CertificateEvent::NetworkPrepared => r == CertificateAction::<S, E>::HandleTransaction(
            info.raw_transaction,
        ),
        CertificateEvent::TransactionHandled(Err(err)) => r == CertificateAction::<S, E>::Done(
            Err(LocalExecError::SuiError { err }),
        ),
        CertificateEvent::TransactionHandled(Ok(())) => r == CertificateAction::<S, E>::Certify {
            epoch: info.executed_epoch,
        },
        CertificateEvent::Certified(digest) => r matches CertificateAction::SetSharedVersions {
            tx,
            versions,
        } && tx == digest && versions@ == keys_of(info.shared_object_refs@),
        CertificateEvent::SharedVersionsSet => r == CertificateAction::<S, E>::LockEpoch(
            info.executed_epoch,
        ),
        CertificateEvent::EpochLocked => r == CertificateAction::<S, E>::ExecuteCertificate,
        CertificateEvent::Executed { effects: Err(err), .. } => r == CertificateAction::<
            S,
            E,
        >::Done(Err(err)),
        CertificateEvent::Executed { effects: Ok(effects), error } => {
            &&& r matches CertificateAction::Done(Ok(state))
            &&& state.transaction_info == info
            &&& state.required_objects@ == pre_run.required_objects@
            &&& state.local_exec_temporary_store is None
            &&& state.local_exec_effects == effects
            &&& state.local_exec_status == match error {
                Some(error) => Err(error),
                None => Ok(()),
            }
        },
    }
}

impl LocalExec {
    /// Replays a transaction with the state of another replay of it, on a network that
    /// is set up for the purpose. The network is prepared, the validator takes the
    /// transaction and votes for it, the vote becomes a certificate, and the certificate is
    /// executed in the epoch of the transaction. The temporary store is not captured.
    ///
    /// Other transaction data than that of the transaction is not supported.
    pub fn certificate_execute_with_sandbox_state<S, E>(
        &self,
        pre_run_sandbox: &ExecutionSandboxState<S, E>,
        override_transaction_data: Option<Arc<Vec<u8>>>,
        event: CertificateEvent<E>,
    ) -> (r: CertificateAction<S, E>)
        requires
            override_transaction_data is None,
        ensures
            certificate_step(pre_run_sandbox, event, r),
    {
        let info = &pre_run_sandbox.transaction_info;
        match event {
            CertificateEvent::Begin => {
                let (authority, epoch) = prep_network(
                    &pre_run_sandbox.required_objects,
                    info.reference_gas_price,
                    info.executed_epoch,
                    info.epoch_start_timestamp,
                    info.protocol_version,
                );
                CertificateAction::PrepareNetwork(authority, epoch)
            },
            CertificateEvent::NetworkPrepared => CertificateAction::HandleTransaction(
                match override_transaction_data {
                    Some(data) => data,
                    None => info.raw_transaction.clone(),
                },
            ),
            CertificateEvent::TransactionHandled(handled) => match handled {
                Ok(()) => CertificateAction::Certify { epoch: info.executed_epoch },
                Err(err) => CertificateAction::Done(Err(LocalExecError::SuiError { err })),
            },
            CertificateEvent::Certified(tx) => CertificateAction::SetSharedVersions {
                tx,
                versions: object_keys(&info.shared_object_refs),
            },
            CertificateEvent::SharedVersionsSet => CertificateAction::LockEpoch(
                info.executed_epoch,
            ),
            CertificateEvent::EpochLocked => CertificateAction::ExecuteCertificate,
            CertificateEvent::Executed { effects, error } => {
                let local_exec_status = match error {
                    Some(error) => Err(error),
                    None => Ok(()),
                };
                match effects {
                    Ok(effects) => CertificateAction::Done(
                        Ok(
                            ExecutionSandboxState {
                                transaction_info: info.clone(),
                                required_objects: clone_objects(&pre_run_sandbox.required_objects),
                                local_exec_temporary_store: None,
                                local_exec_effects: effects,
                                local_exec_status,
                            },
                        ),
                    ),
                    Err(err) => CertificateAction::Done(Err(err)),
                }
            },
        }
    }
}

/// A replay by way of a certificate sets up a network with exactly the objects that the other
/// replay needed, in the epoch of the transaction: with its number, its protocol version, its
/// gas price and its time, not in safe mode, and one day long.
pub proof fn law_the_network_is_that_of_the_transaction<S, E>(
    exec: &LocalExec,
    pre_run: &ExecutionSandboxState<S, E>,
    r: CertificateAction<S, E>,
)
    requires
        call_ensures(
            LocalExec::certificate_execute_with_sandbox_state::<S, E>,
            (exec, pre_run, None::<Arc<Vec<u8>>>, CertificateEvent::<E>::Begin),
            r,
        ),
    ensures
        ({
            let info = pre_run.transaction_info;
            &&& r matches CertificateAction::PrepareNetwork(authority, epoch)
            &&& authority.objects@ == pre_run.required_objects@
            &&& authority.protocol_version == info.protocol_version
            &&& authority.reference_gas_price == info.reference_gas_price
            &&& epoch.epoch == info.executed_epoch
            &&& epoch.committee_epoch == info.executed_epoch
            &&& epoch.protocol_version == info.protocol_version
            &&& epoch.reference_gas_price == info.reference_gas_price
            &&& epoch.epoch_start_timestamp_ms == info.epoch_start_timestamp
            &&& epoch.epoch_duration_ms == 24 * 60 * 60 * 1000
            &&& !epoch.safe_mode
        }),
{
}

/// After that, the signed transaction is handed over as it was submitted. If it is taken, it is
/// certified in its epoch, the versions of all its shared objects are fixed for the certificate,
/// its epoch is locked, and the certificate is executed. If it is not taken, that is the error.
pub proof fn law_a_certificate_is_made_and_executed<S, E>(
    exec: &LocalExec,
    pre_run: &ExecutionSandboxState<S, E>,
    event: CertificateEvent<E>,
    r: CertificateAction<S, E>,
)
    requires
        call_ensures(
            LocalExec::certificate_execute_with_sandbox_state::<S, E>,
            (exec, pre_run, None::<Arc<Vec<u8>>>, event),
            r,
        ),
    ensures
        ({
            let info = pre_run.transaction_info;
            match event {
                CertificateEvent::Begin => r is PrepareNetwork,
                CertificateEvent::NetworkPrepared => r == CertificateAction::<
                    S,
                    E,
                >::HandleTransaction(info.raw_transaction),
                CertificateEvent::TransactionHandled(Ok(())) => r == CertificateAction::<
                    S,
                    E,
                >::Certify { epoch: info.executed_epoch },
                CertificateEvent::TransactionHandled(Err(err)) => r == CertificateAction::<
                    S,
                    E,
                >::Done(Err(LocalExecError::SuiError { err })),
                CertificateEvent::Certified(digest) => {
                    &&& r matches CertificateAction::SetSharedVersions { tx, versions }
                    &&& tx == digest
                    &&& versions@.len() == info.shared_object_refs@.len()
                    &&& forall|k: int|
                        0 <= k < versions@.len() ==> #[trigger] versions@[k] == (
                            info.shared_object_refs@[k].0,
                            info.shared_object_refs@[k].1,
                        )
                },
                CertificateEvent::SharedVersionsSet => r == CertificateAction::<S, E>::LockEpoch(
                    info.executed_epoch,
                ),
                CertificateEvent::EpochLocked => r is ExecuteCertificate,
                CertificateEvent::Executed { .. } => r is Done,
            }
        }),
{
}

/// What came of the certificate is the outcome: its effects, and its error where it had one. The
/// transaction and the objects are those of the other replay, and there is no temporary store.
pub proof fn law_the_outcome_of_the_certificate_is_kept<S, E>(
    exec: &LocalExec,
    pre_run: &ExecutionSandboxState<S, E>,
    effects: Result<Arc<TransactionEffects>, LocalExecError>,
    error: Option<E>,
    r: CertificateAction<S, E>,
)
    requires
        call_ensures(
            LocalExec::certificate_execute_with_sandbox_state::<S, E>,
            (
                exec,
                pre_run,
                None::<Arc<Vec<u8>>>,
                CertificateEvent::Executed { effects, error },
            ),
            r,
        ),
    ensures
        match effects {
            Err(err) => r == CertificateAction::<S, E>::Done(Err(err)),
            Ok(effects) => {
                &&& r matches CertificateAction::Done(Ok(state))
                &&& state.transaction_info == pre_run.transaction_info
                &&& state.required_objects@ == pre_run.required_objects@
                &&& state.local_exec_temporary_store is None
                &&& state.local_exec_effects == effects
                &&& error matches Some(e) ==> state.local_exec_status == Err::<(), _>(e)
                &&& error is None ==> state.local_exec_status == Ok::<_, E>(())
            },
        },
{
}

/// The plans that a network is made of hold what they are given.
pub proof fn law_plans_hold_what_they_are_given(
    objects: &Vec<Object>,
    reference_gas_price: u64,
    executed_epoch: u64,
    epoch_start_timestamp: u64,
    protocol_version: u64,
    r: (AuthorityPlan, EpochPlan),
    authority: AuthorityPlan,
    epoch: EpochPlan,
)
    requires
        call_ensures(
            prep_network,
            (
                objects,
                reference_gas_price,
                executed_epoch,
                epoch_start_timestamp,
                protocol_version,
            ),
            r,
        ),
        call_ensures(
            authority_state,
            (protocol_version, objects, reference_gas_price),
            authority,
        ),
        call_ensures(
            create_epoch_store,
            (reference_gas_price, executed_epoch, epoch_start_timestamp, protocol_version),
            epoch,
        ),
    ensures
        authority.objects@ == objects@,
        authority.protocol_version == protocol_version,
        authority.reference_gas_price == reference_gas_price,
        r.0.objects@ == objects@,
        r.0.protocol_version == protocol_version,
        r.0.reference_gas_price == reference_gas_price,
        r.1 == epoch,
        epoch.epoch == executed_epoch,
        epoch.committee_epoch == executed_epoch,
        epoch.protocol_version == protocol_version,
        epoch.reference_gas_price == reference_gas_price,
        epoch.epoch_start_timestamp_ms == epoch_start_timestamp,
        epoch.epoch_duration_ms == 24 * 60 * 60 * 1000,
        !epoch.safe_mode,
{
}

} // verus!
